//! Small pieces around the codec: the progress-reporting hooks, the
//! "three newest assets" selection, script hints, and the room-size
//! fallbacks.

use vstd::prelude::*;
use crate::asset::Room;
use crate::error::Error;

verus! {

/// The stand-in progress sender used when no progress consumer runs: every
/// tick is dropped.
pub struct FakeSender;

impl FakeSender {
    /// Accepts and discards one progress tick.
    pub fn send(&self, _tick: ()) -> (r: ())
        ensures
            r == (),
    {
    }
}

/// Runs one save or load step, handing it a sender for its progress ticks.
/// Without a consumer the ticks go nowhere and the step's own result is
/// returned unchanged.
pub fn run_while_updating_bar<OP: Fn(FakeSender) -> Result<(), Error>>(
    _bar_start: u32,
    _bar_end: u32,
    _count: u32,
    op: OP,
) -> (r: Result<(), Error>)
    requires
        op.requires((FakeSender,)),
    ensures
        op.ensures((FakeSender,), r),
{
    op(FakeSender)
}

/// Where the progress display stands after `ticks` of `count` work items,
/// scaled into the bar range.
pub fn progress_position(ticks: u32, bar_start: u32, bar_end: u32, count: u32) -> (r: u32)
    requires
        bar_start <= bar_end,
        count > 0,
        ticks <= count,
    ensures
        r as int == (ticks as int) * ((bar_end - bar_start) as int) / (count as int)
            + bar_start as int,
        bar_start <= r <= bar_end,
{
    let span: u64 = (bar_end - bar_start) as u64;
    proof {
        assert((ticks as int) * (span as int) < 0x1_0000_0000_0000_0000) by (nonlinear_arith)
            requires
                (ticks as int) < 0x1_0000_0000,
                (span as int) < 0x1_0000_0000,
        {
        }
    }
    let num: u64 = ticks as u64 * span;
    proof {
        assert((ticks as int) * (span as int) / (count as int) <= span as int) by (nonlinear_arith)
            requires
                0 < (count as int),
                (ticks as int) <= (count as int),
                0 <= (span as int),
        {
        }
        assert((ticks as int) * (span as int) / (count as int) >= 0);
    }
    let q: u64 = num / count as u64;
    (q as u32) + bar_start
}

/// The up-to-three most recently created assets of one list: the largest
/// slot indexes still holding an asset, in ascending order. Anything
/// present but not picked is below every pick.
pub fn three_newest_ids(present: &Vec<bool>) -> (r: Vec<usize>)
    ensures
        r@.len() <= 3,
        forall|k: int| 0 <= k < r@.len() ==> #[trigger] r@[k] < present@.len() && present@[r@[k] as int],
        forall|k: int| 0 < k < r@.len() ==> #[trigger] r@[k] > r@[k - 1],
        forall|i: int|
            0 <= i < present@.len() && present@[i] ==> (exists|k: int|
                0 <= k < r@.len() && #[trigger] r@[k] == i) || (r@.len() == 3 && i < r@[0]),
{
    let mut picked: Vec<usize> = Vec::new();
    let mut i: usize = present.len();
    while i > 0 && picked.len() < 3
        invariant
            0 <= i <= present@.len(),
            picked@.len() <= 3,
            // picked holds the present indexes at or above i, descending
            forall|k: int|
                0 <= k < picked@.len() ==> #[trigger] picked@[k] < present@.len()
                    && present@[picked@[k] as int] && picked@[k] >= i,
            forall|k: int| 0 < k < picked@.len() ==> #[trigger] picked@[k] < picked@[k - 1],
            forall|j: int|
                i <= j < present@.len() && present@[j] ==> (exists|k: int|
                    0 <= k < picked@.len() && #[trigger] picked@[k] == j),
        decreases i,
    {
        if present[i - 1] {
            let ghost pk_old = picked@;
            picked.push(i - 1);
            proof {
                assert(picked@[picked@.len() - 1] == i - 1);
                assert forall|j: int|
                    i - 1 <= j < present@.len() && present@[j] implies (exists|k: int|
                    0 <= k < picked@.len() && #[trigger] picked@[k] == j) by {
                    if j == i - 1 {
                        assert(picked@[picked@.len() - 1] == j);
                    } else {
                        let k = choose|k: int| 0 <= k < pk_old.len() && pk_old[k] == j;
                        assert(picked@[k] == pk_old[k]);
                    }
                }
            }
        }
        i = i - 1;
    }
    // reverse into ascending order
    let mut out: Vec<usize> = Vec::new();
    let mut k: usize = picked.len();
    while k > 0
        invariant
            0 <= k <= picked@.len(),
            out@.len() == picked@.len() - k,
            forall|m: int|
                0 <= m < out@.len() ==> #[trigger] out@[m] == picked@[picked@.len() - 1 - m],
        decreases k,
    {
        out.push(picked[k - 1]);
        k = k - 1;
    }
    proof {
        assert forall|m: int| 0 < m < out@.len() implies #[trigger] out@[m] > out@[m - 1] by {
            assert(out@[m] == picked@[picked@.len() - 1 - m]);
            assert(out@[m - 1] == picked@[picked@.len() - m]);
        }
        if picked@.len() == 3 {
            assert forall|i2: int|
                0 <= i2 < present@.len() && present@[i2] && !(exists|kk: int|
                    0 <= kk < out@.len() && #[trigger] out@[kk] == i2) implies i2 < out@[0] by {
                if i2 >= i {
                    let kk = choose|kk: int| 0 <= kk < picked@.len() && picked@[kk] == i2;
                    assert(out@[picked@.len() - 1 - kk] == picked@[kk]);
                    assert(false);
                } else {
                    assert(out@[0] == picked@[picked@.len() - 1]);
                    assert(picked@[picked@.len() - 1] >= i);
                }
            }
        } else {
            assert(i == 0 || picked@.len() == 3);
            assert forall|i2: int|
                0 <= i2 < present@.len() && present@[i2] implies (exists|kk: int|
                0 <= kk < out@.len() && #[trigger] out@[kk] == i2) by {
                let kk = choose|kk: int| 0 <= kk < picked@.len() && picked@[kk] == i2;
                assert(out@[picked@.len() - 1 - kk] == picked@[kk]);
            }
        }
    }
    out
}

/// The position of the first occurrence of a byte, or -1.
pub open spec fn find_byte(s: Seq<u8>, b: u8) -> int
    decreases s.len(),
{
    if s.len() == 0 {
        -1
    } else if s[0] == b {
        0
    } else {
        let r = find_byte(s.drop_first(), b);
        if r < 0 {
            -1
        } else {
            r + 1
        }
    }
}

pub proof fn lemma_find_byte_exact(s: Seq<u8>, b: u8, r: int)
    requires
        0 <= r < s.len(),
        s[r] == b,
        forall|j: int| 0 <= j < r ==> #[trigger] s[j] != b,
    ensures
        find_byte(s, b) == r,
    decreases r,
{
    if r > 0 {
        assert(forall|j: int|
            0 <= j < s.drop_first().len() ==> #[trigger] s.drop_first()[j] == s[j + 1]);
        lemma_find_byte_exact(s.drop_first(), b, r - 1);
    }
}

pub proof fn lemma_find_byte_none(s: Seq<u8>, b: u8)
    requires
        forall|j: int| 0 <= j < s.len() ==> #[trigger] s[j] != b,
    ensures
        find_byte(s, b) < 0,
    decreases s.len(),
{
    if s.len() > 0 {
        assert(forall|j: int|
            0 <= j < s.drop_first().len() ==> #[trigger] s.drop_first()[j] == s[j + 1]);
        lemma_find_byte_none(s.drop_first(), b);
    }
}

/// Finds the first occurrence of a byte.
pub fn find_byte_from(s: &[u8], b: u8) -> (r: Option<usize>)
    ensures
        match r {
            Some(p) => find_byte(s@, b) == p && p < s@.len(),
            None => find_byte(s@, b) < 0,
        },
{
    let mut i: usize = 0;
    while i < s.len()
        invariant
            0 <= i <= s@.len(),
            forall|j: int| 0 <= j < i ==> #[trigger] s@[j] != b,
        decreases s@.len() - i,
    {
        if s[i] == b {
            proof {
                lemma_find_byte_exact(s@, b, i as int);
            }
            return Some(i);
        }
        i = i + 1;
    }
    proof {
        lemma_find_byte_none(s@, b);
    }
    None
}

/// A script's first line, when the script opens with the hint marker
/// `///`: the text after the three slashes up to the end of the line.
pub fn script_hint(source: &Vec<u8>) -> (r: Option<Vec<u8>>)
    ensures
        r is Some <==> source@.len() >= 3 && source@[0] == 47 && source@[1] == 47 && source@[2]
            == 47,
        r matches Some(h) ==> {
            let end = if find_byte(source@, 13) >= 0 {
                find_byte(source@, 13)
            } else {
                source@.len() as int
            };
            h@ == if end >= 3 {
                source@.subrange(3, end)
            } else {
                Seq::<u8>::empty()
            }
        },
{
    if source.len() < 3 || source[0] != 47 || source[1] != 47 || source[2] != 47 {
        return None;
    }
    let end = match find_byte_from(source.as_slice(), 13) {
        Some(p) => p,
        None => source.len(),
    };
    if end < 3 {
        return Some(Vec::new());
    }
    Some(crate::bytes::bytes_to_vec(vstd::slice::slice_subrange(source.as_slice(), 3, end)))
}

/// The argument hint of a script that opens with `///`: from the first
/// opening parenthesis of the hint line to the end of the line.
pub fn script_arg_hint(source: &Vec<u8>) -> (r: Option<Vec<u8>>)
    ensures
        r is Some <==> source@.len() >= 3 && source@[0] == 47 && source@[1] == 47 && source@[2]
            == 47 && find_byte(source@, 40) >= 0,
        r matches Some(h) ==> {
            let paren = find_byte(source@, 40);
            let end = if find_byte(source@, 13) >= 0 {
                find_byte(source@, 13)
            } else {
                source@.len() as int
            };
            h@ == if end >= paren {
                source@.subrange(paren, end)
            } else {
                Seq::<u8>::empty()
            }
        },
{
    if source.len() < 3 || source[0] != 47 || source[1] != 47 || source[2] != 47 {
        return None;
    }
    let paren = match find_byte_from(source.as_slice(), 40) {
        Some(p) => p,
        None => {
            return None;
        },
    };
    let end = match find_byte_from(source.as_slice(), 13) {
        Some(p) => p,
        None => source.len(),
    };
    if end < paren {
        return Some(Vec::new());
    }
    Some(crate::bytes::bytes_to_vec(vstd::slice::slice_subrange(source.as_slice(), paren, end)))
}

/// Replaces zeroed room-size settings read from the host's configuration
/// with the documented fallbacks, keeping the previous speed when the
/// stored speed is zero.
pub fn fix_broken_room_size(width: u32, height: u32, speed: u32, prev_speed: u32) -> (r: (
    u32,
    u32,
    u32,
))
    ensures
        r.0 == if width == 0 {
            800u32
        } else {
            width
        },
        r.1 == if height == 0 {
            608u32
        } else {
            height
        },
        r.2 == if speed == 0 {
            prev_speed
        } else {
            speed
        },
{
    (
        if width == 0 {
            800
        } else {
            width
        },
        if height == 0 {
            608
        } else {
            height
        },
        if speed == 0 {
            prev_speed
        } else {
            speed
        },
    )
}

/// Applies the configured default size to a new room: its own dimensions
/// and speed, and the size of every view and port.
pub fn apply_default_room_size(room: &mut Room, width: u32, height: u32, speed: u32)
    ensures
        final(room).width == width,
        final(room).height == height,
        final(room).speed == speed,
        final(room).views@.len() == old(room).views@.len(),
        forall|i: int|
            0 <= i < final(room).views@.len() ==> {
                &&& (#[trigger] final(room).views@[i]).source_w == width
                &&& final(room).views@[i].source_h == height
                &&& final(room).views@[i].port_w == width
                &&& final(room).views@[i].port_h == height
            },
{
    room.width = width;
    room.height = height;
    room.speed = speed;
    let mut i: usize = 0;
    while i < room.views.len()
        invariant
            0 <= i <= room.views@.len(),
            room.views@.len() == old(room).views@.len(),
            room.width == width,
            room.height == height,
            room.speed == speed,
            forall|j: int|
                0 <= j < i ==> {
                    &&& (#[trigger] room.views@[j]).source_w == width
                    &&& room.views@[j].source_h == height
                    &&& room.views@[j].port_w == width
                    &&& room.views@[j].port_h == height
                },
        decreases room.views@.len() - i,
    {
        let mut v = room.views[i];
        v.source_w = width;
        v.source_h = height;
        v.port_w = width;
        v.port_h = height;
        room.views.set(i, v);
        i = i + 1;
    }
}

} // verus!
