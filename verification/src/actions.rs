//! The action codec: an ordered action list to and from one embedded text.
//!
//! Machine-generated actions are wrapped between a marker line — a fixed,
//! highly improbable token — and a header terminator, with the action's
//! header as key=value lines; an action's code follows its header, up to the
//! next marker. An event whose whole content is one plain code action is
//! written as the bare code, and bare text without a marker decodes back to
//! exactly that action, so hand-written event files stay natural.
//!
//! Only what the author chose is stored: library id, action id, the
//! applies-to target, the relative and invert flags and the parameters.
//! Everything the catalog knows about the action (its kind, flags and
//! parameter types) is taken from the catalog on decode, and a pair of ids
//! the catalog lacks fails with `UnknownAction`.

use vstd::prelude::*;
use crate::asset::{Action, ActionDefinition, ActionLibrary, action_eq};
use crate::bytes::{NL, EQ, dec_of, dec_of_int, enc_bool, bytes_to_vec, push_u64, push_i64,
    push_bool, push_bytes, lemma_u64_round_trip, lemma_i64_round_trip, lemma_bool_round_trip,
    lemma_dec_of_digits};
use crate::error::Error;
use crate::fields::{kv_map, lemma_kv_map_push, fld_u32, fld_i32, fld_bool, fld_bytes, val_ok_u32,
    val_ok_i32, val_ok_bool, parse_u32_val, parse_i32_val, parse_bool_val};
use crate::kv::{no_nl, wf_pairs, pairs_view, enc_pairs, find_nl, lemma_find_nl_props};
use crate::tree::clone_path;

verus! {

/// The library id of the built-in "execute a piece of code" action.
pub const CODE_LIB: u32 = 1;

/// The action id of the built-in "execute a piece of code" action.
pub const CODE_ACTION: u32 = 603;

/// The marker token that opens a machine-generated action block.
pub open spec fn marker() -> Seq<u8> {
    // /*"/*'/**//* YYD ACTION
    seq![
        47u8, 42u8, 34u8, 47u8, 42u8, 39u8, 47u8, 42u8, 42u8, 47u8, 47u8, 42u8, 32u8, 89u8,
        89u8, 68u8, 32u8, 65u8, 67u8, 84u8, 73u8, 79u8, 78u8,
    ]
}

/// The marker token as a line of its own.
pub open spec fn marker_line() -> Seq<u8> {
    marker().push(NL)
}

/// The line that closes an action block's header.
pub open spec fn end_line() -> Seq<u8> {
    seq![42u8, 47u8, NL]  // */
}

/// The marker token as executable bytes.
pub fn marker_bytes() -> (r: Vec<u8>)
    ensures
        r@ == marker(),
{
    let r: Vec<u8> = vec![
        47u8, 42u8, 34u8, 47u8, 42u8, 39u8, 47u8, 42u8, 42u8, 47u8, 47u8, 42u8, 32u8, 89u8,
        89u8, 68u8, 32u8, 65u8, 67u8, 84u8, 73u8, 79u8, 78u8,
    ];
    proof {
        assert(r@ =~= marker());
    }
    r
}

pub open spec fn starts_with(s: Seq<u8>, p: Seq<u8>) -> bool {
    s.len() >= p.len() && s.take(p.len() as int) == p
}

/// Whether `s` starts with the marker line.
pub fn starts_with_marker(s: &[u8], from: usize) -> (r: bool)
    requires
        from <= s@.len(),
    ensures
        r == starts_with(s@.skip(from as int), marker_line()),
{
    let m = marker_bytes();
    if s.len() - from < m.len() + 1 {
        assert(s@.skip(from as int).len() < marker_line().len());
        return false;
    }
    let mut i: usize = 0;
    while i < m.len()
        invariant
            0 <= i <= m@.len(),
            m@ == marker(),
            from + m@.len() + 1 <= s@.len() <= usize::MAX,
            forall|j: int| 0 <= j < i ==> s@.skip(from as int)[j] == marker_line()[j],
        decreases m@.len() - i,
    {
        if s[from + i] != m[i] {
            assert(s@.skip(from as int)[i as int] != marker_line()[i as int]);
            assert(!starts_with(s@.skip(from as int), marker_line()));
            return false;
        }
        i = i + 1;
    }
    if s[from + m.len()] != NL {
        assert(s@.skip(from as int)[marker().len() as int] != marker_line()[marker().len() as int]);
        assert(!starts_with(s@.skip(from as int), marker_line()));
        return false;
    }
    proof {
        assert(s@.skip(from as int).take(marker_line().len() as int) =~= marker_line());
    }
    true
}

/// Index of the first line that starts with the marker, or -1.
pub open spec fn find_marker(s: Seq<u8>) -> int
    decreases s.len(),
{
    if starts_with(s, marker_line()) {
        0
    } else {
        let j = find_nl(s);
        if j < 0 || j + 1 > s.len() {
            -1
        } else {
            let r = find_marker(s.skip(j + 1));
            if r < 0 {
                -1
            } else {
                j + 1 + r
            }
        }
    }
}

/// A code body that can be embedded: none of its lines, nor its last line
/// continued by a newline, opens an action block.
pub open spec fn code_clean(c: Seq<u8>) -> bool {
    find_marker(c.push(NL)) < 0
}

/// One parsed block of an event text: either bare code, or a header with an
/// optional code tail.
pub struct RawBlock {
    pub plain: bool,
    pub header: Seq<(u8, Seq<u8>)>,
    pub code: Seq<u8>,
}

/// Parses the key=value lines of a block header up to its closing line;
/// returns the pairs and what follows the closing line.
pub open spec fn parse_header(s: Seq<u8>) -> Option<(Seq<(u8, Seq<u8>)>, Seq<u8>)>
    decreases s.len(),
{
    if starts_with(s, end_line()) {
        Some((Seq::empty(), s.skip(3)))
    } else {
        let j = find_nl(s);
        if j < 0 || j + 1 > s.len() {
            None
        } else if j < 2 || s[1] != EQ {
            None
        } else {
            match parse_header(s.skip(j + 1)) {
                Some((ps, rest)) => Some((seq![(s[0], s.subrange(2, j))] + ps, rest)),
                None => None,
            }
        }
    }
}

pub proof fn lemma_parse_header_shrinks(s: Seq<u8>)
    ensures
        parse_header(s) is Some ==> (parse_header(s)->0).1.len() + 3 <= s.len(),
    decreases s.len(),
{
    if !starts_with(s, end_line()) {
        let j = find_nl(s);
        if 0 <= j && j + 1 <= s.len() {
            lemma_parse_header_shrinks(s.skip(j + 1));
        }
    }
}

/// Parses an event text into blocks: bare text is one plain block, marked
/// text is a list of header blocks, each owning the code up to the next
/// marker.
pub open spec fn parse_blocks(s: Seq<u8>) -> Option<Seq<RawBlock>>
    decreases s.len(),
    when true
    via parse_blocks_decreases
{
    if s.len() == 0 {
        Some(Seq::empty())
    } else if starts_with(s, marker_line()) {
        match parse_header(s.skip(marker_line().len() as int)) {
            Some((ps, after)) => {
                let m = find_marker(after);
                let codepart = if m < 0 {
                    after
                } else {
                    after.take(m)
                };
                let rest = if m < 0 {
                    Seq::<u8>::empty()
                } else {
                    after.skip(m)
                };
                if codepart.len() > 0 && codepart.last() != NL {
                    None
                } else {
                    let code = if codepart.len() > 0 {
                        codepart.drop_last()
                    } else {
                        codepart
                    };
                    match parse_blocks(rest) {
                        Some(t) => Some(
                            seq![RawBlock { plain: false, header: ps, code: code }] + t,
                        ),
                        None => None,
                    }
                }
            },
            None => None,
        }
    } else {
        if s.last() != NL {
            None
        } else {
            Some(seq![RawBlock { plain: true, header: Seq::empty(), code: s.drop_last() }])
        }
    }
}

#[via_fn]
proof fn parse_blocks_decreases(s: Seq<u8>) {
    if s.len() > 0 && starts_with(s, marker_line()) {
        lemma_parse_header_shrinks(s.skip(marker_line().len() as int));
        if parse_header(s.skip(marker_line().len() as int)) is Some {
            let after = (parse_header(s.skip(marker_line().len() as int))->0).1;
            let m = find_marker(after);
            lemma_find_marker_props(after);
        }
    }
}

pub proof fn lemma_find_marker_props(s: Seq<u8>)
    ensures
        find_marker(s) >= 0 ==> find_marker(s) + marker_line().len() <= s.len(),
    decreases s.len(),
{
    if !starts_with(s, marker_line()) {
        let j = find_nl(s);
        if 0 <= j && j + 1 <= s.len() {
            lemma_find_nl_props(s);
            lemma_find_marker_props(s.skip(j + 1));
        }
    }
}


/// Finds the next line that opens an action block, from `from` on.
pub fn find_marker_from(s: &[u8], from: usize) -> (r: Option<usize>)
    requires
        from <= s@.len(),
    ensures
        match r {
            Some(p) => from <= p <= s@.len() && find_marker(s@.skip(from as int)) == p - from,
            None => find_marker(s@.skip(from as int)) < 0,
        },
{
    let n = s.len();
    let mut pos: usize = from;
    while pos <= n
        invariant
            n == s@.len(),
            from <= pos <= s@.len(),
            find_marker(s@.skip(from as int)) == if find_marker(s@.skip(pos as int)) < 0 {
                -1int
            } else {
                pos - from + find_marker(s@.skip(pos as int))
            },
        decreases s@.len() - pos + 1,
    {
        if starts_with_marker(s, pos) {
            return Some(pos);
        }
        // advance past the next newline
        let mut j: usize = pos;
        while j < s.len() && s[j] != NL
            invariant
                pos <= j <= s@.len(),
                forall|m: int| pos <= m < j ==> #[trigger] s@[m] != NL,
            decreases s@.len() - j,
        {
            j = j + 1;
        }
        let ghost suf = s@.skip(pos as int);
        if j == s.len() {
            proof {
                lemma_find_nl_props(suf);
                if find_nl(suf) >= 0 {
                    assert(suf[find_nl(suf)] == s@[find_nl(suf) + pos]);
                }
                assert(find_nl(suf) < 0);
                assert(find_marker(suf) < 0);
            }
            return None;
        }
        proof {
            assert(forall|m: int| 0 <= m < j - pos ==> #[trigger] suf[m] == s@[m + pos]);
            assert(suf[j - pos] == s@[j as int]);
            crate::kv::lemma_find_nl_exact(suf, j - pos);
            assert(suf.skip(j - pos + 1) =~= s@.skip(j + 1));
        }
        pos = j + 1;
    }
    proof {
        assert(s@.skip(pos as int).len() == 0);
        assert(find_marker(s@.skip(pos as int)) < 0);
    }
    None
}

/// Parses the header lines of a block, from `from` up to and past the
/// closing line; returns the pairs and the position after the closing line.
pub fn parse_header_lines(s: &[u8], from: usize) -> (r: Option<(Vec<(u8, Vec<u8>)>, usize)>)
    requires
        from <= s@.len(),
    ensures
        match r {
            Some(p) => {
                &&& p.1 <= s@.len()
                &&& parse_header(s@.skip(from as int)) matches Some(h)
                &&& h.0 == pairs_view(p.0@)
                &&& h.1 == s@.skip(p.1 as int)
            },
            None => parse_header(s@.skip(from as int)) is None,
        },
    decreases s@.len() - from,
{
    let ghost suf = s@.skip(from as int);
    // the closing line?
    if s.len() - from >= 3 && s[from] == 42 && s[from + 1] == 47 && s[from + 2] == NL {
        proof {
            assert(suf.take(3) =~= end_line());
            assert(starts_with(suf, end_line()));
            assert(suf.skip(3) =~= s@.skip(from + 3));
        }
        return Some((Vec::new(), from + 3));
    }
    proof {
        if starts_with(suf, end_line()) {
            assert(suf.take(3)[0] == s@[from as int]);
            assert(suf.take(3)[1] == s@[from + 1]);
            assert(suf.take(3)[2] == s@[from + 2]);
            assert(false);
        }
    }
    // one key=value line
    let mut j: usize = from;
    while j < s.len() && s[j] != NL
        invariant
            from <= j <= s@.len(),
            forall|m: int| from <= m < j ==> #[trigger] s@[m] != NL,
        decreases s@.len() - j,
    {
        j = j + 1;
    }
    if j == s.len() {
        proof {
            lemma_find_nl_props(suf);
            if find_nl(suf) >= 0 {
                assert(suf[find_nl(suf)] == s@[find_nl(suf) + from]);
            }
            assert(find_nl(suf) < 0);
        }
        return None;
    }
    proof {
        assert(forall|m: int| 0 <= m < j - from ==> #[trigger] suf[m] == s@[m + from]);
        assert(suf[j - from] == s@[j as int]);
        crate::kv::lemma_find_nl_exact(suf, j - from);
    }
    if j - from < 2 || s[from + 1] != EQ {
        proof {
            if j - from >= 2 {
                assert(suf[1] == s@[from + 1]);
            }
        }
        return None;
    }
    let k = s[from];
    let val = bytes_to_vec(vstd::slice::slice_subrange(s, from + 2, j));
    proof {
        assert(suf[0] == s@[from as int]);
        assert(suf[1] == s@[from + 1]);
        assert(suf.subrange(2, j - from) =~= s@.subrange(from + 2, j as int));
        assert(suf.skip(j - from + 1) =~= s@.skip(j + 1));
    }
    match parse_header_lines(s, j + 1) {
        Some((mut ps, after)) => {
            let ghost tail = pairs_view(ps@);
            ps.insert(0, (k, val));
            proof {
                assert(pairs_view(ps@) =~= seq![(k, s@.subrange(from + 2, j as int))] + tail);
            }
            Some((ps, after))
        },
        None => None,
    }
}

/// One executable block of an event text.
pub struct Block {
    pub plain: bool,
    pub header: Vec<(u8, Vec<u8>)>,
    pub code: Vec<u8>,
}

pub open spec fn block_view(b: Block) -> RawBlock {
    RawBlock { plain: b.plain, header: pairs_view(b.header@), code: b.code@ }
}

pub open spec fn blocks_view(bs: Seq<Block>) -> Seq<RawBlock> {
    bs.map_values(|b: Block| block_view(b))
}

/// Splits an event text into blocks, mirroring `parse_blocks`.
pub fn split_blocks(s: &[u8], from: usize) -> (r: Option<Vec<Block>>)
    requires
        from <= s@.len(),
    ensures
        match r {
            Some(bs) => parse_blocks(s@.skip(from as int)) == Some(blocks_view(bs@)),
            None => parse_blocks(s@.skip(from as int)) is None,
        },
    decreases s@.len() - from,
{
    let ghost suf = s@.skip(from as int);
    if from == s.len() {
        let r: Vec<Block> = Vec::new();
        proof {
            assert(suf.len() == 0);
            assert(blocks_view(r@) =~= Seq::<RawBlock>::empty());
        }
        return Some(r);
    }
    if starts_with_marker(s, from) {
        // a marked block: header, then code up to the next marker
        assert(suf.skip(marker_line().len() as int) =~= s@.skip(from + 24));
        match parse_header_lines(s, from + 24) {
            None => {
                return None;
            },
            Some((ps, after)) => {
                proof {
                    lemma_parse_header_shrinks(s@.skip(from + 24));
                }
                let (codehi, resthi) = match find_marker_from(s, after) {
                    Some(mpos) => (mpos, mpos),
                    None => (s.len(), s.len()),
                };
                let ghost aft = s@.skip(after as int);
                proof {
                    if find_marker(aft) >= 0 {
                        assert(aft.take(find_marker(aft)) =~= s@.subrange(
                            after as int,
                            codehi as int,
                        ));
                        assert(aft.skip(find_marker(aft)) =~= s@.skip(resthi as int));
                    } else {
                        assert(aft =~= s@.subrange(after as int, codehi as int));
                    }
                }
                let codepart = bytes_to_vec(
                    vstd::slice::slice_subrange(s, after, codehi),
                );
                if codepart.len() > 0 && codepart[codepart.len() - 1] != NL {
                    return None;
                }
                let mut code = codepart;
                if code.len() > 0 {
                    code.pop();
                }
                let rest = if resthi == s.len() {
                    let r: Option<Vec<Block>> = Some(Vec::new());
                    proof {
                        assert(s@.skip(s@.len() as int).len() == 0);
                        if find_marker(aft) < 0 {
                            assert(parse_blocks(Seq::<u8>::empty()) == Some(
                                Seq::<RawBlock>::empty(),
                            ));
                        }
                        assert(blocks_view(Seq::<Block>::empty()) =~= Seq::<RawBlock>::empty());
                    }
                    r
                } else {
                    split_blocks(s, resthi)
                };
                match rest {
                    None => {
                        return None;
                    },
                    Some(mut bs) => {
                        let ghost tail = blocks_view(bs@);
                        let ghost psv = pairs_view(ps@);
                        let ghost codev = code@;
                        let ghost want = RawBlock { plain: false, header: psv, code: codev };
                        proof {
                            assert(suf.len() > 0);
                            assert(starts_with(suf, marker_line()));
                            assert(parse_header(suf.skip(marker_line().len() as int)) == Some(
                                (psv, s@.skip(after as int)),
                            ));
                            let aft2 = s@.skip(after as int);
                            let m = find_marker(aft2);
                            let cp = if m < 0 { aft2 } else { aft2.take(m) };
                            assert(cp == s@.subrange(after as int, codehi as int));
                            assert(!(cp.len() > 0 && cp.last() != NL));
                            assert(codev == if cp.len() > 0 { cp.drop_last() } else { cp });
                            let rst = if m < 0 { Seq::<u8>::empty() } else { aft2.skip(m) };
                            assert(parse_blocks(rst) == Some(tail));
                            assert(parse_blocks(suf) == Some(seq![want] + tail));
                        }
                        bs.insert(0, Block { plain: false, header: ps, code: code });
                        proof {
                            assert(bs@[0].plain == false);
                            assert(pairs_view(bs@[0].header@) == psv);
                            assert(bs@[0].code@ == codev);
                            assert(block_view(bs@[0]) == want);
                            assert forall|j: int| 0 <= j < bs@.len() implies #[trigger] blocks_view(
                                bs@,
                            )[j] == (seq![want] + tail)[j] by {
                                if j > 0 {
                                    assert(blocks_view(bs@)[j] == block_view(bs@[j]));
                                }
                            }
                            assert(blocks_view(bs@) =~= seq![want] + tail);
                        }
                        return Some(bs);
                    },
                }
            },
        }
    }
    // bare code: one plain block
    if s[s.len() - 1] != NL {
        proof {
            assert(suf.last() == s@[s@.len() - 1]);
        }
        return None;
    }
    let code = bytes_to_vec(vstd::slice::slice_subrange(s, from, s.len() - 1));
    proof {
        assert(suf.last() == s@[s@.len() - 1]);
        assert(suf.drop_last() =~= s@.subrange(from as int, s@.len() - 1));
    }
    let mut bs: Vec<Block> = Vec::new();
    bs.push(Block { plain: true, header: Vec::new(), code: code });
    proof {
        assert(pairs_view(Seq::<(u8, Vec<u8>)>::empty()) =~= Seq::<(u8, Seq<u8>)>::empty());
        assert(blocks_view(bs@) =~= seq![block_view(bs@[0])]);
    }
    Some(bs)
}

// Keys of an action block header.
pub const AK_LIB: u8 = 108;  // l
pub const AK_ACT: u8 = 97;  // a
pub const AK_APPLIES: u8 = 111;  // o
pub const AK_APPLIES_NAME: u8 = 79;  // O
pub const AK_RELATIVE: u8 = 114;  // r
pub const AK_INVERT: u8 = 105;  // i
pub const AK_COUNT: u8 = 110;  // n
/// Key of the first parameter; parameter j uses the digit 48 + j.
pub const AK_PARAM0: u8 = 48;

pub open spec fn action_pair_ok(k: u8, v: Seq<u8>) -> bool {
    if k == AK_LIB || k == AK_ACT || k == AK_COUNT {
        val_ok_u32(v)
    } else if k == AK_APPLIES {
        val_ok_i32(v)
    } else if k == AK_RELATIVE || k == AK_INVERT {
        val_ok_bool(v)
    } else if k == AK_APPLIES_NAME {
        true
    } else if 48 <= k <= 55 {
        true
    } else {
        false
    }
}

pub open spec fn action_header_ok(ps: Seq<(u8, Seq<u8>)>) -> bool {
    forall|i: int| 0 <= i < ps.len() ==> action_pair_ok((#[trigger] ps[i]).0, ps[i].1)
}

/// Index of the library with this id in the catalog, or -1.
pub open spec fn lib_index(cat: Seq<ActionLibrary>, lib: u32) -> int
    decreases cat.len(),
{
    if cat.len() == 0 {
        -1
    } else if cat[0].id == lib {
        0
    } else {
        let r = lib_index(cat.drop_first(), lib);
        if r < 0 {
            -1
        } else {
            r + 1
        }
    }
}

/// Index of the definition with this action id, or -1.
pub open spec fn def_index(defs: Seq<ActionDefinition>, act: u32) -> int
    decreases defs.len(),
{
    if defs.len() == 0 {
        -1
    } else if defs[0].id == act {
        0
    } else {
        let r = def_index(defs.drop_first(), act);
        if r < 0 {
            -1
        } else {
            r + 1
        }
    }
}

/// Whether the catalog knows the pair (library id, action id).
pub open spec fn catalog_has(cat: &Vec<ActionLibrary>, lib: u32, act: u32) -> bool {
    lib_index(cat@, lib) >= 0 && def_index(cat@[lib_index(cat@, lib)].actions@, act) >= 0
}

/// The definition the catalog gives for the pair.
pub open spec fn catalog_def(cat: &Vec<ActionLibrary>, lib: u32, act: u32) -> ActionDefinition {
    cat@[lib_index(cat@, lib)].actions@[def_index(cat@[lib_index(cat@, lib)].actions@, act)]
}

pub proof fn lemma_lib_index_props(cat: Seq<ActionLibrary>, lib: u32)
    ensures
        lib_index(cat, lib) >= 0 ==> lib_index(cat, lib) < cat.len() && cat[lib_index(
            cat,
            lib,
        )].id == lib,
    decreases cat.len(),
{
    if cat.len() > 0 && cat[0].id != lib {
        lemma_lib_index_props(cat.drop_first(), lib);
    }
}

pub proof fn lemma_def_index_props(defs: Seq<ActionDefinition>, act: u32)
    ensures
        def_index(defs, act) >= 0 ==> def_index(defs, act) < defs.len() && defs[def_index(
            defs,
            act,
        )].id == act,
    decreases defs.len(),
{
    if defs.len() > 0 && defs[0].id != act {
        lemma_def_index_props(defs.drop_first(), act);
    }
}

/// Looks the pair up in the catalog.
pub fn find_def(cat: &Vec<ActionLibrary>, lib: u32, act: u32) -> (r: Option<(usize, usize)>)
    ensures
        r is Some <==> catalog_has(cat, lib, act),
        r matches Some(p) ==> p.0 == lib_index(cat@, lib) && p.1 == def_index(
            cat@[lib_index(cat@, lib)].actions@,
            act,
        ),
{
    let mut i: usize = 0;
    proof {
        assert(cat@.skip(0) =~= cat@);
    }
    while i < cat.len()
        invariant
            0 <= i <= cat@.len(),
            lib_index(cat@, lib) == if lib_index(cat@.skip(i as int), lib) < 0 {
                -1int
            } else {
                i + lib_index(cat@.skip(i as int), lib)
            },
        decreases cat@.len() - i,
    {
        proof {
            assert(cat@.skip(i as int)[0] == cat@[i as int]);
            assert(cat@.skip(i as int).drop_first() =~= cat@.skip(i + 1));
        }
        if cat[i].id == lib {
            // search this library's actions
            let defs = &cat[i].actions;
            let mut j: usize = 0;
            proof {
                assert(lib_index(cat@.skip(i as int), lib) == 0);
                assert(lib_index(cat@, lib) == i);
                assert(defs@.skip(0) =~= defs@);
            }
            while j < defs.len()
                invariant
                    0 <= j <= defs@.len(),
                    defs@ == cat@[lib_index(cat@, lib)].actions@,
                    lib_index(cat@, lib) == i,
                    i < cat@.len(),
                    def_index(defs@, act) == if def_index(defs@.skip(j as int), act) < 0 {
                        -1int
                    } else {
                        j + def_index(defs@.skip(j as int), act)
                    },
                decreases defs@.len() - j,
            {
                proof {
                    assert(defs@.skip(j as int)[0] == defs@[j as int]);
                    assert(defs@.skip(j as int).drop_first() =~= defs@.skip(j + 1));
                }
                if defs[j].id == act {
                    proof {
                        assert(def_index(defs@.skip(j as int), act) == 0);
                    }
                    return Some((i, j));
                }
                j = j + 1;
            }
            proof {
                assert(defs@.skip(j as int).len() == 0);
            }
            return None;
        }
        i = i + 1;
    }
    proof {
        assert(cat@.skip(i as int).len() == 0);
    }
    None
}

/// What an action copies from its catalog definition.
pub open spec fn def_applied(d: ActionDefinition, a: Action) -> bool {
    &&& a.action_kind == d.kind
    &&& a.can_be_relative == d.relative
    &&& a.is_condition == d.question
    &&& a.applies_to_something == d.apply_to
    &&& a.execution_type == d.execution_type
    &&& a.fn_name@ == d.function_name@
    &&& a.fn_code@ == d.code_string@
    &&& a.param_types@ == d.arg_types@
}

/// Whether this pair of ids is the built-in execute-code action, whose code
/// parameter is carried as the block's code tail.
pub open spec fn is_code_pair(lib: u32, act: u32) -> bool {
    lib == CODE_LIB && act == CODE_ACTION
}

/// The library id a block names: the stored one, or the execute-code
/// action's for a bare-code block.
pub open spec fn block_lib(b: RawBlock) -> u32 {
    if b.plain {
        CODE_LIB
    } else {
        fld_u32(kv_map(b.header), AK_LIB, 0)
    }
}

/// The action id a block names.
pub open spec fn block_act(b: RawBlock) -> u32 {
    if b.plain {
        CODE_ACTION
    } else {
        fld_u32(kv_map(b.header), AK_ACT, 0)
    }
}

/// When decoding a block succeeds: well-typed header, a pair the catalog
/// knows, a parameter count the format can hold, and a code tail only on the
/// execute-code action.
pub open spec fn action_block_ok(cat: &Vec<ActionLibrary>, b: RawBlock) -> bool {
    let m = kv_map(b.header);
    let lib = if b.plain {
        CODE_LIB
    } else {
        fld_u32(m, AK_LIB, 0)
    };
    let act = if b.plain {
        CODE_ACTION
    } else {
        fld_u32(m, AK_ACT, 0)
    };
    &&& action_header_ok(b.header)
    &&& catalog_has(cat, lib, act)
    &&& fld_u32(m, AK_COUNT, catalog_def(cat, lib, act).arg_count) <= 8
    &&& (b.code.len() > 0 ==> is_code_pair(lib, act))
}

/// The action a block denotes: the stored ids, flags and parameters, and
/// everything else from the catalog's definition.
pub open spec fn action_from(
    cat: &Vec<ActionLibrary>,
    b: RawBlock,
    a: Action,
    aname: Seq<u8>,
) -> bool {
    let m = kv_map(b.header);
    let lib = if b.plain {
        CODE_LIB
    } else {
        fld_u32(m, AK_LIB, 0)
    };
    let act = if b.plain {
        CODE_ACTION
    } else {
        fld_u32(m, AK_ACT, 0)
    };
    let d = catalog_def(cat, lib, act);
    &&& a.lib_id == lib
    &&& a.id == act
    &&& def_applied(d, a)
    &&& a.param_count == fld_u32(m, AK_COUNT, d.arg_count)
    &&& a.applies_to == fld_i32(m, AK_APPLIES, -1i32)
    &&& aname == fld_bytes(m, AK_APPLIES_NAME)
    &&& a.is_relative == fld_bool(m, AK_RELATIVE, false)
    &&& a.invert_condition == fld_bool(m, AK_INVERT, false)
    &&& a.param_strings@.len() == 8
    &&& forall|j: int|
        0 <= j < 8 ==> (#[trigger] a.param_strings@[j])@ == if j == 0 && is_code_pair(lib, act) {
            b.code
        } else {
            fld_bytes(m, (48 + j) as u8)
        }
}

/// Copies a vector of type codes.
fn copy_u32_vec(v: &Vec<u32>) -> (r: Vec<u32>)
    ensures
        r@ == v@,
{
    let mut out: Vec<u32> = Vec::new();
    let mut i: usize = 0;
    while i < v.len()
        invariant
            0 <= i <= v@.len(),
            out@ =~= v@.take(i as int),
        decreases v@.len() - i,
    {
        out.push(v[i]);
        i = i + 1;
    }
    proof {
        assert(out@ =~= v@);
    }
    out
}

/// Decodes one block into an action. The applies-to name, when one is
/// stored, is returned for the caller to resolve; the numeric target is
/// used as stored otherwise.
#[verifier::rlimit(100)]
pub fn decode_action_block(
    cat: &Vec<ActionLibrary>,
    b: &Block,
    path: &Vec<Vec<u8>>,
) -> (r: Result<(Action, Vec<u8>), Error>)
    ensures
        r is Ok <==> action_block_ok(cat, block_view(*b)),
        r is Ok ==> action_from(cat, block_view(*b), r->Ok_0.0, r->Ok_0.1@),
        ({
            let m = kv_map(pairs_view(b.header@));
            let lib = if b.plain {
                CODE_LIB
            } else {
                fld_u32(m, AK_LIB, 0)
            };
            let act = if b.plain {
                CODE_ACTION
            } else {
                fld_u32(m, AK_ACT, 0)
            };
            action_header_ok(pairs_view(b.header@)) && !catalog_has(cat, lib, act)
                ==> r == Result::<(Action, Vec<u8>), Error>::Err(Error::UnknownAction(lib, act))
        }),
        r is Err ==> (r->Err_0 is UnknownKey || r->Err_0 is BadValue || r->Err_0 is UnknownAction
            || r->Err_0 is SyntaxError),
{
    let mut lib: u32 = 0;
    let mut act: u32 = 0;
    let mut applies: i32 = -1;
    let mut aname: Vec<u8> = Vec::new();
    let mut rel: bool = false;
    let mut inv: bool = false;
    let mut seen_n: bool = false;
    let mut nval: u32 = 0;
    let mut p0: Vec<u8> = Vec::new();
    let mut p1: Vec<u8> = Vec::new();
    let mut p2: Vec<u8> = Vec::new();
    let mut p3: Vec<u8> = Vec::new();
    let mut p4: Vec<u8> = Vec::new();
    let mut p5: Vec<u8> = Vec::new();
    let mut p6: Vec<u8> = Vec::new();
    let mut p7: Vec<u8> = Vec::new();
    let mut i: usize = 0;
    proof {
        assert(pairs_view(b.header@).take(0) =~= Seq::<(u8, Seq<u8>)>::empty());
        assert(kv_map(pairs_view(b.header@).take(0)) == Map::<u8, Seq<u8>>::empty());
    }
    while i < b.header.len()
        invariant
            0 <= i <= b.header@.len(),
            action_header_ok(pairs_view(b.header@).take(i as int)),
            lib == fld_u32(kv_map(pairs_view(b.header@).take(i as int)), AK_LIB, 0),
            act == fld_u32(kv_map(pairs_view(b.header@).take(i as int)), AK_ACT, 0),
            applies == fld_i32(kv_map(pairs_view(b.header@).take(i as int)), AK_APPLIES, -1i32),
            aname@ == fld_bytes(kv_map(pairs_view(b.header@).take(i as int)), AK_APPLIES_NAME),
            rel == fld_bool(kv_map(pairs_view(b.header@).take(i as int)), AK_RELATIVE, false),
            inv == fld_bool(kv_map(pairs_view(b.header@).take(i as int)), AK_INVERT, false),
            seen_n == kv_map(pairs_view(b.header@).take(i as int)).dom().contains(AK_COUNT),
            nval == fld_u32(kv_map(pairs_view(b.header@).take(i as int)), AK_COUNT, 0),
            seen_n ==> val_ok_u32(kv_map(pairs_view(b.header@).take(i as int))[AK_COUNT]),
            p0@ == fld_bytes(kv_map(pairs_view(b.header@).take(i as int)), 48),
            p1@ == fld_bytes(kv_map(pairs_view(b.header@).take(i as int)), 49),
            p2@ == fld_bytes(kv_map(pairs_view(b.header@).take(i as int)), 50),
            p3@ == fld_bytes(kv_map(pairs_view(b.header@).take(i as int)), 51),
            p4@ == fld_bytes(kv_map(pairs_view(b.header@).take(i as int)), 52),
            p5@ == fld_bytes(kv_map(pairs_view(b.header@).take(i as int)), 53),
            p6@ == fld_bytes(kv_map(pairs_view(b.header@).take(i as int)), 54),
            p7@ == fld_bytes(kv_map(pairs_view(b.header@).take(i as int)), 55),
        decreases b.header@.len() - i,
    {
        let k = b.header[i].0;
        let ghost prefix = pairs_view(b.header@).take(i as int);
        let ghost v = b.header@[i as int].1@;
        proof {
            assert(pairs_view(b.header@).take(i + 1) =~= prefix.push((k, v)));
            lemma_kv_map_push(prefix, k, v);
            assert(pairs_view(b.header@)[i as int] == (k, v));
        }
        if k == AK_LIB {
            match parse_u32_val(b.header[i].1.as_slice()) {
                Some(n) => { lib = n; },
                None => {
                    proof {
                        assert(!action_pair_ok(k, v));
                        assert(!action_header_ok(pairs_view(b.header@)));
                    }
                    return Err(Error::BadValue(clone_path(path), k));
                },
            }
        } else if k == AK_ACT {
            match parse_u32_val(b.header[i].1.as_slice()) {
                Some(n) => { act = n; },
                None => {
                    proof {
                        assert(!action_pair_ok(k, v));
                        assert(!action_header_ok(pairs_view(b.header@)));
                    }
                    return Err(Error::BadValue(clone_path(path), k));
                },
            }
        } else if k == AK_APPLIES {
            match parse_i32_val(b.header[i].1.as_slice()) {
                Some(n) => { applies = n; },
                None => {
                    proof {
                        assert(!action_pair_ok(k, v));
                        assert(!action_header_ok(pairs_view(b.header@)));
                    }
                    return Err(Error::BadValue(clone_path(path), k));
                },
            }
        } else if k == AK_APPLIES_NAME {
            aname = bytes_to_vec(b.header[i].1.as_slice());
        } else if k == AK_RELATIVE {
            match parse_bool_val(b.header[i].1.as_slice()) {
                Some(x) => { rel = x; },
                None => {
                    proof {
                        assert(!action_pair_ok(k, v));
                        assert(!action_header_ok(pairs_view(b.header@)));
                    }
                    return Err(Error::BadValue(clone_path(path), k));
                },
            }
        } else if k == AK_INVERT {
            match parse_bool_val(b.header[i].1.as_slice()) {
                Some(x) => { inv = x; },
                None => {
                    proof {
                        assert(!action_pair_ok(k, v));
                        assert(!action_header_ok(pairs_view(b.header@)));
                    }
                    return Err(Error::BadValue(clone_path(path), k));
                },
            }
        } else if k == AK_COUNT {
            match parse_u32_val(b.header[i].1.as_slice()) {
                Some(n) => {
                    seen_n = true;
                    nval = n;
                },
                None => {
                    proof {
                        assert(!action_pair_ok(k, v));
                        assert(!action_header_ok(pairs_view(b.header@)));
                    }
                    return Err(Error::BadValue(clone_path(path), k));
                },
            }
        } else if k == 48 {
            p0 = bytes_to_vec(b.header[i].1.as_slice());
        } else if k == 49 {
            p1 = bytes_to_vec(b.header[i].1.as_slice());
        } else if k == 50 {
            p2 = bytes_to_vec(b.header[i].1.as_slice());
        } else if k == 51 {
            p3 = bytes_to_vec(b.header[i].1.as_slice());
        } else if k == 52 {
            p4 = bytes_to_vec(b.header[i].1.as_slice());
        } else if k == 53 {
            p5 = bytes_to_vec(b.header[i].1.as_slice());
        } else if k == 54 {
            p6 = bytes_to_vec(b.header[i].1.as_slice());
        } else if k == 55 {
            p7 = bytes_to_vec(b.header[i].1.as_slice());
        } else {
            proof {
                assert(!action_pair_ok(k, v));
                assert(!action_header_ok(pairs_view(b.header@)));
            }
            return Err(Error::UnknownKey(clone_path(path), k));
        }
        i = i + 1;
    }
    proof {
        assert(pairs_view(b.header@).take(i as int) =~= pairs_view(b.header@));
    }
    if b.plain {
        lib = CODE_LIB;
        act = CODE_ACTION;
    }
    let (li, di) = match find_def(cat, lib, act) {
        Some(p) => p,
        None => {
            return Err(Error::UnknownAction(lib, act));
        },
    };
    proof {
        lemma_lib_index_props(cat@, lib);
        lemma_def_index_props(cat@[lib_index(cat@, lib)].actions@, act);
    }
    let d = &cat[li].actions[di];
    let n = if seen_n {
        nval
    } else {
        d.arg_count
    };
    if n > 8 {
        return Err(Error::BadValue(clone_path(path), AK_COUNT));
    }
    let has_code = lib == CODE_LIB && act == CODE_ACTION;
    if !has_code && b.code.len() > 0 {
        return Err(Error::SyntaxError(clone_path(path)));
    }
    let mut params: Vec<Vec<u8>> = Vec::new();
    if has_code {
        params.push(bytes_to_vec(b.code.as_slice()));
    } else {
        params.push(p0);
    }
    params.push(p1);
    params.push(p2);
    params.push(p3);
    params.push(p4);
    params.push(p5);
    params.push(p6);
    params.push(p7);
    proof {
        let bv = block_view(*b);
        let m = kv_map(pairs_view(b.header@));
        assert(action_header_ok(pairs_view(b.header@)));
        assert(catalog_has(cat, lib, act));
        assert(catalog_def(cat, lib, act) == cat@[li as int].actions@[di as int]);
        if seen_n {
            assert(m.dom().contains(AK_COUNT));
            assert(val_ok_u32(m[AK_COUNT]));
            assert(nval == fld_u32(m, AK_COUNT, 0));
            assert(fld_u32(m, AK_COUNT, catalog_def(cat, lib, act).arg_count) == nval);
        } else {
            assert(!m.dom().contains(AK_COUNT));
        }
        assert(fld_u32(m, AK_COUNT, catalog_def(cat, lib, act).arg_count) == n);
        assert(action_block_ok(cat, bv));
        assert(params@[0]@ == if is_code_pair(lib, act) {
            bv.code
        } else {
            fld_bytes(m, 48)
        });
        assert(params@[1]@ == fld_bytes(m, 49));
        assert(params@[2]@ == fld_bytes(m, 50));
        assert(params@[3]@ == fld_bytes(m, 51));
        assert(params@[4]@ == fld_bytes(m, 52));
        assert(params@[5]@ == fld_bytes(m, 53));
        assert(params@[6]@ == fld_bytes(m, 54));
        assert(params@[7]@ == fld_bytes(m, 55));
    }
    let a = Action {
        lib_id: lib,
        id: act,
        action_kind: d.kind,
        can_be_relative: d.relative,
        is_condition: d.question,
        applies_to_something: d.apply_to,
        execution_type: d.execution_type,
        fn_name: bytes_to_vec(d.function_name.as_slice()),
        fn_code: bytes_to_vec(d.code_string.as_slice()),
        param_count: n,
        param_types: copy_u32_vec(&d.arg_types),
        applies_to: applies,
        is_relative: rel,
        param_strings: params,
        invert_condition: inv,
    };
    Ok((a, aname))
}

/// Whether the action carries its code as the block's tail.
pub open spec fn has_code_spec(a: Action) -> bool {
    is_code_pair(a.lib_id, a.id)
}

/// The parameter lines of an action's header, from parameter `j` on. The
/// code parameter of the execute-code action is not a line: it is the
/// block's code tail.
pub open spec fn param_pairs(a: Action, j: int) -> Seq<(u8, Seq<u8>)>
    decreases 8 - j,
{
    if j < 0 || j >= 8 || j >= a.param_count {
        Seq::empty()
    } else {
        (if j == 0 && has_code_spec(a) {
            Seq::<(u8, Seq<u8>)>::empty()
        } else {
            seq![((48 + j) as u8, (a.param_strings@[j])@)]
        }) + param_pairs(a, j + 1)
    }
}

/// The header lines the encoder writes for an action.
pub open spec fn spec_action_header(a: Action, aname: Seq<u8>) -> Seq<(u8, Seq<u8>)> {
    seq![
        (AK_LIB, dec_of(a.lib_id as nat)),
        (AK_ACT, dec_of(a.id as nat)),
        (AK_APPLIES, dec_of_int(a.applies_to as int)),
        (AK_APPLIES_NAME, aname),
        (AK_RELATIVE, enc_bool(a.is_relative)),
        (AK_INVERT, enc_bool(a.invert_condition)),
        (AK_COUNT, dec_of(a.param_count as nat)),
    ] + param_pairs(a, 0)
}

/// The code tail of a block: the execute-code action's code, closed by a
/// newline when it is not empty.
pub open spec fn spec_code_tail(a: Action) -> Seq<u8> {
    if has_code_spec(a) && (a.param_strings@[0])@.len() > 0 {
        (a.param_strings@[0])@.push(NL)
    } else {
        Seq::empty()
    }
}

/// The whole text of one marked action block.
pub open spec fn spec_enc_block(a: Action, aname: Seq<u8>) -> Seq<u8> {
    marker_line() + enc_pairs(spec_action_header(a, aname)) + end_line() + spec_code_tail(a)
}

/// An action the text format can carry: eight parameter slots, a count
/// within them, line-free parameters (except the code tail), and unused
/// slots empty.
pub open spec fn wf_action_shape(a: Action) -> bool {
    &&& a.param_strings@.len() == 8
    &&& a.param_types@.len() == 8
    &&& a.param_count <= 8
    &&& forall|j: int|
        a.param_count <= j < 8 ==> (#[trigger] a.param_strings@[j])@.len() == 0
}

/// The parameters written as header lines hold no line break.
pub open spec fn action_params_clean(a: Action) -> bool {
    forall|j: int|
        0 <= j < 8 && !(j == 0 && has_code_spec(a)) ==> no_nl(
            (#[trigger] a.param_strings@[j])@,
        )
}

/// True when the bytes hold a line break.
pub fn has_nl(v: &[u8]) -> (r: bool)
    ensures
        r == !no_nl(v@),
{
    let mut i: usize = 0;
    while i < v.len()
        invariant
            0 <= i <= v@.len(),
            forall|j: int| 0 <= j < i ==> #[trigger] v@[j] != NL,
        decreases v@.len() - i,
    {
        if v[i] == NL {
            return true;
        }
        i = i + 1;
    }
    false
}

/// Appends the parameter lines from `j` on to `out`.
fn push_param_pairs(a: &Action, j: usize, out: &mut Vec<(u8, Vec<u8>)>)
    requires
        wf_action_shape(*a),
        j <= 8,
    ensures
        pairs_view(final(out)@) == pairs_view(old(out)@) + param_pairs(*a, j as int),
    decreases 8 - j,
{
    if j >= 8 || j >= a.param_count as usize {
        proof {
            assert(pairs_view(out@) =~= pairs_view(out@) + param_pairs(*a, j as int));
        }
        return;
    }
    if !(j == 0 && a.lib_id == CODE_LIB && a.id == CODE_ACTION) {
        out.push((48 + j as u8, bytes_to_vec(a.param_strings[j].as_slice())));
        proof {
            assert(pairs_view(out@) =~= pairs_view(old(out)@) + seq![
                ((48 + j) as u8, (a.param_strings@[j as int])@),
            ]);
        }
    }
    let ghost mid = pairs_view(out@);
    push_param_pairs(a, j + 1, out);
    proof {
        assert(pairs_view(out@) =~= pairs_view(old(out)@) + param_pairs(*a, j as int));
    }
}

/// Encodes one marked action block onto `out`. Fails with `UnicodeError`
/// exactly when a parameter that must fit on a header line holds a line
/// break; nothing is written then.
pub fn encode_action_block(a: &Action, aname: &Vec<u8>, out: &mut Vec<u8>) -> (r: Result<
    (),
    Error,
>)
    requires
        wf_action_shape(*a),
        no_nl(aname@),
    ensures
        r is Ok <==> action_params_clean(*a),
        r is Ok ==> final(out)@ == old(out)@ + spec_enc_block(*a, aname@),
        r is Err ==> final(out)@ == old(out)@ && r->Err_0 is UnicodeError,
{
    // check every line-bound parameter first, so an error writes nothing
    let mut j: usize = 0;
    while j < 8
        invariant
            wf_action_shape(*a),
            0 <= j <= 8,
            forall|m: int|
                0 <= m < j && !(m == 0 && has_code_spec(*a)) ==> no_nl(
                    (#[trigger] a.param_strings@[m])@,
                ),
            out@ == old(out)@,
        decreases 8 - j,
    {
        if !(j == 0 && a.lib_id == CODE_LIB && a.id == CODE_ACTION) {
            if has_nl(a.param_strings[j].as_slice()) {
                return Err(Error::UnicodeError(bytes_to_vec(a.param_strings[j].as_slice())));
            }
        }
        j = j + 1;
    }
    let m = marker_bytes();
    push_bytes(out, m.as_slice());
    out.push(NL);
    let mut hdr: Vec<(u8, Vec<u8>)> = Vec::new();
    let mut v0: Vec<u8> = Vec::new();
    push_u64(&mut v0, a.lib_id as u64);
    hdr.push((AK_LIB, v0));
    let mut v1: Vec<u8> = Vec::new();
    push_u64(&mut v1, a.id as u64);
    hdr.push((AK_ACT, v1));
    let mut v2: Vec<u8> = Vec::new();
    push_i64(&mut v2, a.applies_to as i64);
    hdr.push((AK_APPLIES, v2));
    hdr.push((AK_APPLIES_NAME, bytes_to_vec(aname.as_slice())));
    let mut v3: Vec<u8> = Vec::new();
    push_bool(&mut v3, a.is_relative);
    hdr.push((AK_RELATIVE, v3));
    let mut v4: Vec<u8> = Vec::new();
    push_bool(&mut v4, a.invert_condition);
    hdr.push((AK_INVERT, v4));
    let mut v5: Vec<u8> = Vec::new();
    push_u64(&mut v5, a.param_count as u64);
    hdr.push((AK_COUNT, v5));
    proof {
        assert(pairs_view(hdr@) =~= seq![
            (AK_LIB, dec_of(a.lib_id as nat)),
            (AK_ACT, dec_of(a.id as nat)),
            (AK_APPLIES, dec_of_int(a.applies_to as int)),
            (AK_APPLIES_NAME, aname@),
            (AK_RELATIVE, enc_bool(a.is_relative)),
            (AK_INVERT, enc_bool(a.invert_condition)),
            (AK_COUNT, dec_of(a.param_count as nat)),
        ]);
    }
    push_param_pairs(a, 0, &mut hdr);
    proof {
        assert(pairs_view(hdr@) =~= spec_action_header(*a, aname@));
    }
    let lines = crate::kv::encode_pairs(&hdr);
    push_bytes(out, lines.as_slice());
    out.push(42);
    out.push(47);
    out.push(NL);
    if a.lib_id == CODE_LIB && a.id == CODE_ACTION && a.param_strings[0].len() > 0 {
        push_bytes(out, a.param_strings[0].as_slice());
        out.push(NL);
    }
    proof {
        assert(out@ =~= old(out)@ + spec_enc_block(*a, aname@));
    }
    Ok(())
}

/// The block a marked action encodes to, as the parser will see it.
pub open spec fn enc_block_parsed(a: Action, aname: Seq<u8>) -> RawBlock {
    RawBlock {
        plain: false,
        header: spec_action_header(a, aname),
        code: if has_code_spec(a) {
            (a.param_strings@[0])@
        } else {
            Seq::empty()
        },
    }
}

/// Keys and values of the parameter lines: only parameter keys, each with
/// its parameter's bytes.
pub proof fn lemma_param_pairs_map(a: Action, j: int)
    requires
        wf_action_shape(a),
        0 <= j <= 8,
    ensures
        forall|k: u8|
            48 + j <= k <= 55 && k - 48 < a.param_count && !(k == 48 && has_code_spec(a))
                ==> #[trigger] kv_map(param_pairs(a, j)).dom().contains(k) && kv_map(
                param_pairs(a, j),
            )[k] == (a.param_strings@[k - 48])@,
        forall|k: u8|
            #[trigger] kv_map(param_pairs(a, j)).dom().contains(k) ==> 48 + j <= k <= 55 && k - 48
                < a.param_count && !(k == 48 && has_code_spec(a)),
    decreases 8 - j,
{
    if j < 8 && j < a.param_count {
        lemma_param_pairs_map(a, j + 1);
        if j == 0 && has_code_spec(a) {
            assert(param_pairs(a, j) =~= Seq::<(u8, Seq<u8>)>::empty() + param_pairs(a, j + 1));
            assert(Seq::<(u8, Seq<u8>)>::empty() + param_pairs(a, j + 1) =~= param_pairs(
                a,
                j + 1,
            ));
        } else {
            let one = seq![((48 + j) as u8, (a.param_strings@[j])@)];
            let rest = param_pairs(a, j + 1);
            assert(param_pairs(a, j) =~= one + rest);
            crate::fields::lemma_kv_map_concat(one, rest);
            assert(one.drop_last() =~= Seq::<(u8, Seq<u8>)>::empty());
            assert(one.last() == ((48 + j) as u8, (a.param_strings@[j])@));
            assert(kv_map(Seq::<(u8, Seq<u8>)>::empty()) == Map::<u8, Seq<u8>>::empty());
            assert(kv_map(one) == Map::<u8, Seq<u8>>::empty().insert(
                (48 + j) as u8,
                (a.param_strings@[j])@,
            ));
            let mj = kv_map(param_pairs(a, j));
            assert(mj == kv_map(one).union_prefer_right(kv_map(rest)));
            assert(!kv_map(rest).dom().contains(((48 + j) as u8)));
            assert(mj.dom().contains(((48 + j) as u8)));
            assert(mj[((48 + j) as u8)] == (a.param_strings@[j])@);
            assert forall|k: u8|
                48 + j <= k <= 55 && k - 48 < a.param_count && !(k == 48 && has_code_spec(a))
                    implies #[trigger] mj.dom().contains(k) && mj[k] == (
                a.param_strings@[k - 48])@ by {
                if k > 48 + j {
                    assert(kv_map(rest).dom().contains(k));
                    assert(kv_map(rest)[k] == (a.param_strings@[k - 48])@);
                }
            }
        }
    } else {
        assert(param_pairs(a, j) == Seq::<(u8, Seq<u8>)>::empty());
        assert(kv_map(Seq::<(u8, Seq<u8>)>::empty()) == Map::<u8, Seq<u8>>::empty());
    }
}

/// The header an action encodes to is well formed and well typed.
pub proof fn lemma_action_header_enc_ok(a: Action, aname: Seq<u8>)
    requires
        wf_action_shape(a),
        action_params_clean(a),
        no_nl(aname),
    ensures
        wf_pairs(spec_action_header(a, aname)),
        action_header_ok(spec_action_header(a, aname)),
    decreases 8int,
{
    let ps = spec_action_header(a, aname);
    lemma_dec_of_digits(a.lib_id as nat);
    lemma_u64_round_trip(a.lib_id as u64);
    lemma_dec_of_digits(a.id as nat);
    lemma_u64_round_trip(a.id as u64);
    lemma_dec_of_digits(a.param_count as nat);
    lemma_u64_round_trip(a.param_count as u64);
    lemma_i64_round_trip(a.applies_to as i64);
    lemma_dec_of_digits(a.applies_to as nat);
    if a.applies_to < 0 {
        lemma_dec_of_digits((-(a.applies_to as int)) as nat);
    }
    lemma_bool_round_trip(a.is_relative);
    lemma_bool_round_trip(a.invert_condition);
    lemma_param_pairs_wf(a, 0);
    let fixed = seq![
        (AK_LIB, dec_of(a.lib_id as nat)),
        (AK_ACT, dec_of(a.id as nat)),
        (AK_APPLIES, dec_of_int(a.applies_to as int)),
        (AK_APPLIES_NAME, aname),
        (AK_RELATIVE, enc_bool(a.is_relative)),
        (AK_INVERT, enc_bool(a.invert_condition)),
        (AK_COUNT, dec_of(a.param_count as nat)),
    ];
    assert forall|i: int| 0 <= i < ps.len() implies (#[trigger] ps[i]).0 != NL && no_nl(ps[i].1)
        && action_pair_ok(ps[i].0, ps[i].1) by {
        if i < 7 {
            assert(ps[i] == fixed[i]);
            if i == 2 {
                assert(no_nl(dec_of_int(a.applies_to as int))) by {
                    if a.applies_to < 0 {
                        let d = dec_of((-(a.applies_to as int)) as nat);
                        assert(forall|m: int| 0 <= m < d.len() ==> #[trigger] d[m] != NL);
                        assert(forall|m: int|
                            1 <= m < dec_of_int(a.applies_to as int).len()
                                ==> #[trigger] dec_of_int(a.applies_to as int)[m] == d[m - 1]);
                    }
                }
            }
        } else {
            assert(ps[i] == param_pairs(a, 0)[i - 7]);
        }
    }
}

/// Every parameter line has a parameter key and a line-free value.
pub proof fn lemma_param_pairs_wf(a: Action, j: int)
    requires
        wf_action_shape(a),
        action_params_clean(a),
        0 <= j <= 8,
    ensures
        forall|i: int|
            0 <= i < param_pairs(a, j).len() ==> {
                &&& 48 <= (#[trigger] param_pairs(a, j)[i]).0 <= 55
                &&& no_nl(param_pairs(a, j)[i].1)
            },
    decreases 8 - j,
{
    if j < 8 && j < a.param_count {
        lemma_param_pairs_wf(a, j + 1);
        if !(j == 0 && has_code_spec(a)) {
            let one = seq![((48 + j) as u8, (a.param_strings@[j])@)];
            assert(param_pairs(a, j) =~= one + param_pairs(a, j + 1));
            assert(forall|i: int|
                1 <= i < param_pairs(a, j).len() ==> #[trigger] param_pairs(a, j)[i]
                    == param_pairs(a, j + 1)[i - 1]);
        } else {
            assert(param_pairs(a, j) =~= Seq::<(u8, Seq<u8>)>::empty() + param_pairs(a, j + 1));
            assert(forall|i: int|
                0 <= i < param_pairs(a, j).len() ==> #[trigger] param_pairs(a, j)[i]
                    == param_pairs(a, j + 1)[i]);
        }
    }
}

/// Decoding what the encoder wrote for an action gives the action back,
/// with its applies-to name unchanged.
pub proof fn lemma_action_round_trip(
    cat: &Vec<ActionLibrary>,
    a: Action,
    aname: Seq<u8>,
    a2: Action,
    aname2: Seq<u8>,
)
    requires
        wf_action_shape(a),
        action_params_clean(a),
        no_nl(aname),
        catalog_has(cat, a.lib_id, a.id),
        def_applied(catalog_def(cat, a.lib_id, a.id), a),
        action_from(cat, enc_block_parsed(a, aname), a2, aname2),
    ensures
        action_eq(&a, &a2),
        aname2 == aname,
{
    let ps = spec_action_header(a, aname);
    let fixed = seq![
        (AK_LIB, dec_of(a.lib_id as nat)),
        (AK_ACT, dec_of(a.id as nat)),
        (AK_APPLIES, dec_of_int(a.applies_to as int)),
        (AK_APPLIES_NAME, aname),
        (AK_RELATIVE, enc_bool(a.is_relative)),
        (AK_INVERT, enc_bool(a.invert_condition)),
        (AK_COUNT, dec_of(a.param_count as nat)),
    ];
    assert(ps == fixed + param_pairs(a, 0));
    crate::fields::lemma_kv_map_concat(fixed, param_pairs(a, 0));
    let q0 = Seq::<(u8, Seq<u8>)>::empty();
    lemma_kv_map_push(q0, AK_LIB, dec_of(a.lib_id as nat));
    let q1 = q0.push((AK_LIB, dec_of(a.lib_id as nat)));
    lemma_kv_map_push(q1, AK_ACT, dec_of(a.id as nat));
    let q2 = q1.push((AK_ACT, dec_of(a.id as nat)));
    lemma_kv_map_push(q2, AK_APPLIES, dec_of_int(a.applies_to as int));
    let q3 = q2.push((AK_APPLIES, dec_of_int(a.applies_to as int)));
    lemma_kv_map_push(q3, AK_APPLIES_NAME, aname);
    let q4 = q3.push((AK_APPLIES_NAME, aname));
    lemma_kv_map_push(q4, AK_RELATIVE, enc_bool(a.is_relative));
    let q5 = q4.push((AK_RELATIVE, enc_bool(a.is_relative)));
    lemma_kv_map_push(q5, AK_INVERT, enc_bool(a.invert_condition));
    let q6 = q5.push((AK_INVERT, enc_bool(a.invert_condition)));
    lemma_kv_map_push(q6, AK_COUNT, dec_of(a.param_count as nat));
    let q7 = q6.push((AK_COUNT, dec_of(a.param_count as nat)));
    assert(fixed =~= q7);
    lemma_u64_round_trip(a.lib_id as u64);
    lemma_u64_round_trip(a.id as u64);
    lemma_u64_round_trip(a.param_count as u64);
    lemma_i64_round_trip(a.applies_to as i64);
    lemma_bool_round_trip(a.is_relative);
    lemma_bool_round_trip(a.invert_condition);
    lemma_param_pairs_map(a, 0);
    let m = kv_map(ps);
    let mf = kv_map(fixed);
    let mp = kv_map(param_pairs(a, 0));
    assert(m == mf.union_prefer_right(mp));
    // parameter keys never collide with the fixed keys
    assert forall|k: u8| #[trigger] mp.dom().contains(k) implies 48 <= k <= 55 by {}
    assert(fld_u32(m, AK_LIB, 0) == a.lib_id);
    assert(fld_u32(m, AK_ACT, 0) == a.id);
    assert(fld_u32(m, AK_COUNT, catalog_def(cat, a.lib_id, a.id).arg_count) == a.param_count);
    assert(fld_i32(m, AK_APPLIES, -1i32) == a.applies_to);
    assert(fld_bytes(m, AK_APPLIES_NAME) == aname);
    assert(fld_bool(m, AK_RELATIVE, false) == a.is_relative);
    assert(fld_bool(m, AK_INVERT, false) == a.invert_condition);
    assert forall|j: int| 0 <= j < 8 implies (#[trigger] a2.param_strings@[j])@ == (
    a.param_strings@[j])@ by {
        let b = enc_block_parsed(a, aname);
        if j == 0 && has_code_spec(a) {
            assert((a2.param_strings@[j])@ == b.code);
        } else if j < a.param_count {
            let k = (48 + j) as u8;
            assert(48 <= k <= 55 && k - 48 < a.param_count && !(k == 48 && has_code_spec(a)));
            assert(mp.dom().contains(k));
            assert(mp[k] == (a.param_strings@[k - 48])@);
            assert(fld_bytes(m, k) == (a.param_strings@[j])@);
        } else {
            assert(!mp.dom().contains(((48 + j) as u8)));
            assert(fld_bytes(m, (48 + j) as u8) == Seq::<u8>::empty());
            assert((a.param_strings@[j])@.len() == 0);
            assert((a.param_strings@[j])@ =~= Seq::<u8>::empty());
        }
    }
}

/// A plain event: exactly one execute-code action with the default flags,
/// written as bare code with no marker.
pub open spec fn plain_event(actions: &Vec<Action>) -> bool {
    &&& actions@.len() == 1
    &&& has_code_spec(actions@[0])
    &&& actions@[0].applies_to == -1
    &&& !actions@[0].is_relative
    &&& !actions@[0].invert_condition
    &&& actions@[0].param_count <= 1
}

/// The text of an event's action list, block by block.
pub open spec fn spec_enc_event_from(actions: &Vec<Action>, anames: Seq<Seq<u8>>, i: int) -> Seq<
    u8,
>
    decreases actions@.len() - i,
{
    if i < 0 || i >= actions@.len() {
        Seq::empty()
    } else {
        spec_enc_block(actions@[i], anames[i]) + spec_enc_event_from(actions, anames, i + 1)
    }
}

/// The whole text of an event: bare code for a plain event, else marked
/// blocks; an empty action list is an empty text.
pub open spec fn spec_enc_event(actions: &Vec<Action>, anames: Seq<Seq<u8>>) -> Seq<u8> {
    if actions@.len() == 0 {
        Seq::empty()
    } else if plain_event(actions) {
        (actions@[0].param_strings@[0])@.push(NL)
    } else {
        spec_enc_event_from(actions, anames, 0)
    }
}

/// Encodes an event's action list. Fails with `UnicodeError` exactly when
/// some parameter that must fit on a line holds a line break.
pub fn encode_event_text(actions: &Vec<Action>, anames: &Vec<Vec<u8>>) -> (r: Result<
    Vec<u8>,
    Error,
>)
    requires
        anames@.len() == actions@.len(),
        forall|i: int| 0 <= i < actions@.len() ==> wf_action_shape(#[trigger] actions@[i]),
        forall|i: int| 0 <= i < anames@.len() ==> no_nl((#[trigger] anames@[i])@),
    ensures
        r is Ok <==> (forall|j: int|
            0 <= j < actions@.len() ==> action_params_clean(#[trigger] actions@[j])),
        r matches Result::Ok(v) ==> v@ == spec_enc_event(
            actions,
            anames@.map_values(|n: Vec<u8>| n@),
        ),
        r is Err ==> r->Err_0 is UnicodeError,
{
    let ghost nv = anames@.map_values(|n: Vec<u8>| n@);
    if actions.len() == 0 {
        let out: Vec<u8> = Vec::new();
        proof {
            assert(out@ =~= spec_enc_event(actions, nv));
        }
        return Ok(out);
    }
    if actions.len() == 1 && actions[0].lib_id == CODE_LIB && actions[0].id == CODE_ACTION
        && actions[0].applies_to == -1 && !actions[0].is_relative
        && !actions[0].invert_condition && actions[0].param_count <= 1 {
        let mut out: Vec<u8> = Vec::new();
        push_bytes(&mut out, actions[0].param_strings[0].as_slice());
        out.push(NL);
        proof {
            assert(plain_event(actions));
            assert(out@ =~= spec_enc_event(actions, nv));
            // the one stored parameter is the exempt code parameter, and
            // every other slot is empty by the action's shape
            assert(action_params_clean(actions@[0])) by {
                assert(forall|j: int|
                    1 <= j < 8 ==> (#[trigger] actions@[0].param_strings@[j])@.len() == 0);
            }
        }
        return Ok(out);
    }
    let mut out: Vec<u8> = Vec::new();
    let mut i: usize = 0;
    while i < actions.len()
        invariant
            0 <= i <= actions@.len(),
            nv == anames@.map_values(|n: Vec<u8>| n@),
            anames@.len() == actions@.len(),
            forall|j: int| 0 <= j < actions@.len() ==> wf_action_shape(#[trigger] actions@[j]),
            forall|j: int| 0 <= j < anames@.len() ==> no_nl((#[trigger] anames@[j])@),
            forall|j: int| 0 <= j < i ==> action_params_clean(#[trigger] actions@[j]),
            out@ + spec_enc_event_from(actions, nv, i as int) == spec_enc_event_from(
                actions,
                nv,
                0,
            ),
        decreases actions@.len() - i,
    {
        proof {
            assert(nv[i as int] == anames@[i as int]@);
        }
        let ghost out_before = out@;
        match encode_action_block(&actions[i], &anames[i], &mut out) {
            Ok(()) => {},
            Err(e) => {
                proof {
                    assert(!action_params_clean(actions@[i as int]));
                }
                return Err(e);
            },
        }
        proof {
            assert(out@ + spec_enc_event_from(actions, nv, i + 1) =~= spec_enc_event_from(
                actions,
                nv,
                0,
            ));
        }
        i = i + 1;
    }
    proof {
        assert(spec_enc_event_from(actions, nv, i as int) == Seq::<u8>::empty());
        assert(out@ + Seq::<u8>::empty() =~= out@);
        assert(!plain_event(actions) ==> out@ == spec_enc_event(actions, nv));
        if plain_event(actions) {
            assert(actions@.len() == 1);
            assert(false);
        }
    }
    Ok(out)
}

/// Decodes an event text into its actions, and for each action the
/// applies-to name to resolve (empty when the numeric target applies).
pub fn decode_event_text(cat: &Vec<ActionLibrary>, text: &Vec<u8>, path: &Vec<Vec<u8>>) -> (r:
    Result<(Vec<Action>, Vec<Vec<u8>>), Error>)
    ensures
        r is Ok <==> (parse_blocks(text@) matches Some(bl) && (forall|i: int|
            0 <= i < bl.len() ==> action_block_ok(cat, #[trigger] bl[i]))),
        r matches Result::Ok(p) ==> (parse_blocks(text@) matches Some(bl) && p.0@.len()
            == bl.len() && p.1@.len() == bl.len() && (forall|i: int|
            0 <= i < bl.len() ==> action_from(cat, bl[i], #[trigger] p.0@[i], p.1@[i]@))),
        parse_blocks(text@) is None ==> (r matches Result::Err(e) && (e matches
            Error::SyntaxError(q) && crate::tree::path_view(q@) == crate::tree::path_view(
            path@,
        ))),
        forall|i: int|
            (parse_blocks(text@) is Some && 0 <= i < (parse_blocks(text@)->0).len() && (forall|
                j: int,
            |
                0 <= j < i ==> action_block_ok(cat, #[trigger] (parse_blocks(text@)->0)[j]))
                && action_header_ok((#[trigger] (parse_blocks(text@)->0)[i]).header)
                && !catalog_has(
                cat,
                block_lib((parse_blocks(text@)->0)[i]),
                block_act((parse_blocks(text@)->0)[i]),
            )) ==> r == Result::<(Vec<Action>, Vec<Vec<u8>>), Error>::Err(
                Error::UnknownAction(
                    block_lib((parse_blocks(text@)->0)[i]),
                    block_act((parse_blocks(text@)->0)[i]),
                ),
            ),
{
    proof {
        assert(text@.skip(0) =~= text@);
    }
    let blocks = match split_blocks(text.as_slice(), 0) {
        Some(b) => b,
        None => {
            return Err(Error::SyntaxError(clone_path(path)));
        },
    };
    let mut acts: Vec<Action> = Vec::new();
    let mut names: Vec<Vec<u8>> = Vec::new();
    let mut i: usize = 0;
    while i < blocks.len()
        invariant
            0 <= i <= blocks@.len(),
            parse_blocks(text@) == Some(blocks_view(blocks@)),
            acts@.len() == i,
            names@.len() == i,
            forall|j: int| 0 <= j < i ==> action_block_ok(cat, #[trigger] blocks_view(blocks@)[j]),
            forall|j: int|
                0 <= j < i ==> action_from(
                    cat,
                    blocks_view(blocks@)[j],
                    #[trigger] acts@[j],
                    names@[j]@,
                ),
        decreases blocks@.len() - i,
    {
        proof {
            assert(blocks_view(blocks@)[i as int] == block_view(blocks@[i as int]));
        }
        match decode_action_block(cat, &blocks[i], path) {
            Ok((a, n)) => {
                acts.push(a);
                names.push(n);
            },
            Err(e) => {
                proof {
                    let bl = blocks_view(blocks@);
                    assert(!action_block_ok(cat, bl[i as int]));
                    assert(parse_blocks(text@)->0 == bl);
                    assert(!action_block_ok(cat, (parse_blocks(text@)->0)[i as int]));
                    assert forall|i2: int|
                        (0 <= i2 < bl.len() && (forall|j: int|
                            0 <= j < i2 ==> action_block_ok(cat, #[trigger] bl[j]))
                            && action_header_ok((#[trigger] bl[i2]).header) && !catalog_has(
                            cat,
                            block_lib(bl[i2]),
                            block_act(bl[i2]),
                        )) implies Result::<(Vec<Action>, Vec<Vec<u8>>), Error>::Err(e)
                        == Result::<(Vec<Action>, Vec<Vec<u8>>), Error>::Err(
                        Error::UnknownAction(block_lib(bl[i2]), block_act(bl[i2])),
                    ) by {
                        if i2 < i {
                            assert(action_block_ok(cat, bl[i2]));
                        } else if i2 > i {
                            assert(action_block_ok(cat, bl[i as int]));
                        } else {
                            assert(bl[i as int] == block_view(blocks@[i as int]));
                        }
                    }
                }
                return Err(e);
            },
        }
        i = i + 1;
    }
    proof {
        let bl = blocks_view(blocks@);
        assert forall|i2: int|
            !(0 <= i2 < bl.len() && (forall|j: int|
                0 <= j < i2 ==> action_block_ok(cat, #[trigger] bl[j])) && action_header_ok(
                (#[trigger] bl[i2]).header,
            ) && !catalog_has(cat, block_lib(bl[i2]), block_act(bl[i2]))) by {
            if 0 <= i2 < bl.len() && action_header_ok(bl[i2].header) && !catalog_has(
                cat,
                block_lib(bl[i2]),
                block_act(bl[i2]),
            ) {
                assert(action_block_ok(cat, bl[i2]));
            }
        }
    }
    Ok((acts, names))
}

/// A header encoded as key=value lines parses back to its pairs, leaving
/// exactly what follows the closing line.
pub proof fn lemma_parse_header_enc(ps: Seq<(u8, Seq<u8>)>, x: Seq<u8>)
    requires
        wf_pairs(ps),
    ensures
        parse_header(enc_pairs(ps) + end_line() + x) == Some((ps, x)),
    decreases ps.len(),
{
    if ps.len() == 0 {
        assert(enc_pairs(ps) + end_line() + x =~= end_line() + x);
        let s = end_line() + x;
        assert(s.take(3) =~= end_line());
        assert(starts_with(s, end_line()));
        assert(s.skip(3) =~= x);
        assert(ps =~= Seq::<(u8, Seq<u8>)>::empty());
    } else {
        let k = ps[0].0;
        let v = ps[0].1;
        let head = seq![k, EQ] + v;
        let restp = enc_pairs(ps.drop_first());
        let s = enc_pairs(ps) + end_line() + x;
        assert(s =~= head + (seq![NL] + (restp + end_line() + x)));
        assert(!starts_with(s, end_line())) by {
            assert(s[1] == EQ);
            if starts_with(s, end_line()) {
                assert(s.take(3)[1] == end_line()[1]);
            }
        }
        assert(no_nl(head)) by {
            assert(forall|i: int| 2 <= i < head.len() ==> #[trigger] head[i] == v[i - 2]);
        }
        crate::kv::lemma_find_nl_concat(head, seq![NL] + (restp + end_line() + x));
        assert((seq![NL] + (restp + end_line() + x))[0] == NL);
        assert(find_nl(seq![NL] + (restp + end_line() + x)) == 0);
        let j = find_nl(s);
        assert(j == head.len());
        assert(s[0] == k);
        assert(s.subrange(2, j) =~= v);
        assert(s.skip(j + 1) =~= restp + end_line() + x);
        assert(wf_pairs(ps.drop_first())) by {
            assert(forall|i: int|
                0 <= i < ps.drop_first().len() ==> #[trigger] ps.drop_first()[i] == ps[i + 1]);
        }
        lemma_parse_header_enc(ps.drop_first(), x);
        assert(seq![(k, v)] + ps.drop_first() =~= ps);
    }
}

/// A newline-terminated text none of whose lines opens a block keeps the
/// first marker of whatever follows it: the marker is found exactly at the
/// boundary, or not at all.
pub proof fn lemma_find_marker_skips_code(y: Seq<u8>, rest: Seq<u8>)
    requires
        y.len() > 0,
        y.last() == NL,
        find_marker(y) < 0,
        rest.len() == 0 || starts_with(rest, marker_line()),
    ensures
        find_marker(y + rest) == if rest.len() == 0 {
            -1int
        } else {
            y.len() as int
        },
    decreases y.len(),
{
    let s = y + rest;
    assert(!starts_with(s, marker_line())) by {
        if starts_with(s, marker_line()) {
            if y.len() >= marker_line().len() {
                assert(y.take(marker_line().len() as int) =~= s.take(
                    marker_line().len() as int,
                ));
                assert(starts_with(y, marker_line()));
            } else {
                // the newline that ends y would have to sit inside the
                // marker token, which holds no newline
                assert(s[y.len() - 1] == y.last());
                assert(s.take(marker_line().len() as int)[y.len() - 1] == marker_line()[y.len()
                    - 1]);
                assert(marker_line()[y.len() - 1] == marker()[y.len() - 1]);
                assert(marker()[y.len() - 1] != NL);
            }
        }
    }
    assert(!no_nl(y)) by {
        assert(y[y.len() - 1] == NL);
    }
    lemma_find_nl_props(y);
    let j = find_nl(y);
    assert(0 <= j < y.len());
    assert(no_nl(y.take(j))) by {
        assert(forall|m: int| 0 <= m < j ==> #[trigger] y.take(j)[m] == y[m]);
    }
    crate::kv::lemma_find_nl_concat(y.take(j), y.skip(j) + rest);
    assert(s =~= y.take(j) + (y.skip(j) + rest));
    assert((y.skip(j) + rest)[0] == y[j as int]);
    assert(find_nl(y.skip(j) + rest) == 0);
    assert(find_nl(s) == j);
    assert(j + 1 <= s.len());
    // the prefix of y up to its first newline is not a marker line either
    assert(!starts_with(y, marker_line()));
    if j + 1 == y.len() {
        assert(s.skip(j + 1) =~= rest);
        if rest.len() == 0 {
            assert(find_marker(s.skip(j + 1)) < 0);
        } else {
            assert(find_marker(rest) == 0);
        }
    } else {
        let y2 = y.skip(j + 1);
        assert(y2.len() > 0);
        assert(y2.last() == y.last());
        assert(find_marker(y2) < 0) by {
            assert(find_nl(y) == j && j + 1 <= y.len());
            assert(find_marker(y) == if find_marker(y.skip(j + 1)) < 0 {
                -1int
            } else {
                j + 1 + find_marker(y.skip(j + 1))
            });
        }
        lemma_find_marker_skips_code(y2, rest);
        assert(s.skip(j + 1) =~= y2 + rest);
    }
}

/// One encoded block, followed by nothing or by further blocks, parses to
/// its header and code followed by the rest's blocks.
pub proof fn lemma_enc_block_parses(a: Action, aname: Seq<u8>, rest: Seq<u8>)
    requires
        wf_action_shape(a),
        action_params_clean(a),
        no_nl(aname),
        has_code_spec(a) ==> code_clean((a.param_strings@[0])@),
        rest.len() == 0 || starts_with(rest, marker_line()),
    ensures
        parse_blocks(spec_enc_block(a, aname) + rest) == match parse_blocks(rest) {
            Some(t) => Some(seq![enc_block_parsed(a, aname)] + t),
            None => None::<Seq<RawBlock>>,
        },
{
    let hdr = spec_action_header(a, aname);
    let tail = spec_code_tail(a);
    let s = spec_enc_block(a, aname) + rest;
    assert(s =~= marker_line() + (enc_pairs(hdr) + end_line() + (tail + rest)));
    assert(starts_with(s, marker_line())) by {
        assert(s.take(marker_line().len() as int) =~= marker_line());
    }
    assert(s.len() > 0);
    lemma_action_header_enc_ok(a, aname);
    lemma_parse_header_enc(hdr, tail + rest);
    assert(s.skip(marker_line().len() as int) =~= enc_pairs(hdr) + end_line() + (tail + rest));
    let after = tail + rest;
    let code0 = (a.param_strings@[0])@;
    if has_code_spec(a) && code0.len() > 0 {
        assert(tail =~= code0.push(NL));
        assert(tail.last() == NL);
        assert(find_marker(tail) < 0) by {
            assert(code0.push(NL) =~= tail);
        }
        lemma_find_marker_skips_code(tail, rest);
        if rest.len() == 0 {
            assert(find_marker(after) < 0);
            assert(after =~= tail);
            assert(tail.drop_last() =~= code0);
            assert(s.skip(marker_line().len() as int).skip(0) == s.skip(
                marker_line().len() as int,
            ));
            assert(parse_blocks(Seq::<u8>::empty()) == Some(Seq::<RawBlock>::empty()));
            assert(parse_blocks(s) == Some(seq![enc_block_parsed(a, aname)] + Seq::<
                RawBlock,
            >::empty()));
            assert(parse_blocks(rest) == Some(Seq::<RawBlock>::empty()));
        } else {
            let m = find_marker(after);
            assert(m == tail.len());
            assert(after.take(m) =~= tail);
            assert(after.skip(m) =~= rest);
            assert(tail.last() == NL);
            assert(tail.drop_last() =~= code0);
            assert(parse_blocks(s) == match parse_blocks(rest) {
                Some(t) => Some(seq![enc_block_parsed(a, aname)] + t),
                None => None::<Seq<RawBlock>>,
            });
        }
    } else {
        assert(tail =~= Seq::<u8>::empty());
        assert(after =~= rest);
        if rest.len() == 0 {
            assert(find_marker(after) < 0);
            assert(after.len() == 0);
            assert(enc_block_parsed(a, aname).code =~= Seq::<u8>::empty()) by {
                if has_code_spec(a) {
                    assert(code0.len() == 0);
                }
            }
            assert(parse_blocks(Seq::<u8>::empty()) == Some(Seq::<RawBlock>::empty()));
            assert(parse_blocks(s) == Some(seq![enc_block_parsed(a, aname)] + Seq::<
                RawBlock,
            >::empty()));
            assert(parse_blocks(rest) == Some(Seq::<RawBlock>::empty()));
        } else {
            assert(find_marker(after) == 0);
            assert(after.take(0) =~= Seq::<u8>::empty());
            assert(after.skip(0) =~= rest);
            assert(enc_block_parsed(a, aname).code =~= Seq::<u8>::empty()) by {
                if has_code_spec(a) {
                    assert(code0.len() == 0);
                }
            }
            assert(parse_blocks(s) == match parse_blocks(rest) {
                Some(t) => Some(seq![enc_block_parsed(a, aname)] + t),
                None => None::<Seq<RawBlock>>,
            });
        }
    }
}

/// The blocks an action list encodes to, in order.
pub open spec fn enc_blocks_of(actions: &Vec<Action>, anames: Seq<Seq<u8>>, i: int) -> Seq<
    RawBlock,
>
    decreases actions@.len() - i,
{
    if i < 0 || i >= actions@.len() {
        Seq::empty()
    } else {
        seq![enc_block_parsed(actions@[i], anames[i])] + enc_blocks_of(actions, anames, i + 1)
    }
}

/// An event that is not written as bare code parses back block by block:
/// one block per action, each holding that action's header and code.
pub proof fn lemma_enc_event_parses(actions: &Vec<Action>, anames: Seq<Seq<u8>>, i: int)
    requires
        0 <= i <= actions@.len(),
        anames.len() == actions@.len(),
        forall|j: int| 0 <= j < actions@.len() ==> wf_action_shape(#[trigger] actions@[j]),
        forall|j: int| 0 <= j < actions@.len() ==> action_params_clean(#[trigger] actions@[j]),
        forall|j: int| 0 <= j < anames.len() ==> no_nl(#[trigger] anames[j]),
        forall|j: int|
            0 <= j < actions@.len() && has_code_spec(#[trigger] actions@[j]) ==> code_clean(
                (actions@[j].param_strings@[0])@,
            ),
    ensures
        parse_blocks(spec_enc_event_from(actions, anames, i)) == Some(
            enc_blocks_of(actions, anames, i),
        ),
    decreases actions@.len() - i,
{
    if i >= actions@.len() {
        assert(spec_enc_event_from(actions, anames, i) == Seq::<u8>::empty());
        assert(parse_blocks(Seq::<u8>::empty()) == Some(Seq::<RawBlock>::empty()));
        assert(enc_blocks_of(actions, anames, i) =~= Seq::<RawBlock>::empty());
    } else {
        lemma_enc_event_parses(actions, anames, i + 1);
        let rest = spec_enc_event_from(actions, anames, i + 1);
        assert(rest.len() == 0 || starts_with(rest, marker_line())) by {
            if i + 1 < actions@.len() {
                assert(rest == spec_enc_block(actions@[i + 1], anames[i + 1])
                    + spec_enc_event_from(actions, anames, i + 2));
                assert(rest.take(marker_line().len() as int) =~= marker_line());
            }
        }
        lemma_enc_block_parses(actions@[i], anames[i], rest);
        assert(spec_enc_event_from(actions, anames, i) == spec_enc_block(actions@[i], anames[i])
            + rest);
        assert(enc_blocks_of(actions, anames, i) == seq![
            enc_block_parsed(actions@[i], anames[i]),
        ] + enc_blocks_of(actions, anames, i + 1));
    }
}

/// The round-trip law of the action codec: decoding what the encoder wrote
/// for any action list gives actions equal to the originals, with every
/// applies-to name intact, provided each action is consistent with its
/// catalog entry and its code opens no block of its own.
pub proof fn lemma_event_round_trip(
    cat: &Vec<ActionLibrary>,
    actions: &Vec<Action>,
    anames: Seq<Seq<u8>>,
    acts2: Seq<Action>,
    anames2: Seq<Seq<u8>>,
)
    requires
        !plain_event(actions),
        anames.len() == actions@.len(),
        forall|j: int| 0 <= j < actions@.len() ==> wf_action_shape(#[trigger] actions@[j]),
        forall|j: int| 0 <= j < actions@.len() ==> action_params_clean(#[trigger] actions@[j]),
        forall|j: int| 0 <= j < anames.len() ==> no_nl(#[trigger] anames[j]),
        forall|j: int|
            0 <= j < actions@.len() && has_code_spec(#[trigger] actions@[j]) ==> code_clean(
                (actions@[j].param_strings@[0])@,
            ),
        forall|j: int|
            0 <= j < actions@.len() ==> catalog_has(
                cat,
                (#[trigger] actions@[j]).lib_id,
                actions@[j].id,
            ) && def_applied(catalog_def(cat, actions@[j].lib_id, actions@[j].id), actions@[j]),
        // what a decoder produced from the encoded text
        parse_blocks(spec_enc_event(actions, anames)) matches Some(bl) && acts2.len() == bl.len()
            && anames2.len() == bl.len() && (forall|j: int|
            0 <= j < bl.len() ==> action_from(cat, bl[j], #[trigger] acts2[j], anames2[j])),
    ensures
        acts2.len() == actions@.len(),
        forall|j: int| 0 <= j < actions@.len() ==> action_eq(&actions@[j], &#[trigger] acts2[j]),
        forall|j: int| 0 <= j < anames.len() ==> #[trigger] anames2[j] == anames[j],
{
    if actions@.len() == 0 {
        assert(spec_enc_event(actions, anames) == Seq::<u8>::empty());
        assert(parse_blocks(Seq::<u8>::empty()) == Some(Seq::<RawBlock>::empty()));
    } else {
        lemma_enc_event_parses(actions, anames, 0);
        assert(spec_enc_event(actions, anames) == spec_enc_event_from(actions, anames, 0));
        let bl = parse_blocks(spec_enc_event(actions, anames))->0;
        assert(bl == enc_blocks_of(actions, anames, 0));
        lemma_enc_blocks_len(actions, anames, 0);
        assert forall|j: int| 0 <= j < actions@.len() implies action_eq(
            &actions@[j],
            &#[trigger] acts2[j],
        ) && anames2[j] == anames[j] by {
            lemma_enc_blocks_index(actions, anames, 0, j);
            assert(bl[j] == enc_block_parsed(actions@[j], anames[j]));
            lemma_action_round_trip(cat, actions@[j], anames[j], acts2[j], anames2[j]);
        }
    }
}

proof fn lemma_enc_blocks_len(actions: &Vec<Action>, anames: Seq<Seq<u8>>, i: int)
    requires
        0 <= i <= actions@.len(),
    ensures
        enc_blocks_of(actions, anames, i).len() == actions@.len() - i,
    decreases actions@.len() - i,
{
    if i < actions@.len() {
        lemma_enc_blocks_len(actions, anames, i + 1);
    }
}

proof fn lemma_enc_blocks_index(actions: &Vec<Action>, anames: Seq<Seq<u8>>, i: int, j: int)
    requires
        0 <= i <= j < actions@.len(),
    ensures
        enc_blocks_of(actions, anames, i).len() == actions@.len() - i,
        enc_blocks_of(actions, anames, i)[j - i] == enc_block_parsed(actions@[j], anames[j]),
    decreases actions@.len() - i,
{
    lemma_enc_blocks_len(actions, anames, i);
    if i < j {
        lemma_enc_blocks_index(actions, anames, i + 1, j);
    }
}
} // verus!
