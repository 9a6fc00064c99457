//! The line-oriented key=value layer of the text format.
//!
//! A file is a sequence of lines `k=value`, one byte of key, terminated by a
//! newline. Values may hold any byte but a newline. Parsing the encoding of
//! any well-formed pair list gives the list back (`lemma_kv_round_trip`).

use vstd::prelude::*;
use crate::bytes::{NL, EQ, bytes_to_vec, push_bytes};

verus! {

pub open spec fn no_nl(v: Seq<u8>) -> bool {
    forall|i: int| 0 <= i < v.len() ==> #[trigger] v[i] != NL
}

/// A pair list the format can carry: no newline in a key or a value.
pub open spec fn wf_pairs(ps: Seq<(u8, Seq<u8>)>) -> bool {
    forall|i: int| 0 <= i < ps.len() ==> (#[trigger] ps[i]).0 != NL && no_nl(ps[i].1)
}

pub open spec fn enc_line(k: u8, v: Seq<u8>) -> Seq<u8> {
    seq![k, EQ] + v + seq![NL]
}

/// The bytes of a whole key=value file.
pub open spec fn enc_pairs(ps: Seq<(u8, Seq<u8>)>) -> Seq<u8>
    decreases ps.len(),
{
    if ps.len() == 0 {
        Seq::empty()
    } else {
        enc_line(ps[0].0, ps[0].1) + enc_pairs(ps.drop_first())
    }
}

/// Index of the first newline, or -1 when there is none.
pub open spec fn find_nl(s: Seq<u8>) -> int
    decreases s.len(),
{
    if s.len() == 0 {
        -1
    } else if s[0] == NL {
        0
    } else {
        let r = find_nl(s.drop_first());
        if r < 0 {
            -1
        } else {
            r + 1
        }
    }
}

pub proof fn lemma_find_nl_props(s: Seq<u8>)
    ensures
        find_nl(s) >= 0 ==> find_nl(s) < s.len() && s[find_nl(s)] == NL && (forall|j: int|
            0 <= j < find_nl(s) ==> #[trigger] s[j] != NL),
        find_nl(s) < 0 ==> no_nl(s),
    decreases s.len(),
{
    if s.len() > 0 && s[0] != NL {
        lemma_find_nl_props(s.drop_first());
        let r = find_nl(s.drop_first());
        if r >= 0 {
            assert forall|j: int| 0 <= j < find_nl(s) implies #[trigger] s[j] != NL by {
                if j > 0 {
                    assert(s.drop_first()[j - 1] != NL);
                }
            }
        } else {
            assert forall|i: int| 0 <= i < s.len() implies #[trigger] s[i] != NL by {
                if i > 0 {
                    assert(s.drop_first()[i - 1] != NL);
                }
            }
        }
    }
}

/// Where the first newline of a string with a known newline-free prefix sits.
pub proof fn lemma_find_nl_exact(s: Seq<u8>, r: int)
    requires
        0 <= r < s.len(),
        s[r] == NL,
        forall|j: int| 0 <= j < r ==> #[trigger] s[j] != NL,
    ensures
        find_nl(s) == r,
    decreases r,
{
    if r > 0 {
        assert forall|j: int| 0 <= j < r - 1 implies #[trigger] s.drop_first()[j] != NL by {
            assert(s[j + 1] != NL);
        }
        assert(s.drop_first()[r - 1] == NL);
        lemma_find_nl_exact(s.drop_first(), r - 1);
    }
}

pub proof fn lemma_find_nl_concat(a: Seq<u8>, b: Seq<u8>)
    requires
        no_nl(a),
    ensures
        find_nl(a + b) == if find_nl(b) < 0 {
            -1int
        } else {
            a.len() + find_nl(b)
        },
    decreases a.len(),
{
    if a.len() == 0 {
        assert(a + b =~= b);
    } else {
        assert((a + b).drop_first() =~= a.drop_first() + b);
        assert(no_nl(a.drop_first())) by {
            assert(forall|i: int|
                0 <= i < a.drop_first().len() ==> #[trigger] a.drop_first()[i] == a[i + 1]);
        }
        lemma_find_nl_concat(a.drop_first(), b);
        assert((a + b)[0] == a[0]);
    }
}

/// What parsing a key=value file returns: the pairs, or nothing when some
/// line lacks its newline or its key=value shape.
pub open spec fn parse_kv(s: Seq<u8>) -> Option<Seq<(u8, Seq<u8>)>>
    decreases s.len(),
{
    if s.len() == 0 {
        Some(Seq::empty())
    } else {
        let j = find_nl(s);
        if j < 0 || j + 1 > s.len() {
            None
        } else if j < 2 || s[1] != EQ {
            None
        } else {
            match parse_kv(s.skip(j + 1)) {
                Some(t) => Some(seq![(s[0], s.subrange(2, j))] + t),
                None => None,
            }
        }
    }
}

/// Parsing the encoding of a well-formed pair list gives the list back.
pub proof fn lemma_kv_round_trip(ps: Seq<(u8, Seq<u8>)>)
    requires
        wf_pairs(ps),
    ensures
        parse_kv(enc_pairs(ps)) == Some(ps),
    decreases ps.len(),
{
    if ps.len() == 0 {
        assert(parse_kv(enc_pairs(ps)) == Some(Seq::<(u8, Seq<u8>)>::empty()));
        assert(ps =~= Seq::<(u8, Seq<u8>)>::empty());
    } else {
        let k = ps[0].0;
        let v = ps[0].1;
        let rest = enc_pairs(ps.drop_first());
        let head = seq![k, EQ] + v;
        let s = enc_pairs(ps);
        assert(s =~= head + (seq![NL] + rest));
        assert(no_nl(head)) by {
            assert(forall|i: int| 2 <= i < head.len() ==> #[trigger] head[i] == v[i - 2]);
        }
        lemma_find_nl_concat(head, seq![NL] + rest);
        assert((seq![NL] + rest)[0] == NL);
        assert(find_nl(seq![NL] + rest) == 0);
        let j = find_nl(s);
        assert(j == head.len());
        assert(s[0] == k);
        assert(s[1] == EQ);
        assert(s.subrange(2, j) =~= v);
        assert(s.skip(j + 1) =~= rest);
        assert(wf_pairs(ps.drop_first())) by {
            assert(forall|i: int|
                0 <= i < ps.drop_first().len() ==> #[trigger] ps.drop_first()[i] == ps[i + 1]);
        }
        lemma_kv_round_trip(ps.drop_first());
        assert(parse_kv(s) == Some(seq![(k, v)] + ps.drop_first()));
        assert(seq![(k, v)] + ps.drop_first() =~= ps);
    }
}

/// The view of an executable pair list.
pub open spec fn pairs_view(ps: Seq<(u8, Vec<u8>)>) -> Seq<(u8, Seq<u8>)> {
    ps.map_values(|p: (u8, Vec<u8>)| (p.0, p.1@))
}

pub proof fn lemma_enc_pairs_push(ps: Seq<(u8, Seq<u8>)>, k: u8, v: Seq<u8>)
    ensures
        enc_pairs(ps.push((k, v))) == enc_pairs(ps) + enc_line(k, v),
    decreases ps.len(),
{
    if ps.len() == 0 {
        assert(ps.push((k, v)).drop_first() =~= Seq::<(u8, Seq<u8>)>::empty());
        assert(ps.push((k, v))[0] == (k, v));
        assert(ps.push((k, v)).len() == 1);
        assert(enc_pairs(ps.push((k, v))) == enc_line(k, v) + enc_pairs(
            ps.push((k, v)).drop_first(),
        ));
        assert(enc_pairs(ps.push((k, v)).drop_first()) == Seq::<u8>::empty());
        assert(enc_line(k, v) + Seq::<u8>::empty() =~= enc_line(k, v));
        assert(enc_pairs(ps.push((k, v))) =~= enc_line(k, v));
        assert(enc_pairs(ps) + enc_line(k, v) =~= enc_line(k, v));
    } else {
        assert(ps.push((k, v)).drop_first() =~= ps.drop_first().push((k, v)));
        lemma_enc_pairs_push(ps.drop_first(), k, v);
        assert(ps.push((k, v))[0] == ps[0]);
        assert(enc_pairs(ps.push((k, v))) =~= enc_pairs(ps) + enc_line(k, v));
    }
}

/// Appends one `k=v` line to `out`.
pub fn push_line(out: &mut Vec<u8>, k: u8, v: &[u8])
    ensures
        final(out)@ == old(out)@ + enc_line(k, v@),
{
    out.push(k);
    out.push(EQ);
    push_bytes(out, v);
    out.push(NL);
    assert(out@ =~= old(out)@ + enc_line(k, v@));
}

/// Encodes a pair list as the bytes of a key=value file.
pub fn encode_pairs(ps: &Vec<(u8, Vec<u8>)>) -> (r: Vec<u8>)
    ensures
        r@ == enc_pairs(pairs_view(ps@)),
{
    let mut out: Vec<u8> = Vec::new();
    let mut i: usize = 0;
    while i < ps.len()
        invariant
            0 <= i <= ps@.len(),
            out@ == enc_pairs(pairs_view(ps@.take(i as int))),
        decreases ps@.len() - i,
    {
        let k = ps[i].0;
        let ghost prefix = pairs_view(ps@.take(i as int));
        push_line(&mut out, k, ps[i].1.as_slice());
        proof {
            lemma_enc_pairs_push(prefix, k, ps@[i as int].1@);
            assert(pairs_view(ps@.take(i + 1)) =~= prefix.push((k, ps@[i as int].1@)));
        }
        i = i + 1;
    }
    proof {
        assert(ps@.take(i as int) =~= ps@);
    }
    out
}

/// Decodes the bytes of a key=value file into its pairs.
pub fn decode_pairs(s: &[u8]) -> (r: Option<Vec<(u8, Vec<u8>)>>)
    ensures
        match r {
            Some(v) => parse_kv(s@) == Some(pairs_view(v@)),
            None => parse_kv(s@) is None,
        },
{
    let mut out: Vec<(u8, Vec<u8>)> = Vec::new();
    let mut i: usize = 0;
    proof {
        assert(s@.skip(0) =~= s@);
        assert(pairs_view(out@) =~= Seq::<(u8, Seq<u8>)>::empty());
        if parse_kv(s@) is Some {
            assert(pairs_view(out@) + parse_kv(s@).unwrap() =~= parse_kv(s@).unwrap());
        }
    }
    while i < s.len()
        invariant
            0 <= i <= s@.len(),
            parse_kv(s@) == match parse_kv(s@.skip(i as int)) {
                Some(t) => Some(pairs_view(out@) + t),
                None => None::<Seq<(u8, Seq<u8>)>>,
            },
        decreases s@.len() - i,
    {
        // find the end of the current line
        let mut j: usize = i;
        while j < s.len() && s[j] != NL
            invariant
                i <= j <= s@.len(),
                forall|m: int| i <= m < j ==> #[trigger] s@[m] != NL,
            decreases s@.len() - j,
        {
            j = j + 1;
        }
        let ghost suf = s@.skip(i as int);
        if j == s.len() {
            // no newline: the parse fails
            proof {
                assert(no_nl(suf)) by {
                    assert(forall|m: int| 0 <= m < suf.len() ==> #[trigger] suf[m] == s@[m + i]);
                }
                lemma_find_nl_props(suf);
                if find_nl(suf) >= 0 {
                    assert(suf[find_nl(suf)] == NL);
                }
                assert(parse_kv(suf) is None);
            }
            return None;
        }
        proof {
            assert(forall|m: int| 0 <= m < j - i ==> #[trigger] suf[m] == s@[m + i]);
            assert(suf[j - i] == s@[j as int]);
            lemma_find_nl_exact(suf, j - i);
        }
        if j - i < 2 || s[i + 1] != EQ {
            proof {
                assert(suf.len() > 0);
                if j - i >= 2 {
                    assert(suf[1] == s@[i + 1]);
                }
                assert(parse_kv(suf) is None);
            }
            return None;
        }
        let k = s[i];
        let val = bytes_to_vec(vstd::slice::slice_subrange(s, i + 2, j));
        proof {
            assert(suf.len() > 0);
            assert(suf[1] == s@[i + 1]);
            assert(suf[0] == s@[i as int]);
            assert(suf.subrange(2, j - i) =~= s@.subrange(i + 2, j as int));
            assert(suf.skip(j - i + 1) =~= s@.skip(j + 1));
        }
        let ghost old_out = out@;
        out.push((k, val));
        proof {
            assert(parse_kv(suf) == match parse_kv(s@.skip(j + 1)) {
                Some(t) => Some(seq![(k, s@.subrange(i + 2, j as int))] + t),
                None => None::<Seq<(u8, Seq<u8>)>>,
            });
            assert(pairs_view(out@) =~= pairs_view(old_out).push((k, s@.subrange(i + 2, j as int))));
            if parse_kv(s@.skip(j + 1)) is Some {
                let t = parse_kv(s@.skip(j + 1)).unwrap();
                assert(pairs_view(old_out) + (seq![(k, s@.subrange(i + 2, j as int))] + t)
                    =~= pairs_view(out@) + t);
            }
        }
        i = j + 1;
    }
    proof {
        assert(s@.skip(i as int) =~= Seq::<u8>::empty());
        assert(parse_kv(s@.skip(i as int)) == Some(Seq::<(u8, Seq<u8>)>::empty()));
        assert(pairs_view(out@) + Seq::<(u8, Seq<u8>)>::empty() =~= pairs_view(out@));
    }
    Some(out)
}

} // verus!
