//! Record codecs for the flat asset kinds: triggers, scripts, fonts,
//! extensions, included files and sounds.
//!
//! Each kind has one key=value record file; code bodies and binary payloads
//! live in sidecar files beside it. Every encoder/decoder pair comes with a
//! proved round-trip lemma.

use vstd::prelude::*;
use crate::asset::{Trigger, trigger_eq};
use crate::bytes::{dec_of, all_digits, NL, bytes_to_vec, push_u64};
use crate::error::{Error, KIND_TRIGGER};
use crate::fields::{kv_map, lemma_kv_map_push, fld_u32, fld_bytes, val_ok_u32, parse_u32_val};
use crate::kv::{no_nl, wf_pairs, pairs_view};

verus! {

/// Digit strings never hold a line break.
pub proof fn lemma_digits_no_nl(s: Seq<u8>)
    requires
        all_digits(s),
    ensures
        no_nl(s),
{
}

// Keys of a trigger record.
pub const TK_KIND: u8 = 107;  // k
pub const TK_CONSTANT: u8 = 99;  // c

/// Every pair of a trigger record file is a known key with a well-typed value.
pub open spec fn trigger_pair_ok(k: u8, v: Seq<u8>) -> bool {
    if k == TK_KIND {
        val_ok_u32(v)
    } else if k == TK_CONSTANT {
        true
    } else {
        false
    }
}

pub open spec fn trigger_pairs_ok(ps: Seq<(u8, Seq<u8>)>) -> bool {
    forall|i: int| 0 <= i < ps.len() ==> trigger_pair_ok((#[trigger] ps[i]).0, ps[i].1)
}

/// The trigger a record file denotes, given the name from the manifest and
/// the condition from the code sidecar. Absent keys take the defaults.
pub open spec fn trigger_from(
    m: Map<u8, Seq<u8>>,
    name: Seq<u8>,
    condition: Seq<u8>,
    t: &Trigger,
) -> bool {
    &&& t.name@ == name
    &&& t.condition@ == condition
    &&& t.kind == fld_u32(m, TK_KIND, 0)
    &&& t.constant_name@ == fld_bytes(m, TK_CONSTANT)
}

/// The record lines the encoder writes for a trigger.
pub open spec fn spec_enc_trigger(t: &Trigger) -> Seq<(u8, Seq<u8>)> {
    seq![(TK_KIND, dec_of(t.kind as nat)), (TK_CONSTANT, t.constant_name@)]
}

/// A trigger the text format can carry: its constant name fits on a line.
pub open spec fn wf_trigger(t: &Trigger) -> bool {
    no_nl(t.constant_name@)
}

/// Encodes a trigger's record lines.
pub fn encode_trigger(t: &Trigger) -> (r: Vec<(u8, Vec<u8>)>)
    ensures
        pairs_view(r@) == spec_enc_trigger(t),
{
    let mut out: Vec<(u8, Vec<u8>)> = Vec::new();
    let mut kind_v: Vec<u8> = Vec::new();
    push_u64(&mut kind_v, t.kind as u64);
    out.push((TK_KIND, kind_v));
    out.push((TK_CONSTANT, bytes_to_vec(t.constant_name.as_slice())));
    proof {
        assert(pairs_view(out@) =~= spec_enc_trigger(t));
    }
    out
}

/// Decodes a trigger from its record lines and sidecar condition.
pub fn decode_trigger(
    name: &Vec<u8>,
    condition: &Vec<u8>,
    pairs: &Vec<(u8, Vec<u8>)>,
    path: &Vec<Vec<u8>>,
) -> (r: Result<Trigger, Error>)
    ensures
        r is Ok <==> trigger_pairs_ok(pairs_view(pairs@)),
        r is Ok ==> trigger_from(kv_map(pairs_view(pairs@)), name@, condition@, &r->Ok_0),
        r is Err ==> match r->Err_0 {
            Error::UnknownKey(p2, k2) => crate::tree::path_view(p2@) == crate::tree::path_view(
                path@,
            ) && (exists|i: int|
                0 <= i < pairs_view(pairs@).len() && (#[trigger] pairs_view(pairs@)[i]).0 == k2
                    && !trigger_pair_ok(k2, pairs_view(pairs@)[i].1)),
            Error::BadValue(p2, k2) => crate::tree::path_view(p2@) == crate::tree::path_view(
                path@,
            ) && (exists|i: int|
                0 <= i < pairs_view(pairs@).len() && (#[trigger] pairs_view(pairs@)[i]).0 == k2
                    && !trigger_pair_ok(k2, pairs_view(pairs@)[i].1)),
            _ => false,
        },
{
    let mut t = Trigger {
        name: bytes_to_vec(name.as_slice()),
        condition: bytes_to_vec(condition.as_slice()),
        constant_name: Vec::new(),
        kind: 0,
    };
    let mut i: usize = 0;
    proof {
        assert(pairs_view(pairs@).take(0) =~= Seq::<(u8, Seq<u8>)>::empty());
        assert(kv_map(pairs_view(pairs@).take(0)) == Map::<u8, Seq<u8>>::empty());
    }
    while i < pairs.len()
        invariant
            0 <= i <= pairs@.len(),
            trigger_pairs_ok(pairs_view(pairs@).take(i as int)),
            trigger_from(kv_map(pairs_view(pairs@).take(i as int)), name@, condition@, &t),
        decreases pairs@.len() - i,
    {
        let k = pairs[i].0;
        let ghost prefix = pairs_view(pairs@).take(i as int);
        let ghost v = pairs@[i as int].1@;
        proof {
            assert(pairs_view(pairs@).take(i + 1) =~= prefix.push((k, v)));
            lemma_kv_map_push(prefix, k, v);
            assert(pairs_view(pairs@)[i as int] == (k, v));
        }
        if k == TK_KIND {
            match parse_u32_val(pairs[i].1.as_slice()) {
                Some(n) => {
                    t.kind = n;
                },
                None => {
                    return Err(Error::BadValue(crate::tree::clone_path(path), k));
                },
            }
        } else if k == TK_CONSTANT {
            t.constant_name = bytes_to_vec(pairs[i].1.as_slice());
        } else {
            return Err(Error::UnknownKey(crate::tree::clone_path(path), k));
        }
        i = i + 1;
    }
    proof {
        assert(pairs_view(pairs@).take(i as int) =~= pairs_view(pairs@));
    }
    Ok(t)
}

/// What the encoder writes decodes back to an equal trigger.
pub proof fn lemma_trigger_round_trip(t: &Trigger, t2: &Trigger)
    requires
        wf_trigger(t),
        trigger_from(kv_map(spec_enc_trigger(t)), t.name@, t.condition@, t2),
    ensures
        trigger_eq(t, t2),
{
    let ps = spec_enc_trigger(t);
    assert(ps =~= Seq::<(u8, Seq<u8>)>::empty().push((TK_KIND, dec_of(t.kind as nat))).push(
        (TK_CONSTANT, t.constant_name@),
    ));
    lemma_kv_map_push(Seq::<(u8, Seq<u8>)>::empty(), TK_KIND, dec_of(t.kind as nat));
    lemma_kv_map_push(
        Seq::<(u8, Seq<u8>)>::empty().push((TK_KIND, dec_of(t.kind as nat))),
        TK_CONSTANT,
        t.constant_name@,
    );
    crate::bytes::lemma_u64_round_trip(t.kind as u64);
}

/// The encoder's lines are well formed and well typed.
pub proof fn lemma_trigger_enc_ok(t: &Trigger)
    requires
        wf_trigger(t),
    ensures
        wf_pairs(spec_enc_trigger(t)),
        trigger_pairs_ok(spec_enc_trigger(t)),
{
    crate::bytes::lemma_dec_of_digits(t.kind as nat);
    crate::bytes::lemma_u64_round_trip(t.kind as u64);
    let ps = spec_enc_trigger(t);
    assert forall|i: int| 0 <= i < ps.len() implies (#[trigger] ps[i]).0 != NL && no_nl(ps[i].1) by {
        if i == 0 {
            lemma_digits_no_nl(dec_of(t.kind as nat));
        }
    }
    assert forall|i: int| 0 <= i < ps.len() implies trigger_pair_ok(
        (#[trigger] ps[i]).0,
        ps[i].1,
    ) by {
        if i == 0 {
            assert(val_ok_u32(dec_of(t.kind as nat)));
        }
    }
}

} // verus!
