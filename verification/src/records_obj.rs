//! Record codecs for objects, events and timelines.
//!
//! An object's record carries its scalar fields and its event count; each
//! event is a record of its own plus an action-list text. A timeline is a
//! count of moments, each moment a time plus an action-list text.

use vstd::prelude::*;
use crate::asset::{Object, Event, Timeline};
use crate::bytes::{dec_of, dec_of_int, enc_bool, NL, bytes_to_vec, push_u64, push_i64, push_bool,
    lemma_u64_round_trip, lemma_i64_round_trip, lemma_bool_round_trip, lemma_dec_of_digits};
use crate::error::Error;
use crate::fields::{kv_map, lemma_kv_map_push, fld_u32, fld_i32, fld_u64, fld_bool, fld_bytes,
    val_ok_u32, val_ok_i32, val_ok_u64, val_ok_bool, parse_u32_val, parse_i32_val, parse_u64_val,
    parse_bool_val};
use crate::kv::{no_nl, wf_pairs, pairs_view};
use crate::codec_misc::lemma_digits_no_nl;
use crate::tree::clone_path;

verus! {
// --- object: an object record; sprite, parent and mask are referenced by name ---

pub const OK_SPRITE: u8 = 115;  // s
pub const OK_SOLID: u8 = 111;  // o
pub const OK_VISIBLE: u8 = 118;  // v
pub const OK_DEPTH: u8 = 100;  // d
pub const OK_PERSISTENT: u8 = 112;  // p
pub const OK_PARENT: u8 = 114;  // r
pub const OK_MASK: u8 = 109;  // m
pub const OK_EVENTS: u8 = 110;  // n

pub open spec fn object_pair_ok(k: u8, v: Seq<u8>) -> bool {
    if k == OK_SPRITE {
        true
    } else if k == OK_SOLID {
        val_ok_bool(v)
    } else if k == OK_VISIBLE {
        val_ok_bool(v)
    } else if k == OK_DEPTH {
        val_ok_i32(v)
    } else if k == OK_PERSISTENT {
        val_ok_bool(v)
    } else if k == OK_PARENT {
        true
    } else if k == OK_MASK {
        true
    } else if k == OK_EVENTS {
        val_ok_u32(v)
    } else {
        false
    }
}

pub open spec fn object_pairs_ok(ps: Seq<(u8, Seq<u8>)>) -> bool {
    forall|i: int| 0 <= i < ps.len() ==> object_pair_ok((#[trigger] ps[i]).0, ps[i].1)
}

/// The value a record file denotes: each field is its key's parsed
/// value, or the documented default where the key is absent.
pub open spec fn object_from(m: Map<u8, Seq<u8>>, t: &Object, sprite_ref: Seq<u8>, parent_ref: Seq<u8>, mask_ref: Seq<u8>, n_events: u32) -> bool {
    &&& t.solid == fld_bool(m, OK_SOLID, false)
    &&& t.visible == fld_bool(m, OK_VISIBLE, true)
    &&& t.depth == fld_i32(m, OK_DEPTH, 0)
    &&& t.persistent == fld_bool(m, OK_PERSISTENT, false)
    &&& sprite_ref == fld_bytes(m, OK_SPRITE)
    &&& parent_ref == fld_bytes(m, OK_PARENT)
    &&& mask_ref == fld_bytes(m, OK_MASK)
    &&& n_events == fld_u32(m, OK_EVENTS, 0)
}

/// The record lines the encoder writes.
pub open spec fn spec_enc_object(t: &Object, sprite_ref: Seq<u8>, parent_ref: Seq<u8>, mask_ref: Seq<u8>, n_events: u32) -> Seq<(u8, Seq<u8>)> {
    seq![
        (OK_SPRITE, sprite_ref),
        (OK_SOLID, enc_bool(t.solid)),
        (OK_VISIBLE, enc_bool(t.visible)),
        (OK_DEPTH, dec_of_int(t.depth as int)),
        (OK_PERSISTENT, enc_bool(t.persistent)),
        (OK_PARENT, parent_ref),
        (OK_MASK, mask_ref),
        (OK_EVENTS, dec_of(n_events as nat)),
    ]
}

/// A record the text format can carry: byte fields fit on a line.
pub open spec fn wf_object_record(t: &Object) -> bool {
    true
}

/// Encodes the record lines.
pub fn encode_object(t: &Object, sprite_ref: &Vec<u8>, parent_ref: &Vec<u8>, mask_ref: &Vec<u8>, n_events: u32) -> (r: Vec<(u8, Vec<u8>)>)
    ensures
        pairs_view(r@) == spec_enc_object(t, sprite_ref@, parent_ref@, mask_ref@, n_events),
{
    let mut out: Vec<(u8, Vec<u8>)> = Vec::new();
    out.push((OK_SPRITE, bytes_to_vec(sprite_ref.as_slice())));
    let mut v1: Vec<u8> = Vec::new();
    push_bool(&mut v1, t.solid);
    out.push((OK_SOLID, v1));
    let mut v2: Vec<u8> = Vec::new();
    push_bool(&mut v2, t.visible);
    out.push((OK_VISIBLE, v2));
    let mut v3: Vec<u8> = Vec::new();
    push_i64(&mut v3, t.depth as i64);
    out.push((OK_DEPTH, v3));
    let mut v4: Vec<u8> = Vec::new();
    push_bool(&mut v4, t.persistent);
    out.push((OK_PERSISTENT, v4));
    out.push((OK_PARENT, bytes_to_vec(parent_ref.as_slice())));
    out.push((OK_MASK, bytes_to_vec(mask_ref.as_slice())));
    let mut v7: Vec<u8> = Vec::new();
    push_u64(&mut v7, n_events as u64);
    out.push((OK_EVENTS, v7));
    proof {
        assert(pairs_view(out@) =~= spec_enc_object(t, sprite_ref@, parent_ref@, mask_ref@, n_events));
    }
    out
}

/// Decodes the record lines; fails on an unknown key or an ill-typed
/// value, and on nothing else.
pub fn decode_object(pairs: &Vec<(u8, Vec<u8>)>, path: &Vec<Vec<u8>>) -> (r: Result<(Object, Vec<u8>, Vec<u8>, Vec<u8>, u32), Error>)
    ensures
        r is Ok <==> object_pairs_ok(pairs_view(pairs@)),
        r is Err ==> match r->Err_0 {
            Error::UnknownKey(p2, k2) => crate::tree::path_view(p2@)
                == crate::tree::path_view(path@) && (exists|i: int|
                0 <= i < pairs_view(pairs@).len() && (#[trigger] pairs_view(pairs@)[i]).0
                    == k2 && !object_pair_ok(k2, pairs_view(pairs@)[i].1)),
            Error::BadValue(p2, k2) => crate::tree::path_view(p2@)
                == crate::tree::path_view(path@) && (exists|i: int|
                0 <= i < pairs_view(pairs@).len() && (#[trigger] pairs_view(pairs@)[i]).0
                    == k2 && !object_pair_ok(k2, pairs_view(pairs@)[i].1)),
            _ => false,
        },
        r is Ok ==> object_from(kv_map(pairs_view(pairs@)), &r->Ok_0.0, r->Ok_0.1@, r->Ok_0.2@, r->Ok_0.3@, r->Ok_0.4),
{
    let mut f_solid: bool = false;
    let mut f_visible: bool = true;
    let mut f_depth: i32 = 0;
    let mut f_persistent: bool = false;
    let mut sprite_ref: Vec<u8> = Vec::new();
    let mut parent_ref: Vec<u8> = Vec::new();
    let mut mask_ref: Vec<u8> = Vec::new();
    let mut n_events: u32 = 0;
    let mut i: usize = 0;
    proof {
        assert(pairs_view(pairs@).take(0) =~= Seq::<(u8, Seq<u8>)>::empty());
        assert(kv_map(pairs_view(pairs@).take(0)) == Map::<u8, Seq<u8>>::empty());
    }
    while i < pairs.len()
        invariant
            0 <= i <= pairs@.len(),
            object_pairs_ok(pairs_view(pairs@).take(i as int)),
            f_solid == fld_bool(kv_map(pairs_view(pairs@).take(i as int)), OK_SOLID, false),
            f_visible == fld_bool(kv_map(pairs_view(pairs@).take(i as int)), OK_VISIBLE, true),
            f_depth == fld_i32(kv_map(pairs_view(pairs@).take(i as int)), OK_DEPTH, 0),
            f_persistent == fld_bool(kv_map(pairs_view(pairs@).take(i as int)), OK_PERSISTENT, false),
            sprite_ref@ == fld_bytes(kv_map(pairs_view(pairs@).take(i as int)), OK_SPRITE),
            parent_ref@ == fld_bytes(kv_map(pairs_view(pairs@).take(i as int)), OK_PARENT),
            mask_ref@ == fld_bytes(kv_map(pairs_view(pairs@).take(i as int)), OK_MASK),
            n_events == fld_u32(kv_map(pairs_view(pairs@).take(i as int)), OK_EVENTS, 0),
        decreases pairs@.len() - i,
    {
        let k = pairs[i].0;
        let ghost prefix = pairs_view(pairs@).take(i as int);
        let ghost v = pairs@[i as int].1@;
        proof {
            assert(pairs_view(pairs@).take(i + 1) =~= prefix.push((k, v)));
            lemma_kv_map_push(prefix, k, v);
            assert(pairs_view(pairs@)[i as int] == (k, v));
        }
        if k == OK_SPRITE {
            sprite_ref = bytes_to_vec(pairs[i].1.as_slice());
        } else if k == OK_SOLID {
            match parse_bool_val(pairs[i].1.as_slice()) {
                Some(b) => { f_solid = b; },
                None => { return Err(Error::BadValue(clone_path(path), k)); },
            }
        } else if k == OK_VISIBLE {
            match parse_bool_val(pairs[i].1.as_slice()) {
                Some(b) => { f_visible = b; },
                None => { return Err(Error::BadValue(clone_path(path), k)); },
            }
        } else if k == OK_DEPTH {
            match parse_i32_val(pairs[i].1.as_slice()) {
                Some(n) => { f_depth = n; },
                None => { return Err(Error::BadValue(clone_path(path), k)); },
            }
        } else if k == OK_PERSISTENT {
            match parse_bool_val(pairs[i].1.as_slice()) {
                Some(b) => { f_persistent = b; },
                None => { return Err(Error::BadValue(clone_path(path), k)); },
            }
        } else if k == OK_PARENT {
            parent_ref = bytes_to_vec(pairs[i].1.as_slice());
        } else if k == OK_MASK {
            mask_ref = bytes_to_vec(pairs[i].1.as_slice());
        } else if k == OK_EVENTS {
            match parse_u32_val(pairs[i].1.as_slice()) {
                Some(n) => { n_events = n; },
                None => { return Err(Error::BadValue(clone_path(path), k)); },
            }
        } else {
            return Err(Error::UnknownKey(clone_path(path), k));
        }
        i = i + 1;
    }
    proof {
        assert(pairs_view(pairs@).take(i as int) =~= pairs_view(pairs@));
    }
    let t = Object { sprite_index: -1, solid: f_solid, visible: f_visible, depth: f_depth, persistent: f_persistent, parent_index: -1, mask_index: -1, events: Vec::new() };
    Ok((t, sprite_ref, parent_ref, mask_ref, n_events))
}

/// What the encoder writes decodes back to the same record.
pub proof fn lemma_object_round_trip(t: &Object, sprite_ref: Seq<u8>, parent_ref: Seq<u8>, mask_ref: Seq<u8>, n_events: u32, t2: &Object, sprite_ref2: Seq<u8>, parent_ref2: Seq<u8>, mask_ref2: Seq<u8>, n_events2: u32)
    requires
        object_from(kv_map(spec_enc_object(t, sprite_ref, parent_ref, mask_ref, n_events)), t2, sprite_ref2, parent_ref2, mask_ref2, n_events2),
    ensures
        t2.solid == t.solid,
        t2.visible == t.visible,
        t2.depth == t.depth,
        t2.persistent == t.persistent,
        sprite_ref2 == sprite_ref,
        parent_ref2 == parent_ref,
        mask_ref2 == mask_ref,
        n_events2 == n_events,
{
    let ps = spec_enc_object(t, sprite_ref, parent_ref, mask_ref, n_events);
    let q0 = Seq::<(u8, Seq<u8>)>::empty();
    lemma_kv_map_push(q0, OK_SPRITE, sprite_ref);
    let q1 = q0.push((OK_SPRITE, sprite_ref));
    lemma_kv_map_push(q1, OK_SOLID, enc_bool(t.solid));
    let q2 = q1.push((OK_SOLID, enc_bool(t.solid)));
    lemma_kv_map_push(q2, OK_VISIBLE, enc_bool(t.visible));
    let q3 = q2.push((OK_VISIBLE, enc_bool(t.visible)));
    lemma_kv_map_push(q3, OK_DEPTH, dec_of_int(t.depth as int));
    let q4 = q3.push((OK_DEPTH, dec_of_int(t.depth as int)));
    lemma_kv_map_push(q4, OK_PERSISTENT, enc_bool(t.persistent));
    let q5 = q4.push((OK_PERSISTENT, enc_bool(t.persistent)));
    lemma_kv_map_push(q5, OK_PARENT, parent_ref);
    let q6 = q5.push((OK_PARENT, parent_ref));
    lemma_kv_map_push(q6, OK_MASK, mask_ref);
    let q7 = q6.push((OK_MASK, mask_ref));
    lemma_kv_map_push(q7, OK_EVENTS, dec_of(n_events as nat));
    let q8 = q7.push((OK_EVENTS, dec_of(n_events as nat)));
    assert(ps =~= q8);
    lemma_bool_round_trip(t.solid);
    lemma_bool_round_trip(t.visible);
    lemma_i64_round_trip(t.depth as i64);
    lemma_bool_round_trip(t.persistent);
    lemma_u64_round_trip(n_events as u64);
}

/// The encoder's lines are well formed and well typed.
pub proof fn lemma_object_enc_ok(t: &Object, sprite_ref: Seq<u8>, parent_ref: Seq<u8>, mask_ref: Seq<u8>, n_events: u32)
    requires
        no_nl(sprite_ref),
        no_nl(parent_ref),
        no_nl(mask_ref),
    ensures
        wf_pairs(spec_enc_object(t, sprite_ref, parent_ref, mask_ref, n_events)),
        object_pairs_ok(spec_enc_object(t, sprite_ref, parent_ref, mask_ref, n_events)),
{
    let ps = spec_enc_object(t, sprite_ref, parent_ref, mask_ref, n_events);
    lemma_bool_round_trip(t.solid);
    lemma_bool_round_trip(t.visible);
    lemma_dec_of_digits(t.depth as nat);
    if t.depth < 0 { lemma_dec_of_digits((-(t.depth as int)) as nat); }
    lemma_i64_round_trip(t.depth as i64);
    lemma_bool_round_trip(t.persistent);
    lemma_dec_of_digits(n_events as nat);
    lemma_u64_round_trip(n_events as u64);
    assert forall|i: int| 0 <= i < ps.len() implies (#[trigger] ps[i]).0 != NL && no_nl(
        ps[i].1,
    ) && object_pair_ok(ps[i].0, ps[i].1) by {
        if i == 0 {
        }
        if i == 1 {
        }
        if i == 2 {
        }
        if i == 3 {
            assert(no_nl(dec_of_int(t.depth as int))) by {
                if t.depth < 0 {
                    let d = dec_of((-(t.depth as int)) as nat);
                    assert(forall|j: int| 0 <= j < d.len() ==> #[trigger] d[j] != NL);
                    assert(forall|j: int| 1 <= j < dec_of_int(t.depth as int).len()
                        ==> #[trigger] dec_of_int(t.depth as int)[j] == d[j - 1]);
                } else {
                    lemma_digits_no_nl(dec_of(t.depth as nat));
                }
            }
        }
        if i == 4 {
        }
        if i == 5 {
        }
        if i == 6 {
        }
        if i == 7 {
            lemma_digits_no_nl(dec_of(n_events as nat));
        }
    }
}

// --- event: an event record; its action list is a sidecar text ---

pub const EK_TYPE: u8 = 116;  // t
pub const EK_SUBTYPE: u8 = 115;  // s

pub open spec fn event_pair_ok(k: u8, v: Seq<u8>) -> bool {
    if k == EK_TYPE {
        val_ok_u32(v)
    } else if k == EK_SUBTYPE {
        val_ok_u32(v)
    } else {
        false
    }
}

pub open spec fn event_pairs_ok(ps: Seq<(u8, Seq<u8>)>) -> bool {
    forall|i: int| 0 <= i < ps.len() ==> event_pair_ok((#[trigger] ps[i]).0, ps[i].1)
}

/// The value a record file denotes: each field is its key's parsed
/// value, or the documented default where the key is absent.
pub open spec fn event_from(m: Map<u8, Seq<u8>>, t: &Event) -> bool {
    &&& t.event_type == fld_u32(m, EK_TYPE, 0)
    &&& t.event_subtype == fld_u32(m, EK_SUBTYPE, 0)
}

/// The record lines the encoder writes.
pub open spec fn spec_enc_event(t: &Event) -> Seq<(u8, Seq<u8>)> {
    seq![
        (EK_TYPE, dec_of(t.event_type as nat)),
        (EK_SUBTYPE, dec_of(t.event_subtype as nat)),
    ]
}

/// A record the text format can carry: byte fields fit on a line.
pub open spec fn wf_event_record(t: &Event) -> bool {
    true
}

/// Encodes the record lines.
pub fn encode_event(t: &Event) -> (r: Vec<(u8, Vec<u8>)>)
    ensures
        pairs_view(r@) == spec_enc_event(t),
{
    let mut out: Vec<(u8, Vec<u8>)> = Vec::new();
    let mut v0: Vec<u8> = Vec::new();
    push_u64(&mut v0, t.event_type as u64);
    out.push((EK_TYPE, v0));
    let mut v1: Vec<u8> = Vec::new();
    push_u64(&mut v1, t.event_subtype as u64);
    out.push((EK_SUBTYPE, v1));
    proof {
        assert(pairs_view(out@) =~= spec_enc_event(t));
    }
    out
}

/// Decodes the record lines; fails on an unknown key or an ill-typed
/// value, and on nothing else.
pub fn decode_event(pairs: &Vec<(u8, Vec<u8>)>, path: &Vec<Vec<u8>>) -> (r: Result<Event, Error>)
    ensures
        r is Ok <==> event_pairs_ok(pairs_view(pairs@)),
        r is Err ==> match r->Err_0 {
            Error::UnknownKey(p2, k2) => crate::tree::path_view(p2@)
                == crate::tree::path_view(path@) && (exists|i: int|
                0 <= i < pairs_view(pairs@).len() && (#[trigger] pairs_view(pairs@)[i]).0
                    == k2 && !event_pair_ok(k2, pairs_view(pairs@)[i].1)),
            Error::BadValue(p2, k2) => crate::tree::path_view(p2@)
                == crate::tree::path_view(path@) && (exists|i: int|
                0 <= i < pairs_view(pairs@).len() && (#[trigger] pairs_view(pairs@)[i]).0
                    == k2 && !event_pair_ok(k2, pairs_view(pairs@)[i].1)),
            _ => false,
        },
        r is Ok ==> event_from(kv_map(pairs_view(pairs@)), &r->Ok_0),
{
    let mut f_event_type: u32 = 0;
    let mut f_event_subtype: u32 = 0;
    let mut i: usize = 0;
    proof {
        assert(pairs_view(pairs@).take(0) =~= Seq::<(u8, Seq<u8>)>::empty());
        assert(kv_map(pairs_view(pairs@).take(0)) == Map::<u8, Seq<u8>>::empty());
    }
    while i < pairs.len()
        invariant
            0 <= i <= pairs@.len(),
            event_pairs_ok(pairs_view(pairs@).take(i as int)),
            f_event_type == fld_u32(kv_map(pairs_view(pairs@).take(i as int)), EK_TYPE, 0),
            f_event_subtype == fld_u32(kv_map(pairs_view(pairs@).take(i as int)), EK_SUBTYPE, 0),
        decreases pairs@.len() - i,
    {
        let k = pairs[i].0;
        let ghost prefix = pairs_view(pairs@).take(i as int);
        let ghost v = pairs@[i as int].1@;
        proof {
            assert(pairs_view(pairs@).take(i + 1) =~= prefix.push((k, v)));
            lemma_kv_map_push(prefix, k, v);
            assert(pairs_view(pairs@)[i as int] == (k, v));
        }
        if k == EK_TYPE {
            match parse_u32_val(pairs[i].1.as_slice()) {
                Some(n) => { f_event_type = n; },
                None => { return Err(Error::BadValue(clone_path(path), k)); },
            }
        } else if k == EK_SUBTYPE {
            match parse_u32_val(pairs[i].1.as_slice()) {
                Some(n) => { f_event_subtype = n; },
                None => { return Err(Error::BadValue(clone_path(path), k)); },
            }
        } else {
            return Err(Error::UnknownKey(clone_path(path), k));
        }
        i = i + 1;
    }
    proof {
        assert(pairs_view(pairs@).take(i as int) =~= pairs_view(pairs@));
    }
    let t = Event { event_type: f_event_type, event_subtype: f_event_subtype, actions: Vec::new() };
    Ok(t)
}

/// What the encoder writes decodes back to the same record.
pub proof fn lemma_event_round_trip(t: &Event, t2: &Event)
    requires
        event_from(kv_map(spec_enc_event(t)), t2),
    ensures
        t2.event_type == t.event_type,
        t2.event_subtype == t.event_subtype,
{
    let ps = spec_enc_event(t);
    let q0 = Seq::<(u8, Seq<u8>)>::empty();
    lemma_kv_map_push(q0, EK_TYPE, dec_of(t.event_type as nat));
    let q1 = q0.push((EK_TYPE, dec_of(t.event_type as nat)));
    lemma_kv_map_push(q1, EK_SUBTYPE, dec_of(t.event_subtype as nat));
    let q2 = q1.push((EK_SUBTYPE, dec_of(t.event_subtype as nat)));
    assert(ps =~= q2);
    lemma_u64_round_trip(t.event_type as u64);
    lemma_u64_round_trip(t.event_subtype as u64);
}

/// The encoder's lines are well formed and well typed.
pub proof fn lemma_event_enc_ok(t: &Event)
    ensures
        wf_pairs(spec_enc_event(t)),
        event_pairs_ok(spec_enc_event(t)),
{
    let ps = spec_enc_event(t);
    lemma_dec_of_digits(t.event_type as nat);
    lemma_u64_round_trip(t.event_type as u64);
    lemma_dec_of_digits(t.event_subtype as nat);
    lemma_u64_round_trip(t.event_subtype as u64);
    assert forall|i: int| 0 <= i < ps.len() implies (#[trigger] ps[i]).0 != NL && no_nl(
        ps[i].1,
    ) && event_pair_ok(ps[i].0, ps[i].1) by {
        if i == 0 {
            lemma_digits_no_nl(dec_of(t.event_type as nat));
        }
        if i == 1 {
            lemma_digits_no_nl(dec_of(t.event_subtype as nat));
        }
    }
}

// --- timeline: a timeline record; each moment is a file of its own ---

pub const TLK_MOMENTS: u8 = 110;  // n

pub open spec fn timeline_pair_ok(k: u8, v: Seq<u8>) -> bool {
    if k == TLK_MOMENTS {
        val_ok_u32(v)
    } else {
        false
    }
}

pub open spec fn timeline_pairs_ok(ps: Seq<(u8, Seq<u8>)>) -> bool {
    forall|i: int| 0 <= i < ps.len() ==> timeline_pair_ok((#[trigger] ps[i]).0, ps[i].1)
}

/// The value a record file denotes: each field is its key's parsed
/// value, or the documented default where the key is absent.
pub open spec fn timeline_from(m: Map<u8, Seq<u8>>, t: &Timeline, n_moments: u32) -> bool {
    &&& n_moments == fld_u32(m, TLK_MOMENTS, 0)
}

/// The record lines the encoder writes.
pub open spec fn spec_enc_timeline(t: &Timeline, n_moments: u32) -> Seq<(u8, Seq<u8>)> {
    seq![
        (TLK_MOMENTS, dec_of(n_moments as nat)),
    ]
}

/// A record the text format can carry: byte fields fit on a line.
pub open spec fn wf_timeline_record(t: &Timeline) -> bool {
    true
}

/// Encodes the record lines.
pub fn encode_timeline(t: &Timeline, n_moments: u32) -> (r: Vec<(u8, Vec<u8>)>)
    ensures
        pairs_view(r@) == spec_enc_timeline(t, n_moments),
{
    let mut out: Vec<(u8, Vec<u8>)> = Vec::new();
    let mut v0: Vec<u8> = Vec::new();
    push_u64(&mut v0, n_moments as u64);
    out.push((TLK_MOMENTS, v0));
    proof {
        assert(pairs_view(out@) =~= spec_enc_timeline(t, n_moments));
    }
    out
}

/// Decodes the record lines; fails on an unknown key or an ill-typed
/// value, and on nothing else.
pub fn decode_timeline(pairs: &Vec<(u8, Vec<u8>)>, path: &Vec<Vec<u8>>) -> (r: Result<(Timeline, u32), Error>)
    ensures
        r is Ok <==> timeline_pairs_ok(pairs_view(pairs@)),
        r is Err ==> match r->Err_0 {
            Error::UnknownKey(p2, k2) => crate::tree::path_view(p2@)
                == crate::tree::path_view(path@) && (exists|i: int|
                0 <= i < pairs_view(pairs@).len() && (#[trigger] pairs_view(pairs@)[i]).0
                    == k2 && !timeline_pair_ok(k2, pairs_view(pairs@)[i].1)),
            Error::BadValue(p2, k2) => crate::tree::path_view(p2@)
                == crate::tree::path_view(path@) && (exists|i: int|
                0 <= i < pairs_view(pairs@).len() && (#[trigger] pairs_view(pairs@)[i]).0
                    == k2 && !timeline_pair_ok(k2, pairs_view(pairs@)[i].1)),
            _ => false,
        },
        r is Ok ==> timeline_from(kv_map(pairs_view(pairs@)), &r->Ok_0.0, r->Ok_0.1),
{
    let mut n_moments: u32 = 0;
    let mut i: usize = 0;
    proof {
        assert(pairs_view(pairs@).take(0) =~= Seq::<(u8, Seq<u8>)>::empty());
        assert(kv_map(pairs_view(pairs@).take(0)) == Map::<u8, Seq<u8>>::empty());
    }
    while i < pairs.len()
        invariant
            0 <= i <= pairs@.len(),
            timeline_pairs_ok(pairs_view(pairs@).take(i as int)),
            n_moments == fld_u32(kv_map(pairs_view(pairs@).take(i as int)), TLK_MOMENTS, 0),
        decreases pairs@.len() - i,
    {
        let k = pairs[i].0;
        let ghost prefix = pairs_view(pairs@).take(i as int);
        let ghost v = pairs@[i as int].1@;
        proof {
            assert(pairs_view(pairs@).take(i + 1) =~= prefix.push((k, v)));
            lemma_kv_map_push(prefix, k, v);
            assert(pairs_view(pairs@)[i as int] == (k, v));
        }
        if k == TLK_MOMENTS {
            match parse_u32_val(pairs[i].1.as_slice()) {
                Some(n) => { n_moments = n; },
                None => { return Err(Error::BadValue(clone_path(path), k)); },
            }
        } else {
            return Err(Error::UnknownKey(clone_path(path), k));
        }
        i = i + 1;
    }
    proof {
        assert(pairs_view(pairs@).take(i as int) =~= pairs_view(pairs@));
    }
    let t = Timeline { moment_times: Vec::new(), moment_events: Vec::new() };
    Ok((t, n_moments))
}

/// What the encoder writes decodes back to the same record.
pub proof fn lemma_timeline_round_trip(t: &Timeline, n_moments: u32, t2: &Timeline, n_moments2: u32)
    requires
        timeline_from(kv_map(spec_enc_timeline(t, n_moments)), t2, n_moments2),
    ensures
        n_moments2 == n_moments,
{
    let ps = spec_enc_timeline(t, n_moments);
    let q0 = Seq::<(u8, Seq<u8>)>::empty();
    lemma_kv_map_push(q0, TLK_MOMENTS, dec_of(n_moments as nat));
    let q1 = q0.push((TLK_MOMENTS, dec_of(n_moments as nat)));
    assert(ps =~= q1);
    lemma_u64_round_trip(n_moments as u64);
}

/// The encoder's lines are well formed and well typed.
pub proof fn lemma_timeline_enc_ok(t: &Timeline, n_moments: u32)
    ensures
        wf_pairs(spec_enc_timeline(t, n_moments)),
        timeline_pairs_ok(spec_enc_timeline(t, n_moments)),
{
    let ps = spec_enc_timeline(t, n_moments);
    lemma_dec_of_digits(n_moments as nat);
    lemma_u64_round_trip(n_moments as u64);
    assert forall|i: int| 0 <= i < ps.len() implies (#[trigger] ps[i]).0 != NL && no_nl(
        ps[i].1,
    ) && timeline_pair_ok(ps[i].0, ps[i].1) by {
        if i == 0 {
            lemma_digits_no_nl(dec_of(n_moments as nat));
        }
    }
}

// --- moment: one timeline moment: its time; its action list is a sidecar text ---

pub const MK_TIME: u8 = 116;  // t

pub open spec fn moment_pair_ok(k: u8, v: Seq<u8>) -> bool {
    if k == MK_TIME {
        val_ok_u32(v)
    } else {
        false
    }
}

pub open spec fn moment_pairs_ok(ps: Seq<(u8, Seq<u8>)>) -> bool {
    forall|i: int| 0 <= i < ps.len() ==> moment_pair_ok((#[trigger] ps[i]).0, ps[i].1)
}

/// The value a record file denotes: each field is its key's parsed
/// value, or the documented default where the key is absent.
pub open spec fn moment_from(m: Map<u8, Seq<u8>>, time: u32) -> bool {
    &&& time == fld_u32(m, MK_TIME, 0)
}

/// The record lines the encoder writes.
pub open spec fn spec_enc_moment(time: u32) -> Seq<(u8, Seq<u8>)> {
    seq![
        (MK_TIME, dec_of(time as nat)),
    ]
}

/// Encodes the record lines.
pub fn encode_moment(time: u32) -> (r: Vec<(u8, Vec<u8>)>)
    ensures
        pairs_view(r@) == spec_enc_moment(time),
{
    let mut out: Vec<(u8, Vec<u8>)> = Vec::new();
    let mut v0: Vec<u8> = Vec::new();
    push_u64(&mut v0, time as u64);
    out.push((MK_TIME, v0));
    proof {
        assert(pairs_view(out@) =~= spec_enc_moment(time));
    }
    out
}

/// Decodes the record lines; fails on an unknown key or an ill-typed
/// value, and on nothing else.
pub fn decode_moment(pairs: &Vec<(u8, Vec<u8>)>, path: &Vec<Vec<u8>>) -> (r: Result<u32, Error>)
    ensures
        r is Ok <==> moment_pairs_ok(pairs_view(pairs@)),
        r is Err ==> match r->Err_0 {
            Error::UnknownKey(p2, k2) => crate::tree::path_view(p2@)
                == crate::tree::path_view(path@) && (exists|i: int|
                0 <= i < pairs_view(pairs@).len() && (#[trigger] pairs_view(pairs@)[i]).0
                    == k2 && !moment_pair_ok(k2, pairs_view(pairs@)[i].1)),
            Error::BadValue(p2, k2) => crate::tree::path_view(p2@)
                == crate::tree::path_view(path@) && (exists|i: int|
                0 <= i < pairs_view(pairs@).len() && (#[trigger] pairs_view(pairs@)[i]).0
                    == k2 && !moment_pair_ok(k2, pairs_view(pairs@)[i].1)),
            _ => false,
        },
        r is Ok ==> moment_from(kv_map(pairs_view(pairs@)), r->Ok_0),
{
    let mut time: u32 = 0;
    let mut i: usize = 0;
    proof {
        assert(pairs_view(pairs@).take(0) =~= Seq::<(u8, Seq<u8>)>::empty());
        assert(kv_map(pairs_view(pairs@).take(0)) == Map::<u8, Seq<u8>>::empty());
    }
    while i < pairs.len()
        invariant
            0 <= i <= pairs@.len(),
            moment_pairs_ok(pairs_view(pairs@).take(i as int)),
            time == fld_u32(kv_map(pairs_view(pairs@).take(i as int)), MK_TIME, 0),
        decreases pairs@.len() - i,
    {
        let k = pairs[i].0;
        let ghost prefix = pairs_view(pairs@).take(i as int);
        let ghost v = pairs@[i as int].1@;
        proof {
            assert(pairs_view(pairs@).take(i + 1) =~= prefix.push((k, v)));
            lemma_kv_map_push(prefix, k, v);
            assert(pairs_view(pairs@)[i as int] == (k, v));
        }
        if k == MK_TIME {
            match parse_u32_val(pairs[i].1.as_slice()) {
                Some(n) => { time = n; },
                None => { return Err(Error::BadValue(clone_path(path), k)); },
            }
        } else {
            return Err(Error::UnknownKey(clone_path(path), k));
        }
        i = i + 1;
    }
    proof {
        assert(pairs_view(pairs@).take(i as int) =~= pairs_view(pairs@));
    }
    Ok(time)
}

/// What the encoder writes decodes back to the same record.
pub proof fn lemma_moment_round_trip(time: u32, time2: u32)
    requires
        moment_from(kv_map(spec_enc_moment(time)), time2),
    ensures
        time2 == time,
{
    let ps = spec_enc_moment(time);
    let q0 = Seq::<(u8, Seq<u8>)>::empty();
    lemma_kv_map_push(q0, MK_TIME, dec_of(time as nat));
    let q1 = q0.push((MK_TIME, dec_of(time as nat)));
    assert(ps =~= q1);
    lemma_u64_round_trip(time as u64);
}

/// The encoder's lines are well formed and well typed.
pub proof fn lemma_moment_enc_ok(time: u32)
    ensures
        wf_pairs(spec_enc_moment(time)),
        moment_pairs_ok(spec_enc_moment(time)),
{
    let ps = spec_enc_moment(time);
    lemma_dec_of_digits(time as nat);
    lemma_u64_round_trip(time as u64);
    assert forall|i: int| 0 <= i < ps.len() implies (#[trigger] ps[i]).0 != NL && no_nl(
        ps[i].1,
    ) && moment_pair_ok(ps[i].0, ps[i].1) by {
        if i == 0 {
            lemma_digits_no_nl(dec_of(time as nat));
        }
    }
}

} // verus!
