//! Record codecs for rooms and what they hold: settings, background layers,
//! views, instances and tiles.
//!
//! A room is a directory: a settings record, eight layer records, eight view
//! records, one record per instance and per tile, code sidecars, and the
//! extra-data entries (see the overlay module).

use vstd::prelude::*;
use crate::asset::{Room, RoomBackground, RoomView, Instance, Tile};
use crate::bytes::{dec_of, dec_of_int, enc_bool, NL, bytes_to_vec, push_u64, push_i64, push_bool,
    lemma_u64_round_trip, lemma_i64_round_trip, lemma_bool_round_trip, lemma_dec_of_digits};
use crate::error::Error;
use crate::fields::{kv_map, lemma_kv_map_push, fld_u32, fld_i32, fld_u64, fld_bool, fld_bytes,
    val_ok_u32, val_ok_i32, val_ok_u64, val_ok_bool, parse_u32_val, parse_i32_val, parse_u64_val,
    parse_bool_val};
use crate::kv::{no_nl, wf_pairs, pairs_view};
use crate::codec_misc::lemma_digits_no_nl;
use crate::tree::clone_path;

verus! {
// --- instance: one instance of a room; the object is referenced by name and the creation code is a sidecar ---

pub const INK_X: u8 = 120;  // x
pub const INK_Y: u8 = 121;  // y
pub const INK_OBJECT: u8 = 111;  // o
pub const INK_ID: u8 = 105;  // i
pub const INK_LOCKED: u8 = 108;  // l

pub open spec fn instance_pair_ok(k: u8, v: Seq<u8>) -> bool {
    if k == INK_X {
        val_ok_i32(v)
    } else if k == INK_Y {
        val_ok_i32(v)
    } else if k == INK_OBJECT {
        true
    } else if k == INK_ID {
        val_ok_u32(v)
    } else if k == INK_LOCKED {
        val_ok_bool(v)
    } else {
        false
    }
}

pub open spec fn instance_pairs_ok(ps: Seq<(u8, Seq<u8>)>) -> bool {
    forall|i: int| 0 <= i < ps.len() ==> instance_pair_ok((#[trigger] ps[i]).0, ps[i].1)
}

/// The value a record file denotes: each field is its key's parsed
/// value, or the documented default where the key is absent.
pub open spec fn instance_from(m: Map<u8, Seq<u8>>, t: &Instance, object_ref: Seq<u8>) -> bool {
    &&& t.x == fld_i32(m, INK_X, 0)
    &&& t.y == fld_i32(m, INK_Y, 0)
    &&& t.id == fld_u32(m, INK_ID, 0)
    &&& t.locked == fld_bool(m, INK_LOCKED, false)
    &&& object_ref == fld_bytes(m, INK_OBJECT)
}

/// The record lines the encoder writes.
pub open spec fn spec_enc_instance(t: &Instance, object_ref: Seq<u8>) -> Seq<(u8, Seq<u8>)> {
    seq![
        (INK_X, dec_of_int(t.x as int)),
        (INK_Y, dec_of_int(t.y as int)),
        (INK_OBJECT, object_ref),
        (INK_ID, dec_of(t.id as nat)),
        (INK_LOCKED, enc_bool(t.locked)),
    ]
}

/// A record the text format can carry: byte fields fit on a line.
pub open spec fn wf_instance_record(t: &Instance) -> bool {
    true
}

/// Encodes the record lines.
pub fn encode_instance(t: &Instance, object_ref: &Vec<u8>) -> (r: Vec<(u8, Vec<u8>)>)
    ensures
        pairs_view(r@) == spec_enc_instance(t, object_ref@),
{
    let mut out: Vec<(u8, Vec<u8>)> = Vec::new();
    let mut v0: Vec<u8> = Vec::new();
    push_i64(&mut v0, t.x as i64);
    out.push((INK_X, v0));
    let mut v1: Vec<u8> = Vec::new();
    push_i64(&mut v1, t.y as i64);
    out.push((INK_Y, v1));
    out.push((INK_OBJECT, bytes_to_vec(object_ref.as_slice())));
    let mut v3: Vec<u8> = Vec::new();
    push_u64(&mut v3, t.id as u64);
    out.push((INK_ID, v3));
    let mut v4: Vec<u8> = Vec::new();
    push_bool(&mut v4, t.locked);
    out.push((INK_LOCKED, v4));
    proof {
        assert(pairs_view(out@) =~= spec_enc_instance(t, object_ref@));
    }
    out
}

/// Decodes the record lines; fails on an unknown key or an ill-typed
/// value, and on nothing else.
pub fn decode_instance(pairs: &Vec<(u8, Vec<u8>)>, path: &Vec<Vec<u8>>) -> (r: Result<(Instance, Vec<u8>), Error>)
    ensures
        r is Ok <==> instance_pairs_ok(pairs_view(pairs@)),
        r is Err ==> match r->Err_0 {
            Error::UnknownKey(p2, k2) => crate::tree::path_view(p2@)
                == crate::tree::path_view(path@) && (exists|i: int|
                0 <= i < pairs_view(pairs@).len() && (#[trigger] pairs_view(pairs@)[i]).0
                    == k2 && !instance_pair_ok(k2, pairs_view(pairs@)[i].1)),
            Error::BadValue(p2, k2) => crate::tree::path_view(p2@)
                == crate::tree::path_view(path@) && (exists|i: int|
                0 <= i < pairs_view(pairs@).len() && (#[trigger] pairs_view(pairs@)[i]).0
                    == k2 && !instance_pair_ok(k2, pairs_view(pairs@)[i].1)),
            _ => false,
        },
        r is Ok ==> instance_from(kv_map(pairs_view(pairs@)), &r->Ok_0.0, r->Ok_0.1@),
{
    let mut f_x: i32 = 0;
    let mut f_y: i32 = 0;
    let mut f_id: u32 = 0;
    let mut f_locked: bool = false;
    let mut object_ref: Vec<u8> = Vec::new();
    let mut i: usize = 0;
    proof {
        assert(pairs_view(pairs@).take(0) =~= Seq::<(u8, Seq<u8>)>::empty());
        assert(kv_map(pairs_view(pairs@).take(0)) == Map::<u8, Seq<u8>>::empty());
    }
    while i < pairs.len()
        invariant
            0 <= i <= pairs@.len(),
            instance_pairs_ok(pairs_view(pairs@).take(i as int)),
            f_x == fld_i32(kv_map(pairs_view(pairs@).take(i as int)), INK_X, 0),
            f_y == fld_i32(kv_map(pairs_view(pairs@).take(i as int)), INK_Y, 0),
            f_id == fld_u32(kv_map(pairs_view(pairs@).take(i as int)), INK_ID, 0),
            f_locked == fld_bool(kv_map(pairs_view(pairs@).take(i as int)), INK_LOCKED, false),
            object_ref@ == fld_bytes(kv_map(pairs_view(pairs@).take(i as int)), INK_OBJECT),
        decreases pairs@.len() - i,
    {
        let k = pairs[i].0;
        let ghost prefix = pairs_view(pairs@).take(i as int);
        let ghost v = pairs@[i as int].1@;
        proof {
            assert(pairs_view(pairs@).take(i + 1) =~= prefix.push((k, v)));
            lemma_kv_map_push(prefix, k, v);
            assert(pairs_view(pairs@)[i as int] == (k, v));
        }
        if k == INK_X {
            match parse_i32_val(pairs[i].1.as_slice()) {
                Some(n) => { f_x = n; },
                None => { return Err(Error::BadValue(clone_path(path), k)); },
            }
        } else if k == INK_Y {
            match parse_i32_val(pairs[i].1.as_slice()) {
                Some(n) => { f_y = n; },
                None => { return Err(Error::BadValue(clone_path(path), k)); },
            }
        } else if k == INK_OBJECT {
            object_ref = bytes_to_vec(pairs[i].1.as_slice());
        } else if k == INK_ID {
            match parse_u32_val(pairs[i].1.as_slice()) {
                Some(n) => { f_id = n; },
                None => { return Err(Error::BadValue(clone_path(path), k)); },
            }
        } else if k == INK_LOCKED {
            match parse_bool_val(pairs[i].1.as_slice()) {
                Some(b) => { f_locked = b; },
                None => { return Err(Error::BadValue(clone_path(path), k)); },
            }
        } else {
            return Err(Error::UnknownKey(clone_path(path), k));
        }
        i = i + 1;
    }
    proof {
        assert(pairs_view(pairs@).take(i as int) =~= pairs_view(pairs@));
    }
    let t = Instance { x: f_x, y: f_y, object: -1, id: f_id, creation_code: Vec::new(), locked: f_locked };
    Ok((t, object_ref))
}

/// What the encoder writes decodes back to the same record.
pub proof fn lemma_instance_round_trip(t: &Instance, object_ref: Seq<u8>, t2: &Instance, object_ref2: Seq<u8>)
    requires
        instance_from(kv_map(spec_enc_instance(t, object_ref)), t2, object_ref2),
    ensures
        t2.x == t.x,
        t2.y == t.y,
        t2.id == t.id,
        t2.locked == t.locked,
        object_ref2 == object_ref,
{
    let ps = spec_enc_instance(t, object_ref);
    let q0 = Seq::<(u8, Seq<u8>)>::empty();
    lemma_kv_map_push(q0, INK_X, dec_of_int(t.x as int));
    let q1 = q0.push((INK_X, dec_of_int(t.x as int)));
    lemma_kv_map_push(q1, INK_Y, dec_of_int(t.y as int));
    let q2 = q1.push((INK_Y, dec_of_int(t.y as int)));
    lemma_kv_map_push(q2, INK_OBJECT, object_ref);
    let q3 = q2.push((INK_OBJECT, object_ref));
    lemma_kv_map_push(q3, INK_ID, dec_of(t.id as nat));
    let q4 = q3.push((INK_ID, dec_of(t.id as nat)));
    lemma_kv_map_push(q4, INK_LOCKED, enc_bool(t.locked));
    let q5 = q4.push((INK_LOCKED, enc_bool(t.locked)));
    assert(ps =~= q5);
    lemma_i64_round_trip(t.x as i64);
    lemma_i64_round_trip(t.y as i64);
    lemma_u64_round_trip(t.id as u64);
    lemma_bool_round_trip(t.locked);
}

/// The encoder's lines are well formed and well typed.
pub proof fn lemma_instance_enc_ok(t: &Instance, object_ref: Seq<u8>)
    requires
        no_nl(object_ref),
    ensures
        wf_pairs(spec_enc_instance(t, object_ref)),
        instance_pairs_ok(spec_enc_instance(t, object_ref)),
{
    let ps = spec_enc_instance(t, object_ref);
    lemma_dec_of_digits(t.x as nat);
    if t.x < 0 { lemma_dec_of_digits((-(t.x as int)) as nat); }
    lemma_i64_round_trip(t.x as i64);
    lemma_dec_of_digits(t.y as nat);
    if t.y < 0 { lemma_dec_of_digits((-(t.y as int)) as nat); }
    lemma_i64_round_trip(t.y as i64);
    lemma_dec_of_digits(t.id as nat);
    lemma_u64_round_trip(t.id as u64);
    lemma_bool_round_trip(t.locked);
    assert forall|i: int| 0 <= i < ps.len() implies (#[trigger] ps[i]).0 != NL && no_nl(
        ps[i].1,
    ) && instance_pair_ok(ps[i].0, ps[i].1) by {
        if i == 0 {
            assert(no_nl(dec_of_int(t.x as int))) by {
                if t.x < 0 {
                    let d = dec_of((-(t.x as int)) as nat);
                    assert(forall|j: int| 0 <= j < d.len() ==> #[trigger] d[j] != NL);
                    assert(forall|j: int| 1 <= j < dec_of_int(t.x as int).len()
                        ==> #[trigger] dec_of_int(t.x as int)[j] == d[j - 1]);
                } else {
                    lemma_digits_no_nl(dec_of(t.x as nat));
                }
            }
        }
        if i == 1 {
            assert(no_nl(dec_of_int(t.y as int))) by {
                if t.y < 0 {
                    let d = dec_of((-(t.y as int)) as nat);
                    assert(forall|j: int| 0 <= j < d.len() ==> #[trigger] d[j] != NL);
                    assert(forall|j: int| 1 <= j < dec_of_int(t.y as int).len()
                        ==> #[trigger] dec_of_int(t.y as int)[j] == d[j - 1]);
                } else {
                    lemma_digits_no_nl(dec_of(t.y as nat));
                }
            }
        }
        if i == 2 {
        }
        if i == 3 {
            lemma_digits_no_nl(dec_of(t.id as nat));
        }
        if i == 4 {
        }
    }
}

// --- tile: one tile of a room; the background is referenced by name ---

pub const TIK_X: u8 = 120;  // x
pub const TIK_Y: u8 = 121;  // y
pub const TIK_SOURCE: u8 = 98;  // b
pub const TIK_U: u8 = 117;  // u
pub const TIK_V: u8 = 118;  // v
pub const TIK_W: u8 = 119;  // w
pub const TIK_H: u8 = 104;  // h
pub const TIK_DEPTH: u8 = 100;  // d
pub const TIK_ID: u8 = 105;  // i
pub const TIK_LOCKED: u8 = 108;  // l

pub open spec fn tile_pair_ok(k: u8, v: Seq<u8>) -> bool {
    if k == TIK_X {
        val_ok_i32(v)
    } else if k == TIK_Y {
        val_ok_i32(v)
    } else if k == TIK_SOURCE {
        true
    } else if k == TIK_U {
        val_ok_u32(v)
    } else if k == TIK_V {
        val_ok_u32(v)
    } else if k == TIK_W {
        val_ok_u32(v)
    } else if k == TIK_H {
        val_ok_u32(v)
    } else if k == TIK_DEPTH {
        val_ok_i32(v)
    } else if k == TIK_ID {
        val_ok_u32(v)
    } else if k == TIK_LOCKED {
        val_ok_bool(v)
    } else {
        false
    }
}

pub open spec fn tile_pairs_ok(ps: Seq<(u8, Seq<u8>)>) -> bool {
    forall|i: int| 0 <= i < ps.len() ==> tile_pair_ok((#[trigger] ps[i]).0, ps[i].1)
}

/// The value a record file denotes: each field is its key's parsed
/// value, or the documented default where the key is absent.
pub open spec fn tile_from(m: Map<u8, Seq<u8>>, t: &Tile, bg_ref: Seq<u8>) -> bool {
    &&& t.x == fld_i32(m, TIK_X, 0)
    &&& t.y == fld_i32(m, TIK_Y, 0)
    &&& t.u == fld_u32(m, TIK_U, 0)
    &&& t.v == fld_u32(m, TIK_V, 0)
    &&& t.width == fld_u32(m, TIK_W, 16)
    &&& t.height == fld_u32(m, TIK_H, 16)
    &&& t.depth == fld_i32(m, TIK_DEPTH, 0)
    &&& t.id == fld_u32(m, TIK_ID, 0)
    &&& t.locked == fld_bool(m, TIK_LOCKED, false)
    &&& bg_ref == fld_bytes(m, TIK_SOURCE)
}

/// The record lines the encoder writes.
pub open spec fn spec_enc_tile(t: &Tile, bg_ref: Seq<u8>) -> Seq<(u8, Seq<u8>)> {
    seq![
        (TIK_X, dec_of_int(t.x as int)),
        (TIK_Y, dec_of_int(t.y as int)),
        (TIK_SOURCE, bg_ref),
        (TIK_U, dec_of(t.u as nat)),
        (TIK_V, dec_of(t.v as nat)),
        (TIK_W, dec_of(t.width as nat)),
        (TIK_H, dec_of(t.height as nat)),
        (TIK_DEPTH, dec_of_int(t.depth as int)),
        (TIK_ID, dec_of(t.id as nat)),
        (TIK_LOCKED, enc_bool(t.locked)),
    ]
}

/// A record the text format can carry: byte fields fit on a line.
pub open spec fn wf_tile_record(t: &Tile) -> bool {
    true
}

/// Encodes the record lines.
pub fn encode_tile(t: &Tile, bg_ref: &Vec<u8>) -> (r: Vec<(u8, Vec<u8>)>)
    ensures
        pairs_view(r@) == spec_enc_tile(t, bg_ref@),
{
    let mut out: Vec<(u8, Vec<u8>)> = Vec::new();
    let mut v0: Vec<u8> = Vec::new();
    push_i64(&mut v0, t.x as i64);
    out.push((TIK_X, v0));
    let mut v1: Vec<u8> = Vec::new();
    push_i64(&mut v1, t.y as i64);
    out.push((TIK_Y, v1));
    out.push((TIK_SOURCE, bytes_to_vec(bg_ref.as_slice())));
    let mut v3: Vec<u8> = Vec::new();
    push_u64(&mut v3, t.u as u64);
    out.push((TIK_U, v3));
    let mut v4: Vec<u8> = Vec::new();
    push_u64(&mut v4, t.v as u64);
    out.push((TIK_V, v4));
    let mut v5: Vec<u8> = Vec::new();
    push_u64(&mut v5, t.width as u64);
    out.push((TIK_W, v5));
    let mut v6: Vec<u8> = Vec::new();
    push_u64(&mut v6, t.height as u64);
    out.push((TIK_H, v6));
    let mut v7: Vec<u8> = Vec::new();
    push_i64(&mut v7, t.depth as i64);
    out.push((TIK_DEPTH, v7));
    let mut v8: Vec<u8> = Vec::new();
    push_u64(&mut v8, t.id as u64);
    out.push((TIK_ID, v8));
    let mut v9: Vec<u8> = Vec::new();
    push_bool(&mut v9, t.locked);
    out.push((TIK_LOCKED, v9));
    proof {
        assert(pairs_view(out@) =~= spec_enc_tile(t, bg_ref@));
    }
    out
}

/// Decodes the record lines; fails on an unknown key or an ill-typed
/// value, and on nothing else.
pub fn decode_tile(pairs: &Vec<(u8, Vec<u8>)>, path: &Vec<Vec<u8>>) -> (r: Result<(Tile, Vec<u8>), Error>)
    ensures
        r is Ok <==> tile_pairs_ok(pairs_view(pairs@)),
        r is Err ==> match r->Err_0 {
            Error::UnknownKey(p2, k2) => crate::tree::path_view(p2@)
                == crate::tree::path_view(path@) && (exists|i: int|
                0 <= i < pairs_view(pairs@).len() && (#[trigger] pairs_view(pairs@)[i]).0
                    == k2 && !tile_pair_ok(k2, pairs_view(pairs@)[i].1)),
            Error::BadValue(p2, k2) => crate::tree::path_view(p2@)
                == crate::tree::path_view(path@) && (exists|i: int|
                0 <= i < pairs_view(pairs@).len() && (#[trigger] pairs_view(pairs@)[i]).0
                    == k2 && !tile_pair_ok(k2, pairs_view(pairs@)[i].1)),
            _ => false,
        },
        r is Ok ==> tile_from(kv_map(pairs_view(pairs@)), &r->Ok_0.0, r->Ok_0.1@),
{
    let mut f_x: i32 = 0;
    let mut f_y: i32 = 0;
    let mut f_u: u32 = 0;
    let mut f_v: u32 = 0;
    let mut f_width: u32 = 16;
    let mut f_height: u32 = 16;
    let mut f_depth: i32 = 0;
    let mut f_id: u32 = 0;
    let mut f_locked: bool = false;
    let mut bg_ref: Vec<u8> = Vec::new();
    let mut i: usize = 0;
    proof {
        assert(pairs_view(pairs@).take(0) =~= Seq::<(u8, Seq<u8>)>::empty());
        assert(kv_map(pairs_view(pairs@).take(0)) == Map::<u8, Seq<u8>>::empty());
    }
    while i < pairs.len()
        invariant
            0 <= i <= pairs@.len(),
            tile_pairs_ok(pairs_view(pairs@).take(i as int)),
            f_x == fld_i32(kv_map(pairs_view(pairs@).take(i as int)), TIK_X, 0),
            f_y == fld_i32(kv_map(pairs_view(pairs@).take(i as int)), TIK_Y, 0),
            f_u == fld_u32(kv_map(pairs_view(pairs@).take(i as int)), TIK_U, 0),
            f_v == fld_u32(kv_map(pairs_view(pairs@).take(i as int)), TIK_V, 0),
            f_width == fld_u32(kv_map(pairs_view(pairs@).take(i as int)), TIK_W, 16),
            f_height == fld_u32(kv_map(pairs_view(pairs@).take(i as int)), TIK_H, 16),
            f_depth == fld_i32(kv_map(pairs_view(pairs@).take(i as int)), TIK_DEPTH, 0),
            f_id == fld_u32(kv_map(pairs_view(pairs@).take(i as int)), TIK_ID, 0),
            f_locked == fld_bool(kv_map(pairs_view(pairs@).take(i as int)), TIK_LOCKED, false),
            bg_ref@ == fld_bytes(kv_map(pairs_view(pairs@).take(i as int)), TIK_SOURCE),
        decreases pairs@.len() - i,
    {
        let k = pairs[i].0;
        let ghost prefix = pairs_view(pairs@).take(i as int);
        let ghost v = pairs@[i as int].1@;
        proof {
            assert(pairs_view(pairs@).take(i + 1) =~= prefix.push((k, v)));
            lemma_kv_map_push(prefix, k, v);
            assert(pairs_view(pairs@)[i as int] == (k, v));
        }
        if k == TIK_X {
            match parse_i32_val(pairs[i].1.as_slice()) {
                Some(n) => { f_x = n; },
                None => { return Err(Error::BadValue(clone_path(path), k)); },
            }
        } else if k == TIK_Y {
            match parse_i32_val(pairs[i].1.as_slice()) {
                Some(n) => { f_y = n; },
                None => { return Err(Error::BadValue(clone_path(path), k)); },
            }
        } else if k == TIK_SOURCE {
            bg_ref = bytes_to_vec(pairs[i].1.as_slice());
        } else if k == TIK_U {
            match parse_u32_val(pairs[i].1.as_slice()) {
                Some(n) => { f_u = n; },
                None => { return Err(Error::BadValue(clone_path(path), k)); },
            }
        } else if k == TIK_V {
            match parse_u32_val(pairs[i].1.as_slice()) {
                Some(n) => { f_v = n; },
                None => { return Err(Error::BadValue(clone_path(path), k)); },
            }
        } else if k == TIK_W {
            match parse_u32_val(pairs[i].1.as_slice()) {
                Some(n) => { f_width = n; },
                None => { return Err(Error::BadValue(clone_path(path), k)); },
            }
        } else if k == TIK_H {
            match parse_u32_val(pairs[i].1.as_slice()) {
                Some(n) => { f_height = n; },
                None => { return Err(Error::BadValue(clone_path(path), k)); },
            }
        } else if k == TIK_DEPTH {
            match parse_i32_val(pairs[i].1.as_slice()) {
                Some(n) => { f_depth = n; },
                None => { return Err(Error::BadValue(clone_path(path), k)); },
            }
        } else if k == TIK_ID {
            match parse_u32_val(pairs[i].1.as_slice()) {
                Some(n) => { f_id = n; },
                None => { return Err(Error::BadValue(clone_path(path), k)); },
            }
        } else if k == TIK_LOCKED {
            match parse_bool_val(pairs[i].1.as_slice()) {
                Some(b) => { f_locked = b; },
                None => { return Err(Error::BadValue(clone_path(path), k)); },
            }
        } else {
            return Err(Error::UnknownKey(clone_path(path), k));
        }
        i = i + 1;
    }
    proof {
        assert(pairs_view(pairs@).take(i as int) =~= pairs_view(pairs@));
    }
    let t = Tile { x: f_x, y: f_y, source_bg: -1, u: f_u, v: f_v, width: f_width, height: f_height, depth: f_depth, id: f_id, locked: f_locked };
    Ok((t, bg_ref))
}

/// What the encoder writes decodes back to the same record.
pub proof fn lemma_tile_round_trip(t: &Tile, bg_ref: Seq<u8>, t2: &Tile, bg_ref2: Seq<u8>)
    requires
        tile_from(kv_map(spec_enc_tile(t, bg_ref)), t2, bg_ref2),
    ensures
        t2.x == t.x,
        t2.y == t.y,
        t2.u == t.u,
        t2.v == t.v,
        t2.width == t.width,
        t2.height == t.height,
        t2.depth == t.depth,
        t2.id == t.id,
        t2.locked == t.locked,
        bg_ref2 == bg_ref,
{
    let ps = spec_enc_tile(t, bg_ref);
    let q0 = Seq::<(u8, Seq<u8>)>::empty();
    lemma_kv_map_push(q0, TIK_X, dec_of_int(t.x as int));
    let q1 = q0.push((TIK_X, dec_of_int(t.x as int)));
    lemma_kv_map_push(q1, TIK_Y, dec_of_int(t.y as int));
    let q2 = q1.push((TIK_Y, dec_of_int(t.y as int)));
    lemma_kv_map_push(q2, TIK_SOURCE, bg_ref);
    let q3 = q2.push((TIK_SOURCE, bg_ref));
    lemma_kv_map_push(q3, TIK_U, dec_of(t.u as nat));
    let q4 = q3.push((TIK_U, dec_of(t.u as nat)));
    lemma_kv_map_push(q4, TIK_V, dec_of(t.v as nat));
    let q5 = q4.push((TIK_V, dec_of(t.v as nat)));
    lemma_kv_map_push(q5, TIK_W, dec_of(t.width as nat));
    let q6 = q5.push((TIK_W, dec_of(t.width as nat)));
    lemma_kv_map_push(q6, TIK_H, dec_of(t.height as nat));
    let q7 = q6.push((TIK_H, dec_of(t.height as nat)));
    lemma_kv_map_push(q7, TIK_DEPTH, dec_of_int(t.depth as int));
    let q8 = q7.push((TIK_DEPTH, dec_of_int(t.depth as int)));
    lemma_kv_map_push(q8, TIK_ID, dec_of(t.id as nat));
    let q9 = q8.push((TIK_ID, dec_of(t.id as nat)));
    lemma_kv_map_push(q9, TIK_LOCKED, enc_bool(t.locked));
    let q10 = q9.push((TIK_LOCKED, enc_bool(t.locked)));
    assert(ps =~= q10);
    lemma_i64_round_trip(t.x as i64);
    lemma_i64_round_trip(t.y as i64);
    lemma_u64_round_trip(t.u as u64);
    lemma_u64_round_trip(t.v as u64);
    lemma_u64_round_trip(t.width as u64);
    lemma_u64_round_trip(t.height as u64);
    lemma_i64_round_trip(t.depth as i64);
    lemma_u64_round_trip(t.id as u64);
    lemma_bool_round_trip(t.locked);
}

/// The encoder's lines are well formed and well typed.
pub proof fn lemma_tile_enc_ok(t: &Tile, bg_ref: Seq<u8>)
    requires
        no_nl(bg_ref),
    ensures
        wf_pairs(spec_enc_tile(t, bg_ref)),
        tile_pairs_ok(spec_enc_tile(t, bg_ref)),
{
    let ps = spec_enc_tile(t, bg_ref);
    lemma_dec_of_digits(t.x as nat);
    if t.x < 0 { lemma_dec_of_digits((-(t.x as int)) as nat); }
    lemma_i64_round_trip(t.x as i64);
    lemma_dec_of_digits(t.y as nat);
    if t.y < 0 { lemma_dec_of_digits((-(t.y as int)) as nat); }
    lemma_i64_round_trip(t.y as i64);
    lemma_dec_of_digits(t.u as nat);
    lemma_u64_round_trip(t.u as u64);
    lemma_dec_of_digits(t.v as nat);
    lemma_u64_round_trip(t.v as u64);
    lemma_dec_of_digits(t.width as nat);
    lemma_u64_round_trip(t.width as u64);
    lemma_dec_of_digits(t.height as nat);
    lemma_u64_round_trip(t.height as u64);
    lemma_dec_of_digits(t.depth as nat);
    if t.depth < 0 { lemma_dec_of_digits((-(t.depth as int)) as nat); }
    lemma_i64_round_trip(t.depth as i64);
    lemma_dec_of_digits(t.id as nat);
    lemma_u64_round_trip(t.id as u64);
    lemma_bool_round_trip(t.locked);
    assert forall|i: int| 0 <= i < ps.len() implies (#[trigger] ps[i]).0 != NL && no_nl(
        ps[i].1,
    ) && tile_pair_ok(ps[i].0, ps[i].1) by {
        if i == 0 {
            assert(no_nl(dec_of_int(t.x as int))) by {
                if t.x < 0 {
                    let d = dec_of((-(t.x as int)) as nat);
                    assert(forall|j: int| 0 <= j < d.len() ==> #[trigger] d[j] != NL);
                    assert(forall|j: int| 1 <= j < dec_of_int(t.x as int).len()
                        ==> #[trigger] dec_of_int(t.x as int)[j] == d[j - 1]);
                } else {
                    lemma_digits_no_nl(dec_of(t.x as nat));
                }
            }
        }
        if i == 1 {
            assert(no_nl(dec_of_int(t.y as int))) by {
                if t.y < 0 {
                    let d = dec_of((-(t.y as int)) as nat);
                    assert(forall|j: int| 0 <= j < d.len() ==> #[trigger] d[j] != NL);
                    assert(forall|j: int| 1 <= j < dec_of_int(t.y as int).len()
                        ==> #[trigger] dec_of_int(t.y as int)[j] == d[j - 1]);
                } else {
                    lemma_digits_no_nl(dec_of(t.y as nat));
                }
            }
        }
        if i == 2 {
        }
        if i == 3 {
            lemma_digits_no_nl(dec_of(t.u as nat));
        }
        if i == 4 {
            lemma_digits_no_nl(dec_of(t.v as nat));
        }
        if i == 5 {
            lemma_digits_no_nl(dec_of(t.width as nat));
        }
        if i == 6 {
            lemma_digits_no_nl(dec_of(t.height as nat));
        }
        if i == 7 {
            assert(no_nl(dec_of_int(t.depth as int))) by {
                if t.depth < 0 {
                    let d = dec_of((-(t.depth as int)) as nat);
                    assert(forall|j: int| 0 <= j < d.len() ==> #[trigger] d[j] != NL);
                    assert(forall|j: int| 1 <= j < dec_of_int(t.depth as int).len()
                        ==> #[trigger] dec_of_int(t.depth as int)[j] == d[j - 1]);
                } else {
                    lemma_digits_no_nl(dec_of(t.depth as nat));
                }
            }
        }
        if i == 8 {
            lemma_digits_no_nl(dec_of(t.id as nat));
        }
        if i == 9 {
        }
    }
}

// --- room: the room settings record; layers, views, instances, tiles, editor state and code are files of their own ---

pub const RK_CAPTION: u8 = 99;  // c
pub const RK_SPEED: u8 = 115;  // s
pub const RK_WIDTH: u8 = 119;  // w
pub const RK_HEIGHT: u8 = 104;  // h
pub const RK_SNAP_X: u8 = 120;  // x
pub const RK_SNAP_Y: u8 = 121;  // y
pub const RK_ISOMETRIC: u8 = 105;  // i
pub const RK_PERSISTENT: u8 = 112;  // p
pub const RK_BG_COLOUR: u8 = 98;  // b
pub const RK_CLEAR: u8 = 108;  // l
pub const RK_VIEWS_ENABLED: u8 = 118;  // v
pub const RK_CLEAR_VIEW: u8 = 107;  // k
pub const RK_INSTANCES: u8 = 73;  // I
pub const RK_TILES: u8 = 84;  // T

pub open spec fn room_pair_ok(k: u8, v: Seq<u8>) -> bool {
    if k == RK_CAPTION {
        true
    } else if k == RK_SPEED {
        val_ok_u32(v)
    } else if k == RK_WIDTH {
        val_ok_u32(v)
    } else if k == RK_HEIGHT {
        val_ok_u32(v)
    } else if k == RK_SNAP_X {
        val_ok_u32(v)
    } else if k == RK_SNAP_Y {
        val_ok_u32(v)
    } else if k == RK_ISOMETRIC {
        val_ok_bool(v)
    } else if k == RK_PERSISTENT {
        val_ok_bool(v)
    } else if k == RK_BG_COLOUR {
        val_ok_i32(v)
    } else if k == RK_CLEAR {
        val_ok_bool(v)
    } else if k == RK_VIEWS_ENABLED {
        val_ok_bool(v)
    } else if k == RK_CLEAR_VIEW {
        val_ok_bool(v)
    } else if k == RK_INSTANCES {
        val_ok_u32(v)
    } else if k == RK_TILES {
        val_ok_u32(v)
    } else {
        false
    }
}

pub open spec fn room_pairs_ok(ps: Seq<(u8, Seq<u8>)>) -> bool {
    forall|i: int| 0 <= i < ps.len() ==> room_pair_ok((#[trigger] ps[i]).0, ps[i].1)
}

/// The value a record file denotes: each field is its key's parsed
/// value, or the documented default where the key is absent.
pub open spec fn room_from(m: Map<u8, Seq<u8>>, t: &Room, n_instances: u32, n_tiles: u32) -> bool {
    &&& t.caption@ == fld_bytes(m, RK_CAPTION)
    &&& t.speed == fld_u32(m, RK_SPEED, 30)
    &&& t.width == fld_u32(m, RK_WIDTH, 640)
    &&& t.height == fld_u32(m, RK_HEIGHT, 480)
    &&& t.snap_x == fld_u32(m, RK_SNAP_X, 16)
    &&& t.snap_y == fld_u32(m, RK_SNAP_Y, 16)
    &&& t.isometric == fld_bool(m, RK_ISOMETRIC, false)
    &&& t.persistent == fld_bool(m, RK_PERSISTENT, false)
    &&& t.bg_colour == fld_i32(m, RK_BG_COLOUR, 0)
    &&& t.clear_screen == fld_bool(m, RK_CLEAR, true)
    &&& t.views_enabled == fld_bool(m, RK_VIEWS_ENABLED, false)
    &&& t.clear_view == fld_bool(m, RK_CLEAR_VIEW, true)
    &&& n_instances == fld_u32(m, RK_INSTANCES, 0)
    &&& n_tiles == fld_u32(m, RK_TILES, 0)
}

/// The record lines the encoder writes.
pub open spec fn spec_enc_room(t: &Room, n_instances: u32, n_tiles: u32) -> Seq<(u8, Seq<u8>)> {
    seq![
        (RK_CAPTION, t.caption@),
        (RK_SPEED, dec_of(t.speed as nat)),
        (RK_WIDTH, dec_of(t.width as nat)),
        (RK_HEIGHT, dec_of(t.height as nat)),
        (RK_SNAP_X, dec_of(t.snap_x as nat)),
        (RK_SNAP_Y, dec_of(t.snap_y as nat)),
        (RK_ISOMETRIC, enc_bool(t.isometric)),
        (RK_PERSISTENT, enc_bool(t.persistent)),
        (RK_BG_COLOUR, dec_of_int(t.bg_colour as int)),
        (RK_CLEAR, enc_bool(t.clear_screen)),
        (RK_VIEWS_ENABLED, enc_bool(t.views_enabled)),
        (RK_CLEAR_VIEW, enc_bool(t.clear_view)),
        (RK_INSTANCES, dec_of(n_instances as nat)),
        (RK_TILES, dec_of(n_tiles as nat)),
    ]
}

/// A record the text format can carry: byte fields fit on a line.
pub open spec fn wf_room_record(t: &Room) -> bool {
    &&& no_nl(t.caption@)
}

/// Encodes the record lines.
#[verifier::rlimit(100)]
pub fn encode_room(t: &Room, n_instances: u32, n_tiles: u32) -> (r: Vec<(u8, Vec<u8>)>)
    ensures
        pairs_view(r@) == spec_enc_room(t, n_instances, n_tiles),
{
    let mut out: Vec<(u8, Vec<u8>)> = Vec::new();
    out.push((RK_CAPTION, bytes_to_vec(t.caption.as_slice())));
    let mut v1: Vec<u8> = Vec::new();
    push_u64(&mut v1, t.speed as u64);
    out.push((RK_SPEED, v1));
    let mut v2: Vec<u8> = Vec::new();
    push_u64(&mut v2, t.width as u64);
    out.push((RK_WIDTH, v2));
    let mut v3: Vec<u8> = Vec::new();
    push_u64(&mut v3, t.height as u64);
    out.push((RK_HEIGHT, v3));
    let mut v4: Vec<u8> = Vec::new();
    push_u64(&mut v4, t.snap_x as u64);
    out.push((RK_SNAP_X, v4));
    let mut v5: Vec<u8> = Vec::new();
    push_u64(&mut v5, t.snap_y as u64);
    out.push((RK_SNAP_Y, v5));
    let mut v6: Vec<u8> = Vec::new();
    push_bool(&mut v6, t.isometric);
    out.push((RK_ISOMETRIC, v6));
    let mut v7: Vec<u8> = Vec::new();
    push_bool(&mut v7, t.persistent);
    out.push((RK_PERSISTENT, v7));
    let mut v8: Vec<u8> = Vec::new();
    push_i64(&mut v8, t.bg_colour as i64);
    out.push((RK_BG_COLOUR, v8));
    let mut v9: Vec<u8> = Vec::new();
    push_bool(&mut v9, t.clear_screen);
    out.push((RK_CLEAR, v9));
    let mut v10: Vec<u8> = Vec::new();
    push_bool(&mut v10, t.views_enabled);
    out.push((RK_VIEWS_ENABLED, v10));
    let mut v11: Vec<u8> = Vec::new();
    push_bool(&mut v11, t.clear_view);
    out.push((RK_CLEAR_VIEW, v11));
    let mut v12: Vec<u8> = Vec::new();
    push_u64(&mut v12, n_instances as u64);
    out.push((RK_INSTANCES, v12));
    let mut v13: Vec<u8> = Vec::new();
    push_u64(&mut v13, n_tiles as u64);
    out.push((RK_TILES, v13));
    proof {
        assert(pairs_view(out@) =~= spec_enc_room(t, n_instances, n_tiles));
    }
    out
}

/// Decodes the record lines; fails on an unknown key or an ill-typed
/// value, and on nothing else.
#[verifier::rlimit(100)]
pub fn decode_room(pairs: &Vec<(u8, Vec<u8>)>, path: &Vec<Vec<u8>>) -> (r: Result<(Room, u32, u32), Error>)
    ensures
        r is Ok <==> room_pairs_ok(pairs_view(pairs@)),
        r is Err ==> match r->Err_0 {
            Error::UnknownKey(p2, k2) => crate::tree::path_view(p2@)
                == crate::tree::path_view(path@) && (exists|i: int|
                0 <= i < pairs_view(pairs@).len() && (#[trigger] pairs_view(pairs@)[i]).0
                    == k2 && !room_pair_ok(k2, pairs_view(pairs@)[i].1)),
            Error::BadValue(p2, k2) => crate::tree::path_view(p2@)
                == crate::tree::path_view(path@) && (exists|i: int|
                0 <= i < pairs_view(pairs@).len() && (#[trigger] pairs_view(pairs@)[i]).0
                    == k2 && !room_pair_ok(k2, pairs_view(pairs@)[i].1)),
            _ => false,
        },
        r is Ok ==> room_from(kv_map(pairs_view(pairs@)), &r->Ok_0.0, r->Ok_0.1, r->Ok_0.2),
{
    let mut f_caption: Vec<u8> = Vec::new();
    let mut f_speed: u32 = 30;
    let mut f_width: u32 = 640;
    let mut f_height: u32 = 480;
    let mut f_snap_x: u32 = 16;
    let mut f_snap_y: u32 = 16;
    let mut f_isometric: bool = false;
    let mut f_persistent: bool = false;
    let mut f_bg_colour: i32 = 0;
    let mut f_clear_screen: bool = true;
    let mut f_views_enabled: bool = false;
    let mut f_clear_view: bool = true;
    let mut n_instances: u32 = 0;
    let mut n_tiles: u32 = 0;
    let mut i: usize = 0;
    proof {
        assert(pairs_view(pairs@).take(0) =~= Seq::<(u8, Seq<u8>)>::empty());
        assert(kv_map(pairs_view(pairs@).take(0)) == Map::<u8, Seq<u8>>::empty());
    }
    while i < pairs.len()
        invariant
            0 <= i <= pairs@.len(),
            room_pairs_ok(pairs_view(pairs@).take(i as int)),
            f_caption@ == fld_bytes(kv_map(pairs_view(pairs@).take(i as int)), RK_CAPTION),
            f_speed == fld_u32(kv_map(pairs_view(pairs@).take(i as int)), RK_SPEED, 30),
            f_width == fld_u32(kv_map(pairs_view(pairs@).take(i as int)), RK_WIDTH, 640),
            f_height == fld_u32(kv_map(pairs_view(pairs@).take(i as int)), RK_HEIGHT, 480),
            f_snap_x == fld_u32(kv_map(pairs_view(pairs@).take(i as int)), RK_SNAP_X, 16),
            f_snap_y == fld_u32(kv_map(pairs_view(pairs@).take(i as int)), RK_SNAP_Y, 16),
            f_isometric == fld_bool(kv_map(pairs_view(pairs@).take(i as int)), RK_ISOMETRIC, false),
            f_persistent == fld_bool(kv_map(pairs_view(pairs@).take(i as int)), RK_PERSISTENT, false),
            f_bg_colour == fld_i32(kv_map(pairs_view(pairs@).take(i as int)), RK_BG_COLOUR, 0),
            f_clear_screen == fld_bool(kv_map(pairs_view(pairs@).take(i as int)), RK_CLEAR, true),
            f_views_enabled == fld_bool(kv_map(pairs_view(pairs@).take(i as int)), RK_VIEWS_ENABLED, false),
            f_clear_view == fld_bool(kv_map(pairs_view(pairs@).take(i as int)), RK_CLEAR_VIEW, true),
            n_instances == fld_u32(kv_map(pairs_view(pairs@).take(i as int)), RK_INSTANCES, 0),
            n_tiles == fld_u32(kv_map(pairs_view(pairs@).take(i as int)), RK_TILES, 0),
        decreases pairs@.len() - i,
    {
        let k = pairs[i].0;
        let ghost prefix = pairs_view(pairs@).take(i as int);
        let ghost v = pairs@[i as int].1@;
        proof {
            assert(pairs_view(pairs@).take(i + 1) =~= prefix.push((k, v)));
            lemma_kv_map_push(prefix, k, v);
            assert(pairs_view(pairs@)[i as int] == (k, v));
        }
        if k == RK_CAPTION {
            f_caption = bytes_to_vec(pairs[i].1.as_slice());
        } else if k == RK_SPEED {
            match parse_u32_val(pairs[i].1.as_slice()) {
                Some(n) => { f_speed = n; },
                None => { return Err(Error::BadValue(clone_path(path), k)); },
            }
        } else if k == RK_WIDTH {
            match parse_u32_val(pairs[i].1.as_slice()) {
                Some(n) => { f_width = n; },
                None => { return Err(Error::BadValue(clone_path(path), k)); },
            }
        } else if k == RK_HEIGHT {
            match parse_u32_val(pairs[i].1.as_slice()) {
                Some(n) => { f_height = n; },
                None => { return Err(Error::BadValue(clone_path(path), k)); },
            }
        } else if k == RK_SNAP_X {
            match parse_u32_val(pairs[i].1.as_slice()) {
                Some(n) => { f_snap_x = n; },
                None => { return Err(Error::BadValue(clone_path(path), k)); },
            }
        } else if k == RK_SNAP_Y {
            match parse_u32_val(pairs[i].1.as_slice()) {
                Some(n) => { f_snap_y = n; },
                None => { return Err(Error::BadValue(clone_path(path), k)); },
            }
        } else if k == RK_ISOMETRIC {
            match parse_bool_val(pairs[i].1.as_slice()) {
                Some(b) => { f_isometric = b; },
                None => { return Err(Error::BadValue(clone_path(path), k)); },
            }
        } else if k == RK_PERSISTENT {
            match parse_bool_val(pairs[i].1.as_slice()) {
                Some(b) => { f_persistent = b; },
                None => { return Err(Error::BadValue(clone_path(path), k)); },
            }
        } else if k == RK_BG_COLOUR {
            match parse_i32_val(pairs[i].1.as_slice()) {
                Some(n) => { f_bg_colour = n; },
                None => { return Err(Error::BadValue(clone_path(path), k)); },
            }
        } else if k == RK_CLEAR {
            match parse_bool_val(pairs[i].1.as_slice()) {
                Some(b) => { f_clear_screen = b; },
                None => { return Err(Error::BadValue(clone_path(path), k)); },
            }
        } else if k == RK_VIEWS_ENABLED {
            match parse_bool_val(pairs[i].1.as_slice()) {
                Some(b) => { f_views_enabled = b; },
                None => { return Err(Error::BadValue(clone_path(path), k)); },
            }
        } else if k == RK_CLEAR_VIEW {
            match parse_bool_val(pairs[i].1.as_slice()) {
                Some(b) => { f_clear_view = b; },
                None => { return Err(Error::BadValue(clone_path(path), k)); },
            }
        } else if k == RK_INSTANCES {
            match parse_u32_val(pairs[i].1.as_slice()) {
                Some(n) => { n_instances = n; },
                None => { return Err(Error::BadValue(clone_path(path), k)); },
            }
        } else if k == RK_TILES {
            match parse_u32_val(pairs[i].1.as_slice()) {
                Some(n) => { n_tiles = n; },
                None => { return Err(Error::BadValue(clone_path(path), k)); },
            }
        } else {
            return Err(Error::UnknownKey(clone_path(path), k));
        }
        i = i + 1;
    }
    proof {
        assert(pairs_view(pairs@).take(i as int) =~= pairs_view(pairs@));
    }
    let t = Room { caption: f_caption, speed: f_speed, width: f_width, height: f_height, snap_x: f_snap_x, snap_y: f_snap_y, isometric: f_isometric, persistent: f_persistent, bg_colour: f_bg_colour, clear_screen: f_clear_screen, backgrounds: Vec::new(), views_enabled: f_views_enabled, clear_view: f_clear_view, views: Vec::new(), creation_code: Vec::new(), instances: Vec::new(), tiles: Vec::new(), remember_room_editor_info: true, editor_width: 0, editor_height: 0, show_grid: true, show_objects: true, show_tiles: true, show_backgrounds: true, show_foregrounds: true, show_views: false, delete_underlying_objects: true, delete_underlying_tiles: true, tab: 0, x_position_scroll: 0, y_position_scroll: 0 };
    Ok((t, n_instances, n_tiles))
}

/// What the encoder writes decodes back to the same record.
#[verifier::rlimit(100)]
pub proof fn lemma_room_round_trip(t: &Room, n_instances: u32, n_tiles: u32, t2: &Room, n_instances2: u32, n_tiles2: u32)
    requires
        room_from(kv_map(spec_enc_room(t, n_instances, n_tiles)), t2, n_instances2, n_tiles2),
    ensures
        t2.caption@ == t.caption@,
        t2.speed == t.speed,
        t2.width == t.width,
        t2.height == t.height,
        t2.snap_x == t.snap_x,
        t2.snap_y == t.snap_y,
        t2.isometric == t.isometric,
        t2.persistent == t.persistent,
        t2.bg_colour == t.bg_colour,
        t2.clear_screen == t.clear_screen,
        t2.views_enabled == t.views_enabled,
        t2.clear_view == t.clear_view,
        n_instances2 == n_instances,
        n_tiles2 == n_tiles,
{
    let ps = spec_enc_room(t, n_instances, n_tiles);
    let q0 = Seq::<(u8, Seq<u8>)>::empty();
    lemma_kv_map_push(q0, RK_CAPTION, t.caption@);
    let q1 = q0.push((RK_CAPTION, t.caption@));
    lemma_kv_map_push(q1, RK_SPEED, dec_of(t.speed as nat));
    let q2 = q1.push((RK_SPEED, dec_of(t.speed as nat)));
    lemma_kv_map_push(q2, RK_WIDTH, dec_of(t.width as nat));
    let q3 = q2.push((RK_WIDTH, dec_of(t.width as nat)));
    lemma_kv_map_push(q3, RK_HEIGHT, dec_of(t.height as nat));
    let q4 = q3.push((RK_HEIGHT, dec_of(t.height as nat)));
    lemma_kv_map_push(q4, RK_SNAP_X, dec_of(t.snap_x as nat));
    let q5 = q4.push((RK_SNAP_X, dec_of(t.snap_x as nat)));
    lemma_kv_map_push(q5, RK_SNAP_Y, dec_of(t.snap_y as nat));
    let q6 = q5.push((RK_SNAP_Y, dec_of(t.snap_y as nat)));
    lemma_kv_map_push(q6, RK_ISOMETRIC, enc_bool(t.isometric));
    let q7 = q6.push((RK_ISOMETRIC, enc_bool(t.isometric)));
    lemma_kv_map_push(q7, RK_PERSISTENT, enc_bool(t.persistent));
    let q8 = q7.push((RK_PERSISTENT, enc_bool(t.persistent)));
    lemma_kv_map_push(q8, RK_BG_COLOUR, dec_of_int(t.bg_colour as int));
    let q9 = q8.push((RK_BG_COLOUR, dec_of_int(t.bg_colour as int)));
    lemma_kv_map_push(q9, RK_CLEAR, enc_bool(t.clear_screen));
    let q10 = q9.push((RK_CLEAR, enc_bool(t.clear_screen)));
    lemma_kv_map_push(q10, RK_VIEWS_ENABLED, enc_bool(t.views_enabled));
    let q11 = q10.push((RK_VIEWS_ENABLED, enc_bool(t.views_enabled)));
    lemma_kv_map_push(q11, RK_CLEAR_VIEW, enc_bool(t.clear_view));
    let q12 = q11.push((RK_CLEAR_VIEW, enc_bool(t.clear_view)));
    lemma_kv_map_push(q12, RK_INSTANCES, dec_of(n_instances as nat));
    let q13 = q12.push((RK_INSTANCES, dec_of(n_instances as nat)));
    lemma_kv_map_push(q13, RK_TILES, dec_of(n_tiles as nat));
    let q14 = q13.push((RK_TILES, dec_of(n_tiles as nat)));
    assert(ps =~= q14);
    lemma_u64_round_trip(t.speed as u64);
    lemma_u64_round_trip(t.width as u64);
    lemma_u64_round_trip(t.height as u64);
    lemma_u64_round_trip(t.snap_x as u64);
    lemma_u64_round_trip(t.snap_y as u64);
    lemma_bool_round_trip(t.isometric);
    lemma_bool_round_trip(t.persistent);
    lemma_i64_round_trip(t.bg_colour as i64);
    lemma_bool_round_trip(t.clear_screen);
    lemma_bool_round_trip(t.views_enabled);
    lemma_bool_round_trip(t.clear_view);
    lemma_u64_round_trip(n_instances as u64);
    lemma_u64_round_trip(n_tiles as u64);
}

/// The encoder's lines are well formed and well typed.
#[verifier::rlimit(100)]
pub proof fn lemma_room_enc_ok(t: &Room, n_instances: u32, n_tiles: u32)
    requires
        wf_room_record(t),
    ensures
        wf_pairs(spec_enc_room(t, n_instances, n_tiles)),
        room_pairs_ok(spec_enc_room(t, n_instances, n_tiles)),
{
    let ps = spec_enc_room(t, n_instances, n_tiles);
    lemma_dec_of_digits(t.speed as nat);
    lemma_u64_round_trip(t.speed as u64);
    lemma_dec_of_digits(t.width as nat);
    lemma_u64_round_trip(t.width as u64);
    lemma_dec_of_digits(t.height as nat);
    lemma_u64_round_trip(t.height as u64);
    lemma_dec_of_digits(t.snap_x as nat);
    lemma_u64_round_trip(t.snap_x as u64);
    lemma_dec_of_digits(t.snap_y as nat);
    lemma_u64_round_trip(t.snap_y as u64);
    lemma_bool_round_trip(t.isometric);
    lemma_bool_round_trip(t.persistent);
    lemma_dec_of_digits(t.bg_colour as nat);
    if t.bg_colour < 0 { lemma_dec_of_digits((-(t.bg_colour as int)) as nat); }
    lemma_i64_round_trip(t.bg_colour as i64);
    lemma_bool_round_trip(t.clear_screen);
    lemma_bool_round_trip(t.views_enabled);
    lemma_bool_round_trip(t.clear_view);
    lemma_dec_of_digits(n_instances as nat);
    lemma_u64_round_trip(n_instances as u64);
    lemma_dec_of_digits(n_tiles as nat);
    lemma_u64_round_trip(n_tiles as u64);
    assert forall|i: int| 0 <= i < ps.len() implies (#[trigger] ps[i]).0 != NL && no_nl(
        ps[i].1,
    ) && room_pair_ok(ps[i].0, ps[i].1) by {
        if i == 0 {
        }
        if i == 1 {
            lemma_digits_no_nl(dec_of(t.speed as nat));
        }
        if i == 2 {
            lemma_digits_no_nl(dec_of(t.width as nat));
        }
        if i == 3 {
            lemma_digits_no_nl(dec_of(t.height as nat));
        }
        if i == 4 {
            lemma_digits_no_nl(dec_of(t.snap_x as nat));
        }
        if i == 5 {
            lemma_digits_no_nl(dec_of(t.snap_y as nat));
        }
        if i == 6 {
        }
        if i == 7 {
        }
        if i == 8 {
            assert(no_nl(dec_of_int(t.bg_colour as int))) by {
                if t.bg_colour < 0 {
                    let d = dec_of((-(t.bg_colour as int)) as nat);
                    assert(forall|j: int| 0 <= j < d.len() ==> #[trigger] d[j] != NL);
                    assert(forall|j: int| 1 <= j < dec_of_int(t.bg_colour as int).len()
                        ==> #[trigger] dec_of_int(t.bg_colour as int)[j] == d[j - 1]);
                } else {
                    lemma_digits_no_nl(dec_of(t.bg_colour as nat));
                }
            }
        }
        if i == 9 {
        }
        if i == 10 {
        }
        if i == 11 {
        }
        if i == 12 {
            lemma_digits_no_nl(dec_of(n_instances as nat));
        }
        if i == 13 {
            lemma_digits_no_nl(dec_of(n_tiles as nat));
        }
    }
}

// --- room editor: the room editor-state record: what the editor remembers about its own window ---

pub const REK_REMEMBER: u8 = 114;  // r
pub const REK_WIDTH: u8 = 119;  // w
pub const REK_HEIGHT: u8 = 104;  // h
pub const REK_SHOW_GRID: u8 = 103;  // g
pub const REK_SHOW_OBJECTS: u8 = 111;  // o
pub const REK_SHOW_TILES: u8 = 116;  // t
pub const REK_SHOW_BACKGROUNDS: u8 = 97;  // a
pub const REK_SHOW_FOREGROUNDS: u8 = 100;  // d
pub const REK_SHOW_VIEWS: u8 = 106;  // j
pub const REK_DELETE_OBJECTS: u8 = 109;  // m
pub const REK_DELETE_TILES: u8 = 110;  // n
pub const REK_TAB: u8 = 113;  // q
pub const REK_SCROLL_X: u8 = 122;  // z
pub const REK_SCROLL_Y: u8 = 117;  // u

pub open spec fn room_editor_pair_ok(k: u8, v: Seq<u8>) -> bool {
    if k == REK_REMEMBER {
        val_ok_bool(v)
    } else if k == REK_WIDTH {
        val_ok_u32(v)
    } else if k == REK_HEIGHT {
        val_ok_u32(v)
    } else if k == REK_SHOW_GRID {
        val_ok_bool(v)
    } else if k == REK_SHOW_OBJECTS {
        val_ok_bool(v)
    } else if k == REK_SHOW_TILES {
        val_ok_bool(v)
    } else if k == REK_SHOW_BACKGROUNDS {
        val_ok_bool(v)
    } else if k == REK_SHOW_FOREGROUNDS {
        val_ok_bool(v)
    } else if k == REK_SHOW_VIEWS {
        val_ok_bool(v)
    } else if k == REK_DELETE_OBJECTS {
        val_ok_bool(v)
    } else if k == REK_DELETE_TILES {
        val_ok_bool(v)
    } else if k == REK_TAB {
        val_ok_u32(v)
    } else if k == REK_SCROLL_X {
        val_ok_u32(v)
    } else if k == REK_SCROLL_Y {
        val_ok_u32(v)
    } else {
        false
    }
}

pub open spec fn room_editor_pairs_ok(ps: Seq<(u8, Seq<u8>)>) -> bool {
    forall|i: int| 0 <= i < ps.len() ==> room_editor_pair_ok((#[trigger] ps[i]).0, ps[i].1)
}

/// The value a record file denotes: each field is its key's parsed
/// value, or the documented default where the key is absent.
pub open spec fn room_editor_from(m: Map<u8, Seq<u8>>, t: &Room) -> bool {
    &&& t.remember_room_editor_info == fld_bool(m, REK_REMEMBER, true)
    &&& t.editor_width == fld_u32(m, REK_WIDTH, 0)
    &&& t.editor_height == fld_u32(m, REK_HEIGHT, 0)
    &&& t.show_grid == fld_bool(m, REK_SHOW_GRID, true)
    &&& t.show_objects == fld_bool(m, REK_SHOW_OBJECTS, true)
    &&& t.show_tiles == fld_bool(m, REK_SHOW_TILES, true)
    &&& t.show_backgrounds == fld_bool(m, REK_SHOW_BACKGROUNDS, true)
    &&& t.show_foregrounds == fld_bool(m, REK_SHOW_FOREGROUNDS, true)
    &&& t.show_views == fld_bool(m, REK_SHOW_VIEWS, false)
    &&& t.delete_underlying_objects == fld_bool(m, REK_DELETE_OBJECTS, true)
    &&& t.delete_underlying_tiles == fld_bool(m, REK_DELETE_TILES, true)
    &&& t.tab == fld_u32(m, REK_TAB, 0)
    &&& t.x_position_scroll == fld_u32(m, REK_SCROLL_X, 0)
    &&& t.y_position_scroll == fld_u32(m, REK_SCROLL_Y, 0)
}

/// The record lines the encoder writes.
pub open spec fn spec_enc_room_editor(t: &Room) -> Seq<(u8, Seq<u8>)> {
    seq![
        (REK_REMEMBER, enc_bool(t.remember_room_editor_info)),
        (REK_WIDTH, dec_of(t.editor_width as nat)),
        (REK_HEIGHT, dec_of(t.editor_height as nat)),
        (REK_SHOW_GRID, enc_bool(t.show_grid)),
        (REK_SHOW_OBJECTS, enc_bool(t.show_objects)),
        (REK_SHOW_TILES, enc_bool(t.show_tiles)),
        (REK_SHOW_BACKGROUNDS, enc_bool(t.show_backgrounds)),
        (REK_SHOW_FOREGROUNDS, enc_bool(t.show_foregrounds)),
        (REK_SHOW_VIEWS, enc_bool(t.show_views)),
        (REK_DELETE_OBJECTS, enc_bool(t.delete_underlying_objects)),
        (REK_DELETE_TILES, enc_bool(t.delete_underlying_tiles)),
        (REK_TAB, dec_of(t.tab as nat)),
        (REK_SCROLL_X, dec_of(t.x_position_scroll as nat)),
        (REK_SCROLL_Y, dec_of(t.y_position_scroll as nat)),
    ]
}

/// A record the text format can carry: byte fields fit on a line.
pub open spec fn wf_room_editor_record(t: &Room) -> bool {
    true
}

/// Encodes the record lines.
#[verifier::rlimit(100)]
pub fn encode_room_editor(t: &Room) -> (r: Vec<(u8, Vec<u8>)>)
    ensures
        pairs_view(r@) == spec_enc_room_editor(t),
{
    let mut out: Vec<(u8, Vec<u8>)> = Vec::new();
    let mut v0: Vec<u8> = Vec::new();
    push_bool(&mut v0, t.remember_room_editor_info);
    out.push((REK_REMEMBER, v0));
    let mut v1: Vec<u8> = Vec::new();
    push_u64(&mut v1, t.editor_width as u64);
    out.push((REK_WIDTH, v1));
    let mut v2: Vec<u8> = Vec::new();
    push_u64(&mut v2, t.editor_height as u64);
    out.push((REK_HEIGHT, v2));
    let mut v3: Vec<u8> = Vec::new();
    push_bool(&mut v3, t.show_grid);
    out.push((REK_SHOW_GRID, v3));
    let mut v4: Vec<u8> = Vec::new();
    push_bool(&mut v4, t.show_objects);
    out.push((REK_SHOW_OBJECTS, v4));
    let mut v5: Vec<u8> = Vec::new();
    push_bool(&mut v5, t.show_tiles);
    out.push((REK_SHOW_TILES, v5));
    let mut v6: Vec<u8> = Vec::new();
    push_bool(&mut v6, t.show_backgrounds);
    out.push((REK_SHOW_BACKGROUNDS, v6));
    let mut v7: Vec<u8> = Vec::new();
    push_bool(&mut v7, t.show_foregrounds);
    out.push((REK_SHOW_FOREGROUNDS, v7));
    let mut v8: Vec<u8> = Vec::new();
    push_bool(&mut v8, t.show_views);
    out.push((REK_SHOW_VIEWS, v8));
    let mut v9: Vec<u8> = Vec::new();
    push_bool(&mut v9, t.delete_underlying_objects);
    out.push((REK_DELETE_OBJECTS, v9));
    let mut v10: Vec<u8> = Vec::new();
    push_bool(&mut v10, t.delete_underlying_tiles);
    out.push((REK_DELETE_TILES, v10));
    let mut v11: Vec<u8> = Vec::new();
    push_u64(&mut v11, t.tab as u64);
    out.push((REK_TAB, v11));
    let mut v12: Vec<u8> = Vec::new();
    push_u64(&mut v12, t.x_position_scroll as u64);
    out.push((REK_SCROLL_X, v12));
    let mut v13: Vec<u8> = Vec::new();
    push_u64(&mut v13, t.y_position_scroll as u64);
    out.push((REK_SCROLL_Y, v13));
    proof {
        assert(pairs_view(out@) =~= spec_enc_room_editor(t));
    }
    out
}

/// Decodes the record lines; fails on an unknown key or an ill-typed
/// value, and on nothing else.
#[verifier::rlimit(100)]
pub fn decode_room_editor(pairs: &Vec<(u8, Vec<u8>)>, path: &Vec<Vec<u8>>) -> (r: Result<Room, Error>)
    ensures
        r is Ok <==> room_editor_pairs_ok(pairs_view(pairs@)),
        r is Err ==> match r->Err_0 {
            Error::UnknownKey(p2, k2) => crate::tree::path_view(p2@)
                == crate::tree::path_view(path@) && (exists|i: int|
                0 <= i < pairs_view(pairs@).len() && (#[trigger] pairs_view(pairs@)[i]).0
                    == k2 && !room_editor_pair_ok(k2, pairs_view(pairs@)[i].1)),
            Error::BadValue(p2, k2) => crate::tree::path_view(p2@)
                == crate::tree::path_view(path@) && (exists|i: int|
                0 <= i < pairs_view(pairs@).len() && (#[trigger] pairs_view(pairs@)[i]).0
                    == k2 && !room_editor_pair_ok(k2, pairs_view(pairs@)[i].1)),
            _ => false,
        },
        r is Ok ==> room_editor_from(kv_map(pairs_view(pairs@)), &r->Ok_0),
{
    let mut f_remember_room_editor_info: bool = true;
    let mut f_editor_width: u32 = 0;
    let mut f_editor_height: u32 = 0;
    let mut f_show_grid: bool = true;
    let mut f_show_objects: bool = true;
    let mut f_show_tiles: bool = true;
    let mut f_show_backgrounds: bool = true;
    let mut f_show_foregrounds: bool = true;
    let mut f_show_views: bool = false;
    let mut f_delete_underlying_objects: bool = true;
    let mut f_delete_underlying_tiles: bool = true;
    let mut f_tab: u32 = 0;
    let mut f_x_position_scroll: u32 = 0;
    let mut f_y_position_scroll: u32 = 0;
    let mut i: usize = 0;
    proof {
        assert(pairs_view(pairs@).take(0) =~= Seq::<(u8, Seq<u8>)>::empty());
        assert(kv_map(pairs_view(pairs@).take(0)) == Map::<u8, Seq<u8>>::empty());
    }
    while i < pairs.len()
        invariant
            0 <= i <= pairs@.len(),
            room_editor_pairs_ok(pairs_view(pairs@).take(i as int)),
            f_remember_room_editor_info == fld_bool(kv_map(pairs_view(pairs@).take(i as int)), REK_REMEMBER, true),
            f_editor_width == fld_u32(kv_map(pairs_view(pairs@).take(i as int)), REK_WIDTH, 0),
            f_editor_height == fld_u32(kv_map(pairs_view(pairs@).take(i as int)), REK_HEIGHT, 0),
            f_show_grid == fld_bool(kv_map(pairs_view(pairs@).take(i as int)), REK_SHOW_GRID, true),
            f_show_objects == fld_bool(kv_map(pairs_view(pairs@).take(i as int)), REK_SHOW_OBJECTS, true),
            f_show_tiles == fld_bool(kv_map(pairs_view(pairs@).take(i as int)), REK_SHOW_TILES, true),
            f_show_backgrounds == fld_bool(kv_map(pairs_view(pairs@).take(i as int)), REK_SHOW_BACKGROUNDS, true),
            f_show_foregrounds == fld_bool(kv_map(pairs_view(pairs@).take(i as int)), REK_SHOW_FOREGROUNDS, true),
            f_show_views == fld_bool(kv_map(pairs_view(pairs@).take(i as int)), REK_SHOW_VIEWS, false),
            f_delete_underlying_objects == fld_bool(kv_map(pairs_view(pairs@).take(i as int)), REK_DELETE_OBJECTS, true),
            f_delete_underlying_tiles == fld_bool(kv_map(pairs_view(pairs@).take(i as int)), REK_DELETE_TILES, true),
            f_tab == fld_u32(kv_map(pairs_view(pairs@).take(i as int)), REK_TAB, 0),
            f_x_position_scroll == fld_u32(kv_map(pairs_view(pairs@).take(i as int)), REK_SCROLL_X, 0),
            f_y_position_scroll == fld_u32(kv_map(pairs_view(pairs@).take(i as int)), REK_SCROLL_Y, 0),
        decreases pairs@.len() - i,
    {
        let k = pairs[i].0;
        let ghost prefix = pairs_view(pairs@).take(i as int);
        let ghost v = pairs@[i as int].1@;
        proof {
            assert(pairs_view(pairs@).take(i + 1) =~= prefix.push((k, v)));
            lemma_kv_map_push(prefix, k, v);
            assert(pairs_view(pairs@)[i as int] == (k, v));
        }
        if k == REK_REMEMBER {
            match parse_bool_val(pairs[i].1.as_slice()) {
                Some(b) => { f_remember_room_editor_info = b; },
                None => { return Err(Error::BadValue(clone_path(path), k)); },
            }
        } else if k == REK_WIDTH {
            match parse_u32_val(pairs[i].1.as_slice()) {
                Some(n) => { f_editor_width = n; },
                None => { return Err(Error::BadValue(clone_path(path), k)); },
            }
        } else if k == REK_HEIGHT {
            match parse_u32_val(pairs[i].1.as_slice()) {
                Some(n) => { f_editor_height = n; },
                None => { return Err(Error::BadValue(clone_path(path), k)); },
            }
        } else if k == REK_SHOW_GRID {
            match parse_bool_val(pairs[i].1.as_slice()) {
                Some(b) => { f_show_grid = b; },
                None => { return Err(Error::BadValue(clone_path(path), k)); },
            }
        } else if k == REK_SHOW_OBJECTS {
            match parse_bool_val(pairs[i].1.as_slice()) {
                Some(b) => { f_show_objects = b; },
                None => { return Err(Error::BadValue(clone_path(path), k)); },
            }
        } else if k == REK_SHOW_TILES {
            match parse_bool_val(pairs[i].1.as_slice()) {
                Some(b) => { f_show_tiles = b; },
                None => { return Err(Error::BadValue(clone_path(path), k)); },
            }
        } else if k == REK_SHOW_BACKGROUNDS {
            match parse_bool_val(pairs[i].1.as_slice()) {
                Some(b) => { f_show_backgrounds = b; },
                None => { return Err(Error::BadValue(clone_path(path), k)); },
            }
        } else if k == REK_SHOW_FOREGROUNDS {
            match parse_bool_val(pairs[i].1.as_slice()) {
                Some(b) => { f_show_foregrounds = b; },
                None => { return Err(Error::BadValue(clone_path(path), k)); },
            }
        } else if k == REK_SHOW_VIEWS {
            match parse_bool_val(pairs[i].1.as_slice()) {
                Some(b) => { f_show_views = b; },
                None => { return Err(Error::BadValue(clone_path(path), k)); },
            }
        } else if k == REK_DELETE_OBJECTS {
            match parse_bool_val(pairs[i].1.as_slice()) {
                Some(b) => { f_delete_underlying_objects = b; },
                None => { return Err(Error::BadValue(clone_path(path), k)); },
            }
        } else if k == REK_DELETE_TILES {
            match parse_bool_val(pairs[i].1.as_slice()) {
                Some(b) => { f_delete_underlying_tiles = b; },
                None => { return Err(Error::BadValue(clone_path(path), k)); },
            }
        } else if k == REK_TAB {
            match parse_u32_val(pairs[i].1.as_slice()) {
                Some(n) => { f_tab = n; },
                None => { return Err(Error::BadValue(clone_path(path), k)); },
            }
        } else if k == REK_SCROLL_X {
            match parse_u32_val(pairs[i].1.as_slice()) {
                Some(n) => { f_x_position_scroll = n; },
                None => { return Err(Error::BadValue(clone_path(path), k)); },
            }
        } else if k == REK_SCROLL_Y {
            match parse_u32_val(pairs[i].1.as_slice()) {
                Some(n) => { f_y_position_scroll = n; },
                None => { return Err(Error::BadValue(clone_path(path), k)); },
            }
        } else {
            return Err(Error::UnknownKey(clone_path(path), k));
        }
        i = i + 1;
    }
    proof {
        assert(pairs_view(pairs@).take(i as int) =~= pairs_view(pairs@));
    }
    let t = Room { caption: Vec::new(), speed: 30, width: 640, height: 480, snap_x: 16, snap_y: 16, isometric: false, persistent: false, bg_colour: 0, clear_screen: true, backgrounds: Vec::new(), views_enabled: false, clear_view: true, views: Vec::new(), creation_code: Vec::new(), instances: Vec::new(), tiles: Vec::new(), remember_room_editor_info: f_remember_room_editor_info, editor_width: f_editor_width, editor_height: f_editor_height, show_grid: f_show_grid, show_objects: f_show_objects, show_tiles: f_show_tiles, show_backgrounds: f_show_backgrounds, show_foregrounds: f_show_foregrounds, show_views: f_show_views, delete_underlying_objects: f_delete_underlying_objects, delete_underlying_tiles: f_delete_underlying_tiles, tab: f_tab, x_position_scroll: f_x_position_scroll, y_position_scroll: f_y_position_scroll };
    Ok(t)
}

/// What the encoder writes decodes back to the same record.
#[verifier::rlimit(100)]
pub proof fn lemma_room_editor_round_trip(t: &Room, t2: &Room)
    requires
        room_editor_from(kv_map(spec_enc_room_editor(t)), t2),
    ensures
        t2.remember_room_editor_info == t.remember_room_editor_info,
        t2.editor_width == t.editor_width,
        t2.editor_height == t.editor_height,
        t2.show_grid == t.show_grid,
        t2.show_objects == t.show_objects,
        t2.show_tiles == t.show_tiles,
        t2.show_backgrounds == t.show_backgrounds,
        t2.show_foregrounds == t.show_foregrounds,
        t2.show_views == t.show_views,
        t2.delete_underlying_objects == t.delete_underlying_objects,
        t2.delete_underlying_tiles == t.delete_underlying_tiles,
        t2.tab == t.tab,
        t2.x_position_scroll == t.x_position_scroll,
        t2.y_position_scroll == t.y_position_scroll,
{
    let ps = spec_enc_room_editor(t);
    let q0 = Seq::<(u8, Seq<u8>)>::empty();
    lemma_kv_map_push(q0, REK_REMEMBER, enc_bool(t.remember_room_editor_info));
    let q1 = q0.push((REK_REMEMBER, enc_bool(t.remember_room_editor_info)));
    lemma_kv_map_push(q1, REK_WIDTH, dec_of(t.editor_width as nat));
    let q2 = q1.push((REK_WIDTH, dec_of(t.editor_width as nat)));
    lemma_kv_map_push(q2, REK_HEIGHT, dec_of(t.editor_height as nat));
    let q3 = q2.push((REK_HEIGHT, dec_of(t.editor_height as nat)));
    lemma_kv_map_push(q3, REK_SHOW_GRID, enc_bool(t.show_grid));
    let q4 = q3.push((REK_SHOW_GRID, enc_bool(t.show_grid)));
    lemma_kv_map_push(q4, REK_SHOW_OBJECTS, enc_bool(t.show_objects));
    let q5 = q4.push((REK_SHOW_OBJECTS, enc_bool(t.show_objects)));
    lemma_kv_map_push(q5, REK_SHOW_TILES, enc_bool(t.show_tiles));
    let q6 = q5.push((REK_SHOW_TILES, enc_bool(t.show_tiles)));
    lemma_kv_map_push(q6, REK_SHOW_BACKGROUNDS, enc_bool(t.show_backgrounds));
    let q7 = q6.push((REK_SHOW_BACKGROUNDS, enc_bool(t.show_backgrounds)));
    lemma_kv_map_push(q7, REK_SHOW_FOREGROUNDS, enc_bool(t.show_foregrounds));
    let q8 = q7.push((REK_SHOW_FOREGROUNDS, enc_bool(t.show_foregrounds)));
    lemma_kv_map_push(q8, REK_SHOW_VIEWS, enc_bool(t.show_views));
    let q9 = q8.push((REK_SHOW_VIEWS, enc_bool(t.show_views)));
    lemma_kv_map_push(q9, REK_DELETE_OBJECTS, enc_bool(t.delete_underlying_objects));
    let q10 = q9.push((REK_DELETE_OBJECTS, enc_bool(t.delete_underlying_objects)));
    lemma_kv_map_push(q10, REK_DELETE_TILES, enc_bool(t.delete_underlying_tiles));
    let q11 = q10.push((REK_DELETE_TILES, enc_bool(t.delete_underlying_tiles)));
    lemma_kv_map_push(q11, REK_TAB, dec_of(t.tab as nat));
    let q12 = q11.push((REK_TAB, dec_of(t.tab as nat)));
    lemma_kv_map_push(q12, REK_SCROLL_X, dec_of(t.x_position_scroll as nat));
    let q13 = q12.push((REK_SCROLL_X, dec_of(t.x_position_scroll as nat)));
    lemma_kv_map_push(q13, REK_SCROLL_Y, dec_of(t.y_position_scroll as nat));
    let q14 = q13.push((REK_SCROLL_Y, dec_of(t.y_position_scroll as nat)));
    assert(ps =~= q14);
    lemma_bool_round_trip(t.remember_room_editor_info);
    lemma_u64_round_trip(t.editor_width as u64);
    lemma_u64_round_trip(t.editor_height as u64);
    lemma_bool_round_trip(t.show_grid);
    lemma_bool_round_trip(t.show_objects);
    lemma_bool_round_trip(t.show_tiles);
    lemma_bool_round_trip(t.show_backgrounds);
    lemma_bool_round_trip(t.show_foregrounds);
    lemma_bool_round_trip(t.show_views);
    lemma_bool_round_trip(t.delete_underlying_objects);
    lemma_bool_round_trip(t.delete_underlying_tiles);
    lemma_u64_round_trip(t.tab as u64);
    lemma_u64_round_trip(t.x_position_scroll as u64);
    lemma_u64_round_trip(t.y_position_scroll as u64);
}

/// The encoder's lines are well formed and well typed.
#[verifier::rlimit(100)]
pub proof fn lemma_room_editor_enc_ok(t: &Room)
    ensures
        wf_pairs(spec_enc_room_editor(t)),
        room_editor_pairs_ok(spec_enc_room_editor(t)),
{
    let ps = spec_enc_room_editor(t);
    lemma_bool_round_trip(t.remember_room_editor_info);
    lemma_dec_of_digits(t.editor_width as nat);
    lemma_u64_round_trip(t.editor_width as u64);
    lemma_dec_of_digits(t.editor_height as nat);
    lemma_u64_round_trip(t.editor_height as u64);
    lemma_bool_round_trip(t.show_grid);
    lemma_bool_round_trip(t.show_objects);
    lemma_bool_round_trip(t.show_tiles);
    lemma_bool_round_trip(t.show_backgrounds);
    lemma_bool_round_trip(t.show_foregrounds);
    lemma_bool_round_trip(t.show_views);
    lemma_bool_round_trip(t.delete_underlying_objects);
    lemma_bool_round_trip(t.delete_underlying_tiles);
    lemma_dec_of_digits(t.tab as nat);
    lemma_u64_round_trip(t.tab as u64);
    lemma_dec_of_digits(t.x_position_scroll as nat);
    lemma_u64_round_trip(t.x_position_scroll as u64);
    lemma_dec_of_digits(t.y_position_scroll as nat);
    lemma_u64_round_trip(t.y_position_scroll as u64);
    assert forall|i: int| 0 <= i < ps.len() implies (#[trigger] ps[i]).0 != NL && no_nl(
        ps[i].1,
    ) && room_editor_pair_ok(ps[i].0, ps[i].1) by {
        if i == 0 {
        }
        if i == 1 {
            lemma_digits_no_nl(dec_of(t.editor_width as nat));
        }
        if i == 2 {
            lemma_digits_no_nl(dec_of(t.editor_height as nat));
        }
        if i == 3 {
        }
        if i == 4 {
        }
        if i == 5 {
        }
        if i == 6 {
        }
        if i == 7 {
        }
        if i == 8 {
        }
        if i == 9 {
        }
        if i == 10 {
        }
        if i == 11 {
            lemma_digits_no_nl(dec_of(t.tab as nat));
        }
        if i == 12 {
            lemma_digits_no_nl(dec_of(t.x_position_scroll as nat));
        }
        if i == 13 {
            lemma_digits_no_nl(dec_of(t.y_position_scroll as nat));
        }
    }
}

// --- layer: one background layer of a room; the background is referenced by name ---

pub const LK_VISIBLE: u8 = 118;  // v
pub const LK_FOREGROUND: u8 = 102;  // f
pub const LK_SOURCE: u8 = 98;  // b
pub const LK_X: u8 = 120;  // x
pub const LK_Y: u8 = 121;  // y
pub const LK_TILE_H: u8 = 104;  // h
pub const LK_TILE_V: u8 = 101;  // e
pub const LK_HSPEED: u8 = 115;  // s
pub const LK_VSPEED: u8 = 116;  // t
pub const LK_STRETCH: u8 = 114;  // r

pub open spec fn layer_pair_ok(k: u8, v: Seq<u8>) -> bool {
    if k == LK_VISIBLE {
        val_ok_bool(v)
    } else if k == LK_FOREGROUND {
        val_ok_bool(v)
    } else if k == LK_SOURCE {
        true
    } else if k == LK_X {
        val_ok_i32(v)
    } else if k == LK_Y {
        val_ok_i32(v)
    } else if k == LK_TILE_H {
        val_ok_bool(v)
    } else if k == LK_TILE_V {
        val_ok_bool(v)
    } else if k == LK_HSPEED {
        val_ok_i32(v)
    } else if k == LK_VSPEED {
        val_ok_i32(v)
    } else if k == LK_STRETCH {
        val_ok_bool(v)
    } else {
        false
    }
}

pub open spec fn layer_pairs_ok(ps: Seq<(u8, Seq<u8>)>) -> bool {
    forall|i: int| 0 <= i < ps.len() ==> layer_pair_ok((#[trigger] ps[i]).0, ps[i].1)
}

/// The value a record file denotes: each field is its key's parsed
/// value, or the documented default where the key is absent.
pub open spec fn layer_from(m: Map<u8, Seq<u8>>, t: &RoomBackground, bg_ref: Seq<u8>) -> bool {
    &&& t.visible_on_start == fld_bool(m, LK_VISIBLE, false)
    &&& t.is_foreground == fld_bool(m, LK_FOREGROUND, false)
    &&& t.xoffset == fld_i32(m, LK_X, 0)
    &&& t.yoffset == fld_i32(m, LK_Y, 0)
    &&& t.tile_horz == fld_bool(m, LK_TILE_H, true)
    &&& t.tile_vert == fld_bool(m, LK_TILE_V, true)
    &&& t.hspeed == fld_i32(m, LK_HSPEED, -1i32)
    &&& t.vspeed == fld_i32(m, LK_VSPEED, -1i32)
    &&& t.stretch == fld_bool(m, LK_STRETCH, false)
    &&& bg_ref == fld_bytes(m, LK_SOURCE)
}

/// The record lines the encoder writes.
pub open spec fn spec_enc_layer(t: &RoomBackground, bg_ref: Seq<u8>) -> Seq<(u8, Seq<u8>)> {
    seq![
        (LK_VISIBLE, enc_bool(t.visible_on_start)),
        (LK_FOREGROUND, enc_bool(t.is_foreground)),
        (LK_SOURCE, bg_ref),
        (LK_X, dec_of_int(t.xoffset as int)),
        (LK_Y, dec_of_int(t.yoffset as int)),
        (LK_TILE_H, enc_bool(t.tile_horz)),
        (LK_TILE_V, enc_bool(t.tile_vert)),
        (LK_HSPEED, dec_of_int(t.hspeed as int)),
        (LK_VSPEED, dec_of_int(t.vspeed as int)),
        (LK_STRETCH, enc_bool(t.stretch)),
    ]
}

/// A record the text format can carry: byte fields fit on a line.
pub open spec fn wf_layer_record(t: &RoomBackground) -> bool {
    true
}

/// Encodes the record lines.
pub fn encode_layer(t: &RoomBackground, bg_ref: &Vec<u8>) -> (r: Vec<(u8, Vec<u8>)>)
    ensures
        pairs_view(r@) == spec_enc_layer(t, bg_ref@),
{
    let mut out: Vec<(u8, Vec<u8>)> = Vec::new();
    let mut v0: Vec<u8> = Vec::new();
    push_bool(&mut v0, t.visible_on_start);
    out.push((LK_VISIBLE, v0));
    let mut v1: Vec<u8> = Vec::new();
    push_bool(&mut v1, t.is_foreground);
    out.push((LK_FOREGROUND, v1));
    out.push((LK_SOURCE, bytes_to_vec(bg_ref.as_slice())));
    let mut v3: Vec<u8> = Vec::new();
    push_i64(&mut v3, t.xoffset as i64);
    out.push((LK_X, v3));
    let mut v4: Vec<u8> = Vec::new();
    push_i64(&mut v4, t.yoffset as i64);
    out.push((LK_Y, v4));
    let mut v5: Vec<u8> = Vec::new();
    push_bool(&mut v5, t.tile_horz);
    out.push((LK_TILE_H, v5));
    let mut v6: Vec<u8> = Vec::new();
    push_bool(&mut v6, t.tile_vert);
    out.push((LK_TILE_V, v6));
    let mut v7: Vec<u8> = Vec::new();
    push_i64(&mut v7, t.hspeed as i64);
    out.push((LK_HSPEED, v7));
    let mut v8: Vec<u8> = Vec::new();
    push_i64(&mut v8, t.vspeed as i64);
    out.push((LK_VSPEED, v8));
    let mut v9: Vec<u8> = Vec::new();
    push_bool(&mut v9, t.stretch);
    out.push((LK_STRETCH, v9));
    proof {
        assert(pairs_view(out@) =~= spec_enc_layer(t, bg_ref@));
    }
    out
}

/// Decodes the record lines; fails on an unknown key or an ill-typed
/// value, and on nothing else.
pub fn decode_layer(pairs: &Vec<(u8, Vec<u8>)>, path: &Vec<Vec<u8>>) -> (r: Result<(RoomBackground, Vec<u8>), Error>)
    ensures
        r is Ok <==> layer_pairs_ok(pairs_view(pairs@)),
        r is Err ==> match r->Err_0 {
            Error::UnknownKey(p2, k2) => crate::tree::path_view(p2@)
                == crate::tree::path_view(path@) && (exists|i: int|
                0 <= i < pairs_view(pairs@).len() && (#[trigger] pairs_view(pairs@)[i]).0
                    == k2 && !layer_pair_ok(k2, pairs_view(pairs@)[i].1)),
            Error::BadValue(p2, k2) => crate::tree::path_view(p2@)
                == crate::tree::path_view(path@) && (exists|i: int|
                0 <= i < pairs_view(pairs@).len() && (#[trigger] pairs_view(pairs@)[i]).0
                    == k2 && !layer_pair_ok(k2, pairs_view(pairs@)[i].1)),
            _ => false,
        },
        r is Ok ==> layer_from(kv_map(pairs_view(pairs@)), &r->Ok_0.0, r->Ok_0.1@),
{
    let mut f_visible_on_start: bool = false;
    let mut f_is_foreground: bool = false;
    let mut f_xoffset: i32 = 0;
    let mut f_yoffset: i32 = 0;
    let mut f_tile_horz: bool = true;
    let mut f_tile_vert: bool = true;
    let mut f_hspeed: i32 = -1i32;
    let mut f_vspeed: i32 = -1i32;
    let mut f_stretch: bool = false;
    let mut bg_ref: Vec<u8> = Vec::new();
    let mut i: usize = 0;
    proof {
        assert(pairs_view(pairs@).take(0) =~= Seq::<(u8, Seq<u8>)>::empty());
        assert(kv_map(pairs_view(pairs@).take(0)) == Map::<u8, Seq<u8>>::empty());
    }
    while i < pairs.len()
        invariant
            0 <= i <= pairs@.len(),
            layer_pairs_ok(pairs_view(pairs@).take(i as int)),
            f_visible_on_start == fld_bool(kv_map(pairs_view(pairs@).take(i as int)), LK_VISIBLE, false),
            f_is_foreground == fld_bool(kv_map(pairs_view(pairs@).take(i as int)), LK_FOREGROUND, false),
            f_xoffset == fld_i32(kv_map(pairs_view(pairs@).take(i as int)), LK_X, 0),
            f_yoffset == fld_i32(kv_map(pairs_view(pairs@).take(i as int)), LK_Y, 0),
            f_tile_horz == fld_bool(kv_map(pairs_view(pairs@).take(i as int)), LK_TILE_H, true),
            f_tile_vert == fld_bool(kv_map(pairs_view(pairs@).take(i as int)), LK_TILE_V, true),
            f_hspeed == fld_i32(kv_map(pairs_view(pairs@).take(i as int)), LK_HSPEED, -1i32),
            f_vspeed == fld_i32(kv_map(pairs_view(pairs@).take(i as int)), LK_VSPEED, -1i32),
            f_stretch == fld_bool(kv_map(pairs_view(pairs@).take(i as int)), LK_STRETCH, false),
            bg_ref@ == fld_bytes(kv_map(pairs_view(pairs@).take(i as int)), LK_SOURCE),
        decreases pairs@.len() - i,
    {
        let k = pairs[i].0;
        let ghost prefix = pairs_view(pairs@).take(i as int);
        let ghost v = pairs@[i as int].1@;
        proof {
            assert(pairs_view(pairs@).take(i + 1) =~= prefix.push((k, v)));
            lemma_kv_map_push(prefix, k, v);
            assert(pairs_view(pairs@)[i as int] == (k, v));
        }
        if k == LK_VISIBLE {
            match parse_bool_val(pairs[i].1.as_slice()) {
                Some(b) => { f_visible_on_start = b; },
                None => { return Err(Error::BadValue(clone_path(path), k)); },
            }
        } else if k == LK_FOREGROUND {
            match parse_bool_val(pairs[i].1.as_slice()) {
                Some(b) => { f_is_foreground = b; },
                None => { return Err(Error::BadValue(clone_path(path), k)); },
            }
        } else if k == LK_SOURCE {
            bg_ref = bytes_to_vec(pairs[i].1.as_slice());
        } else if k == LK_X {
            match parse_i32_val(pairs[i].1.as_slice()) {
                Some(n) => { f_xoffset = n; },
                None => { return Err(Error::BadValue(clone_path(path), k)); },
            }
        } else if k == LK_Y {
            match parse_i32_val(pairs[i].1.as_slice()) {
                Some(n) => { f_yoffset = n; },
                None => { return Err(Error::BadValue(clone_path(path), k)); },
            }
        } else if k == LK_TILE_H {
            match parse_bool_val(pairs[i].1.as_slice()) {
                Some(b) => { f_tile_horz = b; },
                None => { return Err(Error::BadValue(clone_path(path), k)); },
            }
        } else if k == LK_TILE_V {
            match parse_bool_val(pairs[i].1.as_slice()) {
                Some(b) => { f_tile_vert = b; },
                None => { return Err(Error::BadValue(clone_path(path), k)); },
            }
        } else if k == LK_HSPEED {
            match parse_i32_val(pairs[i].1.as_slice()) {
                Some(n) => { f_hspeed = n; },
                None => { return Err(Error::BadValue(clone_path(path), k)); },
            }
        } else if k == LK_VSPEED {
            match parse_i32_val(pairs[i].1.as_slice()) {
                Some(n) => { f_vspeed = n; },
                None => { return Err(Error::BadValue(clone_path(path), k)); },
            }
        } else if k == LK_STRETCH {
            match parse_bool_val(pairs[i].1.as_slice()) {
                Some(b) => { f_stretch = b; },
                None => { return Err(Error::BadValue(clone_path(path), k)); },
            }
        } else {
            return Err(Error::UnknownKey(clone_path(path), k));
        }
        i = i + 1;
    }
    proof {
        assert(pairs_view(pairs@).take(i as int) =~= pairs_view(pairs@));
    }
    let t = RoomBackground { visible_on_start: f_visible_on_start, is_foreground: f_is_foreground, source_bg: -1, xoffset: f_xoffset, yoffset: f_yoffset, tile_horz: f_tile_horz, tile_vert: f_tile_vert, hspeed: f_hspeed, vspeed: f_vspeed, stretch: f_stretch };
    Ok((t, bg_ref))
}

/// What the encoder writes decodes back to the same record.
pub proof fn lemma_layer_round_trip(t: &RoomBackground, bg_ref: Seq<u8>, t2: &RoomBackground, bg_ref2: Seq<u8>)
    requires
        layer_from(kv_map(spec_enc_layer(t, bg_ref)), t2, bg_ref2),
    ensures
        t2.visible_on_start == t.visible_on_start,
        t2.is_foreground == t.is_foreground,
        t2.xoffset == t.xoffset,
        t2.yoffset == t.yoffset,
        t2.tile_horz == t.tile_horz,
        t2.tile_vert == t.tile_vert,
        t2.hspeed == t.hspeed,
        t2.vspeed == t.vspeed,
        t2.stretch == t.stretch,
        bg_ref2 == bg_ref,
{
    let ps = spec_enc_layer(t, bg_ref);
    let q0 = Seq::<(u8, Seq<u8>)>::empty();
    lemma_kv_map_push(q0, LK_VISIBLE, enc_bool(t.visible_on_start));
    let q1 = q0.push((LK_VISIBLE, enc_bool(t.visible_on_start)));
    lemma_kv_map_push(q1, LK_FOREGROUND, enc_bool(t.is_foreground));
    let q2 = q1.push((LK_FOREGROUND, enc_bool(t.is_foreground)));
    lemma_kv_map_push(q2, LK_SOURCE, bg_ref);
    let q3 = q2.push((LK_SOURCE, bg_ref));
    lemma_kv_map_push(q3, LK_X, dec_of_int(t.xoffset as int));
    let q4 = q3.push((LK_X, dec_of_int(t.xoffset as int)));
    lemma_kv_map_push(q4, LK_Y, dec_of_int(t.yoffset as int));
    let q5 = q4.push((LK_Y, dec_of_int(t.yoffset as int)));
    lemma_kv_map_push(q5, LK_TILE_H, enc_bool(t.tile_horz));
    let q6 = q5.push((LK_TILE_H, enc_bool(t.tile_horz)));
    lemma_kv_map_push(q6, LK_TILE_V, enc_bool(t.tile_vert));
    let q7 = q6.push((LK_TILE_V, enc_bool(t.tile_vert)));
    lemma_kv_map_push(q7, LK_HSPEED, dec_of_int(t.hspeed as int));
    let q8 = q7.push((LK_HSPEED, dec_of_int(t.hspeed as int)));
    lemma_kv_map_push(q8, LK_VSPEED, dec_of_int(t.vspeed as int));
    let q9 = q8.push((LK_VSPEED, dec_of_int(t.vspeed as int)));
    lemma_kv_map_push(q9, LK_STRETCH, enc_bool(t.stretch));
    let q10 = q9.push((LK_STRETCH, enc_bool(t.stretch)));
    assert(ps =~= q10);
    lemma_bool_round_trip(t.visible_on_start);
    lemma_bool_round_trip(t.is_foreground);
    lemma_i64_round_trip(t.xoffset as i64);
    lemma_i64_round_trip(t.yoffset as i64);
    lemma_bool_round_trip(t.tile_horz);
    lemma_bool_round_trip(t.tile_vert);
    lemma_i64_round_trip(t.hspeed as i64);
    lemma_i64_round_trip(t.vspeed as i64);
    lemma_bool_round_trip(t.stretch);
}

/// The encoder's lines are well formed and well typed.
pub proof fn lemma_layer_enc_ok(t: &RoomBackground, bg_ref: Seq<u8>)
    requires
        no_nl(bg_ref),
    ensures
        wf_pairs(spec_enc_layer(t, bg_ref)),
        layer_pairs_ok(spec_enc_layer(t, bg_ref)),
{
    let ps = spec_enc_layer(t, bg_ref);
    lemma_bool_round_trip(t.visible_on_start);
    lemma_bool_round_trip(t.is_foreground);
    lemma_dec_of_digits(t.xoffset as nat);
    if t.xoffset < 0 { lemma_dec_of_digits((-(t.xoffset as int)) as nat); }
    lemma_i64_round_trip(t.xoffset as i64);
    lemma_dec_of_digits(t.yoffset as nat);
    if t.yoffset < 0 { lemma_dec_of_digits((-(t.yoffset as int)) as nat); }
    lemma_i64_round_trip(t.yoffset as i64);
    lemma_bool_round_trip(t.tile_horz);
    lemma_bool_round_trip(t.tile_vert);
    lemma_dec_of_digits(t.hspeed as nat);
    if t.hspeed < 0 { lemma_dec_of_digits((-(t.hspeed as int)) as nat); }
    lemma_i64_round_trip(t.hspeed as i64);
    lemma_dec_of_digits(t.vspeed as nat);
    if t.vspeed < 0 { lemma_dec_of_digits((-(t.vspeed as int)) as nat); }
    lemma_i64_round_trip(t.vspeed as i64);
    lemma_bool_round_trip(t.stretch);
    assert forall|i: int| 0 <= i < ps.len() implies (#[trigger] ps[i]).0 != NL && no_nl(
        ps[i].1,
    ) && layer_pair_ok(ps[i].0, ps[i].1) by {
        if i == 0 {
        }
        if i == 1 {
        }
        if i == 2 {
        }
        if i == 3 {
            assert(no_nl(dec_of_int(t.xoffset as int))) by {
                if t.xoffset < 0 {
                    let d = dec_of((-(t.xoffset as int)) as nat);
                    assert(forall|j: int| 0 <= j < d.len() ==> #[trigger] d[j] != NL);
                    assert(forall|j: int| 1 <= j < dec_of_int(t.xoffset as int).len()
                        ==> #[trigger] dec_of_int(t.xoffset as int)[j] == d[j - 1]);
                } else {
                    lemma_digits_no_nl(dec_of(t.xoffset as nat));
                }
            }
        }
        if i == 4 {
            assert(no_nl(dec_of_int(t.yoffset as int))) by {
                if t.yoffset < 0 {
                    let d = dec_of((-(t.yoffset as int)) as nat);
                    assert(forall|j: int| 0 <= j < d.len() ==> #[trigger] d[j] != NL);
                    assert(forall|j: int| 1 <= j < dec_of_int(t.yoffset as int).len()
                        ==> #[trigger] dec_of_int(t.yoffset as int)[j] == d[j - 1]);
                } else {
                    lemma_digits_no_nl(dec_of(t.yoffset as nat));
                }
            }
        }
        if i == 5 {
        }
        if i == 6 {
        }
        if i == 7 {
            assert(no_nl(dec_of_int(t.hspeed as int))) by {
                if t.hspeed < 0 {
                    let d = dec_of((-(t.hspeed as int)) as nat);
                    assert(forall|j: int| 0 <= j < d.len() ==> #[trigger] d[j] != NL);
                    assert(forall|j: int| 1 <= j < dec_of_int(t.hspeed as int).len()
                        ==> #[trigger] dec_of_int(t.hspeed as int)[j] == d[j - 1]);
                } else {
                    lemma_digits_no_nl(dec_of(t.hspeed as nat));
                }
            }
        }
        if i == 8 {
            assert(no_nl(dec_of_int(t.vspeed as int))) by {
                if t.vspeed < 0 {
                    let d = dec_of((-(t.vspeed as int)) as nat);
                    assert(forall|j: int| 0 <= j < d.len() ==> #[trigger] d[j] != NL);
                    assert(forall|j: int| 1 <= j < dec_of_int(t.vspeed as int).len()
                        ==> #[trigger] dec_of_int(t.vspeed as int)[j] == d[j - 1]);
                } else {
                    lemma_digits_no_nl(dec_of(t.vspeed as nat));
                }
            }
        }
        if i == 9 {
        }
    }
}

// --- view: one view of a room; the followed object is referenced by name ---

pub const VK_VISIBLE: u8 = 118;  // v
pub const VK_SOURCE_X: u8 = 120;  // x
pub const VK_SOURCE_Y: u8 = 121;  // y
pub const VK_SOURCE_W: u8 = 119;  // w
pub const VK_SOURCE_H: u8 = 104;  // h
pub const VK_PORT_X: u8 = 112;  // p
pub const VK_PORT_Y: u8 = 113;  // q
pub const VK_PORT_W: u8 = 114;  // r
pub const VK_PORT_H: u8 = 115;  // s
pub const VK_HBORDER: u8 = 97;  // a
pub const VK_VBORDER: u8 = 98;  // b
pub const VK_HSPEED: u8 = 99;  // c
pub const VK_VSPEED: u8 = 100;  // d
pub const VK_TARGET: u8 = 111;  // o

pub open spec fn view_pair_ok(k: u8, v: Seq<u8>) -> bool {
    if k == VK_VISIBLE {
        val_ok_bool(v)
    } else if k == VK_SOURCE_X {
        val_ok_i32(v)
    } else if k == VK_SOURCE_Y {
        val_ok_i32(v)
    } else if k == VK_SOURCE_W {
        val_ok_u32(v)
    } else if k == VK_SOURCE_H {
        val_ok_u32(v)
    } else if k == VK_PORT_X {
        val_ok_u32(v)
    } else if k == VK_PORT_Y {
        val_ok_u32(v)
    } else if k == VK_PORT_W {
        val_ok_u32(v)
    } else if k == VK_PORT_H {
        val_ok_u32(v)
    } else if k == VK_HBORDER {
        val_ok_u32(v)
    } else if k == VK_VBORDER {
        val_ok_u32(v)
    } else if k == VK_HSPEED {
        val_ok_u32(v)
    } else if k == VK_VSPEED {
        val_ok_u32(v)
    } else if k == VK_TARGET {
        true
    } else {
        false
    }
}

pub open spec fn view_pairs_ok(ps: Seq<(u8, Seq<u8>)>) -> bool {
    forall|i: int| 0 <= i < ps.len() ==> view_pair_ok((#[trigger] ps[i]).0, ps[i].1)
}

/// The value a record file denotes: each field is its key's parsed
/// value, or the documented default where the key is absent.
pub open spec fn view_from(m: Map<u8, Seq<u8>>, t: &RoomView, target_ref: Seq<u8>) -> bool {
    &&& t.visible == fld_bool(m, VK_VISIBLE, false)
    &&& t.source_x == fld_i32(m, VK_SOURCE_X, 0)
    &&& t.source_y == fld_i32(m, VK_SOURCE_Y, 0)
    &&& t.source_w == fld_u32(m, VK_SOURCE_W, 640)
    &&& t.source_h == fld_u32(m, VK_SOURCE_H, 480)
    &&& t.port_x == fld_u32(m, VK_PORT_X, 0)
    &&& t.port_y == fld_u32(m, VK_PORT_Y, 0)
    &&& t.port_w == fld_u32(m, VK_PORT_W, 640)
    &&& t.port_h == fld_u32(m, VK_PORT_H, 480)
    &&& t.following_hborder == fld_u32(m, VK_HBORDER, 32)
    &&& t.following_vborder == fld_u32(m, VK_VBORDER, 32)
    &&& t.following_hspeed == fld_u32(m, VK_HSPEED, 4294967295)
    &&& t.following_vspeed == fld_u32(m, VK_VSPEED, 4294967295)
    &&& target_ref == fld_bytes(m, VK_TARGET)
}

/// The record lines the encoder writes.
pub open spec fn spec_enc_view(t: &RoomView, target_ref: Seq<u8>) -> Seq<(u8, Seq<u8>)> {
    seq![
        (VK_VISIBLE, enc_bool(t.visible)),
        (VK_SOURCE_X, dec_of_int(t.source_x as int)),
        (VK_SOURCE_Y, dec_of_int(t.source_y as int)),
        (VK_SOURCE_W, dec_of(t.source_w as nat)),
        (VK_SOURCE_H, dec_of(t.source_h as nat)),
        (VK_PORT_X, dec_of(t.port_x as nat)),
        (VK_PORT_Y, dec_of(t.port_y as nat)),
        (VK_PORT_W, dec_of(t.port_w as nat)),
        (VK_PORT_H, dec_of(t.port_h as nat)),
        (VK_HBORDER, dec_of(t.following_hborder as nat)),
        (VK_VBORDER, dec_of(t.following_vborder as nat)),
        (VK_HSPEED, dec_of(t.following_hspeed as nat)),
        (VK_VSPEED, dec_of(t.following_vspeed as nat)),
        (VK_TARGET, target_ref),
    ]
}

/// A record the text format can carry: byte fields fit on a line.
pub open spec fn wf_view_record(t: &RoomView) -> bool {
    true
}

/// Encodes the record lines.
#[verifier::rlimit(100)]
pub fn encode_view(t: &RoomView, target_ref: &Vec<u8>) -> (r: Vec<(u8, Vec<u8>)>)
    ensures
        pairs_view(r@) == spec_enc_view(t, target_ref@),
{
    let mut out: Vec<(u8, Vec<u8>)> = Vec::new();
    let mut v0: Vec<u8> = Vec::new();
    push_bool(&mut v0, t.visible);
    out.push((VK_VISIBLE, v0));
    let mut v1: Vec<u8> = Vec::new();
    push_i64(&mut v1, t.source_x as i64);
    out.push((VK_SOURCE_X, v1));
    let mut v2: Vec<u8> = Vec::new();
    push_i64(&mut v2, t.source_y as i64);
    out.push((VK_SOURCE_Y, v2));
    let mut v3: Vec<u8> = Vec::new();
    push_u64(&mut v3, t.source_w as u64);
    out.push((VK_SOURCE_W, v3));
    let mut v4: Vec<u8> = Vec::new();
    push_u64(&mut v4, t.source_h as u64);
    out.push((VK_SOURCE_H, v4));
    let mut v5: Vec<u8> = Vec::new();
    push_u64(&mut v5, t.port_x as u64);
    out.push((VK_PORT_X, v5));
    let mut v6: Vec<u8> = Vec::new();
    push_u64(&mut v6, t.port_y as u64);
    out.push((VK_PORT_Y, v6));
    let mut v7: Vec<u8> = Vec::new();
    push_u64(&mut v7, t.port_w as u64);
    out.push((VK_PORT_W, v7));
    let mut v8: Vec<u8> = Vec::new();
    push_u64(&mut v8, t.port_h as u64);
    out.push((VK_PORT_H, v8));
    let mut v9: Vec<u8> = Vec::new();
    push_u64(&mut v9, t.following_hborder as u64);
    out.push((VK_HBORDER, v9));
    let mut v10: Vec<u8> = Vec::new();
    push_u64(&mut v10, t.following_vborder as u64);
    out.push((VK_VBORDER, v10));
    let mut v11: Vec<u8> = Vec::new();
    push_u64(&mut v11, t.following_hspeed as u64);
    out.push((VK_HSPEED, v11));
    let mut v12: Vec<u8> = Vec::new();
    push_u64(&mut v12, t.following_vspeed as u64);
    out.push((VK_VSPEED, v12));
    out.push((VK_TARGET, bytes_to_vec(target_ref.as_slice())));
    proof {
        assert(pairs_view(out@) =~= spec_enc_view(t, target_ref@));
    }
    out
}

/// Decodes the record lines; fails on an unknown key or an ill-typed
/// value, and on nothing else.
#[verifier::rlimit(100)]
pub fn decode_view(pairs: &Vec<(u8, Vec<u8>)>, path: &Vec<Vec<u8>>) -> (r: Result<(RoomView, Vec<u8>), Error>)
    ensures
        r is Ok <==> view_pairs_ok(pairs_view(pairs@)),
        r is Err ==> match r->Err_0 {
            Error::UnknownKey(p2, k2) => crate::tree::path_view(p2@)
                == crate::tree::path_view(path@) && (exists|i: int|
                0 <= i < pairs_view(pairs@).len() && (#[trigger] pairs_view(pairs@)[i]).0
                    == k2 && !view_pair_ok(k2, pairs_view(pairs@)[i].1)),
            Error::BadValue(p2, k2) => crate::tree::path_view(p2@)
                == crate::tree::path_view(path@) && (exists|i: int|
                0 <= i < pairs_view(pairs@).len() && (#[trigger] pairs_view(pairs@)[i]).0
                    == k2 && !view_pair_ok(k2, pairs_view(pairs@)[i].1)),
            _ => false,
        },
        r is Ok ==> view_from(kv_map(pairs_view(pairs@)), &r->Ok_0.0, r->Ok_0.1@),
{
    let mut f_visible: bool = false;
    let mut f_source_x: i32 = 0;
    let mut f_source_y: i32 = 0;
    let mut f_source_w: u32 = 640;
    let mut f_source_h: u32 = 480;
    let mut f_port_x: u32 = 0;
    let mut f_port_y: u32 = 0;
    let mut f_port_w: u32 = 640;
    let mut f_port_h: u32 = 480;
    let mut f_following_hborder: u32 = 32;
    let mut f_following_vborder: u32 = 32;
    let mut f_following_hspeed: u32 = 4294967295;
    let mut f_following_vspeed: u32 = 4294967295;
    let mut target_ref: Vec<u8> = Vec::new();
    let mut i: usize = 0;
    proof {
        assert(pairs_view(pairs@).take(0) =~= Seq::<(u8, Seq<u8>)>::empty());
        assert(kv_map(pairs_view(pairs@).take(0)) == Map::<u8, Seq<u8>>::empty());
    }
    while i < pairs.len()
        invariant
            0 <= i <= pairs@.len(),
            view_pairs_ok(pairs_view(pairs@).take(i as int)),
            f_visible == fld_bool(kv_map(pairs_view(pairs@).take(i as int)), VK_VISIBLE, false),
            f_source_x == fld_i32(kv_map(pairs_view(pairs@).take(i as int)), VK_SOURCE_X, 0),
            f_source_y == fld_i32(kv_map(pairs_view(pairs@).take(i as int)), VK_SOURCE_Y, 0),
            f_source_w == fld_u32(kv_map(pairs_view(pairs@).take(i as int)), VK_SOURCE_W, 640),
            f_source_h == fld_u32(kv_map(pairs_view(pairs@).take(i as int)), VK_SOURCE_H, 480),
            f_port_x == fld_u32(kv_map(pairs_view(pairs@).take(i as int)), VK_PORT_X, 0),
            f_port_y == fld_u32(kv_map(pairs_view(pairs@).take(i as int)), VK_PORT_Y, 0),
            f_port_w == fld_u32(kv_map(pairs_view(pairs@).take(i as int)), VK_PORT_W, 640),
            f_port_h == fld_u32(kv_map(pairs_view(pairs@).take(i as int)), VK_PORT_H, 480),
            f_following_hborder == fld_u32(kv_map(pairs_view(pairs@).take(i as int)), VK_HBORDER, 32),
            f_following_vborder == fld_u32(kv_map(pairs_view(pairs@).take(i as int)), VK_VBORDER, 32),
            f_following_hspeed == fld_u32(kv_map(pairs_view(pairs@).take(i as int)), VK_HSPEED, 4294967295),
            f_following_vspeed == fld_u32(kv_map(pairs_view(pairs@).take(i as int)), VK_VSPEED, 4294967295),
            target_ref@ == fld_bytes(kv_map(pairs_view(pairs@).take(i as int)), VK_TARGET),
        decreases pairs@.len() - i,
    {
        let k = pairs[i].0;
        let ghost prefix = pairs_view(pairs@).take(i as int);
        let ghost v = pairs@[i as int].1@;
        proof {
            assert(pairs_view(pairs@).take(i + 1) =~= prefix.push((k, v)));
            lemma_kv_map_push(prefix, k, v);
            assert(pairs_view(pairs@)[i as int] == (k, v));
        }
        if k == VK_VISIBLE {
            match parse_bool_val(pairs[i].1.as_slice()) {
                Some(b) => { f_visible = b; },
                None => { return Err(Error::BadValue(clone_path(path), k)); },
            }
        } else if k == VK_SOURCE_X {
            match parse_i32_val(pairs[i].1.as_slice()) {
                Some(n) => { f_source_x = n; },
                None => { return Err(Error::BadValue(clone_path(path), k)); },
            }
        } else if k == VK_SOURCE_Y {
            match parse_i32_val(pairs[i].1.as_slice()) {
                Some(n) => { f_source_y = n; },
                None => { return Err(Error::BadValue(clone_path(path), k)); },
            }
        } else if k == VK_SOURCE_W {
            match parse_u32_val(pairs[i].1.as_slice()) {
                Some(n) => { f_source_w = n; },
                None => { return Err(Error::BadValue(clone_path(path), k)); },
            }
        } else if k == VK_SOURCE_H {
            match parse_u32_val(pairs[i].1.as_slice()) {
                Some(n) => { f_source_h = n; },
                None => { return Err(Error::BadValue(clone_path(path), k)); },
            }
        } else if k == VK_PORT_X {
            match parse_u32_val(pairs[i].1.as_slice()) {
                Some(n) => { f_port_x = n; },
                None => { return Err(Error::BadValue(clone_path(path), k)); },
            }
        } else if k == VK_PORT_Y {
            match parse_u32_val(pairs[i].1.as_slice()) {
                Some(n) => { f_port_y = n; },
                None => { return Err(Error::BadValue(clone_path(path), k)); },
            }
        } else if k == VK_PORT_W {
            match parse_u32_val(pairs[i].1.as_slice()) {
                Some(n) => { f_port_w = n; },
                None => { return Err(Error::BadValue(clone_path(path), k)); },
            }
        } else if k == VK_PORT_H {
            match parse_u32_val(pairs[i].1.as_slice()) {
                Some(n) => { f_port_h = n; },
                None => { return Err(Error::BadValue(clone_path(path), k)); },
            }
        } else if k == VK_HBORDER {
            match parse_u32_val(pairs[i].1.as_slice()) {
                Some(n) => { f_following_hborder = n; },
                None => { return Err(Error::BadValue(clone_path(path), k)); },
            }
        } else if k == VK_VBORDER {
            match parse_u32_val(pairs[i].1.as_slice()) {
                Some(n) => { f_following_vborder = n; },
                None => { return Err(Error::BadValue(clone_path(path), k)); },
            }
        } else if k == VK_HSPEED {
            match parse_u32_val(pairs[i].1.as_slice()) {
                Some(n) => { f_following_hspeed = n; },
                None => { return Err(Error::BadValue(clone_path(path), k)); },
            }
        } else if k == VK_VSPEED {
            match parse_u32_val(pairs[i].1.as_slice()) {
                Some(n) => { f_following_vspeed = n; },
                None => { return Err(Error::BadValue(clone_path(path), k)); },
            }
        } else if k == VK_TARGET {
            target_ref = bytes_to_vec(pairs[i].1.as_slice());
        } else {
            return Err(Error::UnknownKey(clone_path(path), k));
        }
        i = i + 1;
    }
    proof {
        assert(pairs_view(pairs@).take(i as int) =~= pairs_view(pairs@));
    }
    let t = RoomView { visible: f_visible, source_x: f_source_x, source_y: f_source_y, source_w: f_source_w, source_h: f_source_h, port_x: f_port_x, port_y: f_port_y, port_w: f_port_w, port_h: f_port_h, following_hborder: f_following_hborder, following_vborder: f_following_vborder, following_hspeed: f_following_hspeed, following_vspeed: f_following_vspeed, following_target: -1 };
    Ok((t, target_ref))
}

/// What the encoder writes decodes back to the same record.
#[verifier::rlimit(100)]
pub proof fn lemma_view_round_trip(t: &RoomView, target_ref: Seq<u8>, t2: &RoomView, target_ref2: Seq<u8>)
    requires
        view_from(kv_map(spec_enc_view(t, target_ref)), t2, target_ref2),
    ensures
        t2.visible == t.visible,
        t2.source_x == t.source_x,
        t2.source_y == t.source_y,
        t2.source_w == t.source_w,
        t2.source_h == t.source_h,
        t2.port_x == t.port_x,
        t2.port_y == t.port_y,
        t2.port_w == t.port_w,
        t2.port_h == t.port_h,
        t2.following_hborder == t.following_hborder,
        t2.following_vborder == t.following_vborder,
        t2.following_hspeed == t.following_hspeed,
        t2.following_vspeed == t.following_vspeed,
        target_ref2 == target_ref,
{
    let ps = spec_enc_view(t, target_ref);
    let q0 = Seq::<(u8, Seq<u8>)>::empty();
    lemma_kv_map_push(q0, VK_VISIBLE, enc_bool(t.visible));
    let q1 = q0.push((VK_VISIBLE, enc_bool(t.visible)));
    lemma_kv_map_push(q1, VK_SOURCE_X, dec_of_int(t.source_x as int));
    let q2 = q1.push((VK_SOURCE_X, dec_of_int(t.source_x as int)));
    lemma_kv_map_push(q2, VK_SOURCE_Y, dec_of_int(t.source_y as int));
    let q3 = q2.push((VK_SOURCE_Y, dec_of_int(t.source_y as int)));
    lemma_kv_map_push(q3, VK_SOURCE_W, dec_of(t.source_w as nat));
    let q4 = q3.push((VK_SOURCE_W, dec_of(t.source_w as nat)));
    lemma_kv_map_push(q4, VK_SOURCE_H, dec_of(t.source_h as nat));
    let q5 = q4.push((VK_SOURCE_H, dec_of(t.source_h as nat)));
    lemma_kv_map_push(q5, VK_PORT_X, dec_of(t.port_x as nat));
    let q6 = q5.push((VK_PORT_X, dec_of(t.port_x as nat)));
    lemma_kv_map_push(q6, VK_PORT_Y, dec_of(t.port_y as nat));
    let q7 = q6.push((VK_PORT_Y, dec_of(t.port_y as nat)));
    lemma_kv_map_push(q7, VK_PORT_W, dec_of(t.port_w as nat));
    let q8 = q7.push((VK_PORT_W, dec_of(t.port_w as nat)));
    lemma_kv_map_push(q8, VK_PORT_H, dec_of(t.port_h as nat));
    let q9 = q8.push((VK_PORT_H, dec_of(t.port_h as nat)));
    lemma_kv_map_push(q9, VK_HBORDER, dec_of(t.following_hborder as nat));
    let q10 = q9.push((VK_HBORDER, dec_of(t.following_hborder as nat)));
    lemma_kv_map_push(q10, VK_VBORDER, dec_of(t.following_vborder as nat));
    let q11 = q10.push((VK_VBORDER, dec_of(t.following_vborder as nat)));
    lemma_kv_map_push(q11, VK_HSPEED, dec_of(t.following_hspeed as nat));
    let q12 = q11.push((VK_HSPEED, dec_of(t.following_hspeed as nat)));
    lemma_kv_map_push(q12, VK_VSPEED, dec_of(t.following_vspeed as nat));
    let q13 = q12.push((VK_VSPEED, dec_of(t.following_vspeed as nat)));
    lemma_kv_map_push(q13, VK_TARGET, target_ref);
    let q14 = q13.push((VK_TARGET, target_ref));
    assert(ps =~= q14);
    lemma_bool_round_trip(t.visible);
    lemma_i64_round_trip(t.source_x as i64);
    lemma_i64_round_trip(t.source_y as i64);
    lemma_u64_round_trip(t.source_w as u64);
    lemma_u64_round_trip(t.source_h as u64);
    lemma_u64_round_trip(t.port_x as u64);
    lemma_u64_round_trip(t.port_y as u64);
    lemma_u64_round_trip(t.port_w as u64);
    lemma_u64_round_trip(t.port_h as u64);
    lemma_u64_round_trip(t.following_hborder as u64);
    lemma_u64_round_trip(t.following_vborder as u64);
    lemma_u64_round_trip(t.following_hspeed as u64);
    lemma_u64_round_trip(t.following_vspeed as u64);
}

/// The encoder's lines are well formed and well typed.
#[verifier::rlimit(100)]
pub proof fn lemma_view_enc_ok(t: &RoomView, target_ref: Seq<u8>)
    requires
        no_nl(target_ref),
    ensures
        wf_pairs(spec_enc_view(t, target_ref)),
        view_pairs_ok(spec_enc_view(t, target_ref)),
{
    let ps = spec_enc_view(t, target_ref);
    lemma_bool_round_trip(t.visible);
    lemma_dec_of_digits(t.source_x as nat);
    if t.source_x < 0 { lemma_dec_of_digits((-(t.source_x as int)) as nat); }
    lemma_i64_round_trip(t.source_x as i64);
    lemma_dec_of_digits(t.source_y as nat);
    if t.source_y < 0 { lemma_dec_of_digits((-(t.source_y as int)) as nat); }
    lemma_i64_round_trip(t.source_y as i64);
    lemma_dec_of_digits(t.source_w as nat);
    lemma_u64_round_trip(t.source_w as u64);
    lemma_dec_of_digits(t.source_h as nat);
    lemma_u64_round_trip(t.source_h as u64);
    lemma_dec_of_digits(t.port_x as nat);
    lemma_u64_round_trip(t.port_x as u64);
    lemma_dec_of_digits(t.port_y as nat);
    lemma_u64_round_trip(t.port_y as u64);
    lemma_dec_of_digits(t.port_w as nat);
    lemma_u64_round_trip(t.port_w as u64);
    lemma_dec_of_digits(t.port_h as nat);
    lemma_u64_round_trip(t.port_h as u64);
    lemma_dec_of_digits(t.following_hborder as nat);
    lemma_u64_round_trip(t.following_hborder as u64);
    lemma_dec_of_digits(t.following_vborder as nat);
    lemma_u64_round_trip(t.following_vborder as u64);
    lemma_dec_of_digits(t.following_hspeed as nat);
    lemma_u64_round_trip(t.following_hspeed as u64);
    lemma_dec_of_digits(t.following_vspeed as nat);
    lemma_u64_round_trip(t.following_vspeed as u64);
    assert forall|i: int| 0 <= i < ps.len() implies (#[trigger] ps[i]).0 != NL && no_nl(
        ps[i].1,
    ) && view_pair_ok(ps[i].0, ps[i].1) by {
        if i == 0 {
        }
        if i == 1 {
            assert(no_nl(dec_of_int(t.source_x as int))) by {
                if t.source_x < 0 {
                    let d = dec_of((-(t.source_x as int)) as nat);
                    assert(forall|j: int| 0 <= j < d.len() ==> #[trigger] d[j] != NL);
                    assert(forall|j: int| 1 <= j < dec_of_int(t.source_x as int).len()
                        ==> #[trigger] dec_of_int(t.source_x as int)[j] == d[j - 1]);
                } else {
                    lemma_digits_no_nl(dec_of(t.source_x as nat));
                }
            }
        }
        if i == 2 {
            assert(no_nl(dec_of_int(t.source_y as int))) by {
                if t.source_y < 0 {
                    let d = dec_of((-(t.source_y as int)) as nat);
                    assert(forall|j: int| 0 <= j < d.len() ==> #[trigger] d[j] != NL);
                    assert(forall|j: int| 1 <= j < dec_of_int(t.source_y as int).len()
                        ==> #[trigger] dec_of_int(t.source_y as int)[j] == d[j - 1]);
                } else {
                    lemma_digits_no_nl(dec_of(t.source_y as nat));
                }
            }
        }
        if i == 3 {
            lemma_digits_no_nl(dec_of(t.source_w as nat));
        }
        if i == 4 {
            lemma_digits_no_nl(dec_of(t.source_h as nat));
        }
        if i == 5 {
            lemma_digits_no_nl(dec_of(t.port_x as nat));
        }
        if i == 6 {
            lemma_digits_no_nl(dec_of(t.port_y as nat));
        }
        if i == 7 {
            lemma_digits_no_nl(dec_of(t.port_w as nat));
        }
        if i == 8 {
            lemma_digits_no_nl(dec_of(t.port_h as nat));
        }
        if i == 9 {
            lemma_digits_no_nl(dec_of(t.following_hborder as nat));
        }
        if i == 10 {
            lemma_digits_no_nl(dec_of(t.following_vborder as nat));
        }
        if i == 11 {
            lemma_digits_no_nl(dec_of(t.following_hspeed as nat));
        }
        if i == 12 {
            lemma_digits_no_nl(dec_of(t.following_vspeed as nat));
        }
        if i == 13 {
        }
    }
}

} // verus!
