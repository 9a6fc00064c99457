//! Typed field extraction over a decoded key=value file.
//!
//! A record decoder walks the pairs of a file in order, later entries
//! overriding earlier ones, and a field whose key never appears keeps its
//! documented default. `kv_map` is the spec-level picture of that walk, and
//! the `fld_*` functions read one typed field out of it.

use vstd::prelude::*;
use crate::bytes::{parse_u64_spec, parse_i64_spec, parse_bool_spec, parse_u64, parse_i64,
    parse_bool};

verus! {

/// The map a pair list denotes: later entries win.
pub open spec fn kv_map(ps: Seq<(u8, Seq<u8>)>) -> Map<u8, Seq<u8>>
    decreases ps.len(),
{
    if ps.len() == 0 {
        Map::empty()
    } else {
        kv_map(ps.drop_last()).insert(ps.last().0, ps.last().1)
    }
}

pub proof fn lemma_kv_map_push(ps: Seq<(u8, Seq<u8>)>, k: u8, v: Seq<u8>)
    ensures
        kv_map(ps.push((k, v))) == kv_map(ps).insert(k, v),
{
    assert(ps.push((k, v)).drop_last() =~= ps);
    assert(ps.push((k, v)).last() == (k, v));
}

/// An unsigned field: the parsed value of its key, else the default.
pub open spec fn fld_u64(m: Map<u8, Seq<u8>>, k: u8, d: u64) -> u64 {
    if m.dom().contains(k) {
        match parse_u64_spec(m[k]) {
            Some(n) => n,
            None => d,
        }
    } else {
        d
    }
}

pub open spec fn fld_u32(m: Map<u8, Seq<u8>>, k: u8, d: u32) -> u32 {
    if m.dom().contains(k) {
        match parse_u64_spec(m[k]) {
            Some(n) => if n <= u32::MAX as u64 {
                n as u32
            } else {
                d
            },
            None => d,
        }
    } else {
        d
    }
}

pub open spec fn fld_i32(m: Map<u8, Seq<u8>>, k: u8, d: i32) -> i32 {
    if m.dom().contains(k) {
        match parse_i64_spec(m[k]) {
            Some(n) => if i32::MIN as i64 <= n <= i32::MAX as i64 {
                n as i32
            } else {
                d
            },
            None => d,
        }
    } else {
        d
    }
}

pub open spec fn fld_bool(m: Map<u8, Seq<u8>>, k: u8, d: bool) -> bool {
    if m.dom().contains(k) {
        match parse_bool_spec(m[k]) {
            Some(b) => b,
            None => d,
        }
    } else {
        d
    }
}

/// A byte-string field, taken verbatim from the line.
pub open spec fn fld_bytes(m: Map<u8, Seq<u8>>, k: u8) -> Seq<u8> {
    if m.dom().contains(k) {
        m[k]
    } else {
        Seq::empty()
    }
}

/// Does this value parse as the type `k` asks for? One spec per record kind
/// is built from these.
pub open spec fn val_ok_u64(v: Seq<u8>) -> bool {
    parse_u64_spec(v) is Some
}

pub open spec fn val_ok_u32(v: Seq<u8>) -> bool {
    match parse_u64_spec(v) {
        Some(n) => n <= u32::MAX as u64,
        None => false,
    }
}

pub open spec fn val_ok_i32(v: Seq<u8>) -> bool {
    match parse_i64_spec(v) {
        Some(n) => i32::MIN as i64 <= n <= i32::MAX as i64,
        None => false,
    }
}

pub open spec fn val_ok_bool(v: Seq<u8>) -> bool {
    parse_bool_spec(v) is Some
}

/// Parses an unsigned 32-bit field value.
pub fn parse_u32_val(v: &[u8]) -> (r: Option<u32>)
    ensures
        r is Some <==> val_ok_u32(v@),
        r is Some ==> r->0 as u64 == parse_u64_spec(v@)->0,
{
    match parse_u64(v) {
        Some(n) => if n <= u32::MAX as u64 {
            Some(n as u32)
        } else {
            None
        },
        None => None,
    }
}

/// Parses a signed 32-bit field value.
pub fn parse_i32_val(v: &[u8]) -> (r: Option<i32>)
    ensures
        r is Some <==> val_ok_i32(v@),
        r is Some ==> r->0 as i64 == parse_i64_spec(v@)->0,
{
    match parse_i64(v) {
        Some(n) => if i32::MIN as i64 <= n && n <= i32::MAX as i64 {
            Some(n as i32)
        } else {
            None
        },
        None => None,
    }
}

/// Parses an unsigned 64-bit field value (real-number bit patterns).
pub fn parse_u64_val(v: &[u8]) -> (r: Option<u64>)
    ensures
        r == parse_u64_spec(v@),
{
    parse_u64(v)
}

/// Parses a boolean field value.
pub fn parse_bool_val(v: &[u8]) -> (r: Option<bool>)
    ensures
        r == parse_bool_spec(v@),
{
    parse_bool(v)
}


pub proof fn lemma_kv_map_concat(a: Seq<(u8, Seq<u8>)>, b: Seq<(u8, Seq<u8>)>)
    ensures
        kv_map(a + b) == kv_map(a).union_prefer_right(kv_map(b)),
    decreases b.len(),
{
    if b.len() == 0 {
        assert(a + b =~= a);
        assert(kv_map(a).union_prefer_right(kv_map(b)) =~= kv_map(a));
    } else {
        assert((a + b).drop_last() =~= a + b.drop_last());
        assert((a + b).last() == b.last());
        lemma_kv_map_concat(a, b.drop_last());
        assert(kv_map(a + b) == kv_map(a).union_prefer_right(kv_map(b.drop_last())).insert(
            b.last().0,
            b.last().1,
        ));
        assert(kv_map(a).union_prefer_right(kv_map(b.drop_last()).insert(b.last().0, b.last().1))
            =~= kv_map(a).union_prefer_right(kv_map(b.drop_last())).insert(b.last().0, b.last().1));
    }
}

/// A key no pair holds is absent from the map.
pub proof fn lemma_kv_map_absent(ps: Seq<(u8, Seq<u8>)>, k: u8)
    requires
        forall|i: int| 0 <= i < ps.len() ==> (#[trigger] ps[i]).0 != k,
    ensures
        !kv_map(ps).dom().contains(k),
    decreases ps.len(),
{
    if ps.len() > 0 {
        assert(forall|i: int|
            0 <= i < ps.drop_last().len() ==> (#[trigger] ps.drop_last()[i]).0 != k);
        lemma_kv_map_absent(ps.drop_last(), k);
        assert(ps.last().0 != k);
    }
}

/// When only the first pair carries a key, the map holds its value.
pub proof fn lemma_kv_map_first_only(ps: Seq<(u8, Seq<u8>)>, k: u8)
    requires
        ps.len() >= 1,
        ps[0].0 == k,
        forall|j: int| 1 <= j < ps.len() ==> (#[trigger] ps[j]).0 != k,
    ensures
        kv_map(ps).dom().contains(k),
        kv_map(ps)[k] == ps[0].1,
    decreases ps.len(),
{
    if ps.len() == 1 {
        assert(ps.drop_last() =~= Seq::<(u8, Seq<u8>)>::empty());
        assert(ps.last() == ps[0]);
    } else {
        assert(ps.drop_last()[0] == ps[0]);
        assert(forall|j: int| 1 <= j < ps.drop_last().len() ==> (#[trigger] ps.drop_last()[j]).0 != k);
        lemma_kv_map_first_only(ps.drop_last(), k);
        assert(ps.last().0 != k);
    }
}
} // verus!
