//! The extra-data overlay: per-instance and per-tile fields the legacy
//! format has no room for, keyed by the project-wide runtime id.
//!
//! An entry whose every field is the default is not written at all, and a
//! written entry holds only the fields that differ from the defaults, so
//! room files stay minimal. On load, missing fields take the defaults back.

use vstd::prelude::*;
use crate::asset::{Real, REAL_ONE_BITS, REAL_ZERO_BITS, NO_BLEND};
use crate::bytes::{dec_of, NL, push_u64, lemma_u64_round_trip, lemma_dec_of_digits};
use crate::error::Error;
use crate::fields::{kv_map, lemma_kv_map_push, lemma_kv_map_concat, fld_u32, fld_u64, val_ok_u32,
    val_ok_u64, parse_u32_val, parse_u64_val};
use crate::kv::{no_nl, wf_pairs, pairs_view};
use crate::tree::clone_path;
use crate::codec_misc::lemma_digits_no_nl;

verus! {

/// The fields an instance carries beyond the legacy format.
#[derive(Clone, Copy, PartialEq, Eq, Structural, Debug)]
pub struct InstanceExtra {
    /// A hidden name tag; zero when none was assigned.
    pub name: u32,
    pub xscale: Real,
    pub yscale: Real,
    pub blend: u32,
    pub angle: Real,
}

/// The fields a tile carries beyond the legacy format.
#[derive(Clone, Copy, PartialEq, Eq, Structural, Debug)]
pub struct TileExtra {
    pub xscale: Real,
    pub yscale: Real,
    pub blend: u32,
}

impl InstanceExtra {
    /// The defaults: unit scale, no blend, no rotation.
    pub fn default_value() -> (r: InstanceExtra)
        ensures
            r == spec_default_instance_extra(),
    {
        InstanceExtra {
            name: 0,
            xscale: Real { bits: REAL_ONE_BITS },
            yscale: Real { bits: REAL_ONE_BITS },
            blend: NO_BLEND,
            angle: Real { bits: REAL_ZERO_BITS },
        }
    }
}

impl TileExtra {
    /// The defaults: unit scale, no blend.
    pub fn default_value() -> (r: TileExtra)
        ensures
            r == spec_default_tile_extra(),
    {
        TileExtra {
            xscale: Real { bits: REAL_ONE_BITS },
            yscale: Real { bits: REAL_ONE_BITS },
            blend: NO_BLEND,
        }
    }
}

pub open spec fn spec_default_instance_extra() -> InstanceExtra {
    InstanceExtra {
        name: 0,
        xscale: Real { bits: REAL_ONE_BITS },
        yscale: Real { bits: REAL_ONE_BITS },
        blend: NO_BLEND,
        angle: Real { bits: REAL_ZERO_BITS },
    }
}

pub open spec fn spec_default_tile_extra() -> TileExtra {
    TileExtra {
        xscale: Real { bits: REAL_ONE_BITS },
        yscale: Real { bits: REAL_ONE_BITS },
        blend: NO_BLEND,
    }
}

/// The overlay of one load or save call: entries keyed by runtime id.
/// Within each list the ids are unique.
#[derive(Clone)]
pub struct ExtraData {
    pub instances: Vec<(u32, InstanceExtra)>,
    pub tiles: Vec<(u32, TileExtra)>,
}

/// The first entry with this id, if any.
pub open spec fn lookup_instance_extra(s: Seq<(u32, InstanceExtra)>, id: u32) -> Option<
    InstanceExtra,
>
    decreases s.len(),
{
    if s.len() == 0 {
        None
    } else if s[0].0 == id {
        Some(s[0].1)
    } else {
        lookup_instance_extra(s.drop_first(), id)
    }
}

pub open spec fn lookup_tile_extra(s: Seq<(u32, TileExtra)>, id: u32) -> Option<TileExtra>
    decreases s.len(),
{
    if s.len() == 0 {
        None
    } else if s[0].0 == id {
        Some(s[0].1)
    } else {
        lookup_tile_extra(s.drop_first(), id)
    }
}

impl ExtraData {
    /// An empty overlay.
    pub fn new() -> (r: ExtraData)
        ensures
            r.instances@.len() == 0,
            r.tiles@.len() == 0,
    {
        ExtraData { instances: Vec::new(), tiles: Vec::new() }
    }

    /// The instance entry for this id, if one is held.
    pub fn get_instance(&self, id: u32) -> (r: Option<InstanceExtra>)
        ensures
            r == lookup_instance_extra(self.instances@, id),
    {
        let mut i: usize = 0;
        proof {
            assert(self.instances@.skip(0) =~= self.instances@);
        }
        while i < self.instances.len()
            invariant
                0 <= i <= self.instances@.len(),
                lookup_instance_extra(self.instances@, id) == lookup_instance_extra(
                    self.instances@.skip(i as int),
                    id,
                ),
            decreases self.instances@.len() - i,
        {
            proof {
                assert(self.instances@.skip(i as int)[0] == self.instances@[i as int]);
                assert(self.instances@.skip(i as int).drop_first() =~= self.instances@.skip(
                    i + 1,
                ));
            }
            if self.instances[i].0 == id {
                return Some(self.instances[i].1);
            }
            i = i + 1;
        }
        proof {
            assert(self.instances@.skip(i as int).len() == 0);
        }
        None
    }

    /// The tile entry for this id, if one is held.
    pub fn get_tile(&self, id: u32) -> (r: Option<TileExtra>)
        ensures
            r == lookup_tile_extra(self.tiles@, id),
    {
        let mut i: usize = 0;
        proof {
            assert(self.tiles@.skip(0) =~= self.tiles@);
        }
        while i < self.tiles.len()
            invariant
                0 <= i <= self.tiles@.len(),
                lookup_tile_extra(self.tiles@, id) == lookup_tile_extra(
                    self.tiles@.skip(i as int),
                    id,
                ),
            decreases self.tiles@.len() - i,
        {
            proof {
                assert(self.tiles@.skip(i as int)[0] == self.tiles@[i as int]);
                assert(self.tiles@.skip(i as int).drop_first() =~= self.tiles@.skip(i + 1));
            }
            if self.tiles[i].0 == id {
                return Some(self.tiles[i].1);
            }
            i = i + 1;
        }
        proof {
            assert(self.tiles@.skip(i as int).len() == 0);
        }
        None
    }
}

// Keys of an overlay entry.
pub const XK_NAME: u8 = 110;  // n
pub const XK_XSCALE: u8 = 120;  // x
pub const XK_YSCALE: u8 = 121;  // y
pub const XK_BLEND: u8 = 98;  // b
pub const XK_ANGLE: u8 = 97;  // a

/// The lines of an instance entry: only the fields that differ from the
/// defaults are written.
pub open spec fn spec_enc_instance_extra(e: InstanceExtra) -> Seq<(u8, Seq<u8>)> {
    (if e.name != 0 {
        seq![(XK_NAME, dec_of(e.name as nat))]
    } else {
        Seq::empty()
    }) + (if e.xscale.bits != REAL_ONE_BITS {
        seq![(XK_XSCALE, dec_of(e.xscale.bits as nat))]
    } else {
        Seq::empty()
    }) + (if e.yscale.bits != REAL_ONE_BITS {
        seq![(XK_YSCALE, dec_of(e.yscale.bits as nat))]
    } else {
        Seq::empty()
    }) + (if e.blend != NO_BLEND {
        seq![(XK_BLEND, dec_of(e.blend as nat))]
    } else {
        Seq::empty()
    }) + (if e.angle.bits != REAL_ZERO_BITS {
        seq![(XK_ANGLE, dec_of(e.angle.bits as nat))]
    } else {
        Seq::empty()
    })
}

/// The lines of a tile entry, defaults omitted alike.
pub open spec fn spec_enc_tile_extra(e: TileExtra) -> Seq<(u8, Seq<u8>)> {
    (if e.xscale.bits != REAL_ONE_BITS {
        seq![(XK_XSCALE, dec_of(e.xscale.bits as nat))]
    } else {
        Seq::empty()
    }) + (if e.yscale.bits != REAL_ONE_BITS {
        seq![(XK_YSCALE, dec_of(e.yscale.bits as nat))]
    } else {
        Seq::empty()
    }) + (if e.blend != NO_BLEND {
        seq![(XK_BLEND, dec_of(e.blend as nat))]
    } else {
        Seq::empty()
    })
}

pub open spec fn instance_extra_pair_ok(k: u8, v: Seq<u8>) -> bool {
    if k == XK_NAME || k == XK_BLEND {
        val_ok_u32(v)
    } else if k == XK_XSCALE || k == XK_YSCALE || k == XK_ANGLE {
        val_ok_u64(v)
    } else {
        false
    }
}

pub open spec fn instance_extra_pairs_ok(ps: Seq<(u8, Seq<u8>)>) -> bool {
    forall|i: int| 0 <= i < ps.len() ==> instance_extra_pair_ok((#[trigger] ps[i]).0, ps[i].1)
}

pub open spec fn tile_extra_pair_ok(k: u8, v: Seq<u8>) -> bool {
    if k == XK_BLEND {
        val_ok_u32(v)
    } else if k == XK_XSCALE || k == XK_YSCALE {
        val_ok_u64(v)
    } else {
        false
    }
}

pub open spec fn tile_extra_pairs_ok(ps: Seq<(u8, Seq<u8>)>) -> bool {
    forall|i: int| 0 <= i < ps.len() ==> tile_extra_pair_ok((#[trigger] ps[i]).0, ps[i].1)
}

/// The entry a file denotes: missing fields take the defaults.
pub open spec fn instance_extra_from(m: Map<u8, Seq<u8>>, e: InstanceExtra) -> bool {
    &&& e.name == fld_u32(m, XK_NAME, 0)
    &&& e.xscale.bits == fld_u64(m, XK_XSCALE, REAL_ONE_BITS)
    &&& e.yscale.bits == fld_u64(m, XK_YSCALE, REAL_ONE_BITS)
    &&& e.blend == fld_u32(m, XK_BLEND, NO_BLEND)
    &&& e.angle.bits == fld_u64(m, XK_ANGLE, REAL_ZERO_BITS)
}

pub open spec fn tile_extra_from(m: Map<u8, Seq<u8>>, e: TileExtra) -> bool {
    &&& e.xscale.bits == fld_u64(m, XK_XSCALE, REAL_ONE_BITS)
    &&& e.yscale.bits == fld_u64(m, XK_YSCALE, REAL_ONE_BITS)
    &&& e.blend == fld_u32(m, XK_BLEND, NO_BLEND)
}

/// Encodes an instance entry: a line per non-default field. The default
/// entry encodes to no lines at all, and its file is not written.
pub fn encode_instance_extra(e: &InstanceExtra) -> (r: Vec<(u8, Vec<u8>)>)
    ensures
        pairs_view(r@) == spec_enc_instance_extra(*e),
        (*e == spec_default_instance_extra()) ==> r@.len() == 0,
{
    let mut out: Vec<(u8, Vec<u8>)> = Vec::new();
    if e.name != 0 {
        let mut v: Vec<u8> = Vec::new();
        push_u64(&mut v, e.name as u64);
        out.push((XK_NAME, v));
    }
    if e.xscale.bits != REAL_ONE_BITS {
        let mut v: Vec<u8> = Vec::new();
        push_u64(&mut v, e.xscale.bits);
        out.push((XK_XSCALE, v));
    }
    if e.yscale.bits != REAL_ONE_BITS {
        let mut v: Vec<u8> = Vec::new();
        push_u64(&mut v, e.yscale.bits);
        out.push((XK_YSCALE, v));
    }
    if e.blend != NO_BLEND {
        let mut v: Vec<u8> = Vec::new();
        push_u64(&mut v, e.blend as u64);
        out.push((XK_BLEND, v));
    }
    if e.angle.bits != REAL_ZERO_BITS {
        let mut v: Vec<u8> = Vec::new();
        push_u64(&mut v, e.angle.bits);
        out.push((XK_ANGLE, v));
    }
    proof {
        assert(pairs_view(out@) =~= spec_enc_instance_extra(*e));
    }
    out
}

/// Encodes a tile entry the same way.
pub fn encode_tile_extra(e: &TileExtra) -> (r: Vec<(u8, Vec<u8>)>)
    ensures
        pairs_view(r@) == spec_enc_tile_extra(*e),
        (*e == spec_default_tile_extra()) ==> r@.len() == 0,
{
    let mut out: Vec<(u8, Vec<u8>)> = Vec::new();
    if e.xscale.bits != REAL_ONE_BITS {
        let mut v: Vec<u8> = Vec::new();
        push_u64(&mut v, e.xscale.bits);
        out.push((XK_XSCALE, v));
    }
    if e.yscale.bits != REAL_ONE_BITS {
        let mut v: Vec<u8> = Vec::new();
        push_u64(&mut v, e.yscale.bits);
        out.push((XK_YSCALE, v));
    }
    if e.blend != NO_BLEND {
        let mut v: Vec<u8> = Vec::new();
        push_u64(&mut v, e.blend as u64);
        out.push((XK_BLEND, v));
    }
    proof {
        assert(pairs_view(out@) =~= spec_enc_tile_extra(*e));
    }
    out
}

/// Decodes an instance entry.
pub fn decode_instance_extra(pairs: &Vec<(u8, Vec<u8>)>, path: &Vec<Vec<u8>>) -> (r: Result<
    InstanceExtra,
    Error,
>)
    ensures
        r is Ok <==> instance_extra_pairs_ok(pairs_view(pairs@)),
        r is Ok ==> instance_extra_from(kv_map(pairs_view(pairs@)), r->Ok_0),
        r is Err ==> match r->Err_0 {
            Error::UnknownKey(p2, k2) => crate::tree::path_view(p2@) == crate::tree::path_view(
                path@,
            ) && (exists|i: int|
                0 <= i < pairs_view(pairs@).len() && (#[trigger] pairs_view(pairs@)[i]).0 == k2
                    && !instance_extra_pair_ok(k2, pairs_view(pairs@)[i].1)),
            Error::BadValue(p2, k2) => crate::tree::path_view(p2@) == crate::tree::path_view(
                path@,
            ) && (exists|i: int|
                0 <= i < pairs_view(pairs@).len() && (#[trigger] pairs_view(pairs@)[i]).0 == k2
                    && !instance_extra_pair_ok(k2, pairs_view(pairs@)[i].1)),
            _ => false,
        },
{
    let mut f_name: u32 = 0;
    let mut f_xscale: u64 = REAL_ONE_BITS;
    let mut f_yscale: u64 = REAL_ONE_BITS;
    let mut f_blend: u32 = NO_BLEND;
    let mut f_angle: u64 = REAL_ZERO_BITS;
    let mut i: usize = 0;
    proof {
        assert(pairs_view(pairs@).take(0) =~= Seq::<(u8, Seq<u8>)>::empty());
        assert(kv_map(pairs_view(pairs@).take(0)) == Map::<u8, Seq<u8>>::empty());
    }
    while i < pairs.len()
        invariant
            0 <= i <= pairs@.len(),
            instance_extra_pairs_ok(pairs_view(pairs@).take(i as int)),
            f_name == fld_u32(kv_map(pairs_view(pairs@).take(i as int)), XK_NAME, 0),
            f_xscale == fld_u64(kv_map(pairs_view(pairs@).take(i as int)), XK_XSCALE, REAL_ONE_BITS),
            f_yscale == fld_u64(kv_map(pairs_view(pairs@).take(i as int)), XK_YSCALE, REAL_ONE_BITS),
            f_blend == fld_u32(kv_map(pairs_view(pairs@).take(i as int)), XK_BLEND, NO_BLEND),
            f_angle == fld_u64(kv_map(pairs_view(pairs@).take(i as int)), XK_ANGLE, REAL_ZERO_BITS),
        decreases pairs@.len() - i,
    {
        let k = pairs[i].0;
        let ghost prefix = pairs_view(pairs@).take(i as int);
        let ghost v = pairs@[i as int].1@;
        proof {
            assert(pairs_view(pairs@).take(i + 1) =~= prefix.push((k, v)));
            lemma_kv_map_push(prefix, k, v);
            assert(pairs_view(pairs@)[i as int] == (k, v));
        }
        if k == XK_NAME {
            match parse_u32_val(pairs[i].1.as_slice()) {
                Some(n) => { f_name = n; },
                None => { return Err(Error::BadValue(clone_path(path), k)); },
            }
        } else if k == XK_XSCALE {
            match parse_u64_val(pairs[i].1.as_slice()) {
                Some(n) => { f_xscale = n; },
                None => { return Err(Error::BadValue(clone_path(path), k)); },
            }
        } else if k == XK_YSCALE {
            match parse_u64_val(pairs[i].1.as_slice()) {
                Some(n) => { f_yscale = n; },
                None => { return Err(Error::BadValue(clone_path(path), k)); },
            }
        } else if k == XK_BLEND {
            match parse_u32_val(pairs[i].1.as_slice()) {
                Some(n) => { f_blend = n; },
                None => { return Err(Error::BadValue(clone_path(path), k)); },
            }
        } else if k == XK_ANGLE {
            match parse_u64_val(pairs[i].1.as_slice()) {
                Some(n) => { f_angle = n; },
                None => { return Err(Error::BadValue(clone_path(path), k)); },
            }
        } else {
            return Err(Error::UnknownKey(clone_path(path), k));
        }
        i = i + 1;
    }
    proof {
        assert(pairs_view(pairs@).take(i as int) =~= pairs_view(pairs@));
    }
    Ok(InstanceExtra {
        name: f_name,
        xscale: Real { bits: f_xscale },
        yscale: Real { bits: f_yscale },
        blend: f_blend,
        angle: Real { bits: f_angle },
    })
}

/// Decodes a tile entry.
pub fn decode_tile_extra(pairs: &Vec<(u8, Vec<u8>)>, path: &Vec<Vec<u8>>) -> (r: Result<
    TileExtra,
    Error,
>)
    ensures
        r is Ok <==> tile_extra_pairs_ok(pairs_view(pairs@)),
        r is Ok ==> tile_extra_from(kv_map(pairs_view(pairs@)), r->Ok_0),
        r is Err ==> match r->Err_0 {
            Error::UnknownKey(p2, k2) => crate::tree::path_view(p2@) == crate::tree::path_view(
                path@,
            ) && (exists|i: int|
                0 <= i < pairs_view(pairs@).len() && (#[trigger] pairs_view(pairs@)[i]).0 == k2
                    && !tile_extra_pair_ok(k2, pairs_view(pairs@)[i].1)),
            Error::BadValue(p2, k2) => crate::tree::path_view(p2@) == crate::tree::path_view(
                path@,
            ) && (exists|i: int|
                0 <= i < pairs_view(pairs@).len() && (#[trigger] pairs_view(pairs@)[i]).0 == k2
                    && !tile_extra_pair_ok(k2, pairs_view(pairs@)[i].1)),
            _ => false,
        },
{
    let mut f_xscale: u64 = REAL_ONE_BITS;
    let mut f_yscale: u64 = REAL_ONE_BITS;
    let mut f_blend: u32 = NO_BLEND;
    let mut i: usize = 0;
    proof {
        assert(pairs_view(pairs@).take(0) =~= Seq::<(u8, Seq<u8>)>::empty());
        assert(kv_map(pairs_view(pairs@).take(0)) == Map::<u8, Seq<u8>>::empty());
    }
    while i < pairs.len()
        invariant
            0 <= i <= pairs@.len(),
            tile_extra_pairs_ok(pairs_view(pairs@).take(i as int)),
            f_xscale == fld_u64(kv_map(pairs_view(pairs@).take(i as int)), XK_XSCALE, REAL_ONE_BITS),
            f_yscale == fld_u64(kv_map(pairs_view(pairs@).take(i as int)), XK_YSCALE, REAL_ONE_BITS),
            f_blend == fld_u32(kv_map(pairs_view(pairs@).take(i as int)), XK_BLEND, NO_BLEND),
        decreases pairs@.len() - i,
    {
        let k = pairs[i].0;
        let ghost prefix = pairs_view(pairs@).take(i as int);
        let ghost v = pairs@[i as int].1@;
        proof {
            assert(pairs_view(pairs@).take(i + 1) =~= prefix.push((k, v)));
            lemma_kv_map_push(prefix, k, v);
            assert(pairs_view(pairs@)[i as int] == (k, v));
        }
        if k == XK_XSCALE {
            match parse_u64_val(pairs[i].1.as_slice()) {
                Some(n) => { f_xscale = n; },
                None => { return Err(Error::BadValue(clone_path(path), k)); },
            }
        } else if k == XK_YSCALE {
            match parse_u64_val(pairs[i].1.as_slice()) {
                Some(n) => { f_yscale = n; },
                None => { return Err(Error::BadValue(clone_path(path), k)); },
            }
        } else if k == XK_BLEND {
            match parse_u32_val(pairs[i].1.as_slice()) {
                Some(n) => { f_blend = n; },
                None => { return Err(Error::BadValue(clone_path(path), k)); },
            }
        } else {
            return Err(Error::UnknownKey(clone_path(path), k));
        }
        i = i + 1;
    }
    proof {
        assert(pairs_view(pairs@).take(i as int) =~= pairs_view(pairs@));
    }
    Ok(TileExtra {
        xscale: Real { bits: f_xscale },
        yscale: Real { bits: f_yscale },
        blend: f_blend,
    })
}

/// What the encoder writes decodes back to the same entry; in particular an
/// entry with any field differing from the defaults survives with exactly
/// that field, and omitted fields read back as the defaults.
pub proof fn lemma_instance_extra_round_trip(e: InstanceExtra, e2: InstanceExtra)
    requires
        instance_extra_from(kv_map(spec_enc_instance_extra(e)), e2),
    ensures
        e2 == e,
{
    let p1: Seq<(u8, Seq<u8>)> = if e.name != 0 {
        seq![(XK_NAME, dec_of(e.name as nat))]
    } else {
        Seq::empty()
    };
    let p2: Seq<(u8, Seq<u8>)> = if e.xscale.bits != REAL_ONE_BITS {
        seq![(XK_XSCALE, dec_of(e.xscale.bits as nat))]
    } else {
        Seq::empty()
    };
    let p3: Seq<(u8, Seq<u8>)> = if e.yscale.bits != REAL_ONE_BITS {
        seq![(XK_YSCALE, dec_of(e.yscale.bits as nat))]
    } else {
        Seq::empty()
    };
    let p4: Seq<(u8, Seq<u8>)> = if e.blend != NO_BLEND {
        seq![(XK_BLEND, dec_of(e.blend as nat))]
    } else {
        Seq::empty()
    };
    let p5: Seq<(u8, Seq<u8>)> = if e.angle.bits != REAL_ZERO_BITS {
        seq![(XK_ANGLE, dec_of(e.angle.bits as nat))]
    } else {
        Seq::empty()
    };
    lemma_singleton_map(p1, XK_NAME, dec_of(e.name as nat));
    lemma_singleton_map(p2, XK_XSCALE, dec_of(e.xscale.bits as nat));
    lemma_singleton_map(p3, XK_YSCALE, dec_of(e.yscale.bits as nat));
    lemma_singleton_map(p4, XK_BLEND, dec_of(e.blend as nat));
    lemma_singleton_map(p5, XK_ANGLE, dec_of(e.angle.bits as nat));
    lemma_kv_map_concat(p1, p2);
    lemma_kv_map_concat(p1 + p2, p3);
    lemma_kv_map_concat(p1 + p2 + p3, p4);
    lemma_kv_map_concat(p1 + p2 + p3 + p4, p5);
    lemma_u64_round_trip(e.name as u64);
    lemma_u64_round_trip(e.xscale.bits);
    lemma_u64_round_trip(e.yscale.bits);
    lemma_u64_round_trip(e.blend as u64);
    lemma_u64_round_trip(e.angle.bits);
}

/// The same for a tile entry.
pub proof fn lemma_tile_extra_round_trip(e: TileExtra, e2: TileExtra)
    requires
        tile_extra_from(kv_map(spec_enc_tile_extra(e)), e2),
    ensures
        e2 == e,
{
    let p2: Seq<(u8, Seq<u8>)> = if e.xscale.bits != REAL_ONE_BITS {
        seq![(XK_XSCALE, dec_of(e.xscale.bits as nat))]
    } else {
        Seq::empty()
    };
    let p3: Seq<(u8, Seq<u8>)> = if e.yscale.bits != REAL_ONE_BITS {
        seq![(XK_YSCALE, dec_of(e.yscale.bits as nat))]
    } else {
        Seq::empty()
    };
    let p4: Seq<(u8, Seq<u8>)> = if e.blend != NO_BLEND {
        seq![(XK_BLEND, dec_of(e.blend as nat))]
    } else {
        Seq::empty()
    };
    lemma_singleton_map(p2, XK_XSCALE, dec_of(e.xscale.bits as nat));
    lemma_singleton_map(p3, XK_YSCALE, dec_of(e.yscale.bits as nat));
    lemma_singleton_map(p4, XK_BLEND, dec_of(e.blend as nat));
    lemma_kv_map_concat(p2, p3);
    lemma_kv_map_concat(p2 + p3, p4);
    lemma_u64_round_trip(e.xscale.bits);
    lemma_u64_round_trip(e.yscale.bits);
    lemma_u64_round_trip(e.blend as u64);
}

/// The map of an empty or one-line list.
proof fn lemma_singleton_map(ps: Seq<(u8, Seq<u8>)>, k: u8, v: Seq<u8>)
    requires
        ps == Seq::<(u8, Seq<u8>)>::empty() || ps == seq![(k, v)],
    ensures
        kv_map(ps) == Map::<u8, Seq<u8>>::empty() || kv_map(ps) == Map::<u8, Seq<u8>>::empty()
            .insert(k, v),
        ps == seq![(k, v)] ==> kv_map(ps) == Map::<u8, Seq<u8>>::empty().insert(k, v),
        ps == Seq::<(u8, Seq<u8>)>::empty() ==> kv_map(ps) == Map::<u8, Seq<u8>>::empty(),
{
    if ps == seq![(k, v)] {
        assert(ps.drop_last() =~= Seq::<(u8, Seq<u8>)>::empty());
        assert(ps.last() == (k, v));
        assert(kv_map(Seq::<(u8, Seq<u8>)>::empty()) == Map::<u8, Seq<u8>>::empty());
    }
}

/// The lines of an encoded entry are well formed and well typed.
pub proof fn lemma_instance_extra_enc_ok(e: InstanceExtra)
    ensures
        wf_pairs(spec_enc_instance_extra(e)),
        instance_extra_pairs_ok(spec_enc_instance_extra(e)),
{
    lemma_dec_of_digits(e.name as nat);
    lemma_dec_of_digits(e.xscale.bits as nat);
    lemma_dec_of_digits(e.yscale.bits as nat);
    lemma_dec_of_digits(e.blend as nat);
    lemma_dec_of_digits(e.angle.bits as nat);
    lemma_u64_round_trip(e.name as u64);
    lemma_u64_round_trip(e.xscale.bits);
    lemma_u64_round_trip(e.yscale.bits);
    lemma_u64_round_trip(e.blend as u64);
    lemma_u64_round_trip(e.angle.bits);
    let ps = spec_enc_instance_extra(e);
    assert forall|i: int| 0 <= i < ps.len() implies (#[trigger] ps[i]).0 != NL && no_nl(ps[i].1)
        && instance_extra_pair_ok(ps[i].0, ps[i].1) by {
        assert(all_entry_ok_instance(ps[i], e));
    }
}

/// Every line an instance entry can produce is one of its five fields.
spec fn all_entry_ok_instance(p: (u8, Seq<u8>), e: InstanceExtra) -> bool {
    ||| p == (XK_NAME, dec_of(e.name as nat))
    ||| p == (XK_XSCALE, dec_of(e.xscale.bits as nat))
    ||| p == (XK_YSCALE, dec_of(e.yscale.bits as nat))
    ||| p == (XK_BLEND, dec_of(e.blend as nat))
    ||| p == (XK_ANGLE, dec_of(e.angle.bits as nat))
}

/// The same for a tile entry.
pub proof fn lemma_tile_extra_enc_ok(e: TileExtra)
    ensures
        wf_pairs(spec_enc_tile_extra(e)),
        tile_extra_pairs_ok(spec_enc_tile_extra(e)),
{
    lemma_dec_of_digits(e.xscale.bits as nat);
    lemma_dec_of_digits(e.yscale.bits as nat);
    lemma_dec_of_digits(e.blend as nat);
    lemma_u64_round_trip(e.xscale.bits);
    lemma_u64_round_trip(e.yscale.bits);
    lemma_u64_round_trip(e.blend as u64);
    let ps = spec_enc_tile_extra(e);
    assert forall|i: int| 0 <= i < ps.len() implies (#[trigger] ps[i]).0 != NL && no_nl(ps[i].1)
        && tile_extra_pair_ok(ps[i].0, ps[i].1) by {
        assert(ps[i] == (XK_XSCALE, dec_of(e.xscale.bits as nat)) || ps[i] == (
            XK_YSCALE,
            dec_of(e.yscale.bits as nat),
        ) || ps[i] == (XK_BLEND, dec_of(e.blend as nat)));
    }
}

} // verus!
