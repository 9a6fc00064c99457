//! Record codecs for the scalar-field asset kinds: fonts, sounds,
//! included files, sprites, backgrounds and paths.
//!
//! Each record is one key=value file; binary payloads and code are sidecar
//! files beside it. A record decoder starts from the documented defaults, so
//! trees written before a field existed keep loading. Encoding then decoding
//! any record gives the record back (the `..._round_trip` lemmas).

use vstd::prelude::*;
use crate::asset::{Font, Sound, IncludedFile, Sprite, Background, Frame, Path, PathPoint, Real,
    REAL_ONE_BITS, REAL_ZERO_BITS};
use crate::bytes::{dec_of, dec_of_int, enc_bool, NL, bytes_to_vec, push_u64, push_i64, push_bool,
    lemma_u64_round_trip, lemma_i64_round_trip, lemma_bool_round_trip, lemma_dec_of_digits};
use crate::error::Error;
use crate::fields::{kv_map, lemma_kv_map_push, fld_u32, fld_i32, fld_u64, fld_bool, fld_bytes,
    val_ok_u32, val_ok_i32, val_ok_u64, val_ok_bool, parse_u32_val, parse_i32_val, parse_u64_val,
    parse_bool_val};
use crate::kv::{no_nl, wf_pairs, pairs_view};
use crate::codec_misc::lemma_digits_no_nl;
use crate::tree::clone_path;

verus! {
// --- font: a font record ---

pub const FK_SYSNAME: u8 = 102;  // f
pub const FK_SIZE: u8 = 115;  // s
pub const FK_BOLD: u8 = 98;  // b
pub const FK_ITALIC: u8 = 105;  // i
pub const FK_RANGE_START: u8 = 114;  // r
pub const FK_RANGE_END: u8 = 101;  // e
pub const FK_CHARSET: u8 = 99;  // c
pub const FK_AA: u8 = 97;  // a

pub open spec fn font_pair_ok(k: u8, v: Seq<u8>) -> bool {
    if k == FK_SYSNAME {
        true
    } else if k == FK_SIZE {
        val_ok_u32(v)
    } else if k == FK_BOLD {
        val_ok_bool(v)
    } else if k == FK_ITALIC {
        val_ok_bool(v)
    } else if k == FK_RANGE_START {
        val_ok_u32(v)
    } else if k == FK_RANGE_END {
        val_ok_u32(v)
    } else if k == FK_CHARSET {
        val_ok_u32(v)
    } else if k == FK_AA {
        val_ok_u32(v)
    } else {
        false
    }
}

pub open spec fn font_pairs_ok(ps: Seq<(u8, Seq<u8>)>) -> bool {
    forall|i: int| 0 <= i < ps.len() ==> font_pair_ok((#[trigger] ps[i]).0, ps[i].1)
}

/// The value a record file denotes: each field is its key's parsed
/// value, or the documented default where the key is absent.
pub open spec fn font_from(m: Map<u8, Seq<u8>>, t: &Font) -> bool {
    &&& t.sys_name@ == fld_bytes(m, FK_SYSNAME)
    &&& t.size == fld_u32(m, FK_SIZE, 12)
    &&& t.bold == fld_bool(m, FK_BOLD, false)
    &&& t.italic == fld_bool(m, FK_ITALIC, false)
    &&& t.range_start == fld_u32(m, FK_RANGE_START, 32)
    &&& t.range_end == fld_u32(m, FK_RANGE_END, 127)
    &&& t.charset == fld_u32(m, FK_CHARSET, 1)
    &&& t.aa_level == fld_u32(m, FK_AA, 3)
}

/// The record lines the encoder writes.
pub open spec fn spec_enc_font(t: &Font) -> Seq<(u8, Seq<u8>)> {
    seq![
        (FK_SYSNAME, t.sys_name@),
        (FK_SIZE, dec_of(t.size as nat)),
        (FK_BOLD, enc_bool(t.bold)),
        (FK_ITALIC, enc_bool(t.italic)),
        (FK_RANGE_START, dec_of(t.range_start as nat)),
        (FK_RANGE_END, dec_of(t.range_end as nat)),
        (FK_CHARSET, dec_of(t.charset as nat)),
        (FK_AA, dec_of(t.aa_level as nat)),
    ]
}

/// A record the text format can carry: byte fields fit on a line.
pub open spec fn wf_font_record(t: &Font) -> bool {
    &&& no_nl(t.sys_name@)
}

/// Encodes the record lines.
pub fn encode_font(t: &Font) -> (r: Vec<(u8, Vec<u8>)>)
    ensures
        pairs_view(r@) == spec_enc_font(t),
{
    let mut out: Vec<(u8, Vec<u8>)> = Vec::new();
    out.push((FK_SYSNAME, bytes_to_vec(t.sys_name.as_slice())));
    let mut v1: Vec<u8> = Vec::new();
    push_u64(&mut v1, t.size as u64);
    out.push((FK_SIZE, v1));
    let mut v2: Vec<u8> = Vec::new();
    push_bool(&mut v2, t.bold);
    out.push((FK_BOLD, v2));
    let mut v3: Vec<u8> = Vec::new();
    push_bool(&mut v3, t.italic);
    out.push((FK_ITALIC, v3));
    let mut v4: Vec<u8> = Vec::new();
    push_u64(&mut v4, t.range_start as u64);
    out.push((FK_RANGE_START, v4));
    let mut v5: Vec<u8> = Vec::new();
    push_u64(&mut v5, t.range_end as u64);
    out.push((FK_RANGE_END, v5));
    let mut v6: Vec<u8> = Vec::new();
    push_u64(&mut v6, t.charset as u64);
    out.push((FK_CHARSET, v6));
    let mut v7: Vec<u8> = Vec::new();
    push_u64(&mut v7, t.aa_level as u64);
    out.push((FK_AA, v7));
    proof {
        assert(pairs_view(out@) =~= spec_enc_font(t));
    }
    out
}

/// Decodes the record lines; fails on an unknown key or an ill-typed
/// value, and on nothing else.
pub fn decode_font(pairs: &Vec<(u8, Vec<u8>)>, path: &Vec<Vec<u8>>) -> (r: Result<Font, Error>)
    ensures
        r is Ok <==> font_pairs_ok(pairs_view(pairs@)),
        r is Err ==> match r->Err_0 {
            Error::UnknownKey(p2, k2) => crate::tree::path_view(p2@)
                == crate::tree::path_view(path@) && (exists|i: int|
                0 <= i < pairs_view(pairs@).len() && (#[trigger] pairs_view(pairs@)[i]).0
                    == k2 && !font_pair_ok(k2, pairs_view(pairs@)[i].1)),
            Error::BadValue(p2, k2) => crate::tree::path_view(p2@)
                == crate::tree::path_view(path@) && (exists|i: int|
                0 <= i < pairs_view(pairs@).len() && (#[trigger] pairs_view(pairs@)[i]).0
                    == k2 && !font_pair_ok(k2, pairs_view(pairs@)[i].1)),
            _ => false,
        },
        r is Ok ==> font_from(kv_map(pairs_view(pairs@)), &r->Ok_0),
{
    let mut f_sys_name: Vec<u8> = Vec::new();
    let mut f_size: u32 = 12;
    let mut f_bold: bool = false;
    let mut f_italic: bool = false;
    let mut f_range_start: u32 = 32;
    let mut f_range_end: u32 = 127;
    let mut f_charset: u32 = 1;
    let mut f_aa_level: u32 = 3;
    let mut i: usize = 0;
    proof {
        assert(pairs_view(pairs@).take(0) =~= Seq::<(u8, Seq<u8>)>::empty());
        assert(kv_map(pairs_view(pairs@).take(0)) == Map::<u8, Seq<u8>>::empty());
    }
    while i < pairs.len()
        invariant
            0 <= i <= pairs@.len(),
            font_pairs_ok(pairs_view(pairs@).take(i as int)),
            f_sys_name@ == fld_bytes(kv_map(pairs_view(pairs@).take(i as int)), FK_SYSNAME),
            f_size == fld_u32(kv_map(pairs_view(pairs@).take(i as int)), FK_SIZE, 12),
            f_bold == fld_bool(kv_map(pairs_view(pairs@).take(i as int)), FK_BOLD, false),
            f_italic == fld_bool(kv_map(pairs_view(pairs@).take(i as int)), FK_ITALIC, false),
            f_range_start == fld_u32(kv_map(pairs_view(pairs@).take(i as int)), FK_RANGE_START, 32),
            f_range_end == fld_u32(kv_map(pairs_view(pairs@).take(i as int)), FK_RANGE_END, 127),
            f_charset == fld_u32(kv_map(pairs_view(pairs@).take(i as int)), FK_CHARSET, 1),
            f_aa_level == fld_u32(kv_map(pairs_view(pairs@).take(i as int)), FK_AA, 3),
        decreases pairs@.len() - i,
    {
        let k = pairs[i].0;
        let ghost prefix = pairs_view(pairs@).take(i as int);
        let ghost v = pairs@[i as int].1@;
        proof {
            assert(pairs_view(pairs@).take(i + 1) =~= prefix.push((k, v)));
            lemma_kv_map_push(prefix, k, v);
            assert(pairs_view(pairs@)[i as int] == (k, v));
        }
        if k == FK_SYSNAME {
            f_sys_name = bytes_to_vec(pairs[i].1.as_slice());
        } else if k == FK_SIZE {
            match parse_u32_val(pairs[i].1.as_slice()) {
                Some(n) => { f_size = n; },
                None => { return Err(Error::BadValue(clone_path(path), k)); },
            }
        } else if k == FK_BOLD {
            match parse_bool_val(pairs[i].1.as_slice()) {
                Some(b) => { f_bold = b; },
                None => { return Err(Error::BadValue(clone_path(path), k)); },
            }
        } else if k == FK_ITALIC {
            match parse_bool_val(pairs[i].1.as_slice()) {
                Some(b) => { f_italic = b; },
                None => { return Err(Error::BadValue(clone_path(path), k)); },
            }
        } else if k == FK_RANGE_START {
            match parse_u32_val(pairs[i].1.as_slice()) {
                Some(n) => { f_range_start = n; },
                None => { return Err(Error::BadValue(clone_path(path), k)); },
            }
        } else if k == FK_RANGE_END {
            match parse_u32_val(pairs[i].1.as_slice()) {
                Some(n) => { f_range_end = n; },
                None => { return Err(Error::BadValue(clone_path(path), k)); },
            }
        } else if k == FK_CHARSET {
            match parse_u32_val(pairs[i].1.as_slice()) {
                Some(n) => { f_charset = n; },
                None => { return Err(Error::BadValue(clone_path(path), k)); },
            }
        } else if k == FK_AA {
            match parse_u32_val(pairs[i].1.as_slice()) {
                Some(n) => { f_aa_level = n; },
                None => { return Err(Error::BadValue(clone_path(path), k)); },
            }
        } else {
            return Err(Error::UnknownKey(clone_path(path), k));
        }
        i = i + 1;
    }
    proof {
        assert(pairs_view(pairs@).take(i as int) =~= pairs_view(pairs@));
    }
    let t = Font { sys_name: f_sys_name, size: f_size, bold: f_bold, italic: f_italic, range_start: f_range_start, range_end: f_range_end, charset: f_charset, aa_level: f_aa_level };
    Ok(t)
}

/// What the encoder writes decodes back to the same record.
pub proof fn lemma_font_round_trip(t: &Font, t2: &Font)
    requires
        font_from(kv_map(spec_enc_font(t)), t2),
    ensures
        t2.sys_name@ == t.sys_name@,
        t2.size == t.size,
        t2.bold == t.bold,
        t2.italic == t.italic,
        t2.range_start == t.range_start,
        t2.range_end == t.range_end,
        t2.charset == t.charset,
        t2.aa_level == t.aa_level,
{
    let ps = spec_enc_font(t);
    let q0 = Seq::<(u8, Seq<u8>)>::empty();
    lemma_kv_map_push(q0, FK_SYSNAME, t.sys_name@);
    let q1 = q0.push((FK_SYSNAME, t.sys_name@));
    lemma_kv_map_push(q1, FK_SIZE, dec_of(t.size as nat));
    let q2 = q1.push((FK_SIZE, dec_of(t.size as nat)));
    lemma_kv_map_push(q2, FK_BOLD, enc_bool(t.bold));
    let q3 = q2.push((FK_BOLD, enc_bool(t.bold)));
    lemma_kv_map_push(q3, FK_ITALIC, enc_bool(t.italic));
    let q4 = q3.push((FK_ITALIC, enc_bool(t.italic)));
    lemma_kv_map_push(q4, FK_RANGE_START, dec_of(t.range_start as nat));
    let q5 = q4.push((FK_RANGE_START, dec_of(t.range_start as nat)));
    lemma_kv_map_push(q5, FK_RANGE_END, dec_of(t.range_end as nat));
    let q6 = q5.push((FK_RANGE_END, dec_of(t.range_end as nat)));
    lemma_kv_map_push(q6, FK_CHARSET, dec_of(t.charset as nat));
    let q7 = q6.push((FK_CHARSET, dec_of(t.charset as nat)));
    lemma_kv_map_push(q7, FK_AA, dec_of(t.aa_level as nat));
    let q8 = q7.push((FK_AA, dec_of(t.aa_level as nat)));
    assert(ps =~= q8);
    lemma_u64_round_trip(t.size as u64);
    lemma_bool_round_trip(t.bold);
    lemma_bool_round_trip(t.italic);
    lemma_u64_round_trip(t.range_start as u64);
    lemma_u64_round_trip(t.range_end as u64);
    lemma_u64_round_trip(t.charset as u64);
    lemma_u64_round_trip(t.aa_level as u64);
}

/// The encoder's lines are well formed and well typed.
pub proof fn lemma_font_enc_ok(t: &Font)
    requires
        wf_font_record(t),
    ensures
        wf_pairs(spec_enc_font(t)),
        font_pairs_ok(spec_enc_font(t)),
{
    let ps = spec_enc_font(t);
    lemma_dec_of_digits(t.size as nat);
    lemma_u64_round_trip(t.size as u64);
    lemma_bool_round_trip(t.bold);
    lemma_bool_round_trip(t.italic);
    lemma_dec_of_digits(t.range_start as nat);
    lemma_u64_round_trip(t.range_start as u64);
    lemma_dec_of_digits(t.range_end as nat);
    lemma_u64_round_trip(t.range_end as u64);
    lemma_dec_of_digits(t.charset as nat);
    lemma_u64_round_trip(t.charset as u64);
    lemma_dec_of_digits(t.aa_level as nat);
    lemma_u64_round_trip(t.aa_level as u64);
    assert forall|i: int| 0 <= i < ps.len() implies (#[trigger] ps[i]).0 != NL && no_nl(
        ps[i].1,
    ) && font_pair_ok(ps[i].0, ps[i].1) by {
        if i == 0 {
        }
        if i == 1 {
            lemma_digits_no_nl(dec_of(t.size as nat));
        }
        if i == 2 {
        }
        if i == 3 {
        }
        if i == 4 {
            lemma_digits_no_nl(dec_of(t.range_start as nat));
        }
        if i == 5 {
            lemma_digits_no_nl(dec_of(t.range_end as nat));
        }
        if i == 6 {
            lemma_digits_no_nl(dec_of(t.charset as nat));
        }
        if i == 7 {
            lemma_digits_no_nl(dec_of(t.aa_level as nat));
        }
    }
}

// --- sound: a sound record; the sample bytes are a sidecar whose presence the record states ---

pub const SK_KIND: u8 = 107;  // k
pub const SK_EXTENSION: u8 = 101;  // e
pub const SK_EFFECTS: u8 = 102;  // f
pub const SK_VOLUME: u8 = 118;  // v
pub const SK_PAN: u8 = 112;  // p
pub const SK_PRELOAD: u8 = 108;  // l
pub const SK_HAS_DATA: u8 = 100;  // d

pub open spec fn sound_pair_ok(k: u8, v: Seq<u8>) -> bool {
    if k == SK_KIND {
        val_ok_u32(v)
    } else if k == SK_EXTENSION {
        true
    } else if k == SK_EFFECTS {
        val_ok_u32(v)
    } else if k == SK_VOLUME {
        val_ok_u64(v)
    } else if k == SK_PAN {
        val_ok_u64(v)
    } else if k == SK_PRELOAD {
        val_ok_bool(v)
    } else if k == SK_HAS_DATA {
        val_ok_bool(v)
    } else {
        false
    }
}

pub open spec fn sound_pairs_ok(ps: Seq<(u8, Seq<u8>)>) -> bool {
    forall|i: int| 0 <= i < ps.len() ==> sound_pair_ok((#[trigger] ps[i]).0, ps[i].1)
}

/// The value a record file denotes: each field is its key's parsed
/// value, or the documented default where the key is absent.
pub open spec fn sound_from(m: Map<u8, Seq<u8>>, t: &Sound, has_data: bool) -> bool {
    &&& t.kind == fld_u32(m, SK_KIND, 0)
    &&& t.extension@ == fld_bytes(m, SK_EXTENSION)
    &&& t.effects == fld_u32(m, SK_EFFECTS, 0)
    &&& t.volume.bits == fld_u64(m, SK_VOLUME, REAL_ONE_BITS)
    &&& t.pan.bits == fld_u64(m, SK_PAN, REAL_ZERO_BITS)
    &&& t.preload == fld_bool(m, SK_PRELOAD, true)
    &&& has_data == fld_bool(m, SK_HAS_DATA, false)
}

/// The record lines the encoder writes.
pub open spec fn spec_enc_sound(t: &Sound, has_data: bool) -> Seq<(u8, Seq<u8>)> {
    seq![
        (SK_KIND, dec_of(t.kind as nat)),
        (SK_EXTENSION, t.extension@),
        (SK_EFFECTS, dec_of(t.effects as nat)),
        (SK_VOLUME, dec_of(t.volume.bits as nat)),
        (SK_PAN, dec_of(t.pan.bits as nat)),
        (SK_PRELOAD, enc_bool(t.preload)),
        (SK_HAS_DATA, enc_bool(has_data)),
    ]
}

/// A record the text format can carry: byte fields fit on a line.
pub open spec fn wf_sound_record(t: &Sound) -> bool {
    &&& no_nl(t.extension@)
}

/// Encodes the record lines.
pub fn encode_sound(t: &Sound, has_data: bool) -> (r: Vec<(u8, Vec<u8>)>)
    ensures
        pairs_view(r@) == spec_enc_sound(t, has_data),
{
    let mut out: Vec<(u8, Vec<u8>)> = Vec::new();
    let mut v0: Vec<u8> = Vec::new();
    push_u64(&mut v0, t.kind as u64);
    out.push((SK_KIND, v0));
    out.push((SK_EXTENSION, bytes_to_vec(t.extension.as_slice())));
    let mut v2: Vec<u8> = Vec::new();
    push_u64(&mut v2, t.effects as u64);
    out.push((SK_EFFECTS, v2));
    let mut v3: Vec<u8> = Vec::new();
    push_u64(&mut v3, t.volume.bits);
    out.push((SK_VOLUME, v3));
    let mut v4: Vec<u8> = Vec::new();
    push_u64(&mut v4, t.pan.bits);
    out.push((SK_PAN, v4));
    let mut v5: Vec<u8> = Vec::new();
    push_bool(&mut v5, t.preload);
    out.push((SK_PRELOAD, v5));
    let mut v6: Vec<u8> = Vec::new();
    push_bool(&mut v6, has_data);
    out.push((SK_HAS_DATA, v6));
    proof {
        assert(pairs_view(out@) =~= spec_enc_sound(t, has_data));
    }
    out
}

/// Decodes the record lines; fails on an unknown key or an ill-typed
/// value, and on nothing else.
pub fn decode_sound(pairs: &Vec<(u8, Vec<u8>)>, path: &Vec<Vec<u8>>) -> (r: Result<(Sound, bool), Error>)
    ensures
        r is Ok <==> sound_pairs_ok(pairs_view(pairs@)),
        r is Err ==> match r->Err_0 {
            Error::UnknownKey(p2, k2) => crate::tree::path_view(p2@)
                == crate::tree::path_view(path@) && (exists|i: int|
                0 <= i < pairs_view(pairs@).len() && (#[trigger] pairs_view(pairs@)[i]).0
                    == k2 && !sound_pair_ok(k2, pairs_view(pairs@)[i].1)),
            Error::BadValue(p2, k2) => crate::tree::path_view(p2@)
                == crate::tree::path_view(path@) && (exists|i: int|
                0 <= i < pairs_view(pairs@).len() && (#[trigger] pairs_view(pairs@)[i]).0
                    == k2 && !sound_pair_ok(k2, pairs_view(pairs@)[i].1)),
            _ => false,
        },
        r is Ok ==> sound_from(kv_map(pairs_view(pairs@)), &r->Ok_0.0, r->Ok_0.1),
{
    let mut f_kind: u32 = 0;
    let mut f_extension: Vec<u8> = Vec::new();
    let mut f_effects: u32 = 0;
    let mut f_volume: u64 = REAL_ONE_BITS;
    let mut f_pan: u64 = REAL_ZERO_BITS;
    let mut f_preload: bool = true;
    let mut has_data: bool = false;
    let mut i: usize = 0;
    proof {
        assert(pairs_view(pairs@).take(0) =~= Seq::<(u8, Seq<u8>)>::empty());
        assert(kv_map(pairs_view(pairs@).take(0)) == Map::<u8, Seq<u8>>::empty());
    }
    while i < pairs.len()
        invariant
            0 <= i <= pairs@.len(),
            sound_pairs_ok(pairs_view(pairs@).take(i as int)),
            f_kind == fld_u32(kv_map(pairs_view(pairs@).take(i as int)), SK_KIND, 0),
            f_extension@ == fld_bytes(kv_map(pairs_view(pairs@).take(i as int)), SK_EXTENSION),
            f_effects == fld_u32(kv_map(pairs_view(pairs@).take(i as int)), SK_EFFECTS, 0),
            f_volume == fld_u64(kv_map(pairs_view(pairs@).take(i as int)), SK_VOLUME, REAL_ONE_BITS),
            f_pan == fld_u64(kv_map(pairs_view(pairs@).take(i as int)), SK_PAN, REAL_ZERO_BITS),
            f_preload == fld_bool(kv_map(pairs_view(pairs@).take(i as int)), SK_PRELOAD, true),
            has_data == fld_bool(kv_map(pairs_view(pairs@).take(i as int)), SK_HAS_DATA, false),
        decreases pairs@.len() - i,
    {
        let k = pairs[i].0;
        let ghost prefix = pairs_view(pairs@).take(i as int);
        let ghost v = pairs@[i as int].1@;
        proof {
            assert(pairs_view(pairs@).take(i + 1) =~= prefix.push((k, v)));
            lemma_kv_map_push(prefix, k, v);
            assert(pairs_view(pairs@)[i as int] == (k, v));
        }
        if k == SK_KIND {
            match parse_u32_val(pairs[i].1.as_slice()) {
                Some(n) => { f_kind = n; },
                None => { return Err(Error::BadValue(clone_path(path), k)); },
            }
        } else if k == SK_EXTENSION {
            f_extension = bytes_to_vec(pairs[i].1.as_slice());
        } else if k == SK_EFFECTS {
            match parse_u32_val(pairs[i].1.as_slice()) {
                Some(n) => { f_effects = n; },
                None => { return Err(Error::BadValue(clone_path(path), k)); },
            }
        } else if k == SK_VOLUME {
            match parse_u64_val(pairs[i].1.as_slice()) {
                Some(n) => { f_volume = n; },
                None => { return Err(Error::BadValue(clone_path(path), k)); },
            }
        } else if k == SK_PAN {
            match parse_u64_val(pairs[i].1.as_slice()) {
                Some(n) => { f_pan = n; },
                None => { return Err(Error::BadValue(clone_path(path), k)); },
            }
        } else if k == SK_PRELOAD {
            match parse_bool_val(pairs[i].1.as_slice()) {
                Some(b) => { f_preload = b; },
                None => { return Err(Error::BadValue(clone_path(path), k)); },
            }
        } else if k == SK_HAS_DATA {
            match parse_bool_val(pairs[i].1.as_slice()) {
                Some(b) => { has_data = b; },
                None => { return Err(Error::BadValue(clone_path(path), k)); },
            }
        } else {
            return Err(Error::UnknownKey(clone_path(path), k));
        }
        i = i + 1;
    }
    proof {
        assert(pairs_view(pairs@).take(i as int) =~= pairs_view(pairs@));
    }
    let t = Sound { kind: f_kind, extension: f_extension, effects: f_effects, volume: Real { bits: f_volume }, pan: Real { bits: f_pan }, preload: f_preload, data: None };
    Ok((t, has_data))
}

/// What the encoder writes decodes back to the same record.
pub proof fn lemma_sound_round_trip(t: &Sound, has_data: bool, t2: &Sound, has_data2: bool)
    requires
        sound_from(kv_map(spec_enc_sound(t, has_data)), t2, has_data2),
    ensures
        t2.kind == t.kind,
        t2.extension@ == t.extension@,
        t2.effects == t.effects,
        t2.volume.bits == t.volume.bits,
        t2.pan.bits == t.pan.bits,
        t2.preload == t.preload,
        has_data2 == has_data,
{
    let ps = spec_enc_sound(t, has_data);
    let q0 = Seq::<(u8, Seq<u8>)>::empty();
    lemma_kv_map_push(q0, SK_KIND, dec_of(t.kind as nat));
    let q1 = q0.push((SK_KIND, dec_of(t.kind as nat)));
    lemma_kv_map_push(q1, SK_EXTENSION, t.extension@);
    let q2 = q1.push((SK_EXTENSION, t.extension@));
    lemma_kv_map_push(q2, SK_EFFECTS, dec_of(t.effects as nat));
    let q3 = q2.push((SK_EFFECTS, dec_of(t.effects as nat)));
    lemma_kv_map_push(q3, SK_VOLUME, dec_of(t.volume.bits as nat));
    let q4 = q3.push((SK_VOLUME, dec_of(t.volume.bits as nat)));
    lemma_kv_map_push(q4, SK_PAN, dec_of(t.pan.bits as nat));
    let q5 = q4.push((SK_PAN, dec_of(t.pan.bits as nat)));
    lemma_kv_map_push(q5, SK_PRELOAD, enc_bool(t.preload));
    let q6 = q5.push((SK_PRELOAD, enc_bool(t.preload)));
    lemma_kv_map_push(q6, SK_HAS_DATA, enc_bool(has_data));
    let q7 = q6.push((SK_HAS_DATA, enc_bool(has_data)));
    assert(ps =~= q7);
    lemma_u64_round_trip(t.kind as u64);
    lemma_u64_round_trip(t.effects as u64);
    lemma_u64_round_trip(t.volume.bits);
    lemma_u64_round_trip(t.pan.bits);
    lemma_bool_round_trip(t.preload);
    lemma_bool_round_trip(has_data);
}

/// The encoder's lines are well formed and well typed.
pub proof fn lemma_sound_enc_ok(t: &Sound, has_data: bool)
    requires
        wf_sound_record(t),
    ensures
        wf_pairs(spec_enc_sound(t, has_data)),
        sound_pairs_ok(spec_enc_sound(t, has_data)),
{
    let ps = spec_enc_sound(t, has_data);
    lemma_dec_of_digits(t.kind as nat);
    lemma_u64_round_trip(t.kind as u64);
    lemma_dec_of_digits(t.effects as nat);
    lemma_u64_round_trip(t.effects as u64);
    lemma_dec_of_digits(t.volume.bits as nat);
    lemma_u64_round_trip(t.volume.bits);
    lemma_dec_of_digits(t.pan.bits as nat);
    lemma_u64_round_trip(t.pan.bits);
    lemma_bool_round_trip(t.preload);
    lemma_bool_round_trip(has_data);
    assert forall|i: int| 0 <= i < ps.len() implies (#[trigger] ps[i]).0 != NL && no_nl(
        ps[i].1,
    ) && sound_pair_ok(ps[i].0, ps[i].1) by {
        if i == 0 {
            lemma_digits_no_nl(dec_of(t.kind as nat));
        }
        if i == 1 {
        }
        if i == 2 {
            lemma_digits_no_nl(dec_of(t.effects as nat));
        }
        if i == 3 {
            lemma_digits_no_nl(dec_of(t.volume.bits as nat));
        }
        if i == 4 {
            lemma_digits_no_nl(dec_of(t.pan.bits as nat));
        }
        if i == 5 {
        }
        if i == 6 {
        }
    }
}

// --- included file: an included-file record; the payload bytes are a sidecar ---

pub const IFK_SOURCE_PATH: u8 = 112;  // p
pub const IFK_SOURCE_LENGTH: u8 = 108;  // l
pub const IFK_STORED: u8 = 115;  // s
pub const IFK_EXPORT: u8 = 101;  // e
pub const IFK_FOLDER: u8 = 102;  // f
pub const IFK_OVERWRITE: u8 = 111;  // o
pub const IFK_FREE: u8 = 109;  // m
pub const IFK_REMOVE: u8 = 114;  // r
pub const IFK_DATA_EXISTS: u8 = 120;  // x

pub open spec fn included_file_pair_ok(k: u8, v: Seq<u8>) -> bool {
    if k == IFK_SOURCE_PATH {
        true
    } else if k == IFK_SOURCE_LENGTH {
        val_ok_u32(v)
    } else if k == IFK_STORED {
        val_ok_bool(v)
    } else if k == IFK_EXPORT {
        val_ok_u32(v)
    } else if k == IFK_FOLDER {
        true
    } else if k == IFK_OVERWRITE {
        val_ok_bool(v)
    } else if k == IFK_FREE {
        val_ok_bool(v)
    } else if k == IFK_REMOVE {
        val_ok_bool(v)
    } else if k == IFK_DATA_EXISTS {
        val_ok_bool(v)
    } else {
        false
    }
}

pub open spec fn included_file_pairs_ok(ps: Seq<(u8, Seq<u8>)>) -> bool {
    forall|i: int| 0 <= i < ps.len() ==> included_file_pair_ok((#[trigger] ps[i]).0, ps[i].1)
}

/// The value a record file denotes: each field is its key's parsed
/// value, or the documented default where the key is absent.
pub open spec fn included_file_from(m: Map<u8, Seq<u8>>, t: &IncludedFile) -> bool {
    &&& t.source_path@ == fld_bytes(m, IFK_SOURCE_PATH)
    &&& t.source_length == fld_u32(m, IFK_SOURCE_LENGTH, 0)
    &&& t.stored_in_gmk == fld_bool(m, IFK_STORED, true)
    &&& t.export_setting == fld_u32(m, IFK_EXPORT, 0)
    &&& t.export_custom_folder@ == fld_bytes(m, IFK_FOLDER)
    &&& t.overwrite_file == fld_bool(m, IFK_OVERWRITE, false)
    &&& t.free_memory == fld_bool(m, IFK_FREE, true)
    &&& t.remove_at_end == fld_bool(m, IFK_REMOVE, false)
    &&& t.data_exists == fld_bool(m, IFK_DATA_EXISTS, false)
}

/// The record lines the encoder writes.
pub open spec fn spec_enc_included_file(t: &IncludedFile) -> Seq<(u8, Seq<u8>)> {
    seq![
        (IFK_SOURCE_PATH, t.source_path@),
        (IFK_SOURCE_LENGTH, dec_of(t.source_length as nat)),
        (IFK_STORED, enc_bool(t.stored_in_gmk)),
        (IFK_EXPORT, dec_of(t.export_setting as nat)),
        (IFK_FOLDER, t.export_custom_folder@),
        (IFK_OVERWRITE, enc_bool(t.overwrite_file)),
        (IFK_FREE, enc_bool(t.free_memory)),
        (IFK_REMOVE, enc_bool(t.remove_at_end)),
        (IFK_DATA_EXISTS, enc_bool(t.data_exists)),
    ]
}

/// A record the text format can carry: byte fields fit on a line.
pub open spec fn wf_included_file_record(t: &IncludedFile) -> bool {
    &&& no_nl(t.source_path@)
    &&& no_nl(t.export_custom_folder@)
}

/// Encodes the record lines.
pub fn encode_included_file(t: &IncludedFile) -> (r: Vec<(u8, Vec<u8>)>)
    ensures
        pairs_view(r@) == spec_enc_included_file(t),
{
    let mut out: Vec<(u8, Vec<u8>)> = Vec::new();
    out.push((IFK_SOURCE_PATH, bytes_to_vec(t.source_path.as_slice())));
    let mut v1: Vec<u8> = Vec::new();
    push_u64(&mut v1, t.source_length as u64);
    out.push((IFK_SOURCE_LENGTH, v1));
    let mut v2: Vec<u8> = Vec::new();
    push_bool(&mut v2, t.stored_in_gmk);
    out.push((IFK_STORED, v2));
    let mut v3: Vec<u8> = Vec::new();
    push_u64(&mut v3, t.export_setting as u64);
    out.push((IFK_EXPORT, v3));
    out.push((IFK_FOLDER, bytes_to_vec(t.export_custom_folder.as_slice())));
    let mut v5: Vec<u8> = Vec::new();
    push_bool(&mut v5, t.overwrite_file);
    out.push((IFK_OVERWRITE, v5));
    let mut v6: Vec<u8> = Vec::new();
    push_bool(&mut v6, t.free_memory);
    out.push((IFK_FREE, v6));
    let mut v7: Vec<u8> = Vec::new();
    push_bool(&mut v7, t.remove_at_end);
    out.push((IFK_REMOVE, v7));
    let mut v8: Vec<u8> = Vec::new();
    push_bool(&mut v8, t.data_exists);
    out.push((IFK_DATA_EXISTS, v8));
    proof {
        assert(pairs_view(out@) =~= spec_enc_included_file(t));
    }
    out
}

/// Decodes the record lines; fails on an unknown key or an ill-typed
/// value, and on nothing else.
pub fn decode_included_file(pairs: &Vec<(u8, Vec<u8>)>, path: &Vec<Vec<u8>>) -> (r: Result<IncludedFile, Error>)
    ensures
        r is Ok <==> included_file_pairs_ok(pairs_view(pairs@)),
        r is Err ==> match r->Err_0 {
            Error::UnknownKey(p2, k2) => crate::tree::path_view(p2@)
                == crate::tree::path_view(path@) && (exists|i: int|
                0 <= i < pairs_view(pairs@).len() && (#[trigger] pairs_view(pairs@)[i]).0
                    == k2 && !included_file_pair_ok(k2, pairs_view(pairs@)[i].1)),
            Error::BadValue(p2, k2) => crate::tree::path_view(p2@)
                == crate::tree::path_view(path@) && (exists|i: int|
                0 <= i < pairs_view(pairs@).len() && (#[trigger] pairs_view(pairs@)[i]).0
                    == k2 && !included_file_pair_ok(k2, pairs_view(pairs@)[i].1)),
            _ => false,
        },
        r is Ok ==> included_file_from(kv_map(pairs_view(pairs@)), &r->Ok_0),
{
    let mut f_source_path: Vec<u8> = Vec::new();
    let mut f_source_length: u32 = 0;
    let mut f_stored_in_gmk: bool = true;
    let mut f_export_setting: u32 = 0;
    let mut f_export_custom_folder: Vec<u8> = Vec::new();
    let mut f_overwrite_file: bool = false;
    let mut f_free_memory: bool = true;
    let mut f_remove_at_end: bool = false;
    let mut f_data_exists: bool = false;
    let mut i: usize = 0;
    proof {
        assert(pairs_view(pairs@).take(0) =~= Seq::<(u8, Seq<u8>)>::empty());
        assert(kv_map(pairs_view(pairs@).take(0)) == Map::<u8, Seq<u8>>::empty());
    }
    while i < pairs.len()
        invariant
            0 <= i <= pairs@.len(),
            included_file_pairs_ok(pairs_view(pairs@).take(i as int)),
            f_source_path@ == fld_bytes(kv_map(pairs_view(pairs@).take(i as int)), IFK_SOURCE_PATH),
            f_source_length == fld_u32(kv_map(pairs_view(pairs@).take(i as int)), IFK_SOURCE_LENGTH, 0),
            f_stored_in_gmk == fld_bool(kv_map(pairs_view(pairs@).take(i as int)), IFK_STORED, true),
            f_export_setting == fld_u32(kv_map(pairs_view(pairs@).take(i as int)), IFK_EXPORT, 0),
            f_export_custom_folder@ == fld_bytes(kv_map(pairs_view(pairs@).take(i as int)), IFK_FOLDER),
            f_overwrite_file == fld_bool(kv_map(pairs_view(pairs@).take(i as int)), IFK_OVERWRITE, false),
            f_free_memory == fld_bool(kv_map(pairs_view(pairs@).take(i as int)), IFK_FREE, true),
            f_remove_at_end == fld_bool(kv_map(pairs_view(pairs@).take(i as int)), IFK_REMOVE, false),
            f_data_exists == fld_bool(kv_map(pairs_view(pairs@).take(i as int)), IFK_DATA_EXISTS, false),
        decreases pairs@.len() - i,
    {
        let k = pairs[i].0;
        let ghost prefix = pairs_view(pairs@).take(i as int);
        let ghost v = pairs@[i as int].1@;
        proof {
            assert(pairs_view(pairs@).take(i + 1) =~= prefix.push((k, v)));
            lemma_kv_map_push(prefix, k, v);
            assert(pairs_view(pairs@)[i as int] == (k, v));
        }
        if k == IFK_SOURCE_PATH {
            f_source_path = bytes_to_vec(pairs[i].1.as_slice());
        } else if k == IFK_SOURCE_LENGTH {
            match parse_u32_val(pairs[i].1.as_slice()) {
                Some(n) => { f_source_length = n; },
                None => { return Err(Error::BadValue(clone_path(path), k)); },
            }
        } else if k == IFK_STORED {
            match parse_bool_val(pairs[i].1.as_slice()) {
                Some(b) => { f_stored_in_gmk = b; },
                None => { return Err(Error::BadValue(clone_path(path), k)); },
            }
        } else if k == IFK_EXPORT {
            match parse_u32_val(pairs[i].1.as_slice()) {
                Some(n) => { f_export_setting = n; },
                None => { return Err(Error::BadValue(clone_path(path), k)); },
            }
        } else if k == IFK_FOLDER {
            f_export_custom_folder = bytes_to_vec(pairs[i].1.as_slice());
        } else if k == IFK_OVERWRITE {
            match parse_bool_val(pairs[i].1.as_slice()) {
                Some(b) => { f_overwrite_file = b; },
                None => { return Err(Error::BadValue(clone_path(path), k)); },
            }
        } else if k == IFK_FREE {
            match parse_bool_val(pairs[i].1.as_slice()) {
                Some(b) => { f_free_memory = b; },
                None => { return Err(Error::BadValue(clone_path(path), k)); },
            }
        } else if k == IFK_REMOVE {
            match parse_bool_val(pairs[i].1.as_slice()) {
                Some(b) => { f_remove_at_end = b; },
                None => { return Err(Error::BadValue(clone_path(path), k)); },
            }
        } else if k == IFK_DATA_EXISTS {
            match parse_bool_val(pairs[i].1.as_slice()) {
                Some(b) => { f_data_exists = b; },
                None => { return Err(Error::BadValue(clone_path(path), k)); },
            }
        } else {
            return Err(Error::UnknownKey(clone_path(path), k));
        }
        i = i + 1;
    }
    proof {
        assert(pairs_view(pairs@).take(i as int) =~= pairs_view(pairs@));
    }
    let t = IncludedFile { file_name: Vec::new(), source_path: f_source_path, data_exists: f_data_exists, source_length: f_source_length, stored_in_gmk: f_stored_in_gmk, data: None, export_setting: f_export_setting, export_custom_folder: f_export_custom_folder, overwrite_file: f_overwrite_file, free_memory: f_free_memory, remove_at_end: f_remove_at_end };
    Ok(t)
}

/// What the encoder writes decodes back to the same record.
pub proof fn lemma_included_file_round_trip(t: &IncludedFile, t2: &IncludedFile)
    requires
        included_file_from(kv_map(spec_enc_included_file(t)), t2),
    ensures
        t2.source_path@ == t.source_path@,
        t2.source_length == t.source_length,
        t2.stored_in_gmk == t.stored_in_gmk,
        t2.export_setting == t.export_setting,
        t2.export_custom_folder@ == t.export_custom_folder@,
        t2.overwrite_file == t.overwrite_file,
        t2.free_memory == t.free_memory,
        t2.remove_at_end == t.remove_at_end,
        t2.data_exists == t.data_exists,
{
    let ps = spec_enc_included_file(t);
    let q0 = Seq::<(u8, Seq<u8>)>::empty();
    lemma_kv_map_push(q0, IFK_SOURCE_PATH, t.source_path@);
    let q1 = q0.push((IFK_SOURCE_PATH, t.source_path@));
    lemma_kv_map_push(q1, IFK_SOURCE_LENGTH, dec_of(t.source_length as nat));
    let q2 = q1.push((IFK_SOURCE_LENGTH, dec_of(t.source_length as nat)));
    lemma_kv_map_push(q2, IFK_STORED, enc_bool(t.stored_in_gmk));
    let q3 = q2.push((IFK_STORED, enc_bool(t.stored_in_gmk)));
    lemma_kv_map_push(q3, IFK_EXPORT, dec_of(t.export_setting as nat));
    let q4 = q3.push((IFK_EXPORT, dec_of(t.export_setting as nat)));
    lemma_kv_map_push(q4, IFK_FOLDER, t.export_custom_folder@);
    let q5 = q4.push((IFK_FOLDER, t.export_custom_folder@));
    lemma_kv_map_push(q5, IFK_OVERWRITE, enc_bool(t.overwrite_file));
    let q6 = q5.push((IFK_OVERWRITE, enc_bool(t.overwrite_file)));
    lemma_kv_map_push(q6, IFK_FREE, enc_bool(t.free_memory));
    let q7 = q6.push((IFK_FREE, enc_bool(t.free_memory)));
    lemma_kv_map_push(q7, IFK_REMOVE, enc_bool(t.remove_at_end));
    let q8 = q7.push((IFK_REMOVE, enc_bool(t.remove_at_end)));
    lemma_kv_map_push(q8, IFK_DATA_EXISTS, enc_bool(t.data_exists));
    let q9 = q8.push((IFK_DATA_EXISTS, enc_bool(t.data_exists)));
    assert(ps =~= q9);
    lemma_u64_round_trip(t.source_length as u64);
    lemma_bool_round_trip(t.stored_in_gmk);
    lemma_u64_round_trip(t.export_setting as u64);
    lemma_bool_round_trip(t.overwrite_file);
    lemma_bool_round_trip(t.free_memory);
    lemma_bool_round_trip(t.remove_at_end);
    lemma_bool_round_trip(t.data_exists);
}

/// The encoder's lines are well formed and well typed.
pub proof fn lemma_included_file_enc_ok(t: &IncludedFile)
    requires
        wf_included_file_record(t),
    ensures
        wf_pairs(spec_enc_included_file(t)),
        included_file_pairs_ok(spec_enc_included_file(t)),
{
    let ps = spec_enc_included_file(t);
    lemma_dec_of_digits(t.source_length as nat);
    lemma_u64_round_trip(t.source_length as u64);
    lemma_bool_round_trip(t.stored_in_gmk);
    lemma_dec_of_digits(t.export_setting as nat);
    lemma_u64_round_trip(t.export_setting as u64);
    lemma_bool_round_trip(t.overwrite_file);
    lemma_bool_round_trip(t.free_memory);
    lemma_bool_round_trip(t.remove_at_end);
    lemma_bool_round_trip(t.data_exists);
    assert forall|i: int| 0 <= i < ps.len() implies (#[trigger] ps[i]).0 != NL && no_nl(
        ps[i].1,
    ) && included_file_pair_ok(ps[i].0, ps[i].1) by {
        if i == 0 {
        }
        if i == 1 {
            lemma_digits_no_nl(dec_of(t.source_length as nat));
        }
        if i == 2 {
        }
        if i == 3 {
            lemma_digits_no_nl(dec_of(t.export_setting as nat));
        }
        if i == 4 {
        }
        if i == 5 {
        }
        if i == 6 {
        }
        if i == 7 {
        }
        if i == 8 {
        }
    }
}

// --- sprite: a sprite record; each frame is an image sidecar ---

pub const SPK_ORIGIN_X: u8 = 120;  // x
pub const SPK_ORIGIN_Y: u8 = 121;  // y
pub const SPK_SHAPE: u8 = 99;  // c
pub const SPK_ALPHA: u8 = 97;  // a
pub const SPK_SEPMASKS: u8 = 112;  // p
pub const SPK_BBOX_TYPE: u8 = 98;  // b
pub const SPK_BBOX_LEFT: u8 = 108;  // l
pub const SPK_BBOX_BOTTOM: u8 = 109;  // m
pub const SPK_BBOX_RIGHT: u8 = 114;  // r
pub const SPK_BBOX_TOP: u8 = 116;  // t
pub const SPK_FRAMES: u8 = 110;  // n

pub open spec fn sprite_pair_ok(k: u8, v: Seq<u8>) -> bool {
    if k == SPK_ORIGIN_X {
        val_ok_i32(v)
    } else if k == SPK_ORIGIN_Y {
        val_ok_i32(v)
    } else if k == SPK_SHAPE {
        val_ok_u32(v)
    } else if k == SPK_ALPHA {
        val_ok_u32(v)
    } else if k == SPK_SEPMASKS {
        val_ok_bool(v)
    } else if k == SPK_BBOX_TYPE {
        val_ok_u32(v)
    } else if k == SPK_BBOX_LEFT {
        val_ok_i32(v)
    } else if k == SPK_BBOX_BOTTOM {
        val_ok_i32(v)
    } else if k == SPK_BBOX_RIGHT {
        val_ok_i32(v)
    } else if k == SPK_BBOX_TOP {
        val_ok_i32(v)
    } else if k == SPK_FRAMES {
        val_ok_u32(v)
    } else {
        false
    }
}

pub open spec fn sprite_pairs_ok(ps: Seq<(u8, Seq<u8>)>) -> bool {
    forall|i: int| 0 <= i < ps.len() ==> sprite_pair_ok((#[trigger] ps[i]).0, ps[i].1)
}

/// The value a record file denotes: each field is its key's parsed
/// value, or the documented default where the key is absent.
pub open spec fn sprite_from(m: Map<u8, Seq<u8>>, t: &Sprite, n_frames: u32) -> bool {
    &&& t.origin_x == fld_i32(m, SPK_ORIGIN_X, 0)
    &&& t.origin_y == fld_i32(m, SPK_ORIGIN_Y, 0)
    &&& t.collision_shape == fld_u32(m, SPK_SHAPE, 0)
    &&& t.alpha_tolerance == fld_u32(m, SPK_ALPHA, 0)
    &&& t.per_frame_colliders == fld_bool(m, SPK_SEPMASKS, false)
    &&& t.bbox_type == fld_u32(m, SPK_BBOX_TYPE, 0)
    &&& t.bbox_left == fld_i32(m, SPK_BBOX_LEFT, 0)
    &&& t.bbox_bottom == fld_i32(m, SPK_BBOX_BOTTOM, 0)
    &&& t.bbox_right == fld_i32(m, SPK_BBOX_RIGHT, 0)
    &&& t.bbox_top == fld_i32(m, SPK_BBOX_TOP, 0)
    &&& n_frames == fld_u32(m, SPK_FRAMES, 0)
}

/// The record lines the encoder writes.
pub open spec fn spec_enc_sprite(t: &Sprite, n_frames: u32) -> Seq<(u8, Seq<u8>)> {
    seq![
        (SPK_ORIGIN_X, dec_of_int(t.origin_x as int)),
        (SPK_ORIGIN_Y, dec_of_int(t.origin_y as int)),
        (SPK_SHAPE, dec_of(t.collision_shape as nat)),
        (SPK_ALPHA, dec_of(t.alpha_tolerance as nat)),
        (SPK_SEPMASKS, enc_bool(t.per_frame_colliders)),
        (SPK_BBOX_TYPE, dec_of(t.bbox_type as nat)),
        (SPK_BBOX_LEFT, dec_of_int(t.bbox_left as int)),
        (SPK_BBOX_BOTTOM, dec_of_int(t.bbox_bottom as int)),
        (SPK_BBOX_RIGHT, dec_of_int(t.bbox_right as int)),
        (SPK_BBOX_TOP, dec_of_int(t.bbox_top as int)),
        (SPK_FRAMES, dec_of(n_frames as nat)),
    ]
}

/// A record the text format can carry: byte fields fit on a line.
pub open spec fn wf_sprite_record(t: &Sprite) -> bool {
    true
}

/// Encodes the record lines.
pub fn encode_sprite(t: &Sprite, n_frames: u32) -> (r: Vec<(u8, Vec<u8>)>)
    ensures
        pairs_view(r@) == spec_enc_sprite(t, n_frames),
{
    let mut out: Vec<(u8, Vec<u8>)> = Vec::new();
    let mut v0: Vec<u8> = Vec::new();
    push_i64(&mut v0, t.origin_x as i64);
    out.push((SPK_ORIGIN_X, v0));
    let mut v1: Vec<u8> = Vec::new();
    push_i64(&mut v1, t.origin_y as i64);
    out.push((SPK_ORIGIN_Y, v1));
    let mut v2: Vec<u8> = Vec::new();
    push_u64(&mut v2, t.collision_shape as u64);
    out.push((SPK_SHAPE, v2));
    let mut v3: Vec<u8> = Vec::new();
    push_u64(&mut v3, t.alpha_tolerance as u64);
    out.push((SPK_ALPHA, v3));
    let mut v4: Vec<u8> = Vec::new();
    push_bool(&mut v4, t.per_frame_colliders);
    out.push((SPK_SEPMASKS, v4));
    let mut v5: Vec<u8> = Vec::new();
    push_u64(&mut v5, t.bbox_type as u64);
    out.push((SPK_BBOX_TYPE, v5));
    let mut v6: Vec<u8> = Vec::new();
    push_i64(&mut v6, t.bbox_left as i64);
    out.push((SPK_BBOX_LEFT, v6));
    let mut v7: Vec<u8> = Vec::new();
    push_i64(&mut v7, t.bbox_bottom as i64);
    out.push((SPK_BBOX_BOTTOM, v7));
    let mut v8: Vec<u8> = Vec::new();
    push_i64(&mut v8, t.bbox_right as i64);
    out.push((SPK_BBOX_RIGHT, v8));
    let mut v9: Vec<u8> = Vec::new();
    push_i64(&mut v9, t.bbox_top as i64);
    out.push((SPK_BBOX_TOP, v9));
    let mut v10: Vec<u8> = Vec::new();
    push_u64(&mut v10, n_frames as u64);
    out.push((SPK_FRAMES, v10));
    proof {
        assert(pairs_view(out@) =~= spec_enc_sprite(t, n_frames));
    }
    out
}

/// Decodes the record lines; fails on an unknown key or an ill-typed
/// value, and on nothing else.
pub fn decode_sprite(pairs: &Vec<(u8, Vec<u8>)>, path: &Vec<Vec<u8>>) -> (r: Result<(Sprite, u32), Error>)
    ensures
        r is Ok <==> sprite_pairs_ok(pairs_view(pairs@)),
        r is Err ==> match r->Err_0 {
            Error::UnknownKey(p2, k2) => crate::tree::path_view(p2@)
                == crate::tree::path_view(path@) && (exists|i: int|
                0 <= i < pairs_view(pairs@).len() && (#[trigger] pairs_view(pairs@)[i]).0
                    == k2 && !sprite_pair_ok(k2, pairs_view(pairs@)[i].1)),
            Error::BadValue(p2, k2) => crate::tree::path_view(p2@)
                == crate::tree::path_view(path@) && (exists|i: int|
                0 <= i < pairs_view(pairs@).len() && (#[trigger] pairs_view(pairs@)[i]).0
                    == k2 && !sprite_pair_ok(k2, pairs_view(pairs@)[i].1)),
            _ => false,
        },
        r is Ok ==> sprite_from(kv_map(pairs_view(pairs@)), &r->Ok_0.0, r->Ok_0.1),
{
    let mut f_origin_x: i32 = 0;
    let mut f_origin_y: i32 = 0;
    let mut f_collision_shape: u32 = 0;
    let mut f_alpha_tolerance: u32 = 0;
    let mut f_per_frame_colliders: bool = false;
    let mut f_bbox_type: u32 = 0;
    let mut f_bbox_left: i32 = 0;
    let mut f_bbox_bottom: i32 = 0;
    let mut f_bbox_right: i32 = 0;
    let mut f_bbox_top: i32 = 0;
    let mut n_frames: u32 = 0;
    let mut i: usize = 0;
    proof {
        assert(pairs_view(pairs@).take(0) =~= Seq::<(u8, Seq<u8>)>::empty());
        assert(kv_map(pairs_view(pairs@).take(0)) == Map::<u8, Seq<u8>>::empty());
    }
    while i < pairs.len()
        invariant
            0 <= i <= pairs@.len(),
            sprite_pairs_ok(pairs_view(pairs@).take(i as int)),
            f_origin_x == fld_i32(kv_map(pairs_view(pairs@).take(i as int)), SPK_ORIGIN_X, 0),
            f_origin_y == fld_i32(kv_map(pairs_view(pairs@).take(i as int)), SPK_ORIGIN_Y, 0),
            f_collision_shape == fld_u32(kv_map(pairs_view(pairs@).take(i as int)), SPK_SHAPE, 0),
            f_alpha_tolerance == fld_u32(kv_map(pairs_view(pairs@).take(i as int)), SPK_ALPHA, 0),
            f_per_frame_colliders == fld_bool(kv_map(pairs_view(pairs@).take(i as int)), SPK_SEPMASKS, false),
            f_bbox_type == fld_u32(kv_map(pairs_view(pairs@).take(i as int)), SPK_BBOX_TYPE, 0),
            f_bbox_left == fld_i32(kv_map(pairs_view(pairs@).take(i as int)), SPK_BBOX_LEFT, 0),
            f_bbox_bottom == fld_i32(kv_map(pairs_view(pairs@).take(i as int)), SPK_BBOX_BOTTOM, 0),
            f_bbox_right == fld_i32(kv_map(pairs_view(pairs@).take(i as int)), SPK_BBOX_RIGHT, 0),
            f_bbox_top == fld_i32(kv_map(pairs_view(pairs@).take(i as int)), SPK_BBOX_TOP, 0),
            n_frames == fld_u32(kv_map(pairs_view(pairs@).take(i as int)), SPK_FRAMES, 0),
        decreases pairs@.len() - i,
    {
        let k = pairs[i].0;
        let ghost prefix = pairs_view(pairs@).take(i as int);
        let ghost v = pairs@[i as int].1@;
        proof {
            assert(pairs_view(pairs@).take(i + 1) =~= prefix.push((k, v)));
            lemma_kv_map_push(prefix, k, v);
            assert(pairs_view(pairs@)[i as int] == (k, v));
        }
        if k == SPK_ORIGIN_X {
            match parse_i32_val(pairs[i].1.as_slice()) {
                Some(n) => { f_origin_x = n; },
                None => { return Err(Error::BadValue(clone_path(path), k)); },
            }
        } else if k == SPK_ORIGIN_Y {
            match parse_i32_val(pairs[i].1.as_slice()) {
                Some(n) => { f_origin_y = n; },
                None => { return Err(Error::BadValue(clone_path(path), k)); },
            }
        } else if k == SPK_SHAPE {
            match parse_u32_val(pairs[i].1.as_slice()) {
                Some(n) => { f_collision_shape = n; },
                None => { return Err(Error::BadValue(clone_path(path), k)); },
            }
        } else if k == SPK_ALPHA {
            match parse_u32_val(pairs[i].1.as_slice()) {
                Some(n) => { f_alpha_tolerance = n; },
                None => { return Err(Error::BadValue(clone_path(path), k)); },
            }
        } else if k == SPK_SEPMASKS {
            match parse_bool_val(pairs[i].1.as_slice()) {
                Some(b) => { f_per_frame_colliders = b; },
                None => { return Err(Error::BadValue(clone_path(path), k)); },
            }
        } else if k == SPK_BBOX_TYPE {
            match parse_u32_val(pairs[i].1.as_slice()) {
                Some(n) => { f_bbox_type = n; },
                None => { return Err(Error::BadValue(clone_path(path), k)); },
            }
        } else if k == SPK_BBOX_LEFT {
            match parse_i32_val(pairs[i].1.as_slice()) {
                Some(n) => { f_bbox_left = n; },
                None => { return Err(Error::BadValue(clone_path(path), k)); },
            }
        } else if k == SPK_BBOX_BOTTOM {
            match parse_i32_val(pairs[i].1.as_slice()) {
                Some(n) => { f_bbox_bottom = n; },
                None => { return Err(Error::BadValue(clone_path(path), k)); },
            }
        } else if k == SPK_BBOX_RIGHT {
            match parse_i32_val(pairs[i].1.as_slice()) {
                Some(n) => { f_bbox_right = n; },
                None => { return Err(Error::BadValue(clone_path(path), k)); },
            }
        } else if k == SPK_BBOX_TOP {
            match parse_i32_val(pairs[i].1.as_slice()) {
                Some(n) => { f_bbox_top = n; },
                None => { return Err(Error::BadValue(clone_path(path), k)); },
            }
        } else if k == SPK_FRAMES {
            match parse_u32_val(pairs[i].1.as_slice()) {
                Some(n) => { n_frames = n; },
                None => { return Err(Error::BadValue(clone_path(path), k)); },
            }
        } else {
            return Err(Error::UnknownKey(clone_path(path), k));
        }
        i = i + 1;
    }
    proof {
        assert(pairs_view(pairs@).take(i as int) =~= pairs_view(pairs@));
    }
    let t = Sprite { origin_x: f_origin_x, origin_y: f_origin_y, collision_shape: f_collision_shape, alpha_tolerance: f_alpha_tolerance, per_frame_colliders: f_per_frame_colliders, bbox_type: f_bbox_type, bbox_left: f_bbox_left, bbox_bottom: f_bbox_bottom, bbox_right: f_bbox_right, bbox_top: f_bbox_top, frames: Vec::new() };
    Ok((t, n_frames))
}

/// What the encoder writes decodes back to the same record.
pub proof fn lemma_sprite_round_trip(t: &Sprite, n_frames: u32, t2: &Sprite, n_frames2: u32)
    requires
        sprite_from(kv_map(spec_enc_sprite(t, n_frames)), t2, n_frames2),
    ensures
        t2.origin_x == t.origin_x,
        t2.origin_y == t.origin_y,
        t2.collision_shape == t.collision_shape,
        t2.alpha_tolerance == t.alpha_tolerance,
        t2.per_frame_colliders == t.per_frame_colliders,
        t2.bbox_type == t.bbox_type,
        t2.bbox_left == t.bbox_left,
        t2.bbox_bottom == t.bbox_bottom,
        t2.bbox_right == t.bbox_right,
        t2.bbox_top == t.bbox_top,
        n_frames2 == n_frames,
{
    let ps = spec_enc_sprite(t, n_frames);
    let q0 = Seq::<(u8, Seq<u8>)>::empty();
    lemma_kv_map_push(q0, SPK_ORIGIN_X, dec_of_int(t.origin_x as int));
    let q1 = q0.push((SPK_ORIGIN_X, dec_of_int(t.origin_x as int)));
    lemma_kv_map_push(q1, SPK_ORIGIN_Y, dec_of_int(t.origin_y as int));
    let q2 = q1.push((SPK_ORIGIN_Y, dec_of_int(t.origin_y as int)));
    lemma_kv_map_push(q2, SPK_SHAPE, dec_of(t.collision_shape as nat));
    let q3 = q2.push((SPK_SHAPE, dec_of(t.collision_shape as nat)));
    lemma_kv_map_push(q3, SPK_ALPHA, dec_of(t.alpha_tolerance as nat));
    let q4 = q3.push((SPK_ALPHA, dec_of(t.alpha_tolerance as nat)));
    lemma_kv_map_push(q4, SPK_SEPMASKS, enc_bool(t.per_frame_colliders));
    let q5 = q4.push((SPK_SEPMASKS, enc_bool(t.per_frame_colliders)));
    lemma_kv_map_push(q5, SPK_BBOX_TYPE, dec_of(t.bbox_type as nat));
    let q6 = q5.push((SPK_BBOX_TYPE, dec_of(t.bbox_type as nat)));
    lemma_kv_map_push(q6, SPK_BBOX_LEFT, dec_of_int(t.bbox_left as int));
    let q7 = q6.push((SPK_BBOX_LEFT, dec_of_int(t.bbox_left as int)));
    lemma_kv_map_push(q7, SPK_BBOX_BOTTOM, dec_of_int(t.bbox_bottom as int));
    let q8 = q7.push((SPK_BBOX_BOTTOM, dec_of_int(t.bbox_bottom as int)));
    lemma_kv_map_push(q8, SPK_BBOX_RIGHT, dec_of_int(t.bbox_right as int));
    let q9 = q8.push((SPK_BBOX_RIGHT, dec_of_int(t.bbox_right as int)));
    lemma_kv_map_push(q9, SPK_BBOX_TOP, dec_of_int(t.bbox_top as int));
    let q10 = q9.push((SPK_BBOX_TOP, dec_of_int(t.bbox_top as int)));
    lemma_kv_map_push(q10, SPK_FRAMES, dec_of(n_frames as nat));
    let q11 = q10.push((SPK_FRAMES, dec_of(n_frames as nat)));
    assert(ps =~= q11);
    lemma_i64_round_trip(t.origin_x as i64);
    lemma_i64_round_trip(t.origin_y as i64);
    lemma_u64_round_trip(t.collision_shape as u64);
    lemma_u64_round_trip(t.alpha_tolerance as u64);
    lemma_bool_round_trip(t.per_frame_colliders);
    lemma_u64_round_trip(t.bbox_type as u64);
    lemma_i64_round_trip(t.bbox_left as i64);
    lemma_i64_round_trip(t.bbox_bottom as i64);
    lemma_i64_round_trip(t.bbox_right as i64);
    lemma_i64_round_trip(t.bbox_top as i64);
    lemma_u64_round_trip(n_frames as u64);
}

/// The encoder's lines are well formed and well typed.
pub proof fn lemma_sprite_enc_ok(t: &Sprite, n_frames: u32)
    ensures
        wf_pairs(spec_enc_sprite(t, n_frames)),
        sprite_pairs_ok(spec_enc_sprite(t, n_frames)),
{
    let ps = spec_enc_sprite(t, n_frames);
    lemma_dec_of_digits(t.origin_x as nat);
    if t.origin_x < 0 { lemma_dec_of_digits((-(t.origin_x as int)) as nat); }
    lemma_i64_round_trip(t.origin_x as i64);
    lemma_dec_of_digits(t.origin_y as nat);
    if t.origin_y < 0 { lemma_dec_of_digits((-(t.origin_y as int)) as nat); }
    lemma_i64_round_trip(t.origin_y as i64);
    lemma_dec_of_digits(t.collision_shape as nat);
    lemma_u64_round_trip(t.collision_shape as u64);
    lemma_dec_of_digits(t.alpha_tolerance as nat);
    lemma_u64_round_trip(t.alpha_tolerance as u64);
    lemma_bool_round_trip(t.per_frame_colliders);
    lemma_dec_of_digits(t.bbox_type as nat);
    lemma_u64_round_trip(t.bbox_type as u64);
    lemma_dec_of_digits(t.bbox_left as nat);
    if t.bbox_left < 0 { lemma_dec_of_digits((-(t.bbox_left as int)) as nat); }
    lemma_i64_round_trip(t.bbox_left as i64);
    lemma_dec_of_digits(t.bbox_bottom as nat);
    if t.bbox_bottom < 0 { lemma_dec_of_digits((-(t.bbox_bottom as int)) as nat); }
    lemma_i64_round_trip(t.bbox_bottom as i64);
    lemma_dec_of_digits(t.bbox_right as nat);
    if t.bbox_right < 0 { lemma_dec_of_digits((-(t.bbox_right as int)) as nat); }
    lemma_i64_round_trip(t.bbox_right as i64);
    lemma_dec_of_digits(t.bbox_top as nat);
    if t.bbox_top < 0 { lemma_dec_of_digits((-(t.bbox_top as int)) as nat); }
    lemma_i64_round_trip(t.bbox_top as i64);
    lemma_dec_of_digits(n_frames as nat);
    lemma_u64_round_trip(n_frames as u64);
    assert forall|i: int| 0 <= i < ps.len() implies (#[trigger] ps[i]).0 != NL && no_nl(
        ps[i].1,
    ) && sprite_pair_ok(ps[i].0, ps[i].1) by {
        if i == 0 {
            assert(no_nl(dec_of_int(t.origin_x as int))) by {
                if t.origin_x < 0 {
                    let d = dec_of((-(t.origin_x as int)) as nat);
                    assert(forall|j: int| 0 <= j < d.len() ==> #[trigger] d[j] != NL);
                    assert(forall|j: int| 1 <= j < dec_of_int(t.origin_x as int).len()
                        ==> #[trigger] dec_of_int(t.origin_x as int)[j] == d[j - 1]);
                } else {
                    lemma_digits_no_nl(dec_of(t.origin_x as nat));
                }
            }
        }
        if i == 1 {
            assert(no_nl(dec_of_int(t.origin_y as int))) by {
                if t.origin_y < 0 {
                    let d = dec_of((-(t.origin_y as int)) as nat);
                    assert(forall|j: int| 0 <= j < d.len() ==> #[trigger] d[j] != NL);
                    assert(forall|j: int| 1 <= j < dec_of_int(t.origin_y as int).len()
                        ==> #[trigger] dec_of_int(t.origin_y as int)[j] == d[j - 1]);
                } else {
                    lemma_digits_no_nl(dec_of(t.origin_y as nat));
                }
            }
        }
        if i == 2 {
            lemma_digits_no_nl(dec_of(t.collision_shape as nat));
        }
        if i == 3 {
            lemma_digits_no_nl(dec_of(t.alpha_tolerance as nat));
        }
        if i == 4 {
        }
        if i == 5 {
            lemma_digits_no_nl(dec_of(t.bbox_type as nat));
        }
        if i == 6 {
            assert(no_nl(dec_of_int(t.bbox_left as int))) by {
                if t.bbox_left < 0 {
                    let d = dec_of((-(t.bbox_left as int)) as nat);
                    assert(forall|j: int| 0 <= j < d.len() ==> #[trigger] d[j] != NL);
                    assert(forall|j: int| 1 <= j < dec_of_int(t.bbox_left as int).len()
                        ==> #[trigger] dec_of_int(t.bbox_left as int)[j] == d[j - 1]);
                } else {
                    lemma_digits_no_nl(dec_of(t.bbox_left as nat));
                }
            }
        }
        if i == 7 {
            assert(no_nl(dec_of_int(t.bbox_bottom as int))) by {
                if t.bbox_bottom < 0 {
                    let d = dec_of((-(t.bbox_bottom as int)) as nat);
                    assert(forall|j: int| 0 <= j < d.len() ==> #[trigger] d[j] != NL);
                    assert(forall|j: int| 1 <= j < dec_of_int(t.bbox_bottom as int).len()
                        ==> #[trigger] dec_of_int(t.bbox_bottom as int)[j] == d[j - 1]);
                } else {
                    lemma_digits_no_nl(dec_of(t.bbox_bottom as nat));
                }
            }
        }
        if i == 8 {
            assert(no_nl(dec_of_int(t.bbox_right as int))) by {
                if t.bbox_right < 0 {
                    let d = dec_of((-(t.bbox_right as int)) as nat);
                    assert(forall|j: int| 0 <= j < d.len() ==> #[trigger] d[j] != NL);
                    assert(forall|j: int| 1 <= j < dec_of_int(t.bbox_right as int).len()
                        ==> #[trigger] dec_of_int(t.bbox_right as int)[j] == d[j - 1]);
                } else {
                    lemma_digits_no_nl(dec_of(t.bbox_right as nat));
                }
            }
        }
        if i == 9 {
            assert(no_nl(dec_of_int(t.bbox_top as int))) by {
                if t.bbox_top < 0 {
                    let d = dec_of((-(t.bbox_top as int)) as nat);
                    assert(forall|j: int| 0 <= j < d.len() ==> #[trigger] d[j] != NL);
                    assert(forall|j: int| 1 <= j < dec_of_int(t.bbox_top as int).len()
                        ==> #[trigger] dec_of_int(t.bbox_top as int)[j] == d[j - 1]);
                } else {
                    lemma_digits_no_nl(dec_of(t.bbox_top as nat));
                }
            }
        }
        if i == 10 {
            lemma_digits_no_nl(dec_of(n_frames as nat));
        }
    }
}

// --- background: a background record; the image is a sidecar ---

pub const BK_TILESET: u8 = 116;  // t
pub const BK_TILE_W: u8 = 119;  // w
pub const BK_TILE_H: u8 = 104;  // h
pub const BK_H_OFFSET: u8 = 120;  // x
pub const BK_V_OFFSET: u8 = 121;  // y
pub const BK_H_SEP: u8 = 117;  // u
pub const BK_V_SEP: u8 = 118;  // v

pub open spec fn background_pair_ok(k: u8, v: Seq<u8>) -> bool {
    if k == BK_TILESET {
        val_ok_bool(v)
    } else if k == BK_TILE_W {
        val_ok_u32(v)
    } else if k == BK_TILE_H {
        val_ok_u32(v)
    } else if k == BK_H_OFFSET {
        val_ok_u32(v)
    } else if k == BK_V_OFFSET {
        val_ok_u32(v)
    } else if k == BK_H_SEP {
        val_ok_u32(v)
    } else if k == BK_V_SEP {
        val_ok_u32(v)
    } else {
        false
    }
}

pub open spec fn background_pairs_ok(ps: Seq<(u8, Seq<u8>)>) -> bool {
    forall|i: int| 0 <= i < ps.len() ==> background_pair_ok((#[trigger] ps[i]).0, ps[i].1)
}

/// The value a record file denotes: each field is its key's parsed
/// value, or the documented default where the key is absent.
pub open spec fn background_from(m: Map<u8, Seq<u8>>, t: &Background) -> bool {
    &&& t.is_tileset == fld_bool(m, BK_TILESET, false)
    &&& t.tile_width == fld_u32(m, BK_TILE_W, 16)
    &&& t.tile_height == fld_u32(m, BK_TILE_H, 16)
    &&& t.h_offset == fld_u32(m, BK_H_OFFSET, 0)
    &&& t.v_offset == fld_u32(m, BK_V_OFFSET, 0)
    &&& t.h_sep == fld_u32(m, BK_H_SEP, 0)
    &&& t.v_sep == fld_u32(m, BK_V_SEP, 0)
}

/// The record lines the encoder writes.
pub open spec fn spec_enc_background(t: &Background) -> Seq<(u8, Seq<u8>)> {
    seq![
        (BK_TILESET, enc_bool(t.is_tileset)),
        (BK_TILE_W, dec_of(t.tile_width as nat)),
        (BK_TILE_H, dec_of(t.tile_height as nat)),
        (BK_H_OFFSET, dec_of(t.h_offset as nat)),
        (BK_V_OFFSET, dec_of(t.v_offset as nat)),
        (BK_H_SEP, dec_of(t.h_sep as nat)),
        (BK_V_SEP, dec_of(t.v_sep as nat)),
    ]
}

/// A record the text format can carry: byte fields fit on a line.
pub open spec fn wf_background_record(t: &Background) -> bool {
    true
}

/// Encodes the record lines.
pub fn encode_background(t: &Background) -> (r: Vec<(u8, Vec<u8>)>)
    ensures
        pairs_view(r@) == spec_enc_background(t),
{
    let mut out: Vec<(u8, Vec<u8>)> = Vec::new();
    let mut v0: Vec<u8> = Vec::new();
    push_bool(&mut v0, t.is_tileset);
    out.push((BK_TILESET, v0));
    let mut v1: Vec<u8> = Vec::new();
    push_u64(&mut v1, t.tile_width as u64);
    out.push((BK_TILE_W, v1));
    let mut v2: Vec<u8> = Vec::new();
    push_u64(&mut v2, t.tile_height as u64);
    out.push((BK_TILE_H, v2));
    let mut v3: Vec<u8> = Vec::new();
    push_u64(&mut v3, t.h_offset as u64);
    out.push((BK_H_OFFSET, v3));
    let mut v4: Vec<u8> = Vec::new();
    push_u64(&mut v4, t.v_offset as u64);
    out.push((BK_V_OFFSET, v4));
    let mut v5: Vec<u8> = Vec::new();
    push_u64(&mut v5, t.h_sep as u64);
    out.push((BK_H_SEP, v5));
    let mut v6: Vec<u8> = Vec::new();
    push_u64(&mut v6, t.v_sep as u64);
    out.push((BK_V_SEP, v6));
    proof {
        assert(pairs_view(out@) =~= spec_enc_background(t));
    }
    out
}

/// Decodes the record lines; fails on an unknown key or an ill-typed
/// value, and on nothing else.
pub fn decode_background(pairs: &Vec<(u8, Vec<u8>)>, path: &Vec<Vec<u8>>) -> (r: Result<Background, Error>)
    ensures
        r is Ok <==> background_pairs_ok(pairs_view(pairs@)),
        r is Err ==> match r->Err_0 {
            Error::UnknownKey(p2, k2) => crate::tree::path_view(p2@)
                == crate::tree::path_view(path@) && (exists|i: int|
                0 <= i < pairs_view(pairs@).len() && (#[trigger] pairs_view(pairs@)[i]).0
                    == k2 && !background_pair_ok(k2, pairs_view(pairs@)[i].1)),
            Error::BadValue(p2, k2) => crate::tree::path_view(p2@)
                == crate::tree::path_view(path@) && (exists|i: int|
                0 <= i < pairs_view(pairs@).len() && (#[trigger] pairs_view(pairs@)[i]).0
                    == k2 && !background_pair_ok(k2, pairs_view(pairs@)[i].1)),
            _ => false,
        },
        r is Ok ==> background_from(kv_map(pairs_view(pairs@)), &r->Ok_0),
{
    let mut f_is_tileset: bool = false;
    let mut f_tile_width: u32 = 16;
    let mut f_tile_height: u32 = 16;
    let mut f_h_offset: u32 = 0;
    let mut f_v_offset: u32 = 0;
    let mut f_h_sep: u32 = 0;
    let mut f_v_sep: u32 = 0;
    let mut i: usize = 0;
    proof {
        assert(pairs_view(pairs@).take(0) =~= Seq::<(u8, Seq<u8>)>::empty());
        assert(kv_map(pairs_view(pairs@).take(0)) == Map::<u8, Seq<u8>>::empty());
    }
    while i < pairs.len()
        invariant
            0 <= i <= pairs@.len(),
            background_pairs_ok(pairs_view(pairs@).take(i as int)),
            f_is_tileset == fld_bool(kv_map(pairs_view(pairs@).take(i as int)), BK_TILESET, false),
            f_tile_width == fld_u32(kv_map(pairs_view(pairs@).take(i as int)), BK_TILE_W, 16),
            f_tile_height == fld_u32(kv_map(pairs_view(pairs@).take(i as int)), BK_TILE_H, 16),
            f_h_offset == fld_u32(kv_map(pairs_view(pairs@).take(i as int)), BK_H_OFFSET, 0),
            f_v_offset == fld_u32(kv_map(pairs_view(pairs@).take(i as int)), BK_V_OFFSET, 0),
            f_h_sep == fld_u32(kv_map(pairs_view(pairs@).take(i as int)), BK_H_SEP, 0),
            f_v_sep == fld_u32(kv_map(pairs_view(pairs@).take(i as int)), BK_V_SEP, 0),
        decreases pairs@.len() - i,
    {
        let k = pairs[i].0;
        let ghost prefix = pairs_view(pairs@).take(i as int);
        let ghost v = pairs@[i as int].1@;
        proof {
            assert(pairs_view(pairs@).take(i + 1) =~= prefix.push((k, v)));
            lemma_kv_map_push(prefix, k, v);
            assert(pairs_view(pairs@)[i as int] == (k, v));
        }
        if k == BK_TILESET {
            match parse_bool_val(pairs[i].1.as_slice()) {
                Some(b) => { f_is_tileset = b; },
                None => { return Err(Error::BadValue(clone_path(path), k)); },
            }
        } else if k == BK_TILE_W {
            match parse_u32_val(pairs[i].1.as_slice()) {
                Some(n) => { f_tile_width = n; },
                None => { return Err(Error::BadValue(clone_path(path), k)); },
            }
        } else if k == BK_TILE_H {
            match parse_u32_val(pairs[i].1.as_slice()) {
                Some(n) => { f_tile_height = n; },
                None => { return Err(Error::BadValue(clone_path(path), k)); },
            }
        } else if k == BK_H_OFFSET {
            match parse_u32_val(pairs[i].1.as_slice()) {
                Some(n) => { f_h_offset = n; },
                None => { return Err(Error::BadValue(clone_path(path), k)); },
            }
        } else if k == BK_V_OFFSET {
            match parse_u32_val(pairs[i].1.as_slice()) {
                Some(n) => { f_v_offset = n; },
                None => { return Err(Error::BadValue(clone_path(path), k)); },
            }
        } else if k == BK_H_SEP {
            match parse_u32_val(pairs[i].1.as_slice()) {
                Some(n) => { f_h_sep = n; },
                None => { return Err(Error::BadValue(clone_path(path), k)); },
            }
        } else if k == BK_V_SEP {
            match parse_u32_val(pairs[i].1.as_slice()) {
                Some(n) => { f_v_sep = n; },
                None => { return Err(Error::BadValue(clone_path(path), k)); },
            }
        } else {
            return Err(Error::UnknownKey(clone_path(path), k));
        }
        i = i + 1;
    }
    proof {
        assert(pairs_view(pairs@).take(i as int) =~= pairs_view(pairs@));
    }
    let t = Background { frame: Frame { width: 0, height: 0, data: Vec::new() }, is_tileset: f_is_tileset, tile_width: f_tile_width, tile_height: f_tile_height, h_offset: f_h_offset, v_offset: f_v_offset, h_sep: f_h_sep, v_sep: f_v_sep };
    Ok(t)
}

/// What the encoder writes decodes back to the same record.
pub proof fn lemma_background_round_trip(t: &Background, t2: &Background)
    requires
        background_from(kv_map(spec_enc_background(t)), t2),
    ensures
        t2.is_tileset == t.is_tileset,
        t2.tile_width == t.tile_width,
        t2.tile_height == t.tile_height,
        t2.h_offset == t.h_offset,
        t2.v_offset == t.v_offset,
        t2.h_sep == t.h_sep,
        t2.v_sep == t.v_sep,
{
    let ps = spec_enc_background(t);
    let q0 = Seq::<(u8, Seq<u8>)>::empty();
    lemma_kv_map_push(q0, BK_TILESET, enc_bool(t.is_tileset));
    let q1 = q0.push((BK_TILESET, enc_bool(t.is_tileset)));
    lemma_kv_map_push(q1, BK_TILE_W, dec_of(t.tile_width as nat));
    let q2 = q1.push((BK_TILE_W, dec_of(t.tile_width as nat)));
    lemma_kv_map_push(q2, BK_TILE_H, dec_of(t.tile_height as nat));
    let q3 = q2.push((BK_TILE_H, dec_of(t.tile_height as nat)));
    lemma_kv_map_push(q3, BK_H_OFFSET, dec_of(t.h_offset as nat));
    let q4 = q3.push((BK_H_OFFSET, dec_of(t.h_offset as nat)));
    lemma_kv_map_push(q4, BK_V_OFFSET, dec_of(t.v_offset as nat));
    let q5 = q4.push((BK_V_OFFSET, dec_of(t.v_offset as nat)));
    lemma_kv_map_push(q5, BK_H_SEP, dec_of(t.h_sep as nat));
    let q6 = q5.push((BK_H_SEP, dec_of(t.h_sep as nat)));
    lemma_kv_map_push(q6, BK_V_SEP, dec_of(t.v_sep as nat));
    let q7 = q6.push((BK_V_SEP, dec_of(t.v_sep as nat)));
    assert(ps =~= q7);
    lemma_bool_round_trip(t.is_tileset);
    lemma_u64_round_trip(t.tile_width as u64);
    lemma_u64_round_trip(t.tile_height as u64);
    lemma_u64_round_trip(t.h_offset as u64);
    lemma_u64_round_trip(t.v_offset as u64);
    lemma_u64_round_trip(t.h_sep as u64);
    lemma_u64_round_trip(t.v_sep as u64);
}

/// The encoder's lines are well formed and well typed.
pub proof fn lemma_background_enc_ok(t: &Background)
    ensures
        wf_pairs(spec_enc_background(t)),
        background_pairs_ok(spec_enc_background(t)),
{
    let ps = spec_enc_background(t);
    lemma_bool_round_trip(t.is_tileset);
    lemma_dec_of_digits(t.tile_width as nat);
    lemma_u64_round_trip(t.tile_width as u64);
    lemma_dec_of_digits(t.tile_height as nat);
    lemma_u64_round_trip(t.tile_height as u64);
    lemma_dec_of_digits(t.h_offset as nat);
    lemma_u64_round_trip(t.h_offset as u64);
    lemma_dec_of_digits(t.v_offset as nat);
    lemma_u64_round_trip(t.v_offset as u64);
    lemma_dec_of_digits(t.h_sep as nat);
    lemma_u64_round_trip(t.h_sep as u64);
    lemma_dec_of_digits(t.v_sep as nat);
    lemma_u64_round_trip(t.v_sep as u64);
    assert forall|i: int| 0 <= i < ps.len() implies (#[trigger] ps[i]).0 != NL && no_nl(
        ps[i].1,
    ) && background_pair_ok(ps[i].0, ps[i].1) by {
        if i == 0 {
        }
        if i == 1 {
            lemma_digits_no_nl(dec_of(t.tile_width as nat));
        }
        if i == 2 {
            lemma_digits_no_nl(dec_of(t.tile_height as nat));
        }
        if i == 3 {
            lemma_digits_no_nl(dec_of(t.h_offset as nat));
        }
        if i == 4 {
            lemma_digits_no_nl(dec_of(t.v_offset as nat));
        }
        if i == 5 {
            lemma_digits_no_nl(dec_of(t.h_sep as nat));
        }
        if i == 6 {
            lemma_digits_no_nl(dec_of(t.v_sep as nat));
        }
    }
}

// --- path: a path record; the room shown behind the path editor is referenced by name ---

pub const PK_CONNECTION: u8 = 99;  // c
pub const PK_CLOSED: u8 = 111;  // o
pub const PK_PRECISION: u8 = 112;  // p
pub const PK_ROOM: u8 = 114;  // r
pub const PK_SNAP_X: u8 = 120;  // x
pub const PK_SNAP_Y: u8 = 121;  // y
pub const PK_POINTS: u8 = 110;  // n

pub open spec fn path_pair_ok(k: u8, v: Seq<u8>) -> bool {
    if k == PK_CONNECTION {
        val_ok_u32(v)
    } else if k == PK_CLOSED {
        val_ok_bool(v)
    } else if k == PK_PRECISION {
        val_ok_u32(v)
    } else if k == PK_ROOM {
        true
    } else if k == PK_SNAP_X {
        val_ok_u32(v)
    } else if k == PK_SNAP_Y {
        val_ok_u32(v)
    } else if k == PK_POINTS {
        val_ok_u32(v)
    } else {
        false
    }
}

pub open spec fn path_pairs_ok(ps: Seq<(u8, Seq<u8>)>) -> bool {
    forall|i: int| 0 <= i < ps.len() ==> path_pair_ok((#[trigger] ps[i]).0, ps[i].1)
}

/// The value a record file denotes: each field is its key's parsed
/// value, or the documented default where the key is absent.
pub open spec fn path_from(m: Map<u8, Seq<u8>>, t: &Path, room_ref: Seq<u8>, n_points: u32) -> bool {
    &&& t.connection == fld_u32(m, PK_CONNECTION, 0)
    &&& t.closed == fld_bool(m, PK_CLOSED, true)
    &&& t.precision == fld_u32(m, PK_PRECISION, 4)
    &&& t.snap_x == fld_u32(m, PK_SNAP_X, 16)
    &&& t.snap_y == fld_u32(m, PK_SNAP_Y, 16)
    &&& room_ref == fld_bytes(m, PK_ROOM)
    &&& n_points == fld_u32(m, PK_POINTS, 0)
}

/// The record lines the encoder writes.
pub open spec fn spec_enc_path(t: &Path, room_ref: Seq<u8>, n_points: u32) -> Seq<(u8, Seq<u8>)> {
    seq![
        (PK_CONNECTION, dec_of(t.connection as nat)),
        (PK_CLOSED, enc_bool(t.closed)),
        (PK_PRECISION, dec_of(t.precision as nat)),
        (PK_ROOM, room_ref),
        (PK_SNAP_X, dec_of(t.snap_x as nat)),
        (PK_SNAP_Y, dec_of(t.snap_y as nat)),
        (PK_POINTS, dec_of(n_points as nat)),
    ]
}

/// A record the text format can carry: byte fields fit on a line.
pub open spec fn wf_path_record(t: &Path) -> bool {
    true
}

/// Encodes the record lines.
pub fn encode_path(t: &Path, room_ref: &Vec<u8>, n_points: u32) -> (r: Vec<(u8, Vec<u8>)>)
    ensures
        pairs_view(r@) == spec_enc_path(t, room_ref@, n_points),
{
    let mut out: Vec<(u8, Vec<u8>)> = Vec::new();
    let mut v0: Vec<u8> = Vec::new();
    push_u64(&mut v0, t.connection as u64);
    out.push((PK_CONNECTION, v0));
    let mut v1: Vec<u8> = Vec::new();
    push_bool(&mut v1, t.closed);
    out.push((PK_CLOSED, v1));
    let mut v2: Vec<u8> = Vec::new();
    push_u64(&mut v2, t.precision as u64);
    out.push((PK_PRECISION, v2));
    out.push((PK_ROOM, bytes_to_vec(room_ref.as_slice())));
    let mut v4: Vec<u8> = Vec::new();
    push_u64(&mut v4, t.snap_x as u64);
    out.push((PK_SNAP_X, v4));
    let mut v5: Vec<u8> = Vec::new();
    push_u64(&mut v5, t.snap_y as u64);
    out.push((PK_SNAP_Y, v5));
    let mut v6: Vec<u8> = Vec::new();
    push_u64(&mut v6, n_points as u64);
    out.push((PK_POINTS, v6));
    proof {
        assert(pairs_view(out@) =~= spec_enc_path(t, room_ref@, n_points));
    }
    out
}

/// Decodes the record lines; fails on an unknown key or an ill-typed
/// value, and on nothing else.
pub fn decode_path(pairs: &Vec<(u8, Vec<u8>)>, path: &Vec<Vec<u8>>) -> (r: Result<(Path, Vec<u8>, u32), Error>)
    ensures
        r is Ok <==> path_pairs_ok(pairs_view(pairs@)),
        r is Err ==> match r->Err_0 {
            Error::UnknownKey(p2, k2) => crate::tree::path_view(p2@)
                == crate::tree::path_view(path@) && (exists|i: int|
                0 <= i < pairs_view(pairs@).len() && (#[trigger] pairs_view(pairs@)[i]).0
                    == k2 && !path_pair_ok(k2, pairs_view(pairs@)[i].1)),
            Error::BadValue(p2, k2) => crate::tree::path_view(p2@)
                == crate::tree::path_view(path@) && (exists|i: int|
                0 <= i < pairs_view(pairs@).len() && (#[trigger] pairs_view(pairs@)[i]).0
                    == k2 && !path_pair_ok(k2, pairs_view(pairs@)[i].1)),
            _ => false,
        },
        r is Ok ==> path_from(kv_map(pairs_view(pairs@)), &r->Ok_0.0, r->Ok_0.1@, r->Ok_0.2),
{
    let mut f_connection: u32 = 0;
    let mut f_closed: bool = true;
    let mut f_precision: u32 = 4;
    let mut f_snap_x: u32 = 16;
    let mut f_snap_y: u32 = 16;
    let mut room_ref: Vec<u8> = Vec::new();
    let mut n_points: u32 = 0;
    let mut i: usize = 0;
    proof {
        assert(pairs_view(pairs@).take(0) =~= Seq::<(u8, Seq<u8>)>::empty());
        assert(kv_map(pairs_view(pairs@).take(0)) == Map::<u8, Seq<u8>>::empty());
    }
    while i < pairs.len()
        invariant
            0 <= i <= pairs@.len(),
            path_pairs_ok(pairs_view(pairs@).take(i as int)),
            f_connection == fld_u32(kv_map(pairs_view(pairs@).take(i as int)), PK_CONNECTION, 0),
            f_closed == fld_bool(kv_map(pairs_view(pairs@).take(i as int)), PK_CLOSED, true),
            f_precision == fld_u32(kv_map(pairs_view(pairs@).take(i as int)), PK_PRECISION, 4),
            f_snap_x == fld_u32(kv_map(pairs_view(pairs@).take(i as int)), PK_SNAP_X, 16),
            f_snap_y == fld_u32(kv_map(pairs_view(pairs@).take(i as int)), PK_SNAP_Y, 16),
            room_ref@ == fld_bytes(kv_map(pairs_view(pairs@).take(i as int)), PK_ROOM),
            n_points == fld_u32(kv_map(pairs_view(pairs@).take(i as int)), PK_POINTS, 0),
        decreases pairs@.len() - i,
    {
        let k = pairs[i].0;
        let ghost prefix = pairs_view(pairs@).take(i as int);
        let ghost v = pairs@[i as int].1@;
        proof {
            assert(pairs_view(pairs@).take(i + 1) =~= prefix.push((k, v)));
            lemma_kv_map_push(prefix, k, v);
            assert(pairs_view(pairs@)[i as int] == (k, v));
        }
        if k == PK_CONNECTION {
            match parse_u32_val(pairs[i].1.as_slice()) {
                Some(n) => { f_connection = n; },
                None => { return Err(Error::BadValue(clone_path(path), k)); },
            }
        } else if k == PK_CLOSED {
            match parse_bool_val(pairs[i].1.as_slice()) {
                Some(b) => { f_closed = b; },
                None => { return Err(Error::BadValue(clone_path(path), k)); },
            }
        } else if k == PK_PRECISION {
            match parse_u32_val(pairs[i].1.as_slice()) {
                Some(n) => { f_precision = n; },
                None => { return Err(Error::BadValue(clone_path(path), k)); },
            }
        } else if k == PK_ROOM {
            room_ref = bytes_to_vec(pairs[i].1.as_slice());
        } else if k == PK_SNAP_X {
            match parse_u32_val(pairs[i].1.as_slice()) {
                Some(n) => { f_snap_x = n; },
                None => { return Err(Error::BadValue(clone_path(path), k)); },
            }
        } else if k == PK_SNAP_Y {
            match parse_u32_val(pairs[i].1.as_slice()) {
                Some(n) => { f_snap_y = n; },
                None => { return Err(Error::BadValue(clone_path(path), k)); },
            }
        } else if k == PK_POINTS {
            match parse_u32_val(pairs[i].1.as_slice()) {
                Some(n) => { n_points = n; },
                None => { return Err(Error::BadValue(clone_path(path), k)); },
            }
        } else {
            return Err(Error::UnknownKey(clone_path(path), k));
        }
        i = i + 1;
    }
    proof {
        assert(pairs_view(pairs@).take(i as int) =~= pairs_view(pairs@));
    }
    let t = Path { points: Vec::new(), connection: f_connection, closed: f_closed, precision: f_precision, path_editor_room_background: -1, snap_x: f_snap_x, snap_y: f_snap_y };
    Ok((t, room_ref, n_points))
}

/// What the encoder writes decodes back to the same record.
pub proof fn lemma_path_round_trip(t: &Path, room_ref: Seq<u8>, n_points: u32, t2: &Path, room_ref2: Seq<u8>, n_points2: u32)
    requires
        path_from(kv_map(spec_enc_path(t, room_ref, n_points)), t2, room_ref2, n_points2),
    ensures
        t2.connection == t.connection,
        t2.closed == t.closed,
        t2.precision == t.precision,
        t2.snap_x == t.snap_x,
        t2.snap_y == t.snap_y,
        room_ref2 == room_ref,
        n_points2 == n_points,
{
    let ps = spec_enc_path(t, room_ref, n_points);
    let q0 = Seq::<(u8, Seq<u8>)>::empty();
    lemma_kv_map_push(q0, PK_CONNECTION, dec_of(t.connection as nat));
    let q1 = q0.push((PK_CONNECTION, dec_of(t.connection as nat)));
    lemma_kv_map_push(q1, PK_CLOSED, enc_bool(t.closed));
    let q2 = q1.push((PK_CLOSED, enc_bool(t.closed)));
    lemma_kv_map_push(q2, PK_PRECISION, dec_of(t.precision as nat));
    let q3 = q2.push((PK_PRECISION, dec_of(t.precision as nat)));
    lemma_kv_map_push(q3, PK_ROOM, room_ref);
    let q4 = q3.push((PK_ROOM, room_ref));
    lemma_kv_map_push(q4, PK_SNAP_X, dec_of(t.snap_x as nat));
    let q5 = q4.push((PK_SNAP_X, dec_of(t.snap_x as nat)));
    lemma_kv_map_push(q5, PK_SNAP_Y, dec_of(t.snap_y as nat));
    let q6 = q5.push((PK_SNAP_Y, dec_of(t.snap_y as nat)));
    lemma_kv_map_push(q6, PK_POINTS, dec_of(n_points as nat));
    let q7 = q6.push((PK_POINTS, dec_of(n_points as nat)));
    assert(ps =~= q7);
    lemma_u64_round_trip(t.connection as u64);
    lemma_bool_round_trip(t.closed);
    lemma_u64_round_trip(t.precision as u64);
    lemma_u64_round_trip(t.snap_x as u64);
    lemma_u64_round_trip(t.snap_y as u64);
    lemma_u64_round_trip(n_points as u64);
}

/// The encoder's lines are well formed and well typed.
pub proof fn lemma_path_enc_ok(t: &Path, room_ref: Seq<u8>, n_points: u32)
    requires
        no_nl(room_ref),
    ensures
        wf_pairs(spec_enc_path(t, room_ref, n_points)),
        path_pairs_ok(spec_enc_path(t, room_ref, n_points)),
{
    let ps = spec_enc_path(t, room_ref, n_points);
    lemma_dec_of_digits(t.connection as nat);
    lemma_u64_round_trip(t.connection as u64);
    lemma_bool_round_trip(t.closed);
    lemma_dec_of_digits(t.precision as nat);
    lemma_u64_round_trip(t.precision as u64);
    lemma_dec_of_digits(t.snap_x as nat);
    lemma_u64_round_trip(t.snap_x as u64);
    lemma_dec_of_digits(t.snap_y as nat);
    lemma_u64_round_trip(t.snap_y as u64);
    lemma_dec_of_digits(n_points as nat);
    lemma_u64_round_trip(n_points as u64);
    assert forall|i: int| 0 <= i < ps.len() implies (#[trigger] ps[i]).0 != NL && no_nl(
        ps[i].1,
    ) && path_pair_ok(ps[i].0, ps[i].1) by {
        if i == 0 {
            lemma_digits_no_nl(dec_of(t.connection as nat));
        }
        if i == 1 {
        }
        if i == 2 {
            lemma_digits_no_nl(dec_of(t.precision as nat));
        }
        if i == 3 {
        }
        if i == 4 {
            lemma_digits_no_nl(dec_of(t.snap_x as nat));
        }
        if i == 5 {
            lemma_digits_no_nl(dec_of(t.snap_y as nat));
        }
        if i == 6 {
            lemma_digits_no_nl(dec_of(n_points as nat));
        }
    }
}

// --- path point: one point of a path ---

pub const PPK_X: u8 = 120;  // x
pub const PPK_Y: u8 = 121;  // y
pub const PPK_SPEED: u8 = 115;  // s

pub open spec fn path_point_pair_ok(k: u8, v: Seq<u8>) -> bool {
    if k == PPK_X {
        val_ok_u64(v)
    } else if k == PPK_Y {
        val_ok_u64(v)
    } else if k == PPK_SPEED {
        val_ok_u64(v)
    } else {
        false
    }
}

pub open spec fn path_point_pairs_ok(ps: Seq<(u8, Seq<u8>)>) -> bool {
    forall|i: int| 0 <= i < ps.len() ==> path_point_pair_ok((#[trigger] ps[i]).0, ps[i].1)
}

/// The value a record file denotes: each field is its key's parsed
/// value, or the documented default where the key is absent.
pub open spec fn path_point_from(m: Map<u8, Seq<u8>>, t: &PathPoint) -> bool {
    &&& t.x.bits == fld_u64(m, PPK_X, REAL_ZERO_BITS)
    &&& t.y.bits == fld_u64(m, PPK_Y, REAL_ZERO_BITS)
    &&& t.speed.bits == fld_u64(m, PPK_SPEED, REAL_ZERO_BITS)
}

/// The record lines the encoder writes.
pub open spec fn spec_enc_path_point(t: &PathPoint) -> Seq<(u8, Seq<u8>)> {
    seq![
        (PPK_X, dec_of(t.x.bits as nat)),
        (PPK_Y, dec_of(t.y.bits as nat)),
        (PPK_SPEED, dec_of(t.speed.bits as nat)),
    ]
}

/// A record the text format can carry: byte fields fit on a line.
pub open spec fn wf_path_point_record(t: &PathPoint) -> bool {
    true
}

/// Encodes the record lines.
pub fn encode_path_point(t: &PathPoint) -> (r: Vec<(u8, Vec<u8>)>)
    ensures
        pairs_view(r@) == spec_enc_path_point(t),
{
    let mut out: Vec<(u8, Vec<u8>)> = Vec::new();
    let mut v0: Vec<u8> = Vec::new();
    push_u64(&mut v0, t.x.bits);
    out.push((PPK_X, v0));
    let mut v1: Vec<u8> = Vec::new();
    push_u64(&mut v1, t.y.bits);
    out.push((PPK_Y, v1));
    let mut v2: Vec<u8> = Vec::new();
    push_u64(&mut v2, t.speed.bits);
    out.push((PPK_SPEED, v2));
    proof {
        assert(pairs_view(out@) =~= spec_enc_path_point(t));
    }
    out
}

/// Decodes the record lines; fails on an unknown key or an ill-typed
/// value, and on nothing else.
pub fn decode_path_point(pairs: &Vec<(u8, Vec<u8>)>, path: &Vec<Vec<u8>>) -> (r: Result<PathPoint, Error>)
    ensures
        r is Ok <==> path_point_pairs_ok(pairs_view(pairs@)),
        r is Err ==> match r->Err_0 {
            Error::UnknownKey(p2, k2) => crate::tree::path_view(p2@)
                == crate::tree::path_view(path@) && (exists|i: int|
                0 <= i < pairs_view(pairs@).len() && (#[trigger] pairs_view(pairs@)[i]).0
                    == k2 && !path_point_pair_ok(k2, pairs_view(pairs@)[i].1)),
            Error::BadValue(p2, k2) => crate::tree::path_view(p2@)
                == crate::tree::path_view(path@) && (exists|i: int|
                0 <= i < pairs_view(pairs@).len() && (#[trigger] pairs_view(pairs@)[i]).0
                    == k2 && !path_point_pair_ok(k2, pairs_view(pairs@)[i].1)),
            _ => false,
        },
        r is Ok ==> path_point_from(kv_map(pairs_view(pairs@)), &r->Ok_0),
{
    let mut f_x: u64 = REAL_ZERO_BITS;
    let mut f_y: u64 = REAL_ZERO_BITS;
    let mut f_speed: u64 = REAL_ZERO_BITS;
    let mut i: usize = 0;
    proof {
        assert(pairs_view(pairs@).take(0) =~= Seq::<(u8, Seq<u8>)>::empty());
        assert(kv_map(pairs_view(pairs@).take(0)) == Map::<u8, Seq<u8>>::empty());
    }
    while i < pairs.len()
        invariant
            0 <= i <= pairs@.len(),
            path_point_pairs_ok(pairs_view(pairs@).take(i as int)),
            f_x == fld_u64(kv_map(pairs_view(pairs@).take(i as int)), PPK_X, REAL_ZERO_BITS),
            f_y == fld_u64(kv_map(pairs_view(pairs@).take(i as int)), PPK_Y, REAL_ZERO_BITS),
            f_speed == fld_u64(kv_map(pairs_view(pairs@).take(i as int)), PPK_SPEED, REAL_ZERO_BITS),
        decreases pairs@.len() - i,
    {
        let k = pairs[i].0;
        let ghost prefix = pairs_view(pairs@).take(i as int);
        let ghost v = pairs@[i as int].1@;
        proof {
            assert(pairs_view(pairs@).take(i + 1) =~= prefix.push((k, v)));
            lemma_kv_map_push(prefix, k, v);
            assert(pairs_view(pairs@)[i as int] == (k, v));
        }
        if k == PPK_X {
            match parse_u64_val(pairs[i].1.as_slice()) {
                Some(n) => { f_x = n; },
                None => { return Err(Error::BadValue(clone_path(path), k)); },
            }
        } else if k == PPK_Y {
            match parse_u64_val(pairs[i].1.as_slice()) {
                Some(n) => { f_y = n; },
                None => { return Err(Error::BadValue(clone_path(path), k)); },
            }
        } else if k == PPK_SPEED {
            match parse_u64_val(pairs[i].1.as_slice()) {
                Some(n) => { f_speed = n; },
                None => { return Err(Error::BadValue(clone_path(path), k)); },
            }
        } else {
            return Err(Error::UnknownKey(clone_path(path), k));
        }
        i = i + 1;
    }
    proof {
        assert(pairs_view(pairs@).take(i as int) =~= pairs_view(pairs@));
    }
    let t = PathPoint { x: Real { bits: f_x }, y: Real { bits: f_y }, speed: Real { bits: f_speed } };
    Ok(t)
}

/// What the encoder writes decodes back to the same record.
pub proof fn lemma_path_point_round_trip(t: &PathPoint, t2: &PathPoint)
    requires
        path_point_from(kv_map(spec_enc_path_point(t)), t2),
    ensures
        t2.x.bits == t.x.bits,
        t2.y.bits == t.y.bits,
        t2.speed.bits == t.speed.bits,
{
    let ps = spec_enc_path_point(t);
    let q0 = Seq::<(u8, Seq<u8>)>::empty();
    lemma_kv_map_push(q0, PPK_X, dec_of(t.x.bits as nat));
    let q1 = q0.push((PPK_X, dec_of(t.x.bits as nat)));
    lemma_kv_map_push(q1, PPK_Y, dec_of(t.y.bits as nat));
    let q2 = q1.push((PPK_Y, dec_of(t.y.bits as nat)));
    lemma_kv_map_push(q2, PPK_SPEED, dec_of(t.speed.bits as nat));
    let q3 = q2.push((PPK_SPEED, dec_of(t.speed.bits as nat)));
    assert(ps =~= q3);
    lemma_u64_round_trip(t.x.bits);
    lemma_u64_round_trip(t.y.bits);
    lemma_u64_round_trip(t.speed.bits);
}

/// The encoder's lines are well formed and well typed.
pub proof fn lemma_path_point_enc_ok(t: &PathPoint)
    ensures
        wf_pairs(spec_enc_path_point(t)),
        path_point_pairs_ok(spec_enc_path_point(t)),
{
    let ps = spec_enc_path_point(t);
    lemma_dec_of_digits(t.x.bits as nat);
    lemma_u64_round_trip(t.x.bits);
    lemma_dec_of_digits(t.y.bits as nat);
    lemma_u64_round_trip(t.y.bits);
    lemma_dec_of_digits(t.speed.bits as nat);
    lemma_u64_round_trip(t.speed.bits);
    assert forall|i: int| 0 <= i < ps.len() implies (#[trigger] ps[i]).0 != NL && no_nl(
        ps[i].1,
    ) && path_point_pair_ok(ps[i].0, ps[i].1) by {
        if i == 0 {
            lemma_digits_no_nl(dec_of(t.x.bits as nat));
        }
        if i == 1 {
            lemma_digits_no_nl(dec_of(t.y.bits as nat));
        }
        if i == 2 {
            lemma_digits_no_nl(dec_of(t.speed.bits as nat));
        }
    }
}

} // verus!
