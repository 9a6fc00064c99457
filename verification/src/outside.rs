//! The calls into outside crates that the codec's logic needs: PNG
//! encoding of sprite and background images, zlib compression of streams,
//! and the regular-expression scan the room-rename fixer uses.
//!
//! Each call sits behind one trusted wrapper whose contract names what the
//! call returns; everything around the calls is verified.

use vstd::prelude::*;
use std::io::Write;
use crate::bytes::{push_bytes, bytes_to_vec, bytes_eq};
use crate::error::Error;

verus! {

/// The PNG stream that encodes an image of these dimensions with these
/// RGBA bytes, four bytes per pixel, rows top to bottom. The stream is a
/// function of the arguments alone.
pub uninterp spec fn png_of(width: u32, height: u32, rgba: Seq<u8>) -> Seq<u8>;

/// What decoding a PNG stream yields: the dimensions and RGBA bytes, or
/// nothing for a stream that is not an eight-bit RGBA image. A function of
/// the stream alone.
pub uninterp spec fn png_pixels_of(data: Seq<u8>) -> Option<(u32, u32, Seq<u8>)>;

/// Relies on png::Encoder (RGBA, eight bits per channel): encoding is
/// deterministic in the dimensions and pixel bytes, and the PNG format is
/// lossless, so decoding the stream gives the same pixels back.
#[verifier::external_body]
fn png_encode_raw(width: u32, height: u32, rgba: &Vec<u8>) -> (r: Vec<u8>)
    requires
        width > 0,
        height > 0,
        rgba@.len() == 4 * width * height,
    ensures
        r@ == png_of(width, height, rgba@),
        png_pixels_of(r@) == Some((width, height, rgba@)),
{
    let mut out: Vec<u8> = Vec::new();
    let mut enc = png::Encoder::new(&mut out, width, height);
    enc.set_color(png::ColorType::Rgba);
    enc.set_depth(png::BitDepth::Eight);
    let mut w = enc.write_header().unwrap();
    w.write_image_data(rgba).unwrap();
    drop(w);
    out
}

/// Relies on png::Decoder: decoding is a function of the stream alone,
/// and an eight-bit RGBA stream yields its dimensions and pixel bytes.
/// The decoder's default allocation limit is lifted, so every stream the
/// encoder can produce decodes; memory is bounded by the stream's own
/// declared dimensions.
#[verifier::external_body]
fn png_decode_raw(data: &Vec<u8>) -> (r: Option<(u32, u32, Vec<u8>)>)
    ensures
        r matches Some(f) ==> f.0 > 0 && f.1 > 0 && f.2@.len() == 4 * f.0 * f.1,
        match r {
            Some(f) => png_pixels_of(data@) == Some((f.0, f.1, f.2@)),
            None => png_pixels_of(data@) is None,
        },
{
    let limits = png::Limits { bytes: usize::MAX };
    let dec = png::Decoder::new_with_limits(std::io::Cursor::new(data.as_slice()), limits);
    let mut reader = dec.read_info().ok()?;
    let mut buf = std::vec::from_elem(0u8, reader.output_buffer_size()?);
    let info = reader.next_frame(&mut buf).ok()?;
    let ok = info.color_type == png::ColorType::Rgba && info.bit_depth == png::BitDepth::Eight
        && info.width > 0 && info.height > 0;
    buf.truncate(info.buffer_size());
    let sized = buf.len() == 4 * info.width as usize * info.height as usize;
    if ok && sized {
        Some((info.width, info.height, buf))
    } else {
        None
    }
}

/// Encodes one frame as its PNG sidecar; rejects a frame whose byte count
/// does not match its dimensions.
pub fn frame_to_png(f: &crate::asset::Frame, path: &Vec<Vec<u8>>) -> (r: Result<Vec<u8>, Error>)
    ensures
        r is Ok <==> f.width > 0 && f.height > 0 && f.data@.len() == 4 * f.width * f.height,
        r is Ok ==> r->Ok_0@ == png_of(f.width, f.height, f.data@) && png_pixels_of(r->Ok_0@)
            == Some((f.width, f.height, f.data@)),
        r is Err ==> (r->Err_0 matches Error::InvalidImage(p) && crate::tree::path_view(p@)
            == crate::tree::path_view(path@)),
{
    let dlen = f.data.len();
    if f.width == 0 || f.height == 0 {
        return Err(Error::InvalidImage(crate::tree::clone_path(path)));
    }
    proof {
        assert((f.width as int) * (f.height as int) < 0x1_0000_0000_0000_0000) by (nonlinear_arith)
            requires
                (f.width as int) < 0x1_0000_0000,
                (f.height as int) < 0x1_0000_0000,
        {
        }
    }
    let wh: u64 = f.width as u64 * f.height as u64;
    let cap: u64 = usize::MAX as u64;
    if wh > cap / 4 {
        proof {
            let w = f.width as int;
            let h = f.height as int;
            let c = cap as int;
            assert(4 * (w * h) >= 4 * (c / 4) + 4) by (nonlinear_arith)
                requires
                    w * h > c / 4,
            {
            }
            assert(c == 4 * (c / 4) + c % 4);
            assert(4 * w * h == 4 * (w * h)) by (nonlinear_arith) {
            }
            assert(dlen <= c);
            assert(f.data@.len() != 4 * w * h);
        }
        return Err(Error::InvalidImage(crate::tree::clone_path(path)));
    }
    proof {
        assert(4 * (cap as int / 4) <= cap as int);
    }
    let need: u64 = 4 * wh;
    if dlen as u64 != need {
        proof {
            assert(4 * (f.width as int) * (f.height as int) == 4 * ((f.width as int) * (
            f.height as int))) by (nonlinear_arith) {
            }
        }
        return Err(Error::InvalidImage(crate::tree::clone_path(path)));
    }
    proof {
        assert(4 * (f.width as int) * (f.height as int) == 4 * ((f.width as int) * (
        f.height as int))) by (nonlinear_arith) {
        }
    }
    Ok(png_encode_raw(f.width, f.height, &f.data))
}

/// Decodes one PNG sidecar back into a frame.
pub fn png_to_frame(data: &Vec<u8>, path: &Vec<Vec<u8>>) -> (r: Result<crate::asset::Frame, Error>)
    ensures
        r is Ok ==> r->Ok_0.width > 0 && r->Ok_0.height > 0 && r->Ok_0.data@.len() == 4
            * r->Ok_0.width * r->Ok_0.height,
        match r {
            Result::Ok(f) => png_pixels_of(data@) == Some((f.width, f.height, f.data@)),
            Result::Err(_) => png_pixels_of(data@) is None,
        },
        r is Err ==> (r->Err_0 matches Error::InvalidImage(q) && crate::tree::path_view(q@)
            == crate::tree::path_view(path@)),
{
    match png_decode_raw(data) {
        Some((w, h, bytes)) => Ok(crate::asset::Frame { width: w, height: h, data: bytes }),
        None => Err(Error::InvalidImage(crate::tree::clone_path(path))),
    }
}

/// The zlib stream that compresses these bytes at this level; a function
/// of the bytes and the level alone.
pub uninterp spec fn zlib_deflate_of(data: Seq<u8>, level: u32) -> Seq<u8>;

/// What decompressing a zlib stream yields, or nothing for a corrupt one.
/// A function of the stream alone.
pub uninterp spec fn zlib_inflated_of(data: Seq<u8>) -> Option<Seq<u8>>;

/// Relies on flate2::write::ZlibEncoder: compression is deterministic in
/// the input and the level, and the encoder/decoder pair is lossless.
#[verifier::external_body]
fn zlib_deflate_raw(data: &Vec<u8>, level: u32) -> (r: Vec<u8>)
    requires
        level <= 9,
    ensures
        r@ == zlib_deflate_of(data@, level),
        zlib_inflated_of(r@) == Some(data@),
{
    let mut enc = flate2::write::ZlibEncoder::new(Vec::new(), flate2::Compression::new(level));
    enc.write_all(data).unwrap();
    enc.finish().unwrap()
}

/// Relies on flate2::write::ZlibDecoder: decompression is a function of
/// the stream alone, and a corrupt stream yields nothing.
#[verifier::external_body]
fn zlib_inflate_raw(data: &Vec<u8>) -> (r: Option<Vec<u8>>)
    ensures
        match r {
            Some(v) => zlib_inflated_of(data@) == Some(v@),
            None => zlib_inflated_of(data@) is None,
        },
{
    let mut dec = flate2::write::ZlibDecoder::new(Vec::new());
    if dec.write_all(data).is_err() {
        return None;
    }
    match dec.finish() {
        Ok(v) => Some(v),
        Err(_) => None,
    }
}

/// The four little-endian bytes of a length prefix.
pub open spec fn u32le_of(n: u32) -> Seq<u8> {
    seq![
        (n & 0xff) as u8,
        ((n >> 8) & 0xff) as u8,
        ((n >> 16) & 0xff) as u8,
        ((n >> 24) & 0xff) as u8,
    ]
}

/// A whole compressed stream as the legacy container stores it: a
/// four-byte little-endian length, then the zlib bytes.
pub open spec fn framed_deflate_of(data: Seq<u8>, level: u32) -> Seq<u8> {
    u32le_of(zlib_deflate_of(data, level).len() as u32) + zlib_deflate_of(data, level)
}

/// Compresses a stream into its length-prefixed form. Gives nothing only
/// when the compressed bytes would not fit the four-byte length.
pub fn deflate(src: &Vec<u8>, level: u32) -> (r: Option<Vec<u8>>)
    requires
        level <= 9,
    ensures
        r matches Some(v) ==> zlib_deflate_of(src@, level).len() <= u32::MAX
            && v@ == framed_deflate_of(src@, level) && zlib_inflated_of(
            zlib_deflate_of(src@, level),
        ) == Some(src@),
        r is None ==> zlib_deflate_of(src@, level).len() > u32::MAX,
{
    let data = zlib_deflate_raw(src, level);
    if data.len() as u64 > u32::MAX as u64 {
        return None;
    }
    let n = data.len() as u32;
    let mut out: Vec<u8> = Vec::new();
    out.push((n & 0xff) as u8);
    out.push(((n >> 8) & 0xff) as u8);
    out.push(((n >> 16) & 0xff) as u8);
    out.push(((n >> 24) & 0xff) as u8);
    push_bytes(&mut out, data.as_slice());
    proof {
        assert(out@ =~= framed_deflate_of(src@, level));
    }
    Some(out)
}

/// Decompresses a length-prefixed stream: reads the four-byte length,
/// checks it against what follows, and inflates the zlib bytes. Whatever
/// `deflate` produced comes back unchanged, by the two contracts together.
pub fn inflate(src: &Vec<u8>) -> (r: Option<Vec<u8>>)
    ensures
        r matches Some(v) ==> src@.len() >= 4 && zlib_inflated_of(src@.skip(4)) == Some(v@),
        r is None ==> src@.len() < 4 || src@.len() - 4 != (src@[0] as int) + 256 * (
        src@[1] as int) + 65536 * (src@[2] as int) + 16777216 * (src@[3] as int)
            || zlib_inflated_of(src@.skip(4)) is None,
{
    if src.len() < 4 {
        return None;
    }
    let n: u64 = src[0] as u64 + 256 * (src[1] as u64) + 65536 * (src[2] as u64) + 16777216 * (
    src[3] as u64);
    if (src.len() - 4) as u64 != n {
        return None;
    }
    let body = bytes_to_vec(vstd::slice::slice_subrange(src.as_slice(), 4, src.len()));
    proof {
        assert(body@ =~= src@.skip(4));
    }
    zlib_inflate_raw(&body)
}

/// The spans of the instance references a room-rename scan finds in one
/// creation code: for each match of the fixed pattern, the start and end
/// of its name group. A function of the code alone.
pub uninterp spec fn room_ref_spans_of(code: Seq<u8>) -> Seq<(int, int)>;

/// Relies on regex::bytes::Regex::captures_iter with the fixed pattern
/// `=[ \t\r\n]*([^=]*?)_[0-9A-F]{8}`: matches come in order, do not
/// overlap, and a capture group lies within its haystack.
#[verifier::external_body]
fn room_ref_spans(code: &Vec<u8>) -> (r: Vec<(usize, usize)>)
    ensures
        r@.map_values(|p: (usize, usize)| (p.0 as int, p.1 as int)) == room_ref_spans_of(code@),
        forall|i: int| 0 <= i < r@.len() ==> (#[trigger] r@[i]).0 <= r@[i].1 <= code@.len(),
        forall|i: int| 0 < i < r@.len() ==> (#[trigger] r@[i]).0 >= r@[i - 1].1,
{
    let re = regex::bytes::Regex::new(r"=[ \t\r\n]*([^=]*?)_[0-9A-F]{8}").unwrap();
    let mut out: Vec<(usize, usize)> = Vec::new();
    for caps in re.captures_iter(code) {
        if let Some(m) = caps.get(1) {
            out.push((m.start(), m.end()));
        }
    }
    out
}

/// The code with each found reference that names the old room renamed to
/// the new room, splicing span by span.
pub open spec fn spec_rename_spans(
    code: Seq<u8>,
    spans: Seq<(int, int)>,
    from: int,
    old_name: Seq<u8>,
    new_name: Seq<u8>,
) -> Seq<u8>
    decreases spans.len(),
{
    if spans.len() == 0 {
        code.skip(from)
    } else {
        let (s, e) = spans[0];
        if from <= s <= e <= code.len() {
            code.subrange(from, s) + (if code.subrange(s, e) == old_name {
                new_name
            } else {
                code.subrange(s, e)
            }) + spec_rename_spans(code, spans.drop_first(), e, old_name, new_name)
        } else {
            code.skip(from)
        }
    }
}

/// Rewrites one creation code for a room rename: every reference the scan
/// found whose name equals the old room's name now names the new room.
pub fn rename_room_refs(code: &Vec<u8>, old_name: &Vec<u8>, new_name: &Vec<u8>) -> (r: Vec<u8>)
    ensures
        r@ == spec_rename_spans(code@, room_ref_spans_of(code@), 0, old_name@, new_name@),
{
    let spans = room_ref_spans(code);
    let ghost all = room_ref_spans_of(code@);
    let mut out: Vec<u8> = Vec::new();
    let mut from: usize = 0;
    let mut i: usize = 0;
    proof {
        assert(all.skip(0) =~= all);
    }
    while i < spans.len()
        invariant
            0 <= i <= spans@.len(),
            from <= code@.len(),
            all == room_ref_spans_of(code@),
            all == spans@.map_values(|p: (usize, usize)| (p.0 as int, p.1 as int)),
            forall|j: int| 0 <= j < spans@.len() ==> (#[trigger] spans@[j]).0 <= spans@[j].1
                <= code@.len(),
            forall|j: int| 0 < j < spans@.len() ==> (#[trigger] spans@[j]).0 >= spans@[j - 1].1,
            i > 0 ==> from == spans@[i - 1].1,
            i == 0 ==> from == 0,
            out@ + spec_rename_spans(code@, all.skip(i as int), from as int, old_name@, new_name@)
                == spec_rename_spans(code@, all, 0, old_name@, new_name@),
        decreases spans@.len() - i,
    {
        let (s, e) = (spans[i].0, spans[i].1);
        proof {
            assert(all.skip(i as int)[0] == ((spans@[i as int].0 as int), (
            spans@[i as int].1 as int)));
            assert(all.skip(i as int).drop_first() =~= all.skip(i + 1));
        }
        if s < from {
            // the scan promises ordered spans; an out-of-order one ends the walk
            proof {
                assert(i > 0 ==> spans@[i as int].0 >= spans@[i - 1].1);
                assert(false);
            }
        }
        let ghost out_before = out@;
        push_bytes(&mut out, vstd::slice::slice_subrange(code.as_slice(), from, s));
        let piece = vstd::slice::slice_subrange(code.as_slice(), s, e);
        if bytes_eq(piece, old_name.as_slice()) {
            push_bytes(&mut out, new_name.as_slice());
        } else {
            push_bytes(&mut out, piece);
        }
        proof {
            assert(out@ + spec_rename_spans(code@, all.skip(i + 1), e as int, old_name@, new_name@)
                =~= spec_rename_spans(code@, all, 0, old_name@, new_name@)) by {
                assert(spec_rename_spans(code@, all.skip(i as int), from as int, old_name@,
                    new_name@) == code@.subrange(from as int, s as int) + (if code@.subrange(
                    s as int,
                    e as int,
                ) == old_name@ {
                    new_name@
                } else {
                    code@.subrange(s as int, e as int)
                }) + spec_rename_spans(code@, all.skip(i + 1), e as int, old_name@, new_name@));
                assert(out@ =~= out_before + code@.subrange(from as int, s as int) + (if
                    code@.subrange(s as int, e as int) == old_name@ {
                    new_name@
                } else {
                    code@.subrange(s as int, e as int)
                }));
            }
        }
        from = e;
        i = i + 1;
    }
    push_bytes(&mut out, vstd::slice::slice_subrange(code.as_slice(), from, code.len()));
    proof {
        assert(all.skip(i as int).len() == 0);
        assert(spec_rename_spans(code@, all.skip(i as int), from as int, old_name@, new_name@)
            == code@.skip(from as int));
        assert(out@ =~= spec_rename_spans(code@, all, 0, old_name@, new_name@));
    }
    out
}

} // verus!
