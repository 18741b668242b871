//! The shared-encoding layer and size accounting.
//!
//! Resolved values are flattened into a deterministic, pointer-free byte
//! layout that can be copied verbatim into memory shared across isolated
//! execution contexts.  Every message opens with a schema-version byte;
//! a consumer whose version differs gets a hard decode failure, never a
//! guess.  Scalars are biased into unsigned range and laid out
//! little-endian, so no byte depends on the producing context.  Decoding
//! re-checks every range, so whatever a decoder accepts is well-formed.
//!
//! Size accounting reports exactly the bytes this layer emits, so a
//! caller can pre-size a shared buffer; parallel workers each accumulate
//! into their own sink and merge the totals afterwards.

use vstd::prelude::*;
use vstd::bytes::{
    lemma_auto_spec_u32_to_from_le_bytes, lemma_auto_spec_u64_to_from_le_bytes,
    spec_u32_from_le_bytes, spec_u32_to_le_bytes, spec_u64_from_le_bytes, spec_u64_to_le_bytes,
    u32_from_le_bytes, u32_to_le_bytes, u64_from_le_bytes, u64_to_le_bytes,
};
use vstd::slice::slice_subrange;
use crate::axis::{axis_in_range, Angle, Factor, Length, Rgba, UrlRef, AXIS_MAX};
use crate::effects::{
    computed_box_shadow_wf, computed_filter_wf, computed_simple_shadow_wf, filter_list_wf,
    ComputedBoxShadow, ComputedFilter, ComputedSimpleShadow, GenericBoxShadow, GenericFilter,
    GenericSimpleShadow,
};
use crate::DecodeError;

verus! {

/// Schema version of the byte layout; the first byte of every message.
pub const ENCODING_VERSION: u8 = 1;

/// Encoded size of a box-shadow message: the version byte, four scalar
/// fields of four bytes each, four color bytes and the inset byte.
pub const BOX_SHADOW_MSG_SIZE: u64 = 22;

/// Byte layout of one scalar axis value: biased into unsigned range,
/// little-endian.
pub open spec fn enc_axis(v: int) -> Seq<u8> {
    spec_u32_to_le_bytes((v + AXIS_MAX as int) as u32)
}

/// Reads one scalar axis value, rejecting out-of-range encodings.
pub open spec fn dec_axis(s: Seq<u8>) -> Option<(i32, Seq<u8>)> {
    if s.len() < 4 {
        None
    } else {
        let x = spec_u32_from_le_bytes(s.subrange(0, 4));
        if x <= 2 * (AXIS_MAX as u32) {
            Some((((x as int) - (AXIS_MAX as int)) as i32, s.skip(4)))
        } else {
            None
        }
    }
}

/// Reads one blur radius: a scalar that must be non-negative.
pub open spec fn dec_blur(s: Seq<u8>) -> Option<(i32, Seq<u8>)> {
    match dec_axis(s) {
        Option::Some((v, rest)) => if v >= 0 {
            Some((v, rest))
        } else {
            None
        },
        Option::None => None,
    }
}

/// Byte layout of a color: the four components in field order.
pub open spec fn enc_rgba(c: Rgba) -> Seq<u8> {
    seq![c.red, c.green, c.blue, c.alpha]
}

/// Reads one color.
pub open spec fn dec_rgba(s: Seq<u8>) -> Option<(Rgba, Seq<u8>)> {
    if s.len() < 4 {
        None
    } else {
        Some((Rgba { red: s[0], green: s[1], blue: s[2], alpha: s[3] }, s.skip(4)))
    }
}

/// Byte layout of the discrete inset flag.
pub open spec fn enc_bool(b: bool) -> Seq<u8> {
    seq![if b { 1u8 } else { 0u8 }]
}

/// Reads one flag byte, rejecting anything but the two canonical values.
pub open spec fn dec_bool(s: Seq<u8>) -> Option<(bool, Seq<u8>)> {
    if s.len() < 1 {
        None
    } else if s[0] == 1u8 {
        Some((true, s.skip(1)))
    } else if s[0] == 0u8 {
        Some((false, s.skip(1)))
    } else {
        None
    }
}

/// Byte layout of a simple shadow: color, then the three lengths in
/// field order.
pub open spec fn enc_simple_shadow(v: ComputedSimpleShadow) -> Seq<u8> {
    enc_rgba(v.color) + enc_axis(v.horizontal.au as int) + enc_axis(v.vertical.au as int)
        + enc_axis(v.blur.au as int)
}

/// Reads one simple shadow.
pub open spec fn dec_simple_shadow(s: Seq<u8>) -> Option<(ComputedSimpleShadow, Seq<u8>)> {
    match dec_rgba(s) {
        Option::None => None,
        Option::Some((color, s1)) => match dec_axis(s1) {
            Option::None => None,
            Option::Some((h, s2)) => match dec_axis(s2) {
                Option::None => None,
                Option::Some((v, s3)) => match dec_blur(s3) {
                    Option::None => None,
                    Option::Some((b, s4)) => Some(
                        (
                            GenericSimpleShadow {
                                color,
                                horizontal: Length { au: h },
                                vertical: Length { au: v },
                                blur: Length { au: b },
                            },
                            s4,
                        ),
                    ),
                },
            },
        },
    }
}

/// Byte layout of a box-shadow body: the base shadow, the spread radius
/// and the inset flag.
pub open spec fn enc_box_shadow_body(v: ComputedBoxShadow) -> Seq<u8> {
    enc_simple_shadow(v.base) + enc_axis(v.spread.au as int) + enc_bool(v.inset)
}

/// Reads one box-shadow body.
pub open spec fn dec_box_shadow_body(s: Seq<u8>) -> Option<(ComputedBoxShadow, Seq<u8>)> {
    match dec_simple_shadow(s) {
        Option::None => None,
        Option::Some((base, s1)) => match dec_axis(s1) {
            Option::None => None,
            Option::Some((spread, s2)) => match dec_bool(s2) {
                Option::None => None,
                Option::Some((inset, s3)) => Some(
                    (GenericBoxShadow { base, spread: Length { au: spread }, inset }, s3),
                ),
            },
        },
    }
}

/// The complete box-shadow message: version byte, then the body.
pub open spec fn enc_box_shadow_msg(v: ComputedBoxShadow) -> Seq<u8> {
    seq![ENCODING_VERSION] + enc_box_shadow_body(v)
}

/// What a box-shadow message decodes to: the version byte must match and
/// the body must consume the message exactly.
pub open spec fn dec_box_shadow_msg(s: Seq<u8>) -> Option<ComputedBoxShadow> {
    if s.len() >= 1 && s[0] == ENCODING_VERSION {
        match dec_box_shadow_body(s.skip(1)) {
            Option::Some((v, rest)) => if rest.len() == 0 {
                Some(v)
            } else {
                None
            },
            Option::None => None,
        }
    } else {
        None
    }
}

/// Reading a scalar undoes writing it, whatever follows it in the buffer.
pub proof fn lemma_axis_roundtrip(v: int, rest: Seq<u8>)
    requires
        axis_in_range(v),
    ensures
        dec_axis(enc_axis(v) + rest) == Some(((v as i32), rest)),
{
    lemma_auto_spec_u32_to_from_le_bytes();
    let x = (v + AXIS_MAX as int) as u32;
    let s = enc_axis(v) + rest;
    assert(s.subrange(0, 4) =~= enc_axis(v));
    assert(s.skip(4) =~= rest);
}

/// Reading a color undoes writing it.
pub proof fn lemma_rgba_roundtrip(c: Rgba, rest: Seq<u8>)
    ensures
        dec_rgba(enc_rgba(c) + rest) == Some((c, rest)),
{
    let s = enc_rgba(c) + rest;
    assert(s.skip(4) =~= rest);
    assert(c == Rgba { red: c.red, green: c.green, blue: c.blue, alpha: c.alpha });
}

/// Reading a flag undoes writing it.
pub proof fn lemma_bool_roundtrip(b: bool, rest: Seq<u8>)
    ensures
        dec_bool(enc_bool(b) + rest) == Some((b, rest)),
{
    let s = enc_bool(b) + rest;
    assert(s.skip(1) =~= rest);
}

/// Reading a simple shadow undoes writing it.
pub proof fn lemma_simple_shadow_roundtrip(v: ComputedSimpleShadow, rest: Seq<u8>)
    requires
        computed_simple_shadow_wf(v),
    ensures
        dec_simple_shadow(enc_simple_shadow(v) + rest) == Some((v, rest)),
{
    let r3 = enc_axis(v.blur.au as int) + rest;
    let r2 = enc_axis(v.vertical.au as int) + r3;
    let r1 = enc_axis(v.horizontal.au as int) + r2;
    assert(enc_simple_shadow(v) + rest =~= enc_rgba(v.color) + r1);
    lemma_rgba_roundtrip(v.color, r1);
    assert(r1 =~= enc_axis(v.horizontal.au as int) + r2);
    lemma_axis_roundtrip(v.horizontal.au as int, r2);
    lemma_axis_roundtrip(v.vertical.au as int, r3);
    lemma_axis_roundtrip(v.blur.au as int, rest);
    assert(v == GenericSimpleShadow {
        color: v.color,
        horizontal: Length { au: v.horizontal.au },
        vertical: Length { au: v.vertical.au },
        blur: Length { au: v.blur.au },
    });
}

/// Reading a box-shadow body undoes writing it.
pub proof fn lemma_box_shadow_body_roundtrip(v: ComputedBoxShadow, rest: Seq<u8>)
    requires
        computed_box_shadow_wf(v),
    ensures
        dec_box_shadow_body(enc_box_shadow_body(v) + rest) == Some((v, rest)),
{
    let r2 = enc_bool(v.inset) + rest;
    let r1 = enc_axis(v.spread.au as int) + r2;
    assert(enc_box_shadow_body(v) + rest =~= enc_simple_shadow(v.base) + r1);
    lemma_simple_shadow_roundtrip(v.base, r1);
    lemma_axis_roundtrip(v.spread.au as int, r2);
    lemma_bool_roundtrip(v.inset, rest);
    assert(v == GenericBoxShadow {
        base: v.base,
        spread: Length { au: v.spread.au },
        inset: v.inset,
    });
}

/// The round-trip law for box shadows: decoding an encoded value yields
/// the value itself.
pub proof fn lemma_box_shadow_roundtrip(v: ComputedBoxShadow)
    requires
        computed_box_shadow_wf(v),
    ensures
        dec_box_shadow_msg(enc_box_shadow_msg(v)) == Some(v),
{
    let s = enc_box_shadow_msg(v);
    assert(s[0] == ENCODING_VERSION);
    assert(s.skip(1) =~= enc_box_shadow_body(v) + Seq::<u8>::empty());
    lemma_box_shadow_body_roundtrip(v, Seq::<u8>::empty());
}

/// Appends the byte layout of one scalar axis value.
fn push_axis(out: &mut Vec<u8>, v: i32)
    requires
        axis_in_range(v as int),
    ensures
        final(out)@ == old(out)@ + enc_axis(v as int),
{
    let mut bytes = u32_to_le_bytes((v + AXIS_MAX) as u32);
    out.append(&mut bytes);
}

/// Appends the byte layout of one color.
fn push_rgba(out: &mut Vec<u8>, c: &Rgba)
    ensures
        final(out)@ == old(out)@ + enc_rgba(*c),
{
    out.push(c.red);
    out.push(c.green);
    out.push(c.blue);
    out.push(c.alpha);
    proof {
        assert(final(out)@ =~= old(out)@ + enc_rgba(*c));
    }
}

/// Reads one scalar axis value at `pos`.
fn read_axis(bytes: &Vec<u8>, pos: usize) -> (r: Option<(i32, usize)>)
    requires
        pos <= bytes@.len(),
    ensures
        match r {
            Option::Some((v, next)) => {
                &&& pos + 4 == next <= bytes@.len()
                &&& axis_in_range(v as int)
                &&& dec_axis(bytes@.skip(pos as int)) == Some((v, bytes@.skip(next as int)))
            },
            Option::None => dec_axis(bytes@.skip(pos as int)) is None,
        },
{
    proof {
        lemma_auto_spec_u32_to_from_le_bytes();
    }
    if bytes.len() - pos < 4 {
        return None;
    }
    let window = slice_subrange(bytes.as_slice(), pos, pos + 4);
    let x = u32_from_le_bytes(window);
    proof {
        assert(bytes@.skip(pos as int).subrange(0, 4) =~= bytes@.subrange(
            pos as int,
            pos as int + 4,
        ));
        assert(bytes@.skip(pos as int).skip(4) =~= bytes@.skip(pos as int + 4));
    }
    if x > 2 * (AXIS_MAX as u32) {
        return None;
    }
    Some(((x as i32) - AXIS_MAX, pos + 4))
}

/// Reads one color at `pos`.
fn read_rgba(bytes: &Vec<u8>, pos: usize) -> (r: Option<(Rgba, usize)>)
    requires
        pos <= bytes@.len(),
    ensures
        match r {
            Option::Some((c, next)) => {
                &&& pos + 4 == next <= bytes@.len()
                &&& dec_rgba(bytes@.skip(pos as int)) == Some((c, bytes@.skip(next as int)))
            },
            Option::None => dec_rgba(bytes@.skip(pos as int)) is None,
        },
{
    if bytes.len() - pos < 4 {
        return None;
    }
    let c = Rgba {
        red: bytes[pos],
        green: bytes[pos + 1],
        blue: bytes[pos + 2],
        alpha: bytes[pos + 3],
    };
    proof {
        assert(bytes@.skip(pos as int).skip(4) =~= bytes@.skip(pos as int + 4));
    }
    Some((c, pos + 4))
}

/// Reads one flag byte at `pos`.
fn read_bool(bytes: &Vec<u8>, pos: usize) -> (r: Option<(bool, usize)>)
    requires
        pos <= bytes@.len(),
    ensures
        match r {
            Option::Some((b, next)) => {
                &&& pos + 1 == next <= bytes@.len()
                &&& dec_bool(bytes@.skip(pos as int)) == Some((b, bytes@.skip(next as int)))
            },
            Option::None => dec_bool(bytes@.skip(pos as int)) is None,
        },
{
    if bytes.len() - pos < 1 {
        return None;
    }
    proof {
        assert(bytes@.skip(pos as int).skip(1) =~= bytes@.skip(pos as int + 1));
    }
    let byte = bytes[pos];
    if byte == 1 {
        Some((true, pos + 1))
    } else if byte == 0 {
        Some((false, pos + 1))
    } else {
        None
    }
}

/// Reads one simple shadow at `pos`.
fn read_simple_shadow(bytes: &Vec<u8>, pos: usize) -> (r: Option<(ComputedSimpleShadow, usize)>)
    requires
        pos <= bytes@.len(),
    ensures
        match r {
            Option::Some((v, next)) => {
                &&& pos <= next <= bytes@.len()
                &&& computed_simple_shadow_wf(v)
                &&& dec_simple_shadow(bytes@.skip(pos as int)) == Some(
                    (v, bytes@.skip(next as int)),
                )
            },
            Option::None => dec_simple_shadow(bytes@.skip(pos as int)) is None,
        },
{
    let (color, p1) = match read_rgba(bytes, pos) {
        Some(x) => x,
        None => {
            return None;
        },
    };
    let (h, p2) = match read_axis(bytes, p1) {
        Some(x) => x,
        None => {
            return None;
        },
    };
    let (v, p3) = match read_axis(bytes, p2) {
        Some(x) => x,
        None => {
            return None;
        },
    };
    let (b, p4) = match read_axis(bytes, p3) {
        Some(x) => x,
        None => {
            return None;
        },
    };
    if b < 0 {
        return None;
    }
    Some(
        (
            GenericSimpleShadow {
                color,
                horizontal: Length { au: h },
                vertical: Length { au: v },
                blur: Length { au: b },
            },
            p4,
        ),
    )
}

/// Encodes a resolved box shadow into its shareable byte message.
pub fn encode_box_shadow(v: &ComputedBoxShadow) -> (out: Vec<u8>)
    requires
        computed_box_shadow_wf(*v),
    ensures
        out@ == enc_box_shadow_msg(*v),
        out@.len() == BOX_SHADOW_MSG_SIZE,
{
    proof {
        lemma_auto_spec_u32_to_from_le_bytes();
    }
    let mut out: Vec<u8> = Vec::new();
    out.push(ENCODING_VERSION);
    push_rgba(&mut out, &v.base.color);
    push_axis(&mut out, v.base.horizontal.au);
    push_axis(&mut out, v.base.vertical.au);
    push_axis(&mut out, v.base.blur.au);
    push_axis(&mut out, v.spread.au);
    out.push(if v.inset {
        1
    } else {
        0
    });
    proof {
        assert(out@ =~= enc_box_shadow_msg(*v));
    }
    out
}

/// Reports the exact number of bytes [`encode_box_shadow`] emits for a
/// value, so callers can pre-size shared buffers.
pub fn box_shadow_encoded_size(v: &ComputedBoxShadow) -> (r: u64)
    requires
        computed_box_shadow_wf(*v),
    ensures
        r == enc_box_shadow_msg(*v).len(),
        r == BOX_SHADOW_MSG_SIZE,
{
    proof {
        lemma_auto_spec_u32_to_from_le_bytes();
    }
    BOX_SHADOW_MSG_SIZE
}

/// Decodes a box-shadow message.  Succeeds exactly on the byte sequences
/// that some well-formed box shadow encodes to; a wrong leading version
/// byte is the version-mismatch error, anything else malformed.
pub fn decode_box_shadow(bytes: &Vec<u8>) -> (r: Result<ComputedBoxShadow, DecodeError>)
    ensures
        r is Ok <==> dec_box_shadow_msg(bytes@) is Some,
        r is Ok ==> r.unwrap() == dec_box_shadow_msg(bytes@).unwrap() && computed_box_shadow_wf(
            r.unwrap(),
        ),
        r == Result::<ComputedBoxShadow, DecodeError>::Err(DecodeError::VersionMismatch) <==> (
        bytes@.len() >= 1 && bytes@[0] != ENCODING_VERSION),
{
    if bytes.len() < 1 {
        return Err(DecodeError::Malformed);
    }
    if bytes[0] != ENCODING_VERSION {
        return Err(DecodeError::VersionMismatch);
    }
    proof {
        assert(bytes@.skip(0).skip(1) =~= bytes@.skip(1));
        assert(bytes@.skip(0) =~= bytes@);
    }
    let (base, p1) = match read_simple_shadow(bytes, 1) {
        Some(x) => x,
        None => {
            return Err(DecodeError::Malformed);
        },
    };
    let (spread, p2) = match read_axis(bytes, p1) {
        Some(x) => x,
        None => {
            return Err(DecodeError::Malformed);
        },
    };
    let (inset, p3) = match read_bool(bytes, p2) {
        Some(x) => x,
        None => {
            return Err(DecodeError::Malformed);
        },
    };
    if p3 != bytes.len() {
        return Err(DecodeError::Malformed);
    }
    Ok(GenericBoxShadow { base, spread: Length { au: spread }, inset })
}

/// Reads one unsigned 32-bit count.
pub open spec fn dec_u32(s: Seq<u8>) -> Option<(u32, Seq<u8>)> {
    if s.len() < 4 {
        None
    } else {
        Some((spec_u32_from_le_bytes(s.subrange(0, 4)), s.skip(4)))
    }
}

/// Reads one opaque 64-bit resource handle.
pub open spec fn dec_u64(s: Seq<u8>) -> Option<(u64, Seq<u8>)> {
    if s.len() < 8 {
        None
    } else {
        Some((spec_u64_from_le_bytes(s.subrange(0, 8)), s.skip(8)))
    }
}

/// Byte layout of one filter-chain entry: the variant tag, then the
/// variant's payload.
pub open spec fn enc_filter(f: ComputedFilter) -> Seq<u8> {
    match f {
        GenericFilter::Blur(l) => seq![0u8] + enc_axis(l.au as int),
        GenericFilter::Brightness(x) => seq![1u8] + enc_axis(x.milli as int),
        GenericFilter::Contrast(x) => seq![2u8] + enc_axis(x.milli as int),
        GenericFilter::Grayscale(x) => seq![3u8] + enc_axis(x.milli as int),
        GenericFilter::HueRotate(a) => seq![4u8] + enc_axis(a.millideg as int),
        GenericFilter::Invert(x) => seq![5u8] + enc_axis(x.milli as int),
        GenericFilter::Opacity(x) => seq![6u8] + enc_axis(x.milli as int),
        GenericFilter::Saturate(x) => seq![7u8] + enc_axis(x.milli as int),
        GenericFilter::Sepia(x) => seq![8u8] + enc_axis(x.milli as int),
        GenericFilter::DropShadow(s) => seq![9u8] + enc_simple_shadow(s),
        GenericFilter::Url(u) => seq![10u8] + spec_u64_to_le_bytes(u.handle),
    }
}

/// Reads one filter-chain entry, rejecting unknown tags.
pub open spec fn dec_filter(s: Seq<u8>) -> Option<(ComputedFilter, Seq<u8>)> {
    if s.len() < 1 {
        None
    } else {
        let tag = s[0];
        let body = s.skip(1);
        if tag == 0u8 {
            match dec_blur(body) {
                Option::Some((v, rest)) => Some((GenericFilter::Blur(Length { au: v }), rest)),
                Option::None => None,
            }
        } else if tag == 1u8 {
            match dec_axis(body) {
                Option::Some((v, rest)) => Some(
                    (GenericFilter::Brightness(Factor { milli: v }), rest),
                ),
                Option::None => None,
            }
        } else if tag == 2u8 {
            match dec_axis(body) {
                Option::Some((v, rest)) => Some(
                    (GenericFilter::Contrast(Factor { milli: v }), rest),
                ),
                Option::None => None,
            }
        } else if tag == 3u8 {
            match dec_axis(body) {
                Option::Some((v, rest)) => Some(
                    (GenericFilter::Grayscale(Factor { milli: v }), rest),
                ),
                Option::None => None,
            }
        } else if tag == 4u8 {
            match dec_axis(body) {
                Option::Some((v, rest)) => Some(
                    (GenericFilter::HueRotate(Angle { millideg: v }), rest),
                ),
                Option::None => None,
            }
        } else if tag == 5u8 {
            match dec_axis(body) {
                Option::Some((v, rest)) => Some(
                    (GenericFilter::Invert(Factor { milli: v }), rest),
                ),
                Option::None => None,
            }
        } else if tag == 6u8 {
            match dec_axis(body) {
                Option::Some((v, rest)) => Some(
                    (GenericFilter::Opacity(Factor { milli: v }), rest),
                ),
                Option::None => None,
            }
        } else if tag == 7u8 {
            match dec_axis(body) {
                Option::Some((v, rest)) => Some(
                    (GenericFilter::Saturate(Factor { milli: v }), rest),
                ),
                Option::None => None,
            }
        } else if tag == 8u8 {
            match dec_axis(body) {
                Option::Some((v, rest)) => Some((GenericFilter::Sepia(Factor { milli: v }), rest)),
                Option::None => None,
            }
        } else if tag == 9u8 {
            match dec_simple_shadow(body) {
                Option::Some((v, rest)) => Some((GenericFilter::DropShadow(v), rest)),
                Option::None => None,
            }
        } else if tag == 10u8 {
            match dec_u64(body) {
                Option::Some((v, rest)) => Some((GenericFilter::Url(UrlRef { handle: v }), rest)),
                Option::None => None,
            }
        } else {
            None
        }
    }
}

/// Byte layout of a filter chain's entries, in order.
pub open spec fn enc_filter_list_body(fs: Seq<ComputedFilter>) -> Seq<u8>
    decreases fs.len(),
{
    if fs.len() == 0 {
        Seq::empty()
    } else {
        enc_filter(fs[0]) + enc_filter_list_body(fs.skip(1))
    }
}

/// The complete filter-chain message: version byte, entry count, then
/// the entries.
pub open spec fn enc_filter_list_msg(fs: Seq<ComputedFilter>) -> Seq<u8> {
    seq![ENCODING_VERSION] + spec_u32_to_le_bytes(fs.len() as u32) + enc_filter_list_body(fs)
}

/// Reads `n` filter-chain entries.
pub open spec fn dec_filter_entries(s: Seq<u8>, n: nat) -> Option<(Seq<ComputedFilter>, Seq<u8>)>
    decreases n,
{
    if n == 0 {
        Some((Seq::empty(), s))
    } else {
        match dec_filter(s) {
            Option::Some((f, s1)) => match dec_filter_entries(s1, (n - 1) as nat) {
                Option::Some((fs, s2)) => Some((seq![f] + fs, s2)),
                Option::None => None,
            },
            Option::None => None,
        }
    }
}

/// What a filter-chain message decodes to.
pub open spec fn dec_filter_list_msg(s: Seq<u8>) -> Option<Seq<ComputedFilter>> {
    if s.len() >= 1 && s[0] == ENCODING_VERSION {
        match dec_u32(s.skip(1)) {
            Option::Some((n, s1)) => match dec_filter_entries(s1, n as nat) {
                Option::Some((fs, rest)) => if rest.len() == 0 {
                    Some(fs)
                } else {
                    None
                },
                Option::None => None,
            },
            Option::None => None,
        }
    } else {
        None
    }
}

/// Reading a handle undoes writing it.
pub proof fn lemma_u64_roundtrip(v: u64, rest: Seq<u8>)
    ensures
        dec_u64(spec_u64_to_le_bytes(v) + rest) == Some((v, rest)),
{
    lemma_auto_spec_u64_to_from_le_bytes();
    let s = spec_u64_to_le_bytes(v) + rest;
    assert(s.subrange(0, 8) =~= spec_u64_to_le_bytes(v));
    assert(s.skip(8) =~= rest);
}

/// Reading an entry undoes writing it.
pub proof fn lemma_filter_roundtrip(f: ComputedFilter, rest: Seq<u8>)
    requires
        computed_filter_wf(f),
    ensures
        dec_filter(enc_filter(f) + rest) == Some((f, rest)),
{
    let s = enc_filter(f) + rest;
    match f {
        GenericFilter::Blur(l) => {
            assert(s.skip(1) =~= enc_axis(l.au as int) + rest);
            lemma_axis_roundtrip(l.au as int, rest);
            assert(l == Length { au: l.au });
        },
        GenericFilter::Brightness(x) => {
            assert(s.skip(1) =~= enc_axis(x.milli as int) + rest);
            lemma_axis_roundtrip(x.milli as int, rest);
            assert(x == Factor { milli: x.milli });
        },
        GenericFilter::Contrast(x) => {
            assert(s.skip(1) =~= enc_axis(x.milli as int) + rest);
            lemma_axis_roundtrip(x.milli as int, rest);
            assert(x == Factor { milli: x.milli });
        },
        GenericFilter::Grayscale(x) => {
            assert(s.skip(1) =~= enc_axis(x.milli as int) + rest);
            lemma_axis_roundtrip(x.milli as int, rest);
            assert(x == Factor { milli: x.milli });
        },
        GenericFilter::HueRotate(a) => {
            assert(s.skip(1) =~= enc_axis(a.millideg as int) + rest);
            lemma_axis_roundtrip(a.millideg as int, rest);
            assert(a == Angle { millideg: a.millideg });
        },
        GenericFilter::Invert(x) => {
            assert(s.skip(1) =~= enc_axis(x.milli as int) + rest);
            lemma_axis_roundtrip(x.milli as int, rest);
            assert(x == Factor { milli: x.milli });
        },
        GenericFilter::Opacity(x) => {
            assert(s.skip(1) =~= enc_axis(x.milli as int) + rest);
            lemma_axis_roundtrip(x.milli as int, rest);
            assert(x == Factor { milli: x.milli });
        },
        GenericFilter::Saturate(x) => {
            assert(s.skip(1) =~= enc_axis(x.milli as int) + rest);
            lemma_axis_roundtrip(x.milli as int, rest);
            assert(x == Factor { milli: x.milli });
        },
        GenericFilter::Sepia(x) => {
            assert(s.skip(1) =~= enc_axis(x.milli as int) + rest);
            lemma_axis_roundtrip(x.milli as int, rest);
            assert(x == Factor { milli: x.milli });
        },
        GenericFilter::DropShadow(sh) => {
            assert(s.skip(1) =~= enc_simple_shadow(sh) + rest);
            lemma_simple_shadow_roundtrip(sh, rest);
        },
        GenericFilter::Url(u) => {
            assert(s.skip(1) =~= spec_u64_to_le_bytes(u.handle) + rest);
            lemma_u64_roundtrip(u.handle, rest);
            assert(u == UrlRef { handle: u.handle });
        },
    }
}

/// Appending an entry to a chain appends its bytes to the chain's.
pub proof fn lemma_enc_filter_list_snoc(fs: Seq<ComputedFilter>, f: ComputedFilter)
    ensures
        enc_filter_list_body(fs.push(f)) == enc_filter_list_body(fs) + enc_filter(f),
    decreases fs.len(),
{
    if fs.len() == 0 {
        assert(fs.push(f)[0] == f);
        assert(fs.push(f).skip(1) =~= Seq::<ComputedFilter>::empty());
        assert(enc_filter_list_body(fs.push(f)) == enc_filter(f) + enc_filter_list_body(
            Seq::<ComputedFilter>::empty(),
        ));
        assert(enc_filter(f) + Seq::<u8>::empty() =~= Seq::<u8>::empty() + enc_filter(f));
    } else {
        assert(fs.push(f)[0] == fs[0]);
        assert(fs.push(f).skip(1) =~= fs.skip(1).push(f));
        lemma_enc_filter_list_snoc(fs.skip(1), f);
        assert(enc_filter_list_body(fs.push(f)) == enc_filter(fs[0]) + enc_filter_list_body(
            fs.skip(1).push(f),
        ));
        assert(enc_filter_list_body(fs) == enc_filter(fs[0]) + enc_filter_list_body(fs.skip(1)));
        assert(enc_filter(fs[0]) + (enc_filter_list_body(fs.skip(1)) + enc_filter(f)) =~= (
        enc_filter(fs[0]) + enc_filter_list_body(fs.skip(1))) + enc_filter(f));
    }
}

/// Reading back `n` entries undoes writing a chain of `n`.
pub proof fn lemma_filter_entries_roundtrip(fs: Seq<ComputedFilter>, rest: Seq<u8>)
    requires
        filter_list_wf(fs),
    ensures
        dec_filter_entries(enc_filter_list_body(fs) + rest, fs.len()) == Some((fs, rest)),
    decreases fs.len(),
{
    if fs.len() == 0 {
        assert(enc_filter_list_body(fs) + rest =~= rest);
    } else {
        let tail = fs.skip(1);
        assert(computed_filter_wf(fs[0]));
        assert(filter_list_wf(tail));
        assert(enc_filter_list_body(fs) + rest =~= enc_filter(fs[0]) + (enc_filter_list_body(tail)
            + rest));
        lemma_filter_roundtrip(fs[0], enc_filter_list_body(tail) + rest);
        lemma_filter_entries_roundtrip(tail, rest);
        assert(seq![fs[0]] + tail =~= fs);
    }
}

/// The round-trip law for filter chains: decoding an encoded chain
/// yields the chain itself.
pub proof fn lemma_filter_list_roundtrip(fs: Seq<ComputedFilter>)
    requires
        filter_list_wf(fs),
        fs.len() < 0x1_0000_0000,
    ensures
        dec_filter_list_msg(enc_filter_list_msg(fs)) == Some(fs),
{
    lemma_auto_spec_u32_to_from_le_bytes();
    let s = enc_filter_list_msg(fs);
    let n = fs.len() as u32;
    assert(s[0] == ENCODING_VERSION);
    assert(s.skip(1) =~= spec_u32_to_le_bytes(n) + enc_filter_list_body(fs));
    assert(s.skip(1).subrange(0, 4) =~= spec_u32_to_le_bytes(n));
    assert(s.skip(1).skip(4) =~= enc_filter_list_body(fs) + Seq::<u8>::empty());
    lemma_filter_entries_roundtrip(fs, Seq::<u8>::empty());
}

/// Reads one unsigned 32-bit count at `pos`.
fn read_u32(bytes: &Vec<u8>, pos: usize) -> (r: Option<(u32, usize)>)
    requires
        pos <= bytes@.len(),
    ensures
        match r {
            Option::Some((v, next)) => {
                &&& pos + 4 == next <= bytes@.len()
                &&& dec_u32(bytes@.skip(pos as int)) == Some((v, bytes@.skip(next as int)))
            },
            Option::None => dec_u32(bytes@.skip(pos as int)) is None,
        },
{
    if bytes.len() - pos < 4 {
        return None;
    }
    let window = slice_subrange(bytes.as_slice(), pos, pos + 4);
    let x = u32_from_le_bytes(window);
    proof {
        assert(bytes@.skip(pos as int).subrange(0, 4) =~= bytes@.subrange(
            pos as int,
            pos as int + 4,
        ));
        assert(bytes@.skip(pos as int).skip(4) =~= bytes@.skip(pos as int + 4));
    }
    Some((x, pos + 4))
}

/// Reads one opaque handle at `pos`.
fn read_u64(bytes: &Vec<u8>, pos: usize) -> (r: Option<(u64, usize)>)
    requires
        pos <= bytes@.len(),
    ensures
        match r {
            Option::Some((v, next)) => {
                &&& pos + 8 == next <= bytes@.len()
                &&& dec_u64(bytes@.skip(pos as int)) == Some((v, bytes@.skip(next as int)))
            },
            Option::None => dec_u64(bytes@.skip(pos as int)) is None,
        },
{
    if bytes.len() - pos < 8 {
        return None;
    }
    let window = slice_subrange(bytes.as_slice(), pos, pos + 8);
    let x = u64_from_le_bytes(window);
    proof {
        assert(bytes@.skip(pos as int).subrange(0, 8) =~= bytes@.subrange(
            pos as int,
            pos as int + 8,
        ));
        assert(bytes@.skip(pos as int).skip(8) =~= bytes@.skip(pos as int + 8));
    }
    Some((x, pos + 8))
}

/// Reads one filter-chain entry at `pos`.
fn read_filter(bytes: &Vec<u8>, pos: usize) -> (r: Option<(ComputedFilter, usize)>)
    requires
        pos <= bytes@.len(),
    ensures
        match r {
            Option::Some((f, next)) => {
                &&& pos < next <= bytes@.len()
                &&& computed_filter_wf(f)
                &&& dec_filter(bytes@.skip(pos as int)) == Some((f, bytes@.skip(next as int)))
            },
            Option::None => dec_filter(bytes@.skip(pos as int)) is None,
        },
{
    if bytes.len() - pos < 1 {
        return None;
    }
    let tag = bytes[pos];
    proof {
        assert(bytes@.skip(pos as int).skip(1) =~= bytes@.skip(pos as int + 1));
    }
    if tag == 0 {
        match read_axis(bytes, pos + 1) {
            Some((v, next)) => {
                if v < 0 {
                    None
                } else {
                    Some((GenericFilter::Blur(Length { au: v }), next))
                }
            },
            None => None,
        }
    } else if tag == 1 {
        match read_axis(bytes, pos + 1) {
            Some((v, next)) => Some((GenericFilter::Brightness(Factor { milli: v }), next)),
            None => None,
        }
    } else if tag == 2 {
        match read_axis(bytes, pos + 1) {
            Some((v, next)) => Some((GenericFilter::Contrast(Factor { milli: v }), next)),
            None => None,
        }
    } else if tag == 3 {
        match read_axis(bytes, pos + 1) {
            Some((v, next)) => Some((GenericFilter::Grayscale(Factor { milli: v }), next)),
            None => None,
        }
    } else if tag == 4 {
        match read_axis(bytes, pos + 1) {
            Some((v, next)) => Some((GenericFilter::HueRotate(Angle { millideg: v }), next)),
            None => None,
        }
    } else if tag == 5 {
        match read_axis(bytes, pos + 1) {
            Some((v, next)) => Some((GenericFilter::Invert(Factor { milli: v }), next)),
            None => None,
        }
    } else if tag == 6 {
        match read_axis(bytes, pos + 1) {
            Some((v, next)) => Some((GenericFilter::Opacity(Factor { milli: v }), next)),
            None => None,
        }
    } else if tag == 7 {
        match read_axis(bytes, pos + 1) {
            Some((v, next)) => Some((GenericFilter::Saturate(Factor { milli: v }), next)),
            None => None,
        }
    } else if tag == 8 {
        match read_axis(bytes, pos + 1) {
            Some((v, next)) => Some((GenericFilter::Sepia(Factor { milli: v }), next)),
            None => None,
        }
    } else if tag == 9 {
        match read_simple_shadow(bytes, pos + 1) {
            Some((v, next)) => Some((GenericFilter::DropShadow(v), next)),
            None => None,
        }
    } else if tag == 10 {
        match read_u64(bytes, pos + 1) {
            Some((v, next)) => Some((GenericFilter::Url(UrlRef { handle: v }), next)),
            None => None,
        }
    } else {
        None
    }
}

/// Appends the byte layout of one filter-chain entry.
fn push_filter(out: &mut Vec<u8>, f: &ComputedFilter)
    requires
        computed_filter_wf(*f),
    ensures
        final(out)@ == old(out)@ + enc_filter(*f),
{
    match f {
        GenericFilter::Blur(l) => {
            out.push(0);
            push_axis(out, l.au);
        },
        GenericFilter::Brightness(x) => {
            out.push(1);
            push_axis(out, x.milli);
        },
        GenericFilter::Contrast(x) => {
            out.push(2);
            push_axis(out, x.milli);
        },
        GenericFilter::Grayscale(x) => {
            out.push(3);
            push_axis(out, x.milli);
        },
        GenericFilter::HueRotate(a) => {
            out.push(4);
            push_axis(out, a.millideg);
        },
        GenericFilter::Invert(x) => {
            out.push(5);
            push_axis(out, x.milli);
        },
        GenericFilter::Opacity(x) => {
            out.push(6);
            push_axis(out, x.milli);
        },
        GenericFilter::Saturate(x) => {
            out.push(7);
            push_axis(out, x.milli);
        },
        GenericFilter::Sepia(x) => {
            out.push(8);
            push_axis(out, x.milli);
        },
        GenericFilter::DropShadow(s) => {
            out.push(9);
            push_rgba(out, &s.color);
            push_axis(out, s.horizontal.au);
            push_axis(out, s.vertical.au);
            push_axis(out, s.blur.au);
        },
        GenericFilter::Url(u) => {
            out.push(10);
            let mut handle = u64_to_le_bytes(u.handle);
            out.append(&mut handle);
        },
    }
    proof {
        assert(final(out)@ =~= old(out)@ + enc_filter(*f));
    }
}

/// Encodes a resolved filter chain into its shareable byte message.
pub fn encode_filter_list(fs: &Vec<ComputedFilter>) -> (out: Vec<u8>)
    requires
        filter_list_wf(fs@),
        fs@.len() < 0x1_0000_0000,
    ensures
        out@ == enc_filter_list_msg(fs@),
{
    let mut out: Vec<u8> = Vec::new();
    out.push(ENCODING_VERSION);
    let mut count = u32_to_le_bytes(fs.len() as u32);
    out.append(&mut count);
    let ghost header = out@;
    let mut i: usize = 0;
    while i < fs.len()
        invariant
            0 <= i <= fs@.len(),
            filter_list_wf(fs@),
            out@ == header + enc_filter_list_body(fs@.take(i as int)),
        decreases fs@.len() - i,
    {
        push_filter(&mut out, &fs[i]);
        proof {
            assert(fs@.take(i + 1 as int) =~= fs@.take(i as int).push(fs@[i as int]));
            lemma_enc_filter_list_snoc(fs@.take(i as int), fs@[i as int]);
            assert(out@ =~= header + enc_filter_list_body(fs@.take(i + 1 as int)));
        }
        i = i + 1;
    }
    proof {
        assert(fs@.take(fs@.len() as int) =~= fs@);
        assert(out@ =~= enc_filter_list_msg(fs@));
    }
    out
}

/// Reports the exact number of bytes [`encode_filter_list`] emits for a
/// chain.
pub fn filter_list_encoded_size(fs: &Vec<ComputedFilter>) -> (r: u64)
    requires
        filter_list_wf(fs@),
        fs@.len() < 0x1_0000_0000,
    ensures
        r == enc_filter_list_msg(fs@).len(),
{
    proof {
        lemma_auto_spec_u32_to_from_le_bytes();
        lemma_auto_spec_u64_to_from_le_bytes();
    }
    let mut total: u64 = 5;
    let mut i: usize = 0;
    while i < fs.len()
        invariant
            0 <= i <= fs@.len(),
            fs@.len() < 0x1_0000_0000,
            filter_list_wf(fs@),
            total == 5 + enc_filter_list_body(fs@.take(i as int)).len(),
            total <= 5 + 21 * i,
        decreases fs@.len() - i,
    {
        proof {
            lemma_auto_spec_u32_to_from_le_bytes();
            lemma_auto_spec_u64_to_from_le_bytes();
            assert(fs@.take(i + 1 as int) =~= fs@.take(i as int).push(fs@[i as int]));
            lemma_enc_filter_list_snoc(fs@.take(i as int), fs@[i as int]);
        }
        let entry: u64 = match &fs[i] {
            GenericFilter::DropShadow(_) => 17,
            GenericFilter::Url(_) => 9,
            _ => 5,
        };
        total = total + entry;
        i = i + 1;
    }
    proof {
        assert(fs@.take(fs@.len() as int) =~= fs@);
    }
    total
}

/// Decodes a filter-chain message.  Succeeds exactly on the byte
/// sequences that some well-formed chain encodes to; a wrong leading
/// version byte is the version-mismatch error, anything else malformed.
pub fn decode_filter_list(bytes: &Vec<u8>) -> (r: Result<Vec<ComputedFilter>, DecodeError>)
    ensures
        r is Ok <==> dec_filter_list_msg(bytes@) is Some,
        r is Ok ==> r.unwrap()@ == dec_filter_list_msg(bytes@).unwrap() && filter_list_wf(
            r.unwrap()@,
        ),
        r == Result::<Vec<ComputedFilter>, DecodeError>::Err(DecodeError::VersionMismatch) <==> (
        bytes@.len() >= 1 && bytes@[0] != ENCODING_VERSION),
{
    if bytes.len() < 1 {
        return Err(DecodeError::Malformed);
    }
    if bytes[0] != ENCODING_VERSION {
        return Err(DecodeError::VersionMismatch);
    }
    proof {
        assert(bytes@.skip(0).skip(1) =~= bytes@.skip(1));
        assert(bytes@.skip(0) =~= bytes@);
    }
    let (count, start) = match read_u32(bytes, 1) {
        Some(x) => x,
        None => {
            return Err(DecodeError::Malformed);
        },
    };
    let ghost s1 = bytes@.skip(start as int);
    let mut out: Vec<ComputedFilter> = Vec::new();
    let mut pos: usize = start;
    let mut i: u32 = 0;
    while i < count
        invariant
            0 <= i <= count,
            pos <= bytes@.len(),
            out@.len() == i,
            filter_list_wf(out@),
            dec_u32(bytes@.skip(1)) == Some((count, s1)),
            bytes@.len() >= 1 && bytes@[0] == ENCODING_VERSION,
            match dec_filter_entries(bytes@.skip(pos as int), (count - i) as nat) {
                Option::Some((fs, rest)) => dec_filter_entries(s1, count as nat) == Some(
                    (out@ + fs, rest),
                ),
                Option::None => dec_filter_entries(s1, count as nat) is None,
            },
        decreases count - i,
    {
        match read_filter(bytes, pos) {
            Some((f, next)) => {
                proof {
                    let remaining = (count - i) as nat;
                    assert(dec_filter_entries(bytes@.skip(pos as int), remaining) == match
                        dec_filter_entries(bytes@.skip(next as int), (remaining - 1) as nat) {
                        Option::Some((fs2, rest)) => Option::Some((seq![f] + fs2, rest)),
                        Option::None => Option::<(Seq<ComputedFilter>, Seq<u8>)>::None,
                    });
                    if dec_filter_entries(bytes@.skip(next as int), (count - i - 1) as nat)
                        is Some {
                        let (fs2, rest) = dec_filter_entries(
                            bytes@.skip(next as int),
                            (count - i - 1) as nat,
                        ).unwrap();
                        assert(out@ + (seq![f] + fs2) =~= out@.push(f) + fs2);
                    }
                }
                out.push(f);
                pos = next;
            },
            None => {
                return Err(DecodeError::Malformed);
            },
        }
        i = i + 1;
    }
    proof {
        assert(dec_filter_entries(bytes@.skip(pos as int), 0) == Some(
            (Seq::<ComputedFilter>::empty(), bytes@.skip(pos as int)),
        ));
        assert(out@ + Seq::<ComputedFilter>::empty() =~= out@);
    }
    if pos != bytes.len() {
        return Err(DecodeError::Malformed);
    }
    proof {
        assert(bytes@.skip(pos as int).len() == 0);
    }
    Ok(out)
}

/// Byte layout of a batch of box shadows: the bodies in order.
pub open spec fn enc_box_shadow_batch_body(vs: Seq<ComputedBoxShadow>) -> Seq<u8>
    decreases vs.len(),
{
    if vs.len() == 0 {
        Seq::empty()
    } else {
        enc_box_shadow_body(vs[0]) + enc_box_shadow_batch_body(vs.skip(1))
    }
}

/// The complete batch message: version byte, count, then the bodies.
pub open spec fn enc_box_shadow_batch_msg(vs: Seq<ComputedBoxShadow>) -> Seq<u8> {
    seq![ENCODING_VERSION] + spec_u32_to_le_bytes(vs.len() as u32) + enc_box_shadow_batch_body(vs)
}

/// Exact size of an encoded batch message: the five header bytes plus
/// twenty-one per shadow.
pub open spec fn box_shadow_batch_msg_size(vs: Seq<ComputedBoxShadow>) -> int {
    5 + 21 * (vs.len() as int)
}

/// Reads `n` box-shadow bodies.
pub open spec fn dec_shadow_entries(s: Seq<u8>, n: nat) -> Option<(Seq<ComputedBoxShadow>, Seq<u8>)>
    decreases n,
{
    if n == 0 {
        Some((Seq::empty(), s))
    } else {
        match dec_box_shadow_body(s) {
            Option::Some((v, s1)) => match dec_shadow_entries(s1, (n - 1) as nat) {
                Option::Some((vs, s2)) => Some((seq![v] + vs, s2)),
                Option::None => None,
            },
            Option::None => None,
        }
    }
}

/// What a batch message decodes to.
pub open spec fn dec_box_shadow_batch_msg(s: Seq<u8>) -> Option<Seq<ComputedBoxShadow>> {
    if s.len() >= 1 && s[0] == ENCODING_VERSION {
        match dec_u32(s.skip(1)) {
            Option::Some((n, s1)) => match dec_shadow_entries(s1, n as nat) {
                Option::Some((vs, rest)) => if rest.len() == 0 {
                    Some(vs)
                } else {
                    None
                },
                Option::None => None,
            },
            Option::None => None,
        }
    } else {
        None
    }
}

/// A box-shadow body always takes twenty-one bytes.
pub proof fn lemma_box_shadow_body_len(v: ComputedBoxShadow)
    ensures
        enc_box_shadow_body(v).len() == 21,
{
    lemma_auto_spec_u32_to_from_le_bytes();
}

/// A batch body's length is twenty-one bytes per shadow.
pub proof fn lemma_box_shadow_batch_body_len(vs: Seq<ComputedBoxShadow>)
    ensures
        enc_box_shadow_batch_body(vs).len() == 21 * vs.len(),
    decreases vs.len(),
{
    if vs.len() > 0 {
        lemma_box_shadow_body_len(vs[0]);
        lemma_box_shadow_batch_body_len(vs.skip(1));
    }
}

/// Appending a shadow to a batch appends its bytes to the batch's.
pub proof fn lemma_enc_batch_snoc(vs: Seq<ComputedBoxShadow>, v: ComputedBoxShadow)
    ensures
        enc_box_shadow_batch_body(vs.push(v)) == enc_box_shadow_batch_body(vs)
            + enc_box_shadow_body(v),
    decreases vs.len(),
{
    if vs.len() == 0 {
        assert(vs.push(v)[0] == v);
        assert(vs.push(v).skip(1) =~= Seq::<ComputedBoxShadow>::empty());
        assert(enc_box_shadow_batch_body(vs.push(v)) == enc_box_shadow_body(v)
            + enc_box_shadow_batch_body(Seq::<ComputedBoxShadow>::empty()));
        assert(enc_box_shadow_body(v) + Seq::<u8>::empty() =~= Seq::<u8>::empty()
            + enc_box_shadow_body(v));
    } else {
        assert(vs.push(v)[0] == vs[0]);
        assert(vs.push(v).skip(1) =~= vs.skip(1).push(v));
        lemma_enc_batch_snoc(vs.skip(1), v);
        assert(enc_box_shadow_batch_body(vs.push(v)) == enc_box_shadow_body(vs[0])
            + enc_box_shadow_batch_body(vs.skip(1).push(v)));
        assert(enc_box_shadow_batch_body(vs) == enc_box_shadow_body(vs[0])
            + enc_box_shadow_batch_body(vs.skip(1)));
        assert(enc_box_shadow_body(vs[0]) + (enc_box_shadow_batch_body(vs.skip(1))
            + enc_box_shadow_body(v)) =~= (enc_box_shadow_body(vs[0]) + enc_box_shadow_batch_body(
            vs.skip(1),
        )) + enc_box_shadow_body(v));
    }
}

/// Reading back `n` bodies undoes writing a batch of `n`.
pub proof fn lemma_shadow_entries_roundtrip(vs: Seq<ComputedBoxShadow>, rest: Seq<u8>)
    requires
        forall|i: int| 0 <= i < vs.len() ==> computed_box_shadow_wf(#[trigger] vs[i]),
    ensures
        dec_shadow_entries(enc_box_shadow_batch_body(vs) + rest, vs.len()) == Some((vs, rest)),
    decreases vs.len(),
{
    if vs.len() == 0 {
        assert(enc_box_shadow_batch_body(vs) + rest =~= rest);
    } else {
        let tail = vs.skip(1);
        assert(enc_box_shadow_batch_body(vs) + rest =~= enc_box_shadow_body(vs[0]) + (
        enc_box_shadow_batch_body(tail) + rest));
        lemma_box_shadow_body_roundtrip(vs[0], enc_box_shadow_batch_body(tail) + rest);
        lemma_shadow_entries_roundtrip(tail, rest);
        assert(seq![vs[0]] + tail =~= vs);
    }
}

/// The round-trip law for batches: decoding an encoded batch yields the
/// batch itself.
pub proof fn lemma_box_shadow_batch_roundtrip(vs: Seq<ComputedBoxShadow>)
    requires
        forall|i: int| 0 <= i < vs.len() ==> computed_box_shadow_wf(#[trigger] vs[i]),
        vs.len() < 0x1_0000_0000,
    ensures
        dec_box_shadow_batch_msg(enc_box_shadow_batch_msg(vs)) == Some(vs),
{
    lemma_auto_spec_u32_to_from_le_bytes();
    let s = enc_box_shadow_batch_msg(vs);
    let n = vs.len() as u32;
    assert(s[0] == ENCODING_VERSION);
    assert(s.skip(1) =~= spec_u32_to_le_bytes(n) + enc_box_shadow_batch_body(vs));
    assert(s.skip(1).subrange(0, 4) =~= spec_u32_to_le_bytes(n));
    assert(s.skip(1).skip(4) =~= enc_box_shadow_batch_body(vs) + Seq::<u8>::empty());
    lemma_shadow_entries_roundtrip(vs, Seq::<u8>::empty());
}

/// Reads one box-shadow body at `pos`.
fn read_box_shadow_body(bytes: &Vec<u8>, pos: usize) -> (r: Option<(ComputedBoxShadow, usize)>)
    requires
        pos <= bytes@.len(),
    ensures
        match r {
            Option::Some((v, next)) => {
                &&& pos <= next <= bytes@.len()
                &&& computed_box_shadow_wf(v)
                &&& dec_box_shadow_body(bytes@.skip(pos as int)) == Some(
                    (v, bytes@.skip(next as int)),
                )
            },
            Option::None => dec_box_shadow_body(bytes@.skip(pos as int)) is None,
        },
{
    let (base, p1) = match read_simple_shadow(bytes, pos) {
        Some(x) => x,
        None => {
            return None;
        },
    };
    let (spread, p2) = match read_axis(bytes, p1) {
        Some(x) => x,
        None => {
            return None;
        },
    };
    let (inset, p3) = match read_bool(bytes, p2) {
        Some(x) => x,
        None => {
            return None;
        },
    };
    Some((GenericBoxShadow { base, spread: Length { au: spread }, inset }, p3))
}

/// Appends the byte layout of one box-shadow body.
fn push_box_shadow_body(out: &mut Vec<u8>, v: &ComputedBoxShadow)
    requires
        computed_box_shadow_wf(*v),
    ensures
        final(out)@ == old(out)@ + enc_box_shadow_body(*v),
{
    push_rgba(out, &v.base.color);
    push_axis(out, v.base.horizontal.au);
    push_axis(out, v.base.vertical.au);
    push_axis(out, v.base.blur.au);
    push_axis(out, v.spread.au);
    out.push(if v.inset {
        1
    } else {
        0
    });
    proof {
        assert(final(out)@ =~= old(out)@ + enc_box_shadow_body(*v));
    }
}

/// Encodes a batch of resolved box shadows into one shareable message
/// and reports the emitted size to the accounting sink.  The sink's
/// total grows by exactly the length of the returned byte sequence.
pub fn encode_box_shadow_batch(vs: &Vec<ComputedBoxShadow>, sink: &mut AccountingSink) -> (out: Vec<
    u8,
>)
    requires
        forall|i: int| 0 <= i < vs@.len() ==> computed_box_shadow_wf(#[trigger] vs@[i]),
        vs@.len() < 0x1_0000_0000,
        old(sink).total + box_shadow_batch_msg_size(vs@) <= u64::MAX,
    ensures
        out@ == enc_box_shadow_batch_msg(vs@),
        out@.len() == box_shadow_batch_msg_size(vs@),
        final(sink).total == old(sink).total + out@.len(),
{
    proof {
        lemma_auto_spec_u32_to_from_le_bytes();
    }
    let mut out: Vec<u8> = Vec::new();
    out.push(ENCODING_VERSION);
    let mut count = u32_to_le_bytes(vs.len() as u32);
    out.append(&mut count);
    let ghost header = out@;
    let mut i: usize = 0;
    while i < vs.len()
        invariant
            0 <= i <= vs@.len(),
            vs@.len() < 0x1_0000_0000,
            forall|j: int| 0 <= j < vs@.len() ==> computed_box_shadow_wf(#[trigger] vs@[j]),
            header.len() == 5,
            out@ == header + enc_box_shadow_batch_body(vs@.take(i as int)),
        decreases vs@.len() - i,
    {
        push_box_shadow_body(&mut out, &vs[i]);
        proof {
            assert(vs@.take(i + 1 as int) =~= vs@.take(i as int).push(vs@[i as int]));
            lemma_enc_batch_snoc(vs@.take(i as int), vs@[i as int]);
            assert(out@ =~= header + enc_box_shadow_batch_body(vs@.take(i + 1 as int)));
        }
        i = i + 1;
    }
    proof {
        assert(vs@.take(vs@.len() as int) =~= vs@);
        assert(out@ =~= enc_box_shadow_batch_msg(vs@));
        lemma_box_shadow_batch_body_len(vs@);
    }
    let emitted: u64 = (out.len() as u64);
    sink.record(emitted);
    out
}

/// Reports the exact number of bytes [`encode_box_shadow_batch`] emits
/// for a batch, so a shared buffer can be sized before encoding.
pub fn box_shadow_batch_encoded_size(vs: &Vec<ComputedBoxShadow>) -> (r: u64)
    requires
        vs@.len() < 0x1_0000_0000,
    ensures
        r == box_shadow_batch_msg_size(vs@),
        r == enc_box_shadow_batch_msg(vs@).len(),
{
    proof {
        lemma_auto_spec_u32_to_from_le_bytes();
        lemma_box_shadow_batch_body_len(vs@);
    }
    5 + 21 * (vs.len() as u64)
}

/// Decodes a batch message.  Succeeds exactly on the byte sequences that
/// some batch of well-formed box shadows encodes to.
pub fn decode_box_shadow_batch(bytes: &Vec<u8>) -> (r: Result<Vec<ComputedBoxShadow>, DecodeError>)
    ensures
        r is Ok <==> dec_box_shadow_batch_msg(bytes@) is Some,
        r is Ok ==> r.unwrap()@ == dec_box_shadow_batch_msg(bytes@).unwrap() && forall|i: int|
            0 <= i < r.unwrap()@.len() ==> computed_box_shadow_wf(#[trigger] r.unwrap()@[i]),
        r == Result::<Vec<ComputedBoxShadow>, DecodeError>::Err(DecodeError::VersionMismatch) <==> (
        bytes@.len() >= 1 && bytes@[0] != ENCODING_VERSION),
{
    if bytes.len() < 1 {
        return Err(DecodeError::Malformed);
    }
    if bytes[0] != ENCODING_VERSION {
        return Err(DecodeError::VersionMismatch);
    }
    proof {
        assert(bytes@.skip(0).skip(1) =~= bytes@.skip(1));
        assert(bytes@.skip(0) =~= bytes@);
    }
    let (count, start) = match read_u32(bytes, 1) {
        Some(x) => x,
        None => {
            return Err(DecodeError::Malformed);
        },
    };
    let ghost s1 = bytes@.skip(start as int);
    let mut out: Vec<ComputedBoxShadow> = Vec::new();
    let mut pos: usize = start;
    let mut i: u32 = 0;
    while i < count
        invariant
            0 <= i <= count,
            pos <= bytes@.len(),
            out@.len() == i,
            forall|j: int| 0 <= j < out@.len() ==> computed_box_shadow_wf(#[trigger] out@[j]),
            dec_u32(bytes@.skip(1)) == Some((count, s1)),
            bytes@.len() >= 1 && bytes@[0] == ENCODING_VERSION,
            match dec_shadow_entries(bytes@.skip(pos as int), (count - i) as nat) {
                Option::Some((vs, rest)) => dec_shadow_entries(s1, count as nat) == Some(
                    (out@ + vs, rest),
                ),
                Option::None => dec_shadow_entries(s1, count as nat) is None,
            },
        decreases count - i,
    {
        match read_box_shadow_body(bytes, pos) {
            Some((v, next)) => {
                proof {
                    let remaining = (count - i) as nat;
                    assert(dec_shadow_entries(bytes@.skip(pos as int), remaining) == match
                        dec_shadow_entries(bytes@.skip(next as int), (remaining - 1) as nat) {
                        Option::Some((vs2, rest)) => Option::Some((seq![v] + vs2, rest)),
                        Option::None => Option::<(Seq<ComputedBoxShadow>, Seq<u8>)>::None,
                    });
                    if dec_shadow_entries(bytes@.skip(next as int), (count - i - 1) as nat)
                        is Some {
                        let (vs2, rest) = dec_shadow_entries(
                            bytes@.skip(next as int),
                            (count - i - 1) as nat,
                        ).unwrap();
                        assert(out@ + (seq![v] + vs2) =~= out@.push(v) + vs2);
                    }
                }
                out.push(v);
                pos = next;
            },
            None => {
                return Err(DecodeError::Malformed);
            },
        }
        i = i + 1;
    }
    proof {
        assert(dec_shadow_entries(bytes@.skip(pos as int), 0) == Some(
            (Seq::<ComputedBoxShadow>::empty(), bytes@.skip(pos as int)),
        ));
        assert(out@ + Seq::<ComputedBoxShadow>::empty() =~= out@);
    }
    if pos != bytes.len() {
        return Err(DecodeError::Malformed);
    }
    proof {
        assert(bytes@.skip(pos as int).len() == 0);
    }
    Ok(out)
}

/// A per-worker size-accounting sink.  Capability operations report the
/// bytes their encodings take here; each parallel worker owns one sink
/// and the totals are merged after the workers join, so no counter is
/// ever contended.
#[derive(Clone, Copy, Debug, PartialEq, Eq, Structural)]
pub struct AccountingSink {
    /// Total bytes reported so far.
    pub total: u64,
}

impl AccountingSink {
    /// A fresh sink with nothing reported.
    pub fn new() -> (r: AccountingSink)
        ensures
            r.total == 0,
    {
        AccountingSink { total: 0 }
    }

    /// Reports `bytes` more bytes of encoded output.
    pub fn record(&mut self, bytes: u64)
        requires
            old(self).total + bytes <= u64::MAX,
        ensures
            final(self).total == old(self).total + bytes,
    {
        self.total = self.total + bytes;
    }

    /// Folds another worker's finished sink into this one.
    pub fn merge(&mut self, other: &AccountingSink)
        requires
            old(self).total + other.total <= u64::MAX,
        ensures
            final(self).total == old(self).total + other.total,
    {
        self.total = self.total + other.total;
    }
}

/// Tears down a worker's accounting sink, yielding its accumulated byte
/// total for the cross-worker merge.
pub fn deinit(sink: AccountingSink) -> (r: u64)
    ensures
        r == sink.total,
{
    sink.total
}

} // verus!
