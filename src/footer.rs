//! The text footer that follows the pixel bytes: synthesis and parsing.
//!
//! Two schemes exist. The legacy footer is
//! `"\nWidth:<W>\nHeight:<H>\n"`. The current footer is
//! `"\n" hex("Height") ": " <H> "\n" hex("Width") ": " <W> "\n" "0x56-0x46-0x58: 0x03"`,
//! where only the bare field names are hex-encoded (no trailing colon); the
//! parser matches exactly those bytes.
//!
//! A footer is always three newlines long. The parser locates it from the end
//! of the payload: everything before the third newline from the end is pixel
//! data, so the footer's length never has to be inferred from digit counts and
//! pixel bytes that happen to look like footer text do not disturb it.
//! Footers are ASCII and are read byte by byte, so pixel bytes that are not
//! valid UTF-8 never get in the way.
use vstd::prelude::*;

use crate::error::{CodecError, Field};
use crate::text::{
    contains, contains_bytes, copy_range, decimal, decimal_bytes, find_byte, find_from,
    last_before, last_byte_before, lemma_find_from_range, lemma_last_before_range,
    parse_decimal, parse_u32, trim, trim_bounds,
};

verus! {

/// Which footer layout (and which compressor) a container uses.
#[derive(Clone, Copy, Debug, PartialEq, Eq, Structural)]
pub enum FooterScheme {
    Legacy,
    Current,
}

/// The fields read from a footer, and where the pixel bytes end.
#[derive(Clone, Copy, Debug, PartialEq, Eq, Structural)]
pub struct FooterInfo {
    pub width: u32,
    pub height: u32,
    /// The signature differs from the one this codec writes.
    pub notice: bool,
    /// Length of the pixel-bearing prefix of the payload.
    pub pixel_end: usize,
}

pub const NL: u8 = 10;

pub const COLON: u8 = 58;

/// Lower-case hexadecimal digit of `v < 16`.
pub open spec fn hex_digit(v: int) -> u8 {
    if v < 10 {
        (48 + v) as u8
    } else {
        (87 + v) as u8
    }
}

/// Two lower-case hexadecimal digits per byte, high nibble first.
pub open spec fn hex_of(s: Seq<u8>) -> Seq<u8>
    decreases s.len(),
{
    if s.len() == 0 {
        Seq::empty()
    } else {
        hex_of(s.drop_last()).push(hex_digit(s.last() as int / 16)).push(hex_digit(s.last() as int % 16))
    }
}

/// `Width`
pub open spec fn width_name() -> Seq<u8> {
    seq![87, 105, 100, 116, 104]
}

/// `Height`
pub open spec fn height_name() -> Seq<u8> {
    seq![72, 101, 105, 103, 104, 116]
}

/// `: `
pub open spec fn separator() -> Seq<u8> {
    seq![58, 32]
}

/// `0x56-0x46-0x58`, the marker of the signature line ("VFX" in hex).
pub open spec fn signature_marker() -> Seq<u8> {
    seq![48, 120, 53, 54, 45, 48, 120, 52, 54, 45, 48, 120, 53, 56]
}

/// `0x03`, the format version this codec writes.
pub open spec fn signature_version() -> Seq<u8> {
    seq![48, 120, 48, 51]
}

/// The label that marks a field's line in the given scheme.
pub open spec fn marker(scheme: FooterScheme, field: Field) -> Seq<u8> {
    match scheme {
        FooterScheme::Legacy => if field == Field::Width {
            width_name().push(COLON)
        } else {
            height_name().push(COLON)
        },
        FooterScheme::Current => if field == Field::Width {
            hex_of(width_name())
        } else {
            hex_of(height_name())
        },
    }
}

/// The current footer, with `version` as the signature's value.
pub open spec fn current_footer(width: u32, height: u32, version: Seq<u8>) -> Seq<u8> {
    let scheme = FooterScheme::Current;
    seq![NL] + marker(scheme, Field::Height) + separator() + decimal(height as nat) + seq![NL]
        + marker(scheme, Field::Width) + separator() + decimal(width as nat) + seq![NL]
        + signature_marker() + separator() + version
}

/// The bytes appended after the pixels of a `width` by `height` raster.
pub open spec fn spec_footer(width: u32, height: u32, scheme: FooterScheme) -> Seq<u8> {
    match scheme {
        FooterScheme::Legacy => seq![NL] + marker(scheme, Field::Width) + decimal(width as nat)
            + seq![NL] + marker(scheme, Field::Height) + decimal(height as nat) + seq![NL],
        FooterScheme::Current => current_footer(width, height, signature_version()),
    }
}

/// The text between the first colon of `line` and the next colon (or the end).
pub open spec fn value_segment(line: Seq<u8>) -> Seq<u8> {
    let c = find_from(line, COLON, 0);
    line.subrange(c + 1, find_from(line, COLON, c + 1))
}

/// Reading one numeric field from its line.
pub open spec fn spec_read_field(line: Seq<u8>, label: Seq<u8>, field: Field) -> Result<
    u32,
    CodecError,
> {
    if !contains(line, label) {
        Err(CodecError::FieldNotFound(field))
    } else if find_from(line, COLON, 0) >= line.len() {
        Err(CodecError::MalformedValue(field))
    } else {
        match parse_u32(trim(value_segment(line))) {
            Some(v) => Ok(v),
            None => Err(CodecError::MalformedValue(field)),
        }
    }
}

/// Reading the signature line: `Ok(true)` when its version differs from the
/// one this codec writes.
pub open spec fn spec_read_signature(line: Seq<u8>) -> Result<bool, CodecError> {
    if !contains(line, signature_marker()) {
        Err(CodecError::FieldNotFound(Field::Signature))
    } else if find_from(line, COLON, 0) >= line.len() {
        Err(CodecError::MalformedValue(Field::Signature))
    } else {
        Ok(trim(value_segment(line)) != signature_version())
    }
}

/// Positions of the last three newlines of `p`, in order (-1 where absent).
#[verifier::opaque]
pub open spec fn footer_breaks(p: Seq<u8>) -> (int, int, int) {
    let n3 = last_before(p, NL, p.len() as int);
    let n2 = last_before(p, NL, n3);
    let n1 = last_before(p, NL, n2);
    (n1, n2, n3)
}

/// Parsing the footer of a decompressed payload.
pub open spec fn spec_parse_footer(p: Seq<u8>, scheme: FooterScheme) -> Result<
    FooterInfo,
    CodecError,
> {
    let (n1, n2, n3) = footer_breaks(p);
    let l1 = p.subrange(n1 + 1, n2);
    let l2 = p.subrange(n2 + 1, n3);
    let l3 = p.subrange(n3 + 1, p.len() as int);
    match scheme {
        FooterScheme::Current => if n1 < 0 {
            Err(CodecError::FieldNotFound(Field::Height))
        } else {
            match spec_read_field(l1, marker(scheme, Field::Height), Field::Height) {
                Err(e) => Err(e),
                Ok(h) => match spec_read_field(l2, marker(scheme, Field::Width), Field::Width) {
                    Err(e) => Err(e),
                    Ok(w) => match spec_read_signature(l3) {
                        Err(e) => Err(e),
                        Ok(notice) => Ok(
                            FooterInfo { width: w, height: h, notice, pixel_end: n1 as usize },
                        ),
                    },
                },
            }
        },
        FooterScheme::Legacy => if n1 < 0 {
            Err(CodecError::FieldNotFound(Field::Width))
        } else {
            match spec_read_field(l1, marker(scheme, Field::Width), Field::Width) {
                Err(e) => Err(e),
                Ok(w) => match spec_read_field(l2, marker(scheme, Field::Height), Field::Height) {
                    Err(e) => Err(e),
                    Ok(h) => Ok(
                        FooterInfo { width: w, height: h, notice: false, pixel_end: n1 as usize },
                    ),
                },
            }
        },
    }
}

/// Relies on `hex::encode`: two lower-case hexadecimal digits per byte, high
/// nibble first.
#[verifier::external_body]
fn hex_encode(bytes: &[u8]) -> (r: Vec<u8>)
    ensures
        r@ == hex_of(bytes@),
{
    hex::encode(bytes).into_bytes()
}

fn width_name_bytes() -> (r: Vec<u8>)
    ensures
        r@ == width_name(),
{
    // "Width"
    let r = vec![87u8, 105, 100, 116, 104];
    assert(r@ =~= width_name());
    r
}

fn height_name_bytes() -> (r: Vec<u8>)
    ensures
        r@ == height_name(),
{
    // "Height"
    let r = vec![72u8, 101, 105, 103, 104, 116];
    assert(r@ =~= height_name());
    r
}

fn signature_marker_bytes() -> (r: Vec<u8>)
    ensures
        r@ == signature_marker(),
{
    // "0x56-0x46-0x58"
    let r = vec![48u8, 120, 53, 54, 45, 48, 120, 52, 54, 45, 48, 120, 53, 56];
    assert(r@ =~= signature_marker());
    r
}

fn signature_version_bytes() -> (r: Vec<u8>)
    ensures
        r@ == signature_version(),
{
    // "0x03"
    let r = vec![48u8, 120, 48, 51];
    assert(r@ =~= signature_version());
    r
}

/// The label bytes that mark `field`'s line in `scheme`.
fn marker_bytes(scheme: FooterScheme, field: Field) -> (r: Vec<u8>)
    requires
        field != Field::Signature,
    ensures
        r@ == marker(scheme, field),
{
    let mut name = if field == Field::Width {
        width_name_bytes()
    } else {
        height_name_bytes()
    };
    match scheme {
        FooterScheme::Legacy => {
            name.push(COLON);
            name
        },
        FooterScheme::Current => hex_encode(name.as_slice()),
    }
}

/// Appends `s` to `out`.
fn append_bytes(out: &mut Vec<u8>, s: &[u8])
    ensures
        final(out)@ == old(out)@ + s@,
{
    let mut i: usize = 0;
    while i < s.len()
        invariant
            i <= s@.len(),
            out@ == old(out)@ + s@.subrange(0, i as int),
        decreases s@.len() - i,
    {
        out.push(s[i]);
        assert(out@ =~= old(out)@ + s@.subrange(0, i + 1));
        i = i + 1;
    }
    assert(s@.subrange(0, s@.len() as int) =~= s@);
}

/// Appends `label`, an optional `": "`, and `value` in decimal.
fn append_field(out: &mut Vec<u8>, label: &[u8], spaced: bool, value: u32)
    ensures
        final(out)@ == old(out)@ + label@ + (if spaced {
            separator()
        } else {
            Seq::empty()
        }) + decimal(value as nat),
{
    append_bytes(out, label);
    if spaced {
        out.push(COLON);
        out.push(32u8);
    }
    let digits = decimal_bytes(value);
    append_bytes(out, digits.as_slice());
    assert(final(out)@ =~= old(out)@ + label@ + (if spaced {
        separator()
    } else {
        Seq::empty()
    }) + decimal(value as nat));
}

/// Appends the footer of a `width` by `height` raster in `scheme` to `out`.
pub fn write_footer(out: &mut Vec<u8>, width: u32, height: u32, scheme: FooterScheme)
    ensures
        final(out)@ == old(out)@ + spec_footer(width, height, scheme),
{
    out.push(NL);
    match scheme {
        FooterScheme::Legacy => {
            let w = marker_bytes(scheme, Field::Width);
            append_field(out, w.as_slice(), false, width);
            out.push(NL);
            let h = marker_bytes(scheme, Field::Height);
            append_field(out, h.as_slice(), false, height);
            out.push(NL);
        },
        FooterScheme::Current => {
            let h = marker_bytes(scheme, Field::Height);
            append_field(out, h.as_slice(), true, height);
            out.push(NL);
            let w = marker_bytes(scheme, Field::Width);
            append_field(out, w.as_slice(), true, width);
            out.push(NL);
            let sig = signature_marker_bytes();
            append_bytes(out, sig.as_slice());
            out.push(COLON);
            out.push(32u8);
            let version = signature_version_bytes();
            append_bytes(out, version.as_slice());
        },
    }
    assert(final(out)@ =~= old(out)@ + spec_footer(width, height, scheme));
}

/// The trimmed value between the first colon of `line` and the next one, or
/// `None` when `line` has no colon.
fn read_value(line: &[u8]) -> (r: Option<Vec<u8>>)
    ensures
        match r {
            Some(v) => find_from(line@, COLON, 0) < line@.len() && v@ == trim(value_segment(line@)),
            None => find_from(line@, COLON, 0) >= line@.len(),
        },
{
    let c = find_byte(line, COLON, 0);
    if c >= line.len() {
        return None;
    }
    let c2 = find_byte(line, COLON, c + 1);
    proof {
        lemma_find_from_range(line@, COLON, c + 1);
    }
    let seg = copy_range(line, c + 1, c2);
    let (lo, hi) = trim_bounds(seg.as_slice());
    Some(copy_range(seg.as_slice(), lo, hi))
}

/// Reads the numeric field marked by `label` from `line`.
pub fn read_field(line: &[u8], label: &[u8], field: Field) -> (r: Result<u32, CodecError>)
    ensures
        r == spec_read_field(line@, label@, field),
{
    if !contains_bytes(line, label) {
        return Err(CodecError::FieldNotFound(field));
    }
    match read_value(line) {
        None => Err(CodecError::MalformedValue(field)),
        Some(v) => match parse_decimal(v.as_slice()) {
            Some(n) => Ok(n),
            None => Err(CodecError::MalformedValue(field)),
        },
    }
}

/// Reads the signature line; `Ok(true)` when its version is not the one this
/// codec writes, which callers surface as a compatibility notice.
pub fn read_signature(line: &[u8]) -> (r: Result<bool, CodecError>)
    ensures
        r == spec_read_signature(line@),
{
    let sig = signature_marker_bytes();
    if !contains_bytes(line, sig.as_slice()) {
        return Err(CodecError::FieldNotFound(Field::Signature));
    }
    match read_value(line) {
        None => Err(CodecError::MalformedValue(Field::Signature)),
        Some(v) => {
            let version = signature_version_bytes();
            let same = bytes_equal(v.as_slice(), version.as_slice());
            Ok(!same)
        },
    }
}

fn bytes_equal(a: &[u8], b: &[u8]) -> (r: bool)
    ensures
        r == (a@ == b@),
{
    if a.len() != b.len() {
        return false;
    }
    let mut i: usize = 0;
    while i < a.len()
        invariant
            a@.len() == b@.len(),
            i <= a@.len(),
            forall|t: int| 0 <= t < i ==> a@[t] == b@[t],
        decreases a@.len() - i,
    {
        if a[i] != b[i] {
            return false;
        }
        i = i + 1;
    }
    assert(a@ =~= b@);
    true
}

/// Parses the footer of a decompressed payload in the given scheme.
pub fn parse_footer(p: &[u8], scheme: FooterScheme) -> (r: Result<FooterInfo, CodecError>)
    ensures
        r == spec_parse_footer(p@, scheme),
        r is Ok ==> r->Ok_0.pixel_end as int == footer_breaks(p@).0,
        r is Ok ==> r->Ok_0.pixel_end <= p@.len(),
{
    reveal(footer_breaks);
    let first = match scheme {
        FooterScheme::Current => Field::Height,
        FooterScheme::Legacy => Field::Width,
    };
    let n3 = match last_byte_before(p, NL, p.len()) {
        Some(k) => k,
        None => {
            return Err(CodecError::FieldNotFound(first));
        },
    };
    proof {
        lemma_last_before_range(p@, NL, p@.len() as int);
    }
    let n2 = match last_byte_before(p, NL, n3) {
        Some(k) => k,
        None => {
            return Err(CodecError::FieldNotFound(first));
        },
    };
    proof {
        lemma_last_before_range(p@, NL, n3 as int);
    }
    let n1 = match last_byte_before(p, NL, n2) {
        Some(k) => k,
        None => {
            return Err(CodecError::FieldNotFound(first));
        },
    };
    proof {
        lemma_last_before_range(p@, NL, n2 as int);
    }
    let l1 = copy_range(p, n1 + 1, n2);
    let l2 = copy_range(p, n2 + 1, n3);
    match scheme {
        FooterScheme::Current => {
            let h = match read_field(
                l1.as_slice(),
                marker_bytes(scheme, Field::Height).as_slice(),
                Field::Height,
            ) {
                Ok(v) => v,
                Err(e) => return Err(e),
            };
            let w = match read_field(
                l2.as_slice(),
                marker_bytes(scheme, Field::Width).as_slice(),
                Field::Width,
            ) {
                Ok(v) => v,
                Err(e) => return Err(e),
            };
            let l3 = copy_range(p, n3 + 1, p.len());
            let notice = match read_signature(l3.as_slice()) {
                Ok(v) => v,
                Err(e) => return Err(e),
            };
            Ok(FooterInfo { width: w, height: h, notice, pixel_end: n1 })
        },
        FooterScheme::Legacy => {
            let w = match read_field(
                l1.as_slice(),
                marker_bytes(scheme, Field::Width).as_slice(),
                Field::Width,
            ) {
                Ok(v) => v,
                Err(e) => return Err(e),
            };
            let h = match read_field(
                l2.as_slice(),
                marker_bytes(scheme, Field::Height).as_slice(),
                Field::Height,
            ) {
                Ok(v) => v,
                Err(e) => return Err(e),
            };
            Ok(FooterInfo { width: w, height: h, notice: false, pixel_end: n1 })
        },
    }
}

} // verus!
