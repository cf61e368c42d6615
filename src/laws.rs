//! What holds of the codec across calls: decoding undoes encoding, an unknown
//! signature version is tolerated, and the legacy parser refuses current
//! payloads.
use vstd::prelude::*;

use crate::compression::zstd_inflate;
use crate::container::{encodes, spec_decode, spec_decode_payload, spec_inflate, spec_payload, DecodedModel};
use crate::decoder_old::spec_decode_legacy;
use crate::error::{CodecError, Field};
use crate::footer::{
    current_footer, footer_breaks, hex_digit, hex_of, height_name, marker, separator,
    signature_marker, signature_version, spec_read_field,
    spec_read_signature, value_segment, width_name, FooterScheme, COLON, NL,
};
use crate::raster::{grid_len, spec_reconstruct, RasterModel};
use crate::text::{
    contains, decimal, find_from, is_digit, is_space, lemma_decimal_digits, lemma_last_before_range,
    lemma_decimal_no_space, lemma_find_from, lemma_last_before, occurs_at, parse_u32, trim,
    trim_end, trim_start,
};

verus! {

pub open spec fn free_of(s: Seq<u8>, b: u8) -> bool {
    forall|i: int| 0 <= i < s.len() ==> s[i] != b
}

pub open spec fn is_hex_char(b: u8) -> bool {
    (48 <= b <= 57) || (97 <= b <= 102)
}

proof fn lemma_hex_chars(s: Seq<u8>)
    ensures
        forall|i: int| 0 <= i < hex_of(s).len() ==> is_hex_char(#[trigger] hex_of(s)[i]),
    decreases s.len(),
{
    if s.len() > 0 {
        lemma_hex_chars(s.drop_last());
        let h = hex_of(s);
        let q = hex_of(s.drop_last());
        assert(is_hex_char(hex_digit(s.last() as int / 16)));
        assert(is_hex_char(hex_digit(s.last() as int % 16)));
        assert forall|i: int| 0 <= i < h.len() implies is_hex_char(#[trigger] h[i]) by {
            if i < q.len() {
                assert(h[i] == q[i]);
            }
        }
    }
}

/// The last three newlines of `pixels ++ "\n" a "\n" b "\n" c` are the three
/// shown, whatever the pixels hold.
proof fn lemma_footer_breaks(pixels: Seq<u8>, a: Seq<u8>, b: Seq<u8>, c: Seq<u8>)
    requires
        free_of(a, NL),
        free_of(b, NL),
        free_of(c, NL),
    ensures
        ({
            let p = pixels + seq![NL] + a + seq![NL] + b + seq![NL] + c;
            let n1 = pixels.len() as int;
            let n2 = n1 + 1 + a.len();
            let n3 = n2 + 1 + b.len();
            &&& footer_breaks(p) == (n1, n2, n3)
            &&& p.subrange(0, n1) == pixels
            &&& p.subrange(n1 + 1, n2) == a
            &&& p.subrange(n2 + 1, n3) == b
            &&& p.subrange(n3 + 1, p.len() as int) == c
        }),
{
    reveal(footer_breaks);
    let p = pixels + seq![NL] + a + seq![NL] + b + seq![NL] + c;
    let n1 = pixels.len() as int;
    let n2 = n1 + 1 + a.len();
    let n3 = n2 + 1 + b.len();
    assert(p.subrange(0, n1) =~= pixels);
    assert(p.subrange(n1 + 1, n2) =~= a);
    assert(p.subrange(n2 + 1, n3) =~= b);
    assert(p.subrange(n3 + 1, p.len() as int) =~= c);
    assert(p[n1] == NL && p[n2] == NL && p[n3] == NL);
    assert forall|t: int| n3 < t < p.len() implies p[t] != NL by {
        assert(p[t] == p.subrange(n3 + 1, p.len() as int)[t - n3 - 1]);
    }
    lemma_last_before(p, NL, p.len() as int, n3);
    assert forall|t: int| n2 < t < n3 implies p[t] != NL by {
        assert(p[t] == p.subrange(n2 + 1, n3)[t - n2 - 1]);
    }
    lemma_last_before(p, NL, n3, n2);
    assert forall|t: int| n1 < t < n2 implies p[t] != NL by {
        assert(p[t] == p.subrange(n1 + 1, n2)[t - n1 - 1]);
    }
    lemma_last_before(p, NL, n2, n1);
}

proof fn lemma_value_segment(name: Seq<u8>, rest: Seq<u8>)
    requires
        free_of(name, COLON),
        free_of(rest, COLON),
    ensures
        ({
            let line = name + seq![COLON] + rest;
            &&& find_from(line, COLON, 0) == name.len()
            &&& value_segment(line) == rest
        }),
{
    let line = name + seq![COLON] + rest;
    let n = name.len() as int;
    assert forall|t: int| 0 <= t < n implies line[t] != COLON by {
        assert(line[t] == name[t]);
    }
    lemma_find_from(line, COLON, 0, n);
    assert forall|t: int| n + 1 <= t < line.len() implies line[t] != COLON by {
        assert(line[t] == rest[t - n - 1]);
    }
    lemma_find_from(line, COLON, n + 1, line.len() as int);
    assert(line.subrange(n + 1, line.len() as int) =~= rest);
}

proof fn lemma_trim_gap(x: Seq<u8>)
    ensures
        trim(seq![32u8] + x) == trim(x),
{
    let s = seq![32u8] + x;
    assert(is_space(s[0]));
    assert(s.drop_first() =~= x);
    assert(trim_start(s) == trim_start(x));
}

/// A field line `name ":" gap <value>` reads back as `value`.
proof fn lemma_read_decimal_field(
    name: Seq<u8>,
    label: Seq<u8>,
    gap: Seq<u8>,
    v: u32,
    field: Field,
)
    requires
        free_of(name, COLON),
        label == name || label == name.push(COLON),
        gap == Seq::<u8>::empty() || gap == seq![32u8],
    ensures
        spec_read_field(name + seq![COLON] + (gap + decimal(v as nat)), label, field) == Ok::<
            u32,
            CodecError,
        >(v),
{
    let d = decimal(v as nat);
    lemma_decimal_digits(v as nat);
    lemma_decimal_no_space(v as nat);
    let rest = gap + d;
    assert forall|i: int| 0 <= i < rest.len() implies rest[i] != COLON by {
        if i >= gap.len() {
            assert(rest[i] == d[i - gap.len()]);
            assert(is_digit(d[i - gap.len()]));
        }
    }
    lemma_value_segment(name, rest);
    let line = name + seq![COLON] + rest;
    assert(line.subrange(0, label.len() as int) =~= label);
    assert(occurs_at(line, label, 0));
    if gap.len() == 0 {
        assert(rest =~= d);
    } else {
        lemma_trim_gap(d);
    }
    assert(trim(value_segment(line)) == d);
    assert(parse_u32(d) == Some(v));
}

/// A signature line `0x56-0x46-0x58: <version>` reads back as a notice
/// exactly when the trimmed version differs from `0x03`.
proof fn lemma_read_signature_line(version: Seq<u8>)
    requires
        free_of(version, COLON),
    ensures
        spec_read_signature(signature_marker() + separator() + version) == Ok::<bool, CodecError>(
            trim(version) != signature_version(),
        ),
{
    let m = signature_marker();
    let rest = seq![32u8] + version;
    assert(free_of(m, COLON));
    assert forall|i: int| 0 <= i < rest.len() implies rest[i] != COLON by {
        if i >= 1 {
            assert(rest[i] == version[i - 1]);
        }
    }
    lemma_value_segment(m, rest);
    let line = m + seq![COLON] + rest;
    assert(line =~= m + separator() + version);
    assert(line.subrange(0, m.len() as int) =~= m);
    assert(occurs_at(line, m, 0));
    lemma_trim_gap(version);
}

proof fn lemma_name_free(s: Seq<u8>)
    requires
        s == width_name() || s == height_name(),
    ensures
        free_of(s, COLON),
        free_of(s, NL),
{
}

proof fn lemma_hex_name_free(s: Seq<u8>)
    ensures
        free_of(hex_of(s), COLON),
        free_of(hex_of(s), NL),
        free_of(hex_of(s), 87),
{
    lemma_hex_chars(s);
}

/// The bytes of a current field line: all but its separator are hex or decimal digits.
proof fn lemma_current_line_bytes(name: Seq<u8>, v: u32)
    ensures
        ({
            let line = hex_of(name) + separator() + decimal(v as nat);
            &&& free_of(line, NL)
            &&& free_of(line, 87)
            &&& line == hex_of(name) + seq![COLON] + (seq![32u8] + decimal(v as nat))
        }),
{
    let h = hex_of(name);
    let d = decimal(v as nat);
    lemma_hex_chars(name);
    lemma_decimal_digits(v as nat);
    let line = h + separator() + d;
    assert forall|i: int| 0 <= i < line.len() implies line[i] != NL && line[i] != 87 by {
        if i < h.len() {
            assert(line[i] == h[i]);
            assert(is_hex_char(h[i]));
        } else if i >= h.len() + 2 {
            assert(line[i] == d[i - h.len() - 2]);
            assert(is_digit(d[i - h.len() - 2]));
        }
    }
    assert(line =~= h + seq![COLON] + (seq![32u8] + d));
}

proof fn lemma_reconstruct_whole(r: RasterModel)
    requires
        r.wf(),
    ensures
        spec_reconstruct(r.pixels, r.width, r.height) == Ok::<RasterModel, CodecError>(r),
{
    assert(r.pixels.subrange(0, r.pixels.len() as int) =~= r.pixels);
}

/// The current footer as three newline-separated lines after the pixels.
proof fn lemma_current_shape(pixels: Seq<u8>, width: u32, height: u32, version: Seq<u8>)
    ensures
        pixels + current_footer(width, height, version) == pixels + seq![NL] + (hex_of(
            height_name(),
        ) + separator() + decimal(height as nat)) + seq![NL] + (hex_of(width_name())
            + separator() + decimal(width as nat)) + seq![NL] + (signature_marker() + separator()
            + version),
{
    assert(pixels + current_footer(width, height, version) =~= pixels + seq![NL] + (hex_of(
        height_name(),
    ) + separator() + decimal(height as nat)) + seq![NL] + (hex_of(width_name())
        + separator() + decimal(width as nat)) + seq![NL] + (signature_marker() + separator()
        + version));
}

/// Decoding a current payload laid out as pixels and three lines whose
/// fields read back.
proof fn lemma_decode_current_lines(
    r: RasterModel,
    a: Seq<u8>,
    b: Seq<u8>,
    c: Seq<u8>,
    notice: bool,
)
    requires
        r.wf(),
        free_of(a, NL),
        free_of(b, NL),
        free_of(c, NL),
        spec_read_field(a, marker(FooterScheme::Current, Field::Height), Field::Height) == Ok::<
            u32,
            CodecError,
        >(r.height),
        spec_read_field(b, marker(FooterScheme::Current, Field::Width), Field::Width) == Ok::<
            u32,
            CodecError,
        >(r.width),
        spec_read_signature(c) == Ok::<bool, CodecError>(notice),
    ensures
        spec_decode_payload(r.pixels + seq![NL] + a + seq![NL] + b + seq![NL] + c, FooterScheme::Current)
            == Ok::<DecodedModel, CodecError>(DecodedModel { raster: r, notice }),
{
    lemma_footer_breaks(r.pixels, a, b, c);
    lemma_reconstruct_whole(r);
}

/// A current field line `hex(name): <v>` reads back as `v` and holds no newline.
proof fn lemma_current_field(name: Seq<u8>, v: u32, field: Field)
    ensures
        free_of(hex_of(name) + separator() + decimal(v as nat), NL),
        spec_read_field(hex_of(name) + separator() + decimal(v as nat), hex_of(name), field)
            == Ok::<u32, CodecError>(v),
{
    lemma_current_line_bytes(name, v);
    lemma_hex_name_free(name);
    lemma_read_decimal_field(hex_of(name), hex_of(name), seq![32u8], v, field);
}

/// The signature line carrying `version` holds no newline and reads back.
proof fn lemma_signature_line(version: Seq<u8>)
    requires
        free_of(version, COLON),
        free_of(version, NL),
    ensures
        free_of(signature_marker() + separator() + version, NL),
        spec_read_signature(signature_marker() + separator() + version) == Ok::<bool, CodecError>(
            trim(version) != signature_version(),
        ),
{
    let c = signature_marker() + separator() + version;
    assert(free_of(signature_marker(), NL));
    assert forall|i: int| 0 <= i < c.len() implies c[i] != NL by {
        if i >= 16 {
            assert(c[i] == version[i - 16]);
        }
    }
    lemma_read_signature_line(version);
}

/// The current footer's three lines, after the pixels, decode to the raster.
proof fn lemma_decode_current_laid_out(r: RasterModel, version: Seq<u8>)
    requires
        r.wf(),
        free_of(version, COLON),
        free_of(version, NL),
    ensures
        spec_decode_payload(
            r.pixels + seq![NL] + (hex_of(height_name()) + separator() + decimal(r.height as nat))
                + seq![NL] + (hex_of(width_name()) + separator() + decimal(r.width as nat))
                + seq![NL] + (signature_marker() + separator() + version),
            FooterScheme::Current,
        ) == Ok::<DecodedModel, CodecError>(
            DecodedModel { raster: r, notice: trim(version) != signature_version() },
        ),
{
    let a = hex_of(height_name()) + separator() + decimal(r.height as nat);
    let b = hex_of(width_name()) + separator() + decimal(r.width as nat);
    let c = signature_marker() + separator() + version;
    let notice = trim(version) != signature_version();
    let scheme = FooterScheme::Current;
    assert(free_of(a, NL) && spec_read_field(a, marker(scheme, Field::Height), Field::Height)
        == Ok::<u32, CodecError>(r.height)) by {
        lemma_current_field(height_name(), r.height, Field::Height);
    }
    assert(free_of(b, NL) && spec_read_field(b, marker(scheme, Field::Width), Field::Width)
        == Ok::<u32, CodecError>(r.width)) by {
        lemma_current_field(width_name(), r.width, Field::Width);
    }
    lemma_signature_line(version);
    lemma_decode_current_lines(r, a, b, c, notice);
}

/// A current payload whose signature carries `version` decodes to its raster,
/// with a notice exactly when the trimmed version is not `0x03`.
pub proof fn lemma_decode_current(r: RasterModel, version: Seq<u8>)
    requires
        r.wf(),
        free_of(version, COLON),
        free_of(version, NL),
    ensures
        spec_decode_payload(r.pixels + current_footer(r.width, r.height, version), FooterScheme::Current)
            == Ok::<DecodedModel, CodecError>(
            DecodedModel { raster: r, notice: trim(version) != signature_version() },
        ),
{
    lemma_decode_current_laid_out(r, version);
    lemma_current_shape(r.pixels, r.width, r.height, version);
}

/// A legacy payload decodes to its raster, with no notice.
proof fn lemma_decode_legacy(r: RasterModel)
    requires
        r.wf(),
    ensures
        spec_decode_payload(spec_payload(r, FooterScheme::Legacy), FooterScheme::Legacy) == Ok::<
            DecodedModel,
            CodecError,
        >(DecodedModel { raster: r, notice: false }),
{
    let scheme = FooterScheme::Legacy;
    let dw = decimal(r.width as nat);
    let dh = decimal(r.height as nat);
    lemma_decimal_digits(r.width as nat);
    lemma_decimal_digits(r.height as nat);
    lemma_name_free(width_name());
    lemma_name_free(height_name());
    let a = width_name() + seq![COLON] + (Seq::<u8>::empty() + dw);
    let b = height_name() + seq![COLON] + (Seq::<u8>::empty() + dh);
    let c = Seq::<u8>::empty();
    assert forall|i: int| 0 <= i < a.len() implies a[i] != NL by {
        if i > 5 {
            assert(a[i] == dw[i - 6]);
            assert(is_digit(dw[i - 6]));
        }
    }
    assert forall|i: int| 0 <= i < b.len() implies b[i] != NL by {
        if i > 6 {
            assert(b[i] == dh[i - 7]);
            assert(is_digit(dh[i - 7]));
        }
    }
    let p = spec_payload(r, scheme);
    assert(p =~= r.pixels + seq![NL] + a + seq![NL] + b + seq![NL] + c);
    lemma_footer_breaks(r.pixels, a, b, c);
    let none = Seq::<u8>::empty();
    lemma_read_decimal_field(width_name(), marker(scheme, Field::Width), none, r.width, Field::Width);
    lemma_read_decimal_field(
        height_name(),
        marker(scheme, Field::Height),
        none,
        r.height,
        Field::Height,
    );
    lemma_reconstruct_whole(r);
}

/// Decoding undoes encoding: for every well-formed raster and either scheme,
/// the payload that encoding writes decodes to the same width, height and
/// pixels, with no compatibility notice.
pub proof fn lemma_round_trip(r: RasterModel, scheme: FooterScheme)
    requires
        r.wf(),
    ensures
        spec_decode_payload(spec_payload(r, scheme), scheme) == Ok::<DecodedModel, CodecError>(
            DecodedModel { raster: r, notice: false },
        ),
{
    match scheme {
        FooterScheme::Current => {
            let v = signature_version();
            assert(free_of(v, COLON) && free_of(v, NL));
            assert(v.drop_last().len() == 3);
            assert(trim_start(v) == v);
            assert(trim_end(v) == v);
            lemma_decode_current(r, v);
        },
        FooterScheme::Legacy => lemma_decode_legacy(r),
    }
}

/// A signature version other than the current one is no failure: the payload
/// still decodes to its raster, and the result carries the compatibility
/// notice.
pub proof fn lemma_signature_tolerance(r: RasterModel, version: Seq<u8>)
    requires
        r.wf(),
        free_of(version, COLON),
        free_of(version, NL),
        trim(version) != signature_version(),
    ensures
        spec_decode_payload(r.pixels + current_footer(r.width, r.height, version), FooterScheme::Current)
            == Ok::<DecodedModel, CodecError>(DecodedModel { raster: r, notice: true }),
{
    lemma_decode_current(r, version);
}

/// Migration never misreads a current file: the legacy parser rejects every
/// current payload, since its first footer line carries no `Width:` label.
pub proof fn lemma_legacy_rejects_current(r: RasterModel)
    requires
        r.wf(),
    ensures
        spec_decode_payload(spec_payload(r, FooterScheme::Current), FooterScheme::Legacy)
            == Err::<DecodedModel, CodecError>(CodecError::FieldNotFound(Field::Width)),
{
    let a = hex_of(height_name()) + separator() + decimal(r.height as nat);
    let b = hex_of(width_name()) + separator() + decimal(r.width as nat);
    let c = signature_marker() + separator() + signature_version();
    lemma_current_line_bytes(height_name(), r.height);
    lemma_current_line_bytes(width_name(), r.width);
    assert(free_of(c, NL));
    lemma_current_shape(r.pixels, r.width, r.height, signature_version());
    lemma_footer_breaks(r.pixels, a, b, c);
    let m = marker(FooterScheme::Legacy, Field::Width);
    assert(m[0] == 87);
    assert forall|i: int| !occurs_at(a, m, i) by {
        if occurs_at(a, m, i) {
            assert(a.subrange(i, i + m.len())[0] == a[i]);
        }
    }
    assert(!contains(a, m));
}

/// Decoding a container undoes encoding it: whatever blob an encoder returns
/// for a well-formed raster decodes, in the same scheme, to that raster with
/// no compatibility notice.
pub proof fn lemma_container_round_trip(r: RasterModel, blob: Seq<u8>, scheme: FooterScheme)
    requires
        r.wf(),
        encodes(blob, spec_payload(r, scheme), scheme),
    ensures
        spec_decode(blob, scheme) == Ok::<DecodedModel, CodecError>(
            DecodedModel { raster: r, notice: false },
        ),
{
    lemma_round_trip(r, scheme);
}

/// A current container whose zstd stream inflates to a payload with another
/// signature version still decodes to its raster, with the notice.
pub proof fn lemma_container_signature_tolerance(r: RasterModel, version: Seq<u8>, blob: Seq<u8>)
    requires
        r.wf(),
        free_of(version, COLON),
        free_of(version, NL),
        trim(version) != signature_version(),
        zstd_inflate(blob) == Some(r.pixels + current_footer(r.width, r.height, version)),
    ensures
        spec_decode(blob, FooterScheme::Current) == Ok::<DecodedModel, CodecError>(
            DecodedModel { raster: r, notice: true },
        ),
{
    lemma_signature_tolerance(r, version);
}

/// Cutting any number of trailing bytes off an encoded current container
/// makes decoding fail at the decompression stage, never with a raster.
pub proof fn lemma_truncation_fails(blob: Seq<u8>, p: Seq<u8>, k: int)
    requires
        encodes(blob, p, FooterScheme::Current),
        0 < k <= blob.len(),
    ensures
        spec_decode(blob.subrange(0, blob.len() - k), FooterScheme::Current) == Err::<
            DecodedModel,
            CodecError,
        >(CodecError::Decompress),
{
    assert(zstd_inflate(blob.subrange(0, blob.len() - k)) is None);
}

/// A payload that decodes yields a well-formed raster.
proof fn lemma_decoded_wf(p: Seq<u8>, scheme: FooterScheme)
    requires
        spec_decode_payload(p, scheme) is Ok,
    ensures
        spec_decode_payload(p, scheme)->Ok_0.raster.wf(),
{
    reveal(footer_breaks);
    let n1 = footer_breaks(p).0;
    lemma_last_before_range(p, NL, p.len() as int);
    lemma_last_before_range(p, NL, footer_breaks(p).2);
    lemma_last_before_range(p, NL, footer_breaks(p).1);
    let q = p.subrange(0, n1);
    let d = spec_decode_payload(p, scheme)->Ok_0.raster;
    assert(q.len() / 4 == d.width as int * d.height as int);
    assert(d.pixels.len() == grid_len(d.width, d.height));
}

/// Migration keeps the raster: the current container that migrating a
/// legacy one produces decodes to exactly the raster legacy decoding read,
/// with no compatibility notice.
pub proof fn lemma_migration_keeps_raster(legacy_blob: Seq<u8>, blob: Seq<u8>)
    requires
        spec_decode_legacy(legacy_blob) is Ok,
        encodes(
            blob,
            spec_payload(spec_decode_legacy(legacy_blob)->Ok_0, FooterScheme::Current),
            FooterScheme::Current,
        ),
    ensures
        spec_decode(blob, FooterScheme::Current) == Ok::<DecodedModel, CodecError>(
            DecodedModel { raster: spec_decode_legacy(legacy_blob)->Ok_0, notice: false },
        ),
{
    let p = spec_inflate(legacy_blob, FooterScheme::Legacy)->Some_0;
    lemma_decoded_wf(p, FooterScheme::Legacy);
    lemma_round_trip(spec_decode_legacy(legacy_blob)->Ok_0, FooterScheme::Current);
}

} // verus!
