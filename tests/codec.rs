use vfx::container::{decode_payload, decode_with, encode_payload, encode_with};
use vfx::decoder;
use vfx::decoder_old;
use vfx::encoder::encode;
use vfx::error::{CodecError, Field};
use vfx::footer::{parse_footer, read_field, read_signature, FooterScheme};
use vfx::raster::{reconstruct, Raster};
use vfx::text::{contains_bytes, decimal_bytes, parse_decimal, trim_bounds};
use vfx::updater::update;

fn raster(width: u32, height: u32, pixels: Vec<u8>) -> Raster {
    Raster::from_raw(width, height, pixels).expect("pixel count matches")
}

fn patterned(width: u32, height: u32) -> Raster {
    let n = (width as usize) * (height as usize) * 4;
    let pixels: Vec<u8> = (0..n).map(|i| ((i * 7 + 3) % 256) as u8).collect();
    raster(width, height, pixels)
}

fn assert_same(a: &Raster, b: &Raster) {
    assert_eq!(a.width, b.width);
    assert_eq!(a.height, b.height);
    assert_eq!(a.pixels, b.pixels);
}

fn current_payload(pixels: &[u8], width: u32, height: u32, version: &str) -> Vec<u8> {
    let mut p = pixels.to_vec();
    p.extend_from_slice(
        format!(
            "\n486569676874: {}\n5769647468: {}\n0x56-0x46-0x58: {}",
            height, width, version
        )
        .as_bytes(),
    );
    p
}

#[test]
fn two_by_two_scenario() {
    let img = raster(
        2,
        2,
        vec![255, 0, 0, 255, 0, 255, 0, 255, 0, 0, 255, 255, 255, 255, 255, 0],
    );
    let blob = encode(&img).unwrap();
    let d = decoder::decode(&blob).unwrap();
    assert_eq!(d.raster.width, 2);
    assert_eq!(d.raster.height, 2);
    assert_eq!(
        d.raster.pixels,
        vec![255, 0, 0, 255, 0, 255, 0, 255, 0, 0, 255, 255, 255, 255, 255, 0]
    );
    assert!(!d.notice);
}

#[test]
fn round_trip_arbitrary_bytes() {
    let img = patterned(7, 5);
    let blob = encode(&img).unwrap();
    let d = decoder::decode(&blob).unwrap();
    assert_same(&d.raster, &img);
    assert!(!d.notice);
}

#[test]
fn round_trip_pixels_that_look_like_a_footer() {
    let mut pixels = b"\n486569676874: 9\n5769647468: 9\n0x56-0x46-0x58: 0x03\n::\n\n".to_vec();
    while pixels.len() % 4 != 0 {
        pixels.push(b'\n');
    }
    let n = (pixels.len() / 4) as u32;
    let img = raster(n, 1, pixels);
    let d = decoder::decode(&encode(&img).unwrap()).unwrap();
    assert_same(&d.raster, &img);
}

#[test]
fn round_trip_single_pixel() {
    let img = raster(1, 1, vec![1, 2, 3, 4]);
    let d = decoder::decode(&encode(&img).unwrap()).unwrap();
    assert_same(&d.raster, &img);
}

#[test]
fn round_trip_wide_and_tall() {
    for (w, h) in [(12345u32, 1u32), (1, 12345), (12345, 2)] {
        let img = patterned(w, h);
        let d = decoder::decode(&encode(&img).unwrap()).unwrap();
        assert_same(&d.raster, &img);
    }
}

#[test]
fn round_trip_legacy_scheme() {
    let img = patterned(3, 4);
    let blob = encode_with(&img, FooterScheme::Legacy).unwrap();
    let back = decoder_old::decode(&blob).unwrap();
    assert_same(&back, &img);
}

#[test]
fn current_footer_bytes() {
    let img = raster(1, 1, vec![9, 8, 7, 6]);
    let p = encode_payload(&img, FooterScheme::Current);
    let mut expected = vec![9u8, 8, 7, 6];
    expected.extend_from_slice(b"\n486569676874: 1\n5769647468: 1\n0x56-0x46-0x58: 0x03");
    assert_eq!(p, expected);
}

#[test]
fn current_footer_bytes_many_digits() {
    let img = patterned(12345, 2);
    let p = encode_payload(&img, FooterScheme::Current);
    let tail = b"\n486569676874: 2\n5769647468: 12345\n0x56-0x46-0x58: 0x03";
    assert_eq!(&p[p.len() - tail.len()..], &tail[..]);
    assert_eq!(p.len(), 12345 * 2 * 4 + tail.len());
}

#[test]
fn legacy_footer_bytes() {
    let img = raster(1, 1, vec![0, 0, 0, 0]);
    let p = encode_payload(&img, FooterScheme::Legacy);
    let mut expected = vec![0u8, 0, 0, 0];
    expected.extend_from_slice(b"\nWidth:1\nHeight:1\n");
    assert_eq!(p, expected);
}

#[test]
fn signature_of_another_version_gives_notice() {
    let pixels = vec![10u8, 20, 30, 40, 50, 60, 70, 80];
    let payload = current_payload(&pixels, 2, 1, "0x02");
    let d = decode_payload(&payload, FooterScheme::Current).unwrap();
    assert!(d.notice);
    assert_eq!(d.raster.pixels, pixels);
    assert_eq!((d.raster.width, d.raster.height), (2, 1));

    let blob = zstd::stream::encode_all(&payload[..], 3).unwrap();
    let d = decoder::decode(&blob).unwrap();
    assert!(d.notice);
    assert_eq!(d.raster.pixels, pixels);
}

#[test]
fn signature_with_spaces_is_trimmed() {
    let payload = current_payload(&[1, 2, 3, 4], 1, 1, "  0x03 ");
    let d = decode_payload(&payload, FooterScheme::Current).unwrap();
    assert!(!d.notice);
}

#[test]
fn truncated_stream_fails_to_decompress() {
    let img = patterned(6, 6);
    let blob = encode(&img).unwrap();
    for cut in [1usize, 2, 3, 5, 10, blob.len() / 2, blob.len() - 1] {
        let r = decoder::decode(&blob[..blob.len() - cut]);
        assert_eq!(r.unwrap_err(), CodecError::Decompress, "cut {}", cut);
    }
}

#[test]
fn garbage_fails_to_decompress() {
    let r = decoder::decode(&[1, 2, 3, 4, 5, 6, 7, 8, 9]);
    assert_eq!(r.unwrap_err(), CodecError::Decompress);
    let r = decoder_old::decode(&[0xff, 0xff, 0xff, 0xff, 0xff]);
    assert_eq!(r.unwrap_err(), CodecError::Decompress);
}

#[test]
fn legacy_migration_scenario() {
    let mut payload = vec![0u8, 0, 0, 255].repeat(12);
    payload.extend_from_slice(b"\nWidth:4\nHeight:3\n");
    let legacy = lz4::block::compress(&payload, None, false).unwrap();
    let old = decoder_old::decode(&legacy).unwrap();
    assert_eq!((old.width, old.height), (4, 3));

    let current = update(&legacy).unwrap();
    let d = decoder::decode(&current).unwrap();
    assert_eq!((d.raster.width, d.raster.height), (4, 3));
    assert_eq!(d.raster.pixels, vec![0u8, 0, 0, 255].repeat(12));
    assert!(!d.notice);
}

#[test]
fn migrating_a_current_file_is_rejected() {
    let img = patterned(4, 3);
    let current = encode(&img).unwrap();
    assert!(update(&current).is_err());
    let p = encode_payload(&img, FooterScheme::Current);
    assert_eq!(
        decode_payload(&p, FooterScheme::Legacy).unwrap_err(),
        CodecError::FieldNotFound(Field::Width)
    );
}

#[test]
fn decode_with_matches_entry_points() {
    let img = patterned(2, 3);
    let blob = encode_with(&img, FooterScheme::Current).unwrap();
    let d = decode_with(&blob, FooterScheme::Current).unwrap();
    assert_same(&d.raster, &img);
}

#[test]
fn missing_footer_is_field_not_found() {
    assert_eq!(
        decode_payload(b"abcd", FooterScheme::Current).unwrap_err(),
        CodecError::FieldNotFound(Field::Height)
    );
    assert_eq!(
        decode_payload(b"ab\ncd\n", FooterScheme::Legacy).unwrap_err(),
        CodecError::FieldNotFound(Field::Width)
    );
}

#[test]
fn missing_signature_is_field_not_found() {
    let p = b"\n486569676874: 1\n5769647468: 1\nnothing here".to_vec();
    assert_eq!(
        decode_payload(&p, FooterScheme::Current).unwrap_err(),
        CodecError::FieldNotFound(Field::Signature)
    );
}

#[test]
fn unreadable_values_are_malformed() {
    let p = b"\n486569676874: x1\n5769647468: 1\n0x56-0x46-0x58: 0x03".to_vec();
    assert_eq!(
        decode_payload(&p, FooterScheme::Current).unwrap_err(),
        CodecError::MalformedValue(Field::Height)
    );
    let p = b"\nWidth:4294967296\nHeight:1\n".to_vec();
    assert_eq!(
        decode_payload(&p, FooterScheme::Legacy).unwrap_err(),
        CodecError::MalformedValue(Field::Width)
    );
    let p = b"\nWidth:1\nHeight\n".to_vec();
    assert_eq!(
        decode_payload(&p, FooterScheme::Legacy).unwrap_err(),
        CodecError::FieldNotFound(Field::Height)
    );
    let p = b"\n486569676874: 1\n5769647468: 1\n0x56-0x46-0x58 0x03".to_vec();
    assert_eq!(
        decode_payload(&p, FooterScheme::Current).unwrap_err(),
        CodecError::MalformedValue(Field::Signature)
    );
}

#[test]
fn wrong_pixel_count_fails_reconstruction() {
    let p = current_payload(&[1, 2, 3, 4], 2, 1, "0x03");
    assert_eq!(
        decode_payload(&p, FooterScheme::Current).unwrap_err(),
        CodecError::Reconstruct
    );
}

#[test]
fn partial_pixel_is_dropped() {
    let r = reconstruct(&[1, 2, 3, 4, 5, 6, 7], 1, 1).unwrap();
    assert_eq!(r.pixels, vec![1, 2, 3, 4]);
    assert_eq!(reconstruct(&[1, 2, 3], 1, 1).unwrap_err(), CodecError::Reconstruct);
    assert!(Raster::from_raw(2, 2, vec![0; 15]).is_none());
    assert!(Raster::from_raw(2, 2, vec![0; 16]).is_some());
}

#[test]
fn footer_parse_reports_fields() {
    let p = current_payload(&[5, 5, 5, 5, 6, 6, 6, 6, 7, 7, 7, 7], 3, 1, "0x03");
    let info = parse_footer(&p, FooterScheme::Current).unwrap();
    assert_eq!((info.width, info.height, info.notice, info.pixel_end), (3, 1, false, 12));
    assert_eq!(read_field(b"Width: 17 :x", b"Width", Field::Width), Ok(17));
    assert_eq!(read_signature(b"0x56-0x46-0x58: 0x01"), Ok(true));
}

#[test]
fn text_helpers() {
    assert_eq!(decimal_bytes(0), b"0".to_vec());
    assert_eq!(decimal_bytes(12345), b"12345".to_vec());
    assert_eq!(decimal_bytes(u32::MAX), b"4294967295".to_vec());
    assert_eq!(parse_decimal(b"4294967295"), Some(u32::MAX));
    assert_eq!(parse_decimal(b"4294967296"), None);
    assert_eq!(parse_decimal(b""), None);
    assert_eq!(parse_decimal(b"12a"), None);
    assert_eq!(trim_bounds(b"  ab \t"), (2, 4));
    assert!(contains_bytes(b"xxWidth:3", b"Width:"));
    assert!(!contains_bytes(b"Widt", b"Width:"));
}

#[test]
fn backends_transform_their_input() {
    let img = patterned(8, 8);
    let payload = encode_payload(&img, FooterScheme::Current);
    let blob = encode(&img).unwrap();
    assert_eq!(&blob[..4], &[0x28, 0xb5, 0x2f, 0xfd]);
    assert_eq!(zstd::stream::decode_all(&blob[..]).unwrap(), payload);

    let legacy_payload = encode_payload(&img, FooterScheme::Legacy);
    let legacy = encode_with(&img, FooterScheme::Legacy).unwrap();
    assert_ne!(legacy, legacy_payload);
    assert_eq!(
        lz4::block::decompress(&legacy, Some(legacy_payload.len() as i32)).unwrap(),
        legacy_payload
    );
}
