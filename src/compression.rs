//! The two compression backends: zstd's streaming compressor for current
//! containers and lz4's block compressor for legacy ones.
use vstd::prelude::*;

verus! {

/// Largest input that lz4's block format accepts (`LZ4_MAX_INPUT_SIZE`).
pub const LZ4_MAX_INPUT: i32 = 0x7E000000;

/// The zstd frame that compressing `data` at `level` produces.
pub uninterp spec fn zstd_frame(level: i32, data: Seq<u8>) -> Seq<u8>;

/// What zstd's stream decoder makes of `data`: the inflated bytes, or `None`
/// when it rejects the stream.
pub uninterp spec fn zstd_inflate(data: Seq<u8>) -> Option<Seq<u8>>;

/// The raw lz4 block (no size prefix) that compressing `data` produces.
pub uninterp spec fn lz4_block(data: Seq<u8>) -> Seq<u8>;

/// What lz4's block decoder makes of `data` with an output buffer of `limit`
/// bytes: the inflated bytes, or `None` when it rejects the block.
pub uninterp spec fn lz4_inflate(limit: i32, data: Seq<u8>) -> Option<Seq<u8>>;

/// Relies on `zstd::stream::Encoder` (`new`, `write_all`, `finish`): one
/// complete zstd frame that depends on `level` and `data` alone. The levels
/// 1 to 22 are documented as valid, and writing into a `Vec` cannot fail.
/// zstd is lossless, and its decoder reports "incomplete frame" on every
/// proper prefix of a frame.
#[verifier::external_body]
pub(crate) fn zstd_compress(data: &[u8], level: i32) -> (r: Option<Vec<u8>>)
    ensures
        1 <= level <= 22 ==> r is Some,
        r matches Some(v) ==> v@ == zstd_frame(level, data@),
        r matches Some(v) ==> zstd_inflate(v@) == Some(data@),
        r matches Some(v) ==> forall|k: int|
            0 <= k < v@.len() ==> (#[trigger] zstd_inflate(v@.subrange(0, k))) is None,
{
    let mut out: Vec<u8> = Vec::new();
    let mut encoder = zstd::stream::Encoder::new(&mut out, level).ok()?;
    std::io::Write::write_all(&mut encoder, data).ok()?;
    encoder.finish().ok()?;
    Some(out)
}

/// Relies on `zstd::stream::Decoder` (`new`, then `read_to_end`): the
/// inflated bytes of `data`, or `None` on a malformed or truncated stream.
#[verifier::external_body]
pub(crate) fn zstd_decompress(data: &[u8]) -> (r: Option<Vec<u8>>)
    ensures
        match r {
            Some(v) => zstd_inflate(data@) == Some(v@),
            None => zstd_inflate(data@) is None,
        },
{
    let mut decoder = zstd::stream::Decoder::new(data).ok()?;
    let mut out: Vec<u8> = Vec::new();
    std::io::Read::read_to_end(&mut decoder, &mut out).ok()?;
    Some(out)
}

/// Relies on `lz4::block::compress` with the default mode and no size
/// prefix: it fails only on input longer than `LZ4_MAX_INPUT`. lz4 is
/// lossless: the block inflates back to `data` into any buffer that can hold
/// it.
#[verifier::external_body]
pub(crate) fn lz4_compress(data: &[u8]) -> (r: Option<Vec<u8>>)
    ensures
        data@.len() <= LZ4_MAX_INPUT ==> r is Some,
        r matches Some(v) ==> v@ == lz4_block(data@),
        r matches Some(v) ==> forall|limit: i32|
            data@.len() <= limit <= LZ4_MAX_INPUT ==> #[trigger] lz4_inflate(limit, v@) == Some(
                data@,
            ),
{
    lz4::block::compress(data, None, false).ok()
}

/// Relies on `lz4::block::decompress` with an explicit buffer of `limit`
/// bytes: the inflated bytes, never more than `limit` of them, or `None` on
/// a malformed block or one that inflates beyond `limit`.
#[verifier::external_body]
pub(crate) fn lz4_decompress(data: &[u8], limit: i32) -> (r: Option<Vec<u8>>)
    ensures
        match r {
            Some(v) => lz4_inflate(limit, data@) == Some(v@) && v@.len() <= limit,
            None => lz4_inflate(limit, data@) is None,
        },
{
    lz4::block::decompress(data, Some(limit)).ok()
}

} // verus!
