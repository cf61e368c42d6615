//! The container: `compress(pixels ++ footer)`, with the compressor chosen by
//! the footer scheme.
use vstd::prelude::*;

use crate::compression::{
    lz4_block, lz4_compress, lz4_decompress, lz4_inflate, zstd_compress, zstd_decompress,
    zstd_frame, zstd_inflate,
};
use crate::error::CodecError;
use crate::footer::{footer_breaks, parse_footer, spec_footer, spec_parse_footer, write_footer, FooterScheme};
use crate::raster::{reconstruct_prefix, spec_reconstruct, Raster, RasterModel};

verus! {

/// zstd effort level of current containers.
pub const COMPRESSION_LEVEL: i32 = 11;

/// Largest payload, in bytes, that a legacy container may inflate to.
pub const LEGACY_SIZE_LIMIT: i32 = 104857600;

/// A decoded container.
#[derive(Debug)]
pub struct Decoded {
    pub raster: Raster,
    /// The container's signature names another version of the format: the
    /// file decoded, and updating it is advisable.
    pub notice: bool,
}

pub ghost struct DecodedModel {
    pub raster: RasterModel,
    pub notice: bool,
}

impl View for Decoded {
    type V = DecodedModel;

    open spec fn view(&self) -> DecodedModel {
        DecodedModel { raster: self.raster@, notice: self.notice }
    }
}

pub open spec fn decoded_view(r: Result<Decoded, CodecError>) -> Result<DecodedModel, CodecError> {
    match r {
        Ok(d) => Ok(d@),
        Err(e) => Err(e),
    }
}

/// The uncompressed content of a container: pixel bytes, then the footer.
pub open spec fn spec_payload(raster: RasterModel, scheme: FooterScheme) -> Seq<u8> {
    raster.pixels + spec_footer(raster.width, raster.height, scheme)
}

/// Decoding an uncompressed payload: parse the footer, then rebuild the
/// raster from the bytes before it.
pub open spec fn spec_decode_payload(p: Seq<u8>, scheme: FooterScheme) -> Result<
    DecodedModel,
    CodecError,
> {
    match spec_parse_footer(p, scheme) {
        Err(e) => Err(e),
        Ok(info) => match spec_reconstruct(
            p.subrange(0, footer_breaks(p).0),
            info.width,
            info.height,
        ) {
            Err(e) => Err(e),
            Ok(img) => Ok(DecodedModel { raster: img, notice: info.notice }),
        },
    }
}

/// The compressed form of a payload in the scheme's backend.
pub open spec fn spec_compress(p: Seq<u8>, scheme: FooterScheme) -> Seq<u8> {
    match scheme {
        FooterScheme::Current => zstd_frame(COMPRESSION_LEVEL, p),
        FooterScheme::Legacy => lz4_block(p),
    }
}

/// What the scheme's backend inflates a container to, or `None` when it
/// rejects the stream.
pub open spec fn spec_inflate(blob: Seq<u8>, scheme: FooterScheme) -> Option<Seq<u8>> {
    match scheme {
        FooterScheme::Current => zstd_inflate(blob),
        FooterScheme::Legacy => lz4_inflate(LEGACY_SIZE_LIMIT, blob),
    }
}

/// Decoding a container: a decompression error when the backend rejects the
/// stream, else the decoding of the payload it inflates to.
pub open spec fn spec_decode(blob: Seq<u8>, scheme: FooterScheme) -> Result<
    DecodedModel,
    CodecError,
> {
    match spec_inflate(blob, scheme) {
        None => Err(CodecError::Decompress),
        Some(p) => spec_decode_payload(p, scheme),
    }
}

/// The payloads that can be encoded in the scheme: any for zstd; for lz4,
/// those that legacy decoding can inflate again.
pub open spec fn compressible(p: Seq<u8>, scheme: FooterScheme) -> bool {
    match scheme {
        FooterScheme::Current => true,
        FooterScheme::Legacy => p.len() <= LEGACY_SIZE_LIMIT,
    }
}

/// What an encoder's output is: the payload compressed by the scheme's
/// backend, which inflates back to the payload, and of which no proper prefix
/// inflates (for zstd).
pub open spec fn encodes(blob: Seq<u8>, p: Seq<u8>, scheme: FooterScheme) -> bool {
    &&& blob == spec_compress(p, scheme)
    &&& spec_inflate(blob, scheme) == Some(p)
    &&& scheme == FooterScheme::Current ==> forall|k: int|
        0 <= k < blob.len() ==> (#[trigger] zstd_inflate(blob.subrange(0, k))) is None
}

/// The uncompressed payload of `raster` in `scheme`.
pub fn encode_payload(raster: &Raster, scheme: FooterScheme) -> (r: Vec<u8>)
    ensures
        r@ == spec_payload(raster@, scheme),
{
    let mut out: Vec<u8> = Vec::new();
    let mut i: usize = 0;
    while i < raster.pixels.len()
        invariant
            i <= raster.pixels@.len(),
            out@ == raster.pixels@.subrange(0, i as int),
        decreases raster.pixels@.len() - i,
    {
        out.push(raster.pixels[i]);
        assert(out@ =~= raster.pixels@.subrange(0, i + 1));
        i = i + 1;
    }
    assert(out@ =~= raster.pixels@);
    write_footer(&mut out, raster.width, raster.height, scheme);
    out
}

/// Decodes an uncompressed payload in `scheme`.
pub fn decode_payload(payload: &[u8], scheme: FooterScheme) -> (r: Result<Decoded, CodecError>)
    ensures
        decoded_view(r) == spec_decode_payload(payload@, scheme),
        r is Ok ==> r->Ok_0.raster.wf(),
{
    let info = match parse_footer(payload, scheme) {
        Ok(info) => info,
        Err(e) => return Err(e),
    };
    match reconstruct_prefix(payload, info.pixel_end, info.width, info.height) {
        Ok(raster) => Ok(Decoded { raster, notice: info.notice }),
        Err(e) => Err(e),
    }
}

/// Encodes `raster` as a container of the given scheme. It fails only on a
/// legacy payload larger than legacy decoding accepts.
pub fn encode_with(raster: &Raster, scheme: FooterScheme) -> (r: Result<Vec<u8>, CodecError>)
    ensures
        r is Ok <==> compressible(spec_payload(raster@, scheme), scheme),
        match r {
            Ok(blob) => encodes(blob@, spec_payload(raster@, scheme), scheme),
            Err(e) => e == CodecError::Compress,
        },
{
    let payload = encode_payload(raster, scheme);
    let compressed = match scheme {
        FooterScheme::Current => zstd_compress(payload.as_slice(), COMPRESSION_LEVEL),
        FooterScheme::Legacy => {
            if payload.len() > LEGACY_SIZE_LIMIT as usize {
                return Err(CodecError::Compress);
            }
            let c = lz4_compress(payload.as_slice());
            proof {
                if c is Some {
                    assert(lz4_inflate(LEGACY_SIZE_LIMIT, c->Some_0@) == Some(payload@));
                }
            }
            c
        },
    };
    match compressed {
        Some(blob) => Ok(blob),
        None => Err(CodecError::Compress),
    }
}

/// Decodes a container of the given scheme: a decompression error exactly
/// when the backend rejects the stream, else the decoding of its payload.
pub fn decode_with(blob: &[u8], scheme: FooterScheme) -> (r: Result<Decoded, CodecError>)
    ensures
        decoded_view(r) == spec_decode(blob@, scheme),
        r is Ok ==> r->Ok_0.raster.wf(),
{
    let inflated = match scheme {
        FooterScheme::Current => zstd_decompress(blob),
        FooterScheme::Legacy => lz4_decompress(blob, LEGACY_SIZE_LIMIT),
    };
    match inflated {
        Some(payload) => decode_payload(payload.as_slice(), scheme),
        None => Err(CodecError::Decompress),
    }
}

} // verus!
