//! Encoding rasters as current containers.
use vstd::prelude::*;

use crate::container::{encode_with, encodes, spec_payload};
use crate::error::CodecError;
use crate::footer::FooterScheme;
use crate::raster::Raster;

verus! {

/// Encodes `img` as a current container: its pixels and the current footer,
/// as one zstd frame. It always succeeds.
pub fn encode(img: &Raster) -> (r: Result<Vec<u8>, CodecError>)
    ensures
        r is Ok,
        r matches Ok(blob) ==> encodes(blob@, spec_payload(img@, FooterScheme::Current), FooterScheme::Current),
{
    encode_with(img, FooterScheme::Current)
}

} // verus!
