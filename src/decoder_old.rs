//! Decoding legacy containers.
use vstd::prelude::*;

use crate::container::{decode_with, spec_decode};
use crate::error::CodecError;
use crate::footer::FooterScheme;
use crate::raster::{raster_result_view, Raster, RasterModel};

verus! {

/// Decoding a legacy container: the raster alone, since a legacy footer has
/// no signature.
pub open spec fn spec_decode_legacy(blob: Seq<u8>) -> Result<RasterModel, CodecError> {
    match spec_decode(blob, FooterScheme::Legacy) {
        Ok(d) => Ok(d.raster),
        Err(e) => Err(e),
    }
}

/// Decodes a legacy container (lz4 block, plain-text footer): a
/// decompression error exactly when lz4 rejects the block, else the decoding
/// of the payload.
pub fn decode(blob: &[u8]) -> (r: Result<Raster, CodecError>)
    ensures
        raster_result_view(r) == spec_decode_legacy(blob@),
        r is Ok ==> r->Ok_0.wf(),
{
    match decode_with(blob, FooterScheme::Legacy) {
        Ok(d) => Ok(d.raster),
        Err(e) => Err(e),
    }
}

} // verus!
