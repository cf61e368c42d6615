//! Migrating legacy containers to the current scheme.
use vstd::prelude::*;

use crate::container::{encodes, spec_payload};
use crate::decoder_old::{self, spec_decode_legacy};
use crate::encoder;
use crate::error::CodecError;
use crate::footer::FooterScheme;

verus! {

/// Decodes a legacy container and encodes its raster as a current one. It
/// fails exactly when legacy decoding fails, with that error.
pub fn update(legacy_blob: &[u8]) -> (r: Result<Vec<u8>, CodecError>)
    ensures
        match spec_decode_legacy(legacy_blob@) {
            Err(e) => r == Err::<Vec<u8>, CodecError>(e),
            Ok(img) => r matches Ok(blob) && encodes(
                blob@,
                spec_payload(img, FooterScheme::Current),
                FooterScheme::Current,
            ),
        },
{
    let img = match decoder_old::decode(legacy_blob) {
        Ok(img) => img,
        Err(e) => return Err(e),
    };
    encoder::encode(&img)
}

} // verus!
