//! Decoding current containers.
use vstd::prelude::*;

use crate::container::{decode_with, decoded_view, spec_decode, Decoded};
use crate::error::CodecError;
use crate::footer::FooterScheme;

verus! {

/// Decodes a current container: a decompression error exactly when zstd
/// rejects the stream, else the decoding of the payload. A signature of
/// another version is no error: the result then carries `notice`.
pub fn decode(blob: &[u8]) -> (r: Result<Decoded, CodecError>)
    ensures
        decoded_view(r) == spec_decode(blob@, FooterScheme::Current),
        r is Ok ==> r->Ok_0.raster.wf(),
{
    decode_with(blob, FooterScheme::Current)
}

} // verus!
