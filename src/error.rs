//! What can go wrong while encoding or decoding a container.
use vstd::prelude::*;

verus! {

/// A footer field.
#[derive(Clone, Copy, Debug, PartialEq, Eq, Structural)]
pub enum Field {
    Width,
    Height,
    Signature,
}

/// The fatal failures of the codec, one per stage.
#[derive(Clone, Copy, Debug, PartialEq, Eq, Structural)]
pub enum CodecError {
    /// The compressed stream could not be inflated.
    Decompress,
    /// The compressor refused the payload.
    Compress,
    /// No footer line carries the field's marker.
    FieldNotFound(Field),
    /// The field's line holds no value that reads as an unsigned 32-bit integer.
    MalformedValue(Field),
    /// The pixel bytes do not make up a grid of the stated width and height.
    Reconstruct,
}

} // verus!
