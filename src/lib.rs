//! A verified codec for the VFX image container: raw RGBA pixels followed by a
//! small text footer, compressed as one stream.
use vstd::prelude::*;

pub mod compression;
pub mod container;
pub mod decoder;
pub mod decoder_old;
pub mod encoder;
pub mod error;
pub mod footer;
pub mod laws;
pub mod raster;
pub mod text;
pub mod updater;

verus! {

} // verus!
