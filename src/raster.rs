//! RGBA rasters and their reconstruction from a flat run of pixel bytes.
use vstd::prelude::*;

use crate::error::CodecError;

verus! {

/// A grid of pixels, four bytes each (R, G, B, A), rows top to bottom, each
/// row left to right.
#[derive(Debug)]
pub struct Raster {
    pub width: u32,
    pub height: u32,
    pub pixels: Vec<u8>,
}

/// What a raster holds, as mathematical values.
pub ghost struct RasterModel {
    pub width: u32,
    pub height: u32,
    pub pixels: Seq<u8>,
}

/// Number of bytes of a `width` by `height` grid.
pub open spec fn grid_len(width: u32, height: u32) -> int {
    width as int * height as int * 4
}

impl RasterModel {
    pub open spec fn wf(self) -> bool {
        self.pixels.len() == grid_len(self.width, self.height)
    }
}

/// Number of pixels of a `width` by `height` grid.
pub fn pixel_count(width: u32, height: u32) -> (r: u64)
    ensures
        r as int == width as int * height as int,
{
    proof {
        let (w, h) = (width as int, height as int);
        assert(w * h <= 0xffff_ffff * 0xffff_ffff) by (nonlinear_arith)
            requires
                0 <= w <= 0xffff_ffff,
                0 <= h <= 0xffff_ffff,
        ;
    }
    (width as u64) * (height as u64)
}

impl View for Raster {
    type V = RasterModel;

    open spec fn view(&self) -> RasterModel {
        RasterModel { width: self.width, height: self.height, pixels: self.pixels@ }
    }
}

impl Raster {
    /// The pixel buffer holds exactly `width * height` pixels.
    pub open spec fn wf(&self) -> bool {
        self@.wf()
    }

    /// A raster over `pixels`, or `None` when their number of bytes is not
    /// `width * height * 4`.
    pub fn from_raw(width: u32, height: u32, pixels: Vec<u8>) -> (r: Option<Raster>)
        ensures
            match r {
                Some(img) => pixels@.len() == grid_len(width, height) && img@ == (RasterModel {
                    width,
                    height,
                    pixels: pixels@,
                }),
                None => pixels@.len() != grid_len(width, height),
            },
    {
        let count = pixel_count(width, height);
        if pixels.len() % 4 == 0 && (pixels.len() / 4) as u64 == count {
            Some(Raster { width, height, pixels })
        } else {
            None
        }
    }
}

/// Rebuilding a `width` by `height` grid from `bytes`: every four bytes make
/// one pixel, a final group of fewer than four is dropped, and the number of
/// whole pixels must be exactly `width * height`.
pub open spec fn spec_reconstruct(bytes: Seq<u8>, width: u32, height: u32) -> Result<
    RasterModel,
    CodecError,
> {
    if bytes.len() / 4 == width as int * height as int {
        Ok(
            RasterModel {
                width,
                height,
                pixels: bytes.subrange(0, grid_len(width, height)),
            },
        )
    } else {
        Err(CodecError::Reconstruct)
    }
}

pub open spec fn raster_result_view(r: Result<Raster, CodecError>) -> Result<RasterModel, CodecError> {
    match r {
        Ok(img) => Ok(img@),
        Err(e) => Err(e),
    }
}

/// Rebuilds a raster from the first `len` bytes of `bytes`.
pub fn reconstruct_prefix(bytes: &[u8], len: usize, width: u32, height: u32) -> (r: Result<
    Raster,
    CodecError,
>)
    requires
        len <= bytes@.len(),
    ensures
        raster_result_view(r) == spec_reconstruct(bytes@.subrange(0, len as int), width, height),
        r is Ok ==> r->Ok_0.wf(),
{
    let count = pixel_count(width, height);
    if (len / 4) as u64 != count {
        return Err(CodecError::Reconstruct);
    }
    let n = len / 4 * 4;
    let mut pixels: Vec<u8> = Vec::new();
    let mut i: usize = 0;
    while i < n
        invariant
            n <= len <= bytes@.len(),
            i <= n,
            pixels@ == bytes@.subrange(0, i as int),
        decreases n - i,
    {
        pixels.push(bytes[i]);
        assert(pixels@ =~= bytes@.subrange(0, i + 1));
        i = i + 1;
    }
    proof {
        assert(n as int == grid_len(width, height));
        assert(bytes@.subrange(0, len as int).subrange(0, n as int) =~= bytes@.subrange(0, n as int));
    }
    Ok(Raster { width, height, pixels })
}

/// Rebuilds a `width` by `height` raster from a run of pixel bytes.
pub fn reconstruct(bytes: &[u8], width: u32, height: u32) -> (r: Result<Raster, CodecError>)
    ensures
        raster_result_view(r) == spec_reconstruct(bytes@, width, height),
        r is Ok ==> r->Ok_0.wf(),
{
    let r = reconstruct_prefix(bytes, bytes.len(), width, height);
    assert(bytes@.subrange(0, bytes@.len() as int) =~= bytes@);
    r
}

} // verus!
