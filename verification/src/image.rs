//! The pixel source: raw RGBA samples, dimensions, and a gamma hint.
//! A plain validated data holder, consumed by the pipeline.

use vstd::prelude::*;

use crate::color::Color;
use crate::error::QuantError;

verus! {

/// The colors a raw interleaved RGBA8 buffer holds, four bytes per pixel.
pub open spec fn colors_of(data: Seq<u8>) -> Seq<Color> {
    Seq::new(
        (data.len() / 4) as nat,
        |i: int|
            Color { r: data[4 * i], g: data[4 * i + 1], b: data[4 * i + 2], a: data[4 * i + 3] },
    )
}

/// An image to be quantized: row-major RGBA pixels plus dimensions and a
/// gamma hint. `gamma` is in hundred-thousandths (55000 stands for a gamma
/// of 0.55); 0 is the sentinel for "assume sRGB". The hint is carried for
/// the host's encoding stage; the engine compares samples directly (see
/// the distance metric's note).
#[derive(Debug)]
pub struct ImagequantImage {
    pub pixels: Vec<Color>,
    pub width: usize,
    pub height: usize,
    pub gamma: u32,
}

impl ImagequantImage {
    /// The data holder's invariant: positive dimensions and one pixel per
    /// width x height grid cell, row-major.
    pub open spec fn wf(self) -> bool {
        &&& self.width > 0
        &&& self.height > 0
        &&& self.pixels.len() == self.width * self.height
    }

    /// Make an image from an interleaved RGBA byte buffer.
    /// Use 0 for gamma if the image is sRGB (most images are).
    ///
    /// Fails with `InvalidDimensions` on a zero dimension and with
    /// `BufferLengthMismatch` whenever `data` is not exactly
    /// `width * height * 4` bytes long.
    pub fn new(data: Vec<u8>, width: usize, height: usize, gamma: u32) -> (r: Result<
        ImagequantImage,
        QuantError,
    >)
        ensures
            r is Ok <==> width > 0 && height > 0 && data@.len() == width * height * 4,
            width == 0 || height == 0 ==> r == Err::<ImagequantImage, QuantError>(
                QuantError::InvalidDimensions,
            ),
            width > 0 && height > 0 && data@.len() != width * height * 4 ==> r == Err::<
                ImagequantImage,
                QuantError,
            >(QuantError::BufferLengthMismatch),
            r matches Ok(img) ==> img.wf() && img.pixels@ == colors_of(data@) && img.width == width
                && img.height == height && img.gamma == gamma,
    {
        if width == 0 || height == 0 {
            return Err(QuantError::InvalidDimensions);
        }
        let data_len: usize = data.len();
        let wh: usize = match width.checked_mul(height) {
            Some(v) => v,
            None => {
                proof {
                    assert(width * height > usize::MAX);
                    assert(width * height * 4 >= width * height) by (nonlinear_arith);
                    assert(data@.len() != width * height * 4);
                }
                return Err(QuantError::BufferLengthMismatch);
            },
        };
        let byte_len: usize = match wh.checked_mul(4) {
            Some(v) => v,
            None => {
                proof {
                    assert(wh * 4 > usize::MAX);
                    assert(data@.len() != width * height * 4);
                }
                return Err(QuantError::BufferLengthMismatch);
            },
        };
        if data.len() != byte_len {
            return Err(QuantError::BufferLengthMismatch);
        }
        let mut pixels: Vec<Color> = Vec::new();
        let mut i: usize = 0;
        while i < wh
            invariant
                wh == width * height,
                data@.len() == wh * 4,
                wh * 4 <= usize::MAX,
                i <= wh,
                pixels@ =~= colors_of(data@).take(i as int),
            decreases wh - i,
        {
            assert(4 * i + 3 < wh * 4);
            let base: usize = 4 * i;
            let c = Color { r: data[base], g: data[base + 1], b: data[base + 2], a: data[base + 3] };
            assert(c == colors_of(data@)[i as int]);
            pixels.push(c);
            proof {
                assert(colors_of(data@).take(i + 1) =~= colors_of(data@).take(i as int).push(
                    colors_of(data@)[i as int],
                ));
            }
            i = i + 1;
        }
        proof {
            assert(pixels@ =~= colors_of(data@));
        }
        Ok(ImagequantImage { pixels, width, height, gamma })
    }
}

} // verus!
