//! Color quantization: reduce a full-color RGBA image to a bounded palette
//! and an indexed pixel buffer, with perceptual error minimization and
//! optional error-diffusion dithering, then hand palette and indices to the
//! external PNG encoder.

pub mod color;
pub mod error;
pub mod histogram;
pub mod image;
pub mod palette;
pub mod remap;
pub mod settings;

use vstd::prelude::*;

use crate::color::Color;
use crate::error::QuantError;
use crate::histogram::{build_histogram, hist_of, lemma_hist_of, processed_seq};
use crate::image::ImagequantImage;
use crate::palette::{near_idx, quality_spec, sel_err, sel_palette, select_palette};
use crate::remap::{dither_out, remap};
use crate::settings::Settings;

verus! {

/// The bytes a PNG encoder is fed for a palette: 4 per color, RGBA order.
pub open spec fn rgba_bytes(pal: Seq<Color>) -> Seq<u8> {
    Seq::new(
        (pal.len() * 4) as nat,
        |i: int|
            {
                let c = pal[i / 4];
                if i % 4 == 0 {
                    c.r
                } else if i % 4 == 1 {
                    c.g
                } else if i % 4 == 2 {
                    c.b
                } else {
                    c.a
                }
            },
    )
}

/// The PNG byte stream lodepng's encoder emits for an 8-bit-palette image:
/// a function of the palette bytes, the index buffer and the dimensions
/// alone.
pub uninterp spec fn png_of(pal: Seq<u8>, idx: Seq<u8>, w: usize, h: usize) -> Seq<u8>;

/// Whether lodepng's encoder accepts those same arguments: success, too,
/// depends on nothing but them.
pub uninterp spec fn png_ok(pal: Seq<u8>, idx: Seq<u8>, w: usize, h: usize) -> bool;

/// Relies on lodepng's `Encoder`: `set_palette` switches it to 8-bit
/// palette mode, and `encode` then writes the PNG byte stream
/// deterministically from palette, index buffer and dimensions alone, or
/// reports an error of its own — and whether it errs is itself a function
/// of those arguments. `encode` insists on one index byte per pixel;
/// anything else it rejects, under debug assertions by panicking, so that
/// input stays out.
#[verifier::external_body]
fn encode_png(palette: &Vec<Color>, indices: &Vec<u8>, width: usize, height: usize) -> (r: Result<
    Vec<u8>,
    QuantError,
>)
    requires
        indices@.len() == width * height,
    ensures
        r is Ok <==> png_ok(rgba_bytes(palette@), indices@, width, height),
        r matches Ok(png) ==> png@ == png_of(rgba_bytes(palette@), indices@, width, height),
        r matches Err(e) ==> e == QuantError::EncodingFailed,
{
    let pal: Vec<lodepng::RGBA> = palette.iter().map(
        |c| lodepng::RGBA { r: c.r, g: c.g, b: c.b, a: c.a },
    ).collect();
    let mut encoder = lodepng::Encoder::new();
    if encoder.set_palette(pal.as_slice()).is_err() {
        return Err(QuantError::EncodingFailed);
    }
    match encoder.encode(indices.as_slice(), width, height) {
        Ok(png) => Ok(png),
        Err(_) => Err(QuantError::EncodingFailed),
    }
}

/// What one full quantization run hands back: the palette, one palette
/// index per source pixel in row-major order, the total weighted error and
/// the achieved quality.
#[derive(Debug)]
pub struct QuantizationResult {
    pub palette: Vec<Color>,
    pub indices: Vec<u8>,
    pub error: u128,
    pub quality: u8,
}

/// The quantizer: validated settings plus the pipeline that runs histogram
/// building, palette selection and remapping in order, propagating the
/// first failure.
#[derive(Debug)]
pub struct Imagequant {
    pub settings: Settings,
}

impl Imagequant {
    /// A quantizer with the default settings.
    pub fn new() -> (q: Imagequant)
        ensures
            q.settings == (Settings {
                max_colors: 256u32,
                quality_min: 0u8,
                quality_target: 100u8,
                speed: 4i32,
                min_posterization: 0u8,
            }),
            q.settings.valid(),
    {
        Imagequant { settings: Settings::new() }
    }

    /// Make an image from RGBA pixels.
    /// Use 0 for gamma if the image is sRGB (most images are).
    pub fn new_image(data: Vec<u8>, width: usize, height: usize, gamma: u32) -> (r: Result<
        ImagequantImage,
        QuantError,
    >)
        ensures
            r is Ok <==> width > 0 && height > 0 && data@.len() == width * height * 4,
            r matches Ok(img) ==> img.wf() && img.pixels@ == crate::image::colors_of(data@)
                && img.width == width && img.height == height && img.gamma == gamma,
            width == 0 || height == 0 ==> r == Err::<ImagequantImage, QuantError>(
                QuantError::InvalidDimensions,
            ),
            width > 0 && height > 0 && data@.len() != width * height * 4 ==> r == Err::<
                ImagequantImage,
                QuantError,
            >(QuantError::BufferLengthMismatch),
    {
        ImagequantImage::new(data, width, height, gamma)
    }

    /// It's better to use `set_quality()`.
    pub fn set_max_colors(&mut self, max_colors: u32) -> (r: Result<(), QuantError>)
        ensures
            r is Ok <==> 2 <= max_colors <= 256,
            r is Ok ==> final(self).settings == (Settings {
                max_colors,
                ..old(self).settings
            }),
            r is Err ==> *final(self) == *old(self) && r == Err::<(), QuantError>(
                QuantError::ValueOutOfRange { field: crate::error::SettingField::MaxColors },
            ),
    {
        self.settings.set_max_colors(max_colors)
    }

    /// Range 0-100, roughly like JPEG.
    ///
    /// If the minimum quality can't be met, the quantization will be
    /// aborted with an error. Default is min 0, max 100, which means best
    /// effort and never aborts. If max is less than 100, the library is
    /// allowed to settle for fewer colors.
    pub fn set_quality(&mut self, minimum: u8, target: u8) -> (r: Result<(), QuantError>)
        ensures
            r is Ok <==> minimum <= target <= 100,
            r is Ok ==> final(self).settings == (Settings {
                quality_min: minimum,
                quality_target: target,
                ..old(self).settings
            }),
            r is Err ==> *final(self) == *old(self) && r == Err::<(), QuantError>(
                QuantError::ValueOutOfRange { field: crate::error::SettingField::Quality },
            ),
    {
        self.settings.set_quality(minimum, target)
    }

    /// 1-10. Faster speeds generate images of lower quality, but may be
    /// useful for real-time generation of images. The default is 4.
    pub fn set_speed(&mut self, value: i32) -> (r: Result<(), QuantError>)
        ensures
            r is Ok <==> 1 <= value <= 10,
            r is Ok ==> final(self).settings == (Settings { speed: value, ..old(self).settings }),
            r is Err ==> *final(self) == *old(self) && r == Err::<(), QuantError>(
                QuantError::ValueOutOfRange { field: crate::error::SettingField::Speed },
            ),
    {
        self.settings.set_speed(value)
    }

    /// Number of least significant bits to ignore.
    /// Useful for generating palettes for VGA, 15-bit textures, or other
    /// retro platforms.
    pub fn set_min_posterization(&mut self, value: u8) -> (r: Result<(), QuantError>)
        ensures
            r is Ok <==> value <= 4,
            r is Ok ==> final(self).settings == (Settings {
                min_posterization: value,
                ..old(self).settings
            }),
            r is Err ==> *final(self) == *old(self) && r == Err::<(), QuantError>(
                QuantError::ValueOutOfRange {
                    field: crate::error::SettingField::MinPosterization,
                },
            ),
    {
        self.settings.set_min_posterization(value)
    }

    /// Run the whole pipeline on one image: histogram, palette selection
    /// gated by `quality_min`, then remapping (dithered or not). The first
    /// failure is returned and nothing partial comes back.
    pub fn quantize(&self, image: &ImagequantImage, dither: bool) -> (r: Result<
        QuantizationResult,
        QuantError,
    >)
        requires
            self.settings.valid(),
            image.wf(),
        ensures
            r is Err <==> quality_spec(
                hist_of(processed_seq(image.pixels@, self.settings.min_posterization)),
                self.settings,
            ) < self.settings.quality_min,
            r is Err ==> r == Err::<QuantizationResult, QuantError>(
                QuantError::QualityTooLow {
                    achieved: quality_spec(
                        hist_of(processed_seq(image.pixels@, self.settings.min_posterization)),
                        self.settings,
                    ) as u8,
                    required: self.settings.quality_min,
                },
            ),
            r matches Ok(res) ==> {
                let h = hist_of(processed_seq(image.pixels@, self.settings.min_posterization));
                &&& res.palette@ == sel_palette(h, self.settings)
                &&& res.error == sel_err(h, self.settings)
                &&& res.quality == quality_spec(h, self.settings)
                &&& res.quality >= self.settings.quality_min
                &&& 1 <= res.palette@.len() <= self.settings.max_colors
                &&& res.indices@.len() == image.pixels@.len()
                &&& forall|i: int|
                    0 <= i < res.indices@.len() ==> #[trigger] res.indices@[i]
                        < res.palette@.len()
                &&& !dither ==> forall|i: int|
                    0 <= i < res.indices@.len() ==> #[trigger] res.indices@[i] == near_idx(
                        res.palette@,
                        processed_seq(image.pixels@, self.settings.min_posterization)[i],
                    )
                &&& dither ==> res.indices@ == dither_out(
                    processed_seq(image.pixels@, self.settings.min_posterization),
                    res.palette@,
                    image.width as int,
                    image.pixels@.len() as int,
                )
            },
    {
        let ghost ps = processed_seq(image.pixels@, self.settings.min_posterization);
        let hist = build_histogram(image, self.settings.min_posterization);
        proof {
            lemma_hist_of(ps);
            assert(image.pixels@.len() >= 1) by {
                assert(image.width * image.height >= 1) by (nonlinear_arith)
                    requires image.width >= 1 && image.height >= 1;
            }
            assert(hist.entries@.len() >= 1);
        }
        let sel = match select_palette(&hist, &self.settings) {
            Ok(sel) => sel,
            Err(e) => {
                return Err(e);
            },
        };
        let indices = match remap(image, &sel.palette, self.settings.min_posterization, dither) {
            Ok(buf) => buf,
            Err(_) => {
                proof {
                    assert(false);
                }
                return Err(QuantError::PaletteMismatch);
            },
        };
        Ok(
            QuantizationResult {
                palette: sel.palette,
                indices,
                error: sel.error,
                quality: sel.quality,
            },
        )
    }

    /// Create a PNG based on the specified settings: quantize with
    /// dithering, then hand palette and indices to the external encoder.
    pub fn process(&self, image: ImagequantImage) -> (r: Result<Vec<u8>, QuantError>)
        requires
            self.settings.valid(),
            image.wf(),
        ensures
            quality_spec(
                hist_of(processed_seq(image.pixels@, self.settings.min_posterization)),
                self.settings,
            ) < self.settings.quality_min <==> r == Err::<Vec<u8>, QuantError>(
                QuantError::QualityTooLow {
                    achieved: quality_spec(
                        hist_of(processed_seq(image.pixels@, self.settings.min_posterization)),
                        self.settings,
                    ) as u8,
                    required: self.settings.quality_min,
                },
            ),
            r is Ok <==> quality_spec(
                hist_of(processed_seq(image.pixels@, self.settings.min_posterization)),
                self.settings,
            ) >= self.settings.quality_min && png_ok(
                rgba_bytes(
                    sel_palette(
                        hist_of(processed_seq(image.pixels@, self.settings.min_posterization)),
                        self.settings,
                    ),
                ),
                dither_out(
                    processed_seq(image.pixels@, self.settings.min_posterization),
                    sel_palette(
                        hist_of(processed_seq(image.pixels@, self.settings.min_posterization)),
                        self.settings,
                    ),
                    image.width as int,
                    image.pixels@.len() as int,
                ),
                image.width,
                image.height,
            ),
            r matches Ok(png) ==> {
                let h = hist_of(processed_seq(image.pixels@, self.settings.min_posterization));
                png@ == png_of(
                    rgba_bytes(sel_palette(h, self.settings)),
                    dither_out(
                        processed_seq(image.pixels@, self.settings.min_posterization),
                        sel_palette(h, self.settings),
                        image.width as int,
                        image.pixels@.len() as int,
                    ),
                    image.width,
                    image.height,
                )
            },
            r is Err ==> r == Err::<Vec<u8>, QuantError>(QuantError::EncodingFailed) || r
                == Err::<Vec<u8>, QuantError>(
                QuantError::QualityTooLow {
                    achieved: quality_spec(
                        hist_of(processed_seq(image.pixels@, self.settings.min_posterization)),
                        self.settings,
                    ) as u8,
                    required: self.settings.quality_min,
                },
            ),
    {
        let res = match self.quantize(&image, true) {
            Ok(res) => res,
            Err(e) => {
                return Err(e);
            },
        };
        encode_png(&res.palette, &res.indices, image.width, image.height)
    }
}

} // verus!
