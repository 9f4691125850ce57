//! End-to-end behavior of the quantization engine on concrete images.

use quantpal::color::{dist, processed, Color, MAX_DIST};
use quantpal::error::{QuantError, SettingField};
use quantpal::histogram::Histogram;
use quantpal::image::ImagequantImage;
use quantpal::palette::select_palette;
use quantpal::remap::remap;
use quantpal::settings::Settings;
use quantpal::Imagequant;

fn rgba(r: u8, g: u8, b: u8, a: u8) -> Color {
    Color { r, g, b, a }
}

fn image_of(colors: &[Color], width: usize, height: usize) -> ImagequantImage {
    let mut data: Vec<u8> = Vec::new();
    for c in colors {
        data.push(c.r);
        data.push(c.g);
        data.push(c.b);
        data.push(c.a);
    }
    ImagequantImage::new(data, width, height, 0).expect("valid image")
}

#[test]
fn image_rejects_zero_dimension() {
    assert!(matches!(
        ImagequantImage::new(vec![0, 0, 0, 0], 0, 1, 0),
        Err(QuantError::InvalidDimensions)
    ));
    assert!(matches!(
        ImagequantImage::new(vec![0, 0, 0, 0], 1, 0, 0),
        Err(QuantError::InvalidDimensions)
    ));
}

#[test]
fn image_rejects_wrong_buffer_length() {
    assert!(matches!(
        ImagequantImage::new(vec![0, 0, 0], 1, 1, 0),
        Err(QuantError::BufferLengthMismatch)
    ));
    assert!(matches!(
        ImagequantImage::new(vec![0; 12], 1, 2, 0),
        Err(QuantError::BufferLengthMismatch)
    ));
}

#[test]
fn image_keeps_fields_and_pixels() {
    let img = ImagequantImage::new(vec![1, 2, 3, 4, 5, 6, 7, 8], 2, 1, 55000).unwrap();
    assert_eq!(img.width, 2);
    assert_eq!(img.height, 1);
    assert_eq!(img.gamma, 55000);
    assert_eq!(img.pixels, vec![rgba(1, 2, 3, 4), rgba(5, 6, 7, 8)]);
}

#[test]
fn setters_validate_ranges() {
    let mut q = Imagequant::new();
    assert_eq!(q.settings.max_colors, 256);
    assert_eq!(q.settings.quality_min, 0);
    assert_eq!(q.settings.quality_target, 100);
    assert_eq!(q.settings.speed, 4);
    assert_eq!(q.settings.min_posterization, 0);

    assert_eq!(
        q.set_max_colors(1),
        Err(QuantError::ValueOutOfRange { field: SettingField::MaxColors })
    );
    assert_eq!(
        q.set_max_colors(257),
        Err(QuantError::ValueOutOfRange { field: SettingField::MaxColors })
    );
    assert_eq!(q.set_max_colors(2), Ok(()));
    assert_eq!(q.settings.max_colors, 2);

    assert_eq!(
        q.set_quality(80, 70),
        Err(QuantError::ValueOutOfRange { field: SettingField::Quality })
    );
    assert_eq!(
        q.set_quality(0, 101),
        Err(QuantError::ValueOutOfRange { field: SettingField::Quality })
    );
    assert_eq!(q.set_quality(10, 90), Ok(()));
    assert_eq!(q.settings.quality_min, 10);
    assert_eq!(q.settings.quality_target, 90);

    assert_eq!(
        q.set_speed(0),
        Err(QuantError::ValueOutOfRange { field: SettingField::Speed })
    );
    assert_eq!(
        q.set_speed(11),
        Err(QuantError::ValueOutOfRange { field: SettingField::Speed })
    );
    assert_eq!(q.set_speed(1), Ok(()));
    assert_eq!(q.settings.speed, 1);

    assert_eq!(
        q.set_min_posterization(5),
        Err(QuantError::ValueOutOfRange { field: SettingField::MinPosterization })
    );
    assert_eq!(q.set_min_posterization(4), Ok(()));
    assert_eq!(q.settings.min_posterization, 4);
}

#[test]
fn distance_extremes() {
    let black = rgba(0, 0, 0, 0);
    let white = rgba(255, 255, 255, 255);
    assert_eq!(dist(black, black), 0);
    assert_eq!(dist(black, white), MAX_DIST);
    // 2*16 + 4*0 + 1*0 + 3*0 with a red difference of 4
    assert_eq!(dist(rgba(4, 0, 0, 9), rgba(0, 0, 0, 9)), 32);
}

#[test]
fn posterize_zeroes_low_bits_and_collapses_transparent() {
    assert_eq!(processed(rgba(13, 255, 7, 9), 2), rgba(12, 252, 4, 8));
    assert_eq!(processed(rgba(13, 255, 7, 9), 0), rgba(13, 255, 7, 9));
    assert_eq!(processed(rgba(5, 6, 7, 0), 0), rgba(0, 0, 0, 0));
    // alpha posterized to zero collapses too
    assert_eq!(processed(rgba(5, 6, 7, 3), 2), rgba(0, 0, 0, 0));
}

#[test]
fn concrete_2x2_four_colors() {
    let red = rgba(255, 0, 0, 255);
    let green = rgba(0, 255, 0, 255);
    let blue = rgba(0, 0, 255, 255);
    let white = rgba(255, 255, 255, 255);
    let img = image_of(&[red, green, blue, white], 2, 2);
    let mut q = Imagequant::new();
    q.set_max_colors(4).unwrap();
    let res = q.quantize(&img, true).unwrap();
    assert_eq!(res.palette, vec![red, green, blue, white]);
    assert_eq!(res.indices, vec![0, 1, 2, 3]);
    assert_eq!(res.quality, 100);
    assert_eq!(res.error, 0);
    let res2 = q.quantize(&img, false).unwrap();
    assert_eq!(res2.indices, vec![0, 1, 2, 3]);
}

#[test]
fn exact_fit_small_color_count() {
    let a = rgba(10, 20, 30, 255);
    let b = rgba(200, 100, 0, 255);
    let c = rgba(0, 0, 0, 255);
    let img = image_of(&[a, b, c, a, b, c, a, a], 4, 2);
    let q = Imagequant::new();
    let res = q.quantize(&img, true).unwrap();
    assert_eq!(res.palette, vec![a, b, c]);
    assert_eq!(res.quality, 100);
    assert_eq!(res.error, 0);
    // every pixel maps back to exactly its own color
    for (i, want) in [a, b, c, a, b, c, a, a].iter().enumerate() {
        assert_eq!(res.palette[res.indices[i] as usize], *want);
    }
}

#[test]
fn speed_one_never_worse_than_speed_ten() {
    let mut colors = Vec::new();
    for i in 0..8u8 {
        colors.push(rgba(i * 30, 255 - i * 25, i * 10, 255));
    }
    // pad to 4x4 with repeats
    let mut px = Vec::new();
    for i in 0..16 {
        px.push(colors[i % 8]);
    }
    let img = image_of(&px, 4, 4);
    let mut q = Imagequant::new();
    q.set_max_colors(2).unwrap();
    q.set_speed(1).unwrap();
    let slow = q.quantize(&img, false).unwrap();
    q.set_speed(10).unwrap();
    let fast = q.quantize(&img, false).unwrap();
    assert!(slow.quality >= fast.quality);
    assert!(slow.error <= fast.error);
}

#[test]
fn quality_gate_aborts_at_minimum_100() {
    let px = [
        rgba(0, 0, 0, 255),
        rgba(255, 0, 0, 255),
        rgba(0, 255, 0, 255),
        rgba(0, 0, 255, 255),
    ];
    let img = image_of(&px, 2, 2);
    let mut q = Imagequant::new();
    q.set_max_colors(2).unwrap();
    q.set_quality(100, 100).unwrap();
    match q.quantize(&img, true) {
        Err(QuantError::QualityTooLow { achieved, required }) => {
            assert_eq!(required, 100);
            assert!(achieved < 100);
        }
        other => panic!("expected QualityTooLow, got {:?}", other),
    }
}

#[test]
fn index_bounds_hold_on_reduced_palette() {
    let mut px = Vec::new();
    for i in 0..16u8 {
        px.push(rgba(i * 16, 255 - i * 16, i, 255));
    }
    let img = image_of(&px, 4, 4);
    let mut q = Imagequant::new();
    q.set_max_colors(4).unwrap();
    for dither in [false, true] {
        let res = q.quantize(&img, dither).unwrap();
        assert_eq!(res.indices.len(), 16);
        assert!(res.palette.len() <= 4);
        for &ix in &res.indices {
            assert!((ix as usize) < res.palette.len());
        }
    }
}

#[test]
fn posterized_image_needs_no_posterization() {
    // all channels, alpha included, are multiples of 8: already
    // posterized to 3 bits
    let px = [
        rgba(0, 8, 16, 248),
        rgba(240, 128, 64, 248),
        rgba(8, 8, 8, 248),
        rgba(200, 0, 96, 248),
        rgba(0, 8, 16, 248),
        rgba(240, 128, 64, 248),
    ];
    let img = image_of(&px, 3, 2);
    let mut q = Imagequant::new();
    q.set_max_colors(2).unwrap();
    q.set_min_posterization(3).unwrap();
    let with_post = q.quantize(&img, false).unwrap();
    q.set_min_posterization(0).unwrap();
    let without = q.quantize(&img, false).unwrap();
    assert_eq!(with_post.palette, without.palette);
    assert_eq!(with_post.quality, without.quality);
    assert_eq!(with_post.indices, without.indices);
}

#[test]
fn transparent_pixels_collapse_to_one_entry() {
    // many distinct fully transparent colors must not exhaust the palette
    let px = [
        rgba(1, 2, 3, 0),
        rgba(9, 9, 9, 0),
        rgba(200, 1, 4, 0),
        rgba(17, 170, 55, 0),
        rgba(255, 0, 0, 255),
        rgba(0, 255, 0, 255),
    ];
    let img = image_of(&px, 3, 2);
    let mut q = Imagequant::new();
    q.set_max_colors(3).unwrap();
    let res = q.quantize(&img, false).unwrap();
    assert_eq!(
        res.palette,
        vec![rgba(0, 0, 0, 0), rgba(255, 0, 0, 255), rgba(0, 255, 0, 255)]
    );
    assert_eq!(res.quality, 100);
}

#[test]
fn empty_histogram_reports_empty_image() {
    let hist = Histogram { entries: Vec::new() };
    let settings = Settings::new();
    assert!(matches!(
        select_palette(&hist, &settings),
        Err(QuantError::EmptyImage)
    ));
}

#[test]
fn empty_palette_reports_mismatch() {
    let img = image_of(&[rgba(1, 2, 3, 255)], 1, 1);
    let empty: Vec<Color> = Vec::new();
    assert_eq!(
        remap(&img, &empty, 0, true),
        Err(QuantError::PaletteMismatch)
    );
}

#[test]
fn quality_score_is_exact_for_known_error() {
    // 100 black, 100 gray-160 and 56 gray-80 pixels; two palette slots.
    // The best pair is {black, gray-160}; the 56 mid pixels each miss by
    // 80 on r, g and b: error = 56 * (2+4+1) * 6400 = 2508800.
    // quality = 99 - (2508800*99) / (256*650250) = 99 - 1 = 98.
    let mut px = Vec::new();
    for _ in 0..100 {
        px.push(rgba(0, 0, 0, 255));
    }
    for _ in 0..100 {
        px.push(rgba(160, 160, 160, 255));
    }
    for _ in 0..56 {
        px.push(rgba(80, 80, 80, 255));
    }
    let img = image_of(&px, 16, 16);
    let mut q = Imagequant::new();
    q.set_max_colors(2).unwrap();
    let res = q.quantize(&img, false).unwrap();
    assert_eq!(res.palette, vec![rgba(0, 0, 0, 255), rgba(160, 160, 160, 255)]);
    assert_eq!(res.error, 2508800);
    assert_eq!(res.quality, 98);
}
