//! Dithering behavior: error diffusion keeps the image's overall energy,
//! while the undithered path picks plain nearest entries.

use quantpal::color::Color;
use quantpal::image::ImagequantImage;
use quantpal::Imagequant;

fn rgba(r: u8, g: u8, b: u8, a: u8) -> Color {
    Color { r, g, b, a }
}

fn image_of(colors: &[Color], width: usize, height: usize) -> ImagequantImage {
    let mut data: Vec<u8> = Vec::new();
    for c in colors {
        data.push(c.r);
        data.push(c.g);
        data.push(c.b);
        data.push(c.a);
    }
    ImagequantImage::new(data, width, height, 0).expect("valid image")
}

/// Signed residual sum of the red channel over all pixels.
fn residual_sum(px: &[Color], palette: &[Color], indices: &[u8]) -> i64 {
    let mut sum: i64 = 0;
    for (i, c) in px.iter().enumerate() {
        let chosen = palette[indices[i] as usize];
        sum += c.r as i64 - chosen.r as i64;
    }
    sum
}

#[test]
fn dithering_keeps_energy_closer_to_zero() {
    // 100 black and 100 gray-160 anchors keep the palette at those two
    // colors; 56 gray-80 pixels sit exactly between them. Undithered they
    // all snap to black, a residual of 80 each; dithered the residual must
    // shrink by a lot.
    let mut px: Vec<Color> = Vec::new();
    for _ in 0..100 {
        px.push(rgba(0, 0, 0, 255));
    }
    for _ in 0..100 {
        px.push(rgba(160, 160, 160, 255));
    }
    for _ in 0..56 {
        px.push(rgba(80, 80, 80, 255));
    }
    let img = image_of(&px, 16, 16);
    let mut q = Imagequant::new();
    q.set_max_colors(2).unwrap();

    let plain = q.quantize(&img, false).unwrap();
    let plain_sum = residual_sum(&px, &plain.palette, &plain.indices);
    assert_eq!(plain_sum, 56 * 80);

    let dithered = q.quantize(&img, true).unwrap();
    let dither_sum = residual_sum(&px, &dithered.palette, &dithered.indices);
    assert!(dither_sum.abs() < plain_sum.abs() / 2);
}

#[test]
fn undithered_indices_are_plain_nearest() {
    // Without dithering each pixel goes to the first nearest palette
    // entry of its own color, whatever its neighbors are.
    let mut px: Vec<Color> = Vec::new();
    for _ in 0..3 {
        px.push(rgba(0, 0, 0, 255));
        px.push(rgba(160, 160, 160, 255));
    }
    px.push(rgba(90, 90, 90, 255));
    px.push(rgba(60, 60, 60, 255));
    let img = image_of(&px, 4, 2);
    let mut q = Imagequant::new();
    q.set_max_colors(2).unwrap();
    let res = q.quantize(&img, false).unwrap();
    assert_eq!(res.indices.len(), px.len());
    for (i, c) in px.iter().enumerate() {
        let chosen = res.indices[i] as usize;
        let d_chosen = quantpal::color::dist(*c, res.palette[chosen]);
        for (j, p) in res.palette.iter().enumerate() {
            let d = quantpal::color::dist(*c, *p);
            assert!(d_chosen <= d);
            if j < chosen {
                assert!(d > d_chosen);
            }
        }
    }
}
