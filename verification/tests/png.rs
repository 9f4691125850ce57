//! The full `process` path: quantize, encode with the external encoder,
//! then decode the byte stream again and compare it with the quantizer's
//! own palette and indices.

use quantpal::color::Color;
use quantpal::image::ImagequantImage;
use quantpal::Imagequant;

fn rgba(r: u8, g: u8, b: u8, a: u8) -> Color {
    Color { r, g, b, a }
}

fn image_of(colors: &[Color], width: usize, height: usize) -> ImagequantImage {
    let mut data: Vec<u8> = Vec::new();
    for c in colors {
        data.push(c.r);
        data.push(c.g);
        data.push(c.b);
        data.push(c.a);
    }
    ImagequantImage::new(data, width, height, 0).expect("valid image")
}

#[test]
fn process_emits_decodable_indexed_png() {
    let px = [
        rgba(255, 0, 0, 255),
        rgba(0, 255, 0, 255),
        rgba(0, 0, 255, 255),
        rgba(255, 255, 255, 255),
    ];
    let img = image_of(&px, 2, 2);
    let img2 = image_of(&px, 2, 2);
    let mut q = Imagequant::new();
    q.set_max_colors(4).unwrap();

    let expected = q.quantize(&img, true).unwrap();
    let png = q.process(img2).expect("png bytes");
    assert_eq!(&png[1..4], b"PNG");

    let decoded = lodepng::decode32(&png).expect("decodable");
    assert_eq!(decoded.width, 2);
    assert_eq!(decoded.height, 2);
    for (i, p) in decoded.buffer.iter().enumerate() {
        let want = expected.palette[expected.indices[i] as usize];
        assert_eq!((p.r, p.g, p.b, p.a), (want.r, want.g, want.b, want.a));
    }
}

#[test]
fn process_is_deterministic() {
    let mut px = Vec::new();
    for i in 0..64u32 {
        let v = (i * 4) as u8;
        px.push(rgba(v, 255 - v, v / 3, 255));
    }
    let img1 = image_of(&px, 8, 8);
    let img2 = image_of(&px, 8, 8);
    let mut q = Imagequant::new();
    q.set_max_colors(5).unwrap();
    let png1 = q.process(img1).expect("png bytes");
    let png2 = q.process(img2).expect("png bytes");
    assert_eq!(png1, png2);
}

#[test]
fn process_respects_quality_gate() {
    let px = [
        rgba(0, 0, 0, 255),
        rgba(255, 0, 0, 255),
        rgba(0, 255, 0, 255),
        rgba(0, 0, 255, 255),
    ];
    let img = image_of(&px, 2, 2);
    let mut q = Imagequant::new();
    q.set_max_colors(2).unwrap();
    q.set_quality(100, 100).unwrap();
    assert!(matches!(
        q.process(img),
        Err(quantpal::error::QuantError::QualityTooLow { required: 100, .. })
    ));
}

#[test]
fn process_reduces_gradient_to_bounded_palette() {
    let mut px = Vec::new();
    for i in 0..64u32 {
        let v = (i * 4) as u8;
        px.push(rgba(v, v / 2, 255 - v, 255));
    }
    let img = image_of(&px, 8, 8);
    let mut q = Imagequant::new();
    q.set_max_colors(8).unwrap();
    let png = q.process(img).expect("png bytes");
    let decoded = lodepng::decode32(&png).expect("decodable");
    let mut distinct: Vec<(u8, u8, u8, u8)> = Vec::new();
    for p in decoded.buffer.iter() {
        let t = (p.r, p.g, p.b, p.a);
        if !distinct.contains(&t) {
            distinct.push(t);
        }
    }
    assert!(distinct.len() <= 8);
}
