use dither::dithering::{ErrorDithering, ErrorDitheringTrait};
use dither::enums::ErrorDitheringEnum;
use dither::objects::Offset;
use dither::quantize::{Quantize, QuantizeTrait};
use dither::svec::{SVec, Shape};

/// The 8 evenly spaced `u8` levels for a 255-wide domain split into 7 steps.
const LEVELS_8: [u8; 8] = [0, 36, 73, 109, 146, 182, 219, 255];

fn image_5x5x3(extra: &[(usize, u8)]) -> SVec<u8> {
    let mut data = vec![128u8; 75];
    data[0] = 0;
    data[1] = 255;
    for &(i, v) in extra {
        data[i] = v;
    }
    SVec::new(Shape::new(5, 5, Some(3)), data)
}

#[test]
fn quantize_test_quantize_u8() {
    let mut img = image_5x5x3(&[]);
    let e = Quantize::new(255, 8);
    e.quantize_img(&mut img);
    println!("{:?}", img);
}

#[test]
fn dithering_test_quantize_u8() {
    let mut img = image_5x5x3(&[(37, 123)]);
    let e = ErrorDithering::new(Quantize::new(255, 8), ErrorDitheringEnum::FloydSteinberg);
    e.dithering(&mut img);
    println!("{:?}", img);
}

#[test]
fn quantize_exact_values() {
    let q = Quantize::new(255, 8);
    assert_eq!(q.get_new_pix(0u8), 0);
    assert_eq!(q.get_new_pix(36u8), 0);
    assert_eq!(q.get_new_pix(37u8), 36);
    assert_eq!(q.get_new_pix(128u8), 109);
    assert_eq!(q.get_new_pix(255u8), 255);
}

#[test]
fn quantize_hits_exactly_eight_levels() {
    let q = Quantize::new(255, 8);
    let mut seen: Vec<u8> = (0..=255u8).map(|p| q.get_new_pix(p)).collect();
    seen.sort();
    seen.dedup();
    assert_eq!(seen, LEVELS_8.to_vec());
}

#[test]
fn quantize_img_maps_every_value() {
    let mut img = image_5x5x3(&[]);
    let e = Quantize::new(255, 8);
    e.quantize_img(&mut img);
    let out = img.get_data();
    assert_eq!(out[0], 0);
    assert_eq!(out[1], 255);
    for i in 2..75 {
        assert_eq!(out[i], 109);
    }
}

#[test]
fn quantize_deterministic() {
    let q = Quantize::new(255, 8);
    for p in 0..=255u8 {
        assert_eq!(q.get_new_pix(p), q.get_new_pix(p));
    }
}

#[test]
fn quantize_fixed_point_whole_step() {
    // 255 steps of width 1: every value is its own level and a fixed point.
    let q = Quantize::new(255, 256);
    for p in 0..=255u8 {
        assert_eq!(q.get_new_pix(p), p);
    }
    // 1 step of width 255: the two levels 0 and 255 are fixed points.
    let q2 = Quantize::new(255, 2);
    assert_eq!(q2.get_new_pix(0u8), 0);
    assert_eq!(q2.get_new_pix(255u8), 255);
    // With a fractional step, a level value need not be a fixed point.
    let q8 = Quantize::new(255, 8);
    assert_eq!(q8.get_new_pix(36u8), 0);
}

#[test]
fn scenario_a_dither_5x5_u8() {
    let mut img = image_5x5x3(&[]);
    let e = ErrorDithering::new(Quantize::new(255, 8), ErrorDitheringEnum::FloydSteinberg);
    e.dithering(&mut img);
    let (h, w, c) = img.shape();
    assert_eq!((h, w, c), (5, 5, Some(3)));
    assert_eq!(img.get_data().len(), 75);
    for &v in img.get_data() {
        assert!(LEVELS_8.contains(&v), "value {} is not a reachable level", v);
        assert!(v <= 255);
    }
}

#[test]
fn scenario_border_2x2_u8() {
    // 2x2 grayscale, two levels {0, 255}. The first pixel's error may reach
    // only the three in-bounds neighbors; the lower-left offset points
    // outside and is dropped. The last accumulation overshoots 255 and
    // saturates instead of wrapping.
    let mut img = SVec::new(Shape::new(2, 2, None), vec![200u8, 100, 100, 100]);
    let e = ErrorDithering::new(Quantize::new(255, 2), ErrorDitheringEnum::FloydSteinberg);
    e.dithering(&mut img);
    assert_eq!(img.get_data(), &[0u8, 0, 0, 255]);
}

#[test]
fn dither_1x1_has_no_neighbors() {
    // A single pixel has no in-bounds diffusion target: the pass is plain
    // quantization.
    let mut img = SVec::new(Shape::new(1, 1, None), vec![200u8]);
    let e = ErrorDithering::new(Quantize::new(255, 2), ErrorDitheringEnum::FloydSteinberg);
    e.dithering(&mut img);
    assert_eq!(img.get_data(), &[0u8]);
    let mut img2 = SVec::new(Shape::new(1, 1, None), vec![255u8]);
    e.dithering(&mut img2);
    assert_eq!(img2.get_data(), &[255u8]);
}

#[test]
fn quantize_u16_exact_values() {
    let q = Quantize::new(65535, 8);
    assert_eq!(q.get_new_pix(0u16), 0);
    assert_eq!(q.get_new_pix(32768u16), 28086);
    assert_eq!(q.get_new_pix(65535u16), 65535);
    let mut img = SVec::new(Shape::new(1, 2, None), vec![32768u16, 65535]);
    q.quantize_img(&mut img);
    assert_eq!(img.get_data(), &[28086u16, 65535]);
}

#[test]
fn dither_2x3_interior_distribution() {
    // Pixel (1, 0) has all four Floyd-Steinberg targets in bounds: its
    // residual 14 (160 quantized to level 146) is split 6/2/4/0 and the whole
    // cascade then quantizes back down to 0.
    let mut img = SVec::new(Shape::new(2, 3, None), vec![0u8, 160, 0, 0, 0, 0]);
    let e = ErrorDithering::new(Quantize::new(255, 8), ErrorDitheringEnum::FloydSteinberg);
    e.dithering(&mut img);
    assert_eq!(img.get_data(), &[0u8, 146, 0, 0, 0, 0]);
}

#[test]
fn shape_accessors() {
    let s = Shape::new(4, 6, Some(3));
    assert_eq!(s.get_height(), 4);
    assert_eq!(s.get_width(), 6);
    assert_eq!(s.get_channels(), Some(3));
    assert_eq!(s.get_shape(), (4, 6, Some(3)));
    assert_eq!(s.get_ndims(), 3);
    let g = Shape::new(4, 6, None);
    assert_eq!(g.get_channels(), None);
    assert_eq!(g.get_ndims(), 2);
}

#[test]
fn svec_data_access() {
    let mut v = SVec::new(Shape::new(1, 3, None), vec![1u8, 2, 3]);
    assert_eq!(v.shape(), (1, 3, None));
    assert_eq!(v.get_data(), &[1u8, 2, 3]);
    let d = v.get_data_mut();
    d[1] = 9;
    assert_eq!(v.get_data(), &[1u8, 9, 3]);
}

#[test]
fn kernel_catalog_floyd_steinberg() {
    let offs: Vec<Offset> = ErrorDitheringEnum::FloydSteinberg.distribution();
    let got: Vec<(isize, isize, u8, u8)> = offs.iter().map(|o| o.get_other()).collect();
    assert_eq!(got, vec![(1, 0, 7, 16), (-1, 1, 3, 16), (0, 1, 5, 16), (1, 1, 1, 16)]);
}
