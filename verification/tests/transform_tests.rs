//! Tests of the individual transform steps on concrete buffers.

use pixedit::PixelBuffer;
use pixedit::geom;
use pixedit::tone;
use pixedit::chroma;
use pixedit::pixelate;

fn patterned(w: u32, h: u32) -> PixelBuffer {
    let mut b = PixelBuffer::new(w, h).unwrap();
    for y in 0..h {
        for x in 0..w {
            let v = ((x * 7 + y * 13) % 256) as u8;
            b.set_pixel(x, y, (v, v.wrapping_add(40), v.wrapping_add(80), 255));
        }
    }
    b
}

fn same_pixels(a: &PixelBuffer, b: &PixelBuffer) -> bool {
    a.width() == b.width() && a.height() == b.height() && a.raw() == b.raw()
}

#[test]
fn buffer_construction_checks_lengths() {
    let b = PixelBuffer::new(3, 2).unwrap();
    assert_eq!(b.width(), 3);
    assert_eq!(b.height(), 2);
    assert_eq!(b.raw().len(), 24);
    assert!(b.raw().iter().all(|&v| v == 0));
    assert!(PixelBuffer::from_raw(2, 2, vec![0u8; 15]).is_none());
    let ok = PixelBuffer::from_raw(2, 2, vec![9u8; 16]).unwrap();
    assert_eq!(ok.get_pixel(1, 1), (9, 9, 9, 9));
}

#[test]
fn rotate90_four_times_is_identity() {
    let b = patterned(5, 3);
    let r1 = geom::rotate90(&b);
    let r2 = geom::rotate90(&r1);
    let r3 = geom::rotate90(&r2);
    let r4 = geom::rotate90(&r3);
    assert!(same_pixels(&b, &r4));
    assert_eq!(r1.width(), 3);
    assert_eq!(r1.height(), 5);
}

#[test]
fn rotate_minus_90_equals_rotate_270() {
    assert_eq!(geom::normalize_rotation(-90), geom::normalize_rotation(270));
    assert_eq!(geom::normalize_rotation(-270), geom::normalize_rotation(90));
    assert_eq!(geom::normalize_rotation(-180), geom::normalize_rotation(180));
    assert_eq!(geom::normalize_rotation(45), geom::normalize_rotation(0));
    let b = patterned(4, 3);
    let a = geom::rotate270(&b);
    let c = geom::rotate90(&geom::rotate180(&b));
    assert!(same_pixels(&a, &c));
}

#[test]
fn flips_are_involutions_and_commute() {
    let b = patterned(6, 4);
    let hh = geom::flip_horizontal(&geom::flip_horizontal(&b));
    assert!(same_pixels(&b, &hh));
    let vv = geom::flip_vertical(&geom::flip_vertical(&b));
    assert!(same_pixels(&b, &vv));
    let hv = geom::flip_vertical(&geom::flip_horizontal(&b));
    let vh = geom::flip_horizontal(&geom::flip_vertical(&b));
    assert!(same_pixels(&hv, &vh));
}

#[test]
fn flip_horizontal_mirrors_pixels() {
    let mut b = PixelBuffer::new(3, 1).unwrap();
    b.set_pixel(0, 0, (1, 0, 0, 255));
    b.set_pixel(1, 0, (2, 0, 0, 255));
    b.set_pixel(2, 0, (3, 0, 0, 255));
    let f = geom::flip_horizontal(&b);
    assert_eq!(f.get_pixel(0, 0).0, 3);
    assert_eq!(f.get_pixel(1, 0).0, 2);
    assert_eq!(f.get_pixel(2, 0).0, 1);
}

#[test]
fn brightness_contrast_zero_is_identity() {
    let b = patterned(7, 5);
    let out = tone::brightness_contrast(&b, 0, 0);
    assert!(same_pixels(&b, &out));
}

#[test]
fn brightness_shifts_channels() {
    let mut b = PixelBuffer::new(1, 1).unwrap();
    b.set_pixel(0, 0, (100, 200, 30, 77));
    // brightness 0.5 => bias = round(127.5) = 128; contrast unchanged
    let out = tone::brightness_contrast(&b, 500, 0);
    let p = out.get_pixel(0, 0);
    assert_eq!(p.0, 228);
    assert_eq!(p.1, 255); // clamped
    assert_eq!(p.2, 158);
    assert_eq!(p.3, 77); // alpha untouched
}

#[test]
fn full_negative_contrast_flattens_to_mid_gray() {
    let mut b = PixelBuffer::new(2, 1).unwrap();
    b.set_pixel(0, 0, (0, 255, 17, 9));
    b.set_pixel(1, 0, (250, 3, 128, 200));
    let out = tone::brightness_contrast(&b, 0, -1000);
    assert_eq!(out.get_pixel(0, 0), (128, 128, 128, 9));
    assert_eq!(out.get_pixel(1, 0), (128, 128, 128, 200));
}

#[test]
fn grayscale_uses_luma_and_keeps_alpha() {
    let mut b = PixelBuffer::new(1, 1).unwrap();
    b.set_pixel(0, 0, (255, 0, 0, 31));
    let out = tone::grayscale(&b);
    // 2126 * 255 / 10000 = 54
    assert_eq!(out.get_pixel(0, 0), (54, 54, 54, 31));
}

#[test]
fn chroma_key_zero_tolerance_exact_match_only() {
    let mut b = PixelBuffer::new(2, 1).unwrap();
    b.set_pixel(0, 0, (0, 255, 0, 255));
    b.set_pixel(1, 0, (10, 245, 5, 255));
    let out = chroma::chroma_key(&b, (0, 255, 0), 0);
    assert_eq!(out.get_pixel(0, 0).3, 0);
    assert_eq!(out.get_pixel(1, 0).3, 255);
    // color channels never change
    assert_eq!(out.get_pixel(1, 0).0, 10);
    assert_eq!(out.get_pixel(1, 0).1, 245);
    assert_eq!(out.get_pixel(1, 0).2, 5);
}

#[test]
fn chroma_key_soft_band_attenuates() {
    let mut b = PixelBuffer::new(3, 1).unwrap();
    // distances from black: 75 (soft band), 30 (inside), 200 (outside)
    b.set_pixel(0, 0, (75, 0, 0, 255));
    b.set_pixel(1, 0, (30, 0, 0, 255));
    b.set_pixel(2, 0, (200, 0, 0, 255));
    // tolerance 0.2 => tol = 200 * 255 / 1000 = 51
    let out = chroma::chroma_key(&b, (0, 0, 0), 200);
    assert_eq!(out.get_pixel(0, 0).3, 120); // 255 * (75 - 51) / 51
    assert_eq!(out.get_pixel(1, 0).3, 0);
    assert_eq!(out.get_pixel(2, 0).3, 255);
}

#[test]
fn chroma_key_full_tolerance_keys_everything_near() {
    let mut b = PixelBuffer::new(1, 1).unwrap();
    b.set_pixel(0, 0, (100, 100, 50, 255));
    let out = chroma::chroma_key(&b, (100, 100, 60), 1000);
    // dist 10 <= 255
    assert_eq!(out.get_pixel(0, 0).3, 0);
}

fn one_stroke(px: u32, py: u32, radius: u32) -> Vec<pixelate::PixelateStroke> {
    vec![pixelate::PixelateStroke { points: vec![(px, py)], radius }]
}

#[test]
fn pixelation_leaves_uniform_region_unchanged() {
    let mut b = PixelBuffer::new(8, 8).unwrap();
    for y in 0..8 {
        for x in 0..8 {
            b.set_pixel(x, y, (90, 120, 150, 255));
        }
    }
    let strokes = one_stroke(500, 500, 500);
    pixelate::apply_strokes(&mut b, &strokes, 4);
    for y in 0..8 {
        for x in 0..8 {
            assert_eq!(b.get_pixel(x, y), (90, 120, 150, 255));
        }
    }
}

#[test]
fn pixelation_checkerboard_averages_to_127() {
    let mut b = PixelBuffer::new(4, 4).unwrap();
    for y in 0..4 {
        for x in 0..4 {
            let v = if (x + y) % 2 == 0 { 0u8 } else { 255u8 };
            b.set_pixel(x, y, (v, v, v, 255));
        }
    }
    // center (0.5, 0.5) -> pixel (2, 2); radius 0.5 -> 2 px: the
    // clamped square is the whole 4x4 image, one block of size 4
    let strokes = one_stroke(500, 500, 500);
    pixelate::apply_strokes(&mut b, &strokes, 4);
    for y in 0..4 {
        for x in 0..4 {
            // 255 * 8 / 16 truncates to 127
            assert_eq!(b.get_pixel(x, y), (127, 127, 127, 255));
        }
    }
}

#[test]
fn pixelation_small_block_size_is_forced_to_4() {
    let mut a = PixelBuffer::new(4, 4).unwrap();
    let mut b = PixelBuffer::new(4, 4).unwrap();
    for y in 0..4 {
        for x in 0..4 {
            let v = ((x * 50 + y * 90) % 256) as u8;
            a.set_pixel(x, y, (v, v, v, 255));
            b.set_pixel(x, y, (v, v, v, 255));
        }
    }
    let strokes = one_stroke(500, 500, 500);
    pixelate::apply_strokes(&mut a, &strokes, 1);
    let strokes2 = one_stroke(500, 500, 500);
    pixelate::apply_strokes(&mut b, &strokes2, 4);
    assert_eq!(a.raw(), b.raw());
}

#[test]
fn crop_clamps_to_image_bounds() {
    // x = 0.9, width = 0.5 on a 100 px wide image: the clamped
    // rectangle never leaves the image and is at most 10 px wide
    let r = pixedit::CropRect { x: 900, y: 0, width: 500, height: 1000 };
    let o = geom::crop_px(&r, 100, 10);
    assert_eq!(o.0, 90);
    assert_eq!(o.1, 0);
    assert_eq!(o.2, 10);
    assert_eq!(o.3, 10);
    assert!(o.0 + o.2 <= 100);
}

#[test]
fn crop_of_tiny_fraction_still_one_pixel() {
    let r = pixedit::CropRect { x: 0, y: 0, width: 1, height: 1 };
    let o = geom::crop_px(&r, 100, 100);
    assert_eq!(o.2, 1);
    assert_eq!(o.3, 1);
}

#[test]
fn crop_extracts_the_rectangle() {
    let b = patterned(10, 10);
    let out = geom::crop(&b, 2, 3, 4, 5);
    assert_eq!(out.width(), 4);
    assert_eq!(out.height(), 5);
    for y in 0..5 {
        for x in 0..4 {
            assert_eq!(out.get_pixel(x, y), b.get_pixel(x + 2, y + 3));
        }
    }
}
