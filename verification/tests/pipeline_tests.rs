//! Tests of the full pipeline, the codecs, and the exported entry
//! points.

use pixedit::{ApplyPayload, CropRect, EditError, ExportPayload, OutputFormat, PixelBuffer,
    ResizeMode};
use pixedit::codec;
use pixedit::pipeline;

fn patterned(w: u32, h: u32) -> PixelBuffer {
    let mut b = PixelBuffer::new(w, h).unwrap();
    for y in 0..h {
        for x in 0..w {
            let v = ((x * 11 + y * 17) % 256) as u8;
            b.set_pixel(x, y, (v, v.wrapping_add(60), v.wrapping_add(120), 255));
        }
    }
    b
}

fn plain_export() -> ExportPayload {
    ExportPayload {
        source_path: String::new(),
        output_path: String::new(),
        output_format: OutputFormat::Png,
        jpeg_quality: 90,
        target_width: 0,
        target_height: 0,
        crop: None,
        rotation: 0,
        flip_h: false,
        flip_v: false,
        grayscale: false,
        brightness: 0,
        contrast: 0,
        pixelate_strokes: Vec::new(),
        pixelate_block_size: 8,
        bg_removal: None,
        mode: ResizeMode::Exact,
    }
}

fn plain_apply() -> ApplyPayload {
    ApplyPayload {
        source_path: String::new(),
        crop: None,
        rotation: 0,
        flip_h: false,
        flip_v: false,
        grayscale: false,
        brightness: 0,
        contrast: 0,
        pixelate_strokes: Vec::new(),
        pixelate_block_size: 8,
        resize_width: 0,
        resize_height: 0,
    }
}

#[test]
fn png_round_trip_is_byte_exact() {
    let b = patterned(9, 7);
    let png = codec::encode_png(&b).unwrap();
    let back = codec::decode_image(&png).unwrap();
    assert_eq!(back.width(), 9);
    assert_eq!(back.height(), 7);
    assert_eq!(back.raw(), b.raw());
}

#[test]
fn jpeg_round_trip_keeps_dimensions() {
    let b = patterned(16, 12);
    let jpg = codec::encode_jpeg(&b, 85).unwrap();
    let back = codec::decode_image(&jpg).unwrap();
    assert_eq!(back.width(), 16);
    assert_eq!(back.height(), 12);
}

#[test]
fn decode_rejects_garbage() {
    let junk: Vec<u8> = vec![1, 2, 3, 4, 5, 6, 7, 8];
    match codec::decode_image(&junk) {
        Err(EditError::Decode(_)) => {}
        _ => panic!("expected a decode error"),
    }
}

#[test]
fn resize_to_same_dimensions_is_a_copy() {
    let b = patterned(10, 6);
    let out = codec::resize_exact(&b, 10, 6);
    assert_eq!(out.raw(), b.raw());
}

#[test]
fn scale_then_crop_centers_on_wide_source() {
    // source 100x50, target 50x50: scale = max(0.5, 1.0) = 1.0, so
    // the scaled buffer stays 100x50 and the crop starts at (25, 0)
    let b = patterned(100, 50);
    let out = pipeline::scale_then_crop(b, 50, 50).unwrap();
    assert_eq!(out.width(), 50);
    assert_eq!(out.height(), 50);
    let src = patterned(100, 50);
    for y in 0..50 {
        for x in 0..50 {
            assert_eq!(out.get_pixel(x, y), src.get_pixel(x + 25, y));
        }
    }
}

#[test]
fn export_pipeline_applies_steps_in_order() {
    let b = patterned(6, 4);
    let mut p = plain_export();
    p.rotation = 90;
    let out = pipeline::run_export_pipeline(b, &p).unwrap();
    assert_eq!(out.width(), 4);
    assert_eq!(out.height(), 6);
    let src = patterned(6, 4);
    // clockwise quarter turn: out(x, y) = in(y, h - 1 - x)
    for y in 0..6 {
        for x in 0..4 {
            assert_eq!(out.get_pixel(x, y), src.get_pixel(y, 3 - x));
        }
    }
}

#[test]
fn export_rotation_alias_matches() {
    let a = pipeline::run_export_pipeline(patterned(6, 4), &ExportPayload {
        rotation: -90,
        ..plain_export()
    })
    .unwrap();
    let b = pipeline::run_export_pipeline(patterned(6, 4), &ExportPayload {
        rotation: 270,
        ..plain_export()
    })
    .unwrap();
    assert_eq!(a.raw(), b.raw());
}

#[test]
fn export_crop_uses_post_rotation_dimensions() {
    let b = patterned(8, 4);
    let mut p = plain_export();
    p.rotation = 90;
    p.crop = Some(CropRect { x: 0, y: 0, width: 500, height: 500 });
    let out = pipeline::run_export_pipeline(b, &p).unwrap();
    // after rotation the buffer is 4x8; half of each axis
    assert_eq!(out.width(), 2);
    assert_eq!(out.height(), 4);
}

#[test]
fn pipeline_is_deterministic_across_runs() {
    let mut p = plain_export();
    p.rotation = 180;
    p.flip_h = true;
    p.grayscale = true;
    p.brightness = 100;
    p.contrast = -200;
    p.pixelate_strokes = vec![pixedit::PixelateStroke { points: vec![(300, 300)], radius: 200 }];
    p.bg_removal = Some(pixedit::BgRemovalSettings {
        enabled: true,
        color: (20, 40, 60),
        tolerance: 300,
    });
    p.crop = Some(CropRect { x: 100, y: 100, width: 800, height: 800 });
    p.target_width = 10;
    p.target_height = 10;
    let out1 = pipeline::export_image_core(patterned(20, 15), &p).unwrap();
    let out2 = pipeline::export_image_core(patterned(20, 15), &p).unwrap();
    assert_eq!(out1, out2);
}

#[test]
fn export_png_bytes_decode_back() {
    let mut p = plain_export();
    p.flip_v = true;
    let bytes = pipeline::export_image_core(patterned(5, 5), &p).unwrap();
    let back = codec::decode_image(&bytes).unwrap();
    assert_eq!(back.width(), 5);
    assert_eq!(back.height(), 5);
    let expected = pixedit::geom::flip_vertical(&patterned(5, 5));
    assert_eq!(back.raw(), expected.raw());
}

#[test]
fn export_jpeg_selects_jpeg_encoding() {
    let mut p = plain_export();
    p.output_format = OutputFormat::Jpeg;
    p.jpeg_quality = 80;
    let bytes = pipeline::export_image_core(patterned(8, 8), &p).unwrap();
    // JPEG SOI marker
    assert_eq!(bytes[0], 0xff);
    assert_eq!(bytes[1], 0xd8);
}

#[test]
fn apply_pipeline_resizes_only_when_different() {
    let b = patterned(12, 10);
    let mut p = plain_apply();
    p.resize_width = 12;
    p.resize_height = 10;
    let out = pipeline::run_apply_pipeline(b, &p).unwrap();
    assert_eq!(out.raw(), patterned(12, 10).raw());
    let mut p2 = plain_apply();
    p2.resize_width = 6;
    p2.resize_height = 5;
    let out2 = pipeline::run_apply_pipeline(patterned(12, 10), &p2).unwrap();
    assert_eq!(out2.width(), 6);
    assert_eq!(out2.height(), 5);
}

#[test]
fn apply_edits_core_returns_png_and_data_url() {
    let b = patterned(4, 4);
    let p = plain_apply();
    let (info, png) = pipeline::apply_edits_core(b, &p).unwrap();
    assert_eq!(info.width, 4);
    assert_eq!(info.height, 4);
    assert!(info.data_url.starts_with("data:image/png;base64,"));
    let back = codec::decode_image(&png).unwrap();
    assert_eq!(back.raw(), patterned(4, 4).raw());
}

#[test]
fn open_image_core_reports_dimensions() {
    let png = codec::encode_png(&patterned(7, 3)).unwrap();
    let info = pipeline::open_image_core(&png).unwrap();
    assert_eq!(info.width, 7);
    assert_eq!(info.height, 3);
    assert!(info.data_url.starts_with("data:image/png;base64,"));
}

#[test]
fn data_url_is_the_base64_of_the_png_bytes() {
    let b = patterned(3, 2);
    let png = codec::encode_png(&b).unwrap();
    let info = pipeline::open_image_core(&png).unwrap();
    let expected = format!(
        "data:image/png;base64,{}",
        base64::Engine::encode(&base64::engine::general_purpose::STANDARD, &png),
    );
    assert_eq!(info.data_url, expected);
}

#[test]
fn export_jpeg_bytes_decode_to_pipeline_dimensions() {
    let mut p = plain_export();
    p.output_format = OutputFormat::Jpeg;
    p.rotation = 90;
    let bytes = pipeline::export_image_core(patterned(10, 6), &p).unwrap();
    let back = codec::decode_image(&bytes).unwrap();
    // the pipeline result of a quarter turn of 10x6 is 6x10; JPEG is
    // lossy, so only the dimensions are asserted
    assert_eq!(back.width(), 6);
    assert_eq!(back.height(), 10);
}

#[test]
fn open_image_core_rejects_garbage() {
    let junk: Vec<u8> = vec![0; 16];
    match pipeline::open_image_core(&junk) {
        Err(EditError::Decode(_)) => {}
        _ => panic!("expected a decode error"),
    }
}

#[test]
fn oversized_resize_target_is_rejected() {
    let b = patterned(4, 4);
    let mut p = plain_export();
    p.target_width = u32::MAX;
    p.target_height = u32::MAX;
    match pipeline::run_export_pipeline(b, &p) {
        Err(EditError::TooLarge) => {}
        _ => panic!("expected the oversized target to be rejected"),
    }
}

#[test]
fn encoding_an_empty_raster_fails() {
    let b = PixelBuffer::new(0, 0).unwrap();
    match codec::encode_png(&b) {
        Err(EditError::Encode(_)) => {}
        _ => panic!("expected an encode error for a zero-sized raster"),
    }
}

#[test]
fn stroke_points_apply_in_input_order() {
    let mut a = patterned(16, 16);
    let mut b = patterned(16, 16);
    let p1 = (250u32, 250u32);
    let p2 = (400u32, 400u32);
    // one stroke with both points
    let both = vec![pixedit::PixelateStroke { points: vec![p1, p2], radius: 300 }];
    pixedit::pixelate::apply_strokes(&mut a, &both, 4);
    // the same points, applied one after the other: the second pass
    // sees the buffer as the first left it
    let first = vec![pixedit::PixelateStroke { points: vec![p1], radius: 300 }];
    let second = vec![pixedit::PixelateStroke { points: vec![p2], radius: 300 }];
    pixedit::pixelate::apply_strokes(&mut b, &first, 4);
    pixedit::pixelate::apply_strokes(&mut b, &second, 4);
    assert_eq!(a.raw(), b.raw());
}

#[test]
fn chroma_key_via_pipeline_makes_background_transparent() {
    let mut b = PixelBuffer::new(2, 1).unwrap();
    b.set_pixel(0, 0, (0, 255, 0, 255));
    b.set_pixel(1, 0, (200, 10, 10, 255));
    let mut p = plain_export();
    p.bg_removal = Some(pixedit::BgRemovalSettings {
        enabled: false,
        color: (0, 255, 0),
        tolerance: 0,
    });
    // disabled settings change nothing
    let out = pipeline::run_export_pipeline(b, &p).unwrap();
    assert_eq!(out.get_pixel(0, 0).3, 255);
    let mut b2 = PixelBuffer::new(2, 1).unwrap();
    b2.set_pixel(0, 0, (0, 255, 0, 255));
    b2.set_pixel(1, 0, (200, 10, 10, 255));
    p.bg_removal = Some(pixedit::BgRemovalSettings {
        enabled: true,
        color: (0, 255, 0),
        tolerance: 0,
    });
    let out2 = pipeline::run_export_pipeline(b2, &p).unwrap();
    assert_eq!(out2.get_pixel(0, 0).3, 0);
    assert_eq!(out2.get_pixel(1, 0).3, 255);
}
