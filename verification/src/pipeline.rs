//! The edit-request pipeline: applies the transform steps in their
//! fixed order — rotate, flips, grayscale, brightness/contrast,
//! pixelation strokes, chroma key, crop, resize — and encodes the
//! result. The order is a contract: the geometric pre-steps fix the
//! coordinate space that the normalized crop and stroke coordinates
//! are read in.

use vstd::prelude::*;
use crate::img::{ImgV, PixelBuffer};
use crate::geom::{quad_of, normalize_rotation, rotate, rotate_spec, flip_horizontal,
    flip_h_spec, flip_vertical, flip_v_spec, crop, crop_spec, crop_px, crop_px_spec, CropRect,
    max_int, min_int, lemma_mul_u32_fits_u64};
use crate::tone::{grayscale, gray_spec, brightness_contrast, tone_spec};
use crate::pixelate::{PixelateStroke, apply_strokes, apply_strokes_spec, strokes_views};
use crate::chroma::{chroma_key, chroma_spec, tol_of};
use crate::codec::{EditError, resize_exact, resize_spec, encode_png, encode_jpeg, png_of, jpeg_of,
    rgb_of, image_info, ImageInfo, decode_image, decode_rgba_of, data_url_spec};

verus! {

/// Chroma-key settings: key color and a tolerance in thousandths of
/// the full color range.
pub struct BgRemovalSettings {
    pub enabled: bool,
    pub color: (u8, u8, u8),
    pub tolerance: u32,
}

#[derive(Clone, Copy, PartialEq, Eq, Structural, Debug)]
pub enum OutputFormat {
    Png,
    Jpeg,
}

#[derive(Clone, Copy, PartialEq, Eq, Structural, Debug)]
pub enum ResizeMode {
    Exact,
    ScaleThenCrop,
}

/// An export request: every edit parameter plus the output encoding.
pub struct ExportPayload {
    pub source_path: String,
    pub output_path: String,
    pub output_format: OutputFormat,
    pub jpeg_quality: u8,
    pub target_width: u32,
    pub target_height: u32,
    pub crop: Option<CropRect>,
    pub rotation: i32,
    pub flip_h: bool,
    pub flip_v: bool,
    pub grayscale: bool,
    pub brightness: i32,
    pub contrast: i32,
    pub pixelate_strokes: Vec<PixelateStroke>,
    pub pixelate_block_size: u32,
    pub bg_removal: Option<BgRemovalSettings>,
    pub mode: ResizeMode,
}

/// A preview request: the edit parameters without chroma key or
/// format selection; the resize is plain target dimensions.
pub struct ApplyPayload {
    pub source_path: String,
    pub crop: Option<CropRect>,
    pub rotation: i32,
    pub flip_h: bool,
    pub flip_v: bool,
    pub grayscale: bool,
    pub brightness: i32,
    pub contrast: i32,
    pub pixelate_strokes: Vec<PixelateStroke>,
    pub pixelate_block_size: u32,
    pub resize_width: u32,
    pub resize_height: u32,
}

/// Steps 1 to 5: rotation, flips, grayscale, tone, pixelation
/// strokes, in that order, each conditional on a non-default value.
pub open spec fn steps_spec(
    src: ImgV,
    rotation: int,
    flip_h: bool,
    flip_v: bool,
    gray: bool,
    brightness: int,
    contrast: int,
    strokes: Seq<crate::pixelate::StrokeV>,
    block_size: int,
) -> ImgV {
    let v1 = rotate_spec(src, quad_of(rotation));
    let v2 = if flip_h {
        flip_h_spec(v1)
    } else {
        v1
    };
    let v3 = if flip_v {
        flip_v_spec(v2)
    } else {
        v2
    };
    let v4 = if gray {
        gray_spec(v3)
    } else {
        v3
    };
    let v5 = if brightness != 0 || contrast != 0 {
        tone_spec(v4, brightness, contrast)
    } else {
        v4
    };
    apply_strokes_spec(v5, strokes, max_int(block_size, 4))
}

/// The optional chroma-key step.
pub open spec fn bg_spec(v: ImgV, bg: Option<BgRemovalSettings>) -> ImgV {
    match bg {
        Some(s) => if s.enabled {
            chroma_spec(v, s.color.0, s.color.1, s.color.2, tol_of(s.tolerance as int))
        } else {
            v
        },
        None => v,
    }
}

/// The optional crop step, interpreted against the buffer's current
/// dimensions.
pub open spec fn crop_opt_spec(v: ImgV, c: Option<CropRect>) -> ImgV {
    match c {
        Some(r) => {
            let (cx, cy, cw, ch) = crop_px_spec(r, v.width, v.height);
            crop_spec(v, cx, cy, cw, ch)
        },
        None => v,
    }
}

/// The uniform cover-fit dimensions: scale by the larger of the two
/// per-axis ratios, round half up, saturate at the 32-bit limit.
pub open spec fn cover_dims_spec(iw: int, ih: int, tw: int, th: int) -> (int, int) {
    if tw * ih >= th * iw {
        (tw, min_int((2 * (ih * tw) + iw) / (2 * iw), 0xffffffff))
    } else {
        (min_int((2 * (iw * th) + ih) / (2 * ih), 0xffffffff), th)
    }
}

/// Scale-then-crop: cover-fit resample, then a centered crop to the
/// target dimensions.
pub open spec fn stc_spec(v: ImgV, tw: int, th: int) -> ImgV {
    let (sw, sh) = cover_dims_spec(v.width, v.height, tw, th);
    let rz = resize_spec(v, sw, sh);
    let ox = if sw >= tw {
        (sw - tw) / 2
    } else {
        0
    };
    let oy = if sh >= th {
        (sh - th) / 2
    } else {
        0
    };
    crop_spec(rz, ox, oy, min_int(tw, sw), min_int(th, sh))
}

/// The export pipeline: steps 1-5, chroma key, crop, then the
/// selected resize.
pub open spec fn export_pipeline_spec(src: ImgV, p: ExportPayload) -> ImgV {
    let v6 = bg_spec(
        steps_spec(
            src,
            p.rotation as int,
            p.flip_h,
            p.flip_v,
            p.grayscale,
            p.brightness as int,
            p.contrast as int,
            strokes_views(p.pixelate_strokes@),
            p.pixelate_block_size as int,
        ),
        p.bg_removal,
    );
    let v7 = crop_opt_spec(v6, p.crop);
    if p.target_width > 0 && p.target_height > 0 {
        match p.mode {
            ResizeMode::ScaleThenCrop => stc_spec(v7, p.target_width as int, p.target_height as int),
            ResizeMode::Exact => resize_spec(v7, p.target_width as int, p.target_height as int),
        }
    } else {
        v7
    }
}

/// The preview pipeline: steps 1-5, crop, then an exact resize only
/// when the target differs from the current dimensions.
pub open spec fn apply_pipeline_spec(src: ImgV, p: ApplyPayload) -> ImgV {
    let v6 = steps_spec(
        src,
        p.rotation as int,
        p.flip_h,
        p.flip_v,
        p.grayscale,
        p.brightness as int,
        p.contrast as int,
        strokes_views(p.pixelate_strokes@),
        p.pixelate_block_size as int,
    );
    let v7 = crop_opt_spec(v6, p.crop);
    if p.resize_width > 0 && p.resize_height > 0 && (p.resize_width != v7.width || p.resize_height
        != v7.height) {
        resize_spec(v7, p.resize_width as int, p.resize_height as int)
    } else {
        v7
    }
}

/// Whether an exact resample of `v` to `tw` by `th` fits in memory:
/// the output buffer, and the resampler's intermediate buffer of
/// source width by target height.
pub open spec fn resize_fits_spec(v: ImgV, tw: int, th: int) -> bool {
    &&& 4 * (tw * th) <= usize::MAX
    &&& 4 * (v.width * th) <= usize::MAX
}

/// Whether the cover-fit resample of scale-then-crop fits in memory.
pub open spec fn stc_fits_spec(v: ImgV, tw: int, th: int) -> bool {
    let (sw, sh) = cover_dims_spec(v.width, v.height, tw, th);
    &&& 4 * (sw * sh) <= usize::MAX
    &&& 4 * (v.width * sh) <= usize::MAX
}

/// Whether the export pipeline's resize target fits in memory.
pub open spec fn export_fits_spec(src: ImgV, p: ExportPayload) -> bool {
    let v7 = crop_opt_spec(
        bg_spec(
            steps_spec(
                src,
                p.rotation as int,
                p.flip_h,
                p.flip_v,
                p.grayscale,
                p.brightness as int,
                p.contrast as int,
                strokes_views(p.pixelate_strokes@),
                p.pixelate_block_size as int,
            ),
            p.bg_removal,
        ),
        p.crop,
    );
    if p.target_width > 0 && p.target_height > 0 {
        match p.mode {
            ResizeMode::ScaleThenCrop => stc_fits_spec(
                v7,
                p.target_width as int,
                p.target_height as int,
            ),
            ResizeMode::Exact => resize_fits_spec(
                v7,
                p.target_width as int,
                p.target_height as int,
            ),
        }
    } else {
        true
    }
}

/// Whether the preview pipeline's resize target fits in memory.
pub open spec fn apply_fits_spec(src: ImgV, p: ApplyPayload) -> bool {
    let v7 = crop_opt_spec(
        steps_spec(
            src,
            p.rotation as int,
            p.flip_h,
            p.flip_v,
            p.grayscale,
            p.brightness as int,
            p.contrast as int,
            strokes_views(p.pixelate_strokes@),
            p.pixelate_block_size as int,
        ),
        p.crop,
    );
    if p.resize_width > 0 && p.resize_height > 0 && (p.resize_width != v7.width || p.resize_height
        != v7.height) {
        resize_fits_spec(v7, p.resize_width as int, p.resize_height as int)
    } else {
        true
    }
}

/// Whether four bytes per pixel of a `w` by `h` raster fit in an
/// in-memory buffer.
fn fits_4wh(w: u32, h: u32) -> (r: bool)
    ensures
        r == (4 * (w as int * h as int) <= usize::MAX),
{
    proof {
        lemma_mul_u32_fits_u64(w as int, h as int);
    }
    4u128 * (w as u128 * h as u128) <= usize::MAX as u128
}

/// Steps 1 to 5 as executable code.
fn run_steps(src: PixelBuffer, rotation: i32, flip_h: bool, flip_v: bool, gray: bool,
    brightness: i32, contrast: i32, strokes: &Vec<PixelateStroke>, block_size: u32) -> (r:
    PixelBuffer)
    requires
        src.wf(),
        1 <= src@.width,
        1 <= src@.height,
    ensures
        r.wf(),
        r@ == steps_spec(
            src@,
            rotation as int,
            flip_h,
            flip_v,
            gray,
            brightness as int,
            contrast as int,
            strokes_views(strokes@),
            block_size as int,
        ),
        r@.width >= 1,
        r@.height >= 1,
        r@.width <= 0xffffffff,
        r@.height <= 0xffffffff,
{
    let q = normalize_rotation(rotation);
    let mut img = rotate(src, q);
    if flip_h {
        img = flip_horizontal(&img);
    }
    if flip_v {
        img = flip_vertical(&img);
    }
    if gray {
        img = grayscale(&img);
    }
    if brightness != 0 || contrast != 0 {
        img = brightness_contrast(&img, brightness, contrast);
    }
    // reading the dimensions as u32 values witnesses their machine
    // range for the postcondition
    let w_bound = img.width();
    let h_bound = img.height();
    apply_strokes(&mut img, strokes, block_size);
    proof {
        crate::pixelate::lemma_apply_strokes_dims(
            steps_spec(
                src@,
                rotation as int,
                flip_h,
                flip_v,
                gray,
                brightness as int,
                contrast as int,
                Seq::empty(),
                block_size as int,
            ),
            strokes_views(strokes@),
            max_int(block_size as int, 4),
        );
    }
    img
}

/// The crop step as executable code.
fn run_crop(img: PixelBuffer, c: &Option<CropRect>) -> (r: PixelBuffer)
    requires
        img.wf(),
        1 <= img@.width,
        1 <= img@.height,
    ensures
        r.wf(),
        r@ == crop_opt_spec(img@, *c),
        r@.width >= 1,
        r@.height >= 1,
        r@.width <= 0xffffffff,
        r@.height <= 0xffffffff,
{
    let w = img.width();
    let h = img.height();
    match c {
        Some(rect) => {
            let o = crop_px(rect, w, h);
            crop(&img, o.0, o.1, o.2, o.3)
        },
        None => img,
    }
}

/// Cover-fit never letterboxes: the scaled dimensions are at least
/// the target dimensions on both axes.
pub proof fn lemma_cover_fit(iw: int, ih: int, tw: int, th: int)
    requires
        1 <= iw <= 0xffffffff,
        1 <= ih <= 0xffffffff,
        1 <= tw <= 0xffffffff,
        1 <= th <= 0xffffffff,
    ensures
        cover_dims_spec(iw, ih, tw, th).0 >= tw,
        cover_dims_spec(iw, ih, tw, th).1 >= th,
        cover_dims_spec(iw, ih, tw, th).0 <= 0xffffffff,
        cover_dims_spec(iw, ih, tw, th).1 <= 0xffffffff,
        1 <= cover_dims_spec(iw, ih, tw, th).0,
        1 <= cover_dims_spec(iw, ih, tw, th).1,
{
    if tw * ih >= th * iw {
        assert((2 * (ih * tw) + iw) / (2 * iw) >= th) by (nonlinear_arith)
            requires
                1 <= iw,
                1 <= ih,
                1 <= th,
                tw * ih >= th * iw,
        ;
    } else {
        assert((2 * (iw * th) + ih) / (2 * ih) >= tw) by (nonlinear_arith)
            requires
                1 <= iw,
                1 <= ih,
                1 <= tw,
                th * iw >= tw * ih,
        ;
    }
}

/// Scale-then-crop lands exactly on the target dimensions.
pub proof fn lemma_stc_dims(v: ImgV, tw: int, th: int)
    requires
        1 <= v.width <= 0xffffffff,
        1 <= v.height <= 0xffffffff,
        1 <= tw <= 0xffffffff,
        1 <= th <= 0xffffffff,
    ensures
        stc_spec(v, tw, th).width == tw,
        stc_spec(v, tw, th).height == th,
{
    lemma_cover_fit(v.width, v.height, tw, th);
}

/// The cover-fit dimensions as executable code.
fn cover_dims(iw: u32, ih: u32, tw: u32, th: u32) -> (o: (u32, u32))
    requires
        1 <= iw,
        1 <= ih,
        1 <= tw,
        1 <= th,
    ensures
        (o.0 as int, o.1 as int) == cover_dims_spec(iw as int, ih as int, tw as int, th as int),
        o.0 >= tw,
        o.1 >= th,
{
    proof {
        lemma_mul_u32_fits_u64(tw as int, ih as int);
        lemma_mul_u32_fits_u64(th as int, iw as int);
        lemma_mul_u32_fits_u64(ih as int, tw as int);
        lemma_mul_u32_fits_u64(iw as int, th as int);
        lemma_cover_fit(iw as int, ih as int, tw as int, th as int);
    }
    let a: u64 = tw as u64 * ih as u64;
    let b: u64 = th as u64 * iw as u64;
    if a >= b {
        let sh128: u128 = (2 * (ih as u128 * tw as u128) + iw as u128) / (2 * iw as u128);
        let sh: u32 = if sh128 <= 0xffffffffu128 {
            sh128 as u32
        } else {
            0xffffffffu32
        };
        (tw, sh)
    } else {
        let sw128: u128 = (2 * (iw as u128 * th as u128) + ih as u128) / (2 * ih as u128);
        let sw: u32 = if sw128 <= 0xffffffffu128 {
            sw128 as u32
        } else {
            0xffffffffu32
        };
        (sw, th)
    }
}

/// Scale-then-crop as executable code: cover-fit resample, then a
/// centered crop to exactly the target.
pub fn scale_then_crop(img: PixelBuffer, tw: u32, th: u32) -> (r: Result<PixelBuffer, EditError>)
    requires
        img.wf(),
        1 <= img@.width,
        1 <= img@.height,
        1 <= tw,
        1 <= th,
    ensures
        r matches Ok(out) ==> {
            &&& out.wf()
            &&& out@ == stc_spec(img@, tw as int, th as int)
            &&& out@.width == tw
            &&& out@.height == th
            &&& stc_fits_spec(img@, tw as int, th as int)
        },
        r is Err ==> r->Err_0 is TooLarge && !stc_fits_spec(img@, tw as int, th as int),
{
    let w = img.width();
    let (sw, sh) = cover_dims(w, img.height(), tw, th);
    if !fits_4wh(sw, sh) || !fits_4wh(w, sh) {
        return Err(EditError::TooLarge);
    }
    let rz = resize_exact(&img, sw, sh);
    let ox: u32 = (sw - tw) / 2;
    let oy: u32 = (sh - th) / 2;
    proof {
        lemma_stc_dims(img@, tw as int, th as int);
    }
    Ok(crop(&rz, ox, oy, tw, th))
}

/// Runs the export pipeline on a decoded buffer. Fails only when the
/// resize target would not fit in memory.
pub fn run_export_pipeline(src: PixelBuffer, p: &ExportPayload) -> (r: Result<
    PixelBuffer,
    EditError,
>)
    requires
        src.wf(),
        1 <= src@.width,
        1 <= src@.height,
    ensures
        r matches Ok(out) ==> {
            &&& out.wf()
            &&& out@ == export_pipeline_spec(src@, *p)
            &&& export_fits_spec(src@, *p)
            &&& 1 <= out@.width
            &&& 1 <= out@.height
        },
        r is Err ==> r->Err_0 is TooLarge && !export_fits_spec(src@, *p),
{
    let v6 = run_steps(
        src,
        p.rotation,
        p.flip_h,
        p.flip_v,
        p.grayscale,
        p.brightness,
        p.contrast,
        &p.pixelate_strokes,
        p.pixelate_block_size,
    );
    let v6b = match &p.bg_removal {
        Some(bg) => if bg.enabled {
            chroma_key(&v6, bg.color, bg.tolerance)
        } else {
            v6
        },
        None => v6,
    };
    let v7 = run_crop(v6b, &p.crop);
    if p.target_width > 0 && p.target_height > 0 {
        match p.mode {
            ResizeMode::ScaleThenCrop => scale_then_crop(v7, p.target_width, p.target_height),
            ResizeMode::Exact => {
                let cw = v7.width();
                if !fits_4wh(p.target_width, p.target_height) || !fits_4wh(cw, p.target_height) {
                    Err(EditError::TooLarge)
                } else {
                    Ok(resize_exact(&v7, p.target_width, p.target_height))
                }
            },
        }
    } else {
        Ok(v7)
    }
}

/// Runs the preview pipeline on a decoded buffer. Fails only when
/// the resize target would not fit in memory.
pub fn run_apply_pipeline(src: PixelBuffer, p: &ApplyPayload) -> (r: Result<
    PixelBuffer,
    EditError,
>)
    requires
        src.wf(),
        1 <= src@.width,
        1 <= src@.height,
    ensures
        r matches Ok(out) ==> {
            &&& out.wf()
            &&& out@ == apply_pipeline_spec(src@, *p)
            &&& apply_fits_spec(src@, *p)
            &&& 1 <= out@.width
            &&& 1 <= out@.height
        },
        r is Err ==> r->Err_0 is TooLarge && !apply_fits_spec(src@, *p),
{
    let v6 = run_steps(
        src,
        p.rotation,
        p.flip_h,
        p.flip_v,
        p.grayscale,
        p.brightness,
        p.contrast,
        &p.pixelate_strokes,
        p.pixelate_block_size,
    );
    let v7 = run_crop(v6, &p.crop);
    let cw = v7.width();
    let ch = v7.height();
    if p.resize_width > 0 && p.resize_height > 0 && (p.resize_width != cw || p.resize_height != ch)
    {
        if !fits_4wh(p.resize_width, p.resize_height) || !fits_4wh(cw, p.resize_height) {
            Err(EditError::TooLarge)
        } else {
            Ok(resize_exact(&v7, p.resize_width, p.resize_height))
        }
    } else {
        Ok(v7)
    }
}

/// The encoded output of an export: PNG, or JPEG of the RGB samples
/// at the requested quality.
pub open spec fn export_bytes_spec(src: ImgV, p: ExportPayload) -> Seq<u8> {
    let out = export_pipeline_spec(src, p);
    match p.output_format {
        OutputFormat::Png => png_of(out.width, out.height, out.data),
        OutputFormat::Jpeg => jpeg_of(out.width, out.height, rgb_of(out), p.jpeg_quality),
    }
}

/// Runs the full export: pipeline plus encoding. The caller writes
/// the returned bytes to the request's output path.
pub fn export_image_core(src: PixelBuffer, p: &ExportPayload) -> (r: Result<Vec<u8>, EditError>)
    requires
        src.wf(),
        1 <= src@.width,
        1 <= src@.height,
    ensures
        r matches Ok(bytes) ==> {
            &&& export_fits_spec(src@, *p)
            &&& bytes@ == export_bytes_spec(src@, *p)
        },
        r is Err ==> (r->Err_0 is TooLarge || r->Err_0 is Encode),
        r matches Err(e) && e is TooLarge ==> !export_fits_spec(src@, *p),
        p.output_format is Png && export_fits_spec(src@, *p) ==> r is Ok,
        p.output_format is Jpeg && export_fits_spec(src@, *p) && export_pipeline_spec(
            src@,
            *p,
        ).width <= 65535 && export_pipeline_spec(src@, *p).height <= 65535 ==> r is Ok,
{
    let out = match run_export_pipeline(src, p) {
        Ok(o) => o,
        Err(e) => {
            return Err(e);
        },
    };
    match p.output_format {
        OutputFormat::Png => encode_png(&out),
        OutputFormat::Jpeg => encode_jpeg(&out, p.jpeg_quality),
    }
}

/// Runs the full preview: pipeline, lossless PNG encoding for the
/// applied slot, and the inline data URL. The caller persists the
/// bytes at the well-known applied path and hands the record to the
/// display.
pub fn apply_edits_core(src: PixelBuffer, p: &ApplyPayload) -> (r: Result<
    (ImageInfo, Vec<u8>),
    EditError,
>)
    requires
        src.wf(),
        1 <= src@.width,
        1 <= src@.height,
    ensures
        r matches Ok(t) ==> {
            let out = apply_pipeline_spec(src@, *p);
            &&& apply_fits_spec(src@, *p)
            &&& t.1@ == png_of(out.width, out.height, out.data)
            &&& t.0.width == out.width
            &&& t.0.height == out.height
            &&& t.0.data_url@ == crate::codec::data_url_spec(out)
        },
        r is Err ==> (r->Err_0 is TooLarge || r->Err_0 is Encode),
        r matches Err(e) && e is TooLarge ==> !apply_fits_spec(src@, *p),
        apply_fits_spec(src@, *p) ==> r is Ok,
{
    let out = match run_apply_pipeline(src, p) {
        Ok(o) => o,
        Err(e) => {
            return Err(e);
        },
    };
    let png = match encode_png(&out) {
        Ok(bytes) => bytes,
        Err(e) => {
            return Err(e);
        },
    };
    let info = match image_info(&out) {
        Ok(i) => i,
        Err(e) => {
            return Err(e);
        },
    };
    Ok((info, png))
}

/// Decodes an image and builds its preview record: dimensions plus
/// an inline PNG data URL. The caller reads the source file's bytes.
pub fn open_image_core(bytes: &Vec<u8>) -> (r: Result<ImageInfo, EditError>)
    ensures
        r matches Ok(info) ==> {
            &&& decode_rgba_of(bytes@) matches Some(d) && info.width == d.0 && info.height == d.1
                && info.data_url@ == data_url_spec(
                ImgV { width: d.0 as int, height: d.1 as int, data: d.2 },
            )
        },
        r matches Err(e) ==> (e is Decode <==> decode_rgba_of(bytes@) is None),
        decode_rgba_of(bytes@) is Some ==> r is Ok,
{
    match decode_image(bytes) {
        Ok(b) => image_info(&b),
        Err(e) => Err(e),
    }
}

/// The pipeline has no hidden state: the same request against the
/// same source buffer yields the identical output, however often it
/// is run.
pub proof fn lemma_pipeline_deterministic(
    src1: ImgV,
    src2: ImgV,
    p1: ExportPayload,
    p2: ExportPayload,
)
    requires
        src1 == src2,
        p1 == p2,
    ensures
        export_pipeline_spec(src1, p1) == export_pipeline_spec(src2, p2),
        export_bytes_spec(src1, p1) == export_bytes_spec(src2, p2),
{
}

} // verus!
