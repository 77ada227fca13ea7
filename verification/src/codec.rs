//! The boundary with the raster codecs: Lanczos resampling, PNG and
//! JPEG encoding, decoding, and base64 framing for preview transport.
//! Each outside call sits behind one trusted wrapper; everything
//! around the calls is verified.

use vstd::prelude::*;
use vstd::string::StringExecFns;
use crate::img::{ImgV, PixelBuffer, from_raw_exact};

verus! {

/// What Lanczos3 resampling of a raw RGBA buffer to `tw` by `th`
/// returns: a pure function of its arguments.
pub uninterp spec fn lanczos_of(w: int, h: int, data: Seq<u8>, tw: int, th: int) -> Seq<u8>;

/// What PNG encoding of a raw RGBA buffer returns.
pub uninterp spec fn png_of(w: int, h: int, data: Seq<u8>) -> Seq<u8>;

/// What JPEG encoding of a raw RGB buffer at a quality returns.
pub uninterp spec fn jpeg_of(w: int, h: int, rgb: Seq<u8>, quality: u8) -> Seq<u8>;

/// The standard base64 alphabet character for a 6-bit value.
pub open spec fn b64_char(v: int) -> char {
    "ABCDEFGHIJKLMNOPQRSTUVWXYZabcdefghijklmnopqrstuvwxyz0123456789+/"@[v]
}

/// The four characters of one full three-byte base64 group: the 24
/// input bits, read in order, six at a time.
pub open spec fn b64_group(b0: int, b1: int, b2: int) -> Seq<char> {
    seq![
        b64_char(b0 / 4),
        b64_char((b0 % 4) * 16 + b1 / 16),
        b64_char((b1 % 16) * 4 + b2 / 64),
        b64_char(b2 % 64),
    ]
}

/// Standard padded base64 of a byte string: full groups of three
/// bytes, then a padded group for one or two leftover bytes.
pub open spec fn b64_spec(bytes: Seq<u8>) -> Seq<char>
    decreases bytes.len(),
{
    if bytes.len() == 0 {
        Seq::empty()
    } else if bytes.len() == 1 {
        seq![
            b64_char(bytes[0] as int / 4),
            b64_char((bytes[0] as int % 4) * 16),
            '=',
            '=',
        ]
    } else if bytes.len() == 2 {
        seq![
            b64_char(bytes[0] as int / 4),
            b64_char((bytes[0] as int % 4) * 16 + bytes[1] as int / 16),
            b64_char((bytes[1] as int % 16) * 4),
            '=',
        ]
    } else {
        b64_group(bytes[0] as int, bytes[1] as int, bytes[2] as int) + b64_spec(bytes.skip(3))
    }
}

/// What decoding a byte stream to RGBA samples returns: dimensions
/// and raw buffer on success, nothing when the stream is not a
/// supported image.
pub uninterp spec fn decode_rgba_of(bytes: Seq<u8>) -> Option<(u32, u32, Seq<u8>)>;

/// Relies on image::imageops::resize with FilterType::Lanczos3: the
/// output buffer has exactly the requested dimensions, the result is
/// a function of the arguments alone, and resampling to the input
/// dimensions is a plain copy. The resampler allocates an
/// intermediate buffer of source width by target height, whose
/// sample count must also fit in memory.
#[verifier::external_body]
fn lanczos_resize_raw(w: u32, h: u32, data: &Vec<u8>, tw: u32, th: u32) -> (r: Vec<u8>)
    requires
        data@.len() == 4 * (w as int * h as int),
        1 <= tw,
        1 <= th,
        4 * (tw as int * th as int) <= usize::MAX,
        4 * (w as int * th as int) <= usize::MAX,
    ensures
        r@ == lanczos_of(w as int, h as int, data@, tw as int, th as int),
        r@.len() == 4 * (tw as int * th as int),
        tw == w && th == h ==> r@ == data@,
{
    let img = image::RgbaImage::from_raw(w, h, data.clone()).unwrap();
    let out = image::imageops::resize(&img, tw, th, image::imageops::FilterType::Lanczos3);
    out.into_raw()
}

/// Relies on image::codecs::png::PngEncoder::write_image: a
/// deterministic lossless PNG encoding of the raw RGBA samples. To
/// an in-memory writer it fails only on a zero dimension.
#[verifier::external_body]
fn png_encode_raw(w: u32, h: u32, data: &Vec<u8>) -> (r: Result<Vec<u8>, String>)
    requires
        data@.len() == 4 * (w as int * h as int),
    ensures
        r matches Ok(b) ==> b@ == png_of(w as int, h as int, data@),
        1 <= w && 1 <= h ==> r is Ok,
{
    let mut out: Vec<u8> = Vec::new();
    let enc = image::codecs::png::PngEncoder::new(std::io::Cursor::new(&mut out));
    match image::ImageEncoder::write_image(enc, data, w, h, image::ExtendedColorType::Rgba8) {
        Ok(()) => Ok(out),
        Err(e) => Err(e.to_string()),
    }
}

/// Relies on image::codecs::jpeg::JpegEncoder::new_with_quality and
/// encode: a deterministic JPEG encoding of the raw RGB samples. To
/// an in-memory writer it fails only on dimensions outside the
/// format's 1 to 65535 range.
#[verifier::external_body]
fn jpeg_encode_raw(w: u32, h: u32, rgb: &Vec<u8>, quality: u8) -> (r: Result<Vec<u8>, String>)
    requires
        rgb@.len() == 3 * (w as int * h as int),
    ensures
        r matches Ok(b) ==> b@ == jpeg_of(w as int, h as int, rgb@, quality),
        1 <= w <= 65535 && 1 <= h <= 65535 ==> r is Ok,
{
    let mut out: Vec<u8> = Vec::new();
    let mut enc = image::codecs::jpeg::JpegEncoder::new_with_quality(
        std::io::Cursor::new(&mut out),
        quality,
    );
    match enc.encode(rgb, w, h, image::ExtendedColorType::Rgb8) {
        Ok(()) => Ok(out),
        Err(e) => Err(e.to_string()),
    }
}

/// Relies on image::load_from_memory and DynamicImage::to_rgba8: a
/// deterministic decode; the RGBA buffer holds four bytes for each
/// of width times height pixels, and both enabled decoders reject
/// zero dimensions.
#[verifier::external_body]
fn decode_rgba_raw(bytes: &Vec<u8>) -> (r: Result<(u32, u32, Vec<u8>), String>)
    ensures
        r matches Ok(t) ==> decode_rgba_of(bytes@) == Some((t.0, t.1, t.2@)),
        r matches Ok(t) ==> t.2@.len() == 4 * (t.0 as int * t.1 as int),
        r matches Ok(t) ==> 1 <= t.0 && 1 <= t.1,
        r is Err ==> decode_rgba_of(bytes@) is None,
{
    match image::load_from_memory(bytes) {
        Ok(img) => {
            let rgba = img.to_rgba8();
            let (w, h) = (rgba.width(), rgba.height());
            Ok((w, h, rgba.into_raw()))
        },
        Err(e) => Err(e.to_string()),
    }
}

/// Relies on base64::engine::general_purpose::STANDARD.encode:
/// standard alphabet with padding, four output characters for every
/// started group of three input bytes.
#[verifier::external_body]
fn base64_encode(bytes: &Vec<u8>) -> (r: String)
    ensures
        r@ == b64_spec(bytes@),
{
    base64::Engine::encode(&base64::engine::general_purpose::STANDARD, bytes)
}

/// How an edit request can fail: only the boundary decode and encode
/// steps and an output too large for memory; the pixel pipeline
/// itself is total.
#[derive(Debug, Clone, PartialEq, Eq)]
pub enum EditError {
    Decode(String),
    Encode(String),
    TooLarge,
}

/// Resampling to exactly `tw` by `th`.
pub open spec fn resize_spec(v: ImgV, tw: int, th: int) -> ImgV {
    ImgV { width: tw, height: th, data: lanczos_of(v.width, v.height, v.data, tw, th) }
}

/// Resamples to exactly the given dimensions (Lanczos-class filter,
/// aspect ratio not preserved).
pub fn resize_exact(b: &PixelBuffer, tw: u32, th: u32) -> (r: PixelBuffer)
    requires
        b.wf(),
        1 <= tw,
        1 <= th,
        4 * (tw as int * th as int) <= usize::MAX,
        4 * (b@.width * th as int) <= usize::MAX,
    ensures
        r.wf(),
        r@ == resize_spec(b@, tw as int, th as int),
        tw == b@.width && th == b@.height ==> r@ == b@,
{
    let data = lanczos_resize_raw(b.width(), b.height(), b.raw(), tw, th);
    from_raw_exact(tw, th, data)
}

/// The RGB samples of an image, alpha dropped.
pub open spec fn rgb_of(v: ImgV) -> Seq<u8> {
    Seq::new((3 * (v.width * v.height)) as nat, |i: int| v.chan((i / 3) % v.width, (i / 3) / v.width, i % 3))
}

/// How the flat index of an RGB sample decomposes.
proof fn lemma_rgb_index(w: int, h: int, x: int, y: int, c: int)
    by (nonlinear_arith)
    requires
        0 <= x < w,
        0 <= y < h,
        0 <= c < 3,
    ensures
        0 <= 3 * (y * w + x) + c < 3 * (w * h),
        (3 * (y * w + x) + c) / 3 == y * w + x,
        (3 * (y * w + x) + c) % 3 == c,
        (y * w + x) / w == y,
        (y * w + x) % w == x,
{
}

/// Drops the alpha channel, producing the raw RGB buffer.
pub fn rgba_to_rgb(b: &PixelBuffer) -> (r: Vec<u8>)
    requires
        b.wf(),
    ensures
        r@ == rgb_of(b@),
        r@.len() == 3 * (b@.width * b@.height),
{
    let w = b.width();
    let h = b.height();
    let ghost target = rgb_of(b@);
    let mut data: Vec<u8> = Vec::new();
    let mut y: u32 = 0;
    while y < h
        invariant
            b.wf(),
            w == b@.width,
            h == b@.height,
            target == rgb_of(b@),
            target.len() == 3 * (w as int * h as int),
            y <= h,
            data@.len() == 3 * (y as int * w as int),
            forall|i: int| 0 <= i < data@.len() ==> data@[i] == target[i],
        decreases h - y,
    {
        let mut x: u32 = 0;
        while x < w
            invariant
                b.wf(),
                w == b@.width,
                h == b@.height,
                target == rgb_of(b@),
                target.len() == 3 * (w as int * h as int),
                y < h,
                x <= w,
                data@.len() == 3 * (y as int * w as int + x as int),
                forall|i: int| 0 <= i < data@.len() ==> data@[i] == target[i],
            decreases w - x,
        {
            let p = b.get_pixel(x, y);
            proof {
                lemma_rgb_index(w as int, h as int, x as int, y as int, 0);
                lemma_rgb_index(w as int, h as int, x as int, y as int, 1);
                lemma_rgb_index(w as int, h as int, x as int, y as int, 2);
            }
            data.push(p.0);
            data.push(p.1);
            data.push(p.2);
            x = x + 1;
        }
        proof {
            assert((y + 1) as int * w as int == y as int * w as int + w as int)
                by (nonlinear_arith);
        }
        y = y + 1;
    }
    proof {
        assert(h as int * w as int == w as int * h as int) by (nonlinear_arith);
        assert(data@ =~= target);
    }
    data
}

/// Encodes the buffer as PNG (lossless).
pub fn encode_png(b: &PixelBuffer) -> (r: Result<Vec<u8>, EditError>)
    requires
        b.wf(),
    ensures
        r matches Ok(bytes) ==> bytes@ == png_of(b@.width, b@.height, b@.data),
        r is Err ==> r->Err_0 is Encode,
        1 <= b@.width && 1 <= b@.height ==> r is Ok,
{
    match png_encode_raw(b.width(), b.height(), b.raw()) {
        Ok(bytes) => Ok(bytes),
        Err(e) => Err(EditError::Encode(e)),
    }
}

/// Encodes the buffer as JPEG at the given quality, dropping alpha.
pub fn encode_jpeg(b: &PixelBuffer, quality: u8) -> (r: Result<Vec<u8>, EditError>)
    requires
        b.wf(),
    ensures
        r matches Ok(bytes) ==> bytes@ == jpeg_of(b@.width, b@.height, rgb_of(b@), quality),
        r is Err ==> r->Err_0 is Encode,
        1 <= b@.width <= 65535 && 1 <= b@.height <= 65535 ==> r is Ok,
{
    let rgb = rgba_to_rgb(b);
    match jpeg_encode_raw(b.width(), b.height(), &rgb, quality) {
        Ok(bytes) => Ok(bytes),
        Err(e) => Err(EditError::Encode(e)),
    }
}

/// Decodes a byte stream into a pixel buffer.
pub fn decode_image(bytes: &Vec<u8>) -> (r: Result<PixelBuffer, EditError>)
    ensures
        r matches Ok(b) ==> {
            &&& b.wf()
            &&& decode_rgba_of(bytes@) == Some((b@.width as u32, b@.height as u32, b@.data))
            &&& 1 <= b@.width
            &&& 1 <= b@.height
        },
        r is Err ==> decode_rgba_of(bytes@) is None && r->Err_0 is Decode,
{
    match decode_rgba_raw(bytes) {
        Ok((w, h, data)) => Ok(from_raw_exact(w, h, data)),
        Err(e) => Err(EditError::Decode(e)),
    }
}

/// The inline preview representation of an image: its PNG bytes,
/// base64-encoded, behind a PNG data-URL header.
pub open spec fn data_url_spec(v: ImgV) -> Seq<char> {
    "data:image/png;base64,"@ + b64_spec(png_of(v.width, v.height, v.data))
}

/// Decoded-image metadata handed back for display: dimensions and an
/// inline base64 data URL of the lossless-encoded pixels.
pub struct ImageInfo {
    pub width: u32,
    pub height: u32,
    pub data_url: String,
}

/// Builds the preview record for a buffer: dimensions plus the PNG
/// data URL.
pub fn image_info(b: &PixelBuffer) -> (r: Result<ImageInfo, EditError>)
    requires
        b.wf(),
    ensures
        r matches Ok(info) ==> {
            &&& info.width == b@.width
            &&& info.height == b@.height
            &&& info.data_url@ == data_url_spec(b@)
        },
        r is Err ==> r->Err_0 is Encode,
        1 <= b@.width && 1 <= b@.height ==> r is Ok,
{
    let png = match encode_png(b) {
        Ok(p) => p,
        Err(e) => {
            return Err(e);
        },
    };
    let b64 = base64_encode(&png);
    let mut url: String = "data:image/png;base64,".to_owned();
    url.append(b64.as_str());
    Ok(ImageInfo { width: b.width(), height: b.height(), data_url: url })
}

} // verus!
