//! Tone transforms: perceptual grayscale conversion and
//! brightness/contrast adjustment. Both are pure per-pixel maps that
//! leave the alpha channel untouched.

use vstd::prelude::*;
use crate::img::{ImgV, PixelBuffer, img_new, from_raw_exact, lemma_img_new_chan, lemma_chan_index,
    lemma_img_eq, lemma_dims_nonneg};

verus! {

/// Perceptual luma of an RGB triple: the sRGB weights 2126, 7152 and
/// 722 out of 10000.
pub open spec fn luma(r: u8, g: u8, b: u8) -> u8 {
    ((2126 * r + 7152 * g + 722 * b) / 10000) as u8
}

/// Grayscale: every color channel becomes the pixel's luma; alpha is
/// unaffected.
pub open spec fn gray_spec(v: ImgV) -> ImgV {
    img_new(
        v.width,
        v.height,
        |x: int, y: int, c: int|
            if c == 3 {
                v.chan(x, y, 3)
            } else {
                luma(v.chan(x, y, 0), v.chan(x, y, 1), v.chan(x, y, 2))
            },
    )
}

/// The brightness bias a thousandths-scaled brightness denotes:
/// `brightness * 255`, rounded half away from zero.
pub open spec fn bias_of(brightness_pm: int) -> int {
    if brightness_pm >= 0 {
        (brightness_pm * 255 + 500) / 1000
    } else {
        -(((-brightness_pm) * 255 + 500) / 1000)
    }
}

/// One channel under brightness/contrast: spread around the 128
/// midpoint by `factor_pm / 1000`, then shifted by the bias, then
/// clamped to the byte range. `t / 1000` with `t` clamped first is
/// exactly the clamped real-valued result rounded down.
pub open spec fn tone_map(ch: u8, bias: int, factor_pm: int) -> u8 {
    let t = (ch - 128) * factor_pm + (128 + bias) * 1000;
    if t < 0 {
        0
    } else if t > 255000 {
        255
    } else {
        (t / 1000) as u8
    }
}

/// Brightness/contrast over a whole image: each color channel mapped
/// through `tone_map`, alpha unaffected.
pub open spec fn tone_spec(v: ImgV, brightness_pm: int, contrast_pm: int) -> ImgV {
    img_new(
        v.width,
        v.height,
        |x: int, y: int, c: int|
            if c == 3 {
                v.chan(x, y, 3)
            } else {
                tone_map(v.chan(x, y, c), bias_of(brightness_pm), contrast_pm + 1000)
            },
    )
}

fn luma_u8(r: u8, g: u8, b: u8) -> (o: u8)
    ensures
        o == luma(r, g, b),
{
    let t: u32 = 2126 * (r as u32) + 7152 * (g as u32) + 722 * (b as u32);
    (t / 10000) as u8
}

/// `|a * b|` stays below 2^40 when `a` is a centered byte and `b` a
/// 32-bit-derived factor.
proof fn lemma_tone_product_bound(a: int, b: int)
    by (nonlinear_arith)
    requires
        -128 <= a <= 127,
        -0x80000000 <= b <= 0x80000400,
    ensures
        -0x10000000000 <= a * b <= 0x10000000000,
{
}

fn tone_u8(ch: u8, bias: i64, factor_pm: i64) -> (o: u8)
    requires
        -0x40000000 <= bias <= 0x40000000,
        -0x80000000 <= factor_pm <= 0x80000400,
    ensures
        o == tone_map(ch, bias as int, factor_pm as int),
{
    proof {
        lemma_tone_product_bound(ch as int - 128, factor_pm as int);
    }
    let t: i64 = (ch as i64 - 128) * factor_pm + (128 + bias) * 1000;
    if t < 0 {
        0
    } else if t > 255000 {
        255
    } else {
        ((t as u64) / 1000) as u8
    }
}

fn bias_i64(brightness_pm: i32) -> (o: i64)
    ensures
        o == bias_of(brightness_pm as int),
        -0x40000000 <= o <= 0x40000000,
{
    if brightness_pm >= 0 {
        ((brightness_pm as u64 * 255 + 500) / 1000) as i64
    } else {
        let m: u64 = if brightness_pm == i32::MIN {
            0x80000000u64
        } else {
            (-brightness_pm) as u64
        };
        assert(m == -(brightness_pm as int));
        -(((m * 255 + 500) / 1000) as i64)
    }
}

/// Converts to grayscale: luma in all three color channels, alpha
/// preserved.
pub fn grayscale(b: &PixelBuffer) -> (r: PixelBuffer)
    requires
        b.wf(),
    ensures
        r.wf(),
        r@ == gray_spec(b@),
{
    let ghost target = gray_spec(b@);
    let w = b.width();
    let h = b.height();
    proof {
        lemma_img_new_chan(
            b@.width,
            b@.height,
            |x: int, y: int, c: int|
                if c == 3 {
                    b@.chan(x, y, 3)
                } else {
                    luma(b@.chan(x, y, 0), b@.chan(x, y, 1), b@.chan(x, y, 2))
                },
        );
    }
    let mut data: Vec<u8> = Vec::new();
    let mut y: u32 = 0;
    while y < h
        invariant
            b.wf(),
            w == b@.width,
            h == b@.height,
            target == gray_spec(b@),
            target.data.len() == 4 * (w as int * h as int),
            y <= h,
            data@.len() == 4 * (y as int * w as int),
            forall|i: int| 0 <= i < data@.len() ==> data@[i] == target.data[i],
        decreases h - y,
    {
        let mut x: u32 = 0;
        while x < w
            invariant
                b.wf(),
                w == b@.width,
                h == b@.height,
                target == gray_spec(b@),
                target.data.len() == 4 * (w as int * h as int),
                y < h,
                x <= w,
                data@.len() == 4 * (y as int * w as int + x as int),
                forall|i: int| 0 <= i < data@.len() ==> data@[i] == target.data[i],
            decreases w - x,
        {
            let p = b.get_pixel(x, y);
            let l = luma_u8(p.0, p.1, p.2);
            proof {
                lemma_chan_index(w as int, h as int, x as int, y as int, 0);
                lemma_chan_index(w as int, h as int, x as int, y as int, 1);
                lemma_chan_index(w as int, h as int, x as int, y as int, 2);
                lemma_chan_index(w as int, h as int, x as int, y as int, 3);
            }
            data.push(l);
            data.push(l);
            data.push(l);
            data.push(p.3);
            x = x + 1;
        }
        proof {
            assert((y + 1) as int * w as int == y as int * w as int + w as int)
                by (nonlinear_arith);
        }
        y = y + 1;
    }
    proof {
        assert(h as int * w as int == w as int * h as int) by (nonlinear_arith);
        assert(data@ =~= target.data);
    }
    from_raw_exact(w, h, data)
}

/// Adjusts brightness and contrast, both given in thousandths:
/// `brightness_pm = 1000` is a full-range brightening, `contrast_pm`
/// shifts the contrast factor away from 1. Alpha is unaffected.
pub fn brightness_contrast(b: &PixelBuffer, brightness_pm: i32, contrast_pm: i32) -> (r:
    PixelBuffer)
    requires
        b.wf(),
    ensures
        r.wf(),
        r@ == tone_spec(b@, brightness_pm as int, contrast_pm as int),
{
    let ghost target = tone_spec(b@, brightness_pm as int, contrast_pm as int);
    let w = b.width();
    let h = b.height();
    let bias = bias_i64(brightness_pm);
    let factor: i64 = contrast_pm as i64 + 1000;
    proof {
        lemma_img_new_chan(
            b@.width,
            b@.height,
            |x: int, y: int, c: int|
                if c == 3 {
                    b@.chan(x, y, 3)
                } else {
                    tone_map(
                        b@.chan(x, y, c),
                        bias_of(brightness_pm as int),
                        contrast_pm as int + 1000,
                    )
                },
        );
    }
    let mut data: Vec<u8> = Vec::new();
    let mut y: u32 = 0;
    while y < h
        invariant
            b.wf(),
            w == b@.width,
            h == b@.height,
            bias == bias_of(brightness_pm as int),
            -0x40000000 <= bias <= 0x40000000,
            factor == contrast_pm as int + 1000,
            target == tone_spec(b@, brightness_pm as int, contrast_pm as int),
            target.data.len() == 4 * (w as int * h as int),
            y <= h,
            data@.len() == 4 * (y as int * w as int),
            forall|i: int| 0 <= i < data@.len() ==> data@[i] == target.data[i],
        decreases h - y,
    {
        let mut x: u32 = 0;
        while x < w
            invariant
                b.wf(),
                w == b@.width,
                h == b@.height,
                bias == bias_of(brightness_pm as int),
                -0x40000000 <= bias <= 0x40000000,
                factor == contrast_pm as int + 1000,
                target == tone_spec(b@, brightness_pm as int, contrast_pm as int),
                target.data.len() == 4 * (w as int * h as int),
                y < h,
                x <= w,
                data@.len() == 4 * (y as int * w as int + x as int),
                forall|i: int| 0 <= i < data@.len() ==> data@[i] == target.data[i],
            decreases w - x,
        {
            let p = b.get_pixel(x, y);
            let t0 = tone_u8(p.0, bias, factor);
            let t1 = tone_u8(p.1, bias, factor);
            let t2 = tone_u8(p.2, bias, factor);
            proof {
                lemma_chan_index(w as int, h as int, x as int, y as int, 0);
                lemma_chan_index(w as int, h as int, x as int, y as int, 1);
                lemma_chan_index(w as int, h as int, x as int, y as int, 2);
                lemma_chan_index(w as int, h as int, x as int, y as int, 3);
            }
            data.push(t0);
            data.push(t1);
            data.push(t2);
            data.push(p.3);
            x = x + 1;
        }
        proof {
            assert((y + 1) as int * w as int == y as int * w as int + w as int)
                by (nonlinear_arith);
        }
        y = y + 1;
    }
    proof {
        assert(h as int * w as int == w as int * h as int) by (nonlinear_arith);
        assert(data@ =~= target.data);
    }
    from_raw_exact(w, h, data)
}

/// Brightness 0 and contrast 0 change nothing: the output buffer is
/// identical to the input.
pub proof fn lemma_tone_identity(v: ImgV)
    requires
        v.wf(),
    ensures
        tone_spec(v, 0, 0) == v,
{
    let t = tone_spec(v, 0, 0);
    lemma_dims_nonneg(v.width, v.height);
    assert forall|x: int, y: int, c: int|
        v.in_bounds(x, y) && 0 <= c < 4 implies #[trigger] t.chan(x, y, c) == #[trigger] v.chan(
        x,
        y,
        c,
    ) by {
        lemma_chan_index(v.width, v.height, x, y, c);
        let ch = v.chan(x, y, c);
        assert(bias_of(0) == 0);
        assert((ch - 128) * 1000 + 128000 == ch * 1000) by (nonlinear_arith);
        assert(0 <= ch * 1000 <= 255000) by (nonlinear_arith)
            requires
                0 <= ch <= 255,
        ;
        assert(ch * 1000 / 1000 == ch) by (nonlinear_arith);
    }
    lemma_img_eq(t, v);
}

} // verus!
