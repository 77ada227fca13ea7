//! Geometric transforms: quadrant rotation, horizontal and vertical
//! flips, and crop to a clamped normalized rectangle.

use vstd::prelude::*;
use crate::img::{ImgV, PixelBuffer, img_new, from_raw_exact, lemma_img_new_chan, lemma_chan_index,
    lemma_img_eq, lemma_dims_nonneg};

verus! {

/// The four quadrant rotations.
#[derive(Clone, Copy, PartialEq, Eq, Structural, Debug)]
pub enum Quad {
    R0,
    R90,
    R180,
    R270,
}

/// Which quadrant rotation a requested angle denotes: 90 and -270
/// rotate a quarter turn clockwise, 180 and -180 a half turn, 270 and
/// -90 a quarter turn counter-clockwise; every other angle is the
/// identity.
pub open spec fn quad_of(rot: int) -> Quad {
    if rot == 90 || rot == -270 {
        Quad::R90
    } else if rot == 180 || rot == -180 {
        Quad::R180
    } else if rot == 270 || rot == -90 {
        Quad::R270
    } else {
        Quad::R0
    }
}

pub fn normalize_rotation(rot: i32) -> (q: Quad)
    ensures
        q == quad_of(rot as int),
{
    if rot == 90 || rot == -270 {
        Quad::R90
    } else if rot == 180 || rot == -180 {
        Quad::R180
    } else if rot == 270 || rot == -90 {
        Quad::R270
    } else {
        Quad::R0
    }
}

/// A quarter turn clockwise: the output has the dimensions swapped and
/// output pixel `(x, y)` comes from input pixel `(y, h - 1 - x)`.
pub open spec fn rotate90_spec(v: ImgV) -> ImgV {
    img_new(v.height, v.width, |x: int, y: int, c: int| v.chan(y, v.height - 1 - x, c))
}

/// A half turn: output pixel `(x, y)` comes from `(w - 1 - x, h - 1 - y)`.
pub open spec fn rotate180_spec(v: ImgV) -> ImgV {
    img_new(v.width, v.height, |x: int, y: int, c: int| v.chan(v.width - 1 - x, v.height - 1 - y, c))
}

/// A quarter turn counter-clockwise: the output has the dimensions
/// swapped and output pixel `(x, y)` comes from `(w - 1 - y, x)`.
pub open spec fn rotate270_spec(v: ImgV) -> ImgV {
    img_new(v.height, v.width, |x: int, y: int, c: int| v.chan(v.width - 1 - y, x, c))
}

/// Mirror across the vertical axis.
pub open spec fn flip_h_spec(v: ImgV) -> ImgV {
    img_new(v.width, v.height, |x: int, y: int, c: int| v.chan(v.width - 1 - x, y, c))
}

/// Mirror across the horizontal axis.
pub open spec fn flip_v_spec(v: ImgV) -> ImgV {
    img_new(v.width, v.height, |x: int, y: int, c: int| v.chan(x, v.height - 1 - y, c))
}

/// The rotation selected by `q`.
pub open spec fn rotate_spec(v: ImgV, q: Quad) -> ImgV {
    match q {
        Quad::R0 => v,
        Quad::R90 => rotate90_spec(v),
        Quad::R180 => rotate180_spec(v),
        Quad::R270 => rotate270_spec(v),
    }
}

pub fn rotate90(b: &PixelBuffer) -> (r: PixelBuffer)
    requires
        b.wf(),
    ensures
        r.wf(),
        r@ == rotate90_spec(b@),
{
    let ghost target = rotate90_spec(b@);
    let w = b.width();
    let h = b.height();
    let nw = h;
    let nh = w;
    proof {
        lemma_img_new_chan(
            b@.height,
            b@.width,
            |x: int, y: int, c: int| b@.chan(y, b@.height - 1 - x, c),
        );
    }
    let mut data: Vec<u8> = Vec::new();
    let mut y: u32 = 0;
    while y < nh
        invariant
            b.wf(),
            w == b@.width,
            h == b@.height,
            nw == h,
            nh == w,
            target == rotate90_spec(b@),
            target.data.len() == 4 * (nw as int * nh as int),
            y <= nh,
            data@.len() == 4 * (y as int * nw as int),
            forall|i: int| 0 <= i < data@.len() ==> data@[i] == target.data[i],
        decreases nh - y,
    {
        let mut x: u32 = 0;
        while x < nw
            invariant
                b.wf(),
                w == b@.width,
                h == b@.height,
                nw == h,
                nh == w,
                target == rotate90_spec(b@),
                target.data.len() == 4 * (nw as int * nh as int),
                y < nh,
                x <= nw,
                data@.len() == 4 * (y as int * nw as int + x as int),
                forall|i: int| 0 <= i < data@.len() ==> data@[i] == target.data[i],
            decreases nw - x,
        {
            let p = b.get_pixel(y, h - 1 - x);
            proof {
                lemma_chan_index(nw as int, nh as int, x as int, y as int, 0);
                lemma_chan_index(nw as int, nh as int, x as int, y as int, 1);
                lemma_chan_index(nw as int, nh as int, x as int, y as int, 2);
                lemma_chan_index(nw as int, nh as int, x as int, y as int, 3);
            }
            data.push(p.0);
            data.push(p.1);
            data.push(p.2);
            data.push(p.3);
            x = x + 1;
        }
        proof {
            assert((y + 1) as int * nw as int == y as int * nw as int + nw as int)
                by (nonlinear_arith);
        }
        y = y + 1;
    }
    proof {
        assert(nh as int * nw as int == nw as int * nh as int) by (nonlinear_arith);
        assert(data@ =~= target.data);
    }
    from_raw_exact(nw, nh, data)
}

pub fn rotate180(b: &PixelBuffer) -> (r: PixelBuffer)
    requires
        b.wf(),
    ensures
        r.wf(),
        r@ == rotate180_spec(b@),
{
    let ghost target = rotate180_spec(b@);
    let w = b.width();
    let h = b.height();
    proof {
        lemma_img_new_chan(
            b@.width,
            b@.height,
            |x: int, y: int, c: int| b@.chan(b@.width - 1 - x, b@.height - 1 - y, c),
        );
    }
    let mut data: Vec<u8> = Vec::new();
    let mut y: u32 = 0;
    while y < h
        invariant
            b.wf(),
            w == b@.width,
            h == b@.height,
            target == rotate180_spec(b@),
            target.data.len() == 4 * (w as int * h as int),
            y <= h,
            data@.len() == 4 * (y as int * w as int),
            forall|i: int| 0 <= i < data@.len() ==> data@[i] == target.data[i],
        decreases h - y,
    {
        let mut x: u32 = 0;
        while x < w
            invariant
                b.wf(),
                w == b@.width,
                h == b@.height,
                target == rotate180_spec(b@),
                target.data.len() == 4 * (w as int * h as int),
                y < h,
                x <= w,
                data@.len() == 4 * (y as int * w as int + x as int),
                forall|i: int| 0 <= i < data@.len() ==> data@[i] == target.data[i],
            decreases w - x,
        {
            let p = b.get_pixel(w - 1 - x, h - 1 - y);
            proof {
                lemma_chan_index(w as int, h as int, x as int, y as int, 0);
                lemma_chan_index(w as int, h as int, x as int, y as int, 1);
                lemma_chan_index(w as int, h as int, x as int, y as int, 2);
                lemma_chan_index(w as int, h as int, x as int, y as int, 3);
            }
            data.push(p.0);
            data.push(p.1);
            data.push(p.2);
            data.push(p.3);
            x = x + 1;
        }
        proof {
            assert((y + 1) as int * w as int == y as int * w as int + w as int)
                by (nonlinear_arith);
        }
        y = y + 1;
    }
    proof {
        assert(h as int * w as int == w as int * h as int) by (nonlinear_arith);
        assert(data@ =~= target.data);
    }
    from_raw_exact(w, h, data)
}

pub fn rotate270(b: &PixelBuffer) -> (r: PixelBuffer)
    requires
        b.wf(),
    ensures
        r.wf(),
        r@ == rotate270_spec(b@),
{
    let ghost target = rotate270_spec(b@);
    let w = b.width();
    let h = b.height();
    let nw = h;
    let nh = w;
    proof {
        lemma_img_new_chan(
            b@.height,
            b@.width,
            |x: int, y: int, c: int| b@.chan(b@.width - 1 - y, x, c),
        );
    }
    let mut data: Vec<u8> = Vec::new();
    let mut y: u32 = 0;
    while y < nh
        invariant
            b.wf(),
            w == b@.width,
            h == b@.height,
            nw == h,
            nh == w,
            target == rotate270_spec(b@),
            target.data.len() == 4 * (nw as int * nh as int),
            y <= nh,
            data@.len() == 4 * (y as int * nw as int),
            forall|i: int| 0 <= i < data@.len() ==> data@[i] == target.data[i],
        decreases nh - y,
    {
        let mut x: u32 = 0;
        while x < nw
            invariant
                b.wf(),
                w == b@.width,
                h == b@.height,
                nw == h,
                nh == w,
                target == rotate270_spec(b@),
                target.data.len() == 4 * (nw as int * nh as int),
                y < nh,
                x <= nw,
                data@.len() == 4 * (y as int * nw as int + x as int),
                forall|i: int| 0 <= i < data@.len() ==> data@[i] == target.data[i],
            decreases nw - x,
        {
            let p = b.get_pixel(w - 1 - y, x);
            proof {
                lemma_chan_index(nw as int, nh as int, x as int, y as int, 0);
                lemma_chan_index(nw as int, nh as int, x as int, y as int, 1);
                lemma_chan_index(nw as int, nh as int, x as int, y as int, 2);
                lemma_chan_index(nw as int, nh as int, x as int, y as int, 3);
            }
            data.push(p.0);
            data.push(p.1);
            data.push(p.2);
            data.push(p.3);
            x = x + 1;
        }
        proof {
            assert((y + 1) as int * nw as int == y as int * nw as int + nw as int)
                by (nonlinear_arith);
        }
        y = y + 1;
    }
    proof {
        assert(nh as int * nw as int == nw as int * nh as int) by (nonlinear_arith);
        assert(data@ =~= target.data);
    }
    from_raw_exact(nw, nh, data)
}

pub fn flip_horizontal(b: &PixelBuffer) -> (r: PixelBuffer)
    requires
        b.wf(),
    ensures
        r.wf(),
        r@ == flip_h_spec(b@),
{
    let ghost target = flip_h_spec(b@);
    let w = b.width();
    let h = b.height();
    proof {
        lemma_img_new_chan(
            b@.width,
            b@.height,
            |x: int, y: int, c: int| b@.chan(b@.width - 1 - x, y, c),
        );
    }
    let mut data: Vec<u8> = Vec::new();
    let mut y: u32 = 0;
    while y < h
        invariant
            b.wf(),
            w == b@.width,
            h == b@.height,
            target == flip_h_spec(b@),
            target.data.len() == 4 * (w as int * h as int),
            y <= h,
            data@.len() == 4 * (y as int * w as int),
            forall|i: int| 0 <= i < data@.len() ==> data@[i] == target.data[i],
        decreases h - y,
    {
        let mut x: u32 = 0;
        while x < w
            invariant
                b.wf(),
                w == b@.width,
                h == b@.height,
                target == flip_h_spec(b@),
                target.data.len() == 4 * (w as int * h as int),
                y < h,
                x <= w,
                data@.len() == 4 * (y as int * w as int + x as int),
                forall|i: int| 0 <= i < data@.len() ==> data@[i] == target.data[i],
            decreases w - x,
        {
            let p = b.get_pixel(w - 1 - x, y);
            proof {
                lemma_chan_index(w as int, h as int, x as int, y as int, 0);
                lemma_chan_index(w as int, h as int, x as int, y as int, 1);
                lemma_chan_index(w as int, h as int, x as int, y as int, 2);
                lemma_chan_index(w as int, h as int, x as int, y as int, 3);
            }
            data.push(p.0);
            data.push(p.1);
            data.push(p.2);
            data.push(p.3);
            x = x + 1;
        }
        proof {
            assert((y + 1) as int * w as int == y as int * w as int + w as int)
                by (nonlinear_arith);
        }
        y = y + 1;
    }
    proof {
        assert(h as int * w as int == w as int * h as int) by (nonlinear_arith);
        assert(data@ =~= target.data);
    }
    from_raw_exact(w, h, data)
}

pub fn flip_vertical(b: &PixelBuffer) -> (r: PixelBuffer)
    requires
        b.wf(),
    ensures
        r.wf(),
        r@ == flip_v_spec(b@),
{
    let ghost target = flip_v_spec(b@);
    let w = b.width();
    let h = b.height();
    proof {
        lemma_img_new_chan(
            b@.width,
            b@.height,
            |x: int, y: int, c: int| b@.chan(x, b@.height - 1 - y, c),
        );
    }
    let mut data: Vec<u8> = Vec::new();
    let mut y: u32 = 0;
    while y < h
        invariant
            b.wf(),
            w == b@.width,
            h == b@.height,
            target == flip_v_spec(b@),
            target.data.len() == 4 * (w as int * h as int),
            y <= h,
            data@.len() == 4 * (y as int * w as int),
            forall|i: int| 0 <= i < data@.len() ==> data@[i] == target.data[i],
        decreases h - y,
    {
        let mut x: u32 = 0;
        while x < w
            invariant
                b.wf(),
                w == b@.width,
                h == b@.height,
                target == flip_v_spec(b@),
                target.data.len() == 4 * (w as int * h as int),
                y < h,
                x <= w,
                data@.len() == 4 * (y as int * w as int + x as int),
                forall|i: int| 0 <= i < data@.len() ==> data@[i] == target.data[i],
            decreases w - x,
        {
            let p = b.get_pixel(x, h - 1 - y);
            proof {
                lemma_chan_index(w as int, h as int, x as int, y as int, 0);
                lemma_chan_index(w as int, h as int, x as int, y as int, 1);
                lemma_chan_index(w as int, h as int, x as int, y as int, 2);
                lemma_chan_index(w as int, h as int, x as int, y as int, 3);
            }
            data.push(p.0);
            data.push(p.1);
            data.push(p.2);
            data.push(p.3);
            x = x + 1;
        }
        proof {
            assert((y + 1) as int * w as int == y as int * w as int + w as int)
                by (nonlinear_arith);
        }
        y = y + 1;
    }
    proof {
        assert(h as int * w as int == w as int * h as int) by (nonlinear_arith);
        assert(data@ =~= target.data);
    }
    from_raw_exact(w, h, data)
}

/// Applies the quadrant rotation selected by `q`.
pub fn rotate(b: PixelBuffer, q: Quad) -> (r: PixelBuffer)
    requires
        b.wf(),
    ensures
        r.wf(),
        r@ == rotate_spec(b@, q),
{
    match q {
        Quad::R0 => b,
        Quad::R90 => rotate90(&b),
        Quad::R180 => rotate180(&b),
        Quad::R270 => rotate270(&b),
    }
}

/// Cutting the rectangle at `(cx, cy)` of size `cw` by `ch` out of `v`.
pub open spec fn crop_spec(v: ImgV, cx: int, cy: int, cw: int, ch: int) -> ImgV {
    img_new(cw, ch, |x: int, y: int, c: int| v.chan(cx + x, cy + y, c))
}

pub fn crop(b: &PixelBuffer, cx: u32, cy: u32, cw: u32, ch: u32) -> (r: PixelBuffer)
    requires
        b.wf(),
        cx + cw <= b@.width,
        cy + ch <= b@.height,
    ensures
        r.wf(),
        r@ == crop_spec(b@, cx as int, cy as int, cw as int, ch as int),
{
    let ghost target = crop_spec(b@, cx as int, cy as int, cw as int, ch as int);
    let w = b.width();
    let h = b.height();
    proof {
        lemma_img_new_chan(
            cw as int,
            ch as int,
            |x: int, y: int, c: int| b@.chan(cx as int + x, cy as int + y, c),
        );
    }
    let mut data: Vec<u8> = Vec::new();
    let mut y: u32 = 0;
    while y < ch
        invariant
            b.wf(),
            w == b@.width,
            h == b@.height,
            cx + cw <= b@.width,
            cy + ch <= b@.height,
            target == crop_spec(b@, cx as int, cy as int, cw as int, ch as int),
            target.data.len() == 4 * (cw as int * ch as int),
            y <= ch,
            data@.len() == 4 * (y as int * cw as int),
            forall|i: int| 0 <= i < data@.len() ==> data@[i] == target.data[i],
        decreases ch - y,
    {
        let mut x: u32 = 0;
        while x < cw
            invariant
                b.wf(),
                w == b@.width,
                h == b@.height,
                cx + cw <= b@.width,
                cy + ch <= b@.height,
                target == crop_spec(b@, cx as int, cy as int, cw as int, ch as int),
                target.data.len() == 4 * (cw as int * ch as int),
                y < ch,
                x <= cw,
                data@.len() == 4 * (y as int * cw as int + x as int),
                forall|i: int| 0 <= i < data@.len() ==> data@[i] == target.data[i],
            decreases cw - x,
        {
            let p = b.get_pixel(cx + x, cy + y);
            proof {
                lemma_chan_index(cw as int, ch as int, x as int, y as int, 0);
                lemma_chan_index(cw as int, ch as int, x as int, y as int, 1);
                lemma_chan_index(cw as int, ch as int, x as int, y as int, 2);
                lemma_chan_index(cw as int, ch as int, x as int, y as int, 3);
            }
            data.push(p.0);
            data.push(p.1);
            data.push(p.2);
            data.push(p.3);
            x = x + 1;
        }
        proof {
            assert((y + 1) as int * cw as int == y as int * cw as int + cw as int)
                by (nonlinear_arith);
        }
        y = y + 1;
    }
    proof {
        assert(ch as int * cw as int == cw as int * ch as int) by (nonlinear_arith);
        assert(data@ =~= target.data);
    }
    from_raw_exact(cw, ch, data)
}

/// A crop rectangle in normalized coordinates, expressed in
/// thousandths of the current image dimensions: `x = 500` means half
/// the width. Out-of-range values are clamped, never rejected.
#[derive(Clone, Copy, PartialEq, Eq, Structural, Debug)]
pub struct CropRect {
    pub x: u32,
    pub y: u32,
    pub width: u32,
    pub height: u32,
}

/// `round(a * s / 1000)`, rounding half up.
pub open spec fn scale_round(a: int, s: int) -> int {
    (a * s + 500) / 1000
}

/// The pixel rectangle that a normalized crop denotes on an `iw` by
/// `ih` image: scaled and rounded, forced to at least one pixel, then
/// clamped to lie fully inside the image.
pub open spec fn crop_px_spec(r: CropRect, iw: int, ih: int) -> (int, int, int, int) {
    let cx0 = scale_round(r.x as int, iw);
    let cy0 = scale_round(r.y as int, ih);
    let cw0 = max_int(1, scale_round(r.width as int, iw));
    let ch0 = max_int(1, scale_round(r.height as int, ih));
    let cx = min_int(cx0, max_int(iw - 1, 0));
    let cy = min_int(cy0, max_int(ih - 1, 0));
    let cw = min_int(cw0, iw - cx);
    let ch = min_int(ch0, ih - cy);
    (cx, cy, cw, ch)
}

/// The product of two 32-bit values leaves room in 64 bits.
pub proof fn lemma_mul_u32_fits_u64(a: int, b: int)
    by (nonlinear_arith)
    requires
        0 <= a < 0x100000000,
        0 <= b < 0x100000000,
    ensures
        0 <= a * b <= 0xfffffffe00000001,
{
}

pub open spec fn max_int(a: int, b: int) -> int {
    if a >= b {
        a
    } else {
        b
    }
}

pub open spec fn min_int(a: int, b: int) -> int {
    if a <= b {
        a
    } else {
        b
    }
}

/// Computes the clamped pixel rectangle of a normalized crop. The
/// result never exceeds the image bounds, and on a non-empty image it
/// is at least one pixel in each direction.
pub fn crop_px(r: &CropRect, iw: u32, ih: u32) -> (o: (u32, u32, u32, u32))
    ensures
        (o.0 as int, o.1 as int, o.2 as int, o.3 as int) == crop_px_spec(*r, iw as int, ih as int),
        o.0 + o.2 <= iw,
        o.1 + o.3 <= ih,
        iw >= 1 && ih >= 1 ==> o.2 >= 1 && o.3 >= 1,
{
    proof {
        lemma_mul_u32_fits_u64(r.x as int, iw as int);
        lemma_mul_u32_fits_u64(r.y as int, ih as int);
        lemma_mul_u32_fits_u64(r.width as int, iw as int);
        lemma_mul_u32_fits_u64(r.height as int, ih as int);
    }
    let cx0: u64 = (r.x as u64 * iw as u64 + 500) / 1000;
    let cy0: u64 = (r.y as u64 * ih as u64 + 500) / 1000;
    let cw1: u64 = (r.width as u64 * iw as u64 + 500) / 1000;
    let ch1: u64 = (r.height as u64 * ih as u64 + 500) / 1000;
    let cw0: u64 = if cw1 >= 1 {
        cw1
    } else {
        1
    };
    let ch0: u64 = if ch1 >= 1 {
        ch1
    } else {
        1
    };
    let m_w: u64 = if iw >= 1 {
        (iw - 1) as u64
    } else {
        0
    };
    let m_h: u64 = if ih >= 1 {
        (ih - 1) as u64
    } else {
        0
    };
    let cx: u64 = if cx0 <= m_w {
        cx0
    } else {
        m_w
    };
    let cy: u64 = if cy0 <= m_h {
        cy0
    } else {
        m_h
    };
    let rem_w: u64 = iw as u64 - cx;
    let rem_h: u64 = ih as u64 - cy;
    let cw: u64 = if cw0 <= rem_w {
        cw0
    } else {
        rem_w
    };
    let ch: u64 = if ch0 <= rem_h {
        ch0
    } else {
        rem_h
    };
    (cx as u32, cy as u32, cw as u32, ch as u32)
}

/// A quarter turn clockwise done twice is a half turn.
pub proof fn lemma_rotate90_twice(v: ImgV)
    requires
        v.wf(),
    ensures
        rotate90_spec(rotate90_spec(v)) == rotate180_spec(v),
{
    let r1 = rotate90_spec(v);
    let r2 = rotate90_spec(r1);
    let t = rotate180_spec(v);
    lemma_dims_nonneg(v.width, v.height);
    lemma_dims_nonneg(v.height, v.width);
    assert forall|x: int, y: int, c: int|
        t.in_bounds(x, y) && 0 <= c < 4 implies #[trigger] r2.chan(x, y, c) == #[trigger] t.chan(
        x,
        y,
        c,
    ) by {
        lemma_chan_index(v.width, v.height, x, y, c);
        lemma_chan_index(v.height, v.width, y, v.width - 1 - x, c);
    }
    lemma_img_eq(r2, t);
}

/// A half turn is an involution.
pub proof fn lemma_rotate180_twice(v: ImgV)
    requires
        v.wf(),
    ensures
        rotate180_spec(rotate180_spec(v)) == v,
{
    let r1 = rotate180_spec(v);
    let r2 = rotate180_spec(r1);
    lemma_dims_nonneg(v.width, v.height);
    assert forall|x: int, y: int, c: int|
        v.in_bounds(x, y) && 0 <= c < 4 implies #[trigger] r2.chan(x, y, c) == #[trigger] v.chan(
        x,
        y,
        c,
    ) by {
        lemma_chan_index(v.width, v.height, x, y, c);
        lemma_chan_index(v.width, v.height, v.width - 1 - x, v.height - 1 - y, c);
    }
    lemma_img_eq(r2, v);
}

/// Rotation is a group action: four quarter turns restore both the
/// dimensions and the pixel data.
pub proof fn lemma_rotate90_four_times(v: ImgV)
    requires
        v.wf(),
    ensures
        rotate90_spec(rotate90_spec(rotate90_spec(rotate90_spec(v)))) == v,
{
    let r2 = rotate90_spec(rotate90_spec(v));
    lemma_rotate90_twice(v);
    lemma_dims_nonneg(v.width, v.height);
    lemma_rotate90_twice(rotate180_spec(v));
    lemma_rotate180_twice(v);
}

/// A quarter turn counter-clockwise is the same as three quarter
/// turns clockwise, so rotating by -90 equals rotating by 270.
pub proof fn lemma_rotate270_is_three_quarters(v: ImgV)
    requires
        v.wf(),
    ensures
        rotate270_spec(v) == rotate90_spec(rotate180_spec(v)),
        quad_of(-90) == quad_of(270),
        quad_of(-180) == quad_of(180),
        quad_of(-270) == quad_of(90),
{
    let t = rotate90_spec(rotate180_spec(v));
    let r = rotate270_spec(v);
    lemma_dims_nonneg(v.width, v.height);
    lemma_dims_nonneg(v.height, v.width);
    assert forall|x: int, y: int, c: int|
        r.in_bounds(x, y) && 0 <= c < 4 implies #[trigger] r.chan(x, y, c) == #[trigger] t.chan(
        x,
        y,
        c,
    ) by {
        lemma_chan_index(v.height, v.width, x, y, c);
        lemma_chan_index(v.width, v.height, y, v.height - 1 - x, c);
    }
    lemma_img_eq(r, t);
}

/// A horizontal flip is an involution.
pub proof fn lemma_flip_h_twice(v: ImgV)
    requires
        v.wf(),
    ensures
        flip_h_spec(flip_h_spec(v)) == v,
{
    let r2 = flip_h_spec(flip_h_spec(v));
    lemma_dims_nonneg(v.width, v.height);
    assert forall|x: int, y: int, c: int|
        v.in_bounds(x, y) && 0 <= c < 4 implies #[trigger] r2.chan(x, y, c) == #[trigger] v.chan(
        x,
        y,
        c,
    ) by {
        lemma_chan_index(v.width, v.height, x, y, c);
        lemma_chan_index(v.width, v.height, v.width - 1 - x, y, c);
    }
    lemma_img_eq(r2, v);
}

/// A vertical flip is an involution.
pub proof fn lemma_flip_v_twice(v: ImgV)
    requires
        v.wf(),
    ensures
        flip_v_spec(flip_v_spec(v)) == v,
{
    let r2 = flip_v_spec(flip_v_spec(v));
    lemma_dims_nonneg(v.width, v.height);
    assert forall|x: int, y: int, c: int|
        v.in_bounds(x, y) && 0 <= c < 4 implies #[trigger] r2.chan(x, y, c) == #[trigger] v.chan(
        x,
        y,
        c,
    ) by {
        lemma_chan_index(v.width, v.height, x, y, c);
        lemma_chan_index(v.width, v.height, x, v.height - 1 - y, c);
    }
    lemma_img_eq(r2, v);
}

/// The two flips commute with each other.
pub proof fn lemma_flips_commute(v: ImgV)
    requires
        v.wf(),
    ensures
        flip_v_spec(flip_h_spec(v)) == flip_h_spec(flip_v_spec(v)),
{
    let a = flip_v_spec(flip_h_spec(v));
    let b = flip_h_spec(flip_v_spec(v));
    lemma_dims_nonneg(v.width, v.height);
    assert forall|x: int, y: int, c: int|
        v.in_bounds(x, y) && 0 <= c < 4 implies #[trigger] a.chan(x, y, c) == #[trigger] b.chan(
        x,
        y,
        c,
    ) by {
        lemma_chan_index(v.width, v.height, x, y, c);
        lemma_chan_index(v.width, v.height, v.width - 1 - x, y, c);
        lemma_chan_index(v.width, v.height, x, v.height - 1 - y, c);
        lemma_chan_index(v.width, v.height, v.width - 1 - x, v.height - 1 - y, c);
    }
    lemma_img_eq(a, b);
}

} // verus!
