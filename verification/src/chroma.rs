//! Chroma-key background removal: alpha suppression by Manhattan
//! distance from a key color, with a soft falloff band between one
//! and two tolerances. Color channels are never modified.

use vstd::prelude::*;
use crate::img::{ImgV, PixelBuffer, img_new, from_raw_exact, lemma_img_new_chan, lemma_chan_index};

verus! {

pub open spec fn abs_int(a: int) -> int {
    if a >= 0 {
        a
    } else {
        -a
    }
}

/// Manhattan distance between a pixel's color and the key color.
pub open spec fn l1_dist(r: u8, g: u8, b: u8, kr: u8, kg: u8, kb: u8) -> int {
    abs_int(r - kr) + abs_int(g - kg) + abs_int(b - kb)
}

/// The pixel tolerance a thousandths-scaled tolerance denotes:
/// `tolerance * 255`, rounded half up.
pub open spec fn tol_of(tolerance_pm: int) -> int {
    (tolerance_pm * 255 + 500) / 1000
}

/// The new alpha of a pixel at distance `dist` from the key color:
/// fully transparent within one tolerance, scaled down by
/// `(dist - tol) / tol` in the soft band up to two tolerances, and
/// untouched beyond. With `tol == 0` only an exact match is keyed
/// out, since the soft band is then empty.
pub open spec fn key_alpha(a: u8, dist: int, tol: int) -> u8 {
    if dist <= tol {
        0
    } else if dist <= 2 * tol {
        (a * (dist - tol) / tol) as u8
    } else {
        a
    }
}

/// Chroma keying over a whole image: alpha mapped through
/// `key_alpha`, color channels unchanged.
pub open spec fn chroma_spec(v: ImgV, kr: u8, kg: u8, kb: u8, tol: int) -> ImgV {
    img_new(
        v.width,
        v.height,
        |x: int, y: int, c: int|
            if c == 3 {
                key_alpha(v.chan(x, y, 3), l1_dist(v.chan(x, y, 0), v.chan(x, y, 1), v.chan(x, y, 2), kr, kg, kb), tol)
            } else {
                v.chan(x, y, c)
            },
    )
}

fn abs_diff(a: u8, b: u8) -> (o: u64)
    ensures
        o == abs_int(a - b),
{
    if a >= b {
        (a - b) as u64
    } else {
        (b - a) as u64
    }
}

/// The scaled soft-band alpha never exceeds the original alpha.
proof fn lemma_soft_band_bound(a: int, dist: int, tol: int)
    by (nonlinear_arith)
    requires
        0 <= a <= 255,
        tol < dist <= 2 * tol,
        dist <= 765,
        1 <= tol,
    ensures
        0 <= a * (dist - tol) <= 195075,
        0 <= a * (dist - tol) / tol <= a,
{
}

fn key_alpha_u8(a: u8, dist: u64, tol: u64) -> (o: u8)
    requires
        dist <= 765,
        tol <= 0x100000000,
    ensures
        o == key_alpha(a, dist as int, tol as int),
{
    if dist <= tol {
        0
    } else if dist <= 2 * tol {
        proof {
            lemma_soft_band_bound(a as int, dist as int, tol as int);
        }
        ((a as u64 * (dist - tol)) / tol) as u8
    } else {
        a
    }
}

/// Removes a background color: every pixel's alpha is attenuated by
/// its Manhattan distance from `color`, with `tolerance_pm` in
/// thousandths of the full color range.
pub fn chroma_key(b: &PixelBuffer, color: (u8, u8, u8), tolerance_pm: u32) -> (r: PixelBuffer)
    requires
        b.wf(),
    ensures
        r.wf(),
        r@ == chroma_spec(b@, color.0, color.1, color.2, tol_of(tolerance_pm as int)),
{
    let ghost tol = tol_of(tolerance_pm as int);
    let ghost target = chroma_spec(b@, color.0, color.1, color.2, tol);
    let w = b.width();
    let h = b.height();
    let tol_px: u64 = (tolerance_pm as u64 * 255 + 500) / 1000;
    proof {
        lemma_img_new_chan(
            b@.width,
            b@.height,
            |x: int, y: int, c: int|
                if c == 3 {
                    key_alpha(
                        b@.chan(x, y, 3),
                        l1_dist(
                            b@.chan(x, y, 0),
                            b@.chan(x, y, 1),
                            b@.chan(x, y, 2),
                            color.0,
                            color.1,
                            color.2,
                        ),
                        tol,
                    )
                } else {
                    b@.chan(x, y, c)
                },
        );
    }
    let mut data: Vec<u8> = Vec::new();
    let mut y: u32 = 0;
    while y < h
        invariant
            b.wf(),
            w == b@.width,
            h == b@.height,
            tol_px == tol,
            tol_px <= 0x100000000,
            target == chroma_spec(b@, color.0, color.1, color.2, tol),
            target.data.len() == 4 * (w as int * h as int),
            y <= h,
            data@.len() == 4 * (y as int * w as int),
            forall|i: int| 0 <= i < data@.len() ==> data@[i] == target.data[i],
        decreases h - y,
    {
        let mut x: u32 = 0;
        while x < w
            invariant
                b.wf(),
                w == b@.width,
                h == b@.height,
                tol_px == tol,
                tol_px <= 0x100000000,
                target == chroma_spec(b@, color.0, color.1, color.2, tol),
                target.data.len() == 4 * (w as int * h as int),
                y < h,
                x <= w,
                data@.len() == 4 * (y as int * w as int + x as int),
                forall|i: int| 0 <= i < data@.len() ==> data@[i] == target.data[i],
            decreases w - x,
        {
            let p = b.get_pixel(x, y);
            let dist: u64 = abs_diff(p.0, color.0) + abs_diff(p.1, color.1) + abs_diff(
                p.2,
                color.2,
            );
            let na = key_alpha_u8(p.3, dist, tol_px);
            proof {
                lemma_chan_index(w as int, h as int, x as int, y as int, 0);
                lemma_chan_index(w as int, h as int, x as int, y as int, 1);
                lemma_chan_index(w as int, h as int, x as int, y as int, 2);
                lemma_chan_index(w as int, h as int, x as int, y as int, 3);
            }
            data.push(p.0);
            data.push(p.1);
            data.push(p.2);
            data.push(na);
            x = x + 1;
        }
        proof {
            assert((y + 1) as int * w as int == y as int * w as int + w as int)
                by (nonlinear_arith);
        }
        y = y + 1;
    }
    proof {
        assert(h as int * w as int == w as int * h as int) by (nonlinear_arith);
        assert(data@ =~= target.data);
    }
    from_raw_exact(w, h, data)
}

} // verus!
