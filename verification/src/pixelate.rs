//! Localized pixelation: block-averaging inside the clamped square
//! around each sampled stroke point. The square is partitioned into
//! axis-aligned blocks starting at its top-left corner; every pixel
//! of a block is replaced by the block's truncated mean, computed
//! from the buffer state at the start of the region pass.

use vstd::prelude::*;
use crate::img::{ImgV, PixelBuffer, img_new, lemma_chan_index, lemma_with_pixel_chan,
    lemma_img_eq, lemma_dims_nonneg};
use crate::geom::{max_int, min_int};

verus! {

/// Sum of channel `c` over the row segment `[x0, x1)` at row `y`.
pub open spec fn sum_row(v: ImgV, y: int, x0: int, x1: int, c: int) -> int
    decreases x1 - x0,
{
    if x1 <= x0 {
        0
    } else {
        sum_row(v, y, x0, x1 - 1, c) + v.chan(x1 - 1, y, c)
    }
}

/// Sum of channel `c` over the rectangle `[x0, x1) x [y0, y1)`.
pub open spec fn sum_rect(v: ImgV, x0: int, x1: int, y0: int, y1: int, c: int) -> int
    decreases y1 - y0,
{
    if y1 <= y0 {
        0
    } else {
        sum_rect(v, x0, x1, y0, y1 - 1, c) + sum_row(v, y1 - 1, x0, x1, c)
    }
}

/// The truncated mean of channel `c` over a rectangle.
pub open spec fn block_avg(v: ImgV, x0: int, x1: int, y0: int, y1: int, c: int) -> u8 {
    (sum_rect(v, x0, x1, y0, y1, c) / ((x1 - x0) * (y1 - y0))) as u8
}

/// The start of the block that holds coordinate `x`, for blocks of
/// side `bs` laid out from `x1`.
pub open spec fn blk(x1: int, bs: int, x: int) -> int {
    x1 + ((x - x1) / bs) * bs
}

pub open spec fn in_sq(x1: int, y1: int, x2: int, y2: int, x: int, y: int) -> bool {
    x1 <= x < x2 && y1 <= y < y2
}

/// Pixelating the square of radius `r` around `(cx, cy)`: inside the
/// clamped square every pixel takes its block's mean of the original
/// image; outside it nothing changes.
pub open spec fn pixelate_region_spec(v: ImgV, cx: int, cy: int, r: int, bs: int) -> ImgV {
    let x1 = max_int(cx - r, 0);
    let y1 = max_int(cy - r, 0);
    let x2 = min_int(cx + r, v.width);
    let y2 = min_int(cy + r, v.height);
    img_new(
        v.width,
        v.height,
        |x: int, y: int, c: int|
            if in_sq(x1, y1, x2, y2, x, y) {
                block_avg(
                    v,
                    blk(x1, bs, x),
                    min_int(blk(x1, bs, x) + bs, x2),
                    blk(y1, bs, y),
                    min_int(blk(y1, bs, y) + bs, y2),
                    c,
                )
            } else {
                v.chan(x, y, c)
            },
    )
}

/// Where the block of `x` starts when `x` lies inside an aligned
/// block that starts at `bx`.
proof fn lemma_blk_at(x1: int, bs: int, bx: int, x: int)
    by (nonlinear_arith)
    requires
        1 <= bs,
        x1 <= bx,
        (bx - x1) % bs == 0,
        bx <= x < bx + bs,
    ensures
        blk(x1, bs, x) == bx,
{
    assert(bx - x1 == ((bx - x1) / bs) * bs);
    assert(x - x1 == ((bx - x1) / bs) * bs + (x - bx));
    assert((x - x1) / bs == (bx - x1) / bs);
}

/// The block start lies between the layout base and the coordinate,
/// less than one block side behind it, and is itself aligned.
proof fn lemma_blk_props(x1: int, bs: int, x: int)
    by (nonlinear_arith)
    requires
        1 <= bs,
        x1 <= x,
    ensures
        x1 <= blk(x1, bs, x) <= x,
        x < blk(x1, bs, x) + bs,
        (blk(x1, bs, x) - x1) % bs == 0,
{
}

proof fn lemma_aligned_le_core(bs: int, qa: int, qb: int, da: int, db: int)
    by (nonlinear_arith)
    requires
        1 <= bs,
        da == bs * qa,
        db == bs * qb,
        da < db + bs,
    ensures
        da <= db,
{
}

/// Of two aligned block starts, one less than a block side past the
/// other is not past it at all.
proof fn lemma_aligned_le(x1: int, bs: int, a: int, b: int)
    requires
        1 <= bs,
        (a - x1) % bs == 0,
        (b - x1) % bs == 0,
        a < b + bs,
    ensures
        a <= b,
{
    vstd::arithmetic::div_mod::lemma_fundamental_div_mod(a - x1, bs);
    vstd::arithmetic::div_mod::lemma_fundamental_div_mod(b - x1, bs);
    lemma_aligned_le_core(bs, (a - x1) / bs, (b - x1) / bs, a - x1, b - x1);
}

/// Stepping a multiple of the block side by the block side stays a
/// multiple.
proof fn lemma_mod_step(d: int, bs: int)
    by (nonlinear_arith)
    requires
        1 <= bs,
        d % bs == 0,
        0 <= d,
    ensures
        (d + bs) % bs == 0,
{
}

/// The layout base itself is aligned.
proof fn lemma_mod_zero(bs: int)
    by (nonlinear_arith)
    requires
        1 <= bs,
    ensures
        0int % bs == 0,
{
}

/// A row sum of byte values is between 0 and 255 per column.
proof fn lemma_sum_row_bounds(v: ImgV, y: int, x0: int, x1: int, c: int)
    requires
        x0 <= x1,
    ensures
        0 <= sum_row(v, y, x0, x1, c) <= (x1 - x0) * 255,
    decreases x1 - x0,
{
    if x1 > x0 {
        lemma_sum_row_bounds(v, y, x0, x1 - 1, c);
    }
}

/// A rectangle sum of byte values is between 0 and 255 per pixel.
proof fn lemma_sum_rect_bounds(v: ImgV, x0: int, x1: int, y0: int, y1: int, c: int)
    requires
        x0 <= x1,
        y0 <= y1,
    ensures
        0 <= sum_rect(v, x0, x1, y0, y1, c) <= ((x1 - x0) * (y1 - y0)) * 255,
    decreases y1 - y0,
{
    if y1 > y0 {
        lemma_sum_rect_bounds(v, x0, x1, y0, y1 - 1, c);
        lemma_sum_row_bounds(v, y1 - 1, x0, x1, c);
        assert(((x1 - x0) * (y1 - y0)) * 255 == ((x1 - x0) * (y1 - y0 - 1)) * 255 + (x1 - x0)
            * 255) by (nonlinear_arith);
    }
}

/// A mean of byte values fits in a byte.
proof fn lemma_avg_byte(s: int, n: int)
    by (nonlinear_arith)
    requires
        1 <= n,
        0 <= s <= n * 255,
    ensures
        0 <= s / n <= 255,
{
}

/// A block area of 32-bit side lengths keeps its sums far from the
/// 128-bit limit.
proof fn lemma_small_area(aw: int, ah: int)
    by (nonlinear_arith)
    requires
        0 <= aw <= 0x100000000,
        0 <= ah <= 0x100000000,
    ensures
        0 <= (aw * ah) * 255 < 0x1000000000000000000000000,
        0 <= aw * ah <= 0x10000000000000000,
{
}

/// Which pixels have already taken their block mean while the block
/// sweep stands at column `bx`, row `by_`: all columns strictly
/// before `bx`, and in column `bx` all blocks strictly before `by_`.
pub open spec fn region_done(
    x1: int,
    y1: int,
    x2: int,
    y2: int,
    bs: int,
    bx: int,
    by_: int,
    x: int,
    y: int,
) -> bool {
    in_sq(x1, y1, x2, y2, x, y) && (blk(x1, bs, x) < bx || (blk(x1, bs, x) == bx && blk(
        y1,
        bs,
        y,
    ) < by_))
}

/// The in-place state during the block sweep: done pixels show the
/// target, all others still show the original.
pub open spec fn region_state(
    orig: ImgV,
    cur: ImgV,
    target: ImgV,
    x1: int,
    y1: int,
    x2: int,
    y2: int,
    bs: int,
    bx: int,
    by_: int,
) -> bool {
    &&& cur.wf()
    &&& cur.width == orig.width
    &&& cur.height == orig.height
    &&& forall|x: int, y: int, c: int|
        orig.in_bounds(x, y) && 0 <= c < 4 ==> #[trigger] cur.chan(x, y, c) == (if region_done(
            x1,
            y1,
            x2,
            y2,
            bs,
            bx,
            by_,
            x,
            y,
        ) {
            target.chan(x, y, c)
        } else {
            orig.chan(x, y, c)
        })
}

/// Pixelates the clamped square of radius `r` around `(cx, cy)` in
/// place: each block of side `bs` takes its truncated mean.
#[verifier::rlimit(100)]
pub fn pixelate_region(b: &mut PixelBuffer, cx: i64, cy: i64, r: i64, bs: u32)
    requires
        old(b).wf(),
        1 <= bs,
        0 <= r <= 0x100000000000000,
        -0x100000000000000 <= cx <= 0x100000000000000,
        -0x100000000000000 <= cy <= 0x100000000000000,
    ensures
        final(b).wf(),
        final(b)@ == pixelate_region_spec(old(b)@, cx as int, cy as int, r as int, bs as int),
{
    let ghost orig = b@;
    let ghost target = pixelate_region_spec(orig, cx as int, cy as int, r as int, bs as int);
    let w = b.width();
    let h = b.height();
    let wi: i64 = w as i64;
    let hi: i64 = h as i64;
    let x1: i64 = if cx - r > 0 {
        cx - r
    } else {
        0
    };
    let y1: i64 = if cy - r > 0 {
        cy - r
    } else {
        0
    };
    let x2: i64 = if cx + r < wi {
        cx + r
    } else {
        wi
    };
    let y2: i64 = if cy + r < hi {
        cy + r
    } else {
        hi
    };
    proof {
        lemma_dims_nonneg(orig.width, orig.height);
        assert(target.wf());
        assert(target.width == orig.width && target.height == orig.height);
    }
    if x1 >= x2 || y1 >= y2 {
        proof {
            assert forall|x: int, y: int, c: int|
                orig.in_bounds(x, y) && 0 <= c < 4 implies #[trigger] target.chan(x, y, c)
                == orig.chan(x, y, c) by {
                lemma_chan_index(orig.width, orig.height, x, y, c);
            }
            lemma_img_eq(b@, target);
        }
        return ;
    }
    let bsi: i64 = bs as i64;
    let mut bx: i64 = x1;
    proof {
        lemma_mod_zero(bs as int);
        assert(region_state(
            orig,
            b@,
            target,
            x1 as int,
            y1 as int,
            x2 as int,
            y2 as int,
            bs as int,
            bx as int,
            y1 as int,
        ));
    }
    while bx < x2
        invariant
            b.wf(),
            b@.width == orig.width,
            b@.height == orig.height,
            orig.wf(),
            target == pixelate_region_spec(orig, cx as int, cy as int, r as int, bs as int),
            target.wf(),
            target.width == orig.width,
            target.height == orig.height,
            1 <= bs,
            bsi == bs as int,
            wi == w as int,
            hi == h as int,
            w as int == orig.width,
            h as int == orig.height,
            x1 as int == max_int(cx as int - r as int, 0),
            y1 as int == max_int(cy as int - r as int, 0),
            x2 as int == min_int(cx as int + r as int, orig.width),
            y2 as int == min_int(cy as int + r as int, orig.height),
            0 <= x1 < x2 <= wi,
            0 <= y1 < y2 <= hi,
            x1 <= bx,
            (bx as int - x1 as int) % (bs as int) == 0,
            bx <= x2 + bsi,
            region_state(
                orig,
                b@,
                target,
                x1 as int,
                y1 as int,
                x2 as int,
                y2 as int,
                bs as int,
                bx as int,
                y1 as int,
            ),
        decreases x2 + bsi - bx,
    {
        let bx2: i64 = if bx + bsi < x2 {
            bx + bsi
        } else {
            x2
        };
        let mut by_: i64 = y1;
        proof {
            lemma_mod_zero(bs as int);
        }
        while by_ < y2
            invariant
                b.wf(),
                b@.width == orig.width,
                b@.height == orig.height,
                orig.wf(),
                target == pixelate_region_spec(orig, cx as int, cy as int, r as int, bs as int),
                target.wf(),
                target.width == orig.width,
                target.height == orig.height,
                1 <= bs,
                bsi == bs as int,
                wi == w as int,
                hi == h as int,
                w as int == orig.width,
                h as int == orig.height,
                x1 as int == max_int(cx as int - r as int, 0),
                y1 as int == max_int(cy as int - r as int, 0),
                x2 as int == min_int(cx as int + r as int, orig.width),
                y2 as int == min_int(cy as int + r as int, orig.height),
                0 <= x1 < x2 <= wi,
                0 <= y1 < y2 <= hi,
                x1 <= bx < x2,
                (bx as int - x1 as int) % (bs as int) == 0,
                bx2 as int == min_int(bx as int + bs as int, x2 as int),
                bx < bx2 <= x2,
                y1 <= by_,
                (by_ as int - y1 as int) % (bs as int) == 0,
                by_ <= y2 + bsi,
                region_state(
                    orig,
                    b@,
                    target,
                    x1 as int,
                    y1 as int,
                    x2 as int,
                    y2 as int,
                    bs as int,
                    bx as int,
                    by_ as int,
                ),
            decreases y2 + bsi - by_,
        {
            let by2: i64 = if by_ + bsi < y2 {
                by_ + bsi
            } else {
                y2
            };
            // the block's pixels still hold the original samples
            proof {
                assert forall|x: int, y: int, c: int|
                    bx as int <= x < bx2 as int && by_ as int <= y < by2 as int && 0 <= c
                    < 4 implies #[trigger] b@.chan(x, y, c) == orig.chan(x, y, c) by {
                    lemma_blk_at(x1 as int, bs as int, bx as int, x);
                    lemma_blk_at(y1 as int, bs as int, by_ as int, y);
                }
            }
            let mut s0: u128 = 0;
            let mut s1: u128 = 0;
            let mut s2: u128 = 0;
            let mut s3: u128 = 0;
            let mut py: i64 = by_;
            while py < by2
                invariant
                    b.wf(),
                    b@.width == orig.width,
                    b@.height == orig.height,
                    orig.wf(),
                    w as int == orig.width,
                    h as int == orig.height,
                    0 <= x1,
                    0 <= y1,
                    x1 <= bx < bx2 <= x2 <= wi,
                    y1 <= by_ <= py <= by2 <= y2 <= hi,
                    wi == w as int,
                    hi == h as int,
                    bx2 - bx <= bs,
                    by2 - by_ <= bs,
                    forall|x: int, y: int, c: int|
                        bx as int <= x < bx2 as int && by_ as int <= y < by2 as int && 0 <= c < 4
                            ==> #[trigger] b@.chan(x, y, c) == orig.chan(x, y, c),
                    s0 == sum_rect(orig, bx as int, bx2 as int, by_ as int, py as int, 0),
                    s1 == sum_rect(orig, bx as int, bx2 as int, by_ as int, py as int, 1),
                    s2 == sum_rect(orig, bx as int, bx2 as int, by_ as int, py as int, 2),
                    s3 == sum_rect(orig, bx as int, bx2 as int, by_ as int, py as int, 3),
                decreases by2 - py,
            {
                let mut px: i64 = bx;
                while px < bx2
                    invariant
                        b.wf(),
                        b@.width == orig.width,
                        b@.height == orig.height,
                        orig.wf(),
                        w as int == orig.width,
                        h as int == orig.height,
                        0 <= x1,
                        0 <= y1,
                        x1 <= bx <= px <= bx2 <= x2 <= wi,
                        y1 <= by_ <= py < by2 <= y2 <= hi,
                        wi == w as int,
                        hi == h as int,
                        bx2 - bx <= bs,
                        by2 - by_ <= bs,
                        forall|x: int, y: int, c: int|
                            bx as int <= x < bx2 as int && by_ as int <= y < by2 as int && 0 <= c
                                < 4 ==> #[trigger] b@.chan(x, y, c) == orig.chan(x, y, c),
                        s0 == sum_rect(orig, bx as int, bx2 as int, by_ as int, py as int, 0)
                            + sum_row(orig, py as int, bx as int, px as int, 0),
                        s1 == sum_rect(orig, bx as int, bx2 as int, by_ as int, py as int, 1)
                            + sum_row(orig, py as int, bx as int, px as int, 1),
                        s2 == sum_rect(orig, bx as int, bx2 as int, by_ as int, py as int, 2)
                            + sum_row(orig, py as int, bx as int, px as int, 2),
                        s3 == sum_rect(orig, bx as int, bx2 as int, by_ as int, py as int, 3)
                            + sum_row(orig, py as int, bx as int, px as int, 3),
                    decreases bx2 - px,
                {
                    proof {
                        lemma_sum_rect_bounds(
                            orig,
                            bx as int,
                            bx2 as int,
                            by_ as int,
                            py as int,
                            0,
                        );
                        lemma_sum_rect_bounds(
                            orig,
                            bx as int,
                            bx2 as int,
                            by_ as int,
                            py as int,
                            1,
                        );
                        lemma_sum_rect_bounds(
                            orig,
                            bx as int,
                            bx2 as int,
                            by_ as int,
                            py as int,
                            2,
                        );
                        lemma_sum_rect_bounds(
                            orig,
                            bx as int,
                            bx2 as int,
                            by_ as int,
                            py as int,
                            3,
                        );
                        lemma_sum_row_bounds(orig, py as int, bx as int, px as int, 0);
                        lemma_sum_row_bounds(orig, py as int, bx as int, px as int, 1);
                        lemma_sum_row_bounds(orig, py as int, bx as int, px as int, 2);
                        lemma_sum_row_bounds(orig, py as int, bx as int, px as int, 3);
                        lemma_small_area(bx2 as int - bx as int, py as int - by_ as int);
                        lemma_small_area(px as int - bx as int, 1);
                    }
                    let p = b.get_pixel(px as u32, py as u32);
                    s0 = s0 + p.0 as u128;
                    s1 = s1 + p.1 as u128;
                    s2 = s2 + p.2 as u128;
                    s3 = s3 + p.3 as u128;
                    px = px + 1;
                }
                py = py + 1;
            }
            let aw: u128 = (bx2 - bx) as u128;
            let ah: u128 = (by2 - by_) as u128;
            proof {
                lemma_small_area(aw as int, ah as int);
            }
            let count: u128 = aw * ah;
            proof {
                assert(1 <= count) by (nonlinear_arith)
                    requires
                        count == aw as int * ah as int,
                        1 <= aw,
                        1 <= ah,
                ;
                lemma_sum_rect_bounds(orig, bx as int, bx2 as int, by_ as int, by2 as int, 0);
                lemma_sum_rect_bounds(orig, bx as int, bx2 as int, by_ as int, by2 as int, 1);
                lemma_sum_rect_bounds(orig, bx as int, bx2 as int, by_ as int, by2 as int, 2);
                lemma_sum_rect_bounds(orig, bx as int, bx2 as int, by_ as int, by2 as int, 3);
                lemma_avg_byte(s0 as int, count as int);
                lemma_avg_byte(s1 as int, count as int);
                lemma_avg_byte(s2 as int, count as int);
                lemma_avg_byte(s3 as int, count as int);
            }
            let avg = (
                ((s0 / count) as u8),
                ((s1 / count) as u8),
                ((s2 / count) as u8),
                ((s3 / count) as u8),
            );
            // what the block's pixels look like in the target
            proof {
                assert forall|x: int, y: int, c: int|
                    bx as int <= x < bx2 as int && by_ as int <= y < by2 as int && 0 <= c
                    < 4 implies #[trigger] target.chan(x, y, c) == block_avg(
                    orig,
                    bx as int,
                    bx2 as int,
                    by_ as int,
                    by2 as int,
                    c,
                ) by {
                    lemma_chan_index(orig.width, orig.height, x, y, c);
                    lemma_blk_at(x1 as int, bs as int, bx as int, x);
                    lemma_blk_at(y1 as int, bs as int, by_ as int, y);
                }
                assert(avg.0 == block_avg(orig, bx as int, bx2 as int, by_ as int, by2 as int, 0));
                assert(avg.1 == block_avg(orig, bx as int, bx2 as int, by_ as int, by2 as int, 1));
                assert(avg.2 == block_avg(orig, bx as int, bx2 as int, by_ as int, by2 as int, 2));
                assert(avg.3 == block_avg(orig, bx as int, bx2 as int, by_ as int, by2 as int, 3));
            }
            let mut py: i64 = by_;
            while py < by2
                invariant
                    b.wf(),
                    b@.width == orig.width,
                    b@.height == orig.height,
                    orig.wf(),
                    target.wf(),
                    target.width == orig.width,
                    target.height == orig.height,
                    w as int == orig.width,
                    h as int == orig.height,
                    wi == w as int,
                    hi == h as int,
                    0 <= x1,
                    0 <= y1,
                    x1 <= bx < bx2 <= x2 <= wi,
                    y1 <= by_ <= py <= by2 <= y2 <= hi,
                    forall|x: int, y: int, c: int|
                        bx as int <= x < bx2 as int && by_ as int <= y < by2 as int && 0 <= c < 4
                            ==> #[trigger] target.chan(x, y, c) == block_avg(
                            orig,
                            bx as int,
                            bx2 as int,
                            by_ as int,
                            by2 as int,
                            c,
                        ),
                    avg.0 == block_avg(orig, bx as int, bx2 as int, by_ as int, by2 as int, 0),
                    avg.1 == block_avg(orig, bx as int, bx2 as int, by_ as int, by2 as int, 1),
                    avg.2 == block_avg(orig, bx as int, bx2 as int, by_ as int, by2 as int, 2),
                    avg.3 == block_avg(orig, bx as int, bx2 as int, by_ as int, by2 as int, 3),
                    forall|x: int, y: int, c: int|
                        orig.in_bounds(x, y) && 0 <= c < 4 ==> #[trigger] b@.chan(x, y, c) == (
                        if region_done(
                            x1 as int,
                            y1 as int,
                            x2 as int,
                            y2 as int,
                            bs as int,
                            bx as int,
                            by_ as int,
                            x,
                            y,
                        ) || (bx as int <= x < bx2 as int && by_ as int <= y && (y < py as int)) {
                            target.chan(x, y, c)
                        } else {
                            orig.chan(x, y, c)
                        }),
                decreases by2 - py,
            {
                let mut px: i64 = bx;
                while px < bx2
                    invariant
                        b.wf(),
                        b@.width == orig.width,
                        b@.height == orig.height,
                        orig.wf(),
                        target.wf(),
                        target.width == orig.width,
                        target.height == orig.height,
                        w as int == orig.width,
                        h as int == orig.height,
                        wi == w as int,
                        hi == h as int,
                        0 <= x1,
                        0 <= y1,
                        x1 <= bx <= px <= bx2 <= x2 <= wi,
                        y1 <= by_ <= py < by2 <= y2 <= hi,
                        forall|x: int, y: int, c: int|
                            bx as int <= x < bx2 as int && by_ as int <= y < by2 as int && 0 <= c
                                < 4 ==> #[trigger] target.chan(x, y, c) == block_avg(
                                orig,
                                bx as int,
                                bx2 as int,
                                by_ as int,
                                by2 as int,
                                c,
                            ),
                        avg.0 == block_avg(orig, bx as int, bx2 as int, by_ as int, by2 as int, 0),
                        avg.1 == block_avg(orig, bx as int, bx2 as int, by_ as int, by2 as int, 1),
                        avg.2 == block_avg(orig, bx as int, bx2 as int, by_ as int, by2 as int, 2),
                        avg.3 == block_avg(orig, bx as int, bx2 as int, by_ as int, by2 as int, 3),
                        forall|x: int, y: int, c: int|
                            orig.in_bounds(x, y) && 0 <= c < 4 ==> #[trigger] b@.chan(x, y, c) == (
                            if region_done(
                                x1 as int,
                                y1 as int,
                                x2 as int,
                                y2 as int,
                                bs as int,
                                bx as int,
                                by_ as int,
                                x,
                                y,
                            ) || (bx as int <= x < bx2 as int && by_ as int <= y && (y < py as int
                                || (y == py as int && x < px as int))) {
                                target.chan(x, y, c)
                            } else {
                                orig.chan(x, y, c)
                            }),
                    decreases bx2 - px,
                {
                    let ghost prev = b@;
                    b.set_pixel(px as u32, py as u32, avg);
                    proof {
                        lemma_with_pixel_chan(prev, px as int, py as int, avg);
                        assert forall|x: int, y: int, c: int|
                            orig.in_bounds(x, y) && 0 <= c < 4 implies #[trigger] b@.chan(x, y, c)
                            == (if region_done(
                            x1 as int,
                            y1 as int,
                            x2 as int,
                            y2 as int,
                            bs as int,
                            bx as int,
                            by_ as int,
                            x,
                            y,
                        ) || (bx as int <= x < bx2 as int && by_ as int <= y && (y < py as int || (
                        y == py as int && x < px as int + 1))) {
                            target.chan(x, y, c)
                        } else {
                            orig.chan(x, y, c)
                        }) by {
                            if x == px as int && y == py as int {
                            } else {
                            }
                        }
                    }
                    px = px + 1;
                }
                py = py + 1;
            }
            // the whole block is written: the sweep may move one row
            // of blocks down
            proof {
                assert forall|x: int, y: int, c: int|
                    orig.in_bounds(x, y) && 0 <= c < 4 implies #[trigger] b@.chan(x, y, c) == (
                if region_done(
                    x1 as int,
                    y1 as int,
                    x2 as int,
                    y2 as int,
                    bs as int,
                    bx as int,
                    by_ as int + bs as int,
                    x,
                    y,
                ) {
                    target.chan(x, y, c)
                } else {
                    orig.chan(x, y, c)
                }) by {
                    if in_sq(x1 as int, y1 as int, x2 as int, y2 as int, x, y) {
                        lemma_blk_props(x1 as int, bs as int, x);
                        lemma_blk_props(y1 as int, bs as int, y);
                        if bx as int <= x < bx2 as int && by_ as int <= y < by2 as int {
                            lemma_blk_at(x1 as int, bs as int, bx as int, x);
                            lemma_blk_at(y1 as int, bs as int, by_ as int, y);
                        }
                        if blk(x1 as int, bs as int, x) == bx as int && blk(y1 as int, bs as int, y)
                            < by_ as int + bs as int {
                            lemma_aligned_le(
                                y1 as int,
                                bs as int,
                                blk(y1 as int, bs as int, y),
                                by_ as int,
                            );
                        }
                    }
                }
            }
            proof {
                lemma_mod_step(by_ as int - y1 as int, bs as int);
            }
            by_ = by_ + bsi;
        }
        // the whole column of blocks is done: the sweep may move one
        // column right
        proof {
            assert forall|x: int, y: int, c: int|
                orig.in_bounds(x, y) && 0 <= c < 4 implies #[trigger] b@.chan(x, y, c) == (
            if region_done(
                x1 as int,
                y1 as int,
                x2 as int,
                y2 as int,
                bs as int,
                bx as int + bs as int,
                y1 as int,
                x,
                y,
            ) {
                target.chan(x, y, c)
            } else {
                orig.chan(x, y, c)
            }) by {
                if in_sq(x1 as int, y1 as int, x2 as int, y2 as int, x, y) {
                    lemma_blk_props(x1 as int, bs as int, x);
                    lemma_blk_props(y1 as int, bs as int, y);
                    if blk(x1 as int, bs as int, x) < bx as int + bs as int {
                        lemma_aligned_le(
                            x1 as int,
                            bs as int,
                            blk(x1 as int, bs as int, x),
                            bx as int,
                        );
                    }
                }
            }
        }
        proof {
            lemma_mod_step(bx as int - x1 as int, bs as int);
        }
        bx = bx + bsi;
    }
    // every square pixel is done; outside the square nothing moved
    proof {
        assert forall|x: int, y: int, c: int|
            orig.in_bounds(x, y) && 0 <= c < 4 implies #[trigger] b@.chan(x, y, c)
            == #[trigger] target.chan(x, y, c) by {
            lemma_chan_index(orig.width, orig.height, x, y, c);
            if in_sq(x1 as int, y1 as int, x2 as int, y2 as int, x, y) {
                lemma_blk_props(x1 as int, bs as int, x);
                lemma_blk_props(y1 as int, bs as int, y);
            }
        }
        lemma_img_eq(b@, target);
    }
}

/// A freeform stroke: sampled points in normalized coordinates
/// (thousandths of width and height) and a radius in thousandths of
/// the larger image dimension.
pub struct PixelateStroke {
    pub points: Vec<(u32, u32)>,
    pub radius: u32,
}

pub ghost struct StrokeV {
    pub points: Seq<(u32, u32)>,
    pub radius: u32,
}

impl View for PixelateStroke {
    type V = StrokeV;

    open spec fn view(&self) -> StrokeV {
        StrokeV { points: self.points@, radius: self.radius }
    }
}

pub open spec fn strokes_views(s: Seq<PixelateStroke>) -> Seq<StrokeV> {
    s.map_values(|t: PixelateStroke| t@)
}

/// The pixel the normalized coordinate `p` (in thousandths) lands on
/// along an axis of length `d`, truncating.
pub open spec fn norm_px(d: int, p: int) -> int {
    p * d / 1000
}

/// The pixel radius of a normalized radius: thousandths of the
/// larger dimension, rounded half up.
pub open spec fn radius_px(w: int, h: int, radius_pm: int) -> int {
    (radius_pm * max_int(w, h) + 500) / 1000
}

/// One sampled stroke point pixelates its square region.
pub open spec fn apply_point_spec(v: ImgV, p: (u32, u32), radius_pm: int, bs: int) -> ImgV {
    pixelate_region_spec(
        v,
        norm_px(v.width, p.0 as int),
        norm_px(v.height, p.1 as int),
        radius_px(v.width, v.height, radius_pm),
        bs,
    )
}

/// A stroke's points applied in input order; later points see the
/// buffer as earlier points left it.
pub open spec fn apply_points_spec(v: ImgV, pts: Seq<(u32, u32)>, radius_pm: int, bs: int) -> ImgV
    decreases pts.len(),
{
    if pts.len() == 0 {
        v
    } else {
        apply_point_spec(apply_points_spec(v, pts.drop_last(), radius_pm, bs), pts.last(), radius_pm, bs)
    }
}

/// All strokes applied in input order.
pub open spec fn apply_strokes_spec(v: ImgV, strokes: Seq<StrokeV>, bs: int) -> ImgV
    decreases strokes.len(),
{
    if strokes.len() == 0 {
        v
    } else {
        apply_points_spec(
            apply_strokes_spec(v, strokes.drop_last(), bs),
            strokes.last().points,
            strokes.last().radius as int,
            bs,
        )
    }
}

/// Pixelating a region keeps the dimensions and the invariant.
pub proof fn lemma_pixelate_region_dims(v: ImgV, cx: int, cy: int, r: int, bs: int)
    requires
        v.wf(),
    ensures
        pixelate_region_spec(v, cx, cy, r, bs).wf(),
        pixelate_region_spec(v, cx, cy, r, bs).width == v.width,
        pixelate_region_spec(v, cx, cy, r, bs).height == v.height,
{
    lemma_dims_nonneg(v.width, v.height);
}

/// A point pass keeps the dimensions and the invariant.
pub proof fn lemma_apply_points_dims(v: ImgV, pts: Seq<(u32, u32)>, radius_pm: int, bs: int)
    requires
        v.wf(),
    ensures
        apply_points_spec(v, pts, radius_pm, bs).wf(),
        apply_points_spec(v, pts, radius_pm, bs).width == v.width,
        apply_points_spec(v, pts, radius_pm, bs).height == v.height,
    decreases pts.len(),
{
    if pts.len() > 0 {
        lemma_apply_points_dims(v, pts.drop_last(), radius_pm, bs);
        let prev = apply_points_spec(v, pts.drop_last(), radius_pm, bs);
        lemma_pixelate_region_dims(
            prev,
            norm_px(prev.width, pts.last().0 as int),
            norm_px(prev.height, pts.last().1 as int),
            radius_px(prev.width, prev.height, radius_pm),
            bs,
        );
    }
}

/// A stroke pass keeps the dimensions and the invariant.
pub proof fn lemma_apply_strokes_dims(v: ImgV, strokes: Seq<StrokeV>, bs: int)
    requires
        v.wf(),
    ensures
        apply_strokes_spec(v, strokes, bs).wf(),
        apply_strokes_spec(v, strokes, bs).width == v.width,
        apply_strokes_spec(v, strokes, bs).height == v.height,
    decreases strokes.len(),
{
    if strokes.len() > 0 {
        lemma_apply_strokes_dims(v, strokes.drop_last(), bs);
        lemma_apply_points_dims(
            apply_strokes_spec(v, strokes.drop_last(), bs),
            strokes.last().points,
            strokes.last().radius as int,
            bs,
        );
    }
}

/// Applies every stroke, point by point, in input order. The block
/// size is forced to at least 4.
pub fn apply_strokes(b: &mut PixelBuffer, strokes: &Vec<PixelateStroke>, block_size: u32)
    requires
        old(b).wf(),
    ensures
        final(b).wf(),
        final(b)@ == apply_strokes_spec(
            old(b)@,
            strokes_views(strokes@),
            max_int(block_size as int, 4),
        ),
{
    let ghost orig = b@;
    let ghost views = strokes_views(strokes@);
    let bs: u32 = if block_size >= 4 {
        block_size
    } else {
        4
    };
    let w = b.width();
    let h = b.height();
    let m: u32 = if w >= h {
        w
    } else {
        h
    };
    let mut i: usize = 0;
    while i < strokes.len()
        invariant
            b.wf(),
            orig.wf(),
            b@.width == orig.width,
            b@.height == orig.height,
            w as int == orig.width,
            h as int == orig.height,
            m as int == max_int(orig.width, orig.height),
            bs as int == max_int(block_size as int, 4),
            1 <= bs,
            views == strokes_views(strokes@),
            views.len() == strokes@.len(),
            i <= strokes@.len(),
            b@ == apply_strokes_spec(orig, views.subrange(0, i as int), bs as int),
        decreases strokes@.len() - i,
    {
        let stroke = &strokes[i];
        let ghost start = b@;
        let radius = stroke.radius;
        let mut j: usize = 0;
        while j < stroke.points.len()
            invariant
                b.wf(),
                orig.wf(),
                start.wf(),
                b@.width == orig.width,
                b@.height == orig.height,
                start.width == orig.width,
                start.height == orig.height,
                w as int == orig.width,
                h as int == orig.height,
                m as int == max_int(orig.width, orig.height),
                bs as int == max_int(block_size as int, 4),
                1 <= bs,
                i < strokes@.len(),
                stroke == strokes@[i as int],
                radius == stroke.radius,
                j <= stroke.points@.len(),
                b@ == apply_points_spec(
                    start,
                    stroke.points@.subrange(0, j as int),
                    radius as int,
                    bs as int,
                ),
            decreases stroke.points@.len() - j,
        {
            let p = stroke.points[j];
            proof {
                crate::geom::lemma_mul_u32_fits_u64(p.0 as int, w as int);
                crate::geom::lemma_mul_u32_fits_u64(p.1 as int, h as int);
                crate::geom::lemma_mul_u32_fits_u64(radius as int, m as int);
            }
            let cx: i64 = ((p.0 as u64 * w as u64) / 1000) as i64;
            let cy: i64 = ((p.1 as u64 * h as u64) / 1000) as i64;
            let r: i64 = ((radius as u64 * m as u64 + 500) / 1000) as i64;
            let ghost before = b@;
            pixelate_region(b, cx, cy, r, bs);
            proof {
                assert(b@ == apply_point_spec(before, p, radius as int, bs as int));
                assert(stroke.points@.subrange(0, j as int + 1).drop_last() =~= stroke.points@
                    .subrange(0, j as int));
                assert(stroke.points@.subrange(0, j as int + 1).last() == p);
                lemma_pixelate_region_dims(
                    before,
                    cx as int,
                    cy as int,
                    r as int,
                    bs as int,
                );
            }
            j = j + 1;
        }
        proof {
            assert(stroke.points@.subrange(0, stroke.points@.len() as int) =~= stroke.points@);
            assert(views.subrange(0, i as int + 1).drop_last() =~= views.subrange(0, i as int));
            assert(views.subrange(0, i as int + 1).last() == views[i as int]);
            assert(views[i as int] == strokes@[i as int]@);
        }
        i = i + 1;
    }
    proof {
        assert(views.subrange(0, views.len() as int) =~= views);
    }
}

/// Channel `c` of a constant pixel value.
pub open spec fn px_chan(p: (u8, u8, u8, u8), c: int) -> u8 {
    if c == 0 {
        p.0
    } else if c == 1 {
        p.1
    } else if c == 2 {
        p.2
    } else {
        p.3
    }
}

proof fn lemma_sum_row_uniform(v: ImgV, y: int, x0: int, x1: int, c: int, val: u8)
    requires
        x0 <= x1,
        forall|x: int| x0 <= x < x1 ==> #[trigger] v.chan(x, y, c) == val,
    ensures
        sum_row(v, y, x0, x1, c) == (x1 - x0) * val,
    decreases x1 - x0,
{
    if x1 > x0 {
        lemma_sum_row_uniform(v, y, x0, x1 - 1, c, val);
        assert((x1 - x0) * val == (x1 - 1 - x0) * val + val) by (nonlinear_arith);
    } else {
        assert((x1 - x0) * val == 0) by (nonlinear_arith)
            requires
                x1 == x0,
        ;
    }
}

proof fn lemma_sum_rect_uniform(v: ImgV, x0: int, x1: int, y0: int, y1: int, c: int, val: u8)
    requires
        x0 <= x1,
        y0 <= y1,
        forall|x: int, y: int| x0 <= x < x1 && y0 <= y < y1 ==> #[trigger] v.chan(x, y, c) == val,
    ensures
        sum_rect(v, x0, x1, y0, y1, c) == ((x1 - x0) * (y1 - y0)) * val,
    decreases y1 - y0,
{
    if y1 > y0 {
        lemma_sum_rect_uniform(v, x0, x1, y0, y1 - 1, c, val);
        lemma_sum_row_uniform(v, y1 - 1, x0, x1, c, val);
        assert(((x1 - x0) * (y1 - y0)) * val == ((x1 - x0) * (y1 - y0 - 1)) * val + (x1 - x0)
            * val) by (nonlinear_arith);
    } else {
        assert(((x1 - x0) * (y1 - y0)) * val == 0) by (nonlinear_arith)
            requires
                y1 == y0,
        ;
    }
}

proof fn lemma_const_mean(n: int, val: u8)
    by (nonlinear_arith)
    requires
        1 <= n,
    ensures
        (n * val) / n == val,
{
}

/// Pixelation leaves a uniform image unchanged: the mean of
/// identical samples is that sample.
pub proof fn lemma_pixelate_uniform(v: ImgV, cx: int, cy: int, r: int, bs: int, p: (u8, u8, u8, u8))
    requires
        v.wf(),
        1 <= bs,
        forall|x: int, y: int, c: int|
            v.in_bounds(x, y) && 0 <= c < 4 ==> #[trigger] v.chan(x, y, c) == px_chan(p, c),
    ensures
        pixelate_region_spec(v, cx, cy, r, bs) == v,
{
    let t = pixelate_region_spec(v, cx, cy, r, bs);
    let x1 = max_int(cx - r, 0);
    let y1 = max_int(cy - r, 0);
    let x2 = min_int(cx + r, v.width);
    let y2 = min_int(cy + r, v.height);
    lemma_dims_nonneg(v.width, v.height);
    assert forall|x: int, y: int, c: int|
        v.in_bounds(x, y) && 0 <= c < 4 implies #[trigger] t.chan(x, y, c) == #[trigger] v.chan(
        x,
        y,
        c,
    ) by {
        lemma_chan_index(v.width, v.height, x, y, c);
        if in_sq(x1, y1, x2, y2, x, y) {
            lemma_blk_props(x1, bs, x);
            lemma_blk_props(y1, bs, y);
            let b0x = blk(x1, bs, x);
            let b1x = min_int(b0x + bs, x2);
            let b0y = blk(y1, bs, y);
            let b1y = min_int(b0y + bs, y2);
            lemma_sum_rect_uniform(v, b0x, b1x, b0y, b1y, c, px_chan(p, c));
            assert(1 <= (b1x - b0x) * (b1y - b0y)) by (nonlinear_arith)
                requires
                    1 <= b1x - b0x,
                    1 <= b1y - b0y,
            ;
            lemma_const_mean((b1x - b0x) * (b1y - b0y), px_chan(p, c));
        }
    }
    lemma_img_eq(t, v);
}

} // verus!
