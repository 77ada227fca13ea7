//! The pixel-buffer data model: an owned RGBA raster with explicit
//! width and height and row-major sample storage, together with its
//! mathematical view `ImgV` and the lemmas that connect byte indices
//! to pixel coordinates.

use vstd::prelude::*;

verus! {

/// Mathematical model of an RGBA raster: `data` holds the samples in
/// row-major order, four bytes (R, G, B, A) per pixel.
pub ghost struct ImgV {
    pub width: int,
    pub height: int,
    pub data: Seq<u8>,
}

impl ImgV {
    /// The buffer invariant: exactly four bytes per pixel.
    pub open spec fn wf(self) -> bool {
        &&& 0 <= self.width
        &&& 0 <= self.height
        &&& self.data.len() == 4 * (self.width * self.height)
    }

    /// Channel `c` (0=R, 1=G, 2=B, 3=A) of the pixel at `(x, y)`.
    pub open spec fn chan(self, x: int, y: int, c: int) -> u8 {
        self.data[4 * (y * self.width + x) + c]
    }

    pub open spec fn in_bounds(self, x: int, y: int) -> bool {
        0 <= x < self.width && 0 <= y < self.height
    }

    /// The image with the pixel at `(x, y)` replaced by `p`.
    pub open spec fn with_pixel(self, x: int, y: int, p: (u8, u8, u8, u8)) -> ImgV {
        let i = 4 * (y * self.width + x);
        ImgV {
            width: self.width,
            height: self.height,
            data: self.data.update(i, p.0).update(i + 1, p.1).update(i + 2, p.2).update(
                i + 3,
                p.3,
            ),
        }
    }
}

/// The image of width `w` and height `h` whose channel `c` at `(x, y)`
/// is `f(x, y, c)`.
pub open spec fn img_new(w: int, h: int, f: spec_fn(int, int, int) -> u8) -> ImgV {
    ImgV {
        width: w,
        height: h,
        data: Seq::new((4 * (w * h)) as nat, |i: int| f((i / 4) % w, (i / 4) / w, i % 4)),
    }
}

/// How the flat byte index of channel `c` of pixel `(x, y)` decomposes
/// under division and remainder.
pub proof fn lemma_chan_index(w: int, h: int, x: int, y: int, c: int)
    by (nonlinear_arith)
    requires
        0 <= x < w,
        0 <= y < h,
        0 <= c < 4,
    ensures
        0 <= y * w + x < w * h,
        0 <= 4 * (y * w + x) + c < 4 * (w * h),
        (4 * (y * w + x) + c) / 4 == y * w + x,
        (4 * (y * w + x) + c) % 4 == c,
        (y * w + x) / w == y,
        (y * w + x) % w == x,
{
}

/// The reverse direction: every flat byte index below `4 * w * h` is
/// the index of some in-bounds channel.
pub proof fn lemma_index_decomp(w: int, h: int, i: int)
    by (nonlinear_arith)
    requires
        0 < w,
        0 <= h,
        0 <= i < 4 * (w * h),
    ensures
        0 <= i % 4 < 4,
        0 <= (i / 4) % w < w,
        0 <= (i / 4) / w < h,
        i == 4 * (((i / 4) / w) * w + (i / 4) % w) + i % 4,
{
}

/// The sample count of a raster is never negative.
pub proof fn lemma_dims_nonneg(w: int, h: int)
    by (nonlinear_arith)
    requires
        0 <= w,
        0 <= h,
    ensures
        0 <= w * h,
{
}

/// Reading a channel of `img_new(w, h, f)` gives back `f`.
pub proof fn lemma_img_new_chan(w: int, h: int, f: spec_fn(int, int, int) -> u8)
    requires
        0 <= w,
        0 <= h,
    ensures
        img_new(w, h, f).wf(),
        img_new(w, h, f).width == w,
        img_new(w, h, f).height == h,
        forall|x: int, y: int, c: int|
            0 <= x < w && 0 <= y < h && 0 <= c < 4 ==> #[trigger] img_new(w, h, f).chan(x, y, c)
                == f(x, y, c),
{
    assert(0 <= w * h) by (nonlinear_arith)
        requires
            0 <= w,
            0 <= h,
    ;
    assert forall|x: int, y: int, c: int|
        0 <= x < w && 0 <= y < h && 0 <= c < 4 implies #[trigger] img_new(w, h, f).chan(x, y, c)
        == f(x, y, c) by {
        lemma_chan_index(w, h, x, y, c);
    }
}

/// Two well-formed images with the same dimensions and the same
/// channel values everywhere are equal.
pub proof fn lemma_img_eq(a: ImgV, b: ImgV)
    requires
        a.wf(),
        b.wf(),
        a.width == b.width,
        a.height == b.height,
        forall|x: int, y: int, c: int|
            a.in_bounds(x, y) && 0 <= c < 4 ==> #[trigger] a.chan(x, y, c) == #[trigger] b.chan(
                x,
                y,
                c,
            ),
    ensures
        a == b,
{
    if a.width == 0 || a.height == 0 {
        assert(4 * (a.width * a.height) == 0) by (nonlinear_arith)
            requires
                0 <= a.width,
                0 <= a.height,
                a.width == 0 || a.height == 0,
        ;
        assert(a.data =~= b.data);
    } else {
        assert forall|i: int| 0 <= i < a.data.len() implies a.data[i] == b.data[i] by {
            lemma_index_decomp(a.width, a.height, i);
            let x = (i / 4) % a.width;
            let y = (i / 4) / a.width;
            let c = i % 4;
            assert(a.chan(x, y, c) == b.chan(x, y, c));
        }
        assert(a.data =~= b.data);
    }
}

/// Distinct in-bounds pixels occupy distinct four-byte slots.
pub proof fn lemma_pix_distinct(w: int, h: int, x1: int, y1: int, x2: int, y2: int)
    by (nonlinear_arith)
    requires
        0 <= x1 < w,
        0 <= y1 < h,
        0 <= x2 < w,
        0 <= y2 < h,
        (x1, y1) != (x2, y2),
    ensures
        y1 * w + x1 != y2 * w + x2,
{
}

/// How `with_pixel` changes the channels: the named pixel takes the
/// new components, every other pixel keeps its old value.
pub proof fn lemma_with_pixel_chan(v: ImgV, x: int, y: int, p: (u8, u8, u8, u8))
    requires
        v.wf(),
        v.in_bounds(x, y),
    ensures
        v.with_pixel(x, y, p).wf(),
        v.with_pixel(x, y, p).width == v.width,
        v.with_pixel(x, y, p).height == v.height,
        v.with_pixel(x, y, p).chan(x, y, 0) == p.0,
        v.with_pixel(x, y, p).chan(x, y, 1) == p.1,
        v.with_pixel(x, y, p).chan(x, y, 2) == p.2,
        v.with_pixel(x, y, p).chan(x, y, 3) == p.3,
        forall|x2: int, y2: int, c2: int|
            v.in_bounds(x2, y2) && 0 <= c2 < 4 && (x2, y2) != (x, y) ==> #[trigger] v.with_pixel(
                x,
                y,
                p,
            ).chan(x2, y2, c2) == v.chan(x2, y2, c2),
{
    lemma_chan_index(v.width, v.height, x, y, 0);
    lemma_chan_index(v.width, v.height, x, y, 3);
    assert forall|x2: int, y2: int, c2: int|
        v.in_bounds(x2, y2) && 0 <= c2 < 4 && (x2, y2) != (x, y) implies #[trigger] v.with_pixel(
        x,
        y,
        p,
    ).chan(x2, y2, c2) == v.chan(x2, y2, c2) by {
        lemma_chan_index(v.width, v.height, x2, y2, c2);
        lemma_pix_distinct(v.width, v.height, x, y, x2, y2);
    }
}

/// An owned, mutable RGBA raster: row-major samples, four bytes per
/// pixel. All operations keep `data.len() == 4 * width * height`.
pub struct PixelBuffer {
    width: u32,
    height: u32,
    data: Vec<u8>,
}

impl View for PixelBuffer {
    type V = ImgV;

    closed spec fn view(&self) -> ImgV {
        ImgV { width: self.width as int, height: self.height as int, data: self.data@ }
    }
}

/// Wraps raw bytes whose length is already known to match.
pub(crate) fn from_raw_exact(width: u32, height: u32, data: Vec<u8>) -> (r: PixelBuffer)
    requires
        data@.len() == 4 * (width as int * height as int),
    ensures
        r.wf(),
        r@ == (ImgV { width: width as int, height: height as int, data: data@ }),
{
    PixelBuffer { width, height, data }
}

impl PixelBuffer {
    pub open spec fn wf(&self) -> bool {
        self@.wf()
    }

    /// A fully transparent black image, or `None` when the sample
    /// storage would not fit in memory.
    pub fn new(width: u32, height: u32) -> (r: Option<PixelBuffer>)
        ensures
            r is Some ==> {
                let v = r->Some_0@;
                &&& r->Some_0.wf()
                &&& v.width == width
                &&& v.height == height
                &&& forall|i: int| 0 <= i < v.data.len() ==> v.data[i] == 0u8
            },
            r is Some <==> 4 * (width as int * height as int) <= usize::MAX,
    {
        let wl: u128 = width as u128;
        let hl: u128 = height as u128;
        assert(wl * hl < 0x10000000000000000u128) by (nonlinear_arith)
            requires
                wl < 0x100000000u128,
                hl < 0x100000000u128,
        ;
        let n128: u128 = 4u128 * (wl * hl);
        if n128 > usize::MAX as u128 {
            return None;
        }
        let n: usize = n128 as usize;
        let mut data: Vec<u8> = Vec::new();
        let mut i: usize = 0;
        while i < n
            invariant
                i <= n,
                data@.len() == i,
                forall|j: int| 0 <= j < i ==> data@[j] == 0u8,
            decreases n - i,
        {
            data.push(0u8);
            i = i + 1;
        }
        assert(n == 4 * (width as int * height as int));
        Some(PixelBuffer { width, height, data })
    }

    /// Wraps raw row-major RGBA bytes, or `None` when the length does
    /// not match the dimensions.
    pub fn from_raw(width: u32, height: u32, data: Vec<u8>) -> (r: Option<PixelBuffer>)
        ensures
            r is Some ==> {
                let v = r->Some_0@;
                &&& r->Some_0.wf()
                &&& v.width == width
                &&& v.height == height
                &&& v.data == data@
            },
            r is Some <==> data@.len() == 4 * (width as int * height as int),
    {
        let n = data.len();
        let wl: u128 = width as u128;
        let hl: u128 = height as u128;
        assert(wl * hl < 0x10000000000000000u128) by (nonlinear_arith)
            requires
                wl < 0x100000000u128,
                hl < 0x100000000u128,
        ;
        if (n as u128) == 4u128 * (wl * hl) {
            Some(PixelBuffer { width, height, data })
        } else {
            None
        }
    }

    pub fn width(&self) -> (r: u32)
        ensures
            r == self@.width,
    {
        self.width
    }

    pub fn height(&self) -> (r: u32)
        ensures
            r == self@.height,
    {
        self.height
    }

    /// The raw sample storage.
    pub fn raw(&self) -> (r: &Vec<u8>)
        ensures
            r@ == self@.data,
    {
        &self.data
    }

    pub fn into_raw(self) -> (r: Vec<u8>)
        ensures
            r@ == self@.data,
    {
        self.data
    }

    /// The byte index of the first channel of pixel `(x, y)`.
    fn pix_base(&self, x: u32, y: u32) -> (r: usize)
        requires
            self.wf(),
            self@.in_bounds(x as int, y as int),
        ensures
            r == 4 * ((y as int) * self@.width + (x as int)),
            r + 4 <= self@.data.len(),
    {
        let n = self.data.len();
        proof {
            lemma_chan_index(
                self@.width,
                self@.height,
                x as int,
                y as int,
                3,
            );
        }
        let row: usize = (y as usize) * (self.width as usize);
        4 * (row + (x as usize))
    }

    /// Reads the (R, G, B, A) components of pixel `(x, y)`.
    pub fn get_pixel(&self, x: u32, y: u32) -> (r: (u8, u8, u8, u8))
        requires
            self.wf(),
            self@.in_bounds(x as int, y as int),
        ensures
            r.0 == self@.chan(x as int, y as int, 0),
            r.1 == self@.chan(x as int, y as int, 1),
            r.2 == self@.chan(x as int, y as int, 2),
            r.3 == self@.chan(x as int, y as int, 3),
    {
        let i = self.pix_base(x, y);
        (self.data[i], self.data[i + 1], self.data[i + 2], self.data[i + 3])
    }

    /// Overwrites the components of pixel `(x, y)`.
    pub fn set_pixel(&mut self, x: u32, y: u32, p: (u8, u8, u8, u8))
        requires
            old(self).wf(),
            old(self)@.in_bounds(x as int, y as int),
        ensures
            final(self)@ == old(self)@.with_pixel(x as int, y as int, p),
            final(self).wf(),
    {
        let i = self.pix_base(x, y);
        self.data.set(i, p.0);
        self.data.set(i + 1, p.1);
        self.data.set(i + 2, p.2);
        self.data.set(i + 3, p.3);
        proof {
            lemma_with_pixel_chan(old(self)@, x as int, y as int, p);
        }
    }
}

} // verus!
