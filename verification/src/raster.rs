//! An owned rectangular grid of RGBA pixels, stored in row-major order.

use vstd::prelude::*;
use vstd::pervasive::VecAdditionalExecFns;

use crate::color::RgbaColor;

verus! {

/// A rectangular RGBA image. `pixels` holds exactly `width * height`
/// values in row-major order.
#[derive(Debug, Clone)]
pub struct Raster {
    width: u32,
    height: u32,
    pixels: Vec<RgbaColor>,
}

/// Row-major offsets stay inside the grid.
pub proof fn lemma_rowmajor_bound(x: int, y: int, w: int, h: int)
    by (nonlinear_arith)
    requires
        0 <= x < w,
        0 <= y < h,
    ensures
        0 <= y * w + x < w * h,
{
}

/// Two well-formed rasters of the same size that agree on every pixel
/// hold the same image.
pub proof fn lemma_pixelwise_same_image(a: Raster, b: Raster)
    requires
        a.wf(),
        b.wf(),
        a.width_spec() == b.width_spec(),
        a.height_spec() == b.height_spec(),
        forall|x: int, y: int|
            0 <= x < a.width_spec() && 0 <= y < a.height_spec() ==> a.pix(x, y) == b.pix(x, y),
    ensures
        a.same_image(b),
{
    let w = a.width_spec() as int;
    let h = a.height_spec() as int;
    assert(a.pixels_seq() =~= b.pixels_seq()) by {
        assert forall|k: int| 0 <= k < a.pixels_seq().len()
            implies a.pixels_seq()[k] == b.pixels_seq()[k] by {
            assert(w * h > 0);
            assert(w > 0 && h > 0) by (nonlinear_arith)
                requires
                    w * h > 0,
                    w >= 0,
                    h >= 0,
            {}
            let x = k % w;
            let y = k / w;
            vstd::arithmetic::div_mod::lemma_fundamental_div_mod(k, w);
            vstd::arithmetic::div_mod::lemma_mod_bound(k, w);
            vstd::arithmetic::div_mod::lemma_div_pos_is_pos(k, w);
            assert(k == w * y + x);
            assert(y < h) by (nonlinear_arith)
                requires
                    k == w * y + x,
                    k < w * h,
                    0 <= x < w,
                    0 <= y,
            {}
            assert(y * w + x == k) by (nonlinear_arith)
                requires
                    k == w * y + x,
            {}
            assert(a.pix(x, y) == b.pix(x, y));
        }
    }
}

impl Raster {
    /// The pixel grid, flattened row by row.
    pub closed spec fn pixels_seq(self) -> Seq<RgbaColor> {
        self.pixels@
    }

    /// Image width in pixels.
    pub closed spec fn width_spec(self) -> u32 {
        self.width
    }

    /// Image height in pixels.
    pub closed spec fn height_spec(self) -> u32 {
        self.height
    }

    /// Well-formed: the grid holds one value per coordinate.
    pub open spec fn wf(self) -> bool {
        self.pixels_seq().len() == self.width_spec() * self.height_spec()
    }

    /// The pixel at column `x`, row `y`.
    pub open spec fn pix(self, x: int, y: int) -> RgbaColor {
        self.pixels_seq()[y * self.width_spec() + x]
    }

    /// Two rasters hold the same image.
    pub open spec fn same_image(self, other: Raster) -> bool {
        self.width_spec() == other.width_spec()
        && self.height_spec() == other.height_spec()
        && self.pixels_seq() == other.pixels_seq()
    }

    /// Image width in pixels.
    pub fn width(&self) -> (r: u32)
        ensures
            r == self.width_spec(),
    {
        self.width
    }

    /// Image height in pixels.
    pub fn height(&self) -> (r: u32)
        ensures
            r == self.height_spec(),
    {
        self.height
    }

    /// Creates a raster of the given size with every pixel set to `fill`.
    #[verifier::loop_isolation(false)]
    pub fn new_filled(width: u32, height: u32, fill: RgbaColor) -> (r: Raster)
        requires
            width * height <= usize::MAX,
        ensures
            r.wf(),
            r.width_spec() == width,
            r.height_spec() == height,
            forall|x: int, y: int|
                0 <= x < width && 0 <= y < height ==> r.pix(x, y) == fill,
    {
        let n: usize = (width as usize) * (height as usize);
        let mut pixels: Vec<RgbaColor> = Vec::new();
        while pixels.len() < n
            invariant
                pixels@.len() <= n,
                forall|k: int| 0 <= k < pixels@.len() ==> pixels@[k] == fill,
            decreases n - pixels@.len(),
        {
            pixels.push(fill);
        }
        let r = Raster { width, height, pixels };
        proof {
            assert forall|x: int, y: int|
                0 <= x < width && 0 <= y < height implies r.pix(x, y) == fill by {
                lemma_rowmajor_bound(x, y, width as int, height as int);
            }
        }
        r
    }

    /// Reads the pixel at `(x, y)`.
    pub fn get_pixel(&self, x: u32, y: u32) -> (r: RgbaColor)
        requires
            self.wf(),
            x < self.width_spec(),
            y < self.height_spec(),
        ensures
            r == self.pix(x as int, y as int),
    {
        proof {
            lemma_rowmajor_bound(x as int, y as int, self.width_spec() as int, self.height_spec() as int);
        }
        let n = self.pixels.len();
        assert(y * self.width_spec() + x < n);
        let idx: usize = (y as usize) * (self.width as usize) + (x as usize);
        self.pixels[idx]
    }

    /// Overwrites the pixel at `(x, y)`.
    pub fn put_pixel(&mut self, x: u32, y: u32, c: RgbaColor)
        requires
            old(self).wf(),
            x < old(self).width_spec(),
            y < old(self).height_spec(),
        ensures
            final(self).wf(),
            final(self).width_spec() == old(self).width_spec(),
            final(self).height_spec() == old(self).height_spec(),
            final(self).pix(x as int, y as int) == c,
            forall|i: int, j: int|
                0 <= i < old(self).width_spec() && 0 <= j < old(self).height_spec()
                && !(i == x && j == y)
                ==> final(self).pix(i, j) == old(self).pix(i, j),
    {
        proof {
            lemma_rowmajor_bound(x as int, y as int, self.width_spec() as int, self.height_spec() as int);
        }
        let n = self.pixels.len();
        assert(y * self.width_spec() + x < n);
        let idx: usize = (y as usize) * (self.width as usize) + (x as usize);
        self.pixels.set(idx, c);
        proof {
            let w = self.width_spec() as int;
            let h = self.height_spec() as int;
            assert forall|i: int, j: int|
                0 <= i < w && 0 <= j < h && !(i == x && j == y)
                implies final(self).pix(i, j) == old(self).pix(i, j) by {
                lemma_rowmajor_bound(i, j, w, h);
                assert(j * w + i != y * w + x) by (nonlinear_arith)
                    requires
                        0 <= i < w,
                        0 <= j < h,
                        0 <= x < w,
                        0 <= y < h,
                        !(i == x && j == y),
                {}
            }
        }
    }

    /// Copies `src` into `self` with its top-left corner at `(ox, oy)`,
    /// overwriting the covered pixels and leaving every other pixel as it was.
    #[verifier::loop_isolation(false)]
    pub fn copy_from(&mut self, src: &Raster, ox: u32, oy: u32)
        requires
            old(self).wf(),
            src.wf(),
            ox + src.width_spec() <= old(self).width_spec(),
            oy + src.height_spec() <= old(self).height_spec(),
        ensures
            final(self).wf(),
            final(self).width_spec() == old(self).width_spec(),
            final(self).height_spec() == old(self).height_spec(),
            forall|x: int, y: int|
                ox <= x < ox + src.width_spec() && oy <= y < oy + src.height_spec()
                ==> final(self).pix(x, y) == src.pix(x - ox, y - oy),
            forall|x: int, y: int|
                0 <= x < old(self).width_spec() && 0 <= y < old(self).height_spec()
                && !(ox <= x < ox + src.width_spec() && oy <= y < oy + src.height_spec())
                ==> final(self).pix(x, y) == old(self).pix(x, y),
    {
        let ghost base = *self;
        let mut sy: u32 = 0;
        while sy < src.height()
            invariant
                sy <= src.height_spec(),
                self.wf(),
                self.width_spec() == base.width_spec(),
                self.height_spec() == base.height_spec(),
                forall|x: int, y: int|
                    ox <= x < ox + src.width_spec() && oy <= y < oy + sy
                    ==> self.pix(x, y) == src.pix(x - ox, y - oy),
                forall|x: int, y: int|
                    0 <= x < base.width_spec() && 0 <= y < base.height_spec()
                    && !(ox <= x < ox + src.width_spec() && oy <= y < oy + sy)
                    ==> self.pix(x, y) == base.pix(x, y),
            decreases src.height_spec() - sy,
        {
            let mut sx: u32 = 0;
            while sx < src.width()
                invariant
                    sy < src.height_spec(),
                    sx <= src.width_spec(),
                    self.wf(),
                    self.width_spec() == base.width_spec(),
                    self.height_spec() == base.height_spec(),
                    forall|x: int, y: int|
                        ox <= x < ox + src.width_spec() && oy <= y < oy + sy
                        ==> self.pix(x, y) == src.pix(x - ox, y - oy),
                    forall|x: int|
                        ox <= x < ox + sx
                        ==> #[trigger] self.pix(x, oy + sy) == src.pix(x - ox, sy as int),
                    forall|x: int, y: int|
                        0 <= x < base.width_spec() && 0 <= y < base.height_spec()
                        && !(ox <= x < ox + src.width_spec() && oy <= y < oy + sy)
                        && !(ox <= x < ox + sx && y == oy + sy)
                        ==> self.pix(x, y) == base.pix(x, y),
                decreases src.width_spec() - sx,
            {
                let p = src.get_pixel(sx, sy);
                self.put_pixel(ox + sx, oy + sy, p);
                sx = sx + 1;
            }
            sy = sy + 1;
        }
    }

    /// Cuts the `w` by `h` rectangle whose top-left corner is `(x0, y0)`
    /// out of `self`, copying the pixels verbatim.
    #[verifier::loop_isolation(false)]
    pub fn crop(&self, x0: u32, y0: u32, w: u32, h: u32) -> (r: Raster)
        requires
            self.wf(),
            x0 + w <= self.width_spec(),
            y0 + h <= self.height_spec(),
        ensures
            r.wf(),
            r.width_spec() == w,
            r.height_spec() == h,
            forall|x: int, y: int|
                0 <= x < w && 0 <= y < h ==> r.pix(x, y) == self.pix(x0 + x, y0 + y),
    {
        let n = self.pixels.len();
        proof {
            assert(n == self.width_spec() * self.height_spec());
            assert((w as int) * (h as int) <= (self.width_spec() as int) * (self.height_spec() as int))
                by (nonlinear_arith)
                requires
                    w <= self.width_spec(),
                    h <= self.height_spec(),
            {}
        }
        let mut out = Raster::new_filled(w, h, RgbaColor { r: 0, g: 0, b: 0, a: 0 });
        let mut y: u32 = 0;
        while y < h
            invariant
                y <= h,
                out.wf(),
                out.width_spec() == w,
                out.height_spec() == h,
                forall|i: int, j: int|
                    0 <= i < w && 0 <= j < y ==> out.pix(i, j) == self.pix(x0 + i, y0 + j),
            decreases h - y,
        {
            let mut x: u32 = 0;
            while x < w
                invariant
                    y < h,
                    x <= w,
                    out.wf(),
                    out.width_spec() == w,
                    out.height_spec() == h,
                    forall|i: int, j: int|
                        0 <= i < w && 0 <= j < y ==> out.pix(i, j) == self.pix(x0 + i, y0 + j),
                    forall|i: int|
                        0 <= i < x ==> #[trigger] out.pix(i, y as int) == self.pix(x0 + i, y0 + y),
                decreases w - x,
            {
                let p = self.get_pixel(x0 + x, y0 + y);
                out.put_pixel(x, y, p);
                x = x + 1;
            }
            y = y + 1;
        }
        out
    }

    /// Builds a raster from raw RGBA bytes, four per pixel, row-major.
    #[verifier::loop_isolation(false)]
    pub fn from_rgba_bytes(width: u32, height: u32, bytes: &Vec<u8>) -> (r: Option<Raster>)
        ensures
            match r {
                Some(img) => {
                    &&& bytes@.len() == 4 * (width * height)
                    &&& img.wf()
                    &&& img.width_spec() == width
                    &&& img.height_spec() == height
                    &&& forall|x: int, y: int|
                        0 <= x < width && 0 <= y < height
                        ==> img.pix(x, y) == (RgbaColor {
                            r: bytes@[4 * (y * width + x)],
                            g: bytes@[4 * (y * width + x) + 1],
                            b: bytes@[4 * (y * width + x) + 2],
                            a: bytes@[4 * (y * width + x) + 3],
                        })
                },
                None => bytes@.len() != 4 * (width * height),
            },
    {
        proof {
            assert(4 * ((width * height) as int) <= 4 * (u32::MAX as int) * (u32::MAX as int) + 3)
                by (nonlinear_arith);
        }
        let n_bytes = bytes.len();
        if n_bytes % 4 != 0 {
            return None;
        }
        let n: usize = n_bytes / 4;
        let wide: u64 = (width as u64) * (height as u64);
        if wide > usize::MAX as u64 || n != wide as usize {
            proof {
                assert(n_bytes as int != 4 * (width * height)) by {
                    if n_bytes as int == 4 * ((width * height) as int) {
                        assert(n == (width * height) as int);
                    }
                }
            }
            return None;
        }
        let mut pixels: Vec<RgbaColor> = Vec::new();
        let mut k: usize = 0;
        while k < n
            invariant
                k <= n,
                n_bytes == 4 * n,
                pixels@.len() == k,
                forall|t: int| 0 <= t < k ==> pixels@[t] == (RgbaColor {
                    r: bytes@[4 * t],
                    g: bytes@[4 * t + 1],
                    b: bytes@[4 * t + 2],
                    a: bytes@[4 * t + 3],
                }),
            decreases n - k,
        {
            let p = RgbaColor {
                r: bytes[4 * k],
                g: bytes[4 * k + 1],
                b: bytes[4 * k + 2],
                a: bytes[4 * k + 3],
            };
            pixels.push(p);
            k = k + 1;
        }
        let img = Raster { width, height, pixels };
        proof {
            assert forall|x: int, y: int|
                0 <= x < width && 0 <= y < height
                implies img.pix(x, y) == (RgbaColor {
                    r: bytes@[4 * (y * width + x)],
                    g: bytes@[4 * (y * width + x) + 1],
                    b: bytes@[4 * (y * width + x) + 2],
                    a: bytes@[4 * (y * width + x) + 3],
                }) by {
                lemma_rowmajor_bound(x, y, width as int, height as int);
            }
        }
        Some(img)
    }

    /// The image as raw RGBA bytes, four per pixel, row-major.
    #[verifier::loop_isolation(false)]
    pub fn to_rgba_bytes(&self) -> (r: Vec<u8>)
        requires
            self.wf(),
            4 * (self.width_spec() * self.height_spec()) <= usize::MAX,
        ensures
            r@.len() == 4 * (self.width_spec() * self.height_spec()),
            forall|t: int| 0 <= t < self.pixels_seq().len() ==> {
                &&& r@[4 * t] == self.pixels_seq()[t].r
                &&& r@[4 * t + 1] == self.pixels_seq()[t].g
                &&& r@[4 * t + 2] == self.pixels_seq()[t].b
                &&& r@[4 * t + 3] == self.pixels_seq()[t].a
            },
    {
        let n = self.pixels.len();
        let mut out: Vec<u8> = Vec::new();
        let mut k: usize = 0;
        while k < n
            invariant
                k <= n,
                out@.len() == 4 * k,
                forall|t: int| 0 <= t < k ==> {
                    &&& out@[4 * t] == self.pixels_seq()[t].r
                    &&& out@[4 * t + 1] == self.pixels_seq()[t].g
                    &&& out@[4 * t + 2] == self.pixels_seq()[t].b
                    &&& out@[4 * t + 3] == self.pixels_seq()[t].a
                },
            decreases n - k,
        {
            let p = self.pixels[k];
            out.push(p.r);
            out.push(p.g);
            out.push(p.b);
            out.push(p.a);
            k = k + 1;
        }
        out
    }
}

} // verus!
