//! A dense width x height grid of RGBA pixels, the working form of every
//! layer buffer and every output image.

use vstd::pervasive::VecAdditionalExecFns;
use vstd::prelude::*;

use crate::px::{clear_px, Px};

verus! {

/// A grid as the specifications see it: a sequence of `h` rows, each a
/// sequence of `w` pixels.
pub type Grid = Seq<Seq<Px>>;

/// The grid has exactly `h` rows of exactly `w` pixels each.
pub open spec fn grid_wf(g: Grid, w: int, h: int) -> bool {
    &&& g.len() == h
    &&& forall|j: int| 0 <= j < h ==> (#[trigger] g[j]).len() == w
}

/// The pixel of a grid at column `x`, row `y`.
pub open spec fn grid_px(g: Grid, x: int, y: int) -> Px {
    g[y][x]
}

/// A dense, mutable pixel raster. Every raster this module hands out is
/// well formed: `height` rows of `width` pixels.
pub struct Raster {
    width: usize,
    height: usize,
    rows: Vec<Vec<Px>>,
}

impl Raster {
    /// The mathematical contents: one sequence of pixels per row.
    pub closed spec fn grid(self) -> Grid {
        Seq::new(self.rows@.len(), |j: int| self.rows@[j]@)
    }

    pub closed spec fn spec_width(self) -> usize {
        self.width
    }

    pub closed spec fn spec_height(self) -> usize {
        self.height
    }

    /// The stored rows match the stated dimensions.
    pub closed spec fn wf(self) -> bool {
        grid_wf(self.grid(), self.width as int, self.height as int)
    }

    pub proof fn lemma_wf_grid(self)
        requires
            self.wf(),
        ensures
            grid_wf(self.grid(), self.spec_width() as int, self.spec_height() as int),
    {
    }

    /// A raster of the given dimensions with every pixel zero-initialized
    /// (fully transparent).
    pub fn new(width: usize, height: usize) -> (r: Raster)
        ensures
            r.wf(),
            r.spec_width() == width,
            r.spec_height() == height,
            forall|x: int, y: int|
                0 <= x < width && 0 <= y < height ==> grid_px(r.grid(), x, y) == clear_px(),
    {
        let mut rows: Vec<Vec<Px>> = Vec::new();
        let mut j: usize = 0;
        while j < height
            invariant
                j <= height,
                rows@.len() == j,
                forall|jj: int| 0 <= jj < j ==> (#[trigger] rows@[jj])@.len() == width,
                forall|jj: int, i: int|
                    0 <= jj < j && 0 <= i < width ==> #[trigger] rows@[jj]@[i] == clear_px(),
            decreases height - j,
        {
            let mut row: Vec<Px> = Vec::new();
            let mut i: usize = 0;
            while i < width
                invariant
                    i <= width,
                    row@.len() == i,
                    forall|ii: int| 0 <= ii < i ==> row@[ii] == clear_px(),
                decreases width - i,
            {
                row.push(Px::transparent());
                i = i + 1;
            }
            rows.push(row);
            j = j + 1;
        }
        Raster { width, height, rows }
    }

    pub fn width(&self) -> (w: usize)
        ensures
            w == self.spec_width(),
    {
        self.width
    }

    pub fn height(&self) -> (h: usize)
        ensures
            h == self.spec_height(),
    {
        self.height
    }

    /// Read the pixel at column `x`, row `y`.
    pub fn get(&self, x: usize, y: usize) -> (p: Px)
        requires
            self.wf(),
            x < self.spec_width(),
            y < self.spec_height(),
        ensures
            p == grid_px(self.grid(), x as int, y as int),
    {
        proof {
            assert(self.grid()[y as int] == self.rows@[y as int]@);
        }
        self.rows[y][x]
    }

    /// Overwrite the pixel at column `x`, row `y`.
    pub fn set(&mut self, x: usize, y: usize, p: Px)
        requires
            old(self).wf(),
            x < old(self).spec_width(),
            y < old(self).spec_height(),
        ensures
            final(self).wf(),
            final(self).spec_width() == old(self).spec_width(),
            final(self).spec_height() == old(self).spec_height(),
            final(self).grid() == old(self).grid().update(
                y as int,
                old(self).grid()[y as int].update(x as int, p),
            ),
    {
        let ghost g0 = old(self).grid();
        proof {
            assert(g0[y as int] == self.rows@[y as int]@);
            assert(g0[y as int].len() == self.width as int);
        }
        let row = &mut self.rows[y];
        row.set(x, p);
        proof {
            assert(self.grid() =~~= g0.update(y as int, g0[y as int].update(x as int, p)));
        }
    }
}

impl Clone for Raster {
    /// A deep copy: same dimensions, same pixels.
    fn clone(&self) -> (res: Self)
        ensures
            res.spec_width() == self.spec_width(),
            res.spec_height() == self.spec_height(),
            res.grid() == self.grid(),
            self.wf() ==> res.wf(),
    {
        let mut rows: Vec<Vec<Px>> = Vec::new();
        let mut j: usize = 0;
        while j < self.rows.len()
            invariant
                j <= self.rows@.len(),
                rows@.len() == j,
                forall|jj: int| 0 <= jj < j ==> #[trigger] rows@[jj]@ == self.rows@[jj]@,
            decreases self.rows@.len() - j,
        {
            let src = &self.rows[j];
            let mut row: Vec<Px> = Vec::new();
            let mut i: usize = 0;
            while i < src.len()
                invariant
                    i <= src@.len(),
                    row@.len() == i,
                    forall|ii: int| 0 <= ii < i ==> #[trigger] row@[ii] == src@[ii],
                decreases src@.len() - i,
            {
                row.push(src[i]);
                i = i + 1;
            }
            proof {
                assert(row@ =~= src@);
            }
            rows.push(row);
            j = j + 1;
        }
        let res = Raster { width: self.width, height: self.height, rows };
        proof {
            assert(res.grid() =~~= self.grid());
        }
        res
    }
}

/// The pixel that four consecutive raw RGBA bytes encode for position
/// (x, y) of a row-major byte buffer with row width `w`.
pub open spec fn px_from_bytes(bytes: Seq<u8>, w: int, x: int, y: int) -> Px {
    let base = 4 * (y * w + x);
    Px { r: bytes[base], g: bytes[base + 1], b: bytes[base + 2], a: bytes[base + 3] }
}

/// The length in bytes of a raw RGBA buffer for a `w` x `h` raster.
pub open spec fn rgba_len(w: int, h: int) -> int {
    4 * (w * h)
}

/// Every raster of the stack is well formed with dimensions `w` x `h`.
pub open spec fn stack_wf(stack: Seq<Raster>, w: int, h: int) -> bool {
    forall|i: int|
        0 <= i < stack.len() ==> {
            &&& (#[trigger] stack[i]).wf()
            &&& stack[i].spec_width() == w
            &&& stack[i].spec_height() == h
        }
}

/// The grids of a stack of rasters, in the same order.
pub open spec fn grids_of(stack: Seq<Raster>) -> Seq<Grid> {
    stack.map_values(|r: Raster| r.grid())
}

impl Raster {
    /// Decode a row-major, 4-bytes-per-pixel RGBA buffer into a raster.
    /// Returns `None` exactly when the buffer length is not 4 * width * height.
    pub fn from_rgba_bytes(width: usize, height: usize, bytes: &Vec<u8>) -> (r: Option<Raster>)
        ensures
            match r {
                Some(ras) => {
                    &&& bytes@.len() == rgba_len(width as int, height as int)
                    &&& ras.wf()
                    &&& ras.spec_width() == width
                    &&& ras.spec_height() == height
                    &&& forall|x: int, y: int|
                        0 <= x < width && 0 <= y < height ==> grid_px(ras.grid(), x, y)
                            == px_from_bytes(bytes@, width as int, x, y)
                },
                None => bytes@.len() != rgba_len(width as int, height as int),
            },
    {
        let blen = bytes.len();
        let wh = match width.checked_mul(height) {
            Some(wh) => wh,
            None => {
                return None;
            },
        };
        let total = match wh.checked_mul(4) {
            Some(t) => t,
            None => {
                return None;
            },
        };
        if blen != total {
            return None;
        }
        let ghost w = width as int;
        let mut rows: Vec<Vec<Px>> = Vec::new();
        let mut k: usize = 0;
        let mut y: usize = 0;
        while y < height
            invariant
                y <= height,
                rows@.len() == y,
                k == 4 * ((y as int) * w + 0),
                w == width as int,
                bytes@.len() == rgba_len(w, height as int),
                bytes@.len() <= usize::MAX,
                forall|jj: int| 0 <= jj < y ==> (#[trigger] rows@[jj])@.len() == width,
                forall|x: int, yy: int|
                    0 <= x < width && 0 <= yy < y ==> #[trigger] rows@[yy]@[x] == px_from_bytes(
                        bytes@,
                        w,
                        x,
                        yy,
                    ),
            decreases height - y,
        {
            let mut row: Vec<Px> = Vec::new();
            let mut x: usize = 0;
            while x < width
                invariant
                    x <= width,
                    y < height,
                    row@.len() == x,
                    k == 4 * ((y as int) * w + x as int),
                    w == width as int,
                    bytes@.len() == rgba_len(w, height as int),
                    bytes@.len() <= usize::MAX,
                    forall|xx: int|
                        0 <= xx < x ==> #[trigger] row@[xx] == px_from_bytes(bytes@, w, xx, y as int),
                decreases width - x,
            {
                proof {
                    assert(k + 4 <= bytes@.len()) by (nonlinear_arith)
                        requires
                            k == 4 * ((y as int) * w + x as int),
                            bytes@.len() == 4 * (w * (height as int)),
                            0 <= x as int,
                            (x as int) < w,
                            0 <= y as int,
                            (y as int) < (height as int),
                    ;
                }
                let p = Px { r: bytes[k], g: bytes[k + 1], b: bytes[k + 2], a: bytes[k + 3] };
                row.push(p);
                k = k + 4;
                x = x + 1;
            }
            rows.push(row);
            y = y + 1;
            proof {
                assert(4 * (((y - 1) as int) * w + w) == 4 * ((y as int) * w)) by (nonlinear_arith);
            }
        }
        let ras = Raster { width, height, rows };
        proof {
            assert forall|x: int, yy: int| 0 <= x < width && 0 <= yy < height implies grid_px(
                ras.grid(),
                x,
                yy,
            ) == px_from_bytes(bytes@, width as int, x, yy) by {
                assert(ras.grid()[yy] == rows@[yy]@);
            }
        }
        Some(ras)
    }

    /// Encode the raster back into a row-major, 4-bytes-per-pixel RGBA buffer.
    pub fn to_rgba_bytes(&self) -> (r: Vec<u8>)
        requires
            self.wf(),
        ensures
            r@.len() == rgba_len(self.spec_width() as int, self.spec_height() as int),
            forall|x: int, y: int|
                0 <= x < self.spec_width() && 0 <= y < self.spec_height() ==> px_from_bytes(
                    r@,
                    self.spec_width() as int,
                    x,
                    y,
                ) == grid_px(self.grid(), x, y),
    {
        let width = self.width;
        let height = self.height;
        let ghost w = width as int;
        let mut out: Vec<u8> = Vec::new();
        let mut y: usize = 0;
        while y < height
            invariant
                y <= height,
                self.wf(),
                width == self.spec_width(),
                height == self.spec_height(),
                w == width as int,
                out@.len() == 4 * ((y as int) * w),
                forall|x: int, yy: int|
                    0 <= x < width && 0 <= yy < y ==> px_from_bytes(out@, w, x, yy) == grid_px(
                        self.grid(),
                        x,
                        yy,
                    ),
            decreases height - y,
        {
            let mut x: usize = 0;
            while x < width
                invariant
                    x <= width,
                    y < height,
                    self.wf(),
                    width == self.spec_width(),
                    height == self.spec_height(),
                    w == width as int,
                    out@.len() == 4 * ((y as int) * w + x as int),
                    forall|xx: int, yy: int|
                        0 <= xx < width && 0 <= yy < y ==> px_from_bytes(out@, w, xx, yy) == grid_px(
                            self.grid(),
                            xx,
                            yy,
                        ),
                    forall|xx: int|
                        0 <= xx < x ==> px_from_bytes(out@, w, xx, y as int) == grid_px(
                            self.grid(),
                            xx,
                            y as int,
                        ),
            decreases width - x,
            {
                let p = self.get(x, y);
                let ghost out0 = out@;
                out.push(p.r);
                out.push(p.g);
                out.push(p.b);
                out.push(p.a);
                proof {
                    assert forall|xx: int, yy: int|
                        0 <= xx < width && 0 <= yy < y as int implies px_from_bytes(out@, w, xx, yy)
                        == px_from_bytes(out0, w, xx, yy) by {
                        assert(4 * (yy * w + xx) + 3 < out0.len()) by (nonlinear_arith)
                            requires
                                0 <= xx < w,
                                0 <= yy < y as int,
                                out0.len() == 4 * ((y as int) * w + x as int),
                                0 <= x as int,
                        ;
                    }
                    assert forall|xx: int|
                        0 <= xx < x as int implies px_from_bytes(out@, w, xx, y as int)
                        == px_from_bytes(out0, w, xx, y as int) by {
                        assert(4 * ((y as int) * w + xx) + 3 < out0.len());
                    }
                    assert(px_from_bytes(out@, w, x as int, y as int) == p);
                }
                x = x + 1;
            }
            y = y + 1;
            proof {
                assert(4 * (((y - 1) as int) * w + w) == 4 * ((y as int) * w)) by (nonlinear_arith);
            }
        }
        proof {
            assert(4 * ((height as int) * w) == rgba_len(w, height as int)) by (nonlinear_arith);
        }
        out
    }
}

} // verus!
