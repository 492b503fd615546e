use vstd::prelude::*;
use crate::fixed::GRID_MAX;
use crate::material::Material;

verus! {

/// Mathematical model of a tile grid: an extent and a row-major sequence
/// of materials.
pub ghost struct GridView {
    pub width: int,
    pub height: int,
    pub cells: Seq<Material>,
}

impl GridView {
    /// The grid holds exactly one material per cell of its extent, and the
    /// extent is positive and within the supported maximum.
    pub open spec fn wf(self) -> bool {
        &&& 1 <= self.width <= GRID_MAX
        &&& 1 <= self.height <= GRID_MAX
        &&& self.cells.len() == self.width * self.height
    }

    /// Total query: the material at any integer coordinate. Coordinates
    /// outside the extent answer `OutOfBounds`, which is opaque, so the
    /// world is bordered.
    pub open spec fn at(self, x: int, y: int) -> Material {
        if 0 <= x < self.width && 0 <= y < self.height {
            self.cells[y * self.width + x]
        } else {
            Material::OutOfBounds
        }
    }
}

/// Bounds of a row-major cell index within a grid extent.
proof fn lemma_rowmajor_bound(x: int, y: int, w: int, h: int)
    requires
        0 <= x < w,
        0 <= y < h,
        w <= 4096,
        h <= 4096,
    ensures
        0 <= y * w,
        y * w + x < w * h,
        w * h <= 4096 * 4096,
{
    assert(0 <= y * w && y * w + x < w * h && w * h <= 4096 * 4096) by (nonlinear_arith)
        requires
            0 <= x < w,
            0 <= y < h,
            w <= 4096,
            h <= 4096,
    {}
}

/// An addressable 2D tile grid. Queries are total: any coordinate outside
/// the stored extent answers the opaque `OutOfBounds` material.
pub struct Grid {
    width: usize,
    height: usize,
    cells: Vec<Material>,
}

impl View for Grid {
    type V = GridView;

    closed spec fn view(&self) -> GridView {
        GridView { width: self.width as int, height: self.height as int, cells: self.cells@ }
    }
}

impl Grid {
    /// Creates a grid of the given extent with every cell set to `fill`.
    pub fn new(width: usize, height: usize, fill: Material) -> (r: Grid)
        requires
            1 <= width <= GRID_MAX,
            1 <= height <= GRID_MAX,
        ensures
            r@.wf(),
            r@.width == width,
            r@.height == height,
            forall|x: int, y: int|
                0 <= x < width && 0 <= y < height ==> r@.at(x, y) == fill,
    {
        proof {
            assert(width * height <= 4096 * 4096) by (nonlinear_arith)
                requires
                    0 <= width <= 4096,
                    0 <= height <= 4096,
            {}
        }
        let size = width * height;
        let mut cells: Vec<Material> = Vec::new();
        let mut i: usize = 0;
        while i < size
            invariant
                i <= size,
                size == width * height,
                cells@.len() == i,
                forall|j: int| 0 <= j < i ==> cells@[j] == fill,
            decreases size - i,
        {
            cells.push(fill);
            i = i + 1;
        }
        proof {
            assert forall|x: int, y: int|
                0 <= x < width && 0 <= y < height implies cells@[#[trigger] (y * (width as int)
                    + x)] == fill by {
                lemma_rowmajor_bound(x, y, width as int, height as int);
            }
        }
        Grid { width, height, cells }
    }

    /// The grid extent, in cells.
    pub fn size(&self) -> (r: (usize, usize))
        ensures
            r.0 == self@.width,
            r.1 == self@.height,
    {
        (self.width, self.height)
    }

    /// Overwrites one cell; coordinates outside the extent are ignored.
    pub fn set_cell(&mut self, x: usize, y: usize, m: Material)
        requires
            old(self)@.wf(),
        ensures
            final(self)@.wf(),
            final(self)@.width == old(self)@.width,
            final(self)@.height == old(self)@.height,
            forall|i: int, j: int|
                0 <= i < final(self)@.width && 0 <= j < final(self)@.height && !(i == x && j == y)
                    ==> final(self)@.at(i, j) == old(self)@.at(i, j),
            x < final(self)@.width && y < final(self)@.height ==> final(self)@.at(
                x as int,
                y as int,
            ) == m,
    {
        if x < self.width && y < self.height {
            proof {
                lemma_rowmajor_bound(x as int, y as int, self@.width, self@.height);
            }
            let idx = y * self.width + x;
            let ghost before = self@;
            self.cells.set(idx, m);
            proof {
                let w = before.width;
                let h = before.height;
                let xi = x as int;
                let yi = y as int;
                assert forall|i: int, j: int|
                    0 <= i < w && 0 <= j < h && !(i == xi && j == yi) implies self@.at(i, j)
                    == before.at(i, j) by {
                    assert(j * w + i != yi * w + xi) by (nonlinear_arith)
                        requires
                            0 <= i < w,
                            0 <= xi < w,
                            i != xi || j != yi,
                    {}
                    assert(0 <= j * w + i < w * h) by (nonlinear_arith)
                        requires
                            0 <= i < w,
                            0 <= j < h,
                    {}
                }
            }
        }
    }

    /// Total point query: the material at any integer coordinate, with
    /// `OutOfBounds` for anything outside the extent.
    pub fn get(&self, x: i64, y: i64) -> (r: Material)
        requires
            self@.wf(),
        ensures
            r == self@.at(x as int, y as int),
    {
        if x < 0 || y < 0 || x >= self.width as i64 || y >= self.height as i64 {
            Material::OutOfBounds
        } else {
            proof {
                lemma_rowmajor_bound(x as int, y as int, self@.width, self@.height);
            }
            let idx = (y as usize) * self.width + (x as usize);
            self.cells[idx]
        }
    }
}

} // verus!
