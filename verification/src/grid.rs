//! Rectangular grids of cells in row-major order.

use vstd::prelude::*;
use vstd::arithmetic::div_mod::{
    lemma_div_pos_is_pos, lemma_fundamental_div_mod, lemma_fundamental_div_mod_converse,
    lemma_multiply_divide_lt,
};
use crate::geometry::Point;

verus! {

/// The mathematical model of a binary image: `cells` holds the rows one
/// after another, `true` for a pixel that is set.
pub struct Grid {
    pub width: nat,
    pub height: nat,
    pub cells: Seq<bool>,
}

impl Grid {
    /// There is exactly one cell for each position.
    pub open spec fn wf(self) -> bool {
        self.cells.len() == self.width * self.height
    }

    /// `p` lies inside the grid.
    pub open spec fn contains(self, p: Point) -> bool {
        p.x < self.width && p.y < self.height
    }

    /// The place of `p` in `cells`.
    pub open spec fn index_of(self, p: Point) -> int {
        p.y * self.width + p.x
    }

    /// `p` lies inside the grid and its cell is set.
    pub open spec fn lit(self, p: Point) -> bool {
        self.contains(p) && self.cells[self.index_of(p)]
    }
}

/// Column `x` of row `y` has a place in a row-major buffer of `h` rows of
/// `w` cells.
pub proof fn lemma_row_major_place(w: int, h: int, x: int, y: int)
    requires
        0 <= x < w,
        0 <= y < h,
    ensures
        0 <= y * w + x < w * h,
{
    assert(y * w + w <= h * w) by (nonlinear_arith)
        requires
            0 <= y < h,
            0 <= w,
    ;
    assert(y * w >= 0) by (nonlinear_arith)
        requires
            0 <= y,
            0 <= w,
    ;
    assert(h * w == w * h) by (nonlinear_arith);
}

/// A position inside the grid has a place in `cells`.
pub proof fn lemma_index_in_range(g: Grid, p: Point)
    requires
        g.wf(),
        g.contains(p),
    ensures
        0 <= g.index_of(p) < g.cells.len(),
{
    lemma_row_major_place(g.width as int, g.height as int, p.x as int, p.y as int);
}

/// Two positions inside the grid with the same place in `cells` are equal.
pub proof fn lemma_index_injective(g: Grid, p: Point, q: Point)
    requires
        g.contains(p),
        g.contains(q),
        g.index_of(p) == g.index_of(q),
    ensures
        p == q,
{
    let w = g.width as int;
    let py = p.y as int;
    let qy = q.y as int;
    if py < qy {
        assert(py * w + w <= qy * w) by (nonlinear_arith)
            requires
                py < qy,
                0 <= w,
        ;
    } else if qy < py {
        assert(qy * w + w <= py * w) by (nonlinear_arith)
            requires
                qy < py,
                0 <= w,
        ;
    }
}

/// The place of `p` in a row-major buffer of `width * height` cells.
pub fn cell_index(width: u32, height: u32, p: Point) -> (i: usize)
    requires
        width * height <= usize::MAX,
        p.x < width,
        p.y < height,
    ensures
        i == p.y * width + p.x,
        i < width * height,
{
    proof {
        lemma_row_major_place(width as int, height as int, p.x as int, p.y as int);
    }
    p.y as usize * width as usize + p.x as usize
}

/// The pixel at place `i` of a row-major buffer with rows of `width` cells.
pub open spec fn point_at(width: nat, i: int) -> Point {
    Point { x: (i % (width as int)) as u32, y: (i / (width as int)) as u32 }
}

/// `point_at` finds the pixel that has a given place.
pub proof fn lemma_point_at_place(width: nat, p: Point)
    requires
        p.x < width,
    ensures
        point_at(width, p.y * width + p.x) == p,
{
    lemma_fundamental_div_mod_converse(p.y * width + p.x, width as int, p.y as int, p.x as int);
}

/// A place in a row-major buffer is the place of a pixel inside the image.
pub proof fn lemma_place_of_point(width: nat, height: nat, i: int)
    requires
        0 <= i < width * height,
        width <= u32::MAX,
        height <= u32::MAX,
    ensures
        point_at(width, i).x < width,
        point_at(width, i).y < height,
        point_at(width, i).y * width + point_at(width, i).x == i,
{
    let w = width as int;
    let h = height as int;
    assert(w > 0) by (nonlinear_arith)
        requires
            0 <= i < w * h,
            0 <= w,
    ;
    lemma_multiply_divide_lt(i, w, h);
    lemma_fundamental_div_mod(i, w);
    lemma_div_pos_is_pos(i, w);
    assert(w * (i / w) == (i / w) * w) by (nonlinear_arith);
}

/// The pixel at place `i` of a row-major buffer of `width * height` cells.
pub fn pixel_at(width: u32, height: u32, i: usize) -> (p: Point)
    requires
        i < width * height,
    ensures
        p == point_at(width as nat, i as int),
        p.x < width,
        p.y < height,
        p.y * width + p.x == i,
{
    assert(width > 0) by (nonlinear_arith)
        requires
            i < width * height,
    ;
    proof {
        lemma_multiply_divide_lt(i as int, width as int, height as int);
        lemma_fundamental_div_mod(i as int, width as int);
        assert(width * (i as int / width as int) == (i as int / width as int) * width)
            by (nonlinear_arith);
    }
    let w: usize = width as usize;
    Point { x: (i % w) as u32, y: (i / w) as u32 }
}

/// A binary image.
pub struct Mask {
    width: u32,
    height: u32,
    cells: Vec<bool>,
}

impl View for Mask {
    type V = Grid;

    closed spec fn view(&self) -> Grid {
        Grid { width: self.width as nat, height: self.height as nat, cells: self.cells@ }
    }
}

impl Mask {
    /// The invariant of the type: one cell for each position.
    pub open spec fn wf(&self) -> bool {
        self@.wf()
    }

    /// A mask of the given size over `cells`, if there is one cell for each
    /// position.
    pub fn new(width: u32, height: u32, cells: Vec<bool>) -> (r: Option<Mask>)
        ensures
            r is Some <==> cells@.len() == width * height,
            r matches Some(m) ==> m.wf() && m@ == (Grid {
                width: width as nat,
                height: height as nat,
                cells: cells@,
            }),
    {
        let len: usize = cells.len();
        match (width as usize).checked_mul(height as usize) {
            Some(n) => {
                if len == n {
                    Some(Mask { width, height, cells })
                } else {
                    None
                }
            },
            None => None,
        }
    }

    /// The number of columns.
    pub fn width(&self) -> (w: u32)
        ensures
            w == self@.width,
    {
        self.width
    }

    /// The number of rows.
    pub fn height(&self) -> (h: u32)
        ensures
            h == self@.height,
    {
        self.height
    }

    /// The number of cells.
    pub fn len(&self) -> (n: usize)
        requires
            self.wf(),
        ensures
            n == self@.cells.len(),
            n == self@.width * self@.height,
    {
        self.cells.len()
    }

    /// Whether the pixel at `p` is set; `false` outside the mask.
    pub fn get(&self, p: Point) -> (b: bool)
        requires
            self.wf(),
        ensures
            b == self@.lit(p),
    {
        if p.x < self.width && p.y < self.height {
            assert(self.cells.len() == self.width * self.height);
            let i: usize = cell_index(self.width, self.height, p);
            self.cells[i]
        } else {
            false
        }
    }
}

} // verus!
