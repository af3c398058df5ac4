//! Single-channel images of a fixed size.

use vstd::prelude::*;
use crate::geometry::Point;
use crate::grid::{cell_index, Grid, Mask};

verus! {

/// The mathematical model of a single-channel image: `pixels` holds the rows
/// one after another.
pub struct Raster {
    pub width: nat,
    pub height: nat,
    pub pixels: Seq<u8>,
}

impl Raster {
    /// There is exactly one value for each position.
    pub open spec fn wf(self) -> bool {
        self.pixels.len() == self.width * self.height
    }

    /// The binary image of the pixels that are not zero.
    pub open spec fn nonzero(self) -> Grid {
        Grid {
            width: self.width,
            height: self.height,
            cells: Seq::new(self.pixels.len(), |i: int| self.pixels[i] != 0),
        }
    }
}

/// A grayscale frame or an edge map.
pub struct GrayMap {
    width: u32,
    height: u32,
    pixels: Vec<u8>,
}

impl View for GrayMap {
    type V = Raster;

    closed spec fn view(&self) -> Raster {
        Raster { width: self.width as nat, height: self.height as nat, pixels: self.pixels@ }
    }
}

impl GrayMap {
    /// The invariant of the type: one value for each position.
    pub open spec fn wf(&self) -> bool {
        self@.wf()
    }

    /// An image of the given size over `pixels`, if there is one value for
    /// each position.
    pub fn new(width: u32, height: u32, pixels: Vec<u8>) -> (r: Option<GrayMap>)
        ensures
            r is Some <==> pixels@.len() == width * height,
            r matches Some(m) ==> m.wf() && m@ == (Raster {
                width: width as nat,
                height: height as nat,
                pixels: pixels@,
            }),
    {
        let len: usize = pixels.len();
        match (width as usize).checked_mul(height as usize) {
            Some(n) => {
                if len == n {
                    Some(GrayMap { width, height, pixels })
                } else {
                    None
                }
            },
            None => None,
        }
    }

    /// The number of columns.
    pub fn width(&self) -> (w: u32)
        ensures
            w == self@.width,
    {
        self.width
    }

    /// The number of rows.
    pub fn height(&self) -> (h: u32)
        ensures
            h == self@.height,
    {
        self.height
    }

    /// The values, row by row.
    pub fn pixels(&self) -> (p: &Vec<u8>)
        ensures
            p@ == self@.pixels,
    {
        &self.pixels
    }

    /// The values, row by row.
    pub fn into_raw(self) -> (p: Vec<u8>)
        ensures
            p@ == self@.pixels,
    {
        self.pixels
    }

    /// The value at `p`, which lies inside the image.
    pub fn get(&self, p: Point) -> (v: u8)
        requires
            self.wf(),
            p.x < self@.width,
            p.y < self@.height,
        ensures
            v == self@.pixels[p.y * self@.width + p.x],
    {
        assert(self.pixels.len() == self.width * self.height);
        let i: usize = cell_index(self.width, self.height, p);
        self.pixels[i]
    }

    /// The binary image of the pixels that are not zero.
    pub fn nonzero_mask(&self) -> (m: Mask)
        requires
            self.wf(),
        ensures
            m.wf(),
            m@ == self@.nonzero(),
    {
        let len: usize = self.pixels.len();
        let mut cells: Vec<bool> = Vec::new();
        let mut i: usize = 0;
        while i < len
            invariant
                len == self.pixels@.len(),
                i <= len,
                cells@.len() == i,
                forall|k: int| 0 <= k < i ==> cells@[k] == (self.pixels@[k] != 0),
            decreases len - i,
        {
            cells.push(self.pixels[i] != 0);
            i += 1;
        }
        assert(cells@ =~= self@.nonzero().cells);
        Mask::new(self.width, self.height, cells).unwrap()
    }
}

} // verus!
