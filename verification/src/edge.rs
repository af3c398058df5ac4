//! Edge detection: gradient magnitude, non-maximum suppression, two
//! thresholds, and hysteresis along connected candidates.

use vstd::prelude::*;
use crate::connectivity::{
    connected, is_traversal, lemma_closed_holds_connected, lemma_connected_lit,
    lemma_connected_reflexive,
};
use crate::flood::{flood, marks_components, unmarked};
use crate::frame::Raster;
use crate::geometry::{adjacent, Point};
use crate::gradient::{
    clamp, gradient, gradient_x, gradient_y, is_peak, magnitude2, sample, squared_magnitude,
    step_along,
};
use crate::grid::{
    cell_index, lemma_index_in_range, lemma_place_of_point, lemma_point_at_place,
    lemma_row_major_place, pixel_at, point_at, Grid, Mask,
};
use crate::numeric::SCALE;

verus! {

/// A gradient whose squared magnitude is `m2` is not below `threshold`,
/// which is in units of `1 / SCALE`.
pub open spec fn reaches(m2: int, threshold: int) -> bool {
    m2 * (SCALE * SCALE) >= threshold * threshold
}

/// A pixel that survives the suppression of non-maxima with a gradient not
/// below `high`.
pub open spec fn is_strong(r: Raster, high: int, p: Point) -> bool {
    &&& p.x < r.width
    &&& p.y < r.height
    &&& is_peak(r, p.x as int, p.y as int)
    &&& reaches(magnitude2(r, p.x as int, p.y as int), high)
}

/// A strong pixel, or a weak one: a pixel that survives the suppression of
/// non-maxima with a gradient not below `low` but below `high`.
pub open spec fn is_candidate(r: Raster, low: int, high: int, p: Point) -> bool {
    &&& p.x < r.width
    &&& p.y < r.height
    &&& is_peak(r, p.x as int, p.y as int)
    &&& (reaches(magnitude2(r, p.x as int, p.y as int), high) || reaches(
        magnitude2(r, p.x as int, p.y as int),
        low,
    ))
}

/// The binary image of the candidates.
pub open spec fn candidate_grid(r: Raster, low: int, high: int) -> Grid {
    Grid {
        width: r.width,
        height: r.height,
        cells: Seq::new(
            r.pixels.len(),
            |i: int| is_candidate(r, low, high, point_at(r.width, i)),
        ),
    }
}

/// A candidate that is connected to a strong pixel through candidates.
pub open spec fn is_edge(r: Raster, low: int, high: int, p: Point) -> bool {
    exists|s: Point| is_strong(r, high, s) && connected(candidate_grid(r, low, high), s, p)
}

/// The edge map of `r`: 255 at the edge pixels and 0 elsewhere.
pub open spec fn edge_map(r: Raster, low: int, high: int) -> Seq<u8> {
    Seq::new(
        r.pixels.len(),
        |i: int|
            if is_edge(r, low, high, point_at(r.width, i)) {
                255u8
            } else {
                0u8
            },
    )
}

/// Every sample of an image of one value is that value.
proof fn lemma_uniform_sample(r: Raster, v: u8, x: int, y: int)
    requires
        r.wf(),
        r.width > 0,
        r.height > 0,
        forall|i: int| 0 <= i < r.pixels.len() ==> r.pixels[i] == v,
    ensures
        sample(r, x, y) == v,
{
    let w = r.width as int;
    let h = r.height as int;
    lemma_row_major_place(w, h, clamp(x, w), clamp(y, h));
}

/// An image of one value has no gradient.
proof fn lemma_uniform_flat_at(r: Raster, v: u8, x: int, y: int)
    requires
        r.wf(),
        forall|i: int| 0 <= i < r.pixels.len() ==> r.pixels[i] == v,
    ensures
        magnitude2(r, x, y) == 0,
        0 <= x < r.width && 0 <= y < r.height ==> gradient_x(r, x, y) == 0 && gradient_y(
            r,
            x,
            y,
        ) == 0,
{
    if 0 <= x < r.width && 0 <= y < r.height {
        lemma_uniform_sample(r, v, x - 1, y - 1);
        lemma_uniform_sample(r, v, x, y - 1);
        lemma_uniform_sample(r, v, x + 1, y - 1);
        lemma_uniform_sample(r, v, x - 1, y);
        lemma_uniform_sample(r, v, x + 1, y);
        lemma_uniform_sample(r, v, x - 1, y + 1);
        lemma_uniform_sample(r, v, x, y + 1);
        lemma_uniform_sample(r, v, x + 1, y + 1);
    }
}

/// Every pixel of an image of one value survives the suppression of
/// non-maxima: its neighbours have the same gradient, which is zero.
proof fn lemma_uniform_flat(r: Raster, v: u8, x: int, y: int)
    requires
        r.wf(),
        0 <= x < r.width,
        0 <= y < r.height,
        forall|i: int| 0 <= i < r.pixels.len() ==> r.pixels[i] == v,
    ensures
        magnitude2(r, x, y) == 0,
        is_peak(r, x, y),
{
    lemma_uniform_flat_at(r, v, x, y);
    lemma_uniform_flat_at(r, v, x + 1, y);
    lemma_uniform_flat_at(r, v, x - 1, y);
    assert(step_along(0, 0) == (1int, 0int));
}

/// With both thresholds at zero, every pixel of an image of one value is a
/// strong edge pixel: a gradient of zero reaches a threshold of zero, and a
/// pixel whose neighbours have the same gradient survives the suppression.
pub proof fn lemma_uniform_image_all_edges(r: Raster, v: u8)
    requires
        r.wf(),
        r.width <= u32::MAX,
        r.height <= u32::MAX,
        forall|i: int| 0 <= i < r.pixels.len() ==> r.pixels[i] == v,
    ensures
        edge_map(r, 0, 0).len() == r.pixels.len(),
        forall|i: int| 0 <= i < r.pixels.len() ==> #[trigger] edge_map(r, 0, 0)[i] == 255,
{
    let g = candidate_grid(r, 0, 0);
    assert forall|i: int| 0 <= i < r.pixels.len() implies #[trigger] edge_map(r, 0, 0)[i]
        == 255 by {
        let p = point_at(r.width, i);
        lemma_place_in_grid(g, i);
        lemma_uniform_flat(r, v, p.x as int, p.y as int);
        assert(is_strong(r, 0, p));
        assert(is_candidate(r, 0, 0, p));
        assert(g.lit(p));
        lemma_connected_reflexive(g, p);
        assert(is_edge(r, 0, 0, p));
    }
}

/// `m2` holds the squared gradient magnitude of each pixel of `r`.
spec fn is_magnitude_table(r: Raster, m2: Seq<u32>) -> bool {
    &&& m2.len() == r.pixels.len()
    &&& forall|k: int|
        0 <= k < m2.len() ==> (#[trigger] m2[k]) == magnitude2(
            r,
            point_at(r.width, k).x as int,
            point_at(r.width, k).y as int,
        )
}

/// The squared gradient magnitude of each pixel.
fn magnitudes(gray: &Vec<u8>, w: u32, h: u32) -> (m2: Vec<u32>)
    requires
        gray@.len() == w * h,
    ensures
        is_magnitude_table(Raster { width: w as nat, height: h as nat, pixels: gray@ }, m2@),
{
    let n: usize = gray.len();
    let mut m2: Vec<u32> = Vec::new();
    let mut i: usize = 0;
    let ghost r = Raster { width: w as nat, height: h as nat, pixels: gray@ };
    while i < n
        invariant
            n == gray@.len(),
            n == w * h,
            i <= n,
            m2@.len() == i,
            r == (Raster { width: w as nat, height: h as nat, pixels: gray@ }),
            forall|k: int|
                0 <= k < i ==> (#[trigger] m2@[k]) == magnitude2(
                    r,
                    point_at(r.width, k).x as int,
                    point_at(r.width, k).y as int,
                ),
        decreases n - i,
    {
        let p: Point = pixel_at(w, h, i);
        let m: u32 = squared_magnitude(gray, w, h, p.x, p.y);
        m2.push(m);
        i += 1;
    }
    m2
}

/// The squared gradient magnitude at `(x, y)`, read from the table.
fn stored(m2: &Vec<u32>, w: u32, h: u32, x: i64, y: i64, Ghost(r): Ghost<Raster>) -> (m: u32)
    requires
        r.width == w,
        r.height == h,
        r.wf(),
        is_magnitude_table(r, m2@),
    ensures
        m == magnitude2(r, x as int, y as int),
{
    if 0 <= x && x < w as i64 && 0 <= y && y < h as i64 {
        let p: Point = Point { x: x as u32, y: y as u32 };
        assert(m2.len() == w * h);
        let i: usize = cell_index(w, h, p);
        proof {
            lemma_point_at_place(w as nat, p);
        }
        m2[i]
    } else {
        0
    }
}

/// The step to the neighbour that lies along the gradient.
fn step(gx: i32, gy: i32) -> (s: (i64, i64))
    requires
        -1020 <= gx <= 1020,
        -1020 <= gy <= 1020,
    ensures
        (s.0 as int, s.1 as int) == step_along(gx as int, gy as int),
        -1 <= s.0 <= 1,
        -1 <= s.1 <= 1,
{
    let x: i64 = gx as i64;
    let y: i64 = gy as i64;
    let ax: i64 = if x < 0 {
        -x
    } else {
        x
    };
    let ay: i64 = if y < 0 {
        -y
    } else {
        y
    };
    let sum: i64 = ax + ay;
    assert(0 <= sum * sum <= 2040 * 2040) by (nonlinear_arith)
        requires
            0 <= sum <= 2040,
    ;
    assert(0 <= x * x <= 1020 * 1020) by (nonlinear_arith)
        requires
            -1020 <= x <= 1020,
    ;
    assert(0 <= y * y <= 1020 * 1020) by (nonlinear_arith)
        requires
            -1020 <= y <= 1020,
    ;
    assert(2 * x * x == 2 * (x * x)) by (nonlinear_arith);
    assert(2 * y * y == 2 * (y * y)) by (nonlinear_arith);
    if sum * sum <= 2 * (x * x) {
        (1, 0)
    } else if sum * sum <= 2 * (y * y) {
        (0, 1)
    } else if (x > 0) == (y > 0) {
        (1, 1)
    } else {
        (1, -1)
    }
}

/// Whether a gradient of squared magnitude `m` is not below `threshold`.
fn at_or_above(m: u32, threshold: u64) -> (b: bool)
    ensures
        b == reaches(m as int, threshold as int),
{
    assert(threshold * threshold <= 0xffff_ffff_ffff_ffff * 0xffff_ffff_ffff_ffff)
        by (nonlinear_arith)
        requires
            0 <= threshold <= 0xffff_ffff_ffff_ffff,
    ;
    assert(SCALE * SCALE == 65536);
    m as u128 * 65536 >= threshold as u128 * threshold as u128
}

/// For each pixel, whether it is a candidate, and whether it is strong.
fn classify(gray: &Vec<u8>, m2: &Vec<u32>, w: u32, h: u32, low: u64, high: u64) -> (r: (
    Vec<bool>,
    Vec<bool>,
))
    requires
        gray@.len() == w * h,
        is_magnitude_table(Raster { width: w as nat, height: h as nat, pixels: gray@ }, m2@),
    ensures
        r.0@ == candidate_grid(
            Raster { width: w as nat, height: h as nat, pixels: gray@ },
            low as int,
            high as int,
        ).cells,
        r.1@.len() == gray@.len(),
        forall|k: int|
            0 <= k < r.1@.len() ==> (#[trigger] r.1@[k]) == is_strong(
                Raster { width: w as nat, height: h as nat, pixels: gray@ },
                high as int,
                point_at(w as nat, k),
            ),
{
    let n: usize = gray.len();
    let ghost r = Raster { width: w as nat, height: h as nat, pixels: gray@ };
    let mut candidate: Vec<bool> = Vec::new();
    let mut strong: Vec<bool> = Vec::new();
    let mut i: usize = 0;
    while i < n
        invariant
            n == gray@.len(),
            n == w * h,
            i <= n,
            r == (Raster { width: w as nat, height: h as nat, pixels: gray@ }),
            is_magnitude_table(r, m2@),
            candidate@.len() == i,
            strong@.len() == i,
            forall|k: int|
                0 <= k < i ==> (#[trigger] candidate@[k]) == is_candidate(
                    r,
                    low as int,
                    high as int,
                    point_at(w as nat, k),
                ),
            forall|k: int|
                0 <= k < i ==> (#[trigger] strong@[k]) == is_strong(
                    r,
                    high as int,
                    point_at(w as nat, k),
                ),
        decreases n - i,
    {
        let p: Point = pixel_at(w, h, i);
        let (gx, gy) = gradient(gray, w, h, p.x, p.y);
        let (dx, dy) = step(gx, gy);
        let m: u32 = m2[i];
        let x: i64 = p.x as i64;
        let y: i64 = p.y as i64;
        let ahead: u32 = stored(m2, w, h, x + dx, y + dy, Ghost(r));
        let behind: u32 = stored(m2, w, h, x - dx, y - dy, Ghost(r));
        let peak: bool = m >= ahead && m >= behind;
        let above_high: bool = at_or_above(m, high);
        let above_low: bool = at_or_above(m, low);
        assert(peak == is_peak(r, p.x as int, p.y as int));
        candidate.push(peak && (above_high || above_low));
        strong.push(peak && above_high);
        i += 1;
    }
    assert(candidate@ =~= candidate_grid(r, low as int, high as int).cells);
    (candidate, strong)
}

/// A place in the buffer of a grid is the place of a pixel inside the grid.
proof fn lemma_place_in_grid(g: Grid, k: int)
    requires
        g.wf(),
        0 <= k < g.cells.len(),
        g.width <= u32::MAX,
        g.height <= u32::MAX,
    ensures
        g.contains(point_at(g.width, k)),
        g.index_of(point_at(g.width, k)) == k,
{
    lemma_place_of_point(g.width, g.height, k);
}

/// The state of the hysteresis after the strong pixels at the first `i`
/// places: what is flagged is an edge pixel, and those strong pixels are
/// flagged.
spec fn trace_state(
    r: Raster,
    low: int,
    high: int,
    strong: Seq<bool>,
    seen: Seq<bool>,
    i: int,
) -> bool {
    let g = candidate_grid(r, low, high);
    &&& r.wf()
    &&& r.width <= u32::MAX
    &&& r.height <= u32::MAX
    &&& marks_components(g, seen)
    &&& strong.len() == g.cells.len()
    &&& 0 <= i <= strong.len()
    &&& forall|k: int|
        0 <= k < strong.len() ==> (#[trigger] strong[k]) == is_strong(r, high, point_at(r.width, k))
    &&& forall|k: int|
        0 <= k < seen.len() && #[trigger] seen[k] ==> is_edge(r, low, high, point_at(r.width, k))
    &&& forall|k: int| 0 <= k < i && #[trigger] strong[k] ==> seen[k]
}

/// The hysteresis goes on after a traversal from the strong pixel at place
/// `i`.
proof fn lemma_trace_found(
    r: Raster,
    low: int,
    high: int,
    strong: Seq<bool>,
    seen: Seq<bool>,
    i: int,
    c: Seq<Point>,
    seen2: Seq<bool>,
)
    requires
        trace_state(r, low, high, strong, seen, i),
        i < strong.len(),
        strong[i],
        is_traversal(candidate_grid(r, low, high), c),
        c[0] == point_at(r.width, i),
        marks_components(candidate_grid(r, low, high), seen2),
        forall|p: Point|
            candidate_grid(r, low, high).contains(p) ==> (seen2[#[trigger] candidate_grid(
                r,
                low,
                high,
            ).index_of(p)] <==> seen[candidate_grid(r, low, high).index_of(p)] || c.contains(p)),
    ensures
        trace_state(r, low, high, strong, seen2, i + 1),
{
    let g = candidate_grid(r, low, high);
    let seed = point_at(r.width, i);
    assert forall|k: int| 0 <= k < seen2.len() && #[trigger] seen2[k] implies is_edge(
        r,
        low,
        high,
        point_at(r.width, k),
    ) by {
        let p = point_at(r.width, k);
        lemma_place_in_grid(g, k);
        assert(seen2[g.index_of(p)] <==> seen[g.index_of(p)] || c.contains(p));
        if !seen[k] {
            assert(connected(g, seed, p));
            assert(is_strong(r, high, seed));
        }
    }
    assert forall|k: int| 0 <= k < i + 1 && #[trigger] strong[k] implies seen2[k] by {
        let p = point_at(r.width, k);
        lemma_place_in_grid(g, k);
        assert(seen2[g.index_of(p)] <==> seen[g.index_of(p)] || c.contains(p));
        if k == i {
            assert(c[0] == p);
        }
    }
}

/// When every strong pixel was dealt with, the flags are the edge pixels.
proof fn lemma_trace_done(r: Raster, low: int, high: int, strong: Seq<bool>, seen: Seq<bool>)
    requires
        trace_state(r, low, high, strong, seen, strong.len() as int),
    ensures
        forall|k: int|
            0 <= k < seen.len() ==> (#[trigger] seen[k] <==> is_edge(
                r,
                low,
                high,
                point_at(r.width, k),
            )),
{
    let g = candidate_grid(r, low, high);
    let flagged = Set::new(|q: Point| g.contains(q) && seen[g.index_of(q)]);
    assert forall|a: Point, b: Point|
        flagged.contains(a) && g.lit(b) && #[trigger] adjacent(a, b) implies flagged.contains(
        b,
    ) by {
        lemma_index_in_range(g, a);
        lemma_point_at_place(r.width, a);
        assert(seen[g.index_of(a)]);
        let s = choose|s: Point| is_strong(r, high, s) && connected(g, s, a);
        lemma_connected_lit(g, s, a);
    }
    assert forall|k: int| 0 <= k < seen.len() && is_edge(
        r,
        low,
        high,
        point_at(r.width, k),
    ) implies #[trigger] seen[k] by {
        let p = point_at(r.width, k);
        lemma_place_in_grid(g, k);
        let s = choose|s: Point| is_strong(r, high, s) && connected(g, s, p);
        lemma_index_in_range(g, s);
        lemma_point_at_place(r.width, s);
        assert(strong[g.index_of(s)]);
        assert(flagged.contains(s));
        lemma_closed_holds_connected(g, flagged, s, p);
    }
}

/// Keeps the candidates that are connected to a strong pixel.
fn hysteresis(
    mask: &Mask,
    strong: &Vec<bool>,
    Ghost(r): Ghost<Raster>,
    Ghost(low): Ghost<int>,
    Ghost(high): Ghost<int>,
) -> (out: Vec<u8>)
    requires
        r.wf(),
        mask.wf(),
        mask@ == candidate_grid(r, low, high),
        strong@.len() == r.pixels.len(),
        forall|k: int|
            0 <= k < strong@.len() ==> (#[trigger] strong@[k]) == is_strong(
                r,
                high,
                point_at(r.width, k),
            ),
    ensures
        out@ == edge_map(r, low, high),
{
    let w: u32 = mask.width();
    let h: u32 = mask.height();
    let n: usize = mask.len();
    let ghost g = mask@;
    let mut seen: Vec<bool> = unmarked(n);
    let mut i: usize = 0;
    proof {
        assert forall|p: Point| g.contains(p) implies !seen@[#[trigger] g.index_of(p)] by {
            lemma_index_in_range(g, p);
        }
    }
    while i < n
        invariant
            trace_state(r, low, high, strong@, seen@, i as int),
            mask.wf(),
            g == mask@,
            g == candidate_grid(r, low, high),
            w == g.width,
            h == g.height,
            n == g.cells.len(),
            n == w * h,
        decreases n - i,
    {
        if strong[i] && !seen[i] {
            let seed: Point = pixel_at(w, h, i);
            let ghost before = seen@;
            proof {
                lemma_place_in_grid(g, i as int);
            }
            let c: Vec<Point> = flood(mask, &mut seen, seed);
            proof {
                lemma_trace_found(r, low, high, strong@, before, i as int, c@, seen@);
            }
        }
        i += 1;
    }
    proof {
        lemma_trace_done(r, low, high, strong@, seen@);
    }
    let mut out: Vec<u8> = Vec::new();
    let mut k: usize = 0;
    while k < n
        invariant
            n == seen@.len(),
            k <= n,
            out@.len() == k,
            forall|j: int|
                0 <= j < k ==> (#[trigger] out@[j]) == (if seen@[j] {
                    255u8
                } else {
                    0u8
                }),
        decreases n - k,
    {
        out.push(if seen[k] { 255 } else { 0 });
        k += 1;
    }
    assert(out@ =~= edge_map(r, low, high));
    out
}

/// The edge detector for frames of one size.
#[derive(Clone, Copy, Debug)]
pub struct EdgeDetector {
    width: u32,
    height: u32,
}

impl EdgeDetector {
    /// The width and the height of the frames.
    pub closed spec fn resolution(&self) -> (u32, u32) {
        (self.width, self.height)
    }

    /// A detector for frames of the given size.
    pub fn new(resolution: (u32, u32)) -> (d: EdgeDetector)
        ensures
            d.resolution() == resolution,
    {
        EdgeDetector { width: resolution.0, height: resolution.1 }
    }

    /// The width and the height of the frames.
    pub fn get_resolution(&self) -> (r: (u32, u32))
        ensures
            r == self.resolution(),
    {
        (self.width, self.height)
    }

    /// The edge map of a grayscale frame: 255 at each pixel that survives
    /// the suppression of non-maxima with a gradient not below `high`, and
    /// at each that survives it with a gradient not below `low` and is
    /// connected to such a pixel through others of either kind; 0 elsewhere.
    /// The thresholds are in units of `1 / SCALE`. A pixel whose gradient is
    /// equal to a threshold reaches it, and one whose gradient is equal to
    /// that of a neighbour survives. With `low` above `high` no pixel is
    /// weak, and the map shows the strong pixels.
    pub fn execute_edge_detection(&self, gray: Vec<u8>, low: u64, high: u64) -> (out: Vec<u8>)
        requires
            gray@.len() == self.resolution().0 * self.resolution().1,
        ensures
            out@.len() == gray@.len(),
            out@ == edge_map(
                Raster {
                    width: self.resolution().0 as nat,
                    height: self.resolution().1 as nat,
                    pixels: gray@,
                },
                low as int,
                high as int,
            ),
    {
        let w: u32 = self.width;
        let h: u32 = self.height;
        let ghost r = Raster { width: w as nat, height: h as nat, pixels: gray@ };
        let m2: Vec<u32> = magnitudes(&gray, w, h);
        let (candidate, strong) = classify(&gray, &m2, w, h, low, high);
        let mask: Mask = Mask::new(w, h, candidate).unwrap();
        hysteresis(&mask, &strong, Ghost(r), Ghost(low as int), Ghost(high as int))
    }
}

} // verus!
