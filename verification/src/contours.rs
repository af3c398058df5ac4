//! Contour extraction: the connected components of an edge map, as point
//! sequences, without those below a minimum size.

use vstd::prelude::*;
use crate::connectivity::{
    components, is_partition, is_traversal, lemma_components_are, lemma_connected_lit,
};
use crate::flood::{flood, marks_components, unmarked};
use crate::frame::GrayMap;
use crate::geometry::{precedes, Point};
use crate::grid::{cell_index, lemma_index_in_range, Grid, Mask};

verus! {

/// The pixels of one connected component of an edge map, in traversal order.
#[derive(Clone, Debug)]
pub struct Contour {
    pub points: Vec<Point>,
}

impl View for Contour {
    type V = Seq<Point>;

    open spec fn view(&self) -> Seq<Point> {
        self.points@
    }
}

/// The point sequences of a list of contours.
pub open spec fn contour_views(contours: Seq<Contour>) -> Seq<Seq<Point>> {
    Seq::new(contours.len(), |i: int| contours[i]@)
}

/// The test for a contour of at least `n` points.
pub open spec fn at_least(n: nat) -> spec_fn(Seq<Point>) -> bool {
    |c: Seq<Point>| c.len() >= n
}

/// The contours of an edge map: its connected components of at least
/// `size_filter` points.
pub open spec fn contours_of(g: Grid, size_filter: nat) -> Seq<Seq<Point>> {
    components(g).filter(at_least(size_filter))
}

/// Every contour has at least as many points as the size filter asks for.
pub proof fn lemma_contours_meet_filter(g: Grid, size_filter: nat)
    ensures
        forall|k: int|
            0 <= k < contours_of(g, size_filter).len() ==> (#[trigger] contours_of(
                g,
                size_filter,
            )[k]).len() >= size_filter,
{
    let all = components(g);
    let keep = at_least(size_filter);
    assert forall|k: int| 0 <= k < all.filter(keep).len() implies (#[trigger] all.filter(
        keep,
    )[k]).len() >= size_filter by {
        all.lemma_filter_pred(keep, k);
    }
}

/// Every point of a contour is a set pixel of the grid.
pub proof fn lemma_contour_points_lit(g: Grid, size_filter: nat)
    requires
        is_partition(g, components(g)),
    ensures
        forall|k: int, j: int|
            0 <= k < contours_of(g, size_filter).len() && 0 <= j < contours_of(
                g,
                size_filter,
            )[k].len() ==> g.lit(#[trigger] contours_of(g, size_filter)[k][j]),
{
    let all = components(g);
    let kept = contours_of(g, size_filter);
    assert forall|k: int, j: int| 0 <= k < kept.len() && 0 <= j < kept[k].len() implies g.lit(
        #[trigger] kept[k][j],
    ) by {
        let c = kept[k];
        assert(kept.contains(c));
        all.lemma_filter_contains_rev(at_least(size_filter), c);
        let i = choose|i: int| 0 <= i < all.len() && all[i] == c;
        assert(is_traversal(g, all[i]));
        assert(c.contains(c[j]));
        lemma_connected_lit(g, c[0], c[j]);
    }
}

/// A size filter of zero drops nothing: the contours are all the components,
/// those of a single pixel too.
pub proof fn lemma_zero_filter_keeps_all(g: Grid)
    ensures
        contours_of(g, 0) == components(g),
{
    lemma_filter_keeps_all(components(g));
}

proof fn lemma_filter_keeps_all(s: Seq<Seq<Point>>)
    ensures
        s.filter(at_least(0)) == s,
    decreases s.len(),
{
    if s.len() == 0 {
        assert(s.filter(at_least(0)) =~= s);
    } else {
        let front = s.drop_last();
        lemma_filter_keeps_all(front);
        front.lemma_filter_push(s.last(), at_least(0));
        assert(front.push(s.last()) =~= s);
    }
}

/// The state of a scan that has met the components in `all`: it stands at
/// `at`, and has dealt with that pixel too if `handled` says so.
spec fn scan_state(g: Grid, all: Seq<Seq<Point>>, seen: Seq<bool>, at: Point, handled: bool) -> bool {
    &&& g.wf()
    &&& marks_components(g, seen)
    &&& forall|i: int| 0 <= i < all.len() ==> is_traversal(g, #[trigger] all[i])
    &&& forall|i: int, k: int|
        0 <= i < all.len() && 0 <= k < all[i].len() ==> !precedes(#[trigger] all[i][k], all[i][0])
    &&& forall|i: int, j: int|
        0 <= i < j < all.len() ==> precedes(#[trigger] all[i][0], #[trigger] all[j][0])
    &&& forall|i: int|
        0 <= i < all.len() ==> precedes(#[trigger] all[i][0], at) || (handled && all[i][0] == at)
    &&& forall|p: Point|
        g.lit(p) && (precedes(p, at) || (handled && p == at)) ==> seen[#[trigger] g.index_of(p)]
    &&& forall|p: Point|
        g.contains(p) && seen[#[trigger] g.index_of(p)] ==> exists|i: int|
            0 <= i < all.len() && #[trigger] all[i].contains(p)
}

/// The scan goes on after a traversal from the pixel it stands at.
proof fn lemma_scan_found(
    g: Grid,
    all: Seq<Seq<Point>>,
    seen: Seq<bool>,
    at: Point,
    c: Seq<Point>,
    seen2: Seq<bool>,
)
    requires
        scan_state(g, all, seen, at, false),
        g.lit(at),
        !seen[g.index_of(at)],
        is_traversal(g, c),
        c[0] == at,
        marks_components(g, seen2),
        forall|p: Point|
            g.contains(p) ==> (seen2[#[trigger] g.index_of(p)] <==> seen[g.index_of(p)]
                || c.contains(p)),
        forall|k: int| 0 <= k < c.len() ==> !seen[g.index_of(#[trigger] c[k])],
    ensures
        scan_state(g, all.push(c), seen2, at, true),
{
    let all2 = all.push(c);
    let last = all.len() as int;
    assert forall|i: int| 0 <= i < all2.len() implies is_traversal(g, #[trigger] all2[i]) by {
        if i < last {
            assert(all2[i] == all[i]);
        }
    }
    assert forall|i: int, k: int| 0 <= i < all2.len() && 0 <= k < all2[i].len() implies !precedes(
        #[trigger] all2[i][k],
        all2[i][0],
    ) by {
        if i < last {
            assert(all2[i] == all[i]);
        } else {
            assert(c.contains(c[k]));
            lemma_connected_lit(g, c[0], c[k]);
        }
    }
    assert forall|i: int, j: int| 0 <= i < j < all2.len() implies precedes(
        #[trigger] all2[i][0],
        #[trigger] all2[j][0],
    ) by {
        assert(all2[i] == all[i]);
        if j < last {
            assert(all2[j] == all[j]);
        }
    }
    assert forall|i: int| 0 <= i < all2.len() implies precedes(#[trigger] all2[i][0], at)
        || all2[i][0] == at by {
        if i < last {
            assert(all2[i] == all[i]);
        }
    }
    assert forall|p: Point| g.lit(p) && (precedes(p, at) || p == at) implies seen2[#[trigger] g.index_of(
        p,
    )] by {
        if p == at {
            assert(c[0] == p);
        }
    }
    assert forall|p: Point| g.contains(p) && seen2[#[trigger] g.index_of(p)] implies exists|i: int|
        0 <= i < all2.len() && #[trigger] all2[i].contains(p) by {
        if seen[g.index_of(p)] {
            let i = choose|i: int| 0 <= i < all.len() && #[trigger] all[i].contains(p);
            assert(all2[i] == all[i]);
        } else {
            assert(all2[last].contains(p));
        }
    }
}

/// A scan starts with nothing seen.
proof fn lemma_scan_start(g: Grid, seen: Seq<bool>)
    requires
        g.wf(),
        seen.len() == g.cells.len(),
        forall|i: int| 0 <= i < seen.len() ==> !seen[i],
    ensures
        scan_state(g, Seq::empty(), seen, Point { x: 0, y: 0 }, false),
{
    assert forall|p: Point| g.contains(p) implies !seen[#[trigger] g.index_of(p)] by {
        lemma_index_in_range(g, p);
    }
}

/// The scan goes on when the pixel it stands at is not set or was seen.
proof fn lemma_scan_skip(g: Grid, all: Seq<Seq<Point>>, seen: Seq<bool>, at: Point)
    requires
        scan_state(g, all, seen, at, false),
        !g.lit(at) || seen[g.index_of(at)],
    ensures
        scan_state(g, all, seen, at, true),
{
}

/// The scan moves to the next pixel of the row, or to the next row.
proof fn lemma_scan_advance(g: Grid, all: Seq<Seq<Point>>, seen: Seq<bool>, at: Point, next: Point)
    requires
        scan_state(g, all, seen, at, true),
        g.contains(at),
        if at.x + 1 == g.width {
            next.x == 0 && next.y == at.y + 1
        } else {
            next.x == at.x + 1 && next.y == at.y
        },
    ensures
        scan_state(g, all, seen, next, false),
{
    assert forall|i: int| 0 <= i < all.len() implies precedes(#[trigger] all[i][0], next) by {
        assert(all[i].contains(all[i][0]));
        lemma_connected_lit(g, all[i][0], all[i][0]);
    }
}

/// A scan that has dealt with every row has met every component.
proof fn lemma_scan_done(g: Grid, all: Seq<Seq<Point>>, seen: Seq<bool>, at: Point)
    requires
        scan_state(g, all, seen, at, false),
        at.y >= g.height,
    ensures
        is_partition(g, all),
{
    assert forall|p: Point| #[trigger] g.lit(p) implies exists|i: int|
        0 <= i < all.len() && #[trigger] all[i].contains(p) by {
        assert(precedes(p, at));
        assert(seen[g.index_of(p)]);
    }
}

/// Groups the set pixels of `mask` into its connected components, each in
/// breadth-first order from its first pixel, and keeps those of at least
/// `size_filter` pixels.
pub fn trace_components(mask: &Mask, size_filter: usize) -> (r: Vec<Contour>)
    requires
        mask.wf(),
    ensures
        is_partition(mask@, components(mask@)),
        contour_views(r@) == contours_of(mask@, size_filter as nat),
        forall|k: int, j: int|
            0 <= k < r@.len() && 0 <= j < r@[k]@.len() ==> mask@.lit(#[trigger] r@[k]@[j]),
        forall|k: int| 0 <= k < r@.len() ==> (#[trigger] r@[k])@.len() >= size_filter,
        size_filter == 0 ==> contour_views(r@) == components(mask@),
{
    let w: u32 = mask.width();
    let h: u32 = mask.height();
    let ghost g = mask@;
    let mut out: Vec<Contour> = Vec::new();
    let ghost mut all: Seq<Seq<Point>> = Seq::empty();
    let ghost keep = at_least(size_filter as nat);
    assert(contour_views(out@) =~= all.filter(keep));
    if w == 0 {
        proof {
            assert forall|p: Point| !g.lit(p) by {}
            assert(is_partition(g, all));
            lemma_components_are(g, all);
            lemma_zero_filter_keeps_all(g);
        }
        return out;
    }
    let n: usize = mask.len();
    let mut seen: Vec<bool> = unmarked(n);
    proof {
        lemma_scan_start(g, seen@);
    }
    let mut x: u32 = 0;
    let mut y: u32 = 0;
    while y < h
        invariant
            scan_state(g, all, seen@, Point { x, y }, false),
            contour_views(out@) == all.filter(keep),
            keep == at_least(size_filter as nat),
            g == mask@,
            mask.wf(),
            w == g.width,
            h == g.height,
            n == g.cells.len(),
            w > 0,
            x < w,
            y <= h,
        decreases h - y, w - x,
    {
        let at: Point = Point { x, y };
        let ghost before = seen@;
        let ghost met = all;
        let mut found: bool = false;
        if mask.get(at) {
            let i: usize = cell_index(w, h, at);
            if !seen[i] {
                let c: Vec<Point> = flood(mask, &mut seen, at);
                found = true;
                proof {
                    lemma_scan_found(g, met, before, at, c@, seen@);
                    all.lemma_filter_push(c@, keep);
                    all = all.push(c@);
                }
                if c.len() >= size_filter {
                    let ghost old_out = out@;
                    out.push(Contour { points: c });
                    assert(contour_views(out@) =~= contour_views(old_out).push(c@));
                }
            }
        }
        x += 1;
        if x == w {
            x = 0;
            y += 1;
        }
        proof {
            if !found {
                lemma_scan_skip(g, met, before, at);
            }
            lemma_scan_advance(g, all, seen@, at, Point { x, y });
        }
    }
    proof {
        lemma_scan_done(g, all, seen@, Point { x, y });
        lemma_components_are(g, all);
        lemma_contours_meet_filter(g, size_filter as nat);
        lemma_zero_filter_keeps_all(g);
        lemma_contour_points_lit(g, size_filter as nat);
        assert forall|k: int| 0 <= k < out@.len() implies (#[trigger] out@[k])@.len()
            >= size_filter by {
            assert(contour_views(out@)[k] == out@[k]@);
        }
        assert forall|k: int, j: int| 0 <= k < out@.len() && 0 <= j < out@[k]@.len() implies g.lit(
            #[trigger] out@[k]@[j],
        ) by {
            let kept = contours_of(g, size_filter as nat);
            assert(contour_views(out@)[k] == out@[k]@);
            assert(kept[k] == out@[k]@);
            assert(g.lit(kept[k][j]));
        }
    }
    out
}

/// The contour extractor.
#[derive(Clone, Copy, Debug)]
pub struct ContourProcessor;

impl ContourProcessor {
    /// The contours of `edge_map`: the connected components of its pixels
    /// that are not zero, under the eight-neighbourhood, without those of
    /// fewer than `size_filter` pixels.
    pub fn find_contours(&self, edge_map: &GrayMap, size_filter: usize) -> (r: Vec<Contour>)
        requires
            edge_map.wf(),
        ensures
            is_partition(edge_map@.nonzero(), components(edge_map@.nonzero())),
            contour_views(r@) == contours_of(edge_map@.nonzero(), size_filter as nat),
            forall|k: int, j: int|
                0 <= k < r@.len() && 0 <= j < r@[k]@.len() ==> edge_map@.nonzero().lit(
                    #[trigger] r@[k]@[j],
                ),
            forall|k: int| 0 <= k < r@.len() ==> (#[trigger] r@[k])@.len() >= size_filter,
            size_filter == 0 ==> contour_views(r@) == components(edge_map@.nonzero()),
    {
        let mask: Mask = edge_map.nonzero_mask();
        trace_components(&mask, size_filter)
    }
}

} // verus!
