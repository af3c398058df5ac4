//! Circle fitting: one candidate per contour, centred at the centroid of the
//! contour, with the mean distance of its points from that centre as radius.

use vstd::prelude::*;
use vstd::arithmetic::div_mod::{
    lemma_div_pos_is_pos, lemma_fundamental_div_mod, lemma_mod_pos_bound, lemma_multiply_divide_le,
};
use crate::contours::{contour_views, Contour};
use crate::geometry::Point;
use crate::numeric::{floor_sqrt, isqrt, lemma_floor_sqrt_exists, lemma_square_monotone, SCALE};

verus! {

/// A circle fitted to one contour: its centre in pixels and its radius in
/// units of `1 / SCALE` pixel.
#[derive(Clone, Copy, Debug, PartialEq, Eq, Structural)]
pub struct EllipseCandidate {
    pub center_x: usize,
    pub center_y: usize,
    pub radius: u64,
}

/// The sum of the columns of the points of `c`.
pub open spec fn sum_x(c: Seq<Point>) -> int
    decreases c.len(),
{
    if c.len() == 0 {
        0
    } else {
        sum_x(c.drop_last()) + c.last().x
    }
}

/// The sum of the rows of the points of `c`.
pub open spec fn sum_y(c: Seq<Point>) -> int
    decreases c.len(),
{
    if c.len() == 0 {
        0
    } else {
        sum_y(c.drop_last()) + c.last().y
    }
}

/// `sum / n`, rounded to the nearest whole number, a half upwards.
pub open spec fn rounded_mean(sum: int, n: int) -> int {
    (2 * sum + n) / (2 * n)
}

/// The square of the distance from `p` to `(cx, cy)`.
pub open spec fn squared_distance(p: Point, cx: int, cy: int) -> int {
    (p.x - cx) * (p.x - cx) + (p.y - cy) * (p.y - cy)
}

/// The distance from `p` to `(cx, cy)` in units of `1 / SCALE` pixel,
/// rounded down.
pub open spec fn scaled_distance(p: Point, cx: int, cy: int) -> int {
    floor_sqrt(squared_distance(p, cx, cy) * (SCALE * SCALE))
}

/// The sum of the scaled distances of the points of `c` from `(cx, cy)`.
pub open spec fn sum_distances(c: Seq<Point>, cx: int, cy: int) -> int
    decreases c.len(),
{
    if c.len() == 0 {
        0
    } else {
        sum_distances(c.drop_last(), cx, cy) + scaled_distance(c.last(), cx, cy)
    }
}

/// The column of the centre of the circle fitted to `c`.
pub open spec fn center_x_of(c: Seq<Point>) -> int {
    if c.len() == 0 {
        0
    } else {
        rounded_mean(sum_x(c), c.len() as int)
    }
}

/// The row of the centre of the circle fitted to `c`.
pub open spec fn center_y_of(c: Seq<Point>) -> int {
    if c.len() == 0 {
        0
    } else {
        rounded_mean(sum_y(c), c.len() as int)
    }
}

/// The radius of the circle fitted to `c`, in units of `1 / SCALE` pixel: the
/// mean distance of the points from the centre, rounded down, and 0 for a
/// contour without points.
pub open spec fn radius_of(c: Seq<Point>) -> int {
    if c.len() == 0 {
        0
    } else {
        sum_distances(c, center_x_of(c), center_y_of(c)) / (c.len() as int)
    }
}

/// `e` is the circle fitted to `c`.
pub open spec fn is_fit(c: Seq<Point>, e: EllipseCandidate) -> bool {
    &&& e.center_x == center_x_of(c)
    &&& e.center_y == center_y_of(c)
    &&& e.radius == radius_of(c)
}

/// The circle fitted to `c`.
pub open spec fn circle_of(c: Seq<Point>) -> EllipseCandidate {
    EllipseCandidate {
        center_x: center_x_of(c) as usize,
        center_y: center_y_of(c) as usize,
        radius: radius_of(c) as u64,
    }
}

/// The circles fitted to the contours, one for each in their order.
pub open spec fn fits_of(contours: Seq<Seq<Point>>) -> Seq<EllipseCandidate> {
    Seq::new(contours.len(), |i: int| circle_of(contours[i]))
}

/// A sum of distances is not negative.
pub proof fn lemma_sum_distances_not_negative(c: Seq<Point>, cx: int, cy: int)
    ensures
        sum_distances(c, cx, cy) >= 0,
    decreases c.len(),
{
    if c.len() > 0 {
        lemma_sum_distances_not_negative(c.drop_last(), cx, cy);
        let p = c.last();
        let d2 = squared_distance(p, cx, cy);
        assert(d2 * (SCALE * SCALE) >= 0) by (nonlinear_arith)
            requires
                d2 == (p.x - cx) * (p.x - cx) + (p.y - cy) * (p.y - cy),
                SCALE * SCALE == 65536,
        ;
        lemma_floor_sqrt_exists(d2 * (SCALE * SCALE));
    }
}

/// The radius of a fitted circle is not negative.
pub proof fn lemma_radius_not_negative(c: Seq<Point>)
    ensures
        radius_of(c) >= 0,
{
    if c.len() > 0 {
        lemma_sum_distances_not_negative(c, center_x_of(c), center_y_of(c));
        lemma_div_pos_is_pos(
            sum_distances(c, center_x_of(c), center_y_of(c)),
            c.len() as int,
        );
    }
}

/// The rounded mean of `n` numbers that lie between 0 and `max` lies between
/// 0 and `max`.
proof fn lemma_rounded_mean_bounded(sum: int, n: int, max: int)
    requires
        0 < n,
        0 <= sum <= n * max,
    ensures
        0 <= rounded_mean(sum, n) <= max,
{
    lemma_div_pos_is_pos(2 * sum + n, 2 * n);
    assert(2 * sum + n <= (2 * n) * max + n) by (nonlinear_arith)
        requires
            sum <= n * max,
    ;
    if rounded_mean(sum, n) > max {
        lemma_fundamental_div_mod(2 * sum + n, 2 * n);
        let q = (2 * sum + n) / (2 * n);
        let r = (2 * sum + n) % (2 * n);
        lemma_mod_pos_bound(2 * sum + n, 2 * n);
        assert((2 * n) * q >= (2 * n) * (max + 1)) by (nonlinear_arith)
            requires
                q >= max + 1,
                n > 0,
        ;
        assert((2 * n) * (max + 1) == (2 * n) * max + 2 * n) by (nonlinear_arith);
    }
}

/// The distance between two pixels, in units of `1 / SCALE` pixel and
/// rounded down.
fn distance(p: Point, cx: u32, cy: u32) -> (r: u64)
    ensures
        r == scaled_distance(p, cx as int, cy as int),
        r < 0x200_0000_0000,
{
    let dx: u128 = if p.x >= cx {
        (p.x - cx) as u128
    } else {
        (cx - p.x) as u128
    };
    let dy: u128 = if p.y >= cy {
        (p.y - cy) as u128
    } else {
        (cy - p.y) as u128
    };
    assert(dx * dx <= 0xffff_ffff * 0xffff_ffff) by (nonlinear_arith)
        requires
            0 <= dx <= 0xffff_ffff,
    ;
    assert(dy * dy <= 0xffff_ffff * 0xffff_ffff) by (nonlinear_arith)
        requires
            0 <= dy <= 0xffff_ffff,
    ;
    assert(dx * dx == (p.x - cx) * (p.x - cx)) by (nonlinear_arith)
        requires
            dx == p.x - cx || dx == cx - p.x,
    ;
    assert(dy * dy == (p.y - cy) * (p.y - cy)) by (nonlinear_arith)
        requires
            dy == p.y - cy || dy == cy - p.y,
    ;
    let d2: u128 = dx * dx + dy * dy;
    assert(SCALE * SCALE == 65536);
    let r: u64 = isqrt(d2 * 65536);
    proof {
        if r >= 0x200_0000_0000 {
            lemma_square_monotone(0x200_0000_0000, r as int);
        }
    }
    r
}

/// The circle fitted to the points of `c`.
pub fn fit_circle(c: &Vec<Point>) -> (e: EllipseCandidate)
    ensures
        is_fit(c@, e),
        e == circle_of(c@),
{
    let n: usize = c.len();
    if n == 0 {
        return EllipseCandidate { center_x: 0, center_y: 0, radius: 0 };
    }
    let mut sx: u128 = 0;
    let mut sy: u128 = 0;
    let mut i: usize = 0;
    while i < n
        invariant
            n == c@.len(),
            i <= n,
            sx == sum_x(c@.take(i as int)),
            sy == sum_y(c@.take(i as int)),
            sx <= i * 0xffff_ffff,
            sy <= i * 0xffff_ffff,
        decreases n - i,
    {
        let p: Point = c[i];
        assert(c@.take(i + 1).drop_last() =~= c@.take(i as int));
        sx = sx + p.x as u128;
        sy = sy + p.y as u128;
        i += 1;
    }
    assert(c@.take(n as int) =~= c@);
    proof {
        lemma_rounded_mean_bounded(sx as int, n as int, 0xffff_ffff);
        lemma_rounded_mean_bounded(sy as int, n as int, 0xffff_ffff);
    }
    let cx: u32 = ((2 * sx + n as u128) / (2 * n as u128)) as u32;
    let cy: u32 = ((2 * sy + n as u128) / (2 * n as u128)) as u32;
    let mut total: u128 = 0;
    let mut k: usize = 0;
    while k < n
        invariant
            n == c@.len(),
            k <= n,
            total == sum_distances(c@.take(k as int), cx as int, cy as int),
            total <= k * 0x200_0000_0000,
        decreases n - k,
    {
        let p: Point = c[k];
        assert(c@.take(k + 1).drop_last() =~= c@.take(k as int));
        let r: u64 = distance(p, cx, cy);
        total = total + r as u128;
        k += 1;
    }
    proof {
        lemma_multiply_divide_le(total as int, n as int, 0x200_0000_0000);
        lemma_div_pos_is_pos(total as int, n as int);
    }
    let radius: u64 = (total / n as u128) as u64;
    EllipseCandidate { center_x: cx as usize, center_y: cy as usize, radius }
}

/// The ellipse fitter.
#[derive(Clone, Copy, Debug)]
pub struct EllipseFitter;

impl EllipseFitter {
    /// One candidate for each contour, in the order of the contours, or
    /// nothing when there is no contour.
    pub fn execute_ellipse_fit(&self, contours: &Vec<Contour>) -> (r: Option<
        Vec<EllipseCandidate>,
    >)
        ensures
            r is None <==> contours@.len() == 0,
            r matches Some(v) ==> {
                &&& v@.len() == contours@.len()
                &&& forall|i: int| 0 <= i < v@.len() ==> is_fit(contours@[i]@, #[trigger] v@[i])
                &&& v@ == fits_of(contour_views(contours@))
                &&& forall|i: int| 0 <= i < v@.len() ==> (#[trigger] v@[i]).radius >= 0
            },
    {
        let n: usize = contours.len();
        if n == 0 {
            return None;
        }
        let mut out: Vec<EllipseCandidate> = Vec::new();
        let mut i: usize = 0;
        while i < n
            invariant
                n == contours@.len(),
                i <= n,
                out@.len() == i,
                forall|k: int| 0 <= k < i ==> is_fit(contours@[k]@, #[trigger] out@[k]),
                forall|k: int| 0 <= k < i ==> (#[trigger] out@[k]) == circle_of(contours@[k]@),
            decreases n - i,
        {
            let e: EllipseCandidate = fit_circle(&contours[i].points);
            out.push(e);
            i += 1;
        }
        assert(out@ =~= fits_of(contour_views(contours@)));
        Some(out)
    }
}

} // verus!
