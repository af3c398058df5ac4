//! The tuning parameters of the pipeline and the acceptance window for
//! candidates.

use vstd::prelude::*;
use crate::fit::EllipseCandidate;
use crate::numeric::SCALE;

verus! {

/// One snapshot of the parameters that the control surface adjusts.
/// Thresholds and radii are in units of `1 / SCALE`.
#[derive(Clone, Copy, Debug, PartialEq, Eq)]
pub struct TuningState {
    pub low_threshold: u64,
    pub high_threshold: u64,
    pub size_filter: usize,
    pub eye_pos: (u32, u32),
    pub eye_pos_threshold: u32,
    pub eye_min_radius: u64,
    pub eye_max_radius: u64,
}

/// The smaller side of a frame.
pub open spec fn smaller_side(resolution: (u32, u32)) -> int {
    if resolution.0 <= resolution.1 {
        resolution.0 as int
    } else {
        resolution.1 as int
    }
}

/// The parameters that a session starts with: thresholds of 60 and 120, no
/// size filter, the eye expected in the middle of the frame, within a fifth
/// of the smaller side, with a radius between a seventh and a fifth of it.
pub open spec fn initial_tuning(resolution: (u32, u32)) -> TuningState {
    TuningState {
        low_threshold: (60 * SCALE) as u64,
        high_threshold: (120 * SCALE) as u64,
        size_filter: 0,
        eye_pos: ((resolution.0 / 2) as u32, (resolution.1 / 2) as u32),
        eye_pos_threshold: (smaller_side(resolution) / 5) as u32,
        eye_min_radius: (smaller_side(resolution) * SCALE / 7) as u64,
        eye_max_radius: (smaller_side(resolution) * SCALE / 5) as u64,
    }
}

/// The candidate lies in the window: its radius strictly between the two
/// radii, and its centre strictly less than `eye_pos_threshold` away from
/// `eye_pos` along each axis.
pub open spec fn accepts(t: TuningState, e: EllipseCandidate) -> bool {
    &&& t.eye_min_radius < e.radius < t.eye_max_radius
    &&& t.eye_pos.0 - t.eye_pos_threshold < e.center_x < t.eye_pos.0 + t.eye_pos_threshold
    &&& t.eye_pos.1 - t.eye_pos_threshold < e.center_y < t.eye_pos.1 + t.eye_pos_threshold
}

/// The test that `accepts` makes with the parameters `t`.
pub open spec fn window(t: TuningState) -> spec_fn(EllipseCandidate) -> bool {
    |e: EllipseCandidate| accepts(t, e)
}

impl TuningState {
    /// A snapshot of the seven parameters.
    pub fn new(
        low_threshold: u64,
        high_threshold: u64,
        size_filter: usize,
        eye_pos: (u32, u32),
        eye_pos_threshold: u32,
        eye_min_radius: u64,
        eye_max_radius: u64,
    ) -> (t: TuningState)
        ensures
            t == (TuningState {
                low_threshold,
                high_threshold,
                size_filter,
                eye_pos,
                eye_pos_threshold,
                eye_min_radius,
                eye_max_radius,
            }),
    {
        TuningState {
            low_threshold,
            high_threshold,
            size_filter,
            eye_pos,
            eye_pos_threshold,
            eye_min_radius,
            eye_max_radius,
        }
    }

    /// The parameters that a session with frames of the given size starts
    /// with.
    pub fn initial(resolution: (u32, u32)) -> (t: TuningState)
        ensures
            t == initial_tuning(resolution),
    {
        let side: u64 = if resolution.0 <= resolution.1 {
            resolution.0 as u64
        } else {
            resolution.1 as u64
        };
        TuningState {
            low_threshold: 60 * SCALE,
            high_threshold: 120 * SCALE,
            size_filter: 0,
            eye_pos: (resolution.0 / 2, resolution.1 / 2),
            eye_pos_threshold: (side / 5) as u32,
            eye_min_radius: side * SCALE / 7,
            eye_max_radius: side * SCALE / 5,
        }
    }

    /// Whether the candidate lies in the window.
    pub fn accepts(&self, e: &EllipseCandidate) -> (b: bool)
        ensures
            b == accepts(*self, *e),
    {
        let cx: u128 = e.center_x as u128;
        let cy: u128 = e.center_y as u128;
        let px: u128 = self.eye_pos.0 as u128;
        let py: u128 = self.eye_pos.1 as u128;
        let reach: u128 = self.eye_pos_threshold as u128;
        self.eye_min_radius < e.radius && e.radius < self.eye_max_radius && px < cx + reach && cx
            < px + reach && py < cy + reach && cy < py + reach
    }

    /// The candidates that lie in the window, in their order.
    pub fn filter_candidates(&self, candidates: &Vec<EllipseCandidate>) -> (r: Vec<
        EllipseCandidate,
    >)
        ensures
            r@ == candidates@.filter(window(*self)),
    {
        let n: usize = candidates.len();
        let mut out: Vec<EllipseCandidate> = Vec::new();
        let mut i: usize = 0;
        assert(candidates@.take(0).filter(window(*self)) =~= Seq::empty());
        while i < n
            invariant
                n == candidates@.len(),
                i <= n,
                out@ == candidates@.take(i as int).filter(window(*self)),
            decreases n - i,
        {
            let e: EllipseCandidate = candidates[i];
            proof {
                candidates@.take(i as int).lemma_filter_push(e, window(*self));
                assert(candidates@.take(i as int).push(e) =~= candidates@.take(i + 1));
            }
            if self.accepts(&e) {
                out.push(e);
            }
            i += 1;
        }
        assert(candidates@.take(n as int) =~= candidates@);
        out
    }
}

} // verus!
