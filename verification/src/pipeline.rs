//! The processing context and the frame loop: one frame in, one image for
//! the renderer and the accepted candidates out.

use vstd::prelude::*;
use crate::color::{fits, gray_as_rgba, luma_of, opaque_of, pixel_count, RgbFrame, RgbaFrame, Samples};
use crate::contours::{contour_views, contours_of, Contour, ContourProcessor};
use crate::edge::{edge_map, EdgeDetector};
use crate::fit::{fits_of, EllipseCandidate, EllipseFitter};
use crate::frame::{GrayMap, Raster};
use crate::geometry::Point;
use crate::grid::{lemma_place_of_point, lemma_point_at_place, point_at};
use crate::tuning::{window, TuningState};

verus! {

/// The sample `channel` of the colour that marks contour points: opaque
/// green.
pub open spec fn mark_sample(channel: int) -> u8 {
    if channel == 1 || channel == 3 {
        255u8
    } else {
        0u8
    }
}

/// `p` is a point of one of the contours.
pub open spec fn on_contour(contours: Seq<Seq<Point>>, p: Point) -> bool {
    exists|k: int| 0 <= k < contours.len() && #[trigger] contours[k].contains(p)
}

/// The image `base`, of four samples per pixel and rows of `width` pixels,
/// with the points of the contours marked.
pub open spec fn overlay(base: Seq<u8>, width: nat, contours: Seq<Seq<Point>>) -> Seq<u8> {
    Seq::new(
        base.len(),
        |j: int|
            if on_contour(contours, point_at(width, j / 4)) {
                mark_sample(j % 4)
            } else {
                base[j]
            },
    )
}

/// The frame in grayscale.
pub open spec fn gray_of(f: Samples) -> Raster {
    Raster { width: f.width, height: f.height, pixels: luma_of(f.data) }
}

/// The edge map of the frame under the two thresholds of `t`.
pub open spec fn edges_of(f: Samples, t: TuningState) -> Raster {
    Raster {
        width: f.width,
        height: f.height,
        pixels: edge_map(gray_of(f), t.low_threshold as int, t.high_threshold as int),
    }
}

/// The contours of the edge map that pass the size filter of `t`.
pub open spec fn contours_in(f: Samples, t: TuningState) -> Seq<Seq<Point>> {
    contours_of(edges_of(f, t).nonzero(), t.size_filter as nat)
}

/// The circles fitted to those contours.
pub open spec fn candidates_in(f: Samples, t: TuningState) -> Seq<EllipseCandidate> {
    fits_of(contours_in(f, t))
}

/// The candidates that lie in the window of `t`.
pub open spec fn accepted_in(f: Samples, t: TuningState) -> Seq<EllipseCandidate> {
    candidates_in(f, t).filter(window(t))
}

/// The image for the renderer: the frame itself, or in the debug view the
/// edge map with the contour points marked.
pub open spec fn image_of(f: Samples, t: TuningState, debug_view: bool) -> Seq<u8> {
    if debug_view {
        overlay(gray_as_rgba(edges_of(f, t).pixels), f.width, contours_in(f, t))
    } else {
        opaque_of(f.data)
    }
}

/// The frame loop keeps nothing from one frame to the next: two runs on the
/// same frame with the same parameters hand on the same image and the same
/// candidates.
pub proof fn lemma_same_frame_same_output(
    f: Samples,
    t: TuningState,
    debug_view: bool,
    first: (Seq<u8>, Seq<EllipseCandidate>),
    second: (Seq<u8>, Seq<EllipseCandidate>),
)
    requires
        first.0 == image_of(f, t, debug_view),
        first.1 == accepted_in(f, t),
        second.0 == image_of(f, t, debug_view),
        second.1 == accepted_in(f, t),
    ensures
        first == second,
{
}

/// What one frame yields: the image for the renderer and the accepted
/// candidates.
pub struct FrameOutput {
    pub image: RgbaFrame,
    pub candidates: Vec<EllipseCandidate>,
}

/// Marks the points of one contour in the image.
fn draw_contour(image: &mut RgbaFrame, c: &Vec<Point>)
    requires
        old(image).wf(),
        forall|j: int|
            0 <= j < c@.len() ==> (#[trigger] c@[j]).x < old(image)@.width && c@[j].y < old(
                image,
            )@.height,
    ensures
        final(image).wf(),
        final(image)@.width == old(image)@.width,
        final(image)@.height == old(image)@.height,
        final(image)@.data.len() == old(image)@.data.len(),
        forall|j: int|
            0 <= j < final(image)@.data.len() ==> (#[trigger] final(image)@.data[j]) == (
            if c@.contains(point_at(old(image)@.width, j / 4)) {
                mark_sample(j % 4)
            } else {
                old(image)@.data[j]
            }),
{
    let n: usize = c.len();
    let ghost base = image@;
    let mut m: usize = 0;
    while m < n
        invariant
            n == c@.len(),
            m <= n,
            image.wf(),
            image@.width == base.width,
            image@.height == base.height,
            image@.data.len() == base.data.len(),
            base.data.len() == 4 * base.width * base.height,
            base.width <= u32::MAX,
            base.height <= u32::MAX,
            forall|j: int|
                0 <= j < c@.len() ==> (#[trigger] c@[j]).x < base.width && c@[j].y < base.height,
            forall|j: int|
                0 <= j < image@.data.len() ==> (#[trigger] image@.data[j]) == (if c@.take(
                    m as int,
                ).contains(point_at(base.width, j / 4)) {
                    mark_sample(j % 4)
                } else {
                    base.data[j]
                }),
        decreases n - m,
    {
        let p: Point = c[m];
        let ghost before = image@;
        image.put_pixel(p, [0, 255, 0, 255]);
        proof {
            let done = c@.take(m as int);
            let more = c@.take(m + 1);
            assert(more =~= done.push(p));
            assert forall|j: int| 0 <= j < image@.data.len() implies (#[trigger] image@.data[j]) == (
            if more.contains(point_at(base.width, j / 4)) {
                mark_sample(j % 4)
            } else {
                base.data[j]
            }) by {
                let q = point_at(base.width, j / 4);
                lemma_place_of_sample(base.width, base.height, j);
                lemma_point_at_place(base.width, p);
                if done.contains(q) {
                    let i = choose|i: int| 0 <= i < done.len() && done[i] == q;
                    assert(more[i] == q);
                }
                if q == p {
                    assert(more[m as int] == p);
                }
                if more.contains(q) && q != p {
                    let i = choose|i: int| 0 <= i < more.len() && more[i] == q;
                    assert(done[i] == q);
                }
            }
        }
        m += 1;
    }
    assert(c@.take(n as int) =~= c@);
}

/// The sample at place `j` of a frame of four samples per pixel belongs to a
/// pixel inside the frame, which has the place `j / 4`.
proof fn lemma_place_of_sample(width: nat, height: nat, j: int)
    requires
        0 <= j < 4 * width * height,
        width <= u32::MAX,
        height <= u32::MAX,
    ensures
        point_at(width, j / 4).x < width,
        point_at(width, j / 4).y < height,
        point_at(width, j / 4).y * width + point_at(width, j / 4).x == j / 4,
{
    assert(4 * width * height == 4 * (width * height)) by (nonlinear_arith);
    lemma_place_of_point(width, height, j / 4);
}

/// Marks the points of the contours in the image.
fn draw_contours(image: &mut RgbaFrame, contours: &Vec<Contour>)
    requires
        old(image).wf(),
        forall|k: int, j: int|
            0 <= k < contours@.len() && 0 <= j < contours@[k]@.len() ==> (
            #[trigger] contours@[k]@[j]).x < old(image)@.width && contours@[k]@[j].y < old(
                image,
            )@.height,
    ensures
        final(image).wf(),
        final(image)@ == (Samples {
            width: old(image)@.width,
            height: old(image)@.height,
            data: overlay(old(image)@.data, old(image)@.width, contour_views(contours@)),
        }),
{
    let n: usize = contours.len();
    let ghost base = image@;
    let ghost all = contour_views(contours@);
    let mut k: usize = 0;
    assert(image@.data =~= overlay(base.data, base.width, all.take(0)));
    while k < n
        invariant
            n == contours@.len(),
            k <= n,
            all == contour_views(contours@),
            image.wf(),
            image@.width == base.width,
            image@.height == base.height,
            forall|k: int, j: int|
                0 <= k < contours@.len() && 0 <= j < contours@[k]@.len() ==> (
                #[trigger] contours@[k]@[j]).x < base.width && contours@[k]@[j].y < base.height,
            image@.data == overlay(base.data, base.width, all.take(k as int)),
        decreases n - k,
    {
        let ghost before = image@;
        assert forall|j: int| 0 <= j < contours@[k as int]@.len() implies (
        #[trigger] contours@[k as int].points@[j]).x < image@.width && contours@[k as int].points@[j].y
            < image@.height by {
            assert(contours@[k as int]@[j].x < base.width);
        }
        draw_contour(image, &contours[k].points);
        proof {
            let c = contours@[k as int]@;
            let done = all.take(k as int);
            let more = all.take(k + 1);
            assert(more =~= done.push(c));
            assert forall|p: Point| on_contour(more, p) <==> on_contour(done, p) || c.contains(
                p,
            ) by {
                if on_contour(done, p) {
                    let i = choose|i: int| 0 <= i < done.len() && #[trigger] done[i].contains(p);
                    assert(more[i].contains(p));
                }
                if c.contains(p) {
                    assert(more[k as int].contains(p));
                }
                if on_contour(more, p) {
                    let i = choose|i: int| 0 <= i < more.len() && #[trigger] more[i].contains(p);
                    if i < k {
                        assert(done[i].contains(p));
                    }
                }
            }
            assert(image@.data =~= overlay(base.data, base.width, more));
        }
        k += 1;
    }
    assert(all.take(n as int) =~= all);
}

/// The resources of a session: what the stages need to work on frames of one
/// size.
#[derive(Clone, Copy, Debug)]
pub struct ProcessingContext {
    width: u32,
    height: u32,
}

impl ProcessingContext {
    /// The width and the height of the frames.
    pub closed spec fn resolution(&self) -> (u32, u32) {
        (self.width, self.height)
    }

    /// A context for frames of the given size, if such frames can be held
    /// with four samples per pixel.
    pub fn setup(resolution: (u32, u32)) -> (r: Option<ProcessingContext>)
        ensures
            r is Some <==> fits(resolution.0 as nat, resolution.1 as nat),
            r matches Some(c) ==> c.resolution() == resolution,
    {
        match pixel_count(resolution.0, resolution.1) {
            Some(_) => Some(ProcessingContext { width: resolution.0, height: resolution.1 }),
            None => None,
        }
    }

    /// The width and the height of the frames.
    pub fn get_resolution(&self) -> (r: (u32, u32))
        ensures
            r == self.resolution(),
    {
        (self.width, self.height)
    }

    /// The edge detector for the frames of the session.
    pub fn setup_canny_edge_detection(&self) -> (d: EdgeDetector)
        ensures
            d.resolution() == self.resolution(),
    {
        EdgeDetector::new((self.width, self.height))
    }

    /// The ellipse fitter of the session.
    pub fn setup_ellipse_detection(&self) -> (f: EllipseFitter) {
        EllipseFitter
    }
}

/// The stages of the pipeline, set up once for a session.
#[derive(Clone, Copy, Debug)]
pub struct FrameLoop {
    detector: EdgeDetector,
    finder: ContourProcessor,
    fitter: EllipseFitter,
}

impl FrameLoop {
    /// The width and the height of the frames of the session.
    pub closed spec fn resolution(&self) -> (u32, u32) {
        self.detector.resolution()
    }

    /// A frame has arrived, and it has the size of the session.
    pub open spec fn takes(&self, frame: Option<RgbFrame>) -> bool {
        frame matches Some(f) && f@.width == self.resolution().0 && f@.height
            == self.resolution().1
    }

    /// The stages for the frames of the context.
    pub fn new(context: &ProcessingContext) -> (l: FrameLoop)
        ensures
            l.resolution() == context.resolution(),
    {
        FrameLoop {
            detector: context.setup_canny_edge_detection(),
            finder: ContourProcessor,
            fitter: context.setup_ellipse_detection(),
        }
    }

    /// Runs the stages on one frame: grayscale, edge detection, contour
    /// extraction, circle fitting, and the acceptance window. A frame of
    /// another size than that of the session yields nothing.
    pub fn process_frame(&self, frame: &RgbFrame, tuning: &TuningState, debug_view: bool) -> (r:
        Option<FrameOutput>)
        requires
            frame.wf(),
        ensures
            r is Some <==> (frame@.width == self.resolution().0 && frame@.height
                == self.resolution().1),
            r matches Some(out) ==> {
                &&& out.image.wf()
                &&& out.image@ == (Samples {
                    width: frame@.width,
                    height: frame@.height,
                    data: image_of(frame@, *tuning, debug_view),
                })
                &&& out.candidates@ == accepted_in(frame@, *tuning)
            },
    {
        let (w, h) = self.detector.get_resolution();
        if frame.width() != w || frame.height() != h {
            return None;
        }
        let gray: GrayMap = frame.to_gray();
        let edges: Vec<u8> = self.detector.execute_edge_detection(
            gray.into_raw(),
            tuning.low_threshold,
            tuning.high_threshold,
        );
        let map: GrayMap = GrayMap::new(w, h, edges).unwrap();
        let contours: Vec<Contour> = self.finder.find_contours(&map, tuning.size_filter);
        let fitted: Option<Vec<EllipseCandidate>> = self.fitter.execute_ellipse_fit(&contours);
        let image: RgbaFrame = if debug_view {
            let mut view: RgbaFrame = RgbaFrame::from_gray(&map).unwrap();
            draw_contours(&mut view, &contours);
            view
        } else {
            frame.to_rgba()
        };
        let candidates: Vec<EllipseCandidate> = match fitted {
            Some(all) => tuning.filter_candidates(&all),
            None => {
                assert(candidates_in(frame@, *tuning) =~= Seq::empty());
                assert(accepted_in(frame@, *tuning) =~= Seq::empty());
                Vec::new()
            },
        };
        Some(FrameOutput { image, candidates })
    }

    /// One turn of the loop. If a frame of the session's size has arrived,
    /// the stages run on it and their result is handed on. If none has, or
    /// the frame has another size, no stage runs and the result of the turn
    /// before, `previous`, is handed on again.
    pub fn tick(
        &self,
        previous: Option<FrameOutput>,
        frame: Option<RgbFrame>,
        tuning: &TuningState,
        debug_view: bool,
    ) -> (r: Option<FrameOutput>)
        requires
            frame matches Some(f) ==> f.wf(),
        ensures
            self.takes(frame) ==> (r matches Some(out) && {
                &&& out.image.wf()
                &&& out.image@ == (Samples {
                    width: frame->0@.width,
                    height: frame->0@.height,
                    data: image_of(frame->0@, *tuning, debug_view),
                })
                &&& out.candidates@ == accepted_in(frame->0@, *tuning)
            }),
            !self.takes(frame) ==> r == previous,
    {
        match frame {
            Some(f) => match self.process_frame(&f, tuning, debug_view) {
                Some(out) => Some(out),
                None => previous,
            },
            None => previous,
        }
    }
}

} // verus!
