//! Pupil detection on video frames, with every stage specified and verified
//! over integer arithmetic.
//!
//! A frame goes through four stages: [`edge`] finds the edge pixels of the
//! grayscale frame, [`contours`] groups them into connected components,
//! [`fit`] fits a circle to each component, and [`tuning`] keeps the circles
//! that lie where an eye is expected. [`pipeline`] runs the stages on one
//! frame and prepares the image for the renderer.
//!
//! Radii and thresholds are whole numbers of `1 / 256` (see
//! [`numeric::SCALE`]), so that every comparison is exact.

pub mod color;
pub mod connectivity;
pub mod contours;
pub mod edge;
pub mod fit;
pub mod flood;
pub mod frame;
pub mod geometry;
pub mod gradient;
pub mod grid;
pub mod numeric;
pub mod pipeline;
pub mod tuning;
