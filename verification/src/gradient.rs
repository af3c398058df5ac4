//! Intensity gradients of a grayscale image and their local maxima.

use vstd::prelude::*;
use crate::frame::Raster;
use crate::geometry::Point;
use crate::grid::cell_index;

verus! {

/// `v` moved into `0..n`.
pub open spec fn clamp(v: int, n: int) -> int {
    if v < 0 {
        0
    } else if v >= n {
        n - 1
    } else {
        v
    }
}

/// The value at `(x, y)`; a position outside the image has the value of the
/// nearest pixel inside.
pub open spec fn sample(r: Raster, x: int, y: int) -> int {
    r.pixels[clamp(y, r.height as int) * r.width + clamp(x, r.width as int)] as int
}

/// The horizontal Sobel response at `(x, y)`.
pub open spec fn gradient_x(r: Raster, x: int, y: int) -> int {
    (sample(r, x + 1, y - 1) + 2 * sample(r, x + 1, y) + sample(r, x + 1, y + 1)) - (sample(
        r,
        x - 1,
        y - 1,
    ) + 2 * sample(r, x - 1, y) + sample(r, x - 1, y + 1))
}

/// The vertical Sobel response at `(x, y)`.
pub open spec fn gradient_y(r: Raster, x: int, y: int) -> int {
    (sample(r, x - 1, y + 1) + 2 * sample(r, x, y + 1) + sample(r, x + 1, y + 1)) - (sample(
        r,
        x - 1,
        y - 1,
    ) + 2 * sample(r, x, y - 1) + sample(r, x + 1, y - 1))
}

/// The square of the gradient magnitude at `(x, y)`, and 0 outside the image.
pub open spec fn magnitude2(r: Raster, x: int, y: int) -> int {
    if 0 <= x < r.width && 0 <= y < r.height {
        gradient_x(r, x, y) * gradient_x(r, x, y) + gradient_y(r, x, y) * gradient_y(r, x, y)
    } else {
        0
    }
}

/// The absolute value.
pub open spec fn absolute(v: int) -> int {
    if v < 0 {
        -v
    } else {
        v
    }
}

/// The step to the neighbour that lies along a gradient `(gx, gy)`: the
/// gradient is horizontal or vertical when it is within 22.5 degrees of that
/// axis, and diagonal otherwise.
pub open spec fn step_along(gx: int, gy: int) -> (int, int) {
    let s = absolute(gx) + absolute(gy);
    if s * s <= 2 * gx * gx {
        (1, 0)
    } else if s * s <= 2 * gy * gy {
        (0, 1)
    } else if (gx > 0) == (gy > 0) {
        (1, 1)
    } else {
        (1, -1)
    }
}

/// The gradient magnitude at `(x, y)` is not below that of the two
/// neighbours along the gradient.
pub open spec fn is_peak(r: Raster, x: int, y: int) -> bool {
    let step = step_along(gradient_x(r, x, y), gradient_y(r, x, y));
    &&& magnitude2(r, x, y) >= magnitude2(r, x + step.0, y + step.1)
    &&& magnitude2(r, x, y) >= magnitude2(r, x - step.0, y - step.1)
}

/// `v + step - 1` moved into `0..n`, for a `step` of 0, 1 or 2.
fn clamped(v: u32, step: u32, n: u32) -> (c: u32)
    requires
        v < n,
        step <= 2,
    ensures
        c == clamp(v + step - 1, n as int),
        c < n,
{
    if step == 0 {
        if v == 0 {
            0
        } else {
            v - 1
        }
    } else if step == 1 {
        v
    } else {
        if v + 1 == n {
            v
        } else {
            v + 1
        }
    }
}

/// The value read at `(x + sx - 1, y + sy - 1)`.
fn read(gray: &Vec<u8>, w: u32, h: u32, x: u32, y: u32, sx: u32, sy: u32) -> (v: i32)
    requires
        gray@.len() == w * h,
        x < w,
        y < h,
        sx <= 2,
        sy <= 2,
    ensures
        v == sample(
            Raster { width: w as nat, height: h as nat, pixels: gray@ },
            x + sx - 1,
            y + sy - 1,
        ),
        0 <= v <= 255,
{
    let cx: u32 = clamped(x, sx, w);
    let cy: u32 = clamped(y, sy, h);
    assert(gray.len() == w * h);
    let i: usize = cell_index(w, h, Point { x: cx, y: cy });
    gray[i] as i32
}

/// The two Sobel responses at `(x, y)`.
pub fn gradient(gray: &Vec<u8>, w: u32, h: u32, x: u32, y: u32) -> (g: (i32, i32))
    requires
        gray@.len() == w * h,
        x < w,
        y < h,
    ensures
        g.0 == gradient_x(
            Raster { width: w as nat, height: h as nat, pixels: gray@ },
            x as int,
            y as int,
        ),
        g.1 == gradient_y(
            Raster { width: w as nat, height: h as nat, pixels: gray@ },
            x as int,
            y as int,
        ),
        -1020 <= g.0 <= 1020,
        -1020 <= g.1 <= 1020,
{
    let nw: i32 = read(gray, w, h, x, y, 0, 0);
    let n: i32 = read(gray, w, h, x, y, 1, 0);
    let ne: i32 = read(gray, w, h, x, y, 2, 0);
    let west: i32 = read(gray, w, h, x, y, 0, 1);
    let east: i32 = read(gray, w, h, x, y, 2, 1);
    let sw: i32 = read(gray, w, h, x, y, 0, 2);
    let s: i32 = read(gray, w, h, x, y, 1, 2);
    let se: i32 = read(gray, w, h, x, y, 2, 2);
    let gx: i32 = (ne + 2 * east + se) - (nw + 2 * west + sw);
    let gy: i32 = (sw + 2 * s + se) - (nw + 2 * n + ne);
    (gx, gy)
}

/// The square of the gradient magnitude at `(x, y)`.
pub fn squared_magnitude(gray: &Vec<u8>, w: u32, h: u32, x: u32, y: u32) -> (m: u32)
    requires
        gray@.len() == w * h,
        x < w,
        y < h,
    ensures
        m == magnitude2(
            Raster { width: w as nat, height: h as nat, pixels: gray@ },
            x as int,
            y as int,
        ),
        m <= 2080800,
{
    let (gx, gy) = gradient(gray, w, h, x, y);
    assert(gx * gx <= 1040400 && gy * gy <= 1040400) by (nonlinear_arith)
        requires
            -1020 <= gx <= 1020,
            -1020 <= gy <= 1020,
    ;
    assert(gx * gx >= 0 && gy * gy >= 0) by (nonlinear_arith);
    (gx * gx + gy * gy) as u32
}

} // verus!
