//! Colour frames and the conversions between colour and grayscale.

use vstd::prelude::*;
use crate::frame::{GrayMap, Raster};
use crate::geometry::Point;
use crate::grid::cell_index;

verus! {

/// The mathematical model of a colour frame: `data` holds the samples of the
/// pixels one after another, row by row.
pub struct Samples {
    pub width: nat,
    pub height: nat,
    pub data: Seq<u8>,
}

/// The luminance of the colour `(r, g, b)`.
pub open spec fn luma(r: u8, g: u8, b: u8) -> u8 {
    ((2126 * r + 7152 * g + 722 * b) / 10000) as u8
}

/// The luminance of each pixel of a buffer of three samples per pixel.
pub open spec fn luma_of(rgb: Seq<u8>) -> Seq<u8> {
    Seq::new(rgb.len() / 3, |i: int| luma(rgb[3 * i], rgb[3 * i + 1], rgb[3 * i + 2]))
}

/// A buffer of three samples per pixel with a fourth sample of 255 added to
/// each pixel.
pub open spec fn opaque_of(rgb: Seq<u8>) -> Seq<u8> {
    Seq::new(
        rgb.len() / 3 * 4,
        |j: int|
            if j % 4 == 3 {
                255u8
            } else {
                rgb[3 * (j / 4) + j % 4]
            },
    )
}

/// A buffer of one sample per pixel as four samples per pixel: the gray
/// value three times and 255.
pub open spec fn gray_as_rgba(gray: Seq<u8>) -> Seq<u8> {
    Seq::new(
        gray.len() * 4,
        |j: int|
            if j % 4 == 3 {
                255u8
            } else {
                gray[j / 4]
            },
    )
}

/// Converts a buffer of red, green and blue samples to luminance with
/// `convert` of `image::buffer::ConvertBuffer`, from `Rgb<u8>` to
/// `Luma<u8>`. The contract claims that each pixel becomes
/// `(2126 r + 7152 g + 722 b) / 10000`, rounded down, and that the pixels
/// keep their order. The call multiplies the samples of a pixel by the
/// width and then by the height, and allocates the result: `fits` keeps
/// those products within what it accepts.
#[verifier::external_body]
pub(crate) fn convert_rgb_to_luma(rgb: &Vec<u8>, width: u32, height: u32) -> (gray: Vec<u8>)
    requires
        rgb@.len() == 3 * width * height,
        fits(width as nat, height as nat),
    ensures
        gray@ == luma_of(rgb@),
{
    let view: image::ImageBuffer<image::Rgb<u8>, &[u8]> = image::ImageBuffer::from_raw(
        width,
        height,
        rgb.as_slice(),
    ).unwrap();
    let out: image::GrayImage = image::buffer::ConvertBuffer::convert(&view);
    out.into_raw()
}

/// Converts a buffer of red, green and blue samples to red, green, blue and
/// alpha with `convert` of `image::buffer::ConvertBuffer`, from `Rgb<u8>` to
/// `Rgba<u8>`. The contract claims that each pixel keeps its three samples
/// and gets an alpha of 255. The call multiplies the samples of a pixel by
/// the width and then by the height, and allocates the result: `fits` keeps
/// those products within what it accepts.
#[verifier::external_body]
pub(crate) fn convert_rgb_to_rgba(rgb: &Vec<u8>, width: u32, height: u32) -> (rgba: Vec<u8>)
    requires
        rgb@.len() == 3 * width * height,
        fits(width as nat, height as nat),
    ensures
        rgba@ == opaque_of(rgb@),
{
    let view: image::ImageBuffer<image::Rgb<u8>, &[u8]> = image::ImageBuffer::from_raw(
        width,
        height,
        rgb.as_slice(),
    ).unwrap();
    let out: image::RgbaImage = image::buffer::ConvertBuffer::convert(&view);
    out.into_raw()
}

/// Converts a buffer of gray values to red, green, blue and alpha with
/// `convert` of `image::buffer::ConvertBuffer`, from `Luma<u8>` to
/// `Rgba<u8>`. The contract claims that each pixel gets its gray value as
/// red, green and blue, and an alpha of 255. The call multiplies the
/// samples of a pixel by the width and then by the height, and allocates
/// the result: `fits` keeps those products within what it accepts.
#[verifier::external_body]
pub(crate) fn convert_luma_to_rgba(gray: &Vec<u8>, width: u32, height: u32) -> (rgba: Vec<u8>)
    requires
        gray@.len() == width * height,
        fits(width as nat, height as nat),
    ensures
        rgba@ == gray_as_rgba(gray@),
{
    let view: image::ImageBuffer<image::Luma<u8>, &[u8]> = image::ImageBuffer::from_raw(
        width,
        height,
        gray.as_slice(),
    ).unwrap();
    let out: image::RgbaImage = image::buffer::ConvertBuffer::convert(&view);
    out.into_raw()
}

/// A frame of red, green and blue samples.
pub struct RgbFrame {
    width: u32,
    height: u32,
    data: Vec<u8>,
}

impl View for RgbFrame {
    type V = Samples;

    closed spec fn view(&self) -> Samples {
        Samples { width: self.width as nat, height: self.height as nat, data: self.data@ }
    }
}

/// A frame of red, green, blue and alpha samples, as the renderer takes it.
pub struct RgbaFrame {
    width: u32,
    height: u32,
    data: Vec<u8>,
}

impl View for RgbaFrame {
    type V = Samples;

    closed spec fn view(&self) -> Samples {
        Samples { width: self.width as nat, height: self.height as nat, data: self.data@ }
    }
}

/// Whether frames of this size can be held with four samples per pixel: a
/// row of such samples can be counted, and the whole frame can be allocated.
pub open spec fn fits(width: nat, height: nat) -> bool {
    &&& 4 * width <= usize::MAX
    &&& 4 * width * height <= isize::MAX
}

/// The number of pixels of a frame of the given size, if the frame can be
/// held with four samples per pixel.
pub fn pixel_count(width: u32, height: u32) -> (n: Option<usize>)
    ensures
        n is Some <==> fits(width as nat, height as nat),
        n matches Some(c) ==> c == width * height,
{
    match (width as usize).checked_mul(4) {
        Some(row) => match row.checked_mul(height as usize) {
            Some(all) => {
                assert(all == 4 * (width * height)) by (nonlinear_arith)
                    requires
                        all == (width * 4) * height,
                ;
                if all <= isize::MAX as usize {
                    Some(all / 4)
                } else {
                    None
                }
            },
            None => {
                assert(isize::MAX < usize::MAX);
                None
            },
        },
        None => None,
    }
}

impl RgbFrame {
    /// The invariant of the type: three samples for each position, and room
    /// for a fourth.
    pub open spec fn wf(&self) -> bool {
        &&& self@.data.len() == 3 * self@.width * self@.height
        &&& fits(self@.width, self@.height)
    }

    /// A frame of the given size over `data`, if there are three samples for
    /// each position and the frame can be held with four.
    pub fn new(width: u32, height: u32, data: Vec<u8>) -> (r: Option<RgbFrame>)
        ensures
            r is Some <==> data@.len() == 3 * width * height && fits(width as nat, height as nat),
            r matches Some(f) ==> f.wf() && f@ == (Samples {
                width: width as nat,
                height: height as nat,
                data: data@,
            }),
    {
        let len: usize = data.len();
        match pixel_count(width, height) {
            Some(n) => {
                assert(3 * width * height == 3 * (width * height)) by (nonlinear_arith);
                assert(4 * width * height == 4 * (width * height)) by (nonlinear_arith);
                if len == 3 * n {
                    Some(RgbFrame { width, height, data })
                } else {
                    None
                }
            },
            None => None,
        }
    }

    /// The number of columns.
    pub fn width(&self) -> (w: u32)
        ensures
            w == self@.width,
    {
        self.width
    }

    /// The number of rows.
    pub fn height(&self) -> (h: u32)
        ensures
            h == self@.height,
    {
        self.height
    }

    /// The samples, pixel by pixel.
    pub fn as_raw(&self) -> (d: &Vec<u8>)
        ensures
            d@ == self@.data,
    {
        &self.data
    }

    /// The frame in grayscale: the luminance of each pixel.
    pub fn to_gray(&self) -> (g: GrayMap)
        requires
            self.wf(),
        ensures
            g.wf(),
            g@ == (Raster {
                width: self@.width,
                height: self@.height,
                pixels: luma_of(self@.data),
            }),
    {
        let gray: Vec<u8> = convert_rgb_to_luma(&self.data, self.width, self.height);
        assert(3 * self.width * self.height == 3 * (self.width * self.height))
            by (nonlinear_arith);
        GrayMap::new(self.width, self.height, gray).unwrap()
    }

    /// The frame with an alpha of 255 added to each pixel.
    pub fn to_rgba(&self) -> (f: RgbaFrame)
        requires
            self.wf(),
        ensures
            f.wf(),
            f@ == (Samples {
                width: self@.width,
                height: self@.height,
                data: opaque_of(self@.data),
            }),
    {
        let data: Vec<u8> = convert_rgb_to_rgba(&self.data, self.width, self.height);
        assert(3 * self.width * self.height == 3 * (self.width * self.height))
            by (nonlinear_arith);
        assert(4 * self.width * self.height == 4 * (self.width * self.height))
            by (nonlinear_arith);
        RgbaFrame { width: self.width, height: self.height, data }
    }
}

impl RgbaFrame {
    /// The invariant of the type: four samples for each position.
    pub open spec fn wf(&self) -> bool {
        &&& self@.data.len() == 4 * self@.width * self@.height
        &&& self@.width <= u32::MAX
        &&& self@.height <= u32::MAX
    }

    /// The number of columns.
    pub fn width(&self) -> (w: u32)
        ensures
            w == self@.width,
    {
        self.width
    }

    /// The number of rows.
    pub fn height(&self) -> (h: u32)
        ensures
            h == self@.height,
    {
        self.height
    }

    /// The samples, pixel by pixel.
    pub fn as_raw(&self) -> (d: &Vec<u8>)
        ensures
            d@ == self@.data,
    {
        &self.data
    }

    /// The samples, pixel by pixel.
    pub fn into_raw(self) -> (d: Vec<u8>)
        ensures
            d@ == self@.data,
    {
        self.data
    }

    /// A grayscale image as red, green, blue and alpha, if it can be held
    /// with four samples per pixel.
    pub fn from_gray(map: &GrayMap) -> (r: Option<RgbaFrame>)
        requires
            map.wf(),
        ensures
            r is Some <==> fits(map@.width, map@.height),
            r matches Some(f) ==> f.wf() && f@ == (Samples {
                width: map@.width,
                height: map@.height,
                data: gray_as_rgba(map@.pixels),
            }),
    {
        let width: u32 = map.width();
        let height: u32 = map.height();
        match pixel_count(width, height) {
            Some(n) => {
                let data: Vec<u8> = convert_luma_to_rgba(map.pixels(), width, height);
                assert(4 * width * height == 4 * (width * height)) by (nonlinear_arith);
                Some(RgbaFrame { width, height, data })
            },
            None => None,
        }
    }

    /// Sets the pixel at `p`, which lies inside the frame, to `colour`.
    pub fn put_pixel(&mut self, p: Point, colour: [u8; 4])
        requires
            old(self).wf(),
            p.x < old(self)@.width,
            p.y < old(self)@.height,
        ensures
            final(self).wf(),
            final(self)@.width == old(self)@.width,
            final(self)@.height == old(self)@.height,
            final(self)@.data.len() == old(self)@.data.len(),
            forall|j: int|
                0 <= j < final(self)@.data.len() ==> (#[trigger] final(self)@.data[j]) == (if j
                    / 4 == p.y * old(self)@.width + p.x {
                    colour@[j % 4]
                } else {
                    old(self)@.data[j]
                }),
    {
        assert(self.data.len() == 4 * (self.width * self.height)) by (nonlinear_arith)
            requires
                self.data.len() == 4 * self.width * self.height,
        ;
        let i: usize = cell_index(self.width, self.height, p);
        self.data.set(4 * i, colour[0]);
        self.data.set(4 * i + 1, colour[1]);
        self.data.set(4 * i + 2, colour[2]);
        self.data.set(4 * i + 3, colour[3]);
    }
}

} // verus!
