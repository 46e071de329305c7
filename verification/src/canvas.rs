//! The canvas: integer image dimensions, the conversion from centered
//! canvas coordinates to top-left screen pixels, and pixel writes into an
//! RGBA framebuffer.

use vstd::prelude::*;
use crate::color::Color;
use crate::coord::{CanvasCoordinate, ScreenCoordinate};

verus! {

pub const DEFAULT_WIDTH: usize = 1000;

pub const DEFAULT_HEIGHT: usize = 700;

/// Image dimensions in pixels.
#[derive(Clone, Copy, Debug, PartialEq, Eq, Structural)]
pub struct Canvas {
    pub width: usize,
    pub height: usize,
}

/// Dimensions small enough that every pixel index fits the machine:
/// the loader establishes this once and the renderer relies on it.
pub open spec fn canvas_wf(c: Canvas) -> bool {
    &&& c.width <= isize::MAX as usize
    &&& c.height <= isize::MAX as usize
    &&& c.width * c.height * 4 <= usize::MAX as int
}

pub open spec fn out_of_bounds_spec(x: int, y: int, width: int, height: int) -> bool {
    x < 0 || y < 0 || x >= width || y >= height
}

/// The canvas-to-screen conversion: `screen_x = width/2 + canvas_x` and
/// `screen_y = height/2 - canvas_y` (canvas y grows upward, screen y grows
/// downward), `OffScreen` whenever that lands outside `[0,width) x [0,height)`.
pub open spec fn canvas_to_screen_spec(c: Canvas, coord: CanvasCoordinate) -> ScreenCoordinate {
    let sx = c.width as int / 2 + coord.x as int;
    let sy = c.height as int / 2 - coord.y as int;
    if out_of_bounds_spec(sx, sy, c.width as int, c.height as int) {
        ScreenCoordinate::OffScreen
    } else {
        ScreenCoordinate::OnScreen { x: sx as usize, y: sy as usize }
    }
}

/// The frame with one pixel's four bytes replaced, starting at `i`.
pub open spec fn write_pixel_spec(frame: Seq<u8>, i: int, color: Color) -> Seq<u8> {
    frame.update(i, color.0[0]).update(i + 1, color.0[1]).update(i + 2, color.0[2]).update(
        i + 3, color.0[3])
}

/// What a pixel write leaves in the frame: four bytes overwritten for an
/// on-screen target, nothing at all for an off-screen one.
pub open spec fn put_pixel_spec(
    c: Canvas,
    frame: Seq<u8>,
    coord: CanvasCoordinate,
    color: Color,
) -> Seq<u8> {
    match canvas_to_screen_spec(c, coord) {
        ScreenCoordinate::OffScreen => frame,
        ScreenCoordinate::OnScreen { x, y } => write_pixel_spec(
            frame,
            (y * c.width + x) * 4,
            color,
        ),
    }
}

pub fn out_of_bounds(x: isize, y: isize, width: isize, height: isize) -> (r: bool)
    ensures
        r == out_of_bounds_spec(x as int, y as int, width as int, height as int),
{
    x < 0 || y < 0 || x >= width || y >= height
}

impl Canvas {
    pub fn new(width: usize, height: usize) -> (c: Canvas)
        ensures
            c == (Canvas { width, height }),
    {
        Canvas { width, height }
    }

    pub fn width(self) -> (r: usize)
        ensures
            r == self.width,
    {
        self.width
    }

    pub fn height(self) -> (r: usize)
        ensures
            r == self.height,
    {
        self.height
    }

    /// Where a canvas coordinate lands on the screen; the vertical flip is
    /// part of the formula.
    pub fn convert(&self, coord: CanvasCoordinate) -> (r: ScreenCoordinate)
        ensures
            r == canvas_to_screen_spec(*self, coord),
    {
        let sx: i128 = ((self.width / 2) as i128) + (coord.x as i128);
        let sy: i128 = ((self.height / 2) as i128) - (coord.y as i128);
        if sx < 0 || sy < 0 || sx >= self.width as i128 || sy >= self.height as i128 {
            ScreenCoordinate::OffScreen
        } else {
            ScreenCoordinate::OnScreen { x: sx as usize, y: sy as usize }
        }
    }

    /// Overwrite exactly the four bytes of the targeted pixel, or nothing
    /// when the coordinate falls off the screen.
    pub fn put_pixel(self, frame: &mut Vec<u8>, coord: CanvasCoordinate, color: Color)
        requires
            old(frame)@.len() == self.width * self.height * 4,
        ensures
            final(frame)@ == put_pixel_spec(self, old(frame)@, coord, color),
            final(frame)@.len() == old(frame)@.len(),
    {
        let frame_len: usize = frame.len();
        let screen_coord = self.convert(coord);
        if let ScreenCoordinate::OnScreen { x, y } = screen_coord {
            proof {
                assert(y * self.width + x < self.width * self.height) by (nonlinear_arith)
                    requires
                        x < self.width,
                        y < self.height,
                ;
                assert((y * self.width + x) * 4 + 4 <= self.width * self.height * 4)
                    by (nonlinear_arith)
                    requires
                        y * self.width + x < self.width * self.height,
                ;
            }
            let pixel_index: usize = (y * self.width + x) * 4;
            let bytes = color.as_array();
            frame[pixel_index] = bytes[0];
            frame[pixel_index + 1] = bytes[1];
            frame[pixel_index + 2] = bytes[2];
            frame[pixel_index + 3] = bytes[3];
        }
        // otherwise do nothing
    }

    /// A cursor over every canvas coordinate whose screen image is in
    /// bounds, row by row.
    pub fn iter_pixels(self) -> (r: EachCanvasCoordinate)
        requires
            self.width <= isize::MAX as usize,
            self.height <= isize::MAX as usize,
        ensures
            r == iter_pixels_spec(self),
    {
        let half_w: isize = (self.width / 2) as isize;
        let half_h: isize = (self.height / 2) as isize;
        let min_x: isize = -half_w;
        let max_x: isize = min_x + self.width as isize;
        let min_y: isize = half_h - self.height as isize + 1;
        let max_y: isize = half_h + 1;
        EachCanvasCoordinate {
            min_x,
            max_x,
            max_y,
            finished: self.width == 0 || self.height == 0,
            next_x: min_x,
            next_y: min_y,
        }
    }
}

/// The cursor a canvas hands out initially: positioned on the lowest row's
/// leftmost coordinate, and already finished for an empty canvas.
pub open spec fn iter_pixels_spec(c: Canvas) -> EachCanvasCoordinate {
    let half_w = c.width as int / 2;
    let half_h = c.height as int / 2;
    EachCanvasCoordinate {
        min_x: (-half_w) as isize,
        max_x: (c.width as int - half_w) as isize,
        max_y: (half_h + 1) as isize,
        finished: c.width == 0 || c.height == 0,
        next_x: (-half_w) as isize,
        next_y: (half_h + 1 - c.height as int) as isize,
    }
}

impl Default for Canvas {
    fn default() -> (c: Self)
        ensures
            c == (Canvas { width: DEFAULT_WIDTH, height: DEFAULT_HEIGHT }),
    {
        Canvas { width: DEFAULT_WIDTH, height: DEFAULT_HEIGHT }
    }
}

/// A cursor over the canvas coordinates of an image, left to right within a
/// row, rows from the bottom of the canvas upward.
#[derive(Clone, Copy, Debug, PartialEq, Eq, Structural)]
pub struct EachCanvasCoordinate {
    pub min_x: isize,
    pub max_x: isize,
    pub max_y: isize,
    pub next_x: isize,
    pub next_y: isize,
    pub finished: bool,
}

/// The exact state transition one `next` call makes: advance within the
/// row, wrap to the next row at its end, finish past the last row.
pub open spec fn advance_spec(it: EachCanvasCoordinate) -> EachCanvasCoordinate {
    if it.next_x + 1 < it.max_x {
        EachCanvasCoordinate { next_x: (it.next_x + 1) as isize, ..it }
    } else if it.next_y + 1 < it.max_y {
        EachCanvasCoordinate { next_x: it.min_x, next_y: (it.next_y + 1) as isize, ..it }
    } else {
        EachCanvasCoordinate { next_x: it.min_x, next_y: it.next_y, finished: true, ..it }
    }
}

impl EachCanvasCoordinate {
    /// Yield the coordinate under the cursor and step once; `None` exactly
    /// when the cursor has passed the last coordinate.
    pub fn next(&mut self) -> (r: Option<CanvasCoordinate>)
        requires
            old(self).finished || (old(self).min_x <= old(self).next_x < old(self).max_x
                && old(self).next_y < old(self).max_y),
        ensures
            old(self).finished ==> r is None && *final(self) == *old(self),
            !old(self).finished ==> r == Some(
                CanvasCoordinate { x: old(self).next_x, y: old(self).next_y },
            ) && *final(self) == advance_spec(*old(self)),
    {
        if self.finished {
            return None;
        }
        let coord = Some(CanvasCoordinate::new(self.next_x, self.next_y));
        if self.next_x + 1 < self.max_x {
            self.next_x = self.next_x + 1;
        } else if self.next_y + 1 < self.max_y {
            self.next_x = self.min_x;
            self.next_y = self.next_y + 1;
        } else {
            self.next_x = self.min_x;
            self.finished = true;
        }
        coord
    }
}

/// For an even-sized canvas, the center coordinate `(0, 0)` maps to the
/// middle screen pixel `(width/2, height/2)`.
pub proof fn lemma_center_maps_to_middle(c: Canvas)
    requires
        0 < c.width,
        0 < c.height,
        c.width % 2 == 0,
        c.height % 2 == 0,
    ensures
        canvas_to_screen_spec(c, (CanvasCoordinate { x: 0, y: 0 })) == (
        ScreenCoordinate::OnScreen { x: (c.width / 2) as usize, y: (c.height / 2) as usize }),
{
}

/// A coordinate outside the canvas half-extent maps to `OffScreen`.  The
/// one excluded input is the row `y == height/2`: the vertical flip sends
/// it to screen row zero, inside the image.
pub proof fn lemma_outside_half_extent_is_offscreen(c: Canvas, coord: CanvasCoordinate)
    requires
        c.width % 2 == 0,
        c.height % 2 == 0,
        !((-(c.width as int) / 2) <= coord.x < c.width as int / 2 && (-(c.height as int) / 2)
            <= coord.y < c.height as int / 2),
        coord.y != c.height as int / 2,
    ensures
        canvas_to_screen_spec(c, coord) == ScreenCoordinate::OffScreen,
{
    vstd::arithmetic::div_mod::lemma_fundamental_div_mod(c.width as int, 2);
    vstd::arithmetic::div_mod::lemma_fundamental_div_mod(c.height as int, 2);
    vstd::arithmetic::div_mod::lemma_fundamental_div_mod(-(c.width as int), 2);
    vstd::arithmetic::div_mod::lemma_fundamental_div_mod(-(c.height as int), 2);
}

} // verus!
