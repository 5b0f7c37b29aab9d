use vstd::prelude::*;

use crate::canvas::CanvasVector;

verus! {

/// A pointer position in screen pixels.
#[derive(Clone, Copy, Debug, PartialEq, Eq, Structural)]
pub struct PixelVector {
    pub x: u16,
    pub y: u16,
}

/// Where the grid lies on the screen: the pixel of its top-left corner, the
/// pixel of its bottom-right corner, and the pixel size of a cell less one.
#[derive(Clone, Copy, Debug, PartialEq, Eq, Structural)]
pub struct Calibration {
    pub top_left: PixelVector,
    pub bottom_right: PixelVector,
    pub cell_size: PixelVector,
}

/// `v` clamped into `[lo, hi]`.
pub open spec fn clamped(v: u16, lo: u16, hi: u16) -> u16 {
    if v < lo {
        lo
    } else if v > hi {
        hi
    } else {
        v
    }
}

/// Relies on num_traits::clamp: `min` below the range, `max` above it, the
/// input itself inside; it asserts `min <= max`.
#[verifier::external_body]
fn clamp_u16(v: u16, lo: u16, hi: u16) -> (r: u16)
    requires
        lo <= hi,
    ensures
        r == clamped(v, lo, hi),
{
    num_traits::clamp(v, lo, hi)
}

impl Calibration {
    /// The corners are in order and a cell size can be widened by one.
    pub open spec fn wf(&self) -> bool {
        &&& self.top_left.x <= self.bottom_right.x
        &&& self.top_left.y <= self.bottom_right.y
        &&& self.cell_size.x < u16::MAX
        &&& self.cell_size.y < u16::MAX
    }

    /// The calibration from the two clicked corners of a grid of
    /// `canvas_size` cells; `None` where the second corner is above or left
    /// of the first, or where a cell would be as wide as the pixel range.
    pub fn from_corners(top_left: PixelVector, bottom_right: PixelVector, canvas_size: CanvasVector) -> (r:
        Option<Calibration>)
        requires
            0 < canvas_size.x <= u16::MAX,
            0 < canvas_size.y <= u16::MAX,
        ensures
            r is None <==> bottom_right.x < top_left.x || bottom_right.y < top_left.y || (
            bottom_right.x - top_left.x) / (canvas_size.x as int) == u16::MAX || (bottom_right.y
                - top_left.y) / (canvas_size.y as int) == u16::MAX,
            r matches Some(c) ==> {
                &&& c.wf()
                &&& c.top_left == top_left
                &&& c.bottom_right == bottom_right
                &&& c.cell_size.x == (bottom_right.x - top_left.x) / (canvas_size.x as int)
                &&& c.cell_size.y == (bottom_right.y - top_left.y) / (canvas_size.y as int)
            },
    {
        if bottom_right.x < top_left.x || bottom_right.y < top_left.y {
            return None;
        }
        let w = canvas_size.x as u16;
        let h = canvas_size.y as u16;
        let cx: u16 = (bottom_right.x - top_left.x) / w;
        let cy: u16 = (bottom_right.y - top_left.y) / h;
        proof {
            assert(w >= 1 && cx <= (bottom_right.x - top_left.x)) by (nonlinear_arith)
                requires
                    w >= 1,
                    cx == (bottom_right.x - top_left.x) / (w as int),
                    bottom_right.x >= top_left.x,
            ;
            assert(h >= 1 && cy <= (bottom_right.y - top_left.y)) by (nonlinear_arith)
                requires
                    h >= 1,
                    cy == (bottom_right.y - top_left.y) / (h as int),
                    bottom_right.y >= top_left.y,
            ;
        }
        if cx == u16::MAX || cy == u16::MAX {
            return None;
        }
        Some(Calibration { top_left, bottom_right, cell_size: PixelVector { x: cx, y: cy } })
    }

    /// Converts a pixel position at or below-right of the top-left corner to
    /// the cell under it.
    pub fn pixel_to_cell(&self, pixel_position: PixelVector) -> (r: CanvasVector)
        requires
            self.top_left.x <= pixel_position.x,
            self.top_left.y <= pixel_position.y,
            self.cell_size.x < u16::MAX,
            self.cell_size.y < u16::MAX,
        ensures
            r.x == (pixel_position.x - self.top_left.x) / (self.cell_size.x + 1),
            r.y == (pixel_position.y - self.top_left.y) / (self.cell_size.y + 1),
    {
        let ax: u16 = pixel_position.x - self.top_left.x;
        let ay: u16 = pixel_position.y - self.top_left.y;
        CanvasVector { x: (ax / (self.cell_size.x + 1)) as usize, y: (ay / (self.cell_size.y + 1)) as usize }
    }

    /// The cell under a pointer position, the position first clamped into
    /// the calibrated area.
    pub fn mouse_cell(&self, position: PixelVector) -> (r: CanvasVector)
        requires
            self.wf(),
        ensures
            r.x == (clamped(position.x, self.top_left.x, self.bottom_right.x) - self.top_left.x) / (
            self.cell_size.x + 1),
            r.y == (clamped(position.y, self.top_left.y, self.bottom_right.y) - self.top_left.y) / (
            self.cell_size.y + 1),
    {
        let x = clamp_u16(position.x, self.top_left.x, self.bottom_right.x);
        let y = clamp_u16(position.y, self.top_left.y, self.bottom_right.y);
        self.pixel_to_cell(PixelVector { x, y })
    }
}

} // verus!
