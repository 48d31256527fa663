//! The colour buffer that triangles are drawn into.
use vstd::prelude::*;
use crate::pix::{Color, Surface};

verus! {

/// A frame: one colour surface.
#[derive(Debug)]
pub struct Frame {
    surface: Surface,
}

impl Clone for Frame {
    fn clone(&self) -> (f: Frame)
        ensures
            f.spec_width() == self.spec_width(),
            f.spec_height() == self.spec_height(),
            f@ == self@,
    {
        Frame { surface: self.surface.clone() }
    }
}

impl Frame {
    /// The surface that holds the frame's pixels.
    pub closed spec fn as_surface(&self) -> Surface {
        self.surface
    }

    /// Number of columns.
    pub open spec fn spec_width(&self) -> nat {
        self.as_surface().spec_width()
    }

    /// Number of rows.
    pub open spec fn spec_height(&self) -> nat {
        self.as_surface().spec_height()
    }

    /// The packed pixels in row-major order.
    pub open spec fn view(&self) -> Seq<u32> {
        self.as_surface()@
    }

    /// Whether `(x, y)` names a pixel of the frame.
    pub open spec fn in_bounds(&self, x: int, y: int) -> bool {
        self.as_surface().in_bounds(x, y)
    }

    /// The packed pixel at `(x, y)`.
    pub open spec fn pixel_at(&self, x: int, y: int) -> u32 {
        self.as_surface().pixel_at(x, y)
    }

    /// Two frames of one size that agree on every pixel have the same view.
    pub proof fn lemma_same_pixels(&self, other: &Frame)
        requires
            self.spec_width() == other.spec_width(),
            self.spec_height() == other.spec_height(),
            forall|x: int, y: int|
                self.in_bounds(x, y) ==> #[trigger] self.pixel_at(x, y) == other.pixel_at(x, y),
        ensures
            self@ == other@,
    {
        assert forall|x: int, y: int| self.as_surface().in_bounds(x, y) implies #[trigger]
            self.as_surface().pixel_at(x, y) == other.as_surface().pixel_at(x, y) by {
            assert(self.pixel_at(x, y) == other.pixel_at(x, y));
        }
        self.as_surface().lemma_same_pixels(&other.as_surface());
    }

    /// A frame of `width` by `height` pixels, all zero.
    pub fn new(width: usize, height: usize) -> (f: Frame)
        requires
            width * height <= usize::MAX,
        ensures
            f.spec_width() == width,
            f.spec_height() == height,
            f@ == Seq::new((width * height) as nat, |i: int| 0u32),
    {
        Frame { surface: Surface::new(width, height) }
    }

    pub fn width(&self) -> (w: usize)
        ensures
            w == self.spec_width(),
    {
        self.surface.width()
    }

    pub fn height(&self) -> (h: usize)
        ensures
            h == self.spec_height(),
    {
        self.surface.height()
    }

    /// Fills the whole frame with one colour.
    pub fn clear(&mut self, color: Color)
        ensures
            final(self).spec_width() == old(self).spec_width(),
            final(self).spec_height() == old(self).spec_height(),
            final(self)@ == Seq::new(old(self)@.len(), |i: int| color.packed()),
    {
        self.surface.clear(color);
    }

    /// Writes one pixel; a position outside the frame is ignored.
    pub fn set_pixel(&mut self, x: i32, y: i32, color: Color)
        ensures
            old(self).in_bounds(x as int, y as int) ==> final(self).as_surface().is_update_of(
                &old(self).as_surface(),
                x as int,
                y as int,
                color.packed(),
            ),
            !old(self).in_bounds(x as int, y as int) ==> *final(self) == *old(self),
    {
        self.surface.set_pixel(x, y, color);
    }

    /// The packed pixels, row after row.
    pub fn pixels(&self) -> (p: &[u32])
        ensures
            p@ == self@,
    {
        self.surface.pixels()
    }

    /// The surface behind the frame, for encoders.
    pub fn surface(&self) -> (s: &Surface)
        ensures
            *s == self.as_surface(),
    {
        &self.surface
    }
}

} // verus!
