//! Packed colours and the pixel surface they are written to.
use vstd::prelude::*;
use crate::arith::{lemma_index_in_range, lemma_index_injective};

verus! {

/// A colour of four eight-bit channels.
#[derive(Copy, Clone, Debug, PartialEq, Eq, Structural)]
pub struct Color {
    pub r: u8,
    pub g: u8,
    pub b: u8,
    pub a: u8,
}

/// The 32-bit word that holds `r` in its lowest byte, then `g`, `b` and `a`.
pub open spec fn pack(r: u8, g: u8, b: u8, a: u8) -> u32 {
    (r as u32) | ((g as u32) << 8) | ((b as u32) << 16) | ((a as u32) << 24)
}

/// The byte of `packed` at position `k`, counted from the lowest.
pub open spec fn byte_of(packed: u32, k: int) -> u8 {
    if k == 0 {
        (packed & 0xff) as u8
    } else if k == 1 {
        ((packed >> 8) & 0xff) as u8
    } else if k == 2 {
        ((packed >> 16) & 0xff) as u8
    } else {
        ((packed >> 24) & 0xff) as u8
    }
}

/// Packing four bytes and taking them out again gives the same bytes.
pub proof fn lemma_pack_bytes(r: u8, g: u8, b: u8, a: u8)
    ensures
        byte_of(pack(r, g, b, a), 0) == r,
        byte_of(pack(r, g, b, a), 1) == g,
        byte_of(pack(r, g, b, a), 2) == b,
        byte_of(pack(r, g, b, a), 3) == a,
{
    assert((((r as u32) | ((g as u32) << 8) | ((b as u32) << 16) | ((a as u32) << 24)) & 0xff) as u8
        == r) by (bit_vector);
    assert(((((r as u32) | ((g as u32) << 8) | ((b as u32) << 16) | ((a as u32) << 24)) >> 8)
        & 0xff) as u8 == g) by (bit_vector);
    assert(((((r as u32) | ((g as u32) << 8) | ((b as u32) << 16) | ((a as u32) << 24)) >> 16)
        & 0xff) as u8 == b) by (bit_vector);
    assert(((((r as u32) | ((g as u32) << 8) | ((b as u32) << 16) | ((a as u32) << 24)) >> 24)
        & 0xff) as u8 == a) by (bit_vector);
}

/// Taking the four bytes of a word and packing them gives the word back.
pub proof fn lemma_bytes_pack(p: u32)
    ensures
        pack(byte_of(p, 0), byte_of(p, 1), byte_of(p, 2), byte_of(p, 3)) == p,
{
    assert((((p & 0xff) as u8) as u32) | (((((p >> 8) & 0xff) as u8) as u32) << 8) | (((((p >> 16)
        & 0xff) as u8) as u32) << 16) | (((((p >> 24) & 0xff) as u8) as u32) << 24) == p)
        by (bit_vector);
}

impl Color {
    pub fn rgba(r: u8, g: u8, b: u8, a: u8) -> (c: Color)
        ensures
            c == (Color { r, g, b, a }),
    {
        Color { r, g, b, a }
    }

    /// The packed word of this colour.
    pub open spec fn packed(self) -> u32 {
        pack(self.r, self.g, self.b, self.a)
    }

    /// The colour that a packed word holds.
    pub open spec fn unpacked(p: u32) -> Color {
        Color { r: byte_of(p, 0), g: byte_of(p, 1), b: byte_of(p, 2), a: byte_of(p, 3) }
    }

    /// Packs the colour into a little-endian RGBA word.
    pub fn to_u32(self) -> (p: u32)
        ensures
            p == self.packed(),
            Color::unpacked(p) == self,
    {
        proof {
            lemma_pack_bytes(self.r, self.g, self.b, self.a);
        }
        (self.r as u32) | ((self.g as u32) << 8) | ((self.b as u32) << 16) | ((self.a as u32)
            << 24)
    }

    /// Reads a colour out of a little-endian RGBA word.
    pub fn from_u32(packed: u32) -> (c: Color)
        ensures
            c == Color::unpacked(packed),
            c.packed() == packed,
    {
        proof {
            lemma_bytes_pack(packed);
        }
        Color {
            r: (packed & 0xff) as u8,
            g: ((packed >> 8) & 0xff) as u8,
            b: ((packed >> 16) & 0xff) as u8,
            a: ((packed >> 24) & 0xff) as u8,
        }
    }
}

/// A grid of packed pixels, row after row from the top-left corner.
#[derive(Debug)]
pub struct Surface {
    width: usize,
    height: usize,
    pixels: Vec<u32>,
}

impl Clone for Surface {
    fn clone(&self) -> (s: Surface)
        ensures
            s.spec_width() == self.spec_width(),
            s.spec_height() == self.spec_height(),
            s@ == self@,
    {
        proof {
            use_type_invariant(self);
        }
        let s = Surface { width: self.width, height: self.height, pixels: self.pixels.clone() };
        assert(s@ =~= self@);
        s
    }
}

impl Surface {
    #[verifier::type_invariant]
    spec fn inv(self) -> bool {
        self.pixels.len() == self.width * self.height
    }

    /// Number of columns.
    pub closed spec fn spec_width(&self) -> nat {
        self.width as nat
    }

    /// Number of rows.
    pub closed spec fn spec_height(&self) -> nat {
        self.height as nat
    }

    /// The packed pixels in row-major order; always `width * height` of them.
    pub closed spec fn view(&self) -> Seq<u32> {
        Seq::new(self.spec_width() * self.spec_height(), |i: int| self.pixels@[i])
    }

    /// Whether `(x, y)` names a pixel of the surface.
    pub open spec fn in_bounds(&self, x: int, y: int) -> bool {
        0 <= x < self.spec_width() && 0 <= y < self.spec_height()
    }

    /// Position of pixel `(x, y)` in the row-major view.
    pub open spec fn index_of(&self, x: int, y: int) -> int {
        y * self.spec_width() + x
    }

    /// The packed pixel at `(x, y)`.
    pub open spec fn pixel_at(&self, x: int, y: int) -> u32 {
        self@[self.index_of(x, y)]
    }

    /// Same size, and the same pixels but for `(x, y)`, which holds `v`.
    pub open spec fn is_update_of(&self, old: &Surface, x: int, y: int, v: u32) -> bool {
        &&& self.spec_width() == old.spec_width()
        &&& self.spec_height() == old.spec_height()
        &&& self@ == old@.update(old.index_of(x, y), v)
    }

    /// The view has one entry per pixel.
    pub proof fn lemma_view_len(&self)
        ensures
            self@.len() == self.spec_width() * self.spec_height(),
    {
    }

    /// Every pixel inside the bounds has a place in the view.
    pub proof fn lemma_index_valid(&self, x: int, y: int)
        requires
            self.in_bounds(x, y),
        ensures
            0 <= self.index_of(x, y) < self@.len(),
    {
        lemma_index_in_range(x, y, self.spec_width() as int, self.spec_height() as int);
    }

    /// After one pixel was written, every other pixel reads as before.
    pub proof fn lemma_update_reads(&self, old: &Surface, x: int, y: int, v: u32, px: int, py: int)
        requires
            self.is_update_of(old, x, y, v),
            old.in_bounds(x, y),
            old.in_bounds(px, py),
        ensures
            self.pixel_at(px, py) == (if px == x && py == y {
                v
            } else {
                old.pixel_at(px, py)
            }),
    {
        old.lemma_index_valid(x, y);
        old.lemma_index_valid(px, py);
        if old.index_of(px, py) == old.index_of(x, y) {
            lemma_index_injective(px, py, x, y, old.spec_width() as int);
        }
    }

    /// Two surfaces of one size that agree on every pixel have the same view.
    pub proof fn lemma_same_pixels(&self, other: &Surface)
        requires
            self.spec_width() == other.spec_width(),
            self.spec_height() == other.spec_height(),
            forall|x: int, y: int|
                self.in_bounds(x, y) ==> #[trigger] self.pixel_at(x, y) == other.pixel_at(x, y),
        ensures
            self@ == other@,
    {
        let w = self.spec_width() as int;
        let h = self.spec_height() as int;
        assert forall|i: int| 0 <= i < self@.len() implies self@[i] == other@[i] by {
            if w == 0 {
                assert(w * h == 0) by (nonlinear_arith)
                    requires
                        w == 0,
                ;
            } else {
                vstd::arithmetic::div_mod::lemma_fundamental_div_mod(i, w);
                vstd::arithmetic::div_mod::lemma_mod_bound(i, w);
                let x = i % w;
                let y = i / w;
                assert(0 <= y < h) by (nonlinear_arith)
                    requires
                        i == w * y + x,
                        0 <= x < w,
                        0 <= i < w * h,
                ;
                assert(w * y == y * w) by (nonlinear_arith);
                assert(self.in_bounds(x, y));
                assert(self.pixel_at(x, y) == other.pixel_at(x, y));
            }
        }
        assert(self@ =~= other@);
    }

    /// A surface of `width` by `height` pixels, all zero.
    pub fn new(width: usize, height: usize) -> (s: Surface)
        requires
            width * height <= usize::MAX,
        ensures
            s.spec_width() == width,
            s.spec_height() == height,
            s@ == Seq::new((width * height) as nat, |i: int| 0u32),
    {
        let len = width * height;
        let pixels = vec![0u32; len];
        let s = Surface { width, height, pixels };
        assert(s@ =~= Seq::new((width * height) as nat, |i: int| 0u32));
        s
    }

    pub fn width(&self) -> (w: usize)
        ensures
            w == self.spec_width(),
    {
        self.width
    }

    pub fn height(&self) -> (h: usize)
        ensures
            h == self.spec_height(),
    {
        self.height
    }

    /// Fills the whole surface with one colour.
    pub fn clear(&mut self, color: Color)
        ensures
            final(self).spec_width() == old(self).spec_width(),
            final(self).spec_height() == old(self).spec_height(),
            final(self)@ == Seq::new(old(self)@.len(), |i: int| color.packed()),
    {
        proof {
            use_type_invariant(&*self);
        }
        let v = color.to_u32();
        let n = self.pixels.len();
        let mut i: usize = 0;
        while i < n
            invariant
                i <= n,
                n == self.pixels.len(),
                self.width == old(self).width,
                self.height == old(self).height,
                n == self.width * self.height,
                v == color.packed(),
                forall|k: int| 0 <= k < i ==> self.pixels@[k] == v,
            decreases n - i,
        {
            self.pixels[i] = v;
            i += 1;
        }
        assert(self@ =~= Seq::new(old(self)@.len(), |i: int| color.packed()));
    }

    /// Writes one pixel; a position outside the surface is ignored.
    pub fn set_pixel(&mut self, x: i32, y: i32, color: Color)
        ensures
            old(self).in_bounds(x as int, y as int) ==> final(self).is_update_of(
                old(self),
                x as int,
                y as int,
                color.packed(),
            ),
            !old(self).in_bounds(x as int, y as int) ==> *final(self) == *old(self),
    {
        proof {
            use_type_invariant(&*self);
        }
        if x < 0 || y < 0 {
            return ;
        }
        let (ux, uy) = (x as usize, y as usize);
        if ux >= self.width || uy >= self.height {
            return ;
        }
        proof {
            lemma_index_in_range(ux as int, uy as int, self.width as int, self.height as int);
        }
        let idx = uy * self.width + ux;
        self.pixels[idx] = color.to_u32();
        assert(self@ =~= old(self)@.update(old(self).index_of(x as int, y as int), color.packed()));
    }

    /// Writes one pixel given by wide coordinates; a position outside the
    /// surface is ignored.
    pub(crate) fn set_pixel_wide(&mut self, x: i64, y: i64, color: Color)
        ensures
            old(self).in_bounds(x as int, y as int) ==> final(self).is_update_of(
                old(self),
                x as int,
                y as int,
                color.packed(),
            ),
            !old(self).in_bounds(x as int, y as int) ==> *final(self) == *old(self),
    {
        proof {
            use_type_invariant(&*self);
        }
        if x < 0 || y < 0 {
            return ;
        }
        if x as u64 >= self.width as u64 || y as u64 >= self.height as u64 {
            return ;
        }
        let (ux, uy) = (x as usize, y as usize);
        proof {
            lemma_index_in_range(ux as int, uy as int, self.width as int, self.height as int);
        }
        let idx = uy * self.width + ux;
        self.pixels[idx] = color.to_u32();
        assert(self@ =~= old(self)@.update(old(self).index_of(x as int, y as int), color.packed()));
    }

    /// Reads one pixel, if the position is inside the surface.
    pub fn get_pixel(&self, x: i32, y: i32) -> (r: Option<Color>)
        ensures
            r == (if self.in_bounds(x as int, y as int) {
                Some(Color::unpacked(self.pixel_at(x as int, y as int)))
            } else {
                None
            }),
    {
        proof {
            use_type_invariant(self);
        }
        if x < 0 || y < 0 {
            return None;
        }
        let (ux, uy) = (x as usize, y as usize);
        if ux >= self.width || uy >= self.height {
            return None;
        }
        proof {
            lemma_index_in_range(ux as int, uy as int, self.width as int, self.height as int);
        }
        let idx = uy * self.width + ux;
        Some(Color::from_u32(self.pixels[idx]))
    }

    /// The packed pixels, row after row.
    pub fn pixels(&self) -> (p: &[u32])
        ensures
            p@ == self@,
    {
        proof {
            use_type_invariant(self);
        }
        let p = self.pixels.as_slice();
        assert(p@ =~= self@);
        p
    }
}

} // verus!
