//! Immutable textures with nearest-neighbour, edge-clamped sampling.
use vstd::prelude::*;
use crate::fixed::Vec2;
use crate::arith::lemma_index_in_range;
use crate::pix::Color;

verus! {

/// A texture coordinate held inside `[0, 1]`, as a raw fixed-point value.
pub open spec fn clamp_unit(raw: int) -> int {
    if raw < 0 {
        0
    } else if raw > 65536 {
        65536
    } else {
        raw
    }
}

/// The texel, among `n` in a row, that is nearest to the coordinate `raw`.
///
/// The coordinate is clamped to `[0, 1]`, scaled by `n - 1` and rounded half up.
pub open spec fn nearest_index(raw: int, n: int) -> int {
    (clamp_unit(raw) * (n - 1) + 32768) / 65536
}

/// The nearest texel always lies inside the row.
pub proof fn lemma_nearest_index_in_range(raw: int, n: int)
    requires
        n > 0,
    ensures
        0 <= nearest_index(raw, n) < n,
{
    let c = clamp_unit(raw);
    assert(0 <= c * (n - 1) <= 65536 * (n - 1)) by (nonlinear_arith)
        requires
            0 <= c <= 65536,
            n - 1 >= 0,
    ;
    assert(65536 * (n - 1) + 32768 < 65536 * n);
}

/// A grid of packed texels that cannot change once it is built.
#[derive(Debug)]
pub struct Texture {
    width: usize,
    height: usize,
    pixels: Vec<u32>,
}

impl Clone for Texture {
    fn clone(&self) -> (t: Texture)
        ensures
            t.spec_width() == self.spec_width(),
            t.spec_height() == self.spec_height(),
            t@ == self@,
    {
        proof {
            use_type_invariant(self);
        }
        let t = Texture { width: self.width, height: self.height, pixels: self.pixels.clone() };
        assert(t@ =~= self@);
        t
    }
}

impl Texture {
    #[verifier::type_invariant]
    spec fn inv(self) -> bool {
        &&& self.width > 0
        &&& self.height > 0
        &&& self.pixels.len() == self.width * self.height
    }

    /// Number of columns.
    pub closed spec fn spec_width(&self) -> nat {
        self.width as nat
    }

    /// Number of rows.
    pub closed spec fn spec_height(&self) -> nat {
        self.height as nat
    }

    /// The packed texels in row-major order; always `width * height` of them.
    pub closed spec fn view(&self) -> Seq<u32> {
        Seq::new(self.spec_width() * self.spec_height(), |i: int| self.pixels@[i])
    }

    /// The packed texel in column `tx` of row `ty`.
    pub open spec fn texel_at(&self, tx: int, ty: int) -> u32 {
        self@[ty * self.spec_width() + tx]
    }

    /// The colour that nearest sampling gives at the raw coordinates `(u, v)`.
    pub open spec fn sample(&self, u: int, v: int) -> Color {
        Color::unpacked(
            self.texel_at(
                nearest_index(u, self.spec_width() as int),
                nearest_index(v, self.spec_height() as int),
            ),
        )
    }

    /// Builds a texture from packed texels given row after row.
    pub fn from_rgba_le(pixels: Vec<u32>, width: usize, height: usize) -> (t: Texture)
        requires
            width > 0,
            height > 0,
            pixels.len() == width * height,
        ensures
            t.spec_width() == width,
            t.spec_height() == height,
            t@ == pixels@,
    {
        let t = Texture { width, height, pixels };
        assert(t@ =~= pixels@);
        t
    }

    pub fn width(&self) -> (w: usize)
        ensures
            w == self.spec_width(),
            w > 0,
    {
        proof {
            use_type_invariant(self);
        }
        self.width
    }

    pub fn height(&self) -> (h: usize)
        ensures
            h == self.spec_height(),
            h > 0,
    {
        proof {
            use_type_invariant(self);
        }
        self.height
    }

    /// Nearest-neighbour sample at `uv`, with coordinates outside `[0, 1]`
    /// held at the edge.
    pub fn sample_nearest(&self, uv: Vec2) -> (c: Color)
        ensures
            c == self.sample(uv.x.raw as int, uv.y.raw as int),
    {
        proof {
            use_type_invariant(self);
        }
        let tx = nearest_texel(uv.x.raw, self.width);
        let ty = nearest_texel(uv.y.raw, self.height);
        proof {
            lemma_index_in_range(tx as int, ty as int, self.width as int, self.height as int);
        }
        let idx = ty * self.width + tx;
        Color::from_u32(self.pixels[idx])
    }
}

/// Index of the texel, among `n`, nearest to the raw coordinate `raw`.
fn nearest_texel(raw: i32, n: usize) -> (t: usize)
    requires
        n > 0,
    ensures
        t == nearest_index(raw as int, n as int),
        t < n,
{
    let c: u128 = if raw < 0 {
        0
    } else if raw > 65536 {
        65536
    } else {
        raw as u128
    };
    proof {
        lemma_nearest_index_in_range(raw as int, n as int);
        assert(0 <= c * (n - 1) <= 65536 * (n - 1)) by (nonlinear_arith)
            requires
                0 <= c <= 65536,
                n - 1 >= 0,
        ;
    }
    let scaled: u128 = c * ((n - 1) as u128) + 32768;
    (scaled / 65536) as usize
}

} // verus!
