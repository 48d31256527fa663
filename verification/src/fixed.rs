//! 16.16 fixed-point scalars and the small vectors built from them.
use vstd::prelude::*;
use vstd::arithmetic::power2::{lemma2_to64, lemma_pow2_adds, lemma_pow2_strictly_increases, pow2};
use vstd::bits::lemma_u64_shl_is_mul;

verus! {

/// Raw value of the fixed-point number one.
pub const ONE_RAW: i32 = 65536;

/// Raw value of the fixed-point number one half.
pub const HALF_RAW: i32 = 32768;

/// A number with sixteen integer and sixteen fractional bits.
///
/// The value it stands for is `raw / 65536`.
#[derive(Copy, Clone, Debug, PartialEq, Eq, Structural)]
pub struct Fixed {
    pub raw: i32,
}

/// Largest integer that is not above `raw / 65536`.
pub open spec fn floor_raw(raw: int) -> int {
    raw / 65536
}

/// Smallest integer that is not below `raw / 65536`.
pub open spec fn ceil_raw(raw: int) -> int {
    (raw + 65535) / 65536
}

/// The magnitude, in raw units, of the IEEE 754 single-precision number
/// with the exponent field `e` (below 255) and the fraction field `f`: its
/// value times `2^16`, rounded to the nearest integer, a half going away
/// from zero.
pub open spec fn single_magnitude(e: int, f: int) -> int {
    let m = if e == 0 {
        f
    } else {
        0x80_0000 + f
    };
    let shift = (if e == 0 {
        1
    } else {
        e
    }) - 134;
    if shift >= 0 {
        m * pow2(shift as nat)
    } else {
        (m + pow2((-shift - 1) as nat)) / (pow2((-shift) as nat) as int)
    }
}

/// The raw value of the fixed-point number nearest to the IEEE 754
/// single-precision number with the bit pattern `bits`. A number beyond the
/// range of the format is held at its ends, and a pattern that is no number
/// gives zero.
pub open spec fn single_to_raw(bits: u32) -> int {
    let s = bits / 0x8000_0000;
    let e = ((bits / 0x80_0000) % 256) as int;
    let f = (bits % 0x80_0000) as int;
    if e == 255 && f != 0 {
        0
    } else {
        let mag = if e == 255 {
            0x8000_0000
        } else {
            single_magnitude(e, f)
        };
        if s == 0 {
            if mag > 0x7fff_ffff {
                0x7fff_ffff
            } else {
                mag
            }
        } else {
            if mag > 0x8000_0000 {
                -0x8000_0000
            } else {
                -mag
            }
        }
    }
}

/// The magnitude of a single-precision number in raw units, held at `2^31`.
fn magnitude(e: u32, f: u32) -> (m: u64)
    requires
        e < 255,
        f < 0x80_0000,
    ensures
        m == (if single_magnitude(e as int, f as int) > 0x8000_0000 {
            0x8000_0000
        } else {
            single_magnitude(e as int, f as int)
        }),
{
    let m: u64 = if e == 0 {
        f as u64
    } else {
        0x80_0000 + f as u64
    };
    proof {
        lemma2_to64();
    }
    if e >= 134 {
        let shift: u64 = (e - 134) as u64;
        if shift >= 8 {
            proof {
                if shift > 8 {
                    lemma_pow2_strictly_increases(8, shift as nat);
                }
                assert(m * pow2(shift as nat) >= 0x80_0000 * 0x100) by (nonlinear_arith)
                    requires
                        m >= 0x80_0000,
                        pow2(shift as nat) >= 0x100,
                ;
            }
            0x8000_0000
        } else {
            proof {
                assert(pow2(shift as nat) <= 0x80);
                assert(m * pow2(shift as nat) <= 0xff_ffff * 0x80) by (nonlinear_arith)
                    requires
                        m <= 0xff_ffff,
                        pow2(shift as nat) <= 0x80,
                ;
                lemma_u64_shl_is_mul(m, shift);
            }
            m << shift
        }
    } else {
        let k: u64 = if e == 0 {
            133
        } else {
            (134 - e) as u64
        };
        if k > 24 {
            proof {
                let half = pow2((k - 1) as nat);
                let whole = pow2(k as nat);
                if k - 1 > 24 {
                    lemma_pow2_strictly_increases(24, (k - 1) as nat);
                }
                lemma_pow2_adds((k - 1) as nat, 1);
                assert(whole == 2 * half);
                vstd::arithmetic::div_mod::lemma_basic_div(m + half, whole as int);
            }
            0
        } else {
            proof {
                lemma_u64_shl_is_mul(1, (k - 1) as u64);
                lemma_u64_shl_is_mul(1, k);
            }
            let half: u64 = 1u64 << (k - 1);
            let whole: u64 = 1u64 << k;
            (m + half) / whole
        }
    }
}

impl Fixed {
    /// The fixed-point number nearest to the IEEE 754 single-precision
    /// number with the bit pattern `bits`; a half goes away from zero. A
    /// number beyond the range of the format is held at its ends, and a
    /// pattern that is no number gives zero.
    pub fn from_single_bits(bits: u32) -> (r: Fixed)
        ensures
            r.raw == single_to_raw(bits),
    {
        let negative = bits / 0x8000_0000 != 0;
        let e: u32 = (bits / 0x80_0000) % 256;
        let f: u32 = bits % 0x80_0000;
        if e == 255 && f != 0 {
            return Fixed { raw: 0 };
        }
        let mag: u64 = if e == 255 {
            0x8000_0000
        } else {
            magnitude(e, f)
        };
        if negative {
            if mag >= 0x8000_0000 {
                Fixed { raw: i32::MIN }
            } else {
                Fixed { raw: -(mag as i32) }
            }
        } else {
            if mag > 0x7fff_ffff {
                Fixed { raw: i32::MAX }
            } else {
                Fixed { raw: mag as i32 }
            }
        }
    }

    /// The number whose raw representation is `raw`.
    pub fn from_raw(raw: i32) -> (f: Fixed)
        ensures
            f.raw == raw,
    {
        Fixed { raw }
    }

    /// The whole number `n`.
    pub fn from_int(n: i16) -> (f: Fixed)
        ensures
            f.raw == n * 65536,
    {
        Fixed { raw: (n as i32) * ONE_RAW }
    }

    /// The number zero.
    pub fn zero() -> (f: Fixed)
        ensures
            f.raw == 0,
    {
        Fixed { raw: 0 }
    }

    /// The number one.
    pub fn one() -> (f: Fixed)
        ensures
            f.raw == 65536,
    {
        Fixed { raw: ONE_RAW }
    }

    /// Rounds towards negative infinity.
    pub fn floor(self) -> (n: i32)
        ensures
            n == floor_raw(self.raw as int),
            n * 65536 <= self.raw < (n + 1) * 65536,
    {
        let r: i32 = self.raw;
        let q: i32 = r / ONE_RAW;
        if r % ONE_RAW < 0 {
            q - 1
        } else {
            q
        }
    }

    /// Rounds towards positive infinity.
    pub fn ceil(self) -> (n: i32)
        ensures
            n == ceil_raw(self.raw as int),
            (n - 1) * 65536 < self.raw <= n * 65536,
    {
        let r: i32 = self.raw;
        let q: i32 = r / ONE_RAW;
        if r % ONE_RAW > 0 {
            q + 1
        } else {
            q
        }
    }
}

/// A point or direction in the plane.
#[derive(Copy, Clone, Debug, PartialEq, Eq, Structural)]
pub struct Vec2 {
    pub x: Fixed,
    pub y: Fixed,
}

impl Vec2 {
    pub fn new(x: Fixed, y: Fixed) -> (v: Vec2)
        ensures
            v.x == x,
            v.y == y,
    {
        Vec2 { x, y }
    }

    /// The origin.
    pub fn zero() -> (v: Vec2)
        ensures
            v.x.raw == 0,
            v.y.raw == 0,
    {
        Vec2 { x: Fixed { raw: 0 }, y: Fixed { raw: 0 } }
    }
}

/// A point in space; the rasterizer reads `x` and `y` only.
#[derive(Copy, Clone, Debug, PartialEq, Eq, Structural)]
pub struct Vec3 {
    pub x: Fixed,
    pub y: Fixed,
    pub z: Fixed,
}

impl Vec3 {
    pub fn new(x: Fixed, y: Fixed, z: Fixed) -> (v: Vec3)
        ensures
            v.x == x,
            v.y == y,
            v.z == z,
    {
        Vec3 { x, y, z }
    }
}

} // verus!
