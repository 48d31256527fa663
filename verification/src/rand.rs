//! Small seeded pseudo-random generators; none is fit for cryptography.
use vstd::prelude::*;
use core::ops::Range;

verus! {

/// Increment of the SplitMix64 state.
pub const GAMMA: u64 = 0x9E37_79B9_7F4A_7C15;

/// First multiplier of the SplitMix64 output function.
pub const MUL1: u64 = 0xBF58_476D_1CE4_E5B9;

/// Second multiplier of the SplitMix64 output function.
pub const MUL2: u64 = 0x94D0_49BB_1331_11EB;

/// Multiplier of the PCG32 state.
pub const PCG_MULT: u64 = 6364136223846793005;

/// The SplitMix64 output for the state `z`.
pub open spec fn splitmix_output(z: u64) -> u64 {
    let a = (z ^ (z >> 30)).wrapping_mul(MUL1);
    let b = (a ^ (a >> 27)).wrapping_mul(MUL2);
    b ^ (b >> 31)
}

/// SplitMix64, used to seed other generators.
#[derive(Debug)]
pub struct SplitMix64 {
    state: u64,
}

impl Clone for SplitMix64 {
    fn clone(&self) -> (s: SplitMix64)
        ensures
            s@ == self@,
    {
        SplitMix64 { state: self.state }
    }
}

impl SplitMix64 {
    /// The state that the next output is made from.
    pub closed spec fn view(&self) -> u64 {
        self.state
    }

    /// A generator that starts at `seed`.
    pub fn new(seed: u64) -> (s: SplitMix64)
        ensures
            s@ == seed,
    {
        SplitMix64 { state: seed }
    }

    /// The next output; the state moves on by `GAMMA`.
    pub fn next_u64(&mut self) -> (r: u64)
        ensures
            r == splitmix_output(old(self)@),
            final(self)@ == old(self)@.wrapping_add(GAMMA),
    {
        let mut z = self.state;
        self.state = self.state.wrapping_add(GAMMA);
        z = z ^ (z >> 30);
        z = z.wrapping_mul(MUL1);
        z = z ^ (z >> 27);
        z = z.wrapping_mul(MUL2);
        z ^ (z >> 31)
    }
}

/// `x` with its bits moved right by `r` places, those pushed out coming
/// back in at the top.
pub open spec fn rotr32(x: u32, r: u32) -> u32 {
    if r == 0 {
        x
    } else {
        (x >> r) | (x << ((32 - r) as u32))
    }
}

/// The PCG32 (XSH-RR) output for the state `s`.
pub open spec fn pcg_output(s: u64) -> u32 {
    rotr32(((((s >> 18) ^ s) >> 27) & 0xffff_ffff) as u32, (s >> 59) as u32)
}

/// The PCG32 state that follows `s` in the stream `inc`.
pub open spec fn pcg_step(s: u64, inc: u64) -> u64 {
    s.wrapping_mul(PCG_MULT).wrapping_add(inc)
}

/// The state of a PCG32 seeded with `initstate` in the stream `inc`.
pub open spec fn pcg_seeded(initstate: u64, inc: u64) -> u64 {
    pcg_step(pcg_step(0, inc).wrapping_add(initstate), inc)
}

/// `x` rotated right by `r` places.
fn rotate_right(x: u32, r: u32) -> (y: u32)
    requires
        r < 32,
    ensures
        y == rotr32(x, r),
{
    if r == 0 {
        x
    } else {
        (x >> r) | (x << (32 - r))
    }
}

/// PCG32 (XSH-RR 64/32).
#[derive(Debug)]
pub struct Pcg32 {
    state: u64,
    inc: u64,
}

impl Clone for Pcg32 {
    fn clone(&self) -> (g: Pcg32)
        ensures
            g.state() == self.state(),
            g.stream() == self.stream(),
    {
        Pcg32 { state: self.state, inc: self.inc }
    }
}

impl Pcg32 {
    /// The state that the next output is made from.
    pub closed spec fn state(&self) -> u64 {
        self.state
    }

    /// The stream: the odd number added at each step.
    pub closed spec fn stream(&self) -> u64 {
        self.inc
    }

    /// A generator seeded with `initstate` in the stream `inc_odd`, which
    /// must be odd.
    pub fn seed(initstate: u64, inc_odd: u64) -> (g: Pcg32)
        requires
            inc_odd & 1 == 1,
        ensures
            g.state() == pcg_seeded(initstate, inc_odd),
            g.stream() == inc_odd,
    {
        let mut s = Pcg32 { state: 0, inc: inc_odd };
        let _ = s.next_u32();
        s.state = s.state.wrapping_add(initstate);
        let _ = s.next_u32();
        s
    }

    /// The next output; the state moves one step on in its stream.
    pub fn next_u32(&mut self) -> (r: u32)
        ensures
            r == pcg_output(old(self).state()),
            final(self).state() == pcg_step(old(self).state(), old(self).stream()),
            final(self).stream() == old(self).stream(),
    {
        let oldstate = self.state;
        self.state = oldstate.wrapping_mul(PCG_MULT).wrapping_add(self.inc);
        let x: u64 = (((oldstate >> 18) ^ oldstate) >> 27) & 0xffff_ffff;
        assert(x <= 0xffff_ffff) by (bit_vector)
            requires
                x == (((oldstate >> 18) ^ oldstate) >> 27) & 0xffff_ffff,
        ;
        let rot: u64 = oldstate >> 59;
        assert(rot < 32) by (bit_vector)
            requires
                rot == oldstate >> 59,
        ;
        rotate_right(x as u32, rot as u32)
    }
}

/// The PCG32 state after `k` steps from `s` in the stream `inc`.
pub open spec fn pcg_after(s: u64, inc: u64, k: nat) -> u64
    decreases k,
{
    if k == 0 {
        s
    } else {
        pcg_step(pcg_after(s, inc, (k - 1) as nat), inc)
    }
}

/// The number below which the low half of a product is rejected when a
/// value below `bound` is drawn: `2^32` modulo `bound`.
pub open spec fn reject_below(bound: u32) -> int {
    0x1_0000_0000int % (bound as int)
}

/// Whether the draw `x` is accepted for a value below `bound`.
pub open spec fn accepted(x: u32, bound: u32) -> bool {
    (x * bound) % 0x1_0000_0000 >= reject_below(bound)
}

/// The value below `bound` that the draw `x` stands for: the high half of
/// their product.
pub open spec fn scaled(x: u32, bound: u32) -> int {
    (x * bound) / 0x1_0000_0000
}

/// A scaled draw is below the bound.
pub proof fn lemma_scaled_in_range(x: u32, bound: u32)
    requires
        bound > 0,
    ensures
        0 <= scaled(x, bound) < bound,
{
    assert(0 <= x * bound < 0x1_0000_0000 * bound) by (nonlinear_arith)
        requires
            0 <= x < 0x1_0000_0000,
            bound > 0,
    ;
    vstd::arithmetic::div_mod::lemma_fundamental_div_mod(x * bound, 0x1_0000_0000);
}

/// One step of Lemire's method: the value in `[start, end)` that the draw
/// `x` stands for, if the draw is accepted.
pub fn range_from_draw(x: u32, start: u32, end: u32) -> (r: Option<u32>)
    requires
        start < end,
    ensures
        r == (if accepted(x, (end - start) as u32) {
            Some((start + scaled(x, (end - start) as u32)) as u32)
        } else {
            None
        }),
        r is Some ==> start <= r->0 < end,
{
    if is_accepted(x, end - start) {
        Some(scale_draw(x, start, end))
    } else {
        None
    }
}

/// The most draws that `Krand::range_u32` rejects before it takes a draw as
/// it comes.
pub const MAX_DRAWS: u64 = 0xffff_ffff_ffff_ffff;

/// The draw that a generator in state `s` of the stream `inc` makes after
/// `j` earlier draws.
pub open spec fn draw(s: u64, inc: u64, j: nat) -> u32 {
    pcg_output(pcg_after(s, inc, j))
}

/// Whether `k` draws are what a generator in state `s` makes for a value
/// below `bound`: the draws before the last are rejected, and the last is
/// accepted unless it is draw number `MAX_DRAWS`.
pub open spec fn draws_needed(s: u64, inc: u64, bound: u32, k: nat) -> bool {
    &&& 1 <= k <= MAX_DRAWS
    &&& forall|j: nat| j + 1 < k ==> !accepted(#[trigger] draw(s, inc, j), bound)
    &&& k == MAX_DRAWS || accepted(draw(s, inc, (k - 1) as nat), bound)
}

/// A generator with reproducible sequences: PCG32 seeded through SplitMix64.
#[derive(Debug)]
pub struct Krand {
    pcg: Pcg32,
}

impl Clone for Krand {
    fn clone(&self) -> (g: Krand)
        ensures
            g.state() == self.state(),
            g.stream() == self.stream(),
    {
        Krand { pcg: self.pcg.clone() }
    }
}

/// The PCG32 state of a `Krand` made from `seed`.
pub open spec fn krand_state(seed: u64) -> u64 {
    pcg_seeded(splitmix_output(seed), krand_stream(seed))
}

/// The PCG32 stream of a `Krand` made from `seed`.
pub open spec fn krand_stream(seed: u64) -> u64 {
    (splitmix_output(seed.wrapping_add(GAMMA)) << 1) | 1
}

impl Krand {
    /// The state that the next output is made from.
    pub closed spec fn state(&self) -> u64 {
        self.pcg.state()
    }

    /// The stream of the generator.
    pub closed spec fn stream(&self) -> u64 {
        self.pcg.stream()
    }

    /// A generator for `seed`; equal seeds give equal sequences.
    pub fn new(seed: u64) -> (g: Krand)
        ensures
            g.state() == krand_state(seed),
            g.stream() == krand_stream(seed),
    {
        Krand::from_seed(seed)
    }

    /// A generator for `seed`: SplitMix64 gives the PCG32 state and stream.
    pub fn from_seed(seed: u64) -> (g: Krand)
        ensures
            g.state() == krand_state(seed),
            g.stream() == krand_stream(seed),
    {
        let mut sm = SplitMix64::new(seed);
        let initstate = sm.next_u64();
        let stream = sm.next_u64();
        let inc = (stream << 1) | 1;
        assert(inc & 1 == 1) by (bit_vector)
            requires
                inc == (stream << 1) | 1,
        ;
        let pcg = Pcg32::seed(initstate, inc);
        Krand { pcg }
    }

    /// The next output.
    pub fn next_u32(&mut self) -> (r: u32)
        ensures
            r == pcg_output(old(self).state()),
            final(self).state() == pcg_step(old(self).state(), old(self).stream()),
            final(self).stream() == old(self).stream(),
    {
        self.pcg.next_u32()
    }

    /// A value in `[range.start, range.end)` by Lemire's method: a draw is
    /// scaled to the range by the high half of its product with the range's
    /// size, and draws whose low half would bias the result are rejected.
    /// After `MAX_DRAWS - 1` rejections the next draw is taken as it comes.
    pub fn range_u32(&mut self, range: Range<u32>) -> (r: u32)
        requires
            range.start < range.end,
        ensures
            range.start <= r < range.end,
            final(self).stream() == old(self).stream(),
            exists|k: nat|
                {
                    &&& #[trigger] draws_needed(
                        old(self).state(),
                        old(self).stream(),
                        (range.end - range.start) as u32,
                        k,
                    )
                    &&& final(self).state() == pcg_after(old(self).state(), old(self).stream(), k)
                    &&& r == range.start + scaled(
                        draw(old(self).state(), old(self).stream(), (k - 1) as nat),
                        (range.end - range.start) as u32,
                    )
                },
    {
        let start = range.start;
        let end = range.end;
        let ghost s0 = self.state();
        let ghost inc = self.stream();
        let ghost bound = (end - start) as u32;
        let mut rejected: u64 = 0;
        loop
            invariant
                start == range.start,
                end == range.end,
                s0 == old(self).state(),
                inc == old(self).stream(),
                start < end,
                bound == end - start,
                rejected < MAX_DRAWS,
                self.stream() == inc,
                self.state() == pcg_after(s0, inc, rejected as nat),
                forall|j: nat| j < rejected ==> !accepted(#[trigger] draw(s0, inc, j), bound),
            decreases MAX_DRAWS - rejected,
        {
            let x = self.next_u32();
            assert(x == draw(s0, inc, rejected as nat));
            assert(self.state() == pcg_after(s0, inc, (rejected + 1) as nat));
            let value = scale_draw(x, start, end);
            if is_accepted(x, end - start) || rejected == MAX_DRAWS - 1 {
                assert(draws_needed(s0, inc, bound, (rejected + 1) as nat));
                return value;
            }
            rejected += 1;
        }
    }
}

/// Whether the draw `x` is accepted for a value below `bound`.
fn is_accepted(x: u32, bound: u32) -> (b: bool)
    requires
        bound > 0,
    ensures
        b == accepted(x, bound),
{
    proof {
        assert(0 <= x * bound < 0x1_0000_0000 * 0x1_0000_0000) by (nonlinear_arith)
            requires
                0 <= x < 0x1_0000_0000,
                0 < bound < 0x1_0000_0000,
        ;
    }
    let threshold: u64 = 0x1_0000_0000u64 % (bound as u64);
    let m: u64 = (x as u64) * (bound as u64);
    m % 0x1_0000_0000u64 >= threshold
}

/// The value in `[start, end)` that the draw `x` stands for.
fn scale_draw(x: u32, start: u32, end: u32) -> (v: u32)
    requires
        start < end,
    ensures
        v == start + scaled(x, (end - start) as u32),
        start <= v < end,
{
    let bound: u32 = end - start;
    proof {
        lemma_scaled_in_range(x, bound);
        assert(0 <= x * bound < 0x1_0000_0000 * 0x1_0000_0000) by (nonlinear_arith)
            requires
                0 <= x < 0x1_0000_0000,
                0 < bound < 0x1_0000_0000,
        ;
    }
    let m: u64 = (x as u64) * (bound as u64);
    let hi: u64 = m / 0x1_0000_0000u64;
    start + hi as u32
}

} // verus!
