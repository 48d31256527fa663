//! A fixed-timestep update loop: real time is collected in an accumulator and
//! spent in updates of one fixed length.
use vstd::prelude::*;
use crate::time::{Clock, Duration, Instant, MAX_NANOS};

verus! {

/// What an application offers to the loop.
///
/// `alpha` tells how far, in millionths of a step, the time has run past the
/// last update.
pub trait App {
    fn update(&mut self, dt: Duration);

    fn render(&mut self, alpha: u32);
}

/// The nearest whole number of nanoseconds to one `hz`-th of a second; a
/// value half-way between two goes to the even one.
pub open spec fn step_nanos(hz: int) -> int {
    let q = 1_000_000_000int / hz;
    let r = 1_000_000_000int % hz;
    if 2 * r > hz || (2 * r == hz && q % 2 == 1) {
        q + 1
    } else {
        q
    }
}

/// Settings of the loop.
#[derive(Copy, Clone, Debug)]
pub struct LoopConfig {
    /// Updates per second.
    pub fixed_hz: u32,
    /// Length of one update.
    pub fixed_dt: Duration,
    /// The longest frame time that is counted.
    pub max_frame_dt: Duration,
    /// The most updates made in one frame.
    pub max_updates_per_frame: u32,
}

impl LoopConfig {
    /// Settings for `fixed_hz` updates per second (60 for zero), with frames
    /// counted up to 250 ms and at most 10 updates per frame.
    pub fn from_hz(fixed_hz: u32) -> (c: LoopConfig)
        ensures
            c.fixed_hz == (if fixed_hz == 0 {
                60
            } else {
                fixed_hz
            }),
            c.fixed_dt@ == step_nanos(c.fixed_hz as int),
            c.max_frame_dt@ == 250_000_000,
            c.max_updates_per_frame == 10,
    {
        let hz: u32 = if fixed_hz == 0 {
            60
        } else {
            fixed_hz
        };
        let q: u64 = 1_000_000_000u64 / (hz as u64);
        let r: u64 = 1_000_000_000u64 % (hz as u64);
        let nanos: u64 = if 2 * r > hz as u64 || (2 * r == hz as u64 && q % 2 == 1) {
            q + 1
        } else {
            q
        };
        LoopConfig {
            fixed_hz: hz,
            fixed_dt: Duration::from_nanos(nanos),
            max_frame_dt: Duration::from_millis(250),
            max_updates_per_frame: 10,
        }
    }

    /// The same settings with other limits.
    pub fn with_limits(self, max_frame_dt: Duration, max_updates_per_frame: u32) -> (c: LoopConfig)
        ensures
            c.fixed_hz == self.fixed_hz,
            c.fixed_dt == self.fixed_dt,
            c.max_frame_dt == max_frame_dt,
            c.max_updates_per_frame == max_updates_per_frame,
    {
        LoopConfig {
            fixed_hz: self.fixed_hz,
            fixed_dt: self.fixed_dt,
            max_frame_dt,
            max_updates_per_frame,
        }
    }
}

impl Default for LoopConfig {
    fn default() -> (c: LoopConfig)
        ensures
            c.fixed_hz == 60,
            c.fixed_dt@ == 16_666_667,
            c.max_frame_dt@ == 250_000_000,
            c.max_updates_per_frame == 10,
    {
        LoopConfig::from_hz(60)
    }
}

/// What one frame did: the updates made, and how far the time has run past
/// the last of them, in millionths of a step (below one million).
#[derive(Copy, Clone, Debug, Default, PartialEq, Eq, Structural)]
pub struct TickResult {
    pub updates: u32,
    pub alpha: u32,
}

/// The frame time that is counted: the time since the last frame, cut to the
/// longest frame time.
pub open spec fn counted(now: nat, last: nat, max_frame: nat) -> nat {
    let dt: nat = if now < last {
        0
    } else {
        (now - last) as nat
    };
    if dt > max_frame {
        max_frame
    } else {
        dt
    }
}

/// The accumulator once the frame time has been added.
pub open spec fn filled(acc: nat, frame_dt: nat) -> nat {
    if acc + frame_dt > MAX_NANOS {
        MAX_NANOS as nat
    } else {
        acc + frame_dt
    }
}

/// The updates that fit the accumulator: as many steps as it holds, cut to
/// the most that a frame may make. A step of no length fits without end.
pub open spec fn updates_due(acc: nat, step: nat, max_updates: nat) -> nat {
    if step == 0 || acc / step >= max_updates {
        max_updates
    } else {
        acc / step
    }
}

/// The accumulator once the updates have been made: emptied when the frame
/// made all the updates it may, and otherwise less their steps.
pub open spec fn left_over(acc: nat, step: nat, max_updates: nat) -> nat {
    let n = updates_due(acc, step, max_updates);
    if n >= max_updates {
        0
    } else {
        (acc - n * step) as nat
    }
}

/// How far the time has run past the last update, in millionths of a step
/// and held below one million; zero for a step of no length.
pub open spec fn alpha_of(rest: nat, step: nat) -> nat {
    if step == 0 {
        0
    } else if rest * 1_000_000 / step > 999_999 {
        999_999
    } else {
        rest * 1_000_000 / step
    }
}

/// A loop that makes updates of a fixed length.
pub struct FixedLoop<C: Clock> {
    pub clock: C,
    pub last: Instant,
    pub accumulator: Duration,
    pub cfg: LoopConfig,
    pub frame_index: u64,
}

impl<C: Clock> FixedLoop<C> {
    /// A loop that starts at the clock's present moment.
    pub fn new(clock: C, cfg: LoopConfig) -> (l: FixedLoop<C>)
        ensures
            l.clock == clock,
            l.cfg == cfg,
            l.accumulator@ == 0,
            l.frame_index == 0,
    {
        let now = clock.now();
        FixedLoop { clock, last: now, accumulator: Duration::zero(), cfg, frame_index: 0 }
    }

    /// Accounts for the time up to `now`: adds the frame time to the
    /// accumulator, takes the steps of the updates that are due out of it,
    /// and counts the frame. Returns those updates and the rest as alpha.
    pub fn advance(&mut self, now: Instant) -> (r: TickResult)
        requires
            old(self).frame_index < u64::MAX,
        ensures
            final(self).clock == old(self).clock,
            final(self).cfg == old(self).cfg,
            final(self).last == now,
            final(self).frame_index == old(self).frame_index + 1,
            ({
                let acc = filled(
                    old(self).accumulator@,
                    counted(now@, old(self).last@, old(self).cfg.max_frame_dt@),
                );
                let step = old(self).cfg.fixed_dt@;
                let most = old(self).cfg.max_updates_per_frame as nat;
                &&& r.updates == updates_due(acc, step, most)
                &&& final(self).accumulator@ == left_over(acc, step, most)
                &&& r.alpha == alpha_of(left_over(acc, step, most), step)
            }),
    {
        let mut frame_dt = now.saturating_duration_since(self.last);
        self.last = now;
        if frame_dt.as_nanos() > self.cfg.max_frame_dt.as_nanos() {
            frame_dt = self.cfg.max_frame_dt;
        }
        let acc = self.accumulator.saturating_add(frame_dt);
        let step = self.cfg.fixed_dt;
        let most = self.cfg.max_updates_per_frame;
        let mut rest = acc;
        let mut updates: u32 = 0;
        while rest.as_nanos() >= step.as_nanos() && updates < most
            invariant
                updates <= most,
                rest@ + updates * step@ == acc@,
                step@ > 0 ==> updates <= acc@ / step@,
            decreases most - updates,
        {
            proof {
                assert((updates + 1) * step@ == updates * step@ + step@) by (nonlinear_arith);
                lemma_step_fits(acc@ as int, step@ as int, updates as int);
            }
            rest = rest.saturating_sub(step);
            updates += 1;
            assert(rest@ + updates * step@ == acc@) by (nonlinear_arith)
                requires
                    rest@ + step@ + (updates - 1) * step@ == acc@,
            ;
        }
        proof {
            if step@ > 0 && updates < most {
                lemma_steps_exact(acc@ as int, step@ as int, updates as int, rest@ as int);
            }
        }
        if updates >= most {
            rest = Duration::zero();
        }
        self.accumulator = rest;
        let alpha: u32 = if step.is_zero() {
            0
        } else {
            proof {
                assert(rest@ * 1_000_000 <= MAX_NANOS * 1_000_000) by (nonlinear_arith)
                    requires
                        rest@ <= MAX_NANOS,
                ;
            }
            let a: u128 = rest.as_nanos() * 1_000_000 / step.as_nanos();
            if a > 999_999 {
                999_999
            } else {
                a as u32
            }
        };
        self.frame_index = self.frame_index + 1;
        TickResult { updates, alpha }
    }

    /// One frame of real time: reads the clock, makes the updates that are
    /// due, each of the fixed length, and renders once.
    pub fn tick<A: App>(&mut self, app: &mut A) -> (r: TickResult)
        requires
            old(self).frame_index < u64::MAX,
        ensures
            final(self).clock == old(self).clock,
            final(self).cfg == old(self).cfg,
            final(self).frame_index == old(self).frame_index + 1,
            ({
                let acc = filled(
                    old(self).accumulator@,
                    counted(final(self).last@, old(self).last@, old(self).cfg.max_frame_dt@),
                );
                let step = old(self).cfg.fixed_dt@;
                let most = old(self).cfg.max_updates_per_frame as nat;
                &&& r.updates == updates_due(acc, step, most)
                &&& final(self).accumulator@ == left_over(acc, step, most)
                &&& r.alpha == alpha_of(left_over(acc, step, most), step)
            }),
    {
        let now = self.clock.now();
        let r = self.advance(now);
        let dt = self.cfg.fixed_dt;
        let mut i: u32 = 0;
        while i < r.updates
            invariant
                i <= r.updates,
            decreases r.updates - i,
        {
            app.update(dt);
            i += 1;
        }
        app.render(r.alpha);
        r
    }

    /// Makes exactly `n` updates of the fixed length, without reading the
    /// clock and without rendering; each counts as a frame.
    pub fn run_steps<A: App>(&mut self, app: &mut A, n: u32)
        requires
            old(self).frame_index + n <= u64::MAX,
        ensures
            final(self).clock == old(self).clock,
            final(self).cfg == old(self).cfg,
            final(self).last == old(self).last,
            final(self).accumulator == old(self).accumulator,
            final(self).frame_index == old(self).frame_index + n,
    {
        let dt = self.cfg.fixed_dt;
        let mut i: u32 = 0;
        while i < n
            invariant
                i <= n,
                self.clock == old(self).clock,
                self.cfg == old(self).cfg,
                self.last == old(self).last,
                self.accumulator == old(self).accumulator,
                self.frame_index == old(self).frame_index + i,
                old(self).frame_index + n <= u64::MAX,
            decreases n - i,
        {
            app.update(dt);
            self.frame_index = self.frame_index + 1;
            i += 1;
        }
    }
}

/// If `k` steps and one more fit, then `k + 1` is at most the quotient.
proof fn lemma_step_fits(acc: int, step: int, k: int)
    requires
        0 <= k,
        0 <= step,
        (k + 1) * step <= acc,
    ensures
        step > 0 ==> k + 1 <= acc / step,
{
    if step > 0 {
        assert((acc + 1) * step > acc) by (nonlinear_arith)
            requires
                step >= 1,
                acc >= 0,
        ;
        crate::arith::lemma_div_between(acc, step, k + 1, acc);
    }
}

/// If `k` steps fit and the rest is less than a step, `k` is the quotient.
proof fn lemma_steps_exact(acc: int, step: int, k: int, rest: int)
    requires
        step > 0,
        0 <= rest < step,
        rest + k * step == acc,
    ensures
        k == acc / step,
{
    vstd::arithmetic::div_mod::lemma_fundamental_div_mod_converse(acc, step, k, rest);
}

} // verus!
