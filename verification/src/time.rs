//! Spans and points of time as whole nanoseconds, a clock that is advanced
//! by hand, and a stopwatch.
//!
//! Nothing here reads the machine's clock: a point of time is a span since
//! the origin of whatever clock it came from, and the functions that need
//! the present moment take it as an argument.
use vstd::prelude::*;

verus! {

/// Nanoseconds in a second.
pub const NANOS_PER_SEC: u128 = 1_000_000_000;

/// The longest span: `u64::MAX` seconds and 999,999,999 nanoseconds.
pub const MAX_NANOS: u128 = 18_446_744_073_709_551_615_999_999_999;

/// A span of time, in whole nanoseconds up to `MAX_NANOS`.
#[derive(Copy, Clone, Debug, PartialEq, Eq, PartialOrd, Ord, Hash)]
pub struct Duration {
    nanos: u128,
}

impl Duration {
    #[verifier::type_invariant]
    spec fn inv(self) -> bool {
        self.nanos <= MAX_NANOS
    }

    /// The span in nanoseconds.
    pub closed spec fn view(&self) -> nat {
        self.nanos as nat
    }

    /// The span of no time.
    pub fn zero() -> (d: Duration)
        ensures
            d@ == 0,
    {
        Duration { nanos: 0 }
    }

    /// A span of whole seconds.
    pub fn from_secs(secs: u64) -> (d: Duration)
        ensures
            d@ == secs * 1_000_000_000,
    {
        Duration { nanos: (secs as u128) * NANOS_PER_SEC }
    }

    /// A span of whole milliseconds.
    pub fn from_millis(millis: u64) -> (d: Duration)
        ensures
            d@ == millis * 1_000_000,
    {
        Duration { nanos: (millis as u128) * 1_000_000 }
    }

    /// A span of whole nanoseconds.
    pub fn from_nanos(nanos: u64) -> (d: Duration)
        ensures
            d@ == nanos,
    {
        Duration { nanos: nanos as u128 }
    }

    /// The span in nanoseconds.
    pub fn as_nanos(&self) -> (n: u128)
        ensures
            n == self@,
            n <= MAX_NANOS,
    {
        proof {
            use_type_invariant(self);
        }
        self.nanos
    }

    /// The whole seconds of the span.
    pub fn as_secs(&self) -> (s: u64)
        ensures
            s == self@ / 1_000_000_000,
    {
        proof {
            use_type_invariant(self);
        }
        (self.nanos / NANOS_PER_SEC) as u64
    }

    /// The nanoseconds of the span beyond its whole seconds.
    pub fn subsec_nanos(&self) -> (n: u32)
        ensures
            n == self@ % 1_000_000_000,
    {
        (self.nanos % NANOS_PER_SEC) as u32
    }

    /// Whether the span is of no time.
    pub fn is_zero(&self) -> (b: bool)
        ensures
            b == (self@ == 0),
    {
        self.nanos == 0
    }

    /// The sum of two spans, held at the longest span.
    pub fn saturating_add(self, rhs: Duration) -> (d: Duration)
        ensures
            d@ == (if self@ + rhs@ > MAX_NANOS {
                MAX_NANOS as nat
            } else {
                self@ + rhs@
            }),
    {
        proof {
            use_type_invariant(self);
            use_type_invariant(rhs);
        }
        let sum = self.nanos + rhs.nanos;
        if sum > MAX_NANOS {
            Duration { nanos: MAX_NANOS }
        } else {
            Duration { nanos: sum }
        }
    }

    /// The span left when `rhs` is taken away, held at zero.
    pub fn saturating_sub(self, rhs: Duration) -> (d: Duration)
        ensures
            d@ == (if self@ < rhs@ {
                0
            } else {
                self@ - rhs@
            }),
    {
        proof {
            use_type_invariant(self);
        }
        if self.nanos < rhs.nanos {
            Duration { nanos: 0 }
        } else {
            Duration { nanos: self.nanos - rhs.nanos }
        }
    }
}

impl Default for Duration {
    fn default() -> (d: Duration)
        ensures
            d@ == 0,
    {
        Duration::zero()
    }
}

/// A point of time: the span since the origin of the clock it was read from.
#[derive(Copy, Clone, Debug, PartialEq, Eq, PartialOrd, Ord, Hash)]
pub struct Instant {
    since_origin: Duration,
}

impl Instant {
    /// Nanoseconds since the clock's origin.
    pub closed spec fn view(&self) -> nat {
        self.since_origin@
    }

    /// The point of time that lies `since_origin` after the clock's origin.
    pub fn from_origin(since_origin: Duration) -> (t: Instant)
        ensures
            t@ == since_origin@,
    {
        Instant { since_origin }
    }

    /// The span from the clock's origin to this point.
    pub fn since_origin(&self) -> (d: Duration)
        ensures
            d@ == self@,
    {
        self.since_origin
    }

    /// The span from `earlier` to this point, or no time if `earlier` is the
    /// later of the two.
    pub fn saturating_duration_since(&self, earlier: Instant) -> (d: Duration)
        ensures
            d@ == (if self@ < earlier@ {
                0
            } else {
                self@ - earlier@
            }),
    {
        self.since_origin.saturating_sub(earlier.since_origin)
    }

    /// The span from `earlier` to this point, or no time if `earlier` is the
    /// later of the two.
    pub fn duration_since(&self, earlier: Instant) -> (d: Duration)
        ensures
            d@ == (if self@ < earlier@ {
                0
            } else {
                self@ - earlier@
            }),
    {
        self.saturating_duration_since(earlier)
    }

    /// The point of time `d` later, held at the latest point that can be
    /// told.
    pub fn saturating_add(&self, d: Duration) -> (t: Instant)
        ensures
            t@ == (if self@ + d@ > MAX_NANOS {
                MAX_NANOS as nat
            } else {
                self@ + d@
            }),
    {
        Instant { since_origin: self.since_origin.saturating_add(d) }
    }
}

/// A source of the present moment.
pub trait Clock {
    fn now(&self) -> Instant;
}

/// A clock that stands still until it is advanced by hand.
#[derive(Debug)]
pub struct FakeClock {
    base: Instant,
    offset: Duration,
}

impl Clone for FakeClock {
    fn clone(&self) -> (c: FakeClock)
        ensures
            c.base() == self.base(),
            c.offset() == self.offset(),
    {
        FakeClock { base: self.base, offset: self.offset }
    }
}

impl FakeClock {
    /// The point of time at which the clock was started.
    pub closed spec fn base(&self) -> nat {
        self.base@
    }

    /// The span by which the clock has been advanced.
    pub closed spec fn offset(&self) -> nat {
        self.offset@
    }

    /// The moment that the clock shows.
    pub open spec fn shown(&self) -> nat {
        if self.base() + self.offset() > MAX_NANOS {
            MAX_NANOS as nat
        } else {
            self.base() + self.offset()
        }
    }

    /// A clock that starts at its own origin.
    pub fn new() -> (c: FakeClock)
        ensures
            c.base() == 0,
            c.offset() == 0,
    {
        FakeClock { base: Instant::from_origin(Duration::zero()), offset: Duration::zero() }
    }

    /// A clock that starts at `base`.
    pub fn with_base(base: Instant) -> (c: FakeClock)
        ensures
            c.base() == base@,
            c.offset() == 0,
    {
        FakeClock { base, offset: Duration::zero() }
    }

    /// Moves the clock on by `dt`.
    pub fn advance(&mut self, dt: Duration)
        ensures
            final(self).base() == old(self).base(),
            final(self).offset() == (if old(self).offset() + dt@ > MAX_NANOS {
                MAX_NANOS as nat
            } else {
                old(self).offset() + dt@
            }),
    {
        self.offset = self.offset.saturating_add(dt);
    }

    /// The moment that the clock shows: its base moved on by its offset.
    pub fn time(&self) -> (t: Instant)
        ensures
            t@ == self.shown(),
    {
        self.base.saturating_add(self.offset)
    }
}

impl Default for FakeClock {
    fn default() -> (c: FakeClock)
        ensures
            c.base() == 0,
            c.offset() == 0,
    {
        FakeClock::new()
    }
}

impl Clock for FakeClock {
    fn now(&self) -> (t: Instant)
        ensures
            t@ == self.shown(),
    {
        self.time()
    }
}

/// Adds up the time between starts and stops.
#[derive(Debug)]
pub struct Stopwatch {
    start: Option<Instant>,
    elapsed: Duration,
}

impl Clone for Stopwatch {
    fn clone(&self) -> (s: Stopwatch)
        ensures
            s.running_since() == self.running_since(),
            s.banked() == self.banked(),
    {
        Stopwatch { start: self.start, elapsed: self.elapsed }
    }
}

impl Stopwatch {
    /// The moment of the last start, while the stopwatch runs.
    pub closed spec fn running_since(&self) -> Option<nat> {
        match self.start {
            Some(s) => Some(s@),
            None => None,
        }
    }

    /// The time added up by the stops so far.
    pub closed spec fn banked(&self) -> nat {
        self.elapsed@
    }

    /// The time that the stopwatch shows at the moment `now`.
    pub open spec fn shown(&self, now: nat) -> nat {
        match self.running_since() {
            Some(s) => {
                let run: nat = if now < s {
                    0
                } else {
                    (now - s) as nat
                };
                if self.banked() + run > MAX_NANOS {
                    MAX_NANOS as nat
                } else {
                    self.banked() + run
                }
            },
            None => self.banked(),
        }
    }

    /// A stopwatch that stands at zero.
    pub fn new() -> (s: Stopwatch)
        ensures
            s.running_since() is None,
            s.banked() == 0,
    {
        Stopwatch { start: None, elapsed: Duration::zero() }
    }

    /// Starts the stopwatch at the moment `now`; a running stopwatch runs on.
    pub fn start(&mut self, now: Instant)
        ensures
            final(self).banked() == old(self).banked(),
            final(self).running_since() == (match old(self).running_since() {
                Some(s) => Some(s),
                None => Some(now@),
            }),
    {
        if self.start.is_none() {
            self.start = Some(now);
        }
    }

    /// Stops the stopwatch at the moment `now` and adds the time since its
    /// start to what it shows; a stopped stopwatch stays as it is.
    pub fn stop(&mut self, now: Instant)
        ensures
            final(self).running_since() is None,
            final(self).banked() == old(self).shown(now@),
    {
        match self.start {
            Some(s) => {
                self.elapsed = self.elapsed.saturating_add(now.saturating_duration_since(s));
                self.start = None;
            },
            None => {},
        }
    }

    /// Stops the stopwatch and sets it to zero.
    pub fn reset(&mut self)
        ensures
            final(self).running_since() is None,
            final(self).banked() == 0,
    {
        self.start = None;
        self.elapsed = Duration::zero();
    }

    /// Whether the stopwatch runs.
    pub fn is_running(&self) -> (b: bool)
        ensures
            b == self.running_since().is_some(),
    {
        self.start.is_some()
    }

    /// The time that the stopwatch shows at the moment `now`.
    pub fn elapsed(&self, now: Instant) -> (d: Duration)
        ensures
            d@ == self.shown(now@),
    {
        match self.start {
            Some(s) => self.elapsed.saturating_add(now.saturating_duration_since(s)),
            None => self.elapsed,
        }
    }
}

impl Default for Stopwatch {
    fn default() -> (s: Stopwatch)
        ensures
            s.running_since() is None,
            s.banked() == 0,
    {
        Stopwatch::new()
    }
}

} // verus!
