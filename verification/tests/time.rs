use kraster2d::fixed_loop::{App, FixedLoop, LoopConfig, TickResult};
use kraster2d::time::{Clock, Duration, FakeClock, Instant, Stopwatch, MAX_NANOS};

struct CounterApp {
    pub updates: u32,
    pub renders: u32,
    pub last_alpha: u32,
    pub last_dt: Duration,
}

impl CounterApp {
    fn new() -> Self {
        Self { updates: 0, renders: 0, last_alpha: 0, last_dt: Duration::zero() }
    }
}

impl App for CounterApp {
    fn update(&mut self, dt: Duration) {
        self.updates += 1;
        self.last_dt = dt;
    }

    fn render(&mut self, alpha: u32) {
        self.renders += 1;
        self.last_alpha = alpha;
    }
}

#[test]
fn fake_clock_advances() {
    let mut c = FakeClock::default();
    let t0 = c.now();
    c.advance(Duration::from_millis(10));
    let t1 = c.now();
    assert!(t1 > t0);
    assert!(t1.duration_since(t0) >= Duration::from_millis(10));
    assert_eq!(t1.duration_since(t0), Duration::from_millis(10));
    assert_eq!(t0.duration_since(t1), Duration::zero());
}

#[test]
fn one_second_produces_sixty_updates() {
    let mut loopr = FixedLoop::new(
        FakeClock::default(),
        LoopConfig::from_hz(60).with_limits(Duration::from_secs(5), 1000),
    );
    let mut app = CounterApp::new();
    loopr.clock.advance(Duration::from_secs(1));
    let res = loopr.tick(&mut app);
    assert!((59..=60).contains(&app.updates));
    assert!((59..=60).contains(&res.updates));
    assert!(res.alpha < 1_000_000);
    assert_eq!(app.renders, 1);
    // 1/60 s is 16,666,667 ns: 59 steps fit one second, 16,666,647 ns are left
    assert_eq!(res.updates, 59);
    assert_eq!(loopr.accumulator, Duration::from_nanos(16_666_647));
    assert_eq!(res.alpha, 999_998);
    assert_eq!(app.last_alpha, 999_998);
    assert_eq!(app.last_dt, Duration::from_nanos(16_666_667));
    assert_eq!(loopr.frame_index, 1);
}

#[test]
fn alpha_in_range_and_limits_apply() {
    let mut clock = FakeClock::default();
    let cfg = LoopConfig::from_hz(60).with_limits(Duration::from_millis(50), 3);
    let mut loopr = FixedLoop::new(clock.clone(), cfg);
    let mut app = CounterApp::new();
    clock.advance(Duration::from_millis(500));
    loopr.clock = clock;
    let res = loopr.tick(&mut app);
    assert!(res.updates <= 3);
    assert!(res.alpha < 1_000_000);
    assert_eq!(app.renders, 1);
    // 50 ms hold 2 steps and 16,666,666 ns; the third update is not due
    assert_eq!(res, TickResult { updates: 2, alpha: 999_999 });
    assert_eq!(loopr.accumulator, Duration::from_nanos(16_666_666));
}

#[test]
fn run_steps_advances_exact_updates() {
    let clock = FakeClock::default();
    let mut loopr = FixedLoop::new(clock, LoopConfig::from_hz(120));
    let mut app = CounterApp::new();
    loopr.run_steps(&mut app, 5);
    assert_eq!(app.updates, 5);
    assert_eq!(app.renders, 0);
    assert_eq!(loopr.frame_index, 5);
}

#[test]
fn loop_config_steps() {
    let c = LoopConfig::from_hz(0);
    assert_eq!(c.fixed_hz, 60);
    assert_eq!(c.fixed_dt, Duration::from_nanos(16_666_667));
    assert_eq!(c.max_frame_dt, Duration::from_millis(250));
    assert_eq!(c.max_updates_per_frame, 10);
    assert_eq!(LoopConfig::from_hz(120).fixed_dt, Duration::from_nanos(8_333_333));
    assert_eq!(LoopConfig::from_hz(1).fixed_dt, Duration::from_secs(1));
    assert_eq!(LoopConfig::from_hz(3).fixed_dt, Duration::from_nanos(333_333_333));
    // half-way cases go to the even neighbour
    assert_eq!(LoopConfig::from_hz(1024).fixed_dt, Duration::from_nanos(976_562));
    assert_eq!(LoopConfig::from_hz(64).fixed_dt, Duration::from_nanos(15_625_000));
    assert_eq!(LoopConfig::from_hz(u32::MAX).fixed_dt, Duration::zero());
    assert_eq!(LoopConfig::from_hz(2_000_000_000).fixed_dt, Duration::zero());
    assert_eq!(LoopConfig::from_hz(1_999_999_999).fixed_dt, Duration::from_nanos(1));
    let d = LoopConfig::default();
    assert_eq!(d.fixed_hz, 60);
    let l = d.with_limits(Duration::from_secs(1), 7);
    assert_eq!(l.max_frame_dt, Duration::from_secs(1));
    assert_eq!(l.max_updates_per_frame, 7);
    assert_eq!(l.fixed_dt, d.fixed_dt);
}

#[test]
fn loop_advance_accounts_for_time() {
    let cfg = LoopConfig::from_hz(100).with_limits(Duration::from_millis(100), 4);
    let mut l = FixedLoop::new(FakeClock::new(), cfg);
    // 25 ms: two steps of 10 ms, half a step left
    let r = l.advance(Instant::from_origin(Duration::from_millis(25)));
    assert_eq!(r, TickResult { updates: 2, alpha: 500_000 });
    assert_eq!(l.accumulator, Duration::from_millis(5));
    // time that runs backwards counts for nothing
    let r = l.advance(Instant::from_origin(Duration::from_millis(20)));
    assert_eq!(r, TickResult { updates: 0, alpha: 500_000 });
    assert_eq!(l.last, Instant::from_origin(Duration::from_millis(20)));
    // a long frame is cut to 100 ms; four updates are the most, and the rest is dropped
    let r = l.advance(Instant::from_origin(Duration::from_secs(9)));
    assert_eq!(r, TickResult { updates: 4, alpha: 0 });
    assert_eq!(l.accumulator, Duration::zero());
    assert_eq!(l.frame_index, 3);
    // a step of no length: all the updates that a frame may make, alpha zero
    let mut z = FixedLoop::new(
        FakeClock::new(),
        LoopConfig::from_hz(u32::MAX).with_limits(Duration::from_millis(100), 3),
    );
    let r = z.advance(Instant::from_origin(Duration::from_millis(1)));
    assert_eq!(r, TickResult { updates: 3, alpha: 0 });
}

#[test]
fn durations() {
    assert_eq!(Duration::from_secs(2).as_nanos(), 2_000_000_000);
    assert_eq!(Duration::from_millis(1500).as_secs(), 1);
    assert_eq!(Duration::from_millis(1500).subsec_nanos(), 500_000_000);
    assert_eq!(Duration::from_nanos(7).as_nanos(), 7);
    assert!(Duration::zero().is_zero());
    assert!(Duration::default().is_zero());
    assert!(!Duration::from_nanos(1).is_zero());
    let max = Duration::from_secs(u64::MAX).saturating_add(Duration::from_nanos(999_999_999));
    assert_eq!(max.as_nanos(), MAX_NANOS);
    assert_eq!(max.saturating_add(Duration::from_nanos(1)), max);
    assert_eq!(
        Duration::from_secs(1).saturating_add(Duration::from_millis(1)),
        Duration::from_millis(1001)
    );
    assert_eq!(Duration::from_secs(1).saturating_sub(Duration::from_secs(2)), Duration::zero());
    assert_eq!(
        Duration::from_secs(2).saturating_sub(Duration::from_millis(1)),
        Duration::from_millis(1999)
    );
    assert!(Duration::from_millis(999) < Duration::from_secs(1));
    let t = Instant::from_origin(Duration::from_secs(3));
    assert_eq!(t.since_origin(), Duration::from_secs(3));
    assert_eq!(t.saturating_add(max), Instant::from_origin(max));
    assert_eq!(
        t.saturating_duration_since(Instant::from_origin(Duration::from_secs(1))),
        Duration::from_secs(2)
    );
}

#[test]
fn fake_clock_with_base() {
    let base = Instant::from_origin(Duration::from_secs(100));
    let mut c = FakeClock::with_base(base);
    assert_eq!(c.now(), base);
    c.advance(Duration::from_secs(1));
    c.advance(Duration::from_millis(500));
    assert_eq!(c.time(), Instant::from_origin(Duration::from_millis(101_500)));
    assert_eq!(FakeClock::new().now(), Instant::from_origin(Duration::zero()));
}

#[test]
fn start_stop_accumulates() {
    let at = |ms: u64| Instant::from_origin(Duration::from_millis(ms));
    let mut sw = Stopwatch::new();
    assert!(!sw.is_running());
    sw.start(at(100));
    assert!(sw.is_running());
    assert_eq!(sw.elapsed(at(103)), Duration::from_millis(3));
    sw.stop(at(105));
    let a = sw.elapsed(at(105));
    assert_eq!(a, Duration::from_millis(5));
    // not running: what it shows stays the same
    let a_same = sw.elapsed(at(110));
    assert_eq!(a_same, a);
    sw.start(at(110));
    // a second start while it runs is ignored
    sw.start(at(112));
    sw.stop(at(115));
    let b = sw.elapsed(at(120));
    assert_eq!(b, Duration::from_millis(10));
    // a stop while it stands is ignored
    sw.stop(at(500));
    assert_eq!(sw.elapsed(at(500)), Duration::from_millis(10));
    sw.start(at(600));
    sw.reset();
    assert!(!sw.is_running());
    assert_eq!(sw.elapsed(at(700)), Duration::zero());
    assert!(Stopwatch::default().elapsed(at(1)).is_zero());
}
