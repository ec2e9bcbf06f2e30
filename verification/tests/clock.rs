use ucal::clock::{
    bridge_second, facts, finest_tier_for, measured, ticks_in_nanos, SampleState, Session, MOVES, NANO_TICKS,
};
use ucal::emit::{render_scalar, Value};
use ucal::error::Code;
use ucal::style::Render;
use ucal::ticks::Ticks;

#[test]
fn the_smallest_forward_step_is_the_resolution() {
    let mut s = SampleState::start(100);
    for now in [100u128, 130, 125, 140, 141, 141, 200] {
        s = s.step(now);
    }
    assert_eq!(s.resolution(), Some(1));
    assert_eq!(s.moves, 4);
    assert_eq!(s.last, 200);
}

#[test]
fn a_counter_that_never_moves_measures_nothing() {
    let mut s = SampleState::start(7);
    for _ in 0..10 {
        s = s.step(7);
    }
    assert_eq!(s.resolution(), None);
    assert!(s.wants_more());
}

#[test]
fn a_measurement_stops_wanting_readings_after_enough_moves() {
    let mut s = SampleState::start(0);
    for i in 1..=(MOVES as u128) {
        assert!(s.wants_more());
        s = s.step(i * 2);
    }
    assert!(!s.wants_more());
    assert_eq!(s.resolution(), Some(2));
}

#[test]
fn a_nanosecond_is_an_exact_number_of_ticks() {
    let ns = ticks_in_nanos(1).expect("in range");
    let per_second = bridge_second();
    let (_, rem) = per_second.div_rem_small(1_000_000_000);
    assert!(rem == 0, "the bridge second must divide by 10^9");
    // And a billion of them is the second back.
    assert_eq!(ns.try_mul(1_000_000_000).expect("in range").to_decimal(), per_second.to_decimal());
}

#[test]
fn a_nanosecond_fills_t_minus_2() {
    let q = ticks_in_nanos(1).expect("in range");
    let t = finest_tier_for(&q).expect("some tier");
    assert_eq!(t, -2, "a nanosecond should fill T-2, got {t}");
}

#[test]
fn a_microsecond_fills_t_minus_1() {
    let q = ticks_in_nanos(1_000).expect("in range");
    assert_eq!(finest_tier_for(&q).expect("some tier"), -1);
}

#[test]
fn no_instrument_reaches_the_bottom_rungs() {
    // One femtosecond, expressed in the finest unit this helper takes.
    let femto = ticks_in_nanos(1).expect("in range");
    let (q, _) = femto.div_rem_small(1_000_000);
    let t = finest_tier_for(&q).expect("some tier");
    assert!(t > -5, "a femtosecond should not reach T-5 or below, got {t}");
}

fn rendered_text(v: &Value) -> String {
    render_scalar(&Render::plain(), v)
}

#[test]
fn the_facts_are_the_same_every_time() {
    let a = facts().expect("facts");
    let b = facts().expect("facts");
    assert_eq!(a.len(), b.len());
    for (x, y) in a.iter().zip(b.iter()) {
        assert_eq!(x.0, y.0);
        assert_eq!(rendered_text(&x.1), rendered_text(&y.1));
    }
}

#[test]
fn the_facts_name_the_rungs() {
    let f = facts().expect("facts");
    assert_eq!(f[1].0, "granularity_ticks");
    assert_eq!(rendered_text(&f[1].1), "18548584399861000000000000000000000");
    assert_eq!(rendered_text(&f[2].1), "T-2 — the finest rung a nanosecond can fill");
    assert!(rendered_text(&f[3].1).starts_with("T-12 — where `ucal now` renders by default, 10 rungs below"));
    assert_eq!(NANO_TICKS, 18548584399861 * 10u128.pow(21));
}

fn at(secs: u64) -> Ticks {
    ticks_in_nanos(u128::from(secs) * 1_000_000_000).expect("in range")
}

fn ns(n: u128) -> Ticks {
    ticks_in_nanos(n).expect("in range")
}

#[test]
fn a_quiet_session_follows_the_wall_clock() {
    let mut s = Session::anchored_at(&at(100));
    let r = s.reading(&at(105), &ns(5_000_000_000)).expect("a reading");
    assert_eq!(r.to_decimal(), at(105).to_decimal());
}

#[test]
fn a_backward_step_does_not_move_the_reading_back() {
    let mut s = Session::anchored_at(&at(100));
    let before = s.reading(&at(110), &ns(10_000_000_000)).expect("a reading");
    // The wall clock jumps back five seconds; monotonic keeps counting.
    let after = s.reading(&at(105), &ns(11_000_000_000)).expect("a reading");
    assert!(
        !after.lt(&before),
        "the reading went backwards: {} then {}",
        before.to_decimal(),
        after.to_decimal()
    );
    // And it kept advancing rather than freezing until the wall caught up.
    assert!(before.lt(&after), "the reading stalled instead of advancing at the oscillator's rate");
}

#[test]
fn a_forward_step_is_accepted() {
    let mut s = Session::anchored_at(&at(100));
    s.reading(&at(101), &ns(1_000_000_000)).expect("a reading");
    let jumped = s.reading(&at(160), &ns(2_000_000_000)).expect("a reading");
    assert_eq!(jumped.to_decimal(), at(160).to_decimal(), "a forward correction was refused");
}

#[test]
fn the_sequence_is_monotone_however_the_wall_clock_behaves() {
    let mut s = Session::anchored_at(&at(1_000));
    let mut prev = at(1_000);
    // A wall clock that lurches: forward, back, back further, forward again.
    let walk = [1_001u64, 1_002, 999, 1_000, 990, 1_010, 1_005];
    for (i, w) in walk.iter().enumerate() {
        let elapsed = ns((i as u128 + 1) * 1_000_000_000);
        let r = s.reading(&at(*w), &elapsed).expect("a reading");
        assert!(
            !r.lt(&prev),
            "step {i} went backwards: {} then {}",
            prev.to_decimal(),
            r.to_decimal()
        );
        prev = r;
    }
}

#[test]
fn divergence_carries_its_direction_separately() {
    let s = Session::anchored_at(&at(100));
    let (ahead, wall_ahead) = s.divergence(&at(105), &ns(4_000_000_000));
    assert!(wall_ahead, "the wall clock is ahead of the projection");
    assert_eq!(ahead.to_decimal(), ns(1_000_000_000).to_decimal());

    let (behind, wall_ahead) = s.divergence(&at(103), &ns(4_000_000_000));
    assert!(!wall_ahead, "the wall clock is behind the projection");
    assert_eq!(behind.to_decimal(), ns(1_000_000_000).to_decimal());
}

#[test]
fn a_session_reading_is_no_finer_than_a_raw_one() {
    let q = ticks_in_nanos(1_000).expect("in range");
    let raw = finest_tier_for(&q).expect("a tier");
    // Anchoring and projecting changes nothing about what a quantum fills.
    let mut s = Session::anchored_at(&at(100));
    let _ = s.reading(&at(100), &ns(0)).expect("a reading");
    assert_eq!(finest_tier_for(&q).expect("a tier"), raw);
}

#[test]
fn a_projection_past_the_largest_count_is_refused() {
    let top = Ticks::largest();
    let mut s = Session::anchored_at(&top);
    let e = s.reading(&top, &ns(1)).unwrap_err();
    assert_eq!(e.code, Code::E0021);
    // The session is unchanged and still reads.
    assert_eq!(s.reading(&top, &Ticks::zero()).unwrap(), top);
}

/// Sample a counter the way the program does: until it has moved enough
/// times, or for at most thirty milliseconds.
fn sample(read: impl Fn() -> u128) -> Option<u128> {
    let start = std::time::Instant::now();
    let mut s = SampleState::start(read());
    while s.wants_more() && start.elapsed() < std::time::Duration::from_millis(30) {
        s = s.step(read());
    }
    s.resolution()
}

#[test]
fn the_measurement_observes_both_clocks() {
    let wall = sample(|| {
        std::time::SystemTime::now().duration_since(std::time::UNIX_EPOCH).map(|d| d.as_nanos()).unwrap_or(0)
    });
    let base = std::time::Instant::now();
    let mono = sample(|| base.elapsed().as_nanos());
    let m = measured(wall, mono).expect("measured");
    for want in ["wall_resolution", "monotonic_resolution"] {
        let (_, v) = m.iter().find(|(k, _)| k == want).unwrap_or_else(|| panic!("no `{want}`"));
        assert!(rendered_text(v).contains("ns"), "`{want}` observed nothing: {}", rendered_text(v));
    }
}

#[test]
fn a_measurement_reports_each_clock_and_the_gain() {
    let m = measured(Some(1_000), Some(4)).expect("measured");
    let keys: Vec<&str> = m.iter().map(|(k, _)| k.as_str()).collect();
    assert_eq!(keys, ["wall_resolution", "monotonic_resolution", "wall_finest_tier", "interpolating"]);
    assert_eq!(rendered_text(&m[0].1), "1000 ns — the smallest step observed in `SystemTime`");
    assert_eq!(rendered_text(&m[1].1), "4 ns — the smallest step observed in `Instant`");
    assert_eq!(rendered_text(&m[2].1), "T-1 — what this machine's wall clock can fill");
    assert_eq!(
        rendered_text(&m[3].1),
        "taking one wall reading and adding monotonic elapsed since would sharpen it about 250x, and one rung of the ladder is 5^5 = 3125 — so 250/3125 of a rung, and the finest fillable tier moves"
    );
    let none = measured(None, Some(0)).expect("measured");
    assert_eq!(none.len(), 2);
    assert_eq!(rendered_text(&none[0].1), "not observed within the sampling budget");
    let same = measured(Some(1_000), Some(900)).expect("measured");
    assert!(rendered_text(&same[3].1).ends_with("does not move"));
}
