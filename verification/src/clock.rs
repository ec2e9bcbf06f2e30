//! How finely this program can place a reading of the system clock, and the
//! session clock that keeps its readings from going backwards.
//!
//! Three numbers are kept apart. **Granularity** is structural: a clock is
//! read to nine decimal places, so one nanosecond is the finest an instant can
//! be placed, on every machine. **Resolution** is what the clock on this
//! machine actually moves in, and is measured by watching a counter move.
//! **Accuracy** is the distance from the truth, and cannot be measured
//! offline at all.
//!
//! The tiers are a coordinate system: tier `-12` is one Planck tick and every
//! rung is `5⁵ = 3125` of the one below. Being able to address a rung is not a
//! claim that anything can be observed there.
use vstd::prelude::*;

use crate::emit::Value;
use crate::error::{Code, TimeError};
use crate::text::{decimal, push_char, push_decimal, push_decimal_u128, push_str};
use crate::ticks::{limit, Ticks};

verus! {

/// How many forward moves a measurement waits for at most.
pub const MOVES: u32 = 400;

/// A resolution measurement in progress.
#[derive(Clone, Copy, Debug)]
pub struct SampleState {
    /// The last reading that moved the counter.
    pub last: u128,
    /// The smallest forward step seen so far.
    pub smallest: Option<u128>,
    /// How many forward steps have been seen.
    pub moves: u32,
}

impl SampleState {
    /// A step is a forward move, so a smallest step is never zero.
    pub open spec fn wf(&self) -> bool {
        self.smallest matches Some(m) ==> m > 0
    }

    /// A measurement that starts from a first reading.
    pub fn start(first: u128) -> (s: SampleState)
        ensures
            s.wf(),
            s.last == first,
            s.smallest is None,
            s.moves == 0,
    {
        SampleState { last: first, smallest: None, moves: 0 }
    }

    /// Take one more reading. A reading that moved the counter forward is a
    /// step: the smallest step so far is kept, and the reading becomes the
    /// last. A reading that did not move it, or moved it back, changes
    /// nothing.
    pub fn step(self, now: u128) -> (s: SampleState)
        requires
            self.wf(),
            self.moves < MOVES,
        ensures
            s.wf(),
            now > self.last ==> s.last == now && s.moves == self.moves + 1 && s.smallest == Some(
                match self.smallest {
                    Some(m) => if m <= now - self.last { m } else { (now - self.last) as u128 },
                    None => (now - self.last) as u128,
                },
            ),
            now <= self.last ==> s == self,
            self.smallest matches Some(a) ==> (s.smallest matches Some(b) && b <= a),
    {
        if now > self.last {
            let step = now - self.last;
            let smallest = match self.smallest {
                Some(m) => if m <= step { m } else { step },
                None => step,
            };
            SampleState { last: now, smallest: Some(smallest), moves: self.moves + 1 }
        } else {
            self
        }
    }

    /// Whether the measurement still wants readings: until it has seen
    /// [`MOVES`] forward steps.
    pub fn wants_more(&self) -> (b: bool)
        ensures
            b == (self.moves < MOVES),
    {
        self.moves < MOVES
    }

    /// The resolution measured: the smallest forward step, if there was one.
    pub fn resolution(&self) -> (r: Option<u128>)
        ensures
            r == self.smallest,
    {
        self.smallest
    }
}


// ---------------------------------------------------------------------------
// granularity and tiers
// ---------------------------------------------------------------------------

/// Decimal places a clock is read to: a structural ceiling, not a measurement.
pub const CLOCK_DECIMALS: u32 = 9;

/// Ticks in one nanosecond: the bridge second, `18548584399861 × 10³⁰`
/// ticks, over `10⁹`. The division is exact.
pub const NANO_TICKS: u128 = 18548584399861000000000000000000000;

/// Ticks in the bridge second: `18548584399861 × 10³⁰`.
pub fn bridge_second() -> (t: Ticks)
    ensures
        t@ == 18548584399861 * 1000000000000000000000000000000nat,
{
    let t = Ticks::from_u128(18548584399861).try_mul(1000000000000000000000000000000);
    proof {
        crate::ticks::lemma_limit();
    }
    t.unwrap()
}

/// Ticks in `n` nanoseconds, exactly.
pub fn ticks_in_nanos(n: u128) -> (t: Option<Ticks>)
    ensures
        t matches Some(x) && x@ == NANO_TICKS * n,
{
    assert(NANO_TICKS * n <= u128::MAX as int * u128::MAX as int) by (nonlinear_arith)
        requires
            n <= u128::MAX,
            NANO_TICKS <= u128::MAX,
    ;
    proof {
        crate::ticks::lemma_limit();
        assert(u128::MAX as int * (u128::MAX as int) < limit()) by (nonlinear_arith)
            requires
                limit() == 0x1_0000_0000_0000_0000_0000_0000_0000_0000_0000_0000_0000_0000_0000_0000_0000_0000_0000_0000_0000_0000_0000_0000_0000_0000_0000_0000_0000_0000_0000_0000_0000_0000nat,
        ;
    }
    Ticks::from_u128(NANO_TICKS).try_mul(n)
}

/// The ticks in one unit of tier `k`: tier `-12` is one Planck tick, and
/// every rung is `5⁵` of the one below.
pub open spec fn tier_ticks(k: int) -> nat
    decreases k + 12,
{
    if k <= -12 {
        1
    } else {
        3125 * tier_ticks(k - 1)
    }
}

/// The finest tier one unit of which a quantum of `q` ticks can distinguish:
/// the first of tiers `-12` to `32` whose unit is at least the quantum.
/// Below it, any digits come from the conversion and not the clock.
pub fn finest_tier_for(q: &Ticks) -> (r: Option<i8>)
    ensures
        r matches Some(t) ==> -12 <= t <= 32 && tier_ticks(t as int) >= q@,
        r matches Some(t) ==> forall|j: int| -12 <= j < t ==> tier_ticks(j) < q@,
        r is None ==> forall|j: int| -12 <= j <= 32 ==> tier_ticks(j) < q@,
{
    let mut k: i8 = -12;
    let mut p = Ticks::from_u128(1);
    while k <= 32
        invariant
            -12 <= k <= 33,
            k <= 32 ==> p@ == tier_ticks(k as int),
            forall|j: int| -12 <= j < k ==> tier_ticks(j) < q@,
        decreases 33 - k,
    {
        if !p.lt(q) {
            return Some(k);
        }
        if k == 32 {
            k = 33;
        } else {
            match p.try_mul(3125) {
                Some(np) => {
                    p = np;
                    k = k + 1;
                },
                None => {
                    proof {
                        crate::ticks::lemma_count_bounded(*q);
                    }
                    return Some(k + 1);
                },
            }
        }
    }
    None
}

/// How a tier is written: `T` and its index, `T3`, `T-1`.
pub open spec fn tier_label(k: int) -> Seq<char> {
    "T"@ + (if k < 0 { "-"@ + decimal((-k) as nat) } else { decimal(k as nat) })
}

/// Append how a tier is written.
pub fn push_tier(s: &mut String, k: i8)
    ensures
        final(s)@ == old(s)@ + tier_label(k as int),
{
    push_str(s, "T");
    if k < 0 {
        push_str(s, "-");
        let m: i16 = -(k as i16);
        push_decimal(s, m as u64);
    } else {
        push_decimal(s, k as u64);
    }
    proof {
        reveal_strlit("T");
        reveal_strlit("-");
        if k < 0 {
            assert(final(s)@ =~= old(s)@ + tier_label(k as int));
        } else {
            assert(final(s)@ =~= old(s)@ + tier_label(k as int));
        }
    }
}

// ---------------------------------------------------------------------------
// the session clock
// ---------------------------------------------------------------------------

/// The larger of two counts.
pub open spec fn max_nat(a: nat, b: nat) -> nat {
    if a >= b { a } else { b }
}

/// The reading a session gives: the largest of the wall clock, the anchor
/// projected by the monotonic clock, and the last reading handed out.
pub open spec fn session_reading(anchor: nat, last: nat, wall: nat, elapsed: nat) -> nat {
    max_nat(max_nat(wall, anchor + elapsed), last)
}

/// One process, one clock: readings that never go backwards.
///
/// A reading is `max(wall_now, anchor + monotonic_elapsed)`, and never less
/// than the last one. Ordinarily the two agree and either wins; a backward
/// step of the wall clock loses to the monotonic branch, which keeps
/// advancing; a forward step wins, because it is a correction arriving. It
/// does not make a reading finer or more accurate.
#[derive(Clone, Copy, Debug)]
pub struct Session {
    anchor: Ticks,
    last: Ticks,
}

impl Session {
    /// The wall reading this session was anchored at.
    pub closed spec fn anchor(&self) -> nat {
        self.anchor@
    }

    /// The largest reading handed out so far.
    pub closed spec fn last_reading(&self) -> nat {
        self.last@
    }

    /// Anchor a session at a wall reading.
    pub fn anchored_at(wall: &Ticks) -> (s: Session)
        ensures
            s.anchor() == wall@,
            s.last_reading() == wall@,
    {
        Session { anchor: *wall, last: *wall }
    }

    /// The next reading, given the wall clock now and the monotonic time
    /// elapsed since the anchor. Pure: no clock is read here. `E0021` when the
    /// projection does not fit, and the session is then unchanged.
    pub fn reading(&mut self, wall_now: &Ticks, monotonic_elapsed: &Ticks) -> (r: Result<Ticks, TimeError>)
        ensures
            r is Err <==> old(self).anchor() + monotonic_elapsed@ >= limit(),
            r matches Err(e) ==> e.code == Code::E0021 && e.context@.len() == 0 && *final(self) == *old(self),
            r matches Ok(t) ==> t@ == session_reading(
                old(self).anchor(),
                old(self).last_reading(),
                wall_now@,
                monotonic_elapsed@,
            ) && final(self).anchor() == old(self).anchor() && final(self).last_reading() == t@,
    {
        let projected = match self.anchor.try_add(monotonic_elapsed) {
            Some(p) => p,
            None => {
                return Err(TimeError::new(Code::E0021));
            },
        };
        let mut best = *wall_now;
        if best.lt(&projected) {
            best = projected;
        }
        if best.lt(&self.last) {
            best = self.last;
        }
        self.last = best;
        Ok(best)
    }

    /// How far the wall clock has moved from this session's projection: the
    /// distance, and whether the wall clock is ahead. A tick count is
    /// unsigned, so the direction is a flag beside it. Nothing, and behind,
    /// when the projection does not fit.
    pub fn divergence(&self, wall_now: &Ticks, monotonic_elapsed: &Ticks) -> (r: (Ticks, bool))
        ensures
            self.anchor() + monotonic_elapsed@ >= limit() ==> r.0@ == 0 && !r.1,
            self.anchor() + monotonic_elapsed@ < limit() ==> ({
                let p = self.anchor() + monotonic_elapsed@;
                &&& r.1 == (wall_now@ >= p)
                &&& r.0@ == (if wall_now@ >= p { wall_now@ - p } else { p - wall_now@ })
            }),
    {
        let projected = match self.anchor.try_add(monotonic_elapsed) {
            Some(p) => p,
            None => {
                return (Ticks::zero(), false);
            },
        };
        if !wall_now.lt(&projected) {
            (wall_now.try_sub(&projected).unwrap(), true)
        } else {
            (projected.try_sub(wall_now).unwrap(), false)
        }
    }
}

/// The readings a session anchored with `anchor` and last reading `last`
/// gives for each (wall, elapsed) pair in turn.
pub open spec fn session_readings(anchor: nat, last: nat, inputs: Seq<(nat, nat)>) -> Seq<nat>
    decreases inputs.len(),
{
    if inputs.len() == 0 {
        Seq::empty()
    } else {
        let prev = session_readings(anchor, last, inputs.drop_last());
        let from = if prev.len() == 0 { last } else { prev.last() };
        prev.push(session_reading(anchor, from, inputs.last().0, inputs.last().1))
    }
}

/// **A reading never goes backwards, and follows the wall clock forwards.**
/// However the wall clock steps, each reading of a session is at least the
/// one before it and at least the anchor; every reading is at least the wall
/// clock it was given and the anchor projected by the monotonic clock; and a
/// wall clock ahead of both the projection and every earlier reading is taken
/// as it is.
pub proof fn lemma_session_monotone(anchor: nat, inputs: Seq<(nat, nat)>)
    ensures
        session_readings(anchor, anchor, inputs).len() == inputs.len(),
        forall|i: int, j: int|
            #![trigger session_readings(anchor, anchor, inputs)[i], session_readings(anchor, anchor, inputs)[j]]
            0 <= i <= j < inputs.len() ==> session_readings(anchor, anchor, inputs)[i] <= session_readings(
                anchor,
                anchor,
                inputs,
            )[j],
        forall|i: int|
            0 <= i < inputs.len() ==> {
                let r = #[trigger] session_readings(anchor, anchor, inputs)[i];
                &&& r >= anchor
                &&& r >= inputs[i].0
                &&& r >= anchor + inputs[i].1
            },
    decreases inputs.len(),
{
    let rs = session_readings(anchor, anchor, inputs);
    if inputs.len() > 0 {
        let init = inputs.drop_last();
        lemma_session_monotone(anchor, init);
        let prev = session_readings(anchor, anchor, init);
        assert forall|i: int| 0 <= i < init.len() implies rs[i] == prev[i] by {}
        assert forall|i: int| 0 <= i < init.len() implies inputs[i] == init[i] by {}
        let n = inputs.len() - 1;
        assert(rs[n] >= (if prev.len() == 0 { anchor } else { prev.last() }));
        if prev.len() > 0 {
            assert(prev.last() == prev[prev.len() - 1]);
        }
        assert forall|i: int, j: int| #![trigger rs[i], rs[j]] 0 <= i <= j < inputs.len() implies rs[i] <= rs[j] by {
            if j == n && i < n {
                assert(prev[i] <= prev[prev.len() - 1]);
            }
        }
    }
}

/// **A reading is the latest of its three sources, and no later.** It is at
/// least the wall clock, the anchor projected by the monotonic clock, and the
/// last reading handed out; and it is one of those three, so it never runs
/// ahead of all of them.
pub proof fn lemma_reading_is_the_latest(anchor: nat, last: nat, wall: nat, elapsed: nat)
    ensures
        session_reading(anchor, last, wall, elapsed) >= wall,
        session_reading(anchor, last, wall, elapsed) >= anchor + elapsed,
        session_reading(anchor, last, wall, elapsed) >= last,
        session_reading(anchor, last, wall, elapsed) == wall || session_reading(anchor, last, wall, elapsed)
            == anchor + elapsed || session_reading(anchor, last, wall, elapsed) == last,
{
}

/// **A forward step is accepted.** When the wall clock is at or past both
/// the projection and the last reading, the reading is the wall clock.
pub proof fn lemma_forward_step_taken(anchor: nat, last: nat, wall: nat, elapsed: nat)
    requires
        wall >= anchor + elapsed,
        wall >= last,
    ensures
        session_reading(anchor, last, wall, elapsed) == wall,
{
}


// ---------------------------------------------------------------------------
// what the clock can and cannot say
// ---------------------------------------------------------------------------

/// Units grow with the tier.
pub proof fn lemma_tier_ticks_grow(a: int, b: int)
    requires
        -12 <= a <= b,
    ensures
        1 <= tier_ticks(a) <= tier_ticks(b),
    decreases b - a,
{
    if a < b {
        lemma_tier_ticks_grow(a, b - 1);
    } else {
        lemma_tier_ticks_positive(a);
    }
}

proof fn lemma_tier_ticks_positive(a: int)
    ensures
        tier_ticks(a) >= 1,
    decreases a + 12,
{
    if a > -12 {
        lemma_tier_ticks_positive(a - 1);
    }
}

/// `t` is the finest tier a quantum of `q` ticks can fill.
pub open spec fn is_finest(t: int, q: nat) -> bool {
    &&& -12 <= t <= 32
    &&& tier_ticks(t) >= q
    &&& forall|j: int| -12 <= j < t ==> tier_ticks(j) < q
}

/// There is at most one finest tier.
pub proof fn lemma_finest_unique(s: int, t: int, q: nat)
    requires
        is_finest(s, q),
        is_finest(t, q),
    ensures
        s == t,
{
    if s < t {
        assert(tier_ticks(s) < q);
    } else if t < s {
        assert(tier_ticks(t) < q);
    }
}

/// A nanosecond fills tier `-2` and not `-3`.
proof fn lemma_nanosecond_tier()
    ensures
        is_finest(-2, NANO_TICKS as nat),
{
    reveal_with_fuel(tier_ticks, 11);
    assert(tier_ticks(-3) == 28421709430404007434844970703125nat);
    assert(tier_ticks(-2) == 88817841970012523233890533447265625nat);
    assert forall|j: int| -12 <= j < -2 implies tier_ticks(j) < NANO_TICKS as nat by {
        lemma_tier_ticks_grow(j, -3);
    }
}

/// What `ucal now` renders to by default: tier `-12`, one Planck tick.
pub const RENDERED_TO: i8 = -12;

/// The granularity, in words.
pub const GRANULARITY: &'static str = "1 ns — this program reads the clock to nine decimal places";

/// Why accuracy is not reported.
pub const ACCURACY: &'static str = "not measurable here. §8.4 makes operation offline, so there is no reference to compare against, and a rate error estimated from a short baseline reports quantisation as drift. This is resolution";

/// What survives a difference of two readings.
pub const IN_A_DIFFERENCE: &'static str = "a constant offset cancels between two readings and a rate error does not; quantisation bounds each reading and so bounds their difference twice over. The frame term `ucal datum` declares cancels too";

/// What the finest tier line says after the tier.
pub const FINEST_NOTE: &'static str = " — the finest rung a nanosecond can fill";

/// The text of the rendering floor line, for a floor `floor` that many rungs
/// below the finest tier.
pub open spec fn floor_text(floor: int, unearned: nat) -> Seq<char> {
    tier_label(floor) + " — where `ucal now` renders by default, "@ + decimal(unearned)
        + " rungs below what the clock can fill. A rung is 5^5, so those digits are the conversion's and not the instrument's"@
}

/// Whether `e` is the field `k` holding the text `t`.
pub open spec fn text_field(e: (String, Value), k: Seq<char>, t: Seq<char>) -> bool {
    e.0@ == k && (e.1 matches Value::Text(x) && x@ == t)
}

/// The structural facts: true on every machine, and needing no sample. A
/// nanosecond's ticks, the finest tier it fills (`T-2`), how far below that
/// `ucal now` renders, and why neither accuracy nor a difference is
/// measured here.
pub fn facts() -> (r: Result<Vec<(String, Value)>, TimeError>)
    ensures
        r matches Ok(v) && v@.len() == 6 && text_field(v@[0], "granularity"@, GRANULARITY@) && v@[1].0@
            == "granularity_ticks"@ && (v@[1].1 matches Value::Number(n) && n@ == decimal(NANO_TICKS as nat))
            && text_field(v@[2], "finest_tier"@, tier_label(-2) + FINEST_NOTE@) && text_field(
            v@[3],
            "rendering_floor"@,
            floor_text(-12, 10),
        ) && text_field(v@[4], "accuracy"@, ACCURACY@) && text_field(v@[5], "in_a_difference"@, IN_A_DIFFERENCE@),
{
    let q = match ticks_in_nanos(1) {
        Some(q) => q,
        None => {
            return Err(TimeError::new(Code::E0021));
        },
    };
    let finest = match finest_tier_for(&q) {
        Some(t) => t,
        None => {
            proof {
                lemma_nanosecond_tier();
                assert(tier_ticks(-2) < q@);
            }
            return Err(TimeError::new(Code::E0021));
        },
    };
    proof {
        lemma_nanosecond_tier();
        lemma_finest_unique(finest as int, -2, NANO_TICKS as nat);
    }
    let unearned: i8 = finest - RENDERED_TO;
    let mut v: Vec<(String, Value)> = Vec::new();
    v.push(("granularity".to_owned(), Value::text(GRANULARITY)));
    let digits = q.to_decimal();
    v.push(("granularity_ticks".to_owned(), Value::number(digits.as_str())));
    let mut f = String::new();
    push_tier(&mut f, finest);
    push_str(&mut f, FINEST_NOTE);
    v.push(("finest_tier".to_owned(), Value::text(f.as_str())));
    let mut g = String::new();
    push_tier(&mut g, RENDERED_TO);
    push_str(&mut g, " — where `ucal now` renders by default, ");
    push_decimal(&mut g, unearned as u64);
    push_str(
        &mut g,
        " rungs below what the clock can fill. A rung is 5^5, so those digits are the conversion's and not the instrument's",
    );
    v.push(("rendering_floor".to_owned(), Value::text(g.as_str())));
    v.push(("accuracy".to_owned(), Value::text(ACCURACY)));
    v.push(("in_a_difference".to_owned(), Value::text(IN_A_DIFFERENCE)));
    proof {
        assert(f@ =~= tier_label(-2) + FINEST_NOTE@);
        assert(g@ =~= floor_text(-12, 10));
    }
    Ok(v)
}


/// The finest tier a quantum of `q` ticks can fill, when one of tiers `-12`
/// to `32` can.
pub open spec fn finest_of(q: nat) -> Option<int> {
    if exists|t: int| is_finest(t, q) {
        Some(choose|t: int| is_finest(t, q))
    } else {
        None
    }
}

/// [`finest_tier_for`] finds exactly the finest tier.
proof fn lemma_finest_found(q: Ticks, r: Option<i8>)
    requires
        r matches Some(t) ==> -12 <= t <= 32 && tier_ticks(t as int) >= q@,
        r matches Some(t) ==> forall|j: int| -12 <= j < t ==> tier_ticks(j) < q@,
        r is None ==> forall|j: int| -12 <= j <= 32 ==> tier_ticks(j) < q@,
    ensures
        finest_of(q@) == (match r {
            Some(t) => Some(t as int),
            None => None::<int>,
        }),
{
    match r {
        Some(t) => {
            assert(is_finest(t as int, q@));
            let c = choose|c: int| is_finest(c, q@);
            lemma_finest_unique(c, t as int, q@);
        },
        None => {
            if exists|t: int| is_finest(t, q@) {
                let c = choose|c: int| is_finest(c, q@);
                assert(tier_ticks(c) < q@);
            }
        },
    }
}

/// What a sampled resolution says: the step in nanoseconds, or that none
/// was seen.
pub open spec fn resolution_text(r: Option<u128>, clock: Seq<char>) -> Seq<char> {
    match r {
        Some(ns) => decimal(ns as nat) + " ns — the smallest step observed in `"@ + clock + "`"@,
        None => "not observed within the sampling budget"@,
    }
}

/// What interpolating the wall clock with the monotonic one would be worth.
pub open spec fn interpolating_text(gain: nat, same: bool) -> Seq<char> {
    "taking one wall reading and adding monotonic elapsed since would sharpen it about "@ + decimal(gain)
        + "x, and one rung of the ladder is 5^5 = 3125 — so "@ + decimal(gain)
        + "/3125 of a rung, and the finest fillable tier "@ + (if same {
        "does not move"@
    } else {
        "moves"@
    })
}

/// The fields a measurement reports, from the two resolutions sampled.
pub open spec fn measured_fields(wall: Option<u128>, mono: Option<u128>) -> Seq<(Seq<char>, Seq<char>)> {
    let base = seq![
        ("wall_resolution"@, resolution_text(wall, "SystemTime"@)),
        ("monotonic_resolution"@, resolution_text(mono, "Instant"@)),
    ];
    let with_tier = match wall {
        Some(ns) => match finest_of(NANO_TICKS as nat * ns as nat) {
            Some(t) => base.push(("wall_finest_tier"@, tier_label(t) + " — what this machine's wall clock can fill"@)),
            None => base,
        },
        None => base,
    };
    match (wall, mono) {
        (Some(w), Some(m)) => {
            let gain: nat = if m == 0 { 0 } else { (w / m) as nat };
            let same = finest_of(NANO_TICKS as nat * w as nat) is Some && finest_of(NANO_TICKS as nat * m as nat)
                == finest_of(NANO_TICKS as nat * w as nat);
            with_tier.push(("interpolating"@, interpolating_text(gain, same)))
        },
        _ => with_tier,
    }
}

fn push_resolution(s: &mut String, r: Option<u128>, clock: &str)
    ensures
        final(s)@ == old(s)@ + resolution_text(r, clock@),
{
    match r {
        Some(ns) => {
            push_decimal_u128(s, ns);
            push_str(s, " ns — the smallest step observed in `");
            push_str(s, clock);
            push_str(s, "`");
        },
        None => {
            push_str(s, "not observed within the sampling budget");
        },
    }
    proof {
        assert(final(s)@ =~= old(s)@ + resolution_text(r, clock@));
    }
}

/// What the two clocks on this machine actually do, from the smallest step
/// each was seen to take (`None` for a clock not seen to move within the
/// sampling budget): each resolution, the finest tier the wall clock fills,
/// and how little interpolating the one with the other would gain.
pub fn measured(wall: Option<u128>, mono: Option<u128>) -> (r: Result<Vec<(String, Value)>, TimeError>)
    ensures
        r matches Ok(v) && v@.len() == measured_fields(wall, mono).len() && forall|i: int|
            0 <= i < v@.len() ==> #[trigger] text_field(v@[i], measured_fields(wall, mono)[i].0, measured_fields(wall, mono)[i].1),
{
    let mut out: Vec<(String, Value)> = Vec::new();
    let mut a = String::new();
    push_resolution(&mut a, wall, "SystemTime");
    out.push(("wall_resolution".to_owned(), Value::text(a.as_str())));
    let mut b = String::new();
    push_resolution(&mut b, mono, "Instant");
    out.push(("monotonic_resolution".to_owned(), Value::text(b.as_str())));
    let ghost base = seq![
        ("wall_resolution"@, resolution_text(wall, "SystemTime"@)),
        ("monotonic_resolution"@, resolution_text(mono, "Instant"@)),
    ];
    let wall_tier = match wall {
        Some(ns) => match ticks_in_nanos(ns) {
            Some(q) => {
                let t = finest_tier_for(&q);
                proof {
                    lemma_finest_found(q, t);
                }
                t
            },
            None => None,
        },
        None => None,
    };
    if let Some(t) = wall_tier {
        let mut c = String::new();
        push_tier(&mut c, t);
        push_str(&mut c, " — what this machine's wall clock can fill");
        out.push(("wall_finest_tier".to_owned(), Value::text(c.as_str())));
    }
    let ghost with_tier = match wall {
        Some(ns) => match finest_of(NANO_TICKS as nat * ns as nat) {
            Some(t) => base.push(("wall_finest_tier"@, tier_label(t) + " — what this machine's wall clock can fill"@)),
            None => base,
        },
        None => base,
    };
    assert(out@.len() == with_tier.len());
    assert forall|i: int| 0 <= i < out@.len() implies #[trigger] text_field(out@[i], with_tier[i].0, with_tier[i].1) by {
        if i == 2 {
            assert(with_tier[2].1 =~= tier_label(wall_tier.unwrap() as int) + " — what this machine's wall clock can fill"@);
        }
    }
    if let (Some(w), Some(m)) = (wall, mono) {
        let gain: u128 = if m == 0 { 0 } else { w / m };
        let mono_tier = match ticks_in_nanos(m) {
            Some(q) => {
                let t = finest_tier_for(&q);
                proof {
                    lemma_finest_found(q, t);
                }
                t
            },
            None => None,
        };
        let same = match (wall_tier, mono_tier) {
            (Some(x), Some(y)) => x == y,
            _ => false,
        };
        let mut d = String::new();
        push_str(&mut d, "taking one wall reading and adding monotonic elapsed since would sharpen it about ");
        push_decimal_u128(&mut d, gain);
        push_str(&mut d, "x, and one rung of the ladder is 5^5 = 3125 — so ");
        push_decimal_u128(&mut d, gain);
        push_str(&mut d, "/3125 of a rung, and the finest fillable tier ");
        push_str(&mut d, if same { "does not move" } else { "moves" });
        let ghost before = out@;
        out.push(("interpolating".to_owned(), Value::text(d.as_str())));
        proof {
            let g: nat = if m == 0 { 0 } else { (w / m) as nat };
            assert(gain as nat == g);
            assert(d@ =~= interpolating_text(g, same));
            assert forall|i: int| 0 <= i < out@.len() implies #[trigger] text_field(
                out@[i],
                measured_fields(wall, mono)[i].0,
                measured_fields(wall, mono)[i].1,
            ) by {
                if i < before.len() {
                    assert(out@[i] == before[i]);
                    assert(text_field(before[i], with_tier[i].0, with_tier[i].1));
                }
            }
        }
    }
    Ok(out)
}

} // verus!
