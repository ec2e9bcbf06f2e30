//! What the clock shows: a set of hand positions and the words around them,
//! with nothing about colour or layout, so it can be built and checked
//! without a terminal.
//!
//! Each hand is one tier's position among the 3125 subdivisions of the tier
//! above it — `(ticks / tier) mod 3125`, the same relationship the printed
//! form's groups have, computed rather than parsed. A face carries the tiers
//! `T3` down to `T-1`: above `T3` a hand does not move within a human
//! lifetime, and below `T-1` it moves 66 000 times a second.
use vstd::prelude::*;

use vstd::arithmetic::div_mod::{lemma_div_denominator, lemma_fundamental_div_mod_converse};

use crate::clock::{lemma_tier_ticks_grow, push_tier, tier_label, tier_ticks};
use crate::text::{decimal, push_decimal, push_str, repeat_char};
use crate::ticks::Ticks;

verus! {

broadcast use vstd::string::group_string_axioms;

/// The tiers a wall clock puts on its face, coarsest first.
pub open spec fn face_tiers() -> Seq<i8> {
    seq![3i8, 2i8, 1i8, 0i8, -1i8]
}

/// One tier's hand.
#[derive(Clone, PartialEq, Eq, Debug)]
pub struct Hand {
    /// The tier this hand belongs to.
    pub tier: i8,
    /// Its name in the active locale, empty where it has none.
    pub name: String,
    /// Which of the 3125 subdivisions of the tier above it: `0..3125`.
    pub position: u32,
}

/// A hand's rail label: the tier, and its name where it has one.
pub open spec fn hand_label(tier: int, name: Seq<char>) -> Seq<char> {
    if name.len() == 0 {
        tier_label(tier)
    } else {
        tier_label(tier) + " "@ + name
    }
}

impl Hand {
    /// The rail label: tier index and, where it has one, its localised name.
    pub fn label(&self) -> (s: String)
        ensures
            s@ == hand_label(self.tier as int, self.name@),
    {
        let mut s = String::new();
        push_tier(&mut s, self.tier);
        if self.name.unicode_len() > 0 {
            push_str(&mut s, " ");
            push_str(&mut s, self.name.as_str());
        }
        proof {
            reveal_strlit(" ");
        }
        s
    }

    /// How far round its dial, in thousandths. Integer: a clock face is no
    /// place for a float.
    pub fn per_mille(&self) -> (m: u32)
        requires
            self.position * 1000 <= u32::MAX,
        ensures
            m == self.position * 1000 / 3125,
    {
        self.position * 1000 / 3125
    }
}

/// A body's own calendar, shown as a second dial.
#[derive(Clone, PartialEq, Eq, Debug)]
pub struct Local {
    /// The calendar id, e.g. `mars-d`.
    pub calendar: String,
    /// Local year, 1-based from the anchor.
    pub year: String,
    /// Day of the local year.
    pub day: String,
    /// How far through the local day, as a percentage: `0..=100`.
    pub through_day: u32,
    /// Which anchor revision produced it.
    pub revision: u32,
}

/// A reading of the clock.
#[derive(Clone, Debug)]
pub struct Face {
    /// The tick count this face was read at.
    pub at: Ticks,
    /// The hands, coarsest first.
    pub hands: Vec<Hand>,
    /// The full human form, for the line under the readout.
    pub human: String,
    /// A second dial, where one was asked for.
    pub local: Option<Local>,
}

/// Where tier `k`'s hand stands at a count of `t` ticks.
pub open spec fn position_at(t: nat, k: int) -> nat {
    (t / tier_ticks(k)) % 3125
}

/// Where tier `k`'s hand stands at `t`: `(t / tier) mod 3125`.
pub fn hand_position(t: &Ticks, k: i8) -> (p: u32)
    requires
        -12 <= k,
    ensures
        p == position_at(t@, k as int),
        p < 3125,
{
    let mut cur = *t;
    let mut j: i8 = -12;
    assert(tier_ticks(-12) == 1);
    while j < k
        invariant
            -12 <= j <= k,
            cur@ == t@ / tier_ticks(j as int),
        decreases k - j,
    {
        let (q, rem) = cur.div_rem_small(3125);
        proof {
            lemma_tier_ticks_grow(j as int, j as int);
            lemma_div_denominator(t@ as int, tier_ticks(j as int) as int, 3125);
            lemma_fundamental_div_mod_converse(cur@ as int, 3125, q@ as int, rem as int);
            assert(tier_ticks(j as int + 1) == 3125 * tier_ticks(j as int));
            assert(tier_ticks(j as int) * 3125 == 3125 * tier_ticks(j as int));
        }
        cur = q;
        j = j + 1;
    }
    let (q, r) = cur.div_rem_small(3125);
    proof {
        lemma_fundamental_div_mod_converse(cur@ as int, 3125, q@ as int, r as int);
    }
    r as u32
}

impl Face {
    /// The face at a count of `t` ticks: one hand for each of `T3` to `T-1`,
    /// named by `names` in that order (empty for a tier with no name),
    /// beside the human form and the second dial, where there is one.
    pub fn at(t: &Ticks, names: &Vec<String>, human: String, local: Option<Local>) -> (f: Face)
        requires
            names@.len() == 5,
        ensures
            f.at == *t,
            f.human == human,
            f.local == local,
            f.hands@.len() == 5,
            forall|i: int|
                0 <= i < 5 ==> (#[trigger] f.hands@[i]).tier == face_tiers()[i] && f.hands@[i].name@ == names@[i]@
                    && f.hands@[i].position == position_at(t@, face_tiers()[i] as int),
    {
        let tiers: [i8; 5] = [3, 2, 1, 0, -1];
        let mut hands: Vec<Hand> = Vec::new();
        let mut i: usize = 0;
        while i < 5
            invariant
                i <= 5,
                names@.len() == 5,
                tiers@ == face_tiers(),
                hands@.len() == i,
                forall|m: int|
                    0 <= m < i ==> (#[trigger] hands@[m]).tier == face_tiers()[m] && hands@[m].name@ == names@[m]@
                        && hands@[m].position == position_at(t@, face_tiers()[m] as int),
            decreases 5 - i,
        {
            let k = tiers[i];
            let position = hand_position(t, k);
            hands.push(Hand { tier: k, name: names[i].clone(), position });
            i = i + 1;
        }
        Face { at: *t, hands, human, local }
    }

    /// The hand a reader watches: `T0`, the beat, at about 21 per second.
    pub fn beat(&self) -> (h: Option<&Hand>)
        ensures
            h matches Some(x) ==> x.tier == 0 && exists|i: int|
                0 <= i < self.hands@.len() && self.hands@[i] == *x && forall|m: int|
                    0 <= m < i ==> self.hands@[m].tier != 0,
            h is None ==> forall|m: int| 0 <= m < self.hands@.len() ==> self.hands@[m].tier != 0,
    {
        self.hand_of(0)
    }

    /// The hand below it, which is a blur and is drawn as one.
    pub fn blur(&self) -> (h: Option<&Hand>)
        ensures
            h matches Some(x) ==> x.tier == -1 && exists|i: int|
                0 <= i < self.hands@.len() && self.hands@[i] == *x && forall|m: int|
                    0 <= m < i ==> self.hands@[m].tier != -1,
            h is None ==> forall|m: int| 0 <= m < self.hands@.len() ==> self.hands@[m].tier != -1,
    {
        self.hand_of(-1)
    }

    /// The first hand of tier `k`.
    fn hand_of(&self, k: i8) -> (h: Option<&Hand>)
        ensures
            h matches Some(x) ==> x.tier == k && exists|i: int|
                0 <= i < self.hands@.len() && self.hands@[i] == *x && forall|m: int|
                    0 <= m < i ==> self.hands@[m].tier != k,
            h is None ==> forall|m: int| 0 <= m < self.hands@.len() ==> self.hands@[m].tier != k,
    {
        let mut i: usize = 0;
        while i < self.hands.len()
            invariant
                i <= self.hands@.len(),
                forall|m: int| 0 <= m < i ==> self.hands@[m].tier != k,
            decreases self.hands@.len() - i,
        {
            if self.hands[i].tier == k {
                return Some(&self.hands[i]);
            }
            i = i + 1;
        }
        None
    }
}

/// How many of `width` cells a position `per_mille` thousandths round its
/// dial fills.
pub fn filled_cells(per_mille: u32, width: usize) -> (n: usize)
    requires
        per_mille as int * width as int <= usize::MAX,
    ensures
        n == per_mille as int * width as int / 1000,
{
    (per_mille as usize) * width / 1000
}

/// A bar: `filled` cells of `full`, then `empty` up to `width`.
pub open spec fn bar_of(full: char, empty: char, filled: nat, width: nat) -> Seq<char> {
    Seq::new(filled, |_i: int| full) + Seq::new(if filled < width { (width - filled) as nat } else { 0 }, |_i: int| empty)
}

/// Draw a bar.
pub fn bar(full: char, empty: char, filled: usize, width: usize) -> (s: String)
    ensures
        s@ == bar_of(full, empty, filled as nat, width as nat),
{
    let mut s = repeat_char(full, filled);
    let rest = if filled < width { width - filled } else { 0 };
    let e = repeat_char(empty, rest);
    push_str(&mut s, e.as_str());
    s
}

/// `s` padded with spaces on the right to `w` characters.
pub open spec fn pad_right(s: Seq<char>, w: nat) -> Seq<char> {
    s + Seq::new(if s.len() < w { (w - s.len()) as nat } else { 0 }, |_i: int| ' ')
}

/// `s` padded with spaces on the left to `w` characters.
pub open spec fn pad_left(s: Seq<char>, w: nat) -> Seq<char> {
    Seq::new(if s.len() < w { (w - s.len()) as nat } else { 0 }, |_i: int| ' ') + s
}

pub(crate) fn push_padded_right(out: &mut String, s: &str, w: usize)
    ensures
        final(out)@ == old(out)@ + pad_right(s@, w as nat),
{
    let n = s.unicode_len();
    push_str(out, s);
    let gap = if n < w { w - n } else { 0 };
    let sp = repeat_char(' ', gap);
    push_str(out, sp.as_str());
    assert(final(out)@ =~= old(out)@ + pad_right(s@, w as nat));
}

/// Which text a hand line shows: its label to fourteen columns, its position
/// to four.
pub open spec fn hand_line_text(h: Hand) -> Seq<char> {
    pad_right(hand_label(h.tier as int, h.name@), 14) + pad_left(decimal(h.position as nat), 4)
}

/// One line per hand: label, then position.
pub fn hand_lines(face: &Face) -> (lines: Vec<String>)
    ensures
        lines@.len() == face.hands@.len(),
        forall|i: int| 0 <= i < lines@.len() ==> (#[trigger] lines@[i])@ == hand_line_text(face.hands@[i]),
{
    let mut lines: Vec<String> = Vec::new();
    let mut i: usize = 0;
    while i < face.hands.len()
        invariant
            i <= face.hands@.len(),
            lines@.len() == i,
            forall|m: int| 0 <= m < i ==> (#[trigger] lines@[m])@ == hand_line_text(face.hands@[m]),
        decreases face.hands@.len() - i,
    {
        let h = &face.hands[i];
        let label = h.label();
        let mut line = String::new();
        push_padded_right(&mut line, label.as_str(), 14);
        let mut digits = String::new();
        push_decimal(&mut digits, h.position as u64);
        let n = digits.unicode_len();
        let gap = if n < 4 { 4 - n } else { 0 };
        let sp = repeat_char(' ', gap);
        push_str(&mut line, sp.as_str());
        push_str(&mut line, digits.as_str());
        assert(line@ =~= hand_line_text(*h));
        lines.push(line);
        i = i + 1;
    }
    lines
}

/// What `str::to_uppercase` gives for `s`.
pub uninterp spec fn uppercase(s: Seq<char>) -> Seq<char>;

/// `str::to_uppercase`: the Unicode uppercase mapping of every character.
/// Its result is named, not stated.
#[verifier::external_body]
pub(crate) fn to_upper(s: &str) -> (r: String)
    ensures
        r@ == uppercase(s@),
{
    s.to_uppercase()
}

/// The words of the second dial, with the calendar's name set as `heading`:
/// a blank line; the calendar, its year and day, and what the year counts
/// from; a bar of how far through the local day the instant falls; and the
/// anchor revision.
pub open spec fn local_text_headed(l: Local, heading: Seq<char>) -> Seq<Seq<char>> {
    seq![
        Seq::empty(),
        pad_right(heading, 14) + "year "@ + l.year@ + "  day "@ + l.day@
            + "   counted from the anchor — year 1 began there"@,
        bar_of('▓', '░', (l.through_day * 40 / 100) as nat, 40) + " "@ + decimal(l.through_day as nat)
            + "% through the local day"@,
        "anchor revision "@ + decimal(l.revision as nat)
            + " — an anchor is an observation and is versioned (Rule J)"@,
    ]
}

/// The words of the second dial, its calendar named in capitals.
pub open spec fn local_text(l: Local) -> Seq<Seq<char>> {
    local_text_headed(l, uppercase(l.calendar@))
}

/// The second dial's lines for `l`, under the heading `heading`.
pub fn local_lines_headed(l: &Local, heading: &str) -> (lines: Vec<String>)
    requires
        l.through_day <= 100,
    ensures
        lines@.len() == 4,
        forall|i: int| 0 <= i < 4 ==> (#[trigger] lines@[i])@ == local_text_headed(*l, heading@)[i],
{
    let mut lines: Vec<String> = Vec::new();
    lines.push(String::new());
    let mut a = String::new();
    push_padded_right(&mut a, heading, 14);
    push_str(&mut a, "year ");
    push_str(&mut a, l.year.as_str());
    push_str(&mut a, "  day ");
    push_str(&mut a, l.day.as_str());
    push_str(&mut a, "   counted from the anchor — year 1 began there");
    lines.push(a);
    let filled = (l.through_day as usize) * 40 / 100;
    let mut b = bar('▓', '░', filled, 40);
    push_str(&mut b, " ");
    push_decimal(&mut b, l.through_day as u64);
    push_str(&mut b, "% through the local day");
    lines.push(b);
    let mut c = String::new();
    push_str(&mut c, "anchor revision ");
    push_decimal(&mut c, l.revision as u64);
    push_str(&mut c, " — an anchor is an observation and is versioned (Rule J)");
    lines.push(c);
    proof {
        assert(lines@[0]@ =~= local_text_headed(*l, heading@)[0]);
        assert(lines@[1]@ =~= local_text_headed(*l, heading@)[1]);
        assert(lines@[2]@ =~= local_text_headed(*l, heading@)[2]);
        assert(lines@[3]@ =~= local_text_headed(*l, heading@)[3]);
    }
    lines
}

/// The second dial's lines, where there is a second dial.
pub fn local_lines(face: &Face) -> (lines: Vec<String>)
    requires
        face.local matches Some(l) ==> l.through_day <= 100,
    ensures
        face.local is None ==> lines@.len() == 0,
        face.local matches Some(l) ==> lines@.len() == 4 && forall|i: int|
            0 <= i < 4 ==> (#[trigger] lines@[i])@ == local_text(l)[i],
{
    let l = match &face.local {
        Some(l) => l,
        None => {
            return Vec::new();
        },
    };
    let upper = to_upper(l.calendar.as_str());
    local_lines_headed(l, upper.as_str())
}

} // verus!
