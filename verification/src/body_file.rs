//! The parts of a body file's loading that are decided by the file alone.
//!
//! A parameter in a body file is measured (a published value, verbatim, and
//! its unit) or derived (a named relation over the file's other parameters),
//! never both and never neither. A measured value is a decimal whose digits
//! and decimal count are kept exactly: `60189.0` and `60189` are different
//! publications.
use vstd::prelude::*;

use crate::error::{Code, TimeError};
use crate::text::{
    char_is_digit, char_is_whitespace, chars_of, contains_seq, contains_str, digits_value, is_digit, str_eq, whitespace,
};

verus! {

broadcast use vstd::string::group_string_axioms;

/// The units a measured parameter may be stated in; each is an exact
/// multiple of the SI second.
#[derive(Clone, Copy, PartialEq, Eq, Structural, Debug)]
pub enum MeasuredUnit {
    /// The SI second.
    SiSecond,
    /// Sixty SI seconds.
    SiMinute,
    /// 3600 SI seconds.
    Hour,
    /// 86 400 SI seconds.
    SiDay,
    /// The Julian year, 365.25 SI days.
    JulianYear,
}

/// The key a file uses for a unit.
pub open spec fn unit_spelling(u: MeasuredUnit) -> Seq<char> {
    match u {
        MeasuredUnit::SiSecond => "s"@,
        MeasuredUnit::SiMinute => "min"@,
        MeasuredUnit::Hour => "h"@,
        MeasuredUnit::SiDay => "d"@,
        MeasuredUnit::JulianYear => "yr"@,
    }
}

/// What a unit outside the five is told.
pub const BAD_UNIT: &'static str = "unit must be `s` (SI second), `min` (60 s), `h` (3600 s), `d` (86 400 s) or `yr` (Julian year)";

/// What a parameter value that is not a decimal number is told.
pub const NOT_DECIMAL: &'static str = "a parameter value must be a decimal number, e.g. `86400` or `15.945421`";

/// The unit a file's key names.
pub fn unit_of(u: &str) -> (r: Result<MeasuredUnit, TimeError>)
    ensures
        forall|m: MeasuredUnit| r == Ok::<MeasuredUnit, TimeError>(m) <==> u@ == unit_spelling(m),
        r is Err <==> (u@ != "s"@ && u@ != "min"@ && u@ != "h"@ && u@ != "d"@ && u@ != "yr"@),
        r matches Err(e) ==> e.code == Code::E0018 && e.context@ == BAD_UNIT@,
{
    proof {
        reveal_strlit("s");
        reveal_strlit("min");
        reveal_strlit("h");
        reveal_strlit("d");
        reveal_strlit("yr");
        assert("min"@.len() == 3);
        assert("yr"@.len() == 2);
        assert("s"@.len() == 1 && "h"@.len() == 1 && "d"@.len() == 1);
        assert("s"@[0] != "h"@[0] && "s"@[0] != "d"@[0] && "h"@[0] != "d"@[0]);
    }
    if str_eq(u, "s") {
        Ok(MeasuredUnit::SiSecond)
    } else if str_eq(u, "min") {
        Ok(MeasuredUnit::SiMinute)
    } else if str_eq(u, "h") {
        Ok(MeasuredUnit::Hour)
    } else if str_eq(u, "d") {
        Ok(MeasuredUnit::SiDay)
    } else if str_eq(u, "yr") {
        Ok(MeasuredUnit::JulianYear)
    } else {
        Err(TimeError::with_context(Code::E0018, BAD_UNIT))
    }
}

/// The relations a file may name in a `derived:` parameter.
#[derive(Clone, Copy, PartialEq, Eq, Structural, Debug)]
pub enum Relation {
    /// The synodic day of a body whose rotation and year are both stated.
    Synodic,
}

/// The formula of the synodic relation, as the provenance record carries it.
pub const SYNODIC_FORMULA: &'static str = "1 / (1/P_rotation - 1/P_orbital_period)";

/// Why the synodic relation gives the solar day.
pub const SYNODIC_REASON: &'static str = "tidal lock fixes the body's face towards its primary, not towards the Sun; the Sun moves relative to the pair as the primary orbits, so a solar day is the synodic period. No source publishes it, and it follows exactly from two that are published.";

/// What a `derived:` value other than `synodic` is told.
pub const NOT_SYNODIC: &'static str = "the only derivation a body file may name is `synodic`: 1 / (1/rotation_period - 1/orbital_period)";

impl Relation {
    /// The relation a `derived:` value names: `synodic`, and nothing else.
    pub fn parse(s: &str) -> (r: Result<Relation, TimeError>)
        ensures
            r is Ok <==> s@ == "synodic"@,
            r matches Err(e) ==> e.code == Code::E0018 && e.context@ == NOT_SYNODIC@,
    {
        if str_eq(s, "synodic") {
            Ok(Relation::Synodic)
        } else {
            Err(TimeError::with_context(Code::E0018, NOT_SYNODIC))
        }
    }

    /// The formula, verbatim, for the provenance record.
    pub fn relation(self) -> (s: &'static str)
        ensures
            s@ == SYNODIC_FORMULA@,
    {
        match self {
            Relation::Synodic => SYNODIC_FORMULA,
        }
    }

    /// Why the relation holds.
    pub fn because(self) -> (s: &'static str)
        ensures
            s@ == SYNODIC_REASON@,
    {
        match self {
            Relation::Synodic => SYNODIC_REASON,
        }
    }
}

/// One parameter as it appears in a file: measured, or derived.
pub struct ParamFile {
    /// The published figure, verbatim, as a decimal string. Measured only.
    pub value: Option<String>,
    /// `s`, `min`, `h`, `d` or `yr`. Measured only.
    pub unit: Option<String>,
    /// A named relation over the file's other parameters. Derived only.
    pub derived: Option<String>,
    /// Full source reference.
    pub citation: String,
    /// DOI, bibcode or URL, where one exists.
    pub locator: Option<String>,
    /// Half-width of the validity window, in Julian years about J2000.0.
    pub valid_years: u64,
}

/// What a parameter with both `value` and `derived` is told.
pub const BOTH_KINDS: &'static str = "a parameter is measured or derived, not both: it has `value` and `derived`";

/// What a parameter with neither `value` nor `derived` is told.
pub const NEITHER_KIND: &'static str = "a parameter needs `value` and `unit`, or `derived`";

/// What a derived parameter that gives a unit is told.
pub const DERIVED_UNIT: &'static str = "a derived parameter has no unit: it is computed in ticks from the parameters it names, and a unit here would be a second statement of a quantity that already has one";

impl ParamFile {
    /// Which of the two kinds of parameter this is, refusing anything
    /// ambiguous: `Ok(None)` for a measured one, `Ok(Some(relation))` for a
    /// derived one.
    pub fn relation(&self) -> (r: Result<Option<Relation>, TimeError>)
        ensures
            r == Ok::<Option<Relation>, TimeError>(None) <==> (self.derived is None && self.value is Some),
            r == Ok::<Option<Relation>, TimeError>(Some(Relation::Synodic)) <==> (self.value is None
                && self.unit is None && (self.derived matches Some(d) && d@ == "synodic"@)),
            (self.derived is Some && self.value is Some) ==> (r matches Err(e) && e.code == Code::E0060
                && e.context@ == BOTH_KINDS@),
            (self.derived is None && self.value is None) ==> (r matches Err(e) && e.code == Code::E0060
                && e.context@ == NEITHER_KIND@),
            (self.derived is Some && self.value is None && self.unit is Some) ==> (r matches Err(e) && e.code
                == Code::E0060 && e.context@ == DERIVED_UNIT@),
            (self.value is None && self.unit is None && (self.derived matches Some(d) && d@ != "synodic"@))
                ==> (r matches Err(e) && e.code == Code::E0018 && e.context@ == NOT_SYNODIC@),
    {
        match (&self.derived, &self.value) {
            (Some(_), Some(_)) => Err(TimeError::with_context(Code::E0060, BOTH_KINDS)),
            (None, None) => Err(TimeError::with_context(Code::E0060, NEITHER_KIND)),
            (Some(d), None) => {
                if self.unit.is_some() {
                    return Err(TimeError::with_context(Code::E0060, DERIVED_UNIT));
                }
                match Relation::parse(d.as_str()) {
                    Ok(rel) => Ok(Some(rel)),
                    Err(e) => Err(e),
                }
            },
            (None, Some(_)) => Ok(None),
        }
    }
}

/// `s` without leading and trailing whitespace; `str::trim`.
pub open spec fn trimmed(s: Seq<char>) -> Seq<char>
    decreases s.len(),
{
    if s.len() > 0 && whitespace(s.last()) {
        trimmed(s.drop_last())
    } else if s.len() > 0 && whitespace(s[0]) {
        trimmed(s.drop_first())
    } else {
        s
    }
}

/// The index of the first `.` in `s`, or its length.
pub open spec fn first_dot(s: Seq<char>) -> int
    decreases s.len(),
{
    if s.len() == 0 {
        0
    } else if s[0] == '.' {
        0
    } else {
        1 + first_dot(s.drop_first())
    }
}

/// The digits before the decimal point of a trimmed value.
pub open spec fn whole_part(v: Seq<char>) -> Seq<char> {
    v.take(first_dot(v))
}

/// The digits after the decimal point of a trimmed value; empty without one.
pub open spec fn frac_part(v: Seq<char>) -> Seq<char> {
    if first_dot(v) < v.len() { v.skip(first_dot(v) + 1) } else { Seq::empty() }
}

/// Every character of `d` is an ASCII digit.
pub open spec fn all_ascii_digits(d: Seq<char>) -> bool {
    forall|i: int| 0 <= i < d.len() ==> #[trigger] is_digit(d[i])
}

/// Whether a value reads as a decimal whose digits fit a `u128` and whose
/// decimal count fits a `u32`.
pub open spec fn decimal_ok(v: Seq<char>) -> bool {
    let t = trimmed(v);
    let w = whole_part(t);
    let f = frac_part(t);
    w.len() > 0 && all_ascii_digits(w) && all_ascii_digits(f) && digits_value(w + f) <= u128::MAX
        && f.len() <= u32::MAX
}

proof fn lemma_first_dot(s: Seq<char>)
    ensures
        0 <= first_dot(s) <= s.len(),
        first_dot(s) < s.len() ==> s[first_dot(s)] == '.',
        forall|i: int| 0 <= i < first_dot(s) ==> #[trigger] s[i] != '.',
    decreases s.len(),
{
    if s.len() > 0 && s[0] != '.' {
        lemma_first_dot(s.drop_first());
        assert forall|i: int| 0 <= i < first_dot(s) implies #[trigger] s[i] != '.' by {
            if i > 0 {
                assert(s[i] == s.drop_first()[i - 1]);
            }
        }
    }
}

/// Split a decimal string into its mantissa and decimal count.
pub fn mantissa_of(v: &str) -> (r: Result<(u128, u32), TimeError>)
    ensures
        r is Ok <==> decimal_ok(v@),
        r matches Ok((m, d)) ==> m == digits_value(whole_part(trimmed(v@)) + frac_part(trimmed(v@)))
            && d == frac_part(trimmed(v@)).len(),
        r matches Err(e) ==> e.code == Code::E0060 && e.context@ == NOT_DECIMAL@,
{
    let cs = chars_of(v);
    // trim
    let mut lo: usize = 0;
    let mut hi: usize = cs.len();
    assert(cs@.subrange(0, cs.len() as int) =~= cs@);
    loop
        invariant
            lo <= hi <= cs.len(),
            cs@ == v@,
            trimmed(v@) == trimmed(cs@.subrange(lo as int, hi as int)),
        ensures
            lo <= hi <= cs.len(),
            trimmed(v@) == cs@.subrange(lo as int, hi as int),
        decreases hi - lo,
    {
        if hi > lo && char_is_whitespace(cs[hi - 1]) {
            assert(cs@.subrange(lo as int, hi as int).drop_last() =~= cs@.subrange(lo as int, hi - 1));
            hi = hi - 1;
        } else if hi > lo && char_is_whitespace(cs[lo]) {
            assert(cs@.subrange(lo as int, hi as int).drop_first() =~= cs@.subrange(lo + 1, hi as int));
            lo = lo + 1;
        } else {
            assert(trimmed(cs@.subrange(lo as int, hi as int)) == cs@.subrange(lo as int, hi as int));
            break;
        }
    }
    let ghost t = cs@.subrange(lo as int, hi as int);
    assert(trimmed(v@) == t);
    let mut dot = lo;
    while dot < hi && cs[dot] != '.'
        invariant
            lo <= dot <= hi <= cs.len(),
            t == cs@.subrange(lo as int, hi as int),
            forall|i: int| lo <= i < dot ==> cs@[i] != '.',
        decreases hi - dot,
    {
        dot = dot + 1;
    }
    proof {
        lemma_first_dot(t);
        assert forall|i: int| 0 <= i < dot - lo implies t[i] != '.' by {
            assert(t[i] == cs@[lo + i]);
        }
        if dot < hi {
            assert(t[dot - lo] == '.');
        }
    }
    assert(first_dot(t) == dot - lo);
    let frac_start: usize = if dot < hi { dot + 1 } else { hi };
    let ghost w = t.take(dot - lo);
    let ghost f = if dot < hi { t.skip(dot - lo + 1) } else { Seq::<char>::empty() };
    assert(w =~= cs@.subrange(lo as int, dot as int));
    assert(f =~= cs@.subrange(frac_start as int, hi as int));
    if dot == lo {
        return Err(malformed());
    }
    // digits, and their value
    let mut m: u128 = 0;
    let mut i: usize = lo;
    let ghost digits = w + f;
    assert(whole_part(trimmed(v@)) == w);
    assert(frac_part(trimmed(v@)) =~= f);
    while i < hi
        invariant
            lo < dot <= hi <= cs.len(),
            frac_start == (if dot < hi { dot + 1 } else { hi as int }),
            lo <= i <= hi,
            i != dot || dot == hi,
            w == cs@.subrange(lo as int, dot as int),
            f == cs@.subrange(frac_start as int, hi as int),
            digits == w + f,
            whole_part(trimmed(v@)) == w,
            frac_part(trimmed(v@)) == f,
            i <= dot ==> all_ascii_digits(cs@.subrange(lo as int, i as int)) && m == digits_value(cs@.subrange(lo as int, i as int)),
            i > dot ==> i >= frac_start && all_ascii_digits(w) && all_ascii_digits(cs@.subrange(frac_start as int, i as int))
                && m == digits_value(w + cs@.subrange(frac_start as int, i as int)),
        decreases hi - i,
    {
        let c = cs[i];
        if !char_is_digit(c) {
            proof {
                if i < dot {
                    assert(w[i - lo] == c);
                    assert(!all_ascii_digits(w));
                } else {
                    assert(f[i - frac_start] == c);
                    assert(!all_ascii_digits(f));
                }
            }
            return Err(malformed());
        }
        let d: u128 = (c as u32 - 48) as u128;
        let ghost prefix = if i < dot { cs@.subrange(lo as int, i as int) } else { w + cs@.subrange(frac_start as int, i as int) };
        let ghost next = if i < dot { cs@.subrange(lo as int, i + 1) } else { w + cs@.subrange(frac_start as int, i + 1) };
        assert(next.drop_last() =~= prefix);
        assert(next.last() == c);
        assert(next =~= digits.take(next.len() as int));
        match m.checked_mul(10) {
            Some(m10) => match m10.checked_add(d) {
                Some(m2) => {
                    m = m2;
                },
                None => {
                    proof {
                        lemma_digits_prefix_le(digits, next);
                    }
                    return Err(malformed());
                },
            },
            None => {
                proof {
                    lemma_digits_prefix_le(digits, next);
                }
                return Err(malformed());
            },
        }
        if i + 1 == dot && dot < hi {
            assert(cs@.subrange(lo as int, i + 1) =~= w);
            assert(cs@.subrange(frac_start as int, frac_start as int) =~= Seq::<char>::empty());
            assert(w + Seq::<char>::empty() =~= w);
            i = frac_start;
        } else {
            i = i + 1;
        }
    }
    proof {
        if dot < hi {
            assert(cs@.subrange(frac_start as int, hi as int) =~= f);
        } else {
            assert(cs@.subrange(lo as int, hi as int) =~= w);
            assert(w + f =~= w);
        }
    }
    let flen: usize = hi - frac_start;
    if flen > 4294967295 {
        return Err(malformed());
    }
    Ok((m, flen as u32))
}

/// A prefix of a run of digits is worth no more than the run.
proof fn lemma_digits_prefix_le(s: Seq<char>, p: Seq<char>)
    requires
        p.len() <= s.len(),
        p =~= s.take(p.len() as int),
    ensures
        digits_value(p) <= digits_value(s),
    decreases s.len(),
{
    if p.len() < s.len() {
        assert(s.drop_last().take(p.len() as int) =~= p);
        lemma_digits_prefix_le(s.drop_last(), p);
    } else {
        assert(p =~= s);
    }
}

fn malformed() -> (e: TimeError)
    ensures
        e.code == Code::E0060,
        e.context@ == NOT_DECIMAL@,
{
    TimeError::with_context(Code::E0060, NOT_DECIMAL)
}


/// Whether `u` is the key of one of the five units.
pub open spec fn is_unit_key(u: Seq<char>) -> bool {
    u == "s"@ || u == "min"@ || u == "h"@ || u == "d"@ || u == "yr"@
}

/// A measured parameter as its file states it: the published figure's digits
/// and decimal count, and its unit.
#[derive(Clone, Copy, PartialEq, Eq, Structural, Debug)]
pub struct Measured {
    /// The figure's digits, as one integer.
    pub mantissa: u128,
    /// How many of those digits follow the decimal point.
    pub decimals: u32,
    /// The unit the figure is in.
    pub unit: MeasuredUnit,
}

/// Why a measured parameter is missing its value.
pub const NEEDS_VALUE: &'static str = "a measured parameter needs `value`";

/// Why a measured parameter is missing its unit.
pub const NEEDS_UNIT: &'static str = "a measured parameter needs `unit`";

impl ParamFile {
    /// A measured parameter, checked: what a measured figure must carry is
    /// required. The value and the unit must be there, the value a decimal and
    /// the unit one of the five.
    pub fn build(&self) -> (r: Result<Measured, TimeError>)
        ensures
            self.value is None ==> (r matches Err(e) && e.code == Code::E0060 && e.context@ == NEEDS_VALUE@),
            (self.value is Some && self.unit is None) ==> (r matches Err(e) && e.code == Code::E0060
                && e.context@ == NEEDS_UNIT@),
            (self.value is Some && self.unit is Some && !decimal_ok(self.value.unwrap()@)) ==> (r matches Err(
                e,
            ) && e.code == Code::E0060 && e.context@ == NOT_DECIMAL@),
            (self.value is Some && self.unit is Some && decimal_ok(self.value.unwrap()@)) ==> (r is Ok
                <==> is_unit_key(self.unit.unwrap()@)),
            (self.value is Some && self.unit is Some && decimal_ok(self.value.unwrap()@) && !is_unit_key(
                self.unit.unwrap()@,
            )) ==> (r matches Err(e) && e.code == Code::E0018 && e.context@ == BAD_UNIT@),
            r matches Ok(m) ==> (unit_spelling(m.unit) == self.unit.unwrap()@ && m.mantissa == digits_value(
                whole_part(trimmed(self.value.unwrap()@)) + frac_part(trimmed(self.value.unwrap()@)),
            ) && m.decimals == frac_part(trimmed(self.value.unwrap()@)).len()),
    {
        let value = match &self.value {
            Some(v) => v,
            None => {
                return Err(TimeError::with_context(Code::E0060, NEEDS_VALUE));
            },
        };
        let unit = match &self.unit {
            Some(u) => u,
            None => {
                return Err(TimeError::with_context(Code::E0060, NEEDS_UNIT));
            },
        };
        let (mantissa, decimals) = match mantissa_of(value.as_str()) {
            Ok(md) => md,
            Err(e) => {
                return Err(e);
            },
        };
        match unit_of(unit.as_str()) {
            Ok(u) => Ok(Measured { mantissa, decimals, unit: u }),
            Err(e) => Err(e),
        }
    }
}

/// What a body file that names a key outside the format is told.
pub const UNKNOWN_KEY: &'static str = "unknown key in the body file; the accepted keys are id, primary, rotation_period, solar_day, orbital_period and satellites";

/// What a body file that leaves out a required key is told.
pub const MISSING_KEY: &'static str = "a body file must give id, rotation_period, solar_day and orbital_period, and every parameter needs value, unit, citation and valid_years (Rule C)";

/// What a body file that is not HJSON at all is told.
pub const NOT_HJSON: &'static str = "the body file is not well-formed HJSON";

/// The diagnostic for a body file the HJSON reader refused, from the
/// reader's message: an unknown key is `E0012` as the format requires, a
/// missing one `E0060`, and anything else a malformed file, `E0017`.
pub fn parse_error(msg: &str) -> (e: TimeError)
    ensures
        contains_seq(msg@, "unknown field"@) ==> e.code == Code::E0012 && e.context@ == UNKNOWN_KEY@,
        !contains_seq(msg@, "unknown field"@) && contains_seq(msg@, "missing field"@) ==> e.code == Code::E0060
            && e.context@ == MISSING_KEY@,
        !contains_seq(msg@, "unknown field"@) && !contains_seq(msg@, "missing field"@) ==> e.code
            == Code::E0017 && e.context@ == NOT_HJSON@,
{
    if contains_str(msg, "unknown field") {
        TimeError::with_context(Code::E0012, UNKNOWN_KEY)
    } else if contains_str(msg, "missing field") {
        TimeError::with_context(Code::E0060, MISSING_KEY)
    } else {
        TimeError::with_context(Code::E0017, NOT_HJSON)
    }
}

} // verus!
