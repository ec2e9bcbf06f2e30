//! Writing a body's parameters back out the way a body file carries them.
//!
//! A published figure is written verbatim, from its mantissa and decimal
//! count, so a trailing zero that was published survives; a unit is written
//! as the key the loader accepts; a citation is collapsed onto one line.
use vstd::prelude::*;

use crate::body_file::{
    all_ascii_digits, decimal_ok, first_dot, frac_part, unit_spelling, whole_part, trimmed,
    MeasuredUnit,
};
use crate::error::{Code, TimeError};
use crate::text::{
    char_is_whitespace, chars_of, contains_seq, contains_str, decimal, push_decimal, digits_value, is_digit, lemma_decimal_value,
    lemma_leading_zeros, push_char, push_decimal_u128, push_str, whitespace,
};
use crate::ticks::Ticks;
use vstd::arithmetic::div_mod::lemma_fundamental_div_mod_converse;

verus! {

broadcast use vstd::string::group_string_axioms;

/// `n` zeros.
pub open spec fn zeros(n: nat) -> Seq<char> {
    Seq::new(n, |_i: int| '0')
}

/// The published figure with mantissa `m` and `d` decimals, verbatim.
pub open spec fn verbatim_text(m: nat, d: nat) -> Seq<char> {
    let digits = decimal(m);
    if d == 0 {
        digits
    } else if digits.len() <= d {
        "0."@ + zeros((d - digits.len()) as nat) + digits
    } else {
        digits.take(digits.len() - d) + "."@ + digits.skip(digits.len() - d)
    }
}

/// The published figure, exactly as a file must carry it: the mantissa's
/// digits with the decimal point `decimals` places from the right, a leading
/// `0.` and zeros where the mantissa is shorter than that.
pub fn verbatim(mantissa: u128, decimals: u32) -> (s: String)
    ensures
        s@ == verbatim_text(mantissa as nat, decimals as nat),
{
    let mut digits = String::new();
    push_decimal_u128(&mut digits, mantissa);
    assert(digits@ =~= decimal(mantissa as nat));
    let d = decimals as usize;
    if d == 0 {
        return digits;
    }
    let cs = chars_of(digits.as_str());
    let mut out = String::new();
    proof {
        reveal_strlit("0.");
        reveal_strlit(".");
    }
    if cs.len() <= d {
        push_str(&mut out, "0.");
        let mut i = cs.len();
        while i < d
            invariant
                cs.len() <= i <= d,
                out@ == "0."@ + zeros((i - cs.len()) as nat),
            decreases d - i,
        {
            push_char(&mut out, '0');
            i = i + 1;
            assert(out@ =~= "0."@ + zeros((i - cs.len()) as nat));
        }
        push_str(&mut out, digits.as_str());
    } else {
        let cut = cs.len() - d;
        let mut i: usize = 0;
        while i < cut
            invariant
                i <= cut < cs.len(),
                out@ == cs@.take(i as int),
            decreases cut - i,
        {
            push_char(&mut out, cs[i]);
            i = i + 1;
            assert(out@ =~= cs@.take(i as int));
        }
        push_char(&mut out, '.');
        let ghost head = out@;
        while i < cs.len()
            invariant
                cut <= i <= cs.len(),
                out@ == head + cs@.subrange(cut as int, i as int),
            decreases cs.len() - i,
        {
            push_char(&mut out, cs[i]);
            i = i + 1;
            assert(out@ =~= head + cs@.subrange(cut as int, i as int));
        }
        assert(cs@.subrange(cut as int, cs.len() as int) =~= cs@.skip(cut as int));
    }
    assert(out@ =~= verbatim_text(mantissa as nat, decimals as nat));
    out
}

/// The key a file uses for a unit: the loader's, not a reader's rendering.
pub fn unit_key(u: MeasuredUnit) -> (s: &'static str)
    ensures
        s@ == unit_spelling(u),
{
    match u {
        MeasuredUnit::SiSecond => "s",
        MeasuredUnit::SiMinute => "min",
        MeasuredUnit::Hour => "h",
        MeasuredUnit::SiDay => "d",
        MeasuredUnit::JulianYear => "yr",
    }
}

/// **A unit's key reads back as that unit.** No two units share a key, so
/// what [`unit_key`] writes, [`crate::body_file::unit_of`] reads as the same
/// unit.
pub proof fn lemma_unit_key_round_trip(u: MeasuredUnit, v: MeasuredUnit)
    requires
        unit_spelling(u) == unit_spelling(v),
    ensures
        u == v,
{
    reveal_strlit("s");
    reveal_strlit("min");
    reveal_strlit("h");
    reveal_strlit("d");
    reveal_strlit("yr");
    assert("min"@.len() == 3);
    assert("yr"@.len() == 2);
    assert("s"@.len() == 1 && "h"@.len() == 1 && "d"@.len() == 1);
    assert("s"@[0] != "h"@[0] && "s"@[0] != "d"@[0] && "h"@[0] != "d"@[0]);
}

/// **A figure written verbatim reads back as the same figure.** Splitting what
/// [`verbatim`] writes, as [`crate::body_file::mantissa_of`] does, gives the
/// mantissa and the decimal count that went in: the same digits, and the
/// same number of them after the point, trailing zeros included. (The file's
/// value is trimmed of whitespace first, which touches neither a digit nor a
/// point.)
pub proof fn lemma_verbatim_round_trip(m: u128, d: u32)
    ensures
        decimal_ok(verbatim_text(m as nat, d as nat)),
        whole_part(trimmed(verbatim_text(m as nat, d as nat))) + frac_part(
            trimmed(verbatim_text(m as nat, d as nat)),
        ) =~= zeros((if decimal(m as nat).len() <= d && d > 0 {
            (d + 1 - decimal(m as nat).len()) as nat
        } else {
            0
        })) + decimal(m as nat),
        digits_value(
            whole_part(trimmed(verbatim_text(m as nat, d as nat))) + frac_part(
                trimmed(verbatim_text(m as nat, d as nat)),
            ),
        ) == m,
        frac_part(trimmed(verbatim_text(m as nat, d as nat))).len() == d,
{
    reveal_strlit("0.");
    reveal_strlit(".");
    lemma_decimal_value(m as nat);
    let digits = decimal(m as nat);
    let t = verbatim_text(m as nat, d as nat);
    let n = digits.len();
    // the text has no whitespace at either end
    assert(t.len() > 0);
    assert(is_digit(t[0]) || t[0] == '.');
    assert(is_digit(t.last()) || t.last() == '.');
    assert(trimmed(t) == t);
    if d == 0 {
        lemma_no_dot(digits);
        assert(whole_part(t) =~= digits);
        assert(frac_part(t) =~= Seq::<char>::empty());
        assert(whole_part(t) + frac_part(t) =~= zeros(0) + digits);
    } else if n <= d {
        assert(t[1] == '.');
        assert(t[0] == '0');
        assert(first_dot(t.drop_first()) == 0);
        assert(first_dot(t) == 1);
        let z = zeros((d - n) as nat);
        assert(whole_part(t) =~= seq!['0']);
        assert(frac_part(t) =~= z + digits);
        assert(whole_part(t) + frac_part(t) =~= zeros((d + 1 - n) as nat) + digits);
        lemma_leading_zeros((d + 1 - n) as nat, digits);
        assert forall|i: int| 0 <= i < (z + digits).len() implies #[trigger] is_digit((z + digits)[i]) by {
            if i >= z.len() {
                assert((z + digits)[i] == digits[i - z.len()]);
            }
        }
    } else {
        let head = digits.take(n - d);
        let tail = digits.skip(n - d);
        lemma_no_dot(head);
        lemma_dot_after(head, tail);
        assert(first_dot(t) == n - d);
        assert(whole_part(t) =~= head);
        assert(frac_part(t) =~= tail);
        assert(head + tail =~= digits);
        assert(whole_part(t) + frac_part(t) =~= zeros(0) + digits);
        assert forall|i: int| 0 <= i < head.len() implies #[trigger] is_digit(head[i]) by {
            assert(head[i] == digits[i]);
        }
        assert forall|i: int| 0 <= i < tail.len() implies #[trigger] is_digit(tail[i]) by {
            assert(tail[i] == digits[n - d + i]);
        }
    }
    assert(zeros(0) + digits =~= digits);
}

/// A run of digits has no decimal point.
proof fn lemma_no_dot(s: Seq<char>)
    requires
        all_ascii_digits(s),
    ensures
        first_dot(s) == s.len(),
    decreases s.len(),
{
    if s.len() > 0 {
        assert(all_ascii_digits(s.drop_first())) by {
            assert forall|i: int| 0 <= i < s.drop_first().len() implies #[trigger] is_digit(s.drop_first()[i]) by {
                assert(s.drop_first()[i] == s[i + 1]);
            }
        }
        lemma_no_dot(s.drop_first());
        assert(is_digit(s[0]));
        assert(s[0] != '.');
    }
}

/// The first point in `head + "." + tail`, where `head` has none, is after
/// `head`.
proof fn lemma_dot_after(head: Seq<char>, tail: Seq<char>)
    requires
        first_dot(head) == head.len(),
    ensures
        first_dot(head + "."@ + tail) == head.len(),
    decreases head.len(),
{
    reveal_strlit(".");
    if head.len() == 0 {
        assert((head + "."@ + tail)[0] == '.');
    } else {
        assert((head + "."@ + tail).drop_first() =~= head.drop_first() + "."@ + tail);
        assert(head[0] != '.');
        lemma_dot_after(head.drop_first(), tail);
    }
}

/// The scan that collapses whitespace: the text so far, and whether a
/// separator is owed before the next word.
pub open spec fn collapse_run(s: Seq<char>) -> (Seq<char>, bool)
    decreases s.len(),
{
    if s.len() == 0 {
        (Seq::empty(), false)
    } else {
        let (o, pending) = collapse_run(s.drop_last());
        let c = s.last();
        if whitespace(c) {
            (o, o.len() > 0)
        } else {
            ((if pending { o.push(' ') } else { o }).push(c), false)
        }
    }
}

/// `s`'s words, separated by single spaces.
pub open spec fn collapsed(s: Seq<char>) -> Seq<char> {
    collapse_run(s).0
}

/// A citation on one line: its words separated by single spaces, with no
/// whitespace before the first or after the last.
pub fn one_line(s: &str) -> (out: String)
    ensures
        out@ == collapsed(s@),
{
    let cs = chars_of(s);
    let mut out = String::new();
    let mut pending = false;
    let mut i: usize = 0;
    assert(cs@.take(0) =~= Seq::<char>::empty());
    while i < cs.len()
        invariant
            i <= cs.len(),
            cs@ == s@,
            collapse_run(cs@.take(i as int)) == (out@, pending),
        decreases cs.len() - i,
    {
        assert(cs@.take(i + 1).drop_last() =~= cs@.take(i as int));
        let c = cs[i];
        if char_is_whitespace(c) {
            pending = !out.as_str().is_empty();
        } else {
            if pending {
                push_char(&mut out, ' ');
            }
            push_char(&mut out, c);
            pending = false;
        }
        i = i + 1;
    }
    assert(cs@.take(cs.len() as int) =~= cs@);
    out
}

/// What a collapse keeps: no whitespace but single spaces between words.
pub open spec fn one_line_shape(o: Seq<char>) -> bool {
    &&& forall|i: int| 0 <= i < o.len() ==> (#[trigger] o[i] == ' ' || !whitespace(o[i]))
    &&& o.len() > 0 ==> o[0] != ' ' && o.last() != ' '
    &&& forall|i: int| 0 <= i < o.len() - 1 ==> !(#[trigger] o[i] == ' ' && o[i + 1] == ' ')
}

proof fn lemma_collapse_shape(s: Seq<char>)
    requires
        whitespace(' '),
    ensures
        one_line_shape(collapse_run(s).0),
        collapse_run(s).1 ==> collapse_run(s).0.len() > 0,
    decreases s.len(),
{
    if s.len() > 0 {
        lemma_collapse_shape(s.drop_last());
        let (o, pending) = collapse_run(s.drop_last());
        let c = s.last();
        if !whitespace(c) {
            let o2 = if pending { o.push(' ') } else { o };
            let o3 = o2.push(c);
            assert(c != ' ');
            assert forall|i: int| 0 <= i < o3.len() implies (#[trigger] o3[i] == ' ' || !whitespace(o3[i])) by {
                if i < o.len() {
                    assert(o3[i] == o[i]);
                }
            }
            assert forall|i: int| 0 <= i < o3.len() - 1 implies !(#[trigger] o3[i] == ' ' && o3[i + 1] == ' ') by {
                if i + 1 < o.len() {
                    assert(o3[i] == o[i] && o3[i + 1] == o[i + 1]);
                } else if i + 1 == o.len() {
                    assert(o3[i] == o[i]);
                }
            }
            if o3.len() > 0 {
                if o.len() > 0 {
                    assert(o3[0] == o[0]);
                }
            }
        }
    }
}

/// **A citation collapses onto one line.** With no newline and no other
/// whitespace left in it but single spaces between words, and none at either
/// end, the result is one line of words.
pub proof fn lemma_one_line_is_one_line(s: Seq<char>)
    ensures
        one_line_shape(collapsed(s)),
        !collapsed(s).contains('\n'),
{
    lemma_collapse_shape(s);
    let o = collapsed(s);
    if o.contains('\n') {
        let i = choose|i: int| 0 <= i < o.len() && o[i] == '\n';
        assert(o[i] == ' ' || !whitespace(o[i]));
    }
}


// ---------------------------------------------------------------------------
// validity windows
// ---------------------------------------------------------------------------

/// Ticks in a Julian year: 31 557 600 bridge seconds of
/// `18548584399861 × 10³⁰` ticks each.
pub open spec fn julian_year_ticks() -> nat {
    18548584399861 * 1000000000000000000000000000000nat * 31557600
}

/// Four divisions by `10¹⁵`, `10¹⁵`, `18548584399861` and `31557600` are
/// one division by a Julian year, and leave nothing over exactly when none
/// of them does.
proof fn lemma_year_division(h: int, q1: int, q2: int, q3: int, q4: int, r1: int, r2: int, r3: int, r4: int)
    requires
        h == q1 * 1000000000000000 + r1,
        q1 == q2 * 1000000000000000 + r2,
        q2 == q3 * 18548584399861 + r3,
        q3 == q4 * 31557600 + r4,
        0 <= r1 < 1000000000000000,
        0 <= r2 < 1000000000000000,
        0 <= r3 < 18548584399861,
        0 <= r4 < 31557600,
        q4 >= 0,
    ensures
        q4 == h / julian_year_ticks() as int,
        (h % julian_year_ticks() as int == 0) == (r1 == 0 && r2 == 0 && r3 == 0 && r4 == 0),
{
    let rem = r4 * 18548584399861000000000000000000000000000000int + r3 * 1000000000000000000000000000000int + r2 * 1000000000000000int + r1;
    assert(h == q4 * 585348807057053493600000000000000000000000000000000int + rem);
    assert(0 <= rem < 585348807057053493600000000000000000000000000000000int);
    assert(julian_year_ticks() == 585348807057053493600000000000000000000000000000000nat);
    lemma_fundamental_div_mod_converse(h, 585348807057053493600000000000000000000000000000000int, q4, rem);
}

/// A parameter's validity window, in whole Julian years either side of its
/// epoch: half its width, which must be a whole number of years.
pub open spec fn window_years(width: nat) -> nat {
    (width / 2) / julian_year_ticks()
}

/// Whether a window's half-width is a whole number of Julian years.
pub open spec fn window_whole(width: nat) -> bool {
    (width / 2) % julian_year_ticks() == 0
}

/// Why a window that is not a whole number of years cannot be written.
pub const NOT_WHOLE_YEARS: &'static str = "this parameter's validity window is not a whole number of Julian years, and §15.1's `valid_years` cannot express it. Rounding it would narrow or widen a window by assumption";

/// The half-width of a validity window of `width` ticks, in whole Julian
/// years: the loader's `± valid_years` about J2000 read backwards. A window
/// that is not a whole number of years is `E0043`, never rounded; a count of
/// years past 64 bits is `E0021`.
pub fn valid_years(width: &Ticks) -> (r: Result<u64, TimeError>)
    ensures
        !window_whole(width@) ==> (r matches Err(e) && e.code == Code::E0043 && e.context@ == NOT_WHOLE_YEARS@),
        window_whole(width@) && window_years(width@) > u64::MAX ==> (r matches Err(e) && e.code == Code::E0021
            && e.context@.len() == 0),
        window_whole(width@) && window_years(width@) <= u64::MAX ==> r == Ok::<u64, TimeError>(
            window_years(width@) as u64,
        ),
{
    let (h, _) = width.div_rem_small(2);
    let (q1, r1) = h.div_rem_small(1000000000000000);
    let (q2, r2) = q1.div_rem_small(1000000000000000);
    let (q3, r3) = q2.div_rem_small(18548584399861);
    let (q4, r4) = q3.div_rem_small(31557600);
    proof {
        lemma_fundamental_div_mod_converse(width@ as int, 2, h@ as int, width@ as int - h@ as int * 2);
        lemma_year_division(
            h@ as int, q1@ as int, q2@ as int, q3@ as int, q4@ as int, r1 as int, r2 as int, r3 as int, r4 as int,
        );
    }
    if r1 != 0 || r2 != 0 || r3 != 0 || r4 != 0 {
        return Err(TimeError::with_context(Code::E0043, NOT_WHOLE_YEARS));
    }
    match q4.to_u128() {
        Some(n) => if n <= u64::MAX as u128 {
            Ok(n as u64)
        } else {
            Err(TimeError::new(Code::E0021))
        },
        None => Err(TimeError::new(Code::E0021)),
    }
}


// ---------------------------------------------------------------------------
// parameter blocks
// ---------------------------------------------------------------------------

/// How a parameter came to be.
#[derive(Clone, PartialEq, Eq, Debug)]
pub enum Provenance {
    /// A published figure: its digits, its decimal count and its unit.
    Measured {
        /// The figure's digits, as one integer.
        mantissa: u128,
        /// How many of them follow the decimal point.
        decimals: u32,
        /// The unit it is stated in.
        unit: MeasuredUnit,
    },
    /// Computed exactly from the other parameters, by the relation written out.
    Derived {
        /// The relation, as a reader sees it.
        relation: String,
    },
}

/// A parameter as a body holds it.
#[derive(Clone, PartialEq, Eq, Debug)]
pub struct RatedParam {
    /// Where its value comes from.
    pub provenance: Provenance,
    /// The full source reference.
    pub source: String,
    /// DOI, bibcode or URL, where one exists.
    pub locator: Option<String>,
    /// The width of its validity window, in ticks.
    pub window: Ticks,
}

/// Why a relation the format has no key for cannot be written.
pub const NO_RELATION_KEY: &'static str = "this parameter is derived by a relation §15.1 has no key for, so the file cannot express it. The format names `synodic` and nothing else, deliberately";

/// Why a parameter cannot be written, if it cannot: its window first, then
/// its relation.
pub open spec fn param_failure(p: RatedParam) -> Option<Code> {
    if !window_whole(p.window@) {
        Some(Code::E0043)
    } else if window_years(p.window@) > u64::MAX {
        Some(Code::E0021)
    } else if p.provenance matches Provenance::Derived { relation } && !contains_seq(relation@, "1/P_rotation"@) {
        Some(Code::E0018)
    } else {
        None
    }
}

/// One parameter as an HJSON block: its value and unit or its relation's
/// key, its citation on one line, its locator, and its window in years.
pub open spec fn param_text(name: Seq<char>, p: RatedParam) -> Seq<char> {
    name + ": {\n"@ + match p.provenance {
        Provenance::Measured { mantissa, decimals, unit } => "  value: "@ + verbatim_text(mantissa as nat, decimals as nat)
            + "\n"@ + "  unit: "@ + unit_spelling(unit) + "\n"@,
        Provenance::Derived { .. } => "  derived: synodic\n"@,
    } + "  citation: "@ + collapsed(p.source@) + "\n"@ + match p.locator {
        Some(l) => "  locator: "@ + l@ + "\n"@,
        None => Seq::<char>::empty(),
    } + "  valid_years: "@ + decimal(window_years(p.window@)) + "\n"@ + "}\n"@
}

/// One parameter, as an HJSON block. The relation of a derived parameter is
/// written as its key, `synodic`, which is what the loader accepts.
#[verifier::spinoff_prover]
#[verifier::rlimit(40)]
pub fn param_block(name: &str, p: &RatedParam) -> (r: Result<String, TimeError>)
    ensures
        r is Ok <==> param_failure(*p) is None,
        r matches Err(e) ==> param_failure(*p) == Some(e.code),
        r matches Ok(s) ==> s@ == param_text(name@, *p),
{
    let years = match valid_years(&p.window) {
        Ok(y) => y,
        Err(e) => {
            return Err(e);
        },
    };
    let mut out = String::new();
    push_str(&mut out, name);
    push_str(&mut out, ": {\n");
    match &p.provenance {
        Provenance::Measured { mantissa, decimals, unit } => {
            push_str(&mut out, "  value: ");
            let v = verbatim(*mantissa, *decimals);
            push_str(&mut out, v.as_str());
            push_str(&mut out, "\n");
            push_str(&mut out, "  unit: ");
            push_str(&mut out, unit_key(*unit));
            push_str(&mut out, "\n");
        },
        Provenance::Derived { relation } => {
            if !contains_str(relation.as_str(), "1/P_rotation") {
                return Err(TimeError::with_context(Code::E0018, NO_RELATION_KEY));
            }
            push_str(&mut out, "  derived: synodic\n");
        },
    }
    push_str(&mut out, "  citation: ");
    let c = one_line(p.source.as_str());
    push_str(&mut out, c.as_str());
    push_str(&mut out, "\n");
    if let Some(l) = &p.locator {
        push_str(&mut out, "  locator: ");
        push_str(&mut out, l.as_str());
        push_str(&mut out, "\n");
    }
    push_str(&mut out, "  valid_years: ");
    push_decimal(&mut out, years);
    push_str(&mut out, "\n");
    push_str(&mut out, "}\n");
    assert(out@ =~= param_text(name@, *p));
    Ok(out)
}

// ---------------------------------------------------------------------------
// nesting
// ---------------------------------------------------------------------------

/// A line without the carriage return that ended it.
pub open spec fn strip_cr(l: Seq<char>) -> Seq<char> {
    if l.len() > 0 && l.last() == '\r' {
        l.drop_last()
    } else {
        l
    }
}

/// The lines of `s` as `str::lines` reads them — split at `\n`, a `\r`
/// before it dropped — each written back indented by four spaces: the text
/// written so far, and the line still being read.
pub open spec fn indent_run(s: Seq<char>) -> (Seq<char>, Seq<char>)
    decreases s.len(),
{
    if s.len() == 0 {
        (Seq::empty(), Seq::empty())
    } else {
        let (o, cur) = indent_run(s.drop_last());
        if s.last() == '\n' {
            (o + "    "@ + strip_cr(cur) + "\n"@, Seq::empty())
        } else {
            (o, cur.push(s.last()))
        }
    }
}

/// Every line of `s` indented by four spaces, each ending in a newline.
pub open spec fn indented(s: Seq<char>) -> Seq<char> {
    let (o, cur) = indent_run(s);
    if cur.len() > 0 {
        o + "    "@ + cur + "\n"@
    } else {
        o
    }
}

/// Every line of `s` indented by four spaces.
pub fn indent_lines(s: &str) -> (out: String)
    ensures
        out@ == indented(s@),
{
    let cs = chars_of(s);
    let mut out = String::new();
    let mut cur: Vec<char> = Vec::new();
    let mut i: usize = 0;
    assert(cs@.take(0) =~= Seq::<char>::empty());
    while i < cs.len()
        invariant
            i <= cs.len(),
            cs@ == s@,
            indent_run(cs@.take(i as int)) == (out@, cur@),
        decreases cs.len() - i,
    {
        assert(cs@.take(i + 1).drop_last() =~= cs@.take(i as int));
        let c = cs[i];
        if c == '\n' {
            push_str(&mut out, "    ");
            let n = cur.len();
            if n > 0 && cur[n - 1] == '\r' {
                cur.pop();
            }
            let line = crate::text::string_of(&cur);
            push_str(&mut out, line.as_str());
            push_str(&mut out, "\n");
            cur = Vec::new();
        } else {
            cur.push(c);
        }
        i = i + 1;
    }
    assert(cs@.take(cs.len() as int) =~= cs@);
    if cur.len() > 0 {
        push_str(&mut out, "    ");
        let line = crate::text::string_of(&cur);
        push_str(&mut out, line.as_str());
        push_str(&mut out, "\n");
    }
    out
}


// ---------------------------------------------------------------------------
// body files
// ---------------------------------------------------------------------------

/// A satellite, for the grouping cycle a calendar may name.
#[derive(Clone, PartialEq, Eq, Debug)]
pub struct Satellite {
    /// Its id, e.g. `phobos`.
    pub id: String,
    /// Its orbital period.
    pub orbital_period: RatedParam,
    /// Whether it orbits against its primary's rotation.
    pub retrograde: bool,
}

/// A body, as a body file declares it.
#[derive(Clone, PartialEq, Eq, Debug)]
pub struct Body {
    /// Stable id, e.g. `europa`.
    pub id: String,
    /// What it orbits, if anything.
    pub primary: Option<String>,
    /// Sidereal rotation.
    pub rotation_period: RatedParam,
    /// The day the Sun makes.
    pub solar_day: RatedParam,
    /// The orbit the year is measured against.
    pub orbital_period: RatedParam,
    /// Its satellites, in order.
    pub satellites: Vec<Satellite>,
}

/// A satellite block: its id, its orbital period nested beneath it, and
/// whether it is retrograde.
pub open spec fn satellite_text(s: Satellite) -> Seq<char> {
    "  {\n    id: "@ + s.id@ + "\n"@ + indented(param_text("orbital_period"@, s.orbital_period)) + (if s.retrograde {
        "    retrograde: true\n"@
    } else {
        Seq::<char>::empty()
    }) + "  }\n"@
}

/// Whether `s` ends with `t`.
pub open spec fn ends_with(s: Seq<char>, t: Seq<char>) -> bool {
    s.len() >= t.len() && s.subrange(s.len() - t.len(), s.len() as int) == t
}

/// Indenting text whose last line is a closing brace ends the same way.
proof fn lemma_indented_ends_in_brace(x: Seq<char>)
    ensures
        ends_with(indented(x + "}\n"@), "}\n"@),
{
    reveal_strlit("}\n");
    reveal_strlit("    ");
    reveal_strlit("\n");
    let a = x + "}\n"@;
    let b = x + seq!['}'];
    assert(a.drop_last() =~= b);
    assert(b.drop_last() =~= x);
    assert(a.last() == '\n');
    assert(b.last() == '}');
    let (o, cur) = indent_run(x);
    assert(indent_run(b) == (o, cur.push('}')));
    assert(strip_cr(cur.push('}')) == cur.push('}'));
    let out = o + "    "@ + cur.push('}') + "\n"@;
    assert(indent_run(a) == (out, Seq::<char>::empty()));
    assert(indented(a) == out);
    assert(out.subrange(out.len() - 2, out.len() as int) =~= "}\n"@);
}

/// **A block says `retrograde: true` exactly when the satellite is
/// retrograde.** Read from its end, a satellite's block closes with the line
/// `retrograde: true` just before its closing brace when the satellite orbits
/// against its primary's rotation, and otherwise closes straight after its
/// orbital period, with no retrograde line: the flag reads back as it was.
pub proof fn lemma_retrograde_reads_back(s: Satellite)
    ensures
        ends_with(satellite_text(s), "    retrograde: true\n  }\n"@) <==> s.retrograde,
{
    reveal_strlit("    retrograde: true\n  }\n");
    reveal_strlit("    retrograde: true\n");
    reveal_strlit("  }\n");
    reveal_strlit("}\n");
    let t = satellite_text(s);
    let tail = "    retrograde: true\n  }\n"@;
    let head = "  {\n    id: "@ + s.id@ + "\n"@;
    let pt = param_text("orbital_period"@, s.orbital_period);
    let x = pt.subrange(0, pt.len() - 2);
    assert(pt.len() >= 2);
    assert(pt =~= x + "}\n"@);
    lemma_indented_ends_in_brace(x);
    let ind = indented(pt);
    if s.retrograde {
        assert(t =~= head + ind + "    retrograde: true\n"@ + "  }\n"@);
        assert(t.subrange(t.len() - tail.len(), t.len() as int) =~= tail);
    } else {
        assert(t =~= head + ind + "  }\n"@);
        assert(t[t.len() - 6] == ind[ind.len() - 2]);
        assert(ind.subrange(ind.len() - 2, ind.len() as int)[0] == "}\n"@[0]);
        assert(ind[ind.len() - 2] == '}');
        assert(tail[tail.len() - 6] == 'e');
        if ends_with(t, tail) {
            assert(t.subrange(t.len() - tail.len(), t.len() as int)[tail.len() - 6] == t[t.len() - 6]);
        }
    }
}

/// A satellite block.
pub fn satellite_block(s: &Satellite) -> (r: Result<String, TimeError>)
    ensures
        r is Ok <==> param_failure(s.orbital_period) is None,
        r matches Err(e) ==> param_failure(s.orbital_period) == Some(e.code),
        r matches Ok(t) ==> t@ == satellite_text(*s),
{
    let inner = match param_block("orbital_period", &s.orbital_period) {
        Ok(t) => t,
        Err(e) => {
            return Err(e);
        },
    };
    let mut out = String::new();
    push_str(&mut out, "  {\n    id: ");
    push_str(&mut out, s.id.as_str());
    push_str(&mut out, "\n");
    let nested = indent_lines(inner.as_str());
    push_str(&mut out, nested.as_str());
    if s.retrograde {
        push_str(&mut out, "    retrograde: true\n");
    }
    push_str(&mut out, "  }\n");
    assert(out@ =~= satellite_text(*s));
    Ok(out)
}

/// Every parameter a body file writes, in the order it writes them.
pub open spec fn params_of(b: Body) -> Seq<RatedParam> {
    seq![b.rotation_period, b.solar_day, b.orbital_period] + b.satellites@.map_values(
        |s: Satellite| s.orbital_period,
    )
}

/// Why the first of `ps` that cannot be written cannot, if one cannot.
pub open spec fn first_failure(ps: Seq<RatedParam>) -> Option<Code>
    decreases ps.len(),
{
    if ps.len() == 0 {
        None
    } else if param_failure(ps[0]) is Some {
        param_failure(ps[0])
    } else {
        first_failure(ps.drop_first())
    }
}

/// The comment a body file opens with.
pub open spec fn body_header(id: Seq<char>) -> Seq<char> {
    "# "@ + id + " — a §15.1 body file, written by `ucal cal export "@ + id
        + "`.\n#\n# Every figure here is the published one, verbatim, with the citation it\n# came from (Rule C). A parameter shown as `derived:` is computed exactly\n# from the others: writing its result down would be writing down a\n# rounding, and a rounded parameter is a different calendar.\n#\n# `ucal cal validate <this file>` checks it; `ucal cal derive <this file>`\n# derives the same calendar the compiled-in body does.\n\n"@
}

/// The satellite blocks of the first `n` satellites.
pub open spec fn satellites_text(sats: Seq<Satellite>, n: int) -> Seq<char>
    decreases n,
{
    if n <= 0 {
        Seq::empty()
    } else {
        satellites_text(sats, n - 1) + satellite_text(sats[n - 1])
    }
}

/// What a body file says after its parameters: its satellites, and — always,
/// when there are any — which of them groups the calendar's cycle.
pub open spec fn satellites_part(sats: Seq<Satellite>, grouping: Option<Seq<char>>) -> Seq<char> {
    if sats.len() == 0 {
        Seq::empty()
    } else {
        "satellites: [\n"@ + satellites_text(sats, sats.len() as int) + "]\n"@
            + "# Which satellite groups this calendar's cycle (D-A5).\n"@
            + "# Omitting this key means the first listed, which is line\n"@ + "# order deciding a calendar.\n"@
            + "grouping_satellite: "@ + match grouping {
            Some(g) => g,
            None => "none"@,
        } + "\n"@
    }
}

/// A body as the body file that declares it.
pub open spec fn body_text(b: Body, grouping: Option<Seq<char>>) -> Seq<char> {
    body_header(b.id@) + "id: "@ + b.id@ + "\n"@ + match b.primary {
        Some(p) => "primary: "@ + p@ + "\n"@,
        None => Seq::<char>::empty(),
    } + param_text("rotation_period"@, b.rotation_period) + param_text("solar_day"@, b.solar_day) + param_text(
        "orbital_period"@,
        b.orbital_period,
    ) + satellites_part(b.satellites@, grouping)
}

proof fn lemma_first_failure_append(ps: Seq<RatedParam>, p: RatedParam)
    requires
        first_failure(ps) is None,
    ensures
        first_failure(ps.push(p)) == param_failure(p),
    decreases ps.len(),
{
    if ps.len() > 0 {
        assert(ps.push(p)[0] == ps[0]);
        assert(ps.push(p).drop_first() =~= ps.drop_first().push(p));
        lemma_first_failure_append(ps.drop_first(), p);
    } else {
        assert(ps.push(p)[0] == p);
        assert(ps.push(p).drop_first() =~= Seq::<RatedParam>::empty());
        assert(first_failure(Seq::<RatedParam>::empty()) is None);
    }
}

proof fn lemma_first_failure_prefix(ps: Seq<RatedParam>, qs: Seq<RatedParam>)
    requires
        first_failure(ps) is Some,
    ensures
        first_failure(ps + qs) == first_failure(ps),
    decreases ps.len(),
{
    assert((ps + qs)[0] == ps[0]);
    if param_failure(ps[0]) is None {
        assert((ps + qs).drop_first() =~= ps.drop_first() + qs);
        lemma_first_failure_prefix(ps.drop_first(), qs);
    }
}

/// Writing the `k`th parameter after `k` that could be written.
proof fn lemma_failure_at(ps: Seq<RatedParam>, k: int)
    requires
        0 <= k < ps.len(),
        first_failure(ps.take(k)) is None,
    ensures
        first_failure(ps.take(k + 1)) == param_failure(ps[k]),
        param_failure(ps[k]) is Some ==> first_failure(ps) == param_failure(ps[k]),
{
    assert(ps.take(k + 1) =~= ps.take(k).push(ps[k]));
    lemma_first_failure_append(ps.take(k), ps[k]);
    if param_failure(ps[k]) is Some {
        assert(ps.take(k + 1) + ps.skip(k + 1) =~= ps);
        lemma_first_failure_prefix(ps.take(k + 1), ps.skip(k + 1));
    }
}

proof fn lemma_no_failure_at_start(ps: Seq<RatedParam>)
    ensures
        first_failure(ps.take(0)) is None,
{
    assert(ps.take(0) =~= Seq::<RatedParam>::empty());
}

/// The opening of a body file: its comment, id, primary and three
/// parameters.
pub open spec fn head_text(b: Body) -> Seq<char> {
    body_header(b.id@) + "id: "@ + b.id@ + "\n"@ + match b.primary {
        Some(p) => "primary: "@ + p@ + "\n"@,
        None => Seq::<char>::empty(),
    } + param_text("rotation_period"@, b.rotation_period) + param_text("solar_day"@, b.solar_day) + param_text(
        "orbital_period"@,
        b.orbital_period,
    )
}

fn write_head(body: &Body) -> (r: Result<String, TimeError>)
    ensures
        r matches Ok(t) ==> t@ == head_text(*body) && first_failure(params_of(*body).take(3)) is None,
        r matches Err(e) ==> first_failure(params_of(*body)) == Some(e.code),
{
    let ghost ps = params_of(*body);
    proof {
        lemma_no_failure_at_start(ps);
    }
    let mut out = String::new();
    push_str(&mut out, "# ");
    push_str(&mut out, body.id.as_str());
    push_str(&mut out, " — a §15.1 body file, written by `ucal cal export ");
    push_str(&mut out, body.id.as_str());
    push_str(
        &mut out,
        "`.\n#\n# Every figure here is the published one, verbatim, with the citation it\n# came from (Rule C). A parameter shown as `derived:` is computed exactly\n# from the others: writing its result down would be writing down a\n# rounding, and a rounded parameter is a different calendar.\n#\n# `ucal cal validate <this file>` checks it; `ucal cal derive <this file>`\n# derives the same calendar the compiled-in body does.\n\n",
    );
    push_str(&mut out, "id: ");
    push_str(&mut out, body.id.as_str());
    push_str(&mut out, "\n");
    if let Some(p) = &body.primary {
        push_str(&mut out, "primary: ");
        push_str(&mut out, p.as_str());
        push_str(&mut out, "\n");
    }
    let ghost start = out@;
    assert(ps[0] == body.rotation_period && ps[1] == body.solar_day && ps[2] == body.orbital_period);
    let a = param_block("rotation_period", &body.rotation_period);
    proof {
        lemma_failure_at(ps, 0);
    }
    let a = match a {
        Ok(t) => t,
        Err(e) => {
            return Err(e);
        },
    };
    let b = param_block("solar_day", &body.solar_day);
    proof {
        lemma_failure_at(ps, 1);
    }
    let b = match b {
        Ok(t) => t,
        Err(e) => {
            return Err(e);
        },
    };
    let c = param_block("orbital_period", &body.orbital_period);
    proof {
        lemma_failure_at(ps, 2);
    }
    let c = match c {
        Ok(t) => t,
        Err(e) => {
            return Err(e);
        },
    };
    push_str(&mut out, a.as_str());
    push_str(&mut out, b.as_str());
    push_str(&mut out, c.as_str());
    assert(out@ =~= head_text(*body));
    Ok(out)
}

fn write_satellites(body: &Body, grouping: Option<&str>) -> (r: Result<String, TimeError>)
    requires
        first_failure(params_of(*body).take(3)) is None,
    ensures
        r is Ok ==> first_failure(params_of(*body)) is None,
        r matches Ok(t) ==> t@ == satellites_part(
            body.satellites@,
            match grouping {
                Some(g) => Some(g@),
                None => None,
            },
        ),
        r matches Err(e) ==> first_failure(params_of(*body)) == Some(e.code),
{
    let ghost ps = params_of(*body);
    let sats = &body.satellites;
    let mut out = String::new();
    if sats.len() == 0 {
        assert(ps.take(3) =~= ps);
        return Ok(out);
    }
    push_str(&mut out, "satellites: [\n");
    let ghost mid = out@;
    let mut i: usize = 0;
    while i < sats.len()
        invariant
            i <= sats@.len(),
            sats@ == body.satellites@,
            ps == params_of(*body),
            ps.len() == 3 + sats@.len(),
            out@ == mid + satellites_text(sats@, i as int),
            first_failure(ps.take(3 + i)) is None,
        decreases sats@.len() - i,
    {
        assert(ps[3 + i as int] == sats@[i as int].orbital_period);
        let blk = satellite_block(&sats[i]);
        proof {
            lemma_failure_at(ps, 3 + i as int);
        }
        let blk = match blk {
            Ok(t) => t,
            Err(e) => {
                return Err(e);
            },
        };
        push_str(&mut out, blk.as_str());
        i = i + 1;
    }
    assert(ps.take(3 + sats@.len() as int) =~= ps);
    push_str(&mut out, "]\n");
    push_str(&mut out, "# Which satellite groups this calendar's cycle (D-A5).\n");
    push_str(&mut out, "# Omitting this key means the first listed, which is line\n");
    push_str(&mut out, "# order deciding a calendar.\n");
    push_str(&mut out, "grouping_satellite: ");
    match grouping {
        Some(gs) => push_str(&mut out, gs),
        None => push_str(&mut out, "none"),
    }
    push_str(&mut out, "\n");
    assert(out@ =~= satellites_part(
        body.satellites@,
        match grouping {
            Some(g) => Some(g@),
            None => None,
        },
    ));
    Ok(out)
}

/// Write a body as the body file that declares it.
///
/// `grouping` is the calendar's cycle declaration, which is not part of the
/// body; it is written whenever there are satellites, as `none` when the
/// calendar groups by none of them. Every parameter is written in order, and
/// the first that cannot be is the error.
pub fn body_file(body: &Body, grouping: Option<&str>) -> (r: Result<String, TimeError>)
    ensures
        r is Ok <==> first_failure(params_of(*body)) is None,
        r matches Err(e) ==> first_failure(params_of(*body)) == Some(e.code),
        r matches Ok(t) ==> t@ == body_text(
            *body,
            match grouping {
                Some(g) => Some(g@),
                None => None,
            },
        ),
{
    let mut out = match write_head(body) {
        Ok(t) => t,
        Err(e) => {
            return Err(e);
        },
    };
    let tail = match write_satellites(body, grouping) {
        Ok(t) => t,
        Err(e) => {
            return Err(e);
        },
    };
    push_str(&mut out, tail.as_str());
    Ok(out)
}

} // verus!
