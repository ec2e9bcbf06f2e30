//! What kind of number a printed number is.
//!
//! Every quantity this program prints is exact, one bound of a certified
//! enclosure, or a declared rounding. A [`Certification`] says which. Exactness
//! is the expectation, so only the exceptions are reported, each with the mode
//! and the digit count that produced it.
use vstd::prelude::*;

use crate::error::{Code, TimeError};
use crate::text::{decimal, push_decimal, push_str, str_eq};

verus! {

broadcast use vstd::string::group_string_axioms;

/// A rounding mode, as the `--round` flag names them. The mode is a choice,
/// so it is always stated.
#[derive(Clone, Copy, PartialEq, Eq, Structural, PartialOrd, Ord, Hash, Debug)]
pub enum Rounding {
    /// Towards zero.
    Trunc,
    /// Towards positive infinity.
    Ceil,
    /// To nearest, ties to even.
    HalfEven,
    /// To nearest, ties away from zero.
    HalfUp,
}

/// What kind of number a rendered value is.
#[derive(Clone, Copy, PartialEq, Eq, Structural, PartialOrd, Ord, Hash, Debug)]
#[non_exhaustive]
pub enum Certification {
    /// The printed digits are the value: the expansion terminated.
    Exact,
    /// The printed digits are a rounding of something longer.
    Rounded {
        /// The mode applied.
        mode: Rounding,
        /// How many fractional digits were kept.
        digits: u32,
    },
    /// One bound of a certified pair: the value lies between this and its
    /// partner.
    Enclosure,
}

/// The spelling of a mode on the `--round` flag.
pub open spec fn mode_spelling(m: Rounding) -> Seq<char> {
    match m {
        Rounding::Trunc => "trunc"@,
        Rounding::Ceil => "ceil"@,
        Rounding::HalfEven => "half-even"@,
        Rounding::HalfUp => "half-up"@,
    }
}

/// How a certification reads in a report.
pub open spec fn cert_text(c: Certification) -> Seq<char> {
    match c {
        Certification::Exact => "exact"@,
        Certification::Rounded { mode, digits } => "rounded, "@ + mode_spelling(mode) + ", "@
            + decimal(digits as nat) + " digits"@,
        Certification::Enclosure => "enclosure"@,
    }
}

impl Certification {
    /// Whether this needs no reporting: exact is the expectation.
    pub fn is_exact(self) -> (b: bool)
        ensures
            b <==> self is Exact,
    {
        match self {
            Certification::Exact => true,
            _ => false,
        }
    }

    /// The certification of a ratio rendered to `digits` under `mode`, given
    /// whether its expansion terminates within those digits: `Exact` only on
    /// a definite yes. Where the test could not be answered (`None`), or the
    /// answer is no, the value is a rounding: claiming `Exact` on a question
    /// that could not be answered is the one wrong answer here.
    pub fn of_termination(terminates: Option<bool>, digits: u32, mode: Rounding) -> (c: Certification)
        ensures
            c == (if terminates == Some(true) {
                Certification::Exact
            } else {
                Certification::Rounded { mode, digits }
            }),
    {
        match terminates {
            Some(true) => Certification::Exact,
            _ => Certification::Rounded { mode, digits },
        }
    }

    /// How the certification reads in a report: `exact`, `enclosure`, or
    /// `rounded, <mode>, <n> digits`.
    pub fn to_string(&self) -> (s: String)
        ensures
            s@ == cert_text(*self),
    {
        match self {
            Certification::Exact => "exact".to_owned(),
            Certification::Rounded { mode, digits } => {
                let mut s = "rounded, ".to_owned();
                push_str(&mut s, mode_name(*mode));
                push_str(&mut s, ", ");
                push_decimal(&mut s, *digits as u64);
                push_str(&mut s, " digits");
                s
            },
            Certification::Enclosure => "enclosure".to_owned(),
        }
    }
}

/// The spelling used on the `--round` flag, so the report and the option
/// agree.
pub fn mode_name(m: Rounding) -> (s: &'static str)
    ensures
        s@ == mode_spelling(m),
{
    match m {
        Rounding::Trunc => "trunc",
        Rounding::Ceil => "ceil",
        Rounding::HalfEven => "half-even",
        Rounding::HalfUp => "half-up",
    }
}

/// What a `--round` value outside the four is told.
pub const BAD_ROUNDING: &'static str = "rounding must be one of trunc, ceil, half-even, half-up";

/// Parse a `--round` value.
pub fn parse_rounding(s: &str) -> (r: Result<Rounding, TimeError>)
    ensures
        forall|m: Rounding| r == Ok::<Rounding, TimeError>(m) <==> s@ == mode_spelling(m),
        r is Err <==> (s@ != "trunc"@ && s@ != "ceil"@ && s@ != "half-even"@ && s@ != "half-up"@),
        r matches Err(e) ==> e.code == Code::E0024 && e.context@ == BAD_ROUNDING@,
{
    proof {
        reveal_strlit("trunc");
        reveal_strlit("ceil");
        reveal_strlit("half-even");
        reveal_strlit("half-up");
        assert("trunc"@.len() == 5);
        assert("ceil"@.len() == 4);
        assert("half-even"@.len() == 9);
        assert("half-up"@.len() == 7);
        assert("half-even"@[5] != "half-up"@[5]);
    }
    if str_eq(s, "trunc") {
        Ok(Rounding::Trunc)
    } else if str_eq(s, "ceil") {
        Ok(Rounding::Ceil)
    } else if str_eq(s, "half-even") {
        Ok(Rounding::HalfEven)
    } else if str_eq(s, "half-up") {
        Ok(Rounding::HalfUp)
    } else {
        Err(TimeError::with_context(Code::E0024, BAD_ROUNDING))
    }
}

/// **The report and the flag agree.** Every mode's spelling parses back to
/// that mode.
pub proof fn lemma_mode_name_parses_back(m: Rounding)
    ensures
        forall|n: Rounding| mode_spelling(n) == mode_spelling(m) ==> n == m,
{
    reveal_strlit("trunc");
    reveal_strlit("ceil");
    reveal_strlit("half-even");
    reveal_strlit("half-up");
    assert("trunc"@.len() == 5);
    assert("ceil"@.len() == 4);
    assert("half-even"@.len() == 9);
    assert("half-up"@.len() == 7);
    assert("half-even"@[5] != "half-up"@[5]);
}

} // verus!
