//! Diagnostics: a code from the catalogue and a sentence saying what was wrong.
use vstd::prelude::*;

verus! {

/// A diagnostic code from the catalogue.
#[derive(Clone, Copy, PartialEq, Eq, Debug)]
pub enum Code {
    /// Malformed input.
    E0001,
    /// An unknown key in a declared file.
    E0012,
    /// A name that is not in a declared catalogue.
    E0016,
    /// A file or resource that is not well-formed or could not be had.
    E0017,
    /// An argument outside the shapes the command accepts.
    E0018,
    /// A quantity outside the range the arithmetic can hold.
    E0021,
    /// A validity window the file format cannot express.
    E0043,
    /// A rounding mode that is not one of the four.
    E0024,
    /// A declared parameter that is missing or inconsistent.
    E0060,
}

/// A diagnostic: what went wrong, by code, and the sentence that says why.
#[derive(Clone, PartialEq, Eq, Debug)]
pub struct TimeError {
    /// The catalogue code.
    pub code: Code,
    /// What the caller can act on.
    pub context: String,
}

impl TimeError {
    /// A diagnostic with nothing more to say than its code.
    pub fn new(code: Code) -> (e: TimeError)
        ensures
            e.code == code,
            e.context@ == Seq::<char>::empty(),
    {
        TimeError { code, context: String::new() }
    }

    /// A diagnostic with its explanation.
    pub fn with_context(code: Code, context: &str) -> (e: TimeError)
        ensures
            e.code == code,
            e.context@ == context@,
    {
        TimeError { code, context: context.to_owned() }
    }
}

} // verus!
