//! What the cosmology commands refuse before any arithmetic.
use vstd::prelude::*;

use crate::error::{Code, TimeError};
use crate::text::{char_is_whitespace, chars_of, whitespace};

verus! {

/// What a negative redshift is told: it is an exact decimal, and simply not
/// a redshift.
pub const NEGATIVE_REDSHIFT: &'static str = "a redshift is not negative: z = 0 is now and larger is earlier. Try `--z 1100` for recombination, or `--z 0.5`";

/// The first character of `s` that is not whitespace, where there is one.
pub open spec fn first_visible(s: Seq<char>) -> Option<char>
    decreases s.len(),
{
    if s.len() == 0 {
        None
    } else if whitespace(s[0]) {
        first_visible(s.drop_first())
    } else {
        Some(s[0])
    }
}

/// Refuse a redshift written with a minus sign (`E0018`), before it reaches
/// the decimal reader, which would call it malformed rather than negative.
/// Leading whitespace is ignored, as the reader ignores it.
pub fn refuse_negative_redshift(z: &str) -> (r: Result<(), TimeError>)
    ensures
        r is Err <==> first_visible(z@) == Some('-'),
        r matches Err(e) ==> e.code == Code::E0018 && e.context@ == NEGATIVE_REDSHIFT@,
{
    let cs = chars_of(z);
    let mut i: usize = 0;
    assert(cs@.skip(0) =~= cs@);
    while i < cs.len() && char_is_whitespace(cs[i])
        invariant
            i <= cs@.len(),
            cs@ == z@,
            first_visible(cs@.skip(i as int)) == first_visible(z@),
        decreases cs@.len() - i,
    {
        assert(cs@.skip(i as int).drop_first() =~= cs@.skip(i + 1));
        i = i + 1;
    }
    if i < cs.len() {
        assert(cs@.skip(i as int)[0] == cs@[i as int]);
    } else {
        assert(cs@.skip(i as int).len() == 0);
    }
    if i < cs.len() && cs[i] == '-' {
        Err(TimeError::with_context(Code::E0018, NEGATIVE_REDSHIFT))
    } else {
        Ok(())
    }
}

} // verus!
