//! Diagnostics of an ephemeris file.
use vstd::prelude::*;

use crate::text::{push_char, push_str};

verus! {

/// A diagnostic about one key of a file: the key, quoted, then why.
pub fn alloc_format(what: &str, why: &str) -> (s: String)
    ensures
        s@ == seq!['`'] + what@ + seq!['`', ' '] + why@,
{
    let mut s = String::new();
    push_char(&mut s, '`');
    push_str(&mut s, what);
    push_char(&mut s, '`');
    push_char(&mut s, ' ');
    push_str(&mut s, why);
    assert(s@ =~= seq!['`'] + what@ + seq!['`', ' '] + why@);
    s
}

} // verus!
