//! `ucal explain --why`: the explanation of an instant, annotated field by field.
//!
//! The annotation is built by asking the document what fields it has and
//! looking each one up, so a field added to `explain` without a reason shows
//! up as a gap rather than going quietly undocumented.
use vstd::prelude::*;

use crate::emit::{Doc, Value};
use crate::text::str_eq;

verus! {

/// Why `ticks` is shown.
pub const WHY_TICKS: &'static str = "Rule Z: the value itself, an unsigned integer count from the datum. Everything else on this page is a rendering of this number.";
/// Why `precision` is shown.
pub const WHY_PRECISION: &'static str = "Rule T: a form printed to a coarser tier denotes an interval, not a point with trailing zeros. This says which one you are holding.";
/// Why `human` is shown.
pub const WHY_HUMAN: &'static str = "§6: the text form anchored at T0, for reading aloud.";
/// Why `digit5` is shown.
pub const WHY_DIGIT5: &'static str = "§6 and Rule S: fixed-width, so lexicographic order equals chronological order. That is why it opens with 27 groups of zeros.";
/// Why `ucid` is shown.
pub const WHY_UCID: &'static str = "§6.5: a sortable identifier for an instant, or a statement that this one is outside the 2^256 UCID range.";
/// Why `tiers` is shown.
pub const WHY_TIERS: &'static str = "§4.2: the instant decomposed onto the universal ladder. It reassembles to `ticks` exactly, because every tier is a power of five.";
/// Why `window` is shown.
pub const WHY_WINDOW: &'static str = "Rule T again: present only when the input was stated to a tier, because then it named an interval, and this is that interval.";
/// Why `beats_since_datum` is shown.
pub const WHY_BEATS: &'static str = "§0.5: the beat is the universe second, 5^60 ticks. This count carries no Earth content, which is the point of having it.";
/// Why `si_bridge` is shown.
pub const WHY_SI_BRIDGE: &'static str = "Rule A.5 and D-A16: an SI second is an Earth unit, so the conversion is shown on request with --bridge and never unasked.";
/// Why `claim` is shown.
pub const WHY_CLAIM: &'static str = "Rule Q.3: BIG_BANG_CLAIM is metadata. Printed with --claim, and it can never enter a computation; three compile-fail tests hold that.";
/// Why `warning` is shown.
pub const WHY_WARNING: &'static str = "§10.6: set when the instant lies inside the claim's own half-width, where the datum's identification is larger than the thing being discussed.";
/// What a field without a recorded reason is annotated with.
pub const NO_REASON: &'static str = "— (no reason recorded for this field; please report it, because every field of this command is supposed to have one)";
/// The note that closes the annotated document.
pub const WHY_NOTE: &'static str = "Each line names the rule or section that requires the field above it. Almost none is a convenience: this command's output is dense because the model is, not because more seemed better.";

/// The reason recorded for the `explain` field named `name`.
pub open spec fn why_reason(name: Seq<char>) -> Seq<char> {
    if name == "ticks"@ {
        WHY_TICKS@
    } else if name == "precision"@ {
        WHY_PRECISION@
    } else if name == "human"@ {
        WHY_HUMAN@
    } else if name == "digit5"@ {
        WHY_DIGIT5@
    } else if name == "ucid"@ {
        WHY_UCID@
    } else if name == "tiers"@ {
        WHY_TIERS@
    } else if name == "window"@ {
        WHY_WINDOW@
    } else if name == "beats_since_datum"@ {
        WHY_BEATS@
    } else if name == "si_bridge"@ {
        WHY_SI_BRIDGE@
    } else if name == "claim"@ {
        WHY_CLAIM@
    } else if name == "warning"@ {
        WHY_WARNING@
    } else {
        NO_REASON@
    }
}

/// **Each field is given its own reason.** Every field that `explain` writes
/// is annotated with the entry recorded for it, and with no other field's;
/// a name outside that list gets the gap marker.
pub proof fn lemma_each_field_has_its_own_reason(name: Seq<char>)
    ensures
        why_reason("ticks"@) == WHY_TICKS@,
        why_reason("precision"@) == WHY_PRECISION@,
        why_reason("human"@) == WHY_HUMAN@,
        why_reason("digit5"@) == WHY_DIGIT5@,
        why_reason("ucid"@) == WHY_UCID@,
        why_reason("tiers"@) == WHY_TIERS@,
        why_reason("window"@) == WHY_WINDOW@,
        why_reason("beats_since_datum"@) == WHY_BEATS@,
        why_reason("si_bridge"@) == WHY_SI_BRIDGE@,
        why_reason("claim"@) == WHY_CLAIM@,
        why_reason("warning"@) == WHY_WARNING@,
        !(name == "ticks"@ || name == "precision"@ || name == "human"@ || name == "digit5"@ || name == "ucid"@ || name == "tiers"@ || name == "window"@ || name == "beats_since_datum"@ || name == "si_bridge"@ || name == "claim"@ || name == "warning"@) ==> why_reason(name) == NO_REASON@,
{
    reveal_strlit("ticks");
    reveal_strlit("precision");
    reveal_strlit("human");
    reveal_strlit("digit5");
    reveal_strlit("ucid");
    reveal_strlit("tiers");
    reveal_strlit("window");
    reveal_strlit("beats_since_datum");
    reveal_strlit("si_bridge");
    reveal_strlit("claim");
    reveal_strlit("warning");
    assert("precision"@.len() != "ticks"@.len());
    assert("human"@[0] != "ticks"@[0]);
    assert("human"@.len() != "precision"@.len());
    assert("digit5"@.len() != "ticks"@.len());
    assert("digit5"@.len() != "precision"@.len());
    assert("digit5"@.len() != "human"@.len());
    assert("ucid"@.len() != "ticks"@.len());
    assert("ucid"@.len() != "precision"@.len());
    assert("ucid"@.len() != "human"@.len());
    assert("ucid"@.len() != "digit5"@.len());
    assert("tiers"@[2] != "ticks"@[2]);
    assert("tiers"@.len() != "precision"@.len());
    assert("tiers"@[0] != "human"@[0]);
    assert("tiers"@.len() != "digit5"@.len());
    assert("tiers"@.len() != "ucid"@.len());
    assert("window"@.len() != "ticks"@.len());
    assert("window"@.len() != "precision"@.len());
    assert("window"@.len() != "human"@.len());
    assert("window"@[0] != "digit5"@[0]);
    assert("window"@.len() != "ucid"@.len());
    assert("window"@.len() != "tiers"@.len());
    assert("beats_since_datum"@.len() != "ticks"@.len());
    assert("beats_since_datum"@.len() != "precision"@.len());
    assert("beats_since_datum"@.len() != "human"@.len());
    assert("beats_since_datum"@.len() != "digit5"@.len());
    assert("beats_since_datum"@.len() != "ucid"@.len());
    assert("beats_since_datum"@.len() != "tiers"@.len());
    assert("beats_since_datum"@.len() != "window"@.len());
    assert("si_bridge"@.len() != "ticks"@.len());
    assert("si_bridge"@[0] != "precision"@[0]);
    assert("si_bridge"@.len() != "human"@.len());
    assert("si_bridge"@.len() != "digit5"@.len());
    assert("si_bridge"@.len() != "ucid"@.len());
    assert("si_bridge"@.len() != "tiers"@.len());
    assert("si_bridge"@.len() != "window"@.len());
    assert("si_bridge"@.len() != "beats_since_datum"@.len());
    assert("claim"@[0] != "ticks"@[0]);
    assert("claim"@.len() != "precision"@.len());
    assert("claim"@[0] != "human"@[0]);
    assert("claim"@.len() != "digit5"@.len());
    assert("claim"@.len() != "ucid"@.len());
    assert("claim"@[0] != "tiers"@[0]);
    assert("claim"@.len() != "window"@.len());
    assert("claim"@.len() != "beats_since_datum"@.len());
    assert("claim"@.len() != "si_bridge"@.len());
    assert("warning"@.len() != "ticks"@.len());
    assert("warning"@.len() != "precision"@.len());
    assert("warning"@.len() != "human"@.len());
    assert("warning"@.len() != "digit5"@.len());
    assert("warning"@.len() != "ucid"@.len());
    assert("warning"@.len() != "tiers"@.len());
    assert("warning"@.len() != "window"@.len());
    assert("warning"@.len() != "beats_since_datum"@.len());
    assert("warning"@.len() != "si_bridge"@.len());
    assert("warning"@.len() != "claim"@.len());
}

/// The reason recorded for the `explain` field named `name`, or the gap marker.
pub fn why_of(name: &str) -> (r: &'static str)
    ensures
        r@ == why_reason(name@),
{
    if str_eq(name, "ticks") {
        WHY_TICKS
    } else if str_eq(name, "precision") {
        WHY_PRECISION
    } else if str_eq(name, "human") {
        WHY_HUMAN
    } else if str_eq(name, "digit5") {
        WHY_DIGIT5
    } else if str_eq(name, "ucid") {
        WHY_UCID
    } else if str_eq(name, "tiers") {
        WHY_TIERS
    } else if str_eq(name, "window") {
        WHY_WINDOW
    } else if str_eq(name, "beats_since_datum") {
        WHY_BEATS
    } else if str_eq(name, "si_bridge") {
        WHY_SI_BRIDGE
    } else if str_eq(name, "claim") {
        WHY_CLAIM
    } else if str_eq(name, "warning") {
        WHY_WARNING
    } else {
        NO_REASON
    }
}

/// Whether `rows` annotates `fields` one for one: each row keyed by the field's
/// name and holding, as text, the reason recorded for it.
pub open spec fn annotates(rows: Seq<(String, Value)>, fields: Seq<(String, Value)>) -> bool {
    &&& rows.len() == fields.len()
    &&& forall|i: int|
        0 <= i < rows.len() ==> #[trigger] rows[i].0@ == fields[i].0@ && (rows[i].1 matches Value::Text(t)
            && t@ == why_reason(fields[i].0@))
}

/// `ucal explain --why`: the explanation `explained`, with a `why` table that
/// gives, for each of its fields in order, the rule that requires it, and a
/// closing note.
pub fn cmd_explain_why(explained: Doc) -> (d: Doc)
    ensures
        d.heading() == explained.heading(),
        d.entries().len() == explained.entries().len() + 1,
        d.entries().drop_last() == explained.entries(),
        d.entries().last().0@ == "why"@,
        d.entries().last().1 matches Value::Rows { key, value, rows } && key@ == "field"@
            && value is None && annotates(rows@, explained.entries()),
        d.remarks().len() == explained.remarks().len() + 1,
        d.remarks().drop_last() == explained.remarks(),
        d.remarks().last()@ == WHY_NOTE@,
{
    let fields = explained.fields();
    let mut rows: Vec<(String, Value)> = Vec::new();
    let mut i: usize = 0;
    while i < fields.len()
        invariant
            i <= fields@.len(),
            fields@ == explained.entries(),
            rows@.len() == i,
            forall|j: int|
                0 <= j < i ==> #[trigger] rows@[j].0@ == fields@[j].0@ && (rows@[j].1 matches Value::Text(t)
                    && t@ == why_reason(fields@[j].0@)),
        decreases fields@.len() - i,
    {
        let name = fields[i].0.as_str();
        let why = Value::text(why_of(name));
        rows.push((name.to_owned(), why));
        i = i + 1;
    }
    let table = Value::rows("field", rows);
    explained.field("why", table).note(WHY_NOTE)
}

} // verus!
