//! The `ucal` command line's rendering and drawing library.
use vstd::prelude::*;

pub mod anchor_file;
pub mod body_export;
pub mod body_file;
pub mod cert;
pub mod clock;
pub mod cosmo;
pub mod emit;
pub mod ephem_file;
pub mod error;
pub mod json_law;
pub mod explain;
pub mod strip_law;
pub mod style;
pub mod table;
pub mod text;
pub mod ticks;
pub mod wallclock;
pub mod wrap_law;

use crate::emit::{Doc, Value};
use crate::wallclock::theme::{all, catalogued, theme_abouts, theme_keys};

verus! {

/// What `ucal wallclock --theme list` says after the table.
pub const THEMES_NOTE: &'static str = "The clock shows T3 span down to T-1 flicker. Above T3 a hand does not move within a human lifetime — one T4 is 141 000 years — and below T-1 it moves 66 000 times a second, which no refresh rate reaches.";

/// Whether `row` lists the theme at position `i` of the catalogue: keyed by
/// its name, with a section holding its description as `about`.
pub open spec fn lists_theme(row: (String, Value), i: int) -> bool {
    &&& row.0@ == theme_keys()[i]
    &&& row.1 matches Value::Section(f)
    &&& f@.len() == 1
    &&& f@[0].0@ == "about"@
    &&& f@[0].1 matches Value::Text(a)
    &&& a@ == theme_abouts()[i]
}

/// The wall-clock theme catalogue as a document: one row per theme, keyed by
/// the name `--theme` takes, with its one-line description.
pub fn cmd_wallclock_themes() -> (d: Doc)
    ensures
        d.heading() == Some("ucal wallclock themes"@),
        d.entries().len() == 1,
        d.entries()[0].0@ == "themes"@,
        d.entries()[0].1 matches Value::Rows { key, value, rows } && key@ == "theme"@ && value is None
            && rows@.len() == theme_keys().len() && (forall|i: int|
            0 <= i < rows@.len() ==> #[trigger] lists_theme(rows@[i], i)),
        d.remarks().len() == 1,
        d.remarks()[0]@ == THEMES_NOTE@,
{
    let themes = all();
    let mut rows: Vec<(String, Value)> = Vec::new();
    let mut i: usize = 0;
    while i < themes.len()
        invariant
            i <= themes@.len(),
            themes@.len() == theme_keys().len(),
            forall|j: int| 0 <= j < themes@.len() ==> #[trigger] catalogued(themes@[j], j),
            rows@.len() == i,
            forall|j: int|
                0 <= j < i ==> #[trigger] lists_theme(rows@[j], j),
        decreases themes@.len() - i,
    {
        let mut about: Vec<(String, Value)> = Vec::new();
        let text = Value::text(themes[i].about);
        about.push(("about".to_owned(), text));
        assert(catalogued(themes@[i as int], i as int));
        assert(about@.len() == 1 && about@[0].0@ == "about"@);
        assert(about@[0].1 matches Value::Text(a) && a@ == theme_abouts()[i as int]);
        let key = themes[i].key.to_owned();
        let ghost before = rows@;
        rows.push((key, Value::Section(about)));
        assert(forall|j: int| 0 <= j < i ==> rows@[j] == before[j]);
        assert(lists_theme(rows@[i as int], i as int));
        i = i + 1;
    }
    let table = Value::rows("theme", rows);
    let d0 = Doc::new().title("ucal wallclock themes");
    let d1 = d0.field("themes", table);
    assert(d1.entries()[0] == d1.entries().last());
    let d = d1.note(THEMES_NOTE);
    assert(d.remarks()[0] == d.remarks().last());
    d
}

} // verus!
