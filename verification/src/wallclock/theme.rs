//! Wall-clock themes: a palette and a layout switch, from a catalogue that can
//! be enumerated, so a name that is not a theme is answered by name.
use vstd::prelude::*;

use crate::error::{Code, TimeError};
use crate::text::str_eq;
use crate::wallclock::frame::Color;

verus! {

broadcast use vstd::string::group_string_axioms;

/// A clock face's colours and chrome.
#[derive(Clone, Debug)]
#[non_exhaustive]
pub struct Theme {
    /// The key `--theme` takes.
    pub key: &'static str,
    /// One line, for `--theme list`.
    pub about: &'static str,
    /// Whether to draw LCARS elbows and rails, or a plain frame.
    pub lcars: bool,
    /// The page.
    pub background: Color,
    /// Ordinary text.
    pub text: Color,
    /// Section headings and rail labels.
    pub label: Color,
    /// The big readout.
    pub primary: Color,
    /// The rail blocks, cycled top to bottom.
    pub blocks: Vec<Color>,
    /// The sub-visible tier's bar.
    pub blur: Color,
}

/// The keys of the catalogue, in the order `--theme list` prints them.
pub open spec fn theme_keys() -> Seq<Seq<char>> {
    seq!["plain"@, "amber"@, "green"@, "paper"@, "startrek"@]
}

/// The one-line descriptions, in catalogue order.
pub open spec fn theme_abouts() -> Seq<Seq<char>> {
    seq![
        "monochrome, no chrome — the default"@,
        "VT220 amber phosphor — one warm hue, no second one"@,
        "3270 green phosphor — the other half of the same idea"@,
        "dark on light, committed — for light terminals and for print"@,
        "LCARS — the library computer interface, in its production palette"@
    ]
}

/// Whether `t` is, field for field, the theme at position `i` of the catalogue.
pub open spec fn catalogued(t: Theme, i: int) -> bool {
    &&& 0 <= i < theme_keys().len()
    &&& t.key@ == theme_keys()[i]
    &&& t.about@ == theme_abouts()[i]
    &&& if i == 0 {
        &&& !t.lcars
        &&& t.background == Color::Reset && t.text == Color::Reset
        &&& t.label == Color::DarkGray && t.primary == Color::Reset
        &&& t.blocks@ == seq![Color::DarkGray] && t.blur == Color::DarkGray
    } else if i == 1 {
        &&& !t.lcars
        &&& t.background == Color::Rgb(0x0A, 0x06, 0x00) && t.text == Color::Rgb(0xFF, 0xB0, 0x00)
        &&& t.label == Color::Rgb(0x99, 0x66, 0x00) && t.primary == Color::Rgb(0xFF, 0xC8, 0x40)
        &&& t.blocks@ == seq![Color::Rgb(0xFF, 0xB0, 0x00)] && t.blur == Color::Rgb(0x99, 0x66, 0x00)
    } else if i == 2 {
        &&& !t.lcars
        &&& t.background == Color::Rgb(0x00, 0x0A, 0x00) && t.text == Color::Rgb(0x33, 0xFF, 0x33)
        &&& t.label == Color::Rgb(0x11, 0x88, 0x11) && t.primary == Color::Rgb(0x66, 0xFF, 0x66)
        &&& t.blocks@ == seq![Color::Rgb(0x33, 0xFF, 0x33)] && t.blur == Color::Rgb(0x11, 0x88, 0x11)
    } else if i == 3 {
        &&& !t.lcars
        &&& t.background == Color::Rgb(0xFA, 0xF8, 0xF2) && t.text == Color::Rgb(0x1A, 0x1A, 0x1A)
        &&& t.label == Color::Rgb(0x5A, 0x5A, 0x5A) && t.primary == Color::Rgb(0x00, 0x00, 0x00)
        &&& t.blocks@ == seq![Color::Rgb(0x33, 0x33, 0x33)] && t.blur == Color::Rgb(0x8A, 0x8A, 0x8A)
    } else {
        &&& t.lcars
        &&& t.background == Color::Black && t.text == Color::Rgb(0xFF, 0xCC, 0x99)
        &&& t.label == Color::Rgb(0x99, 0x99, 0xFF) && t.primary == Color::Rgb(0xFF, 0x99, 0x00)
        &&& t.blocks@ == seq![
            Color::Rgb(0xFF, 0x99, 0x00),
            Color::Rgb(0xCC, 0x99, 0xCC),
            Color::Rgb(0x99, 0x99, 0xFF),
            Color::Rgb(0xFF, 0xCC, 0x99),
            Color::Rgb(0xCC, 0x66, 0x66),
        ]
        &&& t.blur == Color::Rgb(0xCC, 0x66, 0x66)
    }
}

/// The default: readable anywhere, no chrome, no assumptions about the
/// palette.
pub fn plain() -> (t: Theme)
    ensures
        catalogued(t, 0),
{
    let t = Theme {
        key: "plain",
        about: "monochrome, no chrome — the default",
        lcars: false,
        background: Color::Reset,
        text: Color::Reset,
        label: Color::DarkGray,
        primary: Color::Reset,
        blocks: vec![Color::DarkGray],
        blur: Color::DarkGray,
    };
    assert(t.blocks@ =~= seq![Color::DarkGray]);
    t
}

/// LCARS, the library computer interface, in its production palette.
pub fn lcars() -> (t: Theme)
    ensures
        catalogued(t, 4),
{
    let t = Theme {
        key: "startrek",
        about: "LCARS — the library computer interface, in its production palette",
        lcars: true,
        background: Color::Black,
        text: Color::Rgb(0xFF, 0xCC, 0x99),
        label: Color::Rgb(0x99, 0x99, 0xFF),
        primary: Color::Rgb(0xFF, 0x99, 0x00),
        blocks: vec![
            Color::Rgb(0xFF, 0x99, 0x00),
            Color::Rgb(0xCC, 0x99, 0xCC),
            Color::Rgb(0x99, 0x99, 0xFF),
            Color::Rgb(0xFF, 0xCC, 0x99),
            Color::Rgb(0xCC, 0x66, 0x66),
        ],
        blur: Color::Rgb(0xCC, 0x66, 0x66),
    };
    assert(t.blocks@ =~= seq![Color::Rgb(0xFF, 0x99, 0x00), Color::Rgb(0xCC, 0x99, 0xCC), Color::Rgb(0x99, 0x99, 0xFF), Color::Rgb(0xFF, 0xCC, 0x99), Color::Rgb(0xCC, 0x66, 0x66)]);
    t
}

/// DEC VT220 amber phosphor: one warm hue on near-black.
pub fn amber() -> (t: Theme)
    ensures
        catalogued(t, 1),
{
    let t = Theme {
        key: "amber",
        about: "VT220 amber phosphor — one warm hue, no second one",
        lcars: false,
        background: Color::Rgb(0x0A, 0x06, 0x00),
        text: Color::Rgb(0xFF, 0xB0, 0x00),
        label: Color::Rgb(0x99, 0x66, 0x00),
        primary: Color::Rgb(0xFF, 0xC8, 0x40),
        blocks: vec![Color::Rgb(0xFF, 0xB0, 0x00)],
        blur: Color::Rgb(0x99, 0x66, 0x00),
    };
    assert(t.blocks@ =~= seq![Color::Rgb(0xFF, 0xB0, 0x00)]);
    t
}

/// IBM 3270 / VT100 green phosphor.
pub fn green() -> (t: Theme)
    ensures
        catalogued(t, 2),
{
    let t = Theme {
        key: "green",
        about: "3270 green phosphor — the other half of the same idea",
        lcars: false,
        background: Color::Rgb(0x00, 0x0A, 0x00),
        text: Color::Rgb(0x33, 0xFF, 0x33),
        label: Color::Rgb(0x11, 0x88, 0x11),
        primary: Color::Rgb(0x66, 0xFF, 0x66),
        blocks: vec![Color::Rgb(0x33, 0xFF, 0x33)],
        blur: Color::Rgb(0x11, 0x88, 0x11),
    };
    assert(t.blocks@ =~= seq![Color::Rgb(0x33, 0xFF, 0x33)]);
    t
}

/// Dark on light, committed to the background it is drawn on.
pub fn paper() -> (t: Theme)
    ensures
        catalogued(t, 3),
{
    let t = Theme {
        key: "paper",
        about: "dark on light, committed — for light terminals and for print",
        lcars: false,
        background: Color::Rgb(0xFA, 0xF8, 0xF2),
        text: Color::Rgb(0x1A, 0x1A, 0x1A),
        label: Color::Rgb(0x5A, 0x5A, 0x5A),
        primary: Color::Rgb(0x00, 0x00, 0x00),
        blocks: vec![Color::Rgb(0x33, 0x33, 0x33)],
        blur: Color::Rgb(0x8A, 0x8A, 0x8A),
    };
    assert(t.blocks@ =~= seq![Color::Rgb(0x33, 0x33, 0x33)]);
    t
}

/// Every theme, in the order `--theme list` prints them.
pub fn all() -> (v: Vec<Theme>)
    ensures
        v@.len() == theme_keys().len(),
        forall|i: int| 0 <= i < v@.len() ==> #[trigger] catalogued(v@[i], i),
{
    let v = vec![plain(), amber(), green(), paper(), lcars()];
    assert(catalogued(v@[0], 0) && catalogued(v@[1], 1) && catalogued(v@[2], 2));
    v
}

/// What a theme name outside the catalogue is told.
pub const NO_THEME: &'static str = "no such wall-clock theme; `ucal wallclock --theme list` names every one";

/// Look a theme up by key; `UCAL-E0016` for a name not in the catalogue.
pub fn by_name(key: &str) -> (r: Result<Theme, TimeError>)
    ensures
        r matches Ok(t) ==> t.key@ == key@ && exists|i: int| #[trigger] catalogued(t, i),
        r is Err <==> !theme_keys().contains(key@),
        r matches Err(e) ==> e.code == Code::E0016 && e.context@ == NO_THEME@,
{
    let mut themes = all();
    let mut i: usize = 0;
    while i < themes.len()
        invariant
            i <= themes@.len(),
            themes@.len() == theme_keys().len(),
            forall|j: int| 0 <= j < themes@.len() ==> #[trigger] catalogued(themes@[j], j),
            forall|j: int| 0 <= j < i ==> theme_keys()[j] != key@,
        decreases themes@.len() - i,
    {
        assert(catalogued(themes@[i as int], i as int));
        if str_eq(themes[i].key, key) {
            assert(theme_keys()[i as int] == key@);
            let t = themes.remove(i);
            return Ok(t);
        }
        i = i + 1;
    }
    assert(!theme_keys().contains(key@)) by {
        if theme_keys().contains(key@) {
            let j = choose|j: int| 0 <= j < theme_keys().len() && theme_keys()[j] == key@;
            assert(theme_keys()[j] != key@);
        }
    }
    Err(TimeError::with_context(Code::E0016, NO_THEME))
}

} // verus!
