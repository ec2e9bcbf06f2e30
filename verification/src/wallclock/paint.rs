//! How a face is laid out: which text goes into which part of the screen, in
//! which colours.
//!
//! A face is drawn as a list of [`Pane`]s, each a rectangle and the lines of
//! styled text that fill it from its top, in the order they are drawn; a
//! later pane paints over an earlier one. The rectangles come from ratatui's
//! layout solver, which is called and not rebuilt; everything else — the
//! words, the bars, the glyphs, the colours and the order — is decided here.
use vstd::prelude::*;

use ratatui::layout::{Constraint, Direction, Layout, Rect};

use crate::clock::tier_label;
use crate::text::{decimal, push_decimal, push_str, repeat_char};
use crate::wallclock::digits::{render, rendered_row, HEIGHT};
use crate::wallclock::face::{
    bar, bar_of, hand_label, pad_left, pad_right, push_padded_right, to_upper, uppercase, Face, Hand,
    Local,
};
use crate::wallclock::frame::Color;
use crate::wallclock::theme::Theme;

verus! {

broadcast use vstd::string::group_string_axioms;

/// A rectangle of cells: its top-left corner, and its size.
#[derive(Clone, Copy, PartialEq, Eq, Structural, Debug)]
pub struct Area {
    /// Column of the left edge.
    pub x: u16,
    /// Row of the top edge.
    pub y: u16,
    /// Columns.
    pub width: u16,
    /// Rows.
    pub height: u16,
}

impl View for Area {
    type V = (u16, u16, u16, u16);

    open spec fn view(&self) -> (u16, u16, u16, u16) {
        (self.x, self.y, self.width, self.height)
    }
}

/// How text is coloured: a part that is `None` leaves what is beneath it.
#[derive(Clone, Copy, PartialEq, Eq, Structural, Debug)]
pub struct Ink {
    /// Foreground.
    pub fg: Option<Color>,
    /// Background.
    pub bg: Option<Color>,
    /// Bold.
    pub bold: bool,
}

/// A run of text in one ink.
#[derive(Clone, Debug)]
pub struct Run {
    /// The characters.
    pub text: String,
    /// Their ink.
    pub ink: Ink,
}

impl View for Run {
    type V = (Seq<char>, Ink);

    open spec fn view(&self) -> (Seq<char>, Ink) {
        (self.text@, self.ink)
    }
}

/// A line: runs side by side, over the ink of the whole line.
#[derive(Clone, Debug)]
pub struct Row {
    /// The runs, left to right.
    pub runs: Vec<Run>,
    /// The line's own ink, beneath its runs'.
    pub ink: Ink,
}

impl View for Row {
    type V = (Seq<(Seq<char>, Ink)>, Ink);

    open spec fn view(&self) -> (Seq<(Seq<char>, Ink)>, Ink) {
        (self.runs@.map_values(|r: Run| r@), self.ink)
    }
}

/// A rectangle filled from its top with lines, over an ink for the whole
/// rectangle; the lines start at its left edge, or are centred in it.
#[derive(Clone, Debug)]
pub struct Pane {
    /// Where.
    pub area: Area,
    /// What, top to bottom.
    pub rows: Vec<Row>,
    /// The ink of the whole rectangle.
    pub ink: Ink,
    /// Whether each line is centred rather than set from the left.
    pub centred: bool,
}

/// A line, as runs of characters in their inks, over the line's ink.
pub type RowView = (Seq<(Seq<char>, Ink)>, Ink);

/// A pane, as its rectangle, its lines, its ink and whether it centres.
pub type PaneView = ((u16, u16, u16, u16), Seq<RowView>, Ink, bool);

impl View for Pane {
    type V = PaneView;

    open spec fn view(&self) -> PaneView {
        (self.area@, self.rows@.map_values(|r: Row| r@), self.ink, self.centred)
    }
}

/// The views of a list of panes.
pub open spec fn panes_view(p: Seq<Pane>) -> Seq<PaneView> {
    p.map_values(|q: Pane| q@)
}

// ---------------------------------------------------------------------------
// inks, runs and lines
// ---------------------------------------------------------------------------

/// Nothing: what is beneath shows through.
pub open spec fn bare() -> Ink {
    Ink { fg: None, bg: None, bold: false }
}

/// A foreground colour alone.
pub open spec fn fg_ink(c: Color) -> Ink {
    Ink { fg: Some(c), bg: None, bold: false }
}

/// A line holding one unstyled run, in the line ink `ink`.
pub open spec fn plain_row(t: Seq<char>, ink: Ink) -> (Seq<(Seq<char>, Ink)>, Ink) {
    (seq![(t, bare())], ink)
}

/// A line holding one run in `ink`.
pub open spec fn inked_row(t: Seq<char>, ink: Ink) -> (Seq<(Seq<char>, Ink)>, Ink) {
    (seq![(t, ink)], bare())
}

fn no_ink() -> (i: Ink)
    ensures
        i == bare(),
{
    Ink { fg: None, bg: None, bold: false }
}

fn fg_of(c: Color) -> (i: Ink)
    ensures
        i == fg_ink(c),
{
    Ink { fg: Some(c), bg: None, bold: false }
}

fn run_of(t: &str, ink: Ink) -> (r: Run)
    ensures
        r@ == (t@, ink),
{
    Run { text: t.to_owned(), ink }
}

fn line_of(t: &str, ink: Ink) -> (r: Row)
    ensures
        r@ == plain_row(t@, ink),
{
    let mut runs: Vec<Run> = Vec::new();
    runs.push(run_of(t, no_ink()));
    let r = Row { runs, ink };
    assert(r@.0 =~= plain_row(t@, ink).0);
    r
}

fn inked_line(t: &str, ink: Ink) -> (r: Row)
    ensures
        r@ == inked_row(t@, ink),
{
    let mut runs: Vec<Run> = Vec::new();
    runs.push(run_of(t, ink));
    let r = Row { runs, ink: no_ink() };
    assert(r@.0 =~= inked_row(t@, ink).0);
    r
}

fn pane_of(area: Area, rows: Vec<Row>, ink: Ink, centred: bool) -> (p: Pane)
    ensures
        p@ == (area@, rows@.map_values(|r: Row| r@), ink, centred),
{
    Pane { area, rows, ink, centred }
}

// ---------------------------------------------------------------------------
// the layout solver
// ---------------------------------------------------------------------------

/// What ratatui's layout solver gives for `area`, split top to bottom
/// (`vertical`) or left to right into one part per entry of `lengths`: a
/// fixed length for `Some(n)`, at least nothing for `None`.
pub uninterp spec fn layout_split(
    area: (u16, u16, u16, u16),
    vertical: bool,
    lengths: Seq<Option<u16>>,
) -> Seq<(u16, u16, u16, u16)>;

/// `ratatui::layout::Layout::split`, with `Constraint::Length` for `Some`
/// and `Constraint::Min(0)` for `None`, on `Rect::new` of the area. Its
/// result is named, not stated, beyond its one rectangle per constraint,
/// which its source shows; the solver's own failure, which these two kinds
/// of constraint do not reach, is not ruled out here.
#[verifier::external_body]
fn split(area: Area, vertical: bool, lengths: &Vec<Option<u16>>) -> (r: Vec<Area>)
    ensures
        r@.map_values(|a: Area| a@) == layout_split(area@, vertical, lengths@),
        r@.len() == lengths@.len(),
{
    let direction = if vertical { Direction::Vertical } else { Direction::Horizontal };
    let constraints: Vec<Constraint> = lengths.iter().map(|l| match l {
        Some(n) => Constraint::Length(*n),
        None => Constraint::Min(0),
    }).collect();
    let rects = Layout::default().direction(direction).constraints(constraints)
        .split(Rect::new(area.x, area.y, area.width, area.height));
    rects.iter().map(|q| Area { x: q.x, y: q.y, width: q.width, height: q.height }).collect()
}

// ---------------------------------------------------------------------------
// the parts every face shares
// ---------------------------------------------------------------------------

/// `n` in decimal, with leading zeros to four digits.
pub open spec fn zero_padded(n: nat) -> Seq<char> {
    Seq::new(if decimal(n).len() < 4 { (4 - decimal(n).len()) as nat } else { 0 }, |_i: int| '0') + decimal(n)
}

fn zero_pad(n: u32) -> (s: String)
    ensures
        s@ == zero_padded(n as nat),
{
    let mut d = String::new();
    push_decimal(&mut d, n as u64);
    let k = d.unicode_len();
    let mut s = repeat_char('0', if k < 4 { 4 - k } else { 0 });
    push_str(&mut s, d.as_str());
    s
}

/// The position of the first hand of tier `k`, or 0 where there is none.
pub open spec fn first_position(hands: Seq<Hand>, k: i8) -> nat
    decreases hands.len(),
{
    if hands.len() == 0 {
        0
    } else if hands[0].tier == k {
        hands[0].position as nat
    } else {
        first_position(hands.drop_first(), k)
    }
}

proof fn lemma_first_position(hands: Seq<Hand>, k: i8, i: int)
    requires
        0 <= i < hands.len(),
        hands[i].tier == k,
        forall|m: int| 0 <= m < i ==> hands[m].tier != k,
    ensures
        first_position(hands, k) == hands[i].position,
    decreases hands.len(),
{
    if i > 0 {
        assert(hands[0].tier != k);
        lemma_first_position(hands.drop_first(), k, i - 1);
    }
}

proof fn lemma_no_position(hands: Seq<Hand>, k: i8)
    requires
        forall|m: int| 0 <= m < hands.len() ==> hands[m].tier != k,
    ensures
        first_position(hands, k) == 0,
    decreases hands.len(),
{
    if hands.len() > 0 {
        lemma_no_position(hands.drop_first(), k);
    }
}

/// The position of the first hand of tier `k`.
fn position_of(face: &Face, k: i8) -> (p: u32)
    ensures
        p == first_position(face.hands@, k),
{
    let mut i: usize = 0;
    while i < face.hands.len()
        invariant
            i <= face.hands@.len(),
            forall|m: int| 0 <= m < i ==> face.hands@[m].tier != k,
        decreases face.hands@.len() - i,
    {
        if face.hands[i].tier == k {
            proof {
                lemma_first_position(face.hands@, k, i as int);
            }
            return face.hands[i].position;
        }
        i = i + 1;
    }
    proof {
        lemma_no_position(face.hands@, k);
    }
    0
}

/// The big readout: the beat's position, four digits in the block font, one
/// line per glyph row, in the primary colour.
pub open spec fn readout_rows(face: Face, theme: Theme) -> Seq<RowView> {
    Seq::new(
        HEIGHT as nat,
        |r: int| plain_row(rendered_row(zero_padded(first_position(face.hands@, 0)), r), fg_ink(theme.primary)),
    )
}

fn readout(face: &Face, theme: &Theme) -> (rows: Vec<Row>)
    ensures
        rows@.map_values(|r: Row| r@) == readout_rows(*face, *theme),
{
    let beat = position_of(face, 0);
    let digits = zero_pad(beat);
    let glyphs = render(digits.as_str());
    let mut rows: Vec<Row> = Vec::new();
    let mut r: usize = 0;
    while r < HEIGHT
        invariant
            r <= HEIGHT,
            digits@ == zero_padded(first_position(face.hands@, 0)),
            forall|j: int| 0 <= j < HEIGHT ==> #[trigger] glyphs@[j]@ == rendered_row(digits@, j),
            rows@.len() == r,
            forall|j: int| 0 <= j < r ==> (#[trigger] rows@[j])@ == readout_rows(*face, *theme)[j],
        decreases HEIGHT - r,
    {
        rows.push(line_of(glyphs[r].as_str(), fg_of(theme.primary)));
        r = r + 1;
    }
    assert(rows@.map_values(|x: Row| x@) =~= readout_rows(*face, *theme));
    rows
}

/// A hand's line: its label to fourteen columns in the label colour, its
/// position to four in the text colour.
pub open spec fn hand_row(h: Hand, theme: Theme) -> RowView {
    (
        seq![
            (pad_right(hand_label(h.tier as int, h.name@), 14), fg_ink(theme.label)),
            (pad_left(decimal(h.position as nat), 4), fg_ink(theme.text)),
        ],
        bare(),
    )
}

/// One line per hand, in order.
pub open spec fn hand_rows(hands: Seq<Hand>, theme: Theme) -> Seq<RowView> {
    hands.map_values(|h: Hand| hand_row(h, theme))
}

fn row_of(runs: Vec<Run>, ink: Ink) -> (r: Row)
    ensures
        r@ == (runs@.map_values(|x: Run| x@), ink),
{
    Row { runs, ink }
}

fn hand_line(h: &Hand, theme: &Theme) -> (r: Row)
    ensures
        r@ == hand_row(*h, *theme),
{
    let mut label = String::new();
    let l = h.label();
    push_padded_right(&mut label, l.as_str(), 14);
    let mut d = String::new();
    push_decimal(&mut d, h.position as u64);
    let k = d.unicode_len();
    let mut pos = repeat_char(' ', if k < 4 { 4 - k } else { 0 });
    push_str(&mut pos, d.as_str());
    let mut runs: Vec<Run> = Vec::new();
    runs.push(Run { text: label, ink: fg_of(theme.label) });
    runs.push(Run { text: pos, ink: fg_of(theme.text) });
    let r = row_of(runs, no_ink());
    assert(r@.0 =~= hand_row(*h, *theme).0);
    r
}

fn hand_lines_of(face: &Face, theme: &Theme) -> (rows: Vec<Row>)
    ensures
        rows@.map_values(|r: Row| r@) == hand_rows(face.hands@, *theme),
{
    let mut rows: Vec<Row> = Vec::new();
    let mut i: usize = 0;
    while i < face.hands.len()
        invariant
            i <= face.hands@.len(),
            rows@.len() == i,
            forall|j: int| 0 <= j < i ==> (#[trigger] rows@[j])@ == hand_row(face.hands@[j], *theme),
        decreases face.hands@.len() - i,
    {
        rows.push(hand_line(&face.hands[i], theme));
        i = i + 1;
    }
    assert(rows@.map_values(|r: Row| r@) =~= hand_rows(face.hands@, *theme));
    rows
}

/// The second dial's lines, its calendar named by `heading`: a blank line;
/// the calendar in the label colour, its year and day in bold, and what the
/// year counts from; a bar of the local day in the second block colour and
/// its percentage; and the anchor revision.
pub open spec fn local_rows(l: Local, heading: Seq<char>, theme: Theme) -> Seq<RowView> {
    seq![
        plain_row(Seq::empty(), bare()),
        (
            seq![
                (pad_right(heading, 14), fg_ink(theme.label)),
                ("year "@ + l.year@ + "  day "@ + l.day@, Ink { fg: Some(theme.text), bg: None, bold: true }),
                ("   counted from the anchor — year 1 began there"@, fg_ink(theme.label)),
            ],
            bare(),
        ),
        (
            seq![
                (bar_of('▓', '░', (l.through_day * 40 / 100) as nat, 40) + " "@, fg_ink(
                    theme.blocks@[1int % (theme.blocks@.len() as int)],
                )),
                (decimal(l.through_day as nat) + "% through the local day"@, fg_ink(theme.label)),
            ],
            bare(),
        ),
        plain_row(
            "anchor revision "@ + decimal(l.revision as nat)
                + " — an anchor is an observation and is versioned (Rule J)"@,
            fg_ink(theme.label),
        ),
    ]
}

/// The second dial's lines, where there is a second dial.
pub open spec fn local_rows_of(local: Option<Local>, theme: Theme) -> Seq<RowView> {
    match local {
        None => Seq::empty(),
        Some(l) => local_rows(l, uppercase(l.calendar@), theme),
    }
}

fn local_lines_of(face: &Face, theme: &Theme) -> (rows: Vec<Row>)
    requires
        theme.blocks@.len() > 0,
        face.local matches Some(l) ==> l.through_day <= 100,
    ensures
        rows@.map_values(|r: Row| r@) == local_rows_of(face.local, *theme),
{
    let l = match &face.local {
        None => {
            let rows: Vec<Row> = Vec::new();
            assert(rows@.map_values(|r: Row| r@) =~= local_rows_of(face.local, *theme));
            return rows;
        },
        Some(l) => l,
    };
    let upper = to_upper(l.calendar.as_str());
    let mut rows: Vec<Row> = Vec::new();
    rows.push(line_of("", no_ink()));
    let mut name = String::new();
    push_padded_right(&mut name, upper.as_str(), 14);
    let mut when = String::new();
    push_str(&mut when, "year ");
    push_str(&mut when, l.year.as_str());
    push_str(&mut when, "  day ");
    push_str(&mut when, l.day.as_str());
    let mut runs: Vec<Run> = Vec::new();
    runs.push(Run { text: name, ink: fg_of(theme.label) });
    runs.push(Run { text: when, ink: Ink { fg: Some(theme.text), bg: None, bold: true } });
    runs.push(run_of("   counted from the anchor — year 1 began there", fg_of(theme.label)));
    let second = row_of(runs, no_ink());
    rows.push(second);
    let filled = (l.through_day as usize) * 40 / 100;
    let mut b = bar('▓', '░', filled, 40);
    push_str(&mut b, " ");
    let mut pct = String::new();
    push_decimal(&mut pct, l.through_day as u64);
    push_str(&mut pct, "% through the local day");
    let colour = theme.blocks[1 % theme.blocks.len()];
    let mut runs3: Vec<Run> = Vec::new();
    runs3.push(Run { text: b, ink: fg_of(colour) });
    runs3.push(Run { text: pct, ink: fg_of(theme.label) });
    let third = row_of(runs3, no_ink());
    rows.push(third);
    let mut rev = String::new();
    push_str(&mut rev, "anchor revision ");
    push_decimal(&mut rev, l.revision as u64);
    push_str(&mut rev, " — an anchor is an observation and is versioned (Rule J)");
    rows.push(line_of(rev.as_str(), fg_of(theme.label)));
    proof {
        let want = local_rows(*l, uppercase(l.calendar@), *theme);
        reveal_strlit("");
        assert(""@ =~= Seq::<char>::empty());
        assert(rows@[0]@ == want[0]);
        assert(rows@[1]@.0 =~= want[1].0);
        assert(rows@[1]@ == want[1]);
        assert(rows@[2]@ == want[2]) by {
            assert(rows@[2]@.0 =~= want[2].0);
        }
        assert(rows@[3]@ == want[3]);
        assert(rows@.map_values(|r: Row| r@) =~= want);
    }
    rows
}

/// A pane over the whole screen in the theme's background, drawn first.
pub open spec fn background_pane(area: Area, theme: Theme) -> PaneView {
    (area@, Seq::empty(), Ink { fg: None, bg: Some(theme.background), bold: false }, false)
}

fn background(area: Area, theme: &Theme) -> (p: Pane)
    ensures
        p@ == background_pane(area, *theme),
{
    let p = pane_of(area, Vec::new(), Ink { fg: None, bg: Some(theme.background), bold: false }, false);
    assert(p@.1 =~= Seq::<RowView>::empty());
    p
}

// ---------------------------------------------------------------------------
// the plain face
// ---------------------------------------------------------------------------

/// The plain face's bands, top to bottom: a title line, the readout with a
/// line below it, the hands taking what is left, and two lines at the foot.
pub open spec fn plain_lengths() -> Seq<Option<u16>> {
    seq![Some(1u16), Some((HEIGHT + 1) as u16), None, Some(2u16)]
}

/// The plain face's title.
pub const PLAIN_TITLE: &'static str = "UCAL — universe calendar";

/// The plain face: over the background, the title in the label colour; the
/// readout; the hands and the second dial; and the human form and how to
/// quit.
pub open spec fn plain_panes(face: Face, theme: Theme, area: Area) -> Seq<PaneView> {
    let bands = layout_split(area@, true, plain_lengths());
    seq![
        background_pane(area, theme),
        (bands[0], seq![plain_row(PLAIN_TITLE@, bare())], fg_ink(theme.label), false),
        (bands[1], readout_rows(face, theme), bare(), false),
        (bands[2], hand_rows(face.hands@, theme) + local_rows_of(face.local, theme), bare(), false),
        (
            bands[3],
            seq![plain_row(face.human@, fg_ink(theme.text)), plain_row("q to quit"@, fg_ink(theme.label))],
            bare(),
            false,
        ),
    ]
}

/// Lay out the plain face in `area`.
pub fn plain_plan(face: &Face, theme: &Theme, area: Area) -> (panes: Vec<Pane>)
    requires
        theme.blocks@.len() > 0,
        face.local matches Some(l) ==> l.through_day <= 100,
    ensures
        panes_view(panes@) == plain_panes(*face, *theme, area),
{
    let mut lengths: Vec<Option<u16>> = Vec::new();
    lengths.push(Some(1));
    lengths.push(Some((HEIGHT + 1) as u16));
    lengths.push(None);
    lengths.push(Some(2));
    assert(lengths@ =~= plain_lengths());
    let bands = split(area, true, &lengths);
    assert(bands@[0]@ == layout_split(area@, true, plain_lengths())[0]);
    assert(bands@[1]@ == layout_split(area@, true, plain_lengths())[1]);
    assert(bands@[2]@ == layout_split(area@, true, plain_lengths())[2]);
    assert(bands@[3]@ == layout_split(area@, true, plain_lengths())[3]);
    let mut panes: Vec<Pane> = Vec::new();
    panes.push(background(area, theme));
    let mut title: Vec<Row> = Vec::new();
    title.push(line_of(PLAIN_TITLE, no_ink()));
    let p1 = pane_of(bands[0], title, fg_of(theme.label), false);
    panes.push(p1);
    let p2 = pane_of(bands[1], readout(face, theme), no_ink(), false);
    panes.push(p2);
    let mut body = hand_lines_of(face, theme);
    let mut local = local_lines_of(face, theme);
    let ghost h = body@;
    let ghost lo = local@;
    body.append(&mut local);
    assert(body@.map_values(|r: Row| r@) =~= hand_rows(face.hands@, *theme) + local_rows_of(face.local, *theme)) by {
        assert(body@ =~= h + lo);
        assert(h.map_values(|r: Row| r@) == hand_rows(face.hands@, *theme));
        assert(lo.map_values(|r: Row| r@) == local_rows_of(face.local, *theme));
    }
    let p3 = pane_of(bands[2], body, no_ink(), false);
    panes.push(p3);
    let mut foot: Vec<Row> = Vec::new();
    foot.push(line_of(face.human.as_str(), fg_of(theme.text)));
    foot.push(line_of("q to quit", fg_of(theme.label)));
    let p4 = pane_of(bands[3], foot, no_ink(), false);
    panes.push(p4);
    proof {
        let want = plain_panes(*face, *theme, area);
        assert(panes@[1]@.1 =~= want[1].1);
        assert(panes@[4]@.1 =~= want[4].1);
        assert(panes_view(panes@) =~= want);
    }
    panes
}

// ---------------------------------------------------------------------------
// the LCARS face
// ---------------------------------------------------------------------------

/// `n` copies of `c`.
pub open spec fn run_of_chars(c: char, n: nat) -> Seq<char> {
    Seq::new(n, |_i: int| c)
}

/// The first hand of tier `k`, where there is one.
pub open spec fn first_hand(hands: Seq<Hand>, k: i8) -> Option<Hand>
    decreases hands.len(),
{
    if hands.len() == 0 {
        None
    } else if hands[0].tier == k {
        Some(hands[0])
    } else {
        first_hand(hands.drop_first(), k)
    }
}

proof fn lemma_first_hand(hands: Seq<Hand>, k: i8, i: int)
    requires
        0 <= i < hands.len(),
        hands[i].tier == k,
        forall|m: int| 0 <= m < i ==> hands[m].tier != k,
    ensures
        first_hand(hands, k) == Some(hands[i]),
    decreases hands.len(),
{
    if i > 0 {
        assert(hands[0].tier != k);
        lemma_first_hand(hands.drop_first(), k, i - 1);
    }
}

proof fn lemma_no_hand(hands: Seq<Hand>, k: i8)
    requires
        forall|m: int| 0 <= m < hands.len() ==> hands[m].tier != k,
    ensures
        first_hand(hands, k) is None,
    decreases hands.len(),
{
    if hands.len() > 0 {
        lemma_no_hand(hands.drop_first(), k);
    }
}

/// The rail: a fixed width on the left, the main panel taking the rest.
pub open spec fn lcars_columns() -> Seq<Option<u16>> {
    seq![Some(18u16), None]
}

/// The rail's elbow above its blocks.
pub open spec fn elbow_lengths() -> Seq<Option<u16>> {
    seq![Some(4u16), None]
}

/// One block of three lines per hand, and the rest of the rail below them.
pub open spec fn block_lengths(n: nat) -> Seq<Option<u16>> {
    Seq::new(n, |_i: int| Some(3u16)).push(None)
}

/// The main panel's bands: the header, the readout and a line, the arc, the
/// blur, what is left, and the bottom bar.
pub open spec fn main_lengths() -> Seq<Option<u16>> {
    seq![Some(4u16), Some((HEIGHT + 1) as u16), Some(2u16), Some(4u16), None, Some(2u16)]
}

/// The elbow: a header bar turning down into the rail, in the primary colour.
pub open spec fn elbow_rows() -> Seq<RowView> {
    seq![
        plain_row(run_of_chars('▄', 16), bare()),
        plain_row(run_of_chars('█', 16), bare()),
        plain_row(run_of_chars('█', 16), bare()),
        plain_row(run_of_chars('█', 7) + run_of_chars('▀', 9), bare()),
    ]
}

/// The rail's colour for block `i`: the theme's blocks, cycled.
pub open spec fn block_colour(theme: Theme, i: int) -> Color {
    theme.blocks@[i % (theme.blocks@.len() as int)]
}

/// The rail below the last block, to the bottom of the screen: a half-block
/// edge, then solid colour.
pub open spec fn filler_rows(colour: Color, background: Color, height: nat) -> Seq<RowView> {
    Seq::new(
        height,
        |i: int|
            inked_row(
                if i == 0 { run_of_chars('▄', 16) } else { run_of_chars(' ', 16) },
                Ink { fg: Some(colour), bg: Some(if i == 0 { background } else { colour }), bold: false },
            ),
    )
}

/// A hand's block on the rail: an edge, its label in capitals on the block's
/// colour, and its position in bold.
pub open spec fn block_rows_of(h: Hand, colour: Color, theme: Theme) -> Seq<RowView> {
    seq![
        inked_row(run_of_chars('▄', 16), fg_ink(colour)),
        inked_row(
            pad_left(uppercase(hand_label(h.tier as int, h.name@)), 15) + " "@,
            Ink { fg: Some(theme.background), bg: Some(colour), bold: false },
        ),
        inked_row(pad_left(decimal(h.position as nat), 15) + " "@, Ink { fg: Some(colour), bg: None, bold: true }),
    ]
}

/// The header of the main panel.
pub const LCARS_TITLE: &'static str = " UNIVERSE CALENDAR · UC1";
/// The line under it.
pub const LCARS_SUBTITLE: &'static str = " ABSOLUTE TIME · PLANCK TICKS · BASE FIVE";
/// The arc's tag.
pub const ARC_TAG: &'static str = " T1 ARC ";
/// What the arc's pace is.
pub const ARC_PACE: &'static str = "ONE STOP EVERY 2 MIN 26 S";
/// What the blur bar is.
pub const BLUR_NOTE: &'static str = "T-1 FLICKER · 66 000 PER SECOND · A POSITION, NOT A NUMBER";
/// How to leave.
pub const DISENGAGE: &'static str = " Q TO DISENGAGE";

/// The header lines.
pub open spec fn head_rows(theme: Theme) -> Seq<RowView> {
    seq![
        inked_row(LCARS_TITLE@, Ink { fg: Some(theme.background), bg: Some(theme.primary), bold: true }),
        plain_row(Seq::empty(), bare()),
        inked_row(LCARS_SUBTITLE@, fg_ink(theme.label)),
        plain_row(Seq::empty(), bare()),
    ]
}

/// The arc's line: the hand a reader tells the time by, four digits.
pub open spec fn arc_row(face: Face, theme: Theme) -> RowView {
    (
        seq![
            (ARC_TAG@, Ink { fg: Some(theme.background), bg: Some(theme.blocks@[2]), bold: false }),
            ("  "@ + zero_padded(first_position(face.hands@, 1)) + "  "@, Ink {
                fg: Some(theme.text),
                bg: None,
                bold: true,
            }),
            (ARC_PACE@, fg_ink(theme.label)),
        ],
        bare(),
    )
}

/// The blur: the `T-1` hand as a bar two columns short of the band, and what
/// it is; nothing where the face has no such hand.
pub open spec fn blur_panes(face: Face, theme: Theme, band: (u16, u16, u16, u16)) -> Seq<PaneView> {
    match first_hand(face.hands@, -1i8) {
        None => Seq::empty(),
        Some(h) => {
            let width: nat = if band.2 >= 2 { (band.2 - 2) as nat } else { 0 };
            let filled: nat = ((h.position * 1000 / 3125) * width / 1000) as nat;
            seq![
                (
                    band,
                    seq![
                        plain_row(bar_of('▓', '░', filled, width), fg_ink(theme.blur)),
                        plain_row(BLUR_NOTE@, fg_ink(theme.label)),
                    ],
                    bare(),
                    false,
                ),
            ]
        },
    }
}

/// The bottom bar.
pub open spec fn bottom_rows(theme: Theme) -> Seq<RowView> {
    seq![
        inked_row(run_of_chars('▄', 173), fg_ink(theme.primary)),
        inked_row(DISENGAGE@, Ink { fg: Some(theme.background), bg: Some(theme.primary), bold: false }),
    ]
}

/// The rail: the elbow, the filler below the blocks, then one block per hand.
pub open spec fn rail_panes(face: Face, theme: Theme, rail: (u16, u16, u16, u16)) -> Seq<PaneView> {
    let parts = layout_split(rail, true, elbow_lengths());
    let n = face.hands@.len();
    let blocks = layout_split(parts[1], true, block_lengths(n));
    let tail = blocks[n as int];
    seq![
        (parts[0], elbow_rows(), fg_ink(theme.primary), false),
        (tail, filler_rows(block_colour(theme, n as int), theme.background, tail.3 as nat), bare(), false),
    ] + Seq::new(
        n,
        |i: int| (blocks[i], block_rows_of(face.hands@[i], block_colour(theme, i), theme), bare(), false),
    )
}

/// The main panel: header, readout, arc, blur, the human form and the second
/// dial, and the bottom bar.
pub open spec fn main_panes(face: Face, theme: Theme, main: (u16, u16, u16, u16)) -> Seq<PaneView> {
    let bands = layout_split(main, true, main_lengths());
    seq![
        (bands[0], head_rows(theme), bare(), false),
        (bands[1], readout_rows(face, theme), bare(), false),
        (bands[2], seq![arc_row(face, theme)], bare(), false),
    ] + blur_panes(face, theme, bands[3]) + seq![
        (
            bands[4],
            seq![plain_row(Seq::empty(), bare()), plain_row(face.human@, fg_ink(theme.text))] + local_rows_of(
                face.local,
                theme,
            ),
            bare(),
            false,
        ),
        (bands[5], bottom_rows(theme), bare(), false),
    ]
}

/// The LCARS face: over the background, the rail and the main panel.
pub open spec fn lcars_panes(face: Face, theme: Theme, area: Area) -> Seq<PaneView> {
    let cols = layout_split(area@, false, lcars_columns());
    seq![background_pane(area, theme)] + rail_panes(face, theme, cols[0]) + main_panes(face, theme, cols[1])
}

fn area_of(v: &Vec<Area>, i: usize) -> (a: Area)
    requires
        i < v@.len(),
    ensures
        a == v@[i as int],
{
    v[i]
}

fn rail_plan(face: &Face, theme: &Theme, rail: Area, panes: &mut Vec<Pane>)
    requires
        theme.blocks@.len() > 0,
        face.hands@.len() < 65535,
    ensures
        panes_view(final(panes)@) == panes_view(old(panes)@) + rail_panes(*face, *theme, rail@),
{
    let mut el: Vec<Option<u16>> = Vec::new();
    el.push(Some(4));
    el.push(None);
    assert(el@ =~= elbow_lengths());
    let parts = split(rail, true, &el);
    assert(parts@[0]@ == layout_split(rail@, true, elbow_lengths())[0]);
    assert(parts@[1]@ == layout_split(rail@, true, elbow_lengths())[1]);
    let n = face.hands.len();
    let mut bl: Vec<Option<u16>> = Vec::new();
    let mut k: usize = 0;
    while k < n
        invariant
            k <= n,
            n == face.hands@.len(),
            bl@ =~= Seq::new(k as nat, |_i: int| Some(3u16)),
        decreases n - k,
    {
        bl.push(Some(3));
        k = k + 1;
    }
    bl.push(None);
    assert(bl@ =~= block_lengths(n as nat));
    let blocks = split(parts[1], true, &bl);
    let ghost want = rail_panes(*face, *theme, rail@);
    let ghost start = panes_view(panes@);
    let mut elbow: Vec<Row> = Vec::new();
    let e1 = repeat_char('▄', 16);
    let e2 = repeat_char('█', 16);
    let mut e3 = repeat_char('█', 7);
    let e4 = repeat_char('▀', 9);
    push_str(&mut e3, e4.as_str());
    elbow.push(line_of(e1.as_str(), no_ink()));
    elbow.push(line_of(e2.as_str(), no_ink()));
    elbow.push(line_of(e2.as_str(), no_ink()));
    elbow.push(line_of(e3.as_str(), no_ink()));
    let p0 = pane_of(parts[0], elbow, fg_of(theme.primary), false);
    assert(p0@ == want[0]) by {
        assert(p0@.1 =~= elbow_rows());
    }
    panes.push(p0);
    let tail = area_of(&blocks, n);
    assert(tail@ == layout_split(parts[1]@, true, block_lengths(n as nat))[n as int]);
    let colour = theme.blocks[n % theme.blocks.len()];
    let mut filler: Vec<Row> = Vec::new();
    let mut i: u16 = 0;
    while i < tail.height
        invariant
            i <= tail.height,
            filler@.len() == i,
            forall|j: int|
                0 <= j < i ==> (#[trigger] filler@[j])@ == filler_rows(colour, theme.background, tail.height as nat)[j],
        decreases tail.height - i,
    {
        let t = if i == 0 { repeat_char('▄', 16) } else { repeat_char(' ', 16) };
        let bg = if i == 0 { theme.background } else { colour };
        filler.push(inked_line(t.as_str(), Ink { fg: Some(colour), bg: Some(bg), bold: false }));
        i = i + 1;
    }
    let p1 = pane_of(tail, filler, no_ink(), false);
    assert(p1@ == want[1]) by {
        assert(p1@.1 =~= filler_rows(colour, theme.background, tail.height as nat));
    }
    panes.push(p1);
    let mut h: usize = 0;
    while h < n
        invariant
            h <= n,
            n == face.hands@.len(),
            theme.blocks@.len() > 0,
            blocks@.len() == n + 1,
            blocks@.map_values(|a: Area| a@) == layout_split(parts@[1]@, true, block_lengths(n as nat)),
            parts@[1]@ == layout_split(rail@, true, elbow_lengths())[1],
            want == rail_panes(*face, *theme, rail@),
            want.len() == 2 + n,
            panes_view(panes@) == start + want.take(2 + h),
        decreases n - h,
    {
        let hand = &face.hands[h];
        let c = theme.blocks[h % theme.blocks.len()];
        let label = hand.label();
        let up = to_upper(label.as_str());
        let k = up.unicode_len();
        let mut t2 = repeat_char(' ', if k < 15 { 15 - k } else { 0 });
        push_str(&mut t2, up.as_str());
        push_str(&mut t2, " ");
        let mut d = String::new();
        push_decimal(&mut d, hand.position as u64);
        let kd = d.unicode_len();
        let mut t3 = repeat_char(' ', if kd < 15 { 15 - kd } else { 0 });
        push_str(&mut t3, d.as_str());
        push_str(&mut t3, " ");
        let mut rows: Vec<Row> = Vec::new();
        let t1 = repeat_char('▄', 16);
        rows.push(inked_line(t1.as_str(), fg_of(c)));
        rows.push(inked_line(t2.as_str(), Ink { fg: Some(theme.background), bg: Some(c), bold: false }));
        rows.push(inked_line(t3.as_str(), Ink { fg: Some(c), bg: None, bold: true }));
        let b = area_of(&blocks, h);
        assert(b@ == layout_split(parts@[1]@, true, block_lengths(n as nat))[h as int]);
        let p = pane_of(b, rows, no_ink(), false);
        assert(p@ == want[2 + h]) by {
            assert(p@.1 =~= block_rows_of(face.hands@[h as int], block_colour(*theme, h as int), *theme));
        }
        let ghost before = panes_view(panes@);
        panes.push(p);
        assert(panes_view(panes@) =~= before.push(p@));
        assert(want.take(2 + h + 1) =~= want.take(2 + h).push(want[2 + h]));
        h = h + 1;
    }
    assert(want.take(2 + n) =~= want);
}

fn main_plan(face: &Face, theme: &Theme, main: Area, panes: &mut Vec<Pane>)
    requires
        theme.blocks@.len() >= 3,
        face.local matches Some(l) ==> l.through_day <= 100,
        forall|i: int| 0 <= i < face.hands@.len() ==> #[trigger] face.hands@[i].position < 3125,
    ensures
        panes_view(final(panes)@) == panes_view(old(panes)@) + main_panes(*face, *theme, main@),
{
    let mut ml: Vec<Option<u16>> = Vec::new();
    ml.push(Some(4));
    ml.push(Some((HEIGHT + 1) as u16));
    ml.push(Some(2));
    ml.push(Some(4));
    ml.push(None);
    ml.push(Some(2));
    assert(ml@ =~= main_lengths());
    let bands = split(main, true, &ml);
    let ghost sp = layout_split(main@, true, main_lengths());
    assert(forall|j: int| 0 <= j < 6 ==> bands@[j]@ == #[trigger] sp[j]) by {
        assert(bands@.map_values(|a: Area| a@) == sp);
        assert forall|j: int| 0 <= j < 6 implies bands@[j]@ == #[trigger] sp[j] by {
            assert(bands@.map_values(|a: Area| a@)[j] == bands@[j]@);
        }
    }
    let ghost start = panes_view(panes@);
    let mut head: Vec<Row> = Vec::new();
    head.push(inked_line(LCARS_TITLE, Ink { fg: Some(theme.background), bg: Some(theme.primary), bold: true }));
    head.push(line_of("", no_ink()));
    head.push(inked_line(LCARS_SUBTITLE, fg_of(theme.label)));
    head.push(line_of("", no_ink()));
    proof {
        reveal_strlit("");
        assert(""@ =~= Seq::<char>::empty());
    }
    let p0 = pane_of(bands[0], head, no_ink(), false);
    assert(p0@.1 =~= head_rows(*theme));
    panes.push(p0);
    let p1 = pane_of(bands[1], readout(face, theme), no_ink(), false);
    panes.push(p1);
    let arc = position_of(face, 1);
    let mut mid = String::new();
    push_str(&mut mid, "  ");
    let z = zero_pad(arc);
    push_str(&mut mid, z.as_str());
    push_str(&mut mid, "  ");
    let mut runs: Vec<Run> = Vec::new();
    runs.push(run_of(ARC_TAG, Ink { fg: Some(theme.background), bg: Some(theme.blocks[2]), bold: false }));
    runs.push(Run { text: mid, ink: Ink { fg: Some(theme.text), bg: None, bold: true } });
    runs.push(run_of(ARC_PACE, fg_of(theme.label)));
    let arc_line = row_of(runs, no_ink());
    assert(arc_line@ == arc_row(*face, *theme)) by {
        assert(arc_line@.0 =~= arc_row(*face, *theme).0);
    }
    let mut arc_rows: Vec<Row> = Vec::new();
    arc_rows.push(arc_line);
    let p2 = pane_of(bands[2], arc_rows, no_ink(), false);
    assert(p2@.1 =~= seq![arc_row(*face, *theme)]);
    panes.push(p2);
    let ghost three = panes_view(panes@);
    assert(three =~= start + seq![
        (sp[0], head_rows(*theme), bare(), false),
        (sp[1], readout_rows(*face, *theme), bare(), false),
        (sp[2], seq![arc_row(*face, *theme)], bare(), false),
    ]);
    let mut i: usize = 0;
    while i < face.hands.len() && face.hands[i].tier != -1
        invariant
            i <= face.hands@.len(),
            forall|m: int| 0 <= m < i ==> face.hands@[m].tier != -1,
        decreases face.hands@.len() - i,
    {
        i = i + 1;
    }
    if i < face.hands.len() {
        let hb = &face.hands[i];
        proof {
            lemma_first_hand(face.hands@, -1i8, i as int);
        }
        let band = bands[3];
        let width: usize = if band.width >= 2 { (band.width - 2) as usize } else { 0 };
        assert(face.hands@[i as int].position < 3125);
        let pm = hb.per_mille();
        assert(pm <= 1000) by (nonlinear_arith)
            requires
                pm == hb.position * 1000 / 3125,
                hb.position < 3125,
        ;
        assert(pm as usize * width <= 1000 * 65535) by (nonlinear_arith)
            requires
                pm <= 1000,
                width <= 65535,
        ;
        let filled = (pm as usize) * width / 1000;
        let b = bar('▓', '░', filled, width);
        let mut rows: Vec<Row> = Vec::new();
        rows.push(line_of(b.as_str(), fg_of(theme.blur)));
        rows.push(line_of(BLUR_NOTE, fg_of(theme.label)));
        let p = pane_of(band, rows, no_ink(), false);
        assert(seq![p@] =~= blur_panes(*face, *theme, sp[3])) by {
            assert(p@.1 =~= blur_panes(*face, *theme, sp[3])[0].1);
        }
        panes.push(p);
    } else {
        proof {
            lemma_no_hand(face.hands@, -1i8);
        }
    }
    let ghost four = panes_view(panes@);
    assert(four =~= three + blur_panes(*face, *theme, sp[3]));
    let mut tail: Vec<Row> = Vec::new();
    tail.push(line_of("", no_ink()));
    tail.push(line_of(face.human.as_str(), fg_of(theme.text)));
    let mut local = local_lines_of(face, theme);
    let ghost t0 = tail@;
    let ghost l0 = local@;
    tail.append(&mut local);
    assert(tail@.map_values(|r: Row| r@) =~= seq![plain_row(Seq::empty(), bare()), plain_row(face.human@, fg_ink(theme.text))]
        + local_rows_of(face.local, *theme)) by {
        assert(tail@ =~= t0 + l0);
        assert(l0.map_values(|r: Row| r@) == local_rows_of(face.local, *theme));
    }
    let p4 = pane_of(bands[4], tail, no_ink(), false);
    panes.push(p4);
    let mut bottom: Vec<Row> = Vec::new();
    let bar_line = repeat_char('▄', 173);
    bottom.push(inked_line(bar_line.as_str(), fg_of(theme.primary)));
    bottom.push(inked_line(DISENGAGE, Ink { fg: Some(theme.background), bg: Some(theme.primary), bold: false }));
    let p5 = pane_of(bands[5], bottom, no_ink(), false);
    assert(p5@.1 =~= bottom_rows(*theme));
    panes.push(p5);
    assert(panes_view(panes@) =~= start + main_panes(*face, *theme, main@));
}

/// Lay out the LCARS face in `area`.
pub fn lcars_plan(face: &Face, theme: &Theme, area: Area) -> (panes: Vec<Pane>)
    requires
        theme.blocks@.len() >= 3,
        face.hands@.len() < 65535,
        face.local matches Some(l) ==> l.through_day <= 100,
        forall|i: int| 0 <= i < face.hands@.len() ==> #[trigger] face.hands@[i].position < 3125,
    ensures
        panes_view(panes@) == lcars_panes(*face, *theme, area),
{
    let mut lc: Vec<Option<u16>> = Vec::new();
    lc.push(Some(18));
    lc.push(None);
    assert(lc@ =~= lcars_columns());
    let cols = split(area, false, &lc);
    assert(cols@[0]@ == layout_split(area@, false, lcars_columns())[0]);
    assert(cols@[1]@ == layout_split(area@, false, lcars_columns())[1]);
    let mut panes: Vec<Pane> = Vec::new();
    panes.push(background(area, theme));
    assert(panes_view(panes@) =~= seq![background_pane(area, *theme)]);
    rail_plan(face, theme, cols[0], &mut panes);
    main_plan(face, theme, cols[1], &mut panes);
    panes
}

/// Lay out `face` in `area`: the LCARS face for a theme that asks for it,
/// else the plain one.
pub fn face_plan(face: &Face, theme: &Theme, area: Area) -> (panes: Vec<Pane>)
    requires
        theme.blocks@.len() >= 3 || !theme.lcars,
        theme.blocks@.len() > 0,
        face.hands@.len() < 65535,
        face.local matches Some(l) ==> l.through_day <= 100,
        forall|i: int| 0 <= i < face.hands@.len() ==> #[trigger] face.hands@[i].position < 3125,
    ensures
        theme.lcars ==> panes_view(panes@) == lcars_panes(*face, *theme, area),
        !theme.lcars ==> panes_view(panes@) == plain_panes(*face, *theme, area),
{
    if theme.lcars {
        lcars_plan(face, theme, area)
    } else {
        plain_plan(face, theme, area)
    }
}

} // verus!
