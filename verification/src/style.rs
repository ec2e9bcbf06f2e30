//! Colour, as a table of roles rather than escape sequences at call sites.
//!
//! A style may add SGR sequences. It may never change a character: stripping
//! the sequences back out of painted text gives the text (see
//! [`lemma_paint_strips_back`]).
use vstd::prelude::*;

use crate::error::{Code, TimeError};
use crate::table::BASELINE_WIDTH;
use crate::text::{
    alphanumeric, char_is_alphanumeric, char_is_digit, chars_of, is_digit, push_char, push_str,
    slice_chars, str_eq, string_of, ESC,
};

verus! {

// ---------------------------------------------------------------------------
// stripping
// ---------------------------------------------------------------------------

/// Where a scan over painted text stands.
#[derive(Clone, Copy, PartialEq, Eq, Debug)]
pub enum Scan {
    /// Ordinary text: characters are kept.
    Text,
    /// Just after an escape character.
    Escape,
    /// Inside a control sequence, waiting for its final byte.
    Csi,
}

/// Whether `c` ends a control sequence (a final byte, `0x40..=0x7e`).
pub open spec fn is_final_byte(c: char) -> bool {
    '\u{40}' <= c && c <= '\u{7e}'
}

/// One character of the scan: what it emits, and where the scan goes.
pub open spec fn strip_step(st: Scan, c: char) -> (Option<char>, Scan) {
    match st {
        Scan::Text => if c == ESC { (None, Scan::Escape) } else { (Some(c), Scan::Text) },
        Scan::Escape => if c == '[' { (None, Scan::Csi) } else { (None, Scan::Text) },
        Scan::Csi => if is_final_byte(c) { (None, Scan::Text) } else { (None, Scan::Csi) },
    }
}

/// The scan over `s` from `st`: the characters kept, and the final state.
pub open spec fn strip_run(st: Scan, s: Seq<char>) -> (Seq<char>, Scan)
    decreases s.len(),
{
    if s.len() == 0 {
        (seq![], st)
    } else {
        let (o, st1) = strip_run(st, s.drop_last());
        let (c, st2) = strip_step(st1, s.last());
        (
            match c {
                Some(ch) => o.push(ch),
                None => o,
            },
            st2,
        )
    }
}

/// `s` with every escape sequence removed.
pub open spec fn stripped(s: Seq<char>) -> Seq<char> {
    strip_run(Scan::Text, s).0
}

/// A scan over `a + b` is a scan over `a` followed by a scan over `b`.
pub proof fn lemma_strip_run_append(st: Scan, a: Seq<char>, b: Seq<char>)
    ensures
        strip_run(st, a + b) == ({
            let (o1, s1) = strip_run(st, a);
            let (o2, s2) = strip_run(s1, b);
            (o1 + o2, s2)
        }),
    decreases b.len(),
{
    if b.len() == 0 {
        assert(a + b =~= a);
        let (o1, s1) = strip_run(st, a);
        assert(o1 + seq![] =~= o1);
    } else {
        assert((a + b).drop_last() =~= a + b.drop_last());
        assert((a + b).last() == b.last());
        lemma_strip_run_append(st, a, b.drop_last());
        let (o1, s1) = strip_run(st, a);
        let (o2, s2) = strip_run(s1, b.drop_last());
        let (c, s3) = strip_step(s2, b.last());
        match c {
            Some(ch) => { assert((o1 + o2).push(ch) =~= o1 + o2.push(ch)); },
            None => {},
        }
    }
}

/// Text with no escape character scans to itself and leaves the scan in text.
pub proof fn lemma_strip_plain(s: Seq<char>)
    requires
        !s.contains(ESC),
    ensures
        strip_run(Scan::Text, s) == (s, Scan::Text),
    decreases s.len(),
{
    if s.len() > 0 {
        assert(!s.drop_last().contains(ESC)) by {
            if s.drop_last().contains(ESC) {
                let i = choose|i: int| 0 <= i < s.drop_last().len() && s.drop_last()[i] == ESC;
                assert(s[i] == ESC);
            }
        }
        lemma_strip_plain(s.drop_last());
        assert(s[s.len() - 1] != ESC);
        assert(s.drop_last().push(s.last()) =~= s);
    }
}

/// A scan over one character is one step.
pub proof fn lemma_strip_one(st: Scan, c: char)
    ensures
        strip_run(st, seq![c]) == ({
            let (o, st2) = strip_step(st, c);
            (
                match o {
                    Some(ch) => seq![ch],
                    None => Seq::<char>::empty(),
                },
                st2,
            )
        }),
{
    let s = seq![c];
    assert(s.drop_last() =~= Seq::<char>::empty());
    assert(s.last() == c);
    assert(strip_run(st, Seq::<char>::empty()) == (Seq::<char>::empty(), st));
    assert(Seq::<char>::empty().push(c) =~= seq![c]);
}

/// A control sequence: escape, `[`, parameter bytes, final `m`.
pub open spec fn csi(params: Seq<char>) -> Seq<char> {
    seq![ESC, '['] + params + seq!['m']
}

/// Parameter bytes: digits and `;`, none of them a final byte or an escape.
pub open spec fn is_param_bytes(p: Seq<char>) -> bool {
    forall|i: int| 0 <= i < p.len() ==> #[trigger] is_digit(p[i]) || p[i] == ';'
}

/// Parameter bytes keep a scan inside its control sequence.
proof fn lemma_strip_params(p: Seq<char>)
    requires
        is_param_bytes(p),
    ensures
        strip_run(Scan::Csi, p) == (Seq::<char>::empty(), Scan::Csi),
    decreases p.len(),
{
    if p.len() > 0 {
        assert(is_param_bytes(p.drop_last())) by {
            assert forall|i: int| 0 <= i < p.drop_last().len() implies #[trigger] is_digit(p.drop_last()[i]) || p.drop_last()[i] == ';' by {
                assert(p.drop_last()[i] == p[i]);
            }
        }
        lemma_strip_params(p.drop_last());
        assert(is_digit(p[p.len() - 1]) || p[p.len() - 1] == ';');
    }
}

/// A whole control sequence scans to nothing, from text back to text.
pub proof fn lemma_strip_csi(p: Seq<char>)
    requires
        is_param_bytes(p),
    ensures
        strip_run(Scan::Text, csi(p)) == (Seq::<char>::empty(), Scan::Text),
{
    let head = seq![ESC, '['];
    assert(head.drop_last() =~= seq![ESC]);
    assert(seq![ESC].drop_last() =~= Seq::<char>::empty());
    lemma_strip_one(Scan::Text, ESC);
    lemma_strip_one(Scan::Escape, '[');
    lemma_strip_run_append(Scan::Text, seq![ESC], seq!['[']);
    assert(seq![ESC] + seq!['['] =~= head);
    assert(strip_run(Scan::Text, head) == (Seq::<char>::empty(), Scan::Csi));
    lemma_strip_params(p);
    lemma_strip_run_append(Scan::Text, head, p);
    assert(seq!['m'].drop_last() =~= Seq::<char>::empty());
    lemma_strip_one(Scan::Csi, 'm');
    lemma_strip_run_append(Scan::Text, head + p, seq!['m']);
    assert(csi(p) =~= (head + p) + seq!['m']);
}

/// Remove every escape sequence from `s`.
///
/// Handles the full control-sequence shape rather than only what [`Style`]
/// emits, so that a check built on it cannot pass by agreeing with a bug.
pub fn strip_ansi(s: &str) -> (out: String)
    ensures
        out@ == stripped(s@),
{
    let cs = chars_of(s);
    let mut out = String::new();
    let mut st = Scan::Text;
    let mut i: usize = 0;
    while i < cs.len()
        invariant
            i <= cs.len(),
            cs@ == s@,
            strip_run(Scan::Text, cs@.take(i as int)) == (out@, st),
        decreases cs.len() - i,
    {
        let c = cs[i];
        assert(cs@.take(i + 1).drop_last() =~= cs@.take(i as int));
        match st {
            Scan::Text => {
                if c == ESC {
                    st = Scan::Escape;
                } else {
                    push_char(&mut out, c);
                }
            },
            Scan::Escape => {
                if c == '[' {
                    st = Scan::Csi;
                } else {
                    st = Scan::Text;
                }
            },
            Scan::Csi => {
                if '\u{40}' <= c && c <= '\u{7e}' {
                    st = Scan::Text;
                }
            },
        }
        i = i + 1;
    }
    assert(cs@.take(cs.len() as int) =~= cs@);
    out
}

/// `o` cut to its first `k` characters, or all of it when it is shorter.
pub open spec fn take_upto(o: Seq<char>, k: nat) -> Seq<char> {
    if k < o.len() { o.take(k as int) } else { o }
}

/// `s` with the characters a reader sees kept only up to the first `k` of
/// them; every escape sequence stays where it stands.
pub open spec fn keep_shown(s: Seq<char>, k: nat) -> Seq<char>
    decreases s.len(),
{
    if s.len() == 0 {
        Seq::empty()
    } else {
        let (o, st) = strip_run(Scan::Text, s.drop_last());
        let rest = keep_shown(s.drop_last(), k);
        if st == Scan::Text && s.last() != ESC && o.len() >= k {
            rest
        } else {
            rest.push(s.last())
        }
    }
}

/// **Cutting what a reader sees cuts the text they read.** Keeping the first
/// `k` characters a reader sees, and every escape sequence, shows the first
/// `k` characters of what the whole shows, and leaves the scan where the
/// whole leaves it.
pub proof fn lemma_keep_shown(s: Seq<char>, k: nat)
    ensures
        strip_run(Scan::Text, keep_shown(s, k)) == (take_upto(stripped(s), k), strip_run(Scan::Text, s).1),
    decreases s.len(),
{
    if s.len() == 0 {
        assert(keep_shown(s, k) =~= Seq::<char>::empty());
    } else {
        let p = s.drop_last();
        let c = s.last();
        lemma_keep_shown(p, k);
        let (o, st) = strip_run(Scan::Text, p);
        let rest = keep_shown(p, k);
        assert(stripped(p) == o);
        if st == Scan::Text && c != ESC && o.len() >= k {
            assert(stripped(s) == o.push(c));
            if k < o.len() {
                assert(o.push(c).take(k as int) =~= o.take(k as int));
            } else {
                assert(o.push(c).take(k as int) =~= o);
            }
        } else {
            let q = rest.push(c);
            assert(q.drop_last() =~= rest);
            assert(q.last() == c);
            if st == Scan::Text && c != ESC {
                assert(take_upto(o, k) == o);
                assert(take_upto(o.push(c), k) =~= o.push(c));
            }
        }
    }
}

/// Text with no escape character keeps its first `k` characters.
pub proof fn lemma_keep_shown_plain(s: Seq<char>, k: nat)
    requires
        !s.contains(ESC),
    ensures
        keep_shown(s, k) == take_upto(s, k),
    decreases s.len(),
{
    if s.len() > 0 {
        let p = s.drop_last();
        assert(!p.contains(ESC)) by {
            if p.contains(ESC) {
                let i = choose|i: int| 0 <= i < p.len() && p[i] == ESC;
                assert(s[i] == ESC);
            }
        }
        lemma_keep_shown_plain(p, k);
        lemma_strip_plain(p);
        assert(s[s.len() - 1] != ESC);
        assert(p.push(s.last()) =~= s);
        if k < p.len() {
            assert(s.take(k as int) =~= p.take(k as int));
        } else if k == p.len() {
            assert(s.take(k as int) =~= p);
        }
    } else {
        assert(keep_shown(s, k) =~= s);
    }
}

/// Keeping as many characters as a reader sees keeps everything.
pub proof fn lemma_keep_shown_all(s: Seq<char>, k: nat)
    requires
        stripped(s).len() <= k,
    ensures
        keep_shown(s, k) == s,
    decreases s.len(),
{
    if s.len() > 0 {
        let p = s.drop_last();
        let (o, st) = strip_run(Scan::Text, p);
        assert(stripped(p) == o);
        if st == Scan::Text && s.last() != ESC {
            assert(stripped(s) == o.push(s.last()));
        }
        lemma_keep_shown_all(p, k);
        assert(p.push(s.last()) =~= s);
    } else {
        assert(keep_shown(s, k) =~= s);
    }
}

/// Keeping what a reader sees keeps no character that is not in the run.
pub proof fn lemma_keep_shown_out(s: Seq<char>, k: nat, c: char)
    requires
        !s.contains(c),
    ensures
        !keep_shown(s, k).contains(c),
    decreases s.len(),
{
    if s.len() > 0 {
        let p = s.drop_last();
        assert(!p.contains(c)) by {
            if p.contains(c) {
                let i = choose|i: int| 0 <= i < p.len() && p[i] == c;
                assert(s[i] == c);
            }
        }
        lemma_keep_shown_out(p, k, c);
        let rest = keep_shown(p, k);
        assert(s[s.len() - 1] != c);
        assert(!rest.push(s.last()).contains(c)) by {
            if rest.push(s.last()).contains(c) {
                let i = choose|i: int| 0 <= i < rest.push(s.last()).len() && rest.push(s.last())[i] == c;
                if i < rest.len() {
                    assert(rest[i] == c);
                }
            }
        }
    }
}

/// A scan keeps no character that is not in what it scans.
pub proof fn lemma_strip_keeps_out(st: Scan, s: Seq<char>, c: char)
    requires
        !s.contains(c),
    ensures
        !strip_run(st, s).0.contains(c),
    decreases s.len(),
{
    if s.len() > 0 {
        let p = s.drop_last();
        assert(!p.contains(c)) by {
            if p.contains(c) {
                let i = choose|i: int| 0 <= i < p.len() && p[i] == c;
                assert(s[i] == c);
            }
        }
        lemma_strip_keeps_out(st, p, c);
        let (o, s1) = strip_run(st, p);
        let (e, s2) = strip_step(s1, s.last());
        if let Some(ch) = e {
            assert(ch == s.last());
            assert(s[s.len() - 1] == ch);
            assert(ch != c);
            assert(!o.push(ch).contains(c)) by {
                if o.push(ch).contains(c) {
                    let k = choose|k: int| 0 <= k < o.push(ch).len() && o.push(ch)[k] == c;
                    if k < o.len() {
                        assert(o[k] == c);
                    }
                }
            }
        }
    }
}

/// Keep the first `k` characters of `s` that a reader sees, and every escape
/// sequence.
pub fn keep_shown_string(s: &str, k: usize) -> (out: String)
    ensures
        out@ == keep_shown(s@, k as nat),
{
    let cs = chars_of(s);
    let mut out = String::new();
    let mut st = Scan::Text;
    let mut seen: usize = 0;
    let ghost shown: Seq<char> = Seq::empty();
    let mut i: usize = 0;
    while i < cs.len()
        invariant
            i <= cs.len(),
            cs@ == s@,
            strip_run(Scan::Text, cs@.take(i as int)) == (shown, st),
            seen == shown.len(),
            seen <= i,
            out@ == keep_shown(cs@.take(i as int), k as nat),
        decreases cs.len() - i,
    {
        let c = cs[i];
        assert(cs@.take(i + 1).drop_last() =~= cs@.take(i as int));
        assert(cs@.take(i + 1).last() == c);
        let visible = match st {
            Scan::Text => c != ESC,
            _ => false,
        };
        if !(visible && seen >= k) {
            push_char(&mut out, c);
        }
        match st {
            Scan::Text => {
                if c == ESC {
                    st = Scan::Escape;
                } else {
                    proof {
                        shown = shown.push(c);
                    }
                    seen = seen + 1;
                }
            },
            Scan::Escape => {
                if c == '[' {
                    st = Scan::Csi;
                } else {
                    st = Scan::Text;
                }
            },
            Scan::Csi => {
                if '\u{40}' <= c && c <= '\u{7e}' {
                    st = Scan::Text;
                }
            },
        }
        i = i + 1;
    }
    assert(cs@.take(cs.len() as int) =~= cs@);
    out
}

} // verus!

verus! {

// ---------------------------------------------------------------------------
// appearances
// ---------------------------------------------------------------------------

/// The 16-colour ANSI palette, in its numbering.
#[derive(Clone, Copy, PartialEq, Eq, Debug)]
pub enum Palette {
    /// `#0`.
    Black,
    /// `#1`.
    Red,
    /// `#2`.
    Green,
    /// `#3`.
    Yellow,
    /// `#4`.
    Blue,
    /// `#5`.
    Magenta,
    /// `#6`.
    Cyan,
    /// `#7`.
    White,
    /// `#8`.
    BrightBlack,
    /// `#9`.
    BrightRed,
    /// `#10`.
    BrightGreen,
    /// `#11`.
    BrightYellow,
    /// `#12`.
    BrightBlue,
    /// `#13`.
    BrightMagenta,
    /// `#14`.
    BrightCyan,
    /// `#15`.
    BrightWhite,
}

/// A palette colour's number.
pub open spec fn palette_index(p: Palette) -> int {
    match p {
        Palette::Black => 0,
        Palette::Red => 1,
        Palette::Green => 2,
        Palette::Yellow => 3,
        Palette::Blue => 4,
        Palette::Magenta => 5,
        Palette::Cyan => 6,
        Palette::White => 7,
        Palette::BrightBlack => 8,
        Palette::BrightRed => 9,
        Palette::BrightGreen => 10,
        Palette::BrightYellow => 11,
        Palette::BrightBlue => 12,
        Palette::BrightMagenta => 13,
        Palette::BrightCyan => 14,
        Palette::BrightWhite => 15,
    }
}

/// How one role looks: the effects and the foreground colour it asks for.
#[derive(Clone, Copy, PartialEq, Eq, Debug)]
pub struct Look {
    /// Bold.
    pub bold: bool,
    /// Dimmed.
    pub dimmed: bool,
    /// A foreground colour from the 16-colour ANSI palette.
    pub fg: Option<Palette>,
}

impl Look {
    /// Nothing at all: text painted with it is text.
    pub open spec fn spec_is_plain(&self) -> bool {
        !self.bold && !self.dimmed && self.fg is None
    }

    /// Whether this look renders nothing.
    #[verifier::when_used_as_spec(spec_is_plain)]
    pub fn is_plain(&self) -> (b: bool)
        ensures
            b == self.spec_is_plain(),
    {
        !self.bold && !self.dimmed && self.fg.is_none()
    }

    /// No effect and no colour.
    pub fn none() -> (l: Look)
        ensures
            l.spec_is_plain(),
    {
        Look { bold: false, dimmed: false, fg: None }
    }
}

/// The digit character for `n < 10`.
pub open spec fn digit_char(n: int) -> char {
    (n + 48) as char
}

/// The sequence that turns on a look: its effects in `anstyle`'s order (bold,
/// then dimmed), then its foreground colour.
pub open spec fn sgr_open(l: Look) -> Seq<char> {
    (if l.bold { csi(seq!['1']) } else { Seq::<char>::empty() }) + (if l.dimmed {
        csi(seq!['2'])
    } else {
        Seq::<char>::empty()
    }) + match l.fg {
        Some(p) => if palette_index(p) < 8 {
            csi(seq!['3', digit_char(palette_index(p))])
        } else {
            csi(seq!['9', digit_char(palette_index(p) - 8)])
        },
        None => Seq::<char>::empty(),
    }
}

/// The sequence that resets every attribute.
pub open spec fn sgr_reset() -> Seq<char> {
    csi(seq!['0'])
}

/// `text` painted with `l`: unchanged when there is nothing to paint, else
/// wrapped in the look's sequence and a reset.
pub open spec fn painted(l: Look, text: Seq<char>) -> Seq<char> {
    if l.spec_is_plain() || text.len() == 0 {
        text
    } else {
        sgr_open(l) + text + sgr_reset()
    }
}

/// Formats `text` between `anstyle::Style`'s rendering and its reset
/// (`format!("{s}{text}{s:#}")`).
///
/// The contract restates what anstyle 1.0's source writes: each enabled
/// effect's `ESC [ n m` in bit order (bold `1`, dimmed `2`), then the
/// foreground's `ESC [ 3x m` or `ESC [ 9x m`, and for the alternate form
/// `ESC [ 0 m` unless the style is the empty one.
#[verifier::external_body]
fn anstyle_paint(l: &Look, text: &str) -> (s: String)
    ensures
        s@ == sgr_open(*l) + text@ + (if l.spec_is_plain() { Seq::<char>::empty() } else { sgr_reset() }),
{
    let effects = anstyle::Effects::new()
        .set(anstyle::Effects::BOLD, l.bold)
        .set(anstyle::Effects::DIMMED, l.dimmed);
    let fg = l.fg.map(|p| anstyle::Ansi256Color(p as u8)).and_then(anstyle::Ansi256Color::into_ansi).map(anstyle::Color::Ansi);
    let s = anstyle::Style::new().effects(effects).fg_color(fg);
    format!("{s}{text}{s:#}")
}

/// Paint `text` with `l`, or return it unchanged when `l` renders nothing or
/// `text` is empty.
pub fn paint_look(l: &Look, text: &str) -> (s: String)
    ensures
        s@ == painted(*l, text@),
{
    if l.is_plain() || text.is_empty() {
        return text.to_owned();
    }
    anstyle_paint(l, text)
}

/// A digit is a parameter byte.
proof fn lemma_digit_param(n: int)
    requires
        0 <= n < 10,
    ensures
        is_digit(digit_char(n)),
{
}

/// The opening sequence of a look scans to nothing.
pub proof fn lemma_strip_open(l: Look)
    ensures
        strip_run(Scan::Text, sgr_open(l)) == (Seq::<char>::empty(), Scan::Text),
{
    let a = if l.bold { csi(seq!['1']) } else { Seq::<char>::empty() };
    let b = if l.dimmed { csi(seq!['2']) } else { Seq::<char>::empty() };
    let c = match l.fg {
        Some(p) => if palette_index(p) < 8 {
            csi(seq!['3', digit_char(palette_index(p))])
        } else {
            csi(seq!['9', digit_char(palette_index(p) - 8)])
        },
        None => Seq::<char>::empty(),
    };
    assert(strip_run(Scan::Text, Seq::<char>::empty()) == (Seq::<char>::empty(), Scan::Text));
    assert(is_param_bytes(seq!['1']));
    assert(is_param_bytes(seq!['2']));
    lemma_strip_csi(seq!['1']);
    lemma_strip_csi(seq!['2']);
    match l.fg {
        Some(p) => {
            let n = palette_index(p);
            if n < 8 {
                lemma_digit_param(n);
                assert(is_param_bytes(seq!['3', digit_char(n)]));
                lemma_strip_csi(seq!['3', digit_char(n)]);
            } else {
                lemma_digit_param(n - 8);
                assert(is_param_bytes(seq!['9', digit_char(n - 8)]));
                lemma_strip_csi(seq!['9', digit_char(n - 8)]);
            }
        },
        None => {},
    }
    lemma_strip_run_append(Scan::Text, a, b);
    lemma_strip_run_append(Scan::Text, a + b, c);
    assert(Seq::<char>::empty() + Seq::<char>::empty() =~= Seq::<char>::empty());
}

/// **The strip invariant, for one painted run.** Colour never changes a
/// character: stripping the sequences from painted text gives the text back.
pub proof fn lemma_paint_strips_back(l: Look, text: Seq<char>)
    requires
        !text.contains(ESC),
    ensures
        stripped(painted(l, text)) == text,
        strip_run(Scan::Text, painted(l, text)).1 == Scan::Text,
{
    lemma_strip_plain(text);
    if !(l.spec_is_plain() || text.len() == 0) {
        lemma_strip_open(l);
        assert(is_param_bytes(seq!['0']));
        lemma_strip_csi(seq!['0']);
        lemma_strip_run_append(Scan::Text, sgr_open(l), text);
        lemma_strip_run_append(Scan::Text, sgr_open(l) + text, sgr_reset());
        assert(Seq::<char>::empty() + text =~= text);
        assert(text + Seq::<char>::empty() =~= text);
    }
}

} // verus!

verus! {

// ---------------------------------------------------------------------------
// roles and styles
// ---------------------------------------------------------------------------

/// What a run of text *is*, so a [`Style`] can decide how to show it.
///
/// Roles are about the data, not about an appearance.
#[derive(Clone, Copy, PartialEq, Eq, Structural, PartialOrd, Ord, Hash, Debug)]
#[non_exhaustive]
pub enum Role {
    /// A document heading and the rule beneath it.
    Title,
    /// A field name.
    Key,
    /// An ordinary value.
    Value,
    /// A digit run that is part of the measured value.
    Digits,
    /// The alternating group in a long digit run.
    DigitAlt,
    /// The leading zero run of a fixed-width form.
    Padding,
    /// A separator inside a rendered form.
    Separator,
    /// Explanatory prose attached to a field or a document.
    Note,
    /// A `UCAL-W####` warning.
    Warning,
    /// A `UCAL-E####` error.
    Error,
}

/// A role-to-appearance table.
#[derive(Clone, Copy, PartialEq, Eq, Debug)]
pub struct Style {
    title: Look,
    key: Look,
    value: Look,
    digits: Look,
    digit_alt: Look,
    padding: Look,
    separator: Look,
    note: Look,
    warning: Look,
    error: Look,
}

impl Style {
    /// The look this table gives `role`.
    pub closed spec fn look(self, role: Role) -> Look {
        match role {
            Role::Title => self.title,
            Role::Key => self.key,
            Role::Value => self.value,
            Role::Digits => self.digits,
            Role::DigitAlt => self.digit_alt,
            Role::Padding => self.padding,
            Role::Separator => self.separator,
            Role::Note => self.note,
            Role::Warning => self.warning,
            Role::Error => self.error,
        }
    }

    /// Whether no role in this table renders anything.
    pub open spec fn spec_is_plain(&self) -> bool {
        forall|r: Role| #[trigger] self.look(r).spec_is_plain()
    }

    /// Every role empty. The identity case, and what `to_text` renders with.
    pub fn plain() -> (s: Style)
        ensures
            s.spec_is_plain(),
    {
        let n = Look::none();
        Style {
            title: n,
            key: n,
            value: n,
            digits: n,
            digit_alt: n,
            padding: n,
            separator: n,
            note: n,
            warning: n,
            error: n,
        }
    }

    /// The table [`Style::colored`] returns.
    pub closed spec fn colored_table() -> Style {
        let bright_black = Look { bold: false, dimmed: false, fg: Some(Palette::BrightBlack) };
        let dim = Look { bold: false, dimmed: true, fg: None };
        let none = Look { bold: false, dimmed: false, fg: None };
        Style {
            title: Look { bold: true, dimmed: false, fg: None },
            key: bright_black,
            value: none,
            digits: none,
            digit_alt: bright_black,
            padding: dim,
            separator: dim,
            note: dim,
            warning: Look { bold: false, dimmed: false, fg: Some(Palette::Yellow) },
            error: Look { bold: false, dimmed: false, fg: Some(Palette::Red) },
        }
    }

    /// The shipped colour scheme: the eight ANSI colours plus bold and
    /// dimming, because this output is read in terminals whose palettes are
    /// set by their owners.
    pub fn colored() -> (s: Style)
        ensures
            s == Style::colored_table(),
            s.look(Role::Title) == (Look { bold: true, dimmed: false, fg: None }),
            s.look(Role::Key) == (Look { bold: false, dimmed: false, fg: Some(Palette::BrightBlack) }),
            s.look(Role::Value) == (Look { bold: false, dimmed: false, fg: None }),
            s.look(Role::Digits) == (Look { bold: false, dimmed: false, fg: None }),
            s.look(Role::DigitAlt) == (Look { bold: false, dimmed: false, fg: Some(Palette::BrightBlack) }),
            s.look(Role::Padding) == (Look { bold: false, dimmed: true, fg: None }),
            s.look(Role::Separator) == (Look { bold: false, dimmed: true, fg: None }),
            s.look(Role::Note) == (Look { bold: false, dimmed: true, fg: None }),
            s.look(Role::Warning) == (Look { bold: false, dimmed: false, fg: Some(Palette::Yellow) }),
            s.look(Role::Error) == (Look { bold: false, dimmed: false, fg: Some(Palette::Red) }),
    {
        let bright_black = Look { bold: false, dimmed: false, fg: Some(Palette::BrightBlack) };
        let dim = Look { bold: false, dimmed: true, fg: None };
        Style {
            title: Look { bold: true, dimmed: false, fg: None },
            key: bright_black,
            value: Look::none(),
            digits: Look::none(),
            // The alternation has to be visible without being decorative.
            digit_alt: bright_black,
            padding: dim,
            separator: dim,
            note: dim,
            warning: Look { bold: false, dimmed: false, fg: Some(Palette::Yellow) },
            error: Look { bold: false, dimmed: false, fg: Some(Palette::Red) },
        }
    }

    /// True when no role in this table renders anything.
    pub fn is_plain(&self) -> (b: bool)
        ensures
            b == self.spec_is_plain(),
    {
        let b = self.title.is_plain() && self.key.is_plain() && self.value.is_plain()
            && self.digits.is_plain() && self.digit_alt.is_plain() && self.padding.is_plain()
            && self.separator.is_plain() && self.note.is_plain() && self.warning.is_plain()
            && self.error.is_plain();
        proof {
            if !b {
                if !self.title.spec_is_plain() { assert(!self.look(Role::Title).spec_is_plain()); }
                if !self.key.spec_is_plain() { assert(!self.look(Role::Key).spec_is_plain()); }
                if !self.value.spec_is_plain() { assert(!self.look(Role::Value).spec_is_plain()); }
                if !self.digits.spec_is_plain() { assert(!self.look(Role::Digits).spec_is_plain()); }
                if !self.digit_alt.spec_is_plain() { assert(!self.look(Role::DigitAlt).spec_is_plain()); }
                if !self.padding.spec_is_plain() { assert(!self.look(Role::Padding).spec_is_plain()); }
                if !self.separator.spec_is_plain() { assert(!self.look(Role::Separator).spec_is_plain()); }
                if !self.note.spec_is_plain() { assert(!self.look(Role::Note).spec_is_plain()); }
                if !self.warning.spec_is_plain() { assert(!self.look(Role::Warning).spec_is_plain()); }
                if !self.error.spec_is_plain() { assert(!self.look(Role::Error).spec_is_plain()); }
            }
        }
        b
    }

    /// The appearance for one role.
    pub fn get(&self, role: Role) -> (l: Look)
        ensures
            l == self.look(role),
    {
        match role {
            Role::Title => self.title,
            Role::Key => self.key,
            Role::Value => self.value,
            Role::Digits => self.digits,
            Role::DigitAlt => self.digit_alt,
            Role::Padding => self.padding,
            Role::Separator => self.separator,
            Role::Note => self.note,
            Role::Warning => self.warning,
            Role::Error => self.error,
        }
    }

    /// Wrap `text` in this role's sequences, or return it unchanged when the
    /// role renders nothing or the text is empty.
    pub fn paint(&self, role: Role, text: &str) -> (s: String)
        ensures
            s@ == painted(self.look(role), text@),
    {
        let l = self.get(role);
        paint_look(&l, text)
    }
}

impl Default for Style {
    fn default() -> (s: Style)
        ensures
            s.spec_is_plain(),
    {
        Style::plain()
    }
}

/// **Colour never changes a character.** For every style, role and text
/// that holds no escape character, stripping the painted text gives the text.
pub proof fn lemma_style_paint_strips_back(style: Style, role: Role, text: Seq<char>)
    requires
        !text.contains(ESC),
    ensures
        stripped(painted(style.look(role), text)) == text,
{
    lemma_paint_strips_back(style.look(role), text);
}

/// **Plain paints nothing.** Under a plain style every run is its own text.
pub proof fn lemma_plain_paints_nothing(style: Style, role: Role, text: Seq<char>)
    requires
        style.spec_is_plain(),
    ensures
        painted(style.look(role), text) == text,
{
    assert(style.look(role).spec_is_plain());
}

/// **Empty text is never wrapped**, whatever the style.
pub proof fn lemma_empty_is_never_wrapped(l: Look)
    ensures
        painted(l, Seq::<char>::empty()) == Seq::<char>::empty(),
{
}

// ---------------------------------------------------------------------------
// when to colour
// ---------------------------------------------------------------------------

/// What a `--color` value outside the three is told.
pub const BAD_COLOR: &'static str = "color must be auto, always or never";

/// When to colour.
#[derive(Clone, Copy, PartialEq, Eq, Debug)]
pub enum ColorChoice {
    /// Colour when stdout is a terminal and nothing has asked otherwise.
    Auto,
    /// Always colour, even into a pipe.
    Always,
    /// Never colour.
    Never,
}

impl Default for ColorChoice {
    fn default() -> (c: ColorChoice)
        ensures
            c == ColorChoice::Auto,
    {
        ColorChoice::Auto
    }
}

impl ColorChoice {
    /// Parse a `--color` value: `auto`, `always` or `never`, and nothing else;
    /// anything else is told [`BAD_COLOR`].
    pub fn parse(s: &str) -> (r: Result<ColorChoice, TimeError>)
        ensures
            r == Ok::<ColorChoice, TimeError>(ColorChoice::Auto) <==> s@ == "auto"@,
            r == Ok::<ColorChoice, TimeError>(ColorChoice::Always) <==> s@ == "always"@,
            r == Ok::<ColorChoice, TimeError>(ColorChoice::Never) <==> s@ == "never"@,
            r is Err <==> (s@ != "auto"@ && s@ != "always"@ && s@ != "never"@),
            r matches Err(e) ==> e.code == Code::E0001 && e.context@ == BAD_COLOR@,
    {
        proof {
            reveal_strlit("auto");
            reveal_strlit("always");
            reveal_strlit("never");
            assert("auto"@.len() == 4);
            assert("always"@.len() == 6);
            assert("never"@.len() == 5);
        }
        if str_eq(s, "auto") {
            Ok(ColorChoice::Auto)
        } else if str_eq(s, "always") {
            Ok(ColorChoice::Always)
        } else if str_eq(s, "never") {
            Ok(ColorChoice::Never)
        } else {
            Err(TimeError::with_context(Code::E0001, BAD_COLOR))
        }
    }

    /// The style this choice resolves to.
    ///
    /// Precedence, highest first: an explicit choice, then `NO_COLOR` being
    /// set to something non-empty, then whether stdout is a terminal. The two
    /// facts about the environment are the caller's to read.
    pub open spec fn spec_resolves_colored(self, no_color_env: bool, stdout_is_terminal: bool) -> bool {
        match self {
            ColorChoice::Never => false,
            ColorChoice::Always => true,
            ColorChoice::Auto => !no_color_env && stdout_is_terminal,
        }
    }

    /// Resolve to a concrete style, given whether `NO_COLOR` is set to
    /// something non-empty and whether stdout is a terminal.
    pub fn resolve(self, no_color_env: bool, stdout_is_terminal: bool) -> (s: Style)
        ensures
            self.spec_resolves_colored(no_color_env, stdout_is_terminal) ==> s == Style::colored_table(),
            !self.spec_resolves_colored(no_color_env, stdout_is_terminal) ==> s.spec_is_plain(),
    {
        match self {
            ColorChoice::Never => Style::plain(),
            ColorChoice::Always => Style::colored(),
            ColorChoice::Auto => {
                if no_color_env {
                    return Style::plain();
                }
                if !stdout_is_terminal {
                    return Style::plain();
                }
                Style::colored()
            },
        }
    }
}

/// The style for a run, given every input that can suppress colour.
///
/// `json` wins over everything: colour inside a `--json` document is a defect
/// whether or not a terminal is attached.
pub fn resolve_for_output(choice: ColorChoice, json: bool, no_color_env: bool, stdout_is_terminal: bool) -> (s: Style)
    ensures
        json ==> s.spec_is_plain(),
        !json && choice.spec_resolves_colored(no_color_env, stdout_is_terminal) ==> s == Style::colored_table(),
        !json && !choice.spec_resolves_colored(no_color_env, stdout_is_terminal) ==> s.spec_is_plain(),
{
    if json {
        return Style::plain();
    }
    choice.resolve(no_color_env, stdout_is_terminal)
}

} // verus!

verus! {

// ---------------------------------------------------------------------------
// rendering choices
// ---------------------------------------------------------------------------

/// How to render a document: the style table, plus the choices a reader makes.
///
/// Separate from [`Style`] because these are not appearance: a group separator
/// changes the characters, so it is not covered by the strip invariant.
#[derive(Clone, Copy, Debug)]
pub struct Render {
    /// The role-to-appearance table.
    pub style: Style,
    /// Separator inserted between decimal digit groups, if any.
    pub group: Option<char>,
    /// Available columns.
    pub cols: usize,
}

impl Render {
    /// No colour, no separator, the baseline width.
    pub fn plain() -> (r: Render)
        ensures
            r.style.spec_is_plain(),
            r.group is None,
            r.cols == BASELINE_WIDTH,
    {
        Render { style: Style::plain(), group: None, cols: BASELINE_WIDTH }
    }

    /// A style with no separator, at the baseline width.
    pub fn styled(style: Style) -> (r: Render)
        ensures
            r.style == style,
            r.group is None,
            r.cols == BASELINE_WIDTH,
    {
        Render { style, group: None, cols: BASELINE_WIDTH }
    }

    /// Set the available width, never below the documented baseline.
    pub fn width(self, w: usize) -> (r: Render)
        ensures
            r.style == self.style,
            r.group == self.group,
            r.cols == if w > BASELINE_WIDTH { w } else { BASELINE_WIDTH },
    {
        let mut r = self;
        r.cols = if w > BASELINE_WIDTH { w } else { BASELINE_WIDTH };
        r
    }

    /// The width to render at, given an explicit `--width` and the terminal's:
    /// the first that is given, else the baseline, and never below it.
    pub fn resolve_width(explicit: Option<usize>, terminal: Option<usize>) -> (w: usize)
        ensures
            w == ({
                let chosen: usize = match explicit {
                    Some(e) => e,
                    None => match terminal {
                        Some(t) => t,
                        None => BASELINE_WIDTH,
                    },
                };
                if chosen > BASELINE_WIDTH { chosen } else { BASELINE_WIDTH }
            }),
            w >= BASELINE_WIDTH,
    {
        let chosen = match explicit {
            Some(e) => e,
            None => match terminal {
                Some(t) => t,
                None => BASELINE_WIDTH,
            },
        };
        if chosen > BASELINE_WIDTH { chosen } else { BASELINE_WIDTH }
    }

    /// Set the digit-group separator.
    pub fn group(self, sep: Option<char>) -> (r: Render)
        ensures
            r.style == self.style,
            r.group == sep,
            r.cols == self.cols,
    {
        let mut r = self;
        r.group = sep;
        r
    }
}

impl Default for Render {
    fn default() -> (r: Render)
        ensures
            r.style.spec_is_plain(),
            r.group is None,
            r.cols == BASELINE_WIDTH,
    {
        Render::plain()
    }
}

/// What a group separator that is not one character is told.
pub const SEP_NOT_ONE: &'static str = "the group separator must be exactly one character";

/// What a group separator that is a digit is told.
pub const SEP_IS_DIGIT: &'static str = "the group separator must not be a digit (§6.3)";

/// Validate a digit-group separator: exactly one character, and not a digit.
pub fn parse_group_sep(s: &str) -> (r: Result<char, TimeError>)
    ensures
        r matches Ok(c) ==> s@ == seq![c] && !is_digit(c),
        r is Ok <==> (s@.len() == 1 && !is_digit(s@[0])),
        s@.len() != 1 ==> (r matches Err(e) && e.code == Code::E0001 && e.context@ == SEP_NOT_ONE@),
        s@.len() == 1 && is_digit(s@[0]) ==> (r matches Err(e) && e.code == Code::E0001
            && e.context@ == SEP_IS_DIGIT@),
{
    let cs = chars_of(s);
    if cs.len() != 1 {
        return Err(TimeError::with_context(Code::E0001, SEP_NOT_ONE));
    }
    let c = cs[0];
    if char_is_digit(c) {
        return Err(TimeError::with_context(Code::E0001, SEP_IS_DIGIT));
    }
    assert(s@ =~= seq![c]);
    Ok(c)
}

// ---------------------------------------------------------------------------
// digit grouping
// ---------------------------------------------------------------------------

/// Every character of `d` is a decimal digit.
pub open spec fn all_digits(d: Seq<char>) -> bool {
    forall|i: int| 0 <= i < d.len() ==> #[trigger] is_digit(d[i])
}

/// The sign of a decimal, and the rest.
pub open spec fn sign_of(s: Seq<char>) -> Seq<char> {
    if s.len() > 0 && s[0] == '-' { seq!['-'] } else { Seq::<char>::empty() }
}

/// The digits of a decimal, after any sign.
pub open spec fn body_of(s: Seq<char>) -> Seq<char> {
    if s.len() > 0 && s[0] == '-' { s.skip(1) } else { s }
}

/// The separator between two groups, painted, if one was asked for.
pub open spec fn group_sep(style: Style, sep: Option<char>) -> Seq<char> {
    match sep {
        Some(c) => painted(style.look(Role::Separator), seq![c]),
        None => Seq::<char>::empty(),
    }
}

/// The role of group `k`: digits and the alternate, in turn.
pub open spec fn group_role(k: nat) -> Role {
    if k % 2 == 0 { Role::Digits } else { Role::DigitAlt }
}

/// Groups of three from `d`, the first of them group `k`, each after a
/// separator.
pub open spec fn later_groups(style: Style, sep: Option<char>, d: Seq<char>, k: nat) -> Seq<char>
    decreases d.len(),
{
    if d.len() == 0 {
        Seq::<char>::empty()
    } else {
        let n: int = if d.len() < 3 { d.len() as int } else { 3 };
        group_sep(style, sep) + painted(style.look(group_role(k)), d.take(n))
            + later_groups(style, sep, d.skip(n), k + 1)
    }
}

/// The length of the leading group of `n` digits, grouped from the right.
pub open spec fn first_group_len(n: int) -> int {
    if n % 3 == 0 { 3 } else { n % 3 }
}

/// A decimal integer in three-digit groups (see [`group_decimal`]).
pub open spec fn grouped(r: Render, s: Seq<char>) -> Seq<char> {
    let d = body_of(s);
    if d.len() == 0 || !all_digits(d) {
        painted(r.style.look(Role::Digits), s)
    } else if d.len() <= 3 {
        sign_of(s) + painted(r.style.look(Role::Digits), d)
    } else {
        let f = first_group_len(d.len() as int);
        sign_of(s) + painted(r.style.look(Role::Digits), d.take(f))
            + later_groups(r.style, r.group, d.skip(f), 1)
    }
}

impl Style {
    /// Paint a run of characters.
    pub fn paint_chars(&self, role: Role, v: &Vec<char>) -> (s: String)
        ensures
            s@ == painted(self.look(role), v@),
    {
        let t = string_of(v);
        self.paint(role, t.as_str())
    }
}

/// Render a decimal integer in three-digit groups.
///
/// The appearance alternates between [`Role::Digits`] and [`Role::DigitAlt`],
/// which adds no character; a separator is inserted only when one was asked
/// for. Anything that is not a plain optionally-signed integer is painted as
/// one [`Role::Digits`] run, because splitting a value this does not
/// understand would risk changing it.
#[verifier::spinoff_prover]
#[verifier::rlimit(40)]
pub fn group_decimal(render: &Render, s: &str) -> (out: String)
    ensures
        out@ == grouped(*render, s@),
{
    let cs = chars_of(s);
    let start: usize = if cs.len() > 0 && cs[0] == '-' { 1 } else { 0 };
    let d = slice_chars(&cs, start, cs.len());
    assert(d@ == body_of(s@)) by {
        if s@.len() > 0 && s@[0] == '-' {
            assert(d@ =~= s@.skip(1));
        } else {
            assert(d@ =~= s@);
        }
    }
    let mut ok = d.len() > 0;
    let mut i: usize = 0;
    while i < d.len()
        invariant
            i <= d.len(),
            ok == (d.len() > 0 && forall|j: int| 0 <= j < i ==> #[trigger] is_digit(d@[j])),
        decreases d.len() - i,
    {
        if !char_is_digit(d[i]) {
            ok = false;
        }
        i = i + 1;
    }
    if !ok {
        return render.style.paint(Role::Digits, s);
    }
    let mut out = String::new();
    if start == 1 {
        push_char(&mut out, '-');
    }
    assert(out@ == sign_of(s@)) by {
        if start == 1 { assert(out@ =~= seq!['-']); } else { assert(out@ =~= Seq::<char>::empty()); }
    }
    if d.len() <= 3 {
        let p = render.style.paint_chars(Role::Digits, &d);
        push_str(&mut out, p.as_str());
        return out;
    }
    let f: usize = if d.len() % 3 == 0 { 3 } else { d.len() % 3 };
    let head = slice_chars(&d, 0, f);
    let p = render.style.paint_chars(Role::Digits, &head);
    push_str(&mut out, p.as_str());
    assert(head@ =~= d@.take(f as int));
    let ghost prefix = out@;
    let mut idx: usize = f;
    let mut k: usize = 1;
    while idx < d.len()
        invariant
            f <= idx <= d.len(),
            (d.len() - idx) % 3 == 0,
            (d.len() - f) % 3 == 0,
            k <= idx,
            out@ + later_groups(render.style, render.group, d@.skip(idx as int), k as nat)
                == prefix + later_groups(render.style, render.group, d@.skip(f as int), 1),
        decreases d.len() - idx,
    {
        let ghost rest = d@.skip(idx as int);
        let end = idx + 3;
        match render.group {
            Some(sep) => {
                let sp = string_of(&vec![sep]);
                let q = render.style.paint(Role::Separator, sp.as_str());
                push_str(&mut out, q.as_str());
            },
            None => {},
        }
        let g = slice_chars(&d, idx, end);
        let role = if k % 2 == 0 { Role::Digits } else { Role::DigitAlt };
        let q = render.style.paint_chars(role, &g);
        push_str(&mut out, q.as_str());
        assert(g@ =~= rest.take(3));
        assert(rest.skip(3) =~= d@.skip(end as int));
        idx = end;
        k = k + 1;
        assert(out@ + later_groups(render.style, render.group, d@.skip(idx as int), k as nat)
            =~= prefix + later_groups(render.style, render.group, d@.skip(f as int), 1));
    }
    assert(d@.skip(idx as int) =~= Seq::<char>::empty());
    assert(out@ + Seq::<char>::empty() =~= out@);
    out
}


// ---------------------------------------------------------------------------
// timestamp forms
// ---------------------------------------------------------------------------

/// The index of the first space in `s`, or `s.len()` when there is none.
pub open spec fn first_space(s: Seq<char>, from: int) -> int
    decreases s.len() - from,
{
    if from >= s.len() {
        s.len() as int
    } else if s[from] == ' ' {
        from
    } else {
        first_space(s, from + 1)
    }
}

/// The form tag: up to and including the first space; empty without one.
pub open spec fn form_tag(s: Seq<char>) -> Seq<char> {
    let i = first_space(s, 0);
    if i < s.len() { s.take(i + 1) } else { Seq::<char>::empty() }
}

/// The form body: everything after the first space; all of `s` without one.
pub open spec fn form_body(s: Seq<char>) -> Seq<char> {
    let i = first_space(s, 0);
    if i < s.len() { s.skip(i + 1) } else { s }
}

/// Where the leading zero run of `body` ends: at the first alphanumeric
/// character other than `0`, searching from `from`.
pub open spec fn leading_end(body: Seq<char>, from: int) -> int
    decreases body.len() - from,
{
    if from >= body.len() {
        body.len() as int
    } else if alphanumeric(body[from]) && body[from] != '0' {
        from
    } else {
        leading_end(body, from + 1)
    }
}

/// The role of character `i` of a form body: padding inside the leading
/// zero run (its separators included), else a separator for anything that
/// is not alphanumeric, else digits.
pub open spec fn form_role(body: Seq<char>, i: int) -> Role {
    if i < leading_end(body, 0) {
        Role::Padding
    } else if !alphanumeric(body[i]) {
        Role::Separator
    } else {
        Role::Digits
    }
}

/// The end of the run of equal roles that contains position `i`.
pub open spec fn run_end(body: Seq<char>, i: int) -> int
    decreases body.len() - i,
{
    if i + 1 >= body.len() || form_role(body, i + 1) != form_role(body, i) {
        i + 1
    } else {
        run_end(body, i + 1)
    }
}

/// The body from position `i` on, one painted run per maximal run of equal
/// roles.
pub open spec fn painted_runs(style: Style, body: Seq<char>, i: int) -> Seq<char>
    decreases body.len() - i,
{
    if i < 0 || i >= body.len() {
        Seq::<char>::empty()
    } else {
        let j = run_end(body, i);
        if j <= i || j > body.len() {
            Seq::<char>::empty()
        } else {
            painted(style.look(form_role(body, i)), body.subrange(i, j)) + painted_runs(
                style,
                body,
                j,
            )
        }
    }
}

/// A rendered timestamp form, painted (see [`paint_form`]).
pub open spec fn painted_form(style: Style, s: Seq<char>) -> Seq<char> {
    painted(style.look(Role::Value), form_tag(s)) + painted_runs(style, form_body(s), 0)
}

pub(crate) proof fn lemma_run_end_bounds(body: Seq<char>, i: int)
    requires
        0 <= i < body.len(),
    ensures
        i < run_end(body, i) <= body.len(),
    decreases body.len() - i,
{
    if !(i + 1 >= body.len() || form_role(body, i + 1) != form_role(body, i)) {
        lemma_run_end_bounds(body, i + 1);
    }
}

/// Inside a run of equal roles, every position's run ends where the first's
/// does.
proof fn lemma_run_end_within(body: Seq<char>, start: int, k: int)
    requires
        0 <= start <= k < body.len(),
        forall|m: int| start <= m <= k ==> #[trigger] form_role(body, m) == form_role(body, start),
    ensures
        run_end(body, start) == run_end(body, k),
    decreases k - start,
{
    if start < k {
        assert(form_role(body, start + 1) == form_role(body, start));
        lemma_run_end_within(body, start + 1, k);
    }
}

pub(crate) proof fn lemma_first_space_bounds(s: Seq<char>, from: int)
    requires
        0 <= from <= s.len(),
    ensures
        from <= first_space(s, from) <= s.len(),
        forall|m: int| from <= m < first_space(s, from) ==> #[trigger] s[m] != ' ',
        first_space(s, from) < s.len() ==> s[first_space(s, from)] == ' ',
    decreases s.len() - from,
{
    if from < s.len() && s[from] != ' ' {
        lemma_first_space_bounds(s, from + 1);
    }
}

/// Paint a rendered timestamp form: `UC1 0031·0687·…`, a UCID.
///
/// Three regions: the form tag up to the first space, painted as a value;
/// the leading zero run of the body, painted as padding with the separators
/// inside it; and the rest, digits and separators. Each maximal run of one
/// role is painted once. A string with no space is all body.
pub fn paint_form(render: &Render, s: &str) -> (out: String)
    ensures
        out@ == painted_form(render.style, s@),
{
    let style = &render.style;
    let cs = chars_of(s);
    let mut sp: usize = 0;
    while sp < cs.len() && cs[sp] != ' '
        invariant
            sp <= cs.len(),
            cs@ == s@,
            first_space(s@, 0) == first_space(s@, sp as int),
        decreases cs.len() - sp,
    {
        sp = sp + 1;
    }
    proof {
        lemma_first_space_bounds(s@, 0);
    }
    let (tag, body) = if sp < cs.len() {
        (slice_chars(&cs, 0, sp + 1), slice_chars(&cs, sp + 1, cs.len()))
    } else {
        (Vec::new(), slice_chars(&cs, 0, cs.len()))
    };
    assert(tag@ =~= form_tag(s@));
    assert(body@ =~= form_body(s@));
    let mut out = String::new();
    if tag.len() > 0 {
        let t = style.paint_chars(Role::Value, &tag);
        push_str(&mut out, t.as_str());
    }
    assert(out@ == painted(style.look(Role::Value), tag@));

    let mut lead: usize = 0;
    while lead < body.len() && !(char_is_alphanumeric(body[lead]) && body[lead] != '0')
        invariant
            lead <= body.len(),
            leading_end(body@, 0) == leading_end(body@, lead as int),
        decreases body.len() - lead,
    {
        lead = lead + 1;
    }
    assert(lead == leading_end(body@, 0));

    let ghost target = painted_form(*style, s@);
    let mut run: Vec<char> = Vec::new();
    let mut run_role: Option<Role> = None;
    let mut start: usize = 0;
    let mut i: usize = 0;
    while i < body.len()
        invariant
            i <= body.len(),
            start <= i,
            lead == leading_end(body@, 0),
            run@ == body@.subrange(start as int, i as int),
            run_role is None <==> i == 0,
            start == 0 || start < i,
            i > 0 ==> run_role == Some(form_role(body@, start as int)),
            forall|m: int| start <= m < i ==> #[trigger] form_role(body@, m) == form_role(body@, start as int),
            (start as int) < body.len() || i == 0 ==> out@ + painted_runs(*style, body@, start as int)
                == target,
            body@ == form_body(s@),
            target == painted(style.look(Role::Value), form_tag(s@)) + painted_runs(*style, body@, 0),
        decreases body.len() - i,
    {
        let c = body[i];
        let role = if i < lead {
            Role::Padding
        } else if !char_is_alphanumeric(c) {
            Role::Separator
        } else {
            Role::Digits
        };
        assert(role == form_role(body@, i as int));
        let same = match run_role {
            Some(r) => r == role,
            None => false,
        };
        if !same {
            if i > 0 {
                proof {
                    lemma_run_end_within(body@, start as int, i - 1);
                    lemma_run_end_bounds(body@, i - 1);
                }
                assert(run_end(body@, start as int) == i);
                let p = style.paint_chars(form_role_exec(&run_role), &run);
                push_str(&mut out, p.as_str());
                assert(out@ + painted_runs(*style, body@, i as int) == target);
            }
            run = Vec::new();
            run_role = Some(role);
            start = i;
        }
        run.push(c);
        assert(run@ =~= body@.subrange(start as int, i + 1));
        i = i + 1;
    }
    if i > 0 {
        proof {
            lemma_run_end_within(body@, start as int, i - 1);
            lemma_run_end_bounds(body@, i - 1);
        }
        assert(run_end(body@, start as int) == i);
        let p = style.paint_chars(form_role_exec(&run_role), &run);
        push_str(&mut out, p.as_str());
        assert(painted_runs(*style, body@, i as int) == Seq::<char>::empty());
        assert(out@ =~= out@ + painted_runs(*style, body@, i as int));
    } else {
        assert(painted_runs(*style, body@, 0) == Seq::<char>::empty());
        assert(out@ =~= target);
    }
    out
}

/// The role a run holds; a run that has begun always has one.
fn form_role_exec(r: &Option<Role>) -> (role: Role)
    ensures
        r matches Some(x) ==> role == x,
{
    match r {
        Some(x) => *x,
        None => Role::Digits,
    }
}


/// A piece of text with no escape character has none either.
pub(crate) proof fn lemma_no_escape_within(s: Seq<char>, a: int, b: int)
    requires
        !s.contains(ESC),
        0 <= a <= b <= s.len(),
    ensures
        !s.subrange(a, b).contains(ESC),
{
    if s.subrange(a, b).contains(ESC) {
        let k = choose|k: int| 0 <= k < b - a && s.subrange(a, b)[k] == ESC;
        assert(s[a + k] == ESC);
    }
}

/// The painted runs of a body strip back to the body, from position `i` on.
pub(crate) proof fn lemma_runs_strip_back(style: Style, body: Seq<char>, i: int)
    requires
        !body.contains(ESC),
        0 <= i <= body.len(),
    ensures
        strip_run(Scan::Text, painted_runs(style, body, i)) == (body.skip(i), Scan::Text),
    decreases body.len() - i,
{
    if i == body.len() {
        assert(body.skip(i) =~= Seq::<char>::empty());
    } else {
        lemma_run_end_bounds(body, i);
        let j = run_end(body, i);
        let piece = body.subrange(i, j);
        lemma_no_escape_within(body, i, j);
        lemma_paint_strips_back(style.look(form_role(body, i)), piece);
        lemma_runs_strip_back(style, body, j);
        lemma_strip_run_append(
            Scan::Text,
            painted(style.look(form_role(body, i)), piece),
            painted_runs(style, body, j),
        );
        assert(piece + body.skip(j) =~= body.skip(i));
    }
}

/// **The strip invariant, for a painted form.** Painting a timestamp form
/// never changes a character: stripping the sequences gives the form back.
pub proof fn lemma_form_strips_back(style: Style, s: Seq<char>)
    requires
        !s.contains(ESC),
    ensures
        stripped(painted_form(style, s)) == s,
{
    lemma_first_space_bounds(s, 0);
    let tag = form_tag(s);
    let body = form_body(s);
    let i = first_space(s, 0);
    if i < s.len() {
        lemma_no_escape_within(s, 0, i + 1);
        lemma_no_escape_within(s, i + 1, s.len() as int);
        assert(tag =~= s.subrange(0, i + 1));
        assert(body =~= s.subrange(i + 1, s.len() as int));
    } else {
        assert(body =~= s);
    }
    lemma_paint_strips_back(style.look(Role::Value), tag);
    lemma_runs_strip_back(style, body, 0);
    lemma_strip_run_append(Scan::Text, painted(style.look(Role::Value), tag), painted_runs(style, body, 0));
    assert(tag + body.skip(0) =~= s);
}


/// Later groups, under a plain style and no separator, are their digits.
proof fn lemma_later_groups_plain(style: Style, d: Seq<char>, k: nat)
    requires
        style.spec_is_plain(),
    ensures
        later_groups(style, None, d, k) == d,
    decreases d.len(),
{
    if d.len() > 0 {
        let n: int = if d.len() < 3 { d.len() as int } else { 3 };
        assert(style.look(group_role(k)).spec_is_plain());
        lemma_later_groups_plain(style, d.skip(n), k + 1);
        assert(d.take(n) + d.skip(n) =~= d);
    }
}

/// **Grouping without a separator adds no character.** Stripping the colour
/// from a grouped decimal gives the decimal back, and under the plain style
/// there is no colour to strip.
pub proof fn lemma_grouped_strips_back(r: Render, s: Seq<char>)
    requires
        r.group is None,
        !s.contains(ESC),
    ensures
        stripped(grouped(r, s)) == s,
        r.style.spec_is_plain() ==> grouped(r, s) == s,
{
    let d = body_of(s);
    if s.len() > 0 && s[0] == '-' {
        lemma_no_escape_within(s, 1, s.len() as int);
        assert(d =~= s.subrange(1, s.len() as int));
        assert(sign_of(s) + d =~= s);
    } else {
        assert(sign_of(s) + d =~= s);
    }
    lemma_strip_plain(sign_of(s));
    if d.len() == 0 || !all_digits(d) {
        lemma_paint_strips_back(r.style.look(Role::Digits), s);
    } else if d.len() <= 3 {
        lemma_paint_strips_back(r.style.look(Role::Digits), d);
        lemma_strip_run_append(Scan::Text, sign_of(s), painted(r.style.look(Role::Digits), d));
    } else {
        let f = first_group_len(d.len() as int);
        lemma_no_escape_within(d, 0, f);
        lemma_no_escape_within(d, f, d.len() as int);
        assert(d.take(f) =~= d.subrange(0, f));
        assert(d.skip(f) =~= d.subrange(f, d.len() as int));
        lemma_paint_strips_back(r.style.look(Role::Digits), d.take(f));
        lemma_later_groups_strip(r.style, d.skip(f), 1);
        let head = sign_of(s) + painted(r.style.look(Role::Digits), d.take(f));
        lemma_strip_run_append(Scan::Text, sign_of(s), painted(r.style.look(Role::Digits), d.take(f)));
        lemma_strip_run_append(Scan::Text, head, later_groups(r.style, None, d.skip(f), 1));
        assert(sign_of(s) + d.take(f) + d.skip(f) =~= s);
        if r.style.spec_is_plain() {
            assert(r.style.look(Role::Digits).spec_is_plain());
            lemma_later_groups_plain(r.style, d.skip(f), 1);
        }
    }
    if r.style.spec_is_plain() {
        assert(r.style.look(Role::Digits).spec_is_plain());
    }
}

/// Later groups without a separator strip back to their digits.
pub(crate) proof fn lemma_later_groups_strip(style: Style, d: Seq<char>, k: nat)
    requires
        !d.contains(ESC),
    ensures
        strip_run(Scan::Text, later_groups(style, None, d, k)) == (d, Scan::Text),
    decreases d.len(),
{
    if d.len() == 0 {
    } else {
        let n: int = if d.len() < 3 { d.len() as int } else { 3 };
        lemma_no_escape_within(d, 0, n);
        lemma_no_escape_within(d, n, d.len() as int);
        assert(d.take(n) =~= d.subrange(0, n));
        assert(d.skip(n) =~= d.subrange(n, d.len() as int));
        lemma_paint_strips_back(style.look(group_role(k)), d.take(n));
        lemma_later_groups_strip(style, d.skip(n), k + 1);
        let first = group_sep(style, None) + painted(style.look(group_role(k)), d.take(n));
        assert(first =~= painted(style.look(group_role(k)), d.take(n)));
        lemma_strip_run_append(Scan::Text, first, later_groups(style, None, d.skip(n), k + 1));
        assert(d.take(n) + d.skip(n) =~= d);
    }
}


proof fn lemma_runs_plain(style: Style, body: Seq<char>, i: int)
    requires
        style.spec_is_plain(),
        0 <= i <= body.len(),
    ensures
        painted_runs(style, body, i) == body.skip(i),
    decreases body.len() - i,
{
    if i == body.len() {
        assert(body.skip(i) =~= Seq::<char>::empty());
    } else {
        lemma_run_end_bounds(body, i);
        let j = run_end(body, i);
        assert(style.look(form_role(body, i)).spec_is_plain());
        lemma_runs_plain(style, body, j);
        assert(body.subrange(i, j) + body.skip(j) =~= body.skip(i));
    }
}

/// **A plain style paints a form as it is.**
pub proof fn lemma_form_plain(style: Style, s: Seq<char>)
    requires
        style.spec_is_plain(),
    ensures
        painted_form(style, s) == s,
{
    lemma_first_space_bounds(s, 0);
    assert(style.look(Role::Value).spec_is_plain());
    lemma_runs_plain(style, form_body(s), 0);
    assert(form_tag(s) + form_body(s) =~= s);
}

} // verus!
