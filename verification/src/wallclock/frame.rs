//! One frame of the clock, as text.
//!
//! A frame is a grid of cells, each a symbol and a foreground and background
//! colour. As text it is one line per row, with trailing blanks removed; with
//! colour on, each change of colours along a row opens a new SGR sequence and
//! the row ends with a reset.
use vstd::prelude::*;

use crate::table::trim_end_ws;
use crate::text::{chars_of, decimal, push_char, push_decimal, push_str, ESC};

verus! {

broadcast use vstd::string::group_string_axioms;

/// A terminal colour, as a frame cell carries it.
#[derive(Clone, Copy, PartialEq, Eq, Structural, Debug)]
pub enum Color {
    /// The terminal's own default.
    Reset,
    /// ANSI black.
    Black,
    /// ANSI red.
    Red,
    /// ANSI green.
    Green,
    /// ANSI yellow.
    Yellow,
    /// ANSI blue.
    Blue,
    /// ANSI magenta.
    Magenta,
    /// ANSI cyan.
    Cyan,
    /// ANSI white, which terminals show as grey.
    Gray,
    /// Bright black.
    DarkGray,
    /// Bright red.
    LightRed,
    /// Bright green.
    LightGreen,
    /// Bright yellow.
    LightYellow,
    /// Bright blue.
    LightBlue,
    /// Bright magenta.
    LightMagenta,
    /// Bright cyan.
    LightCyan,
    /// Bright white.
    White,
    /// A 24-bit colour.
    Rgb(u8, u8, u8),
    /// An entry of the 256-colour palette.
    Indexed(u8),
}

/// The SGR parameters for one colour, foreground or background; none for
/// the terminal's default.
pub open spec fn color_code(c: Color, background: bool) -> Option<Seq<char>> {
    let base: nat = if background { 40 } else { 30 };
    let bright: nat = if background { 100 } else { 90 };
    match c {
        Color::Reset => None,
        Color::Black => Some(decimal(base)),
        Color::Red => Some(decimal(base + 1)),
        Color::Green => Some(decimal(base + 2)),
        Color::Yellow => Some(decimal(base + 3)),
        Color::Blue => Some(decimal(base + 4)),
        Color::Magenta => Some(decimal(base + 5)),
        Color::Cyan => Some(decimal(base + 6)),
        Color::Gray => Some(decimal(base + 7)),
        Color::DarkGray => Some(decimal(bright)),
        Color::LightRed => Some(decimal(bright + 1)),
        Color::LightGreen => Some(decimal(bright + 2)),
        Color::LightYellow => Some(decimal(bright + 3)),
        Color::LightBlue => Some(decimal(bright + 4)),
        Color::LightMagenta => Some(decimal(bright + 5)),
        Color::LightCyan => Some(decimal(bright + 6)),
        Color::White => Some(decimal(bright + 7)),
        Color::Rgb(r, g, b) => Some(
            decimal(base + 8) + ";2;"@ + decimal(r as nat) + ";"@ + decimal(g as nat) + ";"@
                + decimal(b as nat),
        ),
        Color::Indexed(i) => Some(decimal(base + 8) + ";5;"@ + decimal(i as nat)),
    }
}

/// The SGR parameters for one colour, foreground or background.
pub fn code(c: Color, background: bool) -> (r: Option<String>)
    ensures
        match r {
            Some(s) => color_code(c, background) == Some(s@),
            None => color_code(c, background) is None,
        },
{
    let base: u64 = if background { 40 } else { 30 };
    let bright: u64 = if background { 100 } else { 90 };
    let mut s = String::new();
    match c {
        Color::Reset => {
            return None;
        },
        Color::Black => push_decimal(&mut s, base),
        Color::Red => push_decimal(&mut s, base + 1),
        Color::Green => push_decimal(&mut s, base + 2),
        Color::Yellow => push_decimal(&mut s, base + 3),
        Color::Blue => push_decimal(&mut s, base + 4),
        Color::Magenta => push_decimal(&mut s, base + 5),
        Color::Cyan => push_decimal(&mut s, base + 6),
        Color::Gray => push_decimal(&mut s, base + 7),
        Color::DarkGray => push_decimal(&mut s, bright),
        Color::LightRed => push_decimal(&mut s, bright + 1),
        Color::LightGreen => push_decimal(&mut s, bright + 2),
        Color::LightYellow => push_decimal(&mut s, bright + 3),
        Color::LightBlue => push_decimal(&mut s, bright + 4),
        Color::LightMagenta => push_decimal(&mut s, bright + 5),
        Color::LightCyan => push_decimal(&mut s, bright + 6),
        Color::White => push_decimal(&mut s, bright + 7),
        Color::Rgb(r, g, b) => {
            push_decimal(&mut s, base + 8);
            push_str(&mut s, ";2;");
            push_decimal(&mut s, r as u64);
            push_str(&mut s, ";");
            push_decimal(&mut s, g as u64);
            push_str(&mut s, ";");
            push_decimal(&mut s, b as u64);
        },
        Color::Indexed(i) => {
            push_decimal(&mut s, base + 8);
            push_str(&mut s, ";5;");
            push_decimal(&mut s, i as u64);
        },
    }
    assert(color_code(c, background) == Some(s@));
    Some(s)
}

/// The SGR sequence for a foreground and background pair; empty when both
/// are the terminal's default.
pub open spec fn sgr_text(fg: Color, bg: Color) -> Seq<char> {
    match (color_code(fg, false), color_code(bg, true)) {
        (None, None) => Seq::empty(),
        (Some(f), None) => seq![ESC, '['] + f + seq!['m'],
        (None, Some(b)) => seq![ESC, '['] + b + seq!['m'],
        (Some(f), Some(b)) => seq![ESC, '['] + f + seq![';'] + b + seq!['m'],
    }
}

/// The SGR sequence for a foreground and background pair.
pub fn sgr_for(fg: Color, bg: Color) -> (s: String)
    ensures
        s@ == sgr_text(fg, bg),
{
    let f = code(fg, false);
    let b = code(bg, true);
    let mut s = String::new();
    match (f, b) {
        (None, None) => {},
        (Some(f), None) => {
            push_char(&mut s, ESC);
            push_char(&mut s, '[');
            push_str(&mut s, f.as_str());
            push_char(&mut s, 'm');
        },
        (None, Some(b)) => {
            push_char(&mut s, ESC);
            push_char(&mut s, '[');
            push_str(&mut s, b.as_str());
            push_char(&mut s, 'm');
        },
        (Some(f), Some(b)) => {
            push_char(&mut s, ESC);
            push_char(&mut s, '[');
            push_str(&mut s, f.as_str());
            push_char(&mut s, ';');
            push_str(&mut s, b.as_str());
            push_char(&mut s, 'm');
        },
    }
    assert(s@ =~= sgr_text(fg, bg));
    s
}

/// `str::trim_end`: `s` without its trailing whitespace, Unicode's
/// White_Space as its documentation defines it.
#[verifier::external_body]
fn str_trim_end(s: &str) -> (r: &str)
    ensures
        r@ == trim_end_ws(s@),
{
    s.trim_end()
}

/// Trim trailing spaces without cutting an escape sequence in half: a line
/// with an escape in it is left as it is.
pub fn trim_end(line: &str) -> (r: &str)
    ensures
        r@ == (if line@.contains(ESC) { line@ } else { trim_end_ws(line@) }),
{
    let cs = chars_of(line);
    let mut i: usize = 0;
    while i < cs.len()
        invariant
            i <= cs.len(),
            cs@ == line@,
            forall|j: int| 0 <= j < i ==> cs@[j] != ESC,
        decreases cs.len() - i,
    {
        if cs[i] == ESC {
            assert(line@[i as int] == ESC);
            return line;
        }
        i = i + 1;
    }
    assert(!line@.contains(ESC));
    str_trim_end(line)
}

/// One cell of a frame: what it shows and in which colours.
pub struct FrameCell {
    /// The symbol, usually one character.
    pub symbol: String,
    /// Foreground.
    pub fg: Color,
    /// Background.
    pub bg: Color,
}

/// The SGR reset.
pub open spec fn reset_text() -> Seq<char> {
    seq![ESC, '[', '0', 'm']
}

/// A row's text, as it stands after `n` cells: the text, whether a colour is
/// open, and the colours last set.
pub open spec fn row_run(cells: Seq<FrameCell>, color: bool, n: int) -> (Seq<char>, bool, Option<(Color, Color)>)
    decreases n,
{
    if n <= 0 {
        (Seq::empty(), false, None)
    } else {
        let (line, open, last) = row_run(cells, color, n - 1);
        let cell = cells[n - 1];
        let want = (cell.fg, cell.bg);
        let (line2, open2, last2) = if color && last != Some(want) {
            let l = if open { line + reset_text() } else { line };
            let sgr = sgr_text(cell.fg, cell.bg);
            if sgr.len() == 0 {
                (l, false, Some(want))
            } else {
                (l + sgr, true, Some(want))
            }
        } else {
            (line, open, last)
        };
        (line2 + cell.symbol@, open2, last2)
    }
}

/// A row as text, before trimming.
pub open spec fn row_text(cells: Seq<FrameCell>, color: bool) -> Seq<char> {
    let (line, open, _) = row_run(cells, color, cells.len() as int);
    if open { line + reset_text() } else { line }
}

/// A frame as lines: each row's text, trimmed when it holds no escape, then
/// a newline.
pub open spec fn frame_text(rows: Seq<Vec<FrameCell>>, color: bool, n: int) -> Seq<char>
    decreases n,
{
    if n <= 0 {
        Seq::empty()
    } else {
        let t = row_text(rows[n - 1]@, color);
        frame_text(rows, color, n - 1) + (if t.contains(ESC) { t } else { trim_end_ws(t) }) + seq!['\n']
    }
}

/// A frame as lines, with trailing blanks removed.
pub fn to_text(rows: &Vec<Vec<FrameCell>>, color: bool) -> (out: String)
    ensures
        out@ == frame_text(rows@, color, rows@.len() as int),
{
    let mut out = String::new();
    let mut y: usize = 0;
    while y < rows.len()
        invariant
            y <= rows.len(),
            out@ == frame_text(rows@, color, y as int),
        decreases rows.len() - y,
    {
        let row = &rows[y];
        let mut line = String::new();
        let mut open = false;
        let mut last: Option<(Color, Color)> = None;
        let mut x: usize = 0;
        while x < row.len()
            invariant
                x <= row.len(),
                row_run(row@, color, x as int) == (line@, open, last),
            decreases row.len() - x,
        {
            let cell = &row[x];
            if color {
                let want = (cell.fg, cell.bg);
                let changed = match last {
                    Some(l) => !(l.0 == want.0 && l.1 == want.1),
                    None => true,
                };
                if changed {
                    if open {
                        push_char(&mut line, ESC);
                        push_str(&mut line, "[0m");
                    }
                    let sgr = sgr_for(cell.fg, cell.bg);
                    if sgr.as_str().is_empty() {
                        open = false;
                    } else {
                        push_str(&mut line, sgr.as_str());
                        open = true;
                    }
                    last = Some(want);
                }
            }
            push_str(&mut line, cell.symbol.as_str());
            x = x + 1;
            proof {
                reveal_strlit("[0m");
            }
            assert(row_run(row@, color, x as int) == (line@, open, last));
        }
        if open {
            push_char(&mut line, ESC);
            push_str(&mut line, "[0m");
            proof {
                reveal_strlit("[0m");
            }
        }
        assert(line@ =~= row_text(row@, color));
        let t = trim_end(line.as_str());
        push_str(&mut out, t);
        push_char(&mut out, '\n');
        y = y + 1;
        assert(out@ =~= frame_text(rows@, color, y as int));
    }
    out
}

} // verus!
