//! Tables for row-shaped fields, and wrapping for values too long for a line.
//!
//! A column that does not fit is promoted onto a line of its own beneath its
//! row, entire, and wrapped at its own separators when it has to be: a tick
//! count with an ellipsis in it is not a tick count. Wrapping prefers a word
//! boundary, then any separator, then a hard break, and only ever discards the
//! spaces it breaks at.
use vstd::prelude::*;

use crate::emit::{render_scalar, scalar_text, Value};
use crate::style::{
    is_final_byte, keep_shown, keep_shown_string, lemma_keep_shown, lemma_keep_shown_all, lemma_keep_shown_plain,
    lemma_strip_keeps_out, lemma_strip_plain,
    painted, strip_ansi, strip_run, stripped, take_upto, Render, Role, Scan,
};

use crate::text::{
    alphanumeric, char_is_alphanumeric, char_is_whitespace, chars_of, push_char, push_chars,
    push_str, spaces, str_eq, string_of, whitespace, ESC,
};

verus! {

broadcast use vstd::string::group_string_axioms;

/// The documented baseline width, and the assumed width off a terminal.
pub const BASELINE_WIDTH: usize = 80;

/// Gutter between columns, in spaces.
pub const GUTTER: usize = 2;

/// `s` with its trailing whitespace removed; `str::trim_end`.
pub open spec fn trim_end_ws(s: Seq<char>) -> Seq<char>
    decreases s.len(),
{
    if s.len() > 0 && whitespace(s.last()) {
        trim_end_ws(s.drop_last())
    } else {
        s
    }
}

/// Where a wrap stands: the pieces cut so far, the piece being filled, and the
/// candidate break points in it (one past the last whitespace, one past the
/// last separator; 0 for none).
pub struct WrapState {
    /// Pieces already cut.
    pub pieces: Seq<Seq<char>>,
    /// The piece being filled.
    pub cur: Seq<char>,
    /// One past the last whitespace in `cur`, or 0.
    pub after_space: int,
    /// One past the last non-alphanumeric character in `cur`, or 0.
    pub after_sep: int,
}

/// Take one more character into a wrap at `width`.
///
/// When the piece reaches the width it is cut: after its last whitespace if
/// that is past the halfway mark (and the whitespace there is dropped), else
/// after its last separator if that is, else right there.
pub open spec fn wrap_step(st: WrapState, c: char, width: int) -> WrapState {
    let cur = st.cur.push(c);
    let n = cur.len() as int;
    let asp = if whitespace(c) { n } else { st.after_space };
    let asep = if !alphanumeric(c) { n } else { st.after_sep };
    if n >= width {
        let half = width / 2;
        if asp > half {
            WrapState {
                pieces: st.pieces.push(trim_end_ws(cur.take(asp))),
                cur: cur.skip(asp),
                after_space: 0,
                after_sep: 0,
            }
        } else if asep > half {
            WrapState {
                pieces: st.pieces.push(cur.take(asep)),
                cur: cur.skip(asep),
                after_space: 0,
                after_sep: 0,
            }
        } else {
            WrapState { pieces: st.pieces.push(cur), cur: Seq::empty(), after_space: 0, after_sep: 0 }
        }
    } else {
        WrapState { pieces: st.pieces, cur, after_space: asp, after_sep: asep }
    }
}

/// The wrap after taking every character of `s`.
pub open spec fn wrap_run(s: Seq<char>, width: int) -> WrapState
    decreases s.len(),
{
    if s.len() == 0 {
        WrapState { pieces: Seq::empty(), cur: Seq::empty(), after_space: 0, after_sep: 0 }
    } else {
        wrap_step(wrap_run(s.drop_last(), width), s.last(), width)
    }
}

/// The pieces `s` wraps into at `width`: the cut pieces and whatever is left.
pub open spec fn wrapped(s: Seq<char>, width: int) -> Seq<Seq<char>> {
    let st = wrap_run(s, width);
    if st.cur.len() > 0 {
        st.pieces.push(st.cur)
    } else {
        st.pieces
    }
}

/// `s` without its trailing whitespace.
fn trim_end_chars(v: &Vec<char>) -> (r: Vec<char>)
    ensures
        r@ == trim_end_ws(v@),
{
    let mut n: usize = v.len();
    assert(v@.take(n as int) =~= v@);
    while n > 0 && char_is_whitespace(v[n - 1])
        invariant
            n <= v.len(),
            trim_end_ws(v@.take(n as int)) == trim_end_ws(v@),
        decreases n,
    {
        assert(v@.take(n as int).drop_last() =~= v@.take(n - 1));
        n = n - 1;
    }
    assert(trim_end_ws(v@.take(n as int)) == v@.take(n as int));
    let mut r: Vec<char> = Vec::new();
    let mut i: usize = 0;
    while i < n
        invariant
            i <= n <= v.len(),
            r@ == v@.take(i as int),
        decreases n - i,
    {
        r.push(v[i]);
        i = i + 1;
        assert(r@ =~= v@.take(i as int));
    }
    r
}

/// The characters `v[from..to]`.
fn chars_between(v: &Vec<char>, from: usize, to: usize) -> (r: Vec<char>)
    requires
        from <= to <= v.len(),
    ensures
        r@ == v@.subrange(from as int, to as int),
{
    let mut r: Vec<char> = Vec::new();
    let mut i = from;
    while i < to
        invariant
            from <= i <= to <= v.len(),
            r@ == v@.subrange(from as int, i as int),
        decreases to - i,
    {
        r.push(v[i]);
        i = i + 1;
        assert(r@ =~= v@.subrange(from as int, i as int));
    }
    r
}

/// Break `s` into runs of at most `width` characters.
///
/// Three preferences, in order: a word boundary, then any separator, then a
/// hard break, each only when it lies past the halfway mark. Only the
/// whitespace a piece is broken at is dropped.
pub fn wrap_at_separators(s: &str, width: usize) -> (out: Vec<String>)
    ensures
        out@.map_values(|p: String| p@) == wrapped(s@, width as int),
{
    let cs = chars_of(s);
    let mut out: Vec<String> = Vec::new();
    let mut cur: Vec<char> = Vec::new();
    let mut after_space: usize = 0;
    let mut after_sep: usize = 0;
    let mut i: usize = 0;
    assert(cs@.take(0) =~= Seq::<char>::empty());
    assert(out@.map_values(|p: String| p@) =~= Seq::<Seq<char>>::empty());
    while i < cs.len()
        invariant
            i <= cs.len(),
            cs@ == s@,
            after_space <= cur.len(),
            after_sep <= cur.len(),
            cur.len() <= i,
            wrap_run(cs@.take(i as int), width as int) == (WrapState {
                pieces: out@.map_values(|p: String| p@),
                cur: cur@,
                after_space: after_space as int,
                after_sep: after_sep as int,
            }),
        decreases cs.len() - i,
    {
        let c = cs[i];
        assert(cs@.take(i + 1).drop_last() =~= cs@.take(i as int));
        let ghost before = out@.map_values(|p: String| p@);
        cur.push(c);
        let n = cur.len();
        if char_is_whitespace(c) {
            after_space = n;
        }
        if !char_is_alphanumeric(c) {
            after_sep = n;
        }
        if n >= width {
            let half = width / 2;
            if after_space > half {
                let head = chars_between(&cur, 0, after_space);
                let tail = chars_between(&cur, after_space, n);
                let piece = string_of(&trim_end_chars(&head));
                assert(head@ =~= cur@.take(after_space as int));
                assert(tail@ =~= cur@.skip(after_space as int));
                out.push(piece);
                cur = tail;
            } else if after_sep > half {
                let head = chars_between(&cur, 0, after_sep);
                let tail = chars_between(&cur, after_sep, n);
                assert(head@ =~= cur@.take(after_sep as int));
                assert(tail@ =~= cur@.skip(after_sep as int));
                out.push(string_of(&head));
                cur = tail;
            } else {
                out.push(string_of(&cur));
                cur = Vec::new();
            }
            after_space = 0;
            after_sep = 0;
            assert(out@.map_values(|p: String| p@) =~= before.push(out@.last()@));
        }
        i = i + 1;
    }
    assert(cs@.take(cs.len() as int) =~= cs@);
    if cur.len() > 0 {
        let ghost before = out@.map_values(|p: String| p@);
        out.push(string_of(&cur));
        assert(out@.map_values(|p: String| p@) =~= before.push(cur@));
    }
    out
}


/// Trimming keeps a prefix, and leaves no whitespace at the end.
proof fn lemma_trim_end(s: Seq<char>)
    ensures
        trim_end_ws(s).len() <= s.len(),
        trim_end_ws(s) =~= s.take(trim_end_ws(s).len() as int),
        trim_end_ws(s).len() == 0 || !whitespace(trim_end_ws(s).last()),
    decreases s.len(),
{
    if s.len() > 0 && whitespace(s.last()) {
        lemma_trim_end(s.drop_last());
    }
}

/// What holds of a wrap at every point.
pub open spec fn wrap_inv(s: Seq<char>, width: int, st: WrapState) -> bool {
    &&& 0 <= st.after_space <= st.cur.len()
    &&& 0 <= st.after_sep <= st.cur.len()
    &&& (st.after_sep > 0 && whitespace(st.cur[st.after_sep - 1])) ==> st.after_space >= st.after_sep
    &&& forall|k: int|
        0 <= k < st.pieces.len() ==> (#[trigger] st.pieces[k]).len() == 0 || !whitespace(
            st.pieces[k].last(),
        )
    &&& width >= 1 ==> st.cur.len() < width && forall|k: int|
        0 <= k < st.pieces.len() ==> (#[trigger] st.pieces[k]).len() <= width
    &&& (forall|i: int| 0 <= i < s.len() ==> !whitespace(#[trigger] s[i])) ==> st.pieces.flatten_alt()
        + st.cur == s && st.after_space == 0
}

pub(crate) proof fn lemma_wrap_run_inv(s: Seq<char>, width: int)
    requires
        width >= 0,
    ensures
        wrap_inv(s, width, wrap_run(s, width)),
    decreases s.len(),
{
    if s.len() == 0 {
        assert(Seq::<Seq<char>>::empty().flatten_alt() + Seq::<char>::empty() =~= s);
    } else {
        let p = s.drop_last();
        let c = s.last();
        lemma_wrap_run_inv(p, width);
        let st = wrap_run(p, width);
        let cur = st.cur.push(c);
        let n = cur.len() as int;
        let asp = if whitespace(c) { n } else { st.after_space };
        let asep = if !alphanumeric(c) { n } else { st.after_sep };
        let nx = wrap_step(st, c, width);
        let no_ws = forall|i: int| 0 <= i < s.len() ==> !whitespace(#[trigger] s[i]);
        if no_ws {
            assert forall|i: int| 0 <= i < p.len() implies !whitespace(#[trigger] p[i]) by {
                assert(p[i] == s[i]);
            }
            assert(!whitespace(s[s.len() - 1]));
            assert(st.pieces.flatten_alt() + st.cur == p);
            assert(p.push(c) =~= s);
            assert(st.pieces.flatten_alt() + cur =~= (st.pieces.flatten_alt() + st.cur).push(c));
        }
        if asep > 0 && whitespace(cur[asep - 1]) {
            if !alphanumeric(c) {
            } else {
                assert(cur[asep - 1] == st.cur[asep - 1]);
            }
        }
        if n >= width {
            let half = width / 2;
            if asp > half {
                lemma_trim_end(cur.take(asp));
                let piece = trim_end_ws(cur.take(asp));
                assert(nx.pieces == st.pieces.push(piece));
                assert forall|k: int| 0 <= k < nx.pieces.len() implies (#[trigger] nx.pieces[k]).len()
                    == 0 || !whitespace(nx.pieces[k].last()) by {
                    if k < st.pieces.len() {
                        assert(nx.pieces[k] == st.pieces[k]);
                    }
                }
                if width >= 1 {
                    assert forall|k: int| 0 <= k < nx.pieces.len() implies (
                    #[trigger] nx.pieces[k]).len() <= width by {
                        if k < st.pieces.len() {
                            assert(nx.pieces[k] == st.pieces[k]);
                        }
                    }
                }
                if no_ws {
                    assert(false);
                }
            } else if asep > half {
                let piece = cur.take(asep);
                assert(nx.pieces == st.pieces.push(piece));
                assert(!whitespace(piece.last()));
                assert forall|k: int| 0 <= k < nx.pieces.len() implies (#[trigger] nx.pieces[k]).len()
                    == 0 || !whitespace(nx.pieces[k].last()) by {
                    if k < st.pieces.len() {
                        assert(nx.pieces[k] == st.pieces[k]);
                    }
                }
                if width >= 1 {
                    assert forall|k: int| 0 <= k < nx.pieces.len() implies (
                    #[trigger] nx.pieces[k]).len() <= width by {
                        if k < st.pieces.len() {
                            assert(nx.pieces[k] == st.pieces[k]);
                        }
                    }
                }
                if no_ws {
                    assert(st.pieces.push(piece).drop_last() =~= st.pieces);
                    assert(st.pieces.push(piece).flatten_alt() =~= st.pieces.flatten_alt() + piece);
                    assert(piece + cur.skip(asep) =~= cur);
                    assert(nx.pieces.flatten_alt() + nx.cur =~= s);
                }
            } else {
                assert(nx.pieces == st.pieces.push(cur));
                if width >= 1 {
                    assert(!whitespace(c));
                }
                assert forall|k: int| 0 <= k < nx.pieces.len() implies (#[trigger] nx.pieces[k]).len()
                    == 0 || !whitespace(nx.pieces[k].last()) by {
                    if k < st.pieces.len() {
                        assert(nx.pieces[k] == st.pieces[k]);
                    } else {
                        assert(nx.pieces[k] == cur);
                        if width < 1 {
                            assert(!whitespace(c));
                        }
                    }
                }
                if width >= 1 {
                    assert forall|k: int| 0 <= k < nx.pieces.len() implies (
                    #[trigger] nx.pieces[k]).len() <= width by {
                        if k < st.pieces.len() {
                            assert(nx.pieces[k] == st.pieces[k]);
                        }
                    }
                }
                if no_ws {
                    assert(st.pieces.push(cur).drop_last() =~= st.pieces);
                    assert(st.pieces.push(cur).flatten_alt() =~= st.pieces.flatten_alt() + cur);
                    assert(nx.pieces.flatten_alt() + nx.cur =~= s);
                }
            }
        }
    }
}

/// **Every piece fits.** At any width of at least one, no piece of a wrap is
/// longer than the width.
pub proof fn lemma_wrap_pieces_fit(s: Seq<char>, width: int)
    requires
        width >= 1,
    ensures
        forall|k: int| 0 <= k < wrapped(s, width).len() ==> (#[trigger] wrapped(s, width)[k]).len() <= width,
{
    lemma_wrap_run_inv(s, width);
}

/// **Wrapping a value loses nothing.** A run with no whitespace in it is
/// broken only between characters, so the pieces put back together are the
/// run.
pub proof fn lemma_wrap_loses_nothing(s: Seq<char>, width: int)
    requires
        width >= 0,
        forall|i: int| 0 <= i < s.len() ==> !whitespace(#[trigger] s[i]),
    ensures
        wrapped(s, width).flatten() == s,
{
    lemma_wrap_run_inv(s, width);
    let st = wrap_run(s, width);
    if st.cur.len() > 0 {
        assert(st.pieces.push(st.cur).drop_last() =~= st.pieces);
        assert(st.pieces.push(st.cur).flatten_alt() =~= st.pieces.flatten_alt() + st.cur);
        st.pieces.push(st.cur).lemma_flatten_and_flatten_alt_are_equivalent();
    } else {
        assert(st.pieces.flatten_alt() + st.cur =~= st.pieces.flatten_alt());
        st.pieces.lemma_flatten_and_flatten_alt_are_equivalent();
    }
}

/// **Prose breaks between words.** No piece that a wrap cut ends in
/// whitespace; only the run left over at the end can.
pub proof fn lemma_wrap_no_trailing_space(s: Seq<char>, width: int)
    requires
        width >= 0,
    ensures
        forall|k: int|
            0 <= k < wrapped(s, width).len() - 1 ==> (#[trigger] wrapped(s, width)[k]).len() == 0
                || !whitespace(wrapped(s, width)[k].last()),
{
    lemma_wrap_run_inv(s, width);
    let st = wrap_run(s, width);
    assert forall|k: int| 0 <= k < wrapped(s, width).len() - 1 implies (#[trigger] wrapped(
        s,
        width,
    )[k]).len() == 0 || !whitespace(wrapped(s, width)[k].last()) by {
        assert(wrapped(s, width)[k] == st.pieces[k]);
    }
}


// ---------------------------------------------------------------------------
// padding
// ---------------------------------------------------------------------------

/// Pad an already-painted run, showing `shown` columns, to `w` columns.
pub fn pad_to(painted: &str, shown: usize, w: usize) -> (s: String)
    ensures
        s@ == painted@ + spaces(if shown < w { (w - shown) as nat } else { 0 }),
{
    let mut s = String::new();
    s.append(painted);
    let mut i = shown;
    while i < w
        invariant
            i == shown || shown < i <= w,
            s@ == painted@ + spaces(if shown < i { (i - shown) as nat } else { 0 }),
        decreases w - i,
    {
        push_char(&mut s, ' ');
        i = i + 1;
        assert(s@ =~= painted@ + spaces((i - shown) as nat));
    }
    assert(s@ =~= painted@ + spaces(if shown < w { (w - shown) as nat } else { 0 }));
    s
}

// ---------------------------------------------------------------------------
// wrapping painted text
// ---------------------------------------------------------------------------

/// Where a wrap of painted text stands.
pub struct PaintWrap {
    /// Lines already ended.
    pub lines: Seq<Seq<char>>,
    /// The line being filled, escape sequences included.
    pub line: Seq<char>,
    /// The column the next visible character would land in.
    pub col: int,
    /// After the last space: where in `line`, and the column it leaves.
    pub brk_space: Option<(int, int)>,
    /// After the last separator of any kind: where in `line`, and the column.
    pub brk_sep: Option<(int, int)>,
    /// Whether the scan is in text or inside an escape sequence.
    pub scan: Scan,
}

/// `s` without its trailing space characters.
pub open spec fn trim_spaces(s: Seq<char>) -> Seq<char>
    decreases s.len(),
{
    if s.len() > 0 && s.last() == ' ' {
        trim_spaces(s.drop_last())
    } else {
        s
    }
}

/// `s` without the trailing spaces a reader sees: what it shows loses its
/// trailing spaces, and every escape sequence stays.
pub open spec fn trim_shown_spaces(s: Seq<char>) -> Seq<char> {
    keep_shown(s, trim_spaces(stripped(s)).len())
}

/// The break a full line takes: the space candidate if it is past the
/// halfway mark, else the separator candidate if that is, else none.
pub open spec fn chosen_break(st: PaintWrap, half: int) -> Option<(int, int, bool)> {
    match st.brk_space {
        Some((a, bc)) if bc > half => Some((a, bc, true)),
        _ => match st.brk_sep {
            Some((a, bc)) if bc > half => Some((a, bc, false)),
            _ => None,
        },
    }
}

/// Break a full line before a visible character arrives.
pub open spec fn pw_break(st: PaintWrap, indent: int, width: int) -> PaintWrap {
    let half = (indent + width) / 2;
    match chosen_break(st, half) {
        Some((at, bcol, was_space)) => {
            let head = st.line.take(at);
            let kept = if was_space { trim_shown_spaces(head) } else { head };
            PaintWrap {
                lines: st.lines.push(kept),
                line: st.line.skip(at),
                col: indent + (st.col - bcol),
                brk_space: None,
                brk_sep: None,
                scan: st.scan,
            }
        },
        None => PaintWrap {
            lines: st.lines.push(st.line),
            line: Seq::empty(),
            col: indent,
            brk_space: None,
            brk_sep: None,
            scan: st.scan,
        },
    }
}

/// Take one more character of painted text. Escape sequences are carried
/// along in the line and take no column; a visible character breaks the line
/// first if the line is full.
pub open spec fn pw_step(st: PaintWrap, c: char, indent: int, width: int) -> PaintWrap {
    match st.scan {
        Scan::Escape => PaintWrap {
            line: st.line.push(c),
            scan: if c == '[' { Scan::Csi } else { Scan::Text },
            ..st
        },
        Scan::Csi => PaintWrap {
            line: st.line.push(c),
            scan: if is_final_byte(c) { Scan::Text } else { Scan::Csi },
            ..st
        },
        Scan::Text => if c == ESC {
            PaintWrap { line: st.line.push(c), scan: Scan::Escape, ..st }
        } else {
            let b = if st.col >= width { pw_break(st, indent, width) } else { st };
            let line = b.line.push(c);
            let col = b.col + 1;
            let mark = Some((line.len() as int, col));
            PaintWrap {
                lines: b.lines,
                line,
                col,
                brk_space: if !alphanumeric(c) && whitespace(c) { mark } else { b.brk_space },
                brk_sep: if !alphanumeric(c) { mark } else { b.brk_sep },
                scan: Scan::Text,
            }
        },
    }
}

/// The wrap after taking every character of `s`, starting at column `first`.
pub open spec fn pw_run(s: Seq<char>, first: int, indent: int, width: int) -> PaintWrap
    decreases s.len(),
{
    if s.len() == 0 {
        PaintWrap {
            lines: Seq::empty(),
            line: Seq::empty(),
            col: first,
            brk_space: None,
            brk_sep: None,
            scan: Scan::Text,
        }
    } else {
        pw_step(pw_run(s.drop_last(), first, indent, width), s.last(), indent, width)
    }
}

/// Lines, each followed by a newline and the hanging indent.
pub open spec fn joined(lines: Seq<Seq<char>>, indent: nat) -> Seq<char>
    decreases lines.len(),
{
    if lines.len() == 0 {
        Seq::empty()
    } else {
        joined(lines.drop_last(), indent) + lines.last() + seq!['\n'] + spaces(indent)
    }
}

/// The lines a painted run wraps into: those ended, then the last.
pub open spec fn painted_lines(s: Seq<char>, first: int, indent: int, width: int) -> Seq<Seq<char>> {
    let st = pw_run(s, first, indent, width);
    st.lines.push(st.line)
}

/// A painted run wrapped to `width` columns (see [`wrap_painted`]).
pub open spec fn wrapped_painted(s: Seq<char>, first: int, indent: nat, width: int) -> Seq<char> {
    if width <= indent + 8 {
        s
    } else {
        let st = pw_run(s, first, indent as int, width);
        joined(st.lines, indent) + st.line
    }
}

/// The exec form of the break chosen for a full line.
fn choose_break(brk_space: Option<(usize, usize)>, brk_sep: Option<(usize, usize)>, half: usize) -> (r: Option<(usize, usize, bool)>)
    ensures
        r == (match brk_space {
            Some((a, bc)) if bc > half => Some((a, bc, true)),
            _ => match brk_sep {
                Some((a, bc)) if bc > half => Some((a, bc, false)),
                _ => None,
            },
        }),
{
    match brk_space {
        Some((a, bc)) if bc > half => Some((a, bc, true)),
        _ => match brk_sep {
            Some((a, bc)) if bc > half => Some((a, bc, false)),
            _ => None,
        },
    }
}

/// Wrap an already-painted run to `width` columns, hanging under `indent`.
///
/// Escape sequences take no column and are emitted where they fall; break
/// positions are computed from visible characters only, so the coloured
/// rendering breaks where the plain one does. `first` is the column the run
/// starts at. With no usable room for a hanging indent the run is returned
/// as it is.
#[verifier::spinoff_prover]
#[verifier::rlimit(40)]
pub fn wrap_painted(painted: &str, first: usize, indent: usize, width: usize) -> (out: String)
    requires
        indent + 8 <= usize::MAX,
        width > indent + 8 ==> indent + width <= usize::MAX,
    ensures
        out@ == wrapped_painted(painted@, first as int, indent as nat, width as int),
{
    if width <= indent + 8 {
        return painted.to_owned();
    }
    let cs = chars_of(painted);
    let mut out = String::new();
    let mut line: Vec<char> = Vec::new();
    let mut col: usize = first;
    let mut brk_space: Option<(usize, usize)> = None;
    let mut brk_sep: Option<(usize, usize)> = None;
    let mut scan = Scan::Text;
    let half: usize = (indent + width) / 2;
    let ghost lines: Seq<Seq<char>> = Seq::empty();
    let mut i: usize = 0;
    assert(cs@.take(0) =~= Seq::<char>::empty());
    while i < cs.len()
        invariant
            i <= cs.len(),
            cs@ == painted@,
            width > indent + 8,
            indent + width <= usize::MAX,
            half == (indent + width) / 2,
            col <= if first > width { first } else { width },
            brk_space matches Some((a, bc)) ==> a <= line.len() && indent < bc <= col || bc <= half,
            brk_sep matches Some((a, bc)) ==> a <= line.len() && indent < bc <= col || bc <= half,
            brk_space matches Some((a, bc)) ==> bc > half ==> a <= line.len() && bc <= col,
            brk_sep matches Some((a, bc)) ==> bc > half ==> a <= line.len() && bc <= col,
            pw_run(cs@.take(i as int), first as int, indent as int, width as int) == (PaintWrap {
                lines,
                line: line@,
                col: col as int,
                brk_space: match brk_space {
                    Some((a, bc)) => Some((a as int, bc as int)),
                    None => None,
                },
                brk_sep: match brk_sep {
                    Some((a, bc)) => Some((a as int, bc as int)),
                    None => None,
                },
                scan,
            }),
            out@ == joined(lines, indent as nat),
        decreases cs.len() - i,
    {
        let c = cs[i];
        assert(cs@.take(i + 1).drop_last() =~= cs@.take(i as int));
        match scan {
            Scan::Escape => {
                line.push(c);
                scan = if c == '[' { Scan::Csi } else { Scan::Text };
            },
            Scan::Csi => {
                line.push(c);
                if '\u{40}' <= c && c <= '\u{7e}' {
                    scan = Scan::Text;
                }
            },
            Scan::Text => {
                if c == ESC {
                    line.push(c);
                    scan = Scan::Escape;
                } else {
                    if col >= width {
                        match choose_break(brk_space, brk_sep, half) {
                            Some((at, bcol, was_space)) => {
                                let tail = chars_between(&line, at, line.len());
                                let mut head = chars_between(&line, 0, at);
                                assert(head@ =~= line@.take(at as int));
                                assert(tail@ =~= line@.skip(at as int));
                                let tail_cols: usize = col - bcol;
                                if was_space {
                                    head = trim_shown_spaces_chars(&head);
                                }
                                push_chars(&mut out, &head);
                                push_char(&mut out, '\n');
                                push_spaces(&mut out, indent);
                                proof {
                                    let ghost old_lines = lines;
                                    lines = lines.push(head@);
                                    assert(lines.drop_last() =~= old_lines);
                                }
                                line = tail;
                                col = indent + tail_cols;
                            },
                            None => {
                                push_chars(&mut out, &line);
                                push_char(&mut out, '\n');
                                push_spaces(&mut out, indent);
                                proof {
                                    let ghost old_lines = lines;
                                    lines = lines.push(line@);
                                    assert(lines.drop_last() =~= old_lines);
                                }
                                line = Vec::new();
                                col = indent;
                            },
                        }
                        brk_space = None;
                        brk_sep = None;
                    }
                    line.push(c);
                    col = col + 1;
                    if !char_is_alphanumeric(c) {
                        brk_sep = Some((line.len(), col));
                        if char_is_whitespace(c) {
                            brk_space = Some((line.len(), col));
                        }
                    }
                }
            },
        }
        i = i + 1;
    }
    assert(cs@.take(cs.len() as int) =~= cs@);
    push_chars(&mut out, &line);
    out
}

/// `v` without the trailing spaces a reader sees.
fn trim_shown_spaces_chars(v: &Vec<char>) -> (r: Vec<char>)
    ensures
        r@ == trim_shown_spaces(v@),
{
    let text = string_of(v);
    let plain = strip_ansi(text.as_str());
    let pv = chars_of(plain.as_str());
    let t = trim_spaces_chars(&pv);
    assert(t@.len() <= pv@.len()) by {
        lemma_trim_spaces_prefix(pv@);
    }
    let kept = keep_shown_string(text.as_str(), t.len());
    chars_of(kept.as_str())
}

/// `s` without its trailing space characters.
fn trim_spaces_chars(v: &Vec<char>) -> (r: Vec<char>)
    ensures
        r@ == trim_spaces(v@),
{
    let mut n: usize = v.len();
    assert(v@.take(n as int) =~= v@);
    while n > 0 && v[n - 1] == ' '
        invariant
            n <= v.len(),
            trim_spaces(v@.take(n as int)) == trim_spaces(v@),
        decreases n,
    {
        assert(v@.take(n as int).drop_last() =~= v@.take(n - 1));
        n = n - 1;
    }
    chars_between(v, 0, n)
}

/// Append `n` spaces.
fn push_spaces(s: &mut String, n: usize)
    ensures
        final(s)@ == old(s)@ + spaces(n as nat),
{
    let mut i: usize = 0;
    while i < n
        invariant
            i <= n,
            s@ == old(s)@ + spaces(i as nat),
        decreases n - i,
    {
        push_char(s, ' ');
        i = i + 1;
        assert(s@ =~= old(s)@ + spaces(i as nat));
    }
}


/// Trimming spaces keeps a prefix.
pub(crate) proof fn lemma_trim_spaces_prefix(s: Seq<char>)
    ensures
        trim_spaces(s).len() <= s.len(),
        trim_spaces(s) =~= s.take(trim_spaces(s).len() as int),
    decreases s.len(),
{
    if s.len() > 0 && s.last() == ' ' {
        lemma_trim_spaces_prefix(s.drop_last());
        assert(s.drop_last().take(trim_spaces(s).len() as int) =~= s.take(trim_spaces(s).len() as int));
    } else {
        assert(s.take(s.len() as int) =~= s);
    }
}

proof fn lemma_trim_spaces_none(s: Seq<char>)
    requires
        forall|i: int| 0 <= i < s.len() ==> #[trigger] s[i] != ' ',
    ensures
        trim_spaces(s) == s,
{
    if s.len() > 0 {
        assert(s[s.len() - 1] != ' ');
    }
}

/// The break candidates of a wrap always point into its line.
pub(crate) proof fn lemma_pw_marks(s: Seq<char>, first: int, indent: int, width: int)
    ensures
        ({
            let st = pw_run(s, first, indent, width);
            &&& st.brk_space matches Some((a, _)) ==> 0 <= a <= st.line.len()
            &&& st.brk_sep matches Some((a, _)) ==> 0 <= a <= st.line.len()
        }),
    decreases s.len(),
{
    if s.len() > 0 {
        lemma_pw_marks(s.drop_last(), first, indent, width);
    }
}

proof fn lemma_pw_run_keeps(s: Seq<char>, first: int, indent: int, width: int)
    requires
        forall|i: int| 0 <= i < s.len() ==> #[trigger] s[i] != ' ',
    ensures
        ({
            let st = pw_run(s, first, indent, width);
            st.lines.flatten_alt() + st.line == s
        }),
    decreases s.len(),
{
    if s.len() == 0 {
        assert(Seq::<Seq<char>>::empty().flatten_alt() + Seq::<char>::empty() =~= s);
    } else {
        let p = s.drop_last();
        let c = s.last();
        assert forall|i: int| 0 <= i < p.len() implies #[trigger] p[i] != ' ' by {
            assert(p[i] == s[i]);
        }
        lemma_pw_run_keeps(p, first, indent, width);
        lemma_pw_marks(p, first, indent, width);
        let st = pw_run(p, first, indent, width);
        assert(p.push(c) =~= s);
        match st.scan {
            Scan::Text => {
                if c == ESC {
                    assert(st.lines.flatten_alt() + st.line.push(c) =~= s);
                } else {
                    let b = if st.col >= width { pw_break(st, indent, width) } else { st };
                    if st.col >= width {
                        let half = (indent + width) / 2;
                        match chosen_break(st, half) {
                            Some((at, bcol, was_space)) => {
                                let head = st.line.take(at);
                                assert forall|i: int| 0 <= i < head.len() implies #[trigger] head[i] != ' ' by {
                                    assert(head[i] == st.line[i]);
                                    assert(st.line[i] == (st.lines.flatten_alt() + st.line)[st.lines.flatten_alt().len() + i]);
                                }
                                lemma_strip_keeps_out(Scan::Text, head, ' ');
                                let sh = stripped(head);
                                assert forall|i: int| 0 <= i < sh.len() implies #[trigger] sh[i] != ' ' by {
                                    if sh[i] == ' ' {
                                        assert(sh.contains(' '));
                                    }
                                }
                                assert(!head.contains(' ')) by {
                                    if head.contains(' ') {
                                        let i = choose|i: int| 0 <= i < head.len() && head[i] == ' ';
                                        assert(head[i] != ' ');
                                    }
                                }
                                lemma_trim_spaces_none(sh);
                                lemma_keep_shown_all(head, trim_spaces(sh).len());
                                assert(b.lines.drop_last() =~= st.lines);
                                assert(b.lines.flatten_alt() + b.line =~= st.lines.flatten_alt() + st.line);
                            },
                            None => {
                                assert(b.lines.drop_last() =~= st.lines);
                                assert(b.lines.flatten_alt() + b.line =~= st.lines.flatten_alt() + st.line);
                            },
                        }
                    }
                    assert(b.lines.flatten_alt() + b.line.push(c) =~= s);
                }
            },
            _ => {
                assert(st.lines.flatten_alt() + st.line.push(c) =~= s);
            },
        }
    }
}

/// **Wrapping painted text loses nothing.** A run with no space in it is only
/// ever broken between characters, so its lines put back together are the
/// run, escape sequences and all.
pub proof fn lemma_painted_wrap_loses_nothing(s: Seq<char>, first: int, indent: int, width: int)
    requires
        forall|i: int| 0 <= i < s.len() ==> #[trigger] s[i] != ' ',
    ensures
        painted_lines(s, first, indent, width).flatten() == s,
{
    lemma_pw_run_keeps(s, first, indent, width);
    let st = pw_run(s, first, indent, width);
    assert(st.lines.push(st.line).drop_last() =~= st.lines);
    st.lines.push(st.line).lemma_flatten_and_flatten_alt_are_equivalent();
}

/// The lines of a wrap joined back, each but the last followed by a newline
/// and the hanging indent, are what [`wrap_painted`] writes.
pub proof fn lemma_wrapped_painted_is_joined_lines(s: Seq<char>, first: int, indent: nat, width: int)
    requires
        width > indent + 8,
    ensures
        wrapped_painted(s, first, indent, width) == joined(
            painted_lines(s, first, indent as int, width).drop_last(),
            indent,
        ) + painted_lines(s, first, indent as int, width).last(),
{
    let st = pw_run(s, first, indent as int, width);
    assert(st.lines.push(st.line).drop_last() =~= st.lines);
}


// ---------------------------------------------------------------------------
// tables
// ---------------------------------------------------------------------------

/// The cell shown where a row has no value for a column.
pub const ABSENT: &'static str = "—";

/// Whether a value can occupy a table cell: a section, a list or a table
/// has no one-line rendering.
pub open spec fn is_scalar_value(v: Value) -> bool {
    !(v is Section || v is List || v is Rows)
}

/// `acc` with the keys of the scalar fields of `fields` that it lacks, in
/// first-seen order.
pub open spec fn add_columns(acc: Seq<Seq<char>>, fields: Seq<(String, Value)>) -> Seq<Seq<char>>
    decreases fields.len(),
{
    if fields.len() == 0 {
        acc
    } else {
        let a = add_columns(acc, fields.drop_last());
        if is_scalar_value(fields.last().1) && !a.contains(fields.last().0@) {
            a.push(fields.last().0@)
        } else {
            a
        }
    }
}

/// The columns of rows of sections: every scalar key, in first-seen order.
pub open spec fn row_columns(rows: Seq<(String, Value)>) -> Seq<Seq<char>>
    decreases rows.len(),
{
    if rows.len() == 0 {
        Seq::empty()
    } else {
        let a = row_columns(rows.drop_last());
        match rows.last().1 {
            Value::Section(f) => add_columns(a, f@),
            _ => a,
        }
    }
}

/// The columns of a table, or `None` when the rows are not grid-shaped.
pub open spec fn table_columns(vh: Option<Seq<char>>, rows: Seq<(String, Value)>) -> Option<Seq<Seq<char>>> {
    if rows.len() == 0 {
        None
    } else {
        match vh {
            Some(h) => if forall|i: int| 0 <= i < rows.len() ==> is_scalar_value(#[trigger] rows[i].1) {
                Some(seq![h])
            } else {
                None
            },
            None => if (forall|i: int| 0 <= i < rows.len() ==> (#[trigger] rows[i].1) is Section)
                && row_columns(rows).len() > 0 {
                Some(row_columns(rows))
            } else {
                None
            },
        }
    }
}

/// The view of an optional string.
pub open spec fn opt_view(o: Option<&str>) -> Option<Seq<char>> {
    match o {
        Some(h) => Some(h@),
        None => None,
    }
}

/// Whether a value can occupy a table cell.
pub fn is_scalar(v: &Value) -> (b: bool)
    ensures
        b == is_scalar_value(*v),
{
    match v {
        Value::Section(_) | Value::List(_) | Value::Rows { .. } => false,
        _ => true,
    }
}

/// Whether `k` is among `cols`.
fn has_column(cols: &Vec<String>, k: &str) -> (b: bool)
    ensures
        b == cols@.map_values(|c: String| c@).contains(k@),
{
    let ghost view = cols@.map_values(|c: String| c@);
    let mut i: usize = 0;
    while i < cols.len()
        invariant
            i <= cols.len(),
            view == cols@.map_values(|c: String| c@),
            forall|j: int| 0 <= j < i ==> #[trigger] view[j] != k@,
        decreases cols.len() - i,
    {
        if str_eq(cols[i].as_str(), k) {
            assert(view[i as int] == k@);
            return true;
        }
        i = i + 1;
    }
    false
}

/// The columns of a table, or `None` when the rows are not grid-shaped.
fn columns_of(vh: Option<&str>, rows: &[(String, Value)]) -> (r: Option<Vec<String>>)
    ensures
        r is None <==> table_columns(opt_view(vh), rows@) is None,
        r matches Some(c) ==> table_columns(opt_view(vh), rows@) == Some(c@.map_values(|x: String| x@)),
{
    if rows.len() == 0 {
        return None;
    }
    let mut columns: Vec<String> = Vec::new();
    match vh {
        Some(h) => {
            let mut i: usize = 0;
            while i < rows.len()
                invariant
                    i <= rows@.len(),
                    vh == Some(h),
                    forall|j: int| 0 <= j < i ==> is_scalar_value(#[trigger] rows@[j].1),
                decreases rows@.len() - i,
            {
                if !is_scalar(&rows[i].1) {
                    assert(!is_scalar_value(rows@[i as int].1));
                    assert(!(forall|j: int| 0 <= j < rows@.len() ==> is_scalar_value(#[trigger] rows@[j].1)));
                    assert(table_columns(Some(h@), rows@) is None);
                    return None;
                }
                i = i + 1;
            }
            columns.push(h.to_owned());
            assert(columns@.map_values(|x: String| x@) =~= seq![h@]);
            Some(columns)
        },
        None => {
            let mut i: usize = 0;
            assert(rows@.take(0) =~= Seq::<(String, Value)>::empty());
            assert(columns@.map_values(|x: String| x@) =~= Seq::<Seq<char>>::empty());
            while i < rows.len()
                invariant
                    i <= rows@.len(),
                    vh is None,
                    forall|j: int| 0 <= j < i ==> (#[trigger] rows@[j].1) is Section,
                    columns@.map_values(|x: String| x@) == row_columns(rows@.take(i as int)),
                decreases rows@.len() - i,
            {
                assert(rows@.take(i + 1).drop_last() =~= rows@.take(i as int));
                match &rows[i].1 {
                    Value::Section(fields) => {
                        let ghost base = columns@.map_values(|x: String| x@);
                        let mut j: usize = 0;
                        assert(fields@.take(0) =~= Seq::<(String, Value)>::empty());
                        while j < fields.len()
                            invariant
                                j <= fields.len(),
                                columns@.map_values(|x: String| x@) == add_columns(base, fields@.take(j as int)),
                            decreases fields.len() - j,
                        {
                            assert(fields@.take(j + 1).drop_last() =~= fields@.take(j as int));
                            let ghost before = columns@.map_values(|x: String| x@);
                            if is_scalar(&fields[j].1) && !has_column(&columns, fields[j].0.as_str()) {
                                columns.push(fields[j].0.clone());
                                assert(columns@.map_values(|x: String| x@) =~= before.push(fields@[j as int].0@));
                            }
                            j = j + 1;
                        }
                        assert(fields@.take(fields.len() as int) =~= fields@);
                    },
                    _ => {
                        assert(!(rows@[i as int].1 is Section));
                        assert(!(forall|j: int| 0 <= j < rows@.len() ==> (#[trigger] rows@[j].1) is Section));
                        assert(table_columns(None, rows@) is None);
                        return None;
                    },
                }
                i = i + 1;
            }
            assert(rows@.take(rows.len() as int) =~= rows@);
            if columns.len() == 0 {
                return None;
            }
            Some(columns)
        },
    }
}


/// The value of the first field named `k`.
pub open spec fn find_field(fields: Seq<(String, Value)>, k: Seq<char>) -> Option<Value>
    decreases fields.len(),
{
    if fields.len() == 0 {
        None
    } else if fields[0].0@ == k {
        Some(fields[0].1)
    } else {
        find_field(fields.drop_first(), k)
    }
}

/// A painted cell and the width it shows.
pub open spec fn cell_of(r: Render, v: Value) -> (Seq<char>, int) {
    let p = scalar_text(r, v);
    (p, stripped(p).len() as int)
}

/// The cell shown for a value a row does not have.
pub open spec fn absent_cell(r: Render) -> (Seq<char>, int) {
    (painted(r.style.look(Role::Value), ABSENT@), 1)
}

/// The cell of column `c` in a row holding `v`.
pub open spec fn grid_cell(r: Render, vh: Option<Seq<char>>, v: Value, c: Seq<char>) -> (Seq<char>, int) {
    match vh {
        Some(_) => cell_of(r, v),
        None => match v {
            Value::Section(f) => match find_field(f@, c) {
                Some(fv) => cell_of(r, fv),
                None => absent_cell(r),
            },
            _ => absent_cell(r),
        },
    }
}

/// The longest row key among `rows`, or 0.
pub open spec fn max_key_len(rows: Seq<(String, Value)>) -> int
    decreases rows.len(),
{
    if rows.len() == 0 {
        0
    } else {
        let a = max_key_len(rows.drop_last());
        let b = rows.last().0@.len() as int;
        if a >= b { a } else { b }
    }
}

/// The widest cell of column `c` among `rows`, or the column name if wider.
pub open spec fn col_width(r: Render, vh: Option<Seq<char>>, rows: Seq<(String, Value)>, c: Seq<char>) -> int
    decreases rows.len(),
{
    if rows.len() == 0 {
        c.len() as int
    } else {
        let a = col_width(r, vh, rows.drop_last(), c);
        let b = grid_cell(r, vh, rows.last().1, c).1;
        if a >= b { a } else { b }
    }
}

/// How many columns, taken in order, fit beside `used` columns in `avail`.
pub open spec fn fit_count(widths: Seq<int>, avail: int, used: int) -> int
    decreases widths.len(),
{
    if widths.len() == 0 || used + GUTTER + widths[0] > avail {
        0
    } else {
        1 + fit_count(widths.drop_first(), avail, used + GUTTER + widths[0])
    }
}

/// A painted run showing `shown` columns, padded to `w`.
pub open spec fn padded_run(p: Seq<char>, shown: int, w: int) -> Seq<char> {
    p + spaces(if shown < w { (w - shown) as nat } else { 0 })
}

/// `n` box-drawing rule characters.
pub open spec fn rule_of(n: int) -> Seq<char> {
    Seq::new(n as nat, |_i: int| '─')
}

/// Everything a table's layout is decided by.
pub struct Layout {
    /// The rendering choices.
    pub r: Render,
    /// Columns of indentation.
    pub indent: int,
    /// The header of the key column.
    pub key_header: Seq<char>,
    /// The header of the value column, for rows of scalars.
    pub vh: Option<Seq<char>>,
    /// The rows.
    pub rows: Seq<(String, Value)>,
    /// The data columns, in order.
    pub cols: Seq<Seq<char>>,
}

impl Layout {
    /// The width of the key column.
    pub open spec fn key_w(self) -> int {
        let m = max_key_len(self.rows);
        if m >= self.key_header.len() { m } else { self.key_header.len() as int }
    }

    /// The width of each data column.
    pub open spec fn col_w(self) -> Seq<int> {
        Seq::new(self.cols.len(), |i: int| col_width(self.r, self.vh, self.rows, self.cols[i]))
    }

    /// The room beside the indentation.
    pub open spec fn avail(self) -> int {
        if self.r.cols > self.indent { self.r.cols - self.indent } else { 0 }
    }

    /// How many data columns are in the grid; the rest are promoted.
    pub open spec fn fitted(self) -> int {
        fit_count(self.col_w(), self.avail(), self.key_w())
    }

    /// Where a promoted line hangs.
    pub open spec fn hang(self) -> int {
        self.indent + self.key_w() + GUTTER
    }

    /// The cell of row `i`, column `j`.
    pub open spec fn cell(self, i: int, j: int) -> (Seq<char>, int) {
        grid_cell(self.r, self.vh, self.rows[i].1, self.cols[j])
    }

    /// The first `n` fitted column names of the header, each after a gutter.
    pub open spec fn header_cells(self, n: int) -> Seq<char>
        decreases n,
    {
        if n <= 0 {
            Seq::empty()
        } else {
            self.header_cells(n - 1) + "  "@ + padded_run(
                painted(self.r.style.look(Role::Key), self.cols[n - 1]),
                self.cols[n - 1].len() as int,
                self.col_w()[n - 1],
            )
        }
    }

    /// The header line: the key header, then each fitted column's name.
    pub open spec fn header_line(self) -> Seq<char> {
        spaces(self.indent as nat) + trim_shown(
            padded_run(
                painted(self.r.style.look(Role::Key), self.key_header),
                self.key_header.len() as int,
                self.key_w(),
            ) + self.header_cells(self.fitted()),
        ) + "\n"@
    }

    /// The rules of the first `n` fitted columns, each after a gutter.
    pub open spec fn rule_cells(self, n: int) -> Seq<char>
        decreases n,
    {
        if n <= 0 {
            Seq::empty()
        } else {
            self.rule_cells(n - 1) + "  "@ + painted(
                self.r.style.look(Role::Separator),
                rule_of(self.col_w()[n - 1]),
            )
        }
    }

    /// The rule beneath the header.
    pub open spec fn rule_line(self) -> Seq<char> {
        spaces(self.indent as nat) + painted(
            self.r.style.look(Role::Separator),
            rule_of(self.key_w()),
        ) + self.rule_cells(self.fitted()) + "\n"@
    }

    /// The first `n` fitted cells of row `i`, each after a gutter.
    pub open spec fn row_cells(self, i: int, n: int) -> Seq<char>
        decreases n,
    {
        if n <= 0 {
            Seq::empty()
        } else {
            self.row_cells(i, n - 1) + "  "@ + padded_run(
                self.cell(i, n - 1).0,
                self.cell(i, n - 1).1,
                self.col_w()[n - 1],
            )
        }
    }

    /// The grid line of row `i`.
    pub open spec fn grid_line(self, i: int) -> Seq<char> {
        spaces(self.indent as nat) + trim_shown(
            padded_run(
                painted(self.r.style.look(Role::Value), self.rows[i].0@),
                self.rows[i].0@.len() as int,
                self.key_w(),
            ) + self.row_cells(i, self.fitted()),
        ) + "\n"@
    }

    /// Column `j` of row `i` promoted beneath the row, when it has
    /// something to show.
    pub open spec fn promoted(self, i: int, j: int) -> Seq<char> {
        let c = self.cell(i, j);
        if c.1 == 0 || stripped(c.0) == ABSENT@ {
            Seq::empty()
        } else {
            promoted_text(self.r, self.hang(), self.cols[j].len() as int, self.cols[j], c.0)
        }
    }

    /// The promoted lines of row `i` for the columns from the first past the
    /// grid up to `n`.
    pub open spec fn promoted_upto(self, i: int, n: int) -> Seq<char>
        decreases n,
    {
        if n <= 0 || n <= self.fitted() {
            Seq::empty()
        } else {
            self.promoted_upto(i, n - 1) + self.promoted(i, n - 1)
        }
    }

    /// The lines of the first `n` rows: each grid line, then what it promotes.
    pub open spec fn rows_upto(self, n: int) -> Seq<char>
        decreases n,
    {
        if n <= 0 {
            Seq::empty()
        } else {
            self.rows_upto(n - 1) + self.grid_line(n - 1) + self.promoted_upto(
                n - 1,
                self.cols.len() as int,
            )
        }
    }

    /// The whole table.
    pub open spec fn text(self) -> Seq<char> {
        self.header_line() + self.rule_line() + self.rows_upto(self.rows.len() as int)
    }
}

/// The wrapped pieces of a promoted value from the first to the `n`th, one
/// per line, the first under the label.
pub open spec fn piece_lines(
    r: Render,
    pad: Seq<char>,
    label: Seq<char>,
    name_w: int,
    pieces: Seq<Seq<char>>,
    n: int,
) -> Seq<char>
    decreases n,
{
    if n <= 0 {
        Seq::empty()
    } else {
        piece_lines(r, pad, label, name_w, pieces, n - 1) + pad + (if n - 1 == 0 {
            label
        } else {
            spaces(name_w as nat)
        }) + "  "@ + painted(r.style.look(Role::Digits), pieces[n - 1]) + "\n"@
    }
}

/// One promoted column beneath its row, in full, wrapped at its own
/// separators when there is room to and a need.
pub open spec fn promoted_text(r: Render, hang: int, name_w: int, name: Seq<char>, p: Seq<char>) -> Seq<char> {
    let pad = spaces(hang as nat);
    let label = padded_run(painted(r.style.look(Role::Key), name), name.len() as int, name_w);
    let value_indent = hang + name_w + GUTTER;
    let avail = if r.cols > value_indent { r.cols - value_indent } else { 0 };
    let plain = stripped(p);
    if plain.len() <= avail || avail < 8 {
        pad + label + "  "@ + p + "\n"@
    } else {
        let pieces = wrapped(plain, avail);
        piece_lines(r, pad, label, name_w, pieces, pieces.len() as int)
    }
}

/// A row-shaped field as a table, or `None` when the rows are not grid-shaped.
pub open spec fn table_text(
    r: Render,
    indent: int,
    key_header: Seq<char>,
    vh: Option<Seq<char>>,
    rows: Seq<(String, Value)>,
) -> Option<Seq<char>> {
    match table_columns(vh, rows) {
        Some(cols) => Some(
            Layout { r, indent, key_header, vh, rows, cols }.text(),
        ),
        None => None,
    }
}


/// Whether `v` is a section with at least one scalar field: a row that
/// shows something in a grid.
pub open spec fn shows_a_field(v: Value) -> bool {
    match v {
        Value::Section(f) => exists|j: int| 0 <= j < f@.len() && is_scalar_value(#[trigger] f@[j].1),
        _ => false,
    }
}

proof fn lemma_add_columns_nonempty(acc: Seq<Seq<char>>, fields: Seq<(String, Value)>)
    ensures
        add_columns(acc, fields).len() > 0 <==> (acc.len() > 0 || exists|j: int|
            0 <= j < fields.len() && is_scalar_value(#[trigger] fields[j].1)),
    decreases fields.len(),
{
    if fields.len() > 0 {
        let fl = fields.drop_last();
        lemma_add_columns_nonempty(acc, fl);
        let a = add_columns(acc, fl);
        if is_scalar_value(fields.last().1) {
            if a.contains(fields.last().0@) {
                assert(a.len() > 0);
            }
            assert(is_scalar_value(fields[fields.len() - 1].1));
        } else {
            if exists|j: int| 0 <= j < fields.len() && is_scalar_value(#[trigger] fields[j].1) {
                let j = choose|j: int| 0 <= j < fields.len() && is_scalar_value(#[trigger] fields[j].1);
                assert(j < fields.len() - 1);
                assert(fl[j] == fields[j]);
            }
            if exists|j: int| 0 <= j < fl.len() && is_scalar_value(#[trigger] fl[j].1) {
                let j = choose|j: int| 0 <= j < fl.len() && is_scalar_value(#[trigger] fl[j].1);
                assert(fl[j] == fields[j]);
            }
        }
    }
}

proof fn lemma_row_columns_nonempty(rows: Seq<(String, Value)>)
    ensures
        row_columns(rows).len() > 0 <==> exists|i: int| 0 <= i < rows.len() && shows_a_field(#[trigger] rows[i].1),
    decreases rows.len(),
{
    if rows.len() > 0 {
        let rl = rows.drop_last();
        lemma_row_columns_nonempty(rl);
        let a = row_columns(rl);
        let last = rows.last().1;
        assert(rows[rows.len() - 1].1 == last);
        match last {
            Value::Section(f) => {
                lemma_add_columns_nonempty(a, f@);
            },
            _ => {},
        }
        if exists|i: int| 0 <= i < rows.len() && shows_a_field(#[trigger] rows[i].1) {
            let i = choose|i: int| 0 <= i < rows.len() && shows_a_field(#[trigger] rows[i].1);
            if i < rows.len() - 1 {
                assert(rl[i] == rows[i]);
            }
        }
        if exists|i: int| 0 <= i < rl.len() && shows_a_field(#[trigger] rl[i].1) {
            let i = choose|i: int| 0 <= i < rl.len() && shows_a_field(#[trigger] rl[i].1);
            assert(rl[i] == rows[i]);
        }
    }
}

/// **A table is declined exactly when the rows are not a grid**: when there
/// are none; with a value column, when some row's value is not a scalar;
/// without one, when some row is not a section or no row has a scalar field
/// to show. [`render`] then writes nothing and answers `false`.
pub proof fn lemma_table_declined(
    r: Render,
    indent: int,
    key_header: Seq<char>,
    vh: Option<Seq<char>>,
    rows: Seq<(String, Value)>,
)
    ensures
        table_text(r, indent, key_header, vh, rows) is None <==> ({
            ||| rows.len() == 0
            ||| vh is Some && exists|i: int| 0 <= i < rows.len() && !is_scalar_value(#[trigger] rows[i].1)
            ||| vh is None && exists|i: int| 0 <= i < rows.len() && !((#[trigger] rows[i].1) is Section)
            ||| vh is None && forall|i: int| 0 <= i < rows.len() ==> !shows_a_field(#[trigger] rows[i].1)
        }),
{
    lemma_row_columns_nonempty(rows);
}

/// The value of the first field named `k`.
fn find_value<'a>(fields: &'a Vec<(String, Value)>, k: &str) -> (r: Option<&'a Value>)
    ensures
        match r {
            Some(v) => find_field(fields@, k@) == Some(*v),
            None => find_field(fields@, k@) is None,
        },
{
    let mut i: usize = 0;
    assert(fields@.skip(0) =~= fields@);
    while i < fields.len()
        invariant
            i <= fields.len(),
            find_field(fields@.skip(i as int), k@) == find_field(fields@, k@),
        decreases fields.len() - i,
    {
        assert(fields@.skip(i as int)[0] == fields@[i as int]);
        if str_eq(fields[i].0.as_str(), k) {
            return Some(&fields[i].1);
        }
        assert(fields@.skip(i as int).drop_first() =~= fields@.skip(i + 1));
        i = i + 1;
    }
    None
}

/// A painted cell and the width it shows.
fn cell(r: &Render, v: &Value) -> (c: (String, usize))
    ensures
        (c.0@, c.1 as int) == cell_of(*r, *v),
{
    let painted = render_scalar(r, v);
    let plain = strip_ansi(painted.as_str());
    let width = chars_of(plain.as_str()).len();
    (painted, width)
}

/// The cell of column `c` in a row holding `v`.
fn grid_cell_of(r: &Render, vh: Option<&str>, v: &Value, c: &str) -> (out: (String, usize))
    ensures
        (out.0@, out.1 as int) == grid_cell(*r, opt_view(vh), *v, c@),
{
    match vh {
        Some(_) => cell(r, v),
        None => match v {
            Value::Section(fields) => match find_value(fields, c) {
                Some(fv) => cell(r, fv),
                None => absent(r),
            },
            _ => absent(r),
        },
    }
}

/// The cell shown for a value a row does not have.
fn absent(r: &Render) -> (out: (String, usize))
    ensures
        (out.0@, out.1 as int) == absent_cell(*r),
{
    proof {
        reveal_strlit("—");
    }
    (r.style.paint(Role::Value, ABSENT), 1)
}

/// The view of one row of painted cells.
pub open spec fn cells_view(row: Seq<(String, usize)>) -> Seq<(Seq<char>, int)> {
    row.map_values(|c: (String, usize)| (c.0@, c.1 as int))
}

/// Every cell of the table, painted once and measured once.
fn build_grid(r: &Render, vh: Option<&str>, rows: &[(String, Value)], columns: &Vec<String>) -> (grid: Vec<Vec<(String, usize)>>)
    ensures
        grid@.len() == rows@.len(),
        forall|i: int|
            0 <= i < rows@.len() ==> (#[trigger] grid@[i])@.len() == columns@.len() && forall|j: int|
                0 <= j < columns@.len() ==> #[trigger] cells_view(grid@[i]@)[j] == grid_cell(
                    *r,
                    opt_view(vh),
                    rows@[i].1,
                    columns@[j]@,
                ),
{
    let mut grid: Vec<Vec<(String, usize)>> = Vec::new();
    let mut i: usize = 0;
    while i < rows.len()
        invariant
            i <= rows@.len(),
            grid@.len() == i,
            forall|a: int|
                0 <= a < i ==> (#[trigger] grid@[a])@.len() == columns@.len() && forall|j: int|
                    0 <= j < columns@.len() ==> #[trigger] cells_view(grid@[a]@)[j] == grid_cell(
                        *r,
                        opt_view(vh),
                        rows@[a].1,
                        columns@[j]@,
                    ),
        decreases rows@.len() - i,
    {
        let mut line: Vec<(String, usize)> = Vec::new();
        let mut j: usize = 0;
        while j < columns.len()
            invariant
                i < rows@.len(),
                j <= columns@.len(),
                line@.len() == j,
                forall|b: int|
                    0 <= b < j ==> #[trigger] cells_view(line@)[b] == grid_cell(
                        *r,
                        opt_view(vh),
                        rows@[i as int].1,
                        columns@[b]@,
                    ),
            decreases columns@.len() - j,
        {
            let c = grid_cell_of(r, vh, &rows[i].1, columns[j].as_str());
            let ghost before = line@;
            line.push(c);
            assert(cells_view(line@) =~= cells_view(before).push((c.0@, c.1 as int)));
            j = j + 1;
        }
        grid.push(line);
        i = i + 1;
    }
    grid
}

/// The longest row key, or the header if longer.
fn key_width(rows: &[(String, Value)], key_header: &str) -> (w: usize)
    ensures
        w == (if max_key_len(rows@) >= key_header@.len() {
            max_key_len(rows@)
        } else {
            key_header@.len() as int
        }),
{
    let mut m: usize = 0;
    let mut i: usize = 0;
    assert(rows@.take(0) =~= Seq::<(String, Value)>::empty());
    while i < rows.len()
        invariant
            i <= rows@.len(),
            m == max_key_len(rows@.take(i as int)),
        decreases rows@.len() - i,
    {
        assert(rows@.take(i + 1).drop_last() =~= rows@.take(i as int));
        let n = chars_of(rows[i].0.as_str()).len();
        if n > m {
            m = n;
        }
        i = i + 1;
    }
    assert(rows@.take(rows@.len() as int) =~= rows@);
    let h = chars_of(key_header).len();
    if m >= h { m } else { h }
}

/// The width of each column: its widest cell, or its name if wider.
fn column_widths(r: &Render, vh: Option<&str>, rows: &[(String, Value)], columns: &Vec<String>, grid: &Vec<Vec<(String, usize)>>) -> (w: Vec<usize>)
    requires
        grid@.len() == rows@.len(),
        forall|i: int|
            0 <= i < rows@.len() ==> (#[trigger] grid@[i])@.len() == columns@.len() && forall|j: int|
                0 <= j < columns@.len() ==> #[trigger] cells_view(grid@[i]@)[j] == grid_cell(
                    *r,
                    opt_view(vh),
                    rows@[i].1,
                    columns@[j]@,
                ),
    ensures
        w@.len() == columns@.len(),
        forall|j: int| 0 <= j < columns@.len() ==> #[trigger] w@[j] == col_width(*r, opt_view(vh), rows@, columns@[j]@),
{
    let mut w: Vec<usize> = Vec::new();
    let mut j: usize = 0;
    while j < columns.len()
        invariant
            j <= columns@.len(),
            w@.len() == j,
            grid@.len() == rows@.len(),
            forall|i: int|
                0 <= i < rows@.len() ==> (#[trigger] grid@[i])@.len() == columns@.len() && forall|j: int|
                    0 <= j < columns@.len() ==> #[trigger] cells_view(grid@[i]@)[j] == grid_cell(
                        *r,
                        opt_view(vh),
                        rows@[i].1,
                        columns@[j]@,
                    ),
            forall|b: int| 0 <= b < j ==> #[trigger] w@[b] == col_width(*r, opt_view(vh), rows@, columns@[b]@),
        decreases columns@.len() - j,
    {
        let mut m: usize = chars_of(columns[j].as_str()).len();
        let mut i: usize = 0;
        assert(rows@.take(0) =~= Seq::<(String, Value)>::empty());
        while i < rows.len()
            invariant
                i <= rows@.len(),
                j < columns@.len(),
                grid@.len() == rows@.len(),
                forall|i: int|
                    0 <= i < rows@.len() ==> (#[trigger] grid@[i])@.len() == columns@.len() && forall|j: int|
                        0 <= j < columns@.len() ==> #[trigger] cells_view(grid@[i]@)[j] == grid_cell(
                            *r,
                            opt_view(vh),
                            rows@[i].1,
                            columns@[j]@,
                        ),
                m == col_width(*r, opt_view(vh), rows@.take(i as int), columns@[j as int]@),
            decreases rows@.len() - i,
        {
            assert(rows@.take(i + 1).drop_last() =~= rows@.take(i as int));
            assert(cells_view(grid@[i as int]@)[j as int] == grid_cell(*r, opt_view(vh), rows@[i as int].1, columns@[j as int]@));
            let n = grid[i][j].1;
            if n > m {
                m = n;
            }
            i = i + 1;
        }
        assert(rows@.take(rows@.len() as int) =~= rows@);
        w.push(m);
        j = j + 1;
    }
    w
}

/// How many columns, taken in order, fit beside the key column.
fn count_fitted(widths: &Vec<usize>, avail: usize, key_w: usize) -> (n: usize)
    ensures
        n == fit_count(widths@.map_values(|w: usize| w as int), avail as int, key_w as int),
        n <= widths@.len(),
{
    let ghost ws = widths@.map_values(|w: usize| w as int);
    let mut used: usize = key_w;
    let mut n: usize = 0;
    assert(ws.skip(0) =~= ws);
    while n < widths.len()
        invariant
            n <= widths@.len(),
            ws == widths@.map_values(|w: usize| w as int),
            fit_count(ws, avail as int, key_w as int) == n + fit_count(ws.skip(n as int), avail as int, used as int),
        decreases widths@.len() - n,
    {
        let w = widths[n];
        assert(ws.skip(n as int)[0] == w as int);
        let fits = avail >= used && avail - used >= GUTTER && avail - used - GUTTER >= w;
        if !fits {
            assert(fit_count(ws.skip(n as int), avail as int, used as int) == 0);
            return n;
        }
        assert(ws.skip(n as int).drop_first() =~= ws.skip(n + 1));
        used = used + GUTTER + w;
        n = n + 1;
    }
    assert(ws.skip(n as int) =~= Seq::<int>::empty());
    n
}


/// `s` without the trailing whitespace a reader sees: what it shows is
/// trimmed, and every escape sequence stays.
pub open spec fn trim_shown(s: Seq<char>) -> Seq<char> {
    keep_shown(s, trim_end_ws(stripped(s)).len())
}

/// **Trimming by what a reader sees trims what they read.** The trimmed
/// run shows the trimmed text, and leaves the scan where the run does.
pub proof fn lemma_trim_shown(s: Seq<char>)
    ensures
        strip_run(Scan::Text, trim_shown(s)) == (trim_end_ws(stripped(s)), strip_run(Scan::Text, s).1),
{
    lemma_keep_shown(s, trim_end_ws(stripped(s)).len());
    lemma_trim_end(stripped(s));
}

/// Text with no escape character trims as text does.
pub proof fn lemma_trim_shown_plain(s: Seq<char>)
    requires
        !s.contains(ESC),
    ensures
        trim_shown(s) == trim_end_ws(s),
{
    lemma_strip_plain(s);
    lemma_keep_shown_plain(s, trim_end_ws(s).len());
    lemma_trim_end(s);
}

/// Append `s` without the trailing whitespace a reader sees.
fn push_trimmed(out: &mut String, s: &String)
    ensures
        final(out)@ == old(out)@ + trim_shown(s@),
{
    let plain = strip_ansi(s.as_str());
    let v = chars_of(plain.as_str());
    let t = trim_end_chars(&v);
    let kept = keep_shown_string(s.as_str(), t.len());
    push_str(out, kept.as_str());
}

/// `n` box-drawing rule characters.
pub fn rule_string(n: usize) -> (s: String)
    ensures
        s@ == rule_of(n as int),
{
    let mut s = String::new();
    let mut i: usize = 0;
    while i < n
        invariant
            i <= n,
            s@ == rule_of(i as int),
        decreases n - i,
    {
        push_char(&mut s, '─');
        i = i + 1;
        assert(s@ =~= rule_of(i as int));
    }
    s
}

/// One promoted column, beneath its row, in full.
///
/// Wrapping happens at the value's own separators when it has them; a run
/// with no room at all is written long rather than broken.
fn write_promoted(out: &mut String, r: &Render, hang: usize, name_w: usize, name: &str, painted: &str)
    ensures
        final(out)@ == old(out)@ + promoted_text(*r, hang as int, name_w as int, name@, painted@),
{
    let style = &r.style;
    let label = pad_to(style.paint(Role::Key, name).as_str(), chars_of(name).len(), name_w);
    let value_indent: u128 = hang as u128 + name_w as u128 + GUTTER as u128;
    let avail: usize = if (r.cols as u128) > value_indent {
        (r.cols as u128 - value_indent) as usize
    } else {
        0
    };
    let plain = strip_ansi(painted);
    let shown = chars_of(plain.as_str()).len();
    if shown <= avail || avail < 8 {
        push_spaces(out, hang);
        push_str(out, label.as_str());
        push_str(out, "  ");
        push_str(out, painted);
        push_str(out, "\n");
        return;
    }
    let pieces = wrap_at_separators(plain.as_str(), avail);
    let ghost pv = pieces@.map_values(|p: String| p@);
    let ghost start = out@;
    let mut k: usize = 0;
    while k < pieces.len()
        invariant
            k <= pieces@.len(),
            pv == pieces@.map_values(|p: String| p@),
            out@ == start + piece_lines(*r, spaces(hang as nat), label@, name_w as int, pv, k as int),
        decreases pieces@.len() - k,
    {
        let ghost before = out@;
        push_spaces(out, hang);

        if k == 0 {
            push_str(out, label.as_str());
        } else {
            push_spaces(out, name_w);
        }

        push_str(out, "  ");
        assert(pv[k as int] == pieces@[k as int]@);
        let p = r.style.paint(Role::Digits, pieces[k].as_str());
        push_str(out, p.as_str());
        push_str(out, "\n");
        assert(pv[k as int] == pieces@[k as int]@);
        assert(out@ =~= before + spaces(hang as nat) + (if k == 0 { label@ } else { spaces(name_w as nat) }) + "  "@
            + crate::style::painted(r.style.look(Role::Digits), pv[k as int]) + "\n"@);
        assert(piece_lines(*r, spaces(hang as nat), label@, name_w as int, pv, k + 1) == piece_lines(*r, spaces(hang as nat), label@, name_w as int, pv, k as int)
            + spaces(hang as nat) + (if k == 0 { label@ } else { spaces(name_w as nat) }) + "  "@
            + crate::style::painted(r.style.look(Role::Digits), pv[k as int]) + "\n"@);
        k = k + 1;
        assert(out@ =~= start + piece_lines(*r, spaces(hang as nat), label@, name_w as int, pv, k as int));
    }
}


/// What the computed grid, widths and fit say of a layout.
pub open spec fn laid_out(
    l: Layout,
    columns: Seq<String>,
    grid: Seq<Vec<(String, usize)>>,
    col_w: Seq<usize>,
    key_w: int,
    fitted: int,
) -> bool {
    &&& l.cols == columns.map_values(|x: String| x@)
    &&& grid.len() == l.rows.len()
    &&& forall|i: int|
        0 <= i < l.rows.len() ==> (#[trigger] grid[i])@.len() == l.cols.len() && forall|j: int|
            0 <= j < l.cols.len() ==> #[trigger] cells_view(grid[i]@)[j] == l.cell(i, j)
    &&& col_w.len() == l.cols.len()
    &&& forall|j: int| 0 <= j < l.cols.len() ==> #[trigger] col_w[j] == l.col_w()[j]
    &&& key_w == l.key_w()
    &&& fitted == l.fitted()
    &&& 0 <= fitted <= l.cols.len()
}

/// Render a row-shaped field as a table, appending it to `out`.
///
/// `key_header` names the column holding each row's key; `value_header` is
/// given when the rows are scalars rather than sections (the two-column
/// case). Data columns are taken in order while they fit beside the key
/// column; the first that does not ends the grid, and it and the rest are
/// promoted beneath each row, whole. Returns `false`, and writes nothing,
/// when the rows are not grid-shaped.
pub fn render(
    out: &mut String,
    r: &Render,
    indent: usize,
    key_header: &str,
    value_header: Option<&str>,
    rows: &[(String, Value)],
) -> (ok: bool)
    requires
        indent + max_key_len(rows@) + key_header@.len() + GUTTER <= usize::MAX,
    ensures
        match table_text(*r, indent as int, key_header@, opt_view(value_header), rows@) {
            Some(t) => ok && final(out)@ == old(out)@ + t,
            None => !ok && final(out)@ == old(out)@,
        },
{
    let columns = match columns_of(value_header, rows) {
        Some(c) => c,
        None => {
            return false;
        },
    };
    let ghost l = Layout {
        r: *r,
        indent: indent as int,
        key_header: key_header@,
        vh: opt_view(value_header),
        rows: rows@,
        cols: columns@.map_values(|x: String| x@),
    };
    let grid = build_grid(r, value_header, rows, &columns);
    let key_w = key_width(rows, key_header);
    let col_w = column_widths(r, value_header, rows, &columns, &grid);
    assert(l.col_w() =~= col_w@.map_values(|w: usize| w as int));
    let avail: usize = if r.cols > indent { r.cols - indent } else { 0 };
    let fitted = count_fitted(&col_w, avail, key_w);
    assert(laid_out(l, columns@, grid@, col_w@, key_w as int, fitted as int));
    let hang: usize = indent + key_w + GUTTER;
    let ghost start = out@;
    write_header(out, r, Ghost(l), indent, key_header, &columns, &grid, &col_w, key_w, fitted);
    let ghost after_header = out@;
    write_rule(out, r, Ghost(l), indent, &columns, &grid, &col_w, key_w, fitted);
    let ghost body0 = out@;
    let mut i: usize = 0;
    while i < rows.len()
        invariant
            i <= rows@.len(),
            laid_out(l, columns@, grid@, col_w@, key_w as int, fitted as int),
            l.r == *r,
            l.rows == rows@,
            l.indent == indent,
            hang == l.hang(),
            out@ == body0 + l.rows_upto(i as int),
        decreases rows@.len() - i,
    {
        write_row(out, r, Ghost(l), indent, rows, &columns, &grid, &col_w, key_w, fitted, hang, i);
        i = i + 1;
        assert(out@ =~= body0 + l.rows_upto(i as int));
    }
    assert(out@ =~= start + l.text());
    true
}


fn write_header(
    out: &mut String,
    r: &Render,
    Ghost(l): Ghost<Layout>,
    indent: usize,
    key_header: &str,
    columns: &Vec<String>,
    grid: &Vec<Vec<(String, usize)>>,
    col_w: &Vec<usize>,
    key_w: usize,
    fitted: usize,
)
    requires
        laid_out(l, columns@, grid@, col_w@, key_w as int, fitted as int),
        l.r == *r,
        l.indent == indent,
        l.key_header == key_header@,
    ensures
        final(out)@ == old(out)@ + l.header_line(),
{
    let mut header = pad_to(r.style.paint(Role::Key, key_header).as_str(), chars_of(key_header).len(), key_w);
    let ghost head0 = header@;
    let mut j: usize = 0;
    while j < fitted
        invariant
            j <= fitted,
            laid_out(l, columns@, grid@, col_w@, key_w as int, fitted as int),
            l.r == *r,
            header@ == head0 + l.header_cells(j as int),
        decreases fitted - j,
    {
        push_str(&mut header, "  ");
        let h = pad_to(r.style.paint(Role::Key, columns[j].as_str()).as_str(), chars_of(columns[j].as_str()).len(), col_w[j]);
        push_str(&mut header, h.as_str());
        j = j + 1;
        assert(header@ =~= head0 + l.header_cells(j as int));
    }
    push_spaces(out, indent);
    push_trimmed(out, &header);
    push_str(out, "\n");
    assert(out@ =~= old(out)@ + l.header_line());
}

fn write_rule(
    out: &mut String,
    r: &Render,
    Ghost(l): Ghost<Layout>,
    indent: usize,
    columns: &Vec<String>,
    grid: &Vec<Vec<(String, usize)>>,
    col_w: &Vec<usize>,
    key_w: usize,
    fitted: usize,
)
    requires
        laid_out(l, columns@, grid@, col_w@, key_w as int, fitted as int),
        l.r == *r,
        l.indent == indent,
    ensures
        final(out)@ == old(out)@ + l.rule_line(),
{
    push_spaces(out, indent);
    let kr = rule_string(key_w);
    let kp = r.style.paint(Role::Separator, kr.as_str());
    push_str(out, kp.as_str());
    let ghost rule0 = out@;
    let mut j: usize = 0;
    while j < fitted
        invariant
            j <= fitted,
            laid_out(l, columns@, grid@, col_w@, key_w as int, fitted as int),
            l.r == *r,
            out@ == rule0 + l.rule_cells(j as int),
        decreases fitted - j,
    {
        push_str(out, "  ");
        let cr = rule_string(col_w[j]);
        let cp = r.style.paint(Role::Separator, cr.as_str());
        push_str(out, cp.as_str());
        j = j + 1;
        assert(out@ =~= rule0 + l.rule_cells(j as int));
    }
    push_str(out, "\n");
    assert(out@ =~= old(out)@ + l.rule_line());
}

fn write_row(
    out: &mut String,
    r: &Render,
    Ghost(l): Ghost<Layout>,
    indent: usize,
    rows: &[(String, Value)],
    columns: &Vec<String>,
    grid: &Vec<Vec<(String, usize)>>,
    col_w: &Vec<usize>,
    key_w: usize,
    fitted: usize,
    hang: usize,
    i: usize,
)
    requires
        laid_out(l, columns@, grid@, col_w@, key_w as int, fitted as int),
        l.r == *r,
        l.rows == rows@,
        l.indent == indent,
        hang == l.hang(),
        i < rows@.len(),
    ensures
        final(out)@ == old(out)@ + l.grid_line(i as int) + l.promoted_upto(i as int, l.cols.len() as int),
{
    let key = rows[i].0.as_str();
    let mut line = pad_to(r.style.paint(Role::Value, key).as_str(), chars_of(key).len(), key_w);
    let ghost line0 = line@;
    let mut j: usize = 0;
    while j < fitted
        invariant
            i < rows@.len(),
            j <= fitted,
            laid_out(l, columns@, grid@, col_w@, key_w as int, fitted as int),
            l.rows == rows@,
            l.r == *r,
            line@ == line0 + l.row_cells(i as int, j as int),
        decreases fitted - j,
    {
        push_str(&mut line, "  ");
        assert(cells_view(grid@[i as int]@)[j as int] == l.cell(i as int, j as int));
        let c = pad_to(grid[i][j].0.as_str(), grid[i][j].1, col_w[j]);
        push_str(&mut line, c.as_str());
        j = j + 1;
        assert(line@ =~= line0 + l.row_cells(i as int, j as int));
    }
    push_spaces(out, indent);
    push_trimmed(out, &line);
    push_str(out, "\n");
    let ghost mid = out@;
    assert(mid =~= old(out)@ + l.grid_line(i as int));
    let mut j: usize = fitted;
    while j < columns.len()
        invariant
            i < rows@.len(),
            fitted <= j <= columns@.len(),
            laid_out(l, columns@, grid@, col_w@, key_w as int, fitted as int),
            l.r == *r,
            l.rows == rows@,
            hang == l.hang(),
            out@ == mid + l.promoted_upto(i as int, j as int),
        decreases columns@.len() - j,
    {
        assert(cells_view(grid@[i as int]@)[j as int] == l.cell(i as int, j as int));
        let shown = grid[i][j].1;
        let painted = grid[i][j].0.as_str();
        let plain = strip_ansi(painted);
        proof {
            reveal_strlit("—");
        }
        if !(shown == 0 || str_eq(plain.as_str(), ABSENT)) {
            write_promoted(out, r, hang, chars_of(columns[j].as_str()).len(), columns[j].as_str(), painted);
        }
        j = j + 1;
        assert(out@ =~= mid + l.promoted_upto(i as int, j as int));
    }
}

} // verus!
