//! Colour never changes a character: stripping the escape sequences from a
//! styled rendering gives the plain rendering.
//!
//! The layout is computed from what a reader sees, so a coloured line breaks
//! where the plain one does; this module proves that of the wrapping of
//! painted text, and builds the document-level statement on it.
use vstd::prelude::*;

use crate::style::{
    all_digits, body_of, csi, digit_char, first_group_len, first_space, form_body, form_role, form_tag,
    group_role, grouped, later_groups, lemma_first_space_bounds, lemma_no_escape_within, lemma_paint_strips_back,
    lemma_run_end_bounds, lemma_runs_strip_back, lemma_strip_plain, lemma_strip_run_append, painted,
    painted_form, painted_runs, palette_index, run_end, sgr_open, sgr_reset, sign_of, strip_run, strip_step,
    stripped, Look, Render, Role, Scan, Style,
};
use crate::table::{chosen_break, joined, painted_lines, pw_break, pw_run, pw_step, trim_spaces, wrapped_painted, PaintWrap};
use crate::cert::{cert_text, mode_spelling, Certification};
use crate::emit::{
    cert_kinds, cert_names, certs_in, certs_of, certs_part, doc_text, field_line, field_text, fields_text,
    group_lines, indent_of, joined_with, label_width, leaf_of, list_lines, notes_part, opt_string, padded_text,
    path_of, prose_role, scalar_key_width, scalar_text, title_part, Doc, Value, EXACT_NOTE,
};
use crate::style::{lemma_form_plain, lemma_grouped_strips_back, lemma_keep_shown, lemma_keep_shown_plain, take_upto};
use crate::table::{
    absent_cell, cell_of, col_width, find_field, fit_count, grid_cell, lemma_wrap_run_inv, padded_run, piece_lines,
    promoted_text, row_columns, add_columns, rule_of, table_columns, table_text, trim_end_ws, wrap_inv, wrap_run,
    lemma_trim_shown, lemma_trim_shown_plain, trim_shown, trim_shown_spaces, lemma_trim_spaces_prefix,
    wrapped, Layout, ABSENT,
};
use crate::text::{alphanumeric, whitespace};
use crate::text::{decimal, digit_of, spaces, ESC};

verus! {

/// The scan state in front of character `k` of `s`.
pub open spec fn state_at(s: Seq<char>, k: int) -> Scan {
    strip_run(Scan::Text, s.take(k)).1
}

/// Character `k` of `s` is one a reader sees.
pub open spec fn visible_at(s: Seq<char>, k: int) -> bool {
    0 <= k < s.len() && state_at(s, k) == Scan::Text && s[k] != ESC
}

/// The strip scan over one more character.
proof fn lemma_strip_push(st: Scan, s: Seq<char>, c: char)
    ensures
        strip_run(st, s.push(c)) == ({
            let (o, s1) = strip_run(st, s);
            let (e, s2) = strip_step(s1, c);
            (
                match e {
                    Some(ch) => o.push(ch),
                    None => o,
                },
                s2,
            )
        }),
{
    assert(s.push(c).drop_last() =~= s);
}


/// The scan one character further, and what it keeps.
proof fn lemma_state_step(s: Seq<char>, k: int)
    requires
        0 <= k < s.len(),
    ensures
        state_at(s, k + 1) == strip_step(state_at(s, k), s[k]).1,
        visible_at(s, k) ==> state_at(s, k + 1) == Scan::Text,
        stripped(s.take(k + 1)) == (if visible_at(s, k) {
            stripped(s.take(k)).push(s[k])
        } else {
            stripped(s.take(k))
        }),
{
    assert(s.take(k + 1) =~= s.take(k).push(s[k]));
    lemma_strip_push(Scan::Text, s.take(k), s[k]);
}

/// A scan of a segment that starts in text ends where the scan of the
/// whole prefix does.
proof fn lemma_seg(s: Seq<char>, b: int, e: int)
    requires
        0 <= b <= e <= s.len(),
        state_at(s, b) == Scan::Text,
    ensures
        strip_run(Scan::Text, s.subrange(b, e)).1 == state_at(s, e),
{
    assert(s.take(e) =~= s.take(b) + s.subrange(b, e));
    lemma_strip_run_append(Scan::Text, s.take(b), s.subrange(b, e));
}

/// Stripping a segment one character further keeps that character exactly
/// when a reader sees it.
proof fn lemma_seg_push(s: Seq<char>, b: int, e: int)
    requires
        0 <= b <= e < s.len(),
        state_at(s, b) == Scan::Text,
    ensures
        stripped(s.subrange(b, e + 1)) == (if visible_at(s, e) {
            stripped(s.subrange(b, e)).push(s[e])
        } else {
            stripped(s.subrange(b, e))
        }),
{
    lemma_seg(s, b, e);
    assert(s.subrange(b, e + 1) =~= s.subrange(b, e).push(s[e]));
    lemma_strip_push(Scan::Text, s.subrange(b, e), s[e]);
}

/// Trimming trailing spaces from a segment that ends in a visible character
/// trims exactly the spaces a reader sees, and leaves the scan in text.
#[verifier::spinoff_prover]
/// Where a break candidate falls once the line is stripped.
pub open spec fn seen_mark(line: Seq<char>, m: Option<(int, int)>) -> Option<(int, int)> {
    match m {
        Some((a, c)) => Some((stripped(line.take(a)).len() as int, c)),
        None => None,
    }
}

/// What a reader sees of a wrap in progress: every line stripped, and the
/// break candidates where they fall in the stripped line.
pub open spec fn seen(st: PaintWrap) -> PaintWrap {
    PaintWrap {
        lines: st.lines.map_values(|l: Seq<char>| stripped(l)),
        line: stripped(st.line),
        col: st.col,
        brk_space: seen_mark(st.line, st.brk_space),
        brk_sep: seen_mark(st.line, st.brk_sep),
        scan: Scan::Text,
    }
}

/// The wrap of the first `n` characters of `s` is in step with `s`: its
/// line is the segment of `s` since the last break, which began in text,
/// its ended lines end in text, and each break candidate follows a character
/// a reader sees.
pub open spec fn in_step(s: Seq<char>, n: int, st: PaintWrap) -> bool {
    let b = n - st.line.len();
    &&& 0 <= b <= n <= s.len()
    &&& st.scan == state_at(s, n)
    &&& st.line == s.subrange(b, n)
    &&& state_at(s, b) == Scan::Text
    &&& forall|i: int|
        0 <= i < st.lines.len() ==> strip_run(Scan::Text, #[trigger] st.lines[i]).1 == Scan::Text
    &&& (st.brk_space matches Some((a, _)) ==> 1 <= a <= st.line.len() && visible_at(s, b + a - 1))
    &&& (st.brk_sep matches Some((a, _)) ==> 1 <= a <= st.line.len() && visible_at(s, b + a - 1))
}


/// A character a reader does not see joins the line and changes nothing a
/// reader sees of the wrap.
proof fn lemma_hidden_step(s: Seq<char>, k: int, st: PaintWrap, indent: int, width: int)
    requires
        in_step(s, k, st),
        0 <= k < s.len(),
        !visible_at(s, k),
    ensures
        in_step(s, k + 1, pw_step(st, s[k], indent, width)),
        seen(pw_step(st, s[k], indent, width)) == seen(st),
{
    let c = s[k];
    let b = k - st.line.len();
    lemma_seg(s, b, k);
    lemma_seg_push(s, b, k);
    lemma_state_step(s, k);
    let nx = pw_step(st, c, indent, width);
    assert(nx.line == st.line.push(c));
    assert(nx.line =~= s.subrange(b, k + 1));
    assert(nx.lines == st.lines && nx.col == st.col);
    assert(nx.brk_space == st.brk_space && nx.brk_sep == st.brk_sep);
    if let Some((a, _)) = st.brk_space {
        assert(nx.line.take(a) =~= st.line.take(a));
    }
    if let Some((a, _)) = st.brk_sep {
        assert(nx.line.take(a) =~= st.line.take(a));
    }
    assert(seen(nx).lines =~= seen(st).lines);
}

/// Breaking a full line keeps the wrap in step with `s`, and a reader sees
/// the break the stripped wrap makes.
proof fn lemma_break_seen(s: Seq<char>, k: int, st: PaintWrap, indent: int, width: int)
    requires
        in_step(s, k, st),
        0 <= k < s.len(),
        visible_at(s, k),
    ensures
        ({
            let bw = pw_break(st, indent, width);
            let b = k - bw.line.len();
            &&& 0 <= b <= k
            &&& bw.line == s.subrange(b, k)
            &&& state_at(s, b) == Scan::Text
            &&& bw.scan == st.scan
            &&& bw.brk_space is None
            &&& bw.brk_sep is None
            &&& forall|i: int|
                0 <= i < bw.lines.len() ==> strip_run(Scan::Text, #[trigger] bw.lines[i]).1
                    == Scan::Text
            &&& seen(bw) == pw_break(seen(st), indent, width)
        }),
{
    let b = k - st.line.len();
    let half = (indent + width) / 2;
    let sv = seen(st);
    let bw = pw_break(st, indent, width);
    lemma_seg(s, b, k);
    match chosen_break(st, half) {
        Some((at, bcol, was_space)) => {
            let head = st.line.take(at);
            let rest = st.line.skip(at);
            assert(1 <= at <= st.line.len() && visible_at(s, b + at - 1));
            assert(head =~= s.subrange(b, b + at));
            assert(rest =~= s.subrange(b + at, k));
            lemma_state_step(s, b + at - 1);
            lemma_seg(s, b, b + at);
            assert(st.line =~= head + rest);
            lemma_strip_run_append(Scan::Text, head, rest);
            let at2 = stripped(head).len() as int;
            assert(chosen_break(sv, half) == Some((at2, bcol, was_space)));
            assert(sv.line.take(at2) =~= stripped(head));
            assert(sv.line.skip(at2) =~= stripped(rest));
            let kept = if was_space { trim_shown_spaces(head) } else { head };
            if was_space {
                let sh = stripped(head);
                let kk = trim_spaces(sh).len();
                lemma_keep_shown(head, kk);
                lemma_trim_spaces_prefix(sh);
                assert(take_upto(sh, kk) =~= trim_spaces(sh));
                lemma_strip_output_clean(Scan::Text, head);
                lemma_strip_plain(sh);
                lemma_keep_shown_plain(sh, kk);
                assert(trim_shown_spaces(sh) == trim_spaces(sh));
                assert(stripped(kept) == trim_spaces(sh));
            }
            assert(strip_run(Scan::Text, kept).1 == Scan::Text);
            assert(bw.lines == st.lines.push(kept));
            assert forall|i: int| 0 <= i < bw.lines.len() implies strip_run(
                Scan::Text,
                #[trigger] bw.lines[i],
            ).1 == Scan::Text by {
                if i < st.lines.len() {
                    assert(bw.lines[i] == st.lines[i]);
                }
            }
            let pb = pw_break(sv, indent, width);
            assert(seen(bw).lines =~= pb.lines);
            assert(seen(bw).line == pb.line);
            assert(seen(bw) == pb);
        },
        None => {
            assert(chosen_break(sv, half) is None);
            assert(bw.lines == st.lines.push(st.line));
            assert forall|i: int| 0 <= i < bw.lines.len() implies strip_run(
                Scan::Text,
                #[trigger] bw.lines[i],
            ).1 == Scan::Text by {
                if i < st.lines.len() {
                    assert(bw.lines[i] == st.lines[i]);
                }
            }
            assert(bw.line =~= s.subrange(k, k));
            assert(stripped(Seq::<char>::empty()) =~= Seq::<char>::empty());
            let pb = pw_break(sv, indent, width);
            assert(seen(bw).lines =~= pb.lines);
            assert(seen(bw).line =~= pb.line);
            assert(seen(bw) == pb);
        },
    }
}


/// A character a reader sees is taken the same way by the wrap and by the
/// wrap of the stripped text.
proof fn lemma_visible_step(s: Seq<char>, k: int, st: PaintWrap, indent: int, width: int)
    requires
        in_step(s, k, st),
        0 <= k < s.len(),
        visible_at(s, k),
    ensures
        in_step(s, k + 1, pw_step(st, s[k], indent, width)),
        seen(pw_step(st, s[k], indent, width)) == pw_step(seen(st), s[k], indent, width),
{
    let c = s[k];
    lemma_state_step(s, k);
    lemma_break_seen(s, k, st, indent, width);
    let bb = if st.col >= width { pw_break(st, indent, width) } else { st };
    let b = k - bb.line.len();
    assert(bb.line == s.subrange(b, k) && state_at(s, b) == Scan::Text);
    lemma_seg_push(s, b, k);
    let nx = pw_step(st, c, indent, width);
    let line = bb.line.push(c);
    assert(nx.line == line);
    assert(line =~= s.subrange(b, k + 1));
    assert(line.take(line.len() as int) =~= line);
    assert(stripped(line) == stripped(bb.line).push(c));
    if let Some((a, _)) = bb.brk_space {
        assert(line.take(a) =~= bb.line.take(a));
    }
    if let Some((a, _)) = bb.brk_sep {
        assert(line.take(a) =~= bb.line.take(a));
    }
    let sb = if st.col >= width { pw_break(seen(st), indent, width) } else { seen(st) };
    assert(seen(bb) == sb);
    let px = pw_step(seen(st), c, indent, width);
    assert(seen(nx).lines =~= px.lines);
    assert(seen(nx) == px);
}

/// The wrap of every prefix of `s` is in step with `s`, and a reader sees
/// the wrap of the stripped prefix.
proof fn lemma_wrap_in_step(s: Seq<char>, n: int, first: int, indent: int, width: int)
    requires
        0 <= n <= s.len(),
    ensures
        in_step(s, n, pw_run(s.take(n), first, indent, width)),
        seen(pw_run(s.take(n), first, indent, width)) == pw_run(stripped(s.take(n)), first, indent, width),
    decreases n,
{
    if n == 0 {
        assert(s.take(0) =~= Seq::<char>::empty());
        let st = pw_run(s.take(0), first, indent, width);
        assert(stripped(Seq::<char>::empty()) =~= Seq::<char>::empty());
        assert(st.line =~= s.subrange(0, 0));
        assert(seen(st).lines =~= Seq::<Seq<char>>::empty());
        assert(seen(st) == pw_run(stripped(s.take(0)), first, indent, width));
    } else {
        let k = n - 1;
        lemma_wrap_in_step(s, k, first, indent, width);
        let st = pw_run(s.take(k), first, indent, width);
        assert(s.take(n).drop_last() =~= s.take(k));
        assert(s.take(n).last() == s[k]);
        assert(pw_run(s.take(n), first, indent, width) == pw_step(st, s[k], indent, width));
        lemma_state_step(s, k);
        let t = stripped(s.take(k));
        if visible_at(s, k) {
            lemma_visible_step(s, k, st, indent, width);
            assert(stripped(s.take(n)).drop_last() =~= t);
            assert(stripped(s.take(n)).last() == s[k]);
        } else {
            lemma_hidden_step(s, k, st, indent, width);
        }
    }
}

/// Newlines and spaces are kept as they are and leave the scan in text.
proof fn lemma_strip_gap(indent: nat)
    ensures
        strip_run(Scan::Text, seq!['\n'] + spaces(indent)) == (seq!['\n'] + spaces(indent), Scan::Text),
{
    let g = seq!['\n'] + spaces(indent);
    assert(!g.contains(ESC)) by {
        if g.contains(ESC) {
            let i = choose|i: int| 0 <= i < g.len() && g[i] == ESC;
            if i > 0 {
                assert(g[i] == spaces(indent)[i - 1]);
            }
        }
    }
    lemma_strip_plain(g);
}

/// Lines that each end in text, joined: each is stripped on its own.
proof fn lemma_joined_strip(lines: Seq<Seq<char>>, indent: nat)
    requires
        forall|i: int| 0 <= i < lines.len() ==> strip_run(Scan::Text, #[trigger] lines[i]).1 == Scan::Text,
    ensures
        strip_run(Scan::Text, joined(lines, indent)) == (
            joined(lines.map_values(|l: Seq<char>| stripped(l)), indent),
            Scan::Text,
        ),
    decreases lines.len(),
{
    let f = |l: Seq<char>| stripped(l);
    if lines.len() == 0 {
        assert(lines.map_values(f) =~= Seq::<Seq<char>>::empty());
    } else {
        let init = lines.drop_last();
        let last = lines.last();
        assert forall|i: int| 0 <= i < init.len() implies strip_run(Scan::Text, #[trigger] init[i]).1
            == Scan::Text by {
            assert(init[i] == lines[i]);
        }
        lemma_joined_strip(init, indent);
        assert(strip_run(Scan::Text, last).1 == Scan::Text) by {
            assert(last == lines[lines.len() - 1]);
        }
        let g = seq!['\n'] + spaces(indent);
        lemma_strip_gap(indent);
        assert(joined(lines, indent) =~= joined(init, indent) + (last + g));
        lemma_strip_run_append(Scan::Text, last, g);
        lemma_strip_run_append(Scan::Text, joined(init, indent), last + g);
        let m = lines.map_values(f);
        assert(m.drop_last() =~= init.map_values(f));
        assert(m.last() == stripped(last));
        assert(joined(m, indent) =~= joined(init.map_values(f), indent) + (stripped(last) + g));
    }
}

/// **No line break falls inside an escape sequence.** Every line of a wrap
/// but the last ends with its escape sequences closed, so each line is read
/// from the start.
pub proof fn lemma_lines_end_in_text(s: Seq<char>, first: int, indent: int, width: int)
    ensures
        forall|k: int|
            0 <= k < painted_lines(s, first, indent, width).len() - 1 ==> strip_run(
                Scan::Text,
                #[trigger] painted_lines(s, first, indent, width)[k],
            ).1 == Scan::Text,
{
    let n = s.len() as int;
    assert(s.take(n) =~= s);
    lemma_wrap_in_step(s, n, first, indent, width);
    let st = pw_run(s, first, indent, width);
    let ls = painted_lines(s, first, indent, width);
    assert forall|k: int| 0 <= k < ls.len() - 1 implies strip_run(Scan::Text, #[trigger] ls[k]).1 == Scan::Text by {
        assert(ls[k] == st.lines[k]);
    }
}

/// **Colour never moves a line break.** Wrapping painted text and then
/// removing its escape sequences gives exactly the wrap of the text a reader
/// sees: breaks are chosen by visible characters only, and the spaces
/// trimmed at a break are the ones a reader sees at its end, whatever escape
/// sequences stand among them. The scan also ends where the scan of the
/// unwrapped run does.
pub proof fn lemma_wrap_strips_back(s: Seq<char>, first: int, indent: nat, width: int)
    ensures
        stripped(wrapped_painted(s, first, indent, width)) == wrapped_painted(
            stripped(s),
            first,
            indent,
            width,
        ),
        strip_run(Scan::Text, wrapped_painted(s, first, indent, width)).1 == strip_run(
            Scan::Text,
            s,
        ).1,
{
    if width > indent + 8 {
        let n = s.len() as int;
        assert(s.take(n) =~= s);
        lemma_wrap_in_step(s, n, first, indent as int, width);
        let st = pw_run(s, first, indent as int, width);
        lemma_joined_strip(st.lines, indent);
        let b = n - st.line.len();
        lemma_seg(s, b, n);
        lemma_strip_run_append(Scan::Text, joined(st.lines, indent), st.line);
    }
}


// ---------------------------------------------------------------------------
// pieces of a rendering
// ---------------------------------------------------------------------------

/// `x`, with its escape sequences removed, is `y`, and the scan over `x` ends
/// in text, so whatever follows `x` is read from the start.
pub open spec fn shows(x: Seq<char>, y: Seq<char>) -> bool {
    strip_run(Scan::Text, x) == (y, Scan::Text)
}

/// Two pieces that each end in text show their concatenation.
pub proof fn lemma_shows_append(a: Seq<char>, a2: Seq<char>, b: Seq<char>, b2: Seq<char>)
    requires
        shows(a, a2),
        shows(b, b2),
    ensures
        shows(a + b, a2 + b2),
{
    lemma_strip_run_append(Scan::Text, a, b);
}

/// Text with no escape character shows itself.
pub proof fn lemma_plain_piece(t: Seq<char>)
    requires
        !t.contains(ESC),
    ensures
        shows(t, t),
{
    lemma_strip_plain(t);
    assert forall|k: int| 0 <= k <= t.len() implies state_at(t, k) == Scan::Text by {
        assert(!t.take(k).contains(ESC)) by {
            if t.take(k).contains(ESC) {
                let i = choose|i: int| 0 <= i < t.take(k).len() && t.take(k)[i] == ESC;
                assert(t[i] == ESC);
            }
        }
        lemma_strip_plain(t.take(k));
    }
    assert forall|k: int| 0 <= k < t.len() implies #[trigger] visible_at(t, k) by {
        assert(state_at(t, k) == Scan::Text);
        assert(t[k] != ESC) by {
            if t[k] == ESC {
                assert(t.contains(ESC));
            }
        }
    }
    assert forall|i: int, j: int|
        #![trigger visible_at(t, i), visible_at(t, j)]
        0 <= i < j < t.len() && visible_at(t, i) && visible_at(t, j) && t[i] == ' ' && t[j] == ' '
            && (forall|m: int| i < m < j ==> !visible_at(t, m)) implies j == i + 1 by {
        if j > i + 1 {
            assert(visible_at(t, i + 1));
        }
    }
}

/// A painted run of text with no escape character shows its text.
pub proof fn lemma_painted_piece(l: Look, t: Seq<char>)
    requires
        !t.contains(ESC),
    ensures
        shows(painted(l, t), t),
{
    lemma_plain_piece(t);
    lemma_paint_strips_back(l, t);
    if !(l.spec_is_plain() || t.len() == 0) {
        lemma_paint_strips_back(l, Seq::<char>::empty());
        assert(strip_run(Scan::Text, sgr_open(l)) == (Seq::<char>::empty(), Scan::Text)) by {
            crate::style::lemma_strip_open(l);
        }
        assert(Seq::<char>::empty().len() == 0);
        lemma_strip_run_append(Scan::Text, sgr_open(l), t);
        assert(Seq::<char>::empty() + t =~= t);
        assert(strip_run(Scan::Text, sgr_reset()) == (Seq::<char>::empty(), Scan::Text)) by {
            assert(crate::style::is_param_bytes(seq!['0']));
            crate::style::lemma_strip_csi(seq!['0']);
        }
    }
}


/// Groups of digits, painted in turn, show their digits.
proof fn lemma_groups_piece(style: Style, d: Seq<char>, k: nat)
    requires
        !d.contains(ESC),
    ensures
        shows(later_groups(style, None, d, k), d),
    decreases d.len(),
{
    if d.len() == 0 {
        lemma_plain_piece(d);
    } else {
        let n: int = if d.len() < 3 { d.len() as int } else { 3 };
        lemma_no_escape_within(d, 0, n);
        lemma_no_escape_within(d, n, d.len() as int);
        assert(d.take(n) =~= d.subrange(0, n));
        assert(d.skip(n) =~= d.subrange(n, d.len() as int));
        let head = painted(style.look(group_role(k)), d.take(n));
        lemma_painted_piece(style.look(group_role(k)), d.take(n));
        lemma_groups_piece(style, d.skip(n), k + 1);
        let tail = later_groups(style, None, d.skip(n), k + 1);
        assert(d.take(n).last() == d[n - 1]);
        lemma_shows_append(head, d.take(n), tail, d.skip(n));
        assert(Seq::<char>::empty() + head =~= head);
        assert(d.take(n) + d.skip(n) =~= d);
    }
}

/// **A grouped decimal shows its digits**, in any style and without a
/// separator.
pub proof fn lemma_grouped_piece(r: Render, s: Seq<char>)
    requires
        r.group is None,
        !s.contains(ESC),
    ensures
        shows(grouped(r, s), s),
{
    let d = body_of(s);
    if s.len() > 0 && s[0] == '-' {
        lemma_no_escape_within(s, 1, s.len() as int);
        assert(d =~= s.subrange(1, s.len() as int));
    }
    assert(sign_of(s) + d =~= s);
    assert(!sign_of(s).contains(ESC));
    lemma_plain_piece(sign_of(s));
    if d.len() == 0 || !all_digits(d) {
        lemma_painted_piece(r.style.look(Role::Digits), s);
    } else {
        if d.len() <= 3 {
            lemma_painted_piece(r.style.look(Role::Digits), d);
            lemma_shows_append(sign_of(s), sign_of(s), painted(r.style.look(Role::Digits), d), d);
        } else {
            let f = first_group_len(d.len() as int);
            lemma_no_escape_within(d, 0, f);
            lemma_no_escape_within(d, f, d.len() as int);
            assert(d.take(f) =~= d.subrange(0, f));
            assert(d.skip(f) =~= d.subrange(f, d.len() as int));
            let p1 = painted(r.style.look(Role::Digits), d.take(f));
            lemma_painted_piece(r.style.look(Role::Digits), d.take(f));
            lemma_shows_append(sign_of(s), sign_of(s), p1, d.take(f));
            lemma_groups_piece(r.style, d.skip(f), 1);
            let head = sign_of(s) + p1;
            assert((sign_of(s) + d.take(f)).last() == d[f - 1]);
            lemma_shows_append(head, sign_of(s) + d.take(f), later_groups(r.style, None, d.skip(f), 1), d.skip(f));
            assert(sign_of(s) + d.take(f) + d.skip(f) =~= s);
        }
    }
}

/// The painted runs of a form body from position `i` show the rest of the
/// body.
proof fn lemma_runs_piece(style: Style, body: Seq<char>, i: int)
    requires
        !body.contains(ESC),
        0 <= i <= body.len(),
    ensures
        shows(painted_runs(style, body, i), body.skip(i)),
    decreases body.len() - i,
{
    lemma_runs_strip_back(style, body, i);
    if i == body.len() {
        assert(painted_runs(style, body, i) =~= Seq::<char>::empty());
        lemma_plain_piece(Seq::<char>::empty());
    } else {
        lemma_run_end_bounds(body, i);
        let j = run_end(body, i);
        let piece = body.subrange(i, j);
        lemma_no_escape_within(body, i, j);
        let head = painted(style.look(form_role(body, i)), piece);
        lemma_painted_piece(style.look(form_role(body, i)), piece);
        lemma_runs_piece(style, body, j);
        lemma_runs_strip_back(style, body, j);
        let tail = painted_runs(style, body, j);
        assert(piece.last() == body[j - 1]);
        assert(body.skip(i) =~= piece + body.skip(j));
        lemma_shows_append(head, piece, tail, body.skip(j));
    }
}

/// **A painted form shows the form**, in any style.
pub proof fn lemma_form_piece(style: Style, s: Seq<char>)
    requires
        !s.contains(ESC),
    ensures
        shows(painted_form(style, s), s),
{
    lemma_first_space_bounds(s, 0);
    let tag = form_tag(s);
    let body = form_body(s);
    let i = first_space(s, 0);
    if i < s.len() {
        lemma_no_escape_within(s, 0, i + 1);
        lemma_no_escape_within(s, i + 1, s.len() as int);
        assert(tag =~= s.subrange(0, i + 1));
        assert(body =~= s.subrange(i + 1, s.len() as int));
        assert(tag.last() == ' ');
        if body.len() > 0 {
            assert(body[0] == s[i + 1]);
        }
    } else {
        assert(body =~= s);
        assert(tag =~= Seq::<char>::empty());
    }
    let head = painted(style.look(Role::Value), tag);
    lemma_painted_piece(style.look(Role::Value), tag);
    lemma_runs_piece(style, body, 0);
    assert(body.skip(0) =~= body);
    lemma_shows_append(head, tag, painted_runs(style, body, 0), body);
    assert(tag + body =~= s);
}


// ---------------------------------------------------------------------------
// whole documents
// ---------------------------------------------------------------------------

/// No character of `x` is an escape.
pub open spec fn esc_free(x: Seq<char>) -> bool {
    !x.contains(ESC)
}

/// The text of a scalar as the plain style shows it; nothing for a value
/// that is not a scalar.
pub open spec fn plain_scalar(v: Value) -> Seq<char> {
    match v {
        Value::Text(t) => t@,
        Value::Number(n) => n@,
        Value::Bool(b) => if b { "true"@ } else { "false"@ },
        Value::Quantity { text, .. } => text@,
        Value::Form(f) => f@,
        _ => Seq::empty(),
    }
}

/// A value a reader can be shown in colour without losing a character:
/// every string in it is free of escapes.
pub open spec fn reads_plain(v: Value) -> bool
    decreases v, 1nat,
{
    match v {
        Value::Text(t) => esc_free(t@),
        Value::Number(n) => esc_free(n@),
        Value::Bool(_) => true,
        Value::List(items) => forall|i: int| 0 <= i < items@.len() ==> esc_free(#[trigger] items@[i]@),
        Value::Section(f) => fields_read_plain(f@),
        Value::Rows { key, value, rows } => {
            &&& esc_free(key@)
            &&& (value matches Some(h) ==> esc_free(h@))
            &&& fields_read_plain(rows@)
        },
        Value::Quantity { text, .. } => esc_free(text@),
        Value::Form(f) => esc_free(f@),
    }
}

/// Every key among `fields` is free of escapes and every value reads plain.
pub open spec fn fields_read_plain(fields: Seq<(String, Value)>) -> bool
    decreases fields, 0nat,
{
    if fields.len() == 0 {
        true
    } else {
        fields_read_plain(fields.drop_last()) && esc_free(fields.last().0@) && reads_plain(
            fields.last().1,
        )
    }
}

/// A coloured rendering and the plain one it is compared with: the same
/// width, no group separator, and the plain one under the plain style.
pub open spec fn plain_pair(r: Render, p: Render) -> bool {
    &&& p.style.spec_is_plain()
    &&& r.group is None
    &&& p.group is None
    &&& r.cols == p.cols
}

proof fn lemma_esc_free_append(a: Seq<char>, b: Seq<char>)
    requires
        esc_free(a),
        esc_free(b),
    ensures
        esc_free(a + b),
{
    if (a + b).contains(ESC) {
        let k = choose|k: int| 0 <= k < (a + b).len() && (a + b)[k] == ESC;
        if k < a.len() {
            assert(a[k] == ESC);
            assert(a.contains(ESC));
        } else {
            assert(b[k - a.len()] == ESC);
            assert(b.contains(ESC));
        }
    }
}

proof fn lemma_esc_free_all(x: Seq<char>)
    requires
        forall|k: int| 0 <= k < x.len() ==> #[trigger] x[k] != ESC,
    ensures
        esc_free(x),
{
    if x.contains(ESC) {
        let k = choose|k: int| 0 <= k < x.len() && x[k] == ESC;
        assert(x[k] != ESC);
    }
}

/// The fixed pieces of a rendering hold no escape.
proof fn lemma_fixed_pieces(n: nat, m: int)
    ensures
        esc_free(spaces(n)),
        esc_free(indent_of(n)),
        esc_free(rule_of(m)),
        esc_free("  "@),
        esc_free("\n"@),
        esc_free(":\n"@),
        esc_free(", "@),
        esc_free("certification"@),
        esc_free("true"@),
        esc_free("false"@),
        esc_free(EXACT_NOTE@),
{
    lemma_esc_free_all(spaces(n));
    lemma_esc_free_all(indent_of(n));
    lemma_esc_free_all(rule_of(m));
    reveal_strlit("  ");
    reveal_strlit("\n");
    reveal_strlit(":\n");
    reveal_strlit(", ");
    reveal_strlit("certification");
    reveal_strlit("true");
    reveal_strlit("false");
    reveal_strlit("every other number above is exact: the digits shown are the value");
    lemma_esc_free_all("  "@);
    lemma_esc_free_all("\n"@);
    lemma_esc_free_all(":\n"@);
    lemma_esc_free_all(", "@);
    lemma_esc_free_all("certification"@);
    lemma_esc_free_all("true"@);
    lemma_esc_free_all("false"@);
    lemma_esc_free_all(EXACT_NOTE@);
}

/// One scalar, coloured, shows the plain scalar.
proof fn lemma_scalar_shows(r: Render, p: Render, v: Value)
    requires
        plain_pair(r, p),
        reads_plain(v),
    ensures
        shows(scalar_text(r, v), scalar_text(p, v)),
        esc_free(scalar_text(p, v)),
        scalar_text(p, v) == plain_scalar(v),
{
    match v {
        Value::Text(t) => {
            let role = prose_role(t@);
            assert(p.style.look(role).spec_is_plain());
            lemma_painted_piece(r.style.look(role), t@);
        },
        Value::Number(n) => {
            lemma_grouped_piece(r, n@);
            lemma_grouped_strips_back(p, n@);
        },
        Value::Quantity { text, .. } => {
            lemma_grouped_piece(r, text@);
            lemma_grouped_strips_back(p, text@);
        },
        Value::Form(f) => {
            lemma_form_piece(r.style, f@);
            lemma_form_plain(p.style, f@);
        },
        Value::Bool(b) => {
            lemma_fixed_pieces(0, 0);
            let t = if b { "true"@ } else { "false"@ };
            assert(p.style.look(Role::Value).spec_is_plain());
            lemma_painted_piece(r.style.look(Role::Value), t);
        },
        _ => {
            lemma_plain_piece(Seq::<char>::empty());
        },
    }
}

/// A wrapped painted run shows the wrapped plain run.
proof fn lemma_wrap_shows(ps: Seq<char>, pp: Seq<char>, first: int, indent: nat, width: int)
    requires
        shows(ps, pp),
    ensures
        shows(wrapped_painted(ps, first, indent, width), wrapped_painted(pp, first, indent, width)),
{
    lemma_wrap_strips_back(ps, first, indent, width);
}

/// One `key  value` line, coloured, shows the plain line.
proof fn lemma_field_line_shows(
    r: Render,
    p: Render,
    pad: Seq<char>,
    k: Seq<char>,
    width: int,
    ps: Seq<char>,
    pp: Seq<char>,
)
    requires
        plain_pair(r, p),
        esc_free(pad),
        esc_free(k),
        shows(ps, pp),
        esc_free(pp),
    ensures
        shows(field_line(r, pad, k, width, ps), field_line(p, pad, k, width, pp)),
{
    let gap = spaces(if k.len() < width { (width - k.len()) as nat } else { 0 });
    lemma_fixed_pieces(if k.len() < width { (width - k.len()) as nat } else { 0 }, 0);
    assert(p.style.look(Role::Key).spec_is_plain());
    lemma_painted_piece(r.style.look(Role::Key), k);
    lemma_plain_piece(gap);
    lemma_shows_append(painted(r.style.look(Role::Key), k), k, gap, gap);
    let lr = padded_text(r.style, Role::Key, k, width);
    let lp = padded_text(p.style, Role::Key, k, width);
    assert(lp == k + gap);
    lemma_strip_plain(pp);
    let col = pad.len() + (if width >= k.len() { width } else { k.len() as int }) + 2;
    let br = if col + stripped(ps).len() > r.cols {
        wrapped_painted(ps, col, col as nat, r.cols as int)
    } else {
        ps
    };
    let bp = if col + stripped(pp).len() > p.cols {
        wrapped_painted(pp, col, col as nat, p.cols as int)
    } else {
        pp
    };
    if col + stripped(ps).len() > r.cols {
        lemma_wrap_shows(ps, pp, col, col as nat, r.cols as int);
    }
    assert(shows(br, bp));
    lemma_plain_piece(pad);
    lemma_plain_piece("  "@);
    lemma_plain_piece("\n"@);
    lemma_shows_append(pad, pad, lr, lp);
    lemma_shows_append(pad + lr, pad + lp, "  "@, "  "@);
    lemma_shows_append(pad + lr + "  "@, pad + lp + "  "@, br, bp);
    lemma_shows_append(pad + lr + "  "@ + br, pad + lp + "  "@ + bp, "\n"@, "\n"@);
}

/// The items of a list, coloured, show the plain items.
proof fn lemma_list_shows(r: Render, p: Render, items: Seq<String>, pad: Seq<char>, col: int)
    requires
        plain_pair(r, p),
        esc_free(pad),
        forall|i: int| 0 <= i < items.len() ==> esc_free(#[trigger] items[i]@),
    ensures
        shows(list_lines(r, items, pad, col), list_lines(p, items, pad, col)),
    decreases items.len(),
{
    if items.len() == 0 {
        lemma_plain_piece(Seq::<char>::empty());
    } else {
        let init = items.drop_last();
        assert forall|i: int| 0 <= i < init.len() implies esc_free(#[trigger] init[i]@) by {
            assert(init[i] == items[i]);
        }
        lemma_list_shows(r, p, init, pad, col);
        let i = items.last()@;
        assert(esc_free(items[items.len() - 1]@));
        let role = prose_role(i);
        assert(p.style.look(role).spec_is_plain());
        let ps = painted(r.style.look(role), i);
        lemma_painted_piece(r.style.look(role), i);
        let br = if col + i.len() > r.cols {
            wrapped_painted(ps, col, col as nat, r.cols as int)
        } else {
            ps
        };
        let bp = if col + i.len() > p.cols {
            wrapped_painted(i, col, col as nat, p.cols as int)
        } else {
            i
        };
        if col + i.len() > r.cols {
            lemma_wrap_shows(ps, i, col, col as nat, r.cols as int);
        }
        lemma_fixed_pieces(0, 0);
        lemma_plain_piece(pad);
        lemma_plain_piece("  "@);
        lemma_plain_piece("\n"@);
        let a = list_lines(r, init, pad, col);
        let b = list_lines(p, init, pad, col);
        lemma_shows_append(a, b, pad, pad);
        lemma_shows_append(a + pad, b + pad, "  "@, "  "@);
        lemma_shows_append(a + pad + "  "@, b + pad + "  "@, br, bp);
        lemma_shows_append(a + pad + "  "@ + br, b + pad + "  "@ + bp, "\n"@, "\n"@);
    }
}

/// One field, coloured, shows the plain field.
proof fn lemma_field_shows(r: Render, p: Render, k: Seq<char>, v: Value, width: int, depth: nat)
    requires
        plain_pair(r, p),
        esc_free(k),
        reads_plain(v),
    ensures
        shows(field_text(r, k, v, width, depth), field_text(p, k, v, width, depth)),
    decreases v, 1nat,
{
    let pad = indent_of(depth);
    lemma_fixed_pieces(depth, 0);
    assert(p.style.look(Role::Key).spec_is_plain());
    lemma_painted_piece(r.style.look(Role::Key), k);
    lemma_plain_piece(pad);
    lemma_plain_piece(":\n"@);
    let hr = pad + painted(r.style.look(Role::Key), k) + ":\n"@;
    let hp = pad + painted(p.style.look(Role::Key), k) + ":\n"@;
    lemma_shows_append(pad, pad, painted(r.style.look(Role::Key), k), k);
    lemma_shows_append(pad + painted(r.style.look(Role::Key), k), pad + k, ":\n"@, ":\n"@);
    match v {
        Value::Section(fields) => {
            lemma_fields_shows(r, p, fields@, scalar_key_width(fields@), depth + 1);
            lemma_shows_append(
                hr,
                hp,
                fields_text(r, fields@, scalar_key_width(fields@), depth + 1),
                fields_text(p, fields@, scalar_key_width(fields@), depth + 1),
            );
        },
        Value::List(items) => {
            lemma_list_shows(r, p, items@, pad, pad.len() + 2int);
            lemma_shows_append(
                hr,
                hp,
                list_lines(r, items@, pad, pad.len() + 2int),
                list_lines(p, items@, pad, pad.len() + 2int),
            );
        },
        Value::Rows { key, value, rows } => {
            let col = pad.len() + 2int;
            let vh = opt_string(value);
            let tr = match table_text(r, col, key@, vh, rows@) {
                Some(t) => t,
                None => fields_text(r, rows@, 0, depth + 1),
            };
            let tp = match table_text(p, col, key@, vh, rows@) {
                Some(t) => t,
                None => fields_text(p, rows@, 0, depth + 1),
            };
            match table_columns(vh, rows@) {
                Some(cols) => {
                    lemma_table_columns_clean(vh, rows@);
                    let lr = Layout { r, indent: col, key_header: key@, vh, rows: rows@, cols };
                    let lp = Layout { r: p, indent: col, key_header: key@, vh, rows: rows@, cols };
                    assert(layouts_alike(lr, lp));
                    lemma_table_text(lr, lp);
                },
                None => {
                    lemma_fields_shows(r, p, rows@, 0, depth + 1);
                },
            }
            lemma_shows_append(hr, hp, tr, tp);
        },
        _ => {
            lemma_scalar_shows(r, p, v);
            lemma_field_line_shows(r, p, pad, k, width, scalar_text(r, v), scalar_text(p, v));
        },
    }
}

/// Fields, coloured, show the plain fields.
proof fn lemma_fields_shows(r: Render, p: Render, fields: Seq<(String, Value)>, width: int, depth: nat)
    requires
        plain_pair(r, p),
        fields_read_plain(fields),
    ensures
        shows(fields_text(r, fields, width, depth), fields_text(p, fields, width, depth)),
    decreases fields, 0nat,
{
    if fields.len() == 0 {
        lemma_plain_piece(Seq::<char>::empty());
    } else {
        lemma_fields_shows(r, p, fields.drop_last(), width, depth);
        lemma_field_shows(r, p, fields.last().0@, fields.last().1, width, depth);
        lemma_shows_append(
            fields_text(r, fields.drop_last(), width, depth),
            fields_text(p, fields.drop_last(), width, depth),
            field_text(r, fields.last().0@, fields.last().1, width, depth),
            field_text(p, fields.last().0@, fields.last().1, width, depth),
        );
    }
}


/// The notes, coloured, show the plain notes.
proof fn lemma_notes_shows(r: Render, p: Render, notes: Seq<String>)
    requires
        plain_pair(r, p),
        forall|i: int| 0 <= i < notes.len() ==> esc_free(#[trigger] notes[i]@),
    ensures
        shows(notes_part(r, notes), notes_part(p, notes)),
    decreases notes.len(),
{
    if notes.len() == 0 {
        lemma_plain_piece(Seq::<char>::empty());
    } else {
        let init = notes.drop_last();
        assert forall|i: int| 0 <= i < init.len() implies esc_free(#[trigger] init[i]@) by {
            assert(init[i] == notes[i]);
        }
        lemma_notes_shows(r, p, init);
        let n = notes.last()@;
        assert(esc_free(notes[notes.len() - 1]@));
        let role = prose_role(n);
        assert(p.style.look(role).spec_is_plain());
        let ps = painted(r.style.look(role), n);
        lemma_painted_piece(r.style.look(role), n);
        let br = if n.len() > r.cols {
            wrapped_painted(ps, 0, 0, r.cols as int)
        } else {
            ps
        };
        let bp = if n.len() > p.cols {
            wrapped_painted(n, 0, 0, p.cols as int)
        } else {
            n
        };
        if n.len() > r.cols {
            lemma_wrap_shows(ps, n, 0, 0, r.cols as int);
        }
        lemma_fixed_pieces(0, 0);
        lemma_plain_piece("\n"@);
        let a = notes_part(r, init);
        let b = notes_part(p, init);
        lemma_shows_append(a, b, "\n"@, "\n"@);
        lemma_shows_append(a + "\n"@, b + "\n"@, br, bp);
        lemma_shows_append(a + "\n"@ + br, b + "\n"@ + bp, "\n"@, "\n"@);
    }
}

/// The heading, coloured, shows the plain heading.
proof fn lemma_title_shows(r: Render, p: Render, title: Option<Seq<char>>)
    requires
        plain_pair(r, p),
        title matches Some(t) ==> esc_free(t),
    ensures
        shows(title_part(r, title), title_part(p, title)),
{
    match title {
        Some(t) => {
            let rule = rule_of(t.len() as int);
            lemma_fixed_pieces(0, t.len() as int);
            assert(p.style.look(Role::Title).spec_is_plain());
            lemma_painted_piece(r.style.look(Role::Title), t);
            lemma_painted_piece(r.style.look(Role::Title), rule);
            lemma_plain_piece("\n"@);
            let a = painted(r.style.look(Role::Title), t);
            let b = painted(r.style.look(Role::Title), rule);
            lemma_shows_append(a, t, "\n"@, "\n"@);
            lemma_shows_append(a + "\n"@, t + "\n"@, b, rule);
            lemma_shows_append(a + "\n"@ + b, t + "\n"@ + rule, "\n"@, "\n"@);
        },
        None => {
            lemma_plain_piece(Seq::<char>::empty());
        },
    }
}

/// The last segment of a path free of escapes is free of them too.
proof fn lemma_leaf_esc_free(path: Seq<char>)
    requires
        esc_free(path),
    ensures
        esc_free(leaf_of(path)),
    decreases path.len(),
{
    if !(path.len() == 0 || path.last() == '.') {
        assert(esc_free(path.drop_last())) by {
            if path.drop_last().contains(ESC) {
                let k = choose|k: int| 0 <= k < path.drop_last().len() && path.drop_last()[k] == ESC;
                assert(path[k] == ESC);
                assert(path.contains(ESC));
            }
        }
        lemma_leaf_esc_free(path.drop_last());
        assert(path.last() != ESC) by {
            assert(path[path.len() - 1] == path.last());
            if path.last() == ESC {
                assert(path.contains(ESC));
            }
        }
        assert(leaf_of(path) == leaf_of(path.drop_last()).push(path.last()));
        lemma_esc_free_append(leaf_of(path.drop_last()), seq![path.last()]);
        assert(leaf_of(path.drop_last()) + seq![path.last()] =~= leaf_of(path.drop_last()).push(path.last()));
    } else {
        assert(leaf_of(path) =~= Seq::<char>::empty());
    }
}

/// Every certified path among fields that read plain is free of escapes.
proof fn lemma_certs_of_esc_free(fields: Seq<(String, Value)>, prefix: Seq<char>)
    requires
        fields_read_plain(fields),
        esc_free(prefix),
    ensures
        forall|i: int|
            0 <= i < certs_of(fields, prefix).len() ==> esc_free(#[trigger] certs_of(fields, prefix)[i].0),
    decreases fields, 0nat,
{
    if fields.len() > 0 {
        lemma_certs_of_esc_free(fields.drop_last(), prefix);
        let path = path_of(prefix, fields.last().0@);
        assert(esc_free(path)) by {
            assert(esc_free(seq!['.']));
            lemma_esc_free_append(prefix, seq!['.']);
            lemma_esc_free_append(prefix + seq!['.'], fields.last().0@);
        }
        lemma_certs_in_esc_free(path, fields.last().1);
        let a = certs_of(fields.drop_last(), prefix);
        let b = certs_in(path, fields.last().1);
        assert forall|i: int| 0 <= i < certs_of(fields, prefix).len() implies esc_free(
            #[trigger] certs_of(fields, prefix)[i].0,
        ) by {
            if i < a.len() {
                assert(certs_of(fields, prefix)[i] == a[i]);
            } else {
                assert(certs_of(fields, prefix)[i] == b[i - a.len()]);
            }
        }
    }
}

/// Every certified path in a value that reads plain is free of escapes.
proof fn lemma_certs_in_esc_free(path: Seq<char>, v: Value)
    requires
        reads_plain(v),
        esc_free(path),
    ensures
        forall|i: int| 0 <= i < certs_in(path, v).len() ==> esc_free(#[trigger] certs_in(path, v)[i].0),
    decreases v, 1nat,
{
    match v {
        Value::Section(inner) => {
            lemma_certs_of_esc_free(inner@, path);
            assert(certs_in(path, v) == certs_of(inner@, path));
        },
        Value::Rows { rows, .. } => {
            lemma_certs_of_esc_free(rows@, path);
            assert(certs_in(path, v) == certs_of(rows@, path));
        },
        Value::Quantity { cert, .. } => {
            if !(cert is Exact) {
                assert(certs_in(path, v) == seq![(path, cert)]);
                assert forall|i: int| 0 <= i < certs_in(path, v).len() implies esc_free(
                    #[trigger] certs_in(path, v)[i].0,
                ) by {
                    assert(i == 0);
                }
            }
        },
        _ => {},
    }
}

/// The names certified one way are free of escapes when the paths are.
proof fn lemma_cert_names_esc_free(certs: Seq<(Seq<char>, Certification)>, c: Certification)
    requires
        forall|i: int| 0 <= i < certs.len() ==> esc_free(#[trigger] certs[i].0),
    ensures
        forall|i: int| 0 <= i < cert_names(certs, c).len() ==> esc_free(#[trigger] cert_names(certs, c)[i]),
    decreases certs.len(),
{
    if certs.len() > 0 {
        let init = certs.drop_last();
        assert forall|i: int| 0 <= i < init.len() implies esc_free(#[trigger] init[i].0) by {
            assert(init[i] == certs[i]);
        }
        lemma_cert_names_esc_free(init, c);
        assert(esc_free(certs[certs.len() - 1].0));
        lemma_leaf_esc_free(certs.last().0);
        let a = cert_names(init, c);
        assert forall|i: int| 0 <= i < cert_names(certs, c).len() implies esc_free(
            #[trigger] cert_names(certs, c)[i],
        ) by {
            if i < a.len() {
                assert(cert_names(certs, c)[i] == a[i]);
            } else {
                assert(cert_names(certs, c)[i] == leaf_of(certs.last().0));
            }
        }
    }
}

/// Names free of escapes, joined by a separator free of them, are too.
proof fn lemma_joined_with_esc_free(names: Seq<Seq<char>>, sep: Seq<char>)
    requires
        esc_free(sep),
        forall|i: int| 0 <= i < names.len() ==> esc_free(#[trigger] names[i]),
    ensures
        esc_free(joined_with(names, sep)),
    decreases names.len(),
{
    if names.len() == 0 {
        lemma_esc_free_all(Seq::<char>::empty());
    } else if names.len() > 1 {
        let init = names.drop_last();
        assert forall|i: int| 0 <= i < init.len() implies esc_free(#[trigger] init[i]) by {
            assert(init[i] == names[i]);
        }
        lemma_joined_with_esc_free(init, sep);
        assert(esc_free(names[names.len() - 1]));
        lemma_esc_free_append(joined_with(init, sep), sep);
        lemma_esc_free_append(joined_with(init, sep) + sep, names.last());
    } else {
        assert(esc_free(names[0]));
    }
}

/// A number in decimal holds no escape.
proof fn lemma_decimal_esc_free(n: nat)
    ensures
        esc_free(decimal(n)),
    decreases n,
{
    if n < 10 {
        assert(digit_of(n) != ESC);
        lemma_esc_free_all(seq![digit_of(n)]);
    } else {
        lemma_decimal_esc_free(n / 10);
        assert(digit_of(n % 10) != ESC);
        lemma_esc_free_all(seq![digit_of(n % 10)]);
        lemma_esc_free_append(decimal(n / 10), seq![digit_of(n % 10)]);
        assert(decimal(n / 10) + seq![digit_of(n % 10)] =~= decimal(n / 10).push(digit_of(n % 10)));
    }
}

/// How a certification reads holds no escape.
proof fn lemma_cert_text_esc_free(c: Certification)
    ensures
        esc_free(cert_text(c)),
{
    reveal_strlit("exact");
    reveal_strlit("rounded, ");
    reveal_strlit(", ");
    reveal_strlit(" digits");
    reveal_strlit("enclosure");
    reveal_strlit("trunc");
    reveal_strlit("ceil");
    reveal_strlit("half-even");
    reveal_strlit("half-up");
    lemma_esc_free_all("exact"@);
    lemma_esc_free_all("rounded, "@);
    lemma_esc_free_all(", "@);
    lemma_esc_free_all(" digits"@);
    lemma_esc_free_all("enclosure"@);
    lemma_esc_free_all("trunc"@);
    lemma_esc_free_all("ceil"@);
    lemma_esc_free_all("half-even"@);
    lemma_esc_free_all("half-up"@);
    if let Certification::Rounded { mode, digits } = c {
        lemma_decimal_esc_free(digits as nat);
        lemma_esc_free_append("rounded, "@, mode_spelling(mode));
        lemma_esc_free_append("rounded, "@ + mode_spelling(mode), ", "@);
        lemma_esc_free_append("rounded, "@ + mode_spelling(mode) + ", "@, decimal(digits as nat));
        lemma_esc_free_append("rounded, "@ + mode_spelling(mode) + ", "@ + decimal(digits as nat), " digits"@);
    }
}

/// The lines of the certification block, coloured, show the plain lines.
proof fn lemma_group_lines_shows(
    r: Render,
    p: Render,
    certs: Seq<(Seq<char>, Certification)>,
    kinds: Seq<Certification>,
    w: int,
)
    requires
        plain_pair(r, p),
        forall|i: int| 0 <= i < certs.len() ==> esc_free(#[trigger] certs[i].0),
    ensures
        shows(group_lines(r, certs, kinds, w), group_lines(p, certs, kinds, w)),
    decreases kinds.len(),
{
    if kinds.len() == 0 {
        lemma_plain_piece(Seq::<char>::empty());
    } else {
        lemma_group_lines_shows(r, p, certs, kinds.drop_last(), w);
        let c = kinds.last();
        let label = cert_text(c);
        lemma_cert_text_esc_free(c);
        let gap = spaces(if label.len() < w { (w - label.len()) as nat } else { 0 });
        lemma_fixed_pieces(if label.len() < w { (w - label.len()) as nat } else { 0 }, 0);
        assert(p.style.look(Role::Warning).spec_is_plain());
        assert(p.style.look(Role::Value).spec_is_plain());
        lemma_painted_piece(r.style.look(Role::Warning), label);
        lemma_plain_piece(gap);
        lemma_shows_append(painted(r.style.look(Role::Warning), label), label, gap, gap);
        let lr = padded_text(r.style, Role::Warning, label, w);
        let lp = padded_text(p.style, Role::Warning, label, w);
        assert(lp == label + gap);
        lemma_cert_names_esc_free(certs, c);
        let names = joined_with(cert_names(certs, c), ", "@);
        lemma_joined_with_esc_free(cert_names(certs, c), ", "@);
        lemma_painted_piece(r.style.look(Role::Value), names);
        let nr = painted(r.style.look(Role::Value), names);
        lemma_plain_piece("  "@);
        lemma_plain_piece("\n"@);
        let a = group_lines(r, certs, kinds.drop_last(), w);
        let b = group_lines(p, certs, kinds.drop_last(), w);
        lemma_shows_append(a, b, "  "@, "  "@);
        lemma_shows_append(a + "  "@, b + "  "@, lr, lp);
        lemma_shows_append(a + "  "@ + lr, b + "  "@ + lp, "  "@, "  "@);
        lemma_shows_append(a + "  "@ + lr + "  "@, b + "  "@ + lp + "  "@, nr, names);
        lemma_shows_append(a + "  "@ + lr + "  "@ + nr, b + "  "@ + lp + "  "@ + names, "\n"@, "\n"@);
    }
}

/// The certification block, coloured, shows the plain block.
proof fn lemma_certs_part_shows(r: Render, p: Render, certs: Seq<(Seq<char>, Certification)>)
    requires
        plain_pair(r, p),
        forall|i: int| 0 <= i < certs.len() ==> esc_free(#[trigger] certs[i].0),
    ensures
        shows(certs_part(r, certs), certs_part(p, certs)),
{
    if certs.len() == 0 {
        lemma_plain_piece(Seq::<char>::empty());
    } else {
        let kinds = cert_kinds(certs);
        let w = label_width(kinds);
        lemma_fixed_pieces(0, 0);
        assert(p.style.look(Role::Key).spec_is_plain());
        assert(p.style.look(Role::Note).spec_is_plain());
        lemma_painted_piece(r.style.look(Role::Key), "certification"@);
        lemma_painted_piece(r.style.look(Role::Note), EXACT_NOTE@);
        lemma_group_lines_shows(r, p, certs, kinds, w);
        lemma_plain_piece(":\n"@);
        lemma_plain_piece("  "@);
        lemma_plain_piece("\n"@);
        let h = painted(r.style.look(Role::Key), "certification"@);
        let g = group_lines(r, certs, kinds, w);
        let gp = group_lines(p, certs, kinds, w);
        let e = painted(r.style.look(Role::Note), EXACT_NOTE@);
        lemma_shows_append(h, "certification"@, ":\n"@, ":\n"@);
        lemma_shows_append(h + ":\n"@, "certification"@ + ":\n"@, g, gp);
        lemma_shows_append(h + ":\n"@ + g, "certification"@ + ":\n"@ + gp, "  "@, "  "@);
        lemma_shows_append(h + ":\n"@ + g + "  "@, "certification"@ + ":\n"@ + gp + "  "@, e, EXACT_NOTE@);
        lemma_shows_append(
            h + ":\n"@ + g + "  "@ + e,
            "certification"@ + ":\n"@ + gp + "  "@ + EXACT_NOTE@,
            "\n"@,
            "\n"@,
        );
    }
}

/// **Colour never changes a character.** A document whose strings hold no
/// escape character, rendered in any style and stripped of its escape
/// sequences, is, character for character, the plain rendering at the same
/// width: the coloured rendering breaks its lines where the plain one does,
/// pads, wraps and trims by what a reader sees, and only adds sequences.
/// (A string holding an escape character is the one case it cannot hold of:
/// stripping removes that character from the coloured rendering, and the
/// plain rendering keeps it.)
pub proof fn lemma_colour_changes_no_character(d: Doc, r: Render, p: Render)
    requires
        plain_pair(r, p),
        d.heading() matches Some(t) ==> esc_free(t),
        fields_read_plain(d.entries()),
        forall|i: int| 0 <= i < d.remarks().len() ==> esc_free(#[trigger] d.remarks()[i]@),
    ensures
        stripped(doc_text(r, d.heading(), d.entries(), d.remarks())) == doc_text(
            p,
            d.heading(),
            d.entries(),
            d.remarks(),
        ),
{
    let fields = d.entries();
    let certs = certs_of(fields, Seq::empty());
    lemma_title_shows(r, p, d.heading());
    lemma_fields_shows(r, p, fields, scalar_key_width(fields), 0);
    lemma_esc_free_all(Seq::<char>::empty());
    lemma_certs_of_esc_free(fields, Seq::empty());
    lemma_certs_part_shows(r, p, certs);
    lemma_notes_shows(r, p, d.remarks());
    let t1 = title_part(r, d.heading());
    let t2 = title_part(p, d.heading());
    let f1 = fields_text(r, fields, scalar_key_width(fields), 0);
    let f2 = fields_text(p, fields, scalar_key_width(fields), 0);
    let c1 = certs_part(r, certs);
    let c2 = certs_part(p, certs);
    lemma_shows_append(t1, t2, f1, f2);
    lemma_shows_append(t1 + f1, t2 + f2, c1, c2);
    lemma_shows_append(t1 + f1 + c1, t2 + f2 + c2, notes_part(r, d.remarks()), notes_part(p, d.remarks()));
}


// ---------------------------------------------------------------------------
// trimmed lines
// ---------------------------------------------------------------------------

/// A trimmed run is a prefix of the run.
proof fn lemma_trim_prefix(x: Seq<char>)
    ensures
        trim_end_ws(x).len() <= x.len(),
        trim_end_ws(x) == x.take(trim_end_ws(x).len() as int),
    decreases x.len(),
{
    if x.len() > 0 && whitespace(x.last()) {
        lemma_trim_prefix(x.drop_last());
        assert(x.drop_last().take(trim_end_ws(x).len() as int) =~= x.take(trim_end_ws(x).len() as int));
    } else {
        assert(x.take(x.len() as int) =~= x);
    }
}

// ---------------------------------------------------------------------------
// tables
// ---------------------------------------------------------------------------

proof fn lemma_fields_at(fields: Seq<(String, Value)>, k: int)
    requires
        fields_read_plain(fields),
        0 <= k < fields.len(),
    ensures
        esc_free(fields[k].0@),
        reads_plain(fields[k].1),
    decreases fields.len(),
{
    if k < fields.len() - 1 {
        lemma_fields_at(fields.drop_last(), k);
        assert(fields.drop_last()[k] == fields[k]);
    }
}

proof fn lemma_find_field_at(fields: Seq<(String, Value)>, c: Seq<char>) -> (k: int)
    requires
        find_field(fields, c) is Some,
    ensures
        0 <= k < fields.len(),
        find_field(fields, c) == Some(fields[k].1),
    decreases fields.len(),
{
    if fields[0].0@ == c {
        0
    } else {
        let k = lemma_find_field_at(fields.drop_first(), c);
        assert(fields.drop_first()[k] == fields[k + 1]);
        k + 1
    }
}

/// A cell, coloured, is as wide as the plain cell and shows it.
proof fn lemma_cell_alike(r: Render, p: Render, vh: Option<Seq<char>>, v: Value, c: Seq<char>)
    requires
        plain_pair(r, p),
        reads_plain(v),
    ensures
        grid_cell(r, vh, v, c).1 == grid_cell(p, vh, v, c).1,
        grid_cell(p, vh, v, c).1 == grid_cell(p, vh, v, c).0.len(),
        shows(grid_cell(r, vh, v, c).0, grid_cell(p, vh, v, c).0),
        esc_free(grid_cell(p, vh, v, c).0),
{
    let w = match vh {
        Some(_) => Some(v),
        None => match v {
            Value::Section(f) => find_field(f@, c),
            _ => None,
        },
    };
    match w {
        Some(x) => {
            if vh is None {
                if let Value::Section(f) = v {
                    let k = lemma_find_field_at(f@, c);
                    lemma_fields_at(f@, k);
                }
            }
            assert(reads_plain(x));
            assert(grid_cell(r, vh, v, c) == cell_of(r, x));
            assert(grid_cell(p, vh, v, c) == cell_of(p, x));
            lemma_scalar_shows(r, p, x);
            lemma_strip_plain(scalar_text(p, x));
        },
        None => {
            assert(grid_cell(r, vh, v, c) == absent_cell(r));
            assert(grid_cell(p, vh, v, c) == absent_cell(p));
            reveal_strlit("—");
            lemma_esc_free_all(ABSENT@);
            assert(p.style.look(Role::Value).spec_is_plain());
            lemma_painted_piece(r.style.look(Role::Value), ABSENT@);
        },
    }
}

/// Column widths are measured on what a reader sees, so they do not depend
/// on the style.
proof fn lemma_col_width_eq(r: Render, p: Render, vh: Option<Seq<char>>, rows: Seq<(String, Value)>, c: Seq<char>)
    requires
        plain_pair(r, p),
        fields_read_plain(rows),
    ensures
        col_width(r, vh, rows, c) == col_width(p, vh, rows, c),
    decreases rows.len(),
{
    if rows.len() > 0 {
        let init = rows.drop_last();
        lemma_col_width_eq(r, p, vh, init, c);
        lemma_fields_at(rows, rows.len() - 1);
        lemma_cell_alike(r, p, vh, rows.last().1, c);
    }
}

proof fn lemma_fit_count_le(widths: Seq<int>, avail: int, used: int)
    ensures
        0 <= fit_count(widths, avail, used) <= widths.len(),
    decreases widths.len(),
{
    if !(widths.len() == 0 || used + crate::table::GUTTER + widths[0] > avail) {
        lemma_fit_count_le(widths.drop_first(), avail, used + crate::table::GUTTER + widths[0]);
    }
}

/// Two layouts of one table, one coloured and one plain, whose strings are
/// free of escapes.
pub open spec fn layouts_alike(lr: Layout, lp: Layout) -> bool {
    &&& plain_pair(lr.r, lp.r)
    &&& lr.indent == lp.indent
    &&& lr.key_header == lp.key_header
    &&& lr.vh == lp.vh
    &&& lr.rows == lp.rows
    &&& lr.cols == lp.cols
    &&& esc_free(lp.key_header)
    &&& forall|j: int| 0 <= j < lp.cols.len() ==> esc_free(#[trigger] lp.cols[j])
    &&& fields_read_plain(lp.rows)
}

proof fn lemma_layout_widths(lr: Layout, lp: Layout)
    requires
        layouts_alike(lr, lp),
    ensures
        lr.col_w() == lp.col_w(),
        lr.key_w() == lp.key_w(),
        lr.fitted() == lp.fitted(),
        lr.hang() == lp.hang(),
        0 <= lp.fitted() <= lp.cols.len(),
{
    assert forall|j: int| 0 <= j < lp.cols.len() implies lr.col_w()[j] == lp.col_w()[j] by {
        lemma_col_width_eq(lr.r, lp.r, lp.vh, lp.rows, lp.cols[j]);
    }
    assert(lr.col_w() =~= lp.col_w());
    lemma_fit_count_le(lp.col_w(), lp.avail(), lp.key_w());
}

/// A painted run padded to a width shows the plain run padded.
proof fn lemma_padded_alike(x: Seq<char>, y: Seq<char>, shown: int, w: int)
    requires
        shows(x, y),
    ensures
        shows(padded_run(x, shown, w), padded_run(y, shown, w)),
{
    let n: nat = if shown < w { (w - shown) as nat } else { 0 };
    lemma_fixed_pieces(n, 0);
    lemma_plain_piece(spaces(n));
    lemma_shows_append(x, y, spaces(n), spaces(n));
}

proof fn lemma_header_cells(lr: Layout, lp: Layout, n: int)
    requires
        layouts_alike(lr, lp),
        lr.col_w() == lp.col_w(),
        n <= lp.cols.len(),
    ensures
        shows(lr.header_cells(n), lp.header_cells(n)),
    decreases n,
{
    if n <= 0 {
        lemma_plain_piece(Seq::<char>::empty());
    } else {
        lemma_header_cells(lr, lp, n - 1);
        let c = lp.cols[n - 1];
        assert(esc_free(c));
        assert(lp.r.style.look(Role::Key).spec_is_plain());
        lemma_painted_piece(lr.r.style.look(Role::Key), c);
        lemma_padded_alike(painted(lr.r.style.look(Role::Key), c), c, c.len() as int, lp.col_w()[n - 1]);
        lemma_fixed_pieces(0, 0);
        lemma_plain_piece("  "@);
        lemma_shows_append(lr.header_cells(n - 1), lp.header_cells(n - 1), "  "@, "  "@);
        lemma_shows_append(
            lr.header_cells(n - 1) + "  "@,
            lp.header_cells(n - 1) + "  "@,
            padded_run(painted(lr.r.style.look(Role::Key), c), c.len() as int, lr.col_w()[n - 1]),
            padded_run(painted(lp.r.style.look(Role::Key), c), c.len() as int, lp.col_w()[n - 1]),
        );
    }
}

/// What a scan keeps never holds an escape character.
proof fn lemma_strip_output_clean(st: Scan, s: Seq<char>)
    ensures
        esc_free(strip_run(st, s).0),
    decreases s.len(),
{
    if s.len() > 0 {
        lemma_strip_output_clean(st, s.drop_last());
        let (o, s1) = strip_run(st, s.drop_last());
        let (c, s2) = strip_step(s1, s.last());
        if let Some(ch) = c {
            assert(ch != ESC);
            assert(!o.push(ch).contains(ESC)) by {
                if o.push(ch).contains(ESC) {
                    let k = choose|k: int| 0 <= k < o.push(ch).len() && o.push(ch)[k] == ESC;
                    if k < o.len() {
                        assert(o[k] == ESC);
                        assert(o.contains(ESC));
                    }
                }
            }
        }
    }
}

/// A line made of a trimmed middle, coloured, shows the plain line.
proof fn lemma_trimmed_line(indent: nat, xr: Seq<char>, xp: Seq<char>)
    requires
        shows(xr, xp),
    ensures
        shows(spaces(indent) + trim_shown(xr) + "\n"@, spaces(indent) + trim_shown(xp) + "\n"@),
{
    lemma_trim_shown(xr);
    lemma_strip_output_clean(Scan::Text, xr);
    lemma_trim_shown_plain(xp);
    assert(shows(trim_shown(xr), trim_shown(xp)));
    lemma_fixed_pieces(indent, 0);
    lemma_plain_piece(spaces(indent));
    lemma_plain_piece("\n"@);
    lemma_shows_append(spaces(indent), spaces(indent), trim_shown(xr), trim_shown(xp));
    lemma_shows_append(spaces(indent) + trim_shown(xr), spaces(indent) + trim_shown(xp), "\n"@, "\n"@);
}

proof fn lemma_header_line(lr: Layout, lp: Layout)
    requires
        layouts_alike(lr, lp),
    ensures
        shows(lr.header_line(), lp.header_line()),
{
    lemma_layout_widths(lr, lp);
    lemma_header_cells(lr, lp, lp.fitted());
    let kh = lp.key_header;
    assert(lp.r.style.look(Role::Key).spec_is_plain());
    lemma_painted_piece(lr.r.style.look(Role::Key), kh);
    lemma_padded_alike(painted(lr.r.style.look(Role::Key), kh), kh, kh.len() as int, lp.key_w());
    let xr = padded_run(painted(lr.r.style.look(Role::Key), kh), kh.len() as int, lr.key_w()) + lr.header_cells(
        lr.fitted(),
    );
    let xp = padded_run(painted(lp.r.style.look(Role::Key), kh), kh.len() as int, lp.key_w()) + lp.header_cells(
        lp.fitted(),
    );
    lemma_shows_append(
        padded_run(painted(lr.r.style.look(Role::Key), kh), kh.len() as int, lr.key_w()),
        padded_run(painted(lp.r.style.look(Role::Key), kh), kh.len() as int, lp.key_w()),
        lr.header_cells(lr.fitted()),
        lp.header_cells(lp.fitted()),
    );
    lemma_trimmed_line(lp.indent as nat, xr, xp);
}

proof fn lemma_rule_cells(lr: Layout, lp: Layout, n: int)
    requires
        layouts_alike(lr, lp),
        lr.col_w() == lp.col_w(),
    ensures
        shows(lr.rule_cells(n), lp.rule_cells(n)),
    decreases n,
{
    if n <= 0 {
        lemma_plain_piece(Seq::<char>::empty());
    } else {
        lemma_rule_cells(lr, lp, n - 1);
        let rule = rule_of(lp.col_w()[n - 1]);
        lemma_fixed_pieces(0, lp.col_w()[n - 1]);
        assert(lp.r.style.look(Role::Separator).spec_is_plain());
        lemma_painted_piece(lr.r.style.look(Role::Separator), rule);
        lemma_plain_piece("  "@);
        lemma_shows_append(lr.rule_cells(n - 1), lp.rule_cells(n - 1), "  "@, "  "@);
        lemma_shows_append(
            lr.rule_cells(n - 1) + "  "@,
            lp.rule_cells(n - 1) + "  "@,
            painted(lr.r.style.look(Role::Separator), rule),
            rule,
        );
    }
}

proof fn lemma_rule_line(lr: Layout, lp: Layout)
    requires
        layouts_alike(lr, lp),
    ensures
        shows(lr.rule_line(), lp.rule_line()),
{
    lemma_layout_widths(lr, lp);
    lemma_rule_cells(lr, lp, lp.fitted());
    let rule = rule_of(lp.key_w());
    lemma_fixed_pieces(lp.indent as nat, lp.key_w());
    assert(lp.r.style.look(Role::Separator).spec_is_plain());
    lemma_painted_piece(lr.r.style.look(Role::Separator), rule);
    lemma_plain_piece(spaces(lp.indent as nat));
    lemma_plain_piece("\n"@);
    let a = spaces(lp.indent as nat);
    let br = painted(lr.r.style.look(Role::Separator), rule);
    lemma_shows_append(a, a, br, rule);
    lemma_shows_append(a + br, a + rule, lr.rule_cells(lr.fitted()), lp.rule_cells(lp.fitted()));
    lemma_shows_append(
        a + br + lr.rule_cells(lr.fitted()),
        a + rule + lp.rule_cells(lp.fitted()),
        "\n"@,
        "\n"@,
    );
}

proof fn lemma_cell_at(lr: Layout, lp: Layout, i: int, j: int)
    requires
        layouts_alike(lr, lp),
        0 <= i < lp.rows.len(),
    ensures
        lr.cell(i, j).1 == lp.cell(i, j).1,
        lp.cell(i, j).1 == lp.cell(i, j).0.len(),
        shows(lr.cell(i, j).0, lp.cell(i, j).0),
        esc_free(lp.cell(i, j).0),
{
    lemma_fields_at(lp.rows, i);
    lemma_cell_alike(lr.r, lp.r, lp.vh, lp.rows[i].1, lp.cols[j]);
}

proof fn lemma_row_cells(lr: Layout, lp: Layout, i: int, n: int)
    requires
        layouts_alike(lr, lp),
        lr.col_w() == lp.col_w(),
        0 <= i < lp.rows.len(),
    ensures
        shows(lr.row_cells(i, n), lp.row_cells(i, n)),
    decreases n,
{
    if n <= 0 {
        lemma_plain_piece(Seq::<char>::empty());
    } else {
        lemma_row_cells(lr, lp, i, n - 1);
        lemma_cell_at(lr, lp, i, n - 1);
        lemma_padded_alike(lr.cell(i, n - 1).0, lp.cell(i, n - 1).0, lp.cell(i, n - 1).1, lp.col_w()[n - 1]);
        lemma_fixed_pieces(0, 0);
        lemma_plain_piece("  "@);
        lemma_shows_append(lr.row_cells(i, n - 1), lp.row_cells(i, n - 1), "  "@, "  "@);
        lemma_shows_append(
            lr.row_cells(i, n - 1) + "  "@,
            lp.row_cells(i, n - 1) + "  "@,
            padded_run(lr.cell(i, n - 1).0, lr.cell(i, n - 1).1, lr.col_w()[n - 1]),
            padded_run(lp.cell(i, n - 1).0, lp.cell(i, n - 1).1, lp.col_w()[n - 1]),
        );
    }
}

proof fn lemma_grid_line(lr: Layout, lp: Layout, i: int)
    requires
        layouts_alike(lr, lp),
        0 <= i < lp.rows.len(),
    ensures
        shows(lr.grid_line(i), lp.grid_line(i)),
{
    lemma_layout_widths(lr, lp);
    lemma_row_cells(lr, lp, i, lp.fitted());
    lemma_fields_at(lp.rows, i);
    let k = lp.rows[i].0@;
    assert(esc_free(k));
    assert(lp.r.style.look(Role::Value).spec_is_plain());
    lemma_painted_piece(lr.r.style.look(Role::Value), k);
    lemma_padded_alike(painted(lr.r.style.look(Role::Value), k), k, k.len() as int, lp.key_w());
    let hr = padded_run(painted(lr.r.style.look(Role::Value), k), k.len() as int, lr.key_w());
    let hp = padded_run(painted(lp.r.style.look(Role::Value), k), k.len() as int, lp.key_w());
    lemma_shows_append(hr, hp, lr.row_cells(i, lr.fitted()), lp.row_cells(i, lp.fitted()));
    lemma_trimmed_line(lp.indent as nat, hr + lr.row_cells(i, lr.fitted()), hp + lp.row_cells(i, lp.fitted()));
}

proof fn lemma_esc_free_take_skip(x: Seq<char>, n: int)
    requires
        esc_free(x),
        0 <= n <= x.len(),
    ensures
        esc_free(x.take(n)),
        esc_free(x.skip(n)),
{
    assert forall|k: int| 0 <= k < x.take(n).len() implies #[trigger] x.take(n)[k] != ESC by {
        assert(x.take(n)[k] == x[k]);
        if x[k] == ESC {
            assert(x.contains(ESC));
        }
    }
    assert forall|k: int| 0 <= k < x.skip(n).len() implies #[trigger] x.skip(n)[k] != ESC by {
        assert(x.skip(n)[k] == x[k + n]);
        if x[k + n] == ESC {
            assert(x.contains(ESC));
        }
    }
    lemma_esc_free_all(x.take(n));
    lemma_esc_free_all(x.skip(n));
}

/// Every piece of a wrap of text free of escapes is free of them too.
proof fn lemma_wrap_run_esc_free(s: Seq<char>, width: int)
    requires
        esc_free(s),
        width >= 0,
    ensures
        esc_free(wrap_run(s, width).cur),
        forall|k: int|
            0 <= k < wrap_run(s, width).pieces.len() ==> esc_free(#[trigger] wrap_run(s, width).pieces[k]),
    decreases s.len(),
{
    if s.len() == 0 {
        lemma_esc_free_all(Seq::<char>::empty());
    } else {
        lemma_esc_free_take_skip(s, s.len() - 1);
        assert(s.take(s.len() - 1) =~= s.drop_last());
        lemma_wrap_run_esc_free(s.drop_last(), width);
        lemma_wrap_run_inv(s.drop_last(), width);
        let st = wrap_run(s.drop_last(), width);
        let c = s.last();
        assert(c != ESC) by {
            assert(s[s.len() - 1] == c);
            if c == ESC {
                assert(s.contains(ESC));
            }
        }
        lemma_esc_free_all(seq![c]);
        lemma_esc_free_append(st.cur, seq![c]);
        let cur = st.cur.push(c);
        assert(st.cur + seq![c] =~= cur);
        let n = cur.len() as int;
        let asp = if whitespace(c) { n } else { st.after_space };
        let asep = if !alphanumeric(c) { n } else { st.after_sep };
        lemma_esc_free_take_skip(cur, asp);
        lemma_esc_free_take_skip(cur, asep);
        lemma_trim_prefix(cur.take(asp));
        lemma_esc_free_take_skip(cur.take(asp), trim_end_ws(cur.take(asp)).len() as int);
        let nx = wrap_run(s, width);
        assert forall|k: int| 0 <= k < nx.pieces.len() implies esc_free(#[trigger] nx.pieces[k]) by {
            if k < st.pieces.len() {
                assert(nx.pieces[k] == st.pieces[k]);
            }
        }
        lemma_esc_free_all(Seq::<char>::empty());
    }
}

proof fn lemma_piece_lines(
    r: Render,
    p: Render,
    pad: Seq<char>,
    lr: Seq<char>,
    lp: Seq<char>,
    name_w: int,
    pieces: Seq<Seq<char>>,
    n: int,
)
    requires
        plain_pair(r, p),
        esc_free(pad),
        shows(lr, lp),
        forall|k: int| 0 <= k < pieces.len() ==> esc_free(#[trigger] pieces[k]),
        n <= pieces.len(),
    ensures
        shows(piece_lines(r, pad, lr, name_w, pieces, n), piece_lines(p, pad, lp, name_w, pieces, n)),
    decreases n,
{
    if n <= 0 {
        lemma_plain_piece(Seq::<char>::empty());
    } else {
        lemma_piece_lines(r, p, pad, lr, lp, name_w, pieces, n - 1);
        let pc = pieces[n - 1];
        assert(p.style.look(Role::Digits).spec_is_plain());
        lemma_painted_piece(r.style.look(Role::Digits), pc);
        lemma_fixed_pieces(name_w as nat, 0);
        lemma_plain_piece(pad);
        lemma_plain_piece(spaces(name_w as nat));
        lemma_plain_piece("  "@);
        lemma_plain_piece("\n"@);
        let hr = if n - 1 == 0 { lr } else { spaces(name_w as nat) };
        let hp = if n - 1 == 0 { lp } else { spaces(name_w as nat) };
        let a = piece_lines(r, pad, lr, name_w, pieces, n - 1);
        let b = piece_lines(p, pad, lp, name_w, pieces, n - 1);
        let pr = painted(r.style.look(Role::Digits), pc);
        lemma_shows_append(a, b, pad, pad);
        lemma_shows_append(a + pad, b + pad, hr, hp);
        lemma_shows_append(a + pad + hr, b + pad + hp, "  "@, "  "@);
        lemma_shows_append(a + pad + hr + "  "@, b + pad + hp + "  "@, pr, pc);
        lemma_shows_append(a + pad + hr + "  "@ + pr, b + pad + hp + "  "@ + pc, "\n"@, "\n"@);
    }
}

proof fn lemma_promoted_text(r: Render, p: Render, hang: int, name_w: int, name: Seq<char>, cr: Seq<char>, cp: Seq<char>)
    requires
        plain_pair(r, p),
        esc_free(name),
        shows(cr, cp),
        esc_free(cp),
    ensures
        shows(promoted_text(r, hang, name_w, name, cr), promoted_text(p, hang, name_w, name, cp)),
{
    let pad = spaces(hang as nat);
    lemma_fixed_pieces(hang as nat, 0);
    assert(p.style.look(Role::Key).spec_is_plain());
    lemma_painted_piece(r.style.look(Role::Key), name);
    lemma_plain_piece(name);
    let lr = padded_run(painted(r.style.look(Role::Key), name), name.len() as int, name_w);
    let lp = padded_run(painted(p.style.look(Role::Key), name), name.len() as int, name_w);
    let n: nat = if name.len() < name_w { (name_w - name.len()) as nat } else { 0 };
    lemma_fixed_pieces(n, 0);
    lemma_plain_piece(spaces(n));
    lemma_shows_append(painted(r.style.look(Role::Key), name), name, spaces(n), spaces(n));
    lemma_strip_plain(cp);
    let value_indent = hang + name_w + crate::table::GUTTER;
    let avail = if r.cols > value_indent { r.cols - value_indent } else { 0 };
    if cp.len() <= avail || avail < 8 {
        lemma_plain_piece(pad);
        lemma_plain_piece("  "@);
        lemma_plain_piece("\n"@);
        lemma_shows_append(pad, pad, lr, lp);
        lemma_shows_append(pad + lr, pad + lp, "  "@, "  "@);
        lemma_shows_append(pad + lr + "  "@, pad + lp + "  "@, cr, cp);
        lemma_shows_append(pad + lr + "  "@ + cr, pad + lp + "  "@ + cp, "\n"@, "\n"@);
    } else {
        let pieces = wrapped(cp, avail);
        lemma_wrap_run_esc_free(cp, avail);
        assert forall|k: int| 0 <= k < pieces.len() implies esc_free(#[trigger] pieces[k]) by {
            let st = wrap_run(cp, avail);
            if k < st.pieces.len() {
                assert(pieces[k] == st.pieces[k]);
            }
        }
        lemma_piece_lines(r, p, pad, lr, lp, name_w, pieces, pieces.len() as int);
    }
}

proof fn lemma_promoted(lr: Layout, lp: Layout, i: int, j: int)
    requires
        layouts_alike(lr, lp),
        0 <= i < lp.rows.len(),
        0 <= j < lp.cols.len(),
    ensures
        shows(lr.promoted(i, j), lp.promoted(i, j)),
{
    lemma_layout_widths(lr, lp);
    lemma_cell_at(lr, lp, i, j);
    let cr = lr.cell(i, j).0;
    let cp = lp.cell(i, j).0;
    lemma_strip_plain(cp);
    if lp.cell(i, j).1 == 0 || stripped(cp) == ABSENT@ {
        lemma_plain_piece(Seq::<char>::empty());
    } else {
        assert(esc_free(lp.cols[j]));
        lemma_promoted_text(lr.r, lp.r, lp.hang(), lp.cols[j].len() as int, lp.cols[j], cr, cp);
    }
}

proof fn lemma_promoted_upto(lr: Layout, lp: Layout, i: int, n: int)
    requires
        layouts_alike(lr, lp),
        0 <= i < lp.rows.len(),
        n <= lp.cols.len(),
    ensures
        shows(lr.promoted_upto(i, n), lp.promoted_upto(i, n)),
    decreases n,
{
    lemma_layout_widths(lr, lp);
    if n <= 0 || n <= lp.fitted() {
        lemma_plain_piece(Seq::<char>::empty());
    } else {
        lemma_promoted_upto(lr, lp, i, n - 1);
        lemma_promoted(lr, lp, i, n - 1);
        lemma_shows_append(lr.promoted_upto(i, n - 1), lp.promoted_upto(i, n - 1), lr.promoted(i, n - 1), lp.promoted(i, n - 1));
    }
}

proof fn lemma_rows_upto(lr: Layout, lp: Layout, n: int)
    requires
        layouts_alike(lr, lp),
        n <= lp.rows.len(),
    ensures
        shows(lr.rows_upto(n), lp.rows_upto(n)),
    decreases n,
{
    if n <= 0 {
        lemma_plain_piece(Seq::<char>::empty());
    } else {
        lemma_rows_upto(lr, lp, n - 1);
        lemma_grid_line(lr, lp, n - 1);
        lemma_promoted_upto(lr, lp, n - 1, lp.cols.len() as int);
        lemma_shows_append(lr.rows_upto(n - 1), lp.rows_upto(n - 1), lr.grid_line(n - 1), lp.grid_line(n - 1));
        lemma_shows_append(
            lr.rows_upto(n - 1) + lr.grid_line(n - 1),
            lp.rows_upto(n - 1) + lp.grid_line(n - 1),
            lr.promoted_upto(n - 1, lr.cols.len() as int),
            lp.promoted_upto(n - 1, lp.cols.len() as int),
        );
    }
}

/// A whole table, coloured, shows the plain table.
proof fn lemma_table_text(lr: Layout, lp: Layout)
    requires
        layouts_alike(lr, lp),
    ensures
        shows(lr.text(), lp.text()),
{
    lemma_header_line(lr, lp);
    lemma_rule_line(lr, lp);
    lemma_rows_upto(lr, lp, lp.rows.len() as int);
    lemma_shows_append(lr.header_line(), lp.header_line(), lr.rule_line(), lp.rule_line());
    lemma_shows_append(
        lr.header_line() + lr.rule_line(),
        lp.header_line() + lp.rule_line(),
        lr.rows_upto(lr.rows.len() as int),
        lp.rows_upto(lp.rows.len() as int),
    );
}


/// A column name free of escapes.
pub open spec fn col_clean(c: Seq<char>) -> bool {
    esc_free(c)
}

proof fn lemma_add_columns_clean(acc: Seq<Seq<char>>, fields: Seq<(String, Value)>)
    requires
        forall|j: int| 0 <= j < acc.len() ==> col_clean(#[trigger] acc[j]),
        forall|k: int| 0 <= k < fields.len() ==> col_clean(#[trigger] fields[k].0@),
    ensures
        forall|j: int| 0 <= j < add_columns(acc, fields).len() ==> col_clean(#[trigger] add_columns(acc, fields)[j]),
    decreases fields.len(),
{
    if fields.len() > 0 {
        let init = fields.drop_last();
        assert forall|k: int| 0 <= k < init.len() implies col_clean(#[trigger] init[k].0@) by {
            assert(init[k] == fields[k]);
        }
        lemma_add_columns_clean(acc, init);
        assert(col_clean(fields[fields.len() - 1].0@));
        let a = add_columns(acc, init);
        assert forall|j: int| 0 <= j < add_columns(acc, fields).len() implies col_clean(
            #[trigger] add_columns(acc, fields)[j],
        ) by {
            if j < a.len() {
                assert(add_columns(acc, fields)[j] == a[j]);
            }
        }
    }
}

proof fn lemma_row_columns_clean(rows: Seq<(String, Value)>)
    requires
        fields_read_plain(rows),
    ensures
        forall|j: int| 0 <= j < row_columns(rows).len() ==> col_clean(#[trigger] row_columns(rows)[j]),
    decreases rows.len(),
{
    if rows.len() > 0 {
        let init = rows.drop_last();
        assert(fields_read_plain(init));
        lemma_row_columns_clean(init);
        if let Value::Section(f) = rows.last().1 {
            lemma_fields_at(rows, rows.len() - 1);
            assert forall|k: int| 0 <= k < f@.len() implies col_clean(#[trigger] f@[k].0@) by {
                lemma_fields_at(f@, k);
            }
            lemma_add_columns_clean(row_columns(init), f@);
        }
    }
}

/// The columns of a table whose strings are clean are clean.
proof fn lemma_table_columns_clean(vh: Option<Seq<char>>, rows: Seq<(String, Value)>)
    requires
        vh matches Some(h) ==> col_clean(h),
        fields_read_plain(rows),
    ensures
        table_columns(vh, rows) matches Some(cols) ==> forall|j: int|
            0 <= j < cols.len() ==> esc_free(#[trigger] cols[j]),
{
    lemma_row_columns_clean(rows);
    if let Some(cols) = table_columns(vh, rows) {
        assert forall|j: int| 0 <= j < cols.len() implies esc_free(#[trigger] cols[j]) by {
            match vh {
                Some(h) => {
                    assert(cols == seq![h]);
                },
                None => {
                    assert(col_clean(row_columns(rows)[j]));
                },
            }
        }
    }
}

} // verus!
