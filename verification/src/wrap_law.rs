//! Every line of a painted wrap fits: counting only what a reader sees, no
//! line reaches past the width.
use vstd::prelude::*;

use crate::style::{is_final_byte, lemma_keep_shown, lemma_keep_shown_out, strip_run, stripped, Scan};
use crate::strip_law::lemma_lines_end_in_text;
use crate::text::ESC;
use crate::table::{
    chosen_break, joined, lemma_painted_wrap_loses_nothing, lemma_pw_marks, lemma_wrapped_painted_is_joined_lines,
    painted_lines, pw_break, pw_run, trim_shown_spaces,
    trim_spaces, wrapped_painted, PaintWrap,
};

verus! {

/// Where a scan stands after one more character.
pub open spec fn scan_step(sc: Scan, c: char) -> Scan {
    match sc {
        Scan::Escape => if c == '[' { Scan::Csi } else { Scan::Text },
        Scan::Csi => if is_final_byte(c) { Scan::Text } else { Scan::Csi },
        Scan::Text => if c == ESC { Scan::Escape } else { Scan::Text },
    }
}

/// Where a scan that starts at `sc` stands after `s`.
pub open spec fn scan_from(sc: Scan, s: Seq<char>) -> Scan
    decreases s.len(),
{
    if s.len() == 0 {
        sc
    } else {
        scan_step(scan_from(sc, s.drop_last()), s.last())
    }
}

/// How many characters of `s` a reader sees, scanning from `sc`: those met
/// in text that are not an escape character.
pub open spec fn shown_from(sc: Scan, s: Seq<char>) -> nat
    decreases s.len(),
{
    if s.len() == 0 {
        0
    } else {
        shown_from(sc, s.drop_last()) + (if scan_from(sc, s.drop_last()) == Scan::Text && s.last() != ESC {
            1nat
        } else {
            0nat
        })
    }
}

/// How many characters of `s` a reader sees.
pub open spec fn shown_len(s: Seq<char>) -> nat {
    shown_from(Scan::Text, s)
}

proof fn lemma_scan_split(sc: Scan, a: Seq<char>, b: Seq<char>)
    ensures
        scan_from(sc, a + b) == scan_from(scan_from(sc, a), b),
        shown_from(sc, a + b) == shown_from(sc, a) + shown_from(scan_from(sc, a), b),
    decreases b.len(),
{
    if b.len() == 0 {
        assert(a + b =~= a);
    } else {
        lemma_scan_split(sc, a, b.drop_last());
        assert((a + b).drop_last() =~= a + b.drop_last());
        assert((a + b).last() == b.last());
    }
}

/// What a reader sees, counted, is what the strip scan keeps.
proof fn lemma_shown_is_stripped(sc: Scan, s: Seq<char>)
    ensures
        shown_from(sc, s) == strip_run(sc, s).0.len(),
        scan_from(sc, s) == strip_run(sc, s).1,
    decreases s.len(),
{
    if s.len() > 0 {
        lemma_shown_is_stripped(sc, s.drop_last());
    }
}

proof fn lemma_trim_prefix(s: Seq<char>)
    ensures
        trim_spaces(s).len() <= s.len(),
        trim_spaces(s) =~= s.take(trim_spaces(s).len() as int),
    decreases s.len(),
{
    if s.len() > 0 && s.last() == ' ' {
        lemma_trim_prefix(s.drop_last());
        assert(s.drop_last().take(trim_spaces(s).len() as int) =~= s.take(trim_spaces(s).len() as int));
    }
}

proof fn lemma_prefix_shows_less(a: Seq<char>, k: int)
    requires
        0 <= k <= a.len(),
    ensures
        shown_len(a.take(k)) <= shown_len(a),
{
    lemma_scan_split(Scan::Text, a.take(k), a.skip(k));
    assert(a.take(k) + a.skip(k) =~= a);
}

/// Where the line being filled started.
pub open spec fn line_start(st: PaintWrap, first: int, indent: int) -> int {
    if st.lines.len() == 0 { first } else { indent }
}

/// Where line `k` of a wrap starts: the first at `first`, the rest under the
/// hanging indent.
pub open spec fn start_of(k: int, first: int, indent: int) -> int {
    if k == 0 { first } else { indent }
}

/// A break candidate that sits in text, at the column its prefix reaches.
pub open spec fn mark_ok(m: Option<(int, int)>, st: PaintWrap, start: int) -> bool {
    m matches Some((a, bc)) ==> {
        &&& 0 <= a <= st.line.len()
        &&& scan_from(Scan::Text, st.line.take(a)) == Scan::Text
        &&& bc == start + shown_len(st.line.take(a))
    }
}

/// What a wrap keeps true as it runs.
pub open spec fn wrap_inv(st: PaintWrap, first: int, indent: int, width: int) -> bool {
    let start = line_start(st, first, indent);
    &&& st.col == start + shown_len(st.line)
    &&& st.scan == scan_from(Scan::Text, st.line)
    &&& st.col <= width
    &&& mark_ok(st.brk_space, st, start)
    &&& mark_ok(st.brk_sep, st, start)
    &&& forall|k: int| 0 <= k < st.lines.len() ==> start_of(k, first, indent) + shown_len(#[trigger] st.lines[k]) <= width
}

proof fn lemma_break_keeps(st: PaintWrap, first: int, indent: int, width: int)
    requires
        wrap_inv(st, first, indent, width),
        0 <= indent,
        width > indent + 8,
        st.col >= width,
        st.scan == Scan::Text,
    ensures
        ({
            let b = pw_break(st, indent, width);
            &&& b.lines.len() == st.lines.len() + 1
            &&& b.col + 1 <= width
            &&& b.col == indent + shown_len(b.line)
            &&& b.scan == scan_from(Scan::Text, b.line)
            &&& b.scan == Scan::Text
            &&& b.brk_space is None && b.brk_sep is None
            &&& forall|k: int| 0 <= k < b.lines.len() ==> start_of(k, first, indent) + shown_len(#[trigger] b.lines[k]) <= width
        }),
{
    let b = pw_break(st, indent, width);
    let half = (indent + width) / 2;
    let start = line_start(st, first, indent);
    assert(start_of(st.lines.len() as int, first, indent) == start);
    match chosen_break(st, half) {
        Some((at, bcol, was_space)) => {
            let head = st.line.take(at);
            let tail = st.line.skip(at);
            assert(head + tail =~= st.line);
            lemma_scan_split(Scan::Text, head, tail);
            lemma_prefix_shows_less(st.line, at);
            let kept = if was_space { trim_shown_spaces(head) } else { head };
            if was_space {
                lemma_keep_shown(head, trim_spaces(stripped(head)).len());
                lemma_shown_is_stripped(Scan::Text, head);
                lemma_shown_is_stripped(Scan::Text, kept);
            }
            assert(shown_len(kept) <= shown_len(head));
            assert(b.lines[st.lines.len() as int] == kept);
            assert forall|k: int| 0 <= k < b.lines.len() implies start_of(k, first, indent) + shown_len(#[trigger] b.lines[k]) <= width by {
                if k < st.lines.len() {
                    assert(b.lines[k] == st.lines[k]);
                }
            }
        },
        None => {
            assert(b.lines[st.lines.len() as int] == st.line);
            assert forall|k: int| 0 <= k < b.lines.len() implies start_of(k, first, indent) + shown_len(#[trigger] b.lines[k]) <= width by {
                if k < st.lines.len() {
                    assert(b.lines[k] == st.lines[k]);
                }
            }
        },
    }
}

proof fn lemma_wrap_inv(s: Seq<char>, first: int, indent: int, width: int)
    requires
        0 <= indent,
        width > indent + 8,
        first <= width,
    ensures
        wrap_inv(pw_run(s, first, indent, width), first, indent, width),
    decreases s.len(),
{
    if s.len() > 0 {
        let p = s.drop_last();
        let c = s.last();
        lemma_wrap_inv(p, first, indent, width);
        let st = pw_run(p, first, indent, width);
        let start = line_start(st, first, indent);
        let n = pw_run(s, first, indent, width);
        let line2 = st.line.push(c);
        assert(line2.drop_last() =~= st.line);
        assert forall|a: int| 0 <= a <= st.line.len() implies #[trigger] line2.take(a) =~= st.line.take(a) by {}
        match st.scan {
            Scan::Text => {
                if c == ESC {
                    assert(n.line == line2);
                    assert(mark_ok(n.brk_space, n, start)) by {
                        if let Some((a, bc)) = n.brk_space {
                            assert(line2.take(a) =~= st.line.take(a));
                        }
                    }
                    assert(mark_ok(n.brk_sep, n, start)) by {
                        if let Some((a, bc)) = n.brk_sep {
                            assert(line2.take(a) =~= st.line.take(a));
                        }
                    }
                } else if st.col >= width {
                    lemma_break_keeps(st, first, indent, width);
                    let b = pw_break(st, indent, width);
                    let l3 = b.line.push(c);
                    assert(l3.drop_last() =~= b.line);
                    assert(l3.take(l3.len() as int) =~= l3);
                    assert(line_start(n, first, indent) == indent);
                } else {
                    assert(line2.take(line2.len() as int) =~= line2);
                    assert(mark_ok(n.brk_space, n, start)) by {
                        if let Some((a, bc)) = n.brk_space {
                            if a < line2.len() {
                                assert(line2.take(a) =~= st.line.take(a));
                            }
                        }
                    }
                    assert(mark_ok(n.brk_sep, n, start)) by {
                        if let Some((a, bc)) = n.brk_sep {
                            if a < line2.len() {
                                assert(line2.take(a) =~= st.line.take(a));
                            }
                        }
                    }
                }
            },
            _ => {
                assert(n.line == line2);
                assert(mark_ok(n.brk_space, n, start)) by {
                    if let Some((a, bc)) = n.brk_space {
                        assert(line2.take(a) =~= st.line.take(a));
                    }
                }
                assert(mark_ok(n.brk_sep, n, start)) by {
                    if let Some((a, bc)) = n.brk_sep {
                        assert(line2.take(a) =~= st.line.take(a));
                    }
                }
            },
        }
    }
}

/// **Every line of a painted wrap fits.** Starting at column `first` no
/// further than the width, each line the wrap makes — the first from
/// `first`, the others from the hanging indent — shows no more characters,
/// escape sequences not counted, than reach the width.
pub proof fn lemma_painted_lines_fit(s: Seq<char>, first: int, indent: int, width: int)
    requires
        0 <= indent,
        width > indent + 8,
        first <= width,
    ensures
        forall|k: int|
            0 <= k < painted_lines(s, first, indent, width).len() ==> start_of(k, first, indent) + shown_len(
                #[trigger] painted_lines(s, first, indent, width)[k],
            ) <= width,
{
    lemma_wrap_inv(s, first, indent, width);
    let st = pw_run(s, first, indent, width);
    let ls = painted_lines(s, first, indent, width);
    assert forall|k: int| 0 <= k < ls.len() implies start_of(k, first, indent) + shown_len(#[trigger] ls[k]) <= width by {
        if k < st.lines.len() {
            assert(ls[k] == st.lines[k]);
        } else {
            assert(ls[k] == st.line);
        }
    }
}

proof fn lemma_no_char_take_skip(x: Seq<char>, n: int, c: char)
    requires
        !x.contains(c),
        0 <= n <= x.len(),
    ensures
        !x.take(n).contains(c),
        !x.skip(n).contains(c),
{
    if x.take(n).contains(c) {
        let i = choose|i: int| 0 <= i < x.take(n).len() && x.take(n)[i] == c;
        assert(x[i] == c);
    }
    if x.skip(n).contains(c) {
        let i = choose|i: int| 0 <= i < x.skip(n).len() && x.skip(n)[i] == c;
        assert(x[i + n] == c);
    }
}

/// No line of a wrap holds a character that the run does not.
proof fn lemma_lines_lack(s: Seq<char>, first: int, indent: int, width: int, c: char)
    requires
        !s.contains(c),
    ensures
        ({
            let st = pw_run(s, first, indent, width);
            &&& !st.line.contains(c)
            &&& forall|k: int| 0 <= k < st.lines.len() ==> !(#[trigger] st.lines[k]).contains(c)
        }),
    decreases s.len(),
{
    if s.len() > 0 {
        let p = s.drop_last();
        let x = s.last();
        assert(!p.contains(c)) by {
            if p.contains(c) {
                let i = choose|i: int| 0 <= i < p.len() && p[i] == c;
                assert(s[i] == c);
            }
        }
        assert(x == s[s.len() - 1]);
        lemma_lines_lack(p, first, indent, width, c);
        lemma_pw_marks(p, first, indent, width);
        let st = pw_run(p, first, indent, width);
        let half = (indent + width) / 2;
        let n = pw_run(s, first, indent, width);
        let line2 = st.line.push(x);
        assert(!line2.contains(c)) by {
            if line2.contains(c) {
                let i = choose|i: int| 0 <= i < line2.len() && line2[i] == c;
                if i < st.line.len() {
                    assert(st.line[i] == c);
                }
            }
        }
        match st.scan {
            Scan::Text => {
                if x != ESC && st.col >= width {
                    let b = pw_break(st, indent, width);
                    match chosen_break(st, half) {
                        Some((at, bcol, was_space)) => {
                            lemma_no_char_take_skip(st.line, at, c);
                            lemma_keep_shown_out(st.line.take(at), trim_spaces(stripped(st.line.take(at))).len(), c);
                            assert(!b.lines.last().contains(c));
                        },
                        None => {
                            assert(b.line =~= Seq::<char>::empty());
                        },
                    }
                    let l3 = b.line.push(x);
                    assert(!l3.contains(c)) by {
                        if l3.contains(c) {
                            let i = choose|i: int| 0 <= i < l3.len() && l3[i] == c;
                            if i < b.line.len() {
                                assert(b.line[i] == c);
                            }
                        }
                    }
                    assert forall|k: int| 0 <= k < n.lines.len() implies !(#[trigger] n.lines[k]).contains(c) by {
                        if k < st.lines.len() {
                            assert(n.lines[k] == st.lines[k]);
                        }
                    }
                }
            },
            _ => {},
        }
    }
}

/// **A painted wrap writes its lines and nothing more.** With room for a
/// hanging indent, the output is the wrap's lines, each but the last followed
/// by a newline and the indent; no line holds a newline of its own, so these
/// are exactly the output's lines. Each fits: the first from column `first`,
/// the others after the indent, count no more characters a reader sees than
/// reach the width. No break falls inside an escape sequence. And a run with
/// no space in it loses nothing: its lines put back together are the run,
/// escape sequences and all.
pub proof fn lemma_wrap_lines(s: Seq<char>, first: int, indent: nat, width: int)
    requires
        width > indent + 8,
        first <= width,
        !s.contains('\n'),
    ensures
        wrapped_painted(s, first, indent, width) == joined(
            painted_lines(s, first, indent as int, width).drop_last(),
            indent,
        ) + painted_lines(s, first, indent as int, width).last(),
        forall|k: int|
            0 <= k < painted_lines(s, first, indent as int, width).len() ==> !(#[trigger] painted_lines(
                s,
                first,
                indent as int,
                width,
            )[k]).contains('\n'),
        forall|k: int|
            0 <= k < painted_lines(s, first, indent as int, width).len() ==> start_of(k, first, indent as int)
                + shown_len(#[trigger] painted_lines(s, first, indent as int, width)[k]) <= width,
        forall|k: int|
            0 <= k < painted_lines(s, first, indent as int, width).len() - 1 ==> strip_run(
                Scan::Text,
                #[trigger] painted_lines(s, first, indent as int, width)[k],
            ).1 == Scan::Text,
        (forall|i: int| 0 <= i < s.len() ==> #[trigger] s[i] != ' ') ==> painted_lines(
            s,
            first,
            indent as int,
            width,
        ).flatten() == s,
{
    lemma_wrapped_painted_is_joined_lines(s, first, indent, width);
    lemma_painted_lines_fit(s, first, indent as int, width);
    lemma_lines_end_in_text(s, first, indent as int, width);
    lemma_lines_lack(s, first, indent as int, width, '\n');
    let st = pw_run(s, first, indent as int, width);
    let ls = painted_lines(s, first, indent as int, width);
    assert forall|k: int| 0 <= k < ls.len() implies !(#[trigger] ls[k]).contains('\n') by {
        if k < st.lines.len() {
            assert(ls[k] == st.lines[k]);
        } else {
            assert(ls[k] == st.line);
        }
    }
    if forall|i: int| 0 <= i < s.len() ==> #[trigger] s[i] != ' ' {
        lemma_painted_wrap_loses_nothing(s, first, indent as int, width);
    }
}

} // verus!
