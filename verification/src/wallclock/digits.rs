//! A block font for the readout that is meant to be read across a room.
//!
//! Five columns by five rows per glyph, drawn with `█`; every rendered digit is
//! followed by a column of space, and anything that is not a digit becomes two
//! columns of space.
use vstd::prelude::*;

use crate::text::{char_is_digit, chars_of, is_digit, push_char};

verus! {

broadcast use vstd::string::group_string_axioms;

/// The glyph rows for each digit, top to bottom. `#` is ink; anything else is
/// space.
pub const GLYPHS: [[&'static str; 5]; 10] = [
    ["#####", "#   #", "#   #", "#   #", "#####"],
    ["   ##", "    #", "    #", "    #", "    #"],
    ["#####", "    #", "#####", "#    ", "#####"],
    ["#####", "    #", " ####", "    #", "#####"],
    ["#   #", "#   #", "#####", "    #", "    #"],
    ["#####", "#    ", "#####", "    #", "#####"],
    ["#####", "#    ", "#####", "#   #", "#####"],
    ["#####", "    #", "   # ", "  #  ", "  #  "],
    ["#####", "#   #", "#####", "#   #", "#####"],
    ["#####", "#   #", "#####", "    #", "#####"],
];

/// How many rows tall a rendered line is.
pub const HEIGHT: usize = 5;

/// What a pattern character draws: `#` is a full block, anything else space.
pub open spec fn ink(c: char) -> char {
    if c == '#' {
        '█'
    } else {
        ' '
    }
}

/// Row `r` of the glyph for digit `d`, inked, with its trailing space.
pub open spec fn glyph_cells(d: int, r: int) -> Seq<char> {
    GLYPHS@[d]@[r]@.map_values(|c: char| ink(c)).push(' ')
}

/// Row `r` of what one character renders to.
pub open spec fn cell(ch: char, r: int) -> Seq<char> {
    if is_digit(ch) {
        glyph_cells(ch as int - '0' as int, r)
    } else {
        seq![' ', ' ']
    }
}

/// Row `r` of the rendering of `s`: the cells of its characters side by side.
pub open spec fn rendered_row(s: Seq<char>, r: int) -> Seq<char>
    decreases s.len(),
{
    if s.len() == 0 {
        Seq::empty()
    } else {
        rendered_row(s.drop_last(), r) + cell(s.last(), r)
    }
}

/// The width of the rendering of `s`: six columns per digit, two otherwise.
pub open spec fn width_of(s: Seq<char>) -> nat
    decreases s.len(),
{
    if s.len() == 0 {
        0
    } else {
        width_of(s.drop_last()) + if is_digit(s.last()) {
            6nat
        } else {
            2nat
        }
    }
}

/// Every glyph row is five characters.
pub proof fn lemma_glyph_rows()
    ensures
        forall|d: int, r: int|
            0 <= d < 10 && 0 <= r < HEIGHT ==> (#[trigger] GLYPHS@[d]@[r])@.len() == 5,
{
    reveal_strlit("#####");
    reveal_strlit("#   #");
    reveal_strlit("   ##");
    reveal_strlit("    #");
    reveal_strlit("#    ");
    reveal_strlit(" ####");
    reveal_strlit("   # ");
    reveal_strlit("  #  ");
    assert forall|d: int, r: int| 0 <= d < 10 && 0 <= r < HEIGHT implies (
    #[trigger] GLYPHS@[d]@[r])@.len() == 5 by {
        if d == 0 {
        } else if d == 1 {
        } else if d == 2 {
        } else if d == 3 {
        } else if d == 4 {
        } else if d == 5 {
        } else if d == 6 {
        } else if d == 7 {
        } else if d == 8 {
        } else {
        }
    }
}

/// The glyph for digit `d`, as its rows of pattern characters.
pub open spec fn glyph(d: int) -> Seq<Seq<char>> {
    Seq::new(HEIGHT as nat, |r: int| GLYPHS@[d]@[r]@)
}

/// No two digits share a glyph.
pub proof fn lemma_glyphs_differ()
    ensures
        forall|a: int, b: int| 0 <= a < b < 10 ==> #[trigger] glyph(a) != #[trigger] glyph(b),
{
    reveal_strlit("#####");
    reveal_strlit("#   #");
    reveal_strlit("   ##");
    reveal_strlit("    #");
    reveal_strlit("#    ");
    reveal_strlit(" ####");
    reveal_strlit("   # ");
    reveal_strlit("  #  ");
    assert forall|a: int, b: int| 0 <= a < b < 10 implies #[trigger] glyph(a) != #[trigger] glyph(
        b,
    ) by {
        if a == 0 && b == 1 {
            assert(glyph(0)[0][0] != glyph(1)[0][0]);
        } else if a == 0 && b == 2 {
            assert(glyph(0)[1][0] != glyph(2)[1][0]);
        } else if a == 0 && b == 3 {
            assert(glyph(0)[1][0] != glyph(3)[1][0]);
        } else if a == 0 && b == 4 {
            assert(glyph(0)[0][1] != glyph(4)[0][1]);
        } else if a == 0 && b == 5 {
            assert(glyph(0)[1][4] != glyph(5)[1][4]);
        } else if a == 0 && b == 6 {
            assert(glyph(0)[1][4] != glyph(6)[1][4]);
        } else if a == 0 && b == 7 {
            assert(glyph(0)[1][0] != glyph(7)[1][0]);
        } else if a == 0 && b == 8 {
            assert(glyph(0)[2][1] != glyph(8)[2][1]);
        } else if a == 0 && b == 9 {
            assert(glyph(0)[2][1] != glyph(9)[2][1]);
        } else if a == 1 && b == 2 {
            assert(glyph(1)[0][0] != glyph(2)[0][0]);
        } else if a == 1 && b == 3 {
            assert(glyph(1)[0][0] != glyph(3)[0][0]);
        } else if a == 1 && b == 4 {
            assert(glyph(1)[0][0] != glyph(4)[0][0]);
        } else if a == 1 && b == 5 {
            assert(glyph(1)[0][0] != glyph(5)[0][0]);
        } else if a == 1 && b == 6 {
            assert(glyph(1)[0][0] != glyph(6)[0][0]);
        } else if a == 1 && b == 7 {
            assert(glyph(1)[0][0] != glyph(7)[0][0]);
        } else if a == 1 && b == 8 {
            assert(glyph(1)[0][0] != glyph(8)[0][0]);
        } else if a == 1 && b == 9 {
            assert(glyph(1)[0][0] != glyph(9)[0][0]);
        } else if a == 2 && b == 3 {
            assert(glyph(2)[2][0] != glyph(3)[2][0]);
        } else if a == 2 && b == 4 {
            assert(glyph(2)[0][1] != glyph(4)[0][1]);
        } else if a == 2 && b == 5 {
            assert(glyph(2)[1][0] != glyph(5)[1][0]);
        } else if a == 2 && b == 6 {
            assert(glyph(2)[1][0] != glyph(6)[1][0]);
        } else if a == 2 && b == 7 {
            assert(glyph(2)[2][0] != glyph(7)[2][0]);
        } else if a == 2 && b == 8 {
            assert(glyph(2)[1][0] != glyph(8)[1][0]);
        } else if a == 2 && b == 9 {
            assert(glyph(2)[1][0] != glyph(9)[1][0]);
        } else if a == 3 && b == 4 {
            assert(glyph(3)[0][1] != glyph(4)[0][1]);
        } else if a == 3 && b == 5 {
            assert(glyph(3)[1][0] != glyph(5)[1][0]);
        } else if a == 3 && b == 6 {
            assert(glyph(3)[1][0] != glyph(6)[1][0]);
        } else if a == 3 && b == 7 {
            assert(glyph(3)[2][1] != glyph(7)[2][1]);
        } else if a == 3 && b == 8 {
            assert(glyph(3)[1][0] != glyph(8)[1][0]);
        } else if a == 3 && b == 9 {
            assert(glyph(3)[1][0] != glyph(9)[1][0]);
        } else if a == 4 && b == 5 {
            assert(glyph(4)[0][1] != glyph(5)[0][1]);
        } else if a == 4 && b == 6 {
            assert(glyph(4)[0][1] != glyph(6)[0][1]);
        } else if a == 4 && b == 7 {
            assert(glyph(4)[0][1] != glyph(7)[0][1]);
        } else if a == 4 && b == 8 {
            assert(glyph(4)[0][1] != glyph(8)[0][1]);
        } else if a == 4 && b == 9 {
            assert(glyph(4)[0][1] != glyph(9)[0][1]);
        } else if a == 5 && b == 6 {
            assert(glyph(5)[3][0] != glyph(6)[3][0]);
        } else if a == 5 && b == 7 {
            assert(glyph(5)[1][0] != glyph(7)[1][0]);
        } else if a == 5 && b == 8 {
            assert(glyph(5)[1][4] != glyph(8)[1][4]);
        } else if a == 5 && b == 9 {
            assert(glyph(5)[1][4] != glyph(9)[1][4]);
        } else if a == 6 && b == 7 {
            assert(glyph(6)[1][0] != glyph(7)[1][0]);
        } else if a == 6 && b == 8 {
            assert(glyph(6)[1][4] != glyph(8)[1][4]);
        } else if a == 6 && b == 9 {
            assert(glyph(6)[1][4] != glyph(9)[1][4]);
        } else if a == 7 && b == 8 {
            assert(glyph(7)[1][0] != glyph(8)[1][0]);
        } else if a == 7 && b == 9 {
            assert(glyph(7)[1][0] != glyph(9)[1][0]);
        } else if a == 8 && b == 9 {
            assert(glyph(8)[3][0] != glyph(9)[3][0]);
        }
    }
}

/// Every row of the rendering of `s` is as wide as `width_of` says.
pub proof fn lemma_width_matches_render(s: Seq<char>, r: int)
    requires
        0 <= r < HEIGHT,
    ensures
        rendered_row(s, r).len() == width_of(s),
    decreases s.len(),
{
    lemma_glyph_rows();
    if s.len() > 0 {
        lemma_width_matches_render(s.drop_last(), r);
        let ch = s.last();
        if is_digit(ch) {
            let d = ch as int - '0' as int;
            assert(GLYPHS@[d]@[r]@.len() == 5);
        }
    }
}

proof fn lemma_rendered_row_append(a: Seq<char>, b: Seq<char>, r: int)
    ensures
        rendered_row(a + b, r) == rendered_row(a, r) + rendered_row(b, r),
    decreases b.len(),
{
    if b.len() == 0 {
        assert(a + b =~= a);
    } else {
        lemma_rendered_row_append(a, b.drop_last(), r);
        assert((a + b).drop_last() =~= a + b.drop_last());
        assert((a + b).last() == b.last());
    }
}

/// **Each digit is drawn with its own glyph.** Where the character at
/// position `i` of `s` is the digit `"0123456789"[d]`, row `r` of the
/// rendering holds, from the column where that character starts, the five
/// pattern characters of row `r` of `GLYPHS[d]`, `#` as a full block and
/// anything else as a space, then a column of space.
pub proof fn lemma_digit_drawn_with_its_glyph(s: Seq<char>, i: int, d: int, r: int)
    requires
        0 <= i < s.len(),
        0 <= d < 10,
        0 <= r < HEIGHT,
        s[i] == "0123456789"@[d],
    ensures
        forall|c: int|
            0 <= c < 5 ==> #[trigger] rendered_row(s, r)[width_of(s.take(i)) as int + c] == (if GLYPHS@[d]@[r]@[c]
                == '#' {
                '█'
            } else {
                ' '
            }),
        rendered_row(s, r)[width_of(s.take(i)) + 5int] == ' ',
{
    reveal_strlit("0123456789");
    lemma_glyph_rows();
    let pre = s.take(i);
    let rest = s.skip(i + 1);
    assert(s =~= pre + seq![s[i]] + rest);
    lemma_rendered_row_append(pre + seq![s[i]], rest, r);
    lemma_rendered_row_append(pre, seq![s[i]], r);
    lemma_width_matches_render(pre, r);
    assert(seq![s[i]].drop_last() =~= Seq::<char>::empty());
    assert(seq![s[i]].last() == s[i]);
    assert(rendered_row(Seq::<char>::empty(), r) =~= Seq::<char>::empty());
    assert(rendered_row(seq![s[i]], r) =~= cell(s[i], r));
    assert(s[i] as int - '0' as int == d);
    let row = rendered_row(s, r);
    let w = width_of(pre) as int;
    let g = GLYPHS@[d]@[r]@;
    assert(g.len() == 5);
    assert(cell(s[i], r) == g.map_values(|c: char| ink(c)).push(' '));
    assert forall|c: int| 0 <= c < 5 implies #[trigger] row[w + c] == (if g[c] == '#' { '█' } else { ' ' }) by {
        assert(row[w + c] == cell(s[i], r)[c]);
    }
    assert(row[w + 5] == cell(s[i], r)[5]);
}

/// **Anything but a digit is two columns of space.** Where the character at
/// position `i` of `s` is not one of `0`–`9`, every row of the rendering holds
/// exactly two spaces from the column where that character starts, and the
/// next character starts right after them.
pub proof fn lemma_non_digit_is_blank(s: Seq<char>, i: int, r: int)
    requires
        0 <= i < s.len(),
        0 <= r < HEIGHT,
        forall|d: int| 0 <= d < 10 ==> s[i] != #[trigger] "0123456789"@[d],
    ensures
        rendered_row(s, r)[width_of(s.take(i)) as int] == ' ',
        rendered_row(s, r)[width_of(s.take(i)) + 1int] == ' ',
        width_of(s.take(i + 1)) == width_of(s.take(i)) + 2,
{
    reveal_strlit("0123456789");
    let pre = s.take(i);
    let rest = s.skip(i + 1);
    assert(s =~= pre + seq![s[i]] + rest);
    lemma_rendered_row_append(pre + seq![s[i]], rest, r);
    lemma_rendered_row_append(pre, seq![s[i]], r);
    lemma_width_matches_render(pre, r);
    assert(seq![s[i]].drop_last() =~= Seq::<char>::empty());
    assert(seq![s[i]].last() == s[i]);
    assert(rendered_row(Seq::<char>::empty(), r) =~= Seq::<char>::empty());
    assert(rendered_row(seq![s[i]], r) =~= cell(s[i], r));
    if is_digit(s[i]) {
        let d = s[i] as int - '0' as int;
        assert(s[i] == "0123456789"@[d]);
    }
    assert(s.take(i + 1).drop_last() =~= pre);
}

/// Row `r` of the rendering of `s`.
fn render_row(s: &Vec<char>, r: usize) -> (line: String)
    requires
        r < HEIGHT,
    ensures
        line@ == rendered_row(s@, r as int),
{
    let mut line = String::new();
    let mut i: usize = 0;
    while i < s.len()
        invariant
            r < HEIGHT,
            i <= s.len(),
            line@ == rendered_row(s@.take(i as int), r as int),
        decreases s.len() - i,
    {
        let ch = s[i];
        let ghost before = line@;
        if char_is_digit(ch) {
            let d: usize = (ch as u32 - '0' as u32) as usize;
            let pattern = chars_of(GLYPHS[d][r]);
            let mut j: usize = 0;
            while j < pattern.len()
                invariant
                    j <= pattern.len(),
                    line@ == before + pattern@.take(j as int).map_values(|c: char| ink(c)),
                decreases pattern.len() - j,
            {
                let c = pattern[j];
                push_char(&mut line, if c == '#' { '█' } else { ' ' });
                assert(pattern@.take(j + 1).map_values(|c: char| ink(c)) =~= pattern@.take(
                    j as int,
                ).map_values(|c: char| ink(c)).push(ink(c)));
                j = j + 1;
            }
            push_char(&mut line, ' ');
            assert(pattern@.take(pattern.len() as int) =~= pattern@);
            assert(line@ =~= before + cell(ch, r as int));
        } else {
            push_char(&mut line, ' ');
            push_char(&mut line, ' ');
            assert(line@ =~= before + cell(ch, r as int));
        }
        assert(s@.take(i + 1).drop_last() =~= s@.take(i as int));
        i = i + 1;
    }
    assert(s@.take(s.len() as int) =~= s@);
    line
}

/// Render a run of ASCII digits as [`HEIGHT`] lines of block characters; a
/// character that is not a digit becomes two columns of space.
pub fn render(s: &str) -> (rows: [String; HEIGHT])
    ensures
        forall|r: int| 0 <= r < HEIGHT ==> #[trigger] rows@[r]@ == rendered_row(s@, r),
{
    let v = chars_of(s);
    [render_row(&v, 0), render_row(&v, 1), render_row(&v, 2), render_row(&v, 3), render_row(&v, 4)]
}

/// How wide [`render`] will be, without rendering it.
pub fn width(s: &str) -> (n: usize)
    requires
        width_of(s@) <= usize::MAX,
    ensures
        n == width_of(s@),
{
    let v = chars_of(s);
    let mut n: usize = 0;
    let mut i: usize = 0;
    while i < v.len()
        invariant
            i <= v.len(),
            v@ == s@,
            width_of(s@) <= usize::MAX,
            n == width_of(v@.take(i as int)),
        decreases v.len() - i,
    {
        assert(v@.take(i + 1).drop_last() =~= v@.take(i as int));
        proof {
            lemma_width_prefix(v@, i as int + 1);
        }
        n = n + if char_is_digit(v[i]) {
            6
        } else {
            2
        };
        i = i + 1;
    }
    assert(v@.take(v.len() as int) =~= v@);
    n
}

proof fn lemma_width_prefix(s: Seq<char>, k: int)
    requires
        0 <= k <= s.len(),
    ensures
        width_of(s.take(k)) <= width_of(s),
    decreases s.len(),
{
    if k < s.len() {
        assert(s.drop_last().take(k) =~= s.take(k));
        lemma_width_prefix(s.drop_last(), k);
    } else {
        assert(s.take(k) =~= s);
    }
}

} // verus!
