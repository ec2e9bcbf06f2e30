use ucal::emit::Value;
use ucal::style::Render;
use ucal::table::{pad_to, render, wrap_at_separators, wrap_painted, ABSENT};

fn r(width: usize) -> Render {
    Render { cols: width, ..Render::plain() }
}

fn rows() -> Vec<(String, Value)> {
    vec![
        (
            "T5".into(),
            Value::Section(vec![
                ("exponent".into(), Value::number("85")),
                ("name".into(), Value::text("deep")),
                (
                    "ticks".into(),
                    Value::number("258493941422821148397315216271863391739316284656524658203125"),
                ),
            ]),
        ),
        (
            "T0".into(),
            Value::Section(vec![
                ("exponent".into(), Value::number("60")),
                ("name".into(), Value::text("beat")),
                ("ticks".into(), Value::number("867361737988403547205962240695953369140625")),
            ]),
        ),
    ]
}

fn render_to_string(width: usize) -> String {
    let mut s = String::new();
    assert!(render(&mut s, &r(width), 0, "tier", None, &rows()));
    s
}

#[test]
fn no_line_exceeds_the_width() {
    for w in [80, 100, 120, 200] {
        for line in render_to_string(w).lines() {
            assert!(
                line.chars().count() <= w,
                "width {w}: line of {} chars: {line}",
                line.chars().count()
            );
        }
    }
}

#[test]
fn the_wide_column_is_promoted_whole_not_truncated() {
    let out = render_to_string(80);
    assert!(out.contains("258493941422821148397315216271863391739316284656524658203125"));
    assert!(out.contains("867361737988403547205962240695953369140625"));
    assert!(!out.contains('…'), "a value was elided");
    assert!(!out.contains("..."), "a value was elided");
}

#[test]
fn a_wide_terminal_pulls_the_column_into_the_grid() {
    let narrow = render_to_string(80);
    let wide = render_to_string(200);
    assert!(narrow.lines().count() > wide.lines().count());
    assert!(wide.lines().next().unwrap().contains("ticks"));
    assert!(!narrow.lines().next().unwrap().contains("ticks"));
}

#[test]
fn absent_cells_are_marked_not_blank() {
    let rows = vec![
        (
            "a".into(),
            Value::Section(vec![("x".into(), Value::text("1")), ("warning".into(), Value::text("W"))]),
        ),
        ("b".into(), Value::Section(vec![("x".into(), Value::text("2"))])),
    ];
    let mut s = String::new();
    assert!(render(&mut s, &r(80), 0, "k", None, &rows));
    let last = s.lines().last().unwrap();
    assert!(last.contains(ABSENT), "absent cell not marked: {last}");
}

#[test]
fn a_row_holding_a_section_is_declined() {
    let rows = vec![(
        "a".into(),
        Value::Section(vec![("nested".into(), Value::Section(vec![("y".into(), Value::text("1"))]))]),
    )];
    let mut s = String::new();
    assert!(!render(&mut s, &r(80), 0, "k", None, &rows));
    assert!(s.is_empty(), "declined but still wrote output");
}

#[test]
fn scalar_rows_render_as_two_columns() {
    let rows = vec![
        ("0".into(), Value::form("UC1 0000·0001")),
        ("1".into(), Value::form("UC1 0000·0002")),
    ];
    let mut s = String::new();
    assert!(render(&mut s, &r(80), 0, "n", Some("at"), &rows));
    assert!(s.lines().next().unwrap().starts_with("n"));
    assert!(s.lines().next().unwrap().contains("at"));
    assert!(s.contains("UC1 0000·0002"));
}

#[test]
fn wrapping_a_value_loses_nothing() {
    let s = "00000.11111.22222.33333.44444.55555.66666.77777";
    for w in [12, 20, 33, 47] {
        let pieces = wrap_at_separators(s, w);
        assert_eq!(pieces.concat(), s, "width {w}: wrapping lost characters");
        for p in &pieces {
            assert!(p.chars().count() <= w, "width {w}: piece too long: {p}");
        }
    }
    let pieces = wrap_at_separators(s, 12);
    assert!(pieces[0].ends_with('.'), "did not break at a separator");
}

#[test]
fn prose_breaks_between_words() {
    let s = "no anchor: complete in units, intercalation and cycles, incomplete in phase";
    let pieces = wrap_at_separators(s, 30);
    for p in &pieces {
        assert!(p.chars().count() <= 30, "piece too long: {p}");
        assert!(!p.ends_with(' '), "trailing space left on a wrapped line");
    }
    assert_eq!(
        pieces.join(" ").split_whitespace().collect::<Vec<_>>(),
        s.split_whitespace().collect::<Vec<_>>()
    );
}

#[test]
fn wrapping_a_run_with_no_separator_still_loses_nothing() {
    let s = "1234567890".repeat(9);
    let pieces = wrap_at_separators(&s, 25);
    assert_eq!(pieces.concat(), s);
    for p in &pieces {
        assert!(p.chars().count() <= 25);
    }
}

#[test]
fn the_exact_table_layout() {
    let mut s = String::new();
    assert!(render(&mut s, &r(80), 2, "tier", None, &rows()));
    let want = "  tier  exponent  name\n  ────  ────────  ────\n  T5    85        deep\n        ticks  258493941422821148397315216271863391739316284656524658203125\n  T0    60        beat\n        ticks  867361737988403547205962240695953369140625\n";
    assert_eq!(s, want);
}

#[test]
fn padding_adds_only_what_is_missing() {
    assert_eq!(pad_to("ab", 2, 5), "ab   ");
    assert_eq!(pad_to("abcdef", 6, 5), "abcdef");
}

#[test]
fn painted_text_wraps_under_its_hanging_indent() {
    assert_eq!(wrap_painted("abc", 0, 10, 12), "abc");
    let s = "aaaa.bbbb.cccc.dddd.eeee.ffff";
    let w = wrap_painted(s, 0, 2, 15);
    assert_eq!(w, "aaaa.bbbb.cccc.\n  dddd.eeee.\n  ffff");
    assert_eq!(w.replace("\n  ", ""), s);
    let coloured = "\u{1b}[2maaaa.bbbb.cccc.dddd\u{1b}[0m.eeee.ffff";
    assert_eq!(ucal::style::strip_ansi(&wrap_painted(coloured, 0, 2, 15)), w);
}

#[test]
fn every_line_of_a_painted_wrap_fits_its_width() {
    let style = ucal::style::Style::colored();
    let words = "no anchor: complete in units, intercalation and cycles, incomplete in phase, and the rest of a long note";
    let painted = style.paint(ucal::style::Role::Note, words);
    let out = wrap_painted(&painted, 0, 2, 30);
    for (k, line) in out.split('\n').enumerate() {
        let shown = ucal::style::strip_ansi(line).chars().count();
        assert!(shown <= 30, "line {k} shows {shown} characters: {line:?}");
    }
    assert_eq!(ucal::style::strip_ansi(&out).split_whitespace().collect::<Vec<_>>().join(" "), words);
}
