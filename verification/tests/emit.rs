use ucal::cert::{mode_name, parse_rounding, Certification, Rounding};
use ucal::emit::{compact_json, escape, role_of_prose, Doc, Value};
use ucal::style::{strip_ansi, Render, Role, Style};

#[test]
fn json_is_versioned() {
    let d = Doc::new().field("a", Value::text("b"));
    assert!(d.to_json().contains("\"format\": \"ucal-json/1\""));
}

#[test]
fn field_order_is_preserved() {
    let d = Doc::new()
        .field("z", Value::text("1"))
        .field("a", Value::text("2"))
        .field("m", Value::text("3"));
    assert_eq!(d.keys(), ["z", "a", "m"]);
    let json = d.to_json();
    let zi = json.find("\"z\"").unwrap();
    let ai = json.find("\"a\"").unwrap();
    let mi = json.find("\"m\"").unwrap();
    assert!(zi < ai && ai < mi);
}

#[test]
fn tick_counts_are_emitted_as_strings() {
    let big = "8070205189123984864657505252035637180530466139316558837890625";
    let d = Doc::new().field("ticks", Value::number(big));
    assert!(d.to_json().contains(&format!("\"ticks\": \"{big}\"")));
}

#[test]
fn strings_are_escaped() {
    let d = Doc::new().field("k", Value::text("a\"b\\c\nd"));
    let j = d.to_json();
    assert!(j.contains(r#""a\"b\\c\nd""#));
}

#[test]
fn nested_sections_render_both_ways() {
    let d = Doc::new().title("T").field(
        "outer",
        Value::Section(vec![
            ("inner".into(), Value::number("42")),
            ("list".into(), Value::list(&["x", "y"])),
        ]),
    );
    let t = d.to_text();
    assert!(t.contains("outer:"));
    assert!(t.contains("inner"));
    assert!(t.contains("42"));
    let j = d.to_json();
    assert!(j.contains("\"outer\""));
    assert!(j.contains("\"inner\": \"42\""));
    assert!(j.contains("\"x\""));
}

#[test]
fn empty_containers_are_valid_json() {
    let d = Doc::new()
        .field("l", Value::List(vec![]))
        .field("s", Value::Section(vec![]));
    let j = d.to_json();
    assert!(j.contains("\"l\": []"));
    assert!(j.contains("\"s\": {}"));
}

#[test]
fn compaction_touches_nothing_inside_a_string() {
    let pretty = "{\n  \"a\": \"two words\",\n  \"b\": [\n    1,\n    2\n  ]\n}";
    assert_eq!(compact_json(pretty), "{\"a\":\"two words\",\"b\":[1,2]}");
}

#[test]
fn an_escaped_quote_does_not_end_the_string() {
    let pretty = "{\"q\": \"a \\\" b\",  \"n\": 1}";
    assert_eq!(compact_json(pretty), "{\"q\":\"a \\\" b\",\"n\":1}");
}

#[test]
fn a_literal_backslash_is_handled() {
    let pretty = "{\"p\": \"a\\\\\", \"n\": 2}";
    assert_eq!(compact_json(pretty), "{\"p\":\"a\\\\\",\"n\":2}");
}

#[test]
fn the_mode_name_matches_the_flag() {
    for (m, s) in [
        (Rounding::Trunc, "trunc"),
        (Rounding::Ceil, "ceil"),
        (Rounding::HalfEven, "half-even"),
        (Rounding::HalfUp, "half-up"),
    ] {
        assert_eq!(mode_name(m), s);
        assert!(parse_rounding(s).is_ok(), "`{s}` is not accepted by --round");
    }
}

#[test]
fn a_certification_says_enough_to_act_on() {
    let c = Certification::Rounded { mode: Rounding::HalfEven, digits: 6 };
    let s = c.to_string();
    assert!(s.contains("rounded"));
    assert!(s.contains("half-even"));
    assert!(s.contains("6 digits"));
    assert_eq!(Certification::Exact.to_string(), "exact");
}

#[test]
fn a_mode_name_parses_back_to_its_mode() {
    for m in [Rounding::Trunc, Rounding::Ceil, Rounding::HalfEven, Rounding::HalfUp] {
        assert_eq!(parse_rounding(mode_name(m)).unwrap(), m);
    }
    assert_eq!(parse_rounding("nearest").unwrap_err().code, ucal::error::Code::E0024);
}

#[test]
fn control_characters_escape_as_unicode() {
    assert_eq!(escape("a\u{1}b\tc"), "a\\u0001b\\tc");
    assert_eq!(escape("\u{1f}"), "\\u001f");
}

#[test]
fn a_diagnostic_code_earns_its_colour() {
    assert_eq!(role_of_prose("see UCAL-W0003"), Role::Warning);
    assert_eq!(role_of_prose("UCAL-E0001 malformed"), Role::Error);
    assert_eq!(role_of_prose("a grave note"), Role::Note);
}

#[test]
fn the_whole_json_document() {
    let d = Doc::new()
        .field("n", Value::number("5"))
        .field("q", Value::bound("1.5"))
        .field("b", Value::Bool(true))
        .note("done");
    let want = "{\n  \"format\": \"ucal-json/1\",\n  \"n\": \"5\",\n  \"q\": \"1.5\",\n  \"b\": true,\n  \"certification\": {\n    \"q\": \"enclosure\"\n  },\n  \"notes\": [\n    \"done\"\n  ]\n}\n";
    assert_eq!(d.to_json(), want);
}

#[test]
fn the_whole_text_document() {
    let d = Doc::new()
        .title("Ab")
        .field("name", Value::text("x"))
        .field("n", Value::number("1234"))
        .field(
            "tiers",
            Value::Section(vec![
                ("a".into(), Value::Quantity {
                    text: "0.5".into(),
                    cert: Certification::Rounded { mode: Rounding::Trunc, digits: 1 },
                }),
            ]),
        )
        .note("fine");
    let want = "Ab\n──\nname  x\nn     1234\ntiers:\n  a  0.5\ncertification:\n  rounded, trunc, 1 digits  a\n  every other number above is exact: the digits shown are the value\n\nfine\n";
    assert_eq!(d.to_text(), want);
    assert_eq!(strip_ansi(&d.to_ansi(&Style::colored())), want);
    assert_eq!(d.certifications().len(), 1);
    assert_eq!(d.certifications()[0].0, "tiers.a");
}

#[test]
fn a_field_is_found_by_key_and_rows_by_either_shape() {
    let d = Doc::new()
        .field("s", Value::Section(vec![("k".into(), Value::text("v"))]))
        .field("r", Value::rows("key", vec![("k".into(), Value::text("v"))]))
        .field("t", Value::text("x"));
    assert!(d.get("t").is_some());
    assert!(d.get("missing").is_none());
    assert_eq!(d.rows("s").unwrap().len(), 1);
    assert_eq!(d.rows("r").unwrap().len(), 1);
    assert!(d.rows("t").is_none());
    assert_eq!(d.fields().len(), 3);
}

#[test]
fn a_long_value_hangs_under_itself() {
    let long = "0".repeat(77) + "1";
    let d = Doc::new().field("key", Value::text(&long));
    let r = Render::plain();
    let t = d.render(&r);
    for line in t.lines() {
        assert!(line.chars().count() <= 80, "{line}");
    }
    assert_eq!(t.replace("\n     ", "").trim_end(), format!("key  {long}"));
}

#[test]
fn colour_strips_to_the_plain_rendering_of_tables_lists_and_long_prose() {
    let long_note = "UCAL-W0001 ".to_string() + &"word ".repeat(30) + "end";
    let long_item = "item ".repeat(25) + "last";
    let d = Doc::new()
        .title("Report")
        .field("name", Value::text("a value"))
        .field("count", Value::number("-1234567"))
        .field("when", Value::form("UC1 0000·0687·12"))
        .field("items", Value::list(&["one", long_item.as_str()]))
        .field(
            "grid",
            Value::rows(
                "tier",
                vec![
                    ("T1".into(), Value::Section(vec![
                        ("span".into(), Value::text("short")),
                        ("rank".into(), Value::number("1")),
                        ("note".into(), Value::text(&"x".repeat(90))),
                    ])),
                    ("T2".into(), Value::Section(vec![("span".into(), Value::number("98765"))])),
                ],
            ),
        )
        .field(
            "pairs",
            Value::rows_of("key", "value", vec![("k".into(), Value::text("v")), ("long".into(), Value::bound("12.5"))]),
        )
        .note(&long_note);
    let plain = d.to_text();
    assert_eq!(strip_ansi(&d.to_ansi(&Style::colored())), plain);
    assert!(plain.contains("—"));
    assert!(plain.lines().count() > 10);
}

#[test]
fn colour_strips_to_the_plain_rendering_of_trailing_spaces_and_double_spaces() {
    let spaced_form = "UC1 0000  0687  12 ".to_string() + &"0000  ".repeat(20);
    let d = Doc::new()
        .title("Edges ")
        .field("when", Value::form(&spaced_form))
        .field(
            "grid",
            Value::rows(
                "k ",
                vec![
                    ("a ".into(), Value::Section(vec![("x ".into(), Value::text("1 ")), ("w".into(), Value::text("W  "))])),
                    ("b".into(), Value::Section(vec![("x ".into(), Value::number("2"))])),
                ],
            ),
        )
        .field("pairs", Value::rows_of("key", "value ", vec![("k".into(), Value::text("v   "))]))
        .note("a note   with  spaces  ");
    for w in [80usize, 100, 40] {
        let plain = d.render(&Render::plain().width(w));
        let coloured = d.render(&Render::styled(Style::colored()).width(w));
        assert_eq!(strip_ansi(&coloured), plain, "width {w}");
    }
}

#[test]
fn only_a_definite_termination_certifies_exact() {
    assert_eq!(Certification::of_termination(Some(true), 6, Rounding::HalfEven), Certification::Exact);
    assert_eq!(
        Certification::of_termination(Some(false), 6, Rounding::HalfEven),
        Certification::Rounded { mode: Rounding::HalfEven, digits: 6 }
    );
    assert_eq!(
        Certification::of_termination(None, 2, Rounding::Trunc),
        Certification::Rounded { mode: Rounding::Trunc, digits: 2 }
    );
}

fn sample_rows() -> Vec<(String, Value)> {
    vec![
        ("plain".to_owned(), Value::text("a dial")),
        ("lcars".to_owned(), Value::bound("1.5")),
    ]
}

#[test]
fn a_table_serialises_exactly_as_its_section() {
    let as_table = Doc::new()
        .field("first", Value::text("x"))
        .field("themes", Value::rows_of("theme", "about", sample_rows()))
        .note("kept");
    let as_section = Doc::new()
        .field("first", Value::text("x"))
        .field("themes", Value::Section(sample_rows()))
        .note("kept");
    assert_eq!(as_table.to_json(), as_section.to_json());
    assert!(as_table.to_json().contains("\"certification\""));
}

#[test]
fn json_carries_no_raw_control_character() {
    let d = Doc::new()
        .title("controls")
        .field("escape", Value::text("\u{1b}[31mred\u{1b}[0m"))
        .field("tab", Value::text("a\tb\rc\u{0}d\u{7f}"))
        .field("list", Value::list(&["one\ntwo", "\u{8}"]))
        .note("bell \u{7}");
    let json = d.to_json();
    assert!(json.chars().all(|c| c == '\n' || c >= ' '));
    assert!(json.contains("\\u001b[31mred\\u001b[0m"));
    assert!(json.contains("a\\tb\\u000dc\\u0000d"));
}
