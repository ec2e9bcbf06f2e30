use ucal::emit::{Doc, Value};
use ucal::explain::{cmd_explain_why, why_of, NO_REASON, WHY_HUMAN, WHY_NOTE, WHY_TICKS};

fn explained() -> Doc {
    Doc::new()
        .title("ucal explain")
        .field("ticks", Value::number("0"))
        .field("human", Value::text("T0"))
        .field("mystery", Value::Bool(true))
        .note("first note")
}

#[test]
fn every_field_of_the_explanation_gets_a_reason_in_order() {
    let d = cmd_explain_why(explained());
    assert_eq!(d.keys(), vec!["ticks", "human", "mystery", "why"]);
    let rows = d.rows("why").expect("the why table");
    let names: Vec<&str> = rows.iter().map(|(k, _)| k.as_str()).collect();
    assert_eq!(names, vec!["ticks", "human", "mystery"]);
    match &rows[0].1 {
        Value::Text(t) => assert_eq!(t, WHY_TICKS),
        other => panic!("expected text, got {other:?}"),
    }
    match &rows[1].1 {
        Value::Text(t) => assert_eq!(t, WHY_HUMAN),
        other => panic!("expected text, got {other:?}"),
    }
}

#[test]
fn a_field_without_a_reason_shows_as_a_gap() {
    let d = cmd_explain_why(explained());
    let rows = d.rows("why").expect("the why table");
    match &rows[2].1 {
        Value::Text(t) => assert_eq!(t, NO_REASON),
        other => panic!("expected text, got {other:?}"),
    }
    assert!(why_of("mystery").starts_with("— (no reason recorded"));
}

#[test]
fn the_annotation_keeps_the_title_and_adds_one_note() {
    let d = cmd_explain_why(explained());
    let text = d.to_text();
    assert!(text.starts_with("ucal explain"));
    assert!(text.contains("first note"));
    assert!(text.contains("Each line names the rule or section"));
    let json = d.to_json();
    assert!(json.contains("\"why\""));
    assert!(json.contains(WHY_NOTE));
}

#[test]
fn every_documented_field_has_its_own_reason() {
    for name in [
        "ticks",
        "precision",
        "human",
        "digit5",
        "ucid",
        "tiers",
        "window",
        "beats_since_datum",
        "si_bridge",
        "claim",
        "warning",
    ] {
        assert_ne!(why_of(name), NO_REASON, "{name}");
    }
}
