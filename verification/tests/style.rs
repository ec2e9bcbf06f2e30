use ucal::error::Code;
use ucal::style::{BAD_COLOR, SEP_IS_DIGIT, SEP_NOT_ONE};
use ucal::style::{
    group_decimal, paint_form, parse_group_sep, resolve_for_output, strip_ansi, ColorChoice, Render,
    Role, Style,
};
use ucal::table::BASELINE_WIDTH;

#[test]
fn plain_paints_nothing() {
    let s = Style::plain();
    assert!(s.is_plain());
    assert_eq!(s.paint(Role::Padding, "0000"), "0000");
    assert_eq!(s.paint(Role::Error, "UCAL-E0001"), "UCAL-E0001");
}

#[test]
fn colored_paints_and_strips_back() {
    let s = Style::colored();
    assert!(!s.is_plain());
    for role in [
        Role::Title,
        Role::Key,
        Role::Value,
        Role::Digits,
        Role::Padding,
        Role::Separator,
        Role::Note,
        Role::Warning,
        Role::Error,
    ] {
        let painted = s.paint(role, "abc");
        assert_eq!(strip_ansi(&painted), "abc", "role {role:?} changed the text");
    }
}

#[test]
fn empty_text_is_never_wrapped() {
    assert_eq!(Style::colored().paint(Role::Padding, ""), "");
}

#[test]
fn strip_handles_sequences_we_do_not_emit() {
    assert_eq!(strip_ansi("\u{1b}[2J\u{1b}[1;31mred\u{1b}[0m"), "red");
    assert_eq!(strip_ansi("\u{1b}[38;2;12;34;56mx\u{1b}[m"), "x");
    assert_eq!(strip_ansi("plain"), "plain");
    assert_eq!(strip_ansi("a\u{1b}"), "a");
    assert_eq!(strip_ansi("a\u{1b}["), "a");
}

#[test]
fn json_suppresses_colour_whatever_was_asked() {
    assert!(resolve_for_output(ColorChoice::Always, true, false, true).is_plain());
    assert!(resolve_for_output(ColorChoice::Auto, true, false, true).is_plain());
    assert!(resolve_for_output(ColorChoice::Never, true, false, true).is_plain());
    assert!(!resolve_for_output(ColorChoice::Always, false, false, false).is_plain());
}

#[test]
fn color_choice_parses_and_refuses() {
    assert_eq!(ColorChoice::parse("auto").unwrap(), ColorChoice::Auto);
    assert_eq!(ColorChoice::parse("always").unwrap(), ColorChoice::Always);
    assert_eq!(ColorChoice::parse("never").unwrap(), ColorChoice::Never);
    assert!(ColorChoice::parse("yes").is_err());
    assert!(ColorChoice::parse("").is_err());
}

#[test]
fn auto_colours_only_a_terminal_without_no_color() {
    assert!(!ColorChoice::Auto.resolve(false, true).is_plain());
    assert!(ColorChoice::Auto.resolve(true, true).is_plain());
    assert!(ColorChoice::Auto.resolve(false, false).is_plain());
    assert!(!ColorChoice::Always.resolve(true, false).is_plain());
    assert!(ColorChoice::Never.resolve(false, true).is_plain());
}

#[test]
fn the_width_never_falls_below_the_baseline() {
    assert_eq!(Render::resolve_width(Some(120), Some(40)), 120);
    assert_eq!(Render::resolve_width(None, Some(40)), BASELINE_WIDTH);
    assert_eq!(Render::resolve_width(None, Some(100)), 100);
    assert_eq!(Render::resolve_width(None, None), BASELINE_WIDTH);
    assert_eq!(Render::plain().width(10).cols, BASELINE_WIDTH);
    assert_eq!(Render::plain().width(132).cols, 132);
}

#[test]
fn a_group_separator_is_one_character_and_not_a_digit() {
    assert_eq!(parse_group_sep("_").unwrap(), '_');
    assert!(parse_group_sep("7").is_err());
    assert!(parse_group_sep("ab").is_err());
    assert!(parse_group_sep("").is_err());
}

#[test]
fn digits_group_in_threes_from_the_right() {
    let plain = Render::plain();
    assert_eq!(group_decimal(&plain, "1234567"), "1234567");
    let sep = Render::plain().group(Some('_'));
    assert_eq!(group_decimal(&sep, "1234567"), "1_234_567");
    assert_eq!(group_decimal(&sep, "-123456"), "-123_456");
    assert_eq!(group_decimal(&sep, "123"), "123");
    assert_eq!(group_decimal(&sep, "12.5"), "12.5");
    let coloured = Render::styled(Style::colored());
    let g = group_decimal(&coloured, "1234567");
    assert_eq!(strip_ansi(&g), "1234567");
    assert_eq!(g, "1\u{1b}[90m234\u{1b}[0m567");
}

#[test]
fn a_form_dims_its_leading_zeros_and_strips_back() {
    let coloured = Render::styled(Style::colored());
    let f = paint_form(&coloured, "UC1 0000·0687·12");
    assert_eq!(strip_ansi(&f), "UC1 0000·0687·12");
    assert_eq!(f, "UC1 \u{1b}[2m0000·0\u{1b}[0m687\u{1b}[2m·\u{1b}[0m12");
    assert_eq!(paint_form(&Render::plain(), "UC1 0000·0687"), "UC1 0000·0687");
}

#[test]
fn each_refused_flag_value_says_what_is_accepted() {
    let e = ColorChoice::parse("sometimes").unwrap_err();
    assert_eq!((e.code, e.context.as_str()), (Code::E0001, BAD_COLOR));
    let e = parse_group_sep("__").unwrap_err();
    assert_eq!((e.code, e.context.as_str()), (Code::E0001, SEP_NOT_ONE));
    let e = parse_group_sep("7").unwrap_err();
    assert_eq!((e.code, e.context.as_str()), (Code::E0001, SEP_IS_DIGIT));
    let e = ucal::cert::parse_rounding("floor").unwrap_err();
    assert_eq!((e.code, e.context.as_str()), (Code::E0024, ucal::cert::BAD_ROUNDING));
    let e = ucal::wallclock::theme::by_name("neon").unwrap_err();
    assert_eq!((e.code, e.context.as_str()), (Code::E0016, ucal::wallclock::theme::NO_THEME));
}
