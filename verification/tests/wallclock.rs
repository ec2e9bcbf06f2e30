use ucal::wallclock::face::{bar, filled_cells, hand_lines, hand_position, local_lines, local_lines_headed, Face, Hand, Local};
use ucal::ticks::Ticks;
use ucal::wallclock::chrome::{of, Chrome};
use ucal::wallclock::dial::{cos_sin, Canvas, ATAN, SCALE, TURN};
use ucal::wallclock::digits::{render, width, GLYPHS, HEIGHT};
use ucal::wallclock::frame::{code, sgr_for, to_text, trim_end, Color, FrameCell};
use ucal::wallclock::theme::{all, by_name};
use ucal::error::Code;

#[test]
fn the_arctangent_table_is_what_it_claims() {
    // An eighth of a turn, exactly, with no series needed.
    assert_eq!(
        ATAN[0],
        SCALE * TURN / 8,
        "atan(1) is an eighth of a turn by definition"
    );

    // atan(t) = t - t^3/3 + t^5/5 - ..., in fixed point with headroom.
    const P: i128 = 1 << 60;
    let two_pi: i128 = 7_244_019_458_077_122_842; // round(2*pi * 2^60)
    for (i, entry) in ATAN.iter().enumerate().skip(1) {
        let t = P >> i;
        let mut term = t;
        let mut sum = 0i128;
        let mut k = 1i128;
        while term != 0 && k < 80 {
            let add = term / k;
            if (k / 2) % 2 == 0 {
                sum += add;
            } else {
                sum -= add;
            }
            term = term * t / P;
            term = term * t / P;
            k += 2;
        }
        let want = sum * (SCALE as i128 * TURN as i128) / two_pi;
        let got = *entry as i128;
        assert!(
            (want - got).abs() <= 2,
            "ATAN[{i}] is {got}, re-derivation says {want}"
        );
    }
}

#[test]
fn every_position_lands_on_the_circle() {
    for p in (0..3125).step_by(7) {
        let (c, s) = cos_sin(p);
        let r2 = c * c + s * s;
        let want = SCALE * SCALE;
        let err = (r2 - want).abs() * 10_000 / want;
        assert!(err <= 5, "position {p}: |v|^2 off by {err} parts in 10 000");
    }
}

#[test]
fn zero_is_up_and_the_hand_runs_clockwise() {
    let (c, s) = cos_sin(0);
    assert!(c > SCALE * 99 / 100, "0 should be straight up, got ({c}, {s})");
    assert!(s.abs() < SCALE / 100);

    let (c, s) = cos_sin(3125 / 4);
    assert!(s > SCALE * 99 / 100, "a quarter turn should point right");
    assert!(c.abs() < SCALE / 50);

    let (c, s) = cos_sin(3125 / 2);
    assert!(c < -SCALE * 99 / 100, "half a turn should point down");
    let _ = s;
}

#[test]
fn a_dial_is_a_ring_with_a_hand_that_moves() {
    let ink = |p: u32| {
        let mut c = Canvas::new(20, 10);
        c.dial(p);
        c.lines().join("\n")
    };
    let a = ink(0);
    let b = ink(3125 / 4);
    assert!(a.chars().any(|ch| ch != ' ' && ch != '\u{2800}' && ch != '\n'));
    assert_ne!(a, b, "the hand did not move a quarter turn");
}

#[test]
fn a_dial_with_no_room_draws_nothing() {
    for (w, h) in [(0usize, 0usize), (1, 1), (2, 1), (3, 1)] {
        let mut c = Canvas::new(w, h);
        c.dial(1000);
        let _ = c.lines();
    }
}

#[test]
fn every_digit_has_a_glyph_of_the_declared_size() {
    for (d, glyph) in GLYPHS.iter().enumerate() {
        assert_eq!(glyph.len(), HEIGHT, "digit {d}");
        for row in glyph {
            assert_eq!(row.chars().count(), 5, "digit {d} row `{row}`");
        }
    }
}

#[test]
fn no_two_digits_render_identically() {
    for a in 0..10u32 {
        for b in (a + 1)..10 {
            assert_ne!(
                GLYPHS[a as usize], GLYPHS[b as usize],
                "{a} and {b} are the same glyph"
            );
        }
    }
}

#[test]
fn width_matches_what_render_produces() {
    for s in ["0", "0031", "00·31", "", "3124"] {
        let rows = render(s);
        for row in &rows {
            assert_eq!(row.chars().count(), width(s), "for `{s}`");
        }
    }
}

fn fields(c: &Chrome) -> Vec<(&'static str, &'static str)> {
    vec![
        ("program", c.program),
        ("program_dials", c.program_dials),
        ("title", c.title),
        ("subtitle", c.subtitle),
        ("main_plate", c.main_plate),
        ("blur_caption", c.blur_caption),
        ("blur_line", c.blur_line),
        ("blur_axis", c.blur_axis),
        ("blur_register", c.blur_register),
        ("blur_no_dial", c.blur_no_dial),
        ("beat_rate", c.beat_rate),
        ("arc_pace", c.arc_pace),
        ("stops_note", c.stops_note),
        ("ready", c.ready),
        ("quit", c.quit),
        ("quit_hint", c.quit_hint),
        ("year", c.year),
        ("day", c.day),
        ("anchor_note", c.anchor_note),
        ("through_local_day", c.through_local_day),
        ("since", c.since),
        ("until", c.until),
        ("hero_is_slow", c.hero_is_slow),
        ("anchor_revision_label", c.anchor_revision_label),
        ("anchor_revision", c.anchor_revision),
    ]
}

#[test]
fn every_shipped_locale_has_words() {
    for l in ["en", "ru"] {
        let c = of(l);
        for (what, s) in fields(&c) {
            assert!(!s.trim().is_empty(), "{}: {what} is empty", l);
        }
    }
}

#[test]
fn no_russian_field_was_left_in_english() {
    let en = fields(&of("en"));
    let ru = fields(&of("ru"));
    for ((what, e), (_, r)) in en.iter().zip(ru.iter()) {
        assert_ne!(e, r, "{what} is the same in both locales");
    }
}

#[test]
fn the_russian_table_is_cyrillic() {
    for (what, s) in fields(&of("ru")) {
        assert!(
            s.chars().any(|c| ('\u{400}'..='\u{4ff}').contains(&c)),
            "ru: {what} has no Cyrillic in it: {s}"
        );
    }
}

#[test]
fn an_unknown_locale_tag_gets_english() {
    assert_eq!(of("fr").title, of("en").title);
    assert_eq!(of("ru").title, "ВРЕМЯ ВСЕЛЕННОЙ · UC1");
}

#[test]
fn a_whole_turn_lands_on_the_same_place() {
    for p in [0u32, 1, 781, 1562, 3124] {
        assert_eq!(cos_sin(p), cos_sin(p + 3125));
    }
}

#[test]
fn a_dot_lights_one_cell_and_off_canvas_is_ignored() {
    let mut c = Canvas::new(2, 1);
    c.set(0, 0);
    c.set(3, 3);
    c.set(-1, 0);
    c.set(100, 0);
    let lines = c.lines();
    assert_eq!(lines.len(), 1);
    assert_eq!(lines[0], "\u{2801}\u{2880}");
}

#[test]
fn a_small_canvas_is_left_blank() {
    let mut c = Canvas::new(3, 1);
    c.dial(0);
    assert_eq!(c.lines(), vec!["\u{2800}\u{2800}\u{2800}".to_string()]);
}

#[test]
fn a_separator_renders_as_two_blank_columns() {
    let rows = render("1·");
    assert_eq!(rows[0], "   ##   ".replace('#', "█"));
    assert_eq!(width("1·"), 8);
}

#[test]
fn colour_codes_are_the_sgr_numbers() {
    assert_eq!(code(Color::Reset, false), None);
    assert_eq!(code(Color::Red, false).unwrap(), "31");
    assert_eq!(code(Color::Red, true).unwrap(), "41");
    assert_eq!(code(Color::White, true).unwrap(), "107");
    assert_eq!(code(Color::Rgb(255, 0, 12), false).unwrap(), "38;2;255;0;12");
    assert_eq!(code(Color::Indexed(7), true).unwrap(), "48;5;7");
    assert_eq!(sgr_for(Color::Reset, Color::Reset), "");
    assert_eq!(sgr_for(Color::Black, Color::Reset), "\u{1b}[30m");
    assert_eq!(sgr_for(Color::Black, Color::Gray), "\u{1b}[30;47m");
}

#[test]
fn trailing_blanks_are_trimmed_unless_an_escape_is_there() {
    assert_eq!(trim_end("ab  "), "ab");
    assert_eq!(trim_end("\u{1b}[0mab  "), "\u{1b}[0mab  ");
}

#[test]
fn a_frame_is_lines_with_colour_runs() {
    let cell = |s: &str, fg: Color| FrameCell { symbol: s.to_string(), fg, bg: Color::Reset };
    let rows = vec![vec![cell("a", Color::Red), cell("b", Color::Red), cell(" ", Color::Reset)]];
    assert_eq!(to_text(&rows, false), "ab\n");
    assert_eq!(to_text(&rows, true), "\u{1b}[31mab\u{1b}[0m \n");
}

#[test]
fn themes_are_found_by_key_and_refused_otherwise() {
    let keys: Vec<&str> = all().iter().map(|t| t.key).collect();
    assert_eq!(keys, ["plain", "amber", "green", "paper", "startrek"]);
    assert!(by_name("startrek").unwrap().lcars);
    assert_eq!(by_name("amber").unwrap().key, "amber");
    assert_eq!(by_name("vostok").unwrap_err().code, Code::E0016);
}

fn power_of_3125(n: u32) -> Ticks {
    let mut t = Ticks::from_u128(1);
    for _ in 0..n {
        t = t.try_mul(3125).expect("fits");
    }
    t
}

fn tier_names() -> Vec<String> {
    ["drift", "span", "arc", "beat", "flicker"].iter().map(|s| s.to_string()).collect()
}

#[test]
fn each_hand_is_its_tiers_place_in_the_one_above() {
    // Seven beats, two arcs and one drift past a whole span.
    let t = power_of_3125(12)
        .try_mul(7)
        .and_then(|a| a.try_add(&power_of_3125(13).try_mul(2).unwrap()))
        .and_then(|a| a.try_add(&power_of_3125(15)))
        .expect("fits");
    let f = Face::at(&t, &tier_names(), "UC1 ...".to_string(), None);
    let tiers: Vec<i8> = f.hands.iter().map(|h| h.tier).collect();
    assert_eq!(tiers, [3, 2, 1, 0, -1]);
    let positions: Vec<u32> = f.hands.iter().map(|h| h.position).collect();
    assert_eq!(positions, [1, 0, 2, 7, 0]);
    assert_eq!(f.beat().unwrap().position, 7);
    assert_eq!(f.blur().unwrap().tier, -1);
    assert_eq!(hand_position(&t, 0), 7);
    assert_eq!(hand_position(&Ticks::from_u128(3124), -12), 3124);
    assert_eq!(hand_position(&Ticks::from_u128(3125), -12), 0);
    assert_eq!(hand_position(&Ticks::from_u128(3125), -11), 1);
}

#[test]
fn a_hand_is_labelled_by_tier_and_name() {
    let named = Hand { tier: -1, name: "flicker".to_string(), position: 3124 };
    assert_eq!(named.label(), "T-1 flicker");
    let bare = Hand { tier: 7, name: String::new(), position: 0 };
    assert_eq!(bare.label(), "T7");
    assert_eq!(named.per_mille(), 999);
    assert_eq!(Hand { tier: 0, name: String::new(), position: 1563 }.per_mille(), 500);
}

#[test]
fn hand_lines_align_label_and_position() {
    let t = power_of_3125(12).try_mul(42).expect("fits");
    let f = Face::at(&t, &tier_names(), String::new(), None);
    let lines = hand_lines(&f);
    assert_eq!(lines[3], "T0 beat         42");
    assert_eq!(lines[0], "T3 drift         0");
    assert!(local_lines(&f).is_empty());
}

#[test]
fn the_second_dial_says_what_its_year_counts_from() {
    let local = Local {
        calendar: "mars-d".to_string(),
        year: "14".to_string(),
        day: "301".to_string(),
        through_day: 25,
        revision: 2,
    };
    let f = Face::at(&Ticks::zero(), &tier_names(), String::new(), Some(local));
    let lines = local_lines(&f);
    assert_eq!(lines.len(), 4);
    assert_eq!(lines[0], "");
    assert_eq!(lines[1], "MARS-D        year 14  day 301   counted from the anchor — year 1 began there");
    assert_eq!(lines[2], format!("{}{} 25% through the local day", "▓".repeat(10), "░".repeat(30)));
    assert_eq!(lines[3], "anchor revision 2 — an anchor is an observation and is versioned (Rule J)");
}

#[test]
fn the_second_dial_takes_its_heading_as_given() {
    let local = Local {
        calendar: "mars-d".to_string(),
        year: "3".to_string(),
        day: "7".to_string(),
        through_day: 100,
        revision: 0,
    };
    let lines = local_lines_headed(&local, "Mars");
    assert_eq!(lines[1], "Mars          year 3  day 7   counted from the anchor — year 1 began there");
    assert_eq!(lines[2], format!("{} 100% through the local day", "▓".repeat(40)));
}

#[test]
fn a_bar_fills_in_proportion() {
    assert_eq!(filled_cells(500, 40), 20);
    assert_eq!(filled_cells(999, 10), 9);
    assert_eq!(bar('#', '.', 3, 5), "###..");
    assert_eq!(bar('#', '.', 7, 5), "#######");
}
