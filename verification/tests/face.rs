use ratatui::backend::TestBackend;
use ratatui::layout::{Alignment, Rect};
use ratatui::style::{Color as TuiColor, Modifier, Style as TuiStyle};
use ratatui::text::{Line, Span};
use ratatui::widgets::Paragraph;
use ratatui::Terminal;

use ucal::ticks::Ticks;
use ucal::wallclock::face::{Face, Local};
use ucal::wallclock::frame::{to_text, Color, FrameCell};
use ucal::wallclock::paint::{face_plan, lcars_plan, plain_plan, Area, Ink, Pane, PLAIN_TITLE};
use ucal::wallclock::theme::{lcars, plain};

fn colour(c: Color) -> TuiColor {
    match c {
        Color::Reset => TuiColor::Reset,
        Color::Black => TuiColor::Black,
        Color::Red => TuiColor::Red,
        Color::Green => TuiColor::Green,
        Color::Yellow => TuiColor::Yellow,
        Color::Blue => TuiColor::Blue,
        Color::Magenta => TuiColor::Magenta,
        Color::Cyan => TuiColor::Cyan,
        Color::Gray => TuiColor::Gray,
        Color::DarkGray => TuiColor::DarkGray,
        Color::LightRed => TuiColor::LightRed,
        Color::LightGreen => TuiColor::LightGreen,
        Color::LightYellow => TuiColor::LightYellow,
        Color::LightBlue => TuiColor::LightBlue,
        Color::LightMagenta => TuiColor::LightMagenta,
        Color::LightCyan => TuiColor::LightCyan,
        Color::White => TuiColor::White,
        Color::Rgb(r, g, b) => TuiColor::Rgb(r, g, b),
        Color::Indexed(i) => TuiColor::Indexed(i),
    }
}

fn from_tui(c: TuiColor) -> Color {
    match c {
        TuiColor::Reset => Color::Reset,
        TuiColor::Black => Color::Black,
        TuiColor::Red => Color::Red,
        TuiColor::Green => Color::Green,
        TuiColor::Yellow => Color::Yellow,
        TuiColor::Blue => Color::Blue,
        TuiColor::Magenta => Color::Magenta,
        TuiColor::Cyan => Color::Cyan,
        TuiColor::Gray => Color::Gray,
        TuiColor::DarkGray => Color::DarkGray,
        TuiColor::LightRed => Color::LightRed,
        TuiColor::LightGreen => Color::LightGreen,
        TuiColor::LightYellow => Color::LightYellow,
        TuiColor::LightBlue => Color::LightBlue,
        TuiColor::LightMagenta => Color::LightMagenta,
        TuiColor::LightCyan => Color::LightCyan,
        TuiColor::White => Color::White,
        TuiColor::Rgb(r, g, b) => Color::Rgb(r, g, b),
        TuiColor::Indexed(i) => Color::Indexed(i),
    }
}

fn style(i: &Ink) -> TuiStyle {
    let mut s = TuiStyle::default();
    if let Some(c) = i.fg {
        s = s.fg(colour(c));
    }
    if let Some(c) = i.bg {
        s = s.bg(colour(c));
    }
    if i.bold {
        s = s.add_modifier(Modifier::BOLD);
    }
    s
}

/// Draw a plan with ratatui, as the command line does, and read the frame
/// back as cells.
fn draw(panes: &[Pane], width: u16, height: u16) -> Vec<Vec<FrameCell>> {
    let mut term = Terminal::new(TestBackend::new(width, height)).unwrap();
    term.draw(|f| {
        for p in panes {
            let lines: Vec<Line> = p
                .rows
                .iter()
                .map(|r| {
                    Line::from(r.runs.iter().map(|s| Span::styled(s.text.clone(), style(&s.ink))).collect::<Vec<_>>())
                        .style(style(&r.ink))
                })
                .collect();
            let a = Rect::new(p.area.x, p.area.y, p.area.width, p.area.height);
            let align = if p.centred { Alignment::Center } else { Alignment::Left };
            f.render_widget(Paragraph::new(lines).style(style(&p.ink)).alignment(align), a);
        }
    })
    .unwrap();
    let buf = term.backend().buffer().clone();
    (0..height)
        .map(|y| {
            (0..width)
                .map(|x| {
                    let c = &buf[(x, y)];
                    FrameCell { symbol: c.symbol().to_string(), fg: from_tui(c.fg), bg: from_tui(c.bg) }
                })
                .collect()
        })
        .collect()
}

fn names() -> Vec<String> {
    ["drift", "span", "arc", "beat", "flicker"].iter().map(|s| s.to_string()).collect()
}

fn face() -> Face {
    // 42 beats and 7 flickers past the datum.
    let beat = Ticks::from_u128(3125u128.pow(6)).try_mul(3125u128.pow(6)).unwrap();
    let flicker = Ticks::from_u128(3125u128.pow(11)).try_mul(7).unwrap();
    let t = beat.try_mul(42).unwrap().try_add(&flicker).unwrap();
    Face::at(&t, &names(), "UC1 human form".to_string(), None)
}

const SCREEN: Area = Area { x: 0, y: 0, width: 100, height: 40 };

#[test]
fn the_plain_face_puts_title_readout_hands_and_footer_in_their_bands() {
    let panes = plain_plan(&face(), &plain(), SCREEN);
    assert_eq!(panes.len(), 5);
    assert_eq!(panes[0].area, SCREEN);
    assert!(panes[0].rows.is_empty());
    assert_eq!(panes[1].rows[0].runs[0].text, PLAIN_TITLE);
    assert_eq!(panes[1].area, Area { x: 0, y: 0, width: 100, height: 1 });
    assert_eq!(panes[2].rows.len(), 5);
    assert_eq!(panes[2].area, Area { x: 0, y: 1, width: 100, height: 6 });
    assert_eq!(panes[3].rows.len(), 5);
    assert_eq!(panes[3].rows[3].runs[0].text, "T0 beat       ");
    assert_eq!(panes[3].rows[3].runs[1].text, "  42");
    assert_eq!(panes[4].area, Area { x: 0, y: 38, width: 100, height: 2 });
    assert_eq!(panes[4].rows[0].runs[0].text, "UC1 human form");
    assert_eq!(panes[4].rows[1].runs[0].text, "q to quit");
}

#[test]
fn a_drawn_plain_face_reads_as_its_plan() {
    let panes = plain_plan(&face(), &plain(), SCREEN);
    let text = to_text(&draw(&panes, 100, 40), false);
    let lines: Vec<&str> = text.lines().collect();
    assert_eq!(lines[0], PLAIN_TITLE);
    assert!(lines[7].starts_with("T3 drift"));
    assert!(text.contains("T0 beat         42"));
    assert_eq!(lines[38], "UC1 human form");
    assert_eq!(lines[39], "q to quit");
}

#[test]
fn the_lcars_face_has_a_block_per_hand_and_its_bars() {
    let f = face();
    let panes = lcars_plan(&f, &lcars(), SCREEN);
    // background, elbow, rail filler, five blocks, header, readout, arc,
    // blur, the human form, the bottom bar
    assert_eq!(panes.len(), 1 + 2 + 5 + 6);
    assert_eq!(panes[3].rows[1].runs[0].text, "       T3 DRIFT ");
    assert_eq!(panes[6].rows[2].runs[0].text, "             42 ");
    assert_eq!(panes[8].rows[0].runs[0].text, " UNIVERSE CALENDAR · UC1");
    assert_eq!(panes[10].rows[0].runs[1].text, "  0000  ");
    let text = to_text(&draw(&panes, 100, 40), false);
    assert!(text.contains(" UNIVERSE CALENDAR · UC1"));
    assert!(text.contains("T-1 FLICKER · 66 000 PER SECOND · A POSITION, NOT A NUMBER"));
    assert!(text.contains(" Q TO DISENGAGE"));
    assert!(text.contains("T0 BEAT"));
}

#[test]
fn the_theme_chooses_the_face() {
    let f = face();
    assert_eq!(face_plan(&f, &plain(), SCREEN).len(), 5);
    assert_eq!(face_plan(&f, &lcars(), SCREEN).len(), 14);
}

#[test]
fn the_second_dial_follows_the_hands() {
    let local = Local {
        calendar: "mars-d".to_string(),
        year: "14".to_string(),
        day: "301".to_string(),
        through_day: 25,
        revision: 2,
    };
    let mut f = face();
    f.local = Some(local);
    let panes = plain_plan(&f, &plain(), SCREEN);
    assert_eq!(panes[3].rows.len(), 9);
    assert_eq!(panes[3].rows[6].runs[0].text, "MARS-D        ");
    assert_eq!(panes[3].rows[6].runs[1].text, "year 14  day 301");
    assert!(panes[3].rows[6].runs[1].ink.bold);
}
