//! The words a face prints that are not data.
//!
//! Sentences this program wrote follow `--locale`; the legends an instrument
//! actually bore do not, and are kept as they were printed.
use vstd::prelude::*;

use crate::text::str_eq;

verus! {

broadcast use vstd::string::group_string_axioms;

/// The chrome of a face: every sentence it prints that is not data.
#[derive(Clone, Copy, Debug)]
#[non_exhaustive]
pub struct Chrome {
    /// The program's name, on the plain face.
    pub program: &'static str,
    /// The program's name, on the face drawn with dials.
    pub program_dials: &'static str,
    /// The console header.
    pub title: &'static str,
    /// The line beneath the console header.
    pub subtitle: &'static str,
    /// The label over the main readout.
    pub main_plate: &'static str,
    /// The caption of the sub-visible bar, after its tier label.
    pub blur_caption: &'static str,
    /// The caption of the sub-visible bar, whole.
    pub blur_line: &'static str,
    /// The caption of the flicker on the sight's axis.
    pub blur_axis: &'static str,
    /// The caption of a register too fast to show.
    pub blur_register: &'static str,
    /// The note that the finest hand gets no dial.
    pub blur_no_dial: &'static str,
    /// The rate of the moving register.
    pub beat_rate: &'static str,
    /// The pace of the arc hand.
    pub arc_pace: &'static str,
    /// Why every dial has 3125 stops.
    pub stops_note: &'static str,
    /// The ready lamp.
    pub ready: &'static str,
    /// The legend for leaving, on a console.
    pub quit: &'static str,
    /// The hint for leaving, on a plain face.
    pub quit_hint: &'static str,
    /// The year label of a second calendar.
    pub year: &'static str,
    /// The day label of a second calendar.
    pub day: &'static str,
    /// Where a second calendar's year 1 begins.
    pub anchor_note: &'static str,
    /// The progress through the local day, after its percentage.
    pub through_local_day: &'static str,
    /// The odometer counting up from an origin.
    pub since: &'static str,
    /// The odometer counting down to an origin.
    pub until: &'static str,
    /// What the big readout is, when its hand does not visibly move.
    pub hero_is_slow: &'static str,
    /// The label of an anchor's revision.
    pub anchor_revision_label: &'static str,
    /// That an anchor is an observation, and versioned.
    pub anchor_revision: &'static str,
}

/// The English table.
pub open spec fn english_table() -> Chrome {
    Chrome {
        program: "UCAL — universe calendar",
        program_dials: "UCAL — universe calendar, on dials",
        title: "UNIVERSE CALENDAR · UC1",
        subtitle: "ABSOLUTE TIME · PLANCK TICKS · BASE FIVE",
        main_plate: "PRIMARY COUNT",
        blur_caption: "66 000 PER SECOND · A POSITION, NOT A NUMBER",
        blur_line: "T-1 FLICKER · 66 000 PER SECOND · A POSITION, NOT A NUMBER",
        blur_axis: "T-1 FLICKER ON THE AXIS · 66 000 PER SECOND",
        blur_register: "T-1 FLICKER · TOO FAST FOR A REGISTER",
        blur_no_dial: "the finest hand has no dial: 66 000 stops a second is not a hand",
        beat_rate: "21 PER SECOND",
        arc_pace: "ONE STOP EVERY 2 MIN 26 S",
        stops_note: "every tier has 3125 stops, because every rung is 5^5 of the one below",
        ready: "READY",
        quit: "EXIT",
        quit_hint: "q to quit",
        year: "year",
        day: "day",
        anchor_note: "counted from the anchor — year 1 began there",
        through_local_day: "through the local day",
        since: "SINCE",
        until: "UNTIL",
        hero_is_slow: "a calendar display: this hand does not move while you watch",
        anchor_revision_label: "anchor revision",
        anchor_revision: "an anchor is an observation and is versioned (Rule J)",
    }
}

/// The Russian table.
pub open spec fn russian_table() -> Chrome {
    Chrome {
        program: "UCAL — календарь вселенной",
        program_dials: "UCAL — календарь вселенной, на циферблатах",
        title: "ВРЕМЯ ВСЕЛЕННОЙ · UC1",
        subtitle: "АБСОЛЮТНОЕ ВРЕМЯ · ПЛАНКОВСКИЕ ТИКИ · ОСНОВАНИЕ ПЯТЬ",
        main_plate: "ОСНОВНОЙ ОТСЧЁТ",
        blur_caption: "66 000 В СЕКУНДУ · ПОЛОЖЕНИЕ, НЕ ЧИСЛО",
        blur_line: "T-1 МЕРЦАНИЕ · 66 000 В СЕКУНДУ · ПОЛОЖЕНИЕ, НЕ ЧИСЛО",
        blur_axis: "T-1 МЕРЦАНИЕ НА ОСИ · 66 000 В СЕКУНДУ",
        blur_register: "T-1 МЕРЦАНИЕ · СЛИШКОМ БЫСТРО ДЛЯ РЕГИСТРА",
        blur_no_dial: "у самой тонкой стрелки нет циферблата: 66 000 делений в секунду — это не стрелка",
        beat_rate: "21 В СЕКУНДУ",
        arc_pace: "ОДИН ШАГ КАЖДЫЕ 2 МИН 26 С",
        stops_note: "у каждого разряда 3125 делений, потому что каждая ступень — 5^5 предыдущей",
        ready: "ГОТОВ",
        quit: "ВЫХОД",
        quit_hint: "q — выход",
        year: "год",
        day: "сутки",
        anchor_note: "отсчёт от опорной точки — там начался год 1",
        through_local_day: "местных суток пройдено",
        since: "ПРОШЛО ОТ",
        until: "ОСТАЛОСЬ ДО",
        hero_is_slow: "календарь, а не часы: эта стрелка не движется, пока вы смотрите",
        anchor_revision_label: "версия опорной точки",
        anchor_revision: "это наблюдение, а наблюдения версионируются (правило J)",
    }
}

/// The English table.
pub fn english() -> (c: Chrome)
    ensures
        c == english_table(),
{
    Chrome {
        program: "UCAL — universe calendar",
        program_dials: "UCAL — universe calendar, on dials",
        title: "UNIVERSE CALENDAR · UC1",
        subtitle: "ABSOLUTE TIME · PLANCK TICKS · BASE FIVE",
        main_plate: "PRIMARY COUNT",
        blur_caption: "66 000 PER SECOND · A POSITION, NOT A NUMBER",
        blur_line: "T-1 FLICKER · 66 000 PER SECOND · A POSITION, NOT A NUMBER",
        blur_axis: "T-1 FLICKER ON THE AXIS · 66 000 PER SECOND",
        blur_register: "T-1 FLICKER · TOO FAST FOR A REGISTER",
        blur_no_dial: "the finest hand has no dial: 66 000 stops a second is not a hand",
        beat_rate: "21 PER SECOND",
        arc_pace: "ONE STOP EVERY 2 MIN 26 S",
        stops_note: "every tier has 3125 stops, because every rung is 5^5 of the one below",
        ready: "READY",
        quit: "EXIT",
        quit_hint: "q to quit",
        year: "year",
        day: "day",
        anchor_note: "counted from the anchor — year 1 began there",
        through_local_day: "through the local day",
        since: "SINCE",
        until: "UNTIL",
        hero_is_slow: "a calendar display: this hand does not move while you watch",
        anchor_revision_label: "anchor revision",
        anchor_revision: "an anchor is an observation and is versioned (Rule J)",
    }
}

/// The Russian table.
pub fn russian() -> (c: Chrome)
    ensures
        c == russian_table(),
{
    Chrome {
        program: "UCAL — календарь вселенной",
        program_dials: "UCAL — календарь вселенной, на циферблатах",
        title: "ВРЕМЯ ВСЕЛЕННОЙ · UC1",
        subtitle: "АБСОЛЮТНОЕ ВРЕМЯ · ПЛАНКОВСКИЕ ТИКИ · ОСНОВАНИЕ ПЯТЬ",
        main_plate: "ОСНОВНОЙ ОТСЧЁТ",
        blur_caption: "66 000 В СЕКУНДУ · ПОЛОЖЕНИЕ, НЕ ЧИСЛО",
        blur_line: "T-1 МЕРЦАНИЕ · 66 000 В СЕКУНДУ · ПОЛОЖЕНИЕ, НЕ ЧИСЛО",
        blur_axis: "T-1 МЕРЦАНИЕ НА ОСИ · 66 000 В СЕКУНДУ",
        blur_register: "T-1 МЕРЦАНИЕ · СЛИШКОМ БЫСТРО ДЛЯ РЕГИСТРА",
        blur_no_dial: "у самой тонкой стрелки нет циферблата: 66 000 делений в секунду — это не стрелка",
        beat_rate: "21 В СЕКУНДУ",
        arc_pace: "ОДИН ШАГ КАЖДЫЕ 2 МИН 26 С",
        stops_note: "у каждого разряда 3125 делений, потому что каждая ступень — 5^5 предыдущей",
        ready: "ГОТОВ",
        quit: "ВЫХОД",
        quit_hint: "q — выход",
        year: "год",
        day: "сутки",
        anchor_note: "отсчёт от опорной точки — там начался год 1",
        through_local_day: "местных суток пройдено",
        since: "ПРОШЛО ОТ",
        until: "ОСТАЛОСЬ ДО",
        hero_is_slow: "календарь, а не часы: эта стрелка не движется, пока вы смотрите",
        anchor_revision_label: "версия опорной точки",
        anchor_revision: "это наблюдение, а наблюдения версионируются (правило J)",
    }
}

/// The chrome for a locale, by its tag: Russian for `ru`, English otherwise.
pub fn of(tag: &str) -> (c: Chrome)
    ensures
        c == (if tag@ == "ru"@ { russian_table() } else { english_table() }),
{
    if str_eq(tag, "ru") {
        russian()
    } else {
        english()
    }
}

} // verus!
