use ucal::body_file::{BAD_UNIT, BOTH_KINDS, DERIVED_UNIT, NEITHER_KIND, NOT_DECIMAL, NOT_SYNODIC};
use ucal::body_export::{
    body_file, indent_lines, one_line, param_block, satellite_block, unit_key, valid_years, verbatim, Body, Provenance,
    RatedParam, Satellite, NOT_WHOLE_YEARS,
};
use ucal::clock::bridge_second;
use ucal::ticks::Ticks;
use ucal::body_file::{
    mantissa_of, parse_error, unit_of, Measured, MeasuredUnit, ParamFile, Relation, MISSING_KEY, NEEDS_UNIT, NEEDS_VALUE,
    NOT_HJSON, UNKNOWN_KEY,
};
use ucal::ephem_file::alloc_format;
use ucal::error::Code;

#[test]
fn a_published_figure_keeps_its_precision() {
    assert_eq!(verbatim(601_890, 1), "60189.0");
    assert_eq!(verbatim(4_332_589, 3), "4332.589");
    assert_eq!(verbatim(90_560, 0), "90560");
    assert_eq!(verbatim(5, 3), "0.005");
}

#[test]
fn a_citation_is_collapsed_to_one_line() {
    assert_eq!(one_line("two\n   lines here"), "two lines here");
}

#[test]
fn a_citation_loses_its_outer_whitespace_too() {
    assert_eq!(one_line("  a\t b \n"), "a b");
    assert_eq!(one_line(""), "");
    assert_eq!(one_line(" \n "), "");
}

#[test]
fn unit_keys_read_back_as_their_units() {
    for u in [
        MeasuredUnit::SiSecond,
        MeasuredUnit::SiMinute,
        MeasuredUnit::Hour,
        MeasuredUnit::SiDay,
        MeasuredUnit::JulianYear,
    ] {
        assert_eq!(unit_of(unit_key(u)).unwrap(), u);
    }
    assert_eq!(unit_key(MeasuredUnit::SiDay), "d");
    assert_eq!(unit_key(MeasuredUnit::Hour), "h");
    assert_eq!(unit_of("days").unwrap_err().code, Code::E0018);
}

#[test]
fn a_written_figure_reads_back_as_the_same_figure() {
    for (m, d) in [(601_890u128, 1u32), (4_332_589, 3), (90_560, 0), (5, 3), (0, 2), (u128::MAX, 7)] {
        assert_eq!(mantissa_of(&verbatim(m, d)).unwrap(), (m, d));
    }
}

#[test]
fn a_decimal_splits_into_mantissa_and_places() {
    assert_eq!(mantissa_of("15.945421").unwrap(), (15_945_421, 6));
    assert_eq!(mantissa_of(" 86400 ").unwrap(), (86_400, 0));
    assert_eq!(mantissa_of("60189.0").unwrap(), (601_890, 1));
    assert_eq!(mantissa_of("1.").unwrap(), (1, 0));
    assert_eq!(mantissa_of(".5").unwrap_err().code, Code::E0060);
    assert_eq!(mantissa_of("1e5").unwrap_err().code, Code::E0060);
    assert_eq!(mantissa_of("-1").unwrap_err().code, Code::E0060);
    assert_eq!(mantissa_of("1.2.3").unwrap_err().code, Code::E0060);
    assert!(mantissa_of("340282366920938463463374607431768211456").is_err());
    assert!(mantissa_of("340282366920938463463374607431768211455").is_ok());
}

fn param(value: Option<&str>, unit: Option<&str>, derived: Option<&str>) -> ParamFile {
    ParamFile {
        value: value.map(str::to_string),
        unit: unit.map(str::to_string),
        derived: derived.map(str::to_string),
        citation: "a source".to_string(),
        locator: None,
        valid_years: 100,
    }
}

#[test]
fn a_parameter_is_measured_or_derived_and_never_both() {
    assert_eq!(param(Some("1"), Some("d"), None).relation().unwrap(), None);
    assert_eq!(param(None, None, Some("synodic")).relation().unwrap(), Some(Relation::Synodic));
    assert_eq!(param(Some("1"), None, Some("synodic")).relation().unwrap_err().code, Code::E0060);
    assert_eq!(param(None, None, None).relation().unwrap_err().code, Code::E0060);
    assert_eq!(param(None, Some("d"), Some("synodic")).relation().unwrap_err().code, Code::E0060);
    assert_eq!(param(None, None, Some("sidereal")).relation().unwrap_err().code, Code::E0018);
}

#[test]
fn the_synodic_relation_states_its_formula() {
    assert_eq!(Relation::Synodic.relation(), "1 / (1/P_rotation - 1/P_orbital_period)");
    assert!(Relation::Synodic.because().starts_with("tidal lock"));
    assert!(Relation::parse("synodic").is_ok());
}

#[test]
fn a_key_diagnostic_quotes_the_key() {
    assert_eq!(alloc_format("sigma_days", "must be positive"), "`sigma_days` must be positive");
}

#[test]
fn the_unit_key_is_the_one_the_loader_accepts() {
    assert_eq!(unit_key(MeasuredUnit::SiDay), "d");
    assert_eq!(unit_key(MeasuredUnit::Hour), "h");
    // And *not* a rendering that carries its conversion in brackets.
    assert!(unit_of("d (86 400 s)").is_err());
}

#[test]
fn a_measured_parameter_needs_its_value_and_unit() {
    let e = param(None, Some("d"), None).build().unwrap_err();
    assert_eq!((e.code, e.context.as_str()), (Code::E0060, NEEDS_VALUE));
    let e = param(Some("1.5"), None, None).build().unwrap_err();
    assert_eq!((e.code, e.context.as_str()), (Code::E0060, NEEDS_UNIT));
    assert_eq!(param(Some("1,5"), Some("d"), None).build().unwrap_err().code, Code::E0060);
    assert_eq!(param(Some("1.5"), Some("days"), None).build().unwrap_err().code, Code::E0018);
    assert_eq!(
        param(Some(" 60189.0 "), Some("d"), None).build().unwrap(),
        Measured { mantissa: 601890, decimals: 1, unit: MeasuredUnit::SiDay }
    );
    assert_eq!(
        param(Some("9.925"), Some("h"), None).build().unwrap(),
        Measured { mantissa: 9925, decimals: 3, unit: MeasuredUnit::Hour }
    );
}

#[test]
fn a_refused_body_file_is_told_why_by_code() {
    let e = parse_error("unknown field `rotaton_period`, expected one of ...");
    assert_eq!((e.code, e.context.as_str()), (Code::E0012, UNKNOWN_KEY));
    let e = parse_error("missing field `solar_day` at line 3");
    assert_eq!((e.code, e.context.as_str()), (Code::E0060, MISSING_KEY));
    let e = parse_error("expected a value at line 1 column 1");
    assert_eq!((e.code, e.context.as_str()), (Code::E0017, NOT_HJSON));
    // An unknown key is reported as one even when a field is also missing.
    assert_eq!(parse_error("missing field `id`; unknown field `x`").code, Code::E0012);
}

fn window_of_years(years: u128) -> Ticks {
    bridge_second().try_mul(31_557_600).unwrap().try_mul(2 * years).unwrap()
}

fn measured(mantissa: u128, decimals: u32, unit: MeasuredUnit, years: u128) -> RatedParam {
    RatedParam {
        provenance: Provenance::Measured { mantissa, decimals, unit },
        source: "Archinal et al.\n   (2018), Celest. Mech.".to_string(),
        locator: Some("doi:10.1007/s10569-017-9805-5".to_string()),
        window: window_of_years(years),
    }
}

fn synodic(years: u128) -> RatedParam {
    RatedParam {
        provenance: Provenance::Derived { relation: Relation::Synodic.relation().to_string() },
        source: "derived".to_string(),
        locator: None,
        window: window_of_years(years),
    }
}

#[test]
fn a_window_is_written_in_whole_years_or_refused() {
    assert_eq!(valid_years(&window_of_years(100)).unwrap(), 100);
    assert_eq!(valid_years(&Ticks::zero()).unwrap(), 0);
    let off = window_of_years(100).try_add(&Ticks::from_u128(2)).unwrap();
    let e = valid_years(&off).unwrap_err();
    assert_eq!((e.code, e.context.as_str()), (Code::E0043, NOT_WHOLE_YEARS));
    // An odd width halves down, as the loader's `± years` reads it back.
    let odd = window_of_years(7).try_add(&Ticks::from_u128(1)).unwrap();
    assert_eq!(valid_years(&odd).unwrap(), 7);
}

#[test]
fn a_parameter_block_carries_its_figure_verbatim() {
    let p = measured(601_890, 1, MeasuredUnit::SiDay, 100);
    assert_eq!(
        param_block("orbital_period", &p).unwrap(),
        "orbital_period: {\n  value: 60189.0\n  unit: d\n  citation: Archinal et al. (2018), Celest. Mech.\n  locator: doi:10.1007/s10569-017-9805-5\n  valid_years: 100\n}\n"
    );
    assert_eq!(
        param_block("solar_day", &synodic(50)).unwrap(),
        "solar_day: {\n  derived: synodic\n  citation: derived\n  valid_years: 50\n}\n"
    );
    let mut other = synodic(50);
    other.provenance = Provenance::Derived { relation: "P_rotation + P_orbital_period".to_string() };
    assert_eq!(param_block("solar_day", &other).unwrap_err().code, Code::E0018);
}

#[test]
fn nested_lines_are_indented_as_lines() {
    assert_eq!(indent_lines("a\nb\n"), "    a\n    b\n");
    assert_eq!(indent_lines("a\r\nb"), "    a\n    b\n");
    assert_eq!(indent_lines("\n\nc"), "    \n    \n    c\n");
    assert_eq!(indent_lines(""), "");
}

#[test]
fn a_satellite_nests_its_orbit() {
    let s = Satellite { id: "phobos".to_string(), orbital_period: synodic(10), retrograde: true };
    assert_eq!(
        satellite_block(&s).unwrap(),
        "  {\n    id: phobos\n    orbital_period: {\n      derived: synodic\n      citation: derived\n      valid_years: 10\n    }\n    retrograde: true\n  }\n"
    );
}

fn body(satellites: Vec<Satellite>) -> Body {
    Body {
        id: "testbody".to_string(),
        primary: Some("sun".to_string()),
        rotation_period: measured(886_400, 1, MeasuredUnit::SiSecond, 100),
        solar_day: synodic(100),
        orbital_period: measured(60_189, 0, MeasuredUnit::SiDay, 100),
        satellites,
    }
}

#[test]
fn a_body_file_states_its_grouping_when_it_has_satellites() {
    let plain = body_file(&body(vec![]), None).unwrap();
    assert!(plain.starts_with("# testbody — a §15.1 body file, written by `ucal cal export testbody`.\n#\n"));
    assert!(plain.contains("\nid: testbody\nprimary: sun\nrotation_period: {\n  value: 88640.0\n  unit: s\n"));
    assert!(plain.ends_with("  valid_years: 100\n}\n"));
    assert!(!plain.contains("grouping_satellite"));

    let moon = Satellite { id: "moon".to_string(), orbital_period: measured(273, 1, MeasuredUnit::SiDay, 100), retrograde: false };
    let with = body_file(&body(vec![moon.clone()]), None).unwrap();
    assert!(with.contains("satellites: [\n  {\n    id: moon\n    orbital_period: {\n      value: 27.3\n"));
    assert!(with.ends_with("# order deciding a calendar.\ngrouping_satellite: none\n"));
    let named = body_file(&body(vec![moon]), Some("moon")).unwrap();
    assert!(named.ends_with("grouping_satellite: moon\n"));
}

#[test]
fn the_first_parameter_that_cannot_be_written_is_the_error() {
    let mut b = body(vec![]);
    b.solar_day.window = Ticks::from_u128(3);
    b.orbital_period.provenance = Provenance::Derived { relation: "something else".to_string() };
    assert_eq!(body_file(&b, None).unwrap_err().code, Code::E0043);
    b.solar_day = synodic(1);
    assert_eq!(body_file(&b, None).unwrap_err().code, Code::E0018);
}

#[test]
fn each_refusal_of_a_parameter_says_what_is_wrong() {
    let p = |value: Option<&str>, unit: Option<&str>, derived: Option<&str>| ParamFile {
        value: value.map(str::to_string),
        unit: unit.map(str::to_string),
        derived: derived.map(str::to_string),
        citation: "a source".to_string(),
        locator: None,
        valid_years: 1,
    };
    let e = p(Some("1"), None, Some("synodic")).relation().unwrap_err();
    assert_eq!((e.code, e.context.as_str()), (Code::E0060, BOTH_KINDS));
    let e = p(None, None, None).relation().unwrap_err();
    assert_eq!((e.code, e.context.as_str()), (Code::E0060, NEITHER_KIND));
    let e = p(None, Some("s"), Some("synodic")).relation().unwrap_err();
    assert_eq!((e.code, e.context.as_str()), (Code::E0060, DERIVED_UNIT));
    let e = p(None, None, Some("sidereal")).relation().unwrap_err();
    assert_eq!((e.code, e.context.as_str()), (Code::E0018, NOT_SYNODIC));
    let e = p(Some("1.2.3"), Some("s"), None).build().unwrap_err();
    assert_eq!((e.code, e.context.as_str()), (Code::E0060, NOT_DECIMAL));
    let e = p(Some("1.5"), Some("fortnight"), None).build().unwrap_err();
    assert_eq!((e.code, e.context.as_str()), (Code::E0018, BAD_UNIT));
}
