use ucal::anchor_file::{
    malformed, parse_error, Citation, PhaseDefinition, PhaseFile, MISSING_KEY, NOT_HJSON, UNKNOWN_KEY, UNKNOWN_KIND,
};
use ucal::error::Code;

fn phase(kind: &str) -> PhaseFile {
    PhaseFile {
        kind: kind.to_string(),
        meridian: None,
        meridian_citation: None,
        description: None,
        citation: None,
        locator: None,
    }
}

#[test]
fn the_named_events_need_nothing_more() {
    assert_eq!(phase("northward_equinox").build().unwrap(), PhaseDefinition::NorthwardEquinox);
    assert_eq!(phase("southward_equinox").build().unwrap(), PhaseDefinition::SouthwardEquinox);
    assert_eq!(phase("perihelion").build().unwrap(), PhaseDefinition::Perihelion);
}

#[test]
fn a_midnight_needs_a_meridian_and_its_source() {
    let e = phase("mean_solar_midnight").build().unwrap_err();
    assert_eq!(e.code, Code::E0017);
    assert_eq!(e.context, "the anchor file needs a `meridian` for this phase kind");
    let mut p = phase("mean_solar_midnight");
    p.meridian = Some("Cilix".to_string());
    let e = p.build().unwrap_err();
    assert_eq!(e.code, Code::E0017);
    assert_eq!(
        e.context,
        "the anchor file needs a meridian_citation: a prime meridian is a convention and has a source"
    );
    let mut p = phase("mean_solar_midnight");
    p.meridian = Some("Cilix".to_string());
    p.meridian_citation = Some("IAU WGCCRE 2015".to_string());
    p.locator = Some("doi:10.0/x".to_string());
    assert_eq!(
        p.build().unwrap(),
        PhaseDefinition::MeanSolarMidnight {
            meridian: "Cilix".to_string(),
            citation: Citation { source: "IAU WGCCRE 2015".to_string(), locator: Some("doi:10.0/x".to_string()) },
        }
    );
}

#[test]
fn a_custom_event_needs_a_description_and_a_source() {
    let e = phase("custom").build().unwrap_err();
    assert_eq!(e.context, "the anchor file needs a `description` for a custom phase");
    let mut p = phase("custom");
    p.description = Some("first light at the crater rim".to_string());
    let e = p.build().unwrap_err();
    assert_eq!((e.code, e.context.as_str()), (Code::E0017, "the anchor file needs a citation for a custom phase"));
    let mut p = phase("custom");
    p.description = Some("first light at the crater rim".to_string());
    p.citation = Some("an observation log".to_string());
    assert_eq!(
        p.build().unwrap(),
        PhaseDefinition::Custom {
            description: "first light at the crater rim".to_string(),
            citation: Citation { source: "an observation log".to_string(), locator: None },
        }
    );
}

#[test]
fn an_unknown_phase_kind_is_refused() {
    let e = phase("noon").build().unwrap_err();
    assert_eq!((e.code, e.context.as_str()), (Code::E0018, UNKNOWN_KIND));
    assert_eq!(phase("Perihelion").build().unwrap_err().code, Code::E0018);
}

#[test]
fn a_malformed_anchor_file_says_what_it_lacks() {
    let e = malformed("has a tick that is not a decimal tick count");
    assert_eq!(e.code, Code::E0017);
    assert_eq!(e.context, "the anchor file has a tick that is not a decimal tick count");
}

#[test]
fn a_refused_anchor_file_is_told_why_by_code() {
    assert_eq!(parse_error("unknown field `tik`").code, Code::E0012);
    assert_eq!(parse_error("unknown field `tik`").context, UNKNOWN_KEY);
    assert_eq!(parse_error("missing field `revision`").context, MISSING_KEY);
    assert_eq!(parse_error("missing field `revision`").code, Code::E0060);
    assert_eq!(parse_error("trailing characters").context, NOT_HJSON);
    assert_eq!(parse_error("trailing characters").code, Code::E0017);
}
