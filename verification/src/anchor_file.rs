//! The parts of an anchor file's loading that are decided by the file alone.
//!
//! An anchor's phase is a physical event of the body, and the file says which:
//! a mean solar midnight at a named meridian, an equinox, perihelion, or a
//! custom event described in words. The named kinds cannot express a foreign
//! reference at all; a meridian and a custom event each need a source. This
//! module checks those obligations and adds none of its own.
use vstd::prelude::*;

use crate::error::{Code, TimeError};
use crate::text::{contains_seq, contains_str, push_str, str_eq};

verus! {

broadcast use vstd::string::group_string_axioms;

/// A source: the reference, and a DOI, bibcode or URL where one exists.
#[derive(Clone, PartialEq, Eq, Debug)]
pub struct Citation {
    /// The full reference.
    pub source: String,
    /// Where to find it, when there is such a place.
    pub locator: Option<String>,
}

/// How an anchor's phase is defined.
#[derive(Clone, PartialEq, Eq, Debug)]
pub enum PhaseDefinition {
    /// Mean solar midnight at a named prime meridian, and where that meridian
    /// is defined.
    MeanSolarMidnight {
        /// The meridian's name.
        meridian: String,
        /// The meridian's definition: a prime meridian is a convention.
        citation: Citation,
    },
    /// The northward equinox.
    NorthwardEquinox,
    /// The southward equinox.
    SouthwardEquinox,
    /// Perihelion.
    Perihelion,
    /// An event of the body described in words, with its source.
    Custom {
        /// What the event is.
        description: String,
        /// Where the definition comes from.
        citation: Citation,
    },
}

/// The `phase:` block of an anchor file, as written.
pub struct PhaseFile {
    /// `mean_solar_midnight`, `northward_equinox`, `southward_equinox`,
    /// `perihelion`, or `custom`.
    pub kind: String,
    /// The meridian, for `mean_solar_midnight`.
    pub meridian: Option<String>,
    /// Where the meridian's definition comes from.
    pub meridian_citation: Option<String>,
    /// What the event is, for `custom`.
    pub description: Option<String>,
    /// Where a custom definition comes from.
    pub citation: Option<String>,
    /// DOI, bibcode or URL of whichever source the kind needs.
    pub locator: Option<String>,
}

/// A malformed anchor file, saying what it lacks.
pub fn malformed(what: &str) -> (e: TimeError)
    ensures
        e.code == Code::E0017,
        e.context@ == "the anchor file "@ + what@,
{
    let mut s = String::new();
    push_str(&mut s, "the anchor file ");
    push_str(&mut s, what);
    TimeError { code: Code::E0017, context: s }
}

/// What a phase of unknown kind is told.
pub const UNKNOWN_KIND: &'static str = "a phase kind must be one of `mean_solar_midnight`, `northward_equinox`, `southward_equinox`, `perihelion` or `custom`";

/// What a meridian phase without its meridian lacks.
pub const NEEDS_MERIDIAN: &'static str = "needs a `meridian` for this phase kind";

/// What a meridian phase without the meridian's source lacks.
pub const NEEDS_MERIDIAN_CITATION: &'static str = "needs a meridian_citation: a prime meridian is a convention and has a source";

/// What a custom phase without its description lacks.
pub const NEEDS_DESCRIPTION: &'static str = "needs a `description` for a custom phase";

/// What a custom phase without its source lacks.
pub const NEEDS_CITATION: &'static str = "needs a citation for a custom phase";

/// The citation an optional source makes, or the diagnostic for its absence.
fn cite(c: Option<String>, l: Option<String>, what: &str) -> (r: Result<Citation, TimeError>)
    ensures
        c is None ==> (r matches Err(e) && e.code == Code::E0017 && e.context@ == "the anchor file "@ + what@),
        c matches Some(src) ==> r == Ok::<Citation, TimeError>(Citation { source: src, locator: l }),
{
    match c {
        Some(source) => Ok(Citation { source, locator: l }),
        None => Err(malformed(what)),
    }
}

impl PhaseFile {
    /// The phase this block declares, or the obligation it fails: an
    /// unknown kind is `E0018`; a meridian phase without its meridian or the
    /// meridian's source, and a custom phase without its description or
    /// source, are malformed files, `E0017`.
    pub fn build(self) -> (r: Result<PhaseDefinition, TimeError>)
        ensures
            self.kind@ == "mean_solar_midnight"@ ==> match (self.meridian, self.meridian_citation) {
                (None, _) => r matches Err(e) && e.code == Code::E0017 && e.context@ == "the anchor file "@
                    + NEEDS_MERIDIAN@,
                (Some(_), None) => r matches Err(e) && e.code == Code::E0017 && e.context@
                    == "the anchor file "@ + NEEDS_MERIDIAN_CITATION@,
                (Some(m), Some(c)) => r == Ok::<PhaseDefinition, TimeError>(
                    PhaseDefinition::MeanSolarMidnight {
                        meridian: m,
                        citation: Citation { source: c, locator: self.locator },
                    },
                ),
            },
            self.kind@ == "northward_equinox"@ ==> r == Ok::<PhaseDefinition, TimeError>(
                PhaseDefinition::NorthwardEquinox,
            ),
            self.kind@ == "southward_equinox"@ ==> r == Ok::<PhaseDefinition, TimeError>(
                PhaseDefinition::SouthwardEquinox,
            ),
            self.kind@ == "perihelion"@ ==> r == Ok::<PhaseDefinition, TimeError>(PhaseDefinition::Perihelion),
            self.kind@ == "custom"@ ==> match (self.description, self.citation) {
                (None, _) => r matches Err(e) && e.code == Code::E0017 && e.context@ == "the anchor file "@
                    + NEEDS_DESCRIPTION@,
                (Some(_), None) => r matches Err(e) && e.code == Code::E0017 && e.context@
                    == "the anchor file "@ + NEEDS_CITATION@,
                (Some(d), Some(c)) => r == Ok::<PhaseDefinition, TimeError>(
                    PhaseDefinition::Custom {
                        description: d,
                        citation: Citation { source: c, locator: self.locator },
                    },
                ),
            },
            !(self.kind@ == "mean_solar_midnight"@ || self.kind@ == "northward_equinox"@ || self.kind@
                == "southward_equinox"@ || self.kind@ == "perihelion"@ || self.kind@ == "custom"@) ==> (r matches Err(
                e,
            ) && e.code == Code::E0018 && e.context@ == UNKNOWN_KIND@),
    {
        proof {
            reveal_strlit("mean_solar_midnight");
            reveal_strlit("northward_equinox");
            reveal_strlit("southward_equinox");
            reveal_strlit("perihelion");
            reveal_strlit("custom");
            assert("mean_solar_midnight"@.len() == 19);
            assert("northward_equinox"@.len() == 17);
            assert("southward_equinox"@.len() == 17);
            assert("perihelion"@.len() == 10);
            assert("custom"@.len() == 6);
            assert("northward_equinox"@[0] != "southward_equinox"@[0]);
        }
        let k = self.kind.as_str();
        if str_eq(k, "mean_solar_midnight") {
            let name = match self.meridian {
                Some(n) => n,
                None => {
                    return Err(malformed(NEEDS_MERIDIAN));
                },
            };
            match cite(self.meridian_citation, self.locator, NEEDS_MERIDIAN_CITATION) {
                Ok(citation) => Ok(PhaseDefinition::MeanSolarMidnight { meridian: name, citation }),
                Err(e) => Err(e),
            }
        } else if str_eq(k, "northward_equinox") {
            Ok(PhaseDefinition::NorthwardEquinox)
        } else if str_eq(k, "southward_equinox") {
            Ok(PhaseDefinition::SouthwardEquinox)
        } else if str_eq(k, "perihelion") {
            Ok(PhaseDefinition::Perihelion)
        } else if str_eq(k, "custom") {
            let description = match self.description {
                Some(d) => d,
                None => {
                    return Err(malformed(NEEDS_DESCRIPTION));
                },
            };
            match cite(self.citation, self.locator, NEEDS_CITATION) {
                Ok(citation) => Ok(PhaseDefinition::Custom { description, citation }),
                Err(e) => Err(e),
            }
        } else {
            Err(TimeError::with_context(Code::E0018, UNKNOWN_KIND))
        }
    }
}

/// What an anchor file that names a key outside the format is told.
pub const UNKNOWN_KEY: &'static str = "unknown key in the anchor file; the accepted keys are calendar_id, tick, window_lo, window_hi, phase, determination and revision";

/// What an anchor file that leaves out a required key is told.
pub const MISSING_KEY: &'static str = "an anchor file must give calendar_id, tick, window_lo, window_hi, revision, a phase and a determination; the determination needs a method, a citation and an uncertainty_note, because Rule J.3 makes all three obligations";

/// What an anchor file that is not HJSON at all is told.
pub const NOT_HJSON: &'static str = "the anchor file is not well-formed HJSON";

/// The diagnostic for an anchor file the HJSON reader refused, from the
/// reader's message: an unknown key is `E0012`, a missing one `E0060`, and
/// anything else a malformed file, `E0017`.
pub fn parse_error(msg: &str) -> (e: TimeError)
    ensures
        contains_seq(msg@, "unknown field"@) ==> e.code == Code::E0012 && e.context@ == UNKNOWN_KEY@,
        !contains_seq(msg@, "unknown field"@) && contains_seq(msg@, "missing field"@) ==> e.code == Code::E0060
            && e.context@ == MISSING_KEY@,
        !contains_seq(msg@, "unknown field"@) && !contains_seq(msg@, "missing field"@) ==> e.code
            == Code::E0017 && e.context@ == NOT_HJSON@,
{
    if contains_str(msg, "unknown field") {
        TimeError::with_context(Code::E0012, UNKNOWN_KEY)
    } else if contains_str(msg, "missing field") {
        TimeError::with_context(Code::E0060, MISSING_KEY)
    } else {
        TimeError::with_context(Code::E0017, NOT_HJSON)
    }
}

} // verus!
