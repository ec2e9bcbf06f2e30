use ucal::cosmo::{refuse_negative_redshift, NEGATIVE_REDSHIFT};
use ucal::error::Code;

#[test]
fn a_negative_redshift_is_refused_as_negative() {
    for z in ["-1", "  -0.5", "\t-1090..1110"] {
        let e = refuse_negative_redshift(z).unwrap_err();
        assert_eq!(e.code, Code::E0018);
        assert_eq!(e.context, NEGATIVE_REDSHIFT);
    }
}

#[test]
fn other_redshifts_go_on_to_the_reader() {
    for z in ["0", "0.5", " 1100", "1090..1110", "", "x-1"] {
        assert!(refuse_negative_redshift(z).is_ok(), "{z}");
    }
}
