// Markers for the integration suites that need a live network setup.
use rsudp_rust::parser::nslc;

#[test]
fn test_streamer_integration_placeholder() {
    assert!(true);
}

#[test]
fn test_placeholder() {
    assert_eq!(1, 1);
}

#[test]
fn nslc_joins_with_dots() {
    assert_eq!(nslc("AM", "R6E01", "00", "EHZ"), "AM.R6E01.00.EHZ");
    assert_eq!(nslc("", "", "", ""), "...");
}
