use apogeetrak::batch::parse_batch;
use apogeetrak::elements::{resolve_year, OrbitalElementSet};
use apogeetrak::propagation::accepts_record;
use apogeetrak::satellite::Satellite;

const ISS_NAME: &str = "ISS (ZARYA)             ";
const ISS_1: &str = "1 25544U 98067A   20194.88612269 -.00002218  00000-0 -31515-4 0  9992";
const ISS_2: &str = "2 25544  51.6400 221.2784 0001413  89.1723 280.4612 15.50380000236009";
const NOAA_1: &str = "1 33591U 09005A   20194.51782528  .00000012  00000-0  31515-4 0  9991";
const NOAA_2: &str = "2 33591  99.1900 200.0000 0014000  90.0000 270.0000 14.12400000587008";

/// `line` with the bytes from `at` on replaced by `with`.
fn patched(line: &str, at: usize, with: &str) -> String {
    let mut bytes = line.as_bytes().to_vec();
    bytes[at..at + with.len()].copy_from_slice(with.as_bytes());
    String::from_utf8(bytes).unwrap()
}

#[test]
fn iss_record_parses() {
    let satellite = Satellite::parse(ISS_NAME, ISS_1, ISS_2).expect("a well-formed record");
    assert_eq!(satellite.name(), "ISS (ZARYA)");
    let elements = satellite.elements();
    assert_eq!(elements.name(), "ISS (ZARYA)");
    assert_eq!(elements.catalog_id(), 25544);
    assert_eq!(elements.intl_designator(), "98067A");
    assert_eq!(elements.launch_year(), 1998);
    assert_eq!(elements.launch_number(), 67);
    assert_eq!(elements.epoch_year(), 2020);
    assert_eq!(elements.epoch_day(), 19_488_612_269);
    assert_eq!(elements.inclination(), 516_400);
    assert_eq!(elements.mean_motion(), 1_550_380_000);
    assert_eq!(elements.line1().as_slice(), ISS_1.as_bytes());
    assert_eq!(elements.line2().as_slice(), ISS_2.as_bytes());
    assert!(satellite.orbit_path().is_none());
    assert_eq!(satellite.orbit_duration_ms(), 0);
}

#[test]
fn catalog_column_gives_catalog_id() {
    let set = OrbitalElementSet::from_record("X", ISS_1, ISS_2).unwrap();
    assert_eq!(set.catalog_id(), 25544);
    let set = OrbitalElementSet::from_record("X", &patched(ISS_1, 2, "  042"), ISS_2).unwrap();
    assert_eq!(set.catalog_id(), 42);
}

#[test]
fn short_line_is_rejected() {
    assert!(Satellite::parse(ISS_NAME, &ISS_1[..68], ISS_2).is_none());
    assert!(Satellite::parse(ISS_NAME, ISS_1, &ISS_2[..40]).is_none());
    assert!(Satellite::parse(ISS_NAME, "", "").is_none());
    assert!(OrbitalElementSet::from_record(ISS_NAME, &ISS_1[..68], ISS_2).is_none());
    assert!(OrbitalElementSet::from_record(ISS_NAME, ISS_1, &ISS_2[..68]).is_none());
}

#[test]
fn long_line_holds_elements_but_no_satellite() {
    let long = format!("{ISS_1} ");
    assert!(OrbitalElementSet::from_record(ISS_NAME, &long, ISS_2).is_some());
    assert!(Satellite::parse(ISS_NAME, &long, ISS_2).is_none());
    assert!(!accepts_record(long.as_bytes(), ISS_2.as_bytes()));
}

#[test]
fn two_digit_years_turn_at_57() {
    assert_eq!(resolve_year(57), 1957);
    assert_eq!(resolve_year(56), 2056);
    assert_eq!(resolve_year(0), 2000);
    assert_eq!(resolve_year(99), 1999);
    let set = OrbitalElementSet::from_record("X", &patched(ISS_1, 18, "57"), ISS_2).unwrap();
    assert_eq!(set.epoch_year(), 1957);
    let set = OrbitalElementSet::from_record("X", &patched(ISS_1, 18, "56"), ISS_2).unwrap();
    assert_eq!(set.epoch_year(), 2056);
    let set = OrbitalElementSet::from_record("X", &patched(ISS_1, 9, "57"), ISS_2).unwrap();
    assert_eq!(set.launch_year(), 1957);
    let set = OrbitalElementSet::from_record("X", &patched(ISS_1, 9, "56"), ISS_2).unwrap();
    assert_eq!(set.launch_year(), 2056);
}

#[test]
fn satellites_of_the_pivot_years() {
    let old = "1 25544U 57001A   57194.88612269 -.00002218  00000-0 -31515-4 0  9995";
    let satellite = Satellite::parse("X", old, ISS_2).unwrap();
    assert_eq!(satellite.elements().epoch_year(), 1957);
    assert_eq!(satellite.elements().launch_year(), 1957);
    let new = "1 25544U 56001A   56194.88612269 -.00002218  00000-0 -31515-4 0  9993";
    let satellite = Satellite::parse("X", new, ISS_2).unwrap();
    assert_eq!(satellite.elements().epoch_year(), 2056);
    assert_eq!(satellite.elements().launch_year(), 2056);
}

#[test]
fn bad_column_rejects_the_record() {
    let bad1 = |at: usize, with: &str| {
        OrbitalElementSet::from_record("X", &patched(ISS_1, at, with), ISS_2).is_none()
    };
    let bad2 = |at: usize, with: &str| {
        OrbitalElementSet::from_record("X", ISS_1, &patched(ISS_2, at, with)).is_none()
    };
    assert!(bad1(2, "2554A"), "catalog number");
    assert!(bad1(2, "     "), "empty catalog number");
    assert!(bad1(9, " 8"), "launch year is read as it stands");
    assert!(bad1(11, "0x7"), "launch number");
    assert!(bad1(18, "2 "), "epoch year is read as it stands");
    assert!(bad1(20, "194.8861226x"), "epoch day");
    assert!(bad1(20, "000.50000000"), "epoch day before the first day");
    assert!(bad1(20, "367.00000000"), "epoch day after the last day");
    assert!(bad2(8, " 51.64.0"), "inclination");
    assert!(bad2(52, "15.5e380000"), "mean motion");
    assert!(bad2(52, "99999999999"), "mean motion beyond the range");
}

#[test]
fn edge_columns_are_accepted() {
    let ok1 = |at: usize, with: &str| {
        OrbitalElementSet::from_record("X", &patched(ISS_1, at, with), ISS_2)
    };
    assert_eq!(ok1(20, "001.00000000").unwrap().epoch_day(), 100_000_000);
    assert_eq!(ok1(20, "366.99999999").unwrap().epoch_day(), 36_699_999_999);
    assert_eq!(ok1(20, "  12.5      ").unwrap().epoch_day(), 1_250_000_000);
    assert_eq!(ok1(9, "+7").unwrap().launch_year(), 2007);
    let set = OrbitalElementSet::from_record("X", ISS_1, &patched(ISS_2, 8, "-51.6400")).unwrap();
    assert_eq!(set.inclination(), -516_400);
    let set =
        OrbitalElementSet::from_record("X", ISS_1, &patched(ISS_2, 52, "-1.5       ")).unwrap();
    assert_eq!(set.mean_motion(), -150_000_000);
}

#[test]
fn names_lose_the_blanks_around_them() {
    let set = OrbitalElementSet::from_record("  \tNOAA 19 \r", NOAA_1, NOAA_2).unwrap();
    assert_eq!(set.name(), "NOAA 19");
    let set = OrbitalElementSet::from_record("", NOAA_1, NOAA_2).unwrap();
    assert_eq!(set.name(), "");
    let set = OrbitalElementSet::from_record("  Спутник-1  ", NOAA_1, NOAA_2).unwrap();
    assert_eq!(set.name(), "Спутник-1");
    assert_eq!(set.intl_designator(), "09005A");
    let set = OrbitalElementSet::from_record("X", &patched(NOAA_1, 9, "09005   "), NOAA_2)
        .unwrap();
    assert_eq!(set.intl_designator(), "09005");
}

#[test]
fn data_lines_are_single_byte_text() {
    let line = patched(ISS_1, 14, "é");
    assert_eq!(line.len(), 69);
    assert!(OrbitalElementSet::from_record("X", &line, ISS_2).is_none());
    assert!(Satellite::parse("X", &line, ISS_2).is_none());
    assert!(!accepts_record(line.as_bytes(), ISS_2.as_bytes()));
    assert!(!accepts_record(ISS_1.as_bytes(), line.as_bytes()));
    let mut bytes = ISS_1.as_bytes().to_vec();
    bytes[15] = 0xff;
    assert!(!accepts_record(&bytes, ISS_2.as_bytes()));
}

#[test]
fn propagator_refuses_a_wrong_checksum() {
    let line = patched(ISS_1, 68, "3");
    assert!(OrbitalElementSet::from_record("X", &line, ISS_2).is_some());
    assert!(!accepts_record(line.as_bytes(), ISS_2.as_bytes()));
    assert!(Satellite::parse("X", &line, ISS_2).is_none());
    assert!(accepts_record(ISS_1.as_bytes(), ISS_2.as_bytes()));
}

#[test]
fn checksum_column_must_be_a_digit() {
    for last in [" ", "/", ":", "A", "-"] {
        let line = patched(ISS_2, 68, last);
        assert!(!accepts_record(ISS_1.as_bytes(), line.as_bytes()), "{last:?}");
        assert!(!accepts_record(line.as_bytes(), ISS_2.as_bytes()), "{last:?}");
        assert!(Satellite::parse("X", ISS_1, &line).is_none(), "{last:?}");
    }
}

#[test]
fn propagator_refuses_lines_of_two_satellites() {
    assert!(OrbitalElementSet::from_record("X", ISS_1, NOAA_2).is_some());
    assert!(Satellite::parse("X", ISS_1, NOAA_2).is_none());
}

#[test]
fn propagator_refuses_a_standing_orbit() {
    // a mean motion of zero is a number, but no orbit
    let line = "2 25544  51.6400 221.2784 0001413  89.1723 280.4612 00.00000000236007";
    assert_eq!(line.len(), 69);
    let set = OrbitalElementSet::from_record("X", ISS_1, line).unwrap();
    assert_eq!(set.mean_motion(), 0);
    let elements = sgp4::Elements::from_tle(None, ISS_1.as_bytes(), line.as_bytes()).unwrap();
    assert!(sgp4::Constants::from_elements(&elements).is_err());
    assert!(!accepts_record(ISS_1.as_bytes(), line.as_bytes()));
    assert!(Satellite::parse("X", ISS_1, line).is_none());
}

#[test]
fn empty_text_gives_no_satellites() {
    assert!(parse_batch("").is_empty());
    assert!(parse_batch("\n\n\n").is_empty());
    assert!(parse_batch("only a name\n").is_empty());
}

#[test]
fn malformed_record_is_skipped() {
    let text = format!(
        "{ISS_NAME}\n{ISS_1}\n{ISS_2}\nBROKEN\n1 00000U\n2 00000\nNOAA 19\n{NOAA_1}\n{NOAA_2}\n"
    );
    let satellites = parse_batch(&text);
    assert_eq!(satellites.len(), 2);
    assert_eq!(satellites[0].name(), "ISS (ZARYA)");
    assert_eq!(satellites[1].name(), "NOAA 19");
    assert_eq!(satellites[1].elements().catalog_id(), 33591);
    assert!(satellites.iter().all(|s| s.orbit_path().is_none()));
}

#[test]
fn batch_takes_lines_three_at_a_time() {
    // a stray line shifts every group after it
    let text = format!("stray\n{ISS_NAME}\n{ISS_1}\n{ISS_2}\n");
    assert!(parse_batch(&text).is_empty());
    // lines left over at the end are passed over
    let text = format!("{ISS_NAME}\r\n{ISS_1}\r\n{ISS_2}\r\nNOAA 19\r\n{NOAA_1}");
    let satellites = parse_batch(&text);
    assert_eq!(satellites.len(), 1);
    assert_eq!(satellites[0].elements().catalog_id(), 25544);
}

#[test]
fn clone_keeps_the_satellite() {
    let mut satellite = Satellite::parse(ISS_NAME, ISS_1, ISS_2).unwrap();
    satellite.generate_orbit_path(8, 1_594_600_000_000);
    let copy = satellite.clone();
    assert_eq!(copy.name(), satellite.name());
    assert_eq!(copy.elements().mean_motion(), satellite.elements().mean_motion());
    assert_eq!(copy.orbit_duration_ms(), satellite.orbit_duration_ms());
    assert_eq!(
        copy.orbit_path().unwrap().points(),
        satellite.orbit_path().unwrap().points()
    );
    assert_eq!(copy.get_position(1_594_600_123_456), satellite.get_position(1_594_600_123_456));
}
