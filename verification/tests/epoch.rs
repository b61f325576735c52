use apogeetrak::elements::OrbitalElementSet;
use apogeetrak::epoch::{epoch_unix_ms, minutes_between, span_between, MinuteSpan};
use apogeetrak::satellite::Satellite;

const ISS_1: &str = "1 25544U 98067A   20194.88612269 -.00002218  00000-0 -31515-4 0  9992";
const ISS_2: &str = "2 25544  51.6400 221.2784 0001413  89.1723 280.4612 15.50380000236009";

/// Midnight of the first of January, as chrono has it.
fn new_year(year: i32) -> i64 {
    chrono::NaiveDate::from_ymd_opt(year, 1, 1)
        .unwrap()
        .and_hms_opt(0, 0, 0)
        .unwrap()
        .and_utc()
        .timestamp_millis()
}

#[test]
fn epoch_of_the_first_day_is_new_year() {
    assert_eq!(epoch_unix_ms(1970, 100_000_000), Some(0));
    assert_eq!(epoch_unix_ms(1971, 100_000_000), Some(365 * 86_400_000));
    assert_eq!(epoch_unix_ms(1973, 100_000_000), Some(1096 * 86_400_000));
    assert_eq!(epoch_unix_ms(1969, 100_000_000), Some(-365 * 86_400_000));
    assert_eq!(epoch_unix_ms(2001, 100_000_000), Some(978_307_200_000));
    for year in [1, 4, 100, 400, 1582, 1900, 1957, 1999, 2000, 2020, 2056, 2100, 9999, 262_142] {
        assert_eq!(epoch_unix_ms(year, 100_000_000), Some(new_year(year)), "{year}");
    }
}

#[test]
fn epoch_counts_whole_days_and_whole_seconds() {
    assert_eq!(epoch_unix_ms(1970, 200_000_000), Some(86_400_000));
    assert_eq!(epoch_unix_ms(1970, 150_000_000), Some(43_200_000));
    assert_eq!(epoch_unix_ms(1970, 100_001_157), Some(0));
    assert_eq!(epoch_unix_ms(1970, 100_001_158), Some(1_000));
    assert_eq!(epoch_unix_ms(1970, 199_999_999), Some(86_399_000));
    assert_eq!(epoch_unix_ms(2020, 19_488_612_269), Some(1_594_588_561_000));
    // day 366 of a year without one is the first of the next
    assert_eq!(epoch_unix_ms(2019, 36_600_000_000), Some(new_year(2020)));
    assert_eq!(epoch_unix_ms(2020, 36_600_000_000), Some(new_year(2021) - 86_400_000));
}

#[test]
fn epoch_needs_a_year_and_a_day() {
    assert_eq!(epoch_unix_ms(0, 100_000_000), None);
    assert_eq!(epoch_unix_ms(-1, 100_000_000), None);
    assert_eq!(epoch_unix_ms(262_143, 100_000_000), None);
    assert_eq!(epoch_unix_ms(i32::MAX, 100_000_000), None);
    assert_eq!(epoch_unix_ms(i32::MIN, 100_000_000), None);
    assert_eq!(epoch_unix_ms(2020, 99_999_999), None);
    assert_eq!(epoch_unix_ms(2020, 0), None);
    assert_eq!(epoch_unix_ms(2020, -100_000_000), None);
    assert_eq!(epoch_unix_ms(2020, 36_700_000_000), None);
    assert_eq!(epoch_unix_ms(2020, i64::MAX), None);
    assert!(epoch_unix_ms(2020, 36_699_999_999).is_some());
    assert!(epoch_unix_ms(1, 100_000_000).is_some());
    // the last day of the calendar, and the day after it
    assert_eq!(epoch_unix_ms(262_142, 36_599_999_999), Some(8_210_266_876_799_000));
    assert_eq!(epoch_unix_ms(262_142, 36_600_000_000), None);
    assert_eq!(epoch_unix_ms(262_142, 36_699_999_999), None);
    assert!(epoch_unix_ms(262_141, 36_699_999_999).is_some());
}

#[test]
fn spans_keep_the_part_of_a_minute() {
    let span = |minutes: i64, millis: u16| MinuteSpan { minutes, millis };
    assert_eq!(span_between(0, 0), span(0, 0));
    assert_eq!(span_between(0, 59_999), span(0, 59_999));
    assert_eq!(span_between(0, 60_000), span(1, 0));
    assert_eq!(span_between(0, 90_000), span(1, 30_000));
    assert_eq!(span_between(0, -1), span(-1, 59_999));
    assert_eq!(span_between(0, -30_000), span(-1, 30_000));
    assert_eq!(span_between(0, -60_000), span(-1, 0));
    assert_eq!(span_between(0, -60_001), span(-2, 59_999));
    assert_eq!(span_between(181_000, 1_000), span(-3, 0));
    assert_eq!(span_between(i64::MIN, i64::MAX), span(307_445_734_561_825, 51_615));
    assert_eq!(span_between(i64::MAX, i64::MIN), span(-307_445_734_561_826, 8_385));
}

#[test]
fn spans_measure_differences_of_instants() {
    for (from, a, b) in [(0, 5, 100_000), (77, -250_000, -1), (1_594_588_561_000, 0, i64::MAX)] {
        let to_a = span_between(from, a);
        let to_b = span_between(from, b);
        let millis = |s: MinuteSpan| s.minutes as i128 * 60_000 + s.millis as i128;
        assert_eq!(millis(to_b) - millis(to_a), b as i128 - a as i128);
        assert_eq!(to_a.minutes < 0, a < from);
        assert!(to_a.millis < 60_000 && to_b.millis < 60_000);
    }
}

#[test]
fn minutes_are_whole_and_towards_zero() {
    assert_eq!(minutes_between(0, 0), 0);
    assert_eq!(minutes_between(0, 59_999), 0);
    assert_eq!(minutes_between(0, 60_000), 1);
    assert_eq!(minutes_between(0, -59_999), 0);
    assert_eq!(minutes_between(0, -60_000), -1);
    assert_eq!(minutes_between(0, -119_999), -1);
    assert_eq!(minutes_between(1_000, 181_000), 3);
    assert_eq!(minutes_between(181_000, 1_000), -3);
    assert_eq!(minutes_between(i64::MIN, i64::MAX), 307_445_734_561_825);
    assert_eq!(minutes_between(i64::MAX, i64::MIN), -307_445_734_561_825);
}

#[test]
fn minutes_agree_with_chrono() {
    for (from, to) in [(0, 1), (5, -7_000_000), (1_594_588_561_000, 1_735_732_800_123)] {
        let a = chrono::DateTime::from_timestamp_millis(from).unwrap();
        let b = chrono::DateTime::from_timestamp_millis(to).unwrap();
        assert_eq!(minutes_between(from, to), b.signed_duration_since(a).num_minutes());
    }
}

#[test]
fn satellite_counts_from_its_epoch() {
    let satellite = Satellite::parse("ISS", ISS_1, ISS_2).unwrap();
    let epoch = 1_594_588_561_000;
    assert_eq!(satellite.elements().epoch_unix_ms(), epoch);
    let span = |minutes: i64, millis: u16| Some(MinuteSpan { minutes, millis });
    assert_eq!(satellite.minutes_since_epoch(epoch), span(0, 0));
    assert_eq!(satellite.minutes_since_epoch(epoch + 90 * 60_000 + 59_999), span(90, 59_999));
    assert_eq!(satellite.minutes_since_epoch(epoch - 30_000), span(-1, 30_000));
    assert_eq!(satellite.minutes_since_epoch(epoch - 90 * 60_000 - 1), span(-91, 59_999));
    assert_eq!(satellite.elements().minutes_since_epoch(0), span(-26_576_477, 59_000));
    let whole = |t: i64| satellite.elements().calculate_minutes_since_epoch(t);
    assert_eq!(whole(epoch), Some(0));
    assert_eq!(whole(epoch + 90 * 60_000 + 59_999), Some(90));
    assert_eq!(whole(epoch - 30_000), Some(0));
    assert_eq!(whole(epoch - 90 * 60_000 - 1), Some(-90));
    assert_eq!(whole(0), Some(-26_576_476));
    // the propagator's own epoch is the same instant but for the rest of a second
    let elements = sgp4::Elements::from_tle(None, ISS_1.as_bytes(), ISS_2.as_bytes()).unwrap();
    let theirs = elements.datetime.and_utc().timestamp_millis();
    assert!((theirs - epoch).abs() < 1_000, "{theirs}");
}

#[test]
fn element_set_alone_has_an_epoch() {
    let set = OrbitalElementSet::from_record("X", ISS_1, ISS_2).unwrap();
    assert_eq!(set.epoch_unix_ms(), 1_594_588_561_000);
    assert_eq!(
        set.minutes_since_epoch(1_594_588_561_000 + 60_000),
        Some(MinuteSpan { minutes: 1, millis: 0 })
    );
    assert_eq!(set.calculate_minutes_since_epoch(1_594_588_561_000 + 60_000), Some(1));
}
