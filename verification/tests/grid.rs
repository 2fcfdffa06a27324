use arctern::grid::{format_nanos, GridParseError, GridSpec, KeepCount, RetentionInterval};
use arctern::retention::{SnapshotEntry, EARLIEST_INSTANT_NANOS};

fn d(s: &str) -> u128 {
    humantime::parse_duration(s).unwrap().as_nanos()
}

#[test]
fn parses_simple() {
    let g = GridSpec::parse("6x4h | 14x1d").unwrap();
    assert_eq!(g.0.len(), 20);
    assert_eq!(g.0[0].length, d("4h"));
    assert_eq!(g.0[0].keep_count, KeepCount::Exactly(1));
    assert_eq!(g.0[6].length, d("1d"));
}

#[test]
fn parses_keep_all() {
    let g = GridSpec::parse("4x15m(keep=all) | 24x1h | 3x1d").unwrap();
    assert_eq!(g.0.len(), 31);
    assert_eq!(g.0[0].keep_count, KeepCount::All);
    assert_eq!(g.0[4].length, d("1h"));
    assert_eq!(g.0[4].keep_count, KeepCount::Exactly(1));
}

#[test]
fn parses_keep_n() {
    let g = GridSpec::parse("3x1h(keep=2)").unwrap();
    assert_eq!(g.0[0].keep_count, KeepCount::Exactly(2));
}

#[test]
fn rejects_zero_count() {
    assert!(matches!(GridSpec::parse("0x4h"), Err(GridParseError::Term { .. })));
}

#[test]
fn rejects_bad_duration() {
    assert!(matches!(GridSpec::parse("6x4z"), Err(GridParseError::Term { .. })));
}

#[test]
fn rejects_descending_without_keep_all() {
    assert!(matches!(GridSpec::parse("1x4h | 1x1m"), Err(GridParseError::NonMonotonic { .. })));
}

#[test]
fn permits_descending_after_keep_all() {
    GridSpec::parse("2x1h(keep=all) | 1x10m(keep=all) | 1x1d").unwrap();
}

#[test]
fn empty_string_is_error() {
    assert!(matches!(GridSpec::parse(""), Err(GridParseError::Empty)));
    assert!(matches!(GridSpec::parse("   "), Err(GridParseError::Empty)));
}

#[test]
fn rejects_unknown_modifier() {
    assert!(GridSpec::parse("1x1h(foo=bar)").is_err());
}

#[test]
fn a_term_error_names_the_trimmed_term_and_its_index() {
    match GridSpec::parse("1x1h |  2xq ") {
        Err(GridParseError::Term { term_index, term, .. }) => {
            assert_eq!(term_index, 1);
            assert_eq!(term, "2xq");
        }
        other => panic!("got {other:?}"),
    }
}

#[test]
fn a_monotony_error_carries_both_lengths() {
    match GridSpec::parse("1x4h | 1x1m") {
        Err(GridParseError::NonMonotonic { prev, next }) => {
            assert_eq!(prev, d("4h"));
            assert_eq!(next, d("1m"));
        }
        other => panic!("got {other:?}"),
    }
}

#[test]
fn durations_format_like_humantime() {
    assert_eq!(format_nanos(d("1h")), "1h");
    assert_eq!(format_nanos(d("1d 2h")), "1day 2h");
    assert_eq!(format_nanos(0), "0s");
}

#[test]
fn the_earliest_instant_is_the_time_crates() {
    let earliest = time::PrimitiveDateTime::MIN.assume_utc().unix_timestamp_nanos();
    assert_eq!(EARLIEST_INSTANT_NANOS, earliest);
}

#[test]
fn a_grid_can_be_built_by_hand() {
    let g = GridSpec(vec![RetentionInterval { length: 3_600_000_000_000, keep_count: KeepCount::Exactly(1) }]);
    let (k, dd) = g.fit(&[
        SnapshotEntry { name: "a".into(), creation: 3_600_000_000_000 },
        SnapshotEntry { name: "b".into(), creation: 0 },
    ]);
    assert_eq!(k, vec![0]);
    assert_eq!(dd, vec![1]);
}

#[test]
fn number_errors_carry_the_standard_library_text() {
    match GridSpec::parse("3x1h(keep=abc)") {
        Err(GridParseError::Term { message, .. }) => {
            assert_eq!(message, "keep count \"abc\": invalid digit found in string")
        }
        other => panic!("got {other:?}"),
    }
    match GridSpec::parse("99999999999x1h") {
        Err(GridParseError::Term { message, .. }) => assert_eq!(message, "count: number too large to fit in target type"),
        other => panic!("got {other:?}"),
    }
}

#[test]
fn grid_errors_read_as_sentences() {
    assert_eq!(
        GridSpec::parse("1x4h | 1x1m").unwrap_err().to_string(),
        "interval lengths must be monotonically non-decreasing (saw 14400s then 60s); a `keep=all` prefix run is the only exception"
    );
    assert_eq!(GridSpec::parse(" ").unwrap_err().to_string(), "grid expression must contain at least one term");
    let e = GridSpec::parse("1x1h | 2xq").unwrap_err().to_string();
    assert!(e.starts_with("term 1 (\"2xq\"): "), "got: {e}");
}

#[test]
fn a_count_in_other_decimal_digits_is_read_as_a_number_and_refused() {
    match GridSpec::parse("\u{663}x1h") {
        Err(GridParseError::Term { message, .. }) => assert_eq!(message, "count: invalid digit found in string"),
        other => panic!("got {other:?}"),
    }
}

#[test]
fn a_duration_with_too_many_digits_is_refused_not_a_panic() {
    let e = GridSpec::parse("1x18446744073709551615s 1000ms").unwrap_err();
    assert_eq!(
        e.to_string(),
        "term 0 (\"1x18446744073709551615s 1000ms\"): duration \"18446744073709551615s 1000ms\": more than 11 digits"
    );
    assert!(GridSpec::parse("1x99999999999s").is_ok());
    assert!(GridSpec::parse("1x100000000000s").is_err());
    assert!(GridSpec::parse("2x1h 30m | 4x1d").is_ok());
}
