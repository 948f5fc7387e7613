use build_time::{
    build_time_local, build_time_utc, build_timestamp_local, build_timestamp_utc,
    canonical_pattern, resolve_build_time, Instant, MAX_EPOCH_SECS, MIN_EPOCH_SECS,
};
use build_time::civil::civil_from_instant;
use build_time::render::{render_rfc3339, render_with_pattern, PatternError};
use build_time::resolve::ResolveError;
use chrono::DateTime;

#[test]
fn call_twice() {
    let instant = resolve_build_time(None).unwrap();
    let utc = build_time_utc(&instant, None).unwrap();
    let local = build_time_local(&instant, None).unwrap();

    let utc1 = build_time_utc(&instant, None).unwrap();
    let local1 = build_time_local(&instant, None).unwrap();

    assert_eq!(utc, utc1);
    assert_eq!(local, local1);
}

#[test]
fn local_utc_match() {
    let instant = resolve_build_time(None).unwrap();
    let utc = DateTime::parse_from_rfc3339(&build_time_utc(&instant, None).unwrap()).unwrap();
    let local = DateTime::parse_from_rfc3339(&build_time_local(&instant, None).unwrap()).unwrap();

    assert_eq!(utc, local);
}

#[test]
fn strftime_format() {
    let instant = resolve_build_time(None).unwrap();
    let utc_rfc3339 = build_time_utc(&instant, None).unwrap();
    let local_rfc3339 = build_time_local(&instant, None).unwrap();

    let utc_formatted = build_time_utc(&instant, Some("%Y-%m-%dT%H:%M:%S%.f%:z")).unwrap();
    let local_formatted = build_time_local(&instant, Some("%Y-%m-%dT%H:%M:%S%.f%:z")).unwrap();

    assert_eq!(utc_rfc3339, utc_formatted);
    assert_eq!(local_rfc3339, local_formatted);
}

#[test]
fn no_argument_forms_match_default() {
    let instant = resolve_build_time(None).unwrap();
    assert_eq!(build_timestamp_utc(&instant), build_time_utc(&instant, None).unwrap());
    assert_eq!(build_timestamp_local(&instant), build_time_local(&instant, None).unwrap());
}

#[test]
fn canonical_pattern_is_rfc3339() {
    let instant = Instant::from_epoch(1622271350, 418437046).unwrap();
    let default = build_time_utc(&instant, None).unwrap();
    let patterned = build_time_utc(&instant, Some(canonical_pattern())).unwrap();
    assert_eq!(default, patterned);
}

#[test]
fn override_zero_renders_epoch() {
    let instant = resolve_build_time(Some("0")).unwrap();
    assert_eq!(instant.secs, 0);
    assert_eq!(instant.nanos, 0);
    let utc = build_time_utc(&instant, None).unwrap();
    assert_eq!(utc, "1970-01-01T00:00:00+00:00");
}

#[test]
fn override_signs() {
    let plus = resolve_build_time(Some("+86400")).unwrap();
    assert_eq!(build_time_utc(&plus, None).unwrap(), "1970-01-02T00:00:00+00:00");
    let minus = resolve_build_time(Some("-86400")).unwrap();
    assert_eq!(build_time_utc(&minus, None).unwrap(), "1969-12-31T00:00:00+00:00");
}

#[test]
fn override_rejects_non_integer() {
    assert_eq!(resolve_build_time(Some("abc")), Err(ResolveError::NotAnInteger));
    assert_eq!(resolve_build_time(Some("")), Err(ResolveError::NotAnInteger));
    assert_eq!(resolve_build_time(Some("12a3")), Err(ResolveError::NotAnInteger));
    assert_eq!(resolve_build_time(Some("-")), Err(ResolveError::NotAnInteger));
    assert_eq!(resolve_build_time(Some("+")), Err(ResolveError::NotAnInteger));
    assert_eq!(resolve_build_time(Some("1.5")), Err(ResolveError::NotAnInteger));
    assert_eq!(resolve_build_time(Some(" 1")), Err(ResolveError::NotAnInteger));
}

#[test]
fn override_rejects_out_of_range() {
    assert_eq!(resolve_build_time(Some("253402300800")), Err(ResolveError::OutOfRange));
    assert_eq!(resolve_build_time(Some("-62167219201")), Err(ResolveError::OutOfRange));
    assert_eq!(
        resolve_build_time(Some("999999999999999999999999")),
        Err(ResolveError::OutOfRange)
    );
    assert!(resolve_build_time(Some("253402300799")).is_ok());
    assert!(resolve_build_time(Some("-62167219200")).is_ok());
}

#[test]
fn rendered_example_with_nanoseconds() {
    let instant = Instant::from_epoch(1622271350, 418437046).unwrap();
    let utc = build_time_utc(&instant, None).unwrap();
    assert_eq!(utc, "2021-05-29T06:55:50.418437046+00:00");
}

#[test]
fn fraction_uses_shortest_form() {
    let millis = Instant::from_epoch(0, 418000000).unwrap();
    assert_eq!(build_time_utc(&millis, None).unwrap(), "1970-01-01T00:00:00.418+00:00");
    let micros = Instant::from_epoch(0, 418437000).unwrap();
    assert_eq!(build_time_utc(&micros, None).unwrap(), "1970-01-01T00:00:00.418437+00:00");
    let nanos = Instant::from_epoch(0, 1).unwrap();
    assert_eq!(build_time_utc(&nanos, None).unwrap(), "1970-01-01T00:00:00.000000001+00:00");
    assert_eq!(build_time_utc(&millis, Some("s%.f")).unwrap(), "s.418");
}

#[test]
fn pattern_directives() {
    let instant = Instant::from_epoch(1622271350, 0).unwrap();
    assert_eq!(
        build_time_utc(&instant, Some("%d/%m/%Y %H:%M:%S")).unwrap(),
        "29/05/2021 06:55:50"
    );
    assert_eq!(build_time_utc(&instant, Some("%%")).unwrap(), "%");
    assert_eq!(build_time_utc(&instant, Some("%z")).unwrap(), "+0000");
    assert_eq!(build_time_utc(&instant, Some("%f")).unwrap(), "000000000");
    assert_eq!(build_time_utc(&instant, Some("built at é%H")).unwrap(), "built at é06");
    assert_eq!(build_time_utc(&instant, Some("")).unwrap(), "");
    assert_eq!(build_time_utc(&instant, Some("%S%.f")).unwrap(), "50");
}

#[test]
fn pattern_rejects_invalid_directives() {
    let instant = Instant::from_epoch(0, 0).unwrap();
    assert_eq!(
        build_time_utc(&instant, Some("%q")),
        Err(PatternError::InvalidDirective)
    );
    assert_eq!(build_time_utc(&instant, Some("%")), Err(PatternError::InvalidDirective));
    assert_eq!(build_time_utc(&instant, Some("%.")), Err(PatternError::InvalidDirective));
    assert_eq!(build_time_utc(&instant, Some("%.x")), Err(PatternError::InvalidDirective));
    assert_eq!(build_time_utc(&instant, Some("%:")), Err(PatternError::InvalidDirective));
    assert_eq!(build_time_utc(&instant, Some("%:y")), Err(PatternError::InvalidDirective));
    assert_eq!(build_time_utc(&instant, Some("100%")), Err(PatternError::InvalidDirective));
}

#[test]
fn supported_range_boundaries() {
    let max = Instant::from_epoch(MAX_EPOCH_SECS, 0).unwrap();
    assert_eq!(build_time_utc(&max, None).unwrap(), "9999-12-31T23:59:59+00:00");
    let min = Instant::from_epoch(MIN_EPOCH_SECS, 0).unwrap();
    assert_eq!(build_time_utc(&min, None).unwrap(), "0000-01-01T00:00:00+00:00");
    assert!(Instant::from_epoch(MAX_EPOCH_SECS + 1, 0).is_none());
    assert!(Instant::from_epoch(MIN_EPOCH_SECS - 1, 0).is_none());
    assert!(Instant::from_epoch(0, 1000000000).is_none());
}

#[test]
fn leap_year_rules() {
    let y2000 = Instant::from_epoch(951782400, 0).unwrap();
    assert_eq!(build_time_utc(&y2000, None).unwrap(), "2000-02-29T00:00:00+00:00");
    let y2024 = Instant::from_epoch(1709164800, 0).unwrap();
    assert_eq!(build_time_utc(&y2024, None).unwrap(), "2024-02-29T00:00:00+00:00");
    let y1900 = Instant::from_epoch(-2203891200, 0).unwrap();
    assert_eq!(build_time_utc(&y1900, None).unwrap(), "1900-03-01T00:00:00+00:00");
}

#[test]
fn offsets_shift_and_render() {
    let west = civil_from_instant(0, 0, -3600);
    assert_eq!(render_rfc3339(&west), "1969-12-31T23:00:00-01:00");
    let east = civil_from_instant(0, 0, 19800);
    assert_eq!(render_rfc3339(&east), "1970-01-01T05:30:00+05:30");
}

#[test]
fn offset_seconds_round_to_minutes() {
    let fine = civil_from_instant(0, 0, 5430);
    assert_eq!(render_rfc3339(&fine), "1970-01-01T01:30:30+01:31");
    let tiny = civil_from_instant(0, 0, 29);
    assert_eq!(render_rfc3339(&tiny), "1970-01-01T00:00:29+00:00");
}

#[test]
fn pattern_renderer_matches_chrono() {
    let c = civil_from_instant(1622271350, 418437046, 0);
    let ours = render_with_pattern(&c, "%Y-%m-%d %H:%M:%S%.f %:z %z").unwrap();
    let theirs = DateTime::from_timestamp(1622271350, 418437046)
        .unwrap()
        .format("%Y-%m-%d %H:%M:%S%.f %:z %z")
        .to_string();
    assert_eq!(ours, theirs);
}
