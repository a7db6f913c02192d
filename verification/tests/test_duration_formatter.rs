use susume::format::duration::Duration;
use susume::format::duration::DurationFormatter;

/// The duration of `secs` seconds, as `std` rounds it.
fn duration_of(secs: f64) -> Duration {
    let d = std::time::Duration::from_secs_f64(secs);
    Duration::new(d.as_secs(), d.subsec_nanos())
}

/// Formats a duration with the given template.
fn fmt(template: &str, secs: f64) -> String {
    let df = DurationFormatter::new(template).expect("failed to parse template");
    df.format_into(duration_of(secs), false)
}

/// Formats a whole number of seconds in human form.
fn display(secs: u64) -> String {
    Duration::from_secs(secs).to_string()
}

#[test]
fn test_duration_display_zero() {
    assert_eq!(display(0), "0s");
}

#[test]
fn test_duration_display_seconds_only() {
    assert_eq!(display(45), "45s");
}

#[test]
fn test_duration_display_minutes_seconds() {
    assert_eq!(display(125), "2m 5s");
}

#[test]
fn test_duration_display_hours_minutes_seconds() {
    assert_eq!(display(3661), "1h 1m 1s");
}

#[test]
fn test_duration_display_days() {
    assert_eq!(display(99665), "1d 3h 41m 5s");
}

#[test]
fn test_duration_display_exact_day() {
    assert_eq!(display(86400), "1d");
}

#[test]
fn test_duration_display_exact_hour() {
    assert_eq!(display(3600), "1h");
}

#[test]
fn test_duration_display_exact_minute() {
    assert_eq!(display(60), "1m");
}

#[test]
fn test_formatter_hours_minutes_seconds() {
    assert_eq!(fmt("{hours}h {minutes}m {seconds}s", 5445.0), "1h 90m 5445s");
}

#[test]
fn test_formatter_modulo_flag() {
    assert_eq!(fmt("{hours:%}h {minutes:%}m {seconds:%}s", 5445.0), "1h 30m 45s");
}

#[test]
fn test_formatter_zero_padded() {
    assert_eq!(fmt("{hours:%02}:{minutes:%02}:{seconds:%02}", 3661.0), "01:01:01");
}

#[test]
fn test_formatter_zero_duration() {
    assert_eq!(fmt("{hours}h {minutes}m {seconds}s", 0.0), "0h 0m 0s");
}

#[test]
fn test_formatter_omit_zero_flag() {
    assert_eq!(fmt("{hours:?}h {minutes:?}m {seconds}s", 45.0), "h m 45s");
}

#[test]
fn test_formatter_omit_zero_partial() {
    assert_eq!(fmt("{hours:?}h {minutes:?}m {seconds}s", 3661.0), "1h 61m 3661s");
}

#[test]
fn test_formatter_omit_zero_with_modulo() {
    assert_eq!(fmt("{hours:%?}h {minutes:%?}m {seconds:%?}s", 3600.0), "1h m s");
}

#[test]
fn test_formatter_suffix() {
    assert_eq!(fmt("{hours:@hrs} {minutes:@min}", 3661.0), "1hrs 61min");
}

#[test]
fn test_formatter_suffix_with_format() {
    assert_eq!(fmt("{hours:%02@h}:{minutes:%02@m}", 3661.0), "01h:01m");
}

#[test]
fn test_formatter_pluralize_flag() {
    assert_eq!(fmt("{hours:s}", 3600.0), "1");
    assert_eq!(fmt("{hours:s}", 7200.0), "2s");
    assert_eq!(fmt("{hours:s}", 0.0), "0s");

    assert_eq!(fmt("{hours:s@ hour}", 3600.0), "1 hour");
    assert_eq!(fmt("{hours:s@ hour}", 7200.0), "2 hours");
    assert_eq!(fmt("{hours:s@ hour}", 0.0), "0 hours");
}

#[test]
fn test_formatter_literal_passthrough() {
    assert_eq!(fmt("elapsed: {seconds}s", 42.0), "elapsed: 42s");
}

#[test]
fn test_formatter_millis() {
    assert_eq!(fmt("{millis}ms", 1.5), "1500ms");
}

#[test]
fn test_formatter_millis_alias() {
    assert_eq!(fmt("{ms}ms", 1.5), "1500ms");
}

#[test]
fn test_formatter_days_weeks_months_years() {
    let one_year = 365.0 * 86400.0;
    assert_eq!(fmt("{years}y", one_year), "1y");

    let one_month = 30.0 * 86400.0;
    assert_eq!(fmt("{months}mo", one_month), "1mo");

    let one_week = 7.0 * 86400.0;
    assert_eq!(fmt("{weeks}w", one_week), "1w");

    let one_day = 86400.0;
    assert_eq!(fmt("{days}d", one_day), "1d");
}

#[test]
fn test_formatter_key_aliases() {
    let secs = 5445.0;
    assert_eq!(fmt("{hrs}", secs), fmt("{hours}", secs));
    assert_eq!(fmt("{mins}", secs), fmt("{minutes}", secs));
    assert_eq!(fmt("{secs}", secs), fmt("{seconds}", secs));
    assert_eq!(fmt("{ms}", secs), fmt("{millis}", secs));
}

#[test]
fn test_formatter_invalid_key() {
    let result = DurationFormatter::new("{invalid_key}");
    assert!(result.is_err());
}

#[test]
fn test_formatter_empty_template() {
    let df = DurationFormatter::new("").expect("empty should be valid");
    let output = df.format_into(Duration::from_secs(100), false);
    assert_eq!(output, "");
}

#[test]
fn test_formatter_literal_only() {
    assert_eq!(fmt("hello world", 100.0), "hello world");
}

#[test]
fn test_formatter_unclosed_brace() {
    let result = DurationFormatter::new("{hours");
    assert!(result.is_err());
}

#[test]
fn test_formatter_nested_braces_in_suffix() {
    assert_eq!(fmt("{hours:@{h}}", 3600.0), "1{h}");
}

#[test]
fn test_shorthand_hhmmss_basic() {
    assert_eq!(fmt("{hhmmss}", 5445.0), "01:30:45");
}

#[test]
fn test_shorthand_hhmmss_zero() {
    assert_eq!(fmt("{hhmmss}", 0.0), "00:00:00");
}

#[test]
fn test_shorthand_hhmmss_large() {
    assert_eq!(fmt("{hhmmss}", 360303.0), "100:05:03");
}

#[test]
fn test_shorthand_hhmmss_exact_hour() {
    assert_eq!(fmt("{hhmmss}", 3600.0), "01:00:00");
}

#[test]
fn test_shorthand_hhmmss_seconds_only() {
    assert_eq!(fmt("{hhmmss}", 45.0), "00:00:45");
}

#[test]
fn test_shorthand_hhmmss_with_surrounding_text() {
    assert_eq!(fmt("elapsed: {hhmmss}", 3661.0), "elapsed: 01:01:01");
}

#[test]
fn test_shorthand_hhmmss_with_width() {
    assert_eq!(fmt("{hhmmss:>12}", 61.0), "    00:01:01");
}

#[test]
fn test_shorthand_hhmmss_with_suffix() {
    assert_eq!(fmt("{hhmmss:@ elapsed}", 3661.0), "01:01:01 elapsed");
}
