use chrono::{DateTime, Datelike, TimeZone, Timelike, Utc};
use logpile::timestamp::{CivilDate, TimestampParser};

fn parser(custom: Option<&str>) -> TimestampParser {
    TimestampParser::new(custom.map(|f| f.to_string())).unwrap()
}

fn at(micros: i64) -> DateTime<Utc> {
    DateTime::from_timestamp_micros(micros).unwrap()
}

#[test]
fn test_parse_iso8601_with_timezone() {
    let parser = parser(None);
    let line = "2025-10-03T14:30:45.123Z INFO: Application started";
    assert!(parser.parse_line(line).is_some());

    let line2 = "2025-10-03T14:30:45.123+00:00 INFO: Application started";
    assert!(parser.parse_line(line2).is_some());
}

#[test]
fn test_parse_iso8601_without_timezone() {
    let parser = parser(None);
    assert!(parser.parse_line("2025-10-03T14:30:45 INFO: Application started").is_some());
    assert!(parser.parse_line("2025-10-03T14:30:45.123 DEBUG: Processing").is_some());
}

#[test]
fn test_parse_common_format() {
    let parser = parser(None);
    assert!(parser.parse_line("2025-10-03 14:30:45 ERROR: Connection failed").is_some());
    assert!(parser.parse_line("2025-10-03 14:30:45.123456 WARN: Slow query").is_some());
}

#[test]
fn test_parse_european_date() {
    let parser = parser(None);
    assert!(parser.parse_line("03/10/2025 14:30:45 INFO: User logged in").is_some());
}

#[test]
fn test_parse_us_date() {
    let parser = parser(None);
    assert!(parser.parse_line("10/03/2025 14:30:45 INFO: Request processed").is_some());
}

#[test]
fn test_parse_syslog_format() {
    let parser = parser(None);
    let line = "Oct 03 14:30:45 myserver app[1234]: ERROR: Connection lost";
    let result = parser.parse_line(line);
    assert!(result.is_some());
    let ts = at(result.unwrap());
    assert_eq!(ts.month(), 10);
    assert_eq!(ts.day(), 3);
}

#[test]
fn test_parse_apache_format() {
    let parser = parser(None);
    let line = r#"192.168.1.1 - - [03/Oct/2025:14:30:45 +0000] "GET /api HTTP/1.1" 200 1234"#;
    let result = parser.parse_line(line);
    assert!(result.is_some());

    let dt = at(result.unwrap());
    assert_eq!(dt.year(), 2025);
    assert_eq!(dt.month(), 10);
    assert_eq!(dt.day(), 3);
    assert_eq!(dt.hour(), 14);
    assert_eq!(dt.minute(), 30);
    assert_eq!(dt.second(), 45);
}

#[test]
fn test_parse_rfc2822_format() {
    let parser = parser(None);
    let line = "Fri, 03 Oct 2025 14:30:45 GMT ERROR: Service unavailable";
    assert!(parser.parse_line(line).is_some());
}

#[test]
fn test_parse_unix_timestamp() {
    let parser = parser(None);
    let result = parser.parse_line("1727962496 INFO: Background job completed");
    assert!(result.is_some());
}

#[test]
fn test_parse_java_format() {
    let parser = parser(None);
    let line = "2025-10-03 14:30:45.123 ERROR [http-nio-8080-exec-1] com.example.Service - Request failed";
    assert!(parser.parse_line(line).is_some());
}

#[test]
fn test_custom_format() {
    let parser = parser(Some("%Y/%m/%d %H:%M:%S"));
    assert!(parser.parse_line("2025/10/03 14:30:45 - Custom log entry").is_some());
}

#[test]
fn test_no_timestamp() {
    let parser = parser(None);
    assert!(parser.parse_line("This line has no timestamp at all").is_none());
}

#[test]
fn test_invalid_timestamp() {
    let parser = parser(None);
    assert!(parser.parse_line("99/99/9999 99:99:99 Invalid timestamp").is_none());
}

#[test]
fn test_multiple_timestamps_uses_first() {
    let parser = parser(None);
    let line = "2025-10-03 14:30:45 Processing item created at 2025-10-03 12:00:00";
    let result = parser.parse_line(line);
    assert!(result.is_some());
    let ts = at(result.unwrap());
    assert_eq!(ts.hour(), 14);
    assert_eq!(ts.minute(), 30);
}

#[test]
fn test_timestamp_extraction() {
    let parser = parser(None);

    assert!(parser.iso_regex.is_match("2025-10-03T14:30:45.123Z"));
    assert!(parser.iso_regex.is_match("2025-10-03 14:30:45"));

    assert!(parser.datetime_regex.is_match("03/10/2025 14:30:45"));
    assert!(parser.datetime_regex.is_match("10/03/2025 14:30:45"));

    assert!(parser.syslog_regex.is_match("Oct 03 14:30:45"));

    assert!(parser.apache_regex.is_match("[03/Oct/2025:14:30:45 +0000]"));

    assert!(parser.rfc2822_regex.is_match("Fri, 03 Oct 2025 14:30:45"));

    assert!(parser.unix_timestamp_regex.is_match("1727962496"));
}

#[test]
fn test_parse_with_format_unix() {
    let parser = parser(None);
    assert!(parser.parse_with_format("1727962496", "").is_some());
}

#[test]
fn test_parse_with_format_invalid_unix() {
    let parser = parser(None);
    assert!(parser.parse_with_format("123456", "").is_none());
    assert!(parser.parse_with_format("99999999999", "").is_none());
}

#[test]
fn test_extract_timestamp_candidates() {
    let parser = parser(None);

    let line = "2025-10-03T14:30:45.123Z INFO: Application started";
    let candidates = parser.extract_timestamp_candidates(line);
    assert!(!candidates.is_empty());

    let line_no_ts = "Just a line with no timestamp";
    let candidates = parser.extract_timestamp_candidates(line_no_ts);
    assert!(!candidates.is_empty());
}

#[test]
fn test_syslog_year_injection() {
    let parser = parser(None);
    let result = parser.parse_line("Oct 03 14:30:45 myserver app: INFO message");
    assert!(result.is_some());
    assert_eq!(at(result.unwrap()).year(), Utc::now().year());
}

#[test]
fn test_parse_yearless_iso() {
    let parser = parser(Some("%m-%dT%H:%M:%S%.3fZ"));
    let result = parser.parse_line("09-24T23:45:29.362Z| INFO| Some random logline");
    assert!(result.is_some());
    assert_eq!(at(result.unwrap()).year(), Utc::now().year());
}

#[test]
fn test_parse_yearless_iso_auto_detection() {
    let parser = parser(None);
    let result = parser.parse_line("09-24T23:45:29.362Z| INFO| Some random logline");
    assert!(result.is_some());
    assert_eq!(at(result.unwrap()).year(), Utc::now().year());
}

fn check_fields(dt: DateTime<Utc>, fields: (u32, u32, u32, u32, u32)) {
    assert_eq!(dt.year(), Utc::now().year());
    assert_eq!(dt.month(), fields.0);
    assert_eq!(dt.day(), fields.1);
    assert_eq!(dt.hour(), fields.2);
    assert_eq!(dt.minute(), fields.3);
    assert_eq!(dt.second(), fields.4);
}

#[test]
fn test_parse_yearless_iso_variations() {
    let parser = parser(None);
    let test_cases = vec![
        ("09-24T23:45:29.362Z", (9, 24, 23, 45, 29)),
        ("12-31T00:00:00.000Z", (12, 31, 0, 0, 0)),
        ("01-01T12:30:45.123Z", (1, 1, 12, 30, 45)),
        ("06-15T18:22:33.999Z", (6, 15, 18, 22, 33)),
    ];
    for (timestamp, fields) in test_cases {
        let line = format!("{}| INFO| Test message", timestamp);
        let result = parser.parse_line(&line);
        assert!(result.is_some(), "Failed to parse: {}", timestamp);
        check_fields(at(result.unwrap()), fields);
    }
}

#[test]
fn test_parse_yearless_iso_without_milliseconds() {
    let parser = parser(None);
    let result = parser.parse_line("09-24T23:45:29Z| INFO| Some random logline");
    assert!(result.is_some());
    check_fields(at(result.unwrap()), (9, 24, 23, 45, 29));
}

#[test]
fn test_parse_yearless_iso_without_timezone() {
    let parser = parser(None);
    let result = parser.parse_line("09-24T23:45:29.362| INFO| Some random logline");
    assert!(result.is_some());
    check_fields(at(result.unwrap()), (9, 24, 23, 45, 29));
}

#[test]
fn test_parse_yearless_iso_edge_cases() {
    let parser = parser(None);
    let test_cases = vec![
        ("01-01T00:00:00.000Z", "New Year"),
        ("12-31T23:59:59.999Z", "End of year"),
        ("06-30T15:30:45.500Z", "Mid-year"),
    ];
    for (timestamp, description) in test_cases {
        let line = format!("{}| INFO| {}", timestamp, description);
        let result = parser.parse_line(&line);
        assert!(result.is_some(), "Failed to parse {}: {}", description, timestamp);
        assert_eq!(at(result.unwrap()).year(), Utc::now().year(), "Wrong year for {}", description);
    }
}

#[test]
fn test_parse_yearless_iso_invalid_formats() {
    let parser = parser(None);
    let invalid_cases = vec!["09-24T3:45:29.362Z", "09-24T23:5:29.362Z", "09-24T23:45:9.362Z"];
    for invalid_timestamp in invalid_cases {
        let line = format!("{}| INFO| Test message", invalid_timestamp);
        assert!(
            parser.parse_line(&line).is_none(),
            "Should not parse invalid format: {}",
            invalid_timestamp
        );
    }
}

#[test]
fn test_parse_yearless_iso_with_different_separators() {
    let parser = parser(None);
    let test_cases = vec![
        "09-24T23:45:29.362Z| INFO| Pipe separator",
        "09-24T23:45:29.362Z INFO Space separator",
        "09-24T23:45:29.362Z\tINFO\tTab separator",
        "09-24T23:45:29.362Z,INFO,Comma separator",
        "09-24T23:45:29.362Z - INFO - Dash separator",
    ];
    for line in test_cases {
        let result = parser.parse_line(line);
        assert!(result.is_some(), "Failed to parse: {}", line);
        check_fields(at(result.unwrap()), (9, 24, 23, 45, 29));
    }
}

#[test]
fn test_parse_yearless_iso_with_custom_format() {
    let parser = parser(Some("%m-%dT%H:%M:%S%.3fZ"));
    let test_cases = vec![
        ("09-24T23:45:29.362Z", (9, 24, 23, 45, 29)),
        ("12-31T00:00:00.000Z", (12, 31, 0, 0, 0)),
        ("01-01T12:30:45.123Z", (1, 1, 12, 30, 45)),
    ];
    for (timestamp, fields) in test_cases {
        let line = format!("{}| INFO| Test message", timestamp);
        let result = parser.parse_line(&line);
        assert!(result.is_some(), "Failed to parse: {}", timestamp);
        check_fields(at(result.unwrap()), fields);
    }
}

#[test]
fn test_parse_yearless_iso_priority() {
    let parser = parser(None);
    let result = parser.parse_line("09-24T23:45:29.362Z| INFO| This should parse as yearless ISO");
    assert!(result.is_some());
    let dt = at(result.unwrap());
    assert_eq!(dt.year(), Utc::now().year());
    assert_eq!(dt.month(), 9);
    assert_eq!(dt.day(), 24);
}

#[test]
fn test_parse_yearless_iso_with_other_timestamps() {
    let parser = parser(None);
    let test_cases = vec![
        ("09-24T23:45:29.362Z| INFO| Yearless ISO", (9, 24, 23, 45, 29)),
        ("2025-10-03T14:30:45.123Z INFO: Full ISO", (10, 3, 14, 30, 45)),
        ("Oct 03 14:30:45 myserver app: INFO message", (10, 3, 14, 30, 45)),
    ];
    for (line, fields) in test_cases {
        let result = parser.parse_line(line);
        assert!(result.is_some(), "Failed to parse: {}", line);
        let dt = at(result.unwrap());
        assert_eq!(dt.month(), fields.0);
        assert_eq!(dt.day(), fields.1);
        assert_eq!(dt.hour(), fields.2);
        assert_eq!(dt.minute(), fields.3);
        assert_eq!(dt.second(), fields.4);
    }
}

#[test]
fn test_parse_time_only_format() {
    let parser = parser(None);
    let test_cases = vec![
        ("05:40:12 INFO - Payment processed", 5, 40, 12),
        ("23:59:59.999 ERROR - End of day", 23, 59, 59),
        ("00:00:00 INFO - Midnight", 0, 0, 0),
        ("12:30:45 WARN - Noon warning", 12, 30, 45),
    ];
    for (line, hour, minute, second) in test_cases {
        let result = parser.parse_line(line);
        assert!(result.is_some(), "Failed to parse: {}", line);
        let dt = at(result.unwrap());
        assert_eq!(dt.date_naive(), Utc::now().date_naive());
        assert_eq!(dt.hour(), hour);
        assert_eq!(dt.minute(), minute);
        assert_eq!(dt.second(), second);
    }
}

#[test]
fn test_parse_time_only_with_custom_format() {
    let parser = parser(Some("%H:%M:%S"));
    let result = parser.parse_line("05:40:12 INFO - Payment processed");
    assert!(result.is_some());
    let dt = at(result.unwrap());
    assert_eq!(dt.date_naive(), Utc::now().date_naive());
    assert_eq!(dt.hour(), 5);
    assert_eq!(dt.minute(), 40);
    assert_eq!(dt.second(), 12);
}

#[test]
fn test_parse_time_only_with_milliseconds() {
    let parser = parser(None);
    let result = parser.parse_line("05:40:12.123 INFO - Payment processed");
    assert!(result.is_some());
    let dt = at(result.unwrap());
    assert_eq!(dt.date_naive(), Utc::now().date_naive());
    assert_eq!(dt.hour(), 5);
    assert_eq!(dt.minute(), 40);
    assert_eq!(dt.second(), 12);
    assert_eq!(dt.nanosecond() / 1_000_000, 123);
}

#[test]
fn test_parse_time_only_invalid_formats() {
    let parser = parser(None);
    let invalid_cases = vec![
        "5:40:12 INFO - Single digit hour",
        "05:4:12 INFO - Single digit minute",
        "05:40:2 INFO - Single digit second",
        "25:40:12 INFO - Invalid hour",
        "05:60:12 INFO - Invalid minute",
    ];
    for invalid_line in invalid_cases {
        assert!(
            parser.parse_line(invalid_line).is_none(),
            "Should not parse invalid time format: {}",
            invalid_line
        );
    }
}

#[test]
fn iso_with_offset_is_normalised_to_utc() {
    let parser = parser(None);
    let expected = Utc.with_ymd_and_hms(2025, 10, 3, 12, 30, 45).unwrap().timestamp_micros() + 123_000;
    assert_eq!(parser.parse_line("2025-10-03T14:30:45.123+02:00 start"), Some(expected));
    assert_eq!(parser.parse_line("2025-10-03T12:30:45.123Z start"), Some(expected));
    assert_eq!(parser.parse_line("2025-10-03T12:30:45.123 start"), Some(expected));
    let whole = Utc.with_ymd_and_hms(2025, 10, 3, 17, 0, 0).unwrap().timestamp_micros();
    assert_eq!(parser.parse_line("2025-10-03T12:00:00-05:00 x"), Some(whole));
}

#[test]
fn syslog_line_on_a_given_day() {
    let parser = parser(None);
    let today = CivilDate { year: 2031, month: 6, day: 9 };
    let r = parser.parse_line_on("Oct 03 14:30:45 app: msg", today).unwrap();
    assert_eq!(r, Utc.with_ymd_and_hms(2031, 10, 3, 14, 30, 45).unwrap().timestamp_micros());
    let dt = at(parser.parse_line("Oct 03 14:30:45 app: msg").unwrap());
    assert_eq!(
        (dt.year(), dt.month(), dt.day(), dt.hour(), dt.minute(), dt.second()),
        (Utc::now().year(), 10, 3, 14, 30, 45)
    );
}

#[test]
fn time_only_line_on_a_given_day() {
    let parser = parser(None);
    let today = CivilDate { year: 2024, month: 2, day: 29 };
    let r = parser.parse_line_on("05:40:12 INFO - Payment processed", today).unwrap();
    assert_eq!(r, Utc.with_ymd_and_hms(2024, 2, 29, 5, 40, 12).unwrap().timestamp_micros());
}

#[test]
fn epoch_line_is_read_directly() {
    let parser = parser(None);
    assert_eq!(parser.parse_line("1727962496 INFO done"), Some(1_727_962_496_000_000));
    assert_eq!(parser.parse_with_format(" 1000000000 ", "%Y"), Some(1_000_000_000_000_000));
    assert_eq!(parser.parse_with_format("9999999999", ""), Some(9_999_999_999_000_000));
    assert_eq!(parser.parse_with_format("999999999", ""), None);
    assert_eq!(parser.parse_with_format("10000000000", ""), None);
    assert_eq!(parser.parse_with_format("-1727962496", ""), None);
    assert_eq!(parser.parse_with_format("+1727962496", ""), Some(1_727_962_496_000_000));
}

#[test]
fn candidates_follow_class_order() {
    let parser = parser(None);
    let line = "Oct 03 14:30:45 seen at 2025-10-03T01:02:03Z";
    let cands = parser.extract_timestamp_candidates(line);
    let texts: Vec<String> = cands.iter().map(|c| c.iter().collect()).collect();
    assert_eq!(texts[0], "2025-10-03T01:02:03Z");
    assert_eq!(texts[1], "Oct 03 14:30:45");
    let expected = Utc.with_ymd_and_hms(2025, 10, 3, 1, 2, 3).unwrap().timestamp_micros();
    assert_eq!(parser.parse_line(line), Some(expected));
}

#[test]
fn fallback_candidate_is_first_fifty_chars() {
    let parser = parser(None);
    let line = "x".repeat(80);
    let cands = parser.extract_timestamp_candidates(&line);
    assert_eq!(cands.len(), 1);
    assert_eq!(cands[0].len(), 50);
    assert!(parser.extract_timestamp_candidates("too short").is_empty());
}

#[test]
fn custom_format_on_whole_line_wins() {
    let parser = parser(Some("%d.%m.%Y %H:%M"));
    let expected = Utc.with_ymd_and_hms(2024, 3, 1, 8, 15, 0).unwrap().timestamp_micros();
    assert_eq!(parser.parse_line("01.03.2024 08:15"), Some(expected));
}

#[test]
fn custom_format_is_not_read_as_epoch() {
    let parser = parser(Some("%y%m%d%H%M"));
    let expected = Utc.with_ymd_and_hms(2024, 10, 3, 13, 30, 0).unwrap().timestamp_micros();
    assert_eq!(parser.parse_line("2410031330"), Some(expected));
}

#[test]
fn bare_time_completion_skips_formats_with_a_date_part() {
    let parser = parser(None);
    let today = CivilDate { year: 2025, month: 10, day: 3 };
    assert_eq!(parser.parse_with_format_on("05:40:12 Oct", "%H:%M:%S %b", today), None);
    let expected = Utc.with_ymd_and_hms(2025, 10, 3, 5, 40, 12).unwrap().timestamp_micros();
    assert_eq!(parser.parse_with_format_on("05:40:12", "%H:%M:%S", today), Some(expected));
}

#[test]
fn unicode_white_space_is_trimmed() {
    let parser = parser(None);
    assert_eq!(
        parser.parse_with_format("\u{3000} 1000000000\u{2003}\t", ""),
        Some(1_000_000_000_000_000)
    );
}

#[test]
fn time_only_line_in_a_short_year() {
    let parser = parser(None);
    let today = CivilDate { year: 999, month: 1, day: 2 };
    let expected = Utc.with_ymd_and_hms(999, 1, 2, 5, 40, 12).unwrap().timestamp_micros();
    assert_eq!(parser.parse_line_on("05:40:12 INFO", today), Some(expected));
}
