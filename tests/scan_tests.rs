use logpile::cli::Args;
use logpile::pattern::CompiledPattern;
use logpile::timestamp::{TimestampParser, ISO_PATTERN};
use logpile::error::ScanError;
use logpile::processor::LogProcessor;
use logpile::scan::{LineVerdict, RunScan, ScanPolicy, SourceScan, SourceVerdict};

fn args(pattern: Option<&str>) -> Args {
    Args {
        pattern: pattern.map(|p| p.to_string()),
        files: vec![],
        time_format: None,
        bucket: None,
        csv: false,
        no_headers: false,
        json: false,
        plot: false,
        y_zero: false,
        png: None,
        follow: false,
        grep: vec![],
        no_default_pattern: false,
        verbose: false,
        fail_quick: false,
    }
}

#[test]
fn eleven_undated_lines_abort_when_failing_fast() {
    let policy = ScanPolicy { fail_fast: true, custom_format: false };
    let mut scan = SourceScan::new();
    for _ in 0..10 {
        assert_eq!(scan.record_line("no time here", true, false, policy), LineVerdict::Continue);
    }
    assert_eq!(
        scan.record_line("no time here", true, false, policy),
        LineVerdict::Abort(ScanError::NoTimestampsDetected)
    );
    assert_eq!(scan.matching, 11);
}

#[test]
fn eleven_undated_lines_abandon_source_when_lenient() {
    let policy = ScanPolicy { fail_fast: false, custom_format: false };
    let mut scan = SourceScan::new();
    for _ in 0..10 {
        assert_eq!(scan.record_line("no time", true, false, policy), LineVerdict::Continue);
    }
    assert_eq!(
        scan.record_line("no time", true, false, policy),
        LineVerdict::AbandonSource(ScanError::NoTimestampsDetected)
    );
    assert_eq!(scan.first_failure.as_deref(), Some("no time"));
    assert_eq!(scan.finish(policy), SourceVerdict::Skipped(ScanError::NoTimestampsDetected));
}

#[test]
fn custom_format_never_gives_up() {
    let policy = ScanPolicy { fail_fast: true, custom_format: true };
    let mut scan = SourceScan::new();
    for _ in 0..20 {
        assert_eq!(scan.record_line("x", true, false, policy), LineVerdict::Continue);
    }
    assert_eq!(scan.finish(policy), SourceVerdict::Contributed);
}

#[test]
fn one_dated_line_keeps_source_alive() {
    let policy = ScanPolicy { fail_fast: true, custom_format: false };
    let mut scan = SourceScan::new();
    assert_eq!(scan.record_line("a", true, true, policy), LineVerdict::Continue);
    for _ in 0..20 {
        assert_eq!(scan.record_line("b", true, false, policy), LineVerdict::Continue);
    }
    assert_eq!(scan.timestamps, 1);
    assert_eq!(scan.finish(policy), SourceVerdict::Contributed);
}

#[test]
fn source_without_matches() {
    let mut scan = SourceScan::new();
    let lenient = ScanPolicy { fail_fast: false, custom_format: false };
    let strict = ScanPolicy { fail_fast: true, custom_format: false };
    scan.record_line("a", false, false, lenient);
    assert_eq!(scan.lines, 1);
    assert_eq!(scan.finish(lenient), SourceVerdict::Skipped(ScanError::NoMatchingLines));
    assert_eq!(scan.finish(strict), SourceVerdict::Abort(ScanError::NoMatchingLines));
}

#[test]
fn run_fails_without_contributing_source() {
    let mut run = RunScan::new();
    run.record_source(SourceVerdict::Skipped(ScanError::NoMatchingLines));
    assert_eq!(run.finish(), Err(ScanError::NoMatchesInAnyFile));
    run.record_source(SourceVerdict::Contributed);
    assert_eq!(run.finish(), Ok(()));
    assert_eq!(run.sources, 2);
}

#[test]
fn processor_counts_matching_dated_lines() {
    let mut p = LogProcessor::new(args(Some("ERROR"))).unwrap();
    let mut scan = SourceScan::new();
    let v = p.process_line(&mut scan, "2025-10-03T12:00:10Z ERROR one");
    assert_eq!(v, LineVerdict::Continue);
    p.process_line(&mut scan, "2025-10-03T12:00:45Z INFO two");
    p.process_line(&mut scan, "2025-10-03T12:01:05Z ERROR three");
    assert_eq!(scan.lines, 3);
    assert_eq!(scan.matching, 2);
    assert_eq!(scan.timestamps, 2);
    assert_eq!(p.bucket().total_matches(), 2);
    assert_eq!(p.bucket().get_buckets().len(), 2);
}

#[test]
fn processor_checks_its_options() {
    assert!(matches!(LogProcessor::new(args(None)), Err(ScanError::PatternRequired)));
    assert!(matches!(LogProcessor::new(args(Some("("))), Err(ScanError::InvalidPattern)));
    let bad_bucket = Args { bucket: Some("-3".to_string()), ..args(Some("x")) };
    assert!(matches!(LogProcessor::new(bad_bucket), Err(ScanError::InvalidBucketSpec)));
    let every = Args { no_default_pattern: true, ..args(None) };
    let p = LogProcessor::new(every).unwrap();
    assert!(p.matches_patterns("anything"));
    let grep = Args { grep: vec!["WARN".to_string()], ..args(Some("ERROR")) };
    let p = LogProcessor::new(grep).unwrap();
    assert!(p.matches_patterns("a WARN b"));
    assert!(p.matches_patterns("an ERROR"));
    assert!(!p.matches_patterns("INFO"));
}

#[test]
fn processor_from_compiled_parts() {
    let a = Args { grep: vec!["WARN".to_string()], ..args(Some("ERROR")) };
    let parser = || TimestampParser::new(None);
    let good = || vec![CompiledPattern::new("ERROR"), CompiledPattern::new("WARN")];
    assert!(LogProcessor::from_parts(a.clone(), good(), parser()).is_ok());
    assert!(matches!(
        LogProcessor::from_parts(a.clone(), vec![CompiledPattern::new("ERROR"), None], parser()),
        Err(ScanError::InvalidPattern)
    ));
    assert!(matches!(
        LogProcessor::from_parts(a.clone(), good(), None),
        Err(ScanError::RecognizerRejected)
    ));
    let bad = Args { bucket: Some("0".to_string()), ..a.clone() };
    assert!(matches!(LogProcessor::from_parts(bad, good(), parser()), Err(ScanError::InvalidBucketSpec)));
    assert!(matches!(
        LogProcessor::from_parts(args(None), vec![], parser()),
        Err(ScanError::PatternRequired)
    ));
}

#[test]
fn parser_needs_every_recognizer() {
    let c = || CompiledPattern::new(ISO_PATTERN);
    let p = TimestampParser::new(None).unwrap();
    assert!(p.iso_regex.is_match("2025-10-03 14:30:45"));
    assert!(TimestampParser::from_recognizers(None, None, None, None, None, None, None, None, None).is_none());
    assert!(TimestampParser::from_recognizers(None, c(), None, None, None, None, None, None, None).is_none());
}
