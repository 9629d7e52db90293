use vstd::prelude::*;

verus! {

/// Why configuration or a scan failed.
#[derive(Debug, Clone, Copy, PartialEq, Eq, Structural)]
pub enum ScanError {
    /// No search pattern was given and matching everything was not asked for.
    PatternRequired,
    /// A bucket width that is neither `auto` nor a positive number.
    InvalidBucketSpec,
    /// A search pattern that the regex engine refuses.
    InvalidPattern,
    /// A fixed timestamp recognizer that the regex engine refuses.
    RecognizerRejected,
    /// Matching lines were seen but none had a timestamp that could be read.
    NoTimestampsDetected,
    /// A source held no line that matched.
    NoMatchingLines,
    /// No source contributed a match.
    NoMatchesInAnyFile,
    /// Following was asked for on more than one file.
    FollowNeedsOneFile,
    /// Chart output was asked for without a file to write it to.
    PngNeedsFile,
}

impl ScanError {
    /// A human-readable description.
    pub fn message(&self) -> &'static str {
        match self {
            ScanError::PatternRequired => "REGEX pattern is required unless --no-default-pattern is set",
            ScanError::InvalidBucketSpec => "Invalid bucket size: must be a number or 'auto'",
            ScanError::InvalidPattern => "Invalid search pattern",
            ScanError::RecognizerRejected => "A built-in timestamp pattern could not be compiled",
            ScanError::NoTimestampsDetected => "No valid timestamps detected in log file",
            ScanError::NoMatchingLines => "No matching lines found in log file",
            ScanError::NoMatchesInAnyFile => "No matches found in any files",
            ScanError::FollowNeedsOneFile => "Follow mode only supports a single file",
            ScanError::PngNeedsFile => "PNG output requires --png <file> argument",
        }
    }
}

} // verus!
