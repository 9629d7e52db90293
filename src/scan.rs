use crate::error::ScanError;
use vstd::prelude::*;

verus! {

/// Matching lines without any timestamp that a source may show before it is
/// given up on.
pub const NO_TIMESTAMP_LIMIT: u64 = 10;

/// `n + 1`, stopping at the largest value.
pub open spec fn bump(n: u64) -> u64 {
    if n < u64::MAX {
        (n + 1) as u64
    } else {
        n
    }
}

fn bump_exec(n: u64) -> (r: u64)
    ensures
        r == bump(n),
{
    if n < u64::MAX {
        n + 1
    } else {
        n
    }
}

/// How failures to find timestamps are treated.
#[derive(Debug, Clone, Copy, PartialEq, Eq, Structural)]
pub struct ScanPolicy {
    /// Stop the whole run at the first failing source.
    pub fail_fast: bool,
    /// A custom timestamp format is configured.
    pub custom_format: bool,
}

/// What to do after a line.
#[derive(Debug, Clone, Copy, PartialEq, Eq, Structural)]
pub enum LineVerdict {
    /// Read the next line.
    Continue,
    /// Stop reading this source and go on with the next one.
    AbandonSource(ScanError),
    /// Stop the run.
    Abort(ScanError),
}

/// What a fully read source amounts to.
#[derive(Debug, Clone, Copy, PartialEq, Eq, Structural)]
pub enum SourceVerdict {
    /// It counts as a source with matches.
    Contributed,
    /// It is passed over, for the reason given.
    Skipped(ScanError),
    /// The run stops, for the reason given.
    Abort(ScanError),
}

/// Counters kept while one source is read.
#[derive(Debug, Clone)]
pub struct SourceScan {
    /// Lines seen.
    pub lines: u64,
    /// Lines that matched the search patterns.
    pub matching: u64,
    /// Matching lines whose timestamp was read.
    pub timestamps: u64,
    /// The first matching line whose timestamp could not be read.
    pub first_failure: Option<String>,
}

/// `new` holds the counters of `old` after one more line: whether it
/// matched, whether its timestamp was read, and the first matching line
/// without one.
pub open spec fn counted(
    old: SourceScan,
    new: SourceScan,
    line: Seq<char>,
    matched: bool,
    dated: bool,
) -> bool {
    &&& new.lines == bump(old.lines)
    &&& new.matching == if matched {
        bump(old.matching)
    } else {
        old.matching
    }
    &&& new.timestamps == if matched && dated {
        bump(old.timestamps)
    } else {
        old.timestamps
    }
    &&& (matched && !dated && old.first_failure is None) ==> (new.first_failure matches Some(f)
        && f@ == line)
    &&& !(matched && !dated && old.first_failure is None) ==> new.first_failure
        == old.first_failure
}

/// The verdict after a line, given the counters once it is counted.
pub open spec fn line_verdict(s: SourceScan, matched: bool, dated: bool, p: ScanPolicy) -> LineVerdict {
    if matched && !dated && s.matching > NO_TIMESTAMP_LIMIT && s.timestamps == 0
        && !p.custom_format {
        if p.fail_fast {
            LineVerdict::Abort(ScanError::NoTimestampsDetected)
        } else {
            LineVerdict::AbandonSource(ScanError::NoTimestampsDetected)
        }
    } else {
        LineVerdict::Continue
    }
}

/// The verdict on a source once it has been read.
pub open spec fn source_verdict(s: SourceScan, p: ScanPolicy) -> SourceVerdict {
    if s.matching == 0 {
        if p.fail_fast {
            SourceVerdict::Abort(ScanError::NoMatchingLines)
        } else {
            SourceVerdict::Skipped(ScanError::NoMatchingLines)
        }
    } else if s.timestamps == 0 && !p.custom_format {
        if p.fail_fast {
            SourceVerdict::Abort(ScanError::NoTimestampsDetected)
        } else {
            SourceVerdict::Skipped(ScanError::NoTimestampsDetected)
        }
    } else {
        SourceVerdict::Contributed
    }
}

impl SourceScan {
    /// Counters for a source not yet read.
    pub fn new() -> (r: SourceScan)
        ensures
            r.lines == 0 && r.matching == 0 && r.timestamps == 0 && r.first_failure is None,
    {
        SourceScan { lines: 0, matching: 0, timestamps: 0, first_failure: None }
    }

    /// Counts one line: whether it matched, and whether its timestamp was
    /// read; then says whether to go on.
    pub fn record_line(&mut self, line: &str, matched: bool, dated: bool, p: ScanPolicy) -> (r:
        LineVerdict)
        ensures
            counted(*old(self), *final(self), line@, matched, dated),
            r == line_verdict(*final(self), matched, dated, p),
    {
        self.lines = bump_exec(self.lines);
        if matched {
            self.matching = bump_exec(self.matching);
            if dated {
                self.timestamps = bump_exec(self.timestamps);
            } else if self.first_failure.is_none() {
                self.first_failure = Some(line.to_owned());
            }
        }
        if matched && !dated && self.matching > NO_TIMESTAMP_LIMIT && self.timestamps == 0
            && !p.custom_format {
            if p.fail_fast {
                LineVerdict::Abort(ScanError::NoTimestampsDetected)
            } else {
                LineVerdict::AbandonSource(ScanError::NoTimestampsDetected)
            }
        } else {
            LineVerdict::Continue
        }
    }

    /// The verdict on the source once it has been read.
    pub fn finish(&self, p: ScanPolicy) -> (r: SourceVerdict)
        ensures
            r == source_verdict(*self, p),
    {
        if self.matching == 0 {
            if p.fail_fast {
                SourceVerdict::Abort(ScanError::NoMatchingLines)
            } else {
                SourceVerdict::Skipped(ScanError::NoMatchingLines)
            }
        } else if self.timestamps == 0 && !p.custom_format {
            if p.fail_fast {
                SourceVerdict::Abort(ScanError::NoTimestampsDetected)
            } else {
                SourceVerdict::Skipped(ScanError::NoTimestampsDetected)
            }
        } else {
            SourceVerdict::Contributed
        }
    }
}

/// Counters kept over all sources of a run.
#[derive(Debug, Clone, Copy, PartialEq, Eq, Structural)]
pub struct RunScan {
    /// Sources read.
    pub sources: u64,
    /// Sources that contributed matches.
    pub contributing: u64,
}

impl RunScan {
    /// Counters for a run with no source read yet.
    pub fn new() -> (r: RunScan)
        ensures
            r.sources == 0 && r.contributing == 0,
    {
        RunScan { sources: 0, contributing: 0 }
    }

    /// Counts one source by its verdict.
    pub fn record_source(&mut self, v: SourceVerdict)
        ensures
            final(self).sources == bump(old(self).sources),
            final(self).contributing == if v == SourceVerdict::Contributed {
                bump(old(self).contributing)
            } else {
                old(self).contributing
            },
    {
        self.sources = bump_exec(self.sources);
        if let SourceVerdict::Contributed = v {
            self.contributing = bump_exec(self.contributing);
        }
    }

    /// The run fails, whatever the policy, when no source contributed.
    pub fn finish(&self) -> (r: Result<(), ScanError>)
        ensures
            r is Err <==> self.contributing == 0,
            r matches Err(e) ==> e == ScanError::NoMatchesInAnyFile,
    {
        if self.contributing == 0 {
            Err(ScanError::NoMatchesInAnyFile)
        } else {
            Ok(())
        }
    }
}

} // verus!
