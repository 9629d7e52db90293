use crate::bucket::{parse_size, BucketModel, BucketSize, TimeBucket, DEFAULT_WIDTH};
use crate::cli::string_views;
use crate::cli::Args;
use crate::error::ScanError;
use crate::pattern::{leftmost_match, CompiledPattern};
use crate::scan::{counted, line_verdict, LineVerdict, ScanPolicy, SourceScan};
use crate::timestamp::{CivilDate, TimestampParser};
use vstd::prelude::*;

verus! {

/// Whether `line` matches: any pattern finds it, or there is no pattern.
pub open spec fn line_matches(patterns: Seq<Seq<char>>, line: Seq<char>) -> bool {
    patterns.len() == 0 || exists|i: int|
        0 <= i < patterns.len() && (#[trigger] leftmost_match(patterns[i], line)) is Some
}

/// The search patterns that options ask for: the primary pattern unless
/// every line is to match, then the additional ones.
pub open spec fn requested_patterns(args: Args) -> Seq<Seq<char>> {
    let primary = if !args.no_default_pattern && args.pattern is Some {
        seq![args.pattern->0@]
    } else {
        Seq::<Seq<char>>::empty()
    };
    primary + string_views(args.grep@)
}

/// The width that options ask for: one minute when none is given.
pub open spec fn requested_size(args: Args) -> Option<BucketSize> {
    match args.bucket {
        None => Some(BucketSize::Micros(DEFAULT_WIDTH)),
        Some(b) => parse_size(b@),
    }
}

/// The search patterns, the timestamp parser and the aggregator of one run.
pub struct LogProcessor {
    args: Args,
    patterns: Vec<CompiledPattern>,
    timestamp_parser: TimestampParser,
    bucket: TimeBucket,
}

impl LogProcessor {
    /// The parser is well formed and the aggregator consistent.
    pub closed spec fn wf(&self) -> bool {
        self.timestamp_parser.wf() && self.bucket.wf()
    }

    /// The sources of the search patterns, primary first.
    pub closed spec fn pattern_sources(&self) -> Seq<Seq<char>> {
        self.patterns@.map_values(|p: CompiledPattern| p@)
    }

    /// The aggregator's state.
    pub closed spec fn model(&self) -> BucketModel {
        self.bucket@
    }

    /// The parser in use.
    pub closed spec fn parser(&self) -> TimestampParser {
        self.timestamp_parser
    }

    /// How failures to find timestamps are treated, as configured.
    pub closed spec fn policy_spec(&self) -> ScanPolicy {
        ScanPolicy {
            fail_fast: self.args.fail_quick,
            custom_format: self.args.time_format is Some,
        }
    }

    /// Checks the options, compiles the search patterns and the timestamp
    /// recognizers, and prepares an empty aggregator; see `from_parts`.
    pub fn new(args: Args) -> (r: Result<LogProcessor, ScanError>)
        ensures
            r matches Ok(p) ==> {
                &&& p.wf()
                &&& p.model().counts.len() == 0
                &&& p.model().span is None
                &&& requested_size(args) == Some(p.model().size)
                &&& p.pattern_sources() == requested_patterns(args)
                &&& p.parser().custom_format == args.time_format
                &&& p.policy_spec() == ScanPolicy {
                    fail_fast: args.fail_quick,
                    custom_format: args.time_format is Some,
                }
            },
            (args.pattern is None && !args.no_default_pattern) <==> (r matches Err(e) && e
                == ScanError::PatternRequired),
            r matches Err(e) && e == ScanError::InvalidBucketSpec ==> requested_size(args) is None,
            !(args.pattern is None && !args.no_default_pattern) && requested_size(args) is None
                ==> r is Err,
    {
        if args.validate().is_err() {
            return Err(ScanError::PatternRequired);
        }
        let ghost wanted = requested_patterns(args);
        let mut compiled: Vec<Option<CompiledPattern>> = Vec::new();
        if let Some(p) = args.get_pattern() {
            compiled.push(CompiledPattern::new(p));
        }
        let ghost primary_len = compiled.len();
        assert(primary_len == wanted.len() - args.grep.len());
        let mut i: usize = 0;
        while i < args.grep.len()
            invariant
                i <= args.grep.len(),
                wanted == requested_patterns(args),
                primary_len + args.grep.len() == wanted.len(),
                compiled.len() == primary_len + i,
                forall|j: int|
                    0 <= j < compiled.len() ==> (#[trigger] compiled@[j] matches Some(c) ==> c@
                        == wanted[j]),
            decreases args.grep.len() - i,
        {
            let c = CompiledPattern::new(args.grep[i].as_str());
            assert(wanted[primary_len + i] == args.grep@[i as int]@);
            compiled.push(c);
            i = i + 1;
        }
        let parser = TimestampParser::new(args.time_format.clone());
        Self::from_parts(args, compiled, parser)
    }

    /// A processor from options, the results of compiling the requested
    /// search patterns in order, and the result of building the parser:
    /// `PatternRequired` for options without a pattern, else
    /// `InvalidPattern` when a pattern did not compile, else
    /// `RecognizerRejected` when there is no parser, else
    /// `InvalidBucketSpec` for a bad width, else a processor with an empty
    /// aggregator.
    pub fn from_parts(
        args: Args,
        compiled: Vec<Option<CompiledPattern>>,
        parser: Option<TimestampParser>,
    ) -> (r: Result<LogProcessor, ScanError>)
        requires
            compiled.len() == requested_patterns(args).len(),
            forall|j: int|
                0 <= j < compiled.len() ==> (#[trigger] compiled@[j] matches Some(c) ==> c@
                    == requested_patterns(args)[j]),
            parser matches Some(t) ==> t.wf() && t.custom_format == args.time_format,
        ensures
            ({
                let valid = !(args.pattern is None && !args.no_default_pattern);
                let all_compiled = forall|j: int|
                    0 <= j < compiled.len() ==> (#[trigger] compiled@[j]) is Some;
                &&& !valid ==> (r matches Err(e) && e == ScanError::PatternRequired)
                &&& (valid && !all_compiled) ==> (r matches Err(e) && e
                    == ScanError::InvalidPattern)
                &&& (valid && all_compiled && parser is None) ==> (r matches Err(e) && e
                    == ScanError::RecognizerRejected)
                &&& (valid && all_compiled && parser is Some && requested_size(args) is None) ==> (
                r matches Err(e) && e == ScanError::InvalidBucketSpec)
                &&& (valid && all_compiled && parser is Some && requested_size(args) is Some)
                    ==> r is Ok
            }),
            r matches Ok(p) ==> {
                &&& p.wf()
                &&& p.model().counts.len() == 0
                &&& p.model().span is None
                &&& requested_size(args) == Some(p.model().size)
                &&& p.pattern_sources() == requested_patterns(args)
                &&& parser == Some(p.parser())
                &&& p.parser().custom_format == args.time_format
                &&& p.policy_spec() == ScanPolicy {
                    fail_fast: args.fail_quick,
                    custom_format: args.time_format is Some,
                }
            },
    {
        if args.validate().is_err() {
            return Err(ScanError::PatternRequired);
        }
        let ghost wanted = requested_patterns(args);
        let ghost orig = compiled@;
        let mut rest = compiled;
        let mut patterns: Vec<CompiledPattern> = Vec::new();
        while rest.len() > 0
            invariant
                wanted == requested_patterns(args),
                !(args.pattern is None && !args.no_default_pattern),
                orig == compiled@,
                orig.len() == wanted.len(),
                rest.len() <= orig.len(),
                rest@ == orig.subrange(orig.len() - rest.len(), orig.len() as int),
                patterns@.map_values(|c: CompiledPattern| c@) == wanted.subrange(
                    0,
                    orig.len() - rest.len(),
                ),
                forall|j: int| 0 <= j < orig.len() - rest.len() ==> (#[trigger] orig[j]) is Some,
                forall|j: int|
                    0 <= j < orig.len() ==> (#[trigger] orig[j] matches Some(c) ==> c@ == wanted[j]),
            decreases rest.len(),
        {
            let ghost at = orig.len() - rest.len();
            assert(rest@[0] == orig[at]);
            match rest.remove(0) {
                Some(c) => {
                    let ghost before = patterns@;
                    patterns.push(c);
                    assert(patterns@.map_values(|c: CompiledPattern| c@) =~= before.map_values(
                        |c: CompiledPattern| c@,
                    ).push(wanted[at]));
                    assert(wanted.subrange(0, at + 1) =~= wanted.subrange(0, at).push(wanted[at]));
                },
                None => {
                    assert(orig[at] is None);
                    assert(!(forall|j: int| 0 <= j < orig.len() ==> (#[trigger] orig[j]) is Some));
                    return Err(ScanError::InvalidPattern);
                },
            }
            assert(rest@ =~= orig.subrange(orig.len() - rest.len(), orig.len() as int));
        }
        assert(wanted.subrange(0, orig.len() as int) =~= wanted);
        let timestamp_parser = match parser {
            Some(t) => t,
            None => {
                return Err(ScanError::RecognizerRejected);
            },
        };
        let bucket = match TimeBucket::new(args.bucket.clone()) {
            Ok(b) => b,
            Err(_) => {
                return Err(ScanError::InvalidBucketSpec);
            },
        };
        Ok(LogProcessor { args, patterns, timestamp_parser, bucket })
    }

    /// The options of this run.
    pub fn args(&self) -> &Args {
        &self.args
    }

    /// The aggregator.
    pub fn bucket(&self) -> (r: &TimeBucket)
        requires
            self.wf(),
        ensures
            r.wf(),
            r@ == self.model(),
    {
        &self.bucket
    }

    /// How failures to find timestamps are treated, as configured.
    pub fn policy(&self) -> (r: ScanPolicy)
        ensures
            r == self.policy_spec(),
    {
        ScanPolicy { fail_fast: self.args.fail_quick, custom_format: self.args.time_format.is_some() }
    }

    /// Whether `line` matches one of the search patterns; every line does
    /// when there is none.
    pub fn matches_patterns(&self, line: &str) -> (r: bool)
        ensures
            r == line_matches(self.pattern_sources(), line@),
    {
        if self.patterns.len() == 0 {
            return true;
        }
        let mut i: usize = 0;
        while i < self.patterns.len()
            invariant
                i <= self.patterns.len(),
                forall|j: int|
                    0 <= j < i ==> (#[trigger] leftmost_match(self.pattern_sources()[j], line@)) is None,
            decreases self.patterns.len() - i,
        {
            if self.patterns[i].is_match(line) {
                assert(self.pattern_sources()[i as int] == self.patterns@[i as int]@);
                return true;
            }
            i = i + 1;
        }
        false
    }

    /// Handles one line of a source, given today's date: a matching line has
    /// its timestamp read and, if there is one, counted; the source's
    /// counters are updated and the policy says whether to go on.
    pub fn process_line_on(&mut self, scan: &mut SourceScan, line: &str, today: CivilDate) -> (r:
        LineVerdict)
        requires
            old(self).wf(),
        ensures
            final(self).wf(),
            final(self).pattern_sources() == old(self).pattern_sources(),
            final(self).parser() == old(self).parser(),
            final(self).policy_spec() == old(self).policy_spec(),
            ({
                let matched = line_matches(old(self).pattern_sources(), line@);
                let found = if matched {
                    old(self).parser().extract(line@, today)
                } else {
                    None
                };
                &&& final(self).model() == match found {
                    Some(t) => if old(self).model().total() < u64::MAX {
                        old(self).model().add(t as int)
                    } else {
                        old(self).model()
                    },
                    None => old(self).model(),
                }
                &&& r == line_verdict(*final(scan), matched, found is Some, old(self).policy_spec())
                &&& counted(*old(scan), *final(scan), line@, matched, found is Some)
            }),
    {
        let matched = self.matches_patterns(line);
        let mut dated = false;
        if matched {
            if let Some(t) = self.timestamp_parser.parse_line_on(line, today) {
                dated = true;
                if self.bucket.total_matches() < u64::MAX {
                    self.bucket.add(t);
                }
            }
        }
        let p = self.policy();
        scan.record_line(line, matched, dated, p)
    }

    /// Handles one line of a source, reading today's date from the clock.
    pub fn process_line(&mut self, scan: &mut SourceScan, line: &str) -> (r: LineVerdict)
        requires
            old(self).wf(),
        ensures
            final(self).wf(),
            exists|today: CivilDate|
                today.plausible() && {
                    let matched = line_matches(old(self).pattern_sources(), line@);
                    let dated = matched && (#[trigger] old(self).parser().extract(
                        line@,
                        today,
                    )) is Some;
                    &&& r == line_verdict(*final(scan), matched, dated, old(self).policy_spec())
                    &&& counted(*old(scan), *final(scan), line@, matched, dated)
                    &&& final(self).model() == if dated && old(self).model().total() < u64::MAX {
                        old(self).model().add(old(self).parser().extract(line@, today)->0 as int)
                    } else {
                        old(self).model()
                    }
                },
    {
        let today = crate::timestamp::today();
        self.process_line_on(scan, line, today)
    }
}

} // verus!
