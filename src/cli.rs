use crate::error::ScanError;
use vstd::prelude::*;

verus! {

/// The options of one run.
#[derive(Debug, Clone)]
pub struct Args {
    /// The search pattern; a file name when `no_default_pattern` is set.
    pub pattern: Option<String>,
    /// The files to read; standard input when empty.
    pub files: Vec<String>,
    pub csv: bool,
    pub no_headers: bool,
    pub json: bool,
    pub plot: bool,
    pub y_zero: bool,
    pub png: Option<String>,
    /// A timestamp format to try on the whole line first.
    pub time_format: Option<String>,
    /// The bucket width: `auto` or seconds.
    pub bucket: Option<String>,
    /// More search patterns; a line matching any of them counts.
    pub grep: Vec<String>,
    pub no_default_pattern: bool,
    pub follow: bool,
    pub verbose: bool,
    pub fail_quick: bool,
}

/// How results are presented.
#[derive(Debug, Clone, Copy, PartialEq, Eq, Structural)]
pub enum OutputFormat {
    Table,
    Csv,
    Json,
    AsciiPlot,
    Png,
}

/// The views of a list of strings.
pub open spec fn string_views(v: Seq<String>) -> Seq<Seq<char>> {
    v.map_values(|s: String| s@)
}

impl Args {
    /// The presentation asked for: CSV, JSON, ASCII chart and PNG take
    /// precedence in that order over the table.
    pub fn output_format(&self) -> (r: OutputFormat)
        ensures
            r == (if self.csv {
                OutputFormat::Csv
            } else if self.json {
                OutputFormat::Json
            } else if self.plot {
                OutputFormat::AsciiPlot
            } else if self.png is Some {
                OutputFormat::Png
            } else {
                OutputFormat::Table
            }),
    {
        if self.csv {
            OutputFormat::Csv
        } else if self.json {
            OutputFormat::Json
        } else if self.plot {
            OutputFormat::AsciiPlot
        } else if self.png.is_some() {
            OutputFormat::Png
        } else {
            OutputFormat::Table
        }
    }

    /// A pattern is required unless matching every line was asked for.
    pub fn validate(&self) -> (r: Result<(), ScanError>)
        ensures
            r is Err <==> (self.pattern is None && !self.no_default_pattern),
            r matches Err(e) ==> e == ScanError::PatternRequired,
    {
        if self.pattern.is_none() && !self.no_default_pattern {
            return Err(ScanError::PatternRequired);
        }
        Ok(())
    }

    /// The search pattern in effect; none when every line is to match.
    pub fn get_pattern(&self) -> (r: Option<&str>)
        ensures
            self.no_default_pattern ==> r is None,
            !self.no_default_pattern ==> match self.pattern {
                Some(p) => (r matches Some(q) && q@ == p@),
                None => r is None,
            },
    {
        if self.no_default_pattern {
            None
        } else {
            match &self.pattern {
                Some(p) => Some(p.as_str()),
                None => None,
            }
        }
    }

    /// What following reads: standard input when no file is named, the one
    /// file when one is; following more than one file is refused.
    pub fn follow_target(&self) -> (r: Result<Option<&String>, ScanError>)
        ensures
            self.files.len() == 0 ==> r == Ok::<Option<&String>, ScanError>(None),
            self.files.len() == 1 ==> (r matches Ok(Some(f)) && f@ == self.files@[0]@),
            self.files.len() > 1 ==> r == Err::<Option<&String>, ScanError>(
                ScanError::FollowNeedsOneFile,
            ),
    {
        if self.files.len() == 0 {
            Ok(None)
        } else if self.files.len() > 1 {
            Err(ScanError::FollowNeedsOneFile)
        } else {
            Ok(Some(&self.files[0]))
        }
    }

    /// The files to read; with `no_default_pattern`, the positional pattern
    /// is the first of them.
    pub fn get_files(&self) -> (r: Vec<String>)
        ensures
            string_views(r@) == (if self.no_default_pattern && self.pattern is Some {
                seq![self.pattern->0@] + string_views(self.files@)
            } else {
                string_views(self.files@)
            }),
    {
        let mut out: Vec<String> = Vec::new();
        if self.no_default_pattern {
            if let Some(p) = &self.pattern {
                out.push(p.clone());
            }
        }
        let ghost head = string_views(out@);
        let mut i: usize = 0;
        while i < self.files.len()
            invariant
                i <= self.files.len(),
                string_views(out@) == head + string_views(self.files@).subrange(0, i as int),
            decreases self.files.len() - i,
        {
            let f = self.files[i].clone();
            assert(f@ == string_views(self.files@)[i as int]);
            let ghost before = out@;
            out.push(f);
            assert(out@ == before.push(f));
            assert(string_views(out@) =~= string_views(before).push(f@));
            i = i + 1;
            assert(string_views(out@) =~= head + string_views(self.files@).subrange(0, i as int));
        }
        assert(string_views(self.files@).subrange(0, i as int) =~= string_views(self.files@));
        assert(head =~= (if self.no_default_pattern && self.pattern is Some {
            seq![self.pattern->0@]
        } else {
            Seq::<Seq<char>>::empty()
        }));
        out
    }
}

} // verus!
