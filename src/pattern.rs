use crate::text::occurs_in;
use regex::Regex;
use vstd::prelude::*;

verus! {

#[verifier::external_type_specification]
#[verifier::external_body]
pub struct ExRegex(Regex);

#[verifier::external_type_specification]
#[verifier::external_body]
pub struct ExRegexError(regex::Error);

/// The leftmost-first match of `pattern` in `hay`: the byte offset where it
/// starts and the text it covers.
pub uninterp spec fn leftmost_match(pattern: Seq<char>, hay: Seq<char>) -> Option<(int, Seq<char>)>;

/// Relies on `regex::Regex::new`: compiles a pattern, or says why it cannot.
#[verifier::external_body]
fn compile(pattern: &str) -> (r: Result<Regex, regex::Error>) {
    Regex::new(pattern)
}

/// A regular expression together with the text it was compiled from.
pub struct CompiledPattern {
    source: String,
    re: Regex,
}

impl View for CompiledPattern {
    type V = Seq<char>;

    /// The pattern's source text.
    closed spec fn view(&self) -> Seq<char> {
        self.source@
    }
}

/// Relies on `regex::Regex::find`: the leftmost-first match, as its start
/// offset and its text, which is a contiguous piece of the haystack.
#[verifier::external_body]
fn find_in(p: &CompiledPattern, hay: &str) -> (r: Option<(usize, Vec<char>)>)
    ensures
        r matches Some((s, t)) ==> leftmost_match(p@, hay@) == Some((s as int, t@)),
        r is None <==> leftmost_match(p@, hay@) is None,
        r matches Some((_, t)) ==> occurs_in(hay@, t@),
{
    p.re.find(hay).map(|m| (m.start(), m.as_str().chars().collect()))
}

impl CompiledPattern {
    /// Compiles `pattern`; `None` when the regex engine refuses it.
    pub fn new(pattern: &str) -> (r: Option<CompiledPattern>)
        ensures
            r matches Some(p) ==> p@ == pattern@,
    {
        match compile(pattern) {
            Ok(re) => Some(CompiledPattern { source: pattern.to_owned(), re }),
            Err(_) => None,
        }
    }

    /// The leftmost-first match in `hay`, as its start offset and its text.
    pub fn find(&self, hay: &str) -> (r: Option<(usize, Vec<char>)>)
        ensures
            r matches Some((s, t)) ==> leftmost_match(self@, hay@) == Some((s as int, t@)),
            r is None <==> leftmost_match(self@, hay@) is None,
            r matches Some((_, t)) ==> occurs_in(hay@, t@),
    {
        find_in(self, hay)
    }

    /// Whether the pattern matches somewhere in `hay`.
    pub fn is_match(&self, hay: &str) -> (r: bool)
        ensures
            r == leftmost_match(self@, hay@) is Some,
    {
        find_in(self, hay).is_some()
    }
}

} // verus!
