//! The family-path filter: a compiled regular expression kept beside the
//! pattern it was compiled from, so that contracts can speak of the
//! match decision as a function of the pattern and the path alone.
use vstd::prelude::*;

verus! {

#[verifier::external_type_specification]
#[verifier::external_body]
pub struct ExRegex(regex::Regex);

/// Whether `regex::Regex::new` accepts a pattern.
pub uninterp spec fn regex_compiles(pattern: Seq<char>) -> bool;

/// What `regex::Regex::is_match` decides for a pattern and a haystack:
/// whether the pattern matches somewhere in the haystack.
pub uninterp spec fn regex_match_of(pattern: Seq<char>, hay: Seq<char>) -> bool;

/// A compiled path filter.  The pattern and the expression compiled from
/// it travel together, and only `new` builds one, so every value's
/// expression is the compilation of its pattern.
pub struct PathFilter {
    pattern: String,
    re: regex::Regex,
}

impl PathFilter {
    /// The pattern this filter was compiled from.
    pub closed spec fn spec_pattern(&self) -> Seq<char> {
        self.pattern@
    }

    /// Relies on regex::Regex::new: compiles the pattern, which succeeds
    /// or fails on the pattern alone.
    #[verifier::external_body]
    pub fn new(pattern: &str) -> (r: Option<PathFilter>)
        ensures
            r matches Some(f) ==> f.spec_pattern() == pattern@,
            r is Some <==> regex_compiles(pattern@),
    {
        match regex::Regex::new(pattern) {
            Ok(re) => Some(PathFilter { pattern: pattern.to_owned(), re }),
            Err(_) => None,
        }
    }

    /// Relies on regex::Regex::is_match: true if and only if the pattern
    /// matches somewhere in the haystack; the decision depends on the
    /// pattern and the haystack alone.
    #[verifier::external_body]
    pub fn is_match(&self, hay: &str) -> (r: bool)
        ensures
            r == regex_match_of(self.spec_pattern(), hay@),
    {
        self.re.is_match(hay)
    }
}

/// The pattern of an optional filter.
pub open spec fn filter_view(f: Option<PathFilter>) -> Option<Seq<char>> {
    match f {
        Some(p) => Some(p.spec_pattern()),
        None => None,
    }
}

/// Whether an optional filter keeps a path: no filter keeps everything.
pub open spec fn filter_accepts(filter: Option<Seq<char>>, path: Seq<char>) -> bool {
    match filter {
        None => true,
        Some(pattern) => regex_match_of(pattern, path),
    }
}

} // verus!
