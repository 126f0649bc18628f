//! The regular-expression side of the pattern matcher.
//!
//! Compilation and matching are done by the `regex` crate; the items here
//! wrap it and are the only ones trusted on its account. The byte-haystack
//! form of its engine is used so that the scanner can hand it raw line
//! bytes; on valid text the two forms find the same matches.
use vstd::prelude::*;
use crate::span_view;

verus! {

#[verifier::external_type_specification]
#[verifier::external_body]
pub struct ExRegex(regex::bytes::Regex);

#[verifier::external_type_specification]
#[verifier::external_body]
pub struct ExRegexError(regex::Error);

/// Whether `regex::bytes::Regex::new` accepts `pattern`: the pattern is
/// syntactically valid and its compiled form fits the default size limit.
/// Both depend on the pattern alone.
pub uninterp spec fn regex_valid(pattern: Seq<char>) -> bool;

/// The byte offsets of the leftmost match that the compiled form of
/// `pattern` finds in `line`, or `None` when nothing in `line` matches.
/// The result depends on the pattern and the haystack alone.
pub uninterp spec fn regex_match_of(pattern: Seq<char>, line: Seq<u8>) -> Option<(int, int)>;

/// A compiled regular expression together with the pattern it was compiled
/// from. Both fields are private and only `compile` constructs a handle, so
/// the compiled form is always the one the `regex` crate derives from
/// `source`.
pub struct RegexHandle {
    source: String,
    re: regex::bytes::Regex,
}

impl RegexHandle {
    /// The pattern this handle was compiled from.
    pub closed spec fn source(&self) -> Seq<char> {
        self.source@
    }

    /// Relies on `regex::bytes::Regex::new`: it returns `Ok` exactly on the
    /// patterns it accepts, and acceptance is a function of the pattern.
    #[verifier::external_body]
    pub fn compile(pattern: &str) -> (r: Result<RegexHandle, regex::Error>)
        ensures
            r is Ok <==> regex_valid(pattern@),
            r matches Ok(h) ==> h.source() == pattern@,
    {
        match regex::bytes::Regex::new(pattern) {
            Ok(re) => Ok(RegexHandle { source: pattern.to_owned(), re }),
            Err(e) => Err(e),
        }
    }

    /// Relies on `regex::bytes::Regex::find`: it returns the byte offsets of
    /// the leftmost match in the haystack, offsets that lie within the
    /// haystack, and the same offsets for the same pattern and haystack.
    #[verifier::external_body]
    pub fn find(&self, line: &[u8]) -> (r: Option<(usize, usize)>)
        ensures
            span_view(r) == regex_match_of(self.source(), line@),
            r matches Some((s, e)) ==> s <= e <= line@.len(),
    {
        self.re.find(line).map(|m| (m.start(), m.end()))
    }

    /// Relies on `regex::bytes::Regex::clone`: the clone matches exactly as
    /// the original does.
    #[verifier::external_body]
    pub fn duplicate(&self) -> (r: RegexHandle)
        ensures
            r.source() == self.source(),
    {
        RegexHandle { source: self.source.clone(), re: self.re.clone() }
    }
}

} // verus!
