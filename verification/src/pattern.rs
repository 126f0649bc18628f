//! The pattern matcher: one closed sum of a literal byte needle and a
//! compiled regular expression, chosen once per run and consulted through a
//! single `find` capability.
use vstd::prelude::*;
use vstd::string::StringSliceAdditionalSpecFns;
use vstd::string::StrSliceExecFns;
use crate::SearchError;
use crate::rx;
use crate::rx::RegexHandle;
use crate::span_view;
use crate::text::clone_bytes;

verus! {

/// Whether `needle` occurs in `line` starting at byte offset `i`.
pub open spec fn occurs_at(line: Seq<u8>, needle: Seq<u8>, i: int) -> bool {
    0 <= i && i + needle.len() <= line.len() && line.subrange(i, i + needle.len()) == needle
}

/// The lowest byte offset at which `needle` occurs in `line`, or `None`
/// when it does not occur at all. The empty needle occurs at offset zero.
pub open spec fn lit_first(line: Seq<u8>, needle: Seq<u8>) -> Option<int>
    decreases line.len(),
{
    if occurs_at(line, needle, 0) {
        Some(0)
    } else if line.len() == 0 {
        None
    } else {
        match lit_first(line.drop_first(), needle) {
            Some(i) => Some(i + 1),
            None => None,
        }
    }
}

/// `lit_first` returns exactly the lowest occurrence of `needle` in `line`.
pub proof fn lemma_lit_first(line: Seq<u8>, needle: Seq<u8>)
    ensures
        match lit_first(line, needle) {
            Some(i) => occurs_at(line, needle, i) && (forall|j: int|
                0 <= j < i ==> !occurs_at(line, needle, j)),
            None => forall|j: int| !occurs_at(line, needle, j),
        },
    decreases line.len(),
{
    if occurs_at(line, needle, 0) {
    } else if line.len() == 0 {
        assert forall|j: int| !occurs_at(line, needle, j) by {
            if occurs_at(line, needle, j) {
                assert(j == 0);
            }
        }
    } else {
        lemma_lit_first(line.drop_first(), needle);
        assert forall|j: int| 1 <= j implies (occurs_at(line, needle, j) <==> occurs_at(
            line.drop_first(),
            needle,
            j - 1,
        )) by {
            if 1 <= j && j + needle.len() <= line.len() {
                assert(line.drop_first().subrange(j - 1, j - 1 + needle.len()) =~= line.subrange(
                    j,
                    j + needle.len(),
                ));
            }
        }
    }
}

/// The span of the first literal match of `needle` in `line`.
pub open spec fn lit_find(line: Seq<u8>, needle: Seq<u8>) -> Option<(int, int)> {
    match lit_first(line, needle) {
        Some(i) => Some((i, i + needle.len())),
        None => None,
    }
}

/// Relies on `memchr::memmem::find`: it returns the index of the first
/// occurrence of `needle` in `haystack`, or `None` when there is none.
#[verifier::external_body]
fn memmem_find(haystack: &[u8], needle: &[u8]) -> (r: Option<usize>)
    ensures
        match r {
            Some(i) => occurs_at(haystack@, needle@, i as int) && (forall|j: int|
                0 <= j < i ==> !occurs_at(haystack@, needle@, j)),
            None => forall|j: int| !occurs_at(haystack@, needle@, j),
        },
{
    memchr::memmem::find(haystack, needle)
}

enum PatternInner {
    Literal(Vec<u8>),
    Rx(RegexHandle),
}

/// A search pattern: either a literal byte needle or a compiled regular
/// expression. The variant is chosen once, at construction, and never
/// changes.
pub struct Pattern {
    inner: PatternInner,
}

impl Pattern {
    /// Whether this is the regular-expression variant.
    pub closed spec fn is_regex(&self) -> bool {
        self.inner is Rx
    }

    /// The needle of the literal variant.
    pub closed spec fn needle(&self) -> Seq<u8> {
        self.inner->Literal_0@
    }

    /// The pattern source of the regular-expression variant.
    pub closed spec fn source(&self) -> Seq<char> {
        self.inner->Rx_0.source()
    }

    /// The span `find` reports for `line`.
    pub open spec fn spec_find(&self, line: Seq<u8>) -> Option<(int, int)> {
        if self.is_regex() {
            rx::regex_match_of(self.source(), line)
        } else {
            lit_find(line, self.needle())
        }
    }

    /// Whether this is the regular-expression variant.
    pub fn is_regex_exec(&self) -> (r: bool)
        ensures
            r == self.is_regex(),
    {
        match &self.inner {
            PatternInner::Literal(_) => false,
            PatternInner::Rx(_) => true,
        }
    }

    /// A literal pattern that matches `needle` as an opaque byte run.
    pub fn literal(needle: Vec<u8>) -> (r: Pattern)
        ensures
            !r.is_regex(),
            r.needle() == needle@,
    {
        Pattern { inner: PatternInner::Literal(needle) }
    }

    /// A regular-expression pattern, compiled from `source`, or
    /// `InvalidPattern` when `source` is not a valid expression.
    pub fn regex(source: &str) -> (r: Result<Pattern, SearchError>)
        ensures
            r is Ok <==> rx::regex_valid(source@),
            r matches Ok(p) ==> p.is_regex() && p.source() == source@,
            r matches Err(e) ==> e == SearchError::InvalidPattern,
    {
        match RegexHandle::compile(source) {
            Ok(h) => Ok(Pattern { inner: PatternInner::Rx(h) }),
            Err(_) => Err(SearchError::InvalidPattern),
        }
    }

    /// The pattern for one invocation: the regular-expression variant when
    /// `use_regex` is set, else the literal variant over the bytes of
    /// `search`.
    pub fn new(search: &str, use_regex: bool) -> (r: Result<Pattern, SearchError>)
        ensures
            use_regex ==> {
                &&& r is Ok <==> rx::regex_valid(search@)
                &&& r matches Ok(p) ==> p.is_regex() && p.source() == search@
                &&& r matches Err(e) ==> e == SearchError::InvalidPattern
            },
            !use_regex ==> (r matches Ok(p) && !p.is_regex() && p.needle() == search.spec_bytes()),
    {
        if use_regex {
            Pattern::regex(search)
        } else {
            Ok(Pattern::literal(search.as_bytes_vec()))
        }
    }

    /// An independent copy that reports the same spans.
    pub fn duplicate(&self) -> (r: Pattern)
        ensures
            r.is_regex() == self.is_regex(),
            self.is_regex() ==> r.source() == self.source(),
            !self.is_regex() ==> r.needle() == self.needle(),
    {
        match &self.inner {
            PatternInner::Literal(n) => Pattern { inner: PatternInner::Literal(clone_bytes(n)) },
            PatternInner::Rx(h) => Pattern { inner: PatternInner::Rx(h.duplicate()) },
        }
    }

    /// The first match of this pattern in `line`, as byte offsets of its
    /// start and end, or `None` when `line` holds no match.
    ///
    /// For the literal variant the result is exactly the lowest occurrence
    /// of the needle, with the end offset the start plus the needle length;
    /// for the regular-expression variant it is the leftmost match of the
    /// compiled expression.
    pub fn find(&self, line: &[u8]) -> (r: Option<(usize, usize)>)
        ensures
            span_view(r) == self.spec_find(line@),
            r matches Some((s, e)) ==> s <= e <= line@.len(),
            !self.is_regex() ==> match r {
                Some((s, e)) => occurs_at(line@, self.needle(), s as int) && e == s
                    + self.needle().len() && (forall|j: int|
                    0 <= j < s ==> !occurs_at(line@, self.needle(), j)),
                None => forall|j: int| !occurs_at(line@, self.needle(), j),
            },
    {
        match &self.inner {
            PatternInner::Literal(n) => {
                let llen: usize = line.len();
                let found = memmem_find(line, n.as_slice());
                proof {
                    lemma_lit_first(line@, n@);
                }
                match found {
                    Some(i) => {
                        proof {
                            let k = lit_first(line@, n@);
                            if k is Some {
                                assert(k->0 == i as int) by {
                                    if k->0 < i as int {
                                        assert(occurs_at(line@, n@, k->0));
                                    }
                                    if k->0 > i as int {
                                        assert(occurs_at(line@, n@, i as int));
                                    }
                                }
                            } else {
                                assert(!occurs_at(line@, n@, i as int));
                            }
                            assert(i + n@.len() <= llen);
                        }
                        Some((i, i + n.len()))
                    },
                    None => {
                        proof {
                            let k = lit_first(line@, n@);
                            if k is Some {
                                assert(occurs_at(line@, n@, k->0));
                            }
                        }
                        None
                    },
                }
            },
            PatternInner::Rx(h) => h.find(line),
        }
    }
}

} // verus!
