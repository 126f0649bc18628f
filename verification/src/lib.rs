use vstd::prelude::*;

pub mod dispatcher;
pub mod lines;
pub mod pattern;
pub mod rx;
pub mod scanner;
pub mod text;
pub mod walker;

verus! {

/// The view of an optional byte span as a pair of mathematical integers.
pub open spec fn span_view(r: Option<(usize, usize)>) -> Option<(int, int)> {
    match r {
        Some((s, e)) => Some((s as int, e as int)),
        None => None,
    }
}

/// The views of the byte strings in a sequence.
pub open spec fn seq_views(v: Seq<Vec<u8>>) -> Seq<Seq<u8>> {
    v.map_values(|x: Vec<u8>| x@)
}

/// The kinds of fatal errors a search can run into.
#[derive(Clone, Copy, Debug, PartialEq, Eq, Structural)]
pub enum SearchError {
    /// The search string is not a valid regular expression.
    InvalidPattern,
    /// A supplied path string cannot be parsed as a path.
    InvalidPath,
    /// A file or directory does not exist.
    NotFound,
    /// A read failure, permission failure, or entry-type query failure.
    IoError,
    /// File content is not valid text.
    InvalidEncoding,
}

impl SearchError {
    /// The message shown to the user when this error aborts the search.
    pub fn message(&self) -> (r: String)
        ensures
            *self is InvalidPattern ==> r@ == "Invalid Regex pattern"@,
            *self is InvalidPath ==> r@ == "Invalid path"@,
            *self is NotFound ==> r@ == "File or directory not found"@,
            *self is IoError ==> r@ == "IO error"@,
            *self is InvalidEncoding ==> r@ == "Invalid UTF-8 text"@,
    {
        match self {
            SearchError::InvalidPattern => "Invalid Regex pattern".to_owned(),
            SearchError::InvalidPath => "Invalid path".to_owned(),
            SearchError::NotFound => "File or directory not found".to_owned(),
            SearchError::IoError => "IO error".to_owned(),
            SearchError::InvalidEncoding => "Invalid UTF-8 text".to_owned(),
        }
    }
}

} // verus!
