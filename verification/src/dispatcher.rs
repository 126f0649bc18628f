//! The search dispatcher's computational core: one pattern, many files,
//! one set of report lines per file.
//!
//! Running the scans concurrently, one task per file, is the caller's
//! affair; each file's reports depend on nothing but that file's label,
//! its text and the pattern, so any schedule yields the same per-file
//! output.
use vstd::prelude::*;
use crate::pattern::Pattern;
use crate::scanner::search;
use crate::scanner::search_spec;
use crate::seq_views;

verus! {

/// Scans every `(label, text)` pair with the same pattern and returns the
/// report lines of each, in the order the files were given.
pub fn search_all(files: &Vec<(Vec<u8>, Vec<u8>)>, pattern: &Pattern) -> (r: Vec<Vec<Vec<u8>>>)
    ensures
        r@.len() == files@.len(),
        forall|i: int| 0 <= i < files@.len() ==> seq_views(#[trigger] r@[i]@) == search_spec(
            files@[i].0@,
            files@[i].1@,
            *pattern,
        ),
{
    let mut out: Vec<Vec<Vec<u8>>> = Vec::new();
    let mut i: usize = 0;
    while i < files.len()
        invariant
            i <= files@.len(),
            out@.len() == i,
            forall|j: int| 0 <= j < i ==> seq_views(#[trigger] out@[j]@) == search_spec(
                files@[j].0@,
                files@[j].1@,
                *pattern,
            ),
        decreases files@.len() - i,
    {
        let reports = search(files[i].0.as_slice(), files[i].1.as_slice(), pattern);
        out.push(reports);
        i = i + 1;
    }
    out
}

/// Scanning the same input with the same pattern twice yields byte-identical
/// report lines: a scan's output is a function of the label, the text and
/// the pattern alone.
pub proof fn lemma_search_idempotent(
    r1: Seq<Seq<u8>>,
    r2: Seq<Seq<u8>>,
    label: Seq<u8>,
    text: Seq<u8>,
    p: Pattern,
)
    requires
        r1 == search_spec(label, text, p),
        r2 == search_spec(label, text, p),
    ensures
        r1 == r2,
{
}

} // verus!
