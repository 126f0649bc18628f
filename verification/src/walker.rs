//! The directory walker: it enumerates every regular file under a root,
//! pruning entries whose path extends an excluded directory or equals an
//! excluded file.
//!
//! A path is a list of components, each a byte string, as the walk
//! constructs it: the root path followed by the names along the way down.
use vstd::prelude::*;
use crate::seq_views;
use crate::text::bytes_eq;
use crate::text::clone_bytes;

verus! {

/// A filesystem path as a list of components.
pub type FsPath = Vec<Vec<u8>>;

/// One directory entry: its name and the subtree behind it.
pub struct DirEntry {
    pub name: Vec<u8>,
    pub tree: FsTree,
}

/// A snapshot of a filesystem subtree: a regular file, or a directory with
/// its entries.
pub enum FsTree {
    File,
    Dir { entries: Vec<DirEntry> },
}

/// The configured exclusions: directory paths whose subtrees are skipped,
/// and file paths that are skipped.
pub struct ExclusionSet {
    pub excluded_dirs: Vec<FsPath>,
    pub excluded_files: Vec<FsPath>,
}

/// The views of the paths in a sequence.
pub open spec fn paths_view(v: Seq<Vec<Vec<u8>>>) -> Seq<Seq<Seq<u8>>> {
    v.map_values(|p: Vec<Vec<u8>>| seq_views(p@))
}

impl ExclusionSet {
    /// The excluded directory paths.
    pub open spec fn dirs_view(&self) -> Seq<Seq<Seq<u8>>> {
        paths_view(self.excluded_dirs@)
    }

    /// The excluded file paths.
    pub open spec fn files_view(&self) -> Seq<Seq<Seq<u8>>> {
        paths_view(self.excluded_files@)
    }
}

/// Whether `prefix` is a component-wise prefix of `p`: `p` is `prefix`
/// itself or a descendant of it.
pub open spec fn path_starts_with(p: Seq<Seq<u8>>, prefix: Seq<Seq<u8>>) -> bool {
    prefix.len() <= p.len() && (forall|i: int| 0 <= i < prefix.len() ==> p[i] == prefix[i])
}

/// Whether `p` falls under one of the excluded directories.
pub open spec fn dir_excluded_spec(p: Seq<Seq<u8>>, xd: Seq<Seq<Seq<u8>>>) -> bool {
    exists|k: int| 0 <= k < xd.len() && path_starts_with(p, #[trigger] xd[k])
}

/// Whether `p` equals one of the excluded files.
pub open spec fn file_excluded_spec(p: Seq<Seq<u8>>, xf: Seq<Seq<Seq<u8>>>) -> bool {
    exists|k: int| 0 <= k < xf.len() && p == #[trigger] xf[k]
}

/// Whether the walk skips the entry at `p` altogether.
pub open spec fn entry_excluded(p: Seq<Seq<u8>>, xd: Seq<Seq<Seq<u8>>>, xf: Seq<Seq<Seq<u8>>>) -> bool {
    dir_excluded_spec(p, xd) || file_excluded_spec(p, xf)
}

/// The paths of the regular files the walk of the subtree `t`, reached at
/// `path`, returns, in entry order.
pub open spec fn walk_tree_spec(
    path: Seq<Seq<u8>>,
    t: FsTree,
    xd: Seq<Seq<Seq<u8>>>,
    xf: Seq<Seq<Seq<u8>>>,
) -> Seq<Seq<Seq<u8>>>
    decreases t, 0int,
{
    match t {
        FsTree::File => seq![path],
        FsTree::Dir { entries } => walk_entries_spec(path, entries@, 0, xd, xf),
    }
}

/// The files the walk returns from the entries of the directory at `base`,
/// starting with entry `i`.
pub open spec fn walk_entries_spec(
    base: Seq<Seq<u8>>,
    es: Seq<DirEntry>,
    i: int,
    xd: Seq<Seq<Seq<u8>>>,
    xf: Seq<Seq<Seq<u8>>>,
) -> Seq<Seq<Seq<u8>>>
    decreases es, es.len() - i,
{
    if i < 0 || i >= es.len() {
        Seq::empty()
    } else {
        let p = base.push(es[i].name@);
        let head = if entry_excluded(p, xd, xf) {
            Seq::empty()
        } else {
            walk_tree_spec(p, es[i].tree, xd, xf)
        };
        head + walk_entries_spec(base, es, i + 1, xd, xf)
    }
}

/// A faithful snapshot of a directory tree: within each directory the
/// entry names are distinct.
pub open spec fn tree_wf(t: FsTree) -> bool
    decreases t, 0int,
{
    match t {
        FsTree::File => true,
        FsTree::Dir { entries } => {
            &&& (forall|i: int, j: int|
                0 <= i < j < entries@.len() ==> (#[trigger] entries@[i].name@) != (
                #[trigger] entries@[j].name@))
            &&& (forall|i: int| 0 <= i < entries@.len() ==> tree_wf(#[trigger] entries@[i].tree))
        },
    }
}

/// Whether `q` is the path of a regular file in the subtree `t` reached at
/// `base`.
pub open spec fn is_file_at(base: Seq<Seq<u8>>, t: FsTree, q: Seq<Seq<u8>>) -> bool
    decreases t, 0int,
{
    match t {
        FsTree::File => q == base,
        FsTree::Dir { entries } => exists|i: int|
            0 <= i < entries@.len() && is_file_at(
                base.push((#[trigger] entries@[i]).name@),
                entries@[i].tree,
                q,
            ),
    }
}

/// Whether no prefix of `q` below `base` is excluded: `q` is neither under
/// an excluded directory nor an excluded file, and neither is any
/// directory on the way down from `base`.
pub open spec fn allowed_under(
    base: Seq<Seq<u8>>,
    q: Seq<Seq<u8>>,
    xd: Seq<Seq<Seq<u8>>>,
    xf: Seq<Seq<Seq<u8>>>,
) -> bool {
    forall|m: int| base.len() < m <= q.len() ==> !entry_excluded(#[trigger] q.subrange(0, m), xd, xf)
}

/// A file path reported from entry `j`: the entry itself is not excluded,
/// the file lies in its subtree, and nothing on the way down is excluded.
pub open spec fn file_from_entry(
    base: Seq<Seq<u8>>,
    es: Seq<DirEntry>,
    j: int,
    q: Seq<Seq<u8>>,
    xd: Seq<Seq<Seq<u8>>>,
    xf: Seq<Seq<Seq<u8>>>,
) -> bool {
    let p = base.push(es[j].name@);
    &&& is_file_at(p, es[j].tree, q)
    &&& !entry_excluded(p, xd, xf)
    &&& allowed_under(p, q, xd, xf)
}

/// A file's path extends the path of the subtree that holds it.
proof fn lemma_file_at_prefix(base: Seq<Seq<u8>>, t: FsTree, q: Seq<Seq<u8>>)
    requires
        is_file_at(base, t, q),
    ensures
        path_starts_with(q, base),
        t is File ==> q == base,
        t is Dir ==> q.len() > base.len(),
    decreases t, 0int,
{
    match t {
        FsTree::File => {},
        FsTree::Dir { entries } => {
            let i = choose|i: int|
                0 <= i < entries@.len() && is_file_at(
                    base.push((#[trigger] entries@[i]).name@),
                    entries@[i].tree,
                    q,
                );
            lemma_file_at_prefix(base.push(entries@[i].name@), entries@[i].tree, q);
        },
    }
}

/// Membership in a concatenation is membership in one of the parts.
proof fn lemma_add_contains<A>(a: Seq<A>, b: Seq<A>, x: A)
    ensures
        (a + b).contains(x) <==> a.contains(x) || b.contains(x),
{
    if (a + b).contains(x) {
        let n = choose|n: int| 0 <= n < (a + b).len() && (a + b)[n] == x;
        if n < a.len() {
            assert(a[n] == x);
        } else {
            assert(b[n - a.len()] == x);
        }
    }
    if a.contains(x) {
        let n = choose|n: int| 0 <= n < a.len() && a[n] == x;
        assert((a + b)[n] == x);
    }
    if b.contains(x) {
        let n = choose|n: int| 0 <= n < b.len() && b[n] == x;
        assert((a + b)[a.len() + n] == x);
    }
}

/// A concatenation of duplicate-free sequences with no common element is
/// duplicate-free.
proof fn lemma_add_no_duplicates<A>(a: Seq<A>, b: Seq<A>)
    requires
        a.no_duplicates(),
        b.no_duplicates(),
        forall|x: A| a.contains(x) ==> !b.contains(x),
    ensures
        (a + b).no_duplicates(),
{
    assert forall|i: int, j: int| 0 <= i < j < (a + b).len() implies (a + b)[i] != (a + b)[j] by {
        if i < a.len() && j >= a.len() {
            assert(a.contains(a[i]));
            if (a + b)[i] == (a + b)[j] {
                assert(b.contains(b[j - a.len()]));
            }
        }
    }
}

/// What the walk of one subtree returns: exactly the non-excluded regular
/// files beneath it, each once.
pub proof fn lemma_walk_files(
    path: Seq<Seq<u8>>,
    t: FsTree,
    xd: Seq<Seq<Seq<u8>>>,
    xf: Seq<Seq<Seq<u8>>>,
)
    requires
        tree_wf(t),
    ensures
        forall|q: Seq<Seq<u8>>|
            #[trigger] walk_tree_spec(path, t, xd, xf).contains(q) <==> (is_file_at(path, t, q)
                && allowed_under(path, q, xd, xf)),
        walk_tree_spec(path, t, xd, xf).no_duplicates(),
    decreases t, 0int,
{
    match t {
        FsTree::File => {
            assert(walk_tree_spec(path, t, xd, xf) == seq![path]);
            assert forall|q: Seq<Seq<u8>>| #[trigger] walk_tree_spec(path, t, xd, xf).contains(q)
                <==> (is_file_at(path, t, q) && allowed_under(path, q, xd, xf)) by {
                if is_file_at(path, t, q) {
                    assert(seq![path][0] == q);
                }
                if walk_tree_spec(path, t, xd, xf).contains(q) {
                    assert(q == path);
                }
            }
        },
        FsTree::Dir { entries } => {
            lemma_walk_entries_files(path, entries@, 0, xd, xf);
            let w = walk_tree_spec(path, t, xd, xf);
            assert(w == walk_entries_spec(path, entries@, 0, xd, xf));
            assert forall|q: Seq<Seq<u8>>| #[trigger] w.contains(q) <==> (is_file_at(path, t, q)
                && allowed_under(path, q, xd, xf)) by {
                if w.contains(q) {
                    let j = choose|j: int|
                        0 <= j < entries@.len() && #[trigger] file_from_entry(
                            path,
                            entries@,
                            j,
                            q,
                            xd,
                            xf,
                        );
                    let p = path.push(entries@[j].name@);
                    lemma_file_at_prefix(p, entries@[j].tree, q);
                    assert(is_file_at(path, t, q));
                    assert forall|m: int| path.len() < m <= q.len() implies !entry_excluded(
                        #[trigger] q.subrange(0, m),
                        xd,
                        xf,
                    ) by {
                        if m == path.len() + 1 {
                            assert(q.subrange(0, m) =~= p);
                        }
                    }
                }
                if is_file_at(path, t, q) && allowed_under(path, q, xd, xf) {
                    let i = choose|i: int|
                        0 <= i < entries@.len() && is_file_at(
                            path.push((#[trigger] entries@[i]).name@),
                            entries@[i].tree,
                            q,
                        );
                    let p = path.push(entries@[i].name@);
                    lemma_file_at_prefix(p, entries@[i].tree, q);
                    assert(q.subrange(0, path.len() as int + 1) =~= p);
                    assert(!entry_excluded(p, xd, xf));
                    assert forall|m: int| p.len() < m <= q.len() implies !entry_excluded(
                        #[trigger] q.subrange(0, m),
                        xd,
                        xf,
                    ) by {}
                    assert(file_from_entry(path, entries@, i, q, xd, xf));
                }
            }
        },
    }
}

/// What the walk of a directory's entries, from entry `i` on, returns.
proof fn lemma_walk_entries_files(
    base: Seq<Seq<u8>>,
    es: Seq<DirEntry>,
    i: int,
    xd: Seq<Seq<Seq<u8>>>,
    xf: Seq<Seq<Seq<u8>>>,
)
    requires
        0 <= i,
        forall|j: int, k: int| i <= j < k < es.len() ==> (#[trigger] es[j].name@) != (
        #[trigger] es[k].name@),
        forall|j: int| i <= j < es.len() ==> tree_wf(#[trigger] es[j].tree),
    ensures
        forall|q: Seq<Seq<u8>>|
            #[trigger] walk_entries_spec(base, es, i, xd, xf).contains(q) <==> exists|j: int|
                i <= j < es.len() && #[trigger] file_from_entry(base, es, j, q, xd, xf),
        walk_entries_spec(base, es, i, xd, xf).no_duplicates(),
    decreases es, es.len() - i,
{
    if i >= es.len() {
        assert forall|q: Seq<Seq<u8>>| !(#[trigger] walk_entries_spec(base, es, i, xd, xf).contains(
            q,
        )) by {}
    } else {
        lemma_walk_entries_files(base, es, i + 1, xd, xf);
        let p = base.push(es[i].name@);
        let head = if entry_excluded(p, xd, xf) {
            Seq::<Seq<Seq<u8>>>::empty()
        } else {
            walk_tree_spec(p, es[i].tree, xd, xf)
        };
        let rest = walk_entries_spec(base, es, i + 1, xd, xf);
        if !entry_excluded(p, xd, xf) {
            lemma_walk_files(p, es[i].tree, xd, xf);
        }
        assert(walk_entries_spec(base, es, i, xd, xf) == head + rest);
        assert forall|q: Seq<Seq<u8>>| #[trigger] walk_entries_spec(base, es, i, xd, xf).contains(q)
            <==> exists|j: int| i <= j < es.len() && #[trigger] file_from_entry(
                base,
                es,
                j,
                q,
                xd,
                xf,
            ) by {
            lemma_add_contains(head, rest, q);
            if head.contains(q) {
                assert(file_from_entry(base, es, i, q, xd, xf)) by {
                    assert(!entry_excluded(p, xd, xf));
                }
            }
            if exists|j: int| i <= j < es.len() && #[trigger] file_from_entry(base, es, j, q, xd, xf) {
                let j = choose|j: int|
                    i <= j < es.len() && #[trigger] file_from_entry(base, es, j, q, xd, xf);
                if j == i {
                    assert(head.contains(q));
                } else {
                    assert(file_from_entry(base, es, j, q, xd, xf));
                    assert(rest.contains(q));
                }
            }
        }
        assert forall|q: Seq<Seq<u8>>| head.contains(q) implies !rest.contains(q) by {
            if head.contains(q) && rest.contains(q) {
                lemma_file_at_prefix(p, es[i].tree, q);
                let j = choose|j: int|
                    i + 1 <= j < es.len() && #[trigger] file_from_entry(base, es, j, q, xd, xf);
                let pj = base.push(es[j].name@);
                lemma_file_at_prefix(pj, es[j].tree, q);
                assert(q[base.len() as int] == es[i].name@);
                assert(q[base.len() as int] == es[j].name@);
            }
        }
        lemma_add_no_duplicates(head, rest);
    }
}

/// Whether two paths hold the same components.
pub fn path_eq(a: &FsPath, b: &FsPath) -> (r: bool)
    ensures
        r <==> seq_views(a@) == seq_views(b@),
{
    if a.len() != b.len() {
        proof {
            assert(seq_views(a@).len() != seq_views(b@).len());
        }
        return false;
    }
    let mut i: usize = 0;
    while i < a.len()
        invariant
            i <= a@.len(),
            a@.len() == b@.len(),
            forall|j: int| 0 <= j < i ==> seq_views(a@)[j] == seq_views(b@)[j],
        decreases a@.len() - i,
    {
        if !bytes_eq(&a[i], &b[i]) {
            proof {
                assert(seq_views(a@)[i as int] != seq_views(b@)[i as int]);
            }
            return false;
        }
        i = i + 1;
    }
    proof {
        assert(seq_views(a@) =~= seq_views(b@));
    }
    true
}

/// Whether `prefix` is a component-wise prefix of `p`.
pub fn path_starts_with_exec(p: &FsPath, prefix: &FsPath) -> (r: bool)
    ensures
        r == path_starts_with(seq_views(p@), seq_views(prefix@)),
{
    if prefix.len() > p.len() {
        return false;
    }
    let mut i: usize = 0;
    while i < prefix.len()
        invariant
            i <= prefix@.len() <= p@.len(),
            forall|j: int| 0 <= j < i ==> seq_views(p@)[j] == seq_views(prefix@)[j],
        decreases prefix@.len() - i,
    {
        if !bytes_eq(&p[i], &prefix[i]) {
            proof {
                assert(seq_views(p@)[i as int] != seq_views(prefix@)[i as int]);
            }
            return false;
        }
        i = i + 1;
    }
    true
}

/// Whether `p` falls under one of the excluded directories.
pub fn dir_excluded(p: &FsPath, excl: &ExclusionSet) -> (r: bool)
    ensures
        r == dir_excluded_spec(seq_views(p@), excl.dirs_view()),
{
    let dirs = &excl.excluded_dirs;
    let mut k: usize = 0;
    while k < dirs.len()
        invariant
            k <= dirs@.len(),
            dirs@ == excl.excluded_dirs@,
            forall|j: int| 0 <= j < k ==> !path_starts_with(
                seq_views(p@),
                #[trigger] excl.dirs_view()[j],
            ),
        decreases dirs@.len() - k,
    {
        if path_starts_with_exec(p, &dirs[k]) {
            proof {
                assert(path_starts_with(seq_views(p@), excl.dirs_view()[k as int]));
            }
            return true;
        }
        k = k + 1;
    }
    false
}

/// Whether `p` equals one of the excluded files.
pub fn file_excluded(p: &FsPath, excl: &ExclusionSet) -> (r: bool)
    ensures
        r == file_excluded_spec(seq_views(p@), excl.files_view()),
{
    let files = &excl.excluded_files;
    let mut k: usize = 0;
    while k < files.len()
        invariant
            k <= files@.len(),
            files@ == excl.excluded_files@,
            forall|j: int| 0 <= j < k ==> seq_views(p@) != #[trigger] excl.files_view()[j],
        decreases files@.len() - k,
    {
        if path_eq(p, &files[k]) {
            proof {
                assert(seq_views(p@) == excl.files_view()[k as int]);
            }
            return true;
        }
        k = k + 1;
    }
    false
}

/// Copies a path.
pub fn clone_path(p: &FsPath) -> (r: FsPath)
    ensures
        seq_views(r@) == seq_views(p@),
{
    let mut out: FsPath = Vec::new();
    let mut i: usize = 0;
    while i < p.len()
        invariant
            i <= p@.len(),
            seq_views(out@) == seq_views(p@).take(i as int),
        decreases p@.len() - i,
    {
        let c = clone_bytes(&p[i]);
        proof {
            assert(seq_views(out@.push(c)) =~= seq_views(out@).push(c@));
            assert(seq_views(p@).take(i as int).push(seq_views(p@)[i as int]) =~= seq_views(
                p@,
            ).take(i as int + 1));
        }
        out.push(c);
        i = i + 1;
    }
    proof {
        assert(seq_views(p@).take(p@.len() as int) =~= seq_views(p@));
    }
    out
}

/// Appends the files of the subtree `t`, reached at `path`, to `out`.
fn walk_into(path: &FsPath, t: &FsTree, excl: &ExclusionSet, out: &mut Vec<FsPath>)
    ensures
        paths_view(final(out)@) == paths_view(old(out)@) + walk_tree_spec(
            seq_views(path@),
            *t,
            excl.dirs_view(),
            excl.files_view(),
        ),
    decreases *t, 0int,
{
    let ghost xd = excl.dirs_view();
    let ghost xf = excl.files_view();
    match t {
        FsTree::File => {
            let c = clone_path(path);
            proof {
                assert(paths_view(out@.push(c)) =~= paths_view(out@).push(seq_views(path@)));
                assert(paths_view(out@).push(seq_views(path@)) =~= paths_view(out@) + seq![
                    seq_views(path@),
                ]);
            }
            out.push(c);
        },
        FsTree::Dir { entries } => {
            let mut i: usize = 0;
            proof {
                assert(paths_view(out@) + Seq::<Seq<Seq<u8>>>::empty() =~= paths_view(out@));
            }
            while i < entries.len()
                invariant
                    i <= entries@.len(),
                    *t == (FsTree::Dir { entries: *entries }),
                    xd == excl.dirs_view(),
                    xf == excl.files_view(),
                    paths_view(out@) + walk_entries_spec(
                        seq_views(path@),
                        entries@,
                        i as int,
                        xd,
                        xf,
                    ) == paths_view(old(out)@) + walk_entries_spec(
                        seq_views(path@),
                        entries@,
                        0,
                        xd,
                        xf,
                    ),
                decreases entries@.len() - i,
            {
                let mut child = clone_path(path);
                let name = clone_bytes(&entries[i].name);
                proof {
                    assert(seq_views(child@.push(name)) =~= seq_views(child@).push(name@));
                }
                child.push(name);
                proof {
                    assert(seq_views(child@) == seq_views(path@).push(entries@[i as int].name@));
                }
                if !dir_excluded(&child, excl) && !file_excluded(&child, excl) {
                    proof {
                        assert(decreases_to!(*t => t->Dir_entries));
                        assert(t->Dir_entries == *entries);
                        assert(decreases_to!(*entries => entries@));
                        assert(decreases_to!(entries@ => entries@[i as int]));
                        assert(decreases_to!(entries@[i as int] => entries@[i as int].tree));
                    }
                    walk_into(&child, &entries[i].tree, excl, out);
                }
                i = i + 1;
                proof {
                    assert(paths_view(out@) + walk_entries_spec(
                        seq_views(path@),
                        entries@,
                        i as int,
                        xd,
                        xf,
                    ) =~= paths_view(old(out)@) + walk_entries_spec(
                        seq_views(path@),
                        entries@,
                        0,
                        xd,
                        xf,
                    ));
                }
            }
            proof {
                assert(paths_view(out@) =~= paths_view(out@) + walk_entries_spec(
                    seq_views(path@),
                    entries@,
                    i as int,
                    xd,
                    xf,
                ));
            }
        },
    }
}

/// Walks the snapshot `tree`, reached at `root`, and returns the paths of
/// every regular file that is not excluded, in entry order, each exactly
/// once.
pub fn get_files(root: &FsPath, tree: &FsTree, excl: &ExclusionSet) -> (r: Vec<FsPath>)
    ensures
        paths_view(r@) == walk_tree_spec(
            seq_views(root@),
            *tree,
            excl.dirs_view(),
            excl.files_view(),
        ),
{
    let mut out: Vec<FsPath> = Vec::new();
    proof {
        assert(paths_view(out@).len() == 0);
    }
    walk_into(root, tree, excl, &mut out);
    proof {
        assert(paths_view(out@) =~= walk_tree_spec(
            seq_views(root@),
            *tree,
            excl.dirs_view(),
            excl.files_view(),
        ));
    }
    out
}

} // verus!
