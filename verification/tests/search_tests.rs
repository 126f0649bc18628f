use linegrep::SearchError;
use linegrep::dispatcher::search_all;
use linegrep::lines::split_lines_exec;
use linegrep::pattern::Pattern;
use linegrep::scanner::{find_matches, search};
use linegrep::walker::{get_files, DirEntry, ExclusionSet, FsTree};

fn bv(s: &str) -> Vec<u8> {
    s.as_bytes().to_vec()
}

fn path(comps: &[&str]) -> Vec<Vec<u8>> {
    comps.iter().map(|c| bv(c)).collect()
}

fn file_entry(name: &str) -> DirEntry {
    DirEntry { name: bv(name), tree: FsTree::File }
}

fn dir_entry(name: &str, entries: Vec<DirEntry>) -> DirEntry {
    DirEntry { name: bv(name), tree: FsTree::Dir { entries } }
}

fn no_exclusions() -> ExclusionSet {
    ExclusionSet { excluded_dirs: Vec::new(), excluded_files: Vec::new() }
}

#[test]
fn literal_find_lowest_occurrence() {
    let p = Pattern::literal(bv("oo"));
    assert_eq!(p.find(b"book look"), Some((1, 3)));
    assert_eq!(p.find(b"xyz"), None);
}

#[test]
fn literal_find_end_is_start_plus_len() {
    let p = Pattern::literal(bv("foo"));
    assert_eq!(p.find(b"a foo b"), Some((2, 5)));
}

#[test]
fn literal_find_empty_needle() {
    let p = Pattern::literal(bv(""));
    assert_eq!(p.find(b"ab"), Some((0, 0)));
    assert_eq!(p.find(b""), Some((0, 0)));
}

#[test]
fn literal_find_multibyte_needle() {
    let p = Pattern::literal("é".as_bytes().to_vec());
    assert_eq!(p.find("café".as_bytes()), Some((3, 5)));
}

#[test]
fn regex_find_leftmost() {
    let p = Pattern::new("o+", true).unwrap();
    assert_eq!(p.find(b"foo boo"), Some((1, 3)));
}

#[test]
fn regex_find_anchored_whole_line() {
    let p = Pattern::new("^a.*z$", true).unwrap();
    assert_eq!(p.find(b"abcz"), Some((0, 4)));
    assert_eq!(p.find(b"abc"), None);
}

#[test]
fn invalid_regex_is_rejected_before_any_scan() {
    let r = Pattern::new("foo(bar", true);
    assert_eq!(r.err(), Some(SearchError::InvalidPattern));
}

#[test]
fn literal_mode_never_rejects() {
    let p = Pattern::new("foo(bar", false).unwrap();
    assert_eq!(p.find(b"x foo(bar y"), Some((2, 9)));
}

#[test]
fn duplicate_matches_like_original() {
    let p = Pattern::new("o+", true).unwrap();
    let q = p.duplicate();
    assert_eq!(q.find(b"foo boo"), Some((1, 3)));
    assert_eq!(p.find(b"foo boo"), q.find(b"foo boo"));
    let l = Pattern::literal(bv("oo"));
    let m = l.duplicate();
    assert_eq!(m.find(b"book"), Some((1, 3)));
}

#[test]
fn split_lines_newline_and_crlf() {
    let got = split_lines_exec(b"a\r\nb\nc");
    assert_eq!(got, vec![bv("a"), bv("b"), bv("c")]);
}

#[test]
fn split_lines_edge_cases() {
    assert_eq!(split_lines_exec(b""), Vec::<Vec<u8>>::new());
    assert_eq!(split_lines_exec(b"\n"), vec![bv("")]);
    assert_eq!(split_lines_exec(b"a\n"), vec![bv("a")]);
    assert_eq!(split_lines_exec(b"a\r"), vec![bv("a\r")]);
    assert_eq!(split_lines_exec(b"a\n\nb"), vec![bv("a"), bv(""), bv("b")]);
}

#[test]
fn scenario_literal_foo_two_report_lines() {
    let p = Pattern::new("foo", false).unwrap();
    let reports = search(b"test.txt", b"a foo b\nnoo match\nfoo foo", &p);
    assert_eq!(reports.len(), 2);
    let expected1 = format!("\u{1b}[34;1m[test.txt:1]:\u{1b}[0m a \u{1b}[32mfoo\u{1b}[0m b");
    let expected2 = format!("\u{1b}[34;1m[test.txt:3]:\u{1b}[0m \u{1b}[32mfoo\u{1b}[0m foo");
    assert_eq!(reports[0], expected1.as_bytes().to_vec());
    assert_eq!(reports[1], expected2.as_bytes().to_vec());
}

#[test]
fn scenario_regex_whole_line_match() {
    let p = Pattern::new("^a.*z$", true).unwrap();
    let reports = search(b"f", b"abcz", &p);
    assert_eq!(reports.len(), 1);
    let expected = format!("\u{1b}[34m[f:1]:\u{1b}[0m \u{1b}[32mabcz\u{1b}[0m");
    assert_eq!(reports[0], expected.as_bytes().to_vec());
}

#[test]
fn scenario_no_occurrences_no_report_lines() {
    let p = Pattern::new("absent", false).unwrap();
    let reports = search(b"f", b"one\ntwo\nthree", &p);
    assert_eq!(reports.len(), 0);
}

#[test]
fn report_body_is_trimmed() {
    let p = Pattern::new("foo", false).unwrap();
    let reports = search(b"f", b"  foo  ", &p);
    assert_eq!(reports.len(), 1);
    let expected = format!("\u{1b}[34;1m[f:1]:\u{1b}[0m \u{1b}[32mfoo\u{1b}[0m");
    assert_eq!(reports[0], expected.as_bytes().to_vec());
}

#[test]
fn line_numbers_one_based_strictly_increasing() {
    let lines = split_lines_exec(b"x\nfoo\nx\nfoo x foo");
    let p = Pattern::new("foo", false).unwrap();
    let ms = find_matches(&lines, &p);
    assert_eq!(ms.len(), 2);
    assert_eq!((ms[0].line_number, ms[0].start, ms[0].end), (2, 0, 3));
    assert_eq!((ms[1].line_number, ms[1].start, ms[1].end), (4, 0, 3));
    assert!(ms.len() <= lines.len());
    assert!(ms[0].line_number < ms[1].line_number);
}

#[test]
fn same_search_twice_is_byte_identical() {
    let p = Pattern::new("o+", true).unwrap();
    let r1 = search(b"f", b"foo\nbar\nboo", &p);
    let r2 = search(b"f", b"foo\nbar\nboo", &p);
    assert_eq!(r1, r2);
    let files = vec![(bv("a"), bv("foo\nboo")), (bv("b"), bv("no match here"))];
    let s1 = search_all(&files, &p);
    let s2 = search_all(&files, &p);
    assert_eq!(s1, s2);
}

#[test]
fn search_all_keeps_per_file_order() {
    let p = Pattern::new("x", false).unwrap();
    let files = vec![(bv("one"), bv("x\ny\nx")), (bv("two"), bv("y"))];
    let r = search_all(&files, &p);
    assert_eq!(r.len(), 2);
    assert_eq!(r[0].len(), 2);
    assert_eq!(r[1].len(), 0);
    assert!(String::from_utf8(r[0][0].clone()).unwrap().contains("[one:1]:"));
    assert!(String::from_utf8(r[0][1].clone()).unwrap().contains("[one:3]:"));
}

#[test]
fn walk_lists_every_file_once() {
    let tree = FsTree::Dir {
        entries: vec![
            file_entry("a.txt"),
            dir_entry("d", vec![file_entry("b.txt"), dir_entry("e", vec![file_entry("c.txt")])]),
        ],
    };
    let got = get_files(&path(&["r"]), &tree, &no_exclusions());
    assert_eq!(
        got,
        vec![path(&["r", "a.txt"]), path(&["r", "d", "b.txt"]), path(&["r", "d", "e", "c.txt"])]
    );
}

#[test]
fn scenario_excluded_dir_is_pruned() {
    let tree = FsTree::Dir {
        entries: vec![
            dir_entry("build", vec![file_entry("x.txt")]),
            dir_entry("src", vec![file_entry("x.txt")]),
        ],
    };
    let excl = ExclusionSet { excluded_dirs: vec![path(&["build"])], excluded_files: Vec::new() };
    let got = get_files(&path(&[]), &tree, &excl);
    assert_eq!(got, vec![path(&["src", "x.txt"])]);
}

#[test]
fn excluded_dir_prunes_descendants() {
    let tree = FsTree::Dir {
        entries: vec![dir_entry("d", vec![dir_entry("sub", vec![file_entry("f")])])],
    };
    let excl = ExclusionSet { excluded_dirs: vec![path(&["d"])], excluded_files: Vec::new() };
    let got = get_files(&path(&[]), &tree, &excl);
    assert_eq!(got.len(), 0);
}

#[test]
fn excluded_file_is_skipped() {
    let tree = FsTree::Dir { entries: vec![file_entry("a.txt"), file_entry("b.txt")] };
    let excl = ExclusionSet { excluded_dirs: Vec::new(), excluded_files: vec![path(&["a.txt"])] };
    let got = get_files(&path(&[]), &tree, &excl);
    assert_eq!(got, vec![path(&["b.txt"])]);
}

#[test]
fn exclusion_matches_path_as_constructed() {
    let tree = FsTree::Dir { entries: vec![dir_entry("build", vec![file_entry("x")])] };
    let excl = ExclusionSet { excluded_dirs: vec![path(&["build"])], excluded_files: Vec::new() };
    let got = get_files(&path(&["t"]), &tree, &excl);
    assert_eq!(got, vec![path(&["t", "build", "x"])]);
    let excl2 = ExclusionSet {
        excluded_dirs: vec![path(&["t", "build"])],
        excluded_files: Vec::new(),
    };
    let got2 = get_files(&path(&["t"]), &tree, &excl2);
    assert_eq!(got2.len(), 0);
}

#[test]
fn multi_digit_line_numbers_rendered_in_decimal() {
    let p = Pattern::new("hit", false).unwrap();
    let text = "miss\n".repeat(11) + "hit";
    let reports = search(b"f", text.as_bytes(), &p);
    assert_eq!(reports.len(), 1);
    let expected = format!("\u{1b}[34;1m[f:12]:\u{1b}[0m \u{1b}[32mhit\u{1b}[0m");
    assert_eq!(reports[0], expected.as_bytes().to_vec());
}

#[test]
fn error_messages_name_the_error() {
    assert_eq!(SearchError::InvalidPattern.message(), "Invalid Regex pattern");
    assert_eq!(SearchError::InvalidPath.message(), "Invalid path");
    assert_eq!(SearchError::NotFound.message(), "File or directory not found");
    assert_eq!(SearchError::IoError.message(), "IO error");
    assert_eq!(SearchError::InvalidEncoding.message(), "Invalid UTF-8 text");
}
