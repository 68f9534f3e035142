use fencecat::exclude::{contains_bytes, is_excluded};
use fencecat::paths::{get_relative_path, join, resolve_path, strip_base};
use fencecat::report::{join_arguments, plan_argument, EntryKind, Outcome, Report, SkipReason, Step};
use fencecat::text::{fenced_block, process_file, FileResult};
use fencecat::walk::{NodeKind, Visit, Walk};

fn b(s: &str) -> Vec<u8> {
    s.as_bytes().to_vec()
}

#[test]
fn substring_exclusion_matches_inside_names() {
    let pats = vec![b("secret")];
    assert!(is_excluded(b"/tmp/secret.txt", &pats));
    assert!(is_excluded(b"/tmp/mysecretdir/file.txt", &pats));
    assert!(!is_excluded(b"/tmp/public/file.txt", &pats));
}

#[test]
fn empty_pattern_list_excludes_nothing() {
    assert!(!is_excluded(b"/tmp/a.txt", &Vec::new()));
}

#[test]
fn resolved_pattern_matches_by_substring() {
    let pat = resolve_path(b"dir/skip", None, b"/work");
    assert_eq!(pat, b("/work/dir/skip"));
    let pats = vec![pat];
    assert!(is_excluded(b"/work/dir/skip/x.txt", &pats));
    assert!(is_excluded(b"/work/dir/skipped.txt", &pats));
    assert!(!is_excluded(b"/work/dir/keep/x.txt", &pats));
}

#[test]
fn contains_edge_cases() {
    assert!(contains_bytes(b"abc", b""));
    assert!(contains_bytes(b"abc", b"abc"));
    assert!(contains_bytes(b"abc", b"c"));
    assert!(!contains_bytes(b"abc", b"abcd"));
    assert!(!contains_bytes(b"", b"a"));
}

#[test]
fn join_cases() {
    assert_eq!(join(b"/work", b"a.txt"), b("/work/a.txt"));
    assert_eq!(join(b"/", b"a.txt"), b("/a.txt"));
    assert_eq!(join(b"/work", b"/etc/x"), b("/etc/x"));
    assert_eq!(join(b"", b"a"), b("a"));
}

#[test]
fn resolve_prefers_canonical_form() {
    assert_eq!(resolve_path(b"./a.txt", Some(b("/work/a.txt")), b"/work"), b("/work/a.txt"));
    assert_eq!(resolve_path(b"missing.txt", None, b"/work"), b("/work/missing.txt"));
}

#[test]
fn resolve_is_idempotent() {
    let once = resolve_path(b"missing.txt", None, b"/work");
    let twice = resolve_path(&once, None, b"/work");
    assert_eq!(once, twice);
    let once = resolve_path(b"a.txt", Some(b("/work/a.txt")), b"/work");
    let twice = resolve_path(&once, Some(once.clone()), b"/work");
    assert_eq!(once, twice);
}

#[test]
fn relative_display_paths() {
    assert_eq!(get_relative_path(b"/work/src/a.rs", false, b"/work"), b("src/a.rs"));
    assert_eq!(get_relative_path(b"/work/src/a.rs", true, b"/work"), b("/work/src/a.rs"));
    assert_eq!(get_relative_path(b"/workshop/a.rs", false, b"/work"), b("/workshop/a.rs"));
    assert_eq!(get_relative_path(b"/other/a.rs", false, b"/work"), b("/other/a.rs"));
    assert_eq!(get_relative_path(b"/a.rs", false, b"/"), b("a.rs"));
    assert_eq!(strip_base(b"/work", b"/work"), Some(Vec::new()));
    assert_eq!(strip_base(b"/workshop", b"/work"), None);
}

#[test]
fn text_file_printed_as_one_block() {
    match process_file(b"a.txt", b"fn main() {}\n") {
        FileResult::Printed(block) => assert_eq!(block, b("```a.txt\nfn main() {}\n```\n\n")),
        FileResult::NotText => panic!("text reported as binary"),
    }
    assert_eq!(fenced_block(b"e", b""), b("```e\n```\n\n"));
}

#[test]
fn binary_file_skipped() {
    assert!(matches!(process_file(b"img.png", &[0x89, 0x50, 0xff, 0xfe]), FileResult::NotText));
    assert!(matches!(process_file(b"x", &[0xc3]), FileResult::NotText));
    assert!(matches!(process_file(b"x", "é".as_bytes()), FileResult::Printed(_)));
}

#[test]
fn plan_precedence() {
    let none: Vec<Vec<u8>> = Vec::new();
    let pats = vec![b("/work/x")];
    assert_eq!(plan_argument(EntryKind::Directory, true, b"/work/x", &pats), Step::Walk);
    assert_eq!(plan_argument(EntryKind::Directory, false, b"/work/d", &none), Step::Skip(SkipReason::IsDirectory));
    assert_eq!(plan_argument(EntryKind::File, false, b"/work/x/a", &pats), Step::Exclude);
    assert_eq!(plan_argument(EntryKind::File, false, b"/work/a", &pats), Step::Read);
    assert_eq!(plan_argument(EntryKind::Symlink, false, b"/work/l", &pats), Step::Skip(SkipReason::IsSymlink));
    assert_eq!(plan_argument(EntryKind::Missing, false, b"/work/m", &pats), Step::Skip(SkipReason::DoesNotExist));
    assert_eq!(plan_argument(EntryKind::Other, false, b"/work/s", &pats), Step::Skip(SkipReason::NotAFile));
}

#[test]
fn file_missing_and_directory_without_recursion() {
    let cwd = b("/work");
    let none: Vec<Vec<u8>> = Vec::new();
    let mut report = Report::new();

    let a = resolve_path(b"a.txt", Some(b("/work/a.txt")), &cwd);
    assert_eq!(plan_argument(EntryKind::File, false, &a, &none), Step::Read);
    let shown = get_relative_path(&a, false, &cwd);
    match process_file(&shown, b"hello\n") {
        FileResult::Printed(block) => {
            assert_eq!(block, b("```a.txt\nhello\n```\n\n"));
            report.record(Outcome::Printed(shown));
        }
        FileResult::NotText => panic!("a.txt is text"),
    }

    let m = resolve_path(b"missing.txt", None, &cwd);
    let step = plan_argument(EntryKind::Missing, false, &m, &none);
    assert_eq!(step, Step::Skip(SkipReason::DoesNotExist));
    report.record(Outcome::Skipped(SkipReason::DoesNotExist));

    let d = resolve_path(b"./dir", Some(b("/work/dir")), &cwd);
    let step = plan_argument(EntryKind::Directory, false, &d, &none);
    assert_eq!(step, Step::Skip(SkipReason::IsDirectory));
    report.record(Outcome::Skipped(SkipReason::IsDirectory));

    assert!(report.found_any());
    let args = vec![b("a.txt"), b("missing.txt"), b("./dir")];
    let summary = report.finish(&args);
    assert!(summary.excluded.is_none());
    assert_eq!(summary.printed, vec![b("a.txt")]);
    assert!(summary.no_valid_files.is_none());
}

#[test]
fn no_arguments() {
    let report = Report::new();
    assert!(!report.found_any());
    let summary = report.finish(&Vec::new());
    assert!(summary.excluded.is_none());
    assert!(summary.printed.is_empty());
    assert_eq!(summary.no_valid_files, Some(Vec::new()));
}

#[test]
fn only_excluded_files_still_give_the_error() {
    let mut report = Report::new();
    report.record(Outcome::Excluded(b("a.txt")));
    let summary = report.finish(&vec![b("a.txt"), b("b.txt")]);
    assert_eq!(summary.excluded, Some(vec![b("a.txt")]));
    assert!(summary.printed.is_empty());
    assert_eq!(summary.no_valid_files, Some(b("a.txt', 'b.txt")));
}

#[test]
fn joined_arguments() {
    assert_eq!(join_arguments(&vec![b("x")]), b("x"));
    assert_eq!(join_arguments(&vec![b("x"), b(""), b("z")]), b("x', '', 'z"));
}

/// A directory tree for driving a walk: each path with its kind and, for a
/// directory, its entries.
fn node(tree: &[(&str, NodeKind, Vec<&str>)], p: &[u8]) -> (NodeKind, Vec<Vec<u8>>) {
    for (path, kind, entries) in tree {
        if path.as_bytes() == p {
            return (*kind, entries.iter().map(|e| b(e)).collect());
        }
    }
    (NodeKind::Other, Vec::new())
}

fn walk(tree: &[(&str, NodeKind, Vec<&str>)], root: &str, patterns: &Vec<Vec<u8>>) -> Vec<Vec<u8>> {
    let mut w = Walk::new(b(root), patterns.clone());
    while let Some(p) = w.next_path() {
        let (kind, entries) = node(tree, &p);
        if w.visit(p, kind) == Visit::Descend {
            w.descend(entries);
        }
    }
    w.into_files()
}

fn sample_tree() -> Vec<(&'static str, NodeKind, Vec<&'static str>)> {
    vec![
        ("/work/dir", NodeKind::Directory, vec!["/work/dir/a.txt", "/work/dir/skip", "/work/dir/sub"]),
        ("/work/dir/a.txt", NodeKind::File, vec![]),
        ("/work/dir/skip", NodeKind::Directory, vec!["/work/dir/skip/x.txt", "/work/dir/skip/deep"]),
        ("/work/dir/skip/x.txt", NodeKind::File, vec![]),
        ("/work/dir/skip/deep", NodeKind::Directory, vec!["/work/dir/skip/deep/y.txt"]),
        ("/work/dir/skip/deep/y.txt", NodeKind::File, vec![]),
        ("/work/dir/sub", NodeKind::Directory, vec!["/work/dir/sub/b.txt", "/work/dir/sub/loop"]),
        ("/work/dir/sub/b.txt", NodeKind::File, vec![]),
        ("/work/dir/sub/loop", NodeKind::Directory, vec!["/work/dir"]),
        ("/work/dir/fifo", NodeKind::Other, vec![]),
    ]
}

#[test]
fn recursive_walk_with_excluded_subtree() {
    let tree = sample_tree();
    let pats = vec![resolve_path(b"dir/skip", None, b"/work")];
    let files = walk(&tree, "/work/dir", &pats);
    assert_eq!(files, vec![b("/work/dir/a.txt"), b("/work/dir/sub/b.txt")]);
}

#[test]
fn recursive_walk_finds_every_file_once() {
    let tree = sample_tree();
    let files = walk(&tree, "/work/dir", &Vec::new());
    assert_eq!(
        files,
        vec![
            b("/work/dir/a.txt"),
            b("/work/dir/skip/x.txt"),
            b("/work/dir/skip/deep/y.txt"),
            b("/work/dir/sub/b.txt"),
        ]
    );
}

#[test]
fn walk_of_excluded_root_is_empty() {
    let tree = sample_tree();
    let files = walk(&tree, "/work/dir", &vec![b("/work")]);
    assert!(files.is_empty());
}

#[test]
fn walk_of_single_file() {
    let tree = sample_tree();
    assert_eq!(walk(&tree, "/work/dir/a.txt", &Vec::new()), vec![b("/work/dir/a.txt")]);
    assert!(walk(&tree, "/work/dir/fifo", &Vec::new()).is_empty());
}

#[test]
fn directory_without_recursion_prints_nothing() {
    let mut report = Report::new();
    let step = plan_argument(EntryKind::Directory, false, b"/work/dir", &Vec::new());
    assert_eq!(step, Step::Skip(SkipReason::IsDirectory));
    report.record(Outcome::Skipped(SkipReason::IsDirectory));
    let summary = report.finish(&vec![b("dir")]);
    assert!(summary.printed.is_empty());
    assert_eq!(summary.no_valid_files, Some(b("dir")));
}

#[test]
fn walk_lists_a_linked_file_once() {
    // The entry "/work/d/link" resolves to the file "/work/d/f.txt".
    let mut w = Walk::new(b("/work/d"), Vec::new());
    let p = w.next_path().unwrap();
    assert_eq!(w.visit(p, NodeKind::Directory), Visit::Descend);
    w.descend(vec![b("/work/d/f.txt"), b("/work/d/link")]);
    let first = w.next_path().unwrap();
    assert_eq!(w.visit(first, NodeKind::File), Visit::Collected);
    assert_eq!(w.next_path(), Some(b("/work/d/link")));
    assert_eq!(w.visit(b("/work/d/f.txt"), NodeKind::File), Visit::Duplicate);
    assert_eq!(w.next_path(), None);
    assert_eq!(w.into_files(), vec![b("/work/d/f.txt")]);
}

#[test]
fn report_names_each_path_once() {
    let mut report = Report::new();
    assert!(report.record(Outcome::Printed(b("a.txt"))));
    assert!(report.already_printed(b"a.txt"));
    assert!(!report.already_printed(b"b.txt"));
    assert!(!report.record(Outcome::Printed(b("a.txt"))));
    assert!(report.record(Outcome::Excluded(b("x.txt"))));
    assert!(!report.record(Outcome::Excluded(b("x.txt"))));
    assert!(report.record(Outcome::Skipped(SkipReason::NotText)));
    let summary = report.finish(&vec![b("a.txt"), b("a.txt"), b("x.txt")]);
    assert_eq!(summary.printed, vec![b("a.txt")]);
    assert_eq!(summary.excluded, Some(vec![b("x.txt")]));
    assert!(summary.no_valid_files.is_none());
}
