use aldar::state::admits;
use aldar::{Aldar, AldarError, FileEntry, PatternSet, Step};

fn file(name: &str) -> FileEntry {
    FileEntry::posix(
        Some(name.to_string()),
        format!("./{}", name),
        None,
        Some(false),
        Some(0o644),
        Some(1),
    )
}

fn dir(name: &str) -> FileEntry {
    FileEntry::posix(Some(name.to_string()), format!("./{}", name), None, Some(true), None, None)
}

#[test]
fn walker_without_patterns_starts() {
    let mut a = Aldar::new();
    assert_eq!(a.run(None), Ok(()));
}

#[test]
fn invalid_include_pattern_is_reported() {
    let mut a = Aldar::new();
    a.set_include_patterns(&["a", "["]);
    assert_eq!(a.run(None), Err(AldarError::InvalidIncludePattern));
    assert_eq!(AldarError::InvalidIncludePattern.message(), "invalid include pattern specified");
    assert!(matches!(a.next_step(), Step::Done));
}

#[test]
fn invalid_exclude_pattern_is_reported() {
    let mut a = Aldar::new();
    a.set_include_patterns(&["ok"]).set_exclude_patterns(&["(unclosed"]);
    assert_eq!(a.run(None), Err(AldarError::InvalidExcludePattern));
    assert_eq!(AldarError::InvalidExcludePattern.message(), "invalid exclude pattern specified");
    assert!(matches!(a.next_step(), Step::Done));
    // the include patterns were compiled before the failure
    assert!(a.takes_part(&file("ok.txt")));
    assert!(!a.takes_part(&file("other.txt")));
}

#[test]
fn include_patterns_are_compiled_first() {
    let mut a = Aldar::new();
    a.set_include_patterns(&["["]).set_exclude_patterns(&["("]);
    assert_eq!(a.run(None), Err(AldarError::InvalidIncludePattern));
}

#[test]
fn valid_patterns_start_a_walk() {
    let mut a = Aldar::new();
    a.set_include_patterns(&[r"\.txt$"]).set_exclude_patterns(&["^b"]);
    assert_eq!(a.run(None), Ok(()));
    assert!(matches!(a.next_step(), Step::Line(_)));
}

#[test]
fn patterns_are_not_used_before_a_walk_starts() {
    let mut a = Aldar::new();
    a.set_include_patterns(&[r"\.txt$"]);
    assert!(a.takes_part(&file("a.rs")));
    assert_eq!(a.run(None), Ok(()));
    assert!(!a.takes_part(&file("a.rs")));
}

#[test]
fn include_patterns_gate_files_only() {
    let mut a = Aldar::new();
    a.set_include_patterns(&[r"\.txt$", r"\.md$"]);
    assert_eq!(a.run(None), Ok(()));
    assert!(a.takes_part(&file("a.txt")));
    assert!(a.takes_part(&file("README.md")));
    assert!(!a.takes_part(&file("a.rs")));
    assert!(!a.takes_part(&file("txt")));
    assert!(a.takes_part(&dir("src")));
}

#[test]
fn exclude_patterns_gate_files_only() {
    let mut a = Aldar::new();
    a.set_exclude_patterns(&["^b", "tmp"]);
    assert_eq!(a.run(None), Ok(()));
    assert!(!a.takes_part(&file("b.txt")));
    assert!(!a.takes_part(&file("x.tmp")));
    assert!(a.takes_part(&file("a.txt")));
    assert!(a.takes_part(&dir("build")));
    assert!(a.takes_part(&dir("tmp")));
}

#[test]
fn exclude_wins_over_include() {
    let mut a = Aldar::new();
    a.set_include_patterns(&[r"\.txt$"]).set_exclude_patterns(&["^b"]);
    assert_eq!(a.run(None), Ok(()));
    assert!(a.takes_part(&file("a.txt")));
    assert!(!a.takes_part(&file("b.txt")));
    assert!(!a.takes_part(&file("a.rs")));
}

#[test]
fn hidden_entries_need_the_flag() {
    let mut a = Aldar::new();
    assert!(!a.takes_part(&file(".hidden")));
    assert!(!a.takes_part(&dir(".git")));
    assert!(a.takes_part(&file("shown")));
    a.show_hidden(true);
    assert!(a.takes_part(&file(".hidden")));
    assert!(a.takes_part(&dir(".git")));
}

#[test]
fn hidden_is_checked_before_patterns() {
    let mut a = Aldar::new();
    a.set_include_patterns(&["hidden"]);
    assert_eq!(a.run(None), Ok(()));
    assert!(!a.takes_part(&file(".hidden")));
    a.show_hidden(true);
    assert!(a.takes_part(&file(".hidden")));
}

#[test]
fn case_is_ignored_on_request() {
    let mut a = Aldar::new();
    a.set_include_patterns(&["TXT"]);
    assert_eq!(a.run(None), Ok(()));
    assert!(!a.takes_part(&file("a.txt")));
    assert!(a.takes_part(&file("a.TXT")));
    a.case_sensitive(true);
    // the setting is picked up when the next walk starts
    assert!(!a.takes_part(&file("a.txt")));
    assert_eq!(a.run(None), Ok(()));
    assert!(a.takes_part(&file("a.txt")));
    assert!(a.takes_part(&file("a.TXT")));
}

#[test]
fn unnamed_files_are_matched_as_placeholder() {
    let nameless = FileEntry::posix(None, "./x".to_string(), None, Some(false), None, None);
    let mut a = Aldar::new();
    a.set_include_patterns(&["x"]);
    assert_eq!(a.run(None), Ok(()));
    assert!(!a.takes_part(&nameless));
    let mut a = Aldar::new();
    a.set_include_patterns(&[r"^\?$"]);
    assert_eq!(a.run(None), Ok(()));
    assert!(a.takes_part(&nameless));
}

#[test]
fn excluded_paths_match_anywhere() {
    let mut a = Aldar::new();
    assert!(!a.is_excluded("./node_modules"));
    a.set_exclude_patterns(&["node_modules"]);
    assert!(!a.is_excluded("./node_modules"));
    assert_eq!(a.run(None), Ok(()));
    assert!(a.is_excluded("./node_modules"));
    assert!(a.is_excluded("./a/node_modules/b"));
    assert!(!a.is_excluded("./src"));
    assert!(!a.is_excluded("./Node_Modules"));
}

fn compiled(patterns: &[&str], ignore_case: bool) -> Result<PatternSet, regex::Error> {
    let list: Vec<String> = patterns.iter().map(|p| p.to_string()).collect();
    PatternSet::compile(&list, ignore_case)
}

#[test]
fn compiled_sets_are_taken_as_given() {
    let mut a = Aldar::new();
    assert_eq!(a.use_include_set(compiled(&["^a"], false)), Ok(()));
    assert!(a.takes_part(&file("a")));
    assert!(!a.takes_part(&file("b")));
    assert_eq!(
        a.use_include_set(compiled(&["["], false)),
        Err(AldarError::InvalidIncludePattern)
    );
    // a failure leaves the set of before in use
    assert!(a.takes_part(&file("a")));
    assert!(!a.takes_part(&file("b")));
    assert_eq!(a.use_exclude_set(compiled(&["2$"], false)), Ok(()));
    assert!(a.takes_part(&file("a1")));
    assert!(!a.takes_part(&file("a2")));
    assert!(a.is_excluded("dir2"));
    assert_eq!(
        a.use_exclude_set(compiled(&["("], false)),
        Err(AldarError::InvalidExcludePattern)
    );
    assert!(a.is_excluded("dir2"));
}

#[test]
fn pattern_sets_match_anywhere_in_the_text() {
    let set = compiled(&["b+", "^x$"], false).ok().unwrap();
    assert!(set.is_match("abbc"));
    assert!(set.is_match("x"));
    assert!(!set.is_match("xx"));
    assert!(!set.is_match("ABC"));
    assert!(!set.is_match(""));
    let set = compiled(&["b+", "^x$"], true).ok().unwrap();
    assert!(set.is_match("ABC"));
    assert!(set.is_match("X"));
    // anchors stand for the ends of the text, not of its lines
    let set = compiled(&["^b$"], false).ok().unwrap();
    assert!(set.is_match("b"));
    assert!(!set.is_match("a\nb"));
    assert!(compiled(&["a", "["], false).is_err());
    assert!(!compiled(&[], false).ok().unwrap().is_match("a"));
}

#[test]
fn empty_pattern_list_matches_nothing() {
    let mut a = Aldar::new();
    a.set_include_patterns(&[]);
    assert_eq!(a.run(None), Ok(()));
    assert!(!a.takes_part(&file("a")));
    assert!(a.takes_part(&dir("d")));
    let mut a = Aldar::new();
    a.set_exclude_patterns(&[]);
    assert_eq!(a.run(None), Ok(()));
    assert!(a.takes_part(&file("a")));
    assert!(!a.is_excluded("a"));
}

#[test]
fn fetch_selects_counts_and_arranges() {
    let mut a = Aldar::new();
    a.set_exclude_patterns(&[r"\.o$"]);
    assert_eq!(a.run(None), Ok(()));
    let raw = vec![
        file("z.txt"),
        file("main.o"),
        dir("src"),
        file(".secret"),
        file("a.txt"),
        dir(".git"),
        dir("doc"),
        dir("x.o"),
    ];
    let kept = a.fetch_directory(raw);
    let names: Vec<String> = kept.iter().map(|e| e.display_name()).collect();
    assert_eq!(names, vec!["doc", "src", "x.o", "a.txt", "z.txt"]);
    assert_eq!(a.summary(), "\n3 directories, 2 files");
    let kept = a.fetch_directory(vec![file("one"), file("two.o")]);
    assert_eq!(kept.len(), 1);
    assert_eq!(a.summary(), "\n3 directories, 3 files");
    let kept = a.fetch_directory(vec![]);
    assert!(kept.is_empty());
    assert_eq!(a.summary(), "\n3 directories, 3 files");
}

#[test]
fn admission_goes_by_facts_and_verdicts() {
    for show_hidden in [false, true] {
        for hidden in [false, true] {
            for dir in [false, true] {
                for included in [None, Some(false), Some(true)] {
                    for excluded in [None, Some(false), Some(true)] {
                        let visible = show_hidden || !hidden;
                        let passes = dir || (included != Some(false) && excluded != Some(true));
                        assert_eq!(
                            admits(show_hidden, hidden, dir, included, excluded),
                            visible && passes
                        );
                    }
                }
            }
        }
    }
    assert!(admits(false, false, false, None, None));
    assert!(!admits(false, true, true, None, None));
    assert!(admits(true, true, false, Some(true), Some(false)));
    assert!(!admits(true, false, false, Some(true), Some(true)));
    assert!(!admits(true, false, false, Some(false), None));
    assert!(admits(true, false, true, Some(false), Some(true)));
}

#[test]
fn fetch_does_not_depend_on_the_order_of_reading() {
    let names = ["z.txt", "src", "a.txt", "doc", "m.rs"];
    let make = |order: &[usize]| -> Vec<FileEntry> {
        order
            .iter()
            .map(|&i| if names[i].contains('.') { file(names[i]) } else { dir(names[i]) })
            .collect()
    };
    let mut a = Aldar::new();
    let expected = a.fetch_directory(make(&[0, 1, 2, 3, 4]));
    let shown: Vec<String> = expected.iter().map(|e| e.display_name()).collect();
    assert_eq!(shown, vec!["doc", "src", "a.txt", "m.rs", "z.txt"]);
    for order in [[4, 3, 2, 1, 0], [2, 0, 4, 1, 3], [1, 3, 0, 2, 4], [3, 4, 1, 0, 2]] {
        let mut b = Aldar::new();
        assert_eq!(b.fetch_directory(make(&order)), expected);
        assert_eq!(b.summary(), "\n2 directories, 3 files");
    }
}
