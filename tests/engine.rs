use std::path::Path;

use if_changed::driver::{run, Checker, Cli};
use if_changed::engine::{ChangedFile, DiffLine, GitEngine, Hunk};
use if_changed::trailer::ignore_patterns;

const ROOT: &str = "/repo";

fn lines_of(text: &str) -> Vec<String> {
    text.lines().map(String::from).collect()
}

fn context(old: usize, new: usize) -> DiffLine {
    DiffLine { origin: ' ', old_lineno: Some(old), new_lineno: Some(new) }
}

fn added_line(new: usize) -> DiffLine {
    DiffLine { origin: '+', old_lineno: None, new_lineno: Some(new) }
}

fn removed_line(old: usize) -> DiffLine {
    DiffLine { origin: '-', old_lineno: Some(old), new_lineno: None }
}

fn hunk(new_start: usize, new_lines: usize, lines: Vec<DiffLine>) -> Hunk {
    Hunk { new_start, new_lines, lines }
}

/// A tracked file whose new text differs from the base by `hunks`.
fn modified(path: &str, text: &str, hunks: Vec<Hunk>) -> ChangedFile {
    ChangedFile { path: path.to_string(), new_file: false, hunks, text: Ok(lines_of(text)) }
}

/// A file that the base revision lacks: one hunk adds all its lines.
fn added(path: &str, text: &str) -> ChangedFile {
    let n = lines_of(text).len();
    let hunks = if n == 0 {
        vec![]
    } else {
        vec![hunk(1, n, (1..=n).map(added_line).collect())]
    };
    ChangedFile { path: path.to_string(), new_file: true, hunks, text: Ok(lines_of(text)) }
}

/// A file of the working tree that git does not track.
fn untracked(path: &str, text: &str) -> ChangedFile {
    ChangedFile { path: path.to_string(), new_file: true, hunks: vec![], text: Ok(lines_of(text)) }
}

fn engine(files: Vec<ChangedFile>) -> GitEngine {
    GitEngine::new(ROOT.to_string(), files, vec![]).unwrap()
}

fn engine_exempting(files: Vec<ChangedFile>, message: &[u8]) -> GitEngine {
    GitEngine::new(ROOT.to_string(), files, ignore_patterns(message)).unwrap()
}

fn matches(engine: &GitEngine, patterns: &[&str]) -> Vec<Result<String, String>> {
    engine.matches(&patterns.iter().map(|p| p.to_string()).collect())
}

fn ok(paths: &[&str]) -> Vec<Result<String, String>> {
    paths.iter().map(|p| Ok(p.to_string())).collect()
}

fn run_all(engine: &GitEngine, patterns: Vec<String>) -> Vec<String> {
    run(&Cli { from_ref: None, to_ref: Some("HEAD".into()), patterns }, engine)
}

fn assert_root(engine: &GitEngine) {
    assert_eq!(Path::new(&engine.resolve("")), Path::new(ROOT));
}

const A_JS_NEW: &str = "// if-changed\nfoobar\n// then-change(b.js)\n";
const A_JS_NAMED_NEW: &str = "// if-changed\nfoobar\n// then-change(b.js:bar)\n";
const B_JS_NAMED_NEW: &str = "// if-changed(bar)\nfoobar\n// then-change(a.js)\n";

/// The hunk of replacing line 2 of a three-line file.
fn second_line_replaced() -> Vec<Hunk> {
    vec![hunk(1, 3, vec![context(1, 1), removed_line(2), added_line(2), context(3, 3)])]
}

/// The hunk of appending a fourth line to a three-line file.
fn fourth_line_appended() -> Vec<Hunk> {
    vec![hunk(1, 4, vec![context(1, 1), context(2, 2), context(3, 3), added_line(4)])]
}

fn empty_file_filled(path: &str, text: &str) -> ChangedFile {
    modified(path, text, vec![hunk(1, 1, vec![added_line(1)])])
}

fn scenario_check() -> GitEngine {
    engine(vec![
        modified("src/a.js", A_JS_NEW, second_line_replaced()),
        empty_file_filled("src/b.js", "bar"),
    ])
}

fn scenario_check_fail() -> GitEngine {
    engine(vec![modified("src/a.js", A_JS_NEW, second_line_replaced())])
}

fn scenario_check_unrelated() -> GitEngine {
    engine(vec![modified("src/a.js", "// if-changed\nfoo\n// then-change(b.js)\nthis\n", fourth_line_appended())])
}

fn scenario_check_named() -> GitEngine {
    engine(vec![
        modified("src/a.js", A_JS_NAMED_NEW, second_line_replaced()),
        modified("src/b.js", B_JS_NAMED_NEW, second_line_replaced()),
    ])
}

fn scenario_check_named_fail() -> GitEngine {
    engine(vec![
        modified("src/a.js", A_JS_NAMED_NEW, second_line_replaced()),
        modified(
            "src/b.js",
            "// if-changed(bar)\nfoo\n// then-change(a.js)\nbar\n",
            fourth_line_appended(),
        ),
    ])
}

fn scenario_check_named_missing() -> GitEngine {
    engine(vec![
        modified("src/a.js", A_JS_NAMED_NEW, second_line_replaced()),
        empty_file_filled("src/b.js", "foo"),
    ])
}

fn expected_b_js() -> Result<(), Vec<String>> {
    Err(vec![
        "Expected \"src/b.js\" to be modified because of \"then-change\" in \"src/a.js\" at line 3."
            .to_string(),
    ])
}

#[test]
fn engine_test_check() {
    let engine = scenario_check();
    assert_root(&engine);
    assert_eq!(matches(&engine, &[]), ok(&["src/a.js", "src/b.js"]));
    assert_eq!(engine.check("src/a.js"), Ok(()));
}

#[test]
fn engine_test_check_fail() {
    let engine = scenario_check_fail();
    assert_root(&engine);
    assert_eq!(matches(&engine, &[]), ok(&["src/a.js"]));
    assert_eq!(engine.check("src/a.js"), expected_b_js());
}

#[test]
fn engine_test_check_unrelated() {
    let engine = scenario_check_unrelated();
    assert_root(&engine);
    assert_eq!(matches(&engine, &[]), ok(&["src/a.js"]));
    assert_eq!(engine.check("src/a.js"), Ok(()));
}

#[test]
fn engine_test_check_named() {
    let engine = scenario_check_named();
    assert_root(&engine);
    assert_eq!(matches(&engine, &[]), ok(&["src/a.js", "src/b.js"]));
    assert_eq!(engine.check("src/a.js"), Ok(()));
}

#[test]
fn engine_test_check_named_fail() {
    let engine = scenario_check_named_fail();
    assert_root(&engine);
    assert_eq!(matches(&engine, &[]), ok(&["src/a.js", "src/b.js"]));
    assert_eq!(engine.check("src/a.js"), expected_b_js());
}

#[test]
fn engine_test_check_named_missing() {
    let engine = scenario_check_named_missing();
    assert_root(&engine);
    assert_eq!(matches(&engine, &[]), ok(&["src/a.js", "src/b.js"]));
    assert_eq!(
        engine.check("src/a.js"),
        Err(vec![
            "Could not find \"if-changed\" with name \"bar\" in \"src/b.js\" for \"then-change\" in \"src/a.js\" at line 3."
                .to_string()
        ])
    );
}

fn changed_paths(engine: &GitEngine) -> Vec<String> {
    let mut paths: Vec<String> =
        matches(engine, &[]).into_iter().map(|r| r.unwrap()).collect();
    paths.sort();
    paths
}

#[test]
fn checker_test_check() {
    let engine = scenario_check();
    assert_root(&engine);
    assert_eq!(changed_paths(&engine), vec!["src/a.js", "src/b.js"]);
    assert_eq!(Checker::new(&engine, "src/a.js").check(), Ok(()));
}

#[test]
fn checker_test_check_fail() {
    let engine = scenario_check_fail();
    assert_root(&engine);
    assert_eq!(changed_paths(&engine), vec!["src/a.js"]);
    assert_eq!(Checker::new(&engine, "src/a.js").check(), expected_b_js());
}

#[test]
fn checker_test_check_unrelated() {
    let engine = scenario_check_unrelated();
    assert_root(&engine);
    assert_eq!(changed_paths(&engine), vec!["src/a.js"]);
    assert_eq!(Checker::new(&engine, "src/a.js").check(), Ok(()));
}

#[test]
fn checker_test_check_named() {
    let engine = scenario_check_named();
    assert_root(&engine);
    assert_eq!(changed_paths(&engine), vec!["src/a.js", "src/b.js"]);
    assert_eq!(Checker::new(&engine, "src/a.js").check(), Ok(()));
}

#[test]
fn checker_test_check_named_fail() {
    let engine = scenario_check_named_fail();
    assert_root(&engine);
    assert_eq!(changed_paths(&engine), vec!["src/a.js", "src/b.js"]);
    assert_eq!(Checker::new(&engine, "src/a.js").check(), expected_b_js());
}

#[test]
fn checker_test_check_named_missing() {
    let engine = scenario_check_named_missing();
    assert_root(&engine);
    assert_eq!(changed_paths(&engine), vec!["src/a.js", "src/b.js"]);
    assert_eq!(
        Checker::new(&engine, "src/a.js").check(),
        Err(vec![
            "Could not find \"if-changed\" with name \"bar\" in \"src/b.js\" for \"then-change\" in \"src/a.js\" at line 3."
                .to_string()
        ])
    );
}

#[test]
fn test_git() {
    let engine = engine(vec![]);
    assert_root(&engine);
    assert_eq!(matches(&engine, &[]), ok(&[]));
    assert_eq!(matches(&engine, &["a"]), vec![Err("a".to_string())]);
    assert!(!engine.is_ignored("a"));
}

#[test]
fn test_git_without_head() {
    let engine = engine(vec![added("a", "a"), added("b", "b")]);
    assert_root(&engine);
    assert_eq!(matches(&engine, &[]), ok(&["a", "b"]));
    assert_eq!(matches(&engine, &["a"]), ok(&["a"]));
    assert!(!engine.is_ignored("a"));
}

fn four_files_staged() -> GitEngine {
    engine(vec![added("a", "a"), added("c/a", "a"), added("c/b", "b"), added("d/b", "b")])
}

#[test]
fn test_matches() {
    let engine = four_files_staged();
    assert_root(&engine);
    assert_eq!(matches(&engine, &["b"]), vec![Err("b".to_string())]);
    assert_eq!(matches(&engine, &["a"]), ok(&["a"]));
    assert_eq!(matches(&engine, &["/a"]), ok(&["a"]));
    assert_eq!(matches(&engine, &["*/a"]), ok(&["c/a"]));
    assert_eq!(matches(&engine, &["*a"]), ok(&["a", "c/a"]));
    assert_eq!(matches(&engine, &["*/b"]), ok(&["c/b", "d/b"]));
    assert_eq!(matches(&engine, &["c/*"]), ok(&["c/a", "c/b"]));
    // A negated pattern selects nothing, so it is reported as unmatched,
    // last pattern first.
    assert_eq!(
        matches(&engine, &["c/*", "!c/b", "!c/c"]),
        vec![Ok("c/a".to_string()), Err("c/c".to_string()), Err("c/b".to_string())]
    );
}

#[test]
fn negation_excludes_and_reports_the_negated_pattern() {
    let engine = engine(vec![added("src/a.ts", "a"), added("src/b.ts", "b")]);
    assert_eq!(
        matches(&engine, &["src/*", "!src/b.ts"]),
        vec![Ok("src/a.ts".to_string()), Err("src/b.ts".to_string())]
    );
}

#[test]
fn matching_nothing_yields_every_changed_path_in_order() {
    let engine = engine(vec![added("z", "z"), added("a", "a"), added("m/n", "n")]);
    assert_eq!(matches(&engine, &[]), ok(&["z", "a", "m/n"]));
}

#[test]
fn test_changes() {
    let engine = engine(vec![
        modified("a", "b", vec![hunk(1, 1, vec![removed_line(1), added_line(1)])]),
        modified("c/a", "b", vec![hunk(1, 1, vec![removed_line(1), added_line(1)])]),
    ]);
    assert_root(&engine);
    assert_eq!(matches(&engine, &[]), ok(&["a", "c/a"]));
}

#[test]
fn test_changes_staged_only() {
    let engine = engine(vec![modified("a", "b", vec![hunk(1, 1, vec![removed_line(1), added_line(1)])])]);
    assert_root(&engine);
    assert_eq!(matches(&engine, &[]), ok(&["a"]));
}

#[test]
fn test_changes_working_only() {
    let engine = engine(vec![modified("a", "b", vec![hunk(1, 1, vec![removed_line(1), added_line(1)])])]);
    assert_root(&engine);
    assert_eq!(matches(&engine, &[]), ok(&["a"]));
}

#[test]
fn test_without_if_changed_ignore_trailer() {
    let files = vec![modified("a", "b", vec![hunk(1, 1, vec![removed_line(1), added_line(1)])])];
    let engine = engine_exempting(files, b"second commit");
    assert_root(&engine);
    assert!(!engine.is_ignored("a"));
    assert!(!engine.is_ignored("c/a"));
}

#[test]
fn test_with_if_changed_ignore_trailer() {
    let files = vec![modified("a", "b", vec![hunk(1, 1, vec![removed_line(1), added_line(1)])])];
    let engine = engine_exempting(files, b"second commit\n\nignore-if-changed: c/a");
    assert_root(&engine);
    assert!(!engine.is_ignored("a"));
    assert!(engine.is_ignored("c/a"));
}

#[test]
fn hunk_boundaries_decide_range_modification() {
    let engine = engine(vec![modified(
        "f",
        "",
        vec![hunk(10, 3, vec![added_line(10), added_line(11), added_line(12)])],
    )]);
    assert!(engine.is_range_modified("f", (12, 20)));
    assert!(!engine.is_range_modified("f", (1, 9)));
    assert!(engine.is_range_modified("f", (1, 10)));
    assert!(!engine.is_range_modified("f", (13, 20)));
    assert!(!engine.is_range_modified("g", (1, 20)));
}

#[test]
fn removed_lines_count_by_their_old_number() {
    let engine = engine(vec![modified("f", "", vec![hunk(4, 0, vec![removed_line(5)])])]);
    assert!(engine.is_range_modified("f", (4, 5)));
    assert!(!engine.is_range_modified("f", (6, 9)));
}

#[test]
fn untracked_files_are_modified_everywhere() {
    let engine = engine(vec![untracked("f", "x")]);
    assert!(engine.is_range_modified("f", (100, 200)));
}

#[test]
fn resolve_joins_to_the_root() {
    let engine = engine(vec![]);
    assert_eq!(engine.resolve("src/a.js"), "/repo/src/a.js");
    assert_eq!(engine.resolve("/etc/x"), "/etc/x");
}

#[test]
fn new_rejects_paths_outside_the_tree() {
    assert!(GitEngine::new(ROOT.to_string(), vec![added("/abs", "x")], vec![]).is_none());
    assert!(GitEngine::new(ROOT.to_string(), vec![added("../up", "x")], vec![]).is_none());
    assert!(GitEngine::new(ROOT.to_string(), vec![added("", "x")], vec![]).is_none());
}

#[test]
fn named_cross_reference_round_trip() {
    let a = "// if-changed\nx\n// then-change(b.txt:foo)\n";
    let b = "// if-changed(foo)\ny\n// then-change(a.txt)\n";
    let both = engine(vec![
        modified("a.txt", a, second_line_replaced()),
        modified("b.txt", b, second_line_replaced()),
    ]);
    assert_eq!(both.check("a.txt"), Ok(()));
    let only_a = engine(vec![
        modified("a.txt", a, second_line_replaced()),
        modified("b.txt", &format!("{b}z\n"), fourth_line_appended()),
    ]);
    assert_eq!(
        only_a.check("a.txt"),
        Err(vec![
            "Expected \"b.txt\" to be modified because of \"then-change\" in \"a.txt\" at line 3."
                .to_string()
        ])
    );
}

#[test]
fn unreadable_target_is_reported() {
    let engine = engine(vec![
        modified("a.txt", "// if-changed\nx\n// then-change(b.txt:foo)\n", second_line_replaced()),
        ChangedFile {
            path: "b.txt".to_string(),
            new_file: false,
            hunks: vec![],
            text: Err("gone".to_string()),
        },
    ]);
    assert_eq!(
        engine.check("a.txt"),
        Err(vec![
            "Could not open \"b.txt\" for \"then-change\" in \"a.txt\" at line 3: gone.".to_string()
        ])
    );
    assert_eq!(engine.check("b.txt"), Err(vec!["gone".to_string()]));
}

#[test]
fn empty_pattern_means_the_file_itself() {
    let text = "// if-changed(a)\nx\n// then-change(:b)\n// if-changed(b)\ny\n// then-change(:a)\n";
    let engine = engine(vec![modified(
        "d/f.txt",
        text,
        vec![hunk(1, 3, vec![context(1, 1), removed_line(2), added_line(2), context(3, 3)])],
    )]);
    assert_eq!(
        engine.check("d/f.txt"),
        Err(vec![
            "Expected \"d/f.txt\" to be modified because of \"then-change\" in \"d/f.txt\" at line 3."
                .to_string()
        ])
    );
}

#[test]
fn parse_errors_end_the_check() {
    let engine = engine(vec![added("f", "// if-changed\nx\n")]);
    assert_eq!(
        engine.check("f"),
        Err(vec!["Missing \"then-changed\" for \"if-changed\" at line 1 for \"f\".".to_string()])
    );
}

const A_TS: &str = "const enum G {\n    // if-changed\n    A,\n    // then-change(b.ts)\n}\n";
const B_TS: &str = "const enum G {\n    // if-changed\n    A,\n    // then-change(a.ts)\n}\n";
const A_TS_2: &str = "const enum G {\n    // if-changed\n    A,\n    B,\n    // then-change(b.ts)\n}\n";
const B_TS_2: &str = "const enum G {\n    // if-changed\n    A,\n    B,\n    // then-change(a.ts)\n}\n";

fn line_four_inserted() -> Vec<Hunk> {
    vec![hunk(
        1,
        6,
        vec![context(1, 1), context(2, 2), context(3, 3), added_line(4), context(4, 5), context(5, 6)],
    )]
}

fn a_ts_failure(line: usize) -> Vec<String> {
    vec![format!(
        "Expected \"b.ts\" to be modified because of \"then-change\" in \"a.ts\" at line {line}."
    )]
}

#[test]
fn test_run() {
    let engine = engine(vec![added("a.ts", A_TS), added("b.ts", B_TS)]);
    assert_eq!(run_all(&engine, vec![]), Vec::<String>::new());
}

#[test]
fn test_run_fail() {
    let engine = engine(vec![added("a.ts", A_TS)]);
    assert_eq!(run_all(&engine, vec![]), a_ts_failure(4));
}

#[test]
fn test_run_commit_footer() {
    let engine = engine_exempting(vec![added("a.ts", A_TS)], b"initial commit\n\nignore-if-changed: a.ts");
    assert_eq!(run_all(&engine, vec![]), Vec::<String>::new());
}

#[test]
fn test_run_commit_footer_with_reason() {
    let engine =
        engine_exempting(vec![added("a.ts", A_TS)], b"initial commit\n\nignore-if-changed: a.ts -- idky");
    assert_eq!(run_all(&engine, vec![]), Vec::<String>::new());
}

#[test]
fn test_run_no_matching() {
    let engine = engine(vec![added("a.ts", A_TS)]);
    assert_eq!(run_all(&engine, vec!["c.js".to_string()]), Vec::<String>::new());
}

#[test]
fn test_run_working_dir() {
    let engine = engine(vec![untracked("a.ts", A_TS), untracked("b.ts", B_TS)]);
    assert_eq!(run(&Cli { from_ref: None, to_ref: None, patterns: vec![] }, &engine), Vec::<String>::new());
}

#[test]
fn test_run_working_dir_fail() {
    let engine = engine(vec![untracked("a.ts", A_TS)]);
    assert_eq!(run(&Cli { from_ref: None, to_ref: None, patterns: vec![] }, &engine), a_ts_failure(4));
}

#[test]
fn test_run_two_commits() {
    let engine = engine(vec![
        modified("a.ts", A_TS_2, line_four_inserted()),
        modified("b.ts", B_TS_2, line_four_inserted()),
    ]);
    let cli = Cli { from_ref: Some("HEAD^".into()), to_ref: Some("HEAD".into()), patterns: vec![] };
    assert_eq!(run(&cli, &engine), Vec::<String>::new());
}

#[test]
fn test_run_two_commits_fail() {
    let engine = engine(vec![modified("a.ts", A_TS_2, line_four_inserted())]);
    let cli = Cli { from_ref: Some("HEAD^".into()), to_ref: Some("HEAD".into()), patterns: vec![] };
    assert_eq!(run(&cli, &engine), a_ts_failure(5));
}

#[test]
fn test_run_two_commits_fail_no_change() {
    let engine = engine(vec![modified("a.ts", A_TS_2, line_four_inserted())]);
    let cli = Cli { from_ref: Some("HEAD^".into()), to_ref: Some("HEAD".into()), patterns: vec![] };
    assert_eq!(run(&cli, &engine), a_ts_failure(5));
}

#[test]
fn exemptions_follow_ignore_file_precedence() {
    let engine = engine_exempting(vec![], b"subject\n\nignore-if-changed: c/*, !c/b\n");
    assert!(engine.is_ignored("c/a"));
    assert!(!engine.is_ignored("c/b"));
    assert!(!engine.is_ignored("d/a"));
    assert!(!engine.is_ignored("/c/a"));
}

#[test]
fn messages_quote_paths_as_debug_does() {
    let engine = engine(vec![modified(
        "q\"x",
        "// if-changed\nx\n// then-change(missing)\n",
        second_line_replaced(),
    )]);
    assert_eq!(
        engine.check("q\"x"),
        Err(vec![
            "Expected \"missing\" to be modified because of \"then-change\" in \"q\\\"x\" at line 3."
                .to_string()
        ])
    );
}

#[test]
fn patterns_that_match_a_selected_path_are_not_reported() {
    let engine = engine(vec![added("a", "a"), added("c/b", "b")]);
    assert_eq!(matches(&engine, &["a", "a"]), ok(&["a"]));
    assert_eq!(matches(&engine, &["*", "a"]), ok(&["a", "c/b"]));
    assert_eq!(
        matches(&engine, &["a", "!a"]),
        vec![Err("a".to_string()), Err("a".to_string())]
    );
}

#[test]
fn inert_patterns_are_dropped() {
    let engine = engine(vec![added("a", "a")]);
    assert_eq!(matches(&engine, &["a", "", "#a"]), ok(&["a"]));
    let exempting = engine_exempting(vec![added("b.ts", "b")], b"s\n\nignore-if-changed: a.ts,\n");
    assert!(!exempting.is_ignored("b.ts"));
    assert!(exempting.is_ignored("a.ts"));
}

#[test]
fn repeated_targets_in_one_then_change() {
    let a = "// if-changed\nx\n// then-change(b.js, b.js, *.js)\n";
    let engine = engine(vec![
        modified("a.js", a, second_line_replaced()),
        modified("b.js", "y", vec![hunk(1, 1, vec![removed_line(1), added_line(1)])]),
    ]);
    assert_eq!(engine.check("a.js"), Ok(()));
}

#[test]
fn new_rejects_repeated_paths() {
    assert!(GitEngine::new(ROOT.to_string(), vec![added("a", "x"), added("a", "y")], vec![]).is_none());
}

#[test]
fn added_files_are_modified_everywhere() {
    let engine = engine(vec![added("f", "x")]);
    assert!(engine.is_range_modified("f", (100, 200)));
}

#[test]
fn messages_quote_single_quotes_as_paths_do() {
    let engine = engine(vec![modified(
        "it's",
        "// if-changed\nx\n// then-change(missing)\n",
        second_line_replaced(),
    )]);
    assert_eq!(
        engine.check("it's"),
        Err(vec![format!(
            "Expected \"missing\" to be modified because of \"then-change\" in {:?} at line 3.",
            Path::new("it's")
        )])
    );
}
