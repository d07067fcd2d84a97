use if_changed::parser::{find_named, parse, IfChangedBlock, Parser};
use if_changed::text::{NumberedLine, StringRef};
use if_changed::trailer::{ignore_patterns, split_patterns};

fn lines_of(text: &str) -> Vec<String> {
    text.lines().map(String::from).collect()
}

fn blocks(text: &str) -> Vec<IfChangedBlock> {
    match parse("f.rs", lines_of(text)) {
        Ok(blocks) => blocks,
        Err(errors) => panic!("unexpected errors: {:?}", errors),
    }
}

fn errors(text: &str) -> Vec<String> {
    match parse("f.rs", lines_of(text)) {
        Ok(_) => panic!("expected errors"),
        Err(errors) => errors,
    }
}

/// (name, value, line) of each pattern of a block.
fn patterns(block: &IfChangedBlock) -> Vec<(Option<String>, String, usize)> {
    block.patterns.iter().map(|p| (p.name.clone(), p.value.clone(), p.line)).collect()
}

fn plain(value: &str, line: usize) -> (Option<String>, String, usize) {
    (None, value.to_string(), line)
}

#[test]
fn it_parses_empty_files() {
    assert!(blocks("").is_empty());
    assert!(blocks("\n").is_empty());
}

#[test]
fn it_parses() {
    let b = blocks(
        "
            // if-changed
            const FOO: u32 = 0;
            // then-change(foo.rs)

            // if-changed(some-name)
            const FOO: u32 = 0;
            // then-change(foo.rs)
        ",
    );
    assert_eq!(b.len(), 2);
    assert_eq!(b[0].name, None);
    assert_eq!(b[0].range, (2, 4));
    assert_eq!(patterns(&b[0]), vec![plain("foo.rs", 4)]);
    assert_eq!(b[1].name, Some("some-name".to_string()));
    assert_eq!(b[1].range, (6, 8));
    assert_eq!(patterns(&b[1]), vec![plain("foo.rs", 8)]);
}

#[test]
fn it_parses_empty_path_with_name() {
    let b = blocks(
        "
            // if-changed(a)
            const FOO: u32 = 0;
            // then-change(:b)

            // if-changed(b)
            const FOO: u32 = 0;
            // then-change(:a)
        ",
    );
    assert_eq!(b.len(), 2);
    assert_eq!(b[0].name, Some("a".to_string()));
    assert_eq!(b[0].range, (2, 4));
    assert_eq!(patterns(&b[0]), vec![(Some("b".to_string()), String::new(), 4)]);
    assert_eq!(b[1].name, Some("b".to_string()));
    assert_eq!(b[1].range, (6, 8));
    assert_eq!(patterns(&b[1]), vec![(Some("a".to_string()), String::new(), 8)]);
}

#[test]
fn it_parses_inline_blocks() {
    let b = blocks("// if-changed this is a test then-change(foo.rs)");
    assert_eq!(b.len(), 1);
    assert_eq!(b[0].name, None);
    assert_eq!(b[0].range, (1, 1));
    assert_eq!(patterns(&b[0]), vec![plain("foo.rs", 1)]);
}

#[test]
fn it_parses_multiple_paths_inline() {
    let b = blocks(
        "
            // if-changed
            const FOO: u32 = 0;
            // then-change(foo.rs, bar.rs)

            // if-changed
            const FOO: u32 = 0;
            // then-change(foo.rs, bar.rs, baz.rs)
        ",
    );
    assert_eq!(b.len(), 2);
    assert_eq!(b[0].range, (2, 4));
    assert_eq!(patterns(&b[0]), vec![plain("foo.rs", 4), plain("bar.rs", 4)]);
    assert_eq!(b[1].range, (6, 8));
    assert_eq!(
        patterns(&b[1]),
        vec![plain("foo.rs", 8), plain("bar.rs", 8), plain("baz.rs", 8)]
    );
}

#[test]
fn it_parses_multiple_paths_multiline() {
    let b = blocks(
        "
            // if-changed
            const FOO: u32 = 0;
            // then-change(
            //   foo.rs,
            //   bar.rs,
            // )

            // if-changed
            const FOO: u32 = 0;
            // then-change(foo.rs,
            //   bar.rs,
            // )

            // if-changed
            const FOO: u32 = 0;
            // then-change(foo.rs,
            //   bar.rs)

            // if-changed
            const FOO: u32 = 0;
            // then-change(foo.rs,
            //   bar.rs,
            //)

            // if-changed
            const FOO: u32 = 0;
            // then-change(
            //   foo.rs
            //   bar.rs
            // )
        ",
    );
    let ranges: Vec<(usize, usize)> = b.iter().map(|b| b.range).collect();
    assert_eq!(ranges, vec![(2, 4), (9, 11), (15, 17), (20, 22), (26, 28)]);
    for block in &b {
        let line = block.range.1;
        assert_eq!(patterns(block), vec![plain("foo.rs", line), plain("bar.rs", line)]);
    }
}

#[test]
fn it_parses_multiline_comments() {
    let b = blocks(
        "
            <!-- if-changed -->
            <div></div>
            <!--
                then-change(
                    foo.rs,
                    bar.rs,
                )
            -->
        ",
    );
    assert_eq!(b.len(), 1);
    assert_eq!(b[0].range, (2, 5));
    assert_eq!(patterns(&b[0]), vec![plain("foo.rs", 5), plain("bar.rs", 5)]);
}

#[test]
fn blocks_close_in_stack_order() {
    let b = blocks("// if-changed\n// if-changed\n// then-change(a)\n// then-change(b)\n");
    assert_eq!(b.len(), 2);
    assert_eq!(b[0].range, (2, 3));
    assert_eq!(patterns(&b[0]), vec![plain("a", 3)]);
    assert_eq!(b[1].range, (1, 4));
    assert_eq!(patterns(&b[1]), vec![plain("b", 4)]);
}

#[test]
fn unterminated_block_is_one_error_at_the_end() {
    let text = "x\n// if-changed\nfoo\nbar\n";
    let mut parser = Parser::new("f.rs".to_string(), lines_of(text));
    match parser.next() {
        Some(Err(errors)) => assert_eq!(
            errors,
            vec!["Missing \"then-changed\" for \"if-changed\" at line 2 for \"f.rs\".".to_string()]
        ),
        _ => panic!("expected the unclosed block"),
    }
    assert!(parser.next().is_none());
}

#[test]
fn two_unterminated_blocks_are_listed_in_order() {
    assert_eq!(
        errors("// if-changed\n// if-changed(x)\n"),
        vec![
            "Missing \"then-changed\" for \"if-changed\" at line 1 for \"f.rs\".".to_string(),
            "Missing \"then-changed\" for \"if-changed\" at line 2 for \"f.rs\".".to_string(),
        ]
    );
}

#[test]
fn backslash_escapes_a_delimiter() {
    let b = blocks("// if-changed\n// then-change(foo\\,bar.rs)\n");
    assert_eq!(b.len(), 1);
    assert_eq!(patterns(&b[0]), vec![plain("foo,bar.rs", 2)]);
}

#[test]
fn backslash_at_end_of_line_continues_the_entry() {
    let b = blocks("// if-changed\n// then-change(foo\\\n// bar.rs)\n");
    assert_eq!(patterns(&b[0]), vec![plain("foobar.rs", 2)]);
    assert_eq!(b[0].range, (1, 2));
}

#[test]
fn empty_list_and_trailing_comma() {
    let b = blocks("// if-changed\n// then-change()\n// if-changed\n// then-change(a,)\n");
    assert!(patterns(&b[0]).is_empty());
    assert_eq!(patterns(&b[1]), vec![plain("a", 4)]);
}

#[test]
fn names_are_trimmed() {
    let b = blocks("# if-changed( spaced name )\n# then-change( x.py : other )\n");
    assert_eq!(b[0].name, Some("spaced name".to_string()));
    assert_eq!(patterns(&b[0]), vec![(Some("other".to_string()), "x.py".to_string(), 2)]);
}

#[test]
fn unclosed_name_is_an_error() {
    assert_eq!(
        errors("// if-changed(foo\n"),
        vec!["Could not find ')' for \"if-changed\" at line 1 for \"f.rs\".".to_string()]
    );
}

#[test]
fn missing_open_paren_is_an_error() {
    assert_eq!(
        errors("// if-changed\n// then-change foo\n"),
        vec!["Could not find '(' for \"then-change\" at line 2 for \"f.rs\".".to_string()]
    );
}

#[test]
fn missing_close_paren_is_an_error() {
    assert_eq!(
        errors("// if-changed\n// then-change(foo,\n"),
        vec!["Could not find ')' for \"then-change\" at line 2 for \"f.rs\".".to_string()]
    );
}

#[test]
fn empty_entry_is_an_error() {
    assert_eq!(
        errors("// if-changed\n// then-change(a,\n// ,b)\n"),
        vec![
            "Unexpected empty path at line 3 for \"then-change\" at line 2 for \"f.rs\".".to_string()
        ]
    );
}

#[test]
fn then_change_without_if_changed_is_an_error() {
    assert_eq!(
        errors("// if-changed\n// then-change(a)\n// then-change(b)\n// if-changed\n"),
        vec!["Missing \"if-changed\" for \"then-change\" at line 3 for \"f.rs\".".to_string()]
    );
}

#[test]
fn then_change_error_without_block_lists_both() {
    assert_eq!(
        errors("// then-change(a"),
        vec![
            "Missing \"if-changed\" for \"then-change\" at line 1 for \"f.rs\".".to_string(),
            "Could not find ')' for \"then-change\" at line 1 for \"f.rs\".".to_string(),
        ]
    );
}

#[test]
fn find_named_picks_the_named_block() {
    let lines = lines_of("// if-changed(a)\n// then-change(x)\n// if-changed(b)\n// then-change(y)\n");
    match find_named("f.rs", lines.clone(), "b") {
        Some(Ok(block)) => assert_eq!(block.range, (3, 4)),
        _ => panic!("expected block b"),
    }
    assert!(find_named("f.rs", lines, "c").is_none());
}

#[test]
fn string_ref_moves_its_cursor() {
    let mut s = StringRef::new("  // abc".to_string());
    s.modify_with(|l: &StringRef| l.whitespace_len());
    assert_eq!(s.len(), 6);
    assert!(!s.try_modify_with(|_l: &StringRef| None));
    assert_eq!(s.len(), 6);
    assert!(s.try_modify_with(|_l: &StringRef| Some(3)));
    assert_eq!(s.len(), 3);
    assert_eq!(s.at(0), 'a');
    let line = NumberedLine::new(7, "x".to_string());
    assert_eq!(line.number, 7);
    assert_eq!(line.value.len(), 1);
}

#[test]
fn test_basic_pathspec() {
    assert_eq!(split_patterns(b"a"), vec!["a".to_string()]);
}

#[test]
fn test_multiple_pathspec() {
    assert_eq!(split_patterns(b"a/b, b/c"), vec!["a/b".to_string(), "b/c".to_string()]);
}

#[test]
fn test_multiple_pathspec_with_comment() {
    assert_eq!(
        split_patterns(b"a/b, b/c -- Hello world!"),
        vec!["a/b".to_string(), "b/c".to_string()]
    );
}

#[test]
fn test_multiple_pathspec_with_empty_comment() {
    assert_eq!(split_patterns(b"a/b, b/c --"), vec!["a/b".to_string(), "b/c".to_string()]);
}

#[test]
fn split_patterns_replaces_invalid_utf8() {
    assert_eq!(split_patterns(b" a\xff ,b"), vec!["a\u{fffd}".to_string(), "b".to_string()]);
}

#[test]
fn ignore_patterns_read_the_trailer() {
    assert_eq!(
        ignore_patterns(b"second commit\n\nignore-if-changed: c/a, d -- why\n"),
        vec!["c/a".to_string(), "d".to_string()]
    );
    assert_eq!(
        ignore_patterns(b"second commit\n\nIgnore-If-Changed: c/a\n"),
        vec!["c/a".to_string()]
    );
    assert!(ignore_patterns(b"second commit\n\nSigned-off-by: x\n").is_empty());
    assert!(ignore_patterns(b"second commit").is_empty());
}

#[test]
fn escaped_characters_are_trimmed_with_their_piece() {
    let b = blocks(
        "// if-changed\n// then-change(foo\\ )\n// if-changed\n// then-change(foo\\ bar,\n//  x\\)y)\n",
    );
    assert_eq!(patterns(&b[0]), vec![plain("foo", 2)]);
    assert_eq!(patterns(&b[1]), vec![plain("foobar", 4), plain("x)y", 4)]);
}

#[test]
fn missing_if_changed_names_the_then_change_line() {
    assert_eq!(
        errors("x\n// then-change(a,\n// b,\n"),
        vec![
            "Missing \"if-changed\" for \"then-change\" at line 2 for \"f.rs\".".to_string(),
            "Could not find ')' for \"then-change\" at line 2 for \"f.rs\".".to_string(),
        ]
    );
}

#[test]
fn empty_trailer_pieces_exempt_nothing() {
    assert_eq!(ignore_patterns(b"s\n\nignore-if-changed: a.ts,\n"), vec!["a.ts".to_string(), String::new()]);
}
