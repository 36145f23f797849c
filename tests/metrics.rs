use mdtask::filter::filter_headers_to_parents;
use mdtask::metrics::{count_leading_hashes, count_leading_whitespace, is_space};

#[test]
fn check_count_leading_whitespace() {
    assert_eq!(count_leading_whitespace("no leading space"), 0);
    assert_eq!(count_leading_whitespace(" one leading space"), 1);
    assert_eq!(count_leading_whitespace("\ttab leading space"), 4);
    assert_eq!(
        count_leading_whitespace("    \ttab and four leading spaces"),
        8
    );
}

#[test]
fn check_count_leading_hashes() {
    assert_eq!(count_leading_hashes("nothing here"), 0);
    assert_eq!(count_leading_hashes("# Heading 1"), 1);
    assert_eq!(count_leading_hashes("### Heading 3"), 3);
    assert_eq!(
        count_leading_hashes("#-# Not a heading but count should be one"),
        1
    );
    assert_eq!(count_leading_hashes("##### Heading 5"), 5);
}

#[test]
fn check_filter_headers_to_parents() {
    assert_eq!(
        filter_headers_to_parents(
            r#"# Top Level
## Ignore me
### Ignore me
## Sub heading two
### Ignore me
### Sub two two
#### Sub sub two three"#
        ),
        r#"# Top Level
## Sub heading two
### Sub two two
#### Sub sub two three
"#
    );
}

#[test]
fn whitespace_width_of_empty_and_blank_lines() {
    assert_eq!(count_leading_whitespace(""), 0);
    assert_eq!(count_leading_whitespace("\t\t  "), 10);
    assert_eq!(count_leading_whitespace("\n"), 0);
}

#[test]
fn whitespace_width_skips_other_whitespace() {
    // a no-break space and a carriage return weigh nothing but keep the run going
    assert_eq!(count_leading_whitespace("\u{a0}\t x"), 5);
    assert_eq!(count_leading_whitespace("\r  x"), 2);
    assert_eq!(count_leading_whitespace("x\t\t"), 0);
}

#[test]
fn whitespace_predicate() {
    assert!(is_space(' '));
    assert!(is_space('\t'));
    assert!(is_space('\u{3000}'));
    assert!(!is_space('#'));
    assert!(!is_space('x'));
}

#[test]
fn hashes_of_empty_and_bare_lines() {
    assert_eq!(count_leading_hashes(""), 0);
    assert_eq!(count_leading_hashes("###"), 3);
    assert_eq!(count_leading_hashes(" # indented"), 0);
}

#[test]
fn filter_of_empty_buffer_is_empty() {
    assert_eq!(filter_headers_to_parents(""), "");
}

#[test]
fn filter_keeps_nearest_of_equal_levels() {
    assert_eq!(filter_headers_to_parents("## a\n## b\n## c\n"), "## c\n");
}

#[test]
fn filter_skips_lines_that_are_not_headings() {
    assert_eq!(
        filter_headers_to_parents("# top\nstray text\n## sub\n"),
        "# top\n## sub\n"
    );
}

#[test]
fn filter_drops_deeper_heading_before_shallower() {
    assert_eq!(filter_headers_to_parents("### deep\n# top\n"), "# top\n");
}

#[test]
fn filter_strips_crlf_line_endings() {
    assert_eq!(
        filter_headers_to_parents("# top\r\n## sub\r\n"),
        "# top\n## sub\n"
    );
}

#[test]
fn filter_output_levels_increase() {
    let out = filter_headers_to_parents("# a\n### b\n## c\n#### d\n### e\n");
    assert_eq!(out, "# a\n## c\n### e\n");
    let levels: Vec<usize> = out.lines().map(count_leading_hashes).collect();
    for w in levels.windows(2) {
        assert!(w[0] < w[1]);
    }
}

#[test]
fn filter_twice_is_filter_once() {
    let input = "# Top Level\n## Ignore me\n### Ignore me\n## Sub heading two\n### Ignore me\n### Sub two two\n#### Sub sub two three\n";
    let once = filter_headers_to_parents(input);
    let twice = filter_headers_to_parents(&once);
    assert_eq!(once, twice);
    assert_eq!(
        once,
        "# Top Level\n## Sub heading two\n### Sub two two\n#### Sub sub two three\n"
    );
}
