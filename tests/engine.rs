use mdtask::engine::{ContextKind, TaskOutput};

#[test]
fn find_content_in_file() {
    // "A test\n\n* [ ] my task\n\t* additional info\nAnother test": the matcher
    // reports the task line, then the lines after it as context
    let mut t = TaskOutput::new("sample.txt".to_string(), false);
    let mut out = t.begin();
    out.push_str(&t.matched("* [ ] my task\n"));
    out.push_str(&t.context(ContextKind::After, "\t* additional info\n"));
    out.push_str(&t.context(ContextKind::After, "Another test"));
    assert!(out.contains("my task\n\t* additional"));
    assert!(!out.contains("Another test"));
}

#[test]
fn separator_without_tasks() {
    let t = TaskOutput::new("empty.md".to_string(), false);
    assert_eq!(t.begin(), "\n\n--empty.md--\n");
    assert!(t.begin().contains("--empty.md--"));
}

#[test]
fn heading_is_buffered_not_printed() {
    let mut t = TaskOutput::new("a.md".to_string(), false);
    assert_eq!(t.matched("# Top\n"), "");
    assert_eq!(t.matched("## Sub\n"), "");
    assert_eq!(t.matched("- [ ] do it  \n"), "# Top\n## Sub\n- [ ] do it\n");
    assert!(t.has_printed());
}

#[test]
fn blank_line_only_after_first_print_with_chain() {
    let mut t = TaskOutput::new("a.md".to_string(), false);
    assert_eq!(t.matched("# A\n"), "");
    assert_eq!(t.matched("* [ ] one\n"), "# A\n* [ ] one\n");
    // no new heading: no chain, no blank line
    assert_eq!(t.matched("* [ ] two\n"), "* [ ] two\n");
    assert_eq!(t.matched("# B\n"), "");
    assert_eq!(t.matched("* [ ] three\n"), "\n# B\n* [ ] three\n");
}

#[test]
fn printed_flag_carries_to_next_document() {
    let mut first = TaskOutput::new("a.md".to_string(), false);
    first.matched("* [ ] one\n");
    let mut second = TaskOutput::new("b.md".to_string(), first.has_printed());
    second.matched("# H\n");
    assert_eq!(second.matched("* [ ] two\n"), "\n# H\n* [ ] two\n");

    let mut fresh = TaskOutput::new("c.md".to_string(), false);
    fresh.matched("# H\n");
    assert_eq!(fresh.matched("* [ ] two\n"), "# H\n* [ ] two\n");
}

#[test]
fn continuation_stops_at_shallower_line() {
    let mut t = TaskOutput::new("a.md".to_string(), false);
    t.matched("  * [ ] task\n");
    assert_eq!(t.context(ContextKind::After, "    deeper\n"), "    deeper\n");
    assert_eq!(t.context(ContextKind::After, "  same\n"), "");
    // deeper again, but the continuation is over
    assert_eq!(t.context(ContextKind::After, "        deeper still\n"), "");
}

#[test]
fn blank_after_line_ends_continuation() {
    let mut t = TaskOutput::new("a.md".to_string(), false);
    t.matched("* [ ] task\n");
    assert_eq!(t.context(ContextKind::After, "\n"), "");
    assert_eq!(t.context(ContextKind::After, "\tnested\n"), "");
}

#[test]
fn next_task_restarts_continuation() {
    let mut t = TaskOutput::new("a.md".to_string(), false);
    t.matched("* [ ] one\n");
    assert_eq!(t.context(ContextKind::After, "end\n"), "");
    t.matched("\t* [ ] two\n");
    assert_eq!(t.context(ContextKind::After, "\t\tnested\n"), "\t\tnested\n");
    assert_eq!(t.context(ContextKind::After, "\tnot deep enough\n"), "");
}

#[test]
fn before_and_other_context_print_nothing() {
    let mut t = TaskOutput::new("a.md".to_string(), false);
    t.matched("* [ ] task\n");
    assert_eq!(t.context(ContextKind::Before, "\t\tbefore\n"), "");
    assert_eq!(t.context(ContextKind::Other, "\t\tother\n"), "");
    // the continuation is still on
    assert_eq!(t.context(ContextKind::After, "\t\tafter\n"), "\t\tafter\n");
}

#[test]
fn after_context_before_any_task_prints_nothing() {
    let mut t = TaskOutput::new("a.md".to_string(), false);
    assert_eq!(t.context(ContextKind::After, "\t\tstray\n"), "");
}
