use render_queue::line_tokens::BreakableEntry;
use render_queue::line_tokens::LineToken;
use render_queue::render_queue_writer::RenderQueueWriter;
use render_queue::sink::StringSink;

fn dp(s: &str) -> LineToken {
    LineToken::DirectPart { part: String::from(s) }
}

/// Children of a bracketed list: each element followed by the separator,
/// the inter-element space and the soft line control, ending with the
/// trailing placeholder pattern before the closing delimiter.
fn list_children(elements: &[&str]) -> Vec<LineToken> {
    let mut children = vec![dp("[")];
    for e in elements {
        children.push(LineToken::SoftNewline);
        children.push(LineToken::SoftIndent { depth: 2 });
        children.push(dp(e));
        children.push(LineToken::Comma);
        children.push(LineToken::Space);
    }
    children.push(dp(""));
    children.push(dp("]"));
    children
}

fn render_to_string(tokens: Vec<LineToken>) -> String {
    let mut sink = StringSink::new();
    let r = RenderQueueWriter::new(tokens).write(&mut sink);
    assert!(r.is_ok());
    sink.text().clone()
}

#[test]
fn plain_tokens_written_in_order() {
    let tokens = vec![dp("a"), LineToken::Comma, LineToken::Space, dp("b")];
    assert_eq!(render_to_string(tokens), "a, b");
}

#[test]
fn top_level_soft_markers_render_expanded() {
    let tokens = vec![dp("x"), LineToken::SoftNewline, LineToken::SoftIndent { depth: 3 }, dp("y")];
    assert_eq!(render_to_string(tokens), "x\n   y");
}

#[test]
fn render_converts_soft_markers_to_hard_ones() {
    let tokens = vec![LineToken::SoftNewline, LineToken::SoftIndent { depth: 3 }, dp("x")];
    let flat = RenderQueueWriter::new(tokens).render();
    assert_eq!(
        flat,
        vec![LineToken::HardNewline, LineToken::Indent { depth: 3 }, dp("x")]
    );
}

#[test]
fn cleanup_strips_trailing_artifact_exactly() {
    // Collapsing a group with elements [a, b, c] and a trailing placeholder
    // yields exactly "[a, b, c]": no trailing comma, no trailing space, no
    // empty fragment.
    let group = LineToken::BreakableEntry(BreakableEntry::new(list_children(&["a", "b", "c"])));
    assert_eq!(render_to_string(vec![group]), "[a, b, c]");
}

#[test]
fn three_element_list_fits_on_one_line() {
    let group = LineToken::BreakableEntry(BreakableEntry::new(list_children(&["1", "2", "3"])));
    assert_eq!(render_to_string(vec![group]), "[1, 2, 3]");
}

#[test]
fn forty_char_list_renders_single_line() {
    // Measured collapsed length: 1 + 3 * (11 + 2) + 0 + 1 = 41 characters,
    // well within the budget of 80.
    let elements = ["aaaaaaaaaaa", "bbbbbbbbbbb", "ccccccccccc"];
    let be = BreakableEntry::new(list_children(&elements));
    assert_eq!(be.single_line_string_length(), 41);
    let out = render_to_string(vec![LineToken::BreakableEntry(be)]);
    assert_eq!(out, "[aaaaaaaaaaa, bbbbbbbbbbb, ccccccccccc]");
    assert!(!out.contains('\n'));
}

#[test]
fn overflowing_list_expands_with_line_breaks() {
    let e = "aaaaaaaaaaaaaaaaaaaaaaaaaaaaaa";  // 30 characters
    let be = BreakableEntry::new(list_children(&[e, e, e]));
    assert_eq!(be.single_line_string_length(), 98);
    let out = render_to_string(vec![LineToken::BreakableEntry(be)]);
    assert_eq!(
        out,
        format!("[\n  {e}, \n  {e}, \n  {e}, ]")
    );
    assert!(out.contains('\n'));
}

#[test]
fn collapsed_length_exactly_at_budget_collapses() {
    // 1 + 76 + 1 + 1 + 0 + 1 = 80: at the budget, not over it.
    let x: String = "x".repeat(76);
    let children = vec![dp("["), dp(&x), LineToken::Comma, LineToken::Space, dp(""), dp("]")];
    let be = BreakableEntry::new(children);
    assert_eq!(be.single_line_string_length(), 80);
    let out = render_to_string(vec![LineToken::BreakableEntry(be)]);
    assert_eq!(out, format!("[{x}]"));
}

#[test]
fn collapsed_length_one_over_budget_expands() {
    // 1 + 77 + 1 + 1 + 0 + 1 = 81: one over the budget.
    let x: String = "x".repeat(77);
    let children = vec![dp("["), dp(&x), LineToken::Comma, LineToken::Space, dp(""), dp("]")];
    let be = BreakableEntry::new(children);
    assert_eq!(be.single_line_string_length(), 81);
    let out = render_to_string(vec![LineToken::BreakableEntry(be)]);
    // Expanded: every child rendered as it stands, no cleanup.
    assert_eq!(out, format!("[{x}, ]"));
}

#[test]
fn nested_group_is_decided_independently() {
    // The outer group overflows and expands; the short inner group still
    // collapses onto one line of its own.
    let inner = BreakableEntry::new(list_children(&["1", "2"]));
    let long = "a".repeat(85);
    let mut children = vec![dp("[")];
    children.push(LineToken::SoftNewline);
    children.push(LineToken::SoftIndent { depth: 2 });
    children.push(dp(&long));
    children.push(LineToken::Comma);
    children.push(LineToken::Space);
    children.push(LineToken::SoftNewline);
    children.push(LineToken::SoftIndent { depth: 2 });
    children.push(LineToken::BreakableEntry(inner));
    children.push(LineToken::Comma);
    children.push(LineToken::Space);
    children.push(dp(""));
    children.push(dp("]"));
    let out = render_to_string(vec![LineToken::BreakableEntry(BreakableEntry::new(children))]);
    assert!(out.contains('\n'));
    assert!(out.contains("[1, 2]"));
    assert!(!out.contains("[1, 2, ]"));
    assert_eq!(out, format!("[\n  {long}, \n  [1, 2], ]"));
}

#[test]
fn empty_group_renders_nothing() {
    // A group without children has no trailing artifact; the cleanup is
    // skipped rather than removing out of range.
    let group = LineToken::BreakableEntry(BreakableEntry::new(vec![]));
    assert_eq!(render_to_string(vec![group]), "");
}

#[test]
fn group_without_artifact_is_left_as_it_stands() {
    let group = LineToken::BreakableEntry(BreakableEntry::new(vec![dp("(a)")]));
    assert_eq!(render_to_string(vec![group]), "(a)");
}

#[test]
fn measurement_is_repeatable_and_leaves_the_tree_whole() {
    let be = BreakableEntry::new(list_children(&["1", "2", "3"]));
    let first = be.single_line_string_length();
    let second = be.single_line_string_length();
    assert_eq!(first, second);
    assert_eq!(first, 11);
    // The tree is untouched: it still renders in full.
    assert_eq!(render_to_string(vec![LineToken::BreakableEntry(be)]), "[1, 2, 3]");
}

#[test]
fn measurement_counts_nested_groups_collapsed() {
    let inner = BreakableEntry::new(list_children(&["1", "2"]));
    // Inner collapsed, artifact included: "[1, 2, ]" is 8 characters.
    assert_eq!(inner.single_line_string_length(), 8);
    let children = vec![dp("("), LineToken::BreakableEntry(inner), dp(")")];
    let outer = BreakableEntry::new(children);
    assert_eq!(outer.single_line_string_length(), 10);
}

#[test]
fn empty_input_renders_empty_output() {
    assert_eq!(render_to_string(vec![]), "");
}
