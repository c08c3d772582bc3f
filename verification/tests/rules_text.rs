use fastymllint::rule::{Rule, RuleContext};
use fastymllint::rules::document_markers::{fix_document_end, fix_document_start, DocumentStart};
use fastymllint::rules::empty_lines::{fix_empty_lines, EmptyLines};
use fastymllint::rules::new_line_at_end::{fix_new_line_at_end, NewLineAtEndOfFile};
use fastymllint::rules::trailing_spaces::{fix_trailing_spaces, TrailingSpaces};

#[test]
fn test_trailing_spaces_detection() {
    let content = "hello   \nworld\nfoo  ";
    let ctx = RuleContext::new(content);
    let diagnostics = TrailingSpaces.check(&ctx, None);

    assert_eq!(diagnostics.len(), 2);
    assert_eq!(diagnostics[0].location.line, 1);
    assert_eq!(diagnostics[1].location.line, 3);
}

#[test]
fn test_fix_trailing_spaces() {
    let content = "hello   \nworld\nfoo  \n";
    let fixed = fix_trailing_spaces(content);
    assert_eq!(fixed, "hello\nworld\nfoo\n");
}

#[test]
fn test_missing_newline() {
    let content = "hello: world";
    let ctx = RuleContext::new(content);
    let diagnostics = NewLineAtEndOfFile.check(&ctx, None);

    assert_eq!(diagnostics.len(), 1);
}

#[test]
fn test_has_newline() {
    let content = "hello: world\n";
    let ctx = RuleContext::new(content);
    let diagnostics = NewLineAtEndOfFile.check(&ctx, None);

    assert!(diagnostics.is_empty());
}

#[test]
fn test_fix_newline() {
    assert_eq!(fix_new_line_at_end("foo"), "foo\n");
    assert_eq!(fix_new_line_at_end("foo\n"), "foo\n");
}

#[test]
fn test_missing_document_start() {
    let content = "key: value\n";
    let ctx = RuleContext::new(content);
    let diagnostics = DocumentStart.check(&ctx, None);

    assert_eq!(diagnostics.len(), 1);
}

#[test]
fn test_has_document_start() {
    let content = "---\nkey: value\n";
    let ctx = RuleContext::new(content);
    let diagnostics = DocumentStart.check(&ctx, None);

    assert!(diagnostics.is_empty());
}

#[test]
fn test_fix_document_start() {
    assert_eq!(fix_document_start("key: value\n"), "---\nkey: value\n");
    assert_eq!(fix_document_start("---\nkey: value\n"), "---\nkey: value\n");
}

#[test]
fn test_fix_document_end() {
    assert_eq!(fix_document_end("key: value"), "key: value\n...\n");
    assert_eq!(fix_document_end("key: value\n..."), "key: value\n...\n");
}

#[test]
fn test_too_many_empty_lines() {
    let content = "hello:\n\n\n\n\nworld: value\n";
    let ctx = RuleContext::new(content);
    let rule = EmptyLines::new(2);
    let diagnostics = rule.check(&ctx, None);

    assert!(!diagnostics.is_empty());
}

#[test]
fn test_fix_empty_lines() {
    let content = "hello:\n\n\n\n\nworld: value\n";
    let fixed = fix_empty_lines(content, 2);
    assert_eq!(fixed, "hello:\n\n\nworld: value\n");
}
