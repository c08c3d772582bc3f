use fastymllint::rule::{Rule, RuleContext};
use fastymllint::rules::anchors::Anchors;
use fastymllint::rules::brackets::Brackets;
use fastymllint::rules::commas::Commas;
use fastymllint::rules::comments::Comments;
use fastymllint::rules::comments_indentation::CommentsIndentation;
use fastymllint::rules::key_duplicates::{find_key_colon, KeyDuplicates};
use fastymllint::rules::line_length::LineLength;

#[test]
fn test_undeclared_alias() {
    let content = "alias: *undeclared\n";
    let ctx = RuleContext::new(content);
    let rule = Anchors::default();
    let diagnostics = rule.check(&ctx, None);

    assert_eq!(diagnostics.len(), 1);
    assert!(diagnostics[0].message.contains("undeclared"));
}

#[test]
fn test_duplicated_anchor() {
    let content = "a: &anchor val1\nb: &anchor val2\nc: *anchor\n";
    let ctx = RuleContext::new(content);
    let rule = Anchors::default();
    let diagnostics = rule.check(&ctx, None);

    assert_eq!(diagnostics.len(), 1);
    assert!(diagnostics[0].message.contains("duplicated"));
}

#[test]
fn test_unused_anchor() {
    let content = "a: &unused val\n";
    let ctx = RuleContext::new(content);
    let rule = Anchors::default();
    let diagnostics = rule.check(&ctx, None);

    assert_eq!(diagnostics.len(), 1);
    assert!(diagnostics[0].message.contains("unused"));
}

#[test]
fn test_valid_anchors() {
    let content = "a: &anchor val\nb: *anchor\n";
    let ctx = RuleContext::new(content);
    let rule = Anchors::default();
    let diagnostics = rule.check(&ctx, None);

    assert!(diagnostics.is_empty());
}

#[test]
fn test_brackets_forbid() {
    let rule = Brackets {
        forbid: true,
        ..Default::default()
    };
    let content = "[item1, item2]";
    let ctx = RuleContext::new(content);
    let diagnostics = rule.check(&ctx, None);
    assert_eq!(diagnostics.len(), 1);
    assert_eq!(diagnostics[0].message, "flow sequences are forbidden");
}

#[test]
fn test_brackets_min_spaces() {
    let rule = Brackets {
        min_spaces_inside: 1,
        ..Default::default()
    };
    let content = "[item1, item2]";
    let ctx = RuleContext::new(content);
    let diagnostics = rule.check(&ctx, None);
    assert_eq!(diagnostics.len(), 2);
    assert_eq!(diagnostics[0].message, "too few spaces inside brackets");
}

#[test]
fn test_commas_before() {
    let rule = Commas {
        max_spaces_before: 0,
        ..Default::default()
    };
    let content = "[item1 , item2]";
    let ctx = RuleContext::new(content);
    let diagnostics = rule.check(&ctx, None);
    assert_eq!(diagnostics.len(), 1);
    assert_eq!(diagnostics[0].message, "too many spaces before comma");
}

#[test]
fn test_commas_min_after() {
    let rule = Commas {
        min_spaces_after: 1,
        ..Default::default()
    };
    let content = "[item1,item2]";
    let ctx = RuleContext::new(content);
    let diagnostics = rule.check(&ctx, None);
    assert_eq!(diagnostics.len(), 1);
    assert_eq!(diagnostics[0].message, "too few spaces after comma");
}

#[test]
fn test_commas_max_after() {
    let rule = Commas {
        max_spaces_after: 1,
        ..Default::default()
    };
    let content = "[item1,  item2]";
    let ctx = RuleContext::new(content);
    let diagnostics = rule.check(&ctx, None);
    assert_eq!(diagnostics.len(), 1);
    assert_eq!(diagnostics[0].message, "too many spaces after comma");
}

#[test]
fn test_comments_starting_space() {
    let rule = Comments {
        require_starting_space: true,
        ..Default::default()
    };
    let content = "#comment";
    let ctx = RuleContext::new(content);
    let diagnostics = rule.check(&ctx, None);
    assert_eq!(diagnostics.len(), 1);
    assert_eq!(diagnostics[0].message, "no space after comment's #");
}

#[test]
fn test_comments_min_spaces() {
    let rule = Comments {
        min_spaces_from_content: 2,
        require_starting_space: false,
        ignore_shebangs: true,
    };
    let content = "key: value #comment";
    let ctx = RuleContext::new(content);
    let diagnostics = rule.check(&ctx, None);
    assert_eq!(diagnostics.len(), 1);
    assert_eq!(diagnostics[0].message, "too few spaces before comment");
}

#[test]
fn test_comments_shebang() {
    let rule = Comments {
        ..Default::default()
    };
    let content = "#!/bin/bash";
    let ctx = RuleContext::new(content);
    let diagnostics = rule.check(&ctx, None);
    assert_eq!(diagnostics.len(), 0);
}

#[test]
fn test_comments_indentation_valid() {
    let rule = CommentsIndentation;
    let content = "key:\n  value\n  # comment\n  other: value";
    let ctx = RuleContext::new(content);
    let diagnostics = rule.check(&ctx, None);
    assert_eq!(diagnostics.len(), 0);
}

#[test]
fn test_comments_indentation_invalid() {
    let rule = CommentsIndentation;
    let content = "key:\n  value\n# comment\n  other: value";
    let ctx = RuleContext::new(content);
    let diagnostics = rule.check(&ctx, None);
    assert_eq!(diagnostics.len(), 1);
    assert_eq!(diagnostics[0].message, "comment not indented like content");
}

#[test]
fn test_duplicate_keys() {
    let content = "name: foo\nvalue: 1\nname: bar\n";
    let ctx = RuleContext::new(content);
    let diagnostics = KeyDuplicates::default().check(&ctx, None);

    assert_eq!(diagnostics.len(), 1);
    assert_eq!(diagnostics[0].location.line, 3);
}

#[test]
fn test_no_duplicates() {
    let content = "name: foo\nvalue: 1\nother: bar\n";
    let ctx = RuleContext::new(content);
    let diagnostics = KeyDuplicates::default().check(&ctx, None);

    assert!(diagnostics.is_empty());
}

#[test]
fn test_nested_same_keys() {
    // Same key at different nesting levels is OK
    let content = "parent:\n  name: foo\nname: bar\n";
    let ctx = RuleContext::new(content);
    let diagnostics = KeyDuplicates::default().check(&ctx, None);

    assert!(diagnostics.is_empty());
}

#[test]
fn test_find_key_colon() {
    assert_eq!(find_key_colon("key: value"), Some(3));
    assert_eq!(find_key_colon("\"key: with colon\": value"), Some(17));
    assert_eq!(find_key_colon("- list item"), None);
}

#[test]
fn test_line_length_detection() {
    let content = "short\nthis is a very long line that exceeds the maximum length limit we have set\nok";
    let ctx = RuleContext::new(content);
    let rule = LineLength::default();
    let diagnostics = rule.check(&ctx, None);
    assert_eq!(diagnostics.len(), 1);
}

#[test]
fn test_line_range_counts_each_break() {
    let ctx = RuleContext::new("a\r\nb");
    assert_eq!(ctx.line_range(0), None);
    assert_eq!(ctx.line_range(1), Some((0, 1)));
    assert_eq!(ctx.line_range(2), Some((3, 4)));
    assert_eq!(ctx.line_range(3), None);
    let ctx = RuleContext::new("x\n\u{e9}\u{e9}\r\n\nz\r");
    assert_eq!(ctx.line_range(2), Some((2, 6)));
    assert_eq!(ctx.line_range(3), Some((8, 8)));
    assert_eq!(ctx.line_range(4), Some((9, 11)));
}

#[test]
fn test_allow_non_breakable_words() {
    let content = "url: https://very-long-url.example.com/with/a/very/long/path/that/exceeds/limit";
    let ctx = RuleContext::new(content);
    let rule = LineLength {
        allow_non_breakable_words: true,
        ..Default::default()
    };
    let diagnostics = rule.check(&ctx, None);
    assert!(diagnostics.is_empty());
}
