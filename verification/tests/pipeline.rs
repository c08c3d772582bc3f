use fastymllint::linter::{
    copy_problem, get_cosmetic_problems, get_syntax_error, is_file_disabled, merge_syntax_error, run,
    token_or_comment_generator,
    token_or_comment_or_line_generator, DisableDirective, Elem, Level, LintProblem,
};
use fastymllint::pyyaml::tokens::TokenKind;

fn problem(line: usize, column: usize, desc: &str, rule: Option<&'static str>) -> LintProblem {
    LintProblem { line, column, desc: desc.to_string(), rule, level: Level::Error }
}

#[test]
fn test_tokens_and_inline_comment() {
    let (elems, buffer) = token_or_comment_generator("a: 1 # c\n");
    let comments: Vec<_> = elems
        .iter()
        .filter_map(|e| match e {
            Elem::Comment(c) => Some(c.clone()),
            _ => None,
        })
        .collect();
    assert_eq!(comments.len(), 1);
    assert_eq!(comments[0].line_no, 1);
    assert_eq!(comments[0].column_no, 6);
    assert_eq!(comments[0].text(&buffer), "# c");
    assert!(comments[0].is_inline(&buffer));
    match &elems[0] {
        Elem::Token(t) => {
            assert_eq!(t.curr.kind, TokenKind::StreamStart);
            assert_eq!(t.line_no, 1);
            assert!(t.prev.is_none());
        }
        _ => panic!("the stream starts with a token"),
    }
}

#[test]
fn test_comment_on_own_line() {
    let (elems, buffer) = token_or_comment_generator("a: 1\n# own\nb: 2\n");
    let comment = elems
        .iter()
        .find_map(|e| match e {
            Elem::Comment(c) => Some(c.clone()),
            _ => None,
        })
        .expect("a comment");
    assert_eq!(comment.line_no, 2);
    assert_eq!(comment.column_no, 1);
    assert!(!comment.is_inline(&buffer));
}

#[test]
fn test_lines_are_merged_after_tokens() {
    let (elems, _) = token_or_comment_or_line_generator("a: 1\nb: 2\n");
    let lines: Vec<usize> = elems
        .iter()
        .filter_map(|e| match e {
            Elem::Line(l) => Some(l.line_no),
            _ => None,
        })
        .collect();
    assert_eq!(lines, vec![1, 2, 3]);
    // The first line comes after the tokens of line 1.
    let first_line = elems.iter().position(|e| matches!(e, Elem::Line(_))).unwrap();
    assert!(first_line > 0);
}

#[test]
fn test_syntax_error_problem() {
    let p = get_syntax_error("a: b: c").expect("a syntax error");
    assert_eq!(p.line, 1);
    assert_eq!(p.column, 5);
    assert_eq!(p.desc, "syntax error: mapping values are not allowed here (syntax)");
    assert!(p.rule.is_none());
    assert_eq!(p.level, Level::Error);
    assert!(get_syntax_error("a: b\n").is_none());
}

#[test]
fn test_parse_rules() {
    assert_eq!(
        DisableDirective::parse_rules(" rule:trailing-spaces rule:line-length  "),
        vec!["trailing-spaces".to_string(), "line-length".to_string()]
    );
    assert!(DisableDirective::parse_rules("").is_empty());
}

#[test]
fn test_disable_and_enable_rules() {
    let all = ["trailing-spaces", "line-length"];
    let mut d = DisableDirective::new(&all);
    let trailing = problem(1, 1, "trailing spaces", Some("trailing-spaces"));
    let long = problem(1, 1, "line too long", Some("line-length"));
    let syntax = problem(1, 1, "syntax error", None);
    assert!(!d.is_disabled(&trailing));

    d.process_comment("# yamllint disable rule:trailing-spaces");
    assert!(d.is_disabled(&trailing));
    assert!(!d.is_disabled(&long));
    assert!(!d.is_disabled(&syntax));

    d.process_comment("# yamllint enable rule:trailing-spaces");
    assert!(!d.is_disabled(&trailing));

    d.process_comment("# yamllint disable");
    assert!(d.is_disabled(&trailing));
    assert!(d.is_disabled(&long));

    d.process_comment("# yamllint enable");
    assert!(!d.is_disabled(&long));

    // Unknown rules are not recorded; other comments change nothing.
    d.process_comment("# yamllint disable rule:no-such-rule");
    assert!(!d.is_disabled(&problem(1, 1, "x", Some("no-such-rule"))));
    d.process_comment("# just a comment");
    assert!(!d.is_disabled(&trailing));
}

#[test]
fn test_disable_line() {
    let all = ["trailing-spaces", "line-length"];
    let mut d = DisableDirective::new(&all);
    d.process_line_comment("# yamllint disable-line rule:line-length");
    assert!(d.is_disabled(&problem(2, 1, "line too long", Some("line-length"))));
    assert!(!d.is_disabled(&problem(2, 1, "trailing spaces", Some("trailing-spaces"))));
    // The block form does not turn rules off for one line.
    let mut e = DisableDirective::new(&all);
    e.process_line_comment("# yamllint disable rule:line-length");
    assert!(!e.is_disabled(&problem(2, 1, "line too long", Some("line-length"))));
}

#[test]
fn test_file_disabled() {
    assert!(is_file_disabled("# yamllint disable-file\nkey: value\n"));
    assert!(is_file_disabled("#yamllint disable-file\r\nkey: value\n"));
    assert!(!is_file_disabled("key: value\n# yamllint disable-file\n"));
    assert!(!is_file_disabled(""));
}

#[test]
fn test_merge_syntax_error_in_place() {
    let problems = vec![problem(1, 1, "first", Some("a")), problem(3, 2, "third", Some("b"))];
    let se = problem(2, 1, "syntax", None);
    let merged = merge_syntax_error(problems, Some(se));
    let descs: Vec<&str> = merged.iter().map(|p| p.desc.as_str()).collect();
    // The syntax error replaces the problem at or after its position.
    assert_eq!(descs, vec!["first", "syntax"]);
}

#[test]
fn test_merge_syntax_error_at_end() {
    let problems = vec![problem(1, 1, "first", Some("a")), problem(3, 1, "third", Some("b"))];
    let se = problem(2, 5, "syntax", None);
    let merged = merge_syntax_error(problems, Some(se));
    let descs: Vec<&str> = merged.iter().map(|p| p.desc.as_str()).collect();
    assert_eq!(descs, vec!["first", "third", "syntax"]);
}

#[test]
fn test_merge_without_syntax_error() {
    let problems = vec![problem(1, 1, "first", Some("a"))];
    let merged = merge_syntax_error(problems, None);
    assert_eq!(merged.len(), 1);
    assert_eq!(merged[0].desc, "first");
}

const IDS: &[&str] = &["trailing-spaces", "line-length"];

fn lines_of(ps: &[LintProblem]) -> Vec<(usize, Option<&'static str>)> {
    ps.iter().map(|p| (p.line, p.rule)).collect()
}

#[test]
fn test_run_disable_file() {
    let reported = vec![problem(2, 11, "trailing spaces", Some("trailing-spaces"))];
    assert!(run("# yamllint disable-file\nkey: value   \n", IDS, &reported).is_empty());
}

#[test]
fn test_run_keeps_problems_without_directives() {
    let reported = vec![
        problem(1, 5, "trailing spaces", Some("trailing-spaces")),
        problem(2, 3, "line too long", Some("line-length")),
    ];
    let out = run("a: 1 \nb: 2\n", IDS, &reported);
    assert_eq!(lines_of(&out), vec![(1, Some("trailing-spaces")), (2, Some("line-length"))]);
}

#[test]
fn test_run_disable_line_inline() {
    let content = "a: 1\nkey: value   # yamllint disable-line rule:trailing-spaces\nb: 2   \n";
    let reported = vec![
        problem(2, 11, "trailing spaces", Some("trailing-spaces")),
        problem(2, 20, "line too long", Some("line-length")),
        problem(3, 5, "trailing spaces", Some("trailing-spaces")),
    ];
    let out = run(content, IDS, &reported);
    assert_eq!(lines_of(&out), vec![(2, Some("line-length")), (3, Some("trailing-spaces"))]);
}

#[test]
fn test_run_disable_line_on_line_before() {
    let content = "# yamllint disable-line\nkey: value   \nb: 2   \n";
    let reported = vec![
        problem(2, 11, "trailing spaces", Some("trailing-spaces")),
        problem(3, 5, "trailing spaces", Some("trailing-spaces")),
    ];
    let out = run(content, IDS, &reported);
    assert_eq!(lines_of(&out), vec![(3, Some("trailing-spaces"))]);
}

#[test]
fn test_run_disable_and_enable_block() {
    let content = "# yamllint disable rule:trailing-spaces\nkey: value   \n# yamllint enable\nother: x   \n";
    let reported = vec![
        problem(2, 11, "trailing spaces", Some("trailing-spaces")),
        problem(4, 9, "trailing spaces", Some("trailing-spaces")),
    ];
    let out = run(content, IDS, &reported);
    assert_eq!(lines_of(&out), vec![(4, Some("trailing-spaces"))]);
}

#[test]
fn test_run_disable_unknown_rule_keeps_problems() {
    let content = "# yamllint disable rule:no-such-rule\nkey: value   \n";
    let reported = vec![problem(2, 11, "trailing spaces", Some("trailing-spaces"))];
    let out = run(content, IDS, &reported);
    assert_eq!(lines_of(&out), vec![(2, Some("trailing-spaces"))]);
}

#[test]
fn test_run_disable_all_spares_syntax_error() {
    let content = "# yamllint disable\nkey: [1,   \n";
    let reported = vec![problem(2, 11, "trailing spaces", Some("trailing-spaces"))];
    let out = run(content, IDS, &reported);
    assert_eq!(out.len(), 1);
    assert!(out[0].rule.is_none());
    assert!(out[0].desc.starts_with("syntax error: "));
}

#[test]
fn test_get_cosmetic_problems_direct() {
    let (elems, buffer) = token_or_comment_or_line_generator("a: 1   # yamllint disable-line\nb: 2   \n");
    let reported = vec![
        problem(1, 5, "trailing spaces", Some("trailing-spaces")),
        problem(2, 5, "trailing spaces", Some("trailing-spaces")),
        problem(7, 1, "beyond the last line", Some("trailing-spaces")),
    ];
    let out = get_cosmetic_problems(&elems, &buffer, IDS, &reported);
    assert_eq!(lines_of(&out), vec![(2, Some("trailing-spaces"))]);
}

#[test]
fn test_copy_problem() {
    let p = problem(3, 4, "x", Some("line-length"));
    let q = copy_problem(&p);
    assert_eq!((q.line, q.column, q.desc.as_str(), q.rule, q.level), (3, 4, "x", Some("line-length"), Level::Error));
}

#[test]
fn test_syntax_error_at_leading_flow_closer() {
    let p = get_syntax_error("]\n").expect("a syntax error");
    assert_eq!(p.line, 1);
    assert_eq!(p.column, 1);
}
