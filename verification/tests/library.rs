use fastymllint::decoder::auto_decode;
use fastymllint::fix::fixers::{fixer_for, RuleConfs, RuleOptions, SpacesInsideConf, TruthyConf};
use fastymllint::fix::{apply_ops, grow_space_run, leading_spaces, shrink_space_run, unified_diff, Doc, FixOp};
use fastymllint::language::Language;
use fastymllint::languages::{is_yaml_file_name, LanguageRegistry, YamlLanguage};
use fastymllint::linter::{line_generator, Level, Line, LintProblem};
use fastymllint::output::{render, FileReport, OutputFormat};
use fastymllint::pyyaml::pyrepr::{py_repr, py_repr_char};
use fastymllint::pyyaml::resolver::resolve_scalar_tag;
use fastymllint::pyyaml::tokens::{Token, TokenKind};
use fastymllint::pyyaml::error::Mark;
use fastymllint::rule::{OptionValue, Rule, RuleConfig, RuleContext};
use fastymllint::rules::quoted_strings::{QuoteType, QuotedStrings};
use fastymllint::rules::rule_set::{AnyRule, FixError, LanguageConfig, RuleSet};
use fastymllint::rules::trailing_spaces::TrailingSpaces;
use fastymllint::yaml_config::YamllintConfig;

fn problem(line: usize, column: usize, desc: &str, rule: Option<&'static str>, level: Level) -> LintProblem {
    LintProblem { line, column, desc: desc.to_string(), rule, level }
}

#[test]
fn test_default_config() {
    let config = YamllintConfig::default_config();
    assert!(config.is_rule_enabled("trailing-spaces"));
    assert!(config.is_rule_enabled("line-length"));
    assert!(!config.is_rule_enabled("document-start"));
}

#[test]
fn relaxed_config_turns_rules_off_and_keeps_others() {
    let config = YamllintConfig::relaxed_config();
    assert!(!config.is_rule_enabled("truthy"));
    assert!(!config.is_rule_enabled("comments"));
    assert!(config.is_rule_enabled("line-length"));
    assert!(config.is_rule_enabled("trailing-spaces"));
    match config.rule_config("empty-lines") {
        Some(RuleConfig::Detailed(entries)) => {
            assert_eq!(entries.len(), 1);
            assert_eq!(entries[0].0, "max");
            assert!(matches!(entries[0].1, OptionValue::Int(3)));
        }
        _ => panic!("empty-lines should have options"),
    }
}

#[test]
fn resolve_keeps_own_rules_over_the_preset() {
    let config = YamllintConfig {
        extends: Some("relaxed".to_string()),
        yaml_files: None,
        ignore: None,
        rules: vec![("truthy".to_string(), RuleConfig::Enabled(true))],
    };
    let resolved = config.resolve();
    assert!(resolved.extends.is_none());
    assert!(resolved.is_rule_enabled("truthy"));
    assert!(!resolved.is_rule_enabled("hyphens"));
    assert!(resolved.is_rule_enabled("brackets"));
}

#[test]
fn quoted_strings_required_false() {
    let rule = QuotedStrings { required: "false".to_string(), ..Default::default() };
    let ctx = RuleContext::new("key: 'value'\n");
    let d = rule.check(&ctx, None);
    assert_eq!(d.len(), 1);
    assert_eq!(d[0].message, "string must not be quoted");
    assert_eq!(d[0].location.column, 6);
    let fix = d[0].fix.as_ref().unwrap();
    assert_eq!(fix.replacement, "value");
    assert_eq!(fix.end.column, 13);
}

#[test]
fn quoted_strings_only_when_needed_and_consistent() {
    let rule = QuotedStrings::default();
    let ctx = RuleContext::new("a: hello world\nb: plain\n");
    let d = rule.check(&ctx, None);
    assert_eq!(d.len(), 1);
    assert_eq!(d[0].message, "string might need quotes");
    assert_eq!(d[0].location.line, 1);

    let rule = QuotedStrings { quote_type: QuoteType::Consistent, ..Default::default() };
    let ctx = RuleContext::new("a: 'x'\nb: \"y\"\n");
    let d = rule.check(&ctx, None);
    assert_eq!(d.len(), 1);
    assert_eq!(d[0].message, "inconsistent quote type: expected '''");
    assert_eq!(d[0].location.line, 2);
}

#[test]
fn rule_set_reports_enabled_rules_only() {
    let rules = RuleSet::new(vec![AnyRule::TrailingSpaces(TrailingSpaces)]);
    let ctx = RuleContext::new("a: 1  \n");
    assert_eq!(rules.check(&ctx, None).len(), 1);
    let off = LanguageConfig { rules: vec![("trailing-spaces".to_string(), RuleConfig::Enabled(false))] };
    assert_eq!(rules.check(&ctx, Some(&off)).len(), 0);
}

#[test]
fn rule_set_fix_removes_trailing_spaces() {
    let rules = RuleSet::new(vec![AnyRule::TrailingSpaces(TrailingSpaces)]);
    let fixed = rules.fix("a: 1  \nb: 2 \n", None).unwrap();
    assert_eq!(fixed, "a: 1\nb: 2\n");
    assert_eq!(FixError::InvalidFixStart.message(), "Invalid fix start location");
}

#[test]
fn default_rule_set_lints_yaml() {
    let yaml = YamlLanguage::new();
    assert_eq!(yaml.name(), "yaml");
    assert_eq!(yaml.file_extensions(), vec!["yaml", "yml"]);
    let d = yaml.lint("key: value   \n", None);
    assert!(d.iter().any(|x| x.rule == "trailing-spaces"));
}

#[test]
fn yaml_files_are_detected() {
    assert!(is_yaml_file_name(Some("config.YAML")));
    assert!(is_yaml_file_name(Some("a.yml")));
    assert!(is_yaml_file_name(Some(".yamllint")));
    assert!(!is_yaml_file_name(Some("notes.txt")));
    assert!(!is_yaml_file_name(Some("Makefile")));
    assert!(!is_yaml_file_name(None));
    let registry = LanguageRegistry::new();
    assert_eq!(registry.languages().len(), 1);
    assert!(registry.detect("dir/file.yaml").is_some());
    assert!(registry.detect("dir/file.json").is_none());
    assert_eq!(registry.detect("x/a.YML").map(|l| l.name()), Some("yaml"));
    assert!(registry.detect("b.yaml").is_some());
    assert!(registry.detect(".yamllint").is_some());
    assert!(registry.detect("README").is_none());
}

#[test]
fn output_formats() {
    assert_eq!(OutputFormat::parse("parsable"), Some(OutputFormat::Text));
    assert_eq!(OutputFormat::parse("standard"), Some(OutputFormat::Yamllint));
    assert_eq!(OutputFormat::parse("xml"), None);
    let problems = vec![
        problem(1, 5, "trailing spaces", Some("trailing-spaces"), Level::Error),
        problem(3, 1, "too many blank lines", Some("empty-lines"), Level::Warning),
    ];
    let reports = [FileReport { path: "f.yaml", problems: &problems }];
    assert_eq!(
        render(&reports, OutputFormat::Text, false),
        "f.yaml:1:5: [error] trailing spaces (trailing-spaces)\nf.yaml:3:1: [warning] too many blank lines (empty-lines)\n"
    );
    assert_eq!(
        render(&reports, OutputFormat::Yamllint, true),
        "f.yaml\n  1:5       error    trailing spaces  (trailing-spaces)\n\n"
    );
    assert_eq!(
        render(&reports, OutputFormat::Github, true),
        "::group::f.yaml\n::error file=f.yaml,line=1,col=5::1:5 [trailing-spaces] trailing spaces\n::endgroup::\n\n"
    );
    let none: Vec<LintProblem> = Vec::new();
    let empty = [FileReport { path: "g.yaml", problems: &none }];
    assert_eq!(render(&empty, OutputFormat::Yamllint, false), "");
}

#[test]
fn problem_messages_and_levels() {
    assert_eq!(Level::Warning.as_str(), "warning");
    assert_eq!(Level::Error.as_str(), "error");
    let p = problem(1, 1, "syntax error", None, Level::Error);
    assert_eq!(p.message(), "syntax error");
    let p = problem(1, 1, "too long", Some("line-length"), Level::Error);
    assert_eq!(p.message(), "too long (line-length)");
}

#[test]
fn physical_lines() {
    let buffer: Vec<char> = "a\r\nbc\n\nd\0".chars().collect();
    let lines = line_generator(&buffer);
    assert_eq!(lines.len(), 4);
    assert_eq!(lines[0], Line { line_no: 1, start: 0, end: 1 });
    assert_eq!(lines[1], Line { line_no: 2, start: 3, end: 5 });
    assert_eq!(lines[2], Line { line_no: 3, start: 6, end: 6 });
    assert_eq!(lines[3], Line { line_no: 4, start: 7, end: 8 });
    assert_eq!(lines[1].content(&buffer), &['b', 'c']);
}

#[test]
fn python_repr() {
    assert_eq!(py_repr("abc"), "'abc'");
    assert_eq!(py_repr("a'b"), "\"a'b\"");
    assert_eq!(py_repr("a'\"b"), "'a\\'\"b'");
    assert_eq!(py_repr_char('\n'), "'\\n'");
    assert_eq!(py_repr_char('\u{7}'), "'\\x07'");
    assert_eq!(py_repr_char('\u{2028}'), "'\\u2028'");
    assert_eq!(py_repr_char('\u{FEFF}'), "'\\ufeff'");
    assert_eq!(py_repr_char('é'), "'é'");
}

#[test]
fn implicit_tags() {
    assert_eq!(resolve_scalar_tag("yes"), "tag:yaml.org,2002:bool");
    assert_eq!(resolve_scalar_tag("1.5"), "tag:yaml.org,2002:float");
    assert_eq!(resolve_scalar_tag("12"), "tag:yaml.org,2002:int");
    assert_eq!(resolve_scalar_tag("0o17"), "tag:yaml.org,2002:int");
    assert_eq!(resolve_scalar_tag("~"), "tag:yaml.org,2002:null");
    assert_eq!(resolve_scalar_tag(""), "tag:yaml.org,2002:null");
    assert_eq!(resolve_scalar_tag("2001-12-14"), "tag:yaml.org,2002:timestamp");
    assert_eq!(resolve_scalar_tag("hello"), "tag:yaml.org,2002:str");
}

#[test]
fn token_accessors() {
    let m = Mark::default();
    let t = Token::new(
        TokenKind::Scalar { value: "v".to_string(), plain: true, style: None },
        m,
        m,
    );
    assert!(t.is_scalar());
    assert_eq!(t.id(), "<scalar>");
    assert_eq!(t.scalar_value(), Some("v"));
    assert!(t.scalar_is_plain());
    assert_eq!(t.scalar_style(), None);
    let k = Token::new(TokenKind::Key, m, m);
    assert_eq!(k.id(), "?");
    assert_eq!(k.scalar_value(), None);
}

#[test]
fn documents_round_trip() {
    for text in ["a\nb\n", "a\nb", "", "\n\n", "x\r\ny\r\n", "x\r\ny", "a\rb\nc", "\r\n\r\n", "a\r b\n"] {
        assert_eq!(Doc::parse(text).render(), text);
    }
    let d = Doc::parse("a\r\nb\n");
    assert_eq!(d.ending, "\r\n");
    assert_eq!(d.lines, vec!["a".to_string(), "b".to_string()]);
    assert!(d.final_newline);
}

#[test]
fn edits_apply_bottom_up() {
    let mut d = Doc::parse("a\nb\nc\n");
    let n = apply_ops(
        &mut d,
        vec![
            FixOp::InsertLine { at: 1, text: "---".to_string() },
            FixOp::DeleteLines { start: 2, count: 1 },
            FixOp::ReplaceLine { line: 3, text: "C".to_string() },
            FixOp::ReplaceLine { line: 3, text: "ignored".to_string() },
            FixOp::SetEnding { dos: true },
        ],
    );
    assert_eq!(n, 4);
    assert_eq!(d.render(), "---\r\na\r\nC\r\n");
    let mut same = Doc::parse("a\n");
    assert_eq!(apply_ops(&mut same, vec![FixOp::EnsureFinalNewline]), 0);
    assert_eq!(same.render(), "a\n");
}

#[test]
fn space_runs() {
    let chars: Vec<char> = "a   b".chars().collect();
    assert_eq!(shrink_space_run(&chars, 2, 1), Some("a b".to_string()));
    assert_eq!(shrink_space_run(&chars, 2, 3), None);
    assert_eq!(grow_space_run(&chars, 4, 5), Some("a     b".to_string()));
    assert_eq!(grow_space_run(&chars, 4, 3), None);
    assert_eq!(leading_spaces("   x "), 3);
}

#[test]
fn fixers_for_problems() {
    let doc = Doc::parse("key: value   \n[ a ]\nflag: yes\n");
    let brackets = RuleOptions::Brackets(SpacesInsideConf {
        min_spaces_inside: 0,
        max_spaces_inside: 0,
        min_spaces_inside_empty: -1,
        max_spaces_inside_empty: -1,
    });
    let truthy = RuleOptions::Truthy(TruthyConf { allowed_values: vec!["true".to_string(), "false".to_string()] });
    let confs = RuleConfs { confs: vec![("brackets", &brackets), ("truthy", &truthy)] };
    let p = problem(1, 11, "trailing spaces", Some("trailing-spaces"), Level::Error);
    match fixer_for(&p, &doc, &confs, false) {
        Some(FixOp::ReplaceLine { line, text }) => {
            assert_eq!(line, 1);
            assert_eq!(text, "key: value");
        }
        other => panic!("unexpected {:?}", other),
    }
    let p = problem(2, 2, "too many spaces inside brackets", Some("brackets"), Level::Error);
    match fixer_for(&p, &doc, &confs, false) {
        Some(FixOp::ReplaceLine { text, .. }) => assert_eq!(text, "[a ]"),
        other => panic!("unexpected {:?}", other),
    }
    let p = problem(3, 7, "truthy value should be one of [false, true]", Some("truthy"), Level::Error);
    assert!(fixer_for(&p, &doc, &confs, false).is_none());
    match fixer_for(&p, &doc, &confs, true) {
        Some(FixOp::ReplaceLine { text, .. }) => assert_eq!(text, "flag: true"),
        other => panic!("unexpected {:?}", other),
    }
    let p = problem(3, 1, "no new line character at the end of file", Some("new-line-at-end-of-file"), Level::Error);
    assert!(matches!(fixer_for(&p, &doc, &confs, false), Some(FixOp::EnsureFinalNewline)));
}

#[test]
fn decoding() {
    assert_eq!(auto_decode(b"abc"), Ok("abc".to_string()));
    assert_eq!(auto_decode(&[0xEF, 0xBB, 0xBF, b'a']), Ok("a".to_string()));
    assert_eq!(auto_decode(&[0xFF, 0xFE, b'a', 0, b'b', 0]), Ok("ab".to_string()));
    assert_eq!(auto_decode(&[0, b'a', 0, b'b']), Ok("ab".to_string()));
    assert_eq!(auto_decode(&[0, 0, 0, b'a']), Ok("a".to_string()));
    assert_eq!(auto_decode(&[0xFF, 0xFE, 0, 0, 1]), Err("truncated UTF-32 data".to_string()));
    assert_eq!(auto_decode(&[0, 0, 0xFE, 0xFF, 0, 0x11, 0, 0]), Err("invalid code point 0x110000".to_string()));
    assert_eq!(auto_decode(&[0xFE, 0xFF, 0]), Err("truncated UTF-16 data".to_string()));
}

#[test]
fn diffs() {
    let d = unified_diff("f.yaml", "a\nb\n", "a\nc\n");
    assert!(d.starts_with("--- a/f.yaml\n+++ b/f.yaml\n"));
    assert!(d.contains("-b\n"));
    assert!(d.contains("+c\n"));
    assert_eq!(unified_diff("f.yaml", "same\n", "same\n"), "");
}

#[test]
fn lint_accepts_plain_content() {
    let yaml = YamlLanguage::new();
    assert!(yaml.lint_accepts("a: &ab x\nb: *ab\n", None));
    assert!(yaml.lint_accepts("", None));
}

#[test]
fn lint_refuses_anchor_cut_inside_a_character() {
    let yaml = YamlLanguage::new();
    assert!(!yaml.lint_accepts("a: &a\u{e9} x\n", None));
    let off = LanguageConfig { rules: vec![("anchors".to_string(), RuleConfig::Enabled(false))] };
    assert!(yaml.lint_accepts("a: &a\u{e9} x\n", Some(&off)));
}

#[test]
fn lint_refuses_long_line_with_wide_break() {
    let yaml = YamlLanguage::new();
    let line = format!("{}\u{3000}{}\n", "x".repeat(85), "y".repeat(5));
    assert!(!yaml.lint_accepts(&line, None));
    let short = format!("{}\u{3000}{}\n", "x".repeat(5), "y".repeat(5));
    assert!(yaml.lint_accepts(&short, None));
}

#[test]
fn lone_quote_is_unprocessable() {
    let yaml = YamlLanguage::new();
    let cfg = LanguageConfig {
        rules: vec![(
            "quoted-strings".to_string(),
            RuleConfig::Detailed(vec![("quote-type".to_string(), OptionValue::Str("single".to_string()))]),
        )],
    };
    assert!(!yaml.lint_accepts("a: \"\n", Some(&cfg)));
    assert!(yaml.lint_accepts("a: 'b'\n", Some(&cfg)));
    assert_eq!(yaml.fix("a: \"\n", Some(&cfg)), Err(FixError::Unprocessable));
    assert_eq!(FixError::Unprocessable.message(), "Content cannot be processed");
}
