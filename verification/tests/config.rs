use fastymllint::linter::{Level, LintProblem};
use fastymllint::lint_config::{
    apply_levels, extend_lint_config, parse_lint_config, preset_config, rule_id, validate_lint_config,
    LintConfig, Patterns, RawLintConfig,
};
use fastymllint::pyyaml::loader::load;
use fastymllint::rule::{OptionValue, RuleConfig};

fn read_double(s: &str) -> Option<u64> {
    s.parse::<f64>().ok().map(f64::to_bits)
}

fn raw(text: &str) -> Result<RawLintConfig, String> {
    let v = load(text, &read_double).map_err(|e| e.problem)?;
    parse_lint_config(&v)
}

fn config(text: &str) -> Result<LintConfig, String> {
    let r = raw(text)?;
    let r = match r.extends.clone() {
        Some(name) => extend_lint_config(r, preset_config(&name).expect("a preset")),
        None => r,
    };
    validate_lint_config(r)
}

#[test]
fn test_config_extends_relaxed_with_rule_options() {
    let c = config(
        "extends: relaxed\nrules:\n  line-length:\n    max: 100\n    level: warning\n  truthy: disable\nignore: |\n  *.tmp\n  build/\n",
    )
    .expect("valid");
    match &c.ignore {
        Some(Patterns::Lines(l)) => assert_eq!(l, &vec!["*.tmp".to_string(), "build/".to_string()]),
        _ => panic!("ignore patterns expected"),
    }
    assert_eq!(c.yaml_files, vec!["*.yaml".to_string(), "*.yml".to_string(), ".yamllint".to_string()]);
    let enabled = c.enabled_rules(&[], Some("a.yaml"));
    let ll = enabled.iter().find(|e| e.id == "line-length").expect("line-length on");
    assert_eq!(ll.level, Level::Warning);
    assert!(enabled.iter().all(|e| e.id != "truthy"));
    let lang = c.language_config(&[], Some("a.yaml"));
    let (_, llc) = lang.rules.iter().find(|(n, _)| n == "line-length").expect("line-length");
    match llc {
        RuleConfig::Detailed(entries) => {
            assert!(entries.iter().any(|(k, v)| k == "max" && matches!(v, OptionValue::Int(100))));
            assert!(entries
                .iter()
                .any(|(k, v)| k == "allow-non-breakable-inline-mappings" && matches!(v, OptionValue::Bool(true))));
        }
        _ => panic!("options expected"),
    }
}

#[test]
fn test_config_rule_ignored_for_a_file() {
    let c = config("rules:\n  trailing-spaces:\n    ignore: |\n      gen/\n").expect("valid");
    let i = (0..c.rule_count()).find(|&i| c.rule_ignore(i).0 == "trailing-spaces").expect("rule");
    assert!(matches!(c.rule_ignore(i).1, Some(Patterns::Lines(_))));
    assert!(c.enabled_rules(&[], Some("gen/a.yaml")).is_empty());
    assert!(c.enabled_rules(&[], Some("./gen/b/c.yaml")).is_empty());
    assert_eq!(c.enabled_rules(&[], Some("src/a.yaml")).len(), 1);
    assert_eq!(c.enabled_rules(&[], None).len(), 1);
    assert_eq!(c.rule_flags(&[], Some("gen/a.yaml")), vec![true]);
    let lang = c.language_config(&[], Some("gen/a.yaml"));
    assert!(matches!(lang.rules[i].1, RuleConfig::Enabled(false)));
}

#[test]
fn test_config_errors() {
    assert_eq!(raw("- a\n").err(), Some("invalid config: not a mapping".to_string()));
    assert_eq!(raw("rules: []\n").err(), Some("invalid config: rules should be a mapping".to_string()));
    assert_eq!(raw("extends: [a]\n").err(), Some("invalid config: extends should be a string".to_string()));
    assert_eq!(
        raw("ignore: a\nignore-from-file: b\n").err(),
        Some("invalid config: ignore and ignore-from-file keys cannot be used together".to_string())
    );
    assert_eq!(
        raw("yaml-files: a\n").err(),
        Some("invalid config: yaml-files should be a list of file patterns".to_string())
    );
    assert_eq!(raw("locale: 3\n").err(), Some("invalid config: locale should be a string".to_string()));
    assert_eq!(
        config("rules:\n  foo: enable\n").err(),
        Some("invalid config: no such rule: \"foo\"".to_string())
    );
    assert_eq!(
        config("rules:\n  truthy: 3\n").err(),
        Some("invalid config: rule \"truthy\": should be either \"enable\", \"disable\" or a mapping".to_string())
    );
    assert_eq!(
        config("rules:\n  truthy:\n    level: info\n").err(),
        Some("invalid config: level should be \"error\" or \"warning\"".to_string())
    );
    assert_eq!(rule_id("colons"), Some("colons"));
    assert_eq!(rule_id("nope"), None);
}

#[test]
fn test_apply_levels() {
    let c = config("rules:\n  truthy:\n    level: warning\n").expect("valid");
    let enabled = c.enabled_rules(&[], None);
    let p = |rule| LintProblem { line: 1, column: 1, desc: "d".to_string(), rule, level: Level::Error };
    let out = apply_levels(vec![p(Some("truthy")), p(None), p(Some("anchors"))], &enabled);
    assert_eq!(out[0].level, Level::Warning);
    assert_eq!(out[1].level, Level::Error);
    assert_eq!(out[2].level, Level::Error);
}

#[test]
fn test_config_file_ignored_and_yaml_files() {
    let c = config("ignore: |\n  *.tmp.yaml\n  build/\n  !build/keep.yaml\n").expect("valid");
    assert!(c.is_file_ignored(&[], "x.tmp.yaml"));
    assert!(c.is_file_ignored(&[], "./build/a.yaml"));
    assert!(c.is_file_ignored(&[], "build/sub/a.yaml"));
    assert!(!c.is_file_ignored(&[], "build/keep.yaml"));
    assert!(!c.is_file_ignored(&[], "src/a.yaml"));
    assert!(c.is_yaml_file("dir/a.yaml"));
    assert!(c.is_yaml_file("dir/.yamllint"));
    assert!(!c.is_yaml_file("dir/a.json"));
    assert_eq!(c.check_patterns(&[]), Ok(()));
}

#[test]
fn test_config_ignore_from_file() {
    let c = config("ignore-from-file: [.gitignore, extra]\n").expect("valid");
    let files = vec![
        (".gitignore".to_string(), vec!["out/".to_string()]),
        ("extra".to_string(), vec!["*.gen.yaml".to_string()]),
    ];
    assert!(c.is_file_ignored(&files, "out/a.yaml"));
    assert!(c.is_file_ignored(&files, "b.gen.yaml"));
    assert!(!c.is_file_ignored(&files, "b.yaml"));
    assert!(!c.is_file_ignored(&[], "out/a.yaml"));
}

#[test]
fn test_config_invalid_pattern() {
    let c = config("ignore: |\n  a{b\n").expect("parsed");
    let e = c.check_patterns(&[]).expect_err("an invalid glob");
    assert!(e.starts_with("invalid config: "));
}
