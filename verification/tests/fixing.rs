use fastymllint::fix::fix_content;
use fastymllint::fix::fixers::{fix_options, rule_confs, RuleConfs, RuleOptions, TruthyConf};
use fastymllint::rule::{OptionValue, RuleConfig};
use fastymllint::linter::problem_of;
use fastymllint::diagnostic::{Diagnostic, Location, Severity};
use fastymllint::linter::Level;
use fastymllint::rules::rule_set::{LanguageConfig, RuleSet};
use fastymllint::yaml_config::YamllintConfig;

fn setup() -> (RuleSet, LanguageConfig, Vec<&'static str>) {
    let conf = YamllintConfig::default_config();
    let ids: Vec<&'static str> = conf
        .rules
        .iter()
        .filter(|(n, _)| conf.is_rule_enabled(n))
        .map(|(n, _)| -> &'static str { Box::leak(n.clone().into_boxed_str()) })
        .collect();
    (RuleSet::default(), LanguageConfig { rules: conf.rules.clone() }, ids)
}

#[test]
fn test_fix_content_trailing_spaces() {
    let (rules, lang, ids) = setup();
    let confs = RuleConfs { confs: Vec::new() };
    let r = fix_content("key: value   \nother: 1\n", &rules, &lang, &ids, &confs, false).expect("fixable");
    assert_eq!(r.fixed, "key: value\nother: 1\n");
    assert!(r.changed);
    assert!(r.remaining.iter().all(|p| p.rule != Some("trailing-spaces")));
}

#[test]
fn test_fix_content_unchanged() {
    let (rules, lang, ids) = setup();
    let confs = RuleConfs { confs: Vec::new() };
    let r = fix_content("key: value\n", &rules, &lang, &ids, &confs, false).expect("fixable");
    assert_eq!(r.fixed, "key: value\n");
    assert!(!r.changed);
    assert!(r.remaining.is_empty());
}

#[test]
fn test_fix_content_unsafe_only_with_flag() {
    let (rules, lang, ids) = setup();
    let truthy = RuleOptions::Truthy(TruthyConf { allowed_values: vec!["true".to_string(), "false".to_string()] });
    let confs = RuleConfs { confs: vec![("truthy", &truthy)] };
    let safe = fix_content("flag: yes\n", &rules, &lang, &ids, &confs, false).expect("fixable");
    assert_eq!(safe.fixed, "flag: yes\n");
    assert!(!safe.changed);
    assert!(safe.remaining.iter().any(|p| p.rule == Some("truthy")));
    let fixed = fix_content("flag: yes\n", &rules, &lang, &ids, &confs, true).expect("fixable");
    assert_eq!(fixed.fixed, "flag: true\n");
    assert!(fixed.changed);
    assert!(fixed.remaining.iter().all(|p| p.rule != Some("truthy")));
}

#[test]
fn test_problem_of_maps_level_and_rule() {
    let d = Diagnostic {
        rule: "truthy".to_string(),
        severity: Severity::Warning,
        message: "m".to_string(),
        location: Location { line: 2, column: 3 },
        end_location: None,
        fix: None,
    };
    let p = problem_of(&d, &["colons", "truthy"]);
    assert_eq!((p.line, p.column, p.desc.as_str(), p.rule, p.level), (2, 3, "m", Some("truthy"), Level::Warning));
    let p = problem_of(&d, &["colons"]);
    assert_eq!(p.rule, None);
}

#[test]
fn test_fix_options_follow_config() {
    let lang = LanguageConfig {
        rules: vec![(
            "truthy".to_string(),
            RuleConfig::Detailed(vec![("allowed-values".to_string(), OptionValue::List(vec!["yes".to_string(), "no".to_string()]))]),
        )],
    };
    let opts = fix_options(&lang);
    assert_eq!(opts.len(), 12);
    let confs = rule_confs(&opts);
    match confs.get("truthy") {
        Some(RuleOptions::Truthy(c)) => assert_eq!(c.allowed_values, vec!["yes".to_string(), "no".to_string()]),
        _ => panic!("no truthy options"),
    }
    match confs.get("comments") {
        Some(RuleOptions::Comments(c)) => assert_eq!(c.min_spaces_from_content, 2),
        _ => panic!("no comments options"),
    }
}
