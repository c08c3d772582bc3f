use fastymllint::cli::{
    config_data_source, fix_summary, lint_exit_code, split_stdin, EXIT_DRY_RUN_CHANGES, EXIT_PROBLEMS,
    EXIT_STRICT_WARNINGS,
};
use fastymllint::linter::Level;

#[test]
fn test_split_stdin() {
    let files = vec!["a.yaml".to_string(), "-".to_string(), "b.yml".to_string()];
    let (paths, stdin) = split_stdin(&files);
    assert_eq!(paths, vec!["a.yaml".to_string(), "b.yml".to_string()]);
    assert!(stdin);
    let (paths, stdin) = split_stdin(&["x".to_string()]);
    assert_eq!(paths, vec!["x".to_string()]);
    assert!(!stdin);
}

#[test]
fn test_config_data_source() {
    assert_eq!(config_data_source("relaxed"), "extends: relaxed");
    assert_eq!(config_data_source("rules: {}"), "rules: {}");
    assert_eq!(config_data_source(""), "");
}

#[test]
fn test_lint_exit_code() {
    assert_eq!(lint_exit_code(&[], false), 0);
    assert_eq!(lint_exit_code(&[Level::Warning], false), 0);
    assert_eq!(lint_exit_code(&[Level::Warning], true), EXIT_STRICT_WARNINGS);
    assert_eq!(lint_exit_code(&[Level::Warning, Level::Error], true), EXIT_PROBLEMS);
    assert_eq!(lint_exit_code(&[Level::Error], false), 1);
}

#[test]
fn test_fix_summary() {
    assert_eq!(fix_summary(1, false, "fixed"), (Some("1 file fixed".to_string()), 0));
    assert_eq!(fix_summary(2, true, "formatted"), (Some("2 files would be formatted".to_string()), EXIT_DRY_RUN_CHANGES));
    assert_eq!(fix_summary(0, true, "fixed"), (None, 0));
    assert_eq!(fix_summary(0, false, "fixed"), (Some("nothing to do".to_string()), 0));
}
