pub mod cli;
pub mod decoder;
pub mod diagnostic;
pub mod fix;
pub mod language;
pub mod languages;
pub mod lint_config;
pub mod linter;
pub mod output;
pub mod pyyaml;
pub mod rule;
pub mod rules;
pub mod text;
pub mod yaml_config;
