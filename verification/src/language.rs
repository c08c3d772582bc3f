//! The interface of a language: linting, fixing and formatting its files.

use vstd::prelude::*;
use crate::diagnostic::{Diagnostic, SpecDiagnostic, diags_view};
use crate::rules::rule_set::{FixError, LanguageConfig, lang_of};

verus! {

/// The contents of a fixing outcome.
pub open spec fn fix_outcome(r: Result<String, FixError>) -> Result<Seq<char>, FixError> {
    match r {
        Ok(s) => Ok(s@),
        Err(e) => Err(e),
    }
}

/// Language-specific linting, fixing, and formatting.
pub trait Language {
    /// The name of the language.
    spec fn spec_name(&self) -> Seq<char>;

    /// The file extensions the language handles (without the leading dot).
    spec fn spec_extensions(&self) -> Seq<Seq<char>>;

    /// Whether `r` is a possible answer to whether the file at `path`
    /// belongs to the language.
    spec fn spec_detect(&self, path: Seq<char>, r: bool) -> bool;

    /// The contents and configurations that linting handles.
    spec fn spec_lint_accepts(&self, content: Seq<char>, config: Option<LanguageConfig>) -> bool;

    /// Whether `out` is a possible lint report on `content`.
    spec fn spec_lint(&self, content: Seq<char>, config: Option<LanguageConfig>, out: Seq<SpecDiagnostic>) -> bool;

    /// The contents and configurations that fixing handles.
    spec fn spec_fix_accepts(&self, content: Seq<char>, config: Option<LanguageConfig>) -> bool;

    /// Whether `res` is a possible outcome of fixing `content`.
    spec fn spec_fix(
        &self,
        content: Seq<char>,
        config: Option<LanguageConfig>,
        res: Result<Seq<char>, FixError>,
    ) -> bool;

    /// Returns the name of this language (e.g., "yaml", "json").
    fn name(&self) -> (r: &'static str)
        ensures
            r@ == self.spec_name(),
    ;

    /// Returns file extensions this language handles (without leading dot).
    fn file_extensions(&self) -> (r: Vec<&'static str>)
        ensures
            r@.map_values(|e: &'static str| e@) == self.spec_extensions(),
    ;

    /// Detects if a file should be handled by this language.
    fn detect(&self, path: &str) -> (r: bool)
        ensures
            self.spec_detect(path@, r),
    ;

    /// Lint the content and return diagnostics.
    fn lint(&self, content: &str, config: Option<&LanguageConfig>) -> (r: Vec<Diagnostic>)
        requires
            self.spec_lint_accepts(content@, lang_of(config)),
        ensures
            self.spec_lint(content@, lang_of(config), diags_view(r@)),
    ;

    /// Apply fixes to the content and return the fixed version.
    fn fix(&self, content: &str, config: Option<&LanguageConfig>) -> (r: Result<String, FixError>)
        requires
            self.spec_fix_accepts(content@, lang_of(config)),
        ensures
            self.spec_fix(content@, lang_of(config), fix_outcome(r)),
    ;

    /// Format the content according to the language's style rules.
    fn format(&self, content: &str, config: Option<&LanguageConfig>) -> (r: Result<String, FixError>)
        requires
            self.spec_fix_accepts(content@, lang_of(config)),
        ensures
            self.spec_fix(content@, lang_of(config), fix_outcome(r)),
    ;
}

} // verus!
