//! The registry of supported languages and the YAML language.

use vstd::prelude::*;
use crate::diagnostic::{Diagnostic, SpecDiagnostic};
use crate::language::{Language, fix_outcome};
use crate::rule::RuleContext;
use crate::rules::rule_set::{
    AnyRule, FixError, LanguageConfig, MAX_FIX_ITERATIONS, RuleSet, default_rule_names,
    fix_run, lang_of, rule_names, rules_accept, rules_result,
};
use crate::text::{all_ascii, ascii_lower, lowercase, matches_at, max_text_len, starts_with, starts_with_str, to_lowercase};

verus! {

/// The part of `path` after its last `/`.
pub open spec fn tail_after_slash(path: Seq<char>) -> Seq<char> {
    path.skip(last_index_of(path, '/', path.len() as int) + 1)
}

/// A path whose final component every platform reads alike: it holds no
/// `\` and no `:` (so no Windows prefix), does not begin with `//`, and the
/// part after its last `/` is neither empty, `.` nor `..`.
pub open spec fn plain_path(path: Seq<char>) -> bool {
    &&& !path.contains('\\')
    &&& !path.contains(':')
    &&& !(path.len() >= 2 && path[0] == '/' && path[1] == '/')
    &&& tail_after_slash(path).len() > 0
    &&& tail_after_slash(path) != "."@
    &&& tail_after_slash(path) != ".."@
}

/// What `Path::file_name` gives on every platform: a final component that
/// is a piece of the path, not empty and not `..`; for a plain path, the
/// part after its last `/`.
pub open spec fn file_name_ok(path: Seq<char>, name: Option<Seq<char>>) -> bool {
    &&& match name {
        Some(n) => n.len() > 0 && n != ".."@ && exists|i: int| matches_at(path, i, n),
        None => true,
    }
    &&& plain_path(path) ==> name == Some(tail_after_slash(path))
}

/// The final component of `path`, as `std::path::Path::file_name` finds it.
/// Which characters separate components depends on the platform, so the
/// contract states only what holds on all of them: `/` separates on every
/// platform, `\\` and a drive or server prefix only on some.
#[verifier::external_body]
pub(crate) fn file_name_of(path: &str) -> (r: Option<String>)
    ensures
        file_name_ok(
            path@,
            match r {
                Some(s) => Some(s@),
                None => None,
            },
        ),
{
    match std::path::Path::new(path).file_name() {
        Some(n) => match n.to_str() {
            Some(s) => Some(s.to_owned()),
            None => None,
        },
        None => None,
    }
}

/// Index of the last `c` among `s[..j]`, or -1.
pub open spec fn last_index_of(s: Seq<char>, c: char, j: int) -> int
    decreases j,
{
    if j <= 0 {
        -1
    } else if s[j - 1] == c {
        j - 1
    } else {
        last_index_of(s, c, j - 1)
    }
}

/// The extension of a file name as `Path::extension` documents it: the part
/// after the last `.`, unless there is no `.`, the only `.` leads the
/// name, or the name is `..`.
pub open spec fn name_extension(name: Seq<char>) -> Option<Seq<char>> {
    let d = last_index_of(name, '.', name.len() as int);
    if name == ".."@ || d <= 0 {
        None
    } else {
        Some(name.skip(d + 1))
    }
}

/// The lowercase of `s`: by ASCII rules when `s` is ASCII, else as
/// `str::to_lowercase` maps it.
pub open spec fn lower_text(s: Seq<char>) -> Seq<char> {
    if all_ascii(s) {
        s.map_values(|c: char| ascii_lower(c))
    } else {
        lowercase(s)
    }
}

/// Whether a file with this final path component is YAML: its extension is
/// `yaml` or `yml` in any case, or, without an extension, its name starts
/// with `.yamllint`.
pub open spec fn yaml_file_name(name: Option<Seq<char>>) -> bool {
    match name {
        None => false,
        Some(n) => match name_extension(n) {
            Some(e) => lower_text(e) == "yaml"@ || lower_text(e) == "yml"@,
            None => starts_with(n, ".yamllint"@),
        },
    }
}

fn name_extension_exec(name: &str) -> (r: Option<String>)
    ensures
        match r {
            Some(e) => name_extension(name@) == Some(e@),
            None => name_extension(name@) is None,
        },
{
    let v = crate::text::str_chars(name);
    let mut j: usize = v.len();
    while j > 0 && v[j - 1] != '.'
        invariant
            j <= v@.len(),
            v@ == name@,
            last_index_of(v@, '.', j as int) == last_index_of(v@, '.', v@.len() as int),
        decreases j,
    {
        j = j - 1;
    }
    proof {
        reveal_strlit("..");
    }
    if crate::text::eq_str(v.as_slice(), "..") || j <= 1 {
        return None;
    }
    let e = crate::text::slice_to_vec(v.as_slice(), j, v.len());
    assert(e@ =~= name@.skip(j as int));
    Some(crate::text::chars_to_string(e.as_slice()))
}

/// Whether a file with this final path component is a YAML file.
pub fn is_yaml_file_name(name: Option<&str>) -> (r: bool)
    ensures
        r == yaml_file_name(
            match name {
                Some(n) => Some(n@),
                None => None,
            },
        ),
{
    match name {
        None => false,
        Some(n) => match name_extension_exec(n) {
            Some(e) => {
                let l = to_lowercase(e.as_str());
                crate::rule::str_eq(l.as_str(), "yaml") || crate::rule::str_eq(l.as_str(), "yml")
            },
            None => {
                let v = crate::text::str_chars(n);
                starts_with_str(v.as_slice(), ".yamllint")
            },
        },
    }
}

/// YAML language handler
pub struct YamlLanguage {
    rules: RuleSet,
}

impl YamlLanguage {
    /// The rules that the handler runs.
    pub closed spec fn rule_set(&self) -> Seq<AnyRule> {
        self.rules@
    }

    pub fn new() -> (r: Self)
        ensures
            rule_names(r.rule_set()) == default_rule_names(),
    {
        YamlLanguage { rules: RuleSet::default() }
    }
}

impl YamlLanguage {
    /// Whether the handler can lint `content` with `config`: it fits the
    /// machine and no rule that is on would cut it inside a character.
    pub fn lint_accepts(&self, content: &str, config: Option<&LanguageConfig>) -> (r: bool)
        ensures
            r == self.spec_lint_accepts(content@, lang_of(config)),
    {
        let chars = crate::text::str_chars(content);
        if chars.len() > usize::MAX / 8 {
            return false;
        }
        let ctx = RuleContext::new(content);
        self.rules.accepts(&ctx, config)
    }
}

impl Default for YamlLanguage {
    fn default() -> (r: Self)
        ensures
            rule_names(r.rule_set()) == default_rule_names(),
    {
        Self::new()
    }
}

impl Language for YamlLanguage {
    open spec fn spec_name(&self) -> Seq<char> {
        "yaml"@
    }

    open spec fn spec_extensions(&self) -> Seq<Seq<char>> {
        seq!["yaml"@, "yml"@]
    }

    open spec fn spec_detect(&self, path: Seq<char>, r: bool) -> bool {
        exists|name: Option<Seq<char>>| file_name_ok(path, name) && r == yaml_file_name(name)
    }

    open spec fn spec_lint_accepts(&self, content: Seq<char>, config: Option<LanguageConfig>) -> bool {
        content.len() <= max_text_len() && rules_accept(self.rule_set(), content, config)
    }

    open spec fn spec_lint(&self, content: Seq<char>, config: Option<LanguageConfig>, out: Seq<SpecDiagnostic>) -> bool {
        rules_result(self.rule_set(), content, config, out)
    }

    open spec fn spec_fix_accepts(&self, content: Seq<char>, config: Option<LanguageConfig>) -> bool {
        true
    }

    open spec fn spec_fix(
        &self,
        content: Seq<char>,
        config: Option<LanguageConfig>,
        res: Result<Seq<char>, FixError>,
    ) -> bool {
        fix_run(self.rule_set(), config, content, MAX_FIX_ITERATIONS as nat, res)
    }

    fn name(&self) -> (r: &'static str) {
        "yaml"
    }

    fn file_extensions(&self) -> (r: Vec<&'static str>) {
        let mut v: Vec<&'static str> = Vec::new();
        v.push("yaml");
        v.push("yml");
        assert(v@.map_values(|e: &'static str| e@) =~= seq!["yaml"@, "yml"@]);
        v
    }

    fn detect(&self, path: &str) -> (r: bool) {
        let name = file_name_of(path);
        let r = match &name {
            Some(n) => is_yaml_file_name(Some(n.as_str())),
            None => is_yaml_file_name(None),
        };
        let ghost nv = match name {
            Some(s) => Some(s@),
            None => None::<Seq<char>>,
        };
        assert(file_name_ok(path@, nv) && r == yaml_file_name(nv));
        r
    }

    fn lint(&self, content: &str, config: Option<&LanguageConfig>) -> (r: Vec<Diagnostic>) {
        let ctx = RuleContext::new(content);
        self.rules.check(&ctx, config)
    }

    fn fix(&self, content: &str, config: Option<&LanguageConfig>) -> (r: Result<String, FixError>) {
        self.rules.fix(content, config)
    }

    fn format(&self, content: &str, config: Option<&LanguageConfig>) -> (r: Result<String, FixError>) {
        self.fix(content, config)
    }
}

/// Any of the supported languages.
pub enum AnyLanguage {
    Yaml(YamlLanguage),
}

impl Language for AnyLanguage {
    open spec fn spec_name(&self) -> Seq<char> {
        match self {
            AnyLanguage::Yaml(l) => l.spec_name(),
        }
    }

    open spec fn spec_extensions(&self) -> Seq<Seq<char>> {
        match self {
            AnyLanguage::Yaml(l) => l.spec_extensions(),
        }
    }

    open spec fn spec_detect(&self, path: Seq<char>, r: bool) -> bool {
        match self {
            AnyLanguage::Yaml(l) => l.spec_detect(path, r),
        }
    }

    open spec fn spec_lint_accepts(&self, content: Seq<char>, config: Option<LanguageConfig>) -> bool {
        match self {
            AnyLanguage::Yaml(l) => l.spec_lint_accepts(content, config),
        }
    }

    open spec fn spec_lint(&self, content: Seq<char>, config: Option<LanguageConfig>, out: Seq<SpecDiagnostic>) -> bool {
        match self {
            AnyLanguage::Yaml(l) => l.spec_lint(content, config, out),
        }
    }

    open spec fn spec_fix_accepts(&self, content: Seq<char>, config: Option<LanguageConfig>) -> bool {
        match self {
            AnyLanguage::Yaml(l) => l.spec_fix_accepts(content, config),
        }
    }

    open spec fn spec_fix(
        &self,
        content: Seq<char>,
        config: Option<LanguageConfig>,
        res: Result<Seq<char>, FixError>,
    ) -> bool {
        match self {
            AnyLanguage::Yaml(l) => l.spec_fix(content, config, res),
        }
    }

    fn name(&self) -> (r: &'static str) {
        match self {
            AnyLanguage::Yaml(l) => l.name(),
        }
    }

    fn file_extensions(&self) -> (r: Vec<&'static str>) {
        match self {
            AnyLanguage::Yaml(l) => l.file_extensions(),
        }
    }

    fn detect(&self, path: &str) -> (r: bool) {
        match self {
            AnyLanguage::Yaml(l) => l.detect(path),
        }
    }

    fn lint(&self, content: &str, config: Option<&LanguageConfig>) -> (r: Vec<Diagnostic>) {
        match self {
            AnyLanguage::Yaml(l) => l.lint(content, config),
        }
    }

    fn fix(&self, content: &str, config: Option<&LanguageConfig>) -> (r: Result<String, FixError>) {
        match self {
            AnyLanguage::Yaml(l) => l.fix(content, config),
        }
    }

    fn format(&self, content: &str, config: Option<&LanguageConfig>) -> (r: Result<String, FixError>) {
        match self {
            AnyLanguage::Yaml(l) => l.format(content, config),
        }
    }
}

impl AnyLanguage {
    /// Whether the handler can lint `content` with `config`.
    pub fn lint_accepts(&self, content: &str, config: Option<&LanguageConfig>) -> (r: bool)
        ensures
            r == self.spec_lint_accepts(content@, lang_of(config)),
    {
        match self {
            AnyLanguage::Yaml(l) => l.lint_accepts(content, config),
        }
    }
}

/// Registry of all supported languages
pub struct LanguageRegistry {
    languages: Vec<AnyLanguage>,
}

impl View for LanguageRegistry {
    type V = Seq<AnyLanguage>;

    closed spec fn view(&self) -> Seq<AnyLanguage> {
        self.languages@
    }
}

impl LanguageRegistry {
    /// Create a new registry with all built-in languages
    pub fn new() -> (r: Self)
        ensures
            r@.len() == 1,
            r@[0] matches AnyLanguage::Yaml(y) && rule_names(y.rule_set()) == default_rule_names(),
    {
        let mut v: Vec<AnyLanguage> = Vec::new();
        v.push(AnyLanguage::Yaml(YamlLanguage::new()));
        LanguageRegistry { languages: v }
    }

    /// Detect which language handles a file: the first that claims it.
    pub fn detect(&self, path: &str) -> (r: Option<&AnyLanguage>)
        ensures
            match r {
                Some(l) => exists|i: int|
                    0 <= i < self@.len() && self@[i] == *l && l.spec_detect(path@, true) && forall|j: int|
                        0 <= j < i ==> #[trigger] self@[j].spec_detect(path@, false),
                None => forall|j: int| 0 <= j < self@.len() ==> #[trigger] self@[j].spec_detect(path@, false),
            },
    {
        let mut i: usize = 0;
        while i < self.languages.len()
            invariant
                i <= self.languages@.len(),
                forall|j: int| 0 <= j < i ==> #[trigger] self.languages@[j].spec_detect(path@, false),
            decreases self.languages@.len() - i,
        {
            let l = &self.languages[i];
            if l.detect(path) {
                assert(self@[i as int] == *l);
                assert(forall|j: int| 0 <= j < i ==> #[trigger] self@[j].spec_detect(path@, false));
                return Some(l);
            }
            i = i + 1;
        }
        None
    }

    /// Get all registered languages
    pub fn languages(&self) -> (r: &[AnyLanguage])
        ensures
            r@ == self@,
    {
        self.languages.as_slice()
    }
}

impl Default for LanguageRegistry {
    fn default() -> (r: Self)
        ensures
            r@.len() == 1,
    {
        Self::new()
    }
}


} // verus!
