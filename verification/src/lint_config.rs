//! The linter configuration: a configuration file read from its YAML value,
//! the merge of `extends`, validation, and what each rule runs with.

use vstd::prelude::*;
use crate::linter::{Level, LintProblem};
use crate::pyyaml::value::{YamlMapping, YamlValue, is_key};
use crate::rule::{OptionValue, RuleConfig, str_eq, strings_view};
use crate::rules::rule_set::LanguageConfig;
use crate::text::{chars_to_string, lines_of, max_text_len, seqs_view, slice_to_vec, split_lines, str_chars};
use crate::languages::{file_name_of, file_name_ok};
use crate::yaml_config::{OptionValueView, RuleConfigView, YamllintConfig};

verus! {

// --- Raw configurations ----------------------------------------------------------

/// A rule's entry as written: off, a mapping of options, or neither.
pub enum RawRule {
    Disabled,
    Options(Vec<(String, OptionValue)>),
    Invalid,
}

pub enum RawRuleView {
    Disabled,
    Options(Seq<(Seq<char>, OptionValueView)>),
    Invalid,
}

pub open spec fn entries_view(e: Seq<(String, OptionValue)>) -> Seq<(Seq<char>, OptionValueView)> {
    e.map_values(|p: (String, OptionValue)| (p.0@, p.1@))
}

impl View for RawRule {
    type V = RawRuleView;

    open spec fn view(&self) -> RawRuleView {
        match self {
            RawRule::Disabled => RawRuleView::Disabled,
            RawRule::Options(e) => RawRuleView::Options(entries_view(e@)),
            RawRule::Invalid => RawRuleView::Invalid,
        }
    }
}

/// File patterns: written out, or held by the files named.
pub enum Patterns {
    Lines(Vec<String>),
    Files(Vec<String>),
}

pub enum PatternsView {
    Lines(Seq<Seq<char>>),
    Files(Seq<Seq<char>>),
}

impl View for Patterns {
    type V = PatternsView;

    open spec fn view(&self) -> PatternsView {
        match self {
            Patterns::Lines(l) => PatternsView::Lines(strings_view(l@)),
            Patterns::Files(f) => PatternsView::Files(strings_view(f@)),
        }
    }
}

pub open spec fn opt_patterns_view(p: Option<Patterns>) -> Option<PatternsView> {
    match p {
        Some(x) => Some(x@),
        None => None,
    }
}

pub open spec fn opt_string_view(s: Option<String>) -> Option<Seq<char>> {
    match s {
        Some(x) => Some(x@),
        None => None,
    }
}

pub open spec fn opt_strings_view(s: Option<Vec<String>>) -> Option<Seq<Seq<char>>> {
    match s {
        Some(x) => Some(strings_view(x@)),
        None => None,
    }
}

/// A configuration file as read, before `extends` is merged in.
pub struct RawLintConfig {
    pub rules: Vec<(String, RawRule)>,
    pub extends: Option<String>,
    pub ignore: Option<Patterns>,
    pub yaml_files: Option<Vec<String>>,
    pub locale: Option<String>,
}

pub struct RawLintConfigView {
    pub rules: Seq<(Seq<char>, RawRuleView)>,
    pub extends: Option<Seq<char>>,
    pub ignore: Option<PatternsView>,
    pub yaml_files: Option<Seq<Seq<char>>>,
    pub locale: Option<Seq<char>>,
}

pub open spec fn raw_rules_view(r: Seq<(String, RawRule)>) -> Seq<(Seq<char>, RawRuleView)> {
    r.map_values(|p: (String, RawRule)| (p.0@, p.1@))
}

impl View for RawLintConfig {
    type V = RawLintConfigView;

    open spec fn view(&self) -> RawLintConfigView {
        RawLintConfigView {
            rules: raw_rules_view(self.rules@),
            extends: opt_string_view(self.extends),
            ignore: opt_patterns_view(self.ignore),
            yaml_files: opt_strings_view(self.yaml_files),
            locale: opt_string_view(self.locale),
        }
    }
}

// --- Reading a configuration value ----------------------------------------------------

/// The value of the first entry from `i` on whose key is the string `key`.
pub open spec fn value_from(entries: Seq<(YamlValue, YamlValue)>, key: Seq<char>, i: int) -> Option<YamlValue>
    decreases entries.len() - i,
{
    if i < 0 || i >= entries.len() {
        None
    } else if is_key(entries[i].0, key) {
        Some(entries[i].1)
    } else {
        value_from(entries, key, i + 1)
    }
}

pub open spec fn value_at(entries: Seq<(YamlValue, YamlValue)>, key: Seq<char>) -> Option<YamlValue> {
    value_from(entries, key, 0)
}

pub open spec fn all_strings(s: Seq<YamlValue>) -> bool {
    forall|i: int| 0 <= i < s.len() ==> #[trigger] s[i] is Str
}

pub open spec fn string_text(v: YamlValue) -> Seq<char> {
    match v {
        YamlValue::Str(t) => t@,
        _ => seq![],
    }
}

pub open spec fn strings_of(s: Seq<YamlValue>) -> Seq<Seq<char>> {
    s.map_values(|v: YamlValue| string_text(v))
}

/// A YAML value as a rule option: scalars as they are, a sequence of
/// strings as a list, anything else as `Other`.
pub open spec fn option_of(v: YamlValue) -> OptionValueView {
    match v {
        YamlValue::Null => OptionValueView::Null,
        YamlValue::Bool(b) => OptionValueView::Bool(b),
        YamlValue::Int(i) => OptionValueView::Int(i),
        YamlValue::Str(s) => OptionValueView::Str(s@),
        YamlValue::Sequence(s) => if all_strings(s@) {
            OptionValueView::List(strings_of(s@))
        } else {
            OptionValueView::Other
        },
        _ => OptionValueView::Other,
    }
}

/// The entries of a rule's mapping whose keys are strings, each value as
/// an option.
pub open spec fn options_of(entries: Seq<(YamlValue, YamlValue)>) -> Seq<(Seq<char>, OptionValueView)>
    decreases entries.len(),
{
    if entries.len() == 0 {
        seq![]
    } else {
        let rest = options_of(entries.drop_last());
        match entries.last().0 {
            YamlValue::Str(k) => rest.push((k@, option_of(entries.last().1))),
            _ => rest,
        }
    }
}

/// A rule's entry: `enable` or a mapping turn it on, `disable` or `false`
/// turn it off; anything else is invalid.
pub open spec fn raw_rule_of(v: YamlValue) -> RawRuleView {
    match v {
        YamlValue::Str(s) => if s@ == "enable"@ {
            RawRuleView::Options(seq![])
        } else if s@ == "disable"@ {
            RawRuleView::Disabled
        } else {
            RawRuleView::Invalid
        },
        YamlValue::Bool(b) => if b {
            RawRuleView::Invalid
        } else {
            RawRuleView::Disabled
        },
        YamlValue::Mapping(m) => RawRuleView::Options(options_of(m.entries_view())),
        _ => RawRuleView::Invalid,
    }
}

/// The rules of a `rules` mapping, or `None` when a key is no string.
pub open spec fn raw_rules_of(entries: Seq<(YamlValue, YamlValue)>) -> Option<Seq<(Seq<char>, RawRuleView)>>
    decreases entries.len(),
{
    if entries.len() == 0 {
        Some(seq![])
    } else {
        match raw_rules_of(entries.drop_last()) {
            None => None,
            Some(rest) => match entries.last().0 {
                YamlValue::Str(k) => Some(rest.push((k@, raw_rule_of(entries.last().1)))),
                _ => None,
            },
        }
    }
}

/// Patterns written as a string (one per line) or a list of strings.
pub open spec fn patterns_of(v: YamlValue) -> Option<Seq<Seq<char>>> {
    match v {
        YamlValue::Str(s) => Some(split_lines(s@)),
        YamlValue::Sequence(s) => if all_strings(s@) {
            Some(strings_of(s@))
        } else {
            None
        },
        _ => None,
    }
}

/// File names written as a string or a list of strings.
pub open spec fn file_names_of(v: YamlValue) -> Option<Seq<Seq<char>>> {
    match v {
        YamlValue::Str(s) => Some(seq![s@]),
        YamlValue::Sequence(s) => if all_strings(s@) {
            Some(strings_of(s@))
        } else {
            None
        },
        _ => None,
    }
}

pub open spec fn rules_spec(e: Seq<(YamlValue, YamlValue)>) -> Result<Seq<(Seq<char>, RawRuleView)>, Seq<char>> {
    match value_at(e, "rules"@) {
        None => Ok(seq![]),
        Some(YamlValue::Mapping(m)) => match raw_rules_of(m.entries_view()) {
            Some(r) => Ok(r),
            None => Err("invalid config: rules should be a mapping"@),
        },
        Some(_) => Err("invalid config: rules should be a mapping"@),
    }
}

pub open spec fn extends_spec(e: Seq<(YamlValue, YamlValue)>) -> Result<Option<Seq<char>>, Seq<char>> {
    match value_at(e, "extends"@) {
        None => Ok(None),
        Some(YamlValue::Str(s)) => Ok(Some(s@)),
        Some(_) => Err("invalid config: extends should be a string"@),
    }
}

pub open spec fn ignore_spec(e: Seq<(YamlValue, YamlValue)>) -> Result<Option<PatternsView>, Seq<char>> {
    match (value_at(e, "ignore"@), value_at(e, "ignore-from-file"@)) {
        (Some(_), Some(_)) => Err("invalid config: ignore and ignore-from-file keys cannot be used together"@),
        (_, Some(f)) => match file_names_of(f) {
            Some(names) => Ok(Some(PatternsView::Files(names))),
            None => Err(
                "invalid config: ignore-from-file should contain filename(s), either as a list or string"@,
            ),
        },
        (Some(i), None) => match patterns_of(i) {
            Some(p) => Ok(Some(PatternsView::Lines(p))),
            None => Err("invalid config: ignore should contain file patterns"@),
        },
        (None, None) => Ok(None),
    }
}

pub open spec fn yaml_files_spec(e: Seq<(YamlValue, YamlValue)>) -> Result<Option<Seq<Seq<char>>>, Seq<char>> {
    match value_at(e, "yaml-files"@) {
        None => Ok(None),
        Some(YamlValue::Sequence(s)) => if all_strings(s@) {
            Ok(Some(strings_of(s@)))
        } else {
            Err("invalid config: yaml-files should be a list of file patterns"@)
        },
        Some(_) => Err("invalid config: yaml-files should be a list of file patterns"@),
    }
}

pub open spec fn locale_spec(e: Seq<(YamlValue, YamlValue)>) -> Result<Option<Seq<char>>, Seq<char>> {
    match value_at(e, "locale"@) {
        None => Ok(None),
        Some(YamlValue::Str(s)) => Ok(Some(s@)),
        Some(_) => Err("invalid config: locale should be a string"@),
    }
}

/// The configuration that the value `v` of a configuration file writes,
/// or the first error in it: the rules, `extends`, then `ignore` or
/// `ignore-from-file`, `yaml-files` and `locale`.
pub open spec fn raw_config_spec(v: YamlValue) -> Result<RawLintConfigView, Seq<char>> {
    match v {
        YamlValue::Mapping(m) => {
            let e = m.entries_view();
            match rules_spec(e) {
                Err(x) => Err(x),
                Ok(rules) => match extends_spec(e) {
                    Err(x) => Err(x),
                    Ok(extends) => match ignore_spec(e) {
                        Err(x) => Err(x),
                        Ok(ignore) => match yaml_files_spec(e) {
                            Err(x) => Err(x),
                            Ok(yaml_files) => match locale_spec(e) {
                                Err(x) => Err(x),
                                Ok(locale) => Ok(RawLintConfigView { rules, extends, ignore, yaml_files, locale }),
                            },
                        },
                    },
                },
            }
        },
        _ => Err("invalid config: not a mapping"@),
    }
}

/// The value of the first entry whose key is the string `key`.
fn value_of<'a>(entries: &'a [(YamlValue, YamlValue)], key: &str) -> (r: Option<&'a YamlValue>)
    ensures
        match r {
            Some(v) => value_at(entries@, key@) == Some(*v),
            None => value_at(entries@, key@) is None,
        },
{
    let mut i: usize = 0;
    while i < entries.len()
        invariant
            i <= entries@.len(),
            value_from(entries@, key@, i as int) == value_at(entries@, key@),
        decreases entries@.len() - i,
    {
        let hit = match &entries[i].0 {
            YamlValue::Str(k) => str_eq(k.as_str(), key),
            _ => false,
        };
        if hit {
            return Some(&entries[i].1);
        }
        i = i + 1;
    }
    None
}

/// The texts of a sequence of strings, or `None` when an item is no string.
fn strings_in(s: &[YamlValue]) -> (r: Option<Vec<String>>)
    ensures
        match r {
            Some(v) => all_strings(s@) && strings_view(v@) == strings_of(s@),
            None => !all_strings(s@),
        },
{
    let mut out: Vec<String> = Vec::new();
    let mut i: usize = 0;
    while i < s.len()
        invariant
            i <= s@.len(),
            forall|k: int| 0 <= k < i ==> #[trigger] s@[k] is Str,
            strings_view(out@) == strings_of(s@.take(i as int)),
        decreases s@.len() - i,
    {
        match &s[i] {
            YamlValue::Str(t) => {
                let ghost prev = out@;
                out.push(t.clone());
                proof {
                    let sv = s@.take(i + 1);
                    assert(sv =~= s@.take(i as int).push(s@[i as int]));
                    assert(strings_view(prev).len() == i);
                    assert forall|k: int| 0 <= k < i + 1 implies strings_view(out@)[k] == strings_of(sv)[k] by {
                        if k < i {
                            assert(out@[k] == prev[k]);
                            assert(strings_view(prev)[k] == strings_of(s@.take(i as int))[k]);
                        }
                    }
                    assert(strings_view(out@) =~= strings_of(sv));
                }
            },
            _ => {
                return None;
            },
        }
        i = i + 1;
    }
    assert(s@.take(i as int) =~= s@);
    Some(out)
}

/// A YAML value as a rule option.
fn option_value_of(v: &YamlValue) -> (r: OptionValue)
    ensures
        r@ == option_of(*v),
{
    match v {
        YamlValue::Null => OptionValue::Null,
        YamlValue::Bool(b) => OptionValue::Bool(*b),
        YamlValue::Int(i) => OptionValue::Int(*i),
        YamlValue::Str(s) => OptionValue::Str(s.clone()),
        YamlValue::Sequence(s) => match strings_in(s.as_slice()) {
            Some(l) => OptionValue::List(l),
            None => OptionValue::Other,
        },
        _ => OptionValue::Other,
    }
}

/// The string-keyed entries of a mapping, as options.
fn options_in(entries: &[(YamlValue, YamlValue)]) -> (r: Vec<(String, OptionValue)>)
    ensures
        entries_view(r@) == options_of(entries@),
{
    let mut out: Vec<(String, OptionValue)> = Vec::new();
    let mut i: usize = 0;
    while i < entries.len()
        invariant
            i <= entries@.len(),
            entries_view(out@) == options_of(entries@.take(i as int)),
        decreases entries@.len() - i,
    {
        proof {
            assert(entries@.take(i + 1).drop_last() =~= entries@.take(i as int));
        }
        match &entries[i].0 {
            YamlValue::Str(k) => {
                let o = option_value_of(&entries[i].1);
                out.push((k.clone(), o));
                assert(entries_view(out@) =~= options_of(entries@.take(i + 1)));
            },
            _ => {},
        }
        i = i + 1;
    }
    assert(entries@.take(i as int) =~= entries@);
    out
}

fn raw_rule_value(v: &YamlValue) -> (r: RawRule)
    ensures
        r@ == raw_rule_of(*v),
{
    proof {
        reveal_strlit("enable");
        reveal_strlit("disable");
    }
    match v {
        YamlValue::Str(s) => if str_eq(s.as_str(), "enable") {
            let empty: Vec<(String, OptionValue)> = Vec::new();
            assert(entries_view(empty@) =~= seq![]);
            RawRule::Options(empty)
        } else if str_eq(s.as_str(), "disable") {
            RawRule::Disabled
        } else {
            RawRule::Invalid
        },
        YamlValue::Bool(b) => if *b {
            RawRule::Invalid
        } else {
            RawRule::Disabled
        },
        YamlValue::Mapping(m) => RawRule::Options(options_in(m.iter())),
        _ => RawRule::Invalid,
    }
}

fn raw_rules_in(entries: &[(YamlValue, YamlValue)]) -> (r: Option<Vec<(String, RawRule)>>)
    ensures
        match r {
            Some(v) => raw_rules_of(entries@) == Some(raw_rules_view(v@)),
            None => raw_rules_of(entries@) is None,
        },
{
    let mut out: Vec<(String, RawRule)> = Vec::new();
    let mut i: usize = 0;
    while i < entries.len()
        invariant
            i <= entries@.len(),
            raw_rules_of(entries@.take(i as int)) == Some(raw_rules_view(out@)),
        decreases entries@.len() - i,
    {
        proof {
            assert(entries@.take(i + 1).drop_last() =~= entries@.take(i as int));
        }
        match &entries[i].0 {
            YamlValue::Str(k) => {
                let rr = raw_rule_value(&entries[i].1);
                out.push((k.clone(), rr));
                assert(raw_rules_view(out@) =~= raw_rules_of(entries@.take(i + 1))->0);
            },
            _ => {
                proof {
                    lemma_raw_rules_prefix(entries@, i as int + 1);
                }
                return None;
            },
        }
        i = i + 1;
    }
    assert(entries@.take(i as int) =~= entries@);
    Some(out)
}

/// A key that is no string in a prefix fails the whole `rules` mapping.
proof fn lemma_raw_rules_prefix(entries: Seq<(YamlValue, YamlValue)>, k: int)
    requires
        0 <= k <= entries.len(),
        raw_rules_of(entries.take(k)) is None,
    ensures
        raw_rules_of(entries) is None,
    decreases entries.len() - k,
{
    if k < entries.len() {
        assert(entries.take(k + 1).drop_last() =~= entries.take(k));
        lemma_raw_rules_prefix(entries, k + 1);
    } else {
        assert(entries.take(k) =~= entries);
    }
}

fn patterns_value(v: &YamlValue) -> (r: Option<Vec<String>>)
    ensures
        match r {
            Some(p) => patterns_of(*v) == Some(strings_view(p@)),
            None => patterns_of(*v) is None,
        },
{
    match v {
        YamlValue::Str(s) => {
            let ls = lines_of(str_chars(s.as_str()).as_slice());
            Some(strings_of_lines(&ls))
        },
        YamlValue::Sequence(s) => strings_in(s.as_slice()),
        _ => None,
    }
}

fn strings_of_lines(ls: &Vec<Vec<char>>) -> (r: Vec<String>)
    ensures
        strings_view(r@) == seqs_view(ls@),
{
    let mut out: Vec<String> = Vec::new();
    let mut i: usize = 0;
    while i < ls.len()
        invariant
            i <= ls@.len(),
            strings_view(out@) == seqs_view(ls@.take(i as int)),
        decreases ls@.len() - i,
    {
        let ghost prev = out@;
        out.push(chars_to_string(ls[i].as_slice()));
        proof {
            let lv = ls@.take(i + 1);
            assert(lv =~= ls@.take(i as int).push(ls@[i as int]));
            assert(strings_view(prev).len() == i);
            assert forall|k: int| 0 <= k < i + 1 implies strings_view(out@)[k] == seqs_view(lv)[k] by {
                if k < i {
                    assert(out@[k] == prev[k]);
                    assert(strings_view(prev)[k] == seqs_view(ls@.take(i as int))[k]);
                }
            }
            assert(strings_view(out@) =~= seqs_view(lv));
        }
        i = i + 1;
    }
    assert(ls@.take(i as int) =~= ls@);
    out
}

fn file_names_value(v: &YamlValue) -> (r: Option<Vec<String>>)
    ensures
        match r {
            Some(p) => file_names_of(*v) == Some(strings_view(p@)),
            None => file_names_of(*v) is None,
        },
{
    match v {
        YamlValue::Str(s) => {
            let mut out: Vec<String> = Vec::new();
            out.push(s.clone());
            assert(strings_view(out@) =~= seq![s@]);
            Some(out)
        },
        YamlValue::Sequence(s) => strings_in(s.as_slice()),
        _ => None,
    }
}

/// Read a configuration file from its YAML value.
pub fn parse_lint_config(v: &YamlValue) -> (r: Result<RawLintConfig, String>)
    ensures
        match r {
            Ok(c) => raw_config_spec(*v) == Ok::<RawLintConfigView, Seq<char>>(c@),
            Err(e) => raw_config_spec(*v) == Err::<RawLintConfigView, Seq<char>>(e@),
        },
{
    let m = match v {
        YamlValue::Mapping(m) => m,
        _ => {
            return Err("invalid config: not a mapping".to_owned());
        },
    };
    let e = m.iter();
    let rules = match value_of(e, "rules") {
        None => {
            let empty: Vec<(String, RawRule)> = Vec::new();
            assert(raw_rules_view(empty@) =~= seq![]);
            empty
        },
        Some(YamlValue::Mapping(rm)) => match raw_rules_in(rm.iter()) {
            Some(r) => r,
            None => {
                return Err("invalid config: rules should be a mapping".to_owned());
            },
        },
        Some(_) => {
            return Err("invalid config: rules should be a mapping".to_owned());
        },
    };
    assert(rules_spec(e@) == Ok::<Seq<(Seq<char>, RawRuleView)>, Seq<char>>(raw_rules_view(rules@)));
    let extends = match value_of(e, "extends") {
        None => None,
        Some(YamlValue::Str(s)) => Some(s.clone()),
        Some(_) => {
            return Err("invalid config: extends should be a string".to_owned());
        },
    };
    let ignore_value = value_of(e, "ignore");
    let from_file_value = value_of(e, "ignore-from-file");
    let ignore = match (ignore_value, from_file_value) {
        (Some(_), Some(_)) => {
            return Err("invalid config: ignore and ignore-from-file keys cannot be used together".to_owned());
        },
        (_, Some(f)) => match file_names_value(f) {
            Some(names) => Some(Patterns::Files(names)),
            None => {
                return Err(
                    "invalid config: ignore-from-file should contain filename(s), either as a list or string".to_owned(),
                );
            },
        },
        (Some(i), None) => match patterns_value(i) {
            Some(p) => Some(Patterns::Lines(p)),
            None => {
                return Err("invalid config: ignore should contain file patterns".to_owned());
            },
        },
        (None, None) => None,
    };
    let yaml_files = match value_of(e, "yaml-files") {
        None => None,
        Some(YamlValue::Sequence(s)) => match strings_in(s.as_slice()) {
            Some(l) => Some(l),
            None => {
                return Err("invalid config: yaml-files should be a list of file patterns".to_owned());
            },
        },
        Some(_) => {
            return Err("invalid config: yaml-files should be a list of file patterns".to_owned());
        },
    };
    let locale = match value_of(e, "locale") {
        None => None,
        Some(YamlValue::Str(s)) => Some(s.clone()),
        Some(_) => {
            return Err("invalid config: locale should be a string".to_owned());
        },
    };
    Ok(RawLintConfig { rules, extends, ignore, yaml_files, locale })
}

// --- Extending a configuration ---------------------------------------------------------

/// The index of the first option named `k` from `i` on.
pub open spec fn option_index(m: Seq<(Seq<char>, OptionValueView)>, k: Seq<char>, i: int) -> Option<int>
    decreases m.len() - i,
{
    if i < 0 || i >= m.len() {
        None
    } else if m[i].0 == k {
        Some(i)
    } else {
        option_index(m, k, i + 1)
    }
}

/// `m` with option `k` set to `v`: in its place if `m` has it, else at the end.
pub open spec fn option_insert(m: Seq<(Seq<char>, OptionValueView)>, k: Seq<char>, v: OptionValueView) -> Seq<(Seq<char>, OptionValueView)> {
    match option_index(m, k, 0) {
        Some(i) => m.update(i, (k, v)),
        None => m.push((k, v)),
    }
}

/// The options of `base` with those of `own` set over them, in order.
pub open spec fn options_merge(base: Seq<(Seq<char>, OptionValueView)>, own: Seq<(Seq<char>, OptionValueView)>) -> Seq<(Seq<char>, OptionValueView)>
    decreases own.len(),
{
    if own.len() == 0 {
        base
    } else {
        let m = options_merge(base, own.drop_last());
        option_insert(m, own.last().0, own.last().1)
    }
}

/// The index of the first rule named `name` from `i` on.
pub open spec fn rule_index(rules: Seq<(Seq<char>, RawRuleView)>, name: Seq<char>, i: int) -> Option<int>
    decreases rules.len() - i,
{
    if i < 0 || i >= rules.len() {
        None
    } else if rules[i].0 == name {
        Some(i)
    } else {
        rule_index(rules, name, i + 1)
    }
}

/// `base` with the rule entry `e` over it: two option mappings merge
/// option by option, another entry takes the place of the base's, and a
/// rule the base lacks comes last.
pub open spec fn merge_rule(base: Seq<(Seq<char>, RawRuleView)>, e: (Seq<char>, RawRuleView)) -> Seq<(Seq<char>, RawRuleView)> {
    match rule_index(base, e.0, 0) {
        Some(i) => match (e.1, base[i].1) {
            (RawRuleView::Options(o), RawRuleView::Options(b)) => base.update(
                i,
                (base[i].0, RawRuleView::Options(options_merge(b, o))),
            ),
            _ => base.update(i, (base[i].0, e.1)),
        },
        None => base.push(e),
    }
}

pub open spec fn merge_rules(base: Seq<(Seq<char>, RawRuleView)>, own: Seq<(Seq<char>, RawRuleView)>) -> Seq<(Seq<char>, RawRuleView)>
    decreases own.len(),
{
    if own.len() == 0 {
        base
    } else {
        merge_rule(merge_rules(base, own.drop_last()), own.last())
    }
}

/// `own` extending `base`: the rules merged over the base's, the own
/// `ignore` or else the base's; `yaml-files` and `locale` are `own`'s.
pub open spec fn extend_spec(own: RawLintConfigView, base: RawLintConfigView) -> RawLintConfigView {
    RawLintConfigView {
        rules: merge_rules(base.rules, own.rules),
        extends: None,
        ignore: if own.ignore is Some {
            own.ignore
        } else {
            base.ignore
        },
        yaml_files: own.yaml_files,
        locale: own.locale,
    }
}

proof fn lemma_option_index(m: Seq<(Seq<char>, OptionValueView)>, k: Seq<char>, i: int)
    requires
        0 <= i,
    ensures
        option_index(m, k, i) matches Some(j) ==> i <= j < m.len() && m[j].0 == k,
    decreases m.len() - i,
{
    if i < m.len() && m[i].0 != k {
        lemma_option_index(m, k, i + 1);
    }
}

proof fn lemma_rule_index(rules: Seq<(Seq<char>, RawRuleView)>, name: Seq<char>, i: int)
    requires
        0 <= i,
    ensures
        rule_index(rules, name, i) matches Some(j) ==> i <= j < rules.len() && rules[j].0 == name,
    decreases rules.len() - i,
{
    if i < rules.len() && rules[i].0 != name {
        lemma_rule_index(rules, name, i + 1);
    }
}

fn find_option(m: &Vec<(String, OptionValue)>, k: &str) -> (r: Option<usize>)
    ensures
        match r {
            Some(i) => option_index(entries_view(m@), k@, 0) == Some(i as int),
            None => option_index(entries_view(m@), k@, 0) is None,
        },
{
    let ghost mv = entries_view(m@);
    let mut i: usize = 0;
    while i < m.len()
        invariant
            i <= m@.len(),
            mv == entries_view(m@),
            option_index(mv, k@, i as int) == option_index(mv, k@, 0),
        decreases m@.len() - i,
    {
        assert(mv[i as int] == (m@[i as int].0@, m@[i as int].1@));
        if str_eq(m[i].0.as_str(), k) {
            return Some(i);
        }
        i = i + 1;
    }
    None
}

fn options_insert(m: &mut Vec<(String, OptionValue)>, k: String, v: OptionValue)
    ensures
        entries_view(final(m)@) == option_insert(entries_view(old(m)@), k@, v@),
{
    proof {
        lemma_option_index(entries_view(m@), k@, 0);
    }
    match find_option(m, k.as_str()) {
        Some(i) => {
            m.set(i, (k, v));
            assert(entries_view(m@) =~= entries_view(old(m)@).update(i as int, (k@, v@)));
        },
        None => {
            m.push((k, v));
            assert(entries_view(m@) =~= entries_view(old(m)@).push((k@, v@)));
        },
    }
}

fn options_merge_exec(base: &mut Vec<(String, OptionValue)>, own: Vec<(String, OptionValue)>)
    ensures
        entries_view(final(base)@) == options_merge(entries_view(old(base)@), entries_view(own@)),
{
    let ghost ov = entries_view(own@);
    let ghost b0 = entries_view(base@);
    let n = own.len();
    let mut rest = own;
    let mut i: usize = 0;
    while rest.len() > 0
        invariant
            ov.len() == n,
            i + rest@.len() == ov.len(),
            entries_view(rest@) == ov.skip(i as int),
            entries_view(base@) == options_merge(b0, ov.take(i as int)),
        decreases rest@.len(),
    {
        let ghost before = rest@;
        let (k, v) = rest.remove(0);
        proof {
            assert(entries_view(rest@) =~= entries_view(before).skip(1));
            assert(ov.skip(i as int).skip(1) =~= ov.skip(i + 1));
            assert(ov.take(i + 1).drop_last() =~= ov.take(i as int));
            assert(ov.skip(i as int)[0] == (k@, v@));
            assert(ov.take(i + 1).last() == (k@, v@));
        }
        options_insert(base, k, v);
        i = i + 1;
    }
    assert(ov.take(i as int) =~= ov);
}

fn find_rule(rules: &Vec<(String, RawRule)>, name: &str) -> (r: Option<usize>)
    ensures
        match r {
            Some(i) => rule_index(raw_rules_view(rules@), name@, 0) == Some(i as int),
            None => rule_index(raw_rules_view(rules@), name@, 0) is None,
        },
{
    let ghost rv = raw_rules_view(rules@);
    let mut i: usize = 0;
    while i < rules.len()
        invariant
            i <= rules@.len(),
            rv == raw_rules_view(rules@),
            rule_index(rv, name@, i as int) == rule_index(rv, name@, 0),
        decreases rules@.len() - i,
    {
        assert(rv[i as int] == (rules@[i as int].0@, rules@[i as int].1@));
        if str_eq(rules[i].0.as_str(), name) {
            return Some(i);
        }
        i = i + 1;
    }
    None
}

fn merge_rule_exec(base: &mut Vec<(String, RawRule)>, name: String, rule: RawRule)
    ensures
        raw_rules_view(final(base)@) == merge_rule(raw_rules_view(old(base)@), (name@, rule@)),
{
    let ghost bv = raw_rules_view(base@);
    proof {
        lemma_rule_index(bv, name@, 0);
    }
    match find_rule(base, name.as_str()) {
        Some(i) => {
            let (bn, br) = base.remove(i);
            assert(bv[i as int] == (bn@, br@));
            let merged = match (rule, br) {
                (RawRule::Options(o), RawRule::Options(b)) => {
                    let mut b = b;
                    options_merge_exec(&mut b, o);
                    RawRule::Options(b)
                },
                (r, _) => r,
            };
            let ghost mv = merged@;
            base.insert(i, (bn, merged));
            assert(raw_rules_view(base@) =~= bv.update(i as int, (bv[i as int].0, mv)));
        },
        None => {
            base.push((name, rule));
            assert(raw_rules_view(base@) =~= bv.push((name@, rule@)));
        },
    }
}

/// `own` extending `base`.
pub fn extend_lint_config(own: RawLintConfig, base: RawLintConfig) -> (r: RawLintConfig)
    ensures
        r@ == extend_spec(own@, base@),
{
    let ghost ov = own@;
    let ghost bv = base@;
    let RawLintConfig { rules: own_rules, extends: _, ignore: own_ignore, yaml_files, locale } = own;
    let RawLintConfig { rules: base_rules, extends: _, ignore: base_ignore, yaml_files: _, locale: _ } = base;
    let mut rules = base_rules;
    let n = own_rules.len();
    let mut rest = own_rules;
    let ghost orv = ov.rules;
    let mut i: usize = 0;
    while rest.len() > 0
        invariant
            orv.len() == n,
            i + rest@.len() == orv.len(),
            raw_rules_view(rest@) == orv.skip(i as int),
            raw_rules_view(rules@) == merge_rules(bv.rules, orv.take(i as int)),
        decreases rest@.len(),
    {
        let ghost before = rest@;
        let (name, rule) = rest.remove(0);
        proof {
            assert(raw_rules_view(rest@) =~= raw_rules_view(before).skip(1));
            assert(orv.skip(i as int).skip(1) =~= orv.skip(i + 1));
            assert(orv.take(i + 1).drop_last() =~= orv.take(i as int));
            assert(orv.skip(i as int)[0] == (name@, rule@));
            assert(orv.take(i + 1).last() == (name@, rule@));
        }
        merge_rule_exec(&mut rules, name, rule);
        i = i + 1;
    }
    assert(orv.take(i as int) =~= orv);
    let ignore = match own_ignore {
        Some(p) => Some(p),
        None => base_ignore,
    };
    RawLintConfig { rules, extends: None, ignore, yaml_files, locale }
}

// --- Validation ------------------------------------------------------------------

/// The rules that a configuration may name.
pub open spec fn known_rules() -> Seq<Seq<char>> {
    seq![
        "anchors"@, "braces"@, "brackets"@, "colons"@, "commas"@, "comments"@,
        "comments-indentation"@, "document-end"@, "document-start"@, "empty-lines"@,
        "empty-values"@, "float-values"@, "hyphens"@, "indentation"@, "key-duplicates"@,
        "key-ordering"@, "line-length"@, "new-line-at-end-of-file"@, "new-lines"@,
        "octal-values"@, "quoted-strings"@, "trailing-spaces"@, "truthy"@,
    ]
}

fn known_rule_ids() -> (r: Vec<&'static str>)
    ensures
        r@.map_values(|s: &'static str| s@) == known_rules(),
{
    let mut v: Vec<&'static str> = Vec::new();
    v.push("anchors");
    v.push("braces");
    v.push("brackets");
    v.push("colons");
    v.push("commas");
    v.push("comments");
    v.push("comments-indentation");
    v.push("document-end");
    v.push("document-start");
    v.push("empty-lines");
    v.push("empty-values");
    v.push("float-values");
    v.push("hyphens");
    v.push("indentation");
    v.push("key-duplicates");
    v.push("key-ordering");
    v.push("line-length");
    v.push("new-line-at-end-of-file");
    v.push("new-lines");
    v.push("octal-values");
    v.push("quoted-strings");
    v.push("trailing-spaces");
    v.push("truthy");
    assert(v@.map_values(|s: &'static str| s@) =~= known_rules());
    v
}

/// The id of the known rule named `name`.
pub fn rule_id(name: &str) -> (r: Option<&'static str>)
    ensures
        match r {
            Some(id) => id@ == name@ && known_rules().contains(name@),
            None => !known_rules().contains(name@),
        },
{
    let ids = known_rule_ids();
    let ghost kv = ids@.map_values(|s: &'static str| s@);
    let mut i: usize = 0;
    while i < ids.len()
        invariant
            i <= ids@.len(),
            kv == ids@.map_values(|s: &'static str| s@),
            kv == known_rules(),
            forall|k: int| 0 <= k < i ==> kv[k] != name@,
        decreases ids@.len() - i,
    {
        assert(kv[i as int] == ids@[i as int]@);
        if str_eq(ids[i], name) {
            return Some(ids[i]);
        }
        i = i + 1;
    }
    None
}

/// What a rule runs with once validated.
pub enum RuleEntry {
    Disabled,
    Enabled { level: Level, ignore: Option<Patterns>, options: Vec<(String, OptionValue)> },
}

pub enum RuleEntryView {
    Disabled,
    Enabled { level: Level, ignore: Option<PatternsView>, options: Seq<(Seq<char>, OptionValueView)> },
}

impl View for RuleEntry {
    type V = RuleEntryView;

    open spec fn view(&self) -> RuleEntryView {
        match self {
            RuleEntry::Disabled => RuleEntryView::Disabled,
            RuleEntry::Enabled { level, ignore, options } => RuleEntryView::Enabled {
                level: *level,
                ignore: opt_patterns_view(*ignore),
                options: entries_view(options@),
            },
        }
    }
}

/// A validated configuration.
pub struct LintConfig {
    rules: Vec<(String, RuleEntry)>,
    pub ignore: Option<Patterns>,
    pub yaml_files: Vec<String>,
    pub locale: Option<String>,
}

pub struct LintConfigView {
    pub rules: Seq<(Seq<char>, RuleEntryView)>,
    pub ignore: Option<PatternsView>,
    pub yaml_files: Seq<Seq<char>>,
    pub locale: Option<Seq<char>>,
}

pub open spec fn entries_of_rules(r: Seq<(String, RuleEntry)>) -> Seq<(Seq<char>, RuleEntryView)> {
    r.map_values(|p: (String, RuleEntry)| (p.0@, p.1@))
}

impl View for LintConfig {
    type V = LintConfigView;

    closed spec fn view(&self) -> LintConfigView {
        LintConfigView {
            rules: entries_of_rules(self.rules@),
            ignore: opt_patterns_view(self.ignore),
            yaml_files: strings_view(self.yaml_files@),
            locale: opt_string_view(self.locale),
        }
    }
}

/// The value of the first option named `k`.
pub open spec fn option_named(m: Seq<(Seq<char>, OptionValueView)>, k: Seq<char>) -> Option<OptionValueView> {
    match option_index(m, k, 0) {
        Some(i) => Some(m[i].1),
        None => None,
    }
}

pub open spec fn level_spec(m: Seq<(Seq<char>, OptionValueView)>) -> Result<Level, Seq<char>> {
    match option_named(m, "level"@) {
        None => Ok(Level::Error),
        Some(OptionValueView::Str(s)) => if s == "error"@ {
            Ok(Level::Error)
        } else if s == "warning"@ {
            Ok(Level::Warning)
        } else {
            Err("invalid config: level should be \"error\" or \"warning\""@)
        },
        Some(_) => Err("invalid config: level should be \"error\" or \"warning\""@),
    }
}

pub open spec fn rule_ignore_spec(m: Seq<(Seq<char>, OptionValueView)>) -> Result<Option<PatternsView>, Seq<char>> {
    match option_named(m, "ignore-from-file"@) {
        Some(OptionValueView::Str(s)) => Ok(Some(PatternsView::Files(seq![s]))),
        Some(OptionValueView::List(l)) => Ok(Some(PatternsView::Files(l))),
        Some(_) => Err(
            "invalid config: ignore-from-file should contain valid filename(s), either as a list or string"@,
        ),
        None => match option_named(m, "ignore"@) {
            None => Ok(None),
            Some(OptionValueView::Str(s)) => Ok(Some(PatternsView::Lines(split_lines(s)))),
            Some(OptionValueView::List(l)) => Ok(Some(PatternsView::Lines(l))),
            Some(_) => Err("invalid config: ignore should contain file patterns"@),
        },
    }
}

/// A rule entry validated: the rule must be known, an invalid entry is an
/// error, and an option mapping gives the level (`error` by default), the
/// files that the rule skips, and the options.
pub open spec fn rule_entry_spec(name: Seq<char>, raw: RawRuleView) -> Result<RuleEntryView, Seq<char>> {
    if !known_rules().contains(name) {
        Err("invalid config: no such rule: \""@ + name + "\""@)
    } else {
        match raw {
            RawRuleView::Disabled => Ok(RuleEntryView::Disabled),
            RawRuleView::Invalid => Err(
                "invalid config: rule \""@ + name + "\": should be either \"enable\", \"disable\" or a mapping"@,
            ),
            RawRuleView::Options(m) => match level_spec(m) {
                Err(e) => Err(e),
                Ok(level) => match rule_ignore_spec(m) {
                    Err(e) => Err(e),
                    Ok(ignore) => Ok(RuleEntryView::Enabled { level, ignore, options: m }),
                },
            },
        }
    }
}

/// The rules validated in order; the first error stops it.
pub open spec fn validate_rules(rules: Seq<(Seq<char>, RawRuleView)>) -> Result<Seq<(Seq<char>, RuleEntryView)>, Seq<char>>
    decreases rules.len(),
{
    if rules.len() == 0 {
        Ok(seq![])
    } else {
        match validate_rules(rules.drop_last()) {
            Err(e) => Err(e),
            Ok(rest) => match rule_entry_spec(rules.last().0, rules.last().1) {
                Err(e) => Err(e),
                Ok(en) => Ok(rest.push((rules.last().0, en))),
            },
        }
    }
}

/// The files linted when `yaml-files` is not set.
pub open spec fn default_yaml_files() -> Seq<Seq<char>> {
    seq!["*.yaml"@, "*.yml"@, ".yamllint"@]
}

/// A merged configuration validated.
pub open spec fn validate_spec(raw: RawLintConfigView) -> Result<LintConfigView, Seq<char>> {
    match validate_rules(raw.rules) {
        Err(e) => Err(e),
        Ok(rules) => Ok(
            LintConfigView {
                rules,
                ignore: raw.ignore,
                yaml_files: match raw.yaml_files {
                    Some(y) => y,
                    None => default_yaml_files(),
                },
                locale: raw.locale,
            },
        ),
    }
}

proof fn lemma_validate_prefix(rules: Seq<(Seq<char>, RawRuleView)>, k: int, e: Seq<char>)
    requires
        0 <= k <= rules.len(),
        validate_rules(rules.take(k)) == Err::<Seq<(Seq<char>, RuleEntryView)>, Seq<char>>(e),
    ensures
        validate_rules(rules) == Err::<Seq<(Seq<char>, RuleEntryView)>, Seq<char>>(e),
    decreases rules.len() - k,
{
    if k < rules.len() {
        assert(rules.take(k + 1).drop_last() =~= rules.take(k));
        lemma_validate_prefix(rules, k + 1, e);
    } else {
        assert(rules.take(k) =~= rules);
    }
}

fn option_named_exec<'a>(m: &'a Vec<(String, OptionValue)>, k: &str) -> (r: Option<&'a OptionValue>)
    ensures
        match r {
            Some(v) => option_named(entries_view(m@), k@) == Some(v@),
            None => option_named(entries_view(m@), k@) is None,
        },
{
    proof {
        lemma_option_index(entries_view(m@), k@, 0);
    }
    match find_option(m, k) {
        Some(i) => Some(&m[i].1),
        None => None,
    }
}

fn quoted_name_error(prefix: &str, name: &str, suffix: &str) -> (r: String)
    ensures
        r@ == prefix@ + name@ + suffix@,
{
    let mut v = str_chars(prefix);
    crate::text::push_str(&mut v, name);
    crate::text::push_str(&mut v, suffix);
    chars_to_string(v.as_slice())
}

fn rule_entry_exec(name: &str, raw: RawRule) -> (r: Result<RuleEntry, String>)
    ensures
        match r {
            Ok(en) => rule_entry_spec(name@, raw@) == Ok::<RuleEntryView, Seq<char>>(en@),
            Err(e) => rule_entry_spec(name@, raw@) == Err::<RuleEntryView, Seq<char>>(e@),
        },
{
    if rule_id(name).is_none() {
        return Err(quoted_name_error("invalid config: no such rule: \"", name, "\""));
    }
    let ghost rv = raw@;
    match raw {
        RawRule::Disabled => Ok(RuleEntry::Disabled),
        RawRule::Invalid => Err(
            quoted_name_error(
                "invalid config: rule \"",
                name,
                "\": should be either \"enable\", \"disable\" or a mapping",
            ),
        ),
        RawRule::Options(m) => {
            proof {
                reveal_strlit("error");
                reveal_strlit("warning");
            }
            let level = match option_named_exec(&m, "level") {
                None => Level::Error,
                Some(OptionValue::Str(s)) => if str_eq(s.as_str(), "error") {
                    Level::Error
                } else if str_eq(s.as_str(), "warning") {
                    Level::Warning
                } else {
                    return Err("invalid config: level should be \"error\" or \"warning\"".to_owned());
                },
                Some(_) => {
                    return Err("invalid config: level should be \"error\" or \"warning\"".to_owned());
                },
            };
            let ignore = match option_named_exec(&m, "ignore-from-file") {
                Some(OptionValue::Str(s)) => {
                    let mut f: Vec<String> = Vec::new();
                    f.push(s.clone());
                    assert(strings_view(f@) =~= seq![s@]);
                    Some(Patterns::Files(f))
                },
                Some(OptionValue::List(l)) => Some(Patterns::Files(crate::rule::copy_strings(l))),
                Some(_) => {
                    return Err(
                        "invalid config: ignore-from-file should contain valid filename(s), either as a list or string".to_owned(),
                    );
                },
                None => match option_named_exec(&m, "ignore") {
                    None => None,
                    Some(OptionValue::Str(s)) => {
                        let ls = lines_of(str_chars(s.as_str()).as_slice());
                        Some(Patterns::Lines(strings_of_lines(&ls)))
                    },
                    Some(OptionValue::List(l)) => Some(Patterns::Lines(crate::rule::copy_strings(l))),
                    Some(_) => {
                        return Err("invalid config: ignore should contain file patterns".to_owned());
                    },
                },
            };
            Ok(RuleEntry::Enabled { level, ignore, options: m })
        },
    }
}

/// Validate a merged configuration.
pub fn validate_lint_config(raw: RawLintConfig) -> (r: Result<LintConfig, String>)
    ensures
        match r {
            Ok(c) => validate_spec(raw@) == Ok::<LintConfigView, Seq<char>>(c@),
            Err(e) => validate_spec(raw@) == Err::<LintConfigView, Seq<char>>(e@),
        },
{
    let ghost rv = raw@;
    let RawLintConfig { rules: raw_rules, extends: _, ignore, yaml_files, locale } = raw;
    let ghost all = rv.rules;
    let n = raw_rules.len();
    let mut rest = raw_rules;
    let mut out: Vec<(String, RuleEntry)> = Vec::new();
    let mut i: usize = 0;
    assert(all.take(0) =~= Seq::<(Seq<char>, RawRuleView)>::empty());
    assert(entries_of_rules(out@) =~= seq![]);
    while rest.len() > 0
        invariant
            rv == raw@,
            all == rv.rules,
            all.len() == n,
            i + rest@.len() == all.len(),
            raw_rules_view(rest@) == all.skip(i as int),
            validate_rules(all.take(i as int)) == Ok::<Seq<(Seq<char>, RuleEntryView)>, Seq<char>>(
                entries_of_rules(out@),
            ),
        decreases rest@.len(),
    {
        let ghost before = rest@;
        let (name, raw_rule) = rest.remove(0);
        proof {
            assert(raw_rules_view(rest@) =~= raw_rules_view(before).skip(1));
            assert(all.skip(i as int).skip(1) =~= all.skip(i + 1));
            assert(all.take(i + 1).drop_last() =~= all.take(i as int));
            assert(all.skip(i as int)[0] == (name@, raw_rule@));
            assert(all.take(i + 1).last() == (name@, raw_rule@));
        }
        match rule_entry_exec(name.as_str(), raw_rule) {
            Ok(en) => {
                let ghost prev = out@;
                out.push((name, en));
                assert(entries_of_rules(out@) =~= entries_of_rules(prev).push((out@.last().0@, out@.last().1@)));
            },
            Err(e) => {
                proof {
                    assert(validate_rules(all.take(i + 1)) == Err::<Seq<(Seq<char>, RuleEntryView)>, Seq<char>>(e@));
                    lemma_validate_prefix(all, i + 1, e@);
                    assert(rv.rules == all);
                }
                return Err(e);
            },
        }
        i = i + 1;
    }
    assert(all.take(i as int) =~= all);
    let yaml_files = match yaml_files {
        Some(y) => y,
        None => {
            let mut d: Vec<String> = Vec::new();
            d.push("*.yaml".to_owned());
            d.push("*.yml".to_owned());
            d.push(".yamllint".to_owned());
            assert(strings_view(d@) =~= default_yaml_files());
            d
        },
    };
    Ok(LintConfig { rules: out, ignore, yaml_files, locale })
}

// --- What the rules run with -------------------------------------------------------

/// A rule that runs on a file, with the level of its problems.
pub struct EnabledRule {
    pub id: &'static str,
    pub level: Level,
}

/// The rules that run on a file, in the configuration's order: the known
/// ones that are on and whose `ignore` patterns do not match the file
/// (`ignored[i]` tells whether those of the `i`-th rule match).
pub open spec fn enabled_spec(rules: Seq<(Seq<char>, RuleEntryView)>, ignored: Seq<bool>) -> Seq<(Seq<char>, Level)>
    decreases rules.len(),
{
    if rules.len() == 0 {
        seq![]
    } else {
        let k = rules.len() - 1;
        let rest = enabled_spec(rules.drop_last(), ignored);
        match rules.last().1 {
            RuleEntryView::Enabled { level, .. } => if !ignored[k] && known_rules().contains(rules.last().0) {
                rest.push((rules.last().0, level))
            } else {
                rest
            },
            RuleEntryView::Disabled => rest,
        }
    }
}

pub open spec fn enabled_view(v: Seq<EnabledRule>) -> Seq<(Seq<char>, Level)> {
    v.map_values(|e: EnabledRule| (e.id@, e.level))
}

/// The configuration that a rule runs with on a file: its options when it
/// is on and not ignored there, else off.
pub open spec fn lang_rule_spec(e: (Seq<char>, RuleEntryView), ignored: bool) -> (Seq<char>, RuleConfigView) {
    match e.1 {
        RuleEntryView::Enabled { options, .. } => if ignored {
            (e.0, RuleConfigView::Enabled(false))
        } else {
            (e.0, RuleConfigView::Detailed(options))
        },
        RuleEntryView::Disabled => (e.0, RuleConfigView::Enabled(false)),
    }
}

/// `p` at the level of the first enabled rule that reported it; a problem
/// of no rule, or of no enabled rule, keeps its level.
pub open spec fn leveled(p: LintProblem, rules: Seq<(Seq<char>, Level)>) -> LintProblem {
    match p.rule {
        Some(id) => match level_of_rule(rules, id@, 0) {
            Some(l) => LintProblem { level: l, ..p },
            None => p,
        },
        None => p,
    }
}

pub open spec fn level_of_rule(rules: Seq<(Seq<char>, Level)>, id: Seq<char>, i: int) -> Option<Level>
    decreases rules.len() - i,
{
    if i < 0 || i >= rules.len() {
        None
    } else if rules[i].0 == id {
        Some(rules[i].1)
    } else {
        level_of_rule(rules, id, i + 1)
    }
}

fn copy_option(o: &OptionValue) -> (r: OptionValue)
    ensures
        r@ == o@,
{
    match o {
        OptionValue::Null => OptionValue::Null,
        OptionValue::Bool(b) => OptionValue::Bool(*b),
        OptionValue::Int(i) => OptionValue::Int(*i),
        OptionValue::Str(s) => OptionValue::Str(s.clone()),
        OptionValue::List(l) => OptionValue::List(crate::rule::copy_strings(l)),
        OptionValue::Other => OptionValue::Other,
    }
}

fn copy_options(m: &Vec<(String, OptionValue)>) -> (r: Vec<(String, OptionValue)>)
    ensures
        entries_view(r@) == entries_view(m@),
{
    let mut out: Vec<(String, OptionValue)> = Vec::new();
    let mut i: usize = 0;
    while i < m.len()
        invariant
            i <= m@.len(),
            entries_view(out@) == entries_view(m@.take(i as int)),
        decreases m@.len() - i,
    {
        let ghost prev = out@;
        out.push((m[i].0.clone(), copy_option(&m[i].1)));
        proof {
            assert(m@.take(i + 1) =~= m@.take(i as int).push(m@[i as int]));
            assert(entries_view(out@) =~= entries_view(prev).push((m@[i as int].0@, m@[i as int].1@)));
        }
        i = i + 1;
    }
    assert(m@.take(i as int) =~= m@);
    out
}

impl LintConfig {
    /// The number of rule entries.
    pub fn rule_count(&self) -> (r: usize)
        ensures
            r == self@.rules.len(),
    {
        self.rules.len()
    }

    /// The name of the `i`-th rule entry and the patterns of the files it
    /// skips, when it is on and has some.
    pub fn rule_ignore(&self, i: usize) -> (r: (&str, Option<&Patterns>))
        requires
            i < self@.rules.len(),
        ensures
            r.0@ == self@.rules[i as int].0,
            match self@.rules[i as int].1 {
                RuleEntryView::Enabled { ignore, .. } => opt_patterns_view(
                    match r.1 {
                        Some(p) => Some(*p),
                        None => None,
                    },
                ) == ignore,
                RuleEntryView::Disabled => r.1 is None,
            },
    {
        let e = &self.rules[i];
        let p = match &e.1 {
            RuleEntry::Enabled { ignore, .. } => match ignore {
                Some(p) => Some(p),
                None => None,
            },
            RuleEntry::Disabled => None,
        };
        (e.0.as_str(), p)
    }

    /// The rules that run on a file; `ignored[i]` tells whether the `i`-th
    /// rule's `ignore` patterns match it.
    fn enabled_for(&self, ignored: &[bool]) -> (r: Vec<EnabledRule>)
        requires
            ignored@.len() == self@.rules.len(),
        ensures
            enabled_view(r@) == enabled_spec(self@.rules, ignored@),
    {
        let ghost rv = self@.rules;
        let mut out: Vec<EnabledRule> = Vec::new();
        let mut i: usize = 0;
        while i < self.rules.len()
            invariant
                i <= self.rules@.len(),
                ignored@.len() == self.rules@.len(),
                rv == self@.rules,
                rv == entries_of_rules(self.rules@),
                enabled_view(out@) == enabled_spec(rv.take(i as int), ignored@),
            decreases self.rules@.len() - i,
        {
            proof {
                assert(rv.take(i + 1).drop_last() =~= rv.take(i as int));
                assert(rv.take(i + 1).last() == rv[i as int]);
                assert(rv[i as int] == (self.rules@[i as int].0@, self.rules@[i as int].1@));
            }
            match &self.rules[i].1 {
                RuleEntry::Enabled { level, .. } => {
                    if !ignored[i] {
                        match rule_id(self.rules[i].0.as_str()) {
                            Some(id) => {
                                let ghost prev = out@;
                                out.push(EnabledRule { id, level: *level });
                                assert(enabled_view(out@) =~= enabled_view(prev).push((id@, *level)));
                            },
                            None => {},
                        }
                    }
                },
                RuleEntry::Disabled => {},
            }
            i = i + 1;
        }
        assert(rv.take(i as int) =~= rv);
        out
    }

    /// The rules' configurations on a file; `ignored[i]` tells whether the
    /// `i`-th rule's `ignore` patterns match it.
    fn language_config_for(&self, ignored: &[bool]) -> (r: LanguageConfig)
        requires
            ignored@.len() == self@.rules.len(),
        ensures
            r.rules@.len() == self@.rules.len(),
            forall|i: int|
                0 <= i < r.rules@.len() ==> (#[trigger] r.rules@[i].0@, r.rules@[i].1@) == lang_rule_spec(
                    self@.rules[i],
                    ignored@[i],
                ),
    {
        let ghost rv = self@.rules;
        let mut out: Vec<(String, RuleConfig)> = Vec::new();
        let mut i: usize = 0;
        while i < self.rules.len()
            invariant
                i <= self.rules@.len(),
                ignored@.len() == self.rules@.len(),
                rv == self@.rules,
                rv == entries_of_rules(self.rules@),
                out@.len() == i,
                forall|k: int|
                    0 <= k < i ==> (#[trigger] out@[k].0@, out@[k].1@) == lang_rule_spec(rv[k], ignored@[k]),
            decreases self.rules@.len() - i,
        {
            assert(rv[i as int] == (self.rules@[i as int].0@, self.rules@[i as int].1@));
            let c = match &self.rules[i].1 {
                RuleEntry::Enabled { options, .. } => if ignored[i] {
                    RuleConfig::Enabled(false)
                } else {
                    RuleConfig::Detailed(copy_options(options))
                },
                RuleEntry::Disabled => RuleConfig::Enabled(false),
            };
            let ghost prev = out@;
            out.push((self.rules[i].0.clone(), c));
            proof {
                assert(out@[i as int] == (self.rules@[i as int].0, c));
                assert((out@[i as int].0@, out@[i as int].1@) == lang_rule_spec(rv[i as int], ignored@[i as int]));
                assert forall|k: int| 0 <= k < i + 1 implies (#[trigger] out@[k].0@, out@[k].1@) == lang_rule_spec(
                    rv[k],
                    ignored@[k],
                ) by {
                    if k < i {
                        assert(out@[k] == prev[k]);
                    }
                }
            }
            i = i + 1;
        }
        LanguageConfig { rules: out }
    }
}

// --- Matching files ----------------------------------------------------------------

/// What the gitignore-style `patterns` say of the relative `path`: whether
/// the last pattern that matches it, or one of its parent directories,
/// ignores it (a `!` pattern takes it back); an error, with its text, where a
/// pattern is no valid glob.
pub uninterp spec fn gitignore_match(patterns: Seq<Seq<char>>, path: Seq<char>) -> Result<bool, Seq<char>>;

/// `path` without a leading `./`.
pub open spec fn without_dot_slash(path: Seq<char>) -> Seq<char> {
    if path.len() >= 2 && path[0] == '.' && path[1] == '/' {
        path.subrange(2, path.len() as int)
    } else {
        path
    }
}

/// Whether the gitignore matcher takes `path` as relative on every
/// platform: once a leading `./` and then one leading `/` are dropped, no
/// `/` or `\` leads it and no drive (`C:/`, `C:\`) starts it. The matcher
/// asserts that it is.
pub open spec fn matcher_relative(path: Seq<char>) -> bool {
    let q = without_dot_slash(path);
    let r = if q.len() >= 1 && q[0] == '/' {
        q.subrange(1, q.len() as int)
    } else {
        q
    };
    &&& !(r.len() >= 1 && (r[0] == '/' || r[0] == '\\'))
    &&& !(r.len() >= 3 && r[1] == ':' && (r[2] == '/' || r[2] == '\\'))
}

/// `ignore::gitignore::GitignoreBuilder::new("")`, `add_line(None, ..)` for
/// each pattern, `build`, then `Gitignore::matched_path_or_any_parents(path,
/// false).is_ignore()`. The contract claims only that the answer, or the
/// error's text, is the one `gitignore_match` names: a function of the
/// patterns and the path alone. `matched_path_or_any_parents` asserts that
/// the path is relative, which `requires` asks.
#[verifier::external_body]
fn gitignore_is_match(patterns: &[String], path: &str) -> (r: Result<bool, String>)
    requires
        matcher_relative(path@),
    ensures
        match r {
            Ok(b) => gitignore_match(strings_view(patterns@), path@) == Ok::<bool, Seq<char>>(b),
            Err(e) => gitignore_match(strings_view(patterns@), path@) == Err::<bool, Seq<char>>(e@),
        },
{
    let mut builder = ignore::gitignore::GitignoreBuilder::new("");
    for line in patterns {
        builder.add_line(None, line).map_err(|e| e.to_string())?;
    }
    let gi = builder.build().map_err(|e| e.to_string())?;
    Ok(gi.matched_path_or_any_parents(std::path::Path::new(path), false).is_ignore())
}

/// Whether `patterns` ignore `path` once a leading `./` is dropped; invalid
/// patterns ignore nothing.
pub open spec fn ignores(patterns: Seq<Seq<char>>, path: Seq<char>) -> bool {
    gitignore_match(patterns, without_dot_slash(path)) == Ok::<bool, Seq<char>>(true)
}

/// `path` without a leading `./`.
fn strip_dot_slash(path: &str) -> (r: String)
    ensures
        r@ == without_dot_slash(path@),
{
    let v = str_chars(path);
    if v.len() >= 2 && v[0] == '.' && v[1] == '/' {
        let rest = slice_to_vec(v.as_slice(), 2, v.len());
        chars_to_string(rest.as_slice())
    } else {
        chars_to_string(v.as_slice())
    }
}

/// Whether the gitignore matcher takes `path` as relative on every platform.
pub fn is_matcher_relative(path: &str) -> (r: bool)
    ensures
        r == matcher_relative(path@),
{
    let v = str_chars(path);
    let mut start: usize = 0;
    if v.len() >= 2 && v[0] == '.' && v[1] == '/' {
        start = 2;
    }
    if start < v.len() && v[start] == '/' {
        start = start + 1;
    }
    proof {
        let q = without_dot_slash(path@);
        let r = if q.len() >= 1 && q[0] == '/' {
            q.subrange(1, q.len() as int)
        } else {
            q
        };
        assert(r =~= v@.subrange(start as int, v@.len() as int));
    }
    let n = v.len() - start;
    let lead = n >= 1 && (v[start] == '/' || v[start] == '\\');
    let drive = n >= 3 && v[start + 1] == ':' && (v[start + 2] == '/' || v[start + 2] == '\\');
    !lead && !drive
}

/// Whether `patterns` ignore `path`.
fn patterns_ignore(patterns: &[String], path: &str) -> (r: bool)
    requires
        matcher_relative(without_dot_slash(path@)),
    ensures
        r == ignores(strings_view(patterns@), path@),
{
    let p = strip_dot_slash(path);
    match gitignore_is_match(patterns, p.as_str()) {
        Ok(b) => b,
        Err(_) => false,
    }
}

/// The lines read from pattern files, by file name.
pub open spec fn files_view(files: Seq<(String, Vec<String>)>) -> Seq<(Seq<char>, Seq<Seq<char>>)> {
    files.map_values(|e: (String, Vec<String>)| (e.0@, strings_view(e.1@)))
}

/// The lines of the first file named `name` from the `i`-th on; none where
/// no file has that name.
pub open spec fn file_lines_from(files: Seq<(Seq<char>, Seq<Seq<char>>)>, name: Seq<char>, i: int) -> Seq<Seq<char>>
    decreases files.len() - i,
{
    if i < 0 || i >= files.len() {
        seq![]
    } else if files[i].0 == name {
        files[i].1
    } else {
        file_lines_from(files, name, i + 1)
    }
}

/// The lines of the files named, one file after another.
pub open spec fn names_lines(names: Seq<Seq<char>>, files: Seq<(Seq<char>, Seq<Seq<char>>)>) -> Seq<Seq<char>>
    decreases names.len(),
{
    if names.len() == 0 {
        seq![]
    } else {
        names_lines(names.drop_last(), files) + file_lines_from(files, names.last(), 0)
    }
}

/// The patterns' lines: written out, or those of the files named.
pub open spec fn pattern_lines(p: PatternsView, files: Seq<(Seq<char>, Seq<Seq<char>>)>) -> Seq<Seq<char>> {
    match p {
        PatternsView::Lines(l) => l,
        PatternsView::Files(names) => names_lines(names, files),
    }
}

/// `out` followed by copies of `src`.
fn append_strings(out: &mut Vec<String>, src: &Vec<String>)
    ensures
        strings_view(final(out)@) == strings_view(old(out)@) + strings_view(src@),
{
    let ghost start = strings_view(out@);
    let mut j: usize = 0;
    while j < src.len()
        invariant
            j <= src@.len(),
            strings_view(out@) == start + strings_view(src@.take(j as int)),
        decreases src@.len() - j,
    {
        let ghost prev = out@;
        out.push(src[j].clone());
        proof {
            assert(strings_view(out@) =~= strings_view(prev).push(src@[j as int]@));
            assert(strings_view(src@.take(j + 1)) =~= strings_view(src@.take(j as int)).push(src@[j as int]@));
        }
        j = j + 1;
    }
    assert(src@.take(j as int) =~= src@);
}

/// The lines of the first file named `name`.
fn file_lines(files: &[(String, Vec<String>)], name: &String) -> (r: Vec<String>)
    ensures
        strings_view(r@) == file_lines_from(files_view(files@), name@, 0),
{
    let ghost fv = files_view(files@);
    let mut i: usize = 0;
    while i < files.len()
        invariant
            i <= files@.len(),
            fv == files_view(files@),
            file_lines_from(fv, name@, i as int) == file_lines_from(fv, name@, 0),
        decreases files@.len() - i,
    {
        assert(fv[i as int] == (files@[i as int].0@, strings_view(files@[i as int].1@)));
        if str_eq(files[i].0.as_str(), name.as_str()) {
            return crate::rule::copy_strings(&files[i].1);
        }
        i = i + 1;
    }
    Vec::new()
}

/// The lines of `p`, written out or read from the files it names.
fn lines_of_patterns(p: &Patterns, files: &[(String, Vec<String>)]) -> (r: Vec<String>)
    ensures
        strings_view(r@) == pattern_lines(p@, files_view(files@)),
{
    match p {
        Patterns::Lines(l) => crate::rule::copy_strings(l),
        Patterns::Files(names) => {
            let ghost nv = strings_view(names@);
            let mut out: Vec<String> = Vec::new();
            let mut i: usize = 0;
            while i < names.len()
                invariant
                    i <= names@.len(),
                    nv == strings_view(names@),
                    strings_view(out@) == names_lines(nv.take(i as int), files_view(files@)),
                decreases names@.len() - i,
            {
                let lines = file_lines(files, &names[i]);
                append_strings(&mut out, &lines);
                proof {
                    assert(nv.take(i + 1).drop_last() =~= nv.take(i as int));
                    assert(nv.take(i + 1).last() == names@[i as int]@);
                }
                i = i + 1;
            }
            assert(nv.take(i as int) =~= nv);
            out
        },
    }
}

/// Whether each rule's `ignore` patterns skip `path` (none for standard
/// input, or for a rule that is off or has none).
pub open spec fn rule_flags_spec(
    rules: Seq<(Seq<char>, RuleEntryView)>,
    files: Seq<(Seq<char>, Seq<Seq<char>>)>,
    path: Option<Seq<char>>,
) -> Seq<bool> {
    rules.map_values(
        |e: (Seq<char>, RuleEntryView)|
            match (e.1, path) {
                (RuleEntryView::Enabled { ignore: Some(p), .. }, Some(x)) => ignores(pattern_lines(p, files), x),
                _ => false,
            },
    )
}

pub open spec fn opt_str_view(s: Option<&str>) -> Option<Seq<char>> {
    match s {
        Some(x) => Some(x@),
        None => None,
    }
}

/// A base name that `yaml-files` selects; one that the matcher would take
/// as absolute (only names with `\\` or a drive prefix, which some platforms
/// read as roots) is none.
pub open spec fn yaml_name(globs: Seq<Seq<char>>, name: Seq<char>) -> bool {
    matcher_relative(without_dot_slash(name)) && ignores(globs, name)
}

/// The first error of a set of patterns among `ignore`, `yaml-files` and the
/// rules' `ignore`, in that order.
pub open spec fn rules_patterns_error(
    rules: Seq<(Seq<char>, RuleEntryView)>,
    files: Seq<(Seq<char>, Seq<Seq<char>>)>,
) -> Option<Seq<char>>
    decreases rules.len(),
{
    if rules.len() == 0 {
        None
    } else {
        match rules_patterns_error(rules.drop_last(), files) {
            Some(e) => Some(e),
            None => match rules.last().1 {
                RuleEntryView::Enabled { ignore: Some(p), .. } => pattern_error(pattern_lines(p, files)),
                _ => None,
            },
        }
    }
}

/// An error among the first rules stays the first error of more rules.
proof fn lemma_rules_patterns_error_prefix(
    rules: Seq<(Seq<char>, RuleEntryView)>,
    files: Seq<(Seq<char>, Seq<Seq<char>>)>,
    k: int,
)
    requires
        0 <= k <= rules.len(),
        rules_patterns_error(rules.take(k), files) is Some,
    ensures
        rules_patterns_error(rules, files) == rules_patterns_error(rules.take(k), files),
    decreases rules.len() - k,
{
    if k < rules.len() {
        assert(rules.drop_last().take(k) =~= rules.take(k));
        lemma_rules_patterns_error_prefix(rules.drop_last(), files, k);
    } else {
        assert(rules.take(k) =~= rules);
    }
}

/// The error of invalid patterns.
pub open spec fn pattern_error(lines: Seq<Seq<char>>) -> Option<Seq<char>> {
    match gitignore_match(lines, seq![]) {
        Err(e) => Some("invalid config: "@ + e),
        Ok(_) => None,
    }
}

pub open spec fn patterns_error(c: LintConfigView, files: Seq<(Seq<char>, Seq<Seq<char>>)>) -> Option<Seq<char>> {
    let ig = match c.ignore {
        Some(p) => pattern_error(pattern_lines(p, files)),
        None => None,
    };
    if ig is Some {
        ig
    } else if pattern_error(c.yaml_files) is Some {
        pattern_error(c.yaml_files)
    } else {
        rules_patterns_error(c.rules, files)
    }
}

/// The error of invalid patterns, prefixed as a configuration error.
fn check_lines(lines: &Vec<String>) -> (r: Result<(), String>)
    ensures
        match pattern_error(strings_view(lines@)) {
            Some(e) => r matches Err(m) && m@ == e,
            None => r is Ok,
        },
{
    proof {
        reveal_strlit("");
        assert(""@ =~= Seq::<char>::empty());
        reveal_strlit("invalid config: ");
    }
    match gitignore_is_match(lines.as_slice(), "") {
        Ok(_) => Ok(()),
        Err(e) => {
            let mut v = str_chars("invalid config: ");
            let ev = str_chars(e.as_str());
            let mut k: usize = 0;
            while k < ev.len()
                invariant
                    k <= ev@.len(),
                    v@ == "invalid config: "@ + ev@.take(k as int),
                decreases ev@.len() - k,
            {
                v.push(ev[k]);
                assert(ev@.take(k + 1) =~= ev@.take(k as int).push(ev@[k as int]));
                k = k + 1;
            }
            assert(ev@.take(k as int) =~= ev@);
            Err(chars_to_string(v.as_slice()))
        },
    }
}

impl LintConfig {
    /// Whether the configuration's `ignore` patterns skip `path`; `files`
    /// holds the lines of the files that `ignore-from-file` names.
    pub fn is_file_ignored(&self, files: &[(String, Vec<String>)], path: &str) -> (r: bool)
        requires
            matcher_relative(without_dot_slash(path@)),
        ensures
            r == match self@.ignore {
                Some(p) => ignores(pattern_lines(p, files_view(files@)), path@),
                None => false,
            },
    {
        match &self.ignore {
            Some(p) => {
                let lines = lines_of_patterns(p, files);
                patterns_ignore(lines.as_slice(), path)
            },
            None => false,
        }
    }

    /// Whether `yaml-files` selects the file at `path` by its base name (the
    /// empty name where it has none).
    pub fn is_yaml_file(&self, path: &str) -> (r: bool)
        ensures
            exists|n: Option<Seq<char>>|
                file_name_ok(path@, n) && r == yaml_name(
                    self@.yaml_files,
                    match n {
                        Some(x) => x,
                        None => seq![],
                    },
                ),
    {
        let name = match file_name_of(path) {
            Some(n) => n,
            None => String::new(),
        };
        if is_matcher_relative(strip_dot_slash(name.as_str()).as_str()) {
            patterns_ignore(self.yaml_files.as_slice(), name.as_str())
        } else {
            false
        }
    }

    /// Whether each rule's `ignore` patterns skip `path`.
    pub fn rule_flags(&self, files: &[(String, Vec<String>)], path: Option<&str>) -> (r: Vec<bool>)
        requires
            path matches Some(p) ==> matcher_relative(without_dot_slash(p@)),
        ensures
            r@ == rule_flags_spec(self@.rules, files_view(files@), opt_str_view(path)),
    {
        let ghost rv = self@.rules;
        let ghost want = rule_flags_spec(rv, files_view(files@), opt_str_view(path));
        let mut out: Vec<bool> = Vec::new();
        let mut i: usize = 0;
        while i < self.rules.len()
            invariant
                i <= self.rules@.len(),
                rv == self@.rules,
                rv == entries_of_rules(self.rules@),
                want == rule_flags_spec(rv, files_view(files@), opt_str_view(path)),
                path matches Some(p) ==> matcher_relative(without_dot_slash(p@)),
                out@ == want.take(i as int),
            decreases self.rules@.len() - i,
        {
            assert(rv[i as int] == (self.rules@[i as int].0@, self.rules@[i as int].1@));
            let flag = match (&self.rules[i].1, path) {
                (RuleEntry::Enabled { ignore: Some(p), .. }, Some(x)) => {
                    let lines = lines_of_patterns(p, files);
                    patterns_ignore(lines.as_slice(), x)
                },
                _ => false,
            };
            out.push(flag);
            assert(out@ =~= want.take(i + 1));
            i = i + 1;
        }
        assert(want.take(i as int) =~= want);
        out
    }

    /// The rules that run on the file at `path` (`None` for standard
    /// input): the known ones that are on and whose `ignore` patterns do not
    /// skip it.
    pub fn enabled_rules(&self, files: &[(String, Vec<String>)], path: Option<&str>) -> (r: Vec<EnabledRule>)
        requires
            path matches Some(p) ==> matcher_relative(without_dot_slash(p@)),
        ensures
            enabled_view(r@) == enabled_spec(
                self@.rules,
                rule_flags_spec(self@.rules, files_view(files@), opt_str_view(path)),
            ),
    {
        let flags = self.rule_flags(files, path);
        self.enabled_for(flags.as_slice())
    }

    /// The rules' configurations on the file at `path`.
    pub fn language_config(&self, files: &[(String, Vec<String>)], path: Option<&str>) -> (r: LanguageConfig)
        requires
            path matches Some(p) ==> matcher_relative(without_dot_slash(p@)),
        ensures
            r.rules@.len() == self@.rules.len(),
            forall|i: int|
                0 <= i < r.rules@.len() ==> (#[trigger] r.rules@[i].0@, r.rules@[i].1@) == lang_rule_spec(
                    self@.rules[i],
                    rule_flags_spec(self@.rules, files_view(files@), opt_str_view(path))[i],
                ),
    {
        let flags = self.rule_flags(files, path);
        self.language_config_for(flags.as_slice())
    }

    /// The first set of patterns that is no valid gitignore glob set, as a
    /// configuration error.
    pub fn check_patterns(&self, files: &[(String, Vec<String>)]) -> (r: Result<(), String>)
        ensures
            match patterns_error(self@, files_view(files@)) {
                Some(e) => r matches Err(m) && m@ == e,
                None => r is Ok,
            },
    {
        let fv = Ghost(files_view(files@));
        match &self.ignore {
            Some(p) => {
                let lines = lines_of_patterns(p, files);
                check_lines(&lines)?;
            },
            None => {},
        }
        check_lines(&self.yaml_files)?;
        let ghost rv = self@.rules;
        let mut i: usize = 0;
        while i < self.rules.len()
            invariant
                i <= self.rules@.len(),
                rv == self@.rules,
                rv == entries_of_rules(self.rules@),
                rules_patterns_error(rv.take(i as int), files_view(files@)) is None,
                patterns_error(self@, files_view(files@)) == rules_patterns_error(rv, files_view(files@)),
            decreases self.rules@.len() - i,
        {
            assert(rv[i as int] == (self.rules@[i as int].0@, self.rules@[i as int].1@));
            assert(rv.take(i + 1).drop_last() =~= rv.take(i as int));
            match &self.rules[i].1 {
                RuleEntry::Enabled { ignore: Some(p), .. } => {
                    let lines = lines_of_patterns(p, files);
                    let c = check_lines(&lines);
                    if c.is_err() {
                        proof {
                            lemma_rules_patterns_error_prefix(rv, files_view(files@), i + 1);
                        }
                        return c;
                    }
                },
                _ => {},
            }
            i = i + 1;
        }
        assert(rv.take(i as int) =~= rv);
        Ok(())
    }
}

/// The problems, each at the level of the enabled rule that reported it.
pub fn apply_levels(problems: Vec<LintProblem>, rules: &[EnabledRule]) -> (r: Vec<LintProblem>)
    ensures
        r@.len() == problems@.len(),
        forall|i: int| 0 <= i < r@.len() ==> #[trigger] r@[i] == leveled(problems@[i], enabled_view(rules@)),
{
    let ghost rv = enabled_view(rules@);
    let ghost pv = problems@;
    let n = problems.len();
    let mut rest = problems;
    let mut out: Vec<LintProblem> = Vec::new();
    let mut i: usize = 0;
    while rest.len() > 0
        invariant
            pv.len() == n,
            i + rest@.len() == pv.len(),
            rest@ == pv.skip(i as int),
            rv == enabled_view(rules@),
            out@.len() == i,
            forall|k: int| 0 <= k < i ==> #[trigger] out@[k] == leveled(pv[k], rv),
        decreases rest@.len(),
    {
        let ghost before = rest@;
        let p = rest.remove(0);
        proof {
            assert(rest@ =~= pv.skip(i + 1));
            assert(p == pv[i as int]);
        }
        let level = match p.rule {
            Some(id) => {
                let mut found: Option<Level> = None;
                let mut j: usize = 0;
                while j < rules.len()
                    invariant_except_break
                        found is None,
                        level_of_rule(rv, id@, j as int) == level_of_rule(rv, id@, 0),
                    invariant
                        j <= rules@.len(),
                        rv == enabled_view(rules@),
                    ensures
                        found matches Some(l) ==> level_of_rule(rv, id@, 0) == Some(l),
                        found is None ==> level_of_rule(rv, id@, 0) is None,
                    decreases rules@.len() - j,
                {
                    assert(rv[j as int] == (rules@[j as int].id@, rules@[j as int].level));
                    if str_eq(rules[j].id, id) {
                        assert(rv.len() == rules@.len());
                        assert(level_of_rule(rv, id@, j as int) == Some(rules@[j as int].level));
                        found = Some(rules[j].level);
                        break;
                    }
                    j = j + 1;
                }
                match found {
                    Some(l) => l,
                    None => p.level,
                }
            },
            None => p.level,
        };
        out.push(LintProblem { line: p.line, column: p.column, desc: p.desc, rule: p.rule, level });
        i = i + 1;
    }
    out
}

// --- Presets --------------------------------------------------------------------------

/// A preset rule setting as a rule entry.
pub open spec fn raw_of_rule_config(c: RuleConfigView) -> RawRuleView {
    match c {
        RuleConfigView::Enabled(b) => if b {
            RawRuleView::Options(seq![])
        } else {
            RawRuleView::Disabled
        },
        RuleConfigView::EnableStr(s) => if s == "enable"@ {
            RawRuleView::Options(seq![])
        } else if s == "disable"@ {
            RawRuleView::Disabled
        } else {
            RawRuleView::Invalid
        },
        RuleConfigView::Detailed(e) => RawRuleView::Options(e),
    }
}

pub open spec fn raw_of_rules(e: Seq<(String, RuleConfig)>) -> Seq<(Seq<char>, RawRuleView)> {
    e.map_values(|p: (String, RuleConfig)| (p.0@, raw_of_rule_config(p.1@)))
}

fn raw_rule_of_config(c: &RuleConfig) -> (r: RawRule)
    ensures
        r@ == raw_of_rule_config(c@),
{
    proof {
        reveal_strlit("enable");
        reveal_strlit("disable");
    }
    match c {
        RuleConfig::Enabled(b) => if *b {
            let empty: Vec<(String, OptionValue)> = Vec::new();
            assert(entries_view(empty@) =~= seq![]);
            RawRule::Options(empty)
        } else {
            RawRule::Disabled
        },
        RuleConfig::EnableStr(s) => if str_eq(s.as_str(), "enable") {
            let empty: Vec<(String, OptionValue)> = Vec::new();
            assert(entries_view(empty@) =~= seq![]);
            RawRule::Options(empty)
        } else if str_eq(s.as_str(), "disable") {
            RawRule::Disabled
        } else {
            RawRule::Invalid
        },
        RuleConfig::Detailed(e) => RawRule::Options(copy_options(e)),
    }
}

/// The rules of a preset configuration as rule entries.
fn raw_of_config(y: &YamllintConfig) -> (r: RawLintConfig)
    ensures
        r@.rules == raw_of_rules(y.rules@),
        r@.extends is None,
        r@.ignore is None,
        r@.yaml_files is None,
        r@.locale is None,
{
    let mut out: Vec<(String, RawRule)> = Vec::new();
    let mut i: usize = 0;
    while i < y.rules.len()
        invariant
            i <= y.rules@.len(),
            raw_rules_view(out@) == raw_of_rules(y.rules@.take(i as int)),
        decreases y.rules@.len() - i,
    {
        let ghost prev = out@;
        out.push((y.rules[i].0.clone(), raw_rule_of_config(&y.rules[i].1)));
        proof {
            assert(y.rules@.take(i + 1) =~= y.rules@.take(i as int).push(y.rules@[i as int]));
            assert(raw_rules_view(out@) =~= raw_rules_view(prev).push(
                (y.rules@[i as int].0@, raw_of_rule_config(y.rules@[i as int].1@)),
            ));
        }
        i = i + 1;
    }
    assert(y.rules@.take(i as int) =~= y.rules@);
    RawLintConfig { rules: out, extends: None, ignore: None, yaml_files: None, locale: None }
}

/// The built-in configuration named `name` (`default` or `relaxed`), as
/// a configuration to extend.
pub fn preset_config(name: &str) -> (r: Option<RawLintConfig>)
    ensures
        match r {
            Some(c) => (name@ == "default"@ || name@ == "relaxed"@) && c@.extends is None
                && c@.ignore is None && c@.yaml_files is None && c@.locale is None && exists|
                y: YamllintConfig,
            |
                #![trigger raw_of_rules(y.rules@)]
                y.wf() && y.rule_map() == crate::yaml_config::preset_map(name@) && c@.rules
                    == raw_of_rules(y.rules@),
            None => name@ != "default"@ && name@ != "relaxed"@,
        },
{
    proof {
        reveal_strlit("default");
        reveal_strlit("relaxed");
    }
    if str_eq(name, "default") {
        let y = YamllintConfig::default_config();
        let c = raw_of_config(&y);
        assert("default"@[0] == 'd' && "relaxed"@[0] == 'r');
        assert(name@ != "relaxed"@);
        Some(c)
    } else if str_eq(name, "relaxed") {
        let y = YamllintConfig::relaxed_config();
        let c = raw_of_config(&y);
        Some(c)
    } else {
        None
    }
}

/// The error of a configuration text that does not load as YAML.
pub fn load_error_message(e: &crate::pyyaml::error::YamlError) -> (r: String)
    ensures
        r@ == "invalid config: "@ + e.problem@,
{
    proof {
        reveal_strlit("");
    }
    let r = quoted_name_error("invalid config: ", e.problem.as_str(), "");
    assert(r@ =~= "invalid config: "@ + e.problem@);
    r
}

} // verus!
