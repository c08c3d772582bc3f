//! The yamllint-compatible configuration of the YAML rules: which rules
//! run, with which options, and the `default` and `relaxed` presets.

use vstd::prelude::*;
use crate::rule::{OptionValue, RuleConfig, copy_strings, str_eq, strings_view};

verus! {

/// The contents of an [`OptionValue`].
pub enum OptionValueView {
    Null,
    Bool(bool),
    Int(i64),
    Str(Seq<char>),
    List(Seq<Seq<char>>),
    Other,
}

impl View for OptionValue {
    type V = OptionValueView;

    open spec fn view(&self) -> OptionValueView {
        match self {
            OptionValue::Null => OptionValueView::Null,
            OptionValue::Bool(b) => OptionValueView::Bool(*b),
            OptionValue::Int(i) => OptionValueView::Int(*i),
            OptionValue::Str(s) => OptionValueView::Str(s@),
            OptionValue::List(l) => OptionValueView::List(l@.map_values(|s: String| s@)),
            OptionValue::Other => OptionValueView::Other,
        }
    }
}

/// The contents of a [`RuleConfig`].
pub enum RuleConfigView {
    Enabled(bool),
    EnableStr(Seq<char>),
    Detailed(Seq<(Seq<char>, OptionValueView)>),
}

impl View for RuleConfig {
    type V = RuleConfigView;

    open spec fn view(&self) -> RuleConfigView {
        match self {
            RuleConfig::Enabled(b) => RuleConfigView::Enabled(*b),
            RuleConfig::EnableStr(s) => RuleConfigView::EnableStr(s@),
            RuleConfig::Detailed(entries) => RuleConfigView::Detailed(
                entries@.map_values(|e: (String, OptionValue)| (e.0@, e.1@)),
            ),
        }
    }
}

/// Whether a rule configuration turns the rule on.
pub open spec fn view_enabled(c: RuleConfigView) -> bool {
    match c {
        RuleConfigView::Enabled(b) => b,
        RuleConfigView::EnableStr(s) => s != "disable"@,
        RuleConfigView::Detailed(entries) => !detailed_disabled(entries),
    }
}

/// Whether the first `disable` option of a detailed configuration is `true`.
pub open spec fn detailed_disabled(entries: Seq<(Seq<char>, OptionValueView)>) -> bool
    decreases entries.len(),
{
    if entries.len() == 0 {
        false
    } else if entries[0].0 == "disable"@ {
        entries[0].1 == OptionValueView::Bool(true)
    } else {
        detailed_disabled(entries.drop_first())
    }
}

/// The rule configurations by rule name; a later entry for a name takes
/// the place of an earlier one.
pub open spec fn rules_map(entries: Seq<(String, RuleConfig)>) -> Map<Seq<char>, RuleConfigView>
    decreases entries.len(),
{
    if entries.len() == 0 {
        Map::empty()
    } else {
        rules_map(entries.drop_last()).insert(entries.last().0@, entries.last().1@)
    }
}

/// No rule name occurs twice.
pub open spec fn unique_names(entries: Seq<(String, RuleConfig)>) -> bool {
    forall|i: int, j: int| 0 <= i < j < entries.len() ==> entries[i].0@ != entries[j].0@
}

/// Yamllint configuration file
pub struct YamllintConfig {
    /// Extends another configuration (e.g., "default", "relaxed")
    pub extends: Option<String>,
    /// YAML-specific options
    pub yaml_files: Option<Vec<String>>,
    /// Files to ignore
    pub ignore: Option<Vec<String>>,
    /// Rule configurations
    pub rules: Vec<(String, RuleConfig)>,
}

impl YamllintConfig {
    /// The rule configurations, by name.
    pub open spec fn rule_map(&self) -> Map<Seq<char>, RuleConfigView> {
        rules_map(self.rules@)
    }

    pub open spec fn wf(&self) -> bool {
        unique_names(self.rules@)
    }
}

/// The default preset: which rules are on, and the line length it allows.
pub open spec fn default_map() -> Map<Seq<char>, RuleConfigView> {
    Map::empty().insert("braces"@, RuleConfigView::Enabled(true)).insert(
        "brackets"@,
        RuleConfigView::Enabled(true),
    ).insert("colons"@, RuleConfigView::Enabled(true)).insert(
        "commas"@,
        RuleConfigView::Enabled(true),
    ).insert("comments"@, RuleConfigView::Enabled(true)).insert(
        "comments-indentation"@,
        RuleConfigView::Enabled(true),
    ).insert("document-end"@, RuleConfigView::Enabled(false)).insert(
        "document-start"@,
        RuleConfigView::Enabled(false),
    ).insert("empty-lines"@, RuleConfigView::Enabled(true)).insert(
        "empty-values"@,
        RuleConfigView::Enabled(false),
    ).insert("hyphens"@, RuleConfigView::Enabled(true)).insert(
        "indentation"@,
        RuleConfigView::Enabled(true),
    ).insert("key-duplicates"@, RuleConfigView::Enabled(true)).insert(
        "key-ordering"@,
        RuleConfigView::Enabled(false),
    ).insert("line-length"@, ints(seq![("max"@, 80i64)])).insert(
        "new-line-at-end-of-file"@,
        RuleConfigView::Enabled(true),
    ).insert("new-lines"@, RuleConfigView::Enabled(true)).insert(
        "trailing-spaces"@,
        RuleConfigView::Enabled(true),
    ).insert("truthy"@, RuleConfigView::Enabled(true))
}

/// A detailed configuration with integer options.
pub open spec fn ints(entries: Seq<(Seq<char>, i64)>) -> RuleConfigView {
    RuleConfigView::Detailed(
        entries.map_values(|e: (Seq<char>, i64)| (e.0, OptionValueView::Int(e.1))),
    )
}

/// The relaxed preset: the default one with laxer rules.
pub open spec fn relaxed_map() -> Map<Seq<char>, RuleConfigView> {
    default_map().insert(
        "braces"@,
        ints(seq![("min-spaces-inside"@, 0i64), ("max-spaces-inside"@, 1i64)]),
    ).insert("brackets"@, ints(seq![("min-spaces-inside"@, 0i64), ("max-spaces-inside"@, 1i64)])).insert(
        "colons"@,
        ints(seq![("max-spaces-after"@, -1i64)]),
    ).insert("commas"@, ints(seq![("max-spaces-after"@, -1i64)])).insert(
        "comments"@,
        RuleConfigView::Enabled(false),
    ).insert("comments-indentation"@, RuleConfigView::Enabled(false)).insert(
        "empty-lines"@,
        ints(seq![("max"@, 3i64)]),
    ).insert("hyphens"@, RuleConfigView::Enabled(false)).insert(
        "indentation"@,
        RuleConfigView::Enabled(false),
    ).insert(
        "line-length"@,
        RuleConfigView::Detailed(
            seq![
                ("max"@, OptionValueView::Int(120)),
                ("allow-non-breakable-inline-mappings"@, OptionValueView::Bool(true)),
            ],
        ),
    ).insert("truthy"@, RuleConfigView::Enabled(false))
}

proof fn lemma_rules_map_push(entries: Seq<(String, RuleConfig)>, e: (String, RuleConfig))
    ensures
        rules_map(entries.push(e)) == rules_map(entries).insert(e.0@, e.1@),
{
    assert(entries.push(e).drop_last() =~= entries);
}

proof fn lemma_rules_map_update(entries: Seq<(String, RuleConfig)>, i: int, e: (String, RuleConfig))
    requires
        0 <= i < entries.len(),
        unique_names(entries),
        e.0@ == entries[i].0@,
    ensures
        rules_map(entries.update(i, e)) == rules_map(entries).insert(e.0@, e.1@),
        unique_names(entries.update(i, e)),
    decreases entries.len(),
{
    let upd = entries.update(i, e);
    if i == entries.len() - 1 {
        assert(upd.drop_last() =~= entries.drop_last());
        assert(upd.last() == e);
        assert(rules_map(upd) =~= rules_map(entries).insert(e.0@, e.1@));
    } else {
        assert(entries.drop_last()[i] == entries[i]);
        assert forall|a: int, b: int| 0 <= a < b < entries.drop_last().len() implies entries.drop_last()[a].0@ != entries.drop_last()[b].0@ by {
            assert(entries.drop_last()[a] == entries[a]);
            assert(entries.drop_last()[b] == entries[b]);
        }
        lemma_rules_map_update(entries.drop_last(), i, e);
        assert(upd.drop_last() =~= entries.drop_last().update(i, e));
        assert(upd.last() == entries.last());
        assert(entries.last().0@ != e.0@) by {
            assert(entries[entries.len() - 1].0@ != entries[i].0@);
        }
        assert(rules_map(upd) =~= rules_map(entries).insert(e.0@, e.1@));
    }
    assert forall|a: int, b: int| 0 <= a < b < upd.len() implies upd[a].0@ != upd[b].0@ by {
        if a == i {
            assert(upd[b] == entries[b]);
        } else if b == i {
            assert(upd[a] == entries[a]);
        } else {
            assert(upd[a] == entries[a]);
            assert(upd[b] == entries[b]);
        }
    }
}

/// Set the configuration of `key`: replace its entry, or add one.
fn config_insert(rules: &mut Vec<(String, RuleConfig)>, key: &str, value: RuleConfig)
    requires
        unique_names(old(rules)@),
    ensures
        unique_names(final(rules)@),
        rules_map(final(rules)@) == rules_map(old(rules)@).insert(key@, value@),
{
    let mut i: usize = 0;
    while i < rules.len()
        invariant
            i <= rules@.len(),
            rules@ == old(rules)@,
            unique_names(rules@),
            forall|j: int| 0 <= j < i ==> rules@[j].0@ != key@,
        decreases rules@.len() - i,
    {
        if str_eq(rules[i].0.as_str(), key) {
            let name = rules[i].0.clone();
            let pair = (name, value);
            let ghost gp = pair;
            let ghost before = rules@;
            proof {
                lemma_rules_map_update(before, i as int, gp);
            }
            rules.set(i, pair);
            return;
        }
        i = i + 1;
    }
    let ghost before = rules@;
    let name = key.to_owned();
    let pair = (name, value);
    let ghost gp = pair;
    rules.push(pair);
    proof {
        lemma_rules_map_push(before, gp);
        assert forall|a: int, b: int| 0 <= a < b < rules@.len() implies rules@[a].0@ != rules@[b].0@ by {
            if b == rules@.len() - 1 {
                assert(rules@[a] == before[a]);
                assert(rules@[b] == gp);
            } else {
                assert(rules@[a] == before[a]);
                assert(rules@[b] == before[b]);
            }
        }
    }
}

fn enabled(rules: &mut Vec<(String, RuleConfig)>, key: &str, on: bool)
    requires
        unique_names(old(rules)@),
    ensures
        unique_names(final(rules)@),
        rules_map(final(rules)@) == rules_map(old(rules)@).insert(key@, RuleConfigView::Enabled(on)),
{
    config_insert(rules, key, RuleConfig::Enabled(on));
}

fn int_options(a: &str, av: i64, b: Option<(&str, i64)>) -> (r: RuleConfig)
    ensures
        r@ == match b {
            Some((bn, bv)) => ints(seq![(a@, av), (bn@, bv)]),
            None => ints(seq![(a@, av)]),
        },
{
    let mut v: Vec<(String, OptionValue)> = Vec::new();
    v.push((a.to_owned(), OptionValue::Int(av)));
    match b {
        Some((bn, bv)) => {
            v.push((bn.to_owned(), OptionValue::Int(bv)));
            let r = RuleConfig::Detailed(v);
            assert(r@ =~= ints(seq![(a@, av), (bn@, bv)])) by {
                assert(v@.map_values(|e: (String, OptionValue)| (e.0@, e.1@)) =~= seq![(a@, av), (bn@, bv)].map_values(|e: (Seq<char>, i64)| (e.0, OptionValueView::Int(e.1))));
            }
            r
        },
        None => {
            let r = RuleConfig::Detailed(v);
            assert(r@ =~= ints(seq![(a@, av)])) by {
                assert(v@.map_values(|e: (String, OptionValue)| (e.0@, e.1@)) =~= seq![(a@, av)].map_values(|e: (Seq<char>, i64)| (e.0, OptionValueView::Int(e.1))));
            }
            r
        },
    }
}

impl YamllintConfig {
    /// Get the default configuration
    pub fn default_config() -> (r: Self)
        ensures
            r.wf(),
            r.rule_map() == default_map(),
            r.extends is None,
            r.yaml_files is None,
            r.ignore is None,
    {
        let mut rules: Vec<(String, RuleConfig)> = Vec::new();
        enabled(&mut rules, "braces", true);
        enabled(&mut rules, "brackets", true);
        enabled(&mut rules, "colons", true);
        enabled(&mut rules, "commas", true);
        enabled(&mut rules, "comments", true);
        enabled(&mut rules, "comments-indentation", true);
        enabled(&mut rules, "document-end", false);
        enabled(&mut rules, "document-start", false);
        enabled(&mut rules, "empty-lines", true);
        enabled(&mut rules, "empty-values", false);
        enabled(&mut rules, "hyphens", true);
        enabled(&mut rules, "indentation", true);
        enabled(&mut rules, "key-duplicates", true);
        enabled(&mut rules, "key-ordering", false);
        config_insert(&mut rules, "line-length", int_options("max", 80, None));
        enabled(&mut rules, "new-line-at-end-of-file", true);
        enabled(&mut rules, "new-lines", true);
        enabled(&mut rules, "trailing-spaces", true);
        enabled(&mut rules, "truthy", true);
        YamllintConfig { extends: None, yaml_files: None, ignore: None, rules }
    }

    /// Get the relaxed configuration
    pub fn relaxed_config() -> (r: Self)
        ensures
            r.wf(),
            r.rule_map() == relaxed_map(),
            r.extends is None,
            r.yaml_files is None,
            r.ignore is None,
    {
        let mut config = Self::default_config();
        let mut rules = config.rules;
        config_insert(&mut rules, "braces", int_options("min-spaces-inside", 0, Some(("max-spaces-inside", 1))));
        config_insert(&mut rules, "brackets", int_options("min-spaces-inside", 0, Some(("max-spaces-inside", 1))));
        config_insert(&mut rules, "colons", int_options("max-spaces-after", -1, None));
        config_insert(&mut rules, "commas", int_options("max-spaces-after", -1, None));
        enabled(&mut rules, "comments", false);
        enabled(&mut rules, "comments-indentation", false);
        config_insert(&mut rules, "empty-lines", int_options("max", 3, None));
        enabled(&mut rules, "hyphens", false);
        enabled(&mut rules, "indentation", false);
        let mut ll: Vec<(String, OptionValue)> = Vec::new();
        ll.push(("max".to_owned(), OptionValue::Int(120)));
        ll.push(("allow-non-breakable-inline-mappings".to_owned(), OptionValue::Bool(true)));
        let llc = RuleConfig::Detailed(ll);
        assert(llc@ =~= RuleConfigView::Detailed(
            seq![
                ("max"@, OptionValueView::Int(120)),
                ("allow-non-breakable-inline-mappings"@, OptionValueView::Bool(true)),
            ],
        )) by {
            assert(ll@.map_values(|e: (String, OptionValue)| (e.0@, e.1@)) =~= seq![
                ("max"@, OptionValueView::Int(120)),
                ("allow-non-breakable-inline-mappings"@, OptionValueView::Bool(true)),
            ]);
        }
        config_insert(&mut rules, "line-length", llc);
        enabled(&mut rules, "truthy", false);
        config.rules = rules;
        config
    }
}

proof fn lemma_rules_map_dom(entries: Seq<(String, RuleConfig)>, k: Seq<char>)
    ensures
        rules_map(entries).dom().contains(k) <==> exists|i: int| 0 <= i < entries.len() && #[trigger] entries[i].0@ == k,
    decreases entries.len(),
{
    if entries.len() > 0 {
        let init = entries.drop_last();
        lemma_rules_map_dom(init, k);
        if exists|i: int| 0 <= i < init.len() && #[trigger] init[i].0@ == k {
            let i = choose|i: int| 0 <= i < init.len() && #[trigger] init[i].0@ == k;
            assert(entries[i].0@ == k);
        }
        if exists|i: int| 0 <= i < entries.len() && #[trigger] entries[i].0@ == k {
            let i = choose|i: int| 0 <= i < entries.len() && #[trigger] entries[i].0@ == k;
            if i < entries.len() - 1 {
                assert(init[i].0@ == k);
            }
        }
    }
}

/// The entry of `key`, if any.
fn find_entry(rules: &Vec<(String, RuleConfig)>, key: &str) -> (r: Option<usize>)
    ensures
        match r {
            Some(i) => i < rules@.len() && rules@[i as int].0@ == key@,
            None => forall|j: int| 0 <= j < rules@.len() ==> rules@[j].0@ != key@,
        },
{
    let mut i: usize = 0;
    while i < rules.len()
        invariant
            i <= rules@.len(),
            forall|j: int| 0 <= j < i ==> rules@[j].0@ != key@,
        decreases rules@.len() - i,
    {
        if str_eq(rules[i].0.as_str(), key) {
            return Some(i);
        }
        i = i + 1;
    }
    None
}

proof fn lemma_rules_map_at(entries: Seq<(String, RuleConfig)>, i: int)
    requires
        0 <= i < entries.len(),
        unique_names(entries),
    ensures
        rules_map(entries).dom().contains(entries[i].0@),
        rules_map(entries)[entries[i].0@] == entries[i].1@,
    decreases entries.len(),
{
    if i < entries.len() - 1 {
        let init = entries.drop_last();
        assert(init[i] == entries[i]);
        assert forall|a: int, b: int| 0 <= a < b < init.len() implies init[a].0@ != init[b].0@ by {
            assert(init[a] == entries[a]);
            assert(init[b] == entries[b]);
        }
        lemma_rules_map_at(init, i);
        assert(entries.last().0@ != entries[i].0@) by {
            assert(entries[entries.len() - 1].0@ != entries[i].0@);
        }
    }
}

proof fn lemma_enabled_view(c: RuleConfig)
    ensures
        c.is_enabled_spec() == view_enabled(c@),
{
    match c {
        RuleConfig::Detailed(entries) => {
            lemma_disabled_view(entries@);
        },
        _ => {},
    }
}

proof fn lemma_disabled_view(entries: Seq<(String, OptionValue)>)
    ensures
        (crate::rule::lookup_spec(entries, "disable"@) matches Some(OptionValue::Bool(true)))
            == detailed_disabled(entries.map_values(|e: (String, OptionValue)| (e.0@, e.1@))),
    decreases entries.len(),
{
    let v = entries.map_values(|e: (String, OptionValue)| (e.0@, e.1@));
    if entries.len() > 0 {
        assert(v.drop_first() =~= entries.drop_first().map_values(|e: (String, OptionValue)| (e.0@, e.1@)));
        lemma_disabled_view(entries.drop_first());
        assert(v[0] == (entries[0].0@, entries[0].1@));
    }
}

/// The named preset that an `extends` value selects (the default one for
/// any other name).
pub open spec fn preset_map(name: Seq<char>) -> Map<Seq<char>, RuleConfigView> {
    if name == "relaxed"@ {
        relaxed_map()
    } else {
        default_map()
    }
}

/// The rules of a configuration once the preset it extends is merged in.
pub open spec fn resolved_rules(c: YamllintConfig) -> Map<Seq<char>, RuleConfigView> {
    match c.extends {
        Some(e) => preset_map(e@).union_prefer_right(c.rule_map()),
        None => c.rule_map(),
    }
}

/// A rule that the configuration sets keeps that setting after resolving,
/// and every rule of the extended preset is configured afterwards.
pub proof fn lemma_resolve_keeps_own_rules(c: YamllintConfig, k: Seq<char>)
    ensures
        c.rule_map().dom().contains(k) ==> resolved_rules(c).dom().contains(k) && resolved_rules(c)[k]
            == c.rule_map()[k],
        (c.extends matches Some(e) && preset_map(e@).dom().contains(k)) ==> resolved_rules(c).dom().contains(k),
        c.extends is None ==> resolved_rules(c) == c.rule_map(),
{
}

impl YamllintConfig {
    /// Merge with a base configuration: the base's rules that this one does
    /// not configure, and its file lists where this one has none.
    pub fn merge_with_base(&mut self, base: YamllintConfig)
        requires
            old(self).wf(),
            base.wf(),
        ensures
            final(self).wf(),
            final(self).rule_map() == base.rule_map().union_prefer_right(old(self).rule_map()),
            final(self).extends == old(self).extends,
            final(self).yaml_files == (if old(self).yaml_files is None {
                base.yaml_files
            } else {
                old(self).yaml_files
            }),
            final(self).ignore == (if old(self).ignore is None {
                base.ignore
            } else {
                old(self).ignore
            }),
    {
        let ghost old_map = self.rule_map();
        let ghost base_entries = base.rules@;
        let YamllintConfig { extends: _, yaml_files: base_files, ignore: base_ignore, rules: base_rules } = base;
        let mut i: usize = 0;
        assert(base_entries.take(0) =~= Seq::<(String, RuleConfig)>::empty());
        assert(rules_map(base_entries.take(0)).union_prefer_right(old_map) =~= old_map);
        while i < base_rules.len()
            invariant
                i <= base_rules@.len(),
                base_rules@ == base_entries,
                unique_names(base_entries),
                unique_names(self.rules@),
                self.extends == old(self).extends,
                self.yaml_files == old(self).yaml_files,
                self.ignore == old(self).ignore,
                old_map == rules_map(old(self).rules@),
                rules_map(self.rules@) == rules_map(base_entries.take(i as int)).union_prefer_right(old_map),
            decreases base_rules@.len() - i,
        {
            let key = base_rules[i].0.as_str();
            let ghost k = key@;
            assert(base_entries.take(i + 1).drop_last() =~= base_entries.take(i as int));
            assert(base_entries.take(i + 1).last() == base_entries[i as int]);
            proof {
                lemma_rules_map_dom(base_entries.take(i as int), k);
                if exists|j: int| 0 <= j < i && #[trigger] base_entries.take(i as int)[j].0@ == k {
                    let j = choose|j: int| 0 <= j < i && #[trigger] base_entries.take(i as int)[j].0@ == k;
                    assert(base_entries[j].0@ == k);
                }
            }
            match find_entry(&self.rules, key) {
                Some(j) => {
                    proof {
                        lemma_rules_map_at(self.rules@, j as int);
                        assert(rules_map(self.rules@).dom().contains(k));
                        assert(!rules_map(base_entries.take(i as int)).dom().contains(k));
                        assert(old_map.dom().contains(k));
                        assert(rules_map(self.rules@) =~= rules_map(base_entries.take(i + 1)).union_prefer_right(old_map));
                    }
                },
                None => {
                    proof {
                        lemma_rules_map_dom(self.rules@, k);
                        assert(!old_map.dom().contains(k));
                    }
                    let value = base_rules[i].1.clone_config();
                    config_insert(&mut self.rules, key, value);
                    proof {
                        assert(rules_map(self.rules@) =~= rules_map(base_entries.take(i + 1)).union_prefer_right(old_map));
                    }
                },
            }
            i = i + 1;
        }
        assert(base_entries.take(base_entries.len() as int) =~= base_entries);
        if self.yaml_files.is_none() {
            self.yaml_files = base_files;
        }
        if self.ignore.is_none() {
            self.ignore = base_ignore;
        }
    }

    /// Resolve extends and return final configuration
    pub fn resolve(self) -> (r: Self)
        requires
            self.wf(),
        ensures
            r.wf(),
            r.extends is None,
            r.rule_map() == resolved_rules(self),
            r.yaml_files == self.yaml_files,
            r.ignore == self.ignore,
    {
        proof {
            reveal_strlit("default");
            reveal_strlit("relaxed");
            assert("default"@[0] != "relaxed"@[0]);
        }
        let mut s = self;
        let base = match &s.extends {
            Some(e) => {
                if str_eq(e.as_str(), "default") {
                    Some(Self::default_config())
                } else if str_eq(e.as_str(), "relaxed") {
                    Some(Self::relaxed_config())
                } else {
                    Some(Self::default_config())
                }
            },
            None => None,
        };
        match base {
            Some(b) => s.merge_with_base(b),
            None => {},
        }
        s.extends = None;
        s
    }

    /// Check if a rule is enabled
    pub fn is_rule_enabled(&self, rule: &str) -> (r: bool)
        requires
            self.wf(),
        ensures
            r == (self.rule_map().dom().contains(rule@) && view_enabled(self.rule_map()[rule@])),
    {
        match find_entry(&self.rules, rule) {
            Some(i) => {
                proof {
                    lemma_rules_map_at(self.rules@, i as int);
                    lemma_enabled_view(self.rules@[i as int].1);
                }
                self.rules[i].1.is_enabled()
            },
            None => {
                proof {
                    lemma_rules_map_dom(self.rules@, rule@);
                }
                false
            },
        }
    }

    /// Get rule configuration
    pub fn rule_config(&self, rule: &str) -> (r: Option<&RuleConfig>)
        requires
            self.wf(),
        ensures
            match r {
                Some(c) => self.rule_map().dom().contains(rule@) && self.rule_map()[rule@] == c@,
                None => !self.rule_map().dom().contains(rule@),
            },
    {
        match find_entry(&self.rules, rule) {
            Some(i) => {
                proof {
                    lemma_rules_map_at(self.rules@, i as int);
                }
                Some(&self.rules[i].1)
            },
            None => {
                proof {
                    lemma_rules_map_dom(self.rules@, rule@);
                }
                None
            },
        }
    }
}

impl OptionValue {
    /// A copy of the value.
    pub fn clone_value(&self) -> (r: Self)
        ensures
            r@ == self@,
    {
        match self {
            OptionValue::Null => OptionValue::Null,
            OptionValue::Bool(b) => OptionValue::Bool(*b),
            OptionValue::Int(i) => OptionValue::Int(*i),
            OptionValue::Str(s) => OptionValue::Str(s.clone()),
            OptionValue::List(l) => {
                let c = copy_strings(l);
                OptionValue::List(c)
            },
            OptionValue::Other => OptionValue::Other,
        }
    }
}

impl RuleConfig {
    /// A copy of the configuration.
    pub fn clone_config(&self) -> (r: Self)
        ensures
            r@ == self@,
    {
        match self {
            RuleConfig::Enabled(b) => RuleConfig::Enabled(*b),
            RuleConfig::EnableStr(s) => RuleConfig::EnableStr(s.clone()),
            RuleConfig::Detailed(entries) => {
                let mut v: Vec<(String, OptionValue)> = Vec::new();
                let mut i: usize = 0;
                while i < entries.len()
                    invariant
                        i <= entries@.len(),
                        v@.map_values(|e: (String, OptionValue)| (e.0@, e.1@)) == entries@.take(
                            i as int,
                        ).map_values(|e: (String, OptionValue)| (e.0@, e.1@)),
                    decreases entries@.len() - i,
                {
                    let ghost before = v@;
                    let e = (entries[i].0.clone(), entries[i].1.clone_value());
                    let ghost ge = e;
                    v.push(e);
                    proof {
                        let ve = (ge.0@, ge.1@);
                        assert(ve == (entries@[i as int].0@, entries@[i as int].1@));
                        assert(v@.map_values(|e: (String, OptionValue)| (e.0@, e.1@)) =~= before.map_values(
                            |e: (String, OptionValue)| (e.0@, e.1@),
                        ).push(ve));
                        assert(entries@.take(i + 1).map_values(|e: (String, OptionValue)| (e.0@, e.1@))
                            =~= entries@.take(i as int).map_values(|e: (String, OptionValue)| (e.0@, e.1@)).push(ve));
                    }
                    i = i + 1;
                }
                assert(entries@.take(entries@.len() as int) =~= entries@);
                RuleConfig::Detailed(v)
            },
        }
    }
}

} // verus!
