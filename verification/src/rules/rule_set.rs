//! The set of YAML rules that runs together: checking with all of them and
//! applying their fixes.

use vstd::prelude::*;
use crate::diagnostic::{Diagnostic, Fix, Location, SpecDiagnostic, SpecFix, append_diags, diags_view};
use crate::rule::{
    Rule, RuleConfig, RuleContext, cfg_of, lemma_context_bounds, line_range_spec, str_eq,
};
use crate::text::{
    char_len, char_len_exec, chars_to_string, lemma_utf8_len_take, lemma_utf8_len_take_ge,
    max_text_len, push_all, push_str, slice_to_vec, split_lines, str_chars, utf8_len,
};
use crate::rules::anchors::Anchors;
use crate::rules::brackets::Brackets;
use crate::rules::commas::Commas;
use crate::rules::comments::Comments;
use crate::rules::comments_indentation::CommentsIndentation;
use crate::rules::document_markers::{DocumentEnd, DocumentStart};
use crate::rules::empty_lines::EmptyLines;
use crate::rules::empty_values::EmptyValues;
use crate::rules::float_values::FloatValues;
use crate::rules::hyphens::Hyphens;
use crate::rules::indentation::Indentation;
use crate::rules::key_duplicates::KeyDuplicates;
use crate::rules::key_ordering::KeyOrdering;
use crate::rules::line_length::LineLength;
use crate::rules::new_line_at_end::NewLineAtEndOfFile;
use crate::rules::new_lines::NewLines;
use crate::rules::octal_values::OctalValues;
use crate::rules::quoted_strings::QuotedStrings;
use crate::rules::trailing_spaces::TrailingSpaces;
use crate::rules::truthy::Truthy;

verus! {

/// Any of the YAML rules.
pub enum AnyRule {
    TrailingSpaces(TrailingSpaces),
    LineLength(LineLength),
    NewLineAtEndOfFile(NewLineAtEndOfFile),
    Indentation(Indentation),
    DocumentStart(DocumentStart),
    DocumentEnd(DocumentEnd),
    EmptyLines(EmptyLines),
    KeyDuplicates(KeyDuplicates),
    Brackets(Brackets),
    Commas(Commas),
    Comments(Comments),
    CommentsIndentation(CommentsIndentation),
    EmptyValues(EmptyValues),
    FloatValues(FloatValues),
    Hyphens(Hyphens),
    KeyOrdering(KeyOrdering),
    NewLines(NewLines),
    OctalValues(OctalValues),
    QuotedStrings(QuotedStrings),
    Truthy(Truthy),
    Anchors(Anchors),
}

impl Rule for AnyRule {
    open spec fn spec_name(&self) -> Seq<char> {
        match self {
            AnyRule::TrailingSpaces(r) => r.spec_name(),
            AnyRule::LineLength(r) => r.spec_name(),
            AnyRule::NewLineAtEndOfFile(r) => r.spec_name(),
            AnyRule::Indentation(r) => r.spec_name(),
            AnyRule::DocumentStart(r) => r.spec_name(),
            AnyRule::DocumentEnd(r) => r.spec_name(),
            AnyRule::EmptyLines(r) => r.spec_name(),
            AnyRule::KeyDuplicates(r) => r.spec_name(),
            AnyRule::Brackets(r) => r.spec_name(),
            AnyRule::Commas(r) => r.spec_name(),
            AnyRule::Comments(r) => r.spec_name(),
            AnyRule::CommentsIndentation(r) => r.spec_name(),
            AnyRule::EmptyValues(r) => r.spec_name(),
            AnyRule::FloatValues(r) => r.spec_name(),
            AnyRule::Hyphens(r) => r.spec_name(),
            AnyRule::KeyOrdering(r) => r.spec_name(),
            AnyRule::NewLines(r) => r.spec_name(),
            AnyRule::OctalValues(r) => r.spec_name(),
            AnyRule::QuotedStrings(r) => r.spec_name(),
            AnyRule::Truthy(r) => r.spec_name(),
            AnyRule::Anchors(r) => r.spec_name(),
        }
    }

    open spec fn spec_check(&self, content: Seq<char>, config: Option<RuleConfig>) -> Seq<SpecDiagnostic> {
        match self {
            AnyRule::TrailingSpaces(r) => r.spec_check(content, config),
            AnyRule::LineLength(r) => r.spec_check(content, config),
            AnyRule::NewLineAtEndOfFile(r) => r.spec_check(content, config),
            AnyRule::Indentation(r) => r.spec_check(content, config),
            AnyRule::DocumentStart(r) => r.spec_check(content, config),
            AnyRule::DocumentEnd(r) => r.spec_check(content, config),
            AnyRule::EmptyLines(r) => r.spec_check(content, config),
            AnyRule::KeyDuplicates(r) => r.spec_check(content, config),
            AnyRule::Brackets(r) => r.spec_check(content, config),
            AnyRule::Commas(r) => r.spec_check(content, config),
            AnyRule::Comments(r) => r.spec_check(content, config),
            AnyRule::CommentsIndentation(r) => r.spec_check(content, config),
            AnyRule::EmptyValues(r) => r.spec_check(content, config),
            AnyRule::FloatValues(r) => r.spec_check(content, config),
            AnyRule::Hyphens(r) => r.spec_check(content, config),
            AnyRule::KeyOrdering(r) => r.spec_check(content, config),
            AnyRule::NewLines(r) => r.spec_check(content, config),
            AnyRule::OctalValues(r) => r.spec_check(content, config),
            AnyRule::QuotedStrings(r) => r.spec_check(content, config),
            AnyRule::Truthy(r) => r.spec_check(content, config),
            AnyRule::Anchors(r) => r.spec_check(content, config),
        }
    }

    open spec fn spec_result(&self, content: Seq<char>, config: Option<RuleConfig>, out: Seq<SpecDiagnostic>) -> bool {
        match self {
            AnyRule::TrailingSpaces(r) => r.spec_result(content, config, out),
            AnyRule::LineLength(r) => r.spec_result(content, config, out),
            AnyRule::NewLineAtEndOfFile(r) => r.spec_result(content, config, out),
            AnyRule::Indentation(r) => r.spec_result(content, config, out),
            AnyRule::DocumentStart(r) => r.spec_result(content, config, out),
            AnyRule::DocumentEnd(r) => r.spec_result(content, config, out),
            AnyRule::EmptyLines(r) => r.spec_result(content, config, out),
            AnyRule::KeyDuplicates(r) => r.spec_result(content, config, out),
            AnyRule::Brackets(r) => r.spec_result(content, config, out),
            AnyRule::Commas(r) => r.spec_result(content, config, out),
            AnyRule::Comments(r) => r.spec_result(content, config, out),
            AnyRule::CommentsIndentation(r) => r.spec_result(content, config, out),
            AnyRule::EmptyValues(r) => r.spec_result(content, config, out),
            AnyRule::FloatValues(r) => r.spec_result(content, config, out),
            AnyRule::Hyphens(r) => r.spec_result(content, config, out),
            AnyRule::KeyOrdering(r) => r.spec_result(content, config, out),
            AnyRule::NewLines(r) => r.spec_result(content, config, out),
            AnyRule::OctalValues(r) => r.spec_result(content, config, out),
            AnyRule::QuotedStrings(r) => r.spec_result(content, config, out),
            AnyRule::Truthy(r) => r.spec_result(content, config, out),
            AnyRule::Anchors(r) => r.spec_result(content, config, out),
        }
    }

    open spec fn spec_fixable(&self) -> bool {
        match self {
            AnyRule::TrailingSpaces(r) => r.spec_fixable(),
            AnyRule::LineLength(r) => r.spec_fixable(),
            AnyRule::NewLineAtEndOfFile(r) => r.spec_fixable(),
            AnyRule::Indentation(r) => r.spec_fixable(),
            AnyRule::DocumentStart(r) => r.spec_fixable(),
            AnyRule::DocumentEnd(r) => r.spec_fixable(),
            AnyRule::EmptyLines(r) => r.spec_fixable(),
            AnyRule::KeyDuplicates(r) => r.spec_fixable(),
            AnyRule::Brackets(r) => r.spec_fixable(),
            AnyRule::Commas(r) => r.spec_fixable(),
            AnyRule::Comments(r) => r.spec_fixable(),
            AnyRule::CommentsIndentation(r) => r.spec_fixable(),
            AnyRule::EmptyValues(r) => r.spec_fixable(),
            AnyRule::FloatValues(r) => r.spec_fixable(),
            AnyRule::Hyphens(r) => r.spec_fixable(),
            AnyRule::KeyOrdering(r) => r.spec_fixable(),
            AnyRule::NewLines(r) => r.spec_fixable(),
            AnyRule::OctalValues(r) => r.spec_fixable(),
            AnyRule::QuotedStrings(r) => r.spec_fixable(),
            AnyRule::Truthy(r) => r.spec_fixable(),
            AnyRule::Anchors(r) => r.spec_fixable(),
        }
    }

    open spec fn spec_accepts(&self, content: Seq<char>, config: Option<RuleConfig>) -> bool {
        match self {
            AnyRule::TrailingSpaces(r) => r.spec_accepts(content, config),
            AnyRule::LineLength(r) => r.spec_accepts(content, config),
            AnyRule::NewLineAtEndOfFile(r) => r.spec_accepts(content, config),
            AnyRule::Indentation(r) => r.spec_accepts(content, config),
            AnyRule::DocumentStart(r) => r.spec_accepts(content, config),
            AnyRule::DocumentEnd(r) => r.spec_accepts(content, config),
            AnyRule::EmptyLines(r) => r.spec_accepts(content, config),
            AnyRule::KeyDuplicates(r) => r.spec_accepts(content, config),
            AnyRule::Brackets(r) => r.spec_accepts(content, config),
            AnyRule::Commas(r) => r.spec_accepts(content, config),
            AnyRule::Comments(r) => r.spec_accepts(content, config),
            AnyRule::CommentsIndentation(r) => r.spec_accepts(content, config),
            AnyRule::EmptyValues(r) => r.spec_accepts(content, config),
            AnyRule::FloatValues(r) => r.spec_accepts(content, config),
            AnyRule::Hyphens(r) => r.spec_accepts(content, config),
            AnyRule::KeyOrdering(r) => r.spec_accepts(content, config),
            AnyRule::NewLines(r) => r.spec_accepts(content, config),
            AnyRule::OctalValues(r) => r.spec_accepts(content, config),
            AnyRule::QuotedStrings(r) => r.spec_accepts(content, config),
            AnyRule::Truthy(r) => r.spec_accepts(content, config),
            AnyRule::Anchors(r) => r.spec_accepts(content, config),
        }
    }

    fn name(&self) -> (r: &'static str) {
        match self {
            AnyRule::TrailingSpaces(r) => r.name(),
            AnyRule::LineLength(r) => r.name(),
            AnyRule::NewLineAtEndOfFile(r) => r.name(),
            AnyRule::Indentation(r) => r.name(),
            AnyRule::DocumentStart(r) => r.name(),
            AnyRule::DocumentEnd(r) => r.name(),
            AnyRule::EmptyLines(r) => r.name(),
            AnyRule::KeyDuplicates(r) => r.name(),
            AnyRule::Brackets(r) => r.name(),
            AnyRule::Commas(r) => r.name(),
            AnyRule::Comments(r) => r.name(),
            AnyRule::CommentsIndentation(r) => r.name(),
            AnyRule::EmptyValues(r) => r.name(),
            AnyRule::FloatValues(r) => r.name(),
            AnyRule::Hyphens(r) => r.name(),
            AnyRule::KeyOrdering(r) => r.name(),
            AnyRule::NewLines(r) => r.name(),
            AnyRule::OctalValues(r) => r.name(),
            AnyRule::QuotedStrings(r) => r.name(),
            AnyRule::Truthy(r) => r.name(),
            AnyRule::Anchors(r) => r.name(),
        }
    }

    open spec fn spec_description(&self) -> Seq<char> {
        match self {
            AnyRule::TrailingSpaces(r) => r.spec_description(),
            AnyRule::LineLength(r) => r.spec_description(),
            AnyRule::NewLineAtEndOfFile(r) => r.spec_description(),
            AnyRule::Indentation(r) => r.spec_description(),
            AnyRule::DocumentStart(r) => r.spec_description(),
            AnyRule::DocumentEnd(r) => r.spec_description(),
            AnyRule::EmptyLines(r) => r.spec_description(),
            AnyRule::KeyDuplicates(r) => r.spec_description(),
            AnyRule::Brackets(r) => r.spec_description(),
            AnyRule::Commas(r) => r.spec_description(),
            AnyRule::Comments(r) => r.spec_description(),
            AnyRule::CommentsIndentation(r) => r.spec_description(),
            AnyRule::EmptyValues(r) => r.spec_description(),
            AnyRule::FloatValues(r) => r.spec_description(),
            AnyRule::Hyphens(r) => r.spec_description(),
            AnyRule::KeyOrdering(r) => r.spec_description(),
            AnyRule::NewLines(r) => r.spec_description(),
            AnyRule::OctalValues(r) => r.spec_description(),
            AnyRule::QuotedStrings(r) => r.spec_description(),
            AnyRule::Truthy(r) => r.spec_description(),
            AnyRule::Anchors(r) => r.spec_description(),
        }
    }

    fn description(&self) -> &'static str {
        match self {
            AnyRule::TrailingSpaces(r) => r.description(),
            AnyRule::LineLength(r) => r.description(),
            AnyRule::NewLineAtEndOfFile(r) => r.description(),
            AnyRule::Indentation(r) => r.description(),
            AnyRule::DocumentStart(r) => r.description(),
            AnyRule::DocumentEnd(r) => r.description(),
            AnyRule::EmptyLines(r) => r.description(),
            AnyRule::KeyDuplicates(r) => r.description(),
            AnyRule::Brackets(r) => r.description(),
            AnyRule::Commas(r) => r.description(),
            AnyRule::Comments(r) => r.description(),
            AnyRule::CommentsIndentation(r) => r.description(),
            AnyRule::EmptyValues(r) => r.description(),
            AnyRule::FloatValues(r) => r.description(),
            AnyRule::Hyphens(r) => r.description(),
            AnyRule::KeyOrdering(r) => r.description(),
            AnyRule::NewLines(r) => r.description(),
            AnyRule::OctalValues(r) => r.description(),
            AnyRule::QuotedStrings(r) => r.description(),
            AnyRule::Truthy(r) => r.description(),
            AnyRule::Anchors(r) => r.description(),
        }
    }

    fn check(&self, ctx: &RuleContext, config: Option<&RuleConfig>) -> (out: Vec<Diagnostic>) {
        match self {
            AnyRule::TrailingSpaces(r) => r.check(ctx, config),
            AnyRule::LineLength(r) => r.check(ctx, config),
            AnyRule::NewLineAtEndOfFile(r) => r.check(ctx, config),
            AnyRule::Indentation(r) => r.check(ctx, config),
            AnyRule::DocumentStart(r) => r.check(ctx, config),
            AnyRule::DocumentEnd(r) => r.check(ctx, config),
            AnyRule::EmptyLines(r) => r.check(ctx, config),
            AnyRule::KeyDuplicates(r) => r.check(ctx, config),
            AnyRule::Brackets(r) => r.check(ctx, config),
            AnyRule::Commas(r) => r.check(ctx, config),
            AnyRule::Comments(r) => r.check(ctx, config),
            AnyRule::CommentsIndentation(r) => r.check(ctx, config),
            AnyRule::EmptyValues(r) => r.check(ctx, config),
            AnyRule::FloatValues(r) => r.check(ctx, config),
            AnyRule::Hyphens(r) => r.check(ctx, config),
            AnyRule::KeyOrdering(r) => r.check(ctx, config),
            AnyRule::NewLines(r) => r.check(ctx, config),
            AnyRule::OctalValues(r) => r.check(ctx, config),
            AnyRule::QuotedStrings(r) => r.check(ctx, config),
            AnyRule::Truthy(r) => r.check(ctx, config),
            AnyRule::Anchors(r) => r.check(ctx, config),
        }
    }

    fn is_fixable(&self) -> (b: bool) {
        match self {
            AnyRule::TrailingSpaces(r) => r.is_fixable(),
            AnyRule::LineLength(r) => r.is_fixable(),
            AnyRule::NewLineAtEndOfFile(r) => r.is_fixable(),
            AnyRule::Indentation(r) => r.is_fixable(),
            AnyRule::DocumentStart(r) => r.is_fixable(),
            AnyRule::DocumentEnd(r) => r.is_fixable(),
            AnyRule::EmptyLines(r) => r.is_fixable(),
            AnyRule::KeyDuplicates(r) => r.is_fixable(),
            AnyRule::Brackets(r) => r.is_fixable(),
            AnyRule::Commas(r) => r.is_fixable(),
            AnyRule::Comments(r) => r.is_fixable(),
            AnyRule::CommentsIndentation(r) => r.is_fixable(),
            AnyRule::EmptyValues(r) => r.is_fixable(),
            AnyRule::FloatValues(r) => r.is_fixable(),
            AnyRule::Hyphens(r) => r.is_fixable(),
            AnyRule::KeyOrdering(r) => r.is_fixable(),
            AnyRule::NewLines(r) => r.is_fixable(),
            AnyRule::OctalValues(r) => r.is_fixable(),
            AnyRule::QuotedStrings(r) => r.is_fixable(),
            AnyRule::Truthy(r) => r.is_fixable(),
            AnyRule::Anchors(r) => r.is_fixable(),
        }
    }
}

/// The rule configurations of one language, by rule name.
pub struct LanguageConfig {
    pub rules: Vec<(String, RuleConfig)>,
}

/// The configuration of the first entry named `name`.
pub open spec fn rule_config_spec(entries: Seq<(String, RuleConfig)>, name: Seq<char>) -> Option<RuleConfig>
    decreases entries.len(),
{
    if entries.len() == 0 {
        None
    } else if entries[0].0@ == name {
        Some(entries[0].1)
    } else {
        rule_config_spec(entries.drop_first(), name)
    }
}

/// The configuration that `config` gives the rule `name`.
pub open spec fn lang_rule_config(config: Option<LanguageConfig>, name: Seq<char>) -> Option<RuleConfig> {
    match config {
        Some(c) => rule_config_spec(c.rules@, name),
        None => None,
    }
}

pub open spec fn lang_of(config: Option<&LanguageConfig>) -> Option<LanguageConfig> {
    match config {
        Some(c) => Some(*c),
        None => None,
    }
}

/// A rule runs unless its configuration turns it off.
pub open spec fn rule_on(cfg: Option<RuleConfig>) -> bool {
    match cfg {
        Some(c) => c.is_enabled_spec(),
        None => true,
    }
}

/// Whether `out` is a possible report of the rules on `content`: the reports
/// of the rules that are on, one after the other, in the order of the rules.
pub open spec fn rules_result(
    rules: Seq<AnyRule>,
    content: Seq<char>,
    config: Option<LanguageConfig>,
    out: Seq<SpecDiagnostic>,
) -> bool
    decreases rules.len(),
{
    if rules.len() == 0 {
        out.len() == 0
    } else {
        let r = rules.last();
        let cfg = lang_rule_config(config, r.spec_name());
        if rule_on(cfg) {
            exists|k: int|
                0 <= k <= out.len() && rules_result(rules.drop_last(), content, config, #[trigger] out.take(k))
                    && r.spec_result(content, cfg, out.skip(k))
        } else {
            rules_result(rules.drop_last(), content, config, out)
        }
    }
}

proof fn lemma_rules_result_push(
    rules: Seq<AnyRule>,
    content: Seq<char>,
    config: Option<LanguageConfig>,
    prev: Seq<SpecDiagnostic>,
    d: Seq<SpecDiagnostic>,
)
    requires
        rules.len() > 0,
        rule_on(lang_rule_config(config, rules.last().spec_name())),
        rules_result(rules.drop_last(), content, config, prev),
        rules.last().spec_result(content, lang_rule_config(config, rules.last().spec_name()), d),
    ensures
        rules_result(rules, content, config, prev + d),
{
    let all = prev + d;
    let k = prev.len() as int;
    assert(all.take(k) =~= prev);
    assert(all.skip(k) =~= d);
    assert(rules_result(rules.drop_last(), content, config, all.take(k)));
}

impl AnyRule {
    /// Whether the rule can check `ctx` with `config`; where it cannot, it
    /// would cut the content inside a character.
    pub fn accepts(&self, ctx: &RuleContext, config: Option<&RuleConfig>) -> (r: bool)
        requires
            ctx.wf(),
        ensures
            r == self.spec_accepts(ctx.content@, cfg_of(config)),
    {
        match self {
            AnyRule::LineLength(r) => r.accepts(ctx, config),
            AnyRule::QuotedStrings(r) => r.accepts(ctx, config),
            AnyRule::Anchors(r) => r.accepts(ctx, config),
            _ => true,
        }
    }
}

/// Every rule that is on accepts `content`.
pub open spec fn rules_accept(rules: Seq<AnyRule>, content: Seq<char>, config: Option<LanguageConfig>) -> bool {
    forall|i: int|
        0 <= i < rules.len() && rule_on(lang_rule_config(config, rules[i].spec_name()))
            ==> #[trigger] rules[i].spec_accepts(content, lang_rule_config(config, rules[i].spec_name()))
}

pub fn rule_config_of<'a>(config: Option<&'a LanguageConfig>, name: &str) -> (r: Option<&'a RuleConfig>)
    ensures
        match r {
            Some(c) => lang_rule_config(lang_of(config), name@) == Some(*c),
            None => lang_rule_config(lang_of(config), name@) is None,
        },
{
    match config {
        None => None,
        Some(c) => {
            let entries = &c.rules;
            let mut i: usize = 0;
            assert(entries@.skip(0) =~= entries@);
            while i < entries.len()
                invariant
                    i <= entries@.len(),
                    lang_rule_config(lang_of(config), name@) == rule_config_spec(entries@, name@),
                    rule_config_spec(entries@.skip(i as int), name@) == rule_config_spec(entries@, name@),
                decreases entries@.len() - i,
            {
                assert(entries@.skip(i as int)[0] == entries@[i as int]);
                assert(entries@.skip(i as int).drop_first() =~= entries@.skip(i + 1));
                if str_eq(entries[i].0.as_str(), name) {
                    assert(rule_config_spec(entries@.skip(i as int), name@) == Some(entries@[i as int].1));
                    return Some(&entries[i].1);
                }
                i = i + 1;
            }
            None
        },
    }
}

/// Why applying a fix failed.
#[derive(Debug, Clone, Copy, PartialEq, Eq, Structural)]
pub enum FixError {
    /// The fix starts on a line that the content does not have.
    InvalidFixStart,
    /// The fix ends on a line that the content does not have.
    InvalidFixEnd,
    /// The content is too long, or a rule or a fix would cut it inside a
    /// character.
    Unprocessable,
}

impl FixError {
    pub open spec fn message_spec(self) -> Seq<char> {
        match self {
            FixError::InvalidFixStart => "Invalid fix start location"@,
            FixError::InvalidFixEnd => "Invalid fix end location"@,
            FixError::Unprocessable => "Content cannot be processed"@,
        }
    }

    pub fn message(&self) -> (r: &'static str)
        ensures
            r@ == self.message_spec(),
    {
        match self {
            FixError::InvalidFixStart => "Invalid fix start location",
            FixError::InvalidFixEnd => "Invalid fix end location",
            FixError::Unprocessable => "Content cannot be processed",
        }
    }
}

/// The fix of the first diagnostic that has one.
pub open spec fn first_fix(ds: Seq<SpecDiagnostic>) -> Option<SpecFix>
    decreases ds.len(),
{
    if ds.len() == 0 {
        None
    } else if ds[0].fix is Some {
        ds[0].fix
    } else {
        first_fix(ds.drop_first())
    }
}

/// The character index of `s` at which `b` bytes of UTF-8 end, scanning
/// from index `i` where `acc` bytes end; none when `b` falls inside a
/// character or past the end.
pub open spec fn char_index_from(s: Seq<char>, i: int, acc: int, b: int) -> Option<int>
    decreases s.len() - i,
{
    if acc == b {
        Some(i)
    } else if acc > b || i < 0 || i >= s.len() {
        None
    } else {
        char_index_from(s, i + 1, acc + char_len(s[i]), b)
    }
}

proof fn lemma_char_index_range(s: Seq<char>, i: int, acc: int, b: int)
    requires
        0 <= i <= s.len(),
    ensures
        char_index_from(s, i, acc, b) matches Some(j) ==> i <= j <= s.len(),
    decreases s.len() - i,
{
    if acc != b && acc <= b && i < s.len() {
        lemma_char_index_range(s, i + 1, acc + char_len(s[i]), b);
    }
}

/// The character index at byte offset `b` of `s`, if `b` is a character
/// boundary.
pub open spec fn char_index_of(s: Seq<char>, b: int) -> Option<int> {
    char_index_from(s, 0, 0, b)
}

/// The byte offset of a location in `content`, if its line exists.
pub open spec fn fix_offset(content: Seq<char>, loc: Location) -> Option<int> {
    match line_range_spec(content, loc.line as int) {
        Some((start, _)) => Some(start + loc.column - 1),
        None => None,
    }
}

/// `content` with the bytes between the two offsets of the fix replaced.
pub open spec fn apply_fix_spec(content: Seq<char>, f: SpecFix) -> Result<Seq<char>, FixError> {
    match fix_offset(content, f.start) {
        None => Err(FixError::InvalidFixStart),
        Some(s) => match fix_offset(content, f.end) {
            None => Err(FixError::InvalidFixEnd),
            Some(e) => match (char_index_of(content, s), char_index_of(content, e)) {
                (Some(a), Some(b)) => Ok(content.take(a) + f.replacement + content.skip(b)),
                _ => Ok(content),
            },
        },
    }
}

/// Applying `f` to `content` computes offsets that fit in `usize` and cuts
/// the content at character boundaries only.
pub open spec fn fix_applies(content: Seq<char>, f: SpecFix) -> bool {
    match fix_offset(content, f.start) {
        None => true,
        Some(s) => 0 <= s < usize::MAX && match fix_offset(content, f.end) {
            None => true,
            Some(e) => 0 <= e < usize::MAX && char_index_of(content, s) is Some && char_index_of(
                content,
                e,
            ) is Some,
        },
    }
}

/// Whether `res` is a possible outcome of fixing `content` with at most
/// `steps` fixes: check, apply the first fix reported, and go on with the
/// fixed content until no fix is reported or the steps run out. Content
/// that does not fit the machine or that a rule cannot process, and a fix
/// that does not apply, end it with `Unprocessable`.
pub open spec fn fix_run(
    rules: Seq<AnyRule>,
    config: Option<LanguageConfig>,
    content: Seq<char>,
    steps: nat,
    res: Result<Seq<char>, FixError>,
) -> bool
    decreases steps,
{
    if content.len() > max_text_len() || !rules_accept(rules, content, config) {
        res == Err::<Seq<char>, FixError>(FixError::Unprocessable)
    } else {
        exists|out: Seq<SpecDiagnostic>|
            #[trigger] rules_result(rules, content, config, out) && match first_fix(out) {
                None => res == Ok::<Seq<char>, FixError>(content),
                Some(f) => if !fix_applies(content, f) {
                    res == Err::<Seq<char>, FixError>(FixError::Unprocessable)
                } else {
                    match apply_fix_spec(content, f) {
                        Err(e) => res == Err::<Seq<char>, FixError>(e),
                        Ok(next) => if steps <= 1 {
                            res == Ok::<Seq<char>, FixError>(next)
                        } else {
                            fix_run(rules, config, next, (steps - 1) as nat, res)
                        },
                    }
                },
            }
    }
}

/// Fixing `content` with at most `steps` fixes runs to completion: every
/// content met on the way fits the machine and is accepted by the rules, and
/// every fix applied applies.
pub open spec fn fix_ok(rules: Seq<AnyRule>, config: Option<LanguageConfig>, content: Seq<char>, steps: nat) -> bool
    decreases steps,
{
    &&& content.len() <= max_text_len()
    &&& rules_accept(rules, content, config)
    &&& forall|out: Seq<SpecDiagnostic>|
        #[trigger] rules_result(rules, content, config, out) ==> match first_fix(out) {
            None => true,
            Some(f) => fix_applies(content, f) && (steps > 1 ==> match apply_fix_spec(content, f) {
                Ok(next) => fix_ok(rules, config, next, (steps - 1) as nat),
                Err(_) => true,
            }),
        }
}

/// The most fixes that one call applies.
pub const MAX_FIX_ITERATIONS: usize = 10;

fn first_fix_exec(ds: &Vec<Diagnostic>) -> (r: Option<&Fix>)
    ensures
        match r {
            Some(f) => first_fix(diags_view(ds@)) == Some(f@),
            None => first_fix(diags_view(ds@)) is None,
        },
{
    let mut i: usize = 0;
    assert(diags_view(ds@).skip(0) =~= diags_view(ds@));
    while i < ds.len()
        invariant
            i <= ds@.len(),
            first_fix(diags_view(ds@).skip(i as int)) == first_fix(diags_view(ds@)),
        decreases ds@.len() - i,
    {
        assert(diags_view(ds@).skip(i as int)[0] == ds@[i as int]@);
        assert(diags_view(ds@).skip(i as int).drop_first() =~= diags_view(ds@).skip(i + 1));
        match &ds[i].fix {
            Some(f) => {
                return Some(f);
            },
            None => {},
        }
        i = i + 1;
    }
    None
}

fn char_index_exec(s: &[char], b: usize) -> (r: Option<usize>)
    requires
        s@.len() <= max_text_len(),
    ensures
        r == match char_index_of(s@, b as int) {
            Some(i) => Some(i as usize),
            None => None::<usize>,
        },
        r matches Some(i) ==> i <= s@.len(),
{
    let mut i: usize = 0;
    let mut acc: usize = 0;
    while i < s.len() && acc < b
        invariant
            i <= s@.len(),
            s@.len() <= max_text_len(),
            acc == utf8_len(s@.take(i as int)),
            char_index_from(s@, i as int, acc as int, b as int) == char_index_of(s@, b as int),
        decreases s@.len() - i,
    {
        proof {
            lemma_utf8_len_take(s@, i as int);
            lemma_utf8_len_take_ge(s@, i as int + 1);
        }
        acc = acc + char_len_exec(s[i]);
        i = i + 1;
    }
    if acc == b {
        Some(i)
    } else {
        None
    }
}

/// Collection of all YAML rules
pub struct RuleSet {
    rules: Vec<AnyRule>,
}

impl View for RuleSet {
    type V = Seq<AnyRule>;

    closed spec fn view(&self) -> Seq<AnyRule> {
        self.rules@
    }
}

impl RuleSet {
    pub fn new(rules: Vec<AnyRule>) -> (r: Self)
        ensures
            r@ == rules@,
    {
        RuleSet { rules }
    }

    /// Check content against all enabled rules
    /// The names of the rules, in order.
    pub fn ids(&self) -> (r: Vec<&'static str>)
        ensures
            r@.map_values(|s: &'static str| s@) == rule_names(self@),
    {
        let mut out: Vec<&'static str> = Vec::new();
        let mut i: usize = 0;
        while i < self.rules.len()
            invariant
                i <= self.rules@.len(),
                out@.len() == i,
                out@.map_values(|s: &'static str| s@) == rule_names(self.rules@.take(i as int)),
            decreases self.rules@.len() - i,
        {
            let ghost prev = out@;
            let n = self.rules[i].name();
            out.push(n);
            proof {
                let t = self.rules@.take(i + 1);
                assert(t =~= self.rules@.take(i as int).push(self.rules@[i as int]));
                assert forall|k: int| 0 <= k <= i implies out@.map_values(|s: &'static str| s@)[k]
                    == rule_names(t)[k] by {
                    if k < i {
                        assert(out@[k] == prev[k]);
                        assert(prev.map_values(|s: &'static str| s@)[k] == rule_names(self.rules@.take(i as int))[k]);
                    }
                }
                assert(out@.map_values(|s: &'static str| s@) =~= rule_names(t));
            }
            i = i + 1;
        }
        assert(self.rules@.take(i as int) =~= self.rules@);
        out
    }

    pub fn check(&self, ctx: &RuleContext, config: Option<&LanguageConfig>) -> (r: Vec<Diagnostic>)
        requires
            ctx.wf(),
            rules_accept(self@, ctx.content@, lang_of(config)),
        ensures
            rules_result(self@, ctx.content@, lang_of(config), diags_view(r@)),
    {
        let mut out: Vec<Diagnostic> = Vec::new();
        let mut i: usize = 0;
        assert(self.rules@.take(0) =~= Seq::<AnyRule>::empty());
        while i < self.rules.len()
            invariant
                ctx.wf(),
                i <= self.rules@.len(),
                rules_accept(self.rules@, ctx.content@, lang_of(config)),
                rules_result(self.rules@.take(i as int), ctx.content@, lang_of(config), diags_view(out@)),
            decreases self.rules@.len() - i,
        {
            let rule = &self.rules[i];
            let name = rule.name();
            let rule_config = rule_config_of(config, name);
            let on = match rule_config {
                Some(rc) => rc.is_enabled(),
                None => true,
            };
            let ghost prev = diags_view(out@);
            let ghost cfg = lang_rule_config(lang_of(config), rule.spec_name());
            assert(self.rules@.take(i + 1).drop_last() =~= self.rules@.take(i as int));
            assert(self.rules@.take(i + 1).last() == self.rules@[i as int]);
            assert(cfg_of(rule_config) == cfg);
            assert(on == rule_on(cfg));
            if on {
                assert(rule.spec_accepts(ctx.content@, cfg));
                let d = rule.check(ctx, rule_config);
                append_diags(&mut out, d);
                proof {
                    lemma_rules_result_push(self.rules@.take(i + 1), ctx.content@, lang_of(config), prev, diags_view(d@));
                }
            } else {
                assert(rules_result(self.rules@.take(i + 1).drop_last(), ctx.content@, lang_of(config), diags_view(out@)));
            }
            i = i + 1;
        }
        assert(self.rules@.take(self.rules@.len() as int) =~= self.rules@);
        out
    }

    /// Whether every rule that is on can check `ctx` with `config`.
    pub fn accepts(&self, ctx: &RuleContext, config: Option<&LanguageConfig>) -> (r: bool)
        requires
            ctx.wf(),
        ensures
            r == rules_accept(self@, ctx.content@, lang_of(config)),
    {
        let mut i: usize = 0;
        while i < self.rules.len()
            invariant
                ctx.wf(),
                i <= self.rules@.len(),
                forall|k: int|
                    0 <= k < i && rule_on(lang_rule_config(lang_of(config), self.rules@[k].spec_name()))
                        ==> #[trigger] self.rules@[k].spec_accepts(
                        ctx.content@,
                        lang_rule_config(lang_of(config), self.rules@[k].spec_name()),
                    ),
            decreases self.rules@.len() - i,
        {
            let rule = &self.rules[i];
            let name = rule.name();
            let rule_config = rule_config_of(config, name);
            let on = match rule_config {
                Some(rc) => rc.is_enabled(),
                None => true,
            };
            let ghost cfg = lang_rule_config(lang_of(config), rule.spec_name());
            assert(cfg_of(rule_config) == cfg);
            assert(on == rule_on(cfg));
            if on && !rule.accepts(ctx, rule_config) {
                assert(!self.rules@[i as int].spec_accepts(ctx.content@, cfg));
                return false;
            }
            i = i + 1;
        }
        true
    }

    /// Apply fixes from all fixable rules
    pub fn fix(&self, content: &str, config: Option<&LanguageConfig>) -> (r: Result<String, FixError>)
        ensures
            match r {
                Ok(s) => fix_run(self@, lang_of(config), content@, MAX_FIX_ITERATIONS as nat, Ok(s@)),
                Err(e) => fix_run(self@, lang_of(config), content@, MAX_FIX_ITERATIONS as nat, Err(e)),
            },
    {
        let ghost cfg = lang_of(config);
        let mut result: String = content.to_owned();
        let mut iterations: usize = 0;
        loop
            invariant
                iterations < MAX_FIX_ITERATIONS,
                cfg == lang_of(config),
                forall|res: Result<Seq<char>, FixError>|
                    fix_run(self@, cfg, result@, (MAX_FIX_ITERATIONS - iterations) as nat, res)
                        ==> fix_run(self@, cfg, content@, MAX_FIX_ITERATIONS as nat, res),
            decreases MAX_FIX_ITERATIONS - iterations,
        {
            let ghost rem = (MAX_FIX_ITERATIONS - iterations) as nat;
            let ghost cur = result@;
            let chars = str_chars(result.as_str());
            if chars.len() > usize::MAX / 8 {
                assert(fix_run(self@, cfg, cur, rem, Err::<Seq<char>, FixError>(FixError::Unprocessable)));
                return Err(FixError::Unprocessable);
            }
            let ctx = RuleContext::new(result.as_str());
            if !self.accepts(&ctx, config) {
                assert(fix_run(self@, cfg, cur, rem, Err::<Seq<char>, FixError>(FixError::Unprocessable)));
                return Err(FixError::Unprocessable);
            }
            let diags = self.check(&ctx, config);
            let ghost out = diags_view(diags@);
            assert(rules_result(self@, cur, cfg, out));
            match first_fix_exec(&diags) {
                None => {
                    assert(fix_run(self@, cfg, cur, rem, Ok::<Seq<char>, FixError>(cur)));
                    return Ok(result);
                },
                Some(fix) => {
                    proof {
                        lemma_context_bounds(&ctx);
                    }
                    let start = match fix_offset_checked(&ctx, fix.start) {
                        Err(()) => {
                            assert(!fix_applies(cur, fix@));
                            assert(fix_run(self@, cfg, cur, rem, Err::<Seq<char>, FixError>(FixError::Unprocessable)));
                            return Err(FixError::Unprocessable);
                        },
                        Ok(None) => {
                            assert(fix_applies(cur, fix@));
                            assert(fix_run(self@, cfg, cur, rem, Err::<Seq<char>, FixError>(FixError::InvalidFixStart)));
                            return Err(FixError::InvalidFixStart);
                        },
                        Ok(Some(o)) => o,
                    };
                    let end = match fix_offset_checked(&ctx, fix.end) {
                        Err(()) => {
                            assert(!fix_applies(cur, fix@));
                            assert(fix_run(self@, cfg, cur, rem, Err::<Seq<char>, FixError>(FixError::Unprocessable)));
                            return Err(FixError::Unprocessable);
                        },
                        Ok(None) => {
                            assert(fix_applies(cur, fix@));
                            assert(fix_run(self@, cfg, cur, rem, Err::<Seq<char>, FixError>(FixError::InvalidFixEnd)));
                            return Err(FixError::InvalidFixEnd);
                        },
                        Ok(Some(o)) => o,
                    };
                    let a = char_index_exec(ctx.content.as_slice(), start);
                    let b = char_index_exec(ctx.content.as_slice(), end);
                    let (a, b) = match (a, b) {
                        (Some(a), Some(b)) => (a, b),
                        _ => {
                            assert(!fix_applies(cur, fix@));
                            assert(fix_run(self@, cfg, cur, rem, Err::<Seq<char>, FixError>(FixError::Unprocessable)));
                            return Err(FixError::Unprocessable);
                        },
                    };
                    assert(fix_applies(cur, fix@));
                    proof {
                        lemma_char_index_range(cur, 0, 0, start as int);
                        lemma_char_index_range(cur, 0, 0, end as int);
                        assert(char_index_of(cur, start as int) == Some(a as int));
                        assert(char_index_of(cur, end as int) == Some(b as int));
                    }
                    let mut v = slice_to_vec(ctx.content.as_slice(), 0, a);
                    push_str(&mut v, fix.replacement.as_str());
                    let tail = slice_to_vec(ctx.content.as_slice(), b, ctx.content.len());
                    push_all(&mut v, tail.as_slice());
                    let ghost next = v@;
                    assert(next =~= cur.take(a as int) + fix@.replacement + cur.skip(b as int));
                    assert(apply_fix_spec(cur, fix@) == Ok::<Seq<char>, FixError>(next));
                    result = chars_to_string(v.as_slice());
                    iterations = iterations + 1;
                    if iterations >= MAX_FIX_ITERATIONS {
                        assert(fix_run(self@, cfg, cur, rem, Ok::<Seq<char>, FixError>(next)));
                        return Ok(result);
                    }
                    assert forall|res: Result<Seq<char>, FixError>|
                        fix_run(self@, cfg, next, (rem - 1) as nat, res) implies fix_run(
                        self@,
                        cfg,
                        cur,
                        rem,
                        res,
                    ) by {
                        assert(rules_result(self@, cur, cfg, out));
                    }
                },
            }
        }
    }
}

/// The byte offset of `loc` in the content of `ctx`: `Ok(None)` when its
/// line does not exist, `Err` when the offset does not fit in `usize`.
fn fix_offset_checked(ctx: &RuleContext, loc: Location) -> (r: Result<Option<usize>, ()>)
    requires
        ctx.wf(),
    ensures
        match r {
            Ok(Some(o)) => fix_offset(ctx.content@, loc) == Some(o as int) && o < usize::MAX,
            Ok(None) => fix_offset(ctx.content@, loc) is None,
            Err(()) => fix_offset(ctx.content@, loc) matches Some(s) && !(0 <= s < usize::MAX),
        },
{
    match ctx.line_range(loc.line) {
        None => Ok(None),
        Some((start, _)) => match start.checked_add(loc.column) {
            None => Err(()),
            Some(sum) => if sum == 0 || sum - 1 == usize::MAX {
                Err(())
            } else {
                Ok(Some(sum - 1))
            },
        },
    }
}

/// The names of the default rules, in the order in which they run.
pub open spec fn default_rule_names() -> Seq<Seq<char>> {
    seq![
        "trailing-spaces"@,
        "line-length"@,
        "new-line-at-end-of-file"@,
        "indentation"@,
        "document-start"@,
        "document-end"@,
        "empty-lines"@,
        "key-duplicates"@,
        "brackets"@,
        "commas"@,
        "comments"@,
        "comments-indentation"@,
        "empty-values"@,
        "float-values"@,
        "hyphens"@,
        "key-ordering"@,
        "new-lines"@,
        "octal-values"@,
        "quoted-strings"@,
        "truthy"@,
        "anchors"@,
    ]
}

/// The names of a sequence of rules.
pub open spec fn rule_names(rules: Seq<AnyRule>) -> Seq<Seq<char>> {
    rules.map_values(|r: AnyRule| r.spec_name())
}

impl Default for RuleSet {
    fn default() -> (r: Self)
        ensures
            rule_names(r@) == default_rule_names(),
    {
        let mut v: Vec<AnyRule> = Vec::new();
        v.push(AnyRule::TrailingSpaces(TrailingSpaces));
        v.push(AnyRule::LineLength(LineLength::default()));
        v.push(AnyRule::NewLineAtEndOfFile(NewLineAtEndOfFile));
        v.push(AnyRule::Indentation(Indentation::default()));
        v.push(AnyRule::DocumentStart(DocumentStart));
        v.push(AnyRule::DocumentEnd(DocumentEnd));
        v.push(AnyRule::EmptyLines(EmptyLines::default()));
        v.push(AnyRule::KeyDuplicates(KeyDuplicates::default()));
        v.push(AnyRule::Brackets(Brackets::default()));
        v.push(AnyRule::Commas(Commas::default()));
        v.push(AnyRule::Comments(Comments::default()));
        v.push(AnyRule::CommentsIndentation(CommentsIndentation));
        v.push(AnyRule::EmptyValues(EmptyValues::default()));
        v.push(AnyRule::FloatValues(FloatValues::default()));
        v.push(AnyRule::Hyphens(Hyphens::default()));
        v.push(AnyRule::KeyOrdering(KeyOrdering::default()));
        v.push(AnyRule::NewLines(NewLines::default()));
        v.push(AnyRule::OctalValues(OctalValues::default()));
        v.push(AnyRule::QuotedStrings(QuotedStrings::default()));
        v.push(AnyRule::Truthy(Truthy::default()));
        v.push(AnyRule::Anchors(Anchors::default()));
        assert(rule_names(v@) =~= default_rule_names());
        RuleSet { rules: v }
    }
}

/// The sequences of `parts`, one after another.
pub open spec fn concat_all(parts: Seq<Seq<SpecDiagnostic>>) -> Seq<SpecDiagnostic>
    decreases parts.len(),
{
    if parts.len() == 0 {
        seq![]
    } else {
        concat_all(parts.drop_last()) + parts.last()
    }
}

/// With no configuration every rule runs: what checking reports is each
/// rule's own report, one after another in the order of the rules.
pub proof fn lemma_check_without_config(rules: Seq<AnyRule>, content: Seq<char>, out: Seq<SpecDiagnostic>)
    requires
        rules_result(rules, content, None, out),
    ensures
        exists|parts: Seq<Seq<SpecDiagnostic>>|
            #[trigger] concat_all(parts) == out && parts.len() == rules.len() && forall|i: int|
                0 <= i < rules.len() ==> #[trigger] rules[i].spec_result(content, None, parts[i]),
    decreases rules.len(),
{
    if rules.len() == 0 {
        let parts = Seq::<Seq<SpecDiagnostic>>::empty();
        assert(concat_all(parts) =~= out);
    } else {
        let init = rules.drop_last();
        let r = rules.last();
        assert(lang_rule_config(None, r.spec_name()) is None);
        let k = choose|k: int|
            0 <= k <= out.len() && rules_result(init, content, None, #[trigger] out.take(k))
                && r.spec_result(content, None, out.skip(k));
        lemma_check_without_config(init, content, out.take(k));
        let p0 = choose|parts: Seq<Seq<SpecDiagnostic>>|
            #[trigger] concat_all(parts) == out.take(k) && parts.len() == init.len() && forall|i: int|
                0 <= i < init.len() ==> #[trigger] init[i].spec_result(content, None, parts[i]);
        let parts = p0.push(out.skip(k));
        assert(parts.drop_last() =~= p0);
        assert(concat_all(parts) =~= out);
        assert forall|i: int| 0 <= i < rules.len() implies #[trigger] rules[i].spec_result(content, None, parts[i]) by {
            if i < init.len() {
                assert(rules[i] == init[i]);
                assert(parts[i] == p0[i]);
            }
        }
    }
}

/// With every rule turned off, checking reports nothing.
pub proof fn lemma_all_rules_off(
    rules: Seq<AnyRule>,
    content: Seq<char>,
    config: Option<LanguageConfig>,
    out: Seq<SpecDiagnostic>,
)
    requires
        forall|i: int| 0 <= i < rules.len() ==> !rule_on(lang_rule_config(config, #[trigger] rules[i].spec_name())),
        rules_result(rules, content, config, out),
    ensures
        out.len() == 0,
    decreases rules.len(),
{
    if rules.len() > 0 {
        let init = rules.drop_last();
        assert(!rule_on(lang_rule_config(config, rules[rules.len() - 1].spec_name())));
        assert forall|i: int| 0 <= i < init.len() implies !rule_on(lang_rule_config(config, #[trigger] init[i].spec_name())) by {
            assert(init[i] == rules[i]);
        }
        lemma_all_rules_off(init, content, config, out);
    }
}

/// When the rules can process `content` and no report they can give on it
/// holds a fix, fixing returns the content unchanged.
pub proof fn lemma_fix_without_fixes(
    rules: Seq<AnyRule>,
    config: Option<LanguageConfig>,
    content: Seq<char>,
    steps: nat,
    res: Result<Seq<char>, FixError>,
)
    requires
        content.len() <= max_text_len(),
        rules_accept(rules, content, config),
        forall|out: Seq<SpecDiagnostic>| #[trigger] rules_result(rules, content, config, out) ==> first_fix(out) is None,
        fix_run(rules, config, content, steps, res),
    ensures
        res == Ok::<Seq<char>, FixError>(content),
{
}

/// Fixing content on which every step fits the machine, is accepted by the
/// rules and applies its fix (`fix_ok`) never ends with `Unprocessable`.
pub proof fn lemma_fix_ok_processable(
    rules: Seq<AnyRule>,
    config: Option<LanguageConfig>,
    content: Seq<char>,
    steps: nat,
    res: Result<Seq<char>, FixError>,
)
    requires
        fix_ok(rules, config, content, steps),
        fix_run(rules, config, content, steps, res),
    ensures
        res != Err::<Seq<char>, FixError>(FixError::Unprocessable),
    decreases steps,
{
    let out = choose|out: Seq<SpecDiagnostic>|
        #[trigger] rules_result(rules, content, config, out) && match first_fix(out) {
            None => res == Ok::<Seq<char>, FixError>(content),
            Some(f) => if !fix_applies(content, f) {
                res == Err::<Seq<char>, FixError>(FixError::Unprocessable)
            } else {
                match apply_fix_spec(content, f) {
                    Err(e) => res == Err::<Seq<char>, FixError>(e),
                    Ok(next) => if steps <= 1 {
                        res == Ok::<Seq<char>, FixError>(next)
                    } else {
                        fix_run(rules, config, next, (steps - 1) as nat, res)
                    },
                }
            },
        };
    match first_fix(out) {
        None => {},
        Some(f) => {
            match apply_fix_spec(content, f) {
                Err(e) => {},
                Ok(next) => {
                    if steps > 1 {
                        lemma_fix_ok_processable(rules, config, next, (steps - 1) as nat, res);
                    }
                },
            }
        },
    }
}

} // verus!
