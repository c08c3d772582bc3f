//! The fix that each kind of problem gets.

use vstd::prelude::*;
use crate::fix::{
    Doc, DocView, FixOp, fix_is_safe, fix_is_safe_spec, grow_fits, grow_space_run, grow_spec, leading_spaces,
    leading_spaces_spec, shrink_space_run, shrink_spec,
};
use crate::linter::LintProblem;
use crate::rule::str_eq;
use crate::rules::new_lines::{NewLineType, main_separator, new_line_type_of};
use crate::rule::{RuleConfig, cfg_bool, cfg_int, cfg_of, opt_bool, opt_int, opt_list, opt_string};
use crate::rules::quoted_strings::{opt_quote_type, quote_type_of_config};
use crate::rules::rule_set::{LanguageConfig, lang_rule_config, rule_config_of};
use crate::rules::quoted_strings::QuoteType;
use crate::rule::strings_view;
use crate::rules::truthy::contains_value;
use crate::text::{
    chars_to_string, contains_char, eq_chars, eq_str, find_char_from, find_seq_exec, lowercase,
    matches_at, parse_usize, parse_usize_spec, push_all, push_spaces, push_str, run_end, run_start,
    slice_to_vec, space_pred, spaces, starts_with, starts_with_str, str_chars, to_lowercase, trim,
    trim_chars, trim_end, trim_end_chars, trim_start, trim_start_chars,
};

verus! {

/// Options of the `new-lines` rule that fixing reads.
pub struct NewLinesConf {
    pub kind: NewLineType,
}

/// Options of the `empty-lines` rule that fixing reads.
pub struct EmptyLinesConf {
    pub max: i64,
    pub max_start: i64,
    pub max_end: i64,
}

/// Options of the `document-start` and `document-end` rules that fixing
/// reads.
pub struct PresentConf {
    pub present: bool,
}

/// Options of the `comments` rule that fixing reads.
pub struct CommentsConf {
    pub min_spaces_from_content: i64,
}

/// Options of the `colons` rule that fixing reads.
pub struct ColonsConf {
    pub max_spaces_before: i64,
    pub max_spaces_after: i64,
}

/// Options of the `hyphens` rule that fixing reads.
pub struct HyphensConf {
    pub max_spaces_after: i64,
}

/// Options of the `commas` rule that fixing reads.
pub struct CommasConf {
    pub max_spaces_before: i64,
    pub min_spaces_after: i64,
    pub max_spaces_after: i64,
}

/// Options of the `braces` and `brackets` rules that fixing reads; -1 for
/// the empty variants means "as for non-empty ones".
pub struct SpacesInsideConf {
    pub min_spaces_inside: i64,
    pub max_spaces_inside: i64,
    pub min_spaces_inside_empty: i64,
    pub max_spaces_inside_empty: i64,
}

/// Options of the `truthy` rule that fixing reads.
pub struct TruthyConf {
    pub allowed_values: Vec<String>,
}

/// Options of the `quoted-strings` rule that fixing reads.
pub struct QuotedStringsConf {
    pub quote_type: QuoteType,
}

/// The options of a rule, as far as fixing reads them.
pub enum RuleOptions {
    NewLines(NewLinesConf),
    EmptyLines(EmptyLinesConf),
    DocumentStart(PresentConf),
    DocumentEnd(PresentConf),
    Comments(CommentsConf),
    Colons(ColonsConf),
    Hyphens(HyphensConf),
    Commas(CommasConf),
    Braces(SpacesInsideConf),
    Brackets(SpacesInsideConf),
    Truthy(TruthyConf),
    QuotedStrings(QuotedStringsConf),
    /// The options of a rule whose fixes read none.
    Other,
}

/// The options of the enabled rules, by rule id.
pub struct RuleConfs<'a> {
    pub confs: Vec<(&'static str, &'a RuleOptions)>,
}

/// The spacing options inside braces or brackets, each at its default when
/// unset: no spaces inside, and the empty forms as the others (-1).
pub open spec fn inside_options(config: Option<RuleConfig>, c: SpacesInsideConf) -> bool {
    &&& c.min_spaces_inside == opt_int(config, "min-spaces-inside"@, 0)
    &&& c.max_spaces_inside == opt_int(config, "max-spaces-inside"@, 0)
    &&& c.min_spaces_inside_empty == opt_int(config, "min-spaces-inside-empty"@, -1i64)
    &&& c.max_spaces_inside_empty == opt_int(config, "max-spaces-inside-empty"@, -1i64)
}

/// `o` holds the options that fixing reads for the rule `id`, as its
/// configuration `config` sets them, each unset option at its default.
pub open spec fn options_for(id: Seq<char>, config: Option<RuleConfig>, o: RuleOptions) -> bool {
    match o {
        RuleOptions::NewLines(c) => id == "new-lines"@ && c.kind == match opt_string(config, "type"@) {
            Some(t) => match new_line_type_of(t) {
                Some(k) => k,
                None => NewLineType::Unix,
            },
            None => NewLineType::Unix,
        },
        RuleOptions::EmptyLines(c) => id == "empty-lines"@ && c.max == opt_int(config, "max"@, 2)
            && c.max_start == opt_int(config, "max-start"@, 0) && c.max_end == opt_int(
            config,
            "max-end"@,
            0,
        ),
        RuleOptions::DocumentStart(c) => id == "document-start"@ && c.present == opt_bool(config, "present"@, true),
        RuleOptions::DocumentEnd(c) => id == "document-end"@ && c.present == opt_bool(config, "present"@, true),
        RuleOptions::Comments(c) => id == "comments"@ && c.min_spaces_from_content == opt_int(
            config,
            "min-spaces-from-content"@,
            2,
        ),
        RuleOptions::Colons(c) => id == "colons"@ && c.max_spaces_before == opt_int(config, "max-spaces-before"@, 0)
            && c.max_spaces_after == opt_int(config, "max-spaces-after"@, 1),
        RuleOptions::Hyphens(c) => id == "hyphens"@ && c.max_spaces_after == opt_int(config, "max-spaces-after"@, 1),
        RuleOptions::Commas(c) => id == "commas"@ && c.max_spaces_before == opt_int(config, "max-spaces-before"@, 0)
            && c.min_spaces_after == opt_int(config, "min-spaces-after"@, 1) && c.max_spaces_after
            == opt_int(config, "max-spaces-after"@, 1),
        RuleOptions::Braces(c) => id == "braces"@ && inside_options(config, c),
        RuleOptions::Brackets(c) => id == "brackets"@ && inside_options(config, c),
        RuleOptions::Truthy(c) => id == "truthy"@ && strings_view(c.allowed_values@) == match opt_list(
            config,
            "allowed-values"@,
        ) {
            Some(l) => l,
            None => seq!["true"@, "false"@],
        },
        RuleOptions::QuotedStrings(c) => id == "quoted-strings"@ && c.quote_type == opt_quote_type(config, QuoteType::Any),
        RuleOptions::Other => false,
    }
}

/// The rules whose fixers read options, in the order `fix_options` lists them.
pub open spec fn optioned_rules() -> Seq<Seq<char>> {
    seq![
        "new-lines"@,
        "empty-lines"@,
        "document-start"@,
        "document-end"@,
        "comments"@,
        "colons"@,
        "hyphens"@,
        "commas"@,
        "braces"@,
        "brackets"@,
        "truthy"@,
        "quoted-strings"@,
    ]
}

/// Every entry of `v` holds the options of its rule under `lang`.
pub open spec fn options_of_config(lang: LanguageConfig, v: Seq<(&'static str, RuleOptions)>) -> bool {
    forall|i: int| 0 <= i < v.len() ==> options_for(v[i].0@, lang_rule_config(Some(lang), v[i].0@), #[trigger] v[i].1)
}

fn push_options(out: &mut Vec<(&'static str, RuleOptions)>, lang: &LanguageConfig, id: &'static str, o: RuleOptions)
    requires
        options_of_config(*lang, old(out)@),
        options_for(id@, lang_rule_config(Some(*lang), id@), o),
    ensures
        final(out)@ == old(out)@.push((id, o)),
        options_of_config(*lang, final(out)@),
{
    out.push((id, o));
    assert forall|i: int| 0 <= i < out@.len() implies options_for(
        out@[i].0@,
        lang_rule_config(Some(*lang), out@[i].0@),
        #[trigger] out@[i].1,
    ) by {
        if i < old(out)@.len() {
            assert(out@[i] == old(out)@[i]);
        }
    }
}

fn inside_conf(c: Option<&RuleConfig>) -> (r: SpacesInsideConf)
    ensures
        inside_options(cfg_of(c), r),
{
    SpacesInsideConf {
        min_spaces_inside: cfg_int(c, "min-spaces-inside", 0),
        max_spaces_inside: cfg_int(c, "max-spaces-inside", 0),
        min_spaces_inside_empty: cfg_int(c, "min-spaces-inside-empty", -1),
        max_spaces_inside_empty: cfg_int(c, "max-spaces-inside-empty", -1),
    }
}

/// The options that the fixers read, for each rule whose fixer reads any,
/// from the configuration `lang`.
pub fn fix_options(lang: &LanguageConfig) -> (r: Vec<(&'static str, RuleOptions)>)
    ensures
        r@.map_values(|e: (&'static str, RuleOptions)| e.0@) == optioned_rules(),
        options_of_config(*lang, r@),
{
    let l = Some(lang);
    let mut out: Vec<(&'static str, RuleOptions)> = Vec::new();
    let c = rule_config_of(l, "new-lines");
    let kind = match c {
        Some(rc) => match rc.get_string("type") {
            Some(t) => match NewLineType::parse(t.as_str()) {
                Some(k) => k,
                None => NewLineType::Unix,
            },
            None => NewLineType::Unix,
        },
        None => NewLineType::Unix,
    };
    push_options(&mut out, lang, "new-lines", RuleOptions::NewLines(NewLinesConf { kind }));
    let c = rule_config_of(l, "empty-lines");
    push_options(
        &mut out,
        lang,
        "empty-lines",
        RuleOptions::EmptyLines(
            EmptyLinesConf { max: cfg_int(c, "max", 2), max_start: cfg_int(c, "max-start", 0), max_end: cfg_int(c, "max-end", 0) },
        ),
    );
    let c = rule_config_of(l, "document-start");
    push_options(&mut out, lang, "document-start", RuleOptions::DocumentStart(PresentConf { present: cfg_bool(c, "present", true) }));
    let c = rule_config_of(l, "document-end");
    push_options(&mut out, lang, "document-end", RuleOptions::DocumentEnd(PresentConf { present: cfg_bool(c, "present", true) }));
    let c = rule_config_of(l, "comments");
    push_options(
        &mut out,
        lang,
        "comments",
        RuleOptions::Comments(CommentsConf { min_spaces_from_content: cfg_int(c, "min-spaces-from-content", 2) }),
    );
    let c = rule_config_of(l, "colons");
    push_options(
        &mut out,
        lang,
        "colons",
        RuleOptions::Colons(
            ColonsConf { max_spaces_before: cfg_int(c, "max-spaces-before", 0), max_spaces_after: cfg_int(c, "max-spaces-after", 1) },
        ),
    );
    let c = rule_config_of(l, "hyphens");
    push_options(&mut out, lang, "hyphens", RuleOptions::Hyphens(HyphensConf { max_spaces_after: cfg_int(c, "max-spaces-after", 1) }));
    let c = rule_config_of(l, "commas");
    push_options(
        &mut out,
        lang,
        "commas",
        RuleOptions::Commas(
            CommasConf {
                max_spaces_before: cfg_int(c, "max-spaces-before", 0),
                min_spaces_after: cfg_int(c, "min-spaces-after", 1),
                max_spaces_after: cfg_int(c, "max-spaces-after", 1),
            },
        ),
    );
    let c = rule_config_of(l, "braces");
    push_options(&mut out, lang, "braces", RuleOptions::Braces(inside_conf(c)));
    let c = rule_config_of(l, "brackets");
    push_options(&mut out, lang, "brackets", RuleOptions::Brackets(inside_conf(c)));
    let c = rule_config_of(l, "truthy");
    let allowed = match c {
        Some(rc) => match rc.get_list("allowed-values") {
            Some(v) => v,
            None => default_truthy_values(),
        },
        None => default_truthy_values(),
    };
    push_options(&mut out, lang, "truthy", RuleOptions::Truthy(TruthyConf { allowed_values: allowed }));
    let c = rule_config_of(l, "quoted-strings");
    push_options(
        &mut out,
        lang,
        "quoted-strings",
        RuleOptions::QuotedStrings(QuotedStringsConf { quote_type: quote_type_of_config(c, QuoteType::Any) }),
    );
    proof {
        reveal_strlit("new-lines");
    }
    assert(out@.map_values(|e: (&'static str, RuleOptions)| e.0@) =~= optioned_rules());
    out
}

fn default_truthy_values() -> (r: Vec<String>)
    ensures
        strings_view(r@) == seq!["true"@, "false"@],
{
    let mut v: Vec<String> = Vec::new();
    v.push("true".to_owned());
    v.push("false".to_owned());
    assert(strings_view(v@) =~= seq!["true"@, "false"@]);
    v
}

/// The fixers' view of `opts`: each rule's id with a reference to its
/// options.
pub fn rule_confs<'a>(opts: &'a Vec<(&'static str, RuleOptions)>) -> (r: RuleConfs<'a>)
    ensures
        r.confs@.len() == opts@.len(),
        forall|i: int| 0 <= i < opts@.len() ==> #[trigger] r.confs@[i].0 == opts@[i].0 && *r.confs@[i].1 == opts@[i].1,
{
    let mut confs: Vec<(&'static str, &'a RuleOptions)> = Vec::new();
    let mut i: usize = 0;
    while i < opts.len()
        invariant
            i <= opts@.len(),
            confs@.len() == i,
            forall|k: int| 0 <= k < i ==> #[trigger] confs@[k].0 == opts@[k].0 && *confs@[k].1 == opts@[k].1,
        decreases opts@.len() - i,
    {
        confs.push((opts[i].0, &opts[i].1));
        i = i + 1;
    }
    RuleConfs { confs }
}

/// The options of the first entry for `id`.
pub open spec fn conf_lookup(confs: Seq<(&'static str, &RuleOptions)>, id: Seq<char>) -> Option<RuleOptions>
    decreases confs.len(),
{
    if confs.len() == 0 {
        None
    } else if confs[0].0@ == id {
        Some(*confs[0].1)
    } else {
        conf_lookup(confs.drop_first(), id)
    }
}

impl<'a> RuleConfs<'a> {
    pub fn get(&self, id: &str) -> (r: Option<&'a RuleOptions>)
        ensures
            match r {
                Some(c) => conf_lookup(self.confs@, id@) == Some(*c),
                None => conf_lookup(self.confs@, id@) is None,
            },
    {
        let mut i: usize = 0;
        assert(self.confs@.skip(0) =~= self.confs@);
        while i < self.confs.len()
            invariant
                i <= self.confs@.len(),
                conf_lookup(self.confs@.skip(i as int), id@) == conf_lookup(self.confs@, id@),
            decreases self.confs@.len() - i,
        {
            assert(self.confs@.skip(i as int)[0] == self.confs@[i as int]);
            assert(self.confs@.skip(i as int).drop_first() =~= self.confs@.skip(i + 1));
            let (rid, c) = self.confs[i];
            if str_eq(rid, id) {
                return Some(c);
            }
            i = i + 1;
        }
        None
    }
}

/// The contents of a [`FixOp`].
pub enum FixOpSpec {
    ReplaceLine { line: usize, text: Seq<char> },
    DeleteLines { start: usize, count: usize },
    InsertLine { at: usize, text: Seq<char> },
    SetEnding { dos: bool },
    EnsureFinalNewline,
}

pub open spec fn op_view(op: FixOp) -> FixOpSpec {
    match op {
        FixOp::ReplaceLine { line, text } => FixOpSpec::ReplaceLine { line, text: text@ },
        FixOp::DeleteLines { start, count } => FixOpSpec::DeleteLines { start, count },
        FixOp::InsertLine { at, text } => FixOpSpec::InsertLine { at, text: text@ },
        FixOp::SetEnding { dos } => FixOpSpec::SetEnding { dos },
        FixOp::EnsureFinalNewline => FixOpSpec::EnsureFinalNewline,
    }
}

pub open spec fn opt_op_view(op: Option<FixOp>) -> Option<FixOpSpec> {
    match op {
        Some(o) => Some(op_view(o)),
        None => None,
    }
}

/// Line `n` (1-based) of the document, if it has one.
pub open spec fn line_at(lines: Seq<Seq<char>>, n: int) -> Option<Seq<char>> {
    if 1 <= n <= lines.len() {
        Some(lines[n - 1])
    } else {
        None
    }
}

fn line_chars(doc: &Doc, line: usize) -> (r: Option<Vec<char>>)
    requires
        line >= 1,
    ensures
        match r {
            Some(v) => line_at(doc@.lines, line as int) == Some(v@),
            None => line_at(doc@.lines, line as int) is None,
        },
{
    if line - 1 < doc.lines.len() {
        Some(str_chars(doc.lines[line - 1].as_str()))
    } else {
        None
    }
}

/// A document whose line count fits the machine's counters.
pub open spec fn doc_fits(d: DocView) -> bool {
    d.lines.len() < usize::MAX && d.lines.len() <= i64::MAX
}

pub open spec fn replace(line: usize, text: Seq<char>) -> Option<FixOpSpec> {
    Some(FixOpSpec::ReplaceLine { line, text })
}

// --- trailing-spaces -------------------------------------------------------

pub open spec fn fix_trailing(p: LintProblem, d: DocView) -> Option<FixOpSpec> {
    match line_at(d.lines, p.line as int) {
        None => None,
        Some(l) => if trim_end(l).len() != l.len() {
            replace(p.line, trim_end(l))
        } else {
            None
        },
    }
}

fn fixer_trailing(p: &LintProblem, doc: &Doc) -> (r: Option<FixOp>)
    requires
        p.line >= 1,
    ensures
        opt_op_view(r) == fix_trailing(*p, doc@),
{
    let chars = match line_chars(doc, p.line) {
        Some(c) => c,
        None => return None,
    };
    let t = trim_end_chars(chars.as_slice());
    if t.len() != chars.len() {
        Some(FixOp::ReplaceLine { line: p.line, text: chars_to_string(t.as_slice()) })
    } else {
        None
    }
}

// --- new-lines -------------------------------------------------------------

pub open spec fn fix_new_lines(confs: Seq<(&'static str, &RuleOptions)>, windows: bool) -> Option<FixOpSpec> {
    let dos = match conf_lookup(confs, "new-lines"@) {
        Some(RuleOptions::NewLines(c)) => match c.kind {
            NewLineType::Dos => true,
            NewLineType::Unix => false,
            NewLineType::Platform => windows,
        },
        _ => false,
    };
    Some(FixOpSpec::SetEnding { dos })
}

fn fixer_new_lines(confs: &RuleConfs) -> (r: Option<FixOp>)
    ensures
        opt_op_view(r) == fix_new_lines(confs.confs@, false) || opt_op_view(r) == fix_new_lines(
            confs.confs@,
            true,
        ),
{
    let dos = match confs.get("new-lines") {
        Some(RuleOptions::NewLines(c)) => match c.kind {
            NewLineType::Dos => true,
            NewLineType::Unix => false,
            NewLineType::Platform => main_separator() == '\\',
        },
        _ => false,
    };
    Some(FixOp::SetEnding { dos })
}

// --- empty-lines -----------------------------------------------------------

/// The first line of the run of empty lines that ends at line `last`.
pub open spec fn empty_run_start(lines: Seq<Seq<char>>, last: int) -> int
    decreases last,
{
    if last > 1 && last - 2 < lines.len() && lines[last - 2].len() == 0 {
        empty_run_start(lines, last - 1)
    } else {
        last
    }
}

proof fn lemma_empty_run_start(lines: Seq<Seq<char>>, last: int)
    requires
        1 <= last <= lines.len(),
    ensures
        1 <= empty_run_start(lines, last) <= last,
    decreases last,
{
    if last > 1 && lines[last - 2].len() == 0 {
        lemma_empty_run_start(lines, last - 1);
    }
}

pub open spec fn fix_empty_lines_op(p: LintProblem, d: DocView, confs: Seq<(&'static str, &RuleOptions)>) -> Option<FixOpSpec> {
    match conf_lookup(confs, "empty-lines"@) {
        Some(RuleOptions::EmptyLines(c)) => {
            let last = p.line as int;
            if last > d.lines.len() || d.lines[last - 1].len() != 0 {
                None
            } else {
                let first = empty_run_start(d.lines, last);
                let run = last - first + 1;
                let allowed = if first == 1 {
                    c.max_start
                } else if last == d.lines.len() {
                    c.max_end
                } else {
                    c.max
                };
                let excess = run - (if allowed > 0 {
                    allowed as int
                } else {
                    0
                });
                if excess <= 0 {
                    None
                } else {
                    Some(FixOpSpec::DeleteLines { start: first as usize, count: excess as usize })
                }
            }
        },
        _ => None,
    }
}

fn fixer_empty_lines(p: &LintProblem, doc: &Doc, confs: &RuleConfs) -> (r: Option<FixOp>)
    requires
        conf_lookup(confs.confs@, "empty-lines"@) matches Some(RuleOptions::EmptyLines(_)) ==> p.line >= 1,
        doc_fits(doc@),
    ensures
        opt_op_view(r) == fix_empty_lines_op(*p, doc@, confs.confs@),
{
    let conf = match confs.get("empty-lines") {
        Some(RuleOptions::EmptyLines(c)) => c,
        _ => return None,
    };
    let last = p.line;
    if last > doc.lines.len() || !doc.lines[last - 1].as_str().is_empty() {
        proof {
            if last <= doc.lines@.len() {
                assert(doc@.lines[last - 1] == doc.lines@[last - 1]@);
            }
        }
        return None;
    }
    assert(doc@.lines[last - 1] == doc.lines@[last - 1]@);
    let mut first = last;
    while first > 1 && doc.lines[first - 2].as_str().is_empty()
        invariant
            1 <= first <= last <= doc.lines@.len(),
            last == p.line,
            doc_fits(doc@),
            doc@.lines[last - 1].len() == 0,
            conf_lookup(confs.confs@, "empty-lines"@) == Some(RuleOptions::EmptyLines(*conf)),
            empty_run_start(doc@.lines, first as int) == empty_run_start(doc@.lines, last as int),
        decreases first,
    {
        assert(doc@.lines[first - 2] == doc.lines@[first - 2]@);
        first = first - 1;
    }
    proof {
        if first > 1 {
            assert(doc@.lines[first - 2] == doc.lines@[first - 2]@);
        }
    }
    let run = (last - first + 1) as i64;
    let allowed = if first == 1 {
        conf.max_start
    } else if last == doc.lines.len() {
        conf.max_end
    } else {
        conf.max
    };
    let floor = if allowed > 0 {
        allowed
    } else {
        0
    };
    if run <= floor {
        return None;
    }
    let excess = run - floor;
    Some(FixOp::DeleteLines { start: first, count: excess as usize })
}

// --- document-start / document-end ------------------------------------------

/// `s` without a leading `---`, and then without one space after it.
pub open spec fn after_marker(s: Seq<char>) -> Option<Seq<char>> {
    if starts_with(s, "---"@) {
        let rest = s.skip(3);
        Some(
            if rest.len() > 0 && rest[0] == ' ' {
                rest.skip(1)
            } else {
                rest
            },
        )
    } else {
        None
    }
}

/// Removing a marker reads the problem's line, which counts from 1.
pub open spec fn document_start_defined(p: LintProblem, confs: Seq<(&'static str, &RuleOptions)>) -> bool {
    match conf_lookup(confs, "document-start"@) {
        Some(RuleOptions::DocumentStart(c)) => !c.present ==> p.line >= 1,
        _ => true,
    }
}

pub open spec fn fix_document_start_op(p: LintProblem, d: DocView, confs: Seq<(&'static str, &RuleOptions)>) -> Option<FixOpSpec> {
    let present = match conf_lookup(confs, "document-start"@) {
        Some(RuleOptions::DocumentStart(c)) => c.present,
        _ => true,
    };
    if present {
        Some(FixOpSpec::InsertLine { at: p.line, text: "---"@ })
    } else {
        match line_at(d.lines, p.line as int) {
            None => None,
            Some(l) => match after_marker(l) {
                None => None,
                Some(rest) => if rest.len() == 0 {
                    Some(FixOpSpec::DeleteLines { start: p.line, count: 1 })
                } else {
                    replace(p.line, rest)
                },
            },
        }
    }
}

fn fixer_document_start(p: &LintProblem, doc: &Doc, confs: &RuleConfs) -> (r: Option<FixOp>)
    requires
        document_start_defined(*p, confs.confs@),
    ensures
        opt_op_view(r) == fix_document_start_op(*p, doc@, confs.confs@),
{
    let present = match confs.get("document-start") {
        Some(RuleOptions::DocumentStart(c)) => c.present,
        _ => true,
    };
    if present {
        return Some(FixOp::InsertLine { at: p.line, text: "---".to_owned() });
    }
    let chars = match line_chars(doc, p.line) {
        Some(c) => c,
        None => return None,
    };
    proof {
        reveal_strlit("---");
    }
    if !starts_with_str(chars.as_slice(), "---") {
        return None;
    }
    let from = if chars.len() > 3 && chars[3] == ' ' {
        4
    } else {
        3
    };
    let rest = slice_to_vec(chars.as_slice(), from, chars.len());
    assert(after_marker(chars@) == Some(rest@)) by {
        let r3 = chars@.skip(3);
        if from == 4 {
            assert(rest@ =~= r3.skip(1));
        } else {
            assert(rest@ =~= r3);
        }
    }
    if rest.len() == 0 {
        Some(FixOp::DeleteLines { start: p.line, count: 1 })
    } else {
        Some(FixOp::ReplaceLine { line: p.line, text: chars_to_string(rest.as_slice()) })
    }
}

pub open spec fn fix_document_end_op(p: LintProblem, d: DocView, confs: Seq<(&'static str, &RuleOptions)>) -> Option<FixOpSpec> {
    let present = match conf_lookup(confs, "document-end"@) {
        Some(RuleOptions::DocumentEnd(c)) => c.present,
        _ => true,
    };
    if present {
        let at = if p.line <= d.lines.len() && starts_with(trim_start(d.lines[p.line - 1]), "---"@) {
            p.line as int
        } else {
            d.lines.len() + 1int
        };
        Some(FixOpSpec::InsertLine { at: at as usize, text: "..."@ })
    } else {
        match line_at(d.lines, p.line as int) {
            None => None,
            Some(l) => if trim(l) == "..."@ {
                Some(FixOpSpec::DeleteLines { start: p.line, count: 1 })
            } else {
                None
            },
        }
    }
}

fn fixer_document_end(p: &LintProblem, doc: &Doc, confs: &RuleConfs) -> (r: Option<FixOp>)
    requires
        p.line >= 1,
        doc_fits(doc@),
    ensures
        opt_op_view(r) == fix_document_end_op(*p, doc@, confs.confs@),
{
    let present = match confs.get("document-end") {
        Some(RuleOptions::DocumentEnd(c)) => c.present,
        _ => true,
    };
    if present {
        let at = if p.line <= doc.lines.len() && {
            let c = str_chars(doc.lines[p.line - 1].as_str());
            let t = trim_start_chars(c.as_slice());
            assert(doc@.lines[p.line - 1] == doc.lines@[p.line - 1]@);
            starts_with_str(t.as_slice(), "---")
        } {
            p.line
        } else {
            doc.lines.len() + 1
        };
        return Some(FixOp::InsertLine { at, text: "...".to_owned() });
    }
    let chars = match line_chars(doc, p.line) {
        Some(c) => c,
        None => return None,
    };
    let t = trim_chars(chars.as_slice());
    if eq_str(t.as_slice(), "...") {
        Some(FixOp::DeleteLines { start: p.line, count: 1 })
    } else {
        None
    }
}

// --- comments --------------------------------------------------------------

/// Whether `p` occurs in `s`.
pub open spec fn contains_seq(s: Seq<char>, p: Seq<char>) -> bool {
    exists|i: int| matches_at(s, i, p)
}

fn contains_str(s: &[char], p: &str) -> (r: bool)
    ensures
        r == contains_seq(s@, p@),
{
    let pv = str_chars(p);
    match find_seq_exec(s, pv.as_slice()) {
        Some(i) => {
            assert(matches_at(s@, i as int, p@));
            true
        },
        None => false,
    }
}

pub open spec fn with_fix_text(line: usize, t: Option<Seq<char>>) -> Option<FixOpSpec> {
    match t {
        Some(t) => replace(line, t),
        None => None,
    }
}

pub open spec fn fix_comments_op(p: LintProblem, d: DocView, confs: Seq<(&'static str, &RuleOptions)>) -> Option<FixOpSpec> {
    match line_at(d.lines, p.line as int) {
        None => None,
        Some(chars) => if p.desc@ == "missing starting space in comment"@ {
            let idx = p.column - 1;
            if idx > chars.len() {
                None
            } else {
                replace(p.line, chars.take(idx) + seq![' '] + chars.skip(idx))
            }
        } else if starts_with(p.desc@, "too few spaces before comment"@) {
            let min = match conf_lookup(confs, "comments"@) {
                Some(RuleOptions::Comments(c)) => c.min_spaces_from_content,
                _ => 2,
            };
            with_fix_text(p.line, grow_spec(chars, p.column - 1, min))
        } else {
            None
        },
    }
}

/// What fixing a comments problem needs to run to completion: a column
/// from 1 on, and an inserted run of spaces that fits in memory.
pub open spec fn comments_defined(p: LintProblem, d: DocView, confs: Seq<(&'static str, &RuleOptions)>) -> bool {
    match line_at(d.lines, p.line as int) {
        None => true,
        Some(chars) => if p.desc@ == "missing starting space in comment"@ {
            p.column >= 1
        } else if starts_with(p.desc@, "too few spaces before comment"@) {
            let min = match conf_lookup(confs, "comments"@) {
                Some(RuleOptions::Comments(c)) => c.min_spaces_from_content,
                _ => 2,
            };
            p.column >= 1 && (grow_spec(chars, p.column - 1, min) is Some ==> chars.len() + min
                <= usize::MAX)
        } else {
            true
        },
    }
}

fn fixer_comments(p: &LintProblem, doc: &Doc, confs: &RuleConfs) -> (r: Option<FixOp>)
    requires
        p.line >= 1,
        comments_defined(*p, doc@, confs.confs@),
    ensures
        opt_op_view(r) == fix_comments_op(*p, doc@, confs.confs@),
{
    let chars = match line_chars(doc, p.line) {
        Some(c) => c,
        None => return None,
    };
    if str_eq(p.desc.as_str(), "missing starting space in comment") {
        let idx = p.column - 1;
        if idx > chars.len() {
            return None;
        }
        let mut out = slice_to_vec(chars.as_slice(), 0, idx);
        out.push(' ');
        let tail = slice_to_vec(chars.as_slice(), idx, chars.len());
        push_all(&mut out, tail.as_slice());
        assert(out@ =~= chars@.take(idx as int) + seq![' '] + chars@.skip(idx as int));
        return Some(FixOp::ReplaceLine { line: p.line, text: chars_to_string(out.as_slice()) });
    }
    let desc = str_chars(p.desc.as_str());
    if starts_with_str(desc.as_slice(), "too few spaces before comment") {
        let min = match confs.get("comments") {
            Some(RuleOptions::Comments(c)) => c.min_spaces_from_content,
            _ => 2,
        };
        let idx = p.column - 1;
        match grow_space_run(chars.as_slice(), idx, min) {
            Some(text) => Some(FixOp::ReplaceLine { line: p.line, text }),
            None => None,
        }
    } else {
        None
    }
}

// --- comments-indentation ----------------------------------------------------

/// The indentation of the first line from index `i` on that is neither
/// blank nor a comment, or 0.
pub open spec fn next_content_indent(lines: Seq<Seq<char>>, i: int) -> int
    decreases lines.len() - i,
{
    if i < 0 || i >= lines.len() {
        0
    } else {
        let t = trim_start(lines[i]);
        if t.len() == 0 || t[0] == '#' {
            next_content_indent(lines, i + 1)
        } else {
            leading_spaces_spec(lines[i])
        }
    }
}

pub open spec fn fix_comments_indentation_op(p: LintProblem, d: DocView) -> Option<FixOpSpec> {
    match line_at(d.lines, p.line as int) {
        None => None,
        Some(l) => {
            let t = trim_start(l);
            if !(t.len() > 0 && t[0] == '#') {
                None
            } else {
                let target = next_content_indent(d.lines, p.line as int);
                if leading_spaces_spec(l) == target {
                    None
                } else {
                    replace(p.line, spaces(target as nat) + t)
                }
            }
        },
    }
}

fn next_indent(doc: &Doc, from: usize) -> (r: usize)
    ensures
        r == next_content_indent(doc@.lines, from as int),
{
    let mut i = from;
    if i > doc.lines.len() {
        return 0;
    }
    while i < doc.lines.len()
        invariant
            from <= i <= doc.lines@.len(),
            next_content_indent(doc@.lines, i as int) == next_content_indent(doc@.lines, from as int),
        decreases doc.lines@.len() - i,
    {
        let next = &doc.lines[i];
        let nc = str_chars(next.as_str());
        let nt = trim_start_chars(nc.as_slice());
        assert(doc@.lines[i as int] == next@);
        if nt.len() == 0 || nt[0] == '#' {
            i = i + 1;
        } else {
            return leading_spaces(next.as_str());
        }
    }
    0
}

fn fixer_comments_indentation(p: &LintProblem, doc: &Doc) -> (r: Option<FixOp>)
    requires
        p.line >= 1,
    ensures
        opt_op_view(r) == fix_comments_indentation_op(*p, doc@),
{
    let chars = match line_chars(doc, p.line) {
        Some(c) => c,
        None => return None,
    };
    let t = trim_start_chars(chars.as_slice());
    if !(t.len() > 0 && t[0] == '#') {
        return None;
    }
    let target = next_indent(doc, p.line);
    let current = leading_spaces(doc.lines[p.line - 1].as_str());
    assert(doc@.lines[p.line - 1] == doc.lines@[p.line - 1]@);
    if current == target {
        return None;
    }
    let mut out: Vec<char> = Vec::new();
    push_spaces(&mut out, target);
    push_all(&mut out, t.as_slice());
    Some(FixOp::ReplaceLine { line: p.line, text: chars_to_string(out.as_slice()) })
}

// --- spacing around punctuation ----------------------------------------------

/// For a `braces` or `brackets` problem: whether spaces must be added, and
/// how many the options ask for.
pub open spec fn inside_target(desc: Seq<char>, c: SpacesInsideConf) -> (bool, i64) {
    if starts_with(desc, "too few"@) {
        if contains_seq(desc, "empty"@) && c.min_spaces_inside_empty != -1 {
            (true, c.min_spaces_inside_empty)
        } else {
            (true, c.min_spaces_inside)
        }
    } else if contains_seq(desc, "empty"@) && c.max_spaces_inside_empty != -1 {
        (false, c.max_spaces_inside_empty)
    } else {
        (false, c.max_spaces_inside)
    }
}

/// For a spacing problem: whether spaces must be added (or removed), and
/// how many the rule's options ask for.
pub open spec fn spacing_target(rule: Seq<char>, desc: Seq<char>, conf: Option<RuleOptions>) -> Option<(bool, i64)> {
    if rule == "colons"@ {
        match conf {
            Some(RuleOptions::Colons(c)) => Some(
                if desc == "too many spaces before colon"@ {
                    (false, c.max_spaces_before)
                } else {
                    (false, c.max_spaces_after)
                },
            ),
            _ => None,
        }
    } else if rule == "hyphens"@ {
        match conf {
            Some(RuleOptions::Hyphens(c)) => Some((false, c.max_spaces_after)),
            _ => None,
        }
    } else if rule == "commas"@ {
        match conf {
            Some(RuleOptions::Commas(c)) => Some(
                if desc == "too many spaces before comma"@ {
                    (false, c.max_spaces_before)
                } else if desc == "too few spaces after comma"@ {
                    (true, c.min_spaces_after)
                } else {
                    (false, c.max_spaces_after)
                },
            ),
            _ => None,
        }
    } else if rule == "braces"@ {
        match conf {
            Some(RuleOptions::Braces(c)) => Some(inside_target(desc, c)),
            _ => None,
        }
    } else if rule == "brackets"@ {
        match conf {
            Some(RuleOptions::Brackets(c)) => Some(inside_target(desc, c)),
            _ => None,
        }
    } else {
        None
    }
}

pub open spec fn fix_spacing_op(p: LintProblem, rule: Seq<char>, d: DocView, confs: Seq<(&'static str, &RuleOptions)>) -> Option<FixOpSpec> {
    match line_at(d.lines, p.line as int) {
        None => None,
        Some(chars) => match spacing_target(rule, p.desc@, conf_lookup(confs, rule)) {
            None => None,
            Some((is_min, target)) => if is_min {
                with_fix_text(p.line, grow_spec(chars, p.column - 1, target))
            } else if p.column == 0 {
                None
            } else {
                with_fix_text(p.line, shrink_spec(chars, p.column - 1, target))
            },
        },
    }
}

pub open spec fn spacing_defined(p: LintProblem, rule: Seq<char>, d: DocView, confs: Seq<(&'static str, &RuleOptions)>) -> bool {
    match line_at(d.lines, p.line as int) {
        None => true,
        Some(chars) => match spacing_target(rule, p.desc@, conf_lookup(confs, rule)) {
            Some((true, target)) => p.column >= 1 && (grow_spec(chars, p.column - 1, target) is Some
                ==> chars.len() + target <= usize::MAX),
            _ => true,
        },
    }
}

fn spacing_target_exec(rule: &str, desc: &[char], conf: Option<&RuleOptions>) -> (r: Option<(bool, i64)>)
    ensures
        r == spacing_target(
            rule@,
            desc@,
            match conf {
                Some(c) => Some(*c),
                None => None,
            },
        ),
{
    if str_eq(rule, "colons") {
        match conf {
            Some(RuleOptions::Colons(c)) => Some(
                if eq_str(desc, "too many spaces before colon") {
                    (false, c.max_spaces_before)
                } else {
                    (false, c.max_spaces_after)
                },
            ),
            _ => None,
        }
    } else if str_eq(rule, "hyphens") {
        match conf {
            Some(RuleOptions::Hyphens(c)) => Some((false, c.max_spaces_after)),
            _ => None,
        }
    } else if str_eq(rule, "commas") {
        match conf {
            Some(RuleOptions::Commas(c)) => Some(
                if eq_str(desc, "too many spaces before comma") {
                    (false, c.max_spaces_before)
                } else if eq_str(desc, "too few spaces after comma") {
                    (true, c.min_spaces_after)
                } else {
                    (false, c.max_spaces_after)
                },
            ),
            _ => None,
        }
    } else if str_eq(rule, "braces") {
        match conf {
            Some(RuleOptions::Braces(c)) => Some(inside_target_exec(desc, c)),
            _ => None,
        }
    } else if str_eq(rule, "brackets") {
        match conf {
            Some(RuleOptions::Brackets(c)) => Some(inside_target_exec(desc, c)),
            _ => None,
        }
    } else {
        None
    }
}

fn inside_target_exec(desc: &[char], c: &SpacesInsideConf) -> (r: (bool, i64))
    ensures
        r == inside_target(desc@, *c),
{
    let has_empty = contains_str(desc, "empty");
    if starts_with_str(desc, "too few") {
        if has_empty && c.min_spaces_inside_empty != -1 {
            (true, c.min_spaces_inside_empty)
        } else {
            (true, c.min_spaces_inside)
        }
    } else if has_empty && c.max_spaces_inside_empty != -1 {
        (false, c.max_spaces_inside_empty)
    } else {
        (false, c.max_spaces_inside)
    }
}

fn fixer_spacing(p: &LintProblem, rule: &str, doc: &Doc, confs: &RuleConfs) -> (r: Option<FixOp>)
    requires
        p.line >= 1,
        spacing_defined(*p, rule@, doc@, confs.confs@),
    ensures
        opt_op_view(r) == fix_spacing_op(*p, rule@, doc@, confs.confs@),
{
    let chars = match line_chars(doc, p.line) {
        Some(c) => c,
        None => return None,
    };
    let desc = str_chars(p.desc.as_str());
    let (is_min, target) = match spacing_target_exec(rule, desc.as_slice(), confs.get(rule)) {
        Some(t) => t,
        None => return None,
    };
    if is_min {
        let idx = p.column - 1;
        match grow_space_run(chars.as_slice(), idx, target) {
            Some(text) => Some(FixOp::ReplaceLine { line: p.line, text }),
            None => None,
        }
    } else {
        let idx = match p.column.checked_sub(1) {
            Some(i) => i,
            None => return None,
        };
        match shrink_space_run(chars.as_slice(), idx, target) {
            Some(text) => Some(FixOp::ReplaceLine { line: p.line, text }),
            None => None,
        }
    }
}

// --- truthy ----------------------------------------------------------------

pub open spec fn is_ascii_alpha(c: char) -> bool {
    ('a' <= c && c <= 'z') || ('A' <= c && c <= 'Z')
}

pub open spec fn alpha_pred() -> spec_fn(char) -> bool {
    |c: char| is_ascii_alpha(c)
}

pub open spec fn truthy_word(w: Seq<char>) -> bool {
    w == "yes"@ || w == "on"@ || w == "true"@
}

pub open spec fn falsy_word(w: Seq<char>) -> bool {
    w == "no"@ || w == "off"@ || w == "false"@
}

/// The fixer's words of each truth agree with the loader: its true words
/// read as true and its false words do not, so a word is only ever
/// replaced by one of the same meaning. Together they are the words the
/// truthy rule checks, with `true` and `false`.
pub proof fn lemma_fixer_truth_words(w: Seq<char>)
    ensures
        truthy_word(w) ==> crate::pyyaml::loader::true_words().contains(w),
        falsy_word(w) ==> !crate::pyyaml::loader::true_words().contains(w),
        truthy_word(w) || falsy_word(w) <==> (crate::rules::truthy::truthy_word(w) || w == "true"@ || w
            == "false"@),
{
    reveal_strlit("yes");
    reveal_strlit("Yes");
    reveal_strlit("YES");
    reveal_strlit("true");
    reveal_strlit("True");
    reveal_strlit("TRUE");
    reveal_strlit("on");
    reveal_strlit("On");
    reveal_strlit("ON");
    reveal_strlit("no");
    reveal_strlit("off");
    reveal_strlit("false");
    let tw = crate::pyyaml::loader::true_words();
    if w == "yes"@ {
        assert(tw[0] == w);
    }
    if w == "true"@ {
        assert(tw[3] == w);
    }
    if w == "on"@ {
        assert(tw[6] == w);
    }
    if falsy_word(w) && tw.contains(w) {
        let i = choose|i: int| 0 <= i < tw.len() && tw[i] == w;
        assert(tw[i] == w);
        assert(w.len() >= 2 && tw[i].len() >= 2);
        assert(w[0] == tw[i][0] && w[1] == tw[i][1]);
    }
}

/// The first allowed value that reads (in lowercase) as true, or as false.
pub open spec fn first_with_truth(allowed: Seq<Seq<char>>, truth: bool) -> Option<Seq<char>>
    decreases allowed.len(),
{
    if allowed.len() == 0 {
        None
    } else if (if truth {
        truthy_word(lowercase(allowed[0]))
    } else {
        falsy_word(lowercase(allowed[0]))
    }) {
        Some(allowed[0])
    } else {
        first_with_truth(allowed.drop_first(), truth)
    }
}

pub open spec fn fix_truthy_op(p: LintProblem, d: DocView, confs: Seq<(&'static str, &RuleOptions)>) -> Option<FixOpSpec> {
    match conf_lookup(confs, "truthy"@) {
        Some(RuleOptions::Truthy(c)) => match line_at(d.lines, p.line as int) {
            None => None,
            Some(chars) => {
                let start = p.column - 1;
                if start >= chars.len() {
                    None
                } else {
                    let end = run_end(chars, start, alpha_pred());
                    let w = lowercase(chars.subrange(start, end));
                    if !truthy_word(w) && !falsy_word(w) {
                        None
                    } else {
                        let wanted = if truthy_word(w) {
                            "true"@
                        } else {
                            "false"@
                        };
                        let allowed = strings_view(c.allowed_values@);
                        let repl = if allowed.contains(wanted) {
                            Some(wanted)
                        } else {
                            first_with_truth(allowed, truthy_word(w))
                        };
                        match repl {
                            None => None,
                            Some(rv) => replace(p.line, chars.take(start) + rv + chars.skip(end)),
                        }
                    }
                }
            },
        },
        _ => None,
    }
}

pub open spec fn truthy_defined(p: LintProblem, d: DocView, confs: Seq<(&'static str, &RuleOptions)>) -> bool {
    match conf_lookup(confs, "truthy"@) {
        Some(RuleOptions::Truthy(_)) => p.line >= 1 && (line_at(d.lines, p.line as int) is Some
            ==> p.column >= 1),
        _ => true,
    }
}

fn is_truthy_word(w: &str) -> (r: bool)
    ensures
        r == truthy_word(w@),
{
    str_eq(w, "yes") || str_eq(w, "on") || str_eq(w, "true")
}

fn is_falsy_word(w: &str) -> (r: bool)
    ensures
        r == falsy_word(w@),
{
    str_eq(w, "no") || str_eq(w, "off") || str_eq(w, "false")
}

fn pick_with_truth(allowed: &Vec<String>, truth: bool) -> (r: Option<String>)
    ensures
        match r {
            Some(v) => first_with_truth(strings_view(allowed@), truth) == Some(v@),
            None => first_with_truth(strings_view(allowed@), truth) is None,
        },
{
    let ghost av = strings_view(allowed@);
    assert(av.skip(0) =~= av);
    let mut k: usize = 0;
    while k < allowed.len()
        invariant
            k <= allowed@.len(),
            av == strings_view(allowed@),
            first_with_truth(av.skip(k as int), truth) == first_with_truth(av, truth),
        decreases allowed@.len() - k,
    {
        assert(av.skip(k as int)[0] == av[k as int]);
        assert(av.skip(k as int).drop_first() =~= av.skip(k + 1));
        let lv = to_lowercase(allowed[k].as_str());
        let ok = if truth {
            is_truthy_word(lv.as_str())
        } else {
            is_falsy_word(lv.as_str())
        };
        if ok {
            return Some(allowed[k].clone());
        }
        k = k + 1;
    }
    None
}

fn fixer_truthy(p: &LintProblem, doc: &Doc, confs: &RuleConfs) -> (r: Option<FixOp>)
    requires
        truthy_defined(*p, doc@, confs.confs@),
    ensures
        opt_op_view(r) == fix_truthy_op(*p, doc@, confs.confs@),
{
    let conf = match confs.get("truthy") {
        Some(RuleOptions::Truthy(c)) => c,
        _ => return None,
    };
    let chars = match line_chars(doc, p.line) {
        Some(c) => c,
        None => return None,
    };
    let start = p.column - 1;
    if start >= chars.len() {
        return None;
    }
    let mut end = start;
    while end < chars.len() && (('a' <= chars[end] && chars[end] <= 'z') || ('A' <= chars[end]
        && chars[end] <= 'Z'))
        invariant
            start <= end <= chars@.len(),
            run_end(chars@, end as int, alpha_pred()) == run_end(chars@, start as int, alpha_pred()),
        decreases chars@.len() - end,
    {
        end = end + 1;
    }
    let word_v = slice_to_vec(chars.as_slice(), start, end);
    let word = chars_to_string(word_v.as_slice());
    let lower = to_lowercase(word.as_str());
    let truthy = is_truthy_word(lower.as_str());
    let falsy = is_falsy_word(lower.as_str());
    if !truthy && !falsy {
        return None;
    }
    let wanted = if truthy {
        "true"
    } else {
        "false"
    };
    let allowed = &conf.allowed_values;
    let wanted_v = str_chars(wanted);
    let repl: String = if contains_value(allowed, wanted_v.as_slice()) {
        wanted.to_owned()
    } else {
        match pick_with_truth(allowed, truthy) {
            Some(v) => v,
            None => return None,
        }
    };
    let mut out = slice_to_vec(chars.as_slice(), 0, start);
    push_str(&mut out, repl.as_str());
    let tail = slice_to_vec(chars.as_slice(), end, chars.len());
    push_all(&mut out, tail.as_slice());
    Some(FixOp::ReplaceLine { line: p.line, text: chars_to_string(out.as_slice()) })
}

// --- octal-values ------------------------------------------------------------

/// The text of capture group `group` of the first match of the regular
/// expression `pattern` in `text`, as the `regex` crate finds it; `None` when
/// the pattern is invalid, does not match, or the group takes no part.
pub uninterp spec fn regex_group(pattern: Seq<char>, text: Seq<char>, group: nat) -> Option<Seq<char>>;

/// `regex::Regex::new` on `pattern`, `Regex::captures` on `text`, then
/// `Captures::get` of `group`.
#[verifier::external_body]
fn regex_capture(pattern: &str, text: &str, group: usize) -> (r: Option<String>)
    ensures
        match r {
            Some(g) => regex_group(pattern@, text@, group as nat) == Some(g@),
            None => regex_group(pattern@, text@, group as nat) is None,
        },
{
    let re = match regex::Regex::new(pattern) {
        Ok(re) => re,
        Err(_) => return None,
    };
    match re.captures(text) {
        Some(caps) => match caps.get(group) {
            Some(m) => Some(m.as_str().to_owned()),
            None => None,
        },
        None => None,
    }
}

/// The quoted value in an `octal-values` message.
pub const QUOTED_VALUE: &'static str = "\"(.*)\"$";

/// The expected indentation in an `indentation` message.
pub const WRONG_INDENT: &'static str = "^wrong indentation: expected (\\d+) but found (\\d+)$";

pub open spec fn fix_octal_op(p: LintProblem, d: DocView) -> Option<FixOpSpec> {
    match regex_group(QUOTED_VALUE@, p.desc@, 1) {
        None => None,
        Some(value) => match line_at(d.lines, p.line as int) {
            None => None,
            Some(chars) => {
                let end = p.column - 1;
                if end < value.len() || end > chars.len() {
                    None
                } else {
                    let start = end - value.len();
                    if chars.subrange(start, end) != value {
                        None
                    } else {
                        replace(
                            p.line,
                            chars.take(start) + seq!['\''] + value + seq!['\''] + chars.skip(end),
                        )
                    }
                }
            },
        },
    }
}

pub open spec fn octal_defined(p: LintProblem, d: DocView) -> bool {
    regex_group(QUOTED_VALUE@, p.desc@, 1) is Some ==> p.line >= 1 && (line_at(d.lines, p.line as int) is Some
        ==> p.column >= 1)
}

fn fixer_octal(p: &LintProblem, doc: &Doc) -> (r: Option<FixOp>)
    requires
        octal_defined(*p, doc@),
    ensures
        opt_op_view(r) == fix_octal_op(*p, doc@),
{
    let value = match regex_capture(QUOTED_VALUE, p.desc.as_str(), 1) {
        Some(v) => str_chars(v.as_str()),
        None => return None,
    };
    let chars = match line_chars(doc, p.line) {
        Some(c) => c,
        None => return None,
    };
    let end = p.column - 1;
    if end < value.len() || end > chars.len() {
        return None;
    }
    let start = end - value.len();
    let found = slice_to_vec(chars.as_slice(), start, end);
    if !eq_chars(found.as_slice(), value.as_slice()) {
        return None;
    }
    let mut out = slice_to_vec(chars.as_slice(), 0, start);
    out.push('\'');
    push_all(&mut out, value.as_slice());
    out.push('\'');
    let tail = slice_to_vec(chars.as_slice(), end, chars.len());
    push_all(&mut out, tail.as_slice());
    assert(out@ =~= chars@.take(start as int) + seq!['\''] + value@ + seq!['\''] + chars@.skip(end as int));
    Some(FixOp::ReplaceLine { line: p.line, text: chars_to_string(out.as_slice()) })
}

// --- quoted-strings ----------------------------------------------------------

pub open spec fn fix_redundant_quotes(line: usize, chars: Seq<char>, start: int) -> Option<FixOpSpec> {
    let q = chars[start];
    if q != '\'' && q != '"' {
        None
    } else {
        let e = find_char_from(chars, start + 1, q);
        if q == '"' && chars.subrange(start + 1, e).contains('\\') {
            None
        } else if e >= chars.len() {
            None
        } else {
            replace(line, chars.take(start) + chars.subrange(start + 1, e) + chars.skip(e + 1))
        }
    }
}

/// Where an inline comment starts: the first `#` after `start` that follows
/// a space, or the end of the line.
pub open spec fn comment_cut(chars: Seq<char>, i: int, start: int) -> int
    decreases chars.len() - i,
{
    if i < 0 || i >= chars.len() {
        chars.len() as int
    } else if chars[i] == '#' && i > start && chars[i - 1] == ' ' {
        i
    } else {
        comment_cut(chars, i + 1, start)
    }
}

/// Characters whose presence makes adding quotes too risky.
pub open spec fn risky_value(v: Seq<char>) -> bool {
    v.contains('\'') || v.contains('"') || v.contains('\\') || v.contains(',') || v.contains('{')
        || v.contains('}') || v.contains('[') || v.contains(']') || contains_seq(v, ": "@) || (v.len()
        > 0 && v.last() == ':')
}

pub open spec fn fix_unquoted(line: usize, chars: Seq<char>, start: int, qt: QuoteType) -> Option<FixOpSpec> {
    if chars[start] == '\'' || chars[start] == '"' {
        None
    } else {
        let cut = comment_cut(chars, start, start);
        let rs = run_start(chars, cut, space_pred());
        let end = if rs < start {
            start
        } else {
            rs
        };
        if end <= start {
            None
        } else {
            let value = chars.subrange(start, end);
            if risky_value(value) {
                None
            } else {
                let q = if qt == QuoteType::Single {
                    '\''
                } else {
                    '"'
                };
                replace(line, chars.take(start) + seq![q] + value + seq![q] + chars.skip(end))
            }
        }
    }
}

pub open spec fn fix_quoted_op(p: LintProblem, d: DocView, confs: Seq<(&'static str, &RuleOptions)>) -> Option<FixOpSpec> {
    match line_at(d.lines, p.line as int) {
        None => None,
        Some(chars) => {
            let start = p.column - 1;
            if start >= chars.len() {
                None
            } else if contains_seq(p.desc@, "redundantly quoted"@) {
                fix_redundant_quotes(p.line, chars, start)
            } else if contains_seq(p.desc@, "is not quoted"@) {
                match conf_lookup(confs, "quoted-strings"@) {
                    Some(RuleOptions::QuotedStrings(c)) => fix_unquoted(p.line, chars, start, c.quote_type),
                    _ => None,
                }
            } else {
                None
            }
        },
    }
}

pub open spec fn quoted_defined(p: LintProblem, d: DocView) -> bool {
    p.line >= 1 && (line_at(d.lines, p.line as int) is Some ==> p.column >= 1)
}

fn redundant_exec(line: usize, chars: &[char], start: usize) -> (r: Option<FixOp>)
    requires
        start < chars@.len(),
    ensures
        opt_op_view(r) == fix_redundant_quotes(line, chars@, start as int),
{
    let q = chars[start];
    if q != '\'' && q != '"' {
        return None;
    }
    proof {
        crate::text::lemma_find_char_from(chars@, start + 1, q);
    }
    let ghost e = find_char_from(chars@, start + 1, q);
    let mut end = start + 1;
    while end < chars.len() && chars[end] != q
        invariant
            start + 1 <= end <= chars@.len(),
            q == chars@[start as int],
            find_char_from(chars@, end as int, q) == e,
            e == find_char_from(chars@, start + 1, q),
            start + 1 <= e <= chars@.len(),
            end <= e,
            q == '"' ==> forall|x: int| start + 1 <= x < end ==> chars@[x] != '\\',
        decreases chars@.len() - end,
    {
        proof {
            crate::text::lemma_find_char_from(chars@, end as int, q);
        }
        if q == '"' && chars[end] == '\\' {
            proof {
                assert(e > end);
                let sub = chars@.subrange(start + 1, e);
                assert(sub[end - start - 1] == '\\');
                assert(sub.contains('\\'));
            }
            return None;
        }
        if q == '\'' && chars[end] == '\'' {
            return None;
        }
        end = end + 1;
    }
    proof {
        crate::text::lemma_find_char_from(chars@, end as int, q);
        assert(end == e);
        if q == '"' {
            assert forall|x: int| 0 <= x < chars@.subrange(start + 1, e).len() implies #[trigger] chars@.subrange(start + 1, e)[x] != '\\' by {
                assert(chars@.subrange(start + 1, e)[x] == chars@[start + 1 + x]);
            }
        }
    }
    if end >= chars.len() {
        return None;
    }
    let mut out = slice_to_vec(chars, 0, start);
    let mid = slice_to_vec(chars, start + 1, end);
    push_all(&mut out, mid.as_slice());
    let tail = slice_to_vec(chars, end + 1, chars.len());
    push_all(&mut out, tail.as_slice());
    Some(FixOp::ReplaceLine { line, text: chars_to_string(out.as_slice()) })
}

fn risky_exec(v: &[char]) -> (r: bool)
    ensures
        r == risky_value(v@),
{
    contains_char(v, '\'') || contains_char(v, '"') || contains_char(v, '\\') || contains_char(
        v,
        ',',
    ) || contains_char(v, '{') || contains_char(v, '}') || contains_char(v, '[') || contains_char(
        v,
        ']',
    ) || contains_str(v, ": ") || (v.len() > 0 && v[v.len() - 1] == ':')
}

fn comment_cut_exec(chars: &[char], start: usize) -> (r: usize)
    requires
        start <= chars@.len(),
    ensures
        r == comment_cut(chars@, start as int, start as int),
        start <= r <= chars@.len(),
{
    let mut i = start;
    while i < chars.len()
        invariant
            start <= i <= chars@.len(),
            comment_cut(chars@, i as int, start as int) == comment_cut(chars@, start as int, start as int),
        decreases chars@.len() - i,
    {
        if chars[i] == '#' && i > start && chars[i - 1] == ' ' {
            return i;
        }
        i = i + 1;
    }
    chars.len()
}

fn unquoted_exec(line: usize, chars: &[char], start: usize, qt: QuoteType) -> (r: Option<FixOp>)
    requires
        start < chars@.len(),
    ensures
        opt_op_view(r) == fix_unquoted(line, chars@, start as int, qt),
{
    if chars[start] == '\'' || chars[start] == '"' {
        return None;
    }
    let cut = comment_cut_exec(chars, start);
    let mut end = cut;
    while end > start && chars[end - 1] == ' '
        invariant
            start <= end <= cut <= chars@.len(),
            run_start(chars@, end as int, space_pred()) == run_start(chars@, cut as int, space_pred()),
        decreases end,
    {
        end = end - 1;
    }
    proof {
        crate::text::lemma_run_start(chars@, end as int, space_pred());
        if end > start {
            assert(run_start(chars@, end as int, space_pred()) == end);
        }
    }
    if end <= start {
        return None;
    }
    let value = slice_to_vec(chars, start, end);
    if risky_exec(value.as_slice()) {
        return None;
    }
    let q = if qt == QuoteType::Single {
        '\''
    } else {
        '"'
    };
    let mut out = slice_to_vec(chars, 0, start);
    out.push(q);
    push_all(&mut out, value.as_slice());
    out.push(q);
    let tail = slice_to_vec(chars, end, chars.len());
    push_all(&mut out, tail.as_slice());
    assert(out@ =~= chars@.take(start as int) + seq![q] + value@ + seq![q] + chars@.skip(end as int));
    Some(FixOp::ReplaceLine { line, text: chars_to_string(out.as_slice()) })
}

fn fixer_quoted(p: &LintProblem, doc: &Doc, confs: &RuleConfs) -> (r: Option<FixOp>)
    requires
        quoted_defined(*p, doc@),
    ensures
        opt_op_view(r) == fix_quoted_op(*p, doc@, confs.confs@),
{
    let chars = match line_chars(doc, p.line) {
        Some(c) => c,
        None => return None,
    };
    let start = p.column - 1;
    if start >= chars.len() {
        return None;
    }
    let desc = str_chars(p.desc.as_str());
    if contains_str(desc.as_slice(), "redundantly quoted") {
        redundant_exec(p.line, chars.as_slice(), start)
    } else if contains_str(desc.as_slice(), "is not quoted") {
        match confs.get("quoted-strings") {
            Some(RuleOptions::QuotedStrings(c)) => unquoted_exec(p.line, chars.as_slice(), start, c.quote_type),
            _ => None,
        }
    } else {
        None
    }
}

// --- indentation -------------------------------------------------------------

pub open spec fn fix_indentation_op(p: LintProblem, d: DocView) -> Option<FixOpSpec> {
    match regex_group(WRONG_INDENT@, p.desc@, 1) {
        None => None,
        Some(g) => match parse_usize_spec(g) {
            None => None,
            Some(expected) => match line_at(d.lines, p.line as int) {
                None => None,
                Some(l) => if leading_spaces_spec(l) == expected {
                    None
                } else {
                    replace(p.line, spaces(expected as nat) + trim_start(l))
                },
            },
        },
    }
}

pub open spec fn indentation_defined(p: LintProblem) -> bool {
    (regex_group(WRONG_INDENT@, p.desc@, 1) matches Some(g) && parse_usize_spec(g) is Some) ==> p.line >= 1
}

fn fixer_indentation(p: &LintProblem, doc: &Doc) -> (r: Option<FixOp>)
    requires
        indentation_defined(*p),
    ensures
        opt_op_view(r) == fix_indentation_op(*p, doc@),
{
    let g = match regex_capture(WRONG_INDENT, p.desc.as_str(), 1) {
        Some(g) => str_chars(g.as_str()),
        None => return None,
    };
    let expected = match parse_usize(g.as_slice()) {
        Some(e) => e,
        None => return None,
    };
    let chars = match line_chars(doc, p.line) {
        Some(c) => c,
        None => return None,
    };
    let l = chars_to_string(chars.as_slice());
    let found = leading_spaces(l.as_str());
    if found == expected {
        return None;
    }
    let t = trim_start_chars(chars.as_slice());
    let mut out: Vec<char> = Vec::new();
    push_spaces(&mut out, expected);
    push_all(&mut out, t.as_slice());
    Some(FixOp::ReplaceLine { line: p.line, text: chars_to_string(out.as_slice()) })
}

// --- dispatch ------------------------------------------------------------------

pub open spec fn is_spacing_rule(r: Seq<char>) -> bool {
    r == "colons"@ || r == "hyphens"@ || r == "commas"@ || r == "braces"@ || r == "brackets"@
}

/// The edit that fixes a problem, if its rule has a fixer that applies
/// (unsafe fixers only with `allow_unsafe`); `windows` tells whether the
/// platform's line ending is CR LF.
pub open spec fn fixer_spec(
    p: LintProblem,
    d: DocView,
    confs: Seq<(&'static str, &RuleOptions)>,
    allow_unsafe: bool,
    windows: bool,
) -> Option<FixOpSpec> {
    match p.rule {
        None => None,
        Some(rule) => {
            let r = rule@;
            if !allow_unsafe && !fix_is_safe_spec(r) {
                None
            } else if r == "trailing-spaces"@ {
                fix_trailing(p, d)
            } else if r == "new-line-at-end-of-file"@ {
                Some(FixOpSpec::EnsureFinalNewline)
            } else if r == "new-lines"@ {
                fix_new_lines(confs, windows)
            } else if r == "empty-lines"@ {
                fix_empty_lines_op(p, d, confs)
            } else if r == "document-start"@ {
                fix_document_start_op(p, d, confs)
            } else if r == "document-end"@ {
                fix_document_end_op(p, d, confs)
            } else if r == "comments"@ {
                fix_comments_op(p, d, confs)
            } else if r == "comments-indentation"@ {
                fix_comments_indentation_op(p, d)
            } else if is_spacing_rule(r) {
                fix_spacing_op(p, r, d, confs)
            } else if r == "truthy"@ {
                fix_truthy_op(p, d, confs)
            } else if r == "octal-values"@ {
                fix_octal_op(p, d)
            } else if r == "quoted-strings"@ {
                fix_quoted_op(p, d, confs)
            } else if r == "indentation"@ {
                fix_indentation_op(p, d)
            } else {
                None
            }
        },
    }
}

/// The problems whose fixing runs to completion: those whose fixer reads
/// no line or column before 1 and inserts no run of spaces larger than
/// memory, in a document whose line count fits the machine's counters.
pub open spec fn fixer_defined(
    p: LintProblem,
    d: DocView,
    confs: Seq<(&'static str, &RuleOptions)>,
    allow_unsafe: bool,
) -> bool {
    &&& doc_fits(d)
    &&& match p.rule {
        None => true,
        Some(rule) => {
            let r = rule@;
            if !allow_unsafe && !fix_is_safe_spec(r) {
                true
            } else if r == "trailing-spaces"@ || r == "document-end"@ || r == "comments-indentation"@ {
                p.line >= 1
            } else if r == "empty-lines"@ {
                conf_lookup(confs, "empty-lines"@) matches Some(RuleOptions::EmptyLines(_)) ==> p.line >= 1
            } else if r == "document-start"@ {
                document_start_defined(p, confs)
            } else if r == "comments"@ {
                p.line >= 1 && comments_defined(p, d, confs)
            } else if is_spacing_rule(r) {
                p.line >= 1 && spacing_defined(p, r, d, confs)
            } else if r == "truthy"@ {
                truthy_defined(p, d, confs)
            } else if r == "octal-values"@ {
                octal_defined(p, d)
            } else if r == "quoted-strings"@ {
                quoted_defined(p, d)
            } else if r == "indentation"@ {
                indentation_defined(p)
            } else {
                true
            }
        },
    }
}

fn comments_ready(p: &LintProblem, doc: &Doc, confs: &RuleConfs) -> (r: bool)
    requires
        p.line >= 1,
    ensures
        r == comments_defined(*p, doc@, confs.confs@),
{
    let chars = match line_chars(doc, p.line) {
        Some(c) => c,
        None => return true,
    };
    if str_eq(p.desc.as_str(), "missing starting space in comment") {
        return p.column >= 1;
    }
    let desc = str_chars(p.desc.as_str());
    if starts_with_str(desc.as_slice(), "too few spaces before comment") {
        let min = match confs.get("comments") {
            Some(RuleOptions::Comments(c)) => c.min_spaces_from_content,
            _ => 2,
        };
        p.column >= 1 && grow_fits(chars.as_slice(), p.column - 1, min)
    } else {
        true
    }
}

fn spacing_ready(p: &LintProblem, rule: &str, doc: &Doc, confs: &RuleConfs) -> (r: bool)
    requires
        p.line >= 1,
    ensures
        r == spacing_defined(*p, rule@, doc@, confs.confs@),
{
    let chars = match line_chars(doc, p.line) {
        Some(c) => c,
        None => return true,
    };
    let desc = str_chars(p.desc.as_str());
    match spacing_target_exec(rule, desc.as_slice(), confs.get(rule)) {
        Some((true, target)) => p.column >= 1 && grow_fits(chars.as_slice(), p.column - 1, target),
        _ => true,
    }
}

/// Whether `fixer_for` can work out the fix of `problem` in `doc`: the
/// line counts fit, and the line and column it reads count from 1 where
/// the fixer reads them.
pub fn fixer_defined_exec(problem: &LintProblem, doc: &Doc, confs: &RuleConfs, allow_unsafe: bool) -> (r: bool)
    ensures
        r == fixer_defined(*problem, doc@, confs.confs@, allow_unsafe),
{
    let n = doc.lines.len();
    if !(n < usize::MAX && (n as u64) <= (i64::MAX as u64)) {
        return false;
    }
    let rule = match problem.rule {
        Some(r) => r,
        None => return true,
    };
    if !allow_unsafe && !fix_is_safe(rule) {
        return true;
    }
    proof {
        reveal_strlit("trailing-spaces");
        reveal_strlit("empty-lines");
        reveal_strlit("document-start");
        reveal_strlit("document-end");
        reveal_strlit("comments");
        reveal_strlit("comments-indentation");
        reveal_strlit("colons");
        reveal_strlit("hyphens");
        reveal_strlit("commas");
        reveal_strlit("braces");
        reveal_strlit("brackets");
        reveal_strlit("truthy");
        reveal_strlit("octal-values");
        reveal_strlit("quoted-strings");
        reveal_strlit("indentation");
    }
    let has_line = problem.line >= 1 && problem.line - 1 < doc.lines.len();
    if str_eq(rule, "trailing-spaces") || str_eq(rule, "document-end") || str_eq(
        rule,
        "comments-indentation",
    ) {
        problem.line >= 1
    } else if str_eq(rule, "empty-lines") {
        match confs.get("empty-lines") {
            Some(RuleOptions::EmptyLines(_)) => problem.line >= 1,
            _ => true,
        }
    } else if str_eq(rule, "document-start") {
        match confs.get("document-start") {
            Some(RuleOptions::DocumentStart(c)) => c.present || problem.line >= 1,
            _ => true,
        }
    } else if str_eq(rule, "comments") {
        assert("comments"@.len() == 8 && "comments-indentation"@.len() == 20);
        problem.line >= 1 && comments_ready(problem, doc, confs)
    } else if str_eq(rule, "colons") || str_eq(rule, "hyphens") || str_eq(rule, "commas") || str_eq(
        rule,
        "braces",
    ) || str_eq(rule, "brackets") {
        problem.line >= 1 && spacing_ready(problem, rule, doc, confs)
    } else if str_eq(rule, "truthy") {
        match confs.get("truthy") {
            Some(RuleOptions::Truthy(_)) => problem.line >= 1 && (!has_line || problem.column >= 1),
            _ => true,
        }
    } else if str_eq(rule, "octal-values") {
        if problem.line >= 1 && (!has_line || problem.column >= 1) {
            true
        } else {
            regex_capture(QUOTED_VALUE, problem.desc.as_str(), 1).is_none()
        }
    } else if str_eq(rule, "quoted-strings") {
        problem.line >= 1 && (!has_line || problem.column >= 1)
    } else if str_eq(rule, "indentation") {
        if problem.line >= 1 {
            true
        } else {
            match regex_capture(WRONG_INDENT, problem.desc.as_str(), 1) {
                Some(g) => {
                    let gc = str_chars(g.as_str());
                    parse_usize(gc.as_slice()).is_none()
                },
                None => true,
            }
        }
    } else {
        true
    }
}

/// The edit that fixes `problem` in `doc`, if any.
pub fn fixer_for(problem: &LintProblem, doc: &Doc, confs: &RuleConfs, allow_unsafe: bool) -> (r: Option<FixOp>)
    requires
        fixer_defined(*problem, doc@, confs.confs@, allow_unsafe),
    ensures
        opt_op_view(r) == fixer_spec(*problem, doc@, confs.confs@, allow_unsafe, false) || opt_op_view(r)
            == fixer_spec(*problem, doc@, confs.confs@, allow_unsafe, true),
{
    let rule = match problem.rule {
        Some(r) => r,
        None => return None,
    };
    if !allow_unsafe && !fix_is_safe(rule) {
        return None;
    }
    proof {
        reveal_strlit("trailing-spaces");
        reveal_strlit("new-line-at-end-of-file");
        reveal_strlit("new-lines");
        reveal_strlit("empty-lines");
        reveal_strlit("document-start");
        reveal_strlit("document-end");
        reveal_strlit("comments");
        reveal_strlit("comments-indentation");
        reveal_strlit("colons");
        reveal_strlit("hyphens");
        reveal_strlit("commas");
        reveal_strlit("braces");
        reveal_strlit("brackets");
        reveal_strlit("truthy");
        reveal_strlit("octal-values");
        reveal_strlit("quoted-strings");
        reveal_strlit("indentation");
    }
    if str_eq(rule, "trailing-spaces") {
        fixer_trailing(problem, doc)
    } else if str_eq(rule, "new-line-at-end-of-file") {
        Some(FixOp::EnsureFinalNewline)
    } else if str_eq(rule, "new-lines") {
        fixer_new_lines(confs)
    } else if str_eq(rule, "empty-lines") {
        fixer_empty_lines(problem, doc, confs)
    } else if str_eq(rule, "document-start") {
        fixer_document_start(problem, doc, confs)
    } else if str_eq(rule, "document-end") {
        fixer_document_end(problem, doc, confs)
    } else if str_eq(rule, "comments") {
        assert("comments"@.len() == 8 && "comments-indentation"@.len() == 20);
        fixer_comments(problem, doc, confs)
    } else if str_eq(rule, "comments-indentation") {
        fixer_comments_indentation(problem, doc)
    } else if str_eq(rule, "colons") || str_eq(rule, "hyphens") || str_eq(rule, "commas") || str_eq(
        rule,
        "braces",
    ) || str_eq(rule, "brackets") {
        fixer_spacing(problem, rule, doc, confs)
    } else if str_eq(rule, "truthy") {
        fixer_truthy(problem, doc, confs)
    } else if str_eq(rule, "octal-values") {
        fixer_octal(problem, doc)
    } else if str_eq(rule, "quoted-strings") {
        fixer_quoted(problem, doc, confs)
    } else if str_eq(rule, "indentation") {
        fixer_indentation(problem, doc)
    } else {
        None
    }
}

/// Without unsafe fixes allowed, a problem of a rule whose fix may change
/// how a document is read (`truthy`, `octal-values`, `quoted-strings`,
/// `indentation`) gets no fix.
pub proof fn lemma_safe_mode_leaves_unsafe_rules(
    p: LintProblem,
    d: DocView,
    confs: Seq<(&'static str, &RuleOptions)>,
    windows: bool,
)
    requires
        p.rule matches Some(r) && !fix_is_safe_spec(r@),
    ensures
        fixer_spec(p, d, confs, false, windows) is None,
{
}

} // verus!
