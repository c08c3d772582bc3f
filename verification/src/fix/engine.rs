//! The fixing engine: lint, ask each problem's fixer for an edit, apply the
//! edits, and start over on the result, for a bounded number of passes.

use vstd::prelude::*;
use crate::diagnostic::SpecDiagnostic;
use crate::fix::fixers::{RuleConfs, RuleOptions, fixer_defined, fixer_defined_exec, fixer_for, fixer_spec, op_view};
use crate::fix::{Doc, DocView, FixOp, FixResult, apply_ops, apply_ops_spec, ops_valid, parse_spec, render_spec};
use crate::linter::{LintProblem, ids_view, problem_of, problems_report, run, run_outcome};
use crate::rule::{RuleContext, str_eq};
use crate::rules::rule_set::{AnyRule, FixError, LanguageConfig, RuleSet, rule_names, rules_accept, rules_result};
use crate::diagnostic::diags_view;
use crate::text::{max_text_len, str_chars};

verus! {

/// The most lint-and-fix passes that one call makes.
pub const MAX_PASSES: usize = 25;

/// The rules can lint `content` with `cfg`: it fits the machine, and no rule
/// that is on would cut it inside a character.
pub open spec fn lint_ready(rules: Seq<AnyRule>, cfg: Option<LanguageConfig>, content: Seq<char>) -> bool {
    content.len() <= max_text_len() && rules_accept(rules, content, cfg)
}

/// `out` is a possible lint of `content`: the diagnostics of the rules, as
/// problems, through the directive comments and the syntax check.
pub open spec fn lint_outcome(
    rules: Seq<AnyRule>,
    cfg: Option<LanguageConfig>,
    enabled_ids: Seq<&'static str>,
    content: Seq<char>,
    out: Seq<LintProblem>,
) -> bool {
    exists|ds: Seq<SpecDiagnostic>, reported: Seq<LintProblem>|
        #![trigger rules_result(rules, content, cfg, ds), problems_report(ds, rule_names(rules), reported)]
        rules_result(rules, content, cfg, ds) && problems_report(ds, rule_names(rules), reported)
            && run_outcome(content, enabled_ids, reported, out)
}

/// `ops` are the edits that the fixers give the problems `ps` of the
/// document `d`, in the problems' order, for the problems that get one.
pub open spec fn fix_ops(
    ps: Seq<LintProblem>,
    d: DocView,
    confs: Seq<(&'static str, &RuleOptions)>,
    allow_unsafe: bool,
    ops: Seq<FixOp>,
) -> bool
    decreases ps.len(),
{
    if ps.len() == 0 {
        ops.len() == 0
    } else {
        let a = fixer_spec(ps.last(), d, confs, allow_unsafe, false);
        let b = fixer_spec(ps.last(), d, confs, allow_unsafe, true);
        ||| (a is None || b is None) && fix_ops(ps.drop_last(), d, confs, allow_unsafe, ops)
        ||| ops.len() > 0 && (a == Some(op_view(ops.last())) || b == Some(op_view(ops.last())))
            && fix_ops(ps.drop_last(), d, confs, allow_unsafe, ops.drop_last())
    }
}

/// Every problem of `ps` is one whose fixer can run on `d`.
pub open spec fn all_fixable(
    ps: Seq<LintProblem>,
    d: DocView,
    confs: Seq<(&'static str, &RuleOptions)>,
    allow_unsafe: bool,
) -> bool {
    forall|i: int| 0 <= i < ps.len() ==> fixer_defined(#[trigger] ps[i], d, confs, allow_unsafe)
}

/// `res` is a possible outcome of at most `passes` passes on `content`. A
/// pass lints the content, gets the edits of the problems' fixers, applies
/// them to the content's lines and renders them again; it stops the run
/// when no edit comes, none applies or the text comes back unchanged.
/// Content that the rules cannot lint, a problem whose fixer cannot run on
/// it, and an edit with an impossible line number end the run with
/// `Unprocessable`.
pub open spec fn fix_content_run(
    rules: Seq<AnyRule>,
    cfg: Option<LanguageConfig>,
    enabled_ids: Seq<&'static str>,
    confs: Seq<(&'static str, &RuleOptions)>,
    allow_unsafe: bool,
    content: Seq<char>,
    passes: nat,
    res: Result<Seq<char>, FixError>,
) -> bool
    decreases passes,
{
    if passes == 0 {
        res == Ok::<Seq<char>, FixError>(content)
    } else if !lint_ready(rules, cfg, content) {
        res == Err::<Seq<char>, FixError>(FixError::Unprocessable)
    } else {
        let d = parse_spec(content);
        exists|ps: Seq<LintProblem>|
            #[trigger] lint_outcome(rules, cfg, enabled_ids, content, ps) && if !all_fixable(ps, d, confs, allow_unsafe) {
                res == Err::<Seq<char>, FixError>(FixError::Unprocessable)
            } else {
                exists|ops: Seq<FixOp>| #[trigger] fix_ops(ps, d, confs, allow_unsafe, ops) && if ops.len() == 0 {
                    res == Ok::<Seq<char>, FixError>(content)
                } else if !ops_valid(ops) {
                    res == Err::<Seq<char>, FixError>(FixError::Unprocessable)
                } else {
                    let (d2, n) = apply_ops_spec(d, ops);
                    let next = render_spec(d2);
                    if n == 0 || next == content {
                        res == Ok::<Seq<char>, FixError>(content)
                    } else {
                        fix_content_run(rules, cfg, enabled_ids, confs, allow_unsafe, next, (passes - 1) as nat, res)
                    }
                }
            }
    }
}

/// Lint `content` with the rules, then through the directive comments and
/// the syntax check.
fn lint_pass(
    content: &str,
    rules: &RuleSet,
    lang: &LanguageConfig,
    enabled_ids: &[&'static str],
    ids: &[&'static str],
) -> (r: Vec<LintProblem>)
    requires
        lint_ready(rules@, Some(*lang), content@),
        ids_view(ids@) == rule_names(rules@),
    ensures
        lint_outcome(rules@, Some(*lang), enabled_ids@, content@, r@),
{
    let ctx = RuleContext::new(content);
    let diags = rules.check(&ctx, Some(lang));
    let ghost ds = diags_view(diags@);
    let mut reported: Vec<LintProblem> = Vec::new();
    let mut i: usize = 0;
    while i < diags.len()
        invariant
            i <= diags@.len(),
            ds == diags_view(diags@),
            ids_view(ids@) == rule_names(rules@),
            problems_report(ds.take(i as int), rule_names(rules@), reported@),
        decreases diags@.len() - i,
    {
        let p = problem_of(&diags[i], ids);
        let ghost prev = reported@;
        reported.push(p);
        proof {
            let t = ds.take(i + 1);
            assert forall|k: int| 0 <= k < t.len() implies crate::linter::reports(
                t[k],
                rule_names(rules@),
                #[trigger] reported@[k],
            ) by {
                if k < i {
                    assert(reported@[k] == prev[k]);
                    assert(t[k] == ds.take(i as int)[k]);
                } else {
                    assert(t[k] == diags@[i as int]@);
                }
            }
        }
        i = i + 1;
    }
    assert(ds.take(diags@.len() as int) =~= ds);
    run(content, enabled_ids, reported.as_slice())
}

/// Every edit has a line number that `apply_ops` can use.
fn ops_valid_exec(ops: &Vec<FixOp>) -> (r: bool)
    ensures
        r == ops_valid(ops@),
{
    let mut i: usize = 0;
    while i < ops.len()
        invariant
            i <= ops@.len(),
            forall|k: int|
                0 <= k < i ==> match #[trigger] ops@[k] {
                    FixOp::DeleteLines { start, count } => start + count <= usize::MAX,
                    FixOp::InsertLine { at, .. } => at >= 1,
                    _ => true,
                },
        decreases ops@.len() - i,
    {
        match &ops[i] {
            FixOp::DeleteLines { start, count } => {
                if *count > usize::MAX - *start {
                    return false;
                }
            },
            FixOp::InsertLine { at, .. } => {
                if *at < 1 {
                    return false;
                }
            },
            _ => {},
        }
        i = i + 1;
    }
    true
}

/// The edits that the fixers give the problems `ps` of `doc`.
fn collect_ops(ps: &Vec<LintProblem>, doc: &Doc, confs: &RuleConfs, allow_unsafe: bool) -> (r: Vec<FixOp>)
    requires
        all_fixable(ps@, doc@, confs.confs@, allow_unsafe),
    ensures
        fix_ops(ps@, doc@, confs.confs@, allow_unsafe, r@),
{
    let mut ops: Vec<FixOp> = Vec::new();
    let mut i: usize = 0;
    while i < ps.len()
        invariant
            i <= ps@.len(),
            all_fixable(ps@, doc@, confs.confs@, allow_unsafe),
            fix_ops(ps@.take(i as int), doc@, confs.confs@, allow_unsafe, ops@),
        decreases ps@.len() - i,
    {
        assert(fixer_defined(ps@[i as int], doc@, confs.confs@, allow_unsafe));
        let ghost prev = ops@;
        let r = fixer_for(&ps[i], doc, confs, allow_unsafe);
        proof {
            assert(ps@.take(i + 1).drop_last() =~= ps@.take(i as int));
            assert(ps@.take(i + 1).last() == ps@[i as int]);
        }
        match r {
            Some(op) => {
                ops.push(op);
                assert(ops@.drop_last() =~= prev);
            },
            None => {},
        }
        i = i + 1;
    }
    assert(ps@.take(ps@.len() as int) =~= ps@);
    ops
}

/// Whether every problem of `ps` is one whose fixer can run on `doc`.
fn all_fixable_exec(ps: &Vec<LintProblem>, doc: &Doc, confs: &RuleConfs, allow_unsafe: bool) -> (r: bool)
    ensures
        r == all_fixable(ps@, doc@, confs.confs@, allow_unsafe),
{
    let mut i: usize = 0;
    while i < ps.len()
        invariant
            i <= ps@.len(),
            forall|k: int| 0 <= k < i ==> fixer_defined(#[trigger] ps@[k], doc@, confs.confs@, allow_unsafe),
        decreases ps@.len() - i,
    {
        if !fixer_defined_exec(&ps[i], doc, confs, allow_unsafe) {
            return false;
        }
        i = i + 1;
    }
    true
}

/// Fix as many problems of `content` as the fixers can, in at most
/// `MAX_PASSES` passes of lint and fix; `allow_unsafe` lets in the fixes
/// that may change what the document means. `rules` and `lang` lint,
/// `enabled_ids` names the rules that the directive comments speak of, and
/// `confs` holds the options that the fixers read. The result holds the
/// fixed text, whether it differs from `content`, and the problems that a
/// last lint finds in it.
pub fn fix_content(
    content: &str,
    rules: &RuleSet,
    lang: &LanguageConfig,
    enabled_ids: &[&'static str],
    confs: &RuleConfs,
    allow_unsafe: bool,
) -> (r: Result<FixResult, FixError>)
    ensures
        match r {
            Ok(fr) => {
                &&& fix_content_run(
                    rules@,
                    Some(*lang),
                    enabled_ids@,
                    confs.confs@,
                    allow_unsafe,
                    content@,
                    MAX_PASSES as nat,
                    Ok(fr.fixed@),
                )
                &&& lint_outcome(rules@, Some(*lang), enabled_ids@, fr.fixed@, fr.remaining@)
                &&& fr.changed == (fr.fixed@ != content@)
            },
            Err(e) => e == FixError::Unprocessable && (fix_content_run(
                rules@,
                Some(*lang),
                enabled_ids@,
                confs.confs@,
                allow_unsafe,
                content@,
                MAX_PASSES as nat,
                Err(e),
            ) || exists|f: Seq<char>|
                #[trigger] fix_content_run(
                    rules@,
                    Some(*lang),
                    enabled_ids@,
                    confs.confs@,
                    allow_unsafe,
                    content@,
                    MAX_PASSES as nat,
                    Ok::<Seq<char>, FixError>(f),
                ) && !lint_ready(rules@, Some(*lang), f)),
        },
{
    let ghost cfg = Some(*lang);
    let ghost cs = confs.confs@;
    let ids = rules.ids();
    let mut current: String = content.to_owned();
    let mut pass: usize = 0;
    while pass < MAX_PASSES
        invariant
            pass <= MAX_PASSES,
            cfg == Some(*lang),
            cs == confs.confs@,
            ids_view(ids@) == rule_names(rules@),
            forall|res: Result<Seq<char>, FixError>|
                fix_content_run(rules@, cfg, enabled_ids@, cs, allow_unsafe, current@, (MAX_PASSES - pass) as nat, res)
                    ==> fix_content_run(rules@, cfg, enabled_ids@, cs, allow_unsafe, content@, MAX_PASSES as nat, res),
        ensures
            fix_content_run(rules@, cfg, enabled_ids@, cs, allow_unsafe, content@, MAX_PASSES as nat, Ok(current@)),
        decreases MAX_PASSES - pass,
    {
        let ghost rem = (MAX_PASSES - pass) as nat;
        let ghost cur = current@;
        let ghost unproc = Err::<Seq<char>, FixError>(FixError::Unprocessable);
        let chars = str_chars(current.as_str());
        if chars.len() > usize::MAX / 8 {
            assert(fix_content_run(rules@, cfg, enabled_ids@, cs, allow_unsafe, cur, rem, unproc));
            return Err(FixError::Unprocessable);
        }
        let ctx = RuleContext::new(current.as_str());
        if !rules.accepts(&ctx, Some(lang)) {
            assert(fix_content_run(rules@, cfg, enabled_ids@, cs, allow_unsafe, cur, rem, unproc));
            return Err(FixError::Unprocessable);
        }
        let problems = lint_pass(current.as_str(), rules, lang, enabled_ids, ids.as_slice());
        let mut doc = Doc::parse(current.as_str());
        let ghost d = doc@;
        let ghost ps = problems@;
        if !all_fixable_exec(&problems, &doc, confs, allow_unsafe) {
            assert(fix_content_run(rules@, cfg, enabled_ids@, cs, allow_unsafe, cur, rem, unproc)) by {
                assert(lint_outcome(rules@, cfg, enabled_ids@, cur, ps));
            }
            return Err(FixError::Unprocessable);
        }
        let ops = collect_ops(&problems, &doc, confs, allow_unsafe);
        let ghost ov = ops@;
        assert(lint_outcome(rules@, cfg, enabled_ids@, cur, ps));
        assert(fix_ops(ps, d, cs, allow_unsafe, ov));
        if ops.len() == 0 {
            assert(fix_content_run(rules@, cfg, enabled_ids@, cs, allow_unsafe, cur, rem, Ok::<Seq<char>, FixError>(cur)));
            break;
        }
        if !ops_valid_exec(&ops) {
            assert(fix_content_run(rules@, cfg, enabled_ids@, cs, allow_unsafe, cur, rem, unproc));
            return Err(FixError::Unprocessable);
        }
        let applied = apply_ops(&mut doc, ops);
        if applied == 0 {
            assert(fix_content_run(rules@, cfg, enabled_ids@, cs, allow_unsafe, cur, rem, Ok::<Seq<char>, FixError>(cur)));
            break;
        }
        let rendered = doc.render();
        if str_eq(rendered.as_str(), current.as_str()) {
            assert(fix_content_run(rules@, cfg, enabled_ids@, cs, allow_unsafe, cur, rem, Ok::<Seq<char>, FixError>(cur)));
            break;
        }
        let ghost next = rendered@;
        assert forall|res: Result<Seq<char>, FixError>|
            fix_content_run(rules@, cfg, enabled_ids@, cs, allow_unsafe, next, (rem - 1) as nat, res)
                implies fix_content_run(rules@, cfg, enabled_ids@, cs, allow_unsafe, cur, rem, res) by {
            assert(lint_outcome(rules@, cfg, enabled_ids@, cur, ps));
            assert(fix_ops(ps, d, cs, allow_unsafe, ov));
        }
        current = rendered;
        pass = pass + 1;
    }
    let ghost fixed = current@;
    let chars = str_chars(current.as_str());
    if chars.len() > usize::MAX / 8 {
        return Err(FixError::Unprocessable);
    }
    let ctx = RuleContext::new(current.as_str());
    if !rules.accepts(&ctx, Some(lang)) {
        return Err(FixError::Unprocessable);
    }
    let remaining = lint_pass(current.as_str(), rules, lang, enabled_ids, ids.as_slice());
    let changed = !str_eq(current.as_str(), content);
    Ok(FixResult { fixed: current, changed, remaining })
}

} // verus!
