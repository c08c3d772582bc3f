//! Empty lines rule.

use vstd::prelude::*;
use crate::diagnostic::{
    Diagnostic, Location, Severity, SpecDiagnostic, diags_view, lemma_diags_view_push, plain_diag,
};
use crate::rule::{Rule, RuleConfig, RuleContext, cfg_of, lemma_context_bounds};
use crate::text::{
    chars_to_string, decimal, join_lines, join_lines_exec, lines_of, max_text_len, push_decimal,
    push_str, seqs_view, split_lines, str_chars, trim, trim_chars,
};

verus! {

/// Rule that limits consecutive empty lines.
pub struct EmptyLines {
    /// Maximum allowed consecutive empty lines
    max: usize,
    /// Maximum empty lines at start of file
    max_start: usize,
    /// Maximum empty lines at end of file
    max_end: usize,
}

impl EmptyLines {
    pub closed spec fn max_spec(&self) -> usize {
        self.max
    }

    pub closed spec fn max_start_spec(&self) -> usize {
        self.max_start
    }

    pub closed spec fn max_end_spec(&self) -> usize {
        self.max_end
    }

    pub fn new(max: usize) -> (r: Self)
        ensures
            r.max_spec() == max,
            r.max_start_spec() == 0,
            r.max_end_spec() == 0,
    {
        Self { max, max_start: 0, max_end: 0 }
    }

    pub fn with_options(max: usize, max_start: usize, max_end: usize) -> (r: Self)
        ensures
            r.max_spec() == max,
            r.max_start_spec() == max_start,
            r.max_end_spec() == max_end,
    {
        Self { max, max_start, max_end }
    }

    pub fn default() -> (r: Self)
        ensures
            r.max_spec() == 2,
            r.max_start_spec() == 0,
            r.max_end_spec() == 0,
    {
        Self::new(2)
    }
}

/// A line with nothing but white space.
pub open spec fn is_blank(line: Seq<char>) -> bool {
    trim(line).len() == 0
}

fn is_blank_exec(line: &[char]) -> (r: bool)
    ensures
        r == is_blank(line@),
{
    trim_chars(line).len() == 0
}

/// State after the first `k` lines: the current run of blank lines, whether
/// no content line was seen yet, and the diagnostics so far.
pub open spec fn empty_lines_state(
    lines: Seq<Seq<char>>,
    k: int,
    max: nat,
    max_start: nat,
) -> (nat, bool, Seq<SpecDiagnostic>)
    decreases k,
{
    if k <= 0 {
        (0, true, seq![])
    } else {
        let (run, in_start, diags) = empty_lines_state(lines, k - 1, max, max_start);
        if is_blank(lines[k - 1]) {
            let run2 = run + 1;
            if in_start && run2 > max_start {
                (
                    run2,
                    in_start,
                    diags.push(
                        plain_diag(
                            "empty-lines"@,
                            Severity::Warning,
                            "too many blank lines at the start ("@ + decimal(run2) + ")"@,
                            Location { line: k as usize, column: 1 },
                        ),
                    ),
                )
            } else {
                (run2, in_start, diags)
            }
        } else if !in_start && run > max {
            (
                0,
                false,
                diags.push(
                    plain_diag(
                        "empty-lines"@,
                        Severity::Warning,
                        "too many blank lines ("@ + decimal(run) + " > "@ + decimal(max) + ")"@,
                        Location { line: (k - run) as usize, column: 1 },
                    ),
                ),
            )
        } else {
            (0, false, diags)
        }
    }
}

pub open spec fn empty_lines_spec(lines: Seq<Seq<char>>, max: nat, max_start: nat, max_end: nat) -> Seq<SpecDiagnostic> {
    let (run, in_start, diags) = empty_lines_state(lines, lines.len() as int, max, max_start);
    if run > max_end {
        diags.push(
            plain_diag(
                "empty-lines"@,
                Severity::Warning,
                "too many blank lines at the end ("@ + decimal(run) + ")"@,
                Location { line: (lines.len() - run + 1) as usize, column: 1 },
            ),
        )
    } else {
        diags
    }
}

proof fn lemma_run_bound(lines: Seq<Seq<char>>, k: int, max: nat, max_start: nat)
    requires
        0 <= k <= lines.len(),
    ensures
        empty_lines_state(lines, k, max, max_start).0 <= k,
    decreases k,
{
    if k > 0 {
        lemma_run_bound(lines, k - 1, max, max_start);
    }
}

impl Rule for EmptyLines {
    open spec fn spec_name(&self) -> Seq<char> {
        "empty-lines"@
    }

    open spec fn spec_check(&self, content: Seq<char>, config: Option<RuleConfig>) -> Seq<SpecDiagnostic> {
        empty_lines_spec(
            split_lines(content),
            self.max_spec() as nat,
            self.max_start_spec() as nat,
            self.max_end_spec() as nat,
        )
    }

    open spec fn spec_accepts(&self, content: Seq<char>, config: Option<RuleConfig>) -> bool {
        true
    }

    open spec fn spec_result(&self, content: Seq<char>, config: Option<RuleConfig>, out: Seq<SpecDiagnostic>) -> bool {
        out == self.spec_check(content, config)
    }

    open spec fn spec_fixable(&self) -> bool {
        true
    }

    fn name(&self) -> (r: &'static str) {
        "empty-lines"
    }

    open spec fn spec_description(&self) -> Seq<char> {
        "Limit the number of consecutive empty lines"@
    }

    fn description(&self) -> &'static str {
        "Limit the number of consecutive empty lines"
    }

    fn check(&self, ctx: &RuleContext, config: Option<&RuleConfig>) -> (r: Vec<Diagnostic>) {
        proof {
            lemma_context_bounds(ctx);
        }
        let ghost lines = ctx.lines_spec();
        let mut out: Vec<Diagnostic> = Vec::new();
        let mut run: usize = 0;
        let mut in_start = true;
        let mut idx: usize = 0;
        while idx < ctx.lines.len()
            invariant
                ctx.wf(),
                lines == ctx.lines_spec(),
                idx <= ctx.lines@.len(),
                lines.len() <= ctx.content@.len(),
                empty_lines_state(lines, idx as int, self.max as nat, self.max_start as nat) == (
                    run as nat,
                    in_start,
                    diags_view(out@),
                ),
            decreases ctx.lines@.len() - idx,
        {
            proof {
                lemma_run_bound(lines, idx as int, self.max as nat, self.max_start as nat);
            }
            assert(lines[idx as int] == ctx.lines@[idx as int]@);
            let line_num = idx + 1;
            if is_blank_exec(ctx.lines[idx].as_slice()) {
                run = run + 1;
                if in_start && run > self.max_start {
                    let mut m: Vec<char> = Vec::new();
                    push_str(&mut m, "too many blank lines at the start (");
                    push_decimal(&mut m, run);
                    push_str(&mut m, ")");
                    let ms = chars_to_string(m.as_slice());
                    let d = Diagnostic::warning("empty-lines", ms.as_str(), Location::new(line_num, 1));
                    let ghost before = out@;
                    out.push(d);
                    proof {
                        lemma_diags_view_push(before, d);
                    }
                }
            } else {
                if !in_start && run > self.max {
                    let mut m: Vec<char> = Vec::new();
                    push_str(&mut m, "too many blank lines (");
                    push_decimal(&mut m, run);
                    push_str(&mut m, " > ");
                    push_decimal(&mut m, self.max);
                    push_str(&mut m, ")");
                    let ms = chars_to_string(m.as_slice());
                    let d = Diagnostic::warning(
                        "empty-lines",
                        ms.as_str(),
                        Location::new(line_num - run, 1),
                    );
                    let ghost before = out@;
                    out.push(d);
                    proof {
                        lemma_diags_view_push(before, d);
                    }
                }
                run = 0;
                in_start = false;
            }
            idx = idx + 1;
        }
        proof {
            lemma_run_bound(lines, idx as int, self.max as nat, self.max_start as nat);
        }
        if run > self.max_end {
            let line_num = ctx.lines.len() - run + 1;
            let mut m: Vec<char> = Vec::new();
            push_str(&mut m, "too many blank lines at the end (");
            push_decimal(&mut m, run);
            push_str(&mut m, ")");
            let ms = chars_to_string(m.as_slice());
            let d = Diagnostic::warning("empty-lines", ms.as_str(), Location::new(line_num, 1));
            let ghost before = out@;
            out.push(d);
            proof {
                lemma_diags_view_push(before, d);
            }
        }
        out
    }

    fn is_fixable(&self) -> (r: bool) {
        true
    }
}

/// Lines kept by the fix among the first `k`: leading blank lines are
/// dropped and at most `max` blank lines of each run are kept. The second
/// component is the current run of blank lines, the third whether a
/// content line was seen.
pub open spec fn fix_empty_kept(lines: Seq<Seq<char>>, k: int, max: nat) -> (Seq<Seq<char>>, nat, bool)
    decreases k,
{
    if k <= 0 {
        (seq![], 0, false)
    } else {
        let (kept, run, started) = fix_empty_kept(lines, k - 1, max);
        let line = lines[k - 1];
        if is_blank(line) {
            if started {
                if run + 1 <= max {
                    (kept.push(line), run + 1, started)
                } else {
                    (kept, run + 1, started)
                }
            } else {
                (kept, run, started)
            }
        } else {
            (kept.push(line), 0, true)
        }
    }
}

/// `ls` without its trailing blank lines.
pub open spec fn drop_trailing_blank(ls: Seq<Seq<char>>) -> Seq<Seq<char>>
    decreases ls.len(),
{
    if ls.len() > 0 && is_blank(ls.last()) {
        drop_trailing_blank(ls.drop_last())
    } else {
        ls
    }
}

pub open spec fn fix_empty_lines_spec(content: Seq<char>, max: nat) -> Seq<char> {
    let kept = drop_trailing_blank(fix_empty_kept(split_lines(content), split_lines(content).len() as int, max).0);
    let out = join_lines(kept);
    if content.len() > 0 && content.last() == '\n' && out.len() > 0 {
        out + seq!['\n']
    } else {
        out
    }
}

/// Fix excessive empty lines.
pub fn fix_empty_lines(content: &str, max: usize) -> (r: String)
    ensures
        r@ == fix_empty_lines_spec(content@, max as nat),
{
    let chars = str_chars(content);
    let lines = lines_of(chars.as_slice());
    let ghost ls = seqs_view(lines@);
    let mut result: Vec<Vec<char>> = Vec::new();
    let mut run: usize = 0;
    let mut started = false;
    let mut i: usize = 0;
    while i < lines.len()
        invariant
            ls == seqs_view(lines@),
            i <= lines@.len(),
            run <= i,
            fix_empty_kept(ls, i as int, max as nat) == (seqs_view(result@), run as nat, started),
        decreases lines@.len() - i,
    {
        assert(ls[i as int] == lines@[i as int]@);
        let line = lines[i].clone();
        assert(line@ == lines@[i as int]@);
        let ghost before = seqs_view(result@);
        if is_blank_exec(lines[i].as_slice()) {
            if started {
                run = run + 1;
                if run <= max {
                    result.push(line);
                    assert(seqs_view(result@) =~= before.push(line@));
                }
            }
        } else {
            started = true;
            run = 0;
            result.push(line);
            assert(seqs_view(result@) =~= before.push(line@));
        }
        i = i + 1;
    }
    while result.len() > 0 && is_blank_exec(result[result.len() - 1].as_slice())
        invariant
            drop_trailing_blank(seqs_view(result@)) == drop_trailing_blank(
                fix_empty_kept(ls, ls.len() as int, max as nat).0,
            ),
        decreases result@.len(),
    {
        let ghost before = seqs_view(result@);
        assert(before.last() == result@[result@.len() - 1]@);
        result.pop();
        assert(seqs_view(result@) =~= before.drop_last());
    }
    assert(drop_trailing_blank(seqs_view(result@)) == seqs_view(result@));
    let mut out = join_lines_exec(&result);
    if chars.len() > 0 && chars[chars.len() - 1] == '\n' && out.len() > 0 {
        out.push('\n');
    }
    chars_to_string(out.as_slice())
}

} // verus!
