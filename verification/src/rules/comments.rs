//! Comment formatting rule.

use vstd::prelude::*;
use crate::diagnostic::{
    Diagnostic, Fix, Location, Severity, SpecDiagnostic, SpecFix, append_diags, diags_view,
    lemma_diags_view_push, plain_diag, with_fix_spec,
};
use crate::rule::{
    Rule, RuleConfig, RuleContext, cfg_bool, cfg_of, cfg_usize, flat_map_lines,
    lemma_context_bounds, opt_bool, opt_usize,
};
use crate::text::{
    byte_offset, chars_to_string, find_char_from, is_whitespace, is_ws, lemma_find_char_from,
    lemma_run_start, max_text_len, push_spaces, run_start, skip_spaces_back, space_pred, spaces,
    split_lines, starts_with, starts_with_str, trim, trim_chars, utf8_len,
};

verus! {

pub struct Comments {
    pub require_starting_space: bool,
    pub ignore_shebangs: bool,
    pub min_spaces_from_content: usize,
}

impl Default for Comments {
    fn default() -> (r: Self)
        ensures
            r.require_starting_space,
            r.ignore_shebangs,
            r.min_spaces_from_content == 2,
    {
        Self { require_starting_space: true, ignore_shebangs: true, min_spaces_from_content: 2 }
    }
}

/// The effective options: (require starting space, ignore shebangs, minimum
/// spaces before an inline comment).
pub open spec fn comments_options(rule: &Comments, config: Option<RuleConfig>) -> (bool, bool, usize) {
    (
        opt_bool(config, "require-starting-space"@, rule.require_starting_space),
        opt_bool(config, "ignore-shebangs"@, rule.ignore_shebangs),
        opt_usize(config, "min-spaces-from-content"@, rule.min_spaces_from_content),
    )
}

/// The starting-space diagnostic of a line whose first `#` is at character
/// `k`.
pub open spec fn starting_space_diag(n: int, line: Seq<char>, k: int) -> Seq<SpecDiagnostic> {
    let cs = utf8_len(line.take(k));
    if k + 1 < line.len() && line[k + 1] != ' ' && !is_ws(line[k + 1]) {
        seq![
            with_fix_spec(
                plain_diag(
                    "comments"@,
                    Severity::Error,
                    "no space after comment's #"@,
                    Location { line: n as usize, column: (cs + 1) as usize },
                ),
                SpecFix {
                    description: "add space after #"@,
                    replacement: " "@,
                    start: Location { line: n as usize, column: (cs + 2) as usize },
                    end: Location { line: n as usize, column: (cs + 2) as usize },
                },
            ),
        ]
    } else {
        seq![]
    }
}

/// The spacing diagnostic of an inline comment whose `#` is at character `k`.
pub open spec fn inline_spacing_diag(n: int, line: Seq<char>, k: int, min: nat) -> Seq<SpecDiagnostic> {
    let cs = utf8_len(line.take(k));
    let before = line.take(k);
    let sp = k - run_start(before, k, space_pred());
    if k > 0 && trim(before).len() > 0 && sp < min {
        seq![
            with_fix_spec(
                plain_diag(
                    "comments"@,
                    Severity::Error,
                    "too few spaces before comment"@,
                    Location { line: n as usize, column: (cs + 1 - sp) as usize },
                ),
                SpecFix {
                    description: "add spaces before comment"@,
                    replacement: spaces((min - sp) as nat),
                    start: Location { line: n as usize, column: (cs + 1) as usize },
                    end: Location { line: n as usize, column: (cs + 1) as usize },
                },
            ),
        ]
    } else {
        seq![]
    }
}

/// What the rule reports on line `n`.
pub open spec fn comments_line(opts: (bool, bool, usize), n: int, line: Seq<char>) -> Seq<SpecDiagnostic> {
    let k = find_char_from(line, 0, '#');
    if k >= line.len() {
        seq![]
    } else if opts.1 && n == 1 && starts_with(line, "#!"@) {
        seq![]
    } else {
        (if opts.0 {
            starting_space_diag(n, line, k)
        } else {
            seq![]
        }) + inline_spacing_diag(n, line, k, opts.2 as nat)
    }
}

pub open spec fn comments_f(opts: (bool, bool, usize)) -> spec_fn(int, Seq<char>) -> Seq<SpecDiagnostic> {
    |n: int, line: Seq<char>| comments_line(opts, n, line)
}

fn comments_check_line(opts: (bool, bool, usize), n: usize, line: &[char]) -> (r: Vec<Diagnostic>)
    requires
        1 <= n <= max_text_len(),
        line@.len() <= max_text_len(),
    ensures
        diags_view(r@) == comments_line(opts, n as int, line@),
{
    let mut out: Vec<Diagnostic> = Vec::new();
    let mut k: usize = 0;
    while k < line.len() && line[k] != '#'
        invariant
            k <= line@.len(),
            find_char_from(line@, k as int, '#') == find_char_from(line@, 0, '#'),
        decreases line@.len() - k,
    {
        k = k + 1;
    }
    if k >= line.len() {
        return out;
    }
    if opts.1 && n == 1 && starts_with_str(line, "#!") {
        return out;
    }
    let cs = byte_offset(line, k);
    proof {
        crate::text::lemma_utf8_len_take_ge(line@, k as int);
    }
    if opts.0 && k + 1 < line.len() && line[k + 1] != ' ' && !is_whitespace(line[k + 1]) {
        let d = Diagnostic::error(
            "comments",
            "no space after comment's #",
            Location::new(n, cs + 1),
        ).with_fix(Fix::insert("add space after #", " ", Location::new(n, cs + 2)));
        out.push(d);
        proof {
            lemma_diags_view_push(Seq::empty(), d);
        }
    }
    let ghost first = diags_view(out@);
    assert(first == (if opts.0 {
        starting_space_diag(n as int, line@, k as int)
    } else {
        seq![]
    }));
    if k > 0 {
        let before = crate::text::slice_to_vec(line, 0, k);
        assert(before@ == line@.take(k as int));
        let t = trim_chars(before.as_slice());
        let j = skip_spaces_back(before.as_slice(), k);
        proof {
            lemma_run_start(before@, k as int, space_pred());
        }
        let sp = k - j;
        let min = opts.2;
        if t.len() > 0 && sp < min {
            let mut rep: Vec<char> = Vec::new();
            push_spaces(&mut rep, min - sp);
            let reps = chars_to_string(rep.as_slice());
            let d = Diagnostic::error(
                "comments",
                "too few spaces before comment",
                Location::new(n, cs + 1 - sp),
            ).with_fix(
                Fix::insert("add spaces before comment", reps.as_str(), Location::new(n, cs + 1)),
            );
            proof {
                assert(rep@ =~= spaces((min - sp) as nat));
            }
            let ghost b = out@;
            out.push(d);
            proof {
                lemma_diags_view_push(b, d);
            }
        }
    }
    assert(diags_view(out@) =~= comments_line(opts, n as int, line@));
    out
}

impl Rule for Comments {
    open spec fn spec_name(&self) -> Seq<char> {
        "comments"@
    }

    open spec fn spec_check(&self, content: Seq<char>, config: Option<RuleConfig>) -> Seq<SpecDiagnostic> {
        flat_map_lines(
            split_lines(content),
            split_lines(content).len() as int,
            comments_f(comments_options(self, config)),
        )
    }

    open spec fn spec_accepts(&self, content: Seq<char>, config: Option<RuleConfig>) -> bool {
        true
    }

    open spec fn spec_result(&self, content: Seq<char>, config: Option<RuleConfig>, out: Seq<SpecDiagnostic>) -> bool {
        out == self.spec_check(content, config)
    }

    open spec fn spec_fixable(&self) -> bool {
        true
    }

    fn name(&self) -> (r: &'static str) {
        "comments"
    }

    open spec fn spec_description(&self) -> Seq<char> {
        "Enforce comment formatting"@
    }

    fn description(&self) -> &'static str {
        "Enforce comment formatting"
    }

    fn check(&self, ctx: &RuleContext, config: Option<&RuleConfig>) -> (r: Vec<Diagnostic>) {
        proof {
            lemma_context_bounds(ctx);
        }
        let opts = (
            cfg_bool(config, "require-starting-space", self.require_starting_space),
            cfg_bool(config, "ignore-shebangs", self.ignore_shebangs),
            cfg_usize(config, "min-spaces-from-content", self.min_spaces_from_content),
        );
        let mut out: Vec<Diagnostic> = Vec::new();
        let mut i: usize = 0;
        while i < ctx.lines.len()
            invariant
                ctx.wf(),
                i <= ctx.lines@.len(),
                ctx.lines_spec().len() <= ctx.content@.len(),
                forall|k: int| 0 <= k < ctx.lines_spec().len() ==> (#[trigger] ctx.lines_spec()[k]).len() <= ctx.content@.len(),
                diags_view(out@) == flat_map_lines(ctx.lines_spec(), i as int, comments_f(opts)),
            decreases ctx.lines@.len() - i,
        {
            assert(ctx.lines_spec()[i as int] == ctx.lines@[i as int]@);
            let d = comments_check_line(opts, i + 1, ctx.lines[i].as_slice());
            append_diags(&mut out, d);
            i = i + 1;
        }
        out
    }

    fn is_fixable(&self) -> (r: bool) {
        true
    }
}

} // verus!
