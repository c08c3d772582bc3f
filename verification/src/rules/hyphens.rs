//! Spacing after hyphens.

use vstd::prelude::*;
use crate::diagnostic::{
    Diagnostic, Fix, Location, Severity, SpecDiagnostic, SpecFix, append_diags, diags_view,
    lemma_diags_view_push, plain_diag, with_fix_spec,
};
use crate::rule::{
    Rule, RuleConfig, RuleContext, cfg_int, cfg_of, flat_map_lines, lemma_context_bounds, opt_int,
};
use crate::text::{
    byte_len, lemma_run_end, lemma_trim_lens, lemma_utf8_len_bounds, lemma_utf8_len_trim,
    max_text_len, run_end, skip_spaces, space_pred, split_lines, starts_with, starts_with_str,
    trim_start, trim_start_chars, utf8_len,
};

verus! {

pub struct Hyphens {
    pub max_spaces_after: i64,
}

impl Default for Hyphens {
    fn default() -> (r: Self)
        ensures
            r.max_spaces_after == 1,
    {
        Self { max_spaces_after: 1 }
    }
}

pub open spec fn hyphens_line(max: i64, n: int, line: Seq<char>) -> Seq<SpecDiagnostic> {
    let t = trim_start(line);
    let sp = run_end(t, 1, space_pred()) - 1;
    let start = utf8_len(line) - utf8_len(t) + 2;
    if starts_with(t, "- "@) && max >= 0 && sp > max {
        seq![
            with_fix_spec(
                plain_diag(
                    "hyphens"@,
                    Severity::Error,
                    "too many spaces after hyphen"@,
                    Location { line: n as usize, column: start as usize },
                ),
                SpecFix {
                    description: "remove extra spaces"@,
                    replacement: seq![],
                    start: Location { line: n as usize, column: (start + max) as usize },
                    end: Location { line: n as usize, column: (start + sp) as usize },
                },
            ),
        ]
    } else {
        seq![]
    }
}

/// A list item whose hyphen is followed by `k` spaces and then by no space
/// is reported exactly when `k` is more than `max`, the spaces allowed
/// after a hyphen: a single diagnostic then, none otherwise.
pub proof fn lemma_hyphens_spaces(max: i64, n: int, line: Seq<char>, k: int, rest: Seq<char>)
    requires
        max >= 0,
        k >= 1,
        trim_start(line) == seq!['-'] + Seq::new(k as nat, |j: int| ' ') + rest,
        !(rest.len() > 0 && rest[0] == ' '),
    ensures
        hyphens_line(max, n, line).len() == (if k > max {
            1int
        } else {
            0int
        }),
{
    let t = trim_start(line);
    let sp_seq = Seq::new(k as nat, |j: int| ' ');
    assert(t.len() == 1 + k + rest.len());
    assert(t[0] == '-');
    assert forall|j: int| 1 <= j < 1 + k implies t[j] == ' ' by {
        assert(t[j] == sp_seq[j - 1]);
    }
    lemma_run_end(t, 1, space_pred());
    let e = run_end(t, 1, space_pred());
    if e < 1 + k {
        assert(t[e] == ' ');
        assert(!(space_pred())(t[e]));
    }
    if e > 1 + k {
        assert((space_pred())(t[1 + k]));
        assert(t[1 + k] == rest[0]);
    }
    assert(e == 1 + k);
    assert(t[1] == ' ');
    assert(starts_with(t, "- "@)) by {
        reveal_strlit("- ");
        assert(t.subrange(0, 2) =~= "- "@);
    }
}

pub open spec fn hyphens_f(max: i64) -> spec_fn(int, Seq<char>) -> Seq<SpecDiagnostic> {
    |n: int, line: Seq<char>| hyphens_line(max, n, line)
}

fn hyphens_check_line(max: i64, n: usize, line: &[char]) -> (r: Vec<Diagnostic>)
    requires
        1 <= n <= max_text_len(),
        line@.len() <= max_text_len(),
    ensures
        diags_view(r@) == hyphens_line(max, n as int, line@),
{
    let mut out: Vec<Diagnostic> = Vec::new();
    let t = trim_start_chars(line);
    proof {
        lemma_trim_lens(line@);
        lemma_utf8_len_trim(line@);
        lemma_utf8_len_bounds(line@);
    }
    if starts_with_str(t.as_slice(), "- ") {
        proof {
            reveal_strlit("- ");
            lemma_run_end(t@, 1, space_pred());
        }
        let e = skip_spaces(t.as_slice(), 1);
        let sp = e - 1;
        if max >= 0 && (sp as i64) > max {
            let start = byte_len(line) - byte_len(t.as_slice()) + 2;
            let d = Diagnostic::error("hyphens", "too many spaces after hyphen", Location::new(n, start))
                .with_fix(
                Fix::delete(
                    "remove extra spaces",
                    Location::new(n, start + max as usize),
                    Location::new(n, start + sp),
                ),
            );
            out.push(d);
            proof {
                lemma_diags_view_push(Seq::empty(), d);
            }
        }
    }
    assert(diags_view(out@) =~= hyphens_line(max, n as int, line@));
    out
}

impl Rule for Hyphens {
    open spec fn spec_name(&self) -> Seq<char> {
        "hyphens"@
    }

    open spec fn spec_check(&self, content: Seq<char>, config: Option<RuleConfig>) -> Seq<SpecDiagnostic> {
        flat_map_lines(
            split_lines(content),
            split_lines(content).len() as int,
            hyphens_f(opt_int(config, "max-spaces-after"@, self.max_spaces_after)),
        )
    }

    open spec fn spec_accepts(&self, content: Seq<char>, config: Option<RuleConfig>) -> bool {
        true
    }

    open spec fn spec_result(&self, content: Seq<char>, config: Option<RuleConfig>, out: Seq<SpecDiagnostic>) -> bool {
        out == self.spec_check(content, config)
    }

    open spec fn spec_fixable(&self) -> bool {
        true
    }

    fn name(&self) -> (r: &'static str) {
        "hyphens"
    }

    open spec fn spec_description(&self) -> Seq<char> {
        "Enforce spacing after hyphens"@
    }

    fn description(&self) -> &'static str {
        "Enforce spacing after hyphens"
    }

    fn check(&self, ctx: &RuleContext, config: Option<&RuleConfig>) -> (r: Vec<Diagnostic>) {
        proof {
            lemma_context_bounds(ctx);
        }
        let max = cfg_int(config, "max-spaces-after", self.max_spaces_after);
        let mut out: Vec<Diagnostic> = Vec::new();
        let mut i: usize = 0;
        while i < ctx.lines.len()
            invariant
                ctx.wf(),
                i <= ctx.lines@.len(),
                ctx.lines_spec().len() <= ctx.content@.len(),
                forall|k: int| 0 <= k < ctx.lines_spec().len() ==> (#[trigger] ctx.lines_spec()[k]).len() <= ctx.content@.len(),
                diags_view(out@) == flat_map_lines(ctx.lines_spec(), i as int, hyphens_f(max)),
            decreases ctx.lines@.len() - i,
        {
            assert(ctx.lines_spec()[i as int] == ctx.lines@[i as int]@);
            let d = hyphens_check_line(max, i + 1, ctx.lines[i].as_slice());
            append_diags(&mut out, d);
            i = i + 1;
        }
        out
    }

    fn is_fixable(&self) -> (r: bool) {
        true
    }
}

} // verus!
