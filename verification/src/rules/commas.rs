//! Spacing around commas.

use vstd::prelude::*;
use crate::diagnostic::{
    Diagnostic, Fix, Location, Severity, SpecDiagnostic, SpecFix, append_diags, diags_view,
    lemma_diags_view_push, plain_diag, sort_by_location, sort_diagnostics, with_fix_spec,
};
use crate::rule::{
    Rule, RuleConfig, RuleContext, cfg_int, cfg_of, flat_map_lines, lemma_context_bounds, opt_int,
};
use crate::text::{
    byte_offset, chars_to_string, lemma_run_end, lemma_run_start, lemma_utf8_len_take_ge,
    max_text_len, push_spaces, run_end, run_start, skip_spaces, skip_spaces_back, space_pred,
    spaces, split_lines, utf8_len,
};

verus! {

pub struct Commas {
    pub max_spaces_before: i64,
    pub min_spaces_after: i64,
    pub max_spaces_after: i64,
}

impl Default for Commas {
    fn default() -> (r: Self)
        ensures
            r.max_spaces_before == 0,
            r.min_spaces_after == 1,
            r.max_spaces_after == 1,
    {
        Self { max_spaces_before: 0, min_spaces_after: 1, max_spaces_after: 1 }
    }
}

/// The effective (max before, min after, max after); a negative bound is
/// not checked.
pub open spec fn comma_opts(rule: &Commas, config: Option<RuleConfig>) -> (i64, i64, i64) {
    (
        opt_int(config, "max-spaces-before"@, rule.max_spaces_before),
        opt_int(config, "min-spaces-after"@, rule.min_spaces_after),
        opt_int(config, "max-spaces-after"@, rule.max_spaces_after),
    )
}

pub open spec fn cloc(n: int, c: int) -> Location {
    Location { line: n as usize, column: c as usize }
}

/// Diagnostics for a comma at character `i` of `line`.
pub open spec fn comma_diags(o: (i64, i64, i64), n: int, line: Seq<char>, i: int) -> Seq<SpecDiagnostic> {
    let pos = utf8_len(line.take(i)) as int;
    let j = run_start(line, i, space_pred());
    let sb = i - j;
    let before = if o.0 >= 0 && sb > o.0 {
        seq![
            with_fix_spec(
                plain_diag(
                    "commas"@,
                    Severity::Error,
                    "too many spaces before comma"@,
                    cloc(n, pos - sb + 1),
                ),
                SpecFix {
                    description: "remove extra spaces before comma"@,
                    replacement: seq![],
                    start: cloc(n, pos - sb + 1),
                    end: cloc(n, pos + 1),
                },
            ),
        ]
    } else {
        seq![]
    };
    let k = run_end(line, i + 1, space_pred());
    let sa = k - (i + 1);
    let after = if o.1 >= 0 && sa < o.1 && k < line.len() && line[k] != '\n' {
        seq![
            with_fix_spec(
                plain_diag("commas"@, Severity::Error, "too few spaces after comma"@, cloc(n, pos + 1)),
                SpecFix {
                    description: "add spaces after comma"@,
                    replacement: spaces(((o.1 - sa) as usize) as nat),
                    start: cloc(n, pos + 2),
                    end: cloc(n, pos + 2),
                },
            ),
        ]
    } else if o.2 >= 0 && sa > o.2 {
        seq![
            with_fix_spec(
                plain_diag("commas"@, Severity::Error, "too many spaces after comma"@, cloc(n, pos + 2)),
                SpecFix {
                    description: "remove extra spaces after comma"@,
                    replacement: seq![],
                    start: cloc(n, pos + 2),
                    end: cloc(n, pos + 2 + (sa - o.2)),
                },
            ),
        ]
    } else {
        seq![]
    };
    before + after
}

/// Scan of `line` from character `i`, skipping quoted strings.
pub open spec fn commas_scan(o: (i64, i64, i64), n: int, line: Seq<char>, i: int, in_quote: bool, q: char) -> Seq<SpecDiagnostic>
    decreases line.len() - i,
{
    if i < 0 || i >= line.len() {
        seq![]
    } else {
        let c = line[i];
        if (c == '"' || c == '\'') && !in_quote {
            commas_scan(o, n, line, i + 1, true, c)
        } else if c == q && in_quote {
            commas_scan(o, n, line, i + 1, false, q)
        } else if c == ',' && !in_quote {
            comma_diags(o, n, line, i) + commas_scan(o, n, line, i + 1, in_quote, q)
        } else {
            commas_scan(o, n, line, i + 1, in_quote, q)
        }
    }
}

pub open spec fn commas_f(o: (i64, i64, i64)) -> spec_fn(int, Seq<char>) -> Seq<SpecDiagnostic> {
    |n: int, line: Seq<char>| commas_scan(o, n, line, 0, false, ' ')
}

fn comma_diags_exec(o: (i64, i64, i64), n: usize, line: &[char], i: usize, out: &mut Vec<Diagnostic>)
    requires
        1 <= n <= max_text_len(),
        i < line@.len() <= max_text_len(),
    ensures
        diags_view(final(out)@) == diags_view(old(out)@) + comma_diags(o, n as int, line@, i as int),
{
    let ghost start = diags_view(out@);
    let pos = byte_offset(line, i);
    proof {
        lemma_utf8_len_take_ge(line@, i as int);
        lemma_run_start(line@, i as int, space_pred());
        lemma_run_end(line@, i + 1, space_pred());
    }
    let j = skip_spaces_back(line, i);
    let sb = i - j;
    if o.0 >= 0 && (sb as i64) > o.0 {
        let d = Diagnostic::error(
            "commas",
            "too many spaces before comma",
            Location::new(n, pos - sb + 1),
        ).with_fix(
            Fix::delete(
                "remove extra spaces before comma",
                Location::new(n, pos - sb + 1),
                Location::new(n, pos + 1),
            ),
        );
        let ghost b = out@;
        out.push(d);
        proof {
            lemma_diags_view_push(b, d);
        }
    }
    let ghost mid = diags_view(out@);
    let k = skip_spaces(line, i + 1);
    let sa = k - (i + 1);
    if o.1 >= 0 && (sa as i64) < o.1 && k < line.len() && line[k] != '\n' {
        let mut rep: Vec<char> = Vec::new();
        push_spaces(&mut rep, (o.1 - sa as i64) as usize);
        let reps = chars_to_string(rep.as_slice());
        let d = Diagnostic::error("commas", "too few spaces after comma", Location::new(n, pos + 1))
            .with_fix(Fix::insert("add spaces after comma", reps.as_str(), Location::new(n, pos + 2)));
        let ghost b = out@;
        out.push(d);
        proof {
            lemma_diags_view_push(b, d);
            assert(rep@ =~= spaces(((o.1 - sa) as usize) as nat));
        }
    } else if o.2 >= 0 && (sa as i64) > o.2 {
        let d = Diagnostic::error("commas", "too many spaces after comma", Location::new(n, pos + 2))
            .with_fix(
            Fix::delete(
                "remove extra spaces after comma",
                Location::new(n, pos + 2),
                Location::new(n, pos + 2 + (sa - o.2 as usize)),
            ),
        );
        let ghost b = out@;
        out.push(d);
        proof {
            lemma_diags_view_push(b, d);
        }
    }
    assert(diags_view(out@) =~= start + comma_diags(o, n as int, line@, i as int));
}

fn commas_check_line(o: (i64, i64, i64), n: usize, line: &[char]) -> (r: Vec<Diagnostic>)
    requires
        1 <= n <= max_text_len(),
        line@.len() <= max_text_len(),
    ensures
        diags_view(r@) == commas_scan(o, n as int, line@, 0, false, ' '),
{
    let mut out: Vec<Diagnostic> = Vec::new();
    let mut in_quote = false;
    let mut q = ' ';
    let mut i: usize = 0;
    while i < line.len()
        invariant
            i <= line@.len() <= max_text_len(),
            1 <= n <= max_text_len(),
            diags_view(out@) + commas_scan(o, n as int, line@, i as int, in_quote, q) == commas_scan(
                o,
                n as int,
                line@,
                0,
                false,
                ' ',
            ),
        decreases line@.len() - i,
    {
        let c = line[i];
        if (c == '"' || c == '\'') && !in_quote {
            in_quote = true;
            q = c;
        } else if c == q && in_quote {
            in_quote = false;
        } else if c == ',' && !in_quote {
            let ghost b = diags_view(out@);
            comma_diags_exec(o, n, line, i, &mut out);
            assert(diags_view(out@) + commas_scan(o, n as int, line@, i + 1, in_quote, q) =~= b
                + commas_scan(o, n as int, line@, i as int, in_quote, q));
        }
        i = i + 1;
    }
    assert(diags_view(out@) + Seq::<SpecDiagnostic>::empty() =~= diags_view(out@));
    out
}

impl Rule for Commas {
    open spec fn spec_name(&self) -> Seq<char> {
        "commas"@
    }

    open spec fn spec_check(&self, content: Seq<char>, config: Option<RuleConfig>) -> Seq<SpecDiagnostic> {
        sort_by_location(
            flat_map_lines(
                split_lines(content),
                split_lines(content).len() as int,
                commas_f(comma_opts(self, config)),
            ),
        )
    }

    open spec fn spec_accepts(&self, content: Seq<char>, config: Option<RuleConfig>) -> bool {
        true
    }

    open spec fn spec_result(&self, content: Seq<char>, config: Option<RuleConfig>, out: Seq<SpecDiagnostic>) -> bool {
        out == self.spec_check(content, config)
    }

    open spec fn spec_fixable(&self) -> bool {
        true
    }

    fn name(&self) -> (r: &'static str) {
        "commas"
    }

    open spec fn spec_description(&self) -> Seq<char> {
        "Enforce consistent spacing around commas"@
    }

    fn description(&self) -> &'static str {
        "Enforce consistent spacing around commas"
    }

    fn check(&self, ctx: &RuleContext, config: Option<&RuleConfig>) -> (r: Vec<Diagnostic>) {
        proof {
            lemma_context_bounds(ctx);
        }
        let o = (
            cfg_int(config, "max-spaces-before", self.max_spaces_before),
            cfg_int(config, "min-spaces-after", self.min_spaces_after),
            cfg_int(config, "max-spaces-after", self.max_spaces_after),
        );
        let mut out: Vec<Diagnostic> = Vec::new();
        let mut i: usize = 0;
        while i < ctx.lines.len()
            invariant
                ctx.wf(),
                i <= ctx.lines@.len(),
                ctx.lines_spec().len() <= ctx.content@.len(),
                forall|k: int| 0 <= k < ctx.lines_spec().len() ==> (#[trigger] ctx.lines_spec()[k]).len() <= ctx.content@.len(),
                diags_view(out@) == flat_map_lines(ctx.lines_spec(), i as int, commas_f(o)),
            decreases ctx.lines@.len() - i,
        {
            assert(ctx.lines_spec()[i as int] == ctx.lines@[i as int]@);
            let d = commas_check_line(o, i + 1, ctx.lines[i].as_slice());
            append_diags(&mut out, d);
            i = i + 1;
        }
        sort_diagnostics(out)
    }

    fn is_fixable(&self) -> (r: bool) {
        true
    }
}

} // verus!
