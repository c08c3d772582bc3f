//! Forbidden float values.

use vstd::prelude::*;
use crate::diagnostic::{
    Diagnostic, Location, Severity, SpecDiagnostic, append_diags, diags_view,
    lemma_diags_view_push, plain_diag,
};
use crate::rule::{
    Rule, RuleConfig, RuleContext, cfg_bool, cfg_of, flat_map_lines, lemma_context_bounds, opt_bool,
};
use crate::text::{
    contains_char, eq_str, find_col, find_col_exec, is_ascii_digit_spec, max_text_len, seqs_view,
    split_lines, split_words, words,
};

verus! {

pub struct FloatValues {
    pub forbid_inf: bool,
    pub forbid_nan: bool,
    pub forbid_scientific_notation: bool,
    pub require_numeral_before_decimal: bool,
}

impl Default for FloatValues {
    fn default() -> (r: Self)
        ensures
            !r.forbid_inf,
            !r.forbid_nan,
            !r.forbid_scientific_notation,
            !r.require_numeral_before_decimal,
    {
        FloatValues {
            forbid_inf: false,
            forbid_nan: false,
            forbid_scientific_notation: false,
            require_numeral_before_decimal: false,
        }
    }
}

pub open spec fn fv_diag(msg: Seq<char>, n: int, col: int) -> SpecDiagnostic {
    plain_diag("float-values"@, Severity::Error, msg, Location { line: n as usize, column: col as usize })
}

pub open spec fn has_ascii_digit(p: Seq<char>) -> bool {
    exists|i: int| 0 <= i < p.len() && is_ascii_digit_spec(#[trigger] p[i])
}

/// Diagnostics for one word of a line.
pub open spec fn float_word(o: (bool, bool, bool, bool), n: int, line: Seq<char>, p: Seq<char>) -> Seq<SpecDiagnostic> {
    let col = find_col(line, p);
    (if o.0 && (p == ".inf"@ || p == "-.inf"@ || p == "+.inf"@) {
        seq![fv_diag("forbidden value 'inf'"@, n, col)]
    } else {
        seq![]
    }) + (if o.1 && p == ".nan"@ {
        seq![fv_diag("forbidden value 'nan'"@, n, col)]
    } else {
        seq![]
    }) + (if o.2 && p.contains('e') && has_ascii_digit(p) {
        seq![fv_diag("scientific notation is forbidden"@, n, col)]
    } else {
        seq![]
    }) + (if o.3 && p.len() > 1 && p[0] == '.' && is_ascii_digit_spec(p[1]) {
        seq![fv_diag("missing numeral before decimal"@, n, col)]
    } else {
        seq![]
    })
}

/// Diagnostics for the first `k` words of a line.
pub open spec fn float_words(o: (bool, bool, bool, bool), n: int, line: Seq<char>, ws: Seq<Seq<char>>, k: int) -> Seq<SpecDiagnostic>
    decreases k,
{
    if k <= 0 {
        seq![]
    } else {
        float_words(o, n, line, ws, k - 1) + float_word(o, n, line, ws[k - 1])
    }
}

pub open spec fn float_values_f(o: (bool, bool, bool, bool)) -> spec_fn(int, Seq<char>) -> Seq<SpecDiagnostic> {
    |n: int, line: Seq<char>| float_words(o, n, line, words(line), words(line).len() as int)
}

fn push_fv(out: &mut Vec<Diagnostic>, msg: &str, n: usize, col: usize)
    ensures
        diags_view(final(out)@) == diags_view(old(out)@).push(fv_diag(msg@, n as int, col as int)),
{
    let d = Diagnostic::error("float-values", msg, Location::new(n, col));
    let ghost b = out@;
    out.push(d);
    proof {
        lemma_diags_view_push(b, d);
    }
}

fn has_digit(p: &[char]) -> (r: bool)
    ensures
        r == has_ascii_digit(p@),
{
    let mut i: usize = 0;
    while i < p.len()
        invariant
            i <= p@.len(),
            forall|j: int| 0 <= j < i ==> !is_ascii_digit_spec(#[trigger] p@[j]),
        decreases p@.len() - i,
    {
        if '0' <= p[i] && p[i] <= '9' {
            assert(is_ascii_digit_spec(p@[i as int]));
            return true;
        }
        i = i + 1;
    }
    false
}

#[verifier::rlimit(40)]
fn float_values_check_line(o: (bool, bool, bool, bool), n: usize, line: &[char]) -> (r: Vec<Diagnostic>)
    requires
        1 <= n <= max_text_len(),
        line@.len() <= max_text_len(),
    ensures
        diags_view(r@) == float_words(o, n as int, line@, words(line@), words(line@).len() as int),
{
    let ws = split_words(line);
    let ghost wv = seqs_view(ws@);
    let mut out: Vec<Diagnostic> = Vec::new();
    let mut k: usize = 0;
    while k < ws.len()
        invariant
            k <= ws@.len(),
            1 <= n <= max_text_len(),
            line@.len() <= max_text_len(),
            wv == seqs_view(ws@),
            wv == words(line@),
            diags_view(out@) == float_words(o, n as int, line@, wv, k as int),
        decreases ws@.len() - k,
    {
        let p = ws[k].as_slice();
        assert(wv[k as int] == p@);
        let col = find_col_exec(line, p);
        let ghost d0 = diags_view(out@);
        if o.0 && (eq_str(p, ".inf") || eq_str(p, "-.inf") || eq_str(p, "+.inf")) {
            push_fv(&mut out, "forbidden value 'inf'", n, col);
        }
        if o.1 && eq_str(p, ".nan") {
            push_fv(&mut out, "forbidden value 'nan'", n, col);
        }
        if o.2 && contains_char(p, 'e') && has_digit(p) {
            push_fv(&mut out, "scientific notation is forbidden", n, col);
        }
        if o.3 && p.len() > 1 && p[0] == '.' && '0' <= p[1] && p[1] <= '9' {
            push_fv(&mut out, "missing numeral before decimal", n, col);
        }
        assert(diags_view(out@) =~= d0 + float_word(o, n as int, line@, p@));
        k = k + 1;
    }
    out
}

pub open spec fn float_opts(rule: &FloatValues, config: Option<RuleConfig>) -> (bool, bool, bool, bool) {
    (
        opt_bool(config, "forbid-inf"@, rule.forbid_inf),
        opt_bool(config, "forbid-nan"@, rule.forbid_nan),
        opt_bool(config, "forbid-scientific-notation"@, rule.forbid_scientific_notation),
        opt_bool(config, "require-numeral-before-decimal"@, rule.require_numeral_before_decimal),
    )
}

impl Rule for FloatValues {
    open spec fn spec_name(&self) -> Seq<char> {
        "float-values"@
    }

    open spec fn spec_check(&self, content: Seq<char>, config: Option<RuleConfig>) -> Seq<SpecDiagnostic> {
        flat_map_lines(
            split_lines(content),
            split_lines(content).len() as int,
            float_values_f(float_opts(self, config)),
        )
    }

    open spec fn spec_accepts(&self, content: Seq<char>, config: Option<RuleConfig>) -> bool {
        true
    }

    open spec fn spec_result(&self, content: Seq<char>, config: Option<RuleConfig>, out: Seq<SpecDiagnostic>) -> bool {
        out == self.spec_check(content, config)
    }

    open spec fn spec_fixable(&self) -> bool {
        false
    }

    fn name(&self) -> (r: &'static str) {
        "float-values"
    }

    open spec fn spec_description(&self) -> Seq<char> {
        "Forbid specific float values"@
    }

    fn description(&self) -> &'static str {
        "Forbid specific float values"
    }

    fn check(&self, ctx: &RuleContext, config: Option<&RuleConfig>) -> (r: Vec<Diagnostic>) {
        proof {
            lemma_context_bounds(ctx);
        }
        let o = (
            cfg_bool(config, "forbid-inf", self.forbid_inf),
            cfg_bool(config, "forbid-nan", self.forbid_nan),
            cfg_bool(config, "forbid-scientific-notation", self.forbid_scientific_notation),
            cfg_bool(config, "require-numeral-before-decimal", self.require_numeral_before_decimal),
        );
        let mut out: Vec<Diagnostic> = Vec::new();
        let mut i: usize = 0;
        while i < ctx.lines.len()
            invariant
                ctx.wf(),
                i <= ctx.lines@.len(),
                ctx.lines_spec().len() <= ctx.content@.len(),
                forall|k: int| 0 <= k < ctx.lines_spec().len() ==> (#[trigger] ctx.lines_spec()[k]).len() <= ctx.content@.len(),
                diags_view(out@) == flat_map_lines(ctx.lines_spec(), i as int, float_values_f(o)),
            decreases ctx.lines@.len() - i,
        {
            assert(ctx.lines_spec()[i as int] == ctx.lines@[i as int]@);
            let d = float_values_check_line(o, i + 1, ctx.lines[i].as_slice());
            append_diags(&mut out, d);
            i = i + 1;
        }
        out
    }

    fn is_fixable(&self) -> (r: bool) {
        false
    }
}

} // verus!
