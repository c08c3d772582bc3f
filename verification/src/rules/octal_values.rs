//! Forbidden octal values.

use vstd::prelude::*;
use crate::diagnostic::{
    Diagnostic, Location, Severity, SpecDiagnostic, append_diags, diags_view,
    lemma_diags_view_push, plain_diag,
};
use crate::rule::{
    Rule, RuleConfig, RuleContext, cfg_bool, cfg_of, flat_map_lines, lemma_context_bounds, opt_bool,
};
use crate::text::{
    byte_len, contains_char, find_col, find_col_exec, is_ascii_digit_spec, lemma_trim_lens,
    max_text_len, seqs_view, split_lines, split_words, trim, trim_chars, utf8_len, words,
};

verus! {

pub struct OctalValues {
    pub forbid_implicit_octal: bool,
    pub forbid_explicit_octal: bool,
}

impl Default for OctalValues {
    fn default() -> (r: Self)
        ensures
            r.forbid_implicit_octal,
            r.forbid_explicit_octal,
    {
        Self { forbid_implicit_octal: true, forbid_explicit_octal: true }
    }
}

pub open spec fn ov_diag(msg: Seq<char>, n: int, col: int) -> SpecDiagnostic {
    plain_diag("octal-values"@, Severity::Error, msg, Location { line: n as usize, column: col as usize })
}

/// All characters of `p` from index `from` satisfy `f`.
pub open spec fn all_from(p: Seq<char>, from: int, f: spec_fn(char) -> bool) -> bool {
    forall|i: int| from <= i < p.len() ==> f(#[trigger] p[i])
}

pub open spec fn octal_digit(c: char) -> bool {
    '0' <= c && c <= '7'
}

/// `0` followed only by decimal digits (and no `.`), more than one byte.
pub open spec fn is_implicit_octal(p: Seq<char>) -> bool {
    p.len() > 0 && p[0] == '0' && utf8_len(p) > 1 && all_from(p, 1, |c: char| is_ascii_digit_spec(c))
        && !p.contains('.')
}

/// `0o`/`0O` followed only by octal digits, more than two bytes.
pub open spec fn is_explicit_octal(p: Seq<char>) -> bool {
    p.len() > 1 && p[0] == '0' && (p[1] == 'o' || p[1] == 'O') && utf8_len(p) > 2 && all_from(
        p,
        2,
        |c: char| octal_digit(c),
    )
}

pub open spec fn octal_word(o: (bool, bool), n: int, line: Seq<char>, p: Seq<char>) -> Seq<SpecDiagnostic> {
    let col = find_col(line, p);
    (if o.0 && is_implicit_octal(p) {
        seq![ov_diag("implicit octal value is forbidden"@, n, col)]
    } else {
        seq![]
    }) + (if o.1 && is_explicit_octal(p) {
        seq![ov_diag("explicit octal value is forbidden"@, n, col)]
    } else {
        seq![]
    })
}

pub open spec fn octal_words(o: (bool, bool), n: int, line: Seq<char>, ws: Seq<Seq<char>>, k: int) -> Seq<SpecDiagnostic>
    decreases k,
{
    if k <= 0 {
        seq![]
    } else {
        octal_words(o, n, line, ws, k - 1) + octal_word(o, n, line, ws[k - 1])
    }
}

pub open spec fn octal_values_f(o: (bool, bool)) -> spec_fn(int, Seq<char>) -> Seq<SpecDiagnostic> {
    |n: int, line: Seq<char>| octal_words(o, n, line, words(trim(line)), words(trim(line)).len() as int)
}

fn all_digits_from(p: &[char], from: usize, octal: bool) -> (r: bool)
    ensures
        r == if octal {
            all_from(p@, from as int, |c: char| octal_digit(c))
        } else {
            all_from(p@, from as int, |c: char| is_ascii_digit_spec(c))
        },
{
    let mut i = from;
    while i < p.len()
        invariant
            from <= i <= p@.len() || (i == from && from > p@.len()),
            octal ==> forall|j: int| from <= j < i ==> octal_digit(#[trigger] p@[j]),
            !octal ==> forall|j: int| from <= j < i ==> is_ascii_digit_spec(#[trigger] p@[j]),
        decreases p@.len() - i,
    {
        let c = p[i];
        let ok = if octal {
            '0' <= c && c <= '7'
        } else {
            '0' <= c && c <= '9'
        };
        if !ok {
            return false;
        }
        i = i + 1;
    }
    true
}

fn push_ov(out: &mut Vec<Diagnostic>, msg: &str, n: usize, col: usize)
    ensures
        diags_view(final(out)@) == diags_view(old(out)@).push(ov_diag(msg@, n as int, col as int)),
{
    let d = Diagnostic::error("octal-values", msg, Location::new(n, col));
    let ghost b = out@;
    out.push(d);
    proof {
        lemma_diags_view_push(b, d);
    }
}

fn octal_values_check_line(o: (bool, bool), n: usize, line: &[char]) -> (r: Vec<Diagnostic>)
    requires
        1 <= n <= max_text_len(),
        line@.len() <= max_text_len(),
    ensures
        diags_view(r@) == octal_words(o, n as int, line@, words(trim(line@)), words(trim(line@)).len() as int),
{
    let t = trim_chars(line);
    proof {
        lemma_trim_lens(line@);
    }
    let ws = split_words(t.as_slice());
    let ghost wv = seqs_view(ws@);
    let mut out: Vec<Diagnostic> = Vec::new();
    let mut k: usize = 0;
    while k < ws.len()
        invariant
            k <= ws@.len(),
            1 <= n <= max_text_len(),
            line@.len() <= max_text_len(),
            t@.len() <= line@.len(),
            forall|j: int| 0 <= j < ws@.len() ==> (#[trigger] ws@[j])@.len() <= t@.len(),
            wv == seqs_view(ws@),
            wv == words(trim(line@)),
            diags_view(out@) == octal_words(o, n as int, line@, wv, k as int),
        decreases ws@.len() - k,
    {
        let p = ws[k].as_slice();
        assert(wv[k as int] == p@);
        assert(p@.len() <= max_text_len());
        let col = find_col_exec(line, p);
        let ghost d0 = diags_view(out@);
        let plen = byte_len(p);
        if o.0 && p.len() > 0 && p[0] == '0' && plen > 1 && all_digits_from(p, 1, false)
            && !contains_char(p, '.') {
            push_ov(&mut out, "implicit octal value is forbidden", n, col);
        }
        if o.1 && p.len() > 1 && p[0] == '0' && (p[1] == 'o' || p[1] == 'O') && plen > 2
            && all_digits_from(p, 2, true) {
            push_ov(&mut out, "explicit octal value is forbidden", n, col);
        }
        assert(diags_view(out@) =~= d0 + octal_word(o, n as int, line@, p@));
        k = k + 1;
    }
    out
}

impl Rule for OctalValues {
    open spec fn spec_name(&self) -> Seq<char> {
        "octal-values"@
    }

    open spec fn spec_check(&self, content: Seq<char>, config: Option<RuleConfig>) -> Seq<SpecDiagnostic> {
        flat_map_lines(
            split_lines(content),
            split_lines(content).len() as int,
            octal_values_f(
                (
                    opt_bool(config, "forbid-implicit-octal"@, self.forbid_implicit_octal),
                    opt_bool(config, "forbid-explicit-octal"@, self.forbid_explicit_octal),
                ),
            ),
        )
    }

    open spec fn spec_accepts(&self, content: Seq<char>, config: Option<RuleConfig>) -> bool {
        true
    }

    open spec fn spec_result(&self, content: Seq<char>, config: Option<RuleConfig>, out: Seq<SpecDiagnostic>) -> bool {
        out == self.spec_check(content, config)
    }

    open spec fn spec_fixable(&self) -> bool {
        false
    }

    fn name(&self) -> (r: &'static str) {
        "octal-values"
    }

    open spec fn spec_description(&self) -> Seq<char> {
        "Forbid specific octal values"@
    }

    fn description(&self) -> &'static str {
        "Forbid specific octal values"
    }

    fn check(&self, ctx: &RuleContext, config: Option<&RuleConfig>) -> (r: Vec<Diagnostic>) {
        proof {
            lemma_context_bounds(ctx);
        }
        let o = (
            cfg_bool(config, "forbid-implicit-octal", self.forbid_implicit_octal),
            cfg_bool(config, "forbid-explicit-octal", self.forbid_explicit_octal),
        );
        let mut out: Vec<Diagnostic> = Vec::new();
        let mut i: usize = 0;
        while i < ctx.lines.len()
            invariant
                ctx.wf(),
                i <= ctx.lines@.len(),
                ctx.lines_spec().len() <= ctx.content@.len(),
                forall|k: int| 0 <= k < ctx.lines_spec().len() ==> (#[trigger] ctx.lines_spec()[k]).len() <= ctx.content@.len(),
                diags_view(out@) == flat_map_lines(ctx.lines_spec(), i as int, octal_values_f(o)),
            decreases ctx.lines@.len() - i,
        {
            assert(ctx.lines_spec()[i as int] == ctx.lines@[i as int]@);
            let d = octal_values_check_line(o, i + 1, ctx.lines[i].as_slice());
            append_diags(&mut out, d);
            i = i + 1;
        }
        out
    }

    fn is_fixable(&self) -> (r: bool) {
        false
    }
}

} // verus!
