//! Empty values rule.

use vstd::prelude::*;
use crate::diagnostic::{
    Diagnostic, Location, Severity, SpecDiagnostic, append_diags, diags_view,
    lemma_diags_view_push, plain_diag,
};
use crate::rule::{
    Rule, RuleConfig, RuleContext, cfg_bool, cfg_of, flat_map_lines, lemma_context_bounds, opt_bool,
};
use crate::text::{
    byte_len, byte_offset, contains_char, find_char_from, lemma_find_char_from, lemma_trim_lens,
    lemma_utf8_len_take_ge, max_text_len, slice_to_vec, split_lines, starts_with,
    starts_with_str, trim, trim_chars, utf8_len,
};

verus! {

pub struct EmptyValues {
    pub forbid_in_block_mappings: bool,
    pub forbid_in_flow_mappings: bool,
    pub forbid_in_block_sequences: bool,
}

impl Default for EmptyValues {
    fn default() -> (r: Self)
        ensures
            r.forbid_in_block_mappings,
            r.forbid_in_flow_mappings,
            r.forbid_in_block_sequences,
    {
        Self {
            forbid_in_block_mappings: true,
            forbid_in_flow_mappings: true,
            forbid_in_block_sequences: true,
        }
    }
}

pub open spec fn ev_diag(msg: Seq<char>, n: int, col: int) -> SpecDiagnostic {
    plain_diag("empty-values"@, Severity::Error, msg, Location { line: n as usize, column: col as usize })
}

/// What the rule reports on line `n`: a first `:` of the trimmed line with
/// nothing but white space after it is an empty value, in a flow mapping
/// when the line holds a `{`.
pub open spec fn empty_values_line(o: (bool, bool, bool), n: int, line: Seq<char>) -> Seq<SpecDiagnostic> {
    let t = trim(line);
    let c = find_char_from(t, 0, ':');
    let empty = c < t.len() && trim(t.subrange(c + 1, t.len() as int)).len() == 0;
    let col = utf8_len(t.take(c)) + 2int;
    let in_flow = line.contains('{');
    (if o.0 && empty && !in_flow {
        seq![ev_diag("empty value in block mapping"@, n, col)]
    } else {
        seq![]
    }) + (if o.1 && empty && in_flow {
        seq![ev_diag("empty value in flow mapping"@, n, col)]
    } else {
        seq![]
    }) + (if o.2 && starts_with(t, "- "@) && utf8_len(t) == 2 {
        seq![ev_diag("empty value in block sequence"@, n, 3)]
    } else {
        seq![]
    })
}

pub open spec fn empty_values_f(o: (bool, bool, bool)) -> spec_fn(int, Seq<char>) -> Seq<SpecDiagnostic> {
    |n: int, line: Seq<char>| empty_values_line(o, n, line)
}

fn push_ev(out: &mut Vec<Diagnostic>, msg: &str, n: usize, col: usize)
    ensures
        diags_view(final(out)@) == diags_view(old(out)@).push(ev_diag(msg@, n as int, col as int)),
{
    let d = Diagnostic::error("empty-values", msg, Location::new(n, col));
    let ghost b = out@;
    out.push(d);
    proof {
        lemma_diags_view_push(b, d);
    }
}

fn empty_values_check_line(o: (bool, bool, bool), n: usize, line: &[char]) -> (r: Vec<Diagnostic>)
    requires
        1 <= n <= max_text_len(),
        line@.len() <= max_text_len(),
    ensures
        diags_view(r@) == empty_values_line(o, n as int, line@),
{
    let mut out: Vec<Diagnostic> = Vec::new();
    let t = trim_chars(line);
    proof {
        lemma_trim_lens(line@);
    }
    let mut c: usize = 0;
    while c < t.len() && t[c] != ':'
        invariant
            c <= t@.len(),
            find_char_from(t@, c as int, ':') == find_char_from(t@, 0, ':'),
        decreases t@.len() - c,
    {
        c = c + 1;
    }
    let empty = if c < t.len() {
        let rest = slice_to_vec(t.as_slice(), c + 1, t.len());
        trim_chars(rest.as_slice()).len() == 0
    } else {
        false
    };
    let col = byte_offset(t.as_slice(), c) + 2;
    let in_flow = contains_char(line, '{');
    let ghost d0 = diags_view(out@);
    if o.0 && empty && !in_flow {
        push_ev(&mut out, "empty value in block mapping", n, col);
    }
    let ghost d1 = diags_view(out@);
    if o.1 && empty && in_flow {
        push_ev(&mut out, "empty value in flow mapping", n, col);
    }
    let ghost d2 = diags_view(out@);
    if o.2 && starts_with_str(t.as_slice(), "- ") && byte_len(t.as_slice()) == 2 {
        push_ev(&mut out, "empty value in block sequence", n, 3);
    }
    assert(diags_view(out@) =~= empty_values_line(o, n as int, line@));
    out
}

impl Rule for EmptyValues {
    open spec fn spec_name(&self) -> Seq<char> {
        "empty-values"@
    }

    open spec fn spec_check(&self, content: Seq<char>, config: Option<RuleConfig>) -> Seq<SpecDiagnostic> {
        flat_map_lines(
            split_lines(content),
            split_lines(content).len() as int,
            empty_values_f(
                (
                    opt_bool(config, "forbid-in-block-mappings"@, self.forbid_in_block_mappings),
                    opt_bool(config, "forbid-in-flow-mappings"@, self.forbid_in_flow_mappings),
                    opt_bool(config, "forbid-in-block-sequences"@, self.forbid_in_block_sequences),
                ),
            ),
        )
    }

    open spec fn spec_accepts(&self, content: Seq<char>, config: Option<RuleConfig>) -> bool {
        true
    }

    open spec fn spec_result(&self, content: Seq<char>, config: Option<RuleConfig>, out: Seq<SpecDiagnostic>) -> bool {
        out == self.spec_check(content, config)
    }

    open spec fn spec_fixable(&self) -> bool {
        false
    }

    fn name(&self) -> (r: &'static str) {
        "empty-values"
    }

    open spec fn spec_description(&self) -> Seq<char> {
        "Forbid empty values"@
    }

    fn description(&self) -> &'static str {
        "Forbid empty values"
    }

    fn check(&self, ctx: &RuleContext, config: Option<&RuleConfig>) -> (r: Vec<Diagnostic>) {
        proof {
            lemma_context_bounds(ctx);
        }
        let o = (
            cfg_bool(config, "forbid-in-block-mappings", self.forbid_in_block_mappings),
            cfg_bool(config, "forbid-in-flow-mappings", self.forbid_in_flow_mappings),
            cfg_bool(config, "forbid-in-block-sequences", self.forbid_in_block_sequences),
        );
        let mut out: Vec<Diagnostic> = Vec::new();
        let mut i: usize = 0;
        while i < ctx.lines.len()
            invariant
                ctx.wf(),
                i <= ctx.lines@.len(),
                ctx.lines_spec().len() <= ctx.content@.len(),
                forall|k: int| 0 <= k < ctx.lines_spec().len() ==> (#[trigger] ctx.lines_spec()[k]).len() <= ctx.content@.len(),
                diags_view(out@) == flat_map_lines(ctx.lines_spec(), i as int, empty_values_f(o)),
            decreases ctx.lines@.len() - i,
        {
            assert(ctx.lines_spec()[i as int] == ctx.lines@[i as int]@);
            let d = empty_values_check_line(o, i + 1, ctx.lines[i].as_slice());
            append_diags(&mut out, d);
            i = i + 1;
        }
        out
    }

    fn is_fixable(&self) -> (r: bool) {
        false
    }
}

} // verus!
