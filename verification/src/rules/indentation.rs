//! Indentation consistency rule.

use vstd::prelude::*;
use crate::diagnostic::{
    Diagnostic, Location, Severity, SpecDiagnostic, diags_view, lemma_diags_view_push, plain_diag,
};
use crate::rule::{
    Rule, RuleConfig, RuleContext, cfg_bool, cfg_of, lemma_context_bounds, opt_bool, opt_string,
};
use crate::rules::key_duplicates::{is_skipped_line, line_indent};
use crate::text::{
    byte_len, chars_to_string, decimal, eq_str, lemma_trim_lens, lemma_utf8_len_bounds,
    lemma_utf8_len_trim, max_text_len, parse_usize, parse_usize_spec, push_decimal, push_str,
    split_lines, starts_with, starts_with_str, str_chars, trim, trim_chars,
};

verus! {

pub struct Indentation {
    pub spaces: String,
    pub indent_sequences: bool,
    pub check_multi_line_strings: bool,
}

impl Default for Indentation {
    fn default() -> (r: Self)
        ensures
            r.spaces@ == "consistent"@,
            r.indent_sequences,
            !r.check_multi_line_strings,
    {
        Self {
            spaces: "consistent".to_owned(),
            indent_sequences: true,
            check_multi_line_strings: false,
        }
    }
}

/// The indent size fixed by the `spaces` option: 0 for `consistent` (set
/// by the first indentation), else its number, or 2 when it is not one.
pub open spec fn initial_indent_size(spaces: Seq<char>) -> usize {
    if spaces == "consistent"@ {
        0
    } else {
        match parse_usize_spec(spaces) {
            Some(u) => u,
            None => 2,
        }
    }
}

pub open spec fn ind_diag(msg: Seq<char>, n: int) -> SpecDiagnostic {
    plain_diag("indentation"@, Severity::Error, msg, Location { line: n as usize, column: 1 })
}

/// State after the first `k` lines: previous indentation, indent size,
/// indentation of the current run of sequence items, diagnostics.
pub open spec fn indentation_state(lines: Seq<Seq<char>>, k: int, size0: int, indent_seqs: bool) -> (
    int,
    int,
    Option<int>,
    Seq<SpecDiagnostic>,
)
    decreases k,
{
    if k <= 0 {
        (0, size0, None, seq![])
    } else {
        let (prev, size, seq_ind, diags) = indentation_state(lines, k - 1, size0, indent_seqs);
        let line = lines[k - 1];
        if is_skipped_line(line) {
            (prev, size, seq_ind, diags)
        } else {
            let cur = line_indent(line);
            let is_item = starts_with(trim(line), "- "@);
            let d1 = if is_item && seq_ind is Some && indent_seqs && cur != seq_ind->0 {
                diags.push(ind_diag("wrong indentation for sequence"@, k))
            } else {
                diags
            };
            let seq2 = if is_item {
                if seq_ind is Some {
                    seq_ind
                } else {
                    Some(cur)
                }
            } else {
                None
            };
            let (size2, d2) = if cur > prev {
                let diff = cur - prev;
                if size == 0 {
                    (diff, d1)
                } else if diff != size {
                    (
                        size,
                        d1.push(
                            ind_diag(
                                "wrong indentation: expected "@ + decimal(size as nat) + ", found "@
                                    + decimal(diff as nat),
                                k,
                            ),
                        ),
                    )
                } else {
                    (size, d1)
                }
            } else if cur < prev {
                let diff = prev - cur;
                if size != 0 && diff % size != 0 {
                    (size, d1.push(ind_diag("wrong indentation: not a multiple of indent size"@, k)))
                } else {
                    (size, d1)
                }
            } else {
                (size, d1)
            };
            let d3 = if size2 != 0 && cur % size2 != 0 {
                d2.push(ind_diag("wrong indentation: not a multiple of indent size"@, k))
            } else {
                d2
            };
            (cur, size2, seq2, d3)
        }
    }
}

pub open spec fn indentation_spec(content: Seq<char>, spaces: Seq<char>, indent_seqs: bool) -> Seq<SpecDiagnostic> {
    let lines = split_lines(content);
    indentation_state(lines, lines.len() as int, initial_indent_size(spaces) as int, indent_seqs).3
}

fn push_ind(out: &mut Vec<Diagnostic>, msg: &str, n: usize)
    ensures
        diags_view(final(out)@) == diags_view(old(out)@).push(ind_diag(msg@, n as int)),
{
    let d = Diagnostic::error("indentation", msg, Location::new(n, 1));
    let ghost b = out@;
    out.push(d);
    proof {
        lemma_diags_view_push(b, d);
    }
}

impl Rule for Indentation {
    open spec fn spec_name(&self) -> Seq<char> {
        "indentation"@
    }

    open spec fn spec_check(&self, content: Seq<char>, config: Option<RuleConfig>) -> Seq<SpecDiagnostic> {
        indentation_spec(
            content,
            match opt_string(config, "spaces"@) {
                Some(s) => s,
                None => self.spaces@,
            },
            opt_bool(config, "indent-sequences"@, self.indent_sequences),
        )
    }

    open spec fn spec_accepts(&self, content: Seq<char>, config: Option<RuleConfig>) -> bool {
        true
    }

    open spec fn spec_result(&self, content: Seq<char>, config: Option<RuleConfig>, out: Seq<SpecDiagnostic>) -> bool {
        out == self.spec_check(content, config)
    }

    open spec fn spec_fixable(&self) -> bool {
        false
    }

    fn name(&self) -> (r: &'static str) {
        "indentation"
    }

    open spec fn spec_description(&self) -> Seq<char> {
        "Check for consistent indentation"@
    }

    fn description(&self) -> &'static str {
        "Check for consistent indentation"
    }

    fn check(&self, ctx: &RuleContext, config: Option<&RuleConfig>) -> (r: Vec<Diagnostic>) {
        proof {
            lemma_context_bounds(ctx);
        }
        let spaces = match config {
            Some(c) => match c.get_string("spaces") {
                Some(s) => s,
                None => self.spaces.clone(),
            },
            None => self.spaces.clone(),
        };
        let ghost spaces_v = match opt_string(cfg_of(config), "spaces"@) {
            Some(s) => s,
            None => self.spaces@,
        };
        assert(spaces@ == spaces_v);
        let indent_seqs = cfg_bool(config, "indent-sequences", self.indent_sequences);
        let sp_chars = str_chars(spaces.as_str());
        let size0: usize = if eq_str(sp_chars.as_slice(), "consistent") {
            0
        } else {
            match parse_usize(sp_chars.as_slice()) {
                Some(u) => u,
                None => 2,
            }
        };
        let ghost lines = ctx.lines_spec();
        let ghost bound = 4 * ctx.content@.len();
        proof {
            assert forall|j: int| 0 <= j < lines.len() implies 0 <= line_indent(#[trigger] lines[j]) <= bound by {
                lemma_utf8_len_trim(lines[j]);
                lemma_utf8_len_bounds(lines[j]);
            }
        }
        let mut prev: usize = 0;
        let mut size: usize = size0;
        let mut seq_ind: Option<usize> = None;
        let mut out: Vec<Diagnostic> = Vec::new();
        let mut idx: usize = 0;
        while idx < ctx.lines.len()
            invariant
                ctx.wf(),
                lines == ctx.lines_spec(),
                idx <= lines.len() <= ctx.content@.len(),
                bound == 4 * ctx.content@.len(),
                forall|k: int| 0 <= k < lines.len() ==> (#[trigger] lines[k]).len() <= ctx.content@.len(),
                forall|j: int| 0 <= j < lines.len() ==> 0 <= line_indent(#[trigger] lines[j]) <= bound,
                indentation_state(lines, idx as int, size0 as int, indent_seqs) == (
                    prev as int,
                    size as int,
                    match seq_ind {
                        Some(x) => Some(x as int),
                        None => None,
                    },
                    diags_view(out@),
                ),
            decreases lines.len() - idx,
        {
            assert(lines[idx as int] == ctx.lines@[idx as int]@);
            let line = ctx.lines[idx].as_slice();
            let t = trim_chars(line);
            let n = idx + 1;
            if t.len() == 0 || t[0] == '#' {
                idx = idx + 1;
                continue;
            }
            proof {
                lemma_trim_lens(line@);
                lemma_utf8_len_trim(line@);
                lemma_utf8_len_bounds(line@);
            }
            let cur = byte_len(line) - byte_len(t.as_slice());
            let is_item = starts_with_str(t.as_slice(), "- ");
            if is_item {
                match seq_ind {
                    Some(s) => {
                        if indent_seqs && cur != s {
                            push_ind(&mut out, "wrong indentation for sequence", n);
                        }
                    },
                    None => {
                        seq_ind = Some(cur);
                    },
                }
            } else {
                seq_ind = None;
            }
            if cur > prev {
                let diff = cur - prev;
                if size == 0 {
                    size = diff;
                } else if diff != size {
                    let mut m: Vec<char> = Vec::new();
                    push_str(&mut m, "wrong indentation: expected ");
                    push_decimal(&mut m, size);
                    push_str(&mut m, ", found ");
                    push_decimal(&mut m, diff);
                    let ms = chars_to_string(m.as_slice());
                    push_ind(&mut out, ms.as_str(), n);
                }
            } else if cur < prev {
                let diff = prev - cur;
                if size != 0 && diff % size != 0 {
                    push_ind(&mut out, "wrong indentation: not a multiple of indent size", n);
                }
            }
            if size != 0 && cur % size != 0 {
                push_ind(&mut out, "wrong indentation: not a multiple of indent size", n);
            }
            prev = cur;
            idx = idx + 1;
        }
        out
    }

    fn is_fixable(&self) -> (r: bool) {
        false
    }
}

} // verus!
