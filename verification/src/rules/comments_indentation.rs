//! Comment indentation rule.

use vstd::prelude::*;
use crate::diagnostic::{
    Diagnostic, Fix, Location, Severity, SpecDiagnostic, SpecFix, append_diags, diags_view,
    lemma_diags_view_push, plain_diag, with_fix_spec,
};
use crate::rule::{Rule, RuleConfig, RuleContext, cfg_of, flat_map_lines, lemma_context_bounds};
use crate::text::{
    byte_len, chars_to_string, lemma_trim_lens, lemma_utf8_len_bounds, lemma_utf8_len_trim,
    max_text_len, push_all, push_spaces, seqs_view, spaces, split_lines, trim_start,
    trim_start_chars, utf8_len,
};

verus! {

pub struct CommentsIndentation;

impl Default for CommentsIndentation {
    fn default() -> (r: Self) {
        CommentsIndentation
    }
}

/// A line whose first non-blank character exists and is not `#`.
pub open spec fn is_code_line(l: Seq<char>) -> bool {
    trim_start(l).len() > 0 && trim_start(l)[0] != '#'
}

/// A line whose first non-blank character is `#`.
pub open spec fn is_comment_line(l: Seq<char>) -> bool {
    trim_start(l).len() > 0 && trim_start(l)[0] == '#'
}

/// Bytes of leading white space.
pub open spec fn leading_indent(l: Seq<char>) -> int {
    utf8_len(l) - utf8_len(trim_start(l))
}

/// Indentation of the first code line at or after `j`.
pub open spec fn forward_target(lines: Seq<Seq<char>>, j: int) -> Option<int>
    decreases lines.len() - j,
{
    if j < 0 || j >= lines.len() {
        None
    } else if is_code_line(lines[j]) {
        Some(leading_indent(lines[j]))
    } else {
        forward_target(lines, j + 1)
    }
}

/// Indentation of the last code line before `j`.
pub open spec fn backward_target(lines: Seq<Seq<char>>, j: int) -> Option<int>
    decreases j,
{
    if j <= 0 || j > lines.len() {
        None
    } else if is_code_line(lines[j - 1]) {
        Some(leading_indent(lines[j - 1]))
    } else {
        backward_target(lines, j - 1)
    }
}

/// What the rule reports on line `n`: a comment line whose indentation is
/// not that of the next code line (or, if none, of the previous one).
pub open spec fn comments_indentation_line(lines: Seq<Seq<char>>, n: int, line: Seq<char>) -> Seq<SpecDiagnostic> {
    let target = match forward_target(lines, n) {
        Some(t) => Some(t),
        None => backward_target(lines, n - 1),
    };
    if is_comment_line(line) && target is Some && leading_indent(line) != target->0 {
        seq![
            with_fix_spec(
                plain_diag(
                    "comments-indentation"@,
                    Severity::Error,
                    "comment not indented like content"@,
                    Location { line: n as usize, column: 1 },
                ),
                SpecFix {
                    description: "re-indent comment"@,
                    replacement: spaces(target->0 as nat) + trim_start(line),
                    start: Location { line: n as usize, column: 1 },
                    end: Location { line: n as usize, column: (utf8_len(line) + 1) as usize },
                },
            ),
        ]
    } else {
        seq![]
    }
}

pub open spec fn comments_indentation_f(lines: Seq<Seq<char>>) -> spec_fn(int, Seq<char>) -> Seq<SpecDiagnostic> {
    |n: int, line: Seq<char>| comments_indentation_line(lines, n, line)
}

/// Leading indentation of `l` in bytes, and whether it is a code line.
fn indent_info(l: &[char]) -> (r: (usize, bool, bool))
    requires
        l@.len() <= max_text_len(),
    ensures
        r.0 == leading_indent(l@),
        r.1 == is_code_line(l@),
        r.2 == is_comment_line(l@),
{
    let t = trim_start_chars(l);
    proof {
        lemma_trim_lens(l@);
        lemma_utf8_len_trim(l@);
        lemma_utf8_len_bounds(l@);
    }
    let ind = byte_len(l) - byte_len(t.as_slice());
    (ind, t.len() > 0 && t[0] != '#', t.len() > 0 && t[0] == '#')
}

fn find_target(lines: &Vec<Vec<char>>, i: usize) -> (r: Option<usize>)
    requires
        i < lines@.len() <= max_text_len(),
        forall|k: int| 0 <= k < lines@.len() ==> (#[trigger] lines@[k])@.len() <= max_text_len(),
    ensures
        match r {
            Some(t) => (match forward_target(seqs_view(lines@), i + 1) {
                Some(x) => Some(x),
                None => backward_target(seqs_view(lines@), i as int),
            }) == Some(t as int),
            None => (match forward_target(seqs_view(lines@), i + 1) {
                Some(x) => Some(x),
                None => backward_target(seqs_view(lines@), i as int),
            }) is None,
        },
{
    let ghost ls = seqs_view(lines@);
    let mut j = i + 1;
    while j < lines.len()
        invariant
            ls == seqs_view(lines@),
            i < j <= lines@.len(),
            forall|k: int| 0 <= k < lines@.len() ==> (#[trigger] lines@[k])@.len() <= max_text_len(),
            forward_target(ls, j as int) == forward_target(ls, i + 1),
        decreases lines@.len() - j,
    {
        assert(ls[j as int] == lines@[j as int]@);
        let info = indent_info(lines[j].as_slice());
        if info.1 {
            return Some(info.0);
        }
        j = j + 1;
    }
    let mut b = i;
    while b > 0
        invariant
            ls == seqs_view(lines@),
            b <= i < lines@.len(),
            forall|k: int| 0 <= k < lines@.len() ==> (#[trigger] lines@[k])@.len() <= max_text_len(),
            forward_target(ls, i + 1) is None,
            backward_target(ls, b as int) == backward_target(ls, i as int),
        decreases b,
    {
        assert(ls[b - 1] == lines@[b - 1]@);
        let info = indent_info(lines[b - 1].as_slice());
        if info.1 {
            return Some(info.0);
        }
        b = b - 1;
    }
    None
}

impl Rule for CommentsIndentation {
    open spec fn spec_name(&self) -> Seq<char> {
        "comments-indentation"@
    }

    open spec fn spec_check(&self, content: Seq<char>, config: Option<RuleConfig>) -> Seq<SpecDiagnostic> {
        flat_map_lines(
            split_lines(content),
            split_lines(content).len() as int,
            comments_indentation_f(split_lines(content)),
        )
    }

    open spec fn spec_accepts(&self, content: Seq<char>, config: Option<RuleConfig>) -> bool {
        true
    }

    open spec fn spec_result(&self, content: Seq<char>, config: Option<RuleConfig>, out: Seq<SpecDiagnostic>) -> bool {
        out == self.spec_check(content, config)
    }

    open spec fn spec_fixable(&self) -> bool {
        true
    }

    fn name(&self) -> (r: &'static str) {
        "comments-indentation"
    }

    open spec fn spec_description(&self) -> Seq<char> {
        "Enforce comment indentation consistency"@
    }

    fn description(&self) -> &'static str {
        "Enforce comment indentation consistency"
    }

    fn check(&self, ctx: &RuleContext, config: Option<&RuleConfig>) -> (r: Vec<Diagnostic>) {
        proof {
            lemma_context_bounds(ctx);
        }
        let ghost lines = ctx.lines_spec();
        let mut out: Vec<Diagnostic> = Vec::new();
        let mut i: usize = 0;
        while i < ctx.lines.len()
            invariant
                ctx.wf(),
                lines == ctx.lines_spec(),
                i <= ctx.lines@.len(),
                lines.len() <= ctx.content@.len(),
                forall|k: int| 0 <= k < lines.len() ==> (#[trigger] lines[k]).len() <= ctx.content@.len(),
                diags_view(out@) == flat_map_lines(lines, i as int, comments_indentation_f(lines)),
            decreases ctx.lines@.len() - i,
        {
            assert(lines[i as int] == ctx.lines@[i as int]@);
            assert forall|k: int| 0 <= k < ctx.lines@.len() implies (#[trigger] ctx.lines@[k])@.len() <= max_text_len() by {
                assert(lines[k] == ctx.lines@[k]@);
            }
            let line = ctx.lines[i].as_slice();
            let info = indent_info(line);
            let mut d: Vec<Diagnostic> = Vec::new();
            if info.2 {
                match find_target(&ctx.lines, i) {
                    Some(target) => {
                        if info.0 != target {
                            let t = trim_start_chars(line);
                            let mut rep: Vec<char> = Vec::new();
                            push_spaces(&mut rep, target);
                            push_all(&mut rep, t.as_slice());
                            let reps = chars_to_string(rep.as_slice());
                            proof {
                                lemma_utf8_len_bounds(line@);
                            }
                            let len = byte_len(line);
                            let one = Diagnostic::error(
                                "comments-indentation",
                                "comment not indented like content",
                                Location::new(i + 1, 1),
                            ).with_fix(
                                Fix::new(
                                    "re-indent comment",
                                    reps.as_str(),
                                    Location::new(i + 1, 1),
                                    Location::new(i + 1, len + 1),
                                ),
                            );
                            d.push(one);
                            proof {
                                lemma_diags_view_push(Seq::empty(), one);
                            }
                        }
                    },
                    None => {},
                }
            }
            assert(diags_view(d@) =~= comments_indentation_line(lines, i + 1, line@));
            append_diags(&mut out, d);
            i = i + 1;
        }
        out
    }

    fn is_fixable(&self) -> (r: bool) {
        true
    }
}

} // verus!
