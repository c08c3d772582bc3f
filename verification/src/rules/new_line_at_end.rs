//! New line at end of file rule.

use vstd::prelude::*;
use crate::diagnostic::{
    Diagnostic, Fix, Location, Severity, SpecDiagnostic, SpecFix, diags_view,
    lemma_diags_view_push, plain_diag, with_fix_spec,
};
use crate::rule::{Rule, RuleConfig, RuleContext, cfg_of, lemma_context_bounds};
use crate::text::{
    byte_len, chars_to_string, lemma_utf8_len_bounds, max_text_len, split_lines, str_chars,
    utf8_len,
};

verus! {

/// Rule that requires files to end with a newline.
pub struct NewLineAtEndOfFile;

/// Byte length of the last line, or 0 when there is none.
pub open spec fn last_line_len(lines: Seq<Seq<char>>) -> nat {
    if lines.len() == 0 {
        0
    } else {
        utf8_len(lines.last())
    }
}

/// A diagnostic at the end of a non-empty text whose last character is not
/// a line break.
pub open spec fn new_line_at_end_spec(content: Seq<char>) -> Seq<SpecDiagnostic> {
    if content.len() == 0 || content.last() == '\n' {
        seq![]
    } else {
        let lines = split_lines(content);
        let at = Location {
            line: lines.len() as usize,
            column: (last_line_len(lines) + 1) as usize,
        };
        seq![
            with_fix_spec(
                plain_diag(
                    "new-line-at-end-of-file"@,
                    Severity::Warning,
                    "no new line character at the end of file"@,
                    at,
                ),
                SpecFix {
                    description: "Add newline at end of file"@,
                    replacement: "\n"@,
                    start: at,
                    end: at,
                },
            ),
        ]
    }
}

impl Rule for NewLineAtEndOfFile {
    open spec fn spec_name(&self) -> Seq<char> {
        "new-line-at-end-of-file"@
    }

    open spec fn spec_check(&self, content: Seq<char>, config: Option<RuleConfig>) -> Seq<SpecDiagnostic> {
        new_line_at_end_spec(content)
    }

    open spec fn spec_accepts(&self, content: Seq<char>, config: Option<RuleConfig>) -> bool {
        true
    }

    open spec fn spec_result(&self, content: Seq<char>, config: Option<RuleConfig>, out: Seq<SpecDiagnostic>) -> bool {
        out == self.spec_check(content, config)
    }

    open spec fn spec_fixable(&self) -> bool {
        true
    }

    fn name(&self) -> (r: &'static str) {
        "new-line-at-end-of-file"
    }

    open spec fn spec_description(&self) -> Seq<char> {
        "Require a new line at the end of the file"@
    }

    fn description(&self) -> &'static str {
        "Require a new line at the end of the file"
    }

    fn check(&self, ctx: &RuleContext, config: Option<&RuleConfig>) -> (r: Vec<Diagnostic>) {
        proof {
            lemma_context_bounds(ctx);
        }
        let mut out: Vec<Diagnostic> = Vec::new();
        let n = ctx.content.len();
        if n == 0 || ctx.content[n - 1] == '\n' {
            proof {
                assert(diags_view(out@) =~= Seq::<SpecDiagnostic>::empty());
            }
            return out;
        }
        let line_count = ctx.lines.len();
        let last_len = if line_count == 0 {
            0
        } else {
            proof {
                lemma_utf8_len_bounds(ctx.lines_spec()[line_count - 1]);
                assert(ctx.lines_spec()[line_count - 1] == ctx.lines@[line_count - 1]@);
            }
            byte_len(ctx.lines[line_count - 1].as_slice())
        };
        let at = Location::new(line_count, last_len + 1);
        let d = Diagnostic::warning(
            "new-line-at-end-of-file",
            "no new line character at the end of file",
            at,
        ).with_fix(Fix::insert("Add newline at end of file", "\n", at));
        out.push(d);
        proof {
            lemma_diags_view_push(Seq::empty(), d);
            assert(diags_view(out@) =~= new_line_at_end_spec(ctx.content@));
        }
        out
    }

    fn is_fixable(&self) -> (r: bool) {
        true
    }
}

/// The content with a `'\n'` appended when it is non-empty and does not end
/// with one.
pub open spec fn fix_new_line_at_end_spec(content: Seq<char>) -> Seq<char> {
    if content.len() == 0 || content.last() == '\n' {
        content
    } else {
        content + seq!['\n']
    }
}

/// Fix missing newline at end of file.
pub fn fix_new_line_at_end(content: &str) -> (r: String)
    ensures
        r@ == fix_new_line_at_end_spec(content@),
{
    let mut chars = str_chars(content);
    let n = chars.len();
    if n == 0 || chars[n - 1] == '\n' {
        content.to_owned()
    } else {
        chars.push('\n');
        chars_to_string(chars.as_slice())
    }
}

/// After the fix, the rule has nothing left to report.
pub proof fn lemma_fixed_file_ends_with_new_line(content: Seq<char>)
    ensures
        new_line_at_end_spec(fix_new_line_at_end_spec(content)) == Seq::<SpecDiagnostic>::empty(),
{
}

/// Fixing twice gives what fixing once gives, and the fix only appends.
pub proof fn lemma_fix_new_line_at_end_idempotent(content: Seq<char>)
    ensures
        fix_new_line_at_end_spec(fix_new_line_at_end_spec(content)) == fix_new_line_at_end_spec(content),
        fix_new_line_at_end_spec(content).take(content.len() as int) == content,
{
    assert(fix_new_line_at_end_spec(content).take(content.len() as int) =~= content);
}

} // verus!
