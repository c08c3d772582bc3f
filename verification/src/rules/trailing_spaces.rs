//! Trailing spaces rule.

use vstd::prelude::*;
use crate::diagnostic::{
    Diagnostic, Fix, Location, Severity, SpecDiagnostic, SpecFix, append_diags, diags_view,
    lemma_diags_view_push, plain_diag, with_fix_spec,
};
use crate::rule::{Rule, RuleConfig, RuleContext, cfg_of, flat_map_lines, lemma_context_bounds};
use crate::text::{
    byte_len, chars_to_string, join_lines, join_lines_exec, lemma_trim_lens, lemma_utf8_len_bounds, lines_of,
    max_text_len, seqs_view, split_lines, str_chars, trim_end, trim_end_chars, utf8_len,
};

verus! {

/// Rule that checks for trailing whitespace on lines.
pub struct TrailingSpaces;

/// What the rule reports on line `n`.
pub open spec fn trailing_line(n: int, line: Seq<char>) -> Seq<SpecDiagnostic> {
    let t = trim_end(line);
    if utf8_len(t) < utf8_len(line) {
        let at = Location { line: n as usize, column: (utf8_len(t) + 1) as usize };
        seq![
            with_fix_spec(
                plain_diag("trailing-spaces"@, Severity::Warning, "trailing spaces"@, at),
                SpecFix {
                    description: "Remove trailing spaces"@,
                    replacement: seq![],
                    start: at,
                    end: Location { line: n as usize, column: (utf8_len(line) + 1) as usize },
                },
            ),
        ]
    } else {
        seq![]
    }
}

pub open spec fn trailing_f() -> spec_fn(int, Seq<char>) -> Seq<SpecDiagnostic> {
    |n: int, line: Seq<char>| trailing_line(n, line)
}

fn trailing_check_line(n: usize, line: &Vec<char>) -> (r: Vec<Diagnostic>)
    requires
        1 <= n <= max_text_len(),
        line@.len() <= max_text_len(),
    ensures
        diags_view(r@) == trailing_line(n as int, line@),
{
    let trimmed = trim_end_chars(line.as_slice());
    proof {
        lemma_trim_lens(line@);
        lemma_utf8_len_bounds(line@);
        lemma_utf8_len_bounds(trimmed@);
    }
    let tlen = byte_len(trimmed.as_slice());
    let llen = byte_len(line.as_slice());
    let mut out: Vec<Diagnostic> = Vec::new();
    if tlen < llen {
        let col = tlen + 1;
        let d = Diagnostic::warning("trailing-spaces", "trailing spaces", Location::new(n, col))
            .with_fix(
            Fix::delete("Remove trailing spaces", Location::new(n, col), Location::new(n, llen + 1)),
        );
        out.push(d);
        proof {
            lemma_diags_view_push(Seq::empty(), d);
            assert(diags_view(out@) =~= trailing_line(n as int, line@));
        }
    } else {
        assert(diags_view(out@) =~= trailing_line(n as int, line@));
    }
    out
}

impl Rule for TrailingSpaces {
    open spec fn spec_name(&self) -> Seq<char> {
        "trailing-spaces"@
    }

    open spec fn spec_check(&self, content: Seq<char>, config: Option<RuleConfig>) -> Seq<SpecDiagnostic> {
        flat_map_lines(split_lines(content), split_lines(content).len() as int, trailing_f())
    }

    open spec fn spec_accepts(&self, content: Seq<char>, config: Option<RuleConfig>) -> bool {
        true
    }

    open spec fn spec_result(&self, content: Seq<char>, config: Option<RuleConfig>, out: Seq<SpecDiagnostic>) -> bool {
        out == self.spec_check(content, config)
    }

    open spec fn spec_fixable(&self) -> bool {
        true
    }

    fn name(&self) -> (r: &'static str) {
        "trailing-spaces"
    }

    open spec fn spec_description(&self) -> Seq<char> {
        "Forbid trailing spaces at the end of lines"@
    }

    fn description(&self) -> &'static str {
        "Forbid trailing spaces at the end of lines"
    }

    fn check(&self, ctx: &RuleContext, config: Option<&RuleConfig>) -> (r: Vec<Diagnostic>) {
        proof {
            lemma_context_bounds(ctx);
        }
        let mut out: Vec<Diagnostic> = Vec::new();
        let mut i: usize = 0;
        while i < ctx.lines.len()
            invariant
                ctx.wf(),
                i <= ctx.lines@.len(),
                ctx.lines_spec().len() <= ctx.content@.len(),
                forall|k: int| 0 <= k < ctx.lines_spec().len() ==> (#[trigger] ctx.lines_spec()[k]).len() <= ctx.content@.len(),
                diags_view(out@) == flat_map_lines(ctx.lines_spec(), i as int, trailing_f()),
            decreases ctx.lines@.len() - i,
        {
            assert(ctx.lines_spec()[i as int] == ctx.lines@[i as int]@);
            let d = trailing_check_line(i + 1, &ctx.lines[i]);
            append_diags(&mut out, d);
            i = i + 1;
        }
        out
    }

    fn is_fixable(&self) -> (r: bool) {
        true
    }
}

/// The content with the trailing white space of every line removed, lines
/// joined with `'\n'`, and a final `'\n'` kept if there was one.
pub open spec fn fix_trailing_spaces_spec(content: Seq<char>) -> Seq<char> {
    join_lines(split_lines(content).map_values(|l: Seq<char>| trim_end(l))) + if content.len() > 0
        && content.last() == '\n' {
        seq!['\n']
    } else {
        seq![]
    }
}

/// Fix trailing spaces in content.
pub fn fix_trailing_spaces(content: &str) -> (r: String)
    ensures
        r@ == fix_trailing_spaces_spec(content@),
{
    let chars = str_chars(content);
    let lines = lines_of(chars.as_slice());
    let mut trimmed: Vec<Vec<char>> = Vec::new();
    let mut i: usize = 0;
    while i < lines.len()
        invariant
            i <= lines@.len(),
            seqs_view(trimmed@) == seqs_view(lines@).take(i as int).map_values(
                |l: Seq<char>| trim_end(l),
            ),
        decreases lines@.len() - i,
    {
        let t = trim_end_chars(lines[i].as_slice());
        let ghost old_t = seqs_view(trimmed@);
        trimmed.push(t);
        proof {
            let f = |l: Seq<char>| trim_end(l);
            assert(seqs_view(trimmed@) =~= old_t.push(t@));
            assert(seqs_view(lines@).take(i + 1).map_values(f) =~= seqs_view(lines@).take(
                i as int,
            ).map_values(f).push(f(seqs_view(lines@)[i as int])));
        }
        i = i + 1;
        assert(seqs_view(trimmed@) =~= seqs_view(lines@).take(i as int).map_values(
            |l: Seq<char>| trim_end(l),
        ));
    }
    assert(seqs_view(lines@).take(lines@.len() as int) =~= seqs_view(lines@));
    let mut out = join_lines_exec(&trimmed);
    if chars.len() > 0 && chars[chars.len() - 1] == '\n' {
        out.push('\n');
    }
    chars_to_string(out.as_slice())
}

} // verus!
