//! Document start and end markers rules.

use vstd::prelude::*;
use crate::diagnostic::{
    Diagnostic, Fix, Location, Severity, SpecDiagnostic, SpecFix, diags_view,
    lemma_diags_view_push, plain_diag, with_fix_spec,
};
use crate::rule::{Rule, RuleConfig, RuleContext, cfg_of, lemma_context_bounds};
use crate::text::{
    byte_len, chars_to_string, eq_str, lemma_trim_lens, lemma_utf8_len_bounds, lines_of,
    max_text_len, push_all, push_str, seqs_view, split_lines, starts_with, starts_with_str,
    str_chars, trim, trim_chars, trim_end, trim_end_chars, utf8_len,
};

verus! {

/// A line that holds something other than white space and comments.
pub open spec fn is_content_line(line: Seq<char>) -> bool {
    let t = trim(line);
    t.len() > 0 && t[0] != '#'
}

/// Index of the first content line at or after `i`, or `lines.len()`.
pub open spec fn first_content_from(lines: Seq<Seq<char>>, i: int) -> int
    decreases lines.len() - i,
{
    if i < 0 || i >= lines.len() {
        lines.len() as int
    } else if is_content_line(lines[i]) {
        i
    } else {
        first_content_from(lines, i + 1)
    }
}

/// Index of the last content line before `j`, or -1.
pub open spec fn last_content_before(lines: Seq<Seq<char>>, j: int) -> int
    decreases j,
{
    if j <= 0 || j > lines.len() {
        -1
    } else if is_content_line(lines[j - 1]) {
        j - 1
    } else {
        last_content_before(lines, j - 1)
    }
}

/// A line that counts as a document start marker.
pub open spec fn is_start_marker(line: Seq<char>) -> bool {
    trim(line) == "---"@ || starts_with(line, "---"@)
}

fn is_content_line_exec(line: &[char]) -> (r: bool)
    ensures
        r == is_content_line(line@),
{
    let t = trim_chars(line);
    t.len() > 0 && t[0] != '#'
}

fn is_start_marker_exec(line: &[char]) -> (r: bool)
    ensures
        r == is_start_marker(line@),
{
    let t = trim_chars(line);
    eq_str(t.as_slice(), "---") || starts_with_str(line, "---")
}

fn first_content_line(lines: &Vec<Vec<char>>) -> (r: usize)
    ensures
        r == first_content_from(seqs_view(lines@), 0),
{
    let mut i: usize = 0;
    while i < lines.len()
        invariant
            i <= lines@.len(),
            first_content_from(seqs_view(lines@), i as int) == first_content_from(seqs_view(lines@), 0),
        decreases lines@.len() - i,
    {
        assert(seqs_view(lines@)[i as int] == lines@[i as int]@);
        if is_content_line_exec(lines[i].as_slice()) {
            return i;
        }
        i = i + 1;
    }
    i
}

/// `lines.len()` when there is no content line, else its index.
fn last_content_line(lines: &Vec<Vec<char>>) -> (r: Option<usize>)
    ensures
        match r {
            Some(i) => i < lines@.len() && i == last_content_before(seqs_view(lines@), lines@.len() as int),
            None => last_content_before(seqs_view(lines@), lines@.len() as int) == -1,
        },
{
    let mut j: usize = lines.len();
    while j > 0
        invariant
            j <= lines@.len(),
            last_content_before(seqs_view(lines@), j as int) == last_content_before(
                seqs_view(lines@),
                lines@.len() as int,
            ),
        decreases j,
    {
        assert(seqs_view(lines@)[j - 1] == lines@[j - 1]@);
        if is_content_line_exec(lines[j - 1].as_slice()) {
            return Some(j - 1);
        }
        j = j - 1;
    }
    None
}

/// Rule that requires document start marker (---).
pub struct DocumentStart;

/// A warning on the first content line unless it is a start marker.
pub open spec fn document_start_spec(content: Seq<char>) -> Seq<SpecDiagnostic> {
    let lines = split_lines(content);
    let k = first_content_from(lines, 0);
    if content.len() == 0 || k >= lines.len() || is_start_marker(lines[k]) {
        seq![]
    } else {
        seq![
            with_fix_spec(
                plain_diag(
                    "document-start"@,
                    Severity::Warning,
                    "missing document start \"---\""@,
                    Location { line: (k + 1) as usize, column: 1 },
                ),
                SpecFix {
                    description: "Add document start marker"@,
                    replacement: "---\n"@,
                    start: Location { line: 1, column: 1 },
                    end: Location { line: 1, column: 1 },
                },
            ),
        ]
    }
}

impl Rule for DocumentStart {
    open spec fn spec_name(&self) -> Seq<char> {
        "document-start"@
    }

    open spec fn spec_check(&self, content: Seq<char>, config: Option<RuleConfig>) -> Seq<SpecDiagnostic> {
        document_start_spec(content)
    }

    open spec fn spec_accepts(&self, content: Seq<char>, config: Option<RuleConfig>) -> bool {
        true
    }

    open spec fn spec_result(&self, content: Seq<char>, config: Option<RuleConfig>, out: Seq<SpecDiagnostic>) -> bool {
        out == self.spec_check(content, config)
    }

    open spec fn spec_fixable(&self) -> bool {
        true
    }

    fn name(&self) -> (r: &'static str) {
        "document-start"
    }

    open spec fn spec_description(&self) -> Seq<char> {
        "Require document start marker (---)"@
    }

    fn description(&self) -> &'static str {
        "Require document start marker (---)"
    }

    fn check(&self, ctx: &RuleContext, config: Option<&RuleConfig>) -> (r: Vec<Diagnostic>) {
        proof {
            lemma_context_bounds(ctx);
        }
        let mut out: Vec<Diagnostic> = Vec::new();
        if ctx.content.len() == 0 {
            proof {
                assert(diags_view(out@) =~= Seq::<SpecDiagnostic>::empty());
            }
            return out;
        }
        let k = first_content_line(&ctx.lines);
        if k >= ctx.lines.len() {
            proof {
                assert(diags_view(out@) =~= Seq::<SpecDiagnostic>::empty());
            }
            return out;
        }
        assert(ctx.lines_spec()[k as int] == ctx.lines@[k as int]@);
        if is_start_marker_exec(ctx.lines[k].as_slice()) {
            proof {
                assert(diags_view(out@) =~= Seq::<SpecDiagnostic>::empty());
            }
            return out;
        }
        let d = Diagnostic::warning(
            "document-start",
            "missing document start \"---\"",
            Location::new(k + 1, 1),
        ).with_fix(Fix::insert("Add document start marker", "---\n", Location::new(1, 1)));
        out.push(d);
        proof {
            lemma_diags_view_push(Seq::empty(), d);
            assert(diags_view(out@) =~= document_start_spec(ctx.content@));
        }
        out
    }

    fn is_fixable(&self) -> (r: bool) {
        true
    }
}

/// Rule that requires document end marker (...).
pub struct DocumentEnd;

/// A warning at the end of the last content line unless it is `...`.
pub open spec fn document_end_spec(content: Seq<char>) -> Seq<SpecDiagnostic> {
    let lines = split_lines(content);
    let k = last_content_before(lines, lines.len() as int);
    if content.len() == 0 || k < 0 || trim(lines[k]) == "..."@ {
        seq![]
    } else {
        let at = Location { line: (k + 1) as usize, column: (utf8_len(lines[k]) + 1) as usize };
        seq![
            with_fix_spec(
                plain_diag("document-end"@, Severity::Warning, "missing document end \"...\""@, at),
                SpecFix {
                    description: "Add document end marker"@,
                    replacement: "\n..."@,
                    start: at,
                    end: at,
                },
            ),
        ]
    }
}

impl Rule for DocumentEnd {
    open spec fn spec_name(&self) -> Seq<char> {
        "document-end"@
    }

    open spec fn spec_check(&self, content: Seq<char>, config: Option<RuleConfig>) -> Seq<SpecDiagnostic> {
        document_end_spec(content)
    }

    open spec fn spec_accepts(&self, content: Seq<char>, config: Option<RuleConfig>) -> bool {
        true
    }

    open spec fn spec_result(&self, content: Seq<char>, config: Option<RuleConfig>, out: Seq<SpecDiagnostic>) -> bool {
        out == self.spec_check(content, config)
    }

    open spec fn spec_fixable(&self) -> bool {
        true
    }

    fn name(&self) -> (r: &'static str) {
        "document-end"
    }

    open spec fn spec_description(&self) -> Seq<char> {
        "Require document end marker (...)"@
    }

    fn description(&self) -> &'static str {
        "Require document end marker (...)"
    }

    fn check(&self, ctx: &RuleContext, config: Option<&RuleConfig>) -> (r: Vec<Diagnostic>) {
        proof {
            lemma_context_bounds(ctx);
        }
        let mut out: Vec<Diagnostic> = Vec::new();
        if ctx.content.len() == 0 {
            proof {
                assert(diags_view(out@) =~= Seq::<SpecDiagnostic>::empty());
            }
            return out;
        }
        match last_content_line(&ctx.lines) {
            None => {
                assert(diags_view(out@) =~= Seq::<SpecDiagnostic>::empty());
                out
            },
            Some(k) => {
                assert(ctx.lines_spec()[k as int] == ctx.lines@[k as int]@);
                let t = trim_chars(ctx.lines[k].as_slice());
                if eq_str(t.as_slice(), "...") {
                    proof {
                assert(diags_view(out@) =~= Seq::<SpecDiagnostic>::empty());
            }
            return out;
                }
                proof {
                    lemma_utf8_len_bounds(ctx.lines_spec()[k as int]);
                }
                let len = byte_len(ctx.lines[k].as_slice());
                let at = Location::new(k + 1, len + 1);
                let d = Diagnostic::warning(
                    "document-end",
                    "missing document end \"...\"",
                    at,
                ).with_fix(Fix::insert("Add document end marker", "\n...", at));
                out.push(d);
                proof {
                    lemma_diags_view_push(Seq::empty(), d);
                    assert(diags_view(out@) =~= document_end_spec(ctx.content@));
                }
                out
            },
        }
    }

    fn is_fixable(&self) -> (r: bool) {
        true
    }
}

/// The content with `---\n` put before it, unless it is empty or its first
/// content line is already a start marker.
pub open spec fn fix_document_start_spec(content: Seq<char>) -> Seq<char> {
    let lines = split_lines(content);
    let k = first_content_from(lines, 0);
    if content.len() == 0 || (k < lines.len() && is_start_marker(lines[k])) {
        content
    } else {
        "---\n"@ + content
    }
}

/// Fix missing document start marker.
pub fn fix_document_start(content: &str) -> (r: String)
    ensures
        r@ == fix_document_start_spec(content@),
{
    let chars = str_chars(content);
    if chars.len() == 0 {
        return content.to_owned();
    }
    let lines = lines_of(chars.as_slice());
    let k = first_content_line(&lines);
    if k < lines.len() {
        assert(seqs_view(lines@)[k as int] == lines@[k as int]@);
        if is_start_marker_exec(lines[k].as_slice()) {
            return content.to_owned();
        }
    }
    let mut out: Vec<char> = Vec::new();
    push_str(&mut out, "---\n");
    push_all(&mut out, chars.as_slice());
    chars_to_string(out.as_slice())
}

/// The content without trailing white space, ended by `\n` when its last
/// line is `...`, else by `\n...\n`; empty content is kept.
pub open spec fn fix_document_end_spec(content: Seq<char>) -> Seq<char> {
    let c = trim_end(content);
    let lines = split_lines(c);
    if content.len() == 0 {
        content
    } else if lines.len() > 0 && trim(lines.last()) == "..."@ {
        c + "\n"@
    } else {
        c + "\n...\n"@
    }
}

/// Fix missing document end marker.
pub fn fix_document_end(content: &str) -> (r: String)
    ensures
        r@ == fix_document_end_spec(content@),
{
    let chars = str_chars(content);
    if chars.len() == 0 {
        return content.to_owned();
    }
    let c = trim_end_chars(chars.as_slice());
    let lines = lines_of(c.as_slice());
    let mut out: Vec<char> = Vec::new();
    push_all(&mut out, c.as_slice());
    let n = lines.len();
    let mut is_end = false;
    if n > 0 {
        assert(seqs_view(lines@)[n - 1] == lines@[n - 1]@);
        let t = trim_chars(lines[n - 1].as_slice());
        is_end = eq_str(t.as_slice(), "...");
    }
    if is_end {
        push_str(&mut out, "\n");
    } else {
        push_str(&mut out, "\n...\n");
    }
    chars_to_string(out.as_slice())
}

} // verus!
