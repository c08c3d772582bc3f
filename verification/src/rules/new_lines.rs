//! Line break type rule.

use vstd::prelude::*;
use crate::diagnostic::{
    Diagnostic, Fix, Location, Severity, SpecDiagnostic, SpecFix, diags_view,
    lemma_diags_view_push, plain_diag, with_fix_spec,
};
use crate::rule::{Rule, RuleConfig, RuleContext, cfg_of, lemma_context_bounds, opt_string};
use crate::text::{
    byte_len, eq_str, lemma_utf8_len_bounds, lemma_utf8_len_subrange, max_text_len,
    slice_to_vec, split_lines, str_chars, utf8_len,
};

verus! {

#[derive(Debug, Clone, Copy, PartialEq, Eq, Structural)]
pub enum NewLineType {
    Unix,
    Dos,
    Platform,
}

impl NewLineType {
    /// The default type: Unix line breaks.
    pub fn default() -> (r: Self)
        ensures
            r == NewLineType::Unix,
    {
        NewLineType::Unix
    }

    /// The type named by a configuration value (`unix`, `dos`, `platform`).
    pub fn parse(s: &str) -> (r: Option<Self>)
        ensures
            r == new_line_type_of(s@),
    {
        if eq_str(str_chars(s).as_slice(), "unix") {
            Some(NewLineType::Unix)
        } else if eq_str(str_chars(s).as_slice(), "dos") {
            Some(NewLineType::Dos)
        } else if eq_str(str_chars(s).as_slice(), "platform") {
            Some(NewLineType::Platform)
        } else {
            None
        }
    }
}

pub open spec fn new_line_type_of(s: Seq<char>) -> Option<NewLineType> {
    if s == "unix"@ {
        Some(NewLineType::Unix)
    } else if s == "dos"@ {
        Some(NewLineType::Dos)
    } else if s == "platform"@ {
        Some(NewLineType::Platform)
    } else {
        None
    }
}

pub struct NewLines {
    pub type_: NewLineType,
}

impl Default for NewLines {
    fn default() -> (r: Self)
        ensures
            r.type_ == NewLineType::Unix,
    {
        Self { type_: NewLineType::Unix }
    }
}

/// The separator of path components on this platform (`'\\'` on Windows).
#[verifier::external_body]
pub(crate) fn main_separator() -> char {
    std::path::MAIN_SEPARATOR
}

/// The effective line break type.
pub open spec fn new_lines_type(rule: &NewLines, config: Option<RuleConfig>) -> NewLineType {
    match opt_string(config, "type"@) {
        Some(s) => match new_line_type_of(s) {
            Some(t) => t,
            None => rule.type_,
        },
        None => rule.type_,
    }
}

/// Index of the first line (0-based) that the rule takes for a line break
/// `d` bytes after the start of its line: the first line whose length plus
/// `alen` exceeds `d`.
pub open spec fn first_long_line(lines: Seq<Seq<char>>, i: int, d: int, alen: int) -> int
    decreases lines.len() - i,
{
    if i < 0 || i >= lines.len() {
        lines.len() as int
    } else if d < utf8_len(lines[i]) + alen {
        i
    } else {
        first_long_line(lines, i + 1, d, alen)
    }
}

/// The diagnostic for a `'\n'` at character `k`, its line starting at
/// character `ls`, when the expected break is CRLF (`crlf`) or LF.
pub open spec fn new_line_diag(content: Seq<char>, k: int, ls: int, crlf: bool) -> Seq<SpecDiagnostic> {
    let lines = split_lines(content);
    let is_crlf = k > 0 && content[k - 1] == '\r';
    let alen: int = if is_crlf {
        2
    } else {
        1
    };
    let d = utf8_len(content.subrange(ls, k)) as int;
    let f = first_long_line(lines, 0, d, alen);
    let (line, col) = if f < lines.len() {
        (f + 1, d + 1)
    } else {
        (
            lines.len() as int,
            if lines.len() > 0 {
                utf8_len(lines.last()) + 1int
            } else {
                1int
            },
        )
    };
    if is_crlf != crlf {
        seq![
            with_fix_spec(
                plain_diag(
                    "new-lines"@,
                    Severity::Error,
                    "wrong new line character"@,
                    Location { line: line as usize, column: col as usize },
                ),
                SpecFix {
                    description: "change new line character"@,
                    replacement: if crlf {
                        "\r\n"@
                    } else {
                        "\n"@
                    },
                    start: Location { line: line as usize, column: col as usize },
                    end: Location { line: line as usize, column: (col + alen) as usize },
                },
            ),
        ]
    } else {
        seq![]
    }
}

/// Diagnostics for the line breaks of `content[k..]`, the current line
/// starting at `ls`.
pub open spec fn new_lines_scan(content: Seq<char>, k: int, ls: int, crlf: bool) -> Seq<SpecDiagnostic>
    decreases content.len() - k,
{
    if k < 0 || k >= content.len() {
        seq![]
    } else if content[k] == '\n' {
        new_line_diag(content, k, ls, crlf) + new_lines_scan(content, k + 1, k + 1, crlf)
    } else {
        new_lines_scan(content, k + 1, ls, crlf)
    }
}

pub open spec fn new_lines_spec(content: Seq<char>, crlf: bool) -> Seq<SpecDiagnostic> {
    new_lines_scan(content, 0, 0, crlf)
}

/// Whether `d < byte length of line f + alen`.
fn line_exceeds(ctx: &RuleContext, f: usize, d: usize, alen: usize) -> (r: bool)
    requires
        ctx.wf(),
        f < ctx.lines@.len(),
        alen <= 2,
    ensures
        r == (d < utf8_len(ctx.lines_spec()[f as int]) + alen),
{
    proof {
        lemma_context_bounds(ctx);
        lemma_utf8_len_bounds(ctx.lines_spec()[f as int]);
    }
    assert(ctx.lines_spec()[f as int] == ctx.lines@[f as int]@);
    d < byte_len(ctx.lines[f].as_slice()) + alen
}

fn new_line_diag_exec(ctx: &RuleContext, k: usize, ls: usize, crlf: bool, out: &mut Vec<Diagnostic>)
    requires
        ctx.wf(),
        ls <= k < ctx.content@.len(),
    ensures
        diags_view(final(out)@) == diags_view(old(out)@) + new_line_diag(ctx.content@, k as int, ls as int, crlf),
{
    proof {
        lemma_context_bounds(ctx);
    }
    let ghost lines = ctx.lines_spec();
    let content = ctx.content.as_slice();
    let is_crlf = k > 0 && content[k - 1] == '\r';
    let alen: usize = if is_crlf {
        2
    } else {
        1
    };
    let seg = slice_to_vec(content, ls, k);
    proof {
        lemma_utf8_len_bounds(seg@);
    }
    let d = byte_len(seg.as_slice());
    let mut f: usize = 0;
    while f < ctx.lines.len() && !line_exceeds(ctx, f, d, alen)
        invariant
            ctx.wf(),
            lines == ctx.lines_spec(),
            f <= lines.len(),
            alen <= 2,
            first_long_line(lines, f as int, d as int, alen as int) == first_long_line(lines, 0, d as int, alen as int),
        decreases lines.len() - f,
    {
        f = f + 1;
    }
    let ghost fl = first_long_line(lines, 0, d as int, alen as int);
    let (line, col) = if f < ctx.lines.len() {
        (f + 1, d + 1)
    } else {
        let n = ctx.lines.len();
        if n > 0 {
            assert(lines[n - 1] == ctx.lines@[n - 1]@);
            proof {
                lemma_utf8_len_bounds(lines[n - 1]);
            }
            (n, byte_len(ctx.lines[n - 1].as_slice()) + 1)
        } else {
            (n, 1)
        }
    };
    if is_crlf != crlf {
        let rep = if crlf {
            "\r\n"
        } else {
            "\n"
        };
        let dg = Diagnostic::error("new-lines", "wrong new line character", Location::new(line, col))
            .with_fix(
            Fix::new(
                "change new line character",
                rep,
                Location::new(line, col),
                Location::new(line, col + alen),
            ),
        );
        let ghost b = out@;
        out.push(dg);
        proof {
            lemma_diags_view_push(b, dg);
        }
    }
    assert(diags_view(out@) =~= diags_view(old(out)@) + new_line_diag(ctx.content@, k as int, ls as int, crlf));
}

fn new_lines_exec(ctx: &RuleContext, crlf: bool) -> (r: Vec<Diagnostic>)
    requires
        ctx.wf(),
    ensures
        diags_view(r@) == new_lines_spec(ctx.content@, crlf),
{
    let mut out: Vec<Diagnostic> = Vec::new();
    let mut k: usize = 0;
    let mut ls: usize = 0;
    while k < ctx.content.len()
        invariant
            ctx.wf(),
            ls <= k <= ctx.content@.len(),
            diags_view(out@) + new_lines_scan(ctx.content@, k as int, ls as int, crlf) == new_lines_spec(
                ctx.content@,
                crlf,
            ),
        decreases ctx.content@.len() - k,
    {
        if ctx.content[k] == '\n' {
            let ghost b = diags_view(out@);
            new_line_diag_exec(ctx, k, ls, crlf, &mut out);
            assert(diags_view(out@) + new_lines_scan(ctx.content@, k + 1, k + 1, crlf) =~= b
                + new_lines_scan(ctx.content@, k as int, ls as int, crlf));
            ls = k + 1;
        }
        k = k + 1;
    }
    assert(diags_view(out@) + Seq::<SpecDiagnostic>::empty() =~= diags_view(out@));
    out
}

impl Rule for NewLines {
    open spec fn spec_name(&self) -> Seq<char> {
        "new-lines"@
    }

    /// The report with the Unix or DOS break that the type names; for the
    /// platform type, the report expecting a Unix break.
    open spec fn spec_check(&self, content: Seq<char>, config: Option<RuleConfig>) -> Seq<SpecDiagnostic> {
        new_lines_spec(content, new_lines_type(self, config) == NewLineType::Dos)
    }

    /// For the platform type the expected break is the platform's, CRLF or
    /// LF.
    open spec fn spec_result(&self, content: Seq<char>, config: Option<RuleConfig>, out: Seq<SpecDiagnostic>) -> bool {
        match new_lines_type(self, config) {
            NewLineType::Platform => out == new_lines_spec(content, true) || out == new_lines_spec(
                content,
                false,
            ),
            _ => out == self.spec_check(content, config),
        }
    }

    open spec fn spec_accepts(&self, content: Seq<char>, config: Option<RuleConfig>) -> bool {
        true
    }

    open spec fn spec_fixable(&self) -> bool {
        true
    }

    fn name(&self) -> (r: &'static str) {
        "new-lines"
    }

    open spec fn spec_description(&self) -> Seq<char> {
        "Enforce new line type"@
    }

    fn description(&self) -> &'static str {
        "Enforce new line type"
    }

    fn check(&self, ctx: &RuleContext, config: Option<&RuleConfig>) -> (r: Vec<Diagnostic>) {
        let t = match config {
            Some(c) => match c.get_string("type") {
                Some(s) => match NewLineType::parse(s.as_str()) {
                    Some(t) => t,
                    None => self.type_,
                },
                None => self.type_,
            },
            None => self.type_,
        };
        assert(t == new_lines_type(self, cfg_of(config)));
        let crlf = match t {
            NewLineType::Unix => false,
            NewLineType::Dos => true,
            NewLineType::Platform => main_separator() == '\\',
        };
        new_lines_exec(ctx, crlf)
    }

    fn is_fixable(&self) -> (r: bool) {
        true
    }
}

} // verus!
