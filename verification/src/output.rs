//! Output formats: `parsable` (also called `text`), `standard`, `colored`
//! and `github` render here; `json` and the `auto` choice are made by the
//! program around the library.

use vstd::prelude::*;
use crate::rule::str_eq;
use crate::linter::{Level, LintProblem, level_text, problem_message, rule_view};
use crate::text::{chars_to_string, decimal, push_decimal, push_spaces, push_str, spaces};

verus! {

#[derive(Debug, Clone, Copy, PartialEq, Eq, Structural)]
pub enum OutputFormat {
    Text,
    Json,
    Yamllint,
    Colored,
    Github,
    Auto,
}

/// The format a command-line name selects.
pub open spec fn format_named(s: Seq<char>) -> Option<OutputFormat> {
    if s == "text"@ || s == "parsable"@ {
        Some(OutputFormat::Text)
    } else if s == "json"@ {
        Some(OutputFormat::Json)
    } else if s == "yamllint"@ || s == "standard"@ {
        Some(OutputFormat::Yamllint)
    } else if s == "colored"@ {
        Some(OutputFormat::Colored)
    } else if s == "github"@ {
        Some(OutputFormat::Github)
    } else if s == "auto"@ {
        Some(OutputFormat::Auto)
    } else {
        None
    }
}

impl OutputFormat {
    pub fn parse(s: &str) -> (r: Option<Self>)
        ensures
            r == format_named(s@),
    {
        if str_eq(s, "text") || str_eq(s, "parsable") {
            Some(OutputFormat::Text)
        } else if str_eq(s, "json") {
            Some(OutputFormat::Json)
        } else if str_eq(s, "yamllint") || str_eq(s, "standard") {
            Some(OutputFormat::Yamllint)
        } else if str_eq(s, "colored") {
            Some(OutputFormat::Colored)
        } else if str_eq(s, "github") {
            Some(OutputFormat::Github)
        } else if str_eq(s, "auto") {
            Some(OutputFormat::Auto)
        } else {
            None
        }
    }
}

/// One file's worth of problems.
pub struct FileReport<'a> {
    pub path: &'a str,
    pub problems: &'a [LintProblem],
}

/// Whether a problem is shown: with `no_warnings`, only errors are.
pub open spec fn shown(p: LintProblem, no_warnings: bool) -> bool {
    !(no_warnings && p.level != Level::Error)
}

/// `s` followed by spaces up to `n` characters.
pub open spec fn pad_to(s: Seq<char>, n: nat) -> Seq<char> {
    if s.len() < n {
        s + spaces((n - s.len()) as nat)
    } else {
        s
    }
}

pub open spec fn position_text(p: LintProblem) -> Seq<char> {
    decimal(p.line as nat) + ":"@ + decimal(p.column as nat)
}

/// A problem line of the standard format.
pub open spec fn yamllint_line(p: LintProblem) -> Seq<char> {
    pad_to(pad_to("  "@ + position_text(p), 12) + level_text(p.level), 21) + p.desc@ + match p.rule {
        Some(r) => "  ("@ + r@ + ")"@,
        None => seq![],
    } + "\n"@
}

pub open spec fn level_color(l: Level) -> Seq<char> {
    if l == Level::Warning {
        "\x1b[33m"@
    } else {
        "\x1b[31m"@
    }
}

/// A problem line of the colored format.
pub open spec fn colored_line(p: LintProblem) -> Seq<char> {
    pad_to(
        pad_to("  \x1b[2m"@ + position_text(p) + "\x1b[0m"@, 20) + level_color(p.level) + level_text(
            p.level,
        ) + "\x1b[0m"@,
        38,
    ) + p.desc@ + match p.rule {
        Some(r) => "  \x1b[2m("@ + r@ + ")\x1b[0m"@,
        None => seq![],
    } + "\n"@
}

/// A problem line of the GitHub format.
pub open spec fn github_line(path: Seq<char>, p: LintProblem) -> Seq<char> {
    "::"@ + level_text(p.level) + " file="@ + path + ",line="@ + decimal(p.line as nat) + ",col="@
        + decimal(p.column as nat) + "::"@ + position_text(p) + " "@ + match p.rule {
        Some(r) => "["@ + r@ + "] "@,
        None => seq![],
    } + p.desc@ + "\n"@
}

/// A problem line of the parsable format.
pub open spec fn text_line(path: Seq<char>, p: LintProblem) -> Seq<char> {
    path + ":"@ + position_text(p) + ": ["@ + level_text(p.level) + "] "@ + problem_message(
        p.desc@,
        rule_view(p.rule),
    ) + "\n"@
}

/// The concatenation of `f` over the shown problems.
pub open spec fn shown_lines(
    ps: Seq<LintProblem>,
    no_warnings: bool,
    f: spec_fn(LintProblem) -> Seq<char>,
) -> Seq<char>
    decreases ps.len(),
{
    if ps.len() == 0 {
        seq![]
    } else {
        shown_lines(ps.drop_last(), no_warnings, f) + if shown(ps.last(), no_warnings) {
            f(ps.last())
        } else {
            seq![]
        }
    }
}

/// Whether any problem is shown.
pub open spec fn any_shown(ps: Seq<LintProblem>, no_warnings: bool) -> bool
    decreases ps.len(),
{
    ps.len() > 0 && (any_shown(ps.drop_last(), no_warnings) || shown(ps.last(), no_warnings))
}

/// A file's part of the output: when any problem is shown, the header, the
/// problem lines and the footer.
pub open spec fn grouped(
    ps: Seq<LintProblem>,
    no_warnings: bool,
    header: Seq<char>,
    f: spec_fn(LintProblem) -> Seq<char>,
    footer: Seq<char>,
) -> Seq<char> {
    if any_shown(ps, no_warnings) {
        header + shown_lines(ps, no_warnings, f) + footer
    } else {
        seq![]
    }
}

pub open spec fn yamllint_report(path: Seq<char>, ps: Seq<LintProblem>, no_warnings: bool) -> Seq<char> {
    grouped(ps, no_warnings, path + "\n"@, |p: LintProblem| yamllint_line(p), "\n"@)
}

pub open spec fn colored_report(path: Seq<char>, ps: Seq<LintProblem>, no_warnings: bool) -> Seq<char> {
    grouped(
        ps,
        no_warnings,
        "\x1b[4m"@ + path + "\x1b[0m\n"@,
        |p: LintProblem| colored_line(p),
        "\n"@,
    )
}

pub open spec fn github_report(path: Seq<char>, ps: Seq<LintProblem>, no_warnings: bool) -> Seq<char> {
    grouped(
        ps,
        no_warnings,
        "::group::"@ + path + "\n"@,
        |p: LintProblem| github_line(path, p),
        "::endgroup::\n\n"@,
    )
}

pub open spec fn text_report(path: Seq<char>, ps: Seq<LintProblem>, no_warnings: bool) -> Seq<char> {
    shown_lines(ps, no_warnings, |p: LintProblem| text_line(path, p))
}

/// One file's output in a rendered format.
pub open spec fn report_text(format: OutputFormat, path: Seq<char>, ps: Seq<LintProblem>, no_warnings: bool) -> Seq<char> {
    match format {
        OutputFormat::Yamllint => yamllint_report(path, ps, no_warnings),
        OutputFormat::Colored => colored_report(path, ps, no_warnings),
        OutputFormat::Github => github_report(path, ps, no_warnings),
        _ => text_report(path, ps, no_warnings),
    }
}

/// The output of all reports: the files' outputs one after the other.
pub open spec fn render_spec(reports: Seq<FileReport>, format: OutputFormat, no_warnings: bool) -> Seq<char>
    decreases reports.len(),
{
    if reports.len() == 0 {
        seq![]
    } else {
        render_spec(reports.drop_last(), format, no_warnings) + report_text(
            format,
            reports.last().path@,
            reports.last().problems@,
            no_warnings,
        )
    }
}

fn push_position(out: &mut Vec<char>, p: &LintProblem)
    ensures
        final(out)@ == old(out)@ + position_text(*p),
{
    let ghost start = out@;
    push_decimal(out, p.line);
    push_str(out, ":");
    push_decimal(out, p.column);
    assert(out@ =~= start + position_text(*p));
}

fn pad(line: &mut Vec<char>, n: usize)
    ensures
        final(line)@ == pad_to(old(line)@, n as nat),
{
    if line.len() < n {
        let k = n - line.len();
        push_spaces(line, k);
    }
}

fn problem_line(format: OutputFormat, path: &str, p: &LintProblem) -> (r: Vec<char>)
    ensures
        r@ == match format {
            OutputFormat::Yamllint => yamllint_line(*p),
            OutputFormat::Colored => colored_line(*p),
            OutputFormat::Github => github_line(path@, *p),
            _ => text_line(path@, *p),
        },
{
    let mut line: Vec<char> = Vec::new();
    match format {
        OutputFormat::Yamllint => {
            push_str(&mut line, "  ");
            push_position(&mut line, p);
            pad(&mut line, 12);
            push_str(&mut line, p.level.as_str());
            pad(&mut line, 21);
            push_str(&mut line, p.desc.as_str());
            let ghost before = line@;
            match p.rule {
                Some(rule) => {
                    push_str(&mut line, "  (");
                    push_str(&mut line, rule);
                    push_str(&mut line, ")");
                },
                None => {},
            }
            let ghost after = line@;
            push_str(&mut line, "\n");
            assert(line@ =~= yamllint_line(*p));
        },
        OutputFormat::Colored => {
            push_str(&mut line, "  \x1b[2m");
            push_position(&mut line, p);
            push_str(&mut line, "\x1b[0m");
            pad(&mut line, 20);
            if p.level == Level::Warning {
                push_str(&mut line, "\x1b[33m");
            } else {
                push_str(&mut line, "\x1b[31m");
            }
            push_str(&mut line, p.level.as_str());
            push_str(&mut line, "\x1b[0m");
            pad(&mut line, 38);
            push_str(&mut line, p.desc.as_str());
            match p.rule {
                Some(rule) => {
                    push_str(&mut line, "  \x1b[2m(");
                    push_str(&mut line, rule);
                    push_str(&mut line, ")\x1b[0m");
                },
                None => {},
            }
            push_str(&mut line, "\n");
            assert(line@ =~= colored_line(*p));
        },
        OutputFormat::Github => {
            push_str(&mut line, "::");
            push_str(&mut line, p.level.as_str());
            push_str(&mut line, " file=");
            push_str(&mut line, path);
            push_str(&mut line, ",line=");
            push_decimal(&mut line, p.line);
            push_str(&mut line, ",col=");
            push_decimal(&mut line, p.column);
            push_str(&mut line, "::");
            push_position(&mut line, p);
            push_str(&mut line, " ");
            match p.rule {
                Some(rule) => {
                    push_str(&mut line, "[");
                    push_str(&mut line, rule);
                    push_str(&mut line, "] ");
                },
                None => {},
            }
            push_str(&mut line, p.desc.as_str());
            push_str(&mut line, "\n");
            assert(line@ =~= github_line(path@, *p));
        },
        _ => {
            push_str(&mut line, path);
            push_str(&mut line, ":");
            push_position(&mut line, p);
            push_str(&mut line, ": [");
            push_str(&mut line, p.level.as_str());
            push_str(&mut line, "] ");
            let m = p.message();
            push_str(&mut line, m.as_str());
            push_str(&mut line, "\n");
            assert(line@ =~= text_line(path@, *p));
        },
    }
    line
}

/// The spec function of a file's problem lines in the given format.
pub open spec fn line_fn(format: OutputFormat, path: Seq<char>) -> spec_fn(LintProblem) -> Seq<char> {
    match format {
        OutputFormat::Yamllint => |p: LintProblem| yamllint_line(p),
        OutputFormat::Colored => |p: LintProblem| colored_line(p),
        OutputFormat::Github => |p: LintProblem| github_line(path, p),
        _ => |p: LintProblem| text_line(path, p),
    }
}

fn format_report(report: &FileReport, format: OutputFormat, no_warnings: bool, out: &mut Vec<char>)
    ensures
        final(out)@ == old(out)@ + report_text(format, report.path@, report.problems@, no_warnings),
{
    let ghost start = out@;
    let ghost path = report.path@;
    let ghost ps = report.problems@;
    let ghost f = line_fn(format, path);
    let grouped_format = match format {
        OutputFormat::Yamllint | OutputFormat::Colored | OutputFormat::Github => true,
        _ => false,
    };
    let mut header: Vec<char> = Vec::new();
    let mut footer: Vec<char> = Vec::new();
    match format {
        OutputFormat::Yamllint => {
            push_str(&mut header, report.path);
            push_str(&mut header, "\n");
            push_str(&mut footer, "\n");
        },
        OutputFormat::Colored => {
            push_str(&mut header, "\x1b[4m");
            push_str(&mut header, report.path);
            push_str(&mut header, "\x1b[0m\n");
            push_str(&mut footer, "\n");
        },
        OutputFormat::Github => {
            push_str(&mut header, "::group::");
            push_str(&mut header, report.path);
            push_str(&mut header, "\n");
            push_str(&mut footer, "::endgroup::\n\n");
        },
        _ => {},
    }
    let mut first = true;
    let mut body: Vec<char> = Vec::new();
    let mut i: usize = 0;
    while i < report.problems.len()
        invariant
            i <= ps.len(),
            ps == report.problems@,
            f == line_fn(format, path),
            path == report.path@,
            first == !any_shown(ps.take(i as int), no_warnings),
            body@ == shown_lines(ps.take(i as int), no_warnings, f),
        decreases ps.len() - i,
    {
        let p = &report.problems[i];
        assert(ps.take(i + 1).drop_last() =~= ps.take(i as int));
        if !(no_warnings && p.level != Level::Error) {
            let l = problem_line(format, report.path, p);
            crate::text::push_all(&mut body, l.as_slice());
            first = false;
        }
        i = i + 1;
    }
    assert(ps.take(ps.len() as int) =~= ps);
    if grouped_format {
        if !first {
            crate::text::push_all(out, header.as_slice());
            crate::text::push_all(out, body.as_slice());
            crate::text::push_all(out, footer.as_slice());
        }
    } else {
        crate::text::push_all(out, body.as_slice());
    }
    assert(out@ =~= start + report_text(format, path, ps, no_warnings));
}

/// Render all reports in one of the text formats: the concatenation of the
/// files' outputs.
pub fn render(reports: &[FileReport], format: OutputFormat, no_warnings: bool) -> (r: String)
    requires
        !(format is Json),
        !(format is Auto),
    ensures
        r@ == render_spec(reports@, format, no_warnings),
{
    let mut out: Vec<char> = Vec::new();
    let mut i: usize = 0;
    while i < reports.len()
        invariant
            i <= reports@.len(),
            out@ == render_spec(reports@.take(i as int), format, no_warnings),
        decreases reports@.len() - i,
    {
        assert(reports@.take(i + 1).drop_last() =~= reports@.take(i as int));
        format_report(&reports[i], format, no_warnings, &mut out);
        i = i + 1;
    }
    assert(reports@.take(reports@.len() as int) =~= reports@);
    chars_to_string(out.as_slice())
}

} // verus!
