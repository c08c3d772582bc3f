//! Spacing inside flow sequence brackets.

use vstd::prelude::*;
use crate::diagnostic::{
    Diagnostic, Fix, Location, Severity, SpecDiagnostic, SpecFix, append_diags, diags_view,
    lemma_diags_view_push, plain_diag, sort_by_location, sort_diagnostics, with_fix_spec,
};
use crate::rule::{
    Rule, RuleConfig, RuleContext, cfg_bool, cfg_of, cfg_usize, cfg_usize_opt, flat_map_lines,
    lemma_context_bounds, opt_bool, opt_usize, opt_usize_spec,
};
use crate::text::{
    byte_offset, chars_to_string, lemma_run_end, lemma_run_start, lemma_utf8_len_take,
    lemma_utf8_len_take_ge, max_text_len, push_spaces, run_end, run_start, skip_spaces,
    skip_spaces_back, space_pred, spaces, split_lines, utf8_len,
};

verus! {

pub struct Brackets {
    pub min_spaces_inside: usize,
    pub max_spaces_inside: usize,
    pub min_spaces_inside_empty: Option<usize>,
    pub max_spaces_inside_empty: Option<usize>,
    pub forbid: bool,
    pub forbid_non_empty: bool,
}

impl Default for Brackets {
    fn default() -> (r: Self)
        ensures
            r.min_spaces_inside == 0,
            r.max_spaces_inside == 0,
            r.min_spaces_inside_empty is None,
            r.max_spaces_inside_empty is None,
            !r.forbid,
            !r.forbid_non_empty,
    {
        Brackets {
            min_spaces_inside: 0,
            max_spaces_inside: 0,
            min_spaces_inside_empty: None,
            max_spaces_inside_empty: None,
            forbid: false,
            forbid_non_empty: false,
        }
    }
}

/// The effective options of the rule.
#[derive(Clone, Copy)]
pub struct BracketOpts {
    pub min_inside: usize,
    pub max_inside: usize,
    pub min_empty: usize,
    pub max_empty: usize,
    pub forbid: bool,
    pub forbid_non_empty: bool,
}

pub open spec fn bracket_opts(rule: &Brackets, config: Option<RuleConfig>) -> BracketOpts {
    let min_inside = opt_usize(config, "min-spaces-inside"@, rule.min_spaces_inside);
    let max_inside = opt_usize(config, "max-spaces-inside"@, rule.max_spaces_inside);
    let min_empty = match opt_usize_spec(config, "min-spaces-inside-empty"@) {
        Some(u) => Some(u),
        None => rule.min_spaces_inside_empty,
    };
    let max_empty = match opt_usize_spec(config, "max-spaces-inside-empty"@) {
        Some(u) => Some(u),
        None => rule.max_spaces_inside_empty,
    };
    BracketOpts {
        min_inside,
        max_inside,
        min_empty: match min_empty {
            Some(u) => u,
            None => min_inside,
        },
        max_empty: match max_empty {
            Some(u) => u,
            None => max_inside,
        },
        forbid: opt_bool(config, "forbid"@, rule.forbid),
        forbid_non_empty: opt_bool(config, "forbid-non-empty"@, rule.forbid_non_empty),
    }
}

pub open spec fn loc(n: int, c: int) -> Location {
    Location { line: n as usize, column: c as usize }
}

/// "too few" with an insertion fix, or "too many" with a deletion fix, for
/// `sp` spaces against the bounds `min`/`max`; `few_at` and `ins_at` are
/// the columns of the "too few" diagnostic and insertion, `many_at` that of
/// the "too many" diagnostic and the start of the deletion.
pub open spec fn spacing_diag(
    n: int,
    sp: int,
    min: int,
    max: int,
    few_msg: Seq<char>,
    few_fix: Seq<char>,
    many_msg: Seq<char>,
    many_fix: Seq<char>,
    few_at: int,
    ins_at: int,
    many_at: int,
    many_end: int,
) -> Seq<SpecDiagnostic> {
    if sp < min {
        seq![
            with_fix_spec(
                plain_diag("brackets"@, Severity::Error, few_msg, loc(n, few_at)),
                SpecFix {
                    description: few_fix,
                    replacement: spaces((min - sp) as nat),
                    start: loc(n, ins_at),
                    end: loc(n, ins_at),
                },
            ),
        ]
    } else if sp > max {
        seq![
            with_fix_spec(
                plain_diag("brackets"@, Severity::Error, many_msg, loc(n, many_at)),
                SpecFix {
                    description: many_fix,
                    replacement: seq![],
                    start: loc(n, many_at),
                    end: loc(n, many_end),
                },
            ),
        ]
    } else {
        seq![]
    }
}

/// Diagnostics for a `[` at character `i` (byte `pos`) followed by `sp`
/// spaces; `empty` when a `]` follows them.
pub open spec fn open_bracket_diags(o: BracketOpts, n: int, pos: int, sp: int, empty: bool) -> Seq<SpecDiagnostic> {
    if o.forbid {
        seq![plain_diag("brackets"@, Severity::Error, "flow sequences are forbidden"@, loc(n, pos + 1))]
    } else if empty {
        if o.forbid_non_empty {
            seq![]
        } else {
            spacing_diag(
                n,
                sp,
                o.min_empty as int,
                o.max_empty as int,
                "too few spaces inside empty brackets"@,
                "add spaces inside empty brackets"@,
                "too many spaces inside empty brackets"@,
                "remove extra spaces inside empty brackets"@,
                pos + 1,
                pos + 2,
                pos + 2,
                pos + 2 + (sp - o.max_empty),
            )
        }
    } else {
        (if o.forbid_non_empty {
            seq![
                plain_diag(
                    "brackets"@,
                    Severity::Error,
                    "non-empty flow sequences are forbidden"@,
                    loc(n, pos + 1),
                ),
            ]
        } else {
            seq![]
        }) + spacing_diag(
            n,
            sp,
            o.min_inside as int,
            o.max_inside as int,
            "too few spaces inside brackets"@,
            "add spaces inside brackets"@,
            "too many spaces inside brackets"@,
            "remove extra spaces inside brackets"@,
            pos + 1,
            pos + 2,
            pos + 2,
            pos + 2 + (sp - o.max_inside),
        )
    }
}

/// Diagnostics for a `]` at byte `pos` preceded by `sp` spaces, `empty` when
/// a `[` precedes those.
pub open spec fn close_bracket_diags(o: BracketOpts, n: int, pos: int, sp: int, empty: bool) -> Seq<SpecDiagnostic> {
    if !empty && !o.forbid && !o.forbid_non_empty {
        spacing_diag(
            n,
            sp,
            o.min_inside as int,
            o.max_inside as int,
            "too few spaces inside brackets"@,
            "add spaces inside brackets"@,
            "too many spaces inside brackets"@,
            "remove extra spaces inside brackets"@,
            pos + 1,
            pos + 1,
            pos + 1 - (sp - o.max_inside),
            pos + 1,
        )
    } else {
        seq![]
    }
}

/// Scan of `line` from character `i`, outside or inside a quoted string.
pub open spec fn brackets_scan(
    o: BracketOpts,
    n: int,
    line: Seq<char>,
    i: int,
    in_quote: bool,
    q: char,
) -> Seq<SpecDiagnostic>
    decreases line.len() - i,
{
    if i < 0 || i >= line.len() {
        seq![]
    } else {
        let c = line[i];
        let pos = utf8_len(line.take(i)) as int;
        if (c == '"' || c == '\'') && !in_quote {
            brackets_scan(o, n, line, i + 1, true, c)
        } else if c == q && in_quote {
            brackets_scan(o, n, line, i + 1, false, q)
        } else if c == '[' && !in_quote {
            if o.forbid {
                open_bracket_diags(o, n, pos, 0, false) + brackets_scan(o, n, line, i + 1, in_quote, q)
            } else {
                let j = run_end(line, i + 1, space_pred());
                let sp = j - (i + 1);
                let empty = j < line.len() && line[j] == ']';
                let next = if empty && j + 1 > i + 1 {
                    j + 1
                } else {
                    i + 1
                };
                open_bracket_diags(o, n, pos, sp, empty) + brackets_scan(o, n, line, next, in_quote, q)
            }
        } else if c == ']' && !in_quote {
            let s = run_start(line, i, space_pred());
            let sp = i - s;
            let empty = s > 0 && line[s - 1] == '[';
            close_bracket_diags(o, n, pos, sp, empty) + brackets_scan(o, n, line, i + 1, in_quote, q)
        } else {
            brackets_scan(o, n, line, i + 1, in_quote, q)
        }
    }
}

pub open spec fn brackets_line(o: BracketOpts, n: int, line: Seq<char>) -> Seq<SpecDiagnostic> {
    brackets_scan(o, n, line, 0, false, ' ')
}

pub open spec fn brackets_f(o: BracketOpts) -> spec_fn(int, Seq<char>) -> Seq<SpecDiagnostic> {
    |n: int, line: Seq<char>| brackets_line(o, n, line)
}

fn push_spacing(
    out: &mut Vec<Diagnostic>,
    n: usize,
    sp: usize,
    min: usize,
    max: usize,
    few_msg: &str,
    few_fix: &str,
    many_msg: &str,
    many_fix: &str,
    few_at: usize,
    ins_at: usize,
    many_at: usize,
    many_end: usize,
)
    requires
        sp > max ==> many_end == many_at + (sp - max),
    ensures
        diags_view(final(out)@) == diags_view(old(out)@) + spacing_diag(
            n as int,
            sp as int,
            min as int,
            max as int,
            few_msg@,
            few_fix@,
            many_msg@,
            many_fix@,
            few_at as int,
            ins_at as int,
            many_at as int,
            many_end as int,
        ),
{
    let ghost before = out@;
    if sp < min {
        let mut rep: Vec<char> = Vec::new();
        push_spaces(&mut rep, min - sp);
        let reps = chars_to_string(rep.as_slice());
        let d = Diagnostic::error("brackets", few_msg, Location::new(n, few_at)).with_fix(
            Fix::insert(few_fix, reps.as_str(), Location::new(n, ins_at)),
        );
        out.push(d);
        proof {
            lemma_diags_view_push(before, d);
            assert(rep@ =~= spaces((min - sp) as nat));
        }
    } else if sp > max {
        let d = Diagnostic::error("brackets", many_msg, Location::new(n, many_at)).with_fix(
            Fix::delete(many_fix, Location::new(n, many_at), Location::new(n, many_end)),
        );
        out.push(d);
        proof {
            lemma_diags_view_push(before, d);
        }
    } else {
        assert(diags_view(out@) =~= diags_view(before) + Seq::<SpecDiagnostic>::empty());
    }
}

fn brackets_check_line(o: BracketOpts, n: usize, line: &[char]) -> (r: Vec<Diagnostic>)
    requires
        1 <= n <= max_text_len(),
        line@.len() <= max_text_len(),
    ensures
        diags_view(r@) == brackets_line(o, n as int, line@),
{
    let mut out: Vec<Diagnostic> = Vec::new();
    let mut in_quote = false;
    let mut q = ' ';
    let mut i: usize = 0;
    while i < line.len()
        invariant
            i <= line@.len() <= max_text_len(),
            1 <= n <= max_text_len(),
            diags_view(out@) + brackets_scan(o, n as int, line@, i as int, in_quote, q)
                == brackets_line(o, n as int, line@),
        decreases line@.len() - i,
    {
        let ghost before = diags_view(out@);
        let c = line[i];
        let pos = byte_offset(line, i);
        proof {
            lemma_utf8_len_take_ge(line@, i as int);
        }
        if (c == '"' || c == '\'') && !in_quote {
            in_quote = true;
            q = c;
            i = i + 1;
        } else if c == q && in_quote {
            in_quote = false;
            i = i + 1;
        } else if c == '[' && !in_quote {
            if o.forbid {
                let d = Diagnostic::error(
                    "brackets",
                    "flow sequences are forbidden",
                    Location::new(n, pos + 1),
                );
                let ghost b2 = out@;
                out.push(d);
                proof {
                    lemma_diags_view_push(b2, d);
                }
                assert(diags_view(out@) =~= before + open_bracket_diags(o, n as int, pos as int, 0, false));
                i = i + 1;
            } else {
                let j = skip_spaces(line, i + 1);
                proof {
                    lemma_run_end(line@, i + 1, space_pred());
                }
                let sp = j - (i + 1);
                let empty = j < line.len() && line[j] == ']';
                if empty {
                    if !o.forbid_non_empty {
                        push_spacing(
                            &mut out,
                            n,
                            sp,
                            o.min_empty,
                            o.max_empty,
                            "too few spaces inside empty brackets",
                            "add spaces inside empty brackets",
                            "too many spaces inside empty brackets",
                            "remove extra spaces inside empty brackets",
                            pos + 1,
                            pos + 2,
                            pos + 2,
                            if sp > o.max_empty {
                                pos + 2 + (sp - o.max_empty)
                            } else {
                                pos + 2
                            },
                        );
                    }
                    i = j + 1;
                } else {
                    if o.forbid_non_empty {
                        let d = Diagnostic::error(
                            "brackets",
                            "non-empty flow sequences are forbidden",
                            Location::new(n, pos + 1),
                        );
                        let ghost b2 = out@;
                        out.push(d);
                        proof {
                            lemma_diags_view_push(b2, d);
                        }
                    }
                    push_spacing(
                        &mut out,
                        n,
                        sp,
                        o.min_inside,
                        o.max_inside,
                        "too few spaces inside brackets",
                        "add spaces inside brackets",
                        "too many spaces inside brackets",
                        "remove extra spaces inside brackets",
                        pos + 1,
                        pos + 2,
                        pos + 2,
                        if sp > o.max_inside {
                            pos + 2 + (sp - o.max_inside)
                        } else {
                            pos + 2
                        },
                    );
                    i = i + 1;
                }
                assert(diags_view(out@) =~= before + open_bracket_diags(o, n as int, pos as int, sp as int, empty));
            }
        } else if c == ']' && !in_quote {
            let s = skip_spaces_back(line, i);
            proof {
                lemma_run_start(line@, i as int, space_pred());
            }
            let sp = i - s;
            let empty = s > 0 && line[s - 1] == '[';
            if !empty && !o.forbid && !o.forbid_non_empty {
                push_spacing(
                    &mut out,
                    n,
                    sp,
                    o.min_inside,
                    o.max_inside,
                    "too few spaces inside brackets",
                    "add spaces inside brackets",
                    "too many spaces inside brackets",
                    "remove extra spaces inside brackets",
                    pos + 1,
                    pos + 1,
                    if sp > o.max_inside {
                        pos + 1 - (sp - o.max_inside)
                    } else {
                        pos + 1
                    },
                    pos + 1,
                );
            }
            assert(diags_view(out@) =~= before + close_bracket_diags(o, n as int, pos as int, sp as int, empty));
            i = i + 1;
        } else {
            i = i + 1;
        }
    }
    assert(diags_view(out@) + Seq::<SpecDiagnostic>::empty() =~= diags_view(out@));
    out
}

impl Rule for Brackets {
    open spec fn spec_name(&self) -> Seq<char> {
        "brackets"@
    }

    open spec fn spec_check(&self, content: Seq<char>, config: Option<RuleConfig>) -> Seq<SpecDiagnostic> {
        sort_by_location(
            flat_map_lines(
                split_lines(content),
                split_lines(content).len() as int,
                brackets_f(bracket_opts(self, config)),
            ),
        )
    }

    open spec fn spec_accepts(&self, content: Seq<char>, config: Option<RuleConfig>) -> bool {
        true
    }

    open spec fn spec_result(&self, content: Seq<char>, config: Option<RuleConfig>, out: Seq<SpecDiagnostic>) -> bool {
        out == self.spec_check(content, config)
    }

    open spec fn spec_fixable(&self) -> bool {
        true
    }

    fn name(&self) -> (r: &'static str) {
        "brackets"
    }

    open spec fn spec_description(&self) -> Seq<char> {
        "Enforce consistent spacing inside brackets"@
    }

    fn description(&self) -> &'static str {
        "Enforce consistent spacing inside brackets"
    }

    fn check(&self, ctx: &RuleContext, config: Option<&RuleConfig>) -> (r: Vec<Diagnostic>) {
        proof {
            lemma_context_bounds(ctx);
        }
        let min_inside = cfg_usize(config, "min-spaces-inside", self.min_spaces_inside);
        let max_inside = cfg_usize(config, "max-spaces-inside", self.max_spaces_inside);
        let min_empty = match cfg_usize_opt(config, "min-spaces-inside-empty") {
            Some(u) => Some(u),
            None => self.min_spaces_inside_empty,
        };
        let max_empty = match cfg_usize_opt(config, "max-spaces-inside-empty") {
            Some(u) => Some(u),
            None => self.max_spaces_inside_empty,
        };
        let o = BracketOpts {
            min_inside,
            max_inside,
            min_empty: match min_empty {
                Some(u) => u,
                None => min_inside,
            },
            max_empty: match max_empty {
                Some(u) => u,
                None => max_inside,
            },
            forbid: cfg_bool(config, "forbid", self.forbid),
            forbid_non_empty: cfg_bool(config, "forbid-non-empty", self.forbid_non_empty),
        };
        assert(o == bracket_opts(self, cfg_of(config)));
        let mut out: Vec<Diagnostic> = Vec::new();
        let mut i: usize = 0;
        while i < ctx.lines.len()
            invariant
                ctx.wf(),
                i <= ctx.lines@.len(),
                ctx.lines_spec().len() <= ctx.content@.len(),
                forall|k: int| 0 <= k < ctx.lines_spec().len() ==> (#[trigger] ctx.lines_spec()[k]).len() <= ctx.content@.len(),
                diags_view(out@) == flat_map_lines(ctx.lines_spec(), i as int, brackets_f(o)),
            decreases ctx.lines@.len() - i,
        {
            assert(ctx.lines_spec()[i as int] == ctx.lines@[i as int]@);
            let d = brackets_check_line(o, i + 1, ctx.lines[i].as_slice());
            append_diags(&mut out, d);
            i = i + 1;
        }
        sort_diagnostics(out)
    }

    fn is_fixable(&self) -> (r: bool) {
        true
    }
}

} // verus!
