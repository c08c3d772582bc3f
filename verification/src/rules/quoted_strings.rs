//! String quoting rule.

use vstd::prelude::*;
use crate::diagnostic::{
    Diagnostic, Fix, Location, Severity, SpecDiagnostic, SpecFix, append_diags, diags_view,
    lemma_diags_view_push, plain_diag, with_fix_spec,
};
use crate::rule::{
    OptionValue, Rule, RuleConfig, RuleContext, cfg_bool, cfg_of, lemma_context_bounds, opt_bool,
    opt_string, option_spec, str_eq,
};
use crate::rules::truthy::{find_from, truthy_key, truthy_value};
use crate::text::{
    chars_to_string, contains_char, find_col, find_col_exec, lemma_find_col_bound, lemma_trim_lens,
    lemma_utf8_len_bounds, lemma_utf8_len_subrange, max_text_len, push_all, push_str,
    slice_to_vec, split_lines, trim, trim_chars, utf8_len, byte_len,
};

verus! {

/// Which quote character strings must use.
#[derive(Debug, Clone, Copy, PartialEq, Eq, Structural)]
pub enum QuoteType {
    Single,
    Double,
    Consistent,
    Any,
}

impl Default for QuoteType {
    fn default() -> (r: Self)
        ensures
            r == QuoteType::Any,
    {
        QuoteType::Any
    }
}

pub struct QuotedStrings {
    pub quote_type: QuoteType,
    /// One of "true", "false" and "only-when-needed".
    pub required: String,
    pub extra_required: Vec<String>,
    pub extra_allowed: Vec<String>,
    pub allow_quoted_quotes: bool,
    pub check_keys: bool,
}

impl Default for QuotedStrings {
    fn default() -> (r: Self)
        ensures
            r.quote_type == QuoteType::Any,
            r.required@ == "only-when-needed"@,
            r.extra_required@.len() == 0,
            r.extra_allowed@.len() == 0,
            !r.allow_quoted_quotes,
            !r.check_keys,
    {
        Self {
            quote_type: QuoteType::Any,
            required: "only-when-needed".to_owned(),
            extra_required: Vec::new(),
            extra_allowed: Vec::new(),
            allow_quoted_quotes: false,
            check_keys: false,
        }
    }
}

pub open spec fn is_quote(c: char) -> bool {
    c == '\'' || c == '"'
}

/// Starts and ends with a quote character (a lone quote counts).
pub open spec fn is_quoted(s: Seq<char>) -> bool {
    s.len() > 0 && is_quote(s[0]) && is_quote(s[s.len() - 1])
}

/// The characters whose presence makes the rule ask for quotes.
pub open spec fn needs_quotes(s: Seq<char>) -> bool {
    s.contains(' ') || s.contains(':') || s.contains('[') || s.contains('{') || s.contains(']')
        || s.contains('}')
}

/// The quote type named by an option value.
pub open spec fn quote_type_named(s: Seq<char>) -> Option<QuoteType> {
    if s == "single"@ {
        Some(QuoteType::Single)
    } else if s == "double"@ {
        Some(QuoteType::Double)
    } else if s == "consistent"@ {
        Some(QuoteType::Consistent)
    } else if s == "any"@ {
        Some(QuoteType::Any)
    } else {
        None
    }
}

/// The configured quote type, or `default` when unset or not a quote type.
pub open spec fn opt_quote_type(config: Option<RuleConfig>, default: QuoteType) -> QuoteType {
    match option_spec(config, "quote-type"@) {
        Some(OptionValue::Str(s)) => match quote_type_named(s@) {
            Some(q) => q,
            None => default,
        },
        _ => default,
    }
}

pub open spec fn quote_fix_diag(
    severity: Severity,
    message: Seq<char>,
    description: Seq<char>,
    replacement: Seq<char>,
    n: int,
    line: Seq<char>,
    s: Seq<char>,
) -> SpecDiagnostic {
    let col = find_col(line, s);
    let loc = Location { line: n as usize, column: col as usize };
    with_fix_spec(
        plain_diag("quoted-strings"@, severity, message, loc),
        SpecFix {
            description,
            replacement,
            start: loc,
            end: Location { line: n as usize, column: (col + utf8_len(s)) as usize },
        },
    )
}

/// `s` between single quotes.
pub open spec fn single_quoted(s: Seq<char>) -> Seq<char> {
    seq!['\''] + s + seq!['\'']
}

/// `s` without its first and last characters.
pub open spec fn inner(s: Seq<char>) -> Seq<char> {
    s.subrange(1, s.len() - 1)
}

/// What checking one string `s` of line `n` reports, and the quote character
/// remembered for the consistency check afterwards.
#[verifier::opaque]
pub open spec fn quote_part(
    qt: QuoteType,
    required: Seq<char>,
    n: int,
    line: Seq<char>,
    s: Seq<char>,
    seen: Option<char>,
) -> (Seq<SpecDiagnostic>, Option<char>) {
    let q = is_quoted(s);
    if s.len() == 0 {
        (seq![], seen)
    } else if required == "true"@ && !q {
        (
            seq![
                quote_fix_diag(
                    Severity::Error,
                    "string must be quoted"@,
                    "add quotes"@,
                    single_quoted(s),
                    n,
                    line,
                    s,
                ),
            ],
            seen,
        )
    } else if required == "false"@ && q {
        (
            seq![
                quote_fix_diag(
                    Severity::Error,
                    "string must not be quoted"@,
                    "remove quotes"@,
                    inner(s),
                    n,
                    line,
                    s,
                ),
            ],
            seen,
        )
    } else if required == "only-when-needed"@ && !q && needs_quotes(s) {
        (
            seq![
                quote_fix_diag(
                    Severity::Warning,
                    "string might need quotes"@,
                    "add quotes"@,
                    single_quoted(s),
                    n,
                    line,
                    s,
                ),
            ],
            seen,
        )
    } else if !q {
        (seq![], seen)
    } else {
        let cur = s[0];
        match qt {
            QuoteType::Single => if cur != '\'' {
                (
                    seq![
                        quote_fix_diag(
                            Severity::Error,
                            "string must use single quotes"@,
                            "change to single quotes"@,
                            single_quoted(inner(s)),
                            n,
                            line,
                            s,
                        ),
                    ],
                    seen,
                )
            } else {
                (seq![], seen)
            },
            QuoteType::Double => if cur != '"' {
                (
                    seq![
                        quote_fix_diag(
                            Severity::Error,
                            "string must use double quotes"@,
                            "change to double quotes"@,
                            seq!['"'] + inner(s) + seq!['"'],
                            n,
                            line,
                            s,
                        ),
                    ],
                    seen,
                )
            } else {
                (seq![], seen)
            },
            QuoteType::Consistent => match seen {
                Some(e) => if e != cur {
                    (
                        seq![
                            plain_diag(
                                "quoted-strings"@,
                                Severity::Error,
                                "inconsistent quote type: expected '"@ + seq![e] + "'"@,
                                Location { line: n as usize, column: find_col(line, s) as usize },
                            ),
                        ],
                        seen,
                    )
                } else {
                    (seq![], seen)
                },
                None => (seq![], Some(cur)),
            },
            QuoteType::Any => (seq![], seen),
        }
    }
}

/// Whether checking `s` would cut a lone quote character in two.
pub open spec fn quote_part_fails(qt: QuoteType, required: Seq<char>, s: Seq<char>) -> bool {
    &&& s.len() == 1
    &&& is_quote(s[0])
    &&& (required == "false"@ || (qt == QuoteType::Single && s[0] == '"') || (qt
        == QuoteType::Double && s[0] == '\''))
}

/// Lines that the rule skips: blank ones and comments.
pub open spec fn quote_skipped(line: Seq<char>) -> bool {
    trim(line).len() == 0 || trim(line)[0] == '#'
}

pub open spec fn quote_line(
    qt: QuoteType,
    required: Seq<char>,
    check_keys: bool,
    n: int,
    line: Seq<char>,
    seen: Option<char>,
) -> (Seq<SpecDiagnostic>, Option<char>) {
    if quote_skipped(line) {
        (seq![], seen)
    } else {
        let a = if check_keys {
            quote_part(qt, required, n, line, truthy_key(line), seen)
        } else {
            (seq![], seen)
        };
        let b = quote_part(qt, required, n, line, truthy_value(line), a.1);
        (a.0 + b.0, b.1)
    }
}

pub open spec fn quote_line_fails(qt: QuoteType, required: Seq<char>, check_keys: bool, line: Seq<char>) -> bool {
    !quote_skipped(line) && ((check_keys && quote_part_fails(qt, required, truthy_key(line)))
        || quote_part_fails(qt, required, truthy_value(line)))
}

/// The report on the first `k` lines, and the quote character seen so far.
pub open spec fn quote_lines(
    lines: Seq<Seq<char>>,
    k: int,
    qt: QuoteType,
    required: Seq<char>,
    check_keys: bool,
) -> (Seq<SpecDiagnostic>, Option<char>)
    decreases k,
{
    if k <= 0 {
        (seq![], None)
    } else {
        let prev = quote_lines(lines, k - 1, qt, required, check_keys);
        let cur = quote_line(qt, required, check_keys, k, lines[k - 1], prev.1);
        (prev.0 + cur.0, cur.1)
    }
}

impl QuotedStrings {
    pub open spec fn eff_quote_type(&self, config: Option<RuleConfig>) -> QuoteType {
        opt_quote_type(config, self.quote_type)
    }

    pub open spec fn eff_required(&self, config: Option<RuleConfig>) -> Seq<char> {
        match opt_string(config, "required"@) {
            Some(s) => s,
            None => self.required@,
        }
    }
}

fn is_quoted_exec(s: &[char]) -> (r: bool)
    ensures
        r == is_quoted(s@),
{
    s.len() > 0 && (s[0] == '\'' || s[0] == '"') && (s[s.len() - 1] == '\'' || s[s.len() - 1]
        == '"')
}

fn needs_quotes_exec(s: &[char]) -> (r: bool)
    ensures
        r == needs_quotes(s@),
{
    contains_char(s, ' ') || contains_char(s, ':') || contains_char(s, '[') || contains_char(
        s,
        '{',
    ) || contains_char(s, ']') || contains_char(s, '}')
}

pub fn quote_type_of_config(config: Option<&RuleConfig>, default: QuoteType) -> (r: QuoteType)
    ensures
        r == opt_quote_type(cfg_of(config), default),
{
    match config {
        Some(c) => match c.get_option("quote-type") {
            Some(OptionValue::Str(s)) => {
                if str_eq(s.as_str(), "single") {
                    QuoteType::Single
                } else if str_eq(s.as_str(), "double") {
                    QuoteType::Double
                } else if str_eq(s.as_str(), "consistent") {
                    QuoteType::Consistent
                } else if str_eq(s.as_str(), "any") {
                    QuoteType::Any
                } else {
                    default
                }
            },
            _ => default,
        },
        None => default,
    }
}

fn push_quote_fix(
    out: &mut Vec<Diagnostic>,
    severity: Severity,
    message: &str,
    description: &str,
    replacement: &[char],
    n: usize,
    line: &[char],
    s: &[char],
)
    requires
        line@.len() <= max_text_len(),
        s@.len() <= line@.len(),
    ensures
        diags_view(final(out)@) == diags_view(old(out)@).push(
            quote_fix_diag(severity, message@, description@, replacement@, n as int, line@, s@),
        ),
{
    proof {
        lemma_utf8_len_bounds(line@);
        lemma_utf8_len_bounds(s@);
        lemma_find_col_bound(line@, s@);
    }
    let col = find_col_exec(line, s);
    let end = col + byte_len(s);
    let rs = chars_to_string(replacement);
    let loc = Location::new(n, col);
    let d = Diagnostic::new("quoted-strings", severity, message, loc).with_fix(
        Fix::new(description, rs.as_str(), loc, Location::new(n, end)),
    );
    let ghost b = out@;
    out.push(d);
    proof {
        lemma_diags_view_push(b, d);
    }
}

fn quoted_in(q: char, s: &[char]) -> (r: Vec<char>)
    ensures
        r@ == seq![q] + s@ + seq![q],
{
    let mut v: Vec<char> = Vec::new();
    v.push(q);
    push_all(&mut v, s);
    v.push(q);
    assert(v@ =~= seq![q] + s@ + seq![q]);
    v
}

fn check_part(
    out: &mut Vec<Diagnostic>,
    seen: Option<char>,
    qt: QuoteType,
    required: &str,
    n: usize,
    line: &[char],
    s: &[char],
) -> (r: Option<char>)
    requires
        line@.len() <= max_text_len(),
        s@.len() <= line@.len(),
        !quote_part_fails(qt, required@, s@),
    ensures
        diags_view(final(out)@) == diags_view(old(out)@) + quote_part(
            qt,
            required@,
            n as int,
            line@,
            s@,
            seen,
        ).0,
        r == quote_part(qt, required@, n as int, line@, s@, seen).1,
{
    reveal(quote_part);
    let ghost start = diags_view(out@);
    let ghost res = quote_part(qt, required@, n as int, line@, s@, seen);
    if s.len() == 0 {
        assert(start + res.0 =~= start);
        return seen;
    }
    let q = is_quoted_exec(s);
    let is_true = str_eq(required, "true");
    let is_false = str_eq(required, "false");
    let is_needed = str_eq(required, "only-when-needed");
    proof {
        reveal_strlit("true");
        reveal_strlit("false");
        reveal_strlit("only-when-needed");
    }
    if is_true && !q {
        let rep = quoted_in('\'', s);
        push_quote_fix(
            out,
            Severity::Error,
            "string must be quoted",
            "add quotes",
            rep.as_slice(),
            n,
            line,
            s,
        );
        assert(diags_view(out@) =~= start + res.0);
        return seen;
    }
    if is_false && q {
        let rep = slice_to_vec(s, 1, s.len() - 1);
        push_quote_fix(
            out,
            Severity::Error,
            "string must not be quoted",
            "remove quotes",
            rep.as_slice(),
            n,
            line,
            s,
        );
        assert(diags_view(out@) =~= start + res.0);
        return seen;
    }
    if is_needed && !q && needs_quotes_exec(s) {
        let rep = quoted_in('\'', s);
        push_quote_fix(
            out,
            Severity::Warning,
            "string might need quotes",
            "add quotes",
            rep.as_slice(),
            n,
            line,
            s,
        );
        assert(diags_view(out@) =~= start + res.0);
        return seen;
    }
    if !q {
        assert(start + res.0 =~= start);
        return seen;
    }
    let cur = s[0];
    match qt {
        QuoteType::Single => {
            if cur != '\'' {
                let mid = slice_to_vec(s, 1, s.len() - 1);
                let rep = quoted_in('\'', mid.as_slice());
                push_quote_fix(
                    out,
                    Severity::Error,
                    "string must use single quotes",
                    "change to single quotes",
                    rep.as_slice(),
                    n,
                    line,
                    s,
                );
                assert(diags_view(out@) =~= start + res.0);
            } else {
                assert(start + res.0 =~= start);
            }
            seen
        },
        QuoteType::Double => {
            if cur != '"' {
                let mid = slice_to_vec(s, 1, s.len() - 1);
                let rep = quoted_in('"', mid.as_slice());
                push_quote_fix(
                    out,
                    Severity::Error,
                    "string must use double quotes",
                    "change to double quotes",
                    rep.as_slice(),
                    n,
                    line,
                    s,
                );
                assert(diags_view(out@) =~= start + res.0);
            } else {
                assert(start + res.0 =~= start);
            }
            seen
        },
        QuoteType::Consistent => {
            match seen {
                Some(e) => {
                    if e != cur {
                        let mut m: Vec<char> = Vec::new();
                        push_str(&mut m, "inconsistent quote type: expected '");
                        m.push(e);
                        push_str(&mut m, "'");
                        let ms = chars_to_string(m.as_slice());
                        proof {
                            lemma_utf8_len_bounds(line@);
                        }
                        let col = find_col_exec(line, s);
                        let d = Diagnostic::error("quoted-strings", ms.as_str(), Location::new(n, col));
                        let ghost b = out@;
                        out.push(d);
                        proof {
                            lemma_diags_view_push(b, d);
                            assert(ms@ =~= "inconsistent quote type: expected '"@ + seq![e] + "'"@);
                        }
                        assert(diags_view(out@) =~= start + res.0);
                    } else {
                        assert(start + res.0 =~= start);
                    }
                    seen
                },
                None => {
                    assert(start + res.0 =~= start);
                    Some(cur)
                },
            }
        },
        QuoteType::Any => {
            assert(start + res.0 =~= start);
            seen
        },
    }
}

fn check_line(
    out: &mut Vec<Diagnostic>,
    seen: Option<char>,
    qt: QuoteType,
    required: &str,
    check_keys: bool,
    n: usize,
    line: &[char],
) -> (r: Option<char>)
    requires
        line@.len() <= max_text_len(),
        !quote_line_fails(qt, required@, check_keys, line@),
    ensures
        diags_view(final(out)@) == diags_view(old(out)@) + quote_line(
            qt,
            required@,
            check_keys,
            n as int,
            line@,
            seen,
        ).0,
        r == quote_line(qt, required@, check_keys, n as int, line@, seen).1,
{
    let ghost start = diags_view(out@);
    let t = trim_chars(line);
    if t.len() == 0 || t[0] == '#' {
        assert(start + seq![] =~= start);
        return seen;
    }
    proof {
        lemma_trim_lens(line@);
    }
    let c1 = find_from(line, 0, ':');
    let head = slice_to_vec(line, 0, c1);
    let key = trim_chars(head.as_slice());
    assert(key@ == truthy_key(line@));
    let value = if c1 < line.len() {
        let c2 = find_from(line, c1 + 1, ':');
        let mid = slice_to_vec(line, c1 + 1, c2);
        proof {
            lemma_trim_lens(mid@);
        }
        trim_chars(mid.as_slice())
    } else {
        Vec::new()
    };
    assert(value@ =~= truthy_value(line@));
    proof {
        lemma_trim_lens(head@);
    }
    let s1 = if check_keys {
        check_part(out, seen, qt, required, n, line, key.as_slice())
    } else {
        seen
    };
    let ghost mid_out = diags_view(out@);
    let s2 = check_part(out, s1, qt, required, n, line, value.as_slice());
    proof {
        let a = if check_keys {
            quote_part(qt, required@, n as int, line@, truthy_key(line@), seen)
        } else {
            (seq![], seen)
        };
        if !check_keys {
            assert(mid_out =~= start + a.0);
        }
        assert(diags_view(out@) =~= start + (a.0 + quote_part(qt, required@, n as int, line@, truthy_value(line@), a.1).0));
    }
    s2
}

impl Rule for QuotedStrings {
    open spec fn spec_name(&self) -> Seq<char> {
        "quoted-strings"@
    }

    open spec fn spec_check(&self, content: Seq<char>, config: Option<RuleConfig>) -> Seq<SpecDiagnostic> {
        quote_lines(
            split_lines(content),
            split_lines(content).len() as int,
            self.eff_quote_type(config),
            self.eff_required(config),
            opt_bool(config, "check-keys"@, self.check_keys),
        ).0
    }

    open spec fn spec_accepts(&self, content: Seq<char>, config: Option<RuleConfig>) -> bool {
        forall|k: int|
            0 <= k < split_lines(content).len() ==> !quote_line_fails(
                self.eff_quote_type(config),
                self.eff_required(config),
                opt_bool(config, "check-keys"@, self.check_keys),
                #[trigger] split_lines(content)[k],
            )
    }

    open spec fn spec_result(&self, content: Seq<char>, config: Option<RuleConfig>, out: Seq<SpecDiagnostic>) -> bool {
        out == self.spec_check(content, config)
    }

    open spec fn spec_fixable(&self) -> bool {
        true
    }

    fn name(&self) -> (r: &'static str) {
        "quoted-strings"
    }

    open spec fn spec_description(&self) -> Seq<char> {
        "Enforce string quoting rules"@
    }

    fn description(&self) -> &'static str {
        "Enforce string quoting rules"
    }

    fn check(&self, ctx: &RuleContext, config: Option<&RuleConfig>) -> (r: Vec<Diagnostic>) {
        proof {
            lemma_context_bounds(ctx);
        }
        let qt = quote_type_of_config(config, self.quote_type);
        let required = match config {
            Some(c) => match c.get_string("required") {
                Some(s) => s,
                None => self.required.clone(),
            },
            None => self.required.clone(),
        };
        let check_keys = cfg_bool(config, "check-keys", self.check_keys);
        assert(required@ == self.eff_required(cfg_of(config)));
        let mut out: Vec<Diagnostic> = Vec::new();
        let mut seen: Option<char> = None;
        let mut i: usize = 0;
        while i < ctx.lines.len()
            invariant
                ctx.wf(),
                i <= ctx.lines@.len(),
                qt == self.eff_quote_type(cfg_of(config)),
                required@ == self.eff_required(cfg_of(config)),
                check_keys == opt_bool(cfg_of(config), "check-keys"@, self.check_keys),
                self.spec_accepts(ctx.content@, cfg_of(config)),
                ctx.lines_spec().len() <= ctx.content@.len(),
                forall|k: int| 0 <= k < ctx.lines_spec().len() ==> (#[trigger] ctx.lines_spec()[k]).len() <= ctx.content@.len(),
                (diags_view(out@), seen) == quote_lines(ctx.lines_spec(), i as int, qt, required@, check_keys),
            decreases ctx.lines@.len() - i,
        {
            assert(ctx.lines_spec()[i as int] == ctx.lines@[i as int]@);
            seen = check_line(&mut out, seen, qt, required.as_str(), check_keys, i + 1, ctx.lines[i].as_slice());
            i = i + 1;
        }
        out
    }

    fn is_fixable(&self) -> (r: bool) {
        true
    }
}

fn quote_part_fails_exec(qt: QuoteType, required: &str, s: &[char]) -> (r: bool)
    ensures
        r == quote_part_fails(qt, required@, s@),
{
    if s.len() != 1 || !(s[0] == '\'' || s[0] == '"') {
        return false;
    }
    let req = crate::text::str_chars(required);
    let is_false = crate::text::eq_str(req.as_slice(), "false");
    proof {
        reveal_strlit("false");
    }
    is_false || (matches!(qt, QuoteType::Single) && s[0] == '"') || (matches!(qt, QuoteType::Double)
        && s[0] == '\'')
}

/// Whether checking `line` would cut a lone quote character in two.
fn quote_line_fails_exec(qt: QuoteType, required: &str, check_keys: bool, line: &[char]) -> (r: bool)
    requires
        line@.len() <= max_text_len(),
    ensures
        r == quote_line_fails(qt, required@, check_keys, line@),
{
    let t = trim_chars(line);
    if t.len() == 0 || t[0] == '#' {
        return false;
    }
    proof {
        lemma_trim_lens(line@);
    }
    let c1 = find_from(line, 0, ':');
    let head = slice_to_vec(line, 0, c1);
    let key = trim_chars(head.as_slice());
    assert(key@ == truthy_key(line@));
    let value = if c1 < line.len() {
        let c2 = find_from(line, c1 + 1, ':');
        let mid = slice_to_vec(line, c1 + 1, c2);
        trim_chars(mid.as_slice())
    } else {
        Vec::new()
    };
    assert(value@ =~= truthy_value(line@));
    (check_keys && quote_part_fails_exec(qt, required, key.as_slice())) || quote_part_fails_exec(
        qt,
        required,
        value.as_slice(),
    )
}

impl QuotedStrings {
    /// Whether the rule can check `ctx` with `config`: no line holds a lone
    /// quote character where the rule would take it apart.
    pub fn accepts(&self, ctx: &RuleContext, config: Option<&RuleConfig>) -> (r: bool)
        requires
            ctx.wf(),
        ensures
            r == self.spec_accepts(ctx.content@, cfg_of(config)),
    {
        proof {
            lemma_context_bounds(ctx);
        }
        let qt = quote_type_of_config(config, self.quote_type);
        let required = match config {
            Some(c) => match c.get_string("required") {
                Some(s) => s,
                None => self.required.clone(),
            },
            None => self.required.clone(),
        };
        let check_keys = cfg_bool(config, "check-keys", self.check_keys);
        let mut i: usize = 0;
        while i < ctx.lines.len()
            invariant
                ctx.wf(),
                i <= ctx.lines@.len(),
                qt == self.eff_quote_type(cfg_of(config)),
                required@ == self.eff_required(cfg_of(config)),
                check_keys == opt_bool(cfg_of(config), "check-keys"@, self.check_keys),
                forall|k: int| 0 <= k < ctx.lines_spec().len() ==> (#[trigger] ctx.lines_spec()[k]).len() <= ctx.content@.len(),
                forall|k: int|
                    0 <= k < i ==> !quote_line_fails(qt, required@, check_keys, #[trigger] ctx.lines_spec()[k]),
            decreases ctx.lines@.len() - i,
        {
            assert(ctx.lines_spec()[i as int] == ctx.lines@[i as int]@);
            if quote_line_fails_exec(qt, required.as_str(), check_keys, ctx.lines[i].as_slice()) {
                return false;
            }
            i = i + 1;
        }
        true
    }
}

} // verus!
