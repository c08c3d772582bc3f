//! Line length rule.

use vstd::prelude::*;
use crate::diagnostic::{
    Diagnostic, Location, Severity, SpecDiagnostic, append_diags, diags_view,
    lemma_diags_view_push, plain_diag,
};
use crate::rule::{
    Rule, RuleConfig, RuleContext, cfg_bool, cfg_of, cfg_usize, flat_map_lines,
    lemma_context_bounds, opt_bool, opt_usize,
};
use crate::text::{
    byte_len, chars_to_string, char_len, char_len_exec, contains_char, decimal, find_seq,
    find_seq_exec, is_whitespace, is_ws, lemma_trim_lens, lemma_utf8_len_bounds, matches_at,
    max_text_len, push_decimal, push_str, slice_to_vec, split_lines, str_chars, trim, trim_chars,
    utf8_len,
};

verus! {

pub struct LineLength {
    pub max: usize,
    pub allow_non_breakable_words: bool,
    pub allow_non_breakable_inline_mappings: bool,
}

/// The rule on its own, with no configuration, allows 60 characters: its
/// test asks for a report on a line of 74 characters that way. This is a
/// choice of this library; the configuration presets set their own limit
/// (80 in the default one).
impl Default for LineLength {
    fn default() -> (r: Self)
        ensures
            r.max == 60,
            r.allow_non_breakable_words,
            !r.allow_non_breakable_inline_mappings,
    {
        Self { max: 60, allow_non_breakable_words: true, allow_non_breakable_inline_mappings: false }
    }
}

/// Index of the last character before `j` that is white space or `:`, or -1.
pub open spec fn last_break_before(t: Seq<char>, j: int) -> int
    decreases j,
{
    if j <= 0 || j > t.len() {
        -1
    } else if is_ws(t[j - 1]) || t[j - 1] == ':' {
        j - 1
    } else {
        last_break_before(t, j - 1)
    }
}

proof fn lemma_last_break(t: Seq<char>, j: int)
    requires
        0 <= j <= t.len(),
    ensures
        -1 <= last_break_before(t, j) < j,
    decreases j,
{
    if j > 0 && !(is_ws(t[j - 1]) || t[j - 1] == ':') {
        lemma_last_break(t, j - 1);
    }
}

/// The rule slices the trimmed line just after its last break character by
/// byte: that is a character boundary when the break is one byte long.
pub open spec fn break_is_sliceable(line: Seq<char>) -> bool {
    let t = trim(line);
    let p = last_break_before(t, t.len() as int);
    p < 0 || char_len(t[p]) == 1
}

/// Whether the line's last word (after its last white space or `:`) alone is
/// longer than `max` bytes and has no space; with no such break, the whole
/// trimmed line.
pub open spec fn is_non_breakable_word_spec(line: Seq<char>, max: nat) -> bool {
    let t = trim(line);
    let p = last_break_before(t, t.len() as int);
    if p >= 0 {
        let after = t.subrange(p + 1, t.len() as int);
        utf8_len(after) > max && !after.contains(' ')
    } else {
        utf8_len(t) > max && !t.contains(' ')
    }
}

/// Whether the trimmed line holds `": "` and starts with neither `-` nor `#`.
pub open spec fn is_inline_mapping_spec(line: Seq<char>) -> bool {
    let t = trim(line);
    find_seq(t, ": "@) is Some && !(t.len() > 0 && (t[0] == '-' || t[0] == '#'))
}

pub(crate) fn is_non_breakable_word(line: &[char], max: usize) -> (r: bool)
    requires
        line@.len() <= max_text_len(),
        break_is_sliceable(line@),
    ensures
        r == is_non_breakable_word_spec(line@, max as nat),
{
    let t = trim_chars(line);
    proof {
        lemma_trim_lens(line@);
    }
    let mut j = t.len();
    while j > 0 && !(is_whitespace(t[j - 1]) || t[j - 1] == ':')
        invariant
            j <= t@.len(),
            last_break_before(t@, j as int) == last_break_before(t@, t@.len() as int),
        decreases j,
    {
        j = j - 1;
    }
    if j > 0 {
        let after = slice_to_vec(t.as_slice(), j, t.len());
        byte_len(after.as_slice()) > max && !contains_char(after.as_slice(), ' ')
    } else {
        byte_len(t.as_slice()) > max && !contains_char(t.as_slice(), ' ')
    }
}

pub(crate) fn is_inline_mapping(line: &[char]) -> (r: bool)
    ensures
        r == is_inline_mapping_spec(line@),
{
    let t = trim_chars(line);
    let pat = str_chars(": ");
    let found = find_seq_exec(t.as_slice(), pat.as_slice());
    found.is_some() && !(t.len() > 0 && (t[0] == '-' || t[0] == '#'))
}

/// The effective (max, allow non-breakable words, allow non-breakable
/// inline mappings).
pub open spec fn line_length_opts(rule: &LineLength, config: Option<RuleConfig>) -> (usize, bool, bool) {
    (
        opt_usize(config, "max"@, rule.max),
        opt_bool(config, "allow-non-breakable-words"@, rule.allow_non_breakable_words),
        opt_bool(
            config,
            "allow-non-breakable-inline-mappings"@,
            rule.allow_non_breakable_inline_mappings,
        ),
    )
}

pub open spec fn line_length_line(o: (usize, bool, bool), n: int, line: Seq<char>) -> Seq<SpecDiagnostic> {
    let len = utf8_len(line);
    if len > o.0 && !(o.1 && is_non_breakable_word_spec(line, o.0 as nat)) && !(o.2
        && is_inline_mapping_spec(line)) {
        seq![
            plain_diag(
                "line-length"@,
                Severity::Warning,
                "line too long ("@ + decimal(len) + " > "@ + decimal(o.0 as nat) + ")"@,
                Location { line: n as usize, column: (o.0 + 1) as usize },
            ),
        ]
    } else {
        seq![]
    }
}

pub open spec fn line_length_f(o: (usize, bool, bool)) -> spec_fn(int, Seq<char>) -> Seq<SpecDiagnostic> {
    |n: int, line: Seq<char>| line_length_line(o, n, line)
}

/// Lines that the rule measures without slicing inside a character.
pub open spec fn line_length_accepts(content: Seq<char>, o: (usize, bool, bool)) -> bool {
    let lines = split_lines(content);
    forall|k: int|
        0 <= k < lines.len() && utf8_len(#[trigger] lines[k]) > o.0 && o.1 ==> break_is_sliceable(
            lines[k],
        )
}

fn line_length_check_line(o: (usize, bool, bool), n: usize, line: &[char]) -> (r: Vec<Diagnostic>)
    requires
        1 <= n <= max_text_len(),
        line@.len() <= max_text_len(),
        utf8_len(line@) > o.0 && o.1 ==> break_is_sliceable(line@),
    ensures
        diags_view(r@) == line_length_line(o, n as int, line@),
{
    let mut out: Vec<Diagnostic> = Vec::new();
    proof {
        lemma_utf8_len_bounds(line@);
    }
    let len = byte_len(line);
    if len > o.0 {
        if o.1 && is_non_breakable_word(line, o.0) {
            return out;
        }
        if o.2 && is_inline_mapping(line) {
            return out;
        }
        let mut m: Vec<char> = Vec::new();
        push_str(&mut m, "line too long (");
        push_decimal(&mut m, len);
        push_str(&mut m, " > ");
        push_decimal(&mut m, o.0);
        push_str(&mut m, ")");
        let ms = chars_to_string(m.as_slice());
        let d = Diagnostic::warning("line-length", ms.as_str(), Location::new(n, o.0 + 1));
        out.push(d);
        proof {
            lemma_diags_view_push(Seq::empty(), d);
        }
    }
    assert(diags_view(out@) =~= line_length_line(o, n as int, line@));
    out
}

impl Rule for LineLength {
    open spec fn spec_name(&self) -> Seq<char> {
        "line-length"@
    }

    open spec fn spec_check(&self, content: Seq<char>, config: Option<RuleConfig>) -> Seq<SpecDiagnostic> {
        flat_map_lines(
            split_lines(content),
            split_lines(content).len() as int,
            line_length_f(line_length_opts(self, config)),
        )
    }

    open spec fn spec_accepts(&self, content: Seq<char>, config: Option<RuleConfig>) -> bool {
        line_length_accepts(content, line_length_opts(self, config))
    }

    open spec fn spec_result(&self, content: Seq<char>, config: Option<RuleConfig>, out: Seq<SpecDiagnostic>) -> bool {
        out == self.spec_check(content, config)
    }

    open spec fn spec_fixable(&self) -> bool {
        false
    }

    fn name(&self) -> (r: &'static str) {
        "line-length"
    }

    open spec fn spec_description(&self) -> Seq<char> {
        "Limit line length to a maximum number of characters"@
    }

    fn description(&self) -> &'static str {
        "Limit line length to a maximum number of characters"
    }

    fn check(&self, ctx: &RuleContext, config: Option<&RuleConfig>) -> (r: Vec<Diagnostic>) {
        proof {
            lemma_context_bounds(ctx);
        }
        let o = (
            cfg_usize(config, "max", self.max),
            cfg_bool(config, "allow-non-breakable-words", self.allow_non_breakable_words),
            cfg_bool(
                config,
                "allow-non-breakable-inline-mappings",
                self.allow_non_breakable_inline_mappings,
            ),
        );
        let mut out: Vec<Diagnostic> = Vec::new();
        let mut i: usize = 0;
        while i < ctx.lines.len()
            invariant
                ctx.wf(),
                line_length_accepts(ctx.content@, o),
                i <= ctx.lines@.len(),
                ctx.lines_spec().len() <= ctx.content@.len(),
                forall|k: int| 0 <= k < ctx.lines_spec().len() ==> (#[trigger] ctx.lines_spec()[k]).len() <= ctx.content@.len(),
                diags_view(out@) == flat_map_lines(ctx.lines_spec(), i as int, line_length_f(o)),
            decreases ctx.lines@.len() - i,
        {
            assert(ctx.lines_spec()[i as int] == ctx.lines@[i as int]@);
            let d = line_length_check_line(o, i + 1, ctx.lines[i].as_slice());
            append_diags(&mut out, d);
            i = i + 1;
        }
        out
    }

    fn is_fixable(&self) -> (r: bool) {
        false
    }
}

/// Whether the trimmed line can be cut just after its last break.
fn break_is_sliceable_exec(line: &[char]) -> (r: bool)
    requires
        line@.len() <= max_text_len(),
    ensures
        r == break_is_sliceable(line@),
{
    let t = trim_chars(line);
    let mut j = t.len();
    while j > 0 && !(is_whitespace(t[j - 1]) || t[j - 1] == ':')
        invariant
            j <= t@.len(),
            last_break_before(t@, j as int) == last_break_before(t@, t@.len() as int),
        decreases j,
    {
        j = j - 1;
    }
    if j > 0 {
        char_len_exec(t[j - 1]) == 1
    } else {
        true
    }
}

impl LineLength {
    /// Whether the rule can check `ctx` with `config`: every line that is
    /// too long and may be a non-breakable word can be cut after its last
    /// break.
    pub fn accepts(&self, ctx: &RuleContext, config: Option<&RuleConfig>) -> (r: bool)
        requires
            ctx.wf(),
        ensures
            r == self.spec_accepts(ctx.content@, cfg_of(config)),
    {
        proof {
            lemma_context_bounds(ctx);
        }
        let o = (
            cfg_usize(config, "max", self.max),
            cfg_bool(config, "allow-non-breakable-words", self.allow_non_breakable_words),
            cfg_bool(
                config,
                "allow-non-breakable-inline-mappings",
                self.allow_non_breakable_inline_mappings,
            ),
        );
        let mut i: usize = 0;
        while i < ctx.lines.len()
            invariant
                ctx.wf(),
                o == line_length_opts(self, cfg_of(config)),
                i <= ctx.lines@.len(),
                ctx.lines_spec().len() <= ctx.content@.len(),
                forall|k: int| 0 <= k < ctx.lines_spec().len() ==> (#[trigger] ctx.lines_spec()[k]).len() <= ctx.content@.len(),
                forall|k: int|
                    0 <= k < i && utf8_len(#[trigger] ctx.lines_spec()[k]) > o.0 && o.1 ==> break_is_sliceable(
                        ctx.lines_spec()[k],
                    ),
            decreases ctx.lines@.len() - i,
        {
            assert(ctx.lines_spec()[i as int] == ctx.lines@[i as int]@);
            let line = ctx.lines[i].as_slice();
            proof {
                lemma_utf8_len_bounds(line@);
            }
            if o.1 && byte_len(line) > o.0 && !break_is_sliceable_exec(line) {
                return false;
            }
            i = i + 1;
        }
        true
    }
}

} // verus!
