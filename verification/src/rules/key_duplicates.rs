//! Rule that checks for duplicate keys in mappings.

use vstd::prelude::*;
use crate::diagnostic::{
    Diagnostic, Location, Severity, SpecDiagnostic, diags_view, lemma_diags_view_push, plain_diag,
};
use crate::rule::{
    Rule, RuleConfig, RuleContext, cfg_of, copy_strings, lemma_context_bounds, opt_list,
    strings_view,
};
use crate::text::{
    byte_len, byte_offset, chars_to_string, decimal, lemma_trim_lens, lemma_utf8_len_bounds,
    max_text_len, push_all, push_decimal, push_str, slice_to_vec, split_lines, str_chars, trim,
    trim_chars, utf8_len,
};

verus! {

/// Rule that checks for duplicate keys in YAML mappings.
pub struct KeyDuplicates {
    pub allowed_keys: Vec<String>,
}

impl Default for KeyDuplicates {
    fn default() -> (r: Self)
        ensures
            r.allowed_keys@.len() == 0,
    {
        KeyDuplicates { allowed_keys: Vec::new() }
    }
}

/// Scan of `line` from character `k` for the key/value colon: quotes and
/// flow brackets are skipped, and a colon counts when the character at
/// character index (its byte offset + 1) is absent, a space or a tab. The
/// result is the colon's character index.
pub open spec fn key_colon_from(line: Seq<char>, k: int, in_quote: bool, q: char, depth: nat) -> Option<int>
    decreases line.len() - k,
{
    if k < 0 || k >= line.len() {
        None
    } else {
        let c = line[k];
        if (c == '"' || c == '\'') && !in_quote {
            key_colon_from(line, k + 1, true, c, depth)
        } else if c == q && in_quote {
            key_colon_from(line, k + 1, false, q, depth)
        } else if (c == '[' || c == '{') && !in_quote {
            key_colon_from(line, k + 1, in_quote, q, depth + 1)
        } else if (c == ']' || c == '}') && !in_quote {
            key_colon_from(line, k + 1, in_quote, q, if depth == 0 { 0 } else { (depth - 1) as nat })
        } else if c == ':' && !in_quote && depth == 0 && {
            let ni = utf8_len(line.take(k)) + 1;
            ni >= line.len() || line[ni as int] == ' ' || line[ni as int] == '\t'
        } {
            Some(k)
        } else {
            key_colon_from(line, k + 1, in_quote, q, depth)
        }
    }
}

/// Character index of the key colon of `line`.
pub open spec fn key_colon_index(line: Seq<char>) -> Option<int> {
    key_colon_from(line, 0, false, ' ', 0)
}

/// Byte offset of the key colon of `line`.
pub open spec fn find_key_colon_spec(line: Seq<char>) -> Option<usize> {
    match key_colon_index(line) {
        Some(k) => Some(utf8_len(line.take(k)) as usize),
        None => None,
    }
}

proof fn lemma_key_colon_range(line: Seq<char>, k: int, in_quote: bool, q: char, depth: nat)
    requires
        0 <= k,
    ensures
        key_colon_from(line, k, in_quote, q, depth) matches Some(i) ==> k <= i < line.len(),
    decreases line.len() - k,
{
    if k < line.len() {
        let c = line[k];
        if (c == '"' || c == '\'') && !in_quote {
            lemma_key_colon_range(line, k + 1, true, c, depth);
        } else if c == q && in_quote {
            lemma_key_colon_range(line, k + 1, false, q, depth);
        } else if (c == '[' || c == '{') && !in_quote {
            lemma_key_colon_range(line, k + 1, in_quote, q, depth + 1);
        } else if (c == ']' || c == '}') && !in_quote {
            lemma_key_colon_range(line, k + 1, in_quote, q, if depth == 0 { 0 } else { (depth - 1) as nat });
        } else {
            lemma_key_colon_range(line, k + 1, in_quote, q, depth);
        }
    }
}

/// The character index of the key colon of `line`.
fn key_colon_exec(line: &[char]) -> (r: Option<usize>)
    requires
        line@.len() <= max_text_len(),
    ensures
        r == match key_colon_index(line@) {
            Some(k) => Some(k as usize),
            None => None,
        },
        r matches Some(k) ==> k < line@.len(),
        key_colon_index(line@) matches Some(k) ==> 0 <= k < line@.len(),
{
    let mut in_quote = false;
    let mut q = ' ';
    let mut depth: usize = 0;
    let mut k: usize = 0;
    let mut b: usize = 0;
    proof {
        lemma_key_colon_range(line@, 0, false, ' ', 0);
    }
    while k < line.len()
        invariant
            k <= line@.len() <= max_text_len(),
            depth <= k,
            b == utf8_len(line@.take(k as int)),
            b <= 4 * k,
            key_colon_from(line@, k as int, in_quote, q, depth as nat) == key_colon_index(line@),
        decreases line@.len() - k,
    {
        proof {
            crate::text::lemma_utf8_len_take(line@, k as int);
            lemma_key_colon_range(line@, k as int, in_quote, q, depth as nat);
        }
        let c = line[k];
        if (c == '"' || c == '\'') && !in_quote {
            in_quote = true;
            q = c;
        } else if c == q && in_quote {
            in_quote = false;
        } else if (c == '[' || c == '{') && !in_quote {
            depth = depth + 1;
        } else if (c == ']' || c == '}') && !in_quote {
            depth = if depth == 0 {
                0
            } else {
                depth - 1
            };
        } else if c == ':' && !in_quote && depth == 0 {
            let ni = b + 1;
            if ni >= line.len() || line[ni] == ' ' || line[ni] == '\t' {
                return Some(k);
            }
        }
        b = b + crate::text::char_len_exec(c);
        k = k + 1;
    }
    None
}

/// Find the byte position of the key-value colon (not inside quotes or flow
/// sequences).
pub fn find_key_colon(line: &str) -> (r: Option<usize>)
    requires
        line@.len() <= max_text_len(),
    ensures
        r == find_key_colon_spec(line@),
{
    let chars = str_chars(line);
    match key_colon_exec(chars.as_slice()) {
        Some(k) => Some(byte_offset(chars.as_slice(), k)),
        None => None,
    }
}

/// A key remembered at an indentation: (indent, key, line of first
/// occurrence).
pub type KeyEntry = (usize, Vec<char>, usize);

pub open spec fn entries_view(v: Seq<KeyEntry>) -> Seq<(int, Seq<char>, int)> {
    v.map_values(|e: KeyEntry| (e.0 as int, e.1@, e.2 as int))
}

/// The entries whose indentation is at most `indent`, in order.
pub open spec fn keep_upto(s: Seq<(int, Seq<char>, int)>, indent: int) -> Seq<(int, Seq<char>, int)>
    decreases s.len(),
{
    if s.len() == 0 {
        seq![]
    } else if s.last().0 <= indent {
        keep_upto(s.drop_last(), indent).push(s.last())
    } else {
        keep_upto(s.drop_last(), indent)
    }
}

/// Line of the first occurrence of `key` at `indent`.
pub open spec fn lookup_entry(s: Seq<(int, Seq<char>, int)>, indent: int, key: Seq<char>) -> Option<int>
    decreases s.len(),
{
    if s.len() == 0 {
        None
    } else if s[0].0 == indent && s[0].1 == key {
        Some(s[0].2)
    } else {
        lookup_entry(s.drop_first(), indent, key)
    }
}

/// Indentation of a line in bytes, counting the white space removed from
/// both of its ends (as the rule computes it).
pub open spec fn line_indent(line: Seq<char>) -> int {
    utf8_len(line) - utf8_len(trim(line))
}

/// A line that the key rules skip: blank, or a comment.
pub open spec fn is_skipped_line(line: Seq<char>) -> bool {
    let t = trim(line);
    t.len() == 0 || t[0] == '#'
}

pub open spec fn duplication_message(key: Seq<char>, first: int) -> Seq<char> {
    "duplication of key \""@ + key + "\" in mapping (first occurrence at line "@ + decimal(first as nat) + ")"@
}

/// State after the first `k` lines: remembered keys, previous indentation,
/// diagnostics.
pub open spec fn key_dup_state(lines: Seq<Seq<char>>, k: int, allowed: Seq<Seq<char>>) -> (
    Seq<(int, Seq<char>, int)>,
    int,
    Seq<SpecDiagnostic>,
)
    decreases k,
{
    if k <= 0 {
        (seq![], 0, seq![])
    } else {
        let (entries, prev, diags) = key_dup_state(lines, k - 1, allowed);
        let line = lines[k - 1];
        if is_skipped_line(line) {
            (entries, prev, diags)
        } else {
            let t = trim(line);
            let indent = line_indent(line);
            let entries1 = if indent < prev {
                keep_upto(entries, indent)
            } else {
                entries
            };
            match key_colon_index(t) {
                None => (entries1, indent, diags),
                Some(ci) => {
                    let key = trim(t.take(ci));
                    if allowed.contains(key) {
                        (entries1, prev, diags)
                    } else if key.len() > 0 && (key[0] == '&' || key[0] == '*' || key[0] == '-') {
                        (entries1, indent, diags)
                    } else {
                        match lookup_entry(entries1, indent, key) {
                            Some(first) => (
                                entries1,
                                indent,
                                diags.push(
                                    plain_diag(
                                        "key-duplicates"@,
                                        Severity::Error,
                                        duplication_message(key, first),
                                        Location { line: k as usize, column: (indent + 1) as usize },
                                    ),
                                ),
                            ),
                            None => (entries1.push((indent, key, k)), indent, diags),
                        }
                    }
                },
            }
        }
    }
}

pub open spec fn key_duplicates_spec(content: Seq<char>, allowed: Seq<Seq<char>>) -> Seq<SpecDiagnostic> {
    let lines = split_lines(content);
    key_dup_state(lines, lines.len() as int, allowed).2
}

pub open spec fn allowed_keys_spec(rule: &KeyDuplicates, config: Option<RuleConfig>) -> Seq<Seq<char>> {
    match opt_list(config, "allowed-keys"@) {
        Some(l) => l,
        None => strings_view(rule.allowed_keys@),
    }
}

pub(crate) fn keep_upto_exec(v: Vec<KeyEntry>, indent: usize) -> (r: Vec<KeyEntry>)
    ensures
        entries_view(r@) == keep_upto(entries_view(v@), indent as int),
{
    let mut out: Vec<KeyEntry> = Vec::new();
    let mut i: usize = 0;
    while i < v.len()
        invariant
            i <= v@.len(),
            entries_view(out@) == keep_upto(entries_view(v@).take(i as int), indent as int),
        decreases v@.len() - i,
    {
        let ghost before = entries_view(out@);
        assert(entries_view(v@).take(i + 1).drop_last() =~= entries_view(v@).take(i as int));
        if v[i].0 <= indent {
            let e = (v[i].0, v[i].1.clone(), v[i].2);
            out.push(e);
            assert(entries_view(out@) =~= before.push(entries_view(v@)[i as int]));
        }
        i = i + 1;
    }
    assert(entries_view(v@).take(v@.len() as int) =~= entries_view(v@));
    out
}

fn lookup_entry_exec(v: &Vec<KeyEntry>, indent: usize, key: &Vec<char>) -> (r: Option<usize>)
    ensures
        match r {
            Some(l) => lookup_entry(entries_view(v@), indent as int, key@) == Some(l as int),
            None => lookup_entry(entries_view(v@), indent as int, key@) is None,
        },
{
    let mut i: usize = 0;
    assert(entries_view(v@).skip(0) =~= entries_view(v@));
    while i < v.len()
        invariant
            i <= v@.len(),
            lookup_entry(entries_view(v@).skip(i as int), indent as int, key@) == lookup_entry(
                entries_view(v@),
                indent as int,
                key@,
            ),
        decreases v@.len() - i,
    {
        let ghost s = entries_view(v@).skip(i as int);
        assert(s[0] == entries_view(v@)[i as int]);
        assert(s.drop_first() =~= entries_view(v@).skip(i + 1));
        if v[i].0 == indent && crate::text::eq_chars(v[i].1.as_slice(), key.as_slice()) {
            return Some(v[i].2);
        }
        i = i + 1;
    }
    None
}

fn contains_key(allowed: &Vec<String>, key: &Vec<char>) -> (r: bool)
    ensures
        r == strings_view(allowed@).contains(key@),
{
    let mut i: usize = 0;
    while i < allowed.len()
        invariant
            i <= allowed@.len(),
            forall|j: int| 0 <= j < i ==> strings_view(allowed@)[j] != key@,
        decreases allowed@.len() - i,
    {
        if crate::text::eq_str(key.as_slice(), allowed[i].as_str()) {
            assert(strings_view(allowed@)[i as int] == key@);
            return true;
        }
        i = i + 1;
    }
    false
}

impl Rule for KeyDuplicates {
    open spec fn spec_name(&self) -> Seq<char> {
        "key-duplicates"@
    }

    open spec fn spec_check(&self, content: Seq<char>, config: Option<RuleConfig>) -> Seq<SpecDiagnostic> {
        key_duplicates_spec(content, allowed_keys_spec(self, config))
    }

    open spec fn spec_accepts(&self, content: Seq<char>, config: Option<RuleConfig>) -> bool {
        true
    }

    open spec fn spec_result(&self, content: Seq<char>, config: Option<RuleConfig>, out: Seq<SpecDiagnostic>) -> bool {
        out == self.spec_check(content, config)
    }

    open spec fn spec_fixable(&self) -> bool {
        false
    }

    fn name(&self) -> (r: &'static str) {
        "key-duplicates"
    }

    open spec fn spec_description(&self) -> Seq<char> {
        "Forbid duplicate keys in YAML mappings"@
    }

    fn description(&self) -> &'static str {
        "Forbid duplicate keys in YAML mappings"
    }

    fn check(&self, ctx: &RuleContext, config: Option<&RuleConfig>) -> (r: Vec<Diagnostic>) {
        proof {
            lemma_context_bounds(ctx);
        }
        let allowed = match config {
            Some(c) => match c.get_list("allowed-keys") {
                Some(l) => l,
                None => copy_strings(&self.allowed_keys),
            },
            None => copy_strings(&self.allowed_keys),
        };
        let ghost allowed_v = allowed_keys_spec(self, cfg_of(config));
        assert(strings_view(allowed@) == allowed_v);
        let ghost lines = ctx.lines_spec();
        let mut entries: Vec<KeyEntry> = Vec::new();
        let mut prev: usize = 0;
        let mut out: Vec<Diagnostic> = Vec::new();
        let mut idx: usize = 0;
        while idx < ctx.lines.len()
            invariant
                ctx.wf(),
                lines == ctx.lines_spec(),
                idx <= ctx.lines@.len(),
                lines.len() <= ctx.content@.len(),
                forall|k: int| 0 <= k < lines.len() ==> (#[trigger] lines[k]).len() <= ctx.content@.len(),
                strings_view(allowed@) == allowed_v,
                key_dup_state(lines, idx as int, allowed_v) == (
                    entries_view(entries@),
                    prev as int,
                    diags_view(out@),
                ),
            decreases ctx.lines@.len() - idx,
        {
            assert(lines[idx as int] == ctx.lines@[idx as int]@);
            let line = &ctx.lines[idx];
            let t = trim_chars(line.as_slice());
            let line_num = idx + 1;
            if t.len() == 0 || t[0] == '#' {
                idx = idx + 1;
                continue;
            }
            proof {
                lemma_trim_lens(line@);
                crate::text::lemma_utf8_len_trim(line@);
                lemma_utf8_len_bounds(line@);
            }
            let indent = byte_len(line.as_slice()) - byte_len(t.as_slice());
            if indent < prev {
                entries = keep_upto_exec(entries, indent);
            }
            match key_colon_exec(t.as_slice()) {
                None => {
                    prev = indent;
                },
                Some(ci) => {
                    let head = slice_to_vec(t.as_slice(), 0, ci);
                    assert(head@ == t@.take(ci as int));
                    let key = trim_chars(head.as_slice());
                    if contains_key(&allowed, &key) {
                        idx = idx + 1;
                        continue;
                    }
                    if key.len() > 0 && (key[0] == '&' || key[0] == '*' || key[0] == '-') {
                        prev = indent;
                        idx = idx + 1;
                        continue;
                    }
                    match lookup_entry_exec(&entries, indent, &key) {
                        Some(first) => {
                            let mut m: Vec<char> = Vec::new();
                            push_str(&mut m, "duplication of key \"");
                            push_all(&mut m, key.as_slice());
                            push_str(&mut m, "\" in mapping (first occurrence at line ");
                            push_decimal(&mut m, first);
                            push_str(&mut m, ")");
                            let ms = chars_to_string(m.as_slice());
                            let d = Diagnostic::error(
                                "key-duplicates",
                                ms.as_str(),
                                Location::new(line_num, indent + 1),
                            );
                            let ghost before = out@;
                            out.push(d);
                            proof {
                                lemma_diags_view_push(before, d);
                            }
                        },
                        None => {
                            let ghost before = entries_view(entries@);
                            let e = (indent, key, line_num);
                            entries.push(e);
                            assert(entries_view(entries@) =~= before.push((indent as int, key@, line_num as int)));
                        },
                    }
                    prev = indent;
                },
            }
            idx = idx + 1;
        }
        out
    }

    fn is_fixable(&self) -> (r: bool) {
        false
    }
}

} // verus!
