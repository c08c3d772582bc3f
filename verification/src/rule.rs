//! The rule interface: the checking context, per-rule configuration and the
//! `Rule` trait.

use vstd::prelude::*;
use crate::diagnostic::{Diagnostic, Location, SpecDiagnostic, diags_view};
use crate::text::{
    find_char_from, lemma_find_char_from, lemma_utf8_len_concat, lemma_utf8_len_subrange, char_len,
    lemma_split_lines_bounds, lemma_utf8_len_bounds, lines_of, max_text_len, seqs_view,
    split_lines, split_lines_from, str_chars, utf8_len, byte_len,
};

verus! {

/// Context provided to rules for checking content.
#[derive(Debug)]
pub struct RuleContext {
    /// The file content
    pub content: Vec<char>,
    /// Lines of the content (for line-by-line checking), as `str::lines`
    /// splits them
    pub lines: Vec<Vec<char>>,
    /// The file path (if available)
    pub file_path: Option<String>,
}

impl RuleContext {
    /// The lines hold the split of the content, and the content is no longer
    /// than a machine can hold.
    pub open spec fn wf(&self) -> bool {
        &&& self.content@.len() <= max_text_len()
        &&& seqs_view(self.lines@) == split_lines(self.content@)
    }

    /// The lines of the context, as character sequences.
    pub open spec fn lines_spec(&self) -> Seq<Seq<char>> {
        seqs_view(self.lines@)
    }

    pub fn new(content: &str) -> (r: Self)
        requires
            content@.len() <= max_text_len(),
        ensures
            r.wf(),
            r.content@ == content@,
            r.file_path is None,
    {
        let chars = str_chars(content);
        let lines = lines_of(chars.as_slice());
        RuleContext { content: chars, lines, file_path: None }
    }

    pub fn with_path(self, path: &str) -> (r: Self)
        ensures
            r.content == self.content,
            r.lines == self.lines,
            r.file_path matches Some(p) && p@ == path@,
    {
        let mut s = self;
        s.file_path = Some(path.to_owned());
        s
    }

    /// Get a specific line (1-indexed; line 0 gives the first line).
    pub fn line(&self, n: usize) -> (r: Option<&Vec<char>>)
        ensures
            ({
                let i = if n == 0 { 0 } else { n - 1 };
                match r {
                    Some(l) => i < self.lines@.len() && l@ == self.lines@[i]@,
                    None => i >= self.lines@.len(),
                }
            }),
    {
        let i = if n == 0 { 0 } else { n - 1 };
        if i < self.lines.len() {
            Some(&self.lines[i])
        } else {
            None
        }
    }

    /// Get the byte offset range of a specific line (1-indexed), within the
    /// content: each line break before it counts with its own length (two
    /// bytes for `"\r\n"`).
    pub fn line_range(&self, line_num: usize) -> (r: Option<(usize, usize)>)
        requires
            self.wf(),
        ensures
            r == line_range_spec(self.content@, line_num as int),
    {
        proof {
            lemma_context_bounds(self);
            lemma_split_lines_suffix(self.content@, 0, 0);
        }
        if line_num == 0 || line_num > self.lines.len() {
            return None;
        }
        let ghost s = self.content@;
        let mut pos: usize = 0;
        let mut current_offset: usize = 0;
        let mut i: usize = 0;
        while i < self.lines.len()
            invariant
                self.wf(),
                s == self.content@,
                1 <= line_num <= self.lines@.len(),
                i < line_num,
                pos == line_start_from(s, 0, i as int),
                0 <= pos <= s.len(),
                current_offset == utf8_len(s.take(pos as int)),
                split_lines(s).subrange(i as int, split_lines(s).len() as int) =~= split_lines_from(
                    s,
                    pos as int,
                ),
                s.len() <= max_text_len(),
            decreases self.lines@.len() - i,
        {
            proof {
                lemma_split_lines_suffix(s, 0, i as int);
                lemma_first_line(s, pos as int);
                assert(self.lines_spec()[i as int] == split_lines(s)[i as int]);
            }
            let line = &self.lines[i];
            let len = byte_len(line.as_slice());
            let j = pos + line.len();
            proof {
                lemma_utf8_len_subrange(s, pos as int, j as int);
                assert(s.subrange(pos as int, j as int) =~= line@);
                lemma_utf8_len_subrange(s, 0, j as int);
                assert(s.take(j as int) =~= s.take(pos as int) + s.subrange(pos as int, j as int));
                lemma_utf8_len_concat(s.take(pos as int), s.subrange(pos as int, j as int));
                lemma_utf8_len_bounds(s);
            }
            if i + 1 == line_num {
                return Some((current_offset, current_offset + len));
            }
            proof {
                lemma_split_lines_suffix(s, 0, i as int + 1);
            }
            let brk: usize = if self.content[j] == '\r' { 2 } else { 1 };
            proof {
                let q = find_char_from(s, pos as int, '\n');
                lemma_find_char_from(s, pos as int, '\n');
                lemma_line_start_next(s, 0, i as int);
                assert(j + brk == q + 1);
                assert(s.take(q + 1) =~= s.take(j as int) + s.subrange(j as int, q + 1));
                lemma_utf8_len_concat(s.take(j as int), s.subrange(j as int, q + 1));
                assert(char_len('\r') == 1);
                assert(char_len('\n') == 1);
                if brk == 2 {
                    assert(s.subrange(j as int, q + 1) =~= seq!['\r', '\n']);
                    assert(seq!['\r', '\n'].drop_last() =~= seq!['\r']);
                    assert(seq!['\r'].drop_last() =~= Seq::<char>::empty());
                    assert(utf8_len(seq!['\r', '\n']) == 2) by {
                        reveal_with_fuel(utf8_len, 3);
                    }
                } else {
                    assert(s.subrange(j as int, q + 1) =~= seq!['\n']);
                    assert(seq!['\n'].drop_last() =~= Seq::<char>::empty());
                    assert(utf8_len(seq!['\n']) == 1) by {
                        reveal_with_fuel(utf8_len, 2);
                    }
                }
                assert(utf8_len(s.subrange(j as int, q + 1)) == brk);
                assert(utf8_len(s.take(q + 1)) == current_offset + len + brk);
                lemma_utf8_len_subrange(s, 0, q + 1);
            }
            current_offset = current_offset + len + brk;
            pos = j + brk;
            i = i + 1;
        }
        None
    }

    /// Get the absolute byte offset of a location.
    pub fn offset(&self, loc: Location) -> (r: Option<usize>)
        requires
            self.wf(),
            line_range_spec(self.content@, loc.line as int) matches Some((start, _)) ==> 1
                <= start + loc.column <= usize::MAX,
        ensures
            r == match line_range_spec(self.content@, loc.line as int) {
                Some((start, _)) => Some((start + loc.column - 1) as usize),
                None => None,
            },
    {
        match self.line_range(loc.line) {
            Some((start, _)) => Some(start + loc.column - 1),
            None => None,
        }
    }

    /// Get the total number of lines.
    pub fn line_count(&self) -> (r: usize)
        ensures
            r == self.lines@.len(),
    {
        self.lines.len()
    }
}

/// The character index at which line `k` (0-based) of `s[i..]` starts:
/// each earlier line ends after its `'\n'`.
pub open spec fn line_start_from(s: Seq<char>, i: int, k: int) -> int
    decreases k,
{
    if k <= 0 {
        i
    } else {
        line_start_from(s, find_char_from(s, i, '\n') + 1, k - 1)
    }
}

/// The byte range of line `n` (1-based) of `s`, if there is such a line:
/// it starts at the byte offset of the line's first character in `s`.
pub open spec fn line_range_spec(s: Seq<char>, n: int) -> Option<(usize, usize)> {
    let lines = split_lines(s);
    if n < 1 || n > lines.len() {
        None
    } else {
        let start = utf8_len(s.take(line_start_from(s, 0, n - 1)));
        Some((start as usize, (start + utf8_len(lines[n - 1])) as usize))
    }
}

/// The lines from line `k` on are the lines of the text from where line
/// `k` starts.
pub proof fn lemma_split_lines_suffix(s: Seq<char>, i: int, k: int)
    requires
        0 <= i,
        0 <= k <= split_lines_from(s, i).len(),
    ensures
        split_lines_from(s, i).subrange(k, split_lines_from(s, i).len() as int) =~= split_lines_from(
            s,
            line_start_from(s, i, k),
        ),
        k < split_lines_from(s, i).len() ==> 0 <= line_start_from(s, i, k) < s.len(),
    decreases k,
{
    let ls = split_lines_from(s, i);
    if k > 0 {
        let q = find_char_from(s, i, '\n');
        lemma_find_char_from(s, i, '\n');
        if q >= s.len() {
            assert(ls.len() == 1);
            assert(line_start_from(s, i, k) == line_start_from(s, q + 1, k - 1));
            lemma_start_past_end(s, q + 1, k - 1);
        } else {
            let rest = split_lines_from(s, q + 1);
            assert(ls =~= seq![crate::text::strip_cr(s.subrange(i, q))] + rest);
            lemma_split_lines_suffix(s, q + 1, k - 1);
            assert(ls.subrange(k, ls.len() as int) =~= rest.subrange(k - 1, rest.len() as int));
        }
    } else {
        if k < ls.len() {
            assert(i < s.len());
        }
    }
}

proof fn lemma_start_past_end(s: Seq<char>, i: int, k: int)
    requires
        i > s.len(),
        k >= 0,
    ensures
        line_start_from(s, i, k) > s.len(),
    decreases k,
{
    if k > 0 {
        let q = find_char_from(s, i, '\n');
        assert(q == s.len());
        lemma_start_past_end(s, q + 1, k - 1);
    }
}

/// The first line of `s[p..]` ends at the first `'\n'` after `p`, with a
/// `'\r'` just before that `'\n'` left out; when more lines follow, the
/// character after the line is the `'\r'` or the `'\n'`.
proof fn lemma_first_line(s: Seq<char>, p: int)
    requires
        0 <= p < s.len(),
    ensures
        ({
            let q = find_char_from(s, p, '\n');
            let line = split_lines_from(s, p)[0];
            let j = p + line.len();
            &&& split_lines_from(s, p).len() >= 1
            &&& p <= j <= s.len()
            &&& line =~= s.subrange(p, j)
            &&& split_lines_from(s, p).len() > 1 ==> q < s.len() && (if s[j] == '\r' {
                j + 2 == q + 1
            } else {
                j == q
            }) && find_char_from(s, p, '\n') + 1 == line_start_from(s, p, 1)
        }),
{
    let q = find_char_from(s, p, '\n');
    lemma_find_char_from(s, p, '\n');
    assert(line_start_from(s, p, 1) == line_start_from(s, q + 1, 0));
    if q < s.len() {
        let t = s.subrange(p, q);
        assert(split_lines_from(s, p) =~= seq![crate::text::strip_cr(t)] + split_lines_from(s, q + 1));
        assert(split_lines_from(s, p)[0] == crate::text::strip_cr(t));
        if t.len() > 0 && t.last() == '\r' {
            assert(crate::text::strip_cr(t) =~= s.subrange(p, q - 1));
            assert(s[q - 1] == '\r');
        } else {
            assert(crate::text::strip_cr(t) =~= s.subrange(p, q));
            assert(s[q] == '\n');
        }
    } else {
        assert(split_lines_from(s, p) =~= seq![s.subrange(p, s.len() as int)]);
    }
}

/// The start of line `k + 1` is just after the first `'\n'` from the
/// start of line `k`.
proof fn lemma_line_start_next(s: Seq<char>, i: int, k: int)
    requires
        k >= 0,
    ensures
        line_start_from(s, i, k + 1) == find_char_from(s, line_start_from(s, i, k), '\n') + 1,
    decreases k,
{
    let f = find_char_from(s, i, '\n') + 1;
    assert(line_start_from(s, i, k + 1) == line_start_from(s, f, k));
    if k > 0 {
        lemma_line_start_next(s, f, k - 1);
        assert(line_start_from(s, i, k) == line_start_from(s, f, k - 1));
    } else {
        assert(line_start_from(s, f, 0) == f);
    }
}

/// The bounds that well-formedness gives: no more lines than characters and
/// no line longer than the content.
pub proof fn lemma_context_bounds(ctx: &RuleContext)
    requires
        ctx.wf(),
    ensures
        ctx.lines_spec().len() <= ctx.content@.len(),
        forall|k: int|
            0 <= k < ctx.lines_spec().len() ==> (#[trigger] ctx.lines_spec()[k]).len()
                <= ctx.content@.len(),
{
    lemma_split_lines_bounds(ctx.content@, 0);
}

/// A configuration value of a rule option.
#[derive(Debug, Clone)]
pub enum OptionValue {
    Null,
    Bool(bool),
    Int(i64),
    Str(String),
    List(Vec<String>),
    /// Any other value (a float, a mapping, a mixed list).
    Other,
}

/// Configuration for a single rule.
#[derive(Debug, Clone)]
pub enum RuleConfig {
    /// Simple enable/disable
    Enabled(bool),
    /// Enable with string
    EnableStr(String),
    /// Detailed configuration: option name and value
    Detailed(Vec<(String, OptionValue)>),
}

/// The value of the first entry named `key`.
pub open spec fn lookup_spec(entries: Seq<(String, OptionValue)>, key: Seq<char>) -> Option<OptionValue>
    decreases entries.len(),
{
    if entries.len() == 0 {
        None
    } else if entries[0].0@ == key {
        Some(entries[0].1)
    } else {
        lookup_spec(entries.drop_first(), key)
    }
}

/// The value of option `key`, if the configuration is detailed and has it.
pub open spec fn option_spec(config: Option<RuleConfig>, key: Seq<char>) -> Option<OptionValue> {
    match config {
        Some(RuleConfig::Detailed(entries)) => lookup_spec(entries@, key),
        _ => None,
    }
}

pub open spec fn opt_bool(config: Option<RuleConfig>, key: Seq<char>, default: bool) -> bool {
    match option_spec(config, key) {
        Some(OptionValue::Bool(b)) => b,
        _ => default,
    }
}

pub open spec fn opt_int(config: Option<RuleConfig>, key: Seq<char>, default: i64) -> i64 {
    match option_spec(config, key) {
        Some(OptionValue::Int(i)) => i,
        _ => default,
    }
}

/// A non-negative integer option, if set to one.
pub open spec fn opt_usize_spec(config: Option<RuleConfig>, key: Seq<char>) -> Option<usize> {
    match option_spec(config, key) {
        Some(OptionValue::Int(i)) => if 0 <= i && i <= usize::MAX {
            Some(i as usize)
        } else {
            None
        },
        _ => None,
    }
}

pub open spec fn opt_usize(config: Option<RuleConfig>, key: Seq<char>, default: usize) -> usize {
    match opt_usize_spec(config, key) {
        Some(u) => u,
        None => default,
    }
}

pub open spec fn opt_string(config: Option<RuleConfig>, key: Seq<char>) -> Option<Seq<char>> {
    match option_spec(config, key) {
        Some(OptionValue::Str(s)) => Some(s@),
        _ => None,
    }
}

pub open spec fn strings_view(v: Seq<String>) -> Seq<Seq<char>> {
    v.map_values(|s: String| s@)
}

pub open spec fn opt_list(config: Option<RuleConfig>, key: Seq<char>) -> Option<Seq<Seq<char>>> {
    match option_spec(config, key) {
        Some(OptionValue::List(l)) => Some(strings_view(l@)),
        _ => None,
    }
}

pub open spec fn cfg_of(config: Option<&RuleConfig>) -> Option<RuleConfig> {
    match config {
        Some(c) => Some(*c),
        None => None,
    }
}

/// Whether two strings hold the same characters.
pub fn str_eq(a: &str, b: &str) -> (r: bool)
    ensures
        r == (a@ == b@),
{
    let x = str_chars(a);
    let y = str_chars(b);
    if x.len() != y.len() {
        assert(x@.len() != y@.len());
        assert(x@ != y@);
        return false;
    }
    let mut i: usize = 0;
    while i < x.len()
        invariant
            x@ == a@,
            y@ == b@,
            x@.len() == y@.len(),
            i <= x@.len(),
            forall|k: int| 0 <= k < i ==> x@[k] == y@[k],
        decreases x@.len() - i,
    {
        if x[i] != y[i] {
            assert(x@[i as int] != y@[i as int]);
            return false;
        }
        i = i + 1;
    }
    assert(x@ =~= y@);
    true
}

/// A copy of a list of strings.
pub fn copy_strings(v: &Vec<String>) -> (r: Vec<String>)
    ensures
        strings_view(r@) == strings_view(v@),
{
    let mut r: Vec<String> = Vec::new();
    let mut i: usize = 0;
    while i < v.len()
        invariant
            i <= v@.len(),
            strings_view(r@) == strings_view(v@).take(i as int),
        decreases v@.len() - i,
    {
        let s = v[i].as_str().to_owned();
        let ghost old_r = r@;
        r.push(s);
        proof {
            assert(strings_view(r@) =~= strings_view(old_r).push(s@));
        }
        i = i + 1;
        assert(strings_view(r@) =~= strings_view(v@).take(i as int));
    }
    assert(strings_view(v@).take(v@.len() as int) =~= strings_view(v@));
    r
}

impl RuleConfig {
    /// Whether the rule is turned on by this configuration.
    pub open spec fn is_enabled_spec(&self) -> bool {
        match self {
            RuleConfig::Enabled(b) => *b,
            RuleConfig::EnableStr(s) => s@ != "disable"@,
            RuleConfig::Detailed(entries) => !(lookup_spec(entries@, "disable"@) matches Some(
                OptionValue::Bool(true),
            )),
        }
    }

    pub fn is_enabled(&self) -> (r: bool)
        ensures
            r == self.is_enabled_spec(),
    {
        match self {
            RuleConfig::Enabled(b) => *b,
            RuleConfig::EnableStr(s) => !str_eq(s.as_str(), "disable"),
            RuleConfig::Detailed(entries) => {
                match lookup(entries, "disable") {
                    Some(OptionValue::Bool(true)) => false,
                    _ => true,
                }
            },
        }
    }

    /// The value of option `key`.
    pub fn get_option(&self, key: &str) -> (r: Option<&OptionValue>)
        ensures
            match r {
                Some(v) => option_spec(Some(*self), key@) == Some(*v),
                None => option_spec(Some(*self), key@) is None,
            },
    {
        match self {
            RuleConfig::Detailed(entries) => lookup(entries, key),
            _ => None,
        }
    }

    pub fn get_int(&self, key: &str) -> (r: Option<i64>)
        ensures
            r == match option_spec(Some(*self), key@) {
                Some(OptionValue::Int(i)) => Some(i),
                _ => None,
            },
    {
        match self.get_option(key) {
            Some(OptionValue::Int(i)) => Some(*i),
            _ => None,
        }
    }

    pub fn get_usize(&self, key: &str) -> (r: Option<usize>)
        ensures
            r == opt_usize_spec(Some(*self), key@),
    {
        match self.get_option(key) {
            Some(OptionValue::Int(i)) => {
                if *i >= 0 && (*i as u64) <= (usize::MAX as u64) {
                    Some(*i as usize)
                } else {
                    None
                }
            },
            _ => None,
        }
    }

    pub fn get_bool(&self, key: &str) -> (r: Option<bool>)
        ensures
            r == match option_spec(Some(*self), key@) {
                Some(OptionValue::Bool(b)) => Some(b),
                _ => None,
            },
    {
        match self.get_option(key) {
            Some(OptionValue::Bool(b)) => Some(*b),
            _ => None,
        }
    }

    pub fn get_string(&self, key: &str) -> (r: Option<String>)
        ensures
            match r {
                Some(s) => opt_string(Some(*self), key@) == Some(s@),
                None => opt_string(Some(*self), key@) is None,
            },
    {
        match self.get_option(key) {
            Some(OptionValue::Str(s)) => Some(s.clone()),
            _ => None,
        }
    }

    pub fn get_list(&self, key: &str) -> (r: Option<Vec<String>>)
        ensures
            match r {
                Some(l) => opt_list(Some(*self), key@) == Some(strings_view(l@)),
                None => opt_list(Some(*self), key@) is None,
            },
    {
        match self.get_option(key) {
            Some(OptionValue::List(l)) => Some(copy_strings(l)),
            _ => None,
        }
    }
}

fn lookup<'a>(entries: &'a Vec<(String, OptionValue)>, key: &str) -> (r: Option<&'a OptionValue>)
    ensures
        match r {
            Some(v) => lookup_spec(entries@, key@) == Some(*v),
            None => lookup_spec(entries@, key@) is None,
        },
{
    let mut i: usize = 0;
    assert(entries@.skip(0) =~= entries@);
    while i < entries.len()
        invariant
            i <= entries@.len(),
            lookup_spec(entries@.skip(i as int), key@) == lookup_spec(entries@, key@),
        decreases entries@.len() - i,
    {
        assert(entries@.skip(i as int)[0] == entries@[i as int]);
        assert(entries@.skip(i as int).drop_first() =~= entries@.skip(i + 1));
        if str_eq(entries[i].0.as_str(), key) {
            return Some(&entries[i].1);
        }
        i = i + 1;
    }
    None
}

/// Getter helpers that fall back on a default.
pub fn cfg_bool(config: Option<&RuleConfig>, key: &str, default: bool) -> (r: bool)
    ensures
        r == opt_bool(cfg_of(config), key@, default),
{
    match config {
        Some(c) => match c.get_bool(key) {
            Some(b) => b,
            None => default,
        },
        None => default,
    }
}

pub fn cfg_int(config: Option<&RuleConfig>, key: &str, default: i64) -> (r: i64)
    ensures
        r == opt_int(cfg_of(config), key@, default),
{
    match config {
        Some(c) => match c.get_int(key) {
            Some(b) => b,
            None => default,
        },
        None => default,
    }
}

pub fn cfg_usize_opt(config: Option<&RuleConfig>, key: &str) -> (r: Option<usize>)
    ensures
        r == opt_usize_spec(cfg_of(config), key@),
{
    match config {
        Some(c) => c.get_usize(key),
        None => None,
    }
}

pub fn cfg_usize(config: Option<&RuleConfig>, key: &str, default: usize) -> (r: usize)
    ensures
        r == opt_usize(cfg_of(config), key@, default),
{
    match cfg_usize_opt(config, key) {
        Some(u) => u,
        None => default,
    }
}

/// Trait for individual lint rules.
pub trait Rule {
    /// The identifier of the rule.
    spec fn spec_name(&self) -> Seq<char>;

    /// What the rule reports on `content` under `config` (for a rule whose
    /// report depends on the platform, its report on this one).
    spec fn spec_check(&self, content: Seq<char>, config: Option<RuleConfig>) -> Seq<SpecDiagnostic>;

    /// Whether `out` is a possible report of the rule on `content` under
    /// `config`.
    spec fn spec_result(&self, content: Seq<char>, config: Option<RuleConfig>, out: Seq<SpecDiagnostic>) -> bool;

    /// Whether the rule offers fixes.
    spec fn spec_fixable(&self) -> bool;

    /// The contents and configurations on which checking runs to completion
    /// (no panic).
    spec fn spec_accepts(&self, content: Seq<char>, config: Option<RuleConfig>) -> bool;

    /// Returns the unique name/identifier of this rule.
    fn name(&self) -> (r: &'static str)
        ensures
            r@ == self.spec_name(),
    ;

    /// A brief description of what the rule checks.
    spec fn spec_description(&self) -> Seq<char>;

    /// Returns a brief description of what this rule checks.
    fn description(&self) -> (r: &'static str)
        ensures
            r@ == self.spec_description(),
    ;

    /// Check the content and return any diagnostics.
    fn check(&self, ctx: &RuleContext, config: Option<&RuleConfig>) -> (r: Vec<Diagnostic>)
        requires
            ctx.wf(),
            self.spec_accepts(ctx.content@, cfg_of(config)),
        ensures
            self.spec_result(ctx.content@, cfg_of(config), diags_view(r@)),
    ;

    /// Whether this rule can automatically fix issues.
    fn is_fixable(&self) -> (r: bool)
        ensures
            r == self.spec_fixable(),
    ;
}

/// Concatenation of `f(n, lines[n - 1])` for the lines `1..=k`.
pub open spec fn flat_map_lines(
    lines: Seq<Seq<char>>,
    k: int,
    f: spec_fn(int, Seq<char>) -> Seq<SpecDiagnostic>,
) -> Seq<SpecDiagnostic>
    decreases k,
{
    if k <= 0 {
        seq![]
    } else {
        flat_map_lines(lines, k - 1, f) + f(k, lines[k - 1])
    }
}

} // verus!
