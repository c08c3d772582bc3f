//! Truthy values rule.

use vstd::prelude::*;
use crate::diagnostic::{
    Diagnostic, Location, Severity, SpecDiagnostic, append_diags, diags_view,
    lemma_diags_view_push, plain_diag,
};
use crate::rule::{
    Rule, RuleConfig, RuleContext, cfg_bool, cfg_of, copy_strings, flat_map_lines,
    lemma_context_bounds, opt_bool, opt_list, strings_view,
};
use crate::text::{
    chars_to_string, eq_str, find_char_from, find_col, find_col_exec, lemma_find_char_from,
    lemma_trim_lens, max_text_len, push_all, push_str, slice_to_vec, split_lines, trim,
    trim_chars,
};

verus! {

pub struct Truthy {
    pub allowed_values: Vec<String>,
    pub check_keys: bool,
}

impl Default for Truthy {
    fn default() -> (r: Self)
        ensures
            strings_view(r.allowed_values@) == seq!["true"@, "false"@],
            r.check_keys,
    {
        let mut v: Vec<String> = Vec::new();
        v.push("true".to_owned());
        v.push("false".to_owned());
        let r = Self { allowed_values: v, check_keys: true };
        assert(strings_view(r.allowed_values@) =~= seq!["true"@, "false"@]);
        r
    }
}

/// The words that YAML 1.1 reads as booleans and the rule looks for.
pub open spec fn truthy_word(w: Seq<char>) -> bool {
    w == "yes"@ || w == "no"@ || w == "on"@ || w == "off"@
}

/// No ASCII capital in `w`.
pub open spec fn no_capitals(w: Seq<char>) -> bool {
    forall|k: int| 0 <= k < w.len() ==> !('A' <= #[trigger] w[k] <= 'Z')
}

/// The words the rule checks are the lowercase YAML 1.1 booleans other than
/// `true` and `false`: those the loader reads as true (`yes`, `on`) and
/// their opposites (`no`, `off`).
pub proof fn lemma_truthy_words(w: Seq<char>)
    ensures
        truthy_word(w) <==> ((crate::pyyaml::loader::true_words().contains(w) && no_capitals(w) && w
            != "true"@) || w == "no"@ || w == "off"@),
{
    reveal_strlit("yes");
    reveal_strlit("Yes");
    reveal_strlit("YES");
    reveal_strlit("true");
    reveal_strlit("True");
    reveal_strlit("TRUE");
    reveal_strlit("on");
    reveal_strlit("On");
    reveal_strlit("ON");
    reveal_strlit("no");
    reveal_strlit("off");
    let tw = crate::pyyaml::loader::true_words();
    if truthy_word(w) {
        if w == "yes"@ {
            assert(tw[0] == w);
            assert(no_capitals(w));
        }
        if w == "on"@ {
            assert(tw[6] == w);
            assert(no_capitals(w));
        }
    }
    if tw.contains(w) && no_capitals(w) && w != "true"@ {
        let i = choose|i: int| 0 <= i < tw.len() && tw[i] == w;
        if i == 1 || i == 2 || i == 4 || i == 5 || i == 7 || i == 8 {
            assert(!('A' <= w[0] <= 'Z') && 'A' <= w[0] <= 'Z');
        }
    }
}

pub open spec fn truthy_diag(w: Seq<char>, n: int, line: Seq<char>) -> SpecDiagnostic {
    plain_diag(
        "truthy"@,
        Severity::Error,
        "unsupported truthy value '"@ + w + "'"@,
        Location { line: n as usize, column: find_col(line, w) as usize },
    )
}

/// The key: the trimmed text before the first `:` (all of it without one).
pub open spec fn truthy_key(t: Seq<char>) -> Seq<char> {
    trim(t.take(find_char_from(t, 0, ':')))
}

/// The value: the trimmed text between the first and the second `:`.
pub open spec fn truthy_value(t: Seq<char>) -> Seq<char> {
    let c1 = find_char_from(t, 0, ':');
    if c1 < t.len() {
        trim(t.subrange(c1 + 1, find_char_from(t, c1 + 1, ':')))
    } else {
        seq![]
    }
}

#[verifier::opaque]
pub open spec fn truthy_line(allowed: Seq<Seq<char>>, check_keys: bool, n: int, line: Seq<char>) -> Seq<SpecDiagnostic> {
    let t = trim(line);
    if t.len() == 0 || t[0] == '#' {
        seq![]
    } else {
        let key = truthy_key(t);
        let value = truthy_value(t);
        (if check_keys && truthy_word(key) && !allowed.contains(key) {
            seq![truthy_diag(key, n, line)]
        } else {
            seq![]
        }) + (if truthy_word(value) && !allowed.contains(value) {
            seq![truthy_diag(value, n, line)]
        } else {
            seq![]
        })
    }
}

pub open spec fn truthy_f(allowed: Seq<Seq<char>>, check_keys: bool) -> spec_fn(int, Seq<char>) -> Seq<SpecDiagnostic> {
    |n: int, line: Seq<char>| truthy_line(allowed, check_keys, n, line)
}

fn is_truthy_word(w: &[char]) -> (r: bool)
    ensures
        r == truthy_word(w@),
{
    eq_str(w, "yes") || eq_str(w, "no") || eq_str(w, "on") || eq_str(w, "off")
}

pub(crate) fn contains_value(list: &Vec<String>, w: &[char]) -> (r: bool)
    ensures
        r == strings_view(list@).contains(w@),
{
    let mut i: usize = 0;
    while i < list.len()
        invariant
            i <= list@.len(),
            forall|j: int| 0 <= j < i ==> strings_view(list@)[j] != w@,
        decreases list@.len() - i,
    {
        if eq_str(w, list[i].as_str()) {
            assert(strings_view(list@)[i as int] == w@);
            return true;
        }
        i = i + 1;
    }
    false
}

pub(crate) fn find_from(t: &[char], start: usize, c: char) -> (r: usize)
    requires
        start <= t@.len(),
    ensures
        r == find_char_from(t@, start as int, c),
        start <= r <= t@.len(),
{
    let mut k = start;
    while k < t.len() && t[k] != c
        invariant
            start <= k <= t@.len(),
            find_char_from(t@, k as int, c) == find_char_from(t@, start as int, c),
        decreases t@.len() - k,
    {
        k = k + 1;
    }
    k
}

fn push_truthy(out: &mut Vec<Diagnostic>, w: &[char], n: usize, line: &[char])
    requires
        line@.len() <= max_text_len(),
    ensures
        diags_view(final(out)@) == diags_view(old(out)@).push(truthy_diag(w@, n as int, line@)),
{
    let mut m: Vec<char> = Vec::new();
    push_str(&mut m, "unsupported truthy value '");
    push_all(&mut m, w);
    push_str(&mut m, "'");
    let ms = chars_to_string(m.as_slice());
    let col = find_col_exec(line, w);
    let d = Diagnostic::error("truthy", ms.as_str(), Location::new(n, col));
    let ghost b = out@;
    out.push(d);
    proof {
        lemma_diags_view_push(b, d);
    }
}

fn truthy_check_line(allowed: &Vec<String>, check_keys: bool, n: usize, line: &[char]) -> (r: Vec<Diagnostic>)
    requires
        1 <= n <= max_text_len(),
        line@.len() <= max_text_len(),
    ensures
        diags_view(r@) == truthy_line(strings_view(allowed@), check_keys, n as int, line@),
{
    reveal(truthy_line);
    let mut out: Vec<Diagnostic> = Vec::new();
    let t = trim_chars(line);
    if t.len() == 0 || t[0] == '#' {
        return out;
    }
    let c1 = find_from(t.as_slice(), 0, ':');
    let head = slice_to_vec(t.as_slice(), 0, c1);
    let key = trim_chars(head.as_slice());
    assert(key@ == truthy_key(t@));
    let value = if c1 < t.len() {
        let c2 = find_from(t.as_slice(), c1 + 1, ':');
        let mid = slice_to_vec(t.as_slice(), c1 + 1, c2);
        trim_chars(mid.as_slice())
    } else {
        Vec::new()
    };
    assert(value@ =~= truthy_value(t@));
    if check_keys && is_truthy_word(key.as_slice()) && !contains_value(allowed, key.as_slice()) {
        push_truthy(&mut out, key.as_slice(), n, line);
    }
    let ghost d1 = diags_view(out@);
    if is_truthy_word(value.as_slice()) && !contains_value(allowed, value.as_slice()) {
        push_truthy(&mut out, value.as_slice(), n, line);
    }
    assert(diags_view(out@) =~= truthy_line(strings_view(allowed@), check_keys, n as int, line@));
    out
}

impl Rule for Truthy {
    open spec fn spec_name(&self) -> Seq<char> {
        "truthy"@
    }

    open spec fn spec_check(&self, content: Seq<char>, config: Option<RuleConfig>) -> Seq<SpecDiagnostic> {
        flat_map_lines(
            split_lines(content),
            split_lines(content).len() as int,
            truthy_f(
                match opt_list(config, "allowed-values"@) {
                    Some(l) => l,
                    None => strings_view(self.allowed_values@),
                },
                opt_bool(config, "check-keys"@, self.check_keys),
            ),
        )
    }

    open spec fn spec_accepts(&self, content: Seq<char>, config: Option<RuleConfig>) -> bool {
        true
    }

    open spec fn spec_result(&self, content: Seq<char>, config: Option<RuleConfig>, out: Seq<SpecDiagnostic>) -> bool {
        out == self.spec_check(content, config)
    }

    open spec fn spec_fixable(&self) -> bool {
        false
    }

    fn name(&self) -> (r: &'static str) {
        "truthy"
    }

    open spec fn spec_description(&self) -> Seq<char> {
        "Enforce truthy values"@
    }

    fn description(&self) -> &'static str {
        "Enforce truthy values"
    }

    fn check(&self, ctx: &RuleContext, config: Option<&RuleConfig>) -> (r: Vec<Diagnostic>) {
        proof {
            lemma_context_bounds(ctx);
        }
        let allowed = match config {
            Some(c) => match c.get_list("allowed-values") {
                Some(l) => l,
                None => copy_strings(&self.allowed_values),
            },
            None => copy_strings(&self.allowed_values),
        };
        let check_keys = cfg_bool(config, "check-keys", self.check_keys);
        let ghost av = strings_view(allowed@);
        assert(av == match opt_list(cfg_of(config), "allowed-values"@) {
            Some(l) => l,
            None => strings_view(self.allowed_values@),
        });
        let mut out: Vec<Diagnostic> = Vec::new();
        let mut i: usize = 0;
        while i < ctx.lines.len()
            invariant
                ctx.wf(),
                i <= ctx.lines@.len(),
                av == strings_view(allowed@),
                ctx.lines_spec().len() <= ctx.content@.len(),
                forall|k: int| 0 <= k < ctx.lines_spec().len() ==> (#[trigger] ctx.lines_spec()[k]).len() <= ctx.content@.len(),
                diags_view(out@) == flat_map_lines(ctx.lines_spec(), i as int, truthy_f(av, check_keys)),
            decreases ctx.lines@.len() - i,
        {
            assert(ctx.lines_spec()[i as int] == ctx.lines@[i as int]@);
            let d = truthy_check_line(&allowed, check_keys, i + 1, ctx.lines[i].as_slice());
            append_diags(&mut out, d);
            i = i + 1;
        }
        out
    }

    fn is_fixable(&self) -> (r: bool) {
        false
    }
}

} // verus!
