//! Alphabetical ordering of keys.

use vstd::prelude::*;
use crate::diagnostic::{
    Diagnostic, Location, Severity, SpecDiagnostic, diags_view, lemma_diags_view_push, plain_diag,
};
use crate::rule::{
    Rule, RuleConfig, RuleContext, cfg_of, copy_strings, lemma_context_bounds, opt_list,
    strings_view,
};
use crate::rules::key_duplicates::{KeyEntry, entries_view, keep_upto};
use crate::text::{
    byte_len, chars_to_string, find_char_from, lemma_find_char_from, lemma_trim_lens,
    lemma_utf8_len_bounds, lemma_utf8_len_trim, max_text_len, push_all, push_str, slice_to_vec,
    split_lines, trim, trim_chars, trim_start, trim_start_chars, utf8_len,
};

verus! {

pub struct KeyOrdering {
    pub ignored_keys: Vec<String>,
}

impl Default for KeyOrdering {
    fn default() -> (r: Self)
        ensures
            r.ignored_keys@.len() == 0,
    {
        KeyOrdering { ignored_keys: Vec::new() }
    }
}

/// Whether `a` sorts strictly before `b` (code point order, as `String`'s
/// `<` compares).
pub open spec fn seq_lt(a: Seq<char>, b: Seq<char>) -> bool
    decreases a.len(),
{
    if a.len() == 0 {
        b.len() > 0
    } else if b.len() == 0 {
        false
    } else if a[0] != b[0] {
        (a[0] as u32) < (b[0] as u32)
    } else {
        seq_lt(a.drop_first(), b.drop_first())
    }
}

/// `seq_lt` is the lexicographic order by code point: where `a` and `b`
/// first differ, at `i`, the smaller character comes first.
pub proof fn lemma_seq_lt_first_difference(a: Seq<char>, b: Seq<char>, i: int)
    requires
        0 <= i < a.len(),
        i < b.len(),
        a.take(i) == b.take(i),
        a[i] != b[i],
    ensures
        seq_lt(a, b) <==> (a[i] as u32) < (b[i] as u32),
    decreases i,
{
    if i > 0 {
        assert(a[0] == a.take(i)[0] && b[0] == b.take(i)[0]);
        assert(a.drop_first().take(i - 1) =~= a.take(i).drop_first());
        assert(b.drop_first().take(i - 1) =~= b.take(i).drop_first());
        lemma_seq_lt_first_difference(a.drop_first(), b.drop_first(), i - 1);
    }
}

/// A proper prefix comes before the longer sequence, and the longer never
/// before its prefix.
pub proof fn lemma_seq_lt_prefix(a: Seq<char>, b: Seq<char>)
    requires
        a.len() < b.len(),
        b.take(a.len() as int) == a,
    ensures
        seq_lt(a, b),
        !seq_lt(b, a),
    decreases a.len(),
{
    if a.len() > 0 {
        assert(a[0] == b.take(a.len() as int)[0]);
        assert(b.drop_first().take(a.drop_first().len() as int) =~= a.drop_first());
        lemma_seq_lt_prefix(a.drop_first(), b.drop_first());
    }
}

/// `seq_lt` is a strict order: nothing comes before itself, and of two
/// sequences at most one comes before the other.
pub proof fn lemma_seq_lt_strict(a: Seq<char>, b: Seq<char>)
    ensures
        !seq_lt(a, a),
        seq_lt(a, b) ==> !seq_lt(b, a),
    decreases a.len(),
{
    if a.len() > 0 && b.len() > 0 {
        lemma_seq_lt_strict(a.drop_first(), b.drop_first());
    }
    if a.len() > 0 {
        lemma_seq_lt_strict(a.drop_first(), a.drop_first());
    }
}

pub fn chars_lt(a: &[char], b: &[char]) -> (r: bool)
    ensures
        r == seq_lt(a@, b@),
{
    let mut i: usize = 0;
    assert(a@.skip(0) =~= a@);
    assert(b@.skip(0) =~= b@);
    while i < a.len() && i < b.len() && a[i] == b[i]
        invariant
            i <= a@.len(),
            i <= b@.len(),
            seq_lt(a@.skip(i as int), b@.skip(i as int)) == seq_lt(a@, b@),
        decreases a@.len() - i,
    {
        proof {
            assert(a@.skip(i as int)[0] == a@[i as int]);
            assert(b@.skip(i as int)[0] == b@[i as int]);
            assert(a@.skip(i as int).drop_first() =~= a@.skip(i + 1));
            assert(b@.skip(i as int).drop_first() =~= b@.skip(i + 1));
        }
        i = i + 1;
    }
    proof {
        if i < a@.len() {
            assert(a@.skip(i as int)[0] == a@[i as int]);
        }
        if i < b@.len() {
            assert(b@.skip(i as int)[0] == b@[i as int]);
        }
    }
    if i == a.len() {
        i < b.len()
    } else if i == b.len() {
        false
    } else {
        (a[i] as u32) < (b[i] as u32)
    }
}

/// The last key recorded at `indent`.
pub open spec fn last_at(s: Seq<(int, Seq<char>, int)>, indent: int) -> Option<Seq<char>>
    decreases s.len(),
{
    if s.len() == 0 {
        None
    } else if s.last().0 == indent {
        Some(s.last().1)
    } else {
        last_at(s.drop_last(), indent)
    }
}

/// State after the first `k` lines: recorded keys, previous indentation,
/// diagnostics.
pub open spec fn key_ordering_state(lines: Seq<Seq<char>>, k: int, ignored: Seq<Seq<char>>) -> (
    Seq<(int, Seq<char>, int)>,
    int,
    Seq<SpecDiagnostic>,
)
    decreases k,
{
    if k <= 0 {
        (seq![], 0, seq![])
    } else {
        let (entries, prev, diags) = key_ordering_state(lines, k - 1, ignored);
        let line = lines[k - 1];
        let t = trim_start(line);
        let cur = utf8_len(line) - utf8_len(t);
        if t.len() == 0 || t[0] == '#' {
            (entries, prev, diags)
        } else {
            let c = find_char_from(t, 0, ':');
            if c < t.len() {
                let key = trim(t.take(c));
                if ignored.contains(key) {
                    (entries, prev, diags)
                } else {
                    let e1 = if cur < prev {
                        keep_upto(entries, cur)
                    } else {
                        entries
                    };
                    let d1 = match last_at(e1, cur) {
                        Some(last) => if seq_lt(key, last) {
                            diags.push(
                                plain_diag(
                                    "key-ordering"@,
                                    Severity::Error,
                                    "key '"@ + key + "' is not in alphabetical order"@,
                                    Location { line: k as usize, column: (cur + 1) as usize },
                                ),
                            )
                        } else {
                            diags
                        },
                        None => diags,
                    };
                    (e1.push((cur, key, 0)), cur, d1)
                }
            } else {
                (entries, cur, diags)
            }
        }
    }
}

pub open spec fn key_ordering_spec(content: Seq<char>, ignored: Seq<Seq<char>>) -> Seq<SpecDiagnostic> {
    let lines = split_lines(content);
    key_ordering_state(lines, lines.len() as int, ignored).2
}

fn last_at_exec(v: &Vec<KeyEntry>, indent: usize) -> (r: Option<&Vec<char>>)
    ensures
        match r {
            Some(k) => last_at(entries_view(v@), indent as int) == Some(k@),
            None => last_at(entries_view(v@), indent as int) is None,
        },
{
    let mut j = v.len();
    assert(entries_view(v@).take(j as int) =~= entries_view(v@));
    while j > 0
        invariant
            j <= v@.len(),
            last_at(entries_view(v@).take(j as int), indent as int) == last_at(entries_view(v@), indent as int),
        decreases j,
    {
        let ghost s = entries_view(v@).take(j as int);
        assert(s.last() == entries_view(v@)[j - 1]);
        assert(s.drop_last() =~= entries_view(v@).take(j - 1));
        if v[j - 1].0 == indent {
            return Some(&v[j - 1].1);
        }
        j = j - 1;
    }
    None
}

fn contains_key(list: &Vec<String>, key: &Vec<char>) -> (r: bool)
    ensures
        r == strings_view(list@).contains(key@),
{
    let mut i: usize = 0;
    while i < list.len()
        invariant
            i <= list@.len(),
            forall|j: int| 0 <= j < i ==> strings_view(list@)[j] != key@,
        decreases list@.len() - i,
    {
        if crate::text::eq_str(key.as_slice(), list[i].as_str()) {
            assert(strings_view(list@)[i as int] == key@);
            return true;
        }
        i = i + 1;
    }
    false
}

impl Rule for KeyOrdering {
    open spec fn spec_name(&self) -> Seq<char> {
        "key-ordering"@
    }

    open spec fn spec_check(&self, content: Seq<char>, config: Option<RuleConfig>) -> Seq<SpecDiagnostic> {
        key_ordering_spec(
            content,
            match opt_list(config, "ignored-keys"@) {
                Some(l) => l,
                None => strings_view(self.ignored_keys@),
            },
        )
    }

    open spec fn spec_accepts(&self, content: Seq<char>, config: Option<RuleConfig>) -> bool {
        true
    }

    open spec fn spec_result(&self, content: Seq<char>, config: Option<RuleConfig>, out: Seq<SpecDiagnostic>) -> bool {
        out == self.spec_check(content, config)
    }

    open spec fn spec_fixable(&self) -> bool {
        false
    }

    fn name(&self) -> (r: &'static str) {
        "key-ordering"
    }

    open spec fn spec_description(&self) -> Seq<char> {
        "Enforce alphabetical ordering of keys"@
    }

    fn description(&self) -> &'static str {
        "Enforce alphabetical ordering of keys"
    }

    fn check(&self, ctx: &RuleContext, config: Option<&RuleConfig>) -> (r: Vec<Diagnostic>) {
        proof {
            lemma_context_bounds(ctx);
        }
        let ignored = match config {
            Some(c) => match c.get_list("ignored-keys") {
                Some(l) => l,
                None => copy_strings(&self.ignored_keys),
            },
            None => copy_strings(&self.ignored_keys),
        };
        let ghost ign = match opt_list(cfg_of(config), "ignored-keys"@) {
            Some(l) => l,
            None => strings_view(self.ignored_keys@),
        };
        assert(strings_view(ignored@) == ign);
        let ghost lines = ctx.lines_spec();
        let mut entries: Vec<KeyEntry> = Vec::new();
        let mut prev: usize = 0;
        let mut out: Vec<Diagnostic> = Vec::new();
        let mut idx: usize = 0;
        while idx < ctx.lines.len()
            invariant
                ctx.wf(),
                lines == ctx.lines_spec(),
                idx <= lines.len() <= ctx.content@.len(),
                forall|k: int| 0 <= k < lines.len() ==> (#[trigger] lines[k]).len() <= ctx.content@.len(),
                strings_view(ignored@) == ign,
                key_ordering_state(lines, idx as int, ign) == (
                    entries_view(entries@),
                    prev as int,
                    diags_view(out@),
                ),
            decreases lines.len() - idx,
        {
            assert(lines[idx as int] == ctx.lines@[idx as int]@);
            let line = ctx.lines[idx].as_slice();
            let t = trim_start_chars(line);
            proof {
                lemma_trim_lens(line@);
                lemma_utf8_len_trim(line@);
                lemma_utf8_len_bounds(line@);
            }
            let cur = byte_len(line) - byte_len(t.as_slice());
            if t.len() == 0 || t[0] == '#' {
                idx = idx + 1;
                continue;
            }
            let mut c: usize = 0;
            while c < t.len() && t[c] != ':'
                invariant
                    c <= t@.len(),
                    find_char_from(t@, c as int, ':') == find_char_from(t@, 0, ':'),
                decreases t@.len() - c,
            {
                c = c + 1;
            }
            if c < t.len() {
                let head = slice_to_vec(t.as_slice(), 0, c);
                assert(head@ == t@.take(c as int));
                let key = trim_chars(head.as_slice());
                if contains_key(&ignored, &key) {
                    idx = idx + 1;
                    continue;
                }
                if cur < prev {
                    entries = crate::rules::key_duplicates::keep_upto_exec(entries, cur);
                }
                match last_at_exec(&entries, cur) {
                    Some(last) => {
                        if chars_lt(key.as_slice(), last.as_slice()) {
                            let mut m: Vec<char> = Vec::new();
                            push_str(&mut m, "key '");
                            push_all(&mut m, key.as_slice());
                            push_str(&mut m, "' is not in alphabetical order");
                            let ms = chars_to_string(m.as_slice());
                            let d = Diagnostic::error("key-ordering", ms.as_str(), Location::new(idx + 1, cur + 1));
                            let ghost b = out@;
                            out.push(d);
                            proof {
                                lemma_diags_view_push(b, d);
                            }
                        }
                    },
                    None => {},
                }
                let ghost be = entries_view(entries@);
                let ghost kv = key@;
                entries.push((cur, key, 0));
                assert(entries_view(entries@) =~= be.push((cur as int, kv, 0)));
            }
            prev = cur;
            idx = idx + 1;
        }
        out
    }

    fn is_fixable(&self) -> (r: bool) {
        false
    }
}

} // verus!
