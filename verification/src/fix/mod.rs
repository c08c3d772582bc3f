//! The fixing engine's document model and edits: a document split into
//! lines, the edit operations that fixes produce, and their application.

pub mod engine;
pub mod fixers;

pub use engine::fix_content;

use vstd::prelude::*;
use crate::linter::LintProblem;
use crate::rule::str_eq;
use crate::text::{
    chars_to_string, find_char_from, find_seq_exec, lemma_find_char_from, lemma_run_end,
    lemma_run_start, matches_at, push_all, push_spaces, push_str, run_end, run_start,
    skip_spaces, skip_spaces_back, slice_to_vec, space_pred, spaces, str_chars, strip_cr,
};

verus! {

/// A document as a list of lines, with the line ending it uses and whether
/// it ends with one.
pub struct Doc {
    pub lines: Vec<String>,
    pub ending: String,
    pub final_newline: bool,
}

/// The contents of a [`Doc`].
pub struct DocView {
    pub lines: Seq<Seq<char>>,
    pub ending: Seq<char>,
    pub final_newline: bool,
}

pub open spec fn strings_seq(v: Seq<String>) -> Seq<Seq<char>> {
    v.map_values(|s: String| s@)
}

impl View for Doc {
    type V = DocView;

    open spec fn view(&self) -> DocView {
        DocView { lines: strings_seq(self.lines@), ending: self.ending@, final_newline: self.final_newline }
    }
}

/// `str::split('\n')` of `s[i..]`: the pieces between line feeds, the last
/// one running to the end.
pub open spec fn split_nl_from(s: Seq<char>, i: int) -> Seq<Seq<char>>
    decreases s.len() - i + 1,
{
    if i < 0 || i > s.len() {
        seq![]
    } else {
        let k = find_char_from(s, i, '\n');
        proof {
            lemma_find_char_from(s, i, '\n');
        }
        if k >= s.len() {
            seq![s.subrange(i, s.len() as int)]
        } else {
            seq![s.subrange(i, k)] + split_nl_from(s, k + 1)
        }
    }
}

pub open spec fn split_nl(s: Seq<char>) -> Seq<Seq<char>> {
    split_nl_from(s, 0)
}

pub open spec fn ends_with_nl(s: Seq<char>) -> bool {
    s.len() > 0 && s.last() == '\n'
}

/// Whether `s` holds a CR LF pair.
pub open spec fn has_crlf(s: Seq<char>) -> bool {
    exists|i: int| matches_at(s, i, seq!['\r', '\n'])
}

/// The document that `Doc::parse` makes of `c`: the line-feed separated
/// pieces without a carriage return at their end, without the empty piece
/// after a final line feed; CR LF as the ending if `c` holds one.
pub open spec fn parse_spec(c: Seq<char>) -> DocView {
    let ls = split_nl(c).map_values(|l: Seq<char>| strip_cr(l));
    DocView {
        lines: if ends_with_nl(c) {
            ls.drop_last()
        } else {
            ls
        },
        ending: if has_crlf(c) {
            seq!['\r', '\n']
        } else {
            seq!['\n']
        },
        final_newline: ends_with_nl(c),
    }
}

/// The lines joined with `sep` between consecutive ones.
pub open spec fn join_with(ls: Seq<Seq<char>>, sep: Seq<char>) -> Seq<char>
    decreases ls.len(),
{
    if ls.len() == 0 {
        seq![]
    } else if ls.len() == 1 {
        ls[0]
    } else {
        join_with(ls.drop_last(), sep) + sep + ls.last()
    }
}

/// The text of a document.
pub open spec fn render_spec(d: DocView) -> Seq<char> {
    join_with(d.lines, d.ending) + if d.final_newline {
        d.ending
    } else {
        seq![]
    }
}

proof fn lemma_join_cons(a: Seq<char>, rest: Seq<Seq<char>>, sep: Seq<char>)
    requires
        rest.len() > 0,
    ensures
        join_with(seq![a] + rest, sep) == a + sep + join_with(rest, sep),
    decreases rest.len(),
{
    let all = seq![a] + rest;
    if rest.len() == 1 {
        assert(all.drop_last() =~= seq![a]);
        assert(all.last() == rest[0]);
        assert(join_with(seq![a], sep) == a);
        assert(join_with(all, sep) =~= a + sep + join_with(rest, sep));
    } else {
        assert(all.drop_last() =~= seq![a] + rest.drop_last());
        lemma_join_cons(a, rest.drop_last(), sep);
        assert(all.last() == rest.last());
        assert(join_with(all, sep) == join_with(all.drop_last(), sep) + sep + all.last());
        assert(join_with(rest, sep) == join_with(rest.drop_last(), sep) + sep + rest.last());
        assert(join_with(all, sep) =~= a + sep + join_with(rest, sep));
    }
}

proof fn lemma_split_join(s: Seq<char>, i: int)
    requires
        0 <= i <= s.len(),
    ensures
        join_with(split_nl_from(s, i), seq!['\n']) == s.subrange(i, s.len() as int),
    decreases s.len() - i,
{
    let k = find_char_from(s, i, '\n');
    lemma_find_char_from(s, i, '\n');
    if k < s.len() {
        let rest = split_nl_from(s, k + 1);
        lemma_split_join(s, k + 1);
        lemma_split_nonempty(s, k + 1);
        lemma_join_cons(s.subrange(i, k), rest, seq!['\n']);
        assert(s.subrange(i, s.len() as int) =~= s.subrange(i, k) + seq!['\n'] + s.subrange(k + 1, s.len() as int));
    }
}

proof fn lemma_split_nonempty(s: Seq<char>, i: int)
    requires
        0 <= i <= s.len(),
    ensures
        split_nl_from(s, i).len() >= 1,
    decreases s.len() - i,
{
    lemma_find_char_from(s, i, '\n');
}

/// Without a CR LF pair and without a final carriage return, no piece ends
/// with a carriage return.
proof fn lemma_split_no_cr(s: Seq<char>, i: int)
    requires
        0 <= i <= s.len(),
        !has_crlf(s),
        !(s.len() > 0 && s.last() == '\r'),
    ensures
        split_nl_from(s, i).map_values(|l: Seq<char>| strip_cr(l)) == split_nl_from(s, i),
    decreases s.len() - i,
{
    let k = find_char_from(s, i, '\n');
    lemma_find_char_from(s, i, '\n');
    let ls = split_nl_from(s, i);
    if k < s.len() {
        lemma_split_no_cr(s, k + 1);
        let p = s.subrange(i, k);
        if p.len() > 0 && p.last() == '\r' {
            assert(s.subrange(k - 1, k + 1) =~= seq!['\r', '\n']);
            assert(matches_at(s, k - 1, seq!['\r', '\n']));
        }
        assert(strip_cr(p) == p);
        assert(ls.map_values(|l: Seq<char>| strip_cr(l)) =~= ls);
    } else {
        let p = s.subrange(i, s.len() as int);
        assert(p.len() > 0 ==> p.last() == s[s.len() - 1]);
        assert(strip_cr(p) == p);
        assert(ls.map_values(|l: Seq<char>| strip_cr(l)) =~= ls);
    }
}

/// Every line feed of `s` follows a carriage return.
pub open spec fn all_crlf(s: Seq<char>) -> bool {
    forall|j: int| 0 <= j < s.len() && #[trigger] s[j] == '\n' ==> j >= 1 && s[j - 1] == '\r'
}

/// When every line feed follows a carriage return and the text does not end
/// with one, the pieces without their carriage returns, joined with CR LF,
/// give the text back.
proof fn lemma_split_join_crlf(s: Seq<char>, i: int)
    requires
        0 <= i <= s.len(),
        i > 0 ==> s[i - 1] == '\n',
        all_crlf(s),
        !(s.len() > 0 && s.last() == '\r'),
    ensures
        join_with(split_nl_from(s, i).map_values(|l: Seq<char>| strip_cr(l)), seq!['\r', '\n'])
            == s.subrange(i, s.len() as int),
    decreases s.len() - i,
{
    let k = find_char_from(s, i, '\n');
    lemma_find_char_from(s, i, '\n');
    let ls = split_nl_from(s, i);
    let f = |l: Seq<char>| strip_cr(l);
    if k < s.len() {
        let rest = split_nl_from(s, k + 1);
        lemma_split_join_crlf(s, k + 1);
        lemma_split_nonempty(s, k + 1);
        assert(s[k] == '\n');
        assert(k >= 1 && s[k - 1] == '\r');
        if k == i {
            assert(s[i - 1] == '\n');
            assert(false);
        }
        let p = s.subrange(i, k);
        assert(p.last() == s[k - 1]);
        assert(strip_cr(p) =~= s.subrange(i, k - 1));
        assert(ls == seq![p] + rest);
        assert(ls.map_values(f) =~= seq![strip_cr(p)] + rest.map_values(f));
        lemma_join_cons(strip_cr(p), rest.map_values(f), seq!['\r', '\n']);
        assert(s.subrange(i, s.len() as int) =~= s.subrange(i, k - 1) + seq!['\r', '\n'] + s.subrange(
            k + 1,
            s.len() as int,
        ));
    } else {
        let p = s.subrange(i, s.len() as int);
        assert(ls == seq![p]);
        assert(p.len() > 0 ==> p.last() == s[s.len() - 1]);
        assert(strip_cr(p) == p);
        assert(ls.map_values(f) =~= seq![p]);
    }
}

proof fn lemma_split_last(s: Seq<char>, i: int)
    requires
        0 <= i < s.len(),
        ends_with_nl(s),
    ensures
        split_nl_from(s, i).len() >= 2,
        split_nl_from(s, i).last() == Seq::<char>::empty(),
    decreases s.len() - i,
{
    let k = find_char_from(s, i, '\n');
    lemma_find_char_from(s, i, '\n');
    if k >= s.len() {
        assert(s[s.len() - 1] == '\n');
        assert(false);
    }
    let rest = split_nl_from(s, k + 1);
    if k + 1 == s.len() {
        assert(find_char_from(s, k + 1, '\n') == s.len());
        assert(rest == seq![s.subrange(k + 1, s.len() as int)]);
        assert(s.subrange(k + 1, s.len() as int) =~= Seq::<char>::empty());
    } else {
        lemma_split_last(s, k + 1);
    }
    assert(split_nl_from(s, i) == seq![s.subrange(i, k)] + rest);
}

/// Parsing a document and rendering it gives back its text, when the text
/// does not end with a carriage return and does not mix line endings: it
/// holds no CR LF pair, or every line feed in it follows a carriage return.
pub proof fn lemma_parse_render_roundtrip(c: Seq<char>)
    requires
        !(c.len() > 0 && c.last() == '\r'),
        !has_crlf(c) || all_crlf(c),
    ensures
        render_spec(parse_spec(c)) == c,
{
    let d = parse_spec(c);
    let ls = split_nl(c);
    let sl = ls.map_values(|l: Seq<char>| strip_cr(l));
    assert(c.subrange(0, c.len() as int) =~= c);
    let sep = d.ending;
    if has_crlf(c) {
        lemma_split_join_crlf(c, 0);
        assert(sep == seq!['\r', '\n']);
    } else {
        lemma_split_no_cr(c, 0);
        lemma_split_join(c, 0);
        assert(sep == seq!['\n']);
        assert(sl == ls);
    }
    assert(join_with(sl, sep) == c);
    if ends_with_nl(c) {
        lemma_split_last(c, 0);
        assert(d.lines == sl.drop_last());
        assert(sl.last() == strip_cr(ls.last()));
        assert(strip_cr(Seq::<char>::empty()) == Seq::<char>::empty());
        assert(sl.last() =~= Seq::<char>::empty());
        assert(join_with(sl, sep) == join_with(sl.drop_last(), sep) + sep + sl.last());
        assert(render_spec(d) =~= c);
    } else {
        assert(d.lines == sl);
        assert(render_spec(d) =~= c);
    }
}

impl Doc {
    pub fn parse(content: &str) -> (r: Self)
        ensures
            r@ == parse_spec(content@),
    {
        let c = str_chars(content);
        let mut crlf: Vec<char> = Vec::new();
        crlf.push('\r');
        crlf.push('\n');
        let found = find_seq_exec(c.as_slice(), crlf.as_slice());
        assert(crlf@ =~= seq!['\r', '\n']);
        let ending = match found {
            Some(j) => {
                assert(matches_at(c@, j as int, seq!['\r', '\n']));
                "\r\n".to_owned()
            },
            None => "\n".to_owned(),
        };
        proof {
            reveal_strlit("\r\n");
            reveal_strlit("\n");
        }
        let final_newline = c.len() > 0 && c[c.len() - 1] == '\n';
        let ghost ls = split_nl(c@).map_values(|l: Seq<char>| strip_cr(l));
        let mut lines: Vec<String> = Vec::new();
        let mut i: usize = 0;
        loop
            invariant_except_break
                strings_seq(lines@) + split_nl_from(c@, i as int).map_values(|l: Seq<char>| strip_cr(l)) == ls,
            invariant
                i <= c@.len(),
                c@ == content@,
                ls == split_nl(c@).map_values(|l: Seq<char>| strip_cr(l)),
                ending@ == parse_spec(content@).ending,
                final_newline == ends_with_nl(content@),
            ensures
                strings_seq(lines@) == ls,
                lines@.len() > 0,
            decreases c@.len() - i + 1,
        {
            proof {
                lemma_find_char_from(c@, i as int, '\n');
            }
            let mut k = i;
            while k < c.len() && c[k] != '\n'
                invariant
                    i <= k <= c@.len(),
                    find_char_from(c@, k as int, '\n') == find_char_from(c@, i as int, '\n'),
                decreases c@.len() - k,
            {
                k = k + 1;
            }
            let end = if k > i && c[k - 1] == '\r' {
                k - 1
            } else {
                k
            };
            let piece = slice_to_vec(c.as_slice(), i, end);
            let ghost raw = c@.subrange(i as int, k as int);
            assert(piece@ =~= strip_cr(raw));
            let ghost before = strings_seq(lines@);
            let s = chars_to_string(piece.as_slice());
            lines.push(s);
            if k >= c.len() {
                proof {
                    assert(split_nl_from(c@, i as int) == seq![raw]);
                    assert(strings_seq(lines@) =~= before.push(strip_cr(raw)));
                    assert(split_nl_from(c@, i as int).map_values(|l: Seq<char>| strip_cr(l)) =~= seq![strip_cr(raw)]);
                    assert(strings_seq(lines@) =~= ls);
                }
                break;
            }
            proof {
                let rest = split_nl_from(c@, k + 1);
                assert(split_nl_from(c@, i as int) == seq![raw] + rest);
                assert((seq![raw] + rest).map_values(|l: Seq<char>| strip_cr(l)) =~= seq![strip_cr(raw)] + rest.map_values(|l: Seq<char>| strip_cr(l)));
                assert(strings_seq(lines@) =~= before.push(strip_cr(raw)));
                assert(strings_seq(lines@) + rest.map_values(|l: Seq<char>| strip_cr(l)) =~= before + (seq![strip_cr(raw)] + rest.map_values(|l: Seq<char>| strip_cr(l))));
            }
            i = k + 1;
        }
        if final_newline {
            let ghost before = strings_seq(lines@);
            lines.pop();
            assert(strings_seq(lines@) =~= before.drop_last());
        }
        Doc { lines, ending, final_newline }
    }

    pub fn render(&self) -> (r: String)
        ensures
            r@ == render_spec(self@),
    {
        let mut out: Vec<char> = Vec::new();
        let ghost ls = strings_seq(self.lines@);
        let mut i: usize = 0;
        while i < self.lines.len()
            invariant
                i <= self.lines@.len(),
                ls == strings_seq(self.lines@),
                out@ == join_with(ls.take(i as int), self.ending@),
            decreases self.lines@.len() - i,
        {
            let ghost before = ls.take(i as int);
            assert(ls.take(i + 1).drop_last() =~= before);
            if i > 0 {
                push_str(&mut out, self.ending.as_str());
            }
            push_str(&mut out, self.lines[i].as_str());
            i = i + 1;
            proof {
                if i == 1 {
                    assert(out@ =~= ls.take(1)[0]);
                } else {
                    assert(out@ =~= join_with(before, self.ending@) + self.ending@ + ls.take(i as int).last());
                }
            }
        }
        assert(ls.take(ls.len() as int) =~= ls);
        if self.final_newline {
            push_str(&mut out, self.ending.as_str());
        }
        assert(out@ =~= render_spec(self@));
        chars_to_string(out.as_slice())
    }
}


/// An edit of a document.
#[derive(Debug)]
pub enum FixOp {
    ReplaceLine { line: usize, text: String },
    DeleteLines { start: usize, count: usize },
    InsertLine { at: usize, text: String },
    SetEnding { dos: bool },
    EnsureFinalNewline,
}

/// Whether a rule's fixer is safe (style-only) or unsafe.
pub open spec fn fix_is_safe_spec(rule: Seq<char>) -> bool {
    !(rule == "truthy"@ || rule == "octal-values"@ || rule == "quoted-strings"@ || rule
        == "indentation"@)
}

pub fn fix_is_safe(rule: &str) -> (r: bool)
    ensures
        r == fix_is_safe_spec(rule@),
{
    !(str_eq(rule, "truthy") || str_eq(rule, "octal-values") || str_eq(rule, "quoted-strings")
        || str_eq(rule, "indentation"))
}

/// The number of spaces that begin `s`.
pub open spec fn leading_spaces_spec(s: Seq<char>) -> int {
    run_end(s, 0, space_pred())
}

pub fn leading_spaces(s: &str) -> (r: usize)
    ensures
        r == leading_spaces_spec(s@),
{
    let v = str_chars(s);
    proof {
        lemma_run_end(v@, 0, space_pred());
    }
    skip_spaces(v.as_slice(), 0)
}

/// The line with the run of spaces around `idx` cut down to `target`
/// spaces, if that run is longer.
pub open spec fn shrink_spec(chars: Seq<char>, idx: int, target: i64) -> Option<Seq<char>> {
    if target < 0 || idx >= chars.len() || idx < 0 || chars[idx] != ' ' {
        None
    } else {
        let start = run_start(chars, idx, space_pred());
        let end = run_end(chars, idx, space_pred());
        if end - start <= target {
            None
        } else {
            Some(chars.take(start) + spaces(target as nat) + chars.skip(end))
        }
    }
}

/// The line with spaces inserted before `idx` so that `min` spaces precede
/// it, if fewer do.
pub open spec fn grow_spec(chars: Seq<char>, idx: int, min: i64) -> Option<Seq<char>> {
    if min < 0 || idx > chars.len() || idx < 0 {
        None
    } else {
        let existing = idx - run_start(chars, idx, space_pred());
        if existing >= min {
            None
        } else {
            Some(chars.take(idx) + spaces((min - existing) as nat) + chars.skip(idx))
        }
    }
}

/// Shrink the run of spaces containing the character at `idx` down to
/// `target` spaces. Returns the new line if a change was made.
pub fn shrink_space_run(chars: &[char], idx: usize, target: i64) -> (r: Option<String>)
    ensures
        match r {
            Some(t) => shrink_spec(chars@, idx as int, target) == Some(t@),
            None => shrink_spec(chars@, idx as int, target) is None,
        },
{
    if target < 0 {
        return None;
    }
    if idx >= chars.len() || chars[idx] != ' ' {
        return None;
    }
    proof {
        lemma_run_start(chars@, idx as int, space_pred());
        lemma_run_end(chars@, idx as int, space_pred());
    }
    let start = skip_spaces_back(chars, idx);
    let end = skip_spaces(chars, idx);
    if ((end - start) as u64) <= (target as u64) {
        return None;
    }
    let mut out = slice_to_vec(chars, 0, start);
    push_spaces(&mut out, target as usize);
    let tail = slice_to_vec(chars, end, chars.len());
    push_all(&mut out, tail.as_slice());
    assert(out@ =~= chars@.take(start as int) + spaces(target as nat) + chars@.skip(end as int));
    Some(chars_to_string(out.as_slice()))
}

/// Insert spaces before the character at `idx` so that `min` spaces precede
/// it.
pub fn grow_space_run(chars: &[char], idx: usize, min: i64) -> (r: Option<String>)
    requires
        grow_spec(chars@, idx as int, min) is Some ==> chars@.len() + min <= usize::MAX,
    ensures
        match r {
            Some(t) => grow_spec(chars@, idx as int, min) == Some(t@),
            None => grow_spec(chars@, idx as int, min) is None,
        },
{
    if min < 0 || idx > chars.len() {
        return None;
    }
    proof {
        lemma_run_start(chars@, idx as int, space_pred());
    }
    let start = skip_spaces_back(chars, idx);
    let existing = idx - start;
    if (existing as u64) >= (min as u64) {
        return None;
    }
    let mut out = slice_to_vec(chars, 0, idx);
    push_spaces(&mut out, (min as usize) - existing);
    let tail = slice_to_vec(chars, idx, chars.len());
    push_all(&mut out, tail.as_slice());
    assert(out@ =~= chars@.take(idx as int) + spaces((min - existing) as nat) + chars@.skip(idx as int));
    Some(chars_to_string(out.as_slice()))
}

/// Whether the run of spaces at `idx` can grow to `min` within memory: no
/// growth is needed, or the grown line's length fits in `usize`.
pub fn grow_fits(chars: &[char], idx: usize, min: i64) -> (r: bool)
    ensures
        r == (grow_spec(chars@, idx as int, min) is Some ==> chars@.len() + min <= usize::MAX),
{
    if min < 0 || idx > chars.len() {
        return true;
    }
    proof {
        lemma_run_start(chars@, idx as int, space_pred());
    }
    let start = skip_spaces_back(chars, idx);
    let existing = idx - start;
    if (existing as u64) >= (min as u64) {
        return true;
    }
    (min as u64) <= ((usize::MAX - chars.len()) as u64)
}

/// The line position that orders the structural edits.
pub open spec fn op_key(op: FixOp) -> usize {
    match op {
        FixOp::DeleteLines { start, .. } => start,
        FixOp::InsertLine { at, .. } => at,
        _ => 0,
    }
}

pub open spec fn is_structural(op: FixOp) -> bool {
    op is DeleteLines || op is InsertLine
}

/// The document while the non-structural edits are applied, with the lines
/// already replaced, the edits applied so far, and the structural edits
/// set aside.
pub struct ApplyState {
    pub doc: DocView,
    pub touched: Set<usize>,
    pub applied: int,
    pub structural: Seq<FixOp>,
}

pub open spec fn step_simple(st: ApplyState, op: FixOp) -> ApplyState {
    match op {
        FixOp::SetEnding { dos } => {
            let wanted = if dos {
                seq!['\r', '\n']
            } else {
                seq!['\n']
            };
            if st.doc.ending != wanted {
                ApplyState { doc: DocView { ending: wanted, ..st.doc }, applied: st.applied + 1, ..st }
            } else {
                st
            }
        },
        FixOp::EnsureFinalNewline => {
            if !st.doc.final_newline {
                ApplyState {
                    doc: DocView { final_newline: true, ..st.doc },
                    applied: st.applied + 1,
                    ..st
                }
            } else {
                st
            }
        },
        FixOp::ReplaceLine { line, text } => {
            let fresh = !st.touched.contains(line);
            let st2 = ApplyState { touched: st.touched.insert(line), ..st };
            if fresh && line >= 1 && line <= st.doc.lines.len() && st.doc.lines[line - 1] != text@ {
                ApplyState {
                    doc: DocView { lines: st.doc.lines.update(line - 1, text@), ..st.doc },
                    applied: st.applied + 1,
                    ..st2
                }
            } else {
                st2
            }
        },
        _ => ApplyState { structural: st.structural.push(op), ..st },
    }
}

pub open spec fn simple_fold(st: ApplyState, ops: Seq<FixOp>) -> ApplyState
    decreases ops.len(),
{
    if ops.len() == 0 {
        st
    } else {
        step_simple(simple_fold(st, ops.drop_last()), ops.last())
    }
}

/// Where a stable sort by descending position puts `op` among the sorted
/// `s`: after every edit at a position not below its own.
pub open spec fn desc_insert_pos(s: Seq<FixOp>, op: FixOp) -> int
    decreases s.len(),
{
    if s.len() == 0 {
        0
    } else if op_key(s.last()) >= op_key(op) {
        s.len() as int
    } else {
        desc_insert_pos(s.drop_last(), op)
    }
}

/// The structural edits, bottom-up: by descending position, in their
/// original order among equal positions.
pub open spec fn sort_desc(ops: Seq<FixOp>) -> Seq<FixOp>
    decreases ops.len(),
{
    if ops.len() == 0 {
        seq![]
    } else {
        let s = sort_desc(ops.drop_last());
        s.insert(desc_insert_pos(s, ops.last()), ops.last())
    }
}

pub open spec fn step_struct(lines: Seq<Seq<char>>, applied: int, op: FixOp) -> (Seq<Seq<char>>, int) {
    match op {
        FixOp::DeleteLines { start, count } => {
            if start >= 1 && start - 1 + count <= lines.len() {
                (lines.take(start - 1) + lines.skip(start - 1 + count), applied + 1)
            } else {
                (lines, applied)
            }
        },
        FixOp::InsertLine { at, text } => {
            let idx = if at - 1 < lines.len() {
                at - 1
            } else {
                lines.len() as int
            };
            (lines.insert(idx, text@), applied + 1)
        },
        _ => (lines, applied),
    }
}

pub open spec fn struct_fold(lines: Seq<Seq<char>>, applied: int, ops: Seq<FixOp>) -> (Seq<Seq<char>>, int)
    decreases ops.len(),
{
    if ops.len() == 0 {
        (lines, applied)
    } else {
        let prev = struct_fold(lines, applied, ops.drop_last());
        step_struct(prev.0, prev.1, ops.last())
    }
}

/// The document after one pass of edits, and how many of them changed it:
/// first the line replacements (one per line), the ending and the final
/// line break in order, then the deletions and insertions bottom-up.
pub open spec fn apply_ops_spec(d: DocView, ops: Seq<FixOp>) -> (DocView, int) {
    let st = simple_fold(ApplyState { doc: d, touched: Set::empty(), applied: 0, structural: seq![] }, ops);
    let r = struct_fold(st.doc.lines, st.applied, sort_desc(st.structural));
    (DocView { lines: r.0, ..st.doc }, r.1)
}

/// The edits can be carried out without overflow: insertions name a line
/// from 1 on, and deletions end within the machine's range.
pub open spec fn ops_valid(ops: Seq<FixOp>) -> bool {
    forall|i: int|
        0 <= i < ops.len() ==> match #[trigger] ops[i] {
            FixOp::DeleteLines { start, count } => start + count <= usize::MAX,
            FixOp::InsertLine { at, .. } => at >= 1,
            _ => true,
        }
}

/// The touched lines as a set.
pub open spec fn touched_set(v: Seq<usize>) -> Set<usize> {
    Set::new(|x: usize| v.contains(x))
}

fn contains_usize(v: &Vec<usize>, x: usize) -> (r: bool)
    ensures
        r == v@.contains(x),
{
    let mut i: usize = 0;
    while i < v.len()
        invariant
            i <= v@.len(),
            forall|j: int| 0 <= j < i ==> v@[j] != x,
        decreases v@.len() - i,
    {
        if v[i] == x {
            assert(v@[i as int] == x);
            return true;
        }
        i = i + 1;
    }
    false
}

proof fn lemma_strings_update(v: Seq<String>, i: int, s: String)
    requires
        0 <= i < v.len(),
    ensures
        strings_seq(v.update(i, s)) == strings_seq(v).update(i, s@),
{
    assert(strings_seq(v.update(i, s)) =~= strings_seq(v).update(i, s@));
}

/// The edits in order, taken out of `ops`.
fn in_order(ops: Vec<FixOp>) -> (r: Vec<FixOp>)
    ensures
        r@ == ops@.reverse(),
{
    let ghost all = ops@;
    let mut src = ops;
    let mut rev: Vec<FixOp> = Vec::new();
    while src.len() > 0
        invariant
            src@.len() <= all.len(),
            src@ == all.take(src@.len() as int),
            rev@ == all.skip(src@.len() as int).reverse(),
        decreases src@.len(),
    {
        let ghost before = rev@;
        let x = src.pop().unwrap();
        rev.push(x);
        proof {
            assert(all.skip(src@.len() as int) =~= seq![x] + all.skip(src@.len() as int + 1));
            assert(rev@ =~= all.skip(src@.len() as int).reverse());
            assert(src@ =~= all.take(src@.len() as int));
        }
    }
    assert(all.skip(0) =~= all);
    rev
}

/// Apply one pass worth of fix operations. Returns the number applied.
pub fn apply_ops(doc: &mut Doc, ops: Vec<FixOp>) -> (r: usize)
    requires
        ops_valid(ops@),
    ensures
        (final(doc)@, r as int) == apply_ops_spec(old(doc)@, ops@),
{
    let ghost all = ops@;
    let n = ops.len();
    assert(all.len() <= usize::MAX);
    let ghost init = ApplyState { doc: doc@, touched: Set::empty(), applied: 0, structural: seq![] };
    let mut applied: usize = 0;
    let mut touched: Vec<usize> = Vec::new();
    let mut structural: Vec<FixOp> = Vec::new();
    let mut rev = in_order(ops);
    assert(touched_set(touched@) =~= Set::<usize>::empty());
    assert(all.take(0) =~= Seq::<FixOp>::empty());
    while rev.len() > 0
        invariant
            rev@.len() <= all.len(),
            rev@.reverse() == all.skip(all.len() - rev@.len()),
            ops_valid(all),
            init.applied == 0,
            ({
                let st = simple_fold(init, all.take(all.len() - rev@.len()));
                &&& doc@ == st.doc
                &&& touched_set(touched@) == st.touched
                &&& applied as int == st.applied
                &&& structural@ == st.structural
            }),
            applied + structural@.len() <= all.len() - rev@.len(),
            all.len() <= usize::MAX,
            forall|i: int| 0 <= i < structural@.len() ==> is_structural(#[trigger] structural@[i]),
            forall|i: int|
                0 <= i < structural@.len() ==> match #[trigger] structural@[i] {
                    FixOp::DeleteLines { start, count } => start + count <= usize::MAX,
                    FixOp::InsertLine { at, .. } => at >= 1,
                    _ => true,
                },
        decreases rev@.len(),
    {
        let ghost k = all.len() - rev@.len();
        let ghost st = simple_fold(init, all.take(k));
        let ghost old_rev = rev@;
        let op = rev.pop().unwrap();
        proof {
            assert(old_rev.reverse()[0] == old_rev[old_rev.len() - 1]);
            assert(all.skip(k)[0] == all[k]);
            assert(rev@ =~= old_rev.drop_last());
            assert(rev@.reverse() =~= old_rev.reverse().skip(1));
            assert(all.skip(k + 1) =~= all.skip(k).skip(1));
            assert(rev@.reverse().len() == rev@.len());
            assert(all.take(k + 1).drop_last() =~= all.take(k));
            assert(all.skip(k) =~= seq![op] + all.skip(k + 1));
            assert(all[k] == op);
            assert(all.take(k + 1).last() == op);
        }
        match op {
            FixOp::SetEnding { dos } => {
                let wanted = if dos {
                    "\r\n"
                } else {
                    "\n"
                };
                proof {
                    reveal_strlit("\r\n");
                    reveal_strlit("\n");
                }
                if !str_eq(doc.ending.as_str(), wanted) {
                    doc.ending = wanted.to_owned();
                    applied = applied + 1;
                }
            },
            FixOp::EnsureFinalNewline => {
                if !doc.final_newline {
                    doc.final_newline = true;
                    applied = applied + 1;
                }
            },
            FixOp::ReplaceLine { line, text } => {
                let fresh = !contains_usize(&touched, line);
                let ghost old_t = touched@;
                touched.push(line);
                proof {
                    assert forall|x: usize| touched@.contains(x) <==> (old_t.contains(x) || x == line) by {
                        if old_t.contains(x) {
                            let j = choose|j: int| 0 <= j < old_t.len() && old_t[j] == x;
                            assert(touched@[j] == x);
                        }
                        if touched@.contains(x) {
                            let j = choose|j: int| 0 <= j < touched@.len() && touched@[j] == x;
                            if j < old_t.len() {
                                assert(old_t[j] == x);
                            }
                        }
                        if x == line {
                            assert(touched@[old_t.len() as int] == x);
                        }
                    }
                }
                assert(touched_set(touched@) =~= st.touched.insert(line));
                if fresh && line >= 1 && line <= doc.lines.len() && !str_eq(
                    doc.lines[line - 1].as_str(),
                    text.as_str(),
                ) {
                    let ghost old_lines = doc.lines@;
                    doc.lines.set(line - 1, text);
                    proof {
                        lemma_strings_update(old_lines, line - 1, text);
                    }
                    applied = applied + 1;
                }
            },
            FixOp::DeleteLines { start, count } => {
                structural.push(FixOp::DeleteLines { start, count });
            },
            FixOp::InsertLine { at, text } => {
                structural.push(FixOp::InsertLine { at, text });
            },
        }
        proof {
            let st2 = step_simple(st, op);
            assert(simple_fold(init, all.take(k + 1)) == st2);
            assert(doc@.lines == st2.doc.lines);
            assert(doc@.ending == st2.doc.ending);
            assert(doc@.final_newline == st2.doc.final_newline);
            assert(touched_set(touched@) == st2.touched);
            assert(applied as int == st2.applied);
            assert(structural@ == st2.structural);
        }
    }
    assert(all.take(all.len() as int) =~= all);
    let ghost st = simple_fold(init, all);
    let sorted = sort_ops(structural);
    let ghost sorted_v = sorted@;
    let mut i: usize = 0;
    let ghost lines0 = doc@.lines;
    let ghost applied0 = applied as int;
    assert(sorted_v.take(0) =~= Seq::<FixOp>::empty());
    while i < sorted.len()
        invariant
            i <= sorted@.len(),
            sorted@ == sorted_v,
            forall|j: int|
                0 <= j < sorted_v.len() ==> match #[trigger] sorted_v[j] {
                    FixOp::DeleteLines { start, count } => start + count <= usize::MAX,
                    FixOp::InsertLine { at, .. } => at >= 1,
                    _ => true,
                },
            doc@.ending == st.doc.ending,
            doc@.final_newline == st.doc.final_newline,
            (doc@.lines, applied as int) == struct_fold(lines0, applied0, sorted_v.take(i as int)),
            applied <= applied0 + i,
            applied0 + sorted_v.len() <= all.len(),
            all.len() <= usize::MAX,
        decreases sorted@.len() - i,
    {
        assert(sorted_v.take(i + 1).drop_last() =~= sorted_v.take(i as int));
        assert(sorted_v.take(i + 1).last() == sorted_v[i as int]);
        let ghost prev_lines = doc@.lines;
        match &sorted[i] {
            FixOp::DeleteLines { start, count } => {
                let start = *start;
                let count = *count;
                if start >= 1 && start - 1 + count <= doc.lines.len() {
                    let a = start - 1;
                    let ghost orig = doc.lines@;
                    let mut j: usize = 0;
                    while j < count
                        invariant
                            j <= count,
                            a + count <= orig.len(),
                            doc.lines@ == orig.take(a as int) + orig.skip(a + j),
                            doc@.ending == st.doc.ending,
                            doc@.final_newline == st.doc.final_newline,
                        decreases count - j,
                    {
                        let ghost before = doc.lines@;
                        doc.lines.remove(a);
                        j = j + 1;
                        assert(doc.lines@ =~= orig.take(a as int) + orig.skip(a + j));
                    }
                    assert(strings_seq(doc.lines@) =~= prev_lines.take(a as int) + prev_lines.skip(a + count));
                    applied = applied + 1;
                }
            },
            FixOp::InsertLine { at, text } => {
                let idx = if *at - 1 < doc.lines.len() {
                    *at - 1
                } else {
                    doc.lines.len()
                };
                let t = text.clone();
                let ghost orig = doc.lines@;
                doc.lines.insert(idx, t);
                assert(strings_seq(doc.lines@) =~= prev_lines.insert(idx as int, text@));
                applied = applied + 1;
            },
            _ => {},
        }
        i = i + 1;
    }
    assert(sorted_v.take(sorted_v.len() as int) =~= sorted_v);
    applied
}

/// A stable sort of the structural edits by descending position.
fn sort_ops(ops: Vec<FixOp>) -> (r: Vec<FixOp>)
    ensures
        r@ == sort_desc(ops@),
        r@.len() == ops@.len(),
        forall|j: int| 0 <= j < r@.len() ==> exists|k: int| 0 <= k < ops@.len() && #[trigger] r@[j] == ops@[k],
{
    let ghost all = ops@;
    let mut rev = in_order(ops);
    let mut out: Vec<FixOp> = Vec::new();
    assert(all.take(0) =~= Seq::<FixOp>::empty());
    while rev.len() > 0
        invariant
            rev@.len() <= all.len(),
            rev@.reverse() == all.skip(all.len() - rev@.len()),
            out@ == sort_desc(all.take(all.len() - rev@.len())),
            out@.len() == all.len() - rev@.len(),
            forall|j: int| 0 <= j < out@.len() ==> exists|k: int| 0 <= k < all.len() && #[trigger] out@[j] == all[k],
        decreases rev@.len(),
    {
        let ghost k = all.len() - rev@.len();
        let ghost old_rev = rev@;
        let op = rev.pop().unwrap();
        proof {
            assert(old_rev.reverse()[0] == old_rev[old_rev.len() - 1]);
            assert(all.skip(k)[0] == all[k]);
            assert(rev@ =~= old_rev.drop_last());
            assert(rev@.reverse() =~= old_rev.reverse().skip(1));
            assert(all.skip(k + 1) =~= all.skip(k).skip(1));
            assert(rev@.reverse().len() == rev@.len());
            assert(all.skip(k) =~= seq![op] + all.skip(k + 1));
            assert(all[k] == op);
            assert(all.take(k + 1).drop_last() =~= all.take(k));
            assert(all.take(k + 1).last() == op);
        }
        let key = match &op {
            FixOp::DeleteLines { start, .. } => *start,
            FixOp::InsertLine { at, .. } => *at,
            _ => 0,
        };
        let mut p = out.len();
        assert(out@.take(p as int) =~= out@);
        while p > 0 && ops_key_exec(&out[p - 1]) < key
            invariant
                p <= out@.len(),
                key == op_key(op),
                desc_insert_pos(out@.take(p as int), op) == desc_insert_pos(out@, op),
            decreases p,
        {
            assert(out@.take(p as int).drop_last() =~= out@.take(p - 1));
            p = p - 1;
        }
        proof {
            if p > 0 {
                assert(out@.take(p as int).last() == out@[p - 1]);
            }
            assert(desc_insert_pos(out@.take(p as int), op) == p);
        }
        let ghost before = out@;
        out.insert(p, op);
        proof {
            assert forall|j: int| 0 <= j < out@.len() implies exists|m: int| 0 <= m < all.len() && #[trigger] out@[j] == all[m] by {
                if j < p {
                    assert(out@[j] == before[j]);
                } else if j == p {
                    assert(out@[j] == all[k]);
                } else {
                    assert(out@[j] == before[j - 1]);
                }
            }
        }
    }
    assert(all.take(all.len() as int) =~= all);
    out
}

fn ops_key_exec(op: &FixOp) -> (r: usize)
    ensures
        r == op_key(*op),
{
    match op {
        FixOp::DeleteLines { start, .. } => *start,
        FixOp::InsertLine { at, .. } => *at,
        _ => 0,
    }
}

/// The outcome of fixing a document.
pub struct FixResult {
    pub fixed: String,
    pub changed: bool,
    /// Problems remaining after fixing.
    pub remaining: Vec<LintProblem>,
}

/// The unified diff (Myers algorithm) between two texts, line by line, with
/// `context` lines around each change and the two header names, as the
/// `similar` crate renders it.
pub uninterp spec fn diff_text(
    original: Seq<char>,
    fixed: Seq<char>,
    context: nat,
    old_name: Seq<char>,
    new_name: Seq<char>,
) -> Seq<char>;

/// `similar::udiff::unified_diff` with the Myers algorithm and a header.
#[verifier::external_body]
fn similar_unified_diff(original: &str, fixed: &str, context: usize, old_name: &str, new_name: &str) -> (r: String)
    ensures
        r@ == diff_text(original@, fixed@, context as nat, old_name@, new_name@),
{
    similar::udiff::unified_diff(
        similar::Algorithm::Myers,
        original,
        fixed,
        context,
        Some((old_name, new_name)),
    )
}

/// Produce a unified diff between original and fixed content, with three
/// lines of context and the path under `a/` and `b/` in the header.
pub fn unified_diff(path: &str, original: &str, fixed: &str) -> (r: String)
    ensures
        r@ == diff_text(original@, fixed@, 3, "a/"@ + path@, "b/"@ + path@),
{
    let mut a: Vec<char> = Vec::new();
    push_str(&mut a, "a/");
    push_str(&mut a, path);
    let mut b: Vec<char> = Vec::new();
    push_str(&mut b, "b/");
    push_str(&mut b, path);
    let an = chars_to_string(a.as_slice());
    let bn = chars_to_string(b.as_slice());
    similar_unified_diff(original, fixed, 3, an.as_str(), bn.as_str())
}

proof fn lemma_simple_fold_mono(st: ApplyState, ops: Seq<FixOp>)
    ensures
        simple_fold(st, ops).applied >= st.applied,
        simple_fold(st, ops).applied == st.applied ==> simple_fold(st, ops).doc == st.doc,
    decreases ops.len(),
{
    if ops.len() > 0 {
        lemma_simple_fold_mono(st, ops.drop_last());
    }
}

proof fn lemma_struct_fold_mono(lines: Seq<Seq<char>>, applied: int, ops: Seq<FixOp>)
    ensures
        struct_fold(lines, applied, ops).1 >= applied,
        struct_fold(lines, applied, ops).1 == applied ==> struct_fold(lines, applied, ops).0 == lines,
    decreases ops.len(),
{
    if ops.len() > 0 {
        lemma_struct_fold_mono(lines, applied, ops.drop_last());
    }
}

/// A pass whose edits change nothing reports none applied, and a pass that
/// reports none applied leaves the document as it was.
pub proof fn lemma_nothing_applied_unchanged(d: DocView, ops: Seq<FixOp>)
    ensures
        apply_ops_spec(d, ops).1 >= 0,
        apply_ops_spec(d, ops).1 == 0 ==> apply_ops_spec(d, ops).0 == d,
{
    let init = ApplyState { doc: d, touched: Set::empty(), applied: 0, structural: seq![] };
    let st = simple_fold(init, ops);
    lemma_simple_fold_mono(init, ops);
    lemma_struct_fold_mono(st.doc.lines, st.applied, sort_desc(st.structural));
}

} // verus!
