//! The pieces of the linting pipeline: problems, physical lines, comments
//! between tokens, and the merge of the token/comment and line streams.

use vstd::prelude::*;
use crate::pyyaml::error::{Mark, YamlError};
use crate::pyyaml::parser::Parser;
use crate::pyyaml::scanner::{Scanner, buffer_of, error_in, lemma_position_bounds, mark_in, position, token_in};
use crate::pyyaml::tokens::{Token, TokenKind};
use crate::text::{max_text_len, str_chars, trim_end, trim_end_chars};
use crate::pyyaml::resolver::{regex_is_match, regex_match};
use crate::text::{chars_to_string, find_char_from, lemma_find_char_from, push_str};
use crate::diagnostic::{Diagnostic, Severity, SpecDiagnostic};
use crate::rule::str_eq;

verus! {

#[derive(Debug, Clone, Copy, PartialEq, Eq, Structural)]
pub enum Level {
    Warning,
    Error,
}

pub open spec fn level_text(l: Level) -> Seq<char> {
    match l {
        Level::Warning => "warning"@,
        Level::Error => "error"@,
    }
}

impl Level {
    pub fn as_str(self) -> (r: &'static str)
        ensures
            r@ == level_text(self),
    {
        match self {
            Level::Warning => "warning",
            Level::Error => "error",
        }
    }
}

#[derive(Debug, Clone)]
pub struct LintProblem {
    /// Line on which the problem was found (starting at 1).
    pub line: usize,
    /// Column on which the problem was found (starting at 1).
    pub column: usize,
    /// Human-readable description of the problem.
    pub desc: String,
    /// Identifier of the rule that detected the problem.
    pub rule: Option<&'static str>,
    pub level: Level,
}

/// The message of a problem: its description, followed by the rule in
/// parentheses when a rule found it.
pub open spec fn problem_message(desc: Seq<char>, rule: Option<Seq<char>>) -> Seq<char> {
    match rule {
        Some(r) => desc + " ("@ + r + ")"@,
        None => desc,
    }
}

pub open spec fn rule_view(rule: Option<&'static str>) -> Option<Seq<char>> {
    match rule {
        Some(r) => Some(r@),
        None => None,
    }
}

impl LintProblem {
    pub fn message(&self) -> (r: String)
        ensures
            r@ == problem_message(self.desc@, rule_view(self.rule)),
    {
        match self.rule {
            Some(rule) => {
                let mut v: Vec<char> = Vec::new();
                push_str(&mut v, self.desc.as_str());
                push_str(&mut v, " (");
                push_str(&mut v, rule);
                push_str(&mut v, ")");
                chars_to_string(v.as_slice())
            },
            None => self.desc.clone(),
        }
    }
}

/// A physical line; `start`/`end` are character indices into the buffer
/// (excluding the trailing `'\0'` sentinel and the line break).
#[derive(Debug, Clone, Copy, PartialEq, Eq, Structural)]
pub struct Line {
    pub line_no: usize,
    pub start: usize,
    pub end: usize,
}

impl Line {
    pub fn content<'a>(&self, buffer: &'a [char]) -> (r: &'a [char])
        requires
            self.start <= self.end <= buffer@.len(),
        ensures
            r@ == buffer@.subrange(self.start as int, self.end as int),
    {
        vstd::slice::slice_subrange(buffer, self.start, self.end)
    }
}

/// A comment found between tokens.
#[derive(Debug, Clone)]
pub struct Comment {
    pub line_no: usize,
    /// 1-based column.
    pub column_no: usize,
    /// Character index of the `#` in the buffer.
    pub pointer: usize,
    pub token_before: Option<Token>,
    pub token_after: Option<Token>,
    /// (column_no, is_inline) of the previous comment in the same gap.
    pub comment_before: Option<(usize, bool)>,
}

/// The end of the comment that starts at `i`: the first line break or
/// `'\0'` from `i` on, or the end of the buffer.
pub open spec fn comment_end(b: Seq<char>, i: int) -> int
    decreases b.len() - i,
{
    if i >= b.len() || b[i] == '\n' || b[i] == '\0' {
        i
    } else {
        comment_end(b, i + 1)
    }
}

proof fn lemma_comment_end(b: Seq<char>, i: int)
    requires
        0 <= i <= b.len(),
    ensures
        i <= comment_end(b, i) <= b.len(),
    decreases b.len() - i,
{
    if i < b.len() && b[i] != '\n' && b[i] != '\0' {
        lemma_comment_end(b, i + 1);
    }
}

/// Whether a comment of line `line_no` after `before` sits on the line of
/// that token (an inline comment).
pub open spec fn comment_inline(line_no: usize, before: Option<Token>, b: Seq<char>) -> bool {
    match before {
        Some(t) => !(t.kind is StreamStart) && line_no == t.end_mark.line + 1 && (
        t.end_mark.pointer == 0 || b[t.end_mark.pointer - 1] != '\n'),
        None => false,
    }
}

/// The buffer can be read where `comment_inline` reads it.
pub open spec fn inline_readable(line_no: usize, before: Option<Token>, b: Seq<char>) -> bool {
    match before {
        Some(t) => !(t.kind is StreamStart) ==> (t.end_mark.line < usize::MAX && (line_no
            == t.end_mark.line + 1 && t.end_mark.pointer != 0 ==> t.end_mark.pointer <= b.len())),
        None => true,
    }
}

impl Comment {
    /// The comment text from `#` to the end of the line.
    pub fn text(&self, buffer: &[char]) -> (r: String)
        requires
            self.pointer <= buffer@.len(),
        ensures
            r@ == buffer@.subrange(self.pointer as int, comment_end(buffer@, self.pointer as int)),
    {
        let mut end = self.pointer;
        while end < buffer.len() && buffer[end] != '\n' && buffer[end] != '\0'
            invariant
                self.pointer <= end <= buffer@.len(),
                comment_end(buffer@, end as int) == comment_end(buffer@, self.pointer as int),
            decreases buffer@.len() - end,
        {
            end = end + 1;
        }
        chars_to_string(vstd::slice::slice_subrange(buffer, self.pointer, end))
    }

    pub fn is_inline(&self, buffer: &[char]) -> (r: bool)
        requires
            inline_readable(self.line_no, self.token_before, buffer@),
        ensures
            r == comment_inline(self.line_no, self.token_before, buffer@),
    {
        match &self.token_before {
            Some(token) => {
                match token.kind {
                    TokenKind::StreamStart => false,
                    _ => self.line_no == token.end_mark.line + 1 && (token.end_mark.pointer == 0
                        || buffer[token.end_mark.pointer - 1] != '\n'),
                }
            },
            None => false,
        }
    }
}

/// A token together with its neighbors, as passed to token rules.
#[derive(Debug, Clone)]
pub struct TokenElem {
    pub line_no: usize,
    pub curr: Token,
    pub prev: Option<Token>,
    pub next: Option<Token>,
    pub nextnext: Option<Token>,
}

#[derive(Debug, Clone)]
pub enum Elem {
    Token(TokenElem),
    Comment(Comment),
    Line(Line),
}

pub open spec fn elem_line_no(e: Elem) -> usize {
    match e {
        Elem::Token(t) => t.line_no,
        Elem::Comment(c) => c.line_no,
        Elem::Line(l) => l.line_no,
    }
}

impl Elem {
    fn line_no(&self) -> (r: usize)
        ensures
            r == elem_line_no(*self),
    {
        match self {
            Elem::Token(t) => t.line_no,
            Elem::Comment(c) => c.line_no,
            Elem::Line(l) => l.line_no,
        }
    }
}

/// The physical lines of `b[cur..raw]`, numbered from `line_no`: each ends
/// before a `\n` (and before a `\r` in front of it); the last one ends at
/// `raw`.
pub open spec fn lines_from(b: Seq<char>, raw: int, cur: int, line_no: int) -> Seq<Line>
    decreases raw - cur + 1,
{
    if cur < 0 || cur > raw || raw > b.len() {
        seq![]
    } else {
        let k = find_char_from(b.take(raw), cur, '\n');
        proof {
            lemma_find_char_from(b.take(raw), cur, '\n');
        }
        if k < raw {
            let end = if k > 0 && b[k - 1] == '\r' {
                k - 1
            } else {
                k
            };
            seq![Line { line_no: line_no as usize, start: cur as usize, end: end as usize }]
                + lines_from(b, raw, k + 1, line_no + 1)
        } else {
            seq![Line { line_no: line_no as usize, start: cur as usize, end: raw as usize }]
        }
    }
}

/// The length of the buffer without its trailing sentinel.
pub open spec fn raw_len(b: Seq<char>) -> int {
    if b.len() == 0 {
        0
    } else {
        b.len() - 1
    }
}

/// The physical lines of a buffer that ends with a `'\0'` sentinel.
pub open spec fn lines_of_buffer(b: Seq<char>) -> Seq<Line> {
    lines_from(b, raw_len(b), 0, 1)
}

pub fn line_generator(buffer: &[char]) -> (r: Vec<Line>)
    ensures
        r@ == lines_of_buffer(buffer@),
{
    let raw = if buffer.len() == 0 {
        0
    } else {
        buffer.len() - 1
    };
    let ghost b = buffer@;
    let ghost s = b.take(raw as int);
    let mut lines: Vec<Line> = Vec::new();
    let mut line_no: usize = 1;
    let mut cur: usize = 0;
    loop
        invariant
            raw as int == raw_len(b),
            raw <= buffer@.len(),
            b == buffer@,
            s == b.take(raw as int),
            cur <= raw,
            line_no == lines@.len() + 1,
            lines@.len() <= cur,
            lines@ + lines_from(b, raw as int, cur as int, line_no as int) == lines_of_buffer(b),
        decreases raw - cur + 1,
    {
        proof {
            lemma_find_char_from(s, cur as int, '\n');
        }
        let mut k = cur;
        while k < raw && buffer[k] != '\n'
            invariant
                cur <= k <= raw,
                raw <= buffer@.len(),
                s == b.take(raw as int),
                b == buffer@,
                find_char_from(s, k as int, '\n') == find_char_from(s, cur as int, '\n'),
            decreases raw - k,
        {
            k = k + 1;
        }
        let ghost rest = lines_from(b, raw as int, cur as int, line_no as int);
        if k < raw {
            let end = if k > 0 && buffer[k - 1] == '\r' {
                k - 1
            } else {
                k
            };
            let l = Line { line_no, start: cur, end };
            let ghost before = lines@;
            lines.push(l);
            proof {
                assert(rest == seq![l] + lines_from(b, raw as int, k + 1, line_no + 1));
                assert(lines@ + lines_from(b, raw as int, k + 1, line_no + 1) =~= before + rest);
            }
            cur = k + 1;
            line_no = line_no + 1;
        } else {
            let l = Line { line_no, start: cur, end: raw };
            let ghost before = lines@;
            lines.push(l);
            proof {
                assert(rest == seq![l]);
                assert(lines@ =~= before + rest);
            }
            return lines;
        }
    }
}

/// Interleave the token/comment stream with the lines: before each element,
/// the lines with a smaller number come first (tokens first on ties).
pub open spec fn merge_spec(toks: Seq<Elem>, lines: Seq<Line>) -> Seq<Elem>
    decreases toks.len() + lines.len(),
{
    if lines.len() > 0 && (toks.len() == 0 || elem_line_no(toks[0]) > lines[0].line_no) {
        seq![Elem::Line(lines[0])] + merge_spec(toks, lines.drop_first())
    } else if toks.len() > 0 {
        seq![toks[0]] + merge_spec(toks.drop_first(), lines)
    } else {
        seq![]
    }
}

/// Mixes tokens/comments and lines, ordered by line number (tokens first on
/// ties).
pub fn merge_lines(tok_or_com: Vec<Elem>, lines: &Vec<Line>) -> (r: Vec<Elem>)
    ensures
        r@ == merge_spec(tok_or_com@, lines@),
{
    let ghost all = tok_or_com@;
    let mut src = tok_or_com;
    let mut toks: Vec<Elem> = Vec::new();
    while src.len() > 0
        invariant
            src@.len() <= all.len(),
            src@ == all.take(src@.len() as int),
            toks@.reverse() == all.skip(src@.len() as int),
        decreases src@.len(),
    {
        let ghost before = toks@;
        let x = src.pop().unwrap();
        toks.push(x);
        proof {
            assert(toks@.reverse() =~= seq![x] + before.reverse());
            assert(all.skip(src@.len() as int) =~= seq![x] + all.skip(src@.len() as int + 1));
            assert(src@ =~= all.take(src@.len() as int));
        }
    }
    assert(toks@.len() == all.len()) by {
        assert(toks@.reverse().len() == toks@.len());
    }
    let mut merged: Vec<Elem> = Vec::new();
    let mut li: usize = 0;
    assert(all.skip(all.len() - toks@.len()) =~= all);
    assert(lines@.skip(0) =~= lines@);
    assert(merged@ + merge_spec(all, lines@) =~= merge_spec(all, lines@));
    loop
        invariant
            all == tok_or_com@,
            li <= lines@.len(),
            toks@.len() <= all.len(),
            toks@.reverse() == all.skip(all.len() - toks@.len()),
            merged@ + merge_spec(all.skip(all.len() - toks@.len()), lines@.skip(li as int))
                == merge_spec(all, lines@),
        decreases toks@.len() + lines@.len() - li,
    {
        let ghost ts = all.skip(all.len() - toks@.len());
        let ghost ls = lines@.skip(li as int);
        let take_line = if toks.len() == 0 {
            li < lines.len()
        } else {
            li < lines.len() && toks[toks.len() - 1].line_no() > lines[li].line_no
        };
        proof {
            if toks@.len() > 0 {
                assert(ts[0] == toks@.reverse()[0]);
                assert(toks@.reverse()[0] == toks@[toks@.len() - 1]);
            }
            if li < lines@.len() {
                assert(ls[0] == lines@[li as int]);
            }
        }
        if take_line {
            let ghost before = merged@;
            merged.push(Elem::Line(lines[li]));
            proof {
                assert(ls.drop_first() =~= lines@.skip(li + 1));
                assert(merged@ + merge_spec(ts, lines@.skip(li + 1)) =~= before + merge_spec(ts, ls));
            }
            li = li + 1;
        } else {
            match toks.pop() {
                Some(t) => {
                    let ghost before = merged@;
                    merged.push(t);
                    proof {
                        let ts2 = all.skip(all.len() - toks@.len());
                        assert(ts.drop_first() =~= ts2);
                        assert(toks@.reverse() =~= ts2);
                        assert(merged@ + merge_spec(ts2, ls) =~= before + merge_spec(ts, ls));
                    }
                },
                None => {
                    proof {
                        assert(ts.len() == 0);
                        assert(ls.len() == 0);
                        assert(merge_spec(ts, ls) == Seq::<Elem>::empty());
                        assert(merged@ =~= merge_spec(all, lines@));
                    }
                    return merged;
                },
            }
        }
    }
}

/// Merging keeps every token, comment and line: the output holds as many
/// elements as the two inputs together.
pub proof fn lemma_merge_len(toks: Seq<Elem>, lines: Seq<Line>)
    ensures
        merge_spec(toks, lines).len() == toks.len() + lines.len(),
    decreases toks.len() + lines.len(),
{
    if lines.len() > 0 && (toks.len() == 0 || elem_line_no(toks[0]) > lines[0].line_no) {
        lemma_merge_len(toks, lines.drop_first());
    } else if toks.len() > 0 {
        lemma_merge_len(toks.drop_first(), lines);
    }
}


// --- Comments between tokens ----------------------------------------------------

/// The comments of `b[i..end]`: the first `#` of each line part makes a
/// comment; `seg_start` and `seg_col` are where the current line part
/// starts and its column, `found` whether it had its comment already.
pub open spec fn gap_from(
    b: Seq<char>,
    i: int,
    end: int,
    line_no: int,
    seg_start: int,
    seg_col: int,
    found: bool,
    before: Option<(usize, bool)>,
    t1: Token,
    t2: Option<Token>,
) -> Seq<Elem>
    decreases end - i,
{
    if i >= end {
        seq![]
    } else if b[i] == '\n' {
        gap_from(b, i + 1, end, line_no + 1, i + 1, 1, false, before, t1, t2)
    } else if b[i] == '#' && !found {
        let col = (seg_col + (i - seg_start)) as usize;
        let c = Comment {
            line_no: line_no as usize,
            column_no: col,
            pointer: i as usize,
            token_before: Some(t1),
            token_after: t2,
            comment_before: before,
        };
        seq![Elem::Comment(c)] + gap_from(
            b,
            i + 1,
            end,
            line_no,
            seg_start,
            seg_col,
            true,
            Some((col, comment_inline(line_no as usize, Some(t1), b))),
            t1,
            t2,
        )
    } else {
        gap_from(b, i + 1, end, line_no, seg_start, seg_col, found, before, t1, t2)
    }
}

/// The comments between `t1` and `t2` (or the end of the buffer): none
/// when both tokens are on one line (stream start and end aside).
pub open spec fn comments_between(t1: Token, t2: Option<Token>, b: Seq<char>) -> Seq<Elem> {
    match t2 {
        Some(t) => if t1.end_mark.line == t.start_mark.line && !(t1.kind is StreamStart) && !(
        t.kind is StreamEnd) {
            seq![]
        } else {
            gap_from(
                b,
                t1.end_mark.pointer as int,
                t.start_mark.pointer as int,
                t1.end_mark.line + 1,
                t1.end_mark.pointer as int,
                t1.end_mark.column + 1,
                false,
                None,
                t1,
                t2,
            )
        },
        None => gap_from(
            b,
            t1.end_mark.pointer as int,
            b.len() as int,
            t1.end_mark.line + 1,
            t1.end_mark.pointer as int,
            t1.end_mark.column + 1,
            false,
            None,
            t1,
            t2,
        ),
    }
}

fn clone_opt_token(t: Option<&Token>) -> (r: Option<Token>)
    ensures
        r == (match t {
            Some(x) => Some(*x),
            None => None::<Token>,
        }),
{
    match t {
        Some(x) => Some(x.duplicate()),
        None => None,
    }
}

/// Append the comments between `token1` and `token2` to `out`.
pub fn comments_between_tokens(
    token1: &Token,
    token2: Option<&Token>,
    buffer: &[char],
    out: &mut Vec<Elem>,
)
    requires
        buffer@.len() <= max_text_len() + 1,
        token_in(buffer@, *token1),
        token2 matches Some(t) ==> token_in(buffer@, *t) && token1.end_mark.pointer
            <= t.start_mark.pointer,
    ensures
        final(out)@ == old(out)@ + comments_between(*token1, match token2 {
            Some(t) => Some(*t),
            None => None::<Token>,
        }, buffer@),
{
    let ghost t2v = match token2 {
        Some(t) => Some(*t),
        None => None::<Token>,
    };
    let buf_end: usize = match token2 {
        None => buffer.len(),
        Some(t2) => {
            if token1.end_mark.line == t2.start_mark.line && !matches!(
                token1.kind,
                TokenKind::StreamStart
            ) && !matches!(t2.kind, TokenKind::StreamEnd) {
                return ;
            }
            t2.start_mark.pointer
        },
    };
    proof {
        lemma_position_bounds(buffer@, token1.end_mark.pointer as nat);
    }
    let buf_start = token1.end_mark.pointer;
    let mut line_no = token1.end_mark.line + 1;
    let mut seg_start = buf_start;
    let mut seg_col = token1.end_mark.column + 1;
    let mut found = false;
    let mut before: Option<(usize, bool)> = None;
    let ghost total = old(out)@ + comments_between(*token1, t2v, buffer@);
    let mut i = buf_start;
    while i < buf_end
        invariant
            buffer@.len() <= max_text_len() + 1,
            token_in(buffer@, *token1),
            buf_start <= seg_start <= i <= buf_end <= buffer@.len(),
            line_no <= token1.end_mark.line + 1 + i,
            token1.end_mark.line <= token1.end_mark.pointer,
            seg_col <= token1.end_mark.column + 1,
            token1.end_mark.column <= token1.end_mark.pointer,
            before matches Some(p) ==> p.0 <= token1.end_mark.column + 1 + buffer@.len(),
            t2v == (match token2 {
                Some(t) => Some(*t),
                None => None::<Token>,
            }),
            out@ + gap_from(
                buffer@,
                i as int,
                buf_end as int,
                line_no as int,
                seg_start as int,
                seg_col as int,
                found,
                before,
                *token1,
                t2v,
            ) == total,
        decreases buf_end - i,
    {
        let c = buffer[i];
        if c == '\n' {
            line_no = line_no + 1;
            seg_start = i + 1;
            seg_col = 1;
            found = false;
        } else if c == '#' && !found {
            let comment = Comment {
                line_no,
                column_no: seg_col + (i - seg_start),
                pointer: i,
                token_before: Some(token1.duplicate()),
                token_after: clone_opt_token(token2),
                comment_before: before,
            };
            let col = comment.column_no;
            let inline = comment.is_inline(buffer);
            let ghost pre = out@;
            let ghost gc = comment;
            out.push(Elem::Comment(comment));
            proof {
                assert(out@ == pre + seq![Elem::Comment(gc)]);
                let rest = gap_from(
                    buffer@,
                    i + 1,
                    buf_end as int,
                    line_no as int,
                    seg_start as int,
                    seg_col as int,
                    true,
                    Some((col, inline)),
                    *token1,
                    t2v,
                );
                let sc = Comment {
                    line_no: line_no as usize,
                    column_no: (seg_col + (i - seg_start)) as usize,
                    pointer: i as usize,
                    token_before: Some(*token1),
                    token_after: t2v,
                    comment_before: before,
                };
                assert(sc.line_no == gc.line_no);
                assert(sc.column_no == gc.column_no);
                assert(sc.pointer == gc.pointer);
                assert(sc.token_before == gc.token_before);
                assert(sc.token_after == gc.token_after);
                assert(sc.comment_before == gc.comment_before);
                assert(sc == gc);
                assert(buffer@[i as int] == '#');
                assert(gap_from(
                    buffer@,
                    i as int,
                    buf_end as int,
                    line_no as int,
                    seg_start as int,
                    seg_col as int,
                    found,
                    before,
                    *token1,
                    t2v,
                ) == seq![Elem::Comment(sc)] + rest);
                assert(out@ + rest =~= pre + (seq![Elem::Comment(gc)] + rest));
            }
            before = Some((col, inline));
            found = true;
        }
        i = i + 1;
    }
}

/// The token `te.curr` comes no later than the token after it.
pub open spec fn in_order(te: TokenElem) -> bool {
    te.next matches Some(n) ==> te.curr.end_mark.pointer <= n.start_mark.pointer
}

/// A token followed by the comments between it and the next token.
pub open spec fn token_block(te: TokenElem, b: Seq<char>) -> Seq<Elem> {
    seq![Elem::Token(te)] + if in_order(te) {
        comments_between(te.curr, te.next, b)
    } else {
        seq![]
    }
}

/// The blocks of the tokens `tes`, in order.
pub open spec fn blocks(tes: Seq<TokenElem>, b: Seq<char>) -> Seq<Elem>
    decreases tes.len(),
{
    if tes.len() == 0 {
        seq![]
    } else {
        blocks(tes.drop_last(), b) + token_block(tes.last(), b)
    }
}

/// Consecutive tokens: the first is the stream start at the buffer's start
/// with no token before it, and each token's neighbours are the tokens
/// around it.
pub open spec fn chained(tes: Seq<TokenElem>) -> bool {
    &&& tes.len() > 0 ==> tes[0].prev is None && tes[0].curr.kind is StreamStart
        && tes[0].curr.start_mark == (Mark { pointer: 0, line: 0, column: 0 })
    &&& forall|k: int|
        0 < k < tes.len() ==> (#[trigger] tes[k]).prev == Some(tes[k - 1].curr) && tes[k - 1].next == Some(
            tes[k].curr,
        )
}

/// What the token-and-comment generator yields from the buffer `b`: the
/// blocks of chained tokens, each on its line.
pub open spec fn generated(elems: Seq<Elem>, b: Seq<char>) -> bool {
    exists|tes: Seq<TokenElem>|
        #[trigger] blocks(tes, b) == elems && chained(tes) && forall|k: int|
            0 <= k < tes.len() ==> (#[trigger] tes[k]).line_no == tes[k].curr.start_mark.line + 1
                && token_in(b, tes[k].curr)
}

/// Tokens, each with its neighbors, and the comments between them, as
/// scanned from `content`; a scanner error ends the stream. Also the
/// scanned buffer.
pub fn token_or_comment_generator(content: &str) -> (r: (Vec<Elem>, Vec<char>))
    requires
        content@.len() <= max_text_len(),
    ensures
        r.1@ == buffer_of(content@),
        forall|i: int|
            0 <= i < r.0@.len() ==> match #[trigger] r.0@[i] {
                Elem::Token(te) => te.line_no == te.curr.start_mark.line + 1 && token_in(
                    r.1@,
                    te.curr,
                ),
                Elem::Comment(c) => c.pointer < r.1@.len() && r.1@[c.pointer as int] == '#',
                Elem::Line(_) => false,
            },
        r.0@.len() > 0 ==> (r.0@[0] matches Elem::Token(te) && te.curr.kind is StreamStart
            && te.curr.start_mark == (Mark { pointer: 0, line: 0, column: 0 }) && te.prev is None),
        generated(r.0@, r.1@),
{
    let mut scanner = Scanner::new(content);
    let ghost first = scanner.queued()[0];
    let ghost mut tes: Seq<TokenElem> = seq![];
    let mut elems: Vec<Elem> = Vec::new();
    let mut prev: Option<Token> = None;
    let mut curr: Option<Token> = match scanner.get_token() {
        Ok(t) => t,
        Err(_) => None,
    };
    loop
        invariant
            first.kind is StreamStart,
            first.start_mark == (Mark { pointer: 0, line: 0, column: 0 }),
            elems@.len() == 0 ==> prev is None && (curr matches Some(t) ==> t == first),
            elems@ == blocks(tes, scanner.buffer_view()),
            chained(tes),
            tes.len() == 0 ==> elems@.len() == 0,
            tes.len() > 0 ==> prev == Some(tes.last().curr) && tes.last().next == curr,
            forall|k: int|
                0 <= k < tes.len() ==> (#[trigger] tes[k]).line_no == tes[k].curr.start_mark.line + 1
                    && token_in(scanner.buffer_view(), tes[k].curr),
            elems@.len() > 0 ==> (elems@[0] matches Elem::Token(te) && te.curr.kind is StreamStart
                && te.curr.start_mark == (Mark { pointer: 0, line: 0, column: 0 }) && te.prev is None),
            scanner.valid(),
            scanner.buffer_view() == buffer_of(content@),
            scanner.taken() <= 4 * scanner.buffer_view().len() + 2,
            curr matches Some(t) ==> token_in(scanner.buffer_view(), t),
            forall|i: int|
                0 <= i < elems@.len() ==> match #[trigger] elems@[i] {
                    Elem::Token(te) => te.line_no == te.curr.start_mark.line + 1 && token_in(
                        scanner.buffer_view(),
                        te.curr,
                    ),
                    Elem::Comment(c) => c.pointer < scanner.buffer_view().len()
                        && scanner.buffer_view()[c.pointer as int] == '#',
                    Elem::Line(_) => false,
                },
        decreases 4 * scanner.buffer_view().len() + 3 - scanner.taken() + (if curr is Some {
            1int
        } else {
            0
        }),
    {
        let curr_token = match curr {
            Some(t) => t,
            None => {
                break ;
            },
        };
        let next = match scanner.get_token() {
            Ok(t) => t,
            Err(_) => {
                break ;
            },
        };
        let nextnext = match scanner.peek_token_cloned() {
            Ok(t) => t,
            Err(_) => {
                break ;
            },
        };
        proof {
            scanner.lemma_valid_buffer();
            lemma_position_bounds(scanner.buffer_view(), curr_token.start_mark.pointer as nat);
        }
        let ghost pre = elems@;
        let te_val = TokenElem {
            line_no: curr_token.start_mark.line + 1,
            curr: curr_token.duplicate(),
            prev: prev,
            next: clone_opt_token(next.as_ref()),
            nextnext,
        };
        let ghost te = te_val;
        let ghost tes_before = tes;
        let ghost b = scanner.buffer_view();
        elems.push(Elem::Token(te_val));
        proof {
            tes = tes.push(te);
            assert(tes.drop_last() =~= tes_before);
            assert(tes.last() == te);
            assert(forall|k: int| 0 <= k < tes_before.len() ==> tes[k] == tes_before[k]);
            if tes_before.len() > 0 {
                assert(tes[tes.len() - 2] == tes_before.last());
            }
        }
        let ok_order = match &next {
            Some(n) => curr_token.end_mark.pointer <= n.start_mark.pointer,
            None => true,
        };
        assert(ok_order == in_order(te));
        if ok_order {
            let ghost mid = elems@;
            comments_between_tokens(&curr_token, next.as_ref(), scanner.buffer(), &mut elems);
            proof {
                let added = comments_between(curr_token, next, scanner.buffer_view());
                lemma_comments_between(curr_token, next, scanner.buffer_view());
                assert forall|i: int| 0 <= i < elems@.len() implies match #[trigger] elems@[i] {
                    Elem::Token(te) => te.line_no == te.curr.start_mark.line + 1 && token_in(
                        scanner.buffer_view(),
                        te.curr,
                    ),
                    Elem::Comment(c) => c.pointer < scanner.buffer_view().len()
                        && scanner.buffer_view()[c.pointer as int] == '#',
                    Elem::Line(_) => false,
                } by {
                    if i < mid.len() {
                        assert(elems@[i] == mid[i]);
                    } else {
                        assert(elems@[i] == added[i - mid.len()]);
                    }
                }
            }
        }
        proof {
            assert(elems@ =~= blocks(tes_before, b) + token_block(te, b));
        }
        prev = Some(curr_token);
        curr = next;
    }
    let ghost b = scanner.buffer_view();
    let buffer = scanner.into_buffer();
    assert(blocks(tes, buffer@) == elems@ && chained(tes));
    (elems, buffer)
}

/// `e` is a comment whose `#` is at its pointer.
pub open spec fn is_hash_comment(e: Elem, b: Seq<char>) -> bool {
    match e {
        Elem::Comment(c) => c.pointer < b.len() && b[c.pointer as int] == '#',
        _ => false,
    }
}

/// Every comment between two tokens has its `#` at its pointer.
proof fn lemma_comments_between(t1: Token, t2: Option<Token>, b: Seq<char>)
    requires
        t1.end_mark.pointer <= b.len(),
        b.len() <= usize::MAX,
        t2 matches Some(t) ==> t1.end_mark.pointer <= t.start_mark.pointer <= b.len(),
    ensures
        forall|k: int|
            0 <= k < comments_between(t1, t2, b).len() ==> is_hash_comment(
                #[trigger] comments_between(t1, t2, b)[k],
                b,
            ),
{
    let end = match t2 {
        Some(t) => t.start_mark.pointer as int,
        None => b.len() as int,
    };
    lemma_gap_from(
        b,
        t1.end_mark.pointer as int,
        end,
        t1.end_mark.line + 1,
        t1.end_mark.pointer as int,
        t1.end_mark.column + 1,
        false,
        None,
        t1,
        t2,
    );
}

proof fn lemma_gap_from(
    b: Seq<char>,
    i: int,
    end: int,
    line_no: int,
    seg_start: int,
    seg_col: int,
    found: bool,
    before: Option<(usize, bool)>,
    t1: Token,
    t2: Option<Token>,
)
    requires
        0 <= i,
        end <= b.len(),
        b.len() <= usize::MAX,
    ensures
        forall|k: int|
            0 <= k < gap_from(b, i, end, line_no, seg_start, seg_col, found, before, t1, t2).len()
                ==> is_hash_comment(
                #[trigger] gap_from(b, i, end, line_no, seg_start, seg_col, found, before, t1, t2)[k],
                b,
            ),
    decreases end - i,
{
    if i < end {
        if b[i] == '\n' {
            lemma_gap_from(b, i + 1, end, line_no + 1, i + 1, 1, false, before, t1, t2);
            assert(gap_from(b, i, end, line_no, seg_start, seg_col, found, before, t1, t2)
                == gap_from(b, i + 1, end, line_no + 1, i + 1, 1, false, before, t1, t2));
        } else if b[i] == '#' && !found {
            let col = (seg_col + (i - seg_start)) as usize;
            lemma_gap_from(
                b,
                i + 1,
                end,
                line_no,
                seg_start,
                seg_col,
                true,
                Some((col, comment_inline(line_no as usize, Some(t1), b))),
                t1,
                t2,
            );
            let rest = gap_from(
                b,
                i + 1,
                end,
                line_no,
                seg_start,
                seg_col,
                true,
                Some((col, comment_inline(line_no as usize, Some(t1), b))),
                t1,
                t2,
            );
            let all = gap_from(b, i, end, line_no, seg_start, seg_col, found, before, t1, t2);
            assert forall|k: int| 0 <= k < all.len() implies is_hash_comment(#[trigger] all[k], b) by {
                if k > 0 {
                    assert(all[k] == rest[k - 1]);
                }
            }
        } else {
            lemma_gap_from(b, i + 1, end, line_no, seg_start, seg_col, found, before, t1, t2);
            assert(gap_from(b, i, end, line_no, seg_start, seg_col, found, before, t1, t2)
                == gap_from(b, i + 1, end, line_no, seg_start, seg_col, found, before, t1, t2));
        }
    }
}

/// Tokens, comments and lines of `content`, ordered by line (tokens and
/// comments first on a line), and the scanned buffer.
pub fn token_or_comment_or_line_generator(content: &str) -> (r: (Vec<Elem>, Vec<char>))
    requires
        content@.len() <= max_text_len(),
    ensures
        r.1@ == buffer_of(content@),
        exists|toks: Seq<Elem>|
            r.0@ == merge_spec(toks, lines_of_buffer(r.1@)) && #[trigger] generated(toks, r.1@),
{
    let (tok_or_com, buffer) = token_or_comment_generator(content);
    let ghost toks = tok_or_com@;
    let lines = line_generator(buffer.as_slice());
    let merged = merge_lines(tok_or_com, &lines);
    proof {
        assert(merged@ =~= merge_spec(toks, lines_of_buffer(buffer@)));
        assert(generated(toks, buffer@));
    }
    (merged, buffer)
}

// --- Syntax errors --------------------------------------------------------------

/// What holds of the syntax problem `r` reported for `content`: an error
/// of no rule at the position of a scanner or parser error, with its text;
/// none for empty content; one at line 1, column 1 where the content starts
/// by closing a flow collection or parting its entries.
pub open spec fn syntax_problem_fits(content: Seq<char>, r: Option<LintProblem>) -> bool {
    &&& r matches Some(p) ==> p.rule is None && p.level == Level::Error && exists|e: YamlError|
        error_in(buffer_of(content), e) && #[trigger] syntax_problem_spec(e) == Some(
            (p.line, p.column, p.desc@),
        )
    &&& content.len() == 0 ==> r is None
    &&& content.len() > 0 && (content[0] == ']' || content[0] == '}' || content[0] == ',') ==> (r matches Some(
        p,
    ) && p.line == 1 && p.column == 1)
}

/// The problem that reports a syntax error at its position (1-based).
pub open spec fn syntax_problem_spec(e: YamlError) -> Option<(usize, usize, Seq<char>)> {
    match e.problem_mark {
        Some(m) => Some(
            (
                (m.line + 1) as usize,
                (m.column + 1) as usize,
                "syntax error: "@ + e.problem@ + " (syntax)"@,
            ),
        ),
        None => None,
    }
}

/// The lint problem of a syntax error, when the error has a position.
pub fn syntax_problem(e: &YamlError) -> (r: Option<LintProblem>)
    requires
        e.problem_mark matches Some(m) ==> m.line < usize::MAX && m.column < usize::MAX,
    ensures
        match syntax_problem_spec(*e) {
            Some((line, column, desc)) => r matches Some(p) && p.line == line && p.column == column
                && p.desc@ == desc && p.rule is None && p.level == Level::Error,
            None => r is None,
        },
{
    match e.problem_mark {
        Some(mark) => {
            let mut v = crate::text::str_chars("syntax error: ");
            push_str(&mut v, e.problem.as_str());
            push_str(&mut v, " (syntax)");
            Some(
                LintProblem {
                    line: mark.line + 1,
                    column: mark.column + 1,
                    desc: chars_to_string(v.as_slice()),
                    rule: None,
                    level: Level::Error,
                },
            )
        },
        None => None,
    }
}

/// The syntax error of `content`, as a lint problem.
pub fn get_syntax_error(content: &str) -> (r: Option<LintProblem>)
    requires
        content@.len() <= max_text_len(),
    ensures
        r matches Some(p) ==> p.rule is None && p.level == Level::Error && p.line >= 1
            && p.column >= 1 && position(buffer_of(content@), 0) == (0nat, 0nat),
        syntax_problem_fits(content@, r),
{
    match Parser::check_syntax(content) {
        Some(e) => {
            match e.problem_mark {
                Some(m) => {
                    proof {
                        lemma_position_bounds(buffer_of(content@), m.pointer as nat);
                    }
                },
                None => {},
            }
            let r = syntax_problem(&e);
            proof {
                if r is Some {
                    let p = r->0;
                    assert(syntax_problem_spec(e) == Some((p.line, p.column, p.desc@)));
                }
            }
            r
        },
        None => None,
    }
}


// --- Disable directives ---------------------------------------------------------

/// `# yamllint disable` with optional `rule:` items.
pub open spec fn disable_rule_pattern() -> Seq<char> {
    r"^# yamllint disable( rule:\S+)*\s*$"@
}

/// `# yamllint enable` with optional `rule:` items.
pub open spec fn enable_rule_pattern() -> Seq<char> {
    r"^# yamllint enable( rule:\S+)*\s*$"@
}

/// `# yamllint disable-line` with optional `rule:` items.
pub open spec fn disable_line_pattern() -> Seq<char> {
    r"^# yamllint disable-line( rule:\S+)*\s*$"@
}

/// `# yamllint disable-file`.
pub open spec fn disable_file_pattern() -> Seq<char> {
    r"^#\s*yamllint disable-file\s*$"@
}

/// The parts of `s` between spaces, from `start` on.
pub open spec fn split_spaces_from(s: Seq<char>, start: int, i: int) -> Seq<Seq<char>>
    decreases s.len() - i,
{
    if i >= s.len() {
        seq![s.subrange(start, s.len() as int)]
    } else if s[i] == ' ' {
        seq![s.subrange(start, i)] + split_spaces_from(s, i + 1, i + 1)
    } else {
        split_spaces_from(s, start, i + 1)
    }
}

/// `str::split(' ')`.
pub open spec fn split_spaces(s: Seq<char>) -> Seq<Seq<char>> {
    split_spaces_from(s, 0, 0)
}

/// The rule names of `rule:NAME` items after a directive: the items split
/// on spaces (the first, empty, one left out), each without its first five
/// characters.
pub open spec fn parse_rules_spec(rest: Seq<char>) -> Seq<Seq<char>> {
    let items = split_spaces(trim_end(rest));
    items.skip(1).map_values(|item: Seq<char>| if item.len() >= 5 {
        item.skip(5)
    } else {
        seq![]
    })
}

/// The text after the first `n` characters.
pub open spec fn after(s: Seq<char>, n: int) -> Seq<char> {
    if s.len() >= n {
        s.skip(n)
    } else {
        seq![]
    }
}

/// The names in `v`.
pub open spec fn names_of(v: Seq<&'static str>) -> Set<Seq<char>> {
    Set::new(|n: Seq<char>| exists|i: int| 0 <= i < v.len() && (#[trigger] v[i])@ == n)
}

/// The names in `v`.
pub open spec fn names_set(v: Seq<String>) -> Set<Seq<char>> {
    Set::new(|n: Seq<char>| exists|i: int| 0 <= i < v.len() && (#[trigger] v[i])@ == n)
}

proof fn lemma_names_set_of(v: Seq<String>, d: Seq<Seq<char>>)
    requires
        v.len() == d.len(),
        forall|i: int| 0 <= i < v.len() ==> (#[trigger] v[i])@ == d[i],
    ensures
        names_set(v) == d.to_set(),
{
    assert forall|n: Seq<char>| #[trigger] names_set(v).contains(n) == d.to_set().contains(n) by {
        if names_set(v).contains(n) {
            let i = choose|i: int| 0 <= i < v.len() && (#[trigger] v[i])@ == n;
            assert(d[i] == n);
        }
        if d.to_set().contains(n) {
            let i = choose|i: int| 0 <= i < d.len() && d[i] == n;
            assert(v[i]@ == n);
        }
    }
    assert(names_set(v) =~= d.to_set());
}

proof fn lemma_names_push(s: Seq<&'static str>, x: &'static str)
    ensures
        names_of(s.push(x)) == names_of(s).insert(x@),
{
    assert forall|n: Seq<char>| #[trigger] names_of(s.push(x)).contains(n) == names_of(s).insert(
        x@,
    ).contains(n) by {
        if names_of(s.push(x)).contains(n) {
            let i = choose|i: int| 0 <= i < s.push(x).len() && (#[trigger] s.push(x)[i])@ == n;
            if i < s.len() {
                assert(s.push(x)[i] == s[i]);
            }
        }
        if names_of(s).contains(n) {
            let i = choose|i: int| 0 <= i < s.len() && (#[trigger] s[i])@ == n;
            assert(s.push(x)[i] == s[i]);
        }
        if n == x@ {
            assert(s.push(x)[s.len() as int] == x);
        }
    }
    assert(names_of(s.push(x)) =~= names_of(s).insert(x@));
}

proof fn lemma_names_set_push(s: Seq<String>, x: String)
    ensures
        names_set(s.push(x)) == names_set(s).insert(x@),
{
    assert forall|n: Seq<char>| #[trigger] names_set(s.push(x)).contains(n) == names_set(s).insert(
        x@,
    ).contains(n) by {
        if names_set(s.push(x)).contains(n) {
            let i = choose|i: int| 0 <= i < s.push(x).len() && (#[trigger] s.push(x)[i])@ == n;
            if i < s.len() {
                assert(s.push(x)[i] == s[i]);
            }
        }
        if names_set(s).contains(n) {
            let i = choose|i: int| 0 <= i < s.len() && (#[trigger] s[i])@ == n;
            assert(s.push(x)[i] == s[i]);
        }
        if n == x@ {
            assert(s.push(x)[s.len() as int] == x);
        }
    }
    assert(names_set(s.push(x)) =~= names_set(s).insert(x@));
}

/// The rules turned off after a `# yamllint disable ...` or `enable ...`
/// comment with text `text`, from `off`, where `known` are the rules that
/// can be turned off: a bare `disable` turns off all, a bare `enable` turns
/// all on, `rule:NAME` items name the rules.
pub open spec fn after_block_comment(off: Set<Seq<char>>, known: Set<Seq<char>>, text: Seq<char>) -> Set<Seq<char>> {
    let d = parse_rules_spec(after(text, 18));
    let e = parse_rules_spec(after(text, 17));
    if regex_match(disable_rule_pattern(), text) == Some(true) {
        if d.len() == 0 {
            known
        } else {
            off.union(known.intersect(d.to_set()))
        }
    } else if regex_match(enable_rule_pattern(), text) == Some(true) {
        if e.len() == 0 {
            Set::<Seq<char>>::empty()
        } else {
            off.difference(e.to_set())
        }
    } else {
        off
    }
}

/// The rules turned off after a `# yamllint disable-line ...` comment with
/// text `text`, from `off`.
pub open spec fn after_line_comment(off: Set<Seq<char>>, known: Set<Seq<char>>, text: Seq<char>) -> Set<Seq<char>> {
    let d = parse_rules_spec(after(text, 23));
    if regex_match(disable_line_pattern(), text) == Some(true) {
        if d.len() == 0 {
            known
        } else {
            off.union(known.intersect(d.to_set()))
        }
    } else {
        off
    }
}

/// The rules turned off by `# yamllint disable` and `enable` comments.
pub struct DisableDirective {
    rules: Vec<&'static str>,
    all_rules: Vec<&'static str>,
}

impl DisableDirective {
    /// The names of the rules turned off.
    pub closed spec fn disabled(&self) -> Set<Seq<char>> {
        names_of(self.rules@)
    }

    /// The names of all rules that can be turned off.
    pub closed spec fn known(&self) -> Set<Seq<char>> {
        names_of(self.all_rules@)
    }

    pub fn new(all_rules: &[&'static str]) -> (d: Self)
        ensures
            d.disabled() == Set::<Seq<char>>::empty(),
            d.known() == names_of(all_rules@),
    {
        let mut all: Vec<&'static str> = Vec::new();
        let mut i: usize = 0;
        while i < all_rules.len()
            invariant
                i <= all_rules@.len(),
                all@ == all_rules@.take(i as int),
            decreases all_rules@.len() - i,
        {
            all.push(all_rules[i]);
            i = i + 1;
            proof {
                assert(all@ =~= all_rules@.take(i as int));
            }
        }
        proof {
            assert(all@ =~= all_rules@);
            assert(names_of(Seq::<&'static str>::empty()) =~= Set::<Seq<char>>::empty());
        }
        DisableDirective { rules: Vec::new(), all_rules: all }
    }

    /// The rule names of the `rule:NAME` items in `rest`.
    pub fn parse_rules(rest: &str) -> (r: Vec<String>)
        ensures
            r@.len() == parse_rules_spec(rest@).len(),
            forall|i: int| 0 <= i < r@.len() ==> (#[trigger] r@[i])@ == parse_rules_spec(rest@)[i],
    {
        let chars = str_chars(rest);
        let trimmed = trim_end_chars(chars.as_slice());
        let ghost items = split_spaces(trimmed@);
        let mut out: Vec<String> = Vec::new();
        let mut index: usize = 0;
        let mut start: usize = 0;
        let mut i: usize = 0;
        let ghost mut done: Seq<Seq<char>> = seq![];
        while i < trimmed.len()
            invariant
                start <= i <= trimmed@.len(),
                items == split_spaces(trimmed@),
                done + split_spaces_from(trimmed@, start as int, i as int) == items,
                index == done.len(),
                index <= i,
                out@.len() == (if index == 0 {
                    0
                } else {
                    index - 1
                }),
                forall|k: int|
                    0 <= k < out@.len() ==> (#[trigger] out@[k])@ == (if done[k + 1].len() >= 5 {
                        done[k + 1].skip(5)
                    } else {
                        seq![]
                    }),
            decreases trimmed@.len() - i,
        {
            if trimmed[i] == ' ' {
                let ghost part = trimmed@.subrange(start as int, i as int);
                if index > 0 {
                    out.push(rule_name(trimmed.as_slice(), start, i));
                }
                proof {
                    done = done + seq![part];
                }
                index = index + 1;
                start = i + 1;
            }
            i = i + 1;
        }
        let ghost part = trimmed@.subrange(start as int, trimmed@.len() as int);
        if index > 0 {
            out.push(rule_name(trimmed.as_slice(), start, trimmed.len()));
        }
        proof {
            done = done + seq![part];
            assert(done == items);
            let parsed = parse_rules_spec(rest@);
            assert(trimmed@ == trim_end(rest@));
            assert(parsed.len() == items.len() - 1);
            assert forall|k: int| 0 <= k < out@.len() implies (#[trigger] out@[k])@ == parsed[k] by {
                assert(parsed[k] == (if items[k + 1].len() >= 5 {
                    items[k + 1].skip(5)
                } else {
                    seq![]
                }));
            }
        }
        out
    }

    /// Whether `name` is one of the known rules: the known name if so.
    fn find_known(&self, name: &String) -> (r: Option<&'static str>)
        ensures
            r matches Some(k) ==> k@ == name@ && self.known().contains(name@),
            r is None ==> !self.known().contains(name@),
    {
        let mut i: usize = 0;
        while i < self.all_rules.len()
            invariant
                i <= self.all_rules@.len(),
                forall|k: int| 0 <= k < i ==> (#[trigger] self.all_rules@[k])@ != name@,
            decreases self.all_rules@.len() - i,
        {
            if eq_strs(self.all_rules[i], name.as_str()) {
                proof {
                    assert(self.all_rules@[i as int]@ == name@);
                }
                return Some(self.all_rules[i]);
            }
            i = i + 1;
        }
        None
    }

    fn is_listed(&self, name: &str) -> (r: bool)
        ensures
            r == self.disabled().contains(name@),
    {
        let mut i: usize = 0;
        while i < self.rules.len()
            invariant
                i <= self.rules@.len(),
                forall|k: int| 0 <= k < i ==> (#[trigger] self.rules@[k])@ != name@,
            decreases self.rules@.len() - i,
        {
            if eq_strs(self.rules[i], name) {
                return true;
            }
            i = i + 1;
        }
        false
    }

    /// Turn off every known rule.
    fn disable_all(&mut self)
        ensures
            final(self).disabled() == old(self).known(),
            final(self).known() == old(self).known(),
    {
        let mut all: Vec<&'static str> = Vec::new();
        let mut i: usize = 0;
        while i < self.all_rules.len()
            invariant
                i <= self.all_rules@.len(),
                all@ == self.all_rules@.take(i as int),
            decreases self.all_rules@.len() - i,
        {
            all.push(self.all_rules[i]);
            i = i + 1;
            proof {
                assert(all@ =~= self.all_rules@.take(i as int));
            }
        }
        proof {
            assert(all@ =~= self.all_rules@);
        }
        self.rules = all;
    }

    /// Turn off the known rules among `names`.
    fn disable_known(&mut self, names: &Vec<String>)
        ensures
            final(self).disabled() == old(self).disabled().union(
                old(self).known().intersect(names_set(names@)),
            ),
            final(self).known() == old(self).known(),
    {
        let ghost start = self.disabled();
        let mut j: usize = 0;
        while j < names.len()
            invariant
                j <= names@.len(),
                self.known() == old(self).known(),
                self.disabled() == start.union(
                    old(self).known().intersect(names_set(names@.take(j as int))),
                ),
            decreases names@.len() - j,
        {
            let ghost before = self.rules@;
            match self.find_known(&names[j]) {
                Some(known) => {
                    if !self.is_listed(known) {
                        self.rules.push(known);
                        proof {
                            lemma_names_push(before, known);
                        }
                    }
                },
                None => {},
            }
            proof {
                lemma_names_set_push(names@.take(j as int), names@[j as int]);
                assert(names@.take(j + 1) =~= names@.take(j as int).push(names@[j as int]));
            }
            j = j + 1;
            proof {
                assert(self.disabled() =~= start.union(
                    old(self).known().intersect(names_set(names@.take(j as int))),
                ));
            }
        }
        proof {
            assert(names@.take(names@.len() as int) =~= names@);
        }
    }

    /// Turn on again the rules among `names`.
    fn enable(&mut self, names: &Vec<String>)
        ensures
            final(self).disabled() == old(self).disabled().difference(names_set(names@)),
            final(self).known() == old(self).known(),
    {
        let gone = Ghost(names_set(names@));
        let mut kept: Vec<&'static str> = Vec::new();
        let mut i: usize = 0;
        while i < self.rules.len()
            invariant
                i <= self.rules@.len(),
                gone@ == names_set(names@),
                names_of(kept@) == names_of(self.rules@.take(i as int)).difference(gone@),
            decreases self.rules@.len() - i,
        {
            let r = self.rules[i];
            let ghost before = kept@;
            proof {
                lemma_names_push(self.rules@.take(i as int), r);
                assert(self.rules@.take(i + 1) =~= self.rules@.take(i as int).push(r));
            }
            if !contains_name(names, r) {
                kept.push(r);
                proof {
                    lemma_names_push(before, r);
                }
            }
            i = i + 1;
            proof {
                assert(names_of(kept@) =~= names_of(self.rules@.take(i as int)).difference(gone@));
            }
        }
        proof {
            assert(self.rules@.take(self.rules@.len() as int) =~= self.rules@);
        }
        self.rules = kept;
    }

    /// Process a `# yamllint disable ...` or `# yamllint enable ...`
    /// comment.
    pub fn process_comment(&mut self, comment: &str)
        ensures
            final(self).known() == old(self).known(),
            final(self).disabled() == after_block_comment(old(self).disabled(), old(self).known(), comment@),
    {
        if regex_is_match(r"^# yamllint disable( rule:\S+)*\s*$", comment) == Some(true) {
            let rest = rest_after(comment, 18);
            let rules = DisableDirective::parse_rules(rest.as_str());
            proof {
                lemma_names_set_of(rules@, parse_rules_spec(rest@));
            }
            if rules.len() == 0 {
                self.disable_all();
            } else {
                self.disable_known(&rules);
            }
        } else if regex_is_match(r"^# yamllint enable( rule:\S+)*\s*$", comment) == Some(true) {
            let rest = rest_after(comment, 17);
            let rules = DisableDirective::parse_rules(rest.as_str());
            proof {
                lemma_names_set_of(rules@, parse_rules_spec(rest@));
            }
            if rules.len() == 0 {
                self.rules = Vec::new();
            } else {
                self.enable(&rules);
            }
        }
    }

    /// Process a `# yamllint disable-line ...` comment.
    pub fn process_line_comment(&mut self, comment: &str)
        ensures
            final(self).known() == old(self).known(),
            final(self).disabled() == after_line_comment(old(self).disabled(), old(self).known(), comment@),
    {
        if regex_is_match(r"^# yamllint disable-line( rule:\S+)*\s*$", comment) == Some(true) {
            let rest = rest_after(comment, 23);
            let rules = DisableDirective::parse_rules(rest.as_str());
            proof {
                lemma_names_set_of(rules@, parse_rules_spec(rest@));
            }
            if rules.len() == 0 {
                self.disable_all();
            } else {
                self.disable_known(&rules);
            }
        }
    }

    /// Whether `problem` comes from a rule that is turned off.
    pub fn is_disabled(&self, problem: &LintProblem) -> (r: bool)
        ensures
            r == (problem.rule matches Some(name) && self.disabled().contains(name@)),
    {
        match problem.rule {
            Some(rule) => self.is_listed(rule),
            None => false,
        }
    }
}

/// Whether the two texts are equal.
fn eq_strs(a: &str, b: &str) -> (r: bool)
    ensures
        r == (a@ == b@),
{
    let av = str_chars(a);
    crate::text::eq_str(av.as_slice(), b)
}

/// Whether `name` is among `names`.
fn contains_name(names: &Vec<String>, name: &str) -> (r: bool)
    ensures
        r == exists|i: int| 0 <= i < names@.len() && (#[trigger] names@[i])@ == name@,
{
    let mut i: usize = 0;
    while i < names.len()
        invariant
            i <= names@.len(),
            forall|k: int| 0 <= k < i ==> (#[trigger] names@[k])@ != name@,
        decreases names@.len() - i,
    {
        if eq_strs(names[i].as_str(), name) {
            return true;
        }
        i = i + 1;
    }
    false
}

/// The text of `s` after its first `n` characters (empty when shorter).
fn rest_after(s: &str, n: usize) -> (r: String)
    ensures
        r@ == after(s@, n as int),
{
    let v = str_chars(s);
    if v.len() >= n {
        chars_to_string(crate::text::slice_to_vec(v.as_slice(), n, v.len()).as_slice())
    } else {
        String::new()
    }
}

/// The rule name of one `rule:NAME` item `s[start..end]`.
fn rule_name(s: &[char], start: usize, end: usize) -> (r: String)
    requires
        start <= end <= s@.len(),
    ensures
        r@ == (if end - start >= 5 {
            s@.subrange(start as int, end as int).skip(5)
        } else {
            seq![]
        }),
{
    if end - start >= 5 {
        let v = crate::text::slice_to_vec(s, start + 5, end);
        proof {
            assert(v@ =~= s@.subrange(start as int, end as int).skip(5));
        }
        chars_to_string(v.as_slice())
    } else {
        String::new()
    }
}

/// The first line of `content`, without a trailing `'\r'`.
pub open spec fn first_line(content: Seq<char>) -> Seq<char> {
    let l = content.take(find_char_from(content, 0, '\n'));
    if l.len() > 0 && l.last() == '\r' {
        l.drop_last()
    } else {
        l
    }
}

/// Whether the first line of `content` is a `# yamllint disable-file`
/// directive, which turns off linting of the whole file.
pub fn is_file_disabled(content: &str) -> (r: bool)
    ensures
        r == (regex_match(disable_file_pattern(), first_line(content@)) == Some(true)),
{
    let v = str_chars(content);
    let mut end: usize = 0;
    while end < v.len() && v[end] != '\n'
        invariant
            end <= v@.len(),
            find_char_from(v@, end as int, '\n') == find_char_from(v@, 0, '\n'),
        decreases v@.len() - end,
    {
        end = end + 1;
    }
    proof {
        lemma_find_char_from(v@, end as int, '\n');
    }
    let mut line = crate::text::slice_to_vec(v.as_slice(), 0, end);
    if line.len() > 0 && line[line.len() - 1] == '\r' {
        line.pop();
    }
    let text = chars_to_string(line.as_slice());
    proof {
        assert(line@ =~= first_line(content@));
    }
    regex_is_match(r"^#\s*yamllint disable-file\s*$", text.as_str()) == Some(true)
}

// --- Problems and the syntax error -------------------------------------------------

/// The problems with the syntax error put in place: before the first
/// problem at or after its position, which it replaces; at the end when
/// there is none.
pub open spec fn merge_syntax_spec(ps: Seq<LintProblem>, se: Option<LintProblem>) -> Seq<LintProblem>
    decreases ps.len(),
{
    if ps.len() == 0 {
        match se {
            Some(s) => seq![s],
            None => seq![],
        }
    } else {
        match se {
            Some(s) => if s.line <= ps[0].line && s.column <= ps[0].column {
                seq![s] + ps.skip(1)
            } else {
                seq![ps[0]] + merge_syntax_spec(ps.skip(1), se)
            },
            None => ps,
        }
    }
}

/// Put the syntax error among the problems, in its place.
pub fn merge_syntax_error(problems: Vec<LintProblem>, syntax_error: Option<LintProblem>) -> (r: Vec<LintProblem>)
    ensures
        r@ == merge_syntax_spec(problems@, syntax_error),
{
    let ghost all = problems@;
    let mut src = problems;
    let mut stack: Vec<LintProblem> = Vec::new();
    while src.len() > 0
        invariant
            src@.len() <= all.len(),
            src@ == all.take(src@.len() as int),
            stack@.reverse() == all.skip(src@.len() as int),
        decreases src@.len(),
    {
        let ghost before = stack@;
        let x = src.pop().unwrap();
        stack.push(x);
        proof {
            assert(stack@.reverse() =~= seq![x] + before.reverse());
            assert(all.skip(src@.len() as int) =~= seq![x] + all.skip(src@.len() as int + 1));
            assert(src@ =~= all.take(src@.len() as int));
        }
    }
    proof {
        assert(all.skip(0) =~= all);
    }
    let mut se = syntax_error;
    let mut out: Vec<LintProblem> = Vec::new();
    let ghost total = merge_syntax_spec(all, syntax_error);
    proof {
        assert(out@ + merge_syntax_spec(stack@.reverse(), se) =~= total);
    }
    while stack.len() > 0
        invariant
            out@ + merge_syntax_spec(stack@.reverse(), se) == total,
        decreases stack@.len(),
    {
        let ghost rest = stack@.reverse();
        let ghost before = out@;
        let p = stack.pop().unwrap();
        proof {
            assert(rest[0] == p);
            assert(rest.skip(1) =~= stack@.reverse());
        }
        match se {
            Some(s) => {
                if s.line <= p.line && s.column <= p.column {
                    let ghost gs = s;
                    out.push(s);
                    se = None;
                    proof {
                        assert(merge_syntax_spec(rest, Some(gs)) == seq![gs] + rest.skip(1));
                        assert(merge_syntax_spec(stack@.reverse(), None) == stack@.reverse()) by {
                            if stack@.reverse().len() > 0 {
                            }
                        }
                        assert(out@ + merge_syntax_spec(stack@.reverse(), se) =~= before + (seq![gs] + rest.skip(1)));
                    }
                } else {
                    let ghost gp = p;
                    se = Some(s);
                    out.push(p);
                    proof {
                        assert(merge_syntax_spec(rest, se) == seq![gp] + merge_syntax_spec(rest.skip(1), se));
                        assert(out@ + merge_syntax_spec(stack@.reverse(), se) =~= before + merge_syntax_spec(rest, se));
                    }
                }
            },
            None => {
                let ghost gp = p;
                out.push(p);
                proof {
                    assert(merge_syntax_spec(rest, None) == rest);
                    assert(merge_syntax_spec(stack@.reverse(), None) == stack@.reverse()) by {
                        if stack@.reverse().len() > 0 {
                        }
                    }
                    assert(rest =~= seq![gp] + stack@.reverse());
                    assert(out@ + merge_syntax_spec(stack@.reverse(), se) =~= before + merge_syntax_spec(rest, se));
                }
            },
        }
    }
    match se {
        Some(s) => {
            out.push(s);
        },
        None => {},
    }
    proof {
        assert(stack@.reverse() =~= Seq::<LintProblem>::empty());
    }
    out
}

// --- Cosmetic problems and directives ---------------------------------------------

/// The text of comment `c`: from its `#` to the end of its line (nothing
/// when its position lies outside the buffer).
pub open spec fn comment_text_of(c: Comment, b: Seq<char>) -> Seq<char> {
    if c.pointer <= b.len() {
        b.subrange(c.pointer as int, comment_end(b, c.pointer as int))
    } else {
        seq![]
    }
}

/// Whether comment `c` sits on the line of the token before it.
pub open spec fn comment_is_inline(c: Comment, b: Seq<char>) -> bool {
    inline_readable(c.line_no, c.token_before, b) && comment_inline(c.line_no, c.token_before, b)
}

/// Whether `p` comes from a rule in `off`.
pub open spec fn turned_off(p: LintProblem, off: Set<Seq<char>>) -> bool {
    p.rule matches Some(name) && off.contains(name@)
}

/// The problems of `ps` on line `line` whose rule is not in `off`, in
/// order.
pub open spec fn flushed(ps: Seq<LintProblem>, line: usize, off: Set<Seq<char>>) -> Seq<LintProblem>
    decreases ps.len(),
{
    if ps.len() == 0 {
        seq![]
    } else {
        let k = flushed(ps.drop_last(), line, off);
        if ps.last().line == line && !turned_off(ps.last(), off) {
            k.push(ps.last())
        } else {
            k
        }
    }
}

/// The problems kept from element `i` on, with `d` the rules turned off by
/// block directives, `dl` those turned off for the current line and `dnl`
/// those turned off for the next line: at the end of each line its
/// problems are kept unless their rule is off for the file or the line;
/// comments update the directives.
pub open spec fn cosmetic_from(
    elems: Seq<Elem>,
    b: Seq<char>,
    known: Set<Seq<char>>,
    ps: Seq<LintProblem>,
    i: int,
    d: Set<Seq<char>>,
    dl: Set<Seq<char>>,
    dnl: Set<Seq<char>>,
) -> Seq<LintProblem>
    decreases elems.len() - i,
{
    if i < 0 || i >= elems.len() {
        seq![]
    } else {
        match elems[i] {
            Elem::Token(_) => cosmetic_from(elems, b, known, ps, i + 1, d, dl, dnl),
            Elem::Comment(c) => {
                let t = comment_text_of(c, b);
                let d2 = after_block_comment(d, known, t);
                if comment_is_inline(c, b) {
                    cosmetic_from(elems, b, known, ps, i + 1, d2, after_line_comment(dl, known, t), dnl)
                } else {
                    cosmetic_from(elems, b, known, ps, i + 1, d2, dl, after_line_comment(dnl, known, t))
                }
            },
            Elem::Line(l) => flushed(ps, l.line_no, d.union(dl)) + cosmetic_from(
                elems,
                b,
                known,
                ps,
                i + 1,
                d,
                dnl,
                Set::<Seq<char>>::empty(),
            ),
        }
    }
}

/// The problems of `ps` that the directive comments among `elems` leave
/// on, where `known` are the rules that can be turned off.
pub open spec fn cosmetic_problems(
    elems: Seq<Elem>,
    b: Seq<char>,
    known: Set<Seq<char>>,
    ps: Seq<LintProblem>,
) -> Seq<LintProblem> {
    cosmetic_from(
        elems,
        b,
        known,
        ps,
        0,
        Set::<Seq<char>>::empty(),
        Set::<Seq<char>>::empty(),
        Set::<Seq<char>>::empty(),
    )
}

/// Every problem kept at the end of a line is one of `ps`, on that line,
/// from a rule that is not turned off.
pub proof fn lemma_flushed(ps: Seq<LintProblem>, line: usize, off: Set<Seq<char>>)
    ensures
        forall|k: int|
            0 <= k < flushed(ps, line, off).len() ==> ps.contains(#[trigger] flushed(ps, line, off)[k])
                && flushed(ps, line, off)[k].line == line && !turned_off(flushed(ps, line, off)[k], off),
    decreases ps.len(),
{
    if ps.len() > 0 {
        lemma_flushed(ps.drop_last(), line, off);
        let k0 = flushed(ps.drop_last(), line, off);
        assert forall|k: int| 0 <= k < flushed(ps, line, off).len() implies ps.contains(
            #[trigger] flushed(ps, line, off)[k],
        ) && flushed(ps, line, off)[k].line == line && !turned_off(flushed(ps, line, off)[k], off) by {
            if k < k0.len() {
                assert(flushed(ps, line, off)[k] == k0[k]);
                let j = choose|j: int| 0 <= j < ps.drop_last().len() && ps.drop_last()[j] == k0[k];
                assert(ps[j] == k0[k]);
            } else {
                assert(flushed(ps, line, off)[k] == ps.last());
                assert(ps[ps.len() - 1] == ps.last());
            }
        }
    }
}

proof fn lemma_cosmetic_from_kept(
    elems: Seq<Elem>,
    b: Seq<char>,
    known: Set<Seq<char>>,
    ps: Seq<LintProblem>,
    i: int,
    d: Set<Seq<char>>,
    dl: Set<Seq<char>>,
    dnl: Set<Seq<char>>,
)
    ensures
        forall|k: int|
            0 <= k < cosmetic_from(elems, b, known, ps, i, d, dl, dnl).len() ==> ps.contains(
                #[trigger] cosmetic_from(elems, b, known, ps, i, d, dl, dnl)[k],
            ),
    decreases elems.len() - i,
{
    if 0 <= i < elems.len() {
        match elems[i] {
            Elem::Token(_) => {
                lemma_cosmetic_from_kept(elems, b, known, ps, i + 1, d, dl, dnl);
                assert(cosmetic_from(elems, b, known, ps, i, d, dl, dnl) == cosmetic_from(
                    elems,
                    b,
                    known,
                    ps,
                    i + 1,
                    d,
                    dl,
                    dnl,
                ));
            },
            Elem::Comment(c) => {
                let t = comment_text_of(c, b);
                let d2 = after_block_comment(d, known, t);
                if comment_is_inline(c, b) {
                    let dl2 = after_line_comment(dl, known, t);
                    lemma_cosmetic_from_kept(elems, b, known, ps, i + 1, d2, dl2, dnl);
                    assert(cosmetic_from(elems, b, known, ps, i, d, dl, dnl) == cosmetic_from(
                        elems,
                        b,
                        known,
                        ps,
                        i + 1,
                        d2,
                        dl2,
                        dnl,
                    ));
                } else {
                    let dnl2 = after_line_comment(dnl, known, t);
                    lemma_cosmetic_from_kept(elems, b, known, ps, i + 1, d2, dl, dnl2);
                    assert(cosmetic_from(elems, b, known, ps, i, d, dl, dnl) == cosmetic_from(
                        elems,
                        b,
                        known,
                        ps,
                        i + 1,
                        d2,
                        dl,
                        dnl2,
                    ));
                }
            },
            Elem::Line(l) => {
                let f = flushed(ps, l.line_no, d.union(dl));
                let rest = cosmetic_from(elems, b, known, ps, i + 1, d, dnl, Set::<Seq<char>>::empty());
                lemma_flushed(ps, l.line_no, d.union(dl));
                lemma_cosmetic_from_kept(elems, b, known, ps, i + 1, d, dnl, Set::<Seq<char>>::empty());
                let all = cosmetic_from(elems, b, known, ps, i, d, dl, dnl);
                assert(all == f + rest);
                assert forall|k: int| 0 <= k < all.len() implies ps.contains(#[trigger] all[k]) by {
                    if k < f.len() {
                        assert(all[k] == f[k]);
                    } else {
                        assert(all[k] == rest[k - f.len()]);
                    }
                }
            },
        }
    }
}

/// Directive comments only take problems away: every problem they leave
/// on is one the rules reported.
pub proof fn lemma_directives_only_remove(
    elems: Seq<Elem>,
    b: Seq<char>,
    known: Set<Seq<char>>,
    ps: Seq<LintProblem>,
)
    ensures
        forall|k: int|
            0 <= k < cosmetic_problems(elems, b, known, ps).len() ==> ps.contains(
                #[trigger] cosmetic_problems(elems, b, known, ps)[k],
            ),
{
    lemma_cosmetic_from_kept(
        elems,
        b,
        known,
        ps,
        0,
        Set::<Seq<char>>::empty(),
        Set::<Seq<char>>::empty(),
        Set::<Seq<char>>::empty(),
    );
}

/// A copy of `p`.
pub fn copy_problem(p: &LintProblem) -> (r: LintProblem)
    ensures
        r == *p,
{
    LintProblem { line: p.line, column: p.column, desc: p.desc.clone(), rule: p.rule, level: p.level }
}

/// Keep the problems of line `line` that no directive turns off.
fn flush_line(
    ps: &[LintProblem],
    line: usize,
    disabled: &DisableDirective,
    for_line: &DisableDirective,
    out: &mut Vec<LintProblem>,
)
    ensures
        final(out)@ == old(out)@ + flushed(ps@, line, disabled.disabled().union(for_line.disabled())),
{
    let ghost off = disabled.disabled().union(for_line.disabled());
    let mut k: usize = 0;
    while k < ps.len()
        invariant
            k <= ps@.len(),
            off == disabled.disabled().union(for_line.disabled()),
            out@ == old(out)@ + flushed(ps@.take(k as int), line, off),
        decreases ps@.len() - k,
    {
        proof {
            assert(ps@.take(k as int + 1).drop_last() =~= ps@.take(k as int));
            assert(ps@.take(k as int + 1).last() == ps@[k as int]);
        }
        if ps[k].line == line && !(for_line.is_disabled(&ps[k]) || disabled.is_disabled(&ps[k])) {
            out.push(copy_problem(&ps[k]));
        }
        k = k + 1;
    }
    proof {
        assert(ps@.take(ps@.len() as int) =~= ps@);
    }
}

/// The text of comment `c`, or nothing when it lies outside the buffer.
fn comment_text_checked(c: &Comment, buffer: &[char]) -> (r: String)
    ensures
        r@ == comment_text_of(*c, buffer@),
{
    if c.pointer <= buffer.len() {
        c.text(buffer)
    } else {
        String::new()
    }
}

/// Whether comment `c` is inline, where the buffer can be read for it.
fn comment_inline_checked(c: &Comment, buffer: &[char]) -> (r: bool)
    ensures
        r == comment_is_inline(*c, buffer@),
{
    let readable = match &c.token_before {
        Some(t) => match t.kind {
            TokenKind::StreamStart => true,
            _ => t.end_mark.line < usize::MAX && (!(c.line_no == t.end_mark.line + 1
                && t.end_mark.pointer != 0) || t.end_mark.pointer <= buffer.len()),
        },
        None => true,
    };
    if readable {
        c.is_inline(buffer)
    } else {
        false
    }
}

/// The problems `reported` by the enabled rules (`enabled_ids`) that the
/// `# yamllint disable...` and `enable...` comments among `elems` leave on:
/// each problem is kept at the end of its line unless its rule is turned
/// off for the file from an earlier block directive, for its line by an
/// inline `disable-line`, or for its line by a `disable-line` comment on the
/// line before.
pub fn get_cosmetic_problems(
    elems: &[Elem],
    buffer: &[char],
    enabled_ids: &[&'static str],
    reported: &[LintProblem],
) -> (r: Vec<LintProblem>)
    ensures
        r@ == cosmetic_problems(elems@, buffer@, names_of(enabled_ids@), reported@),
{
    let ghost known = names_of(enabled_ids@);
    let mut problems: Vec<LintProblem> = Vec::new();
    let mut disabled = DisableDirective::new(enabled_ids);
    let mut disabled_for_line = DisableDirective::new(enabled_ids);
    let mut disabled_for_next_line = DisableDirective::new(enabled_ids);
    let mut i: usize = 0;
    while i < elems.len()
        invariant
            i <= elems@.len(),
            disabled.known() == known,
            disabled_for_line.known() == known,
            disabled_for_next_line.known() == known,
            known == names_of(enabled_ids@),
            cosmetic_problems(elems@, buffer@, known, reported@) == problems@ + cosmetic_from(
                elems@,
                buffer@,
                known,
                reported@,
                i as int,
                disabled.disabled(),
                disabled_for_line.disabled(),
                disabled_for_next_line.disabled(),
            ),
        decreases elems@.len() - i,
    {
        match &elems[i] {
            Elem::Token(_) => {},
            Elem::Comment(comment) => {
                let text = comment_text_checked(comment, buffer);
                disabled.process_comment(text.as_str());
                if comment_inline_checked(comment, buffer) {
                    disabled_for_line.process_line_comment(text.as_str());
                } else {
                    disabled_for_next_line.process_line_comment(text.as_str());
                }
            },
            Elem::Line(line) => {
                let ghost before = problems@;
                flush_line(reported, line.line_no, &disabled, &disabled_for_line, &mut problems);
                proof {
                    assert(problems@ + cosmetic_from(
                        elems@,
                        buffer@,
                        known,
                        reported@,
                        i as int + 1,
                        disabled.disabled(),
                        disabled_for_next_line.disabled(),
                        Set::<Seq<char>>::empty(),
                    ) =~= before + (flushed(
                        reported@,
                        line.line_no,
                        disabled.disabled().union(disabled_for_line.disabled()),
                    ) + cosmetic_from(
                        elems@,
                        buffer@,
                        known,
                        reported@,
                        i as int + 1,
                        disabled.disabled(),
                        disabled_for_next_line.disabled(),
                        Set::<Seq<char>>::empty(),
                    )));
                }
                std::mem::swap(&mut disabled_for_line, &mut disabled_for_next_line);
                disabled_for_next_line = DisableDirective::new(enabled_ids);
            },
        }
        i = i + 1;
    }
    problems
}

/// What `run` may give for `content`: nothing when its first line is a
/// `# yamllint disable-file` directive; else the `reported` problems that the
/// directive comments between its tokens leave on, with a syntax error (an
/// error of no rule at the position of a scanner or parser error), if any,
/// put in its place. The tokens are scanned from the content, each with its
/// neighbours, and the comments are those between them.
pub open spec fn run_outcome(
    content: Seq<char>,
    enabled_ids: Seq<&'static str>,
    reported: Seq<LintProblem>,
    r: Seq<LintProblem>,
) -> bool {
    &&& regex_match(disable_file_pattern(), first_line(content)) == Some(true) ==> r.len() == 0
    &&& regex_match(disable_file_pattern(), first_line(content)) != Some(true) ==> exists|
        toks: Seq<Elem>,
        se: Option<LintProblem>,
    |
        generated(toks, buffer_of(content)) && syntax_problem_fits(content, se) && r == merge_syntax_spec(
            cosmetic_problems(
                merge_spec(toks, lines_of_buffer(buffer_of(content))),
                buffer_of(content),
                names_of(enabled_ids),
                reported,
            ),
            se,
        )
}

/// The level at which a diagnostic of severity `s` is reported.
pub open spec fn level_of(s: Severity) -> Level {
    match s {
        Severity::Error => Level::Error,
        _ => Level::Warning,
    }
}

/// `p` reports the diagnostic `d`: same place, text and level, and the id
/// among `names` that names `d`'s rule, or none when no id does.
pub open spec fn reports(d: SpecDiagnostic, names: Seq<Seq<char>>, p: LintProblem) -> bool {
    &&& p.line == d.location.line
    &&& p.column == d.location.column
    &&& p.desc@ == d.message
    &&& p.level == level_of(d.severity)
    &&& match p.rule {
        Some(r) => r@ == d.rule,
        None => !names.contains(d.rule),
    }
}

/// `ps` reports the diagnostics `ds`, one for one.
pub open spec fn problems_report(ds: Seq<SpecDiagnostic>, names: Seq<Seq<char>>, ps: Seq<LintProblem>) -> bool {
    ps.len() == ds.len() && forall|i: int| 0 <= i < ds.len() ==> reports(ds[i], names, #[trigger] ps[i])
}

pub open spec fn ids_view(ids: Seq<&'static str>) -> Seq<Seq<char>> {
    ids.map_values(|s: &'static str| s@)
}

/// The lint problem that reports `d`; its rule is the id in `ids` that
/// names `d`'s rule.
pub fn problem_of(d: &Diagnostic, ids: &[&'static str]) -> (p: LintProblem)
    ensures
        reports(d@, ids_view(ids@), p),
{
    let level = match d.severity {
        Severity::Error => Level::Error,
        _ => Level::Warning,
    };
    let mut rule: Option<&'static str> = None;
    let mut i: usize = 0;
    while i < ids.len()
        invariant
            i <= ids@.len(),
            match rule {
                Some(r) => r@ == d.rule@,
                None => forall|k: int| 0 <= k < i ==> ids@[k]@ != d.rule@,
            },
        ensures
            match rule {
                Some(r) => r@ == d.rule@,
                None => forall|k: int| 0 <= k < ids@.len() ==> ids@[k]@ != d.rule@,
            },
        decreases ids@.len() - i,
    {
        if str_eq(ids[i], d.rule.as_str()) {
            rule = Some(ids[i]);
            break;
        }
        i = i + 1;
    }
    proof {
        if rule is None {
            assert forall|k: int| 0 <= k < ids@.len() implies ids_view(ids@)[k] != d.rule@ by {
                assert(ids_view(ids@)[k] == ids@[k]@);
            }
        }
    }
    LintProblem {
        line: d.location.line,
        column: d.location.column,
        desc: d.message.clone(),
        rule,
        level,
    }
}

/// Lint `content`: nothing when its first line is a
/// `# yamllint disable-file` directive; else the problems `reported` by the
/// enabled rules (`enabled_ids`) that the directive comments leave on, with
/// the syntax error, if any, put in its place.
pub fn run(content: &str, enabled_ids: &[&'static str], reported: &[LintProblem]) -> (r: Vec<
    LintProblem,
>)
    requires
        content@.len() <= max_text_len(),
    ensures
        run_outcome(content@, enabled_ids@, reported@, r@),
{
    if is_file_disabled(content) {
        return Vec::new();
    }
    let syntax_error = get_syntax_error(content);
    let (elems, buffer) = token_or_comment_or_line_generator(content);
    let ghost toks = choose|toks: Seq<Elem>|
        elems@ == merge_spec(toks, lines_of_buffer(buffer@)) && #[trigger] generated(toks, buffer@);
    let cosmetic = get_cosmetic_problems(elems.as_slice(), buffer.as_slice(), enabled_ids, reported);
    let r = merge_syntax_error(cosmetic, syntax_error);
    proof {
        assert(generated(toks, buffer_of(content@)));
        assert((syntax_error matches Some(p) ==> p.rule is None && p.level == Level::Error) && r@
            == merge_syntax_spec(
            cosmetic_problems(
                merge_spec(toks, lines_of_buffer(buffer_of(content@))),
                buffer_of(content@),
                names_of(enabled_ids@),
                reported@,
            ),
            syntax_error,
        ));
    }
    r
}

} // verus!
