//! The YAML scanner: turns the characters of a document into tokens, with
//! start and end marks (character index, 0-based line and column), values,
//! scalar styles and error messages in PyYAML's form.

use vstd::prelude::*;
use crate::pyyaml::error::{Mark, YamlError};
use crate::pyyaml::pyrepr::{py_repr_char, py_repr_spec};
use crate::pyyaml::tokens::{DirectiveValue, Token, TokenKind};
use crate::decoder::{char_from_u32, from_utf8, scalar_value};
use crate::text::{chars_to_string, eq_str, max_text_len, push_all, push_str, slice_to_vec, str_chars};

verus! {

// --- Character classes -------------------------------------------------

/// A line-break character.
pub open spec fn is_break_char(ch: char) -> bool {
    ch == '\r' || ch == '\n' || ch == '\u{85}' || ch == '\u{2028}' || ch == '\u{2029}'
}

/// A character that the skip before a token stops at at once: no space,
/// comment, line break or byte order mark.
pub open spec fn starts_token(ch: char) -> bool {
    ch != ' ' && ch != '#' && !is_break_char(ch) && ch != '\u{FEFF}'
}

/// The token that the flow indicator `ch` stands for.
pub open spec fn flow_indicator_kind(ch: char) -> Option<TokenKind> {
    if ch == '[' {
        Some(TokenKind::FlowSequenceStart)
    } else if ch == '{' {
        Some(TokenKind::FlowMappingStart)
    } else if ch == ']' {
        Some(TokenKind::FlowSequenceEnd)
    } else if ch == '}' {
        Some(TokenKind::FlowMappingEnd)
    } else if ch == ',' {
        Some(TokenKind::FlowEntry)
    } else {
        None
    }
}

/// A copy of `e`.
fn copy_error(e: &YamlError) -> (r: YamlError)
    ensures
        r == *e,
{
    let context = match &e.context {
        Some(c) => Some(c.clone()),
        None => None,
    };
    YamlError { context, context_mark: e.context_mark, problem: e.problem.clone(), problem_mark: e.problem_mark }
}

/// The end of the buffer or a line break.
pub open spec fn is_z_break(ch: char) -> bool {
    ch == '\0' || is_break_char(ch)
}

/// The end of the buffer, a line break, a space or a tab.
pub open spec fn is_z_blank_break(ch: char) -> bool {
    is_z_break(ch) || ch == ' ' || ch == '\t'
}

/// The end of the buffer, a line break or a space (no tab).
pub open spec fn is_z_space_break(ch: char) -> bool {
    is_z_break(ch) || ch == ' '
}

pub open spec fn is_ascii_alnum(ch: char) -> bool {
    ('0' <= ch && ch <= '9') || ('a' <= ch && ch <= 'z') || ('A' <= ch && ch <= 'Z')
}

/// A character of an anchor, alias or directive name.
pub open spec fn is_name_char(ch: char) -> bool {
    is_ascii_alnum(ch) || ch == '-' || ch == '_'
}

pub open spec fn is_hex_char(ch: char) -> bool {
    ('0' <= ch && ch <= '9') || ('a' <= ch && ch <= 'f') || ('A' <= ch && ch <= 'F')
}

fn in_z_break(ch: char) -> (r: bool)
    ensures
        r == is_z_break(ch),
{
    ch == '\0' || ch == '\r' || ch == '\n' || ch == '\u{85}' || ch == '\u{2028}' || ch == '\u{2029}'
}

fn in_break(ch: char) -> (r: bool)
    ensures
        r == is_break_char(ch),
{
    ch == '\r' || ch == '\n' || ch == '\u{85}' || ch == '\u{2028}' || ch == '\u{2029}'
}

fn in_z_blank_break(ch: char) -> (r: bool)
    ensures
        r == is_z_blank_break(ch),
{
    in_z_break(ch) || ch == ' ' || ch == '\t'
}

fn in_z_space_break(ch: char) -> (r: bool)
    ensures
        r == is_z_space_break(ch),
{
    in_z_break(ch) || ch == ' '
}

fn is_alnum(ch: char) -> (r: bool)
    ensures
        r == is_name_char(ch),
{
    ('0' <= ch && ch <= '9') || ('a' <= ch && ch <= 'z') || ('A' <= ch && ch <= 'Z') || ch == '-'
        || ch == '_'
}

fn is_hex(ch: char) -> (r: bool)
    ensures
        r == is_hex_char(ch),
{
    ('0' <= ch && ch <= '9') || ('a' <= ch && ch <= 'f') || ('A' <= ch && ch <= 'F')
}

/// The value of a hexadecimal digit.
pub open spec fn hex_value(ch: char) -> u32 {
    if '0' <= ch && ch <= '9' {
        (ch as u32 - '0' as u32) as u32
    } else if 'a' <= ch && ch <= 'f' {
        (ch as u32 - 'a' as u32 + 10) as u32
    } else {
        (ch as u32 - 'A' as u32 + 10) as u32
    }
}

fn hex_value_exec(ch: char) -> (r: u32)
    requires
        is_hex_char(ch),
    ensures
        r == hex_value(ch),
        r < 16,
{
    if '0' <= ch && ch <= '9' {
        (ch as u32) - ('0' as u32)
    } else if 'a' <= ch && ch <= 'f' {
        (ch as u32) - ('a' as u32) + 10
    } else {
        (ch as u32) - ('A' as u32) + 10
    }
}

/// The number written by the hexadecimal digits `s`.
pub open spec fn hex_number(s: Seq<char>) -> int
    decreases s.len(),
{
    if s.len() == 0 {
        0
    } else {
        hex_number(s.drop_last()) * 16 + hex_value(s.last())
    }
}

// --- Positions -----------------------------------------------------------

/// The character at `i`, or `'\0'` outside the buffer.
pub open spec fn char_at(buf: Seq<char>, i: int) -> char {
    if 0 <= i < buf.len() {
        buf[i]
    } else {
        '\0'
    }
}

/// Whether the character at `i` ends a line (`"\r\n"` ends it once, at its `'\n'`).
pub open spec fn ends_line(buf: Seq<char>, i: int) -> bool {
    let ch = char_at(buf, i);
    ch == '\n' || ch == '\u{85}' || ch == '\u{2028}' || ch == '\u{2029}' || (ch == '\r'
        && char_at(buf, i + 1) != '\n')
}

/// The 0-based line and column of the character at index `p`: each line
/// break starts a new line, a byte-order mark takes no column.
pub open spec fn position(buf: Seq<char>, p: nat) -> (nat, nat)
    decreases p,
{
    if p == 0 {
        (0, 0)
    } else {
        let prev = position(buf, (p - 1) as nat);
        if ends_line(buf, p - 1) {
            ((prev.0 + 1) as nat, 0)
        } else if char_at(buf, p - 1) == '\u{FEFF}' {
            prev
        } else {
            (prev.0, (prev.1 + 1) as nat)
        }
    }
}

/// A line or a column is never larger than the index.
pub proof fn lemma_position_bounds(buf: Seq<char>, p: nat)
    ensures
        position(buf, p).0 <= p,
        position(buf, p).1 <= p,
    decreases p,
{
    if p > 0 {
        lemma_position_bounds(buf, (p - 1) as nat);
    }
}

/// `m` is a position of `buf`: its line and column are those of its index.
pub open spec fn mark_in(buf: Seq<char>, m: Mark) -> bool {
    m.pointer <= buf.len() && position(buf, m.pointer as nat) == (m.line as nat, m.column as nat)
}

/// The marks of `t` are positions of `buf`, the start not after the end.
pub open spec fn token_in(buf: Seq<char>, t: Token) -> bool {
    mark_in(buf, t.start_mark) && mark_in(buf, t.end_mark) && t.start_mark.pointer
        <= t.end_mark.pointer
}

/// The character that a one-character indicator token stands on.
pub open spec fn indicator_of(k: TokenKind) -> Option<char> {
    match k {
        TokenKind::FlowSequenceStart => Some('['),
        TokenKind::FlowMappingStart => Some('{'),
        TokenKind::FlowSequenceEnd => Some(']'),
        TokenKind::FlowMappingEnd => Some('}'),
        TokenKind::FlowEntry => Some(','),
        TokenKind::BlockEntry => Some('-'),
        TokenKind::Value => Some(':'),
        _ => None,
    }
}

/// What the text of `buf` holds at the marks of `t`: an indicator covers
/// its character (`---` and `...` for the document markers), a key is an
/// explicit `?` or an empty mark before a simple key, the collection starts
/// and ends of the block context and the stream start and end are empty,
/// an anchor or alias covers `&` or `*` and then its name, a tag or
/// directive starts with `!` or `%`, a quoted or block scalar starts with
/// its style character (a plain scalar has none), and a quoted scalar ends
/// with its closing quote.
pub open spec fn token_text(buf: Seq<char>, t: Token) -> bool {
    let s = t.start_mark.pointer as int;
    let e = t.end_mark.pointer as int;
    match t.kind {
        TokenKind::StreamStart => s == e,
        TokenKind::StreamEnd => s == e,
        TokenKind::BlockSequenceStart => s == e,
        TokenKind::BlockMappingStart => s == e,
        TokenKind::BlockEnd => s == e,
        TokenKind::Key => s == e || (e == s + 1 && char_at(buf, s) == '?'),
        TokenKind::DocumentStart => e == s + 3 && char_at(buf, s) == '-' && char_at(buf, s + 1) == '-'
            && char_at(buf, s + 2) == '-',
        TokenKind::DocumentEnd => e == s + 3 && char_at(buf, s) == '.' && char_at(buf, s + 1) == '.'
            && char_at(buf, s + 2) == '.',
        TokenKind::Anchor(v) => char_at(buf, s) == '&' && v@ == buf.subrange(s + 1, e),
        TokenKind::Alias(v) => char_at(buf, s) == '*' && v@ == buf.subrange(s + 1, e),
        TokenKind::Tag { .. } => char_at(buf, s) == '!',
        TokenKind::Directive { .. } => char_at(buf, s) == '%',
        TokenKind::Scalar { plain, style, .. } => plain == (style is None) && (style matches Some(c)
            ==> char_at(buf, s) == c) && (style matches Some(c) ==> ((c == '\'' || c == '"') ==> e
            >= s + 2 && char_at(buf, e - 1) == c)),
        _ => indicator_of(t.kind) matches Some(c) && e == s + 1 && char_at(buf, s) == c,
    }
}

/// `e` has a position, and its marks are positions of `buf`.
pub open spec fn error_in(buf: Seq<char>, e: YamlError) -> bool {
    (e.problem_mark matches Some(m) && mark_in(buf, m)) && (e.context_mark matches Some(m)
        ==> mark_in(buf, m))
}

/// Every mark that `e` holds lies in the buffer `buf`.
pub open spec fn marks_in(buf: Seq<char>, e: YamlError) -> bool {
    (e.problem_mark matches Some(m) ==> mark_in(buf, m)) && (e.context_mark matches Some(m)
        ==> mark_in(buf, m))
}

/// The characters of `content` followed by the `'\0'` end marker.
pub open spec fn buffer_of(content: Seq<char>) -> Seq<char> {
    content.push('\0')
}

// --- The scanner -----------------------------------------------------------

/// A place where a simple key (one without `?`) may start.
#[derive(Debug, Clone, Copy)]
pub struct SimpleKey {
    /// The flow level at which the key was seen.
    pub level: usize,
    /// The number of the token that would become the key.
    pub token_number: usize,
    /// In the block context at the current indentation: a `:` must follow.
    pub required: bool,
    pub index: usize,
    pub line: usize,
    pub mark: Mark,
}

/// The index of the first key of `keys` at flow level `level`, if any.
pub open spec fn first_key_at(keys: Seq<SimpleKey>, level: usize, i: int) -> bool {
    0 <= i < keys.len() && keys[i].level == level && forall|k: int|
        0 <= k < i ==> #[trigger] keys[k].level != level
}

/// `after` is `before` without its first key at flow level `level` (the
/// same when there is none).
pub open spec fn key_removed(before: Seq<SimpleKey>, after: Seq<SimpleKey>, level: usize) -> bool {
    ||| exists|i: int| first_key_at(before, level, i) && after == before.remove(i)
    ||| (forall|k: int| 0 <= k < before.len() ==> #[trigger] before[k].level != level) && after == before
}

/// The first key of `keys` at flow level `level` is required.
pub open spec fn required_key_at(keys: Seq<SimpleKey>, level: usize) -> bool {
    exists|i: int| first_key_at(keys, level, i) && keys[i].required
}

pub struct Scanner {
    buffer: Vec<char>,
    pointer: usize,
    line: usize,
    column: usize,
    done: bool,
    flow_level: usize,
    tokens: Vec<Token>,
    tokens_taken: usize,
    indent: i64,
    indents: Vec<i64>,
    allow_simple_key: bool,
    /// At most one per flow level, in the order they were saved.
    possible_simple_keys: Vec<SimpleKey>,
    failed: bool,
    /// The error that failed the scanner, handed out again on later calls.
    error: Option<YamlError>,
}

impl Scanner {
    /// The buffer: the scanned characters and the `'\0'` end marker.
    pub closed spec fn buffer_view(&self) -> Seq<char> {
        self.buffer@
    }

    /// The tokens scanned and not yet taken.
    pub closed spec fn queued(&self) -> Seq<Token> {
        self.tokens@
    }

    /// The current position.
    pub closed spec fn pos(&self) -> usize {
        self.pointer
    }

    /// The mark of the current position.
    pub closed spec fn current_mark(&self) -> Mark {
        Mark { pointer: self.pointer, line: self.line, column: self.column }
    }

    pub closed spec fn is_done(&self) -> bool {
        self.done
    }

    pub closed spec fn is_failed(&self) -> bool {
        self.failed
    }

    /// The first queued token can be handed out as it is: no error, and no
    /// possible simple key would put a token before it.
    pub closed spec fn ready(&self) -> bool {
        &&& !self.failed
        &&& self.tokens@.len() > 0
        &&& forall|i: int|
            0 <= i < self.possible_simple_keys@.len()
                ==> #[trigger] self.possible_simple_keys@[i].token_number != self.tokens_taken
        &&& self.keys_fresh()
    }

    /// Only the end of the input is left, with no block open, no possible
    /// simple key pending, and neither the end nor an error reached yet.
    pub closed spec fn clean_rest(&self) -> bool {
        &&& !self.done
        &&& !self.failed
        &&& self.possible_simple_keys@.len() == 0
        &&& self.indent == -1
        &&& char_at(self.buffer@, self.pointer as int) == '\0'
    }

    /// Nothing is queued and only the end of the input is left: the next
    /// token is the stream end, at `current_mark()`.
    pub closed spec fn at_clean_end(&self) -> bool {
        self.clean_rest() && self.tokens@.len() == 0
    }

    /// No block is open, no possible simple key is pending, neither the end
    /// nor an error was reached, and the next character closes a flow
    /// collection or parts its entries.
    pub closed spec fn closer_rest(&self) -> bool {
        &&& !self.done
        &&& !self.failed
        &&& self.possible_simple_keys@.len() == 0
        &&& self.indent == -1
        &&& ({
            let c = char_at(self.buffer@, self.pointer as int);
            c == ']' || c == '}' || c == ','
        })
    }

    /// Nothing is queued and the next token is the flow indicator at the
    /// current position.
    pub closed spec fn at_flow_closer(&self) -> bool {
        self.closer_rest() && self.tokens@.len() == 0
    }

    /// The character at the current position.
    pub closed spec fn current_char(&self) -> char {
        char_at(self.buffer@, self.pointer as int)
    }

    /// At the clean end nothing is queued, so nothing is ready.
    pub proof fn lemma_clean_end(&self)
        requires
            self.at_clean_end(),
        ensures
            !self.ready(),
            self.queued().len() == 0,
    {
    }

    /// A possible simple key on the current line, at most 1024 characters back.
    spec fn fresh_key(&self, k: SimpleKey) -> bool {
        k.line == self.line && self.pointer - k.index <= 1024
    }

    spec fn keys_fresh(&self) -> bool {
        forall|i: int|
            0 <= i < self.possible_simple_keys@.len() ==> #[trigger] self.fresh_key(
                self.possible_simple_keys@[i],
            )
    }

    spec fn key_ok(&self, k: SimpleKey) -> bool {
        &&& mark_in(self.buffer@, k.mark)
        &&& k.index == k.mark.pointer
        &&& k.line == k.mark.line
        &&& k.index <= self.pointer
        &&& self.tokens_taken <= k.token_number
        &&& k.token_number <= self.tokens_taken + self.tokens@.len()
    }

    spec fn keys_ok(&self) -> bool {
        forall|i: int|
            0 <= i < self.possible_simple_keys@.len() ==> #[trigger] self.key_ok(
                self.possible_simple_keys@[i],
            )
    }

    /// The possible simple keys stay valid when the scanner only moves
    /// forward and queues more tokens.
    proof fn lemma_keys_carry(a: Scanner, b: Scanner)
        requires
            a.keys_ok(),
            b.possible_simple_keys@ == a.possible_simple_keys@,
            b.buffer@ == a.buffer@,
            a.pointer <= b.pointer,
            b.tokens_taken == a.tokens_taken,
            a.tokens@.len() <= b.tokens@.len(),
        ensures
            b.keys_ok(),
    {
        assert forall|i: int| 0 <= i < b.possible_simple_keys@.len() implies #[trigger] b.key_ok(
            b.possible_simple_keys@[i],
        ) by {
            assert(a.key_ok(a.possible_simple_keys@[i]));
        }
    }

    spec fn tokens_ok(&self) -> bool {
        forall|i: int|
            0 <= i < self.tokens@.len() ==> token_in(self.buffer@, #[trigger] self.tokens@[i])
                && token_text(self.buffer@, self.tokens@[i]) && self.tokens@[i].end_mark.pointer
                <= self.pointer
    }

    spec fn indents_ok(&self) -> bool {
        &&& -1 <= self.indent <= self.pointer
        &&& self.indent >= 0 ==> self.indents@.len() > 0
        &&& self.indents@.len() > 0 ==> self.indents@[0] == -1
        &&& forall|i: int|
            0 <= i < self.indents@.len() ==> -1 <= #[trigger] self.indents@[i] <= self.pointer
    }

    /// The scanner's invariant.
    pub closed spec fn wf(&self) -> bool {
        &&& 1 <= self.buffer@.len() <= max_text_len() + 1
        &&& self.buffer@.last() == '\0'
        &&& self.pointer < self.buffer@.len()
        &&& position(self.buffer@, self.pointer as nat) == (self.line as nat, self.column as nat)
        &&& self.line <= self.pointer
        &&& self.column <= self.pointer
        &&& self.flow_level <= self.pointer
        &&& self.tokens_ok()
        &&& self.keys_ok()
        &&& self.indents_ok()
        &&& self.done ==> (self.tokens@.len() == 0 || self.tokens@.last().kind is StreamEnd)
        &&& self.done ==> self.possible_simple_keys@.len() == 0
    }

    /// Only the position moved.
    spec fn moved_from(&self, before: &Scanner) -> bool {
        &&& self.buffer@ == before.buffer@
        &&& self.done == before.done
        &&& self.flow_level == before.flow_level
        &&& self.tokens@ == before.tokens@
        &&& self.tokens_taken == before.tokens_taken
        &&& self.indent == before.indent
        &&& self.indents@ == before.indents@
        &&& self.allow_simple_key == before.allow_simple_key
        &&& self.possible_simple_keys@ == before.possible_simple_keys@
        &&& self.failed == before.failed
    }

    /// Create a scanner over `content`; a `'\0'` end marker is appended and
    /// the stream-start token is queued.
    pub fn new(content: &str) -> (s: Self)
        requires
            content@.len() <= max_text_len(),
        ensures
            s.wf(),
            s.buffer_view() == buffer_of(content@),
            s.pos() == 0,
            s.queued().len() == 1,
            s.queued()[0].kind is StreamStart,
            s.queued()[0].start_mark == (Mark { pointer: 0, line: 0, column: 0 }),
            s.queued()[0].end_mark == (Mark { pointer: 0, line: 0, column: 0 }),
            !s.is_done(),
            !s.is_failed(),
            s.ready(),
            s.valid(),
            s.taken() == 0,
            content@.len() == 0 ==> s.clean_rest(),
            content@.len() > 0 && (content@[0] == ']' || content@[0] == '}' || content@[0] == ',')
                ==> s.closer_rest() && s.current_char() == content@[0] && s.current_mark() == (Mark {
                pointer: 0,
                line: 0,
                column: 0,
            }),
    {
        let mut buffer = str_chars(content);
        buffer.push('\0');
        let mut scanner = Scanner {
            buffer,
            pointer: 0,
            line: 0,
            column: 0,
            done: false,
            flow_level: 0,
            tokens: Vec::new(),
            tokens_taken: 0,
            indent: -1,
            indents: Vec::new(),
            allow_simple_key: true,
            possible_simple_keys: Vec::new(),
            failed: false,
            error: None,
        };
        let mark = scanner.get_mark();
        scanner.tokens.push(Token::new(TokenKind::StreamStart, mark, mark));
        scanner
    }

    /// The characters scanned, with the `'\0'` end marker.
    pub fn buffer(&self) -> (r: &[char])
        ensures
            r@ == self.buffer_view(),
    {
        self.buffer.as_slice()
    }

    pub fn into_buffer(self) -> (r: Vec<char>)
        ensures
            r@ == self.buffer_view(),
    {
        self.buffer
    }

    // --- Reading -----------------------------------------------------------

    /// The character `index` places ahead, or `'\0'` past the end.
    fn peek(&self, index: usize) -> (r: char)
        requires
            self.pointer <= self.buffer@.len(),
        ensures
            r == char_at(self.buffer@, self.pointer + index),
    {
        if index < self.buffer.len() - self.pointer {
            self.buffer[self.pointer + index]
        } else {
            '\0'
        }
    }

    fn peek0(&self) -> (r: char)
        requires
            self.pointer <= self.buffer@.len(),
        ensures
            r == char_at(self.buffer@, self.pointer as int),
    {
        self.peek(0)
    }

    /// The next `length` characters (fewer at the end of the buffer).
    fn prefix(&self, length: usize) -> (r: Vec<char>)
        requires
            self.wf(),
            self.pointer + length <= self.buffer@.len(),
        ensures
            r@ == self.buffer@.subrange(self.pointer as int, self.pointer + length),
    {
        slice_to_vec(self.buffer.as_slice(), self.pointer, self.pointer + length)
    }

    /// Move one character forward, keeping the line and column.
    fn forward1(&mut self)
        requires
            old(self).wf(),
            old(self).pointer + 1 < old(self).buffer@.len(),
        ensures
            final(self).wf(),
            final(self).pointer == old(self).pointer + 1,
            final(self).moved_from(old(self)),
    {
        let ch = self.buffer[self.pointer];
        self.pointer = self.pointer + 1;
        let next = self.buffer[self.pointer];
        if ch == '\n' || ch == '\u{85}' || ch == '\u{2028}' || ch == '\u{2029}' || (ch == '\r'
            && next != '\n') {
            self.line = self.line + 1;
            self.column = 0;
        } else if ch != '\u{FEFF}' {
            self.column = self.column + 1;
        }
        proof {
            let buf = self.buffer@;
            assert(char_at(buf, self.pointer - 1) == ch);
            assert(char_at(buf, self.pointer as int) == next);
            assert(self.tokens_ok());
            assert(self.keys_ok()) by {
                assert forall|i: int| 0 <= i < self.possible_simple_keys@.len() implies #[trigger] self.key_ok(
                    self.possible_simple_keys@[i],
                ) by {
                    assert(old(self).key_ok(old(self).possible_simple_keys@[i]));
                }
            }
        }
    }

    /// Move `length` characters forward.
    fn forward(&mut self, length: usize)
        requires
            old(self).wf(),
            old(self).pointer + length < old(self).buffer@.len(),
        ensures
            final(self).wf(),
            final(self).pointer == old(self).pointer + length,
            final(self).moved_from(old(self)),
    {
        let mut k: usize = 0;
        while k < length
            invariant
                self.wf(),
                k <= length,
                self.pointer == old(self).pointer + k,
                old(self).pointer + length < old(self).buffer@.len(),
                self.moved_from(old(self)),
            decreases length - k,
        {
            self.forward1();
            k = k + 1;
        }
    }

    pub fn get_mark(&self) -> (m: Mark)
        requires
            self.wf(),
        ensures
            mark_in(self.buffer_view(), m),
            m == self.current_mark(),
    {
        Mark { pointer: self.pointer, line: self.line, column: self.column }
    }

    /// Everything but the position and the simple-key flag is unchanged.
    spec fn kept_state(&self, before: &Scanner) -> bool {
        &&& self.buffer@ == before.buffer@
        &&& self.done == before.done
        &&& self.flow_level == before.flow_level
        &&& self.tokens@ == before.tokens@
        &&& self.tokens_taken == before.tokens_taken
        &&& self.indent == before.indent
        &&& self.indents@ == before.indents@
        &&& self.possible_simple_keys@ == before.possible_simple_keys@
        &&& self.failed == before.failed
    }

    /// The queued tokens and the open indentation levels.
    spec fn load(&self) -> int {
        (self.tokens@.len() + self.indents@.len()) as int
    }

    /// Room for what a fetch adds: counts stay far below `usize::MAX`.
    pub closed spec fn counts_ok(&self) -> bool {
        self.failed || self.tokens_taken + self.load() <= 4 * self.pointer + 1 + (if self.done {
            1int
        } else {
            0
        })
    }

    /// The invariant together with the bound on counts.
    spec fn steady(&self) -> bool {
        self.wf() && self.counts_ok()
    }

    /// The invariant, the bound on counts, and, once the scanner failed, the
    /// error that failed it, with its marks in the buffer.
    pub closed spec fn valid(&self) -> bool {
        &&& self.steady()
        &&& self.failed ==> (self.error matches Some(e) && error_in(self.buffer@, e))
    }

    /// The error that failed the scanner, if it failed.
    pub closed spec fn failure(&self) -> Option<YamlError> {
        if self.failed {
            self.error
        } else {
            None
        }
    }

    /// A fetch kept the invariant and either moved forward, adding at most
    /// four queued tokens or indentation levels per character, or ended the
    /// stream; an error has its marks in the buffer.
    spec fn fetched(&self, before: &Scanner, r: Result<(), YamlError>) -> bool {
        &&& self.wf()
        &&& self.buffer@ == before.buffer@
        &&& self.tokens_taken == before.tokens_taken
        &&& self.pointer >= before.pointer
        &&& match r {
            Ok(_) => {
                &&& self.tokens@.len() > 0
                &&& {
                    ||| (self.pointer > before.pointer && self.done == before.done && self.load()
                        <= before.load() + 4 * (self.pointer - before.pointer))
                    ||| (self.done && self.load() <= before.load() + 1)
                }
            },
            Err(e) => error_in(self.buffer@, e),
        }
    }

    /// The break at the current position, consumed: `"\n"` for `'\r'`,
    /// `'\n'`, `"\r\n"` or `'\u{85}'`, the character itself for the line
    /// and paragraph separators, nothing otherwise.
    fn scan_line_break(&mut self) -> (r: Vec<char>)
        requires
            old(self).wf(),
        ensures
            final(self).wf(),
            final(self).moved_from(old(self)),
            ({
                let ch = char_at(old(self).buffer@, old(self).pointer as int);
                if ch == '\r' || ch == '\n' || ch == '\u{85}' {
                    r@ == seq!['\n'] && final(self).pointer > old(self).pointer
                } else if ch == '\u{2028}' || ch == '\u{2029}' {
                    r@ == seq![ch] && final(self).pointer == old(self).pointer + 1
                } else {
                    r@.len() == 0 && *final(self) == *old(self)
                }
            }),
            r@ == break_text(old(self).buffer@, old(self).pointer as int),
            final(self).pointer == break_end(old(self).buffer@, old(self).pointer as int),
    {
        let ch = self.peek0();
        if ch == '\r' || ch == '\n' || ch == '\u{85}' {
            if ch == '\r' && self.peek(1) == '\n' {
                self.forward(2);
            } else {
                self.forward1();
            }
            let mut r: Vec<char> = Vec::new();
            r.push('\n');
            r
        } else if ch == '\u{2028}' || ch == '\u{2029}' {
            self.forward1();
            let mut r: Vec<char> = Vec::new();
            r.push(ch);
            r
        } else {
            Vec::new()
        }
    }

    /// Skip spaces, comments and line breaks up to the next token; a line
    /// break in the block context allows a simple key again.
    fn scan_to_next_token(&mut self)
        requires
            old(self).wf(),
        ensures
            final(self).wf(),
            final(self).kept_state(old(self)),
            final(self).pointer >= old(self).pointer,
            ({
                let c = char_at(final(self).buffer@, final(self).pointer as int);
                c != ' ' && c != '#' && !is_break_char(c)
            }),
            starts_token(char_at(old(self).buffer@, old(self).pointer as int)) ==> *final(self)
                == *old(self),
    {
        let ghost at_end = starts_token(char_at(self.buffer@, self.pointer as int));
        if self.pointer == 0 && self.peek0() == '\u{FEFF}' {
            self.forward1();
        }
        let mut found = false;
        while !found
            invariant
                self.wf(),
                self.kept_state(old(self)),
                self.pointer >= old(self).pointer,
                at_end ==> *self == *old(self),
                at_end == starts_token(char_at(old(self).buffer@, old(self).pointer as int)),
                found ==> ({
                    let c = char_at(self.buffer@, self.pointer as int);
                    c != ' ' && c != '#' && !is_break_char(c)
                }),
            decreases self.buffer@.len() - self.pointer + (if found {
                0int
            } else {
                1
            }),
        {
            let ghost p0 = self.pointer;
            while self.peek0() == ' '
                invariant
                    self.wf(),
                    self.kept_state(old(self)),
                    self.pointer >= p0 >= old(self).pointer,
                    at_end ==> *self == *old(self),
                    at_end == starts_token(char_at(old(self).buffer@, old(self).pointer as int)),
                decreases self.buffer@.len() - self.pointer,
            {
                self.forward1();
            }
            if self.peek0() == '#' {
                while !in_z_break(self.peek0())
                    invariant
                        self.wf(),
                        self.kept_state(old(self)),
                        self.pointer >= p0 >= old(self).pointer,
                        !at_end,
                    decreases self.buffer@.len() - self.pointer,
                {
                    self.forward1();
                }
            }
            let ghost c = char_at(self.buffer@, self.pointer as int);
            assert(c != ' ' && c != '#');
            let lb = self.scan_line_break();
            if lb.len() > 0 {
                if self.flow_level == 0 {
                    let ghost mid = *self;
                    self.allow_simple_key = true;
                    proof {
                        Scanner::lemma_keys_carry(mid, *self);
                    }
                }
            } else {
                found = true;
            }
        }
    }

    // --- Simple keys -------------------------------------------------------

    /// The smallest token number of a possible simple key.
    fn next_possible_simple_key(&self) -> (r: Option<usize>)
        ensures
            r is None <==> self.possible_simple_keys@.len() == 0,
            r matches Some(n) ==> (exists|i: int|
                0 <= i < self.possible_simple_keys@.len()
                    && #[trigger] self.possible_simple_keys@[i].token_number == n),
            r matches Some(n) ==> (forall|i: int|
                0 <= i < self.possible_simple_keys@.len() ==> n
                    <= #[trigger] self.possible_simple_keys@[i].token_number),
    {
        let mut best: Option<usize> = None;
        let mut i: usize = 0;
        while i < self.possible_simple_keys.len()
            invariant
                i <= self.possible_simple_keys@.len(),
                best is None <==> i == 0,
                best matches Some(n) ==> (exists|k: int|
                    0 <= k < i && #[trigger] self.possible_simple_keys@[k].token_number == n),
                best matches Some(n) ==> (forall|k: int|
                    0 <= k < i ==> n <= #[trigger] self.possible_simple_keys@[k].token_number),
            decreases self.possible_simple_keys@.len() - i,
        {
            let t = self.possible_simple_keys[i].token_number;
            match best {
                None => {
                    best = Some(t);
                },
                Some(b) => {
                    if t < b {
                        best = Some(t);
                    }
                },
            }
            i = i + 1;
        }
        best
    }

    /// Forget the possible simple keys that can no longer be keys (another
    /// line, or more than 1024 characters back); one that was required is
    /// an error.
    fn stale_possible_simple_keys(&mut self) -> (r: Result<(), YamlError>)
        requires
            old(self).wf(),
        ensures
            final(self).wf(),
            final(self).buffer@ == old(self).buffer@,
            final(self).pointer == old(self).pointer,
            final(self).line == old(self).line,
            final(self).column == old(self).column,
            final(self).done == old(self).done,
            final(self).flow_level == old(self).flow_level,
            final(self).tokens@ == old(self).tokens@,
            final(self).tokens_taken == old(self).tokens_taken,
            final(self).indent == old(self).indent,
            final(self).indents@ == old(self).indents@,
            final(self).allow_simple_key == old(self).allow_simple_key,
            final(self).possible_simple_keys@.len() <= old(self).possible_simple_keys@.len(),
            old(self).possible_simple_keys@.len() == 0 ==> final(self).possible_simple_keys@.len()
                == 0 && r is Ok,
            old(self).keys_fresh() ==> r is Ok,
            final(self).keys_fresh(),
            (forall|i: int|
                0 <= i < old(self).possible_simple_keys@.len()
                    ==> #[trigger] old(self).possible_simple_keys@[i].token_number
                    != old(self).tokens_taken) ==> (forall|i: int|
                0 <= i < final(self).possible_simple_keys@.len()
                    ==> #[trigger] final(self).possible_simple_keys@[i].token_number
                    != final(self).tokens_taken),
            match r {
                Ok(_) => final(self).failed == old(self).failed,
                Err(e) => final(self).failed && error_in(final(self).buffer@, e),
            },
    {
        let mut error: Option<YamlError> = None;
        let line = self.line;
        let index = self.pointer;
        let mark = self.get_mark();
        let mut kept: Vec<SimpleKey> = Vec::new();
        let mut i: usize = 0;
        while i < self.possible_simple_keys.len()
            invariant
                self.wf(),
                i <= self.possible_simple_keys@.len(),
                kept@.len() <= i,
                index == self.pointer,
                line == self.line,
                mark_in(self.buffer@, mark),
                forall|k: int| 0 <= k < kept@.len() ==> #[trigger] self.key_ok(kept@[k]),
                error matches Some(e) ==> error_in(self.buffer@, e),
                error is Some ==> self.possible_simple_keys@.len() > 0,
                self.keys_fresh() ==> error is None,
                forall|k: int| 0 <= k < kept@.len() ==> #[trigger] self.fresh_key(kept@[k]),
                (forall|j: int|
                    0 <= j < self.possible_simple_keys@.len()
                        ==> #[trigger] self.possible_simple_keys@[j].token_number
                        != self.tokens_taken) ==> (forall|k: int|
                    0 <= k < kept@.len() ==> #[trigger] kept@[k].token_number
                        != self.tokens_taken),
            decreases self.possible_simple_keys@.len() - i,
        {
            let key = self.possible_simple_keys[i];
            proof {
                assert(self.key_ok(self.possible_simple_keys@[i as int]));
            }
            if key.line != line || index - key.index > 1024 {
                proof {
                    if self.keys_fresh() {
                        assert(self.fresh_key(self.possible_simple_keys@[i as int]));
                    }
                }
                if key.required && error.is_none() {
                    error = Some(
                        YamlError::new(
                            Some("while scanning a simple key"),
                            Some(key.mark),
                            "could not find expected ':'".to_owned(),
                            Some(mark),
                        ),
                    );
                }
            } else {
                kept.push(key);
            }
            i = i + 1;
        }
        let ghost mid = *self;
        self.possible_simple_keys = kept;
        proof {
            assert forall|k: int| 0 <= k < self.possible_simple_keys@.len() implies #[trigger] self.key_ok(
                self.possible_simple_keys@[k],
            ) by {
                assert(mid.key_ok(self.possible_simple_keys@[k]));
            }
            assert forall|k: int| 0 <= k < self.possible_simple_keys@.len() implies #[trigger] self.fresh_key(
                self.possible_simple_keys@[k],
            ) by {
                assert(mid.fresh_key(self.possible_simple_keys@[k]));
            }
        }
        match error {
            Some(e) => {
                let ghost mid2 = *self;
                self.failed = true;
                proof {
                    Scanner::lemma_keys_carry(mid2, *self);
                    assert forall|k: int| 0 <= k < self.possible_simple_keys@.len() implies #[trigger] self.fresh_key(
                        self.possible_simple_keys@[k],
                    ) by {
                        assert(mid2.fresh_key(self.possible_simple_keys@[k]));
                    }
                }
                Err(e)
            },
            None => Ok(()),
        }
    }

    /// The index of the possible simple key of the current flow level.
    fn current_key_index(&self) -> (r: Option<usize>)
        ensures
            r matches Some(i) ==> i < self.possible_simple_keys@.len()
                && self.possible_simple_keys@[i as int].level == self.flow_level && forall|k: int|
                0 <= k < i ==> #[trigger] self.possible_simple_keys@[k].level != self.flow_level,
            r is None ==> forall|i: int|
                0 <= i < self.possible_simple_keys@.len()
                    ==> #[trigger] self.possible_simple_keys@[i].level != self.flow_level,
    {
        let mut i: usize = 0;
        while i < self.possible_simple_keys.len()
            invariant
                i <= self.possible_simple_keys@.len(),
                forall|k: int|
                    0 <= k < i ==> #[trigger] self.possible_simple_keys@[k].level != self.flow_level,
            decreases self.possible_simple_keys@.len() - i,
        {
            if self.possible_simple_keys[i].level == self.flow_level {
                return Some(i);
            }
            i = i + 1;
        }
        None
    }

    /// Forget the possible simple key of the current flow level; one that
    /// was required is an error.
    fn remove_possible_simple_key(&mut self) -> (r: Result<(), YamlError>)
        requires
            old(self).wf(),
        ensures
            final(self).wf(),
            final(self).buffer@ == old(self).buffer@,
            final(self).pointer == old(self).pointer,
            final(self).line == old(self).line,
            final(self).column == old(self).column,
            final(self).done == old(self).done,
            final(self).flow_level == old(self).flow_level,
            final(self).tokens@ == old(self).tokens@,
            final(self).tokens_taken == old(self).tokens_taken,
            final(self).indent == old(self).indent,
            final(self).indents@ == old(self).indents@,
            final(self).allow_simple_key == old(self).allow_simple_key,
            final(self).possible_simple_keys@.len() <= old(self).possible_simple_keys@.len(),
            match r {
                Ok(_) => final(self).failed == old(self).failed,
                Err(e) => final(self).failed && error_in(final(self).buffer@, e),
            },
            r is Err <==> required_key_at(old(self).possible_simple_keys@, old(self).flow_level),
            r is Ok ==> key_removed(
                old(self).possible_simple_keys@,
                final(self).possible_simple_keys@,
                old(self).flow_level,
            ),
    {
        if let Some(i) = self.current_key_index() {
            let key = self.possible_simple_keys[i];
            proof {
                assert(self.key_ok(self.possible_simple_keys@[i as int]));
            }
            if key.required {
                assert(first_key_at(self.possible_simple_keys@, self.flow_level, i as int));
                let e = YamlError::new(
                    Some("while scanning a simple key"),
                    Some(key.mark),
                    "could not find expected ':'".to_owned(),
                    Some(self.get_mark()),
                );
                let ghost mid = *self;
                self.failed = true;
                proof {
                    Scanner::lemma_keys_carry(mid, *self);
                }
                return Err(e);
            }
            let ghost before = self.possible_simple_keys@;
            let ghost mid = *self;
            self.possible_simple_keys.remove(i);
            proof {
                assert forall|k: int| 0 <= k < self.possible_simple_keys@.len() implies #[trigger] self.key_ok(
                    self.possible_simple_keys@[k],
                ) by {
                    if k < i {
                        assert(self.possible_simple_keys@[k] == before[k]);
                        assert(mid.key_ok(mid.possible_simple_keys@[k]));
                    } else {
                        assert(self.possible_simple_keys@[k] == before[k + 1]);
                        assert(mid.key_ok(mid.possible_simple_keys@[k + 1]));
                    }
                }
            }
        }
        Ok(())
    }

    /// Remember that a simple key may start here.
    fn save_possible_simple_key(&mut self) -> (r: Result<(), YamlError>)
        requires
            old(self).wf(),
            !old(self).done,
            old(self).tokens_taken + old(self).tokens@.len() <= usize::MAX,
        ensures
            final(self).wf(),
            final(self).buffer@ == old(self).buffer@,
            final(self).pointer == old(self).pointer,
            final(self).line == old(self).line,
            final(self).column == old(self).column,
            final(self).done == old(self).done,
            final(self).flow_level == old(self).flow_level,
            final(self).tokens@ == old(self).tokens@,
            final(self).tokens_taken == old(self).tokens_taken,
            final(self).indent == old(self).indent,
            final(self).indents@ == old(self).indents@,
            final(self).allow_simple_key == old(self).allow_simple_key,
            match r {
                Ok(_) => final(self).failed == old(self).failed,
                Err(e) => final(self).failed && error_in(final(self).buffer@, e),
            },
            !old(self).allow_simple_key ==> r is Ok && final(self).possible_simple_keys@ == old(self).possible_simple_keys@,
            old(self).allow_simple_key ==> (r is Err <==> required_key_at(
                old(self).possible_simple_keys@,
                old(self).flow_level,
            )),
            old(self).allow_simple_key && r is Ok ==> {
                let keys = final(self).possible_simple_keys@;
                &&& keys.len() >= 1
                &&& key_removed(old(self).possible_simple_keys@, keys.drop_last(), old(self).flow_level)
                &&& keys.last() == (SimpleKey {
                    level: old(self).flow_level,
                    token_number: (old(self).tokens_taken + old(self).tokens@.len()) as usize,
                    required: old(self).flow_level == 0 && old(self).indent == old(self).column as i64,
                    index: old(self).pointer,
                    line: old(self).line,
                    mark: old(self).current_mark(),
                })
            },
    {
        let required = self.flow_level == 0 && self.indent == self.column as i64;
        if self.allow_simple_key {
            self.remove_possible_simple_key()?;
            let token_number = self.tokens_taken + self.tokens.len();
            let key = SimpleKey {
                level: self.flow_level,
                token_number,
                required,
                index: self.pointer,
                line: self.line,
                mark: self.get_mark(),
            };
            let ghost before = self.possible_simple_keys@;
            let ghost mid = *self;
            self.possible_simple_keys.push(key);
            assert(self.possible_simple_keys@.drop_last() =~= before);
            proof {
                assert forall|k: int| 0 <= k < self.possible_simple_keys@.len() implies #[trigger] self.key_ok(
                    self.possible_simple_keys@[k],
                ) by {
                    if k < before.len() {
                        assert(self.possible_simple_keys@[k] == before[k]);
                        assert(mid.key_ok(mid.possible_simple_keys@[k]));
                    }
                }
            }
        }
        Ok(())
    }

    // --- Indentation -------------------------------------------------------

    /// Close the block collections indented deeper than `column`, with a
    /// block-end token each (the flow context ignores indentation).
    fn unwind_indent(&mut self, column: i64)
        requires
            old(self).wf(),
            !old(self).done,
            column >= -1,
        ensures
            final(self).wf(),
            final(self).buffer@ == old(self).buffer@,
            final(self).pointer == old(self).pointer,
            final(self).line == old(self).line,
            final(self).column == old(self).column,
            final(self).done == old(self).done,
            final(self).flow_level == old(self).flow_level,
            final(self).tokens_taken == old(self).tokens_taken,
            final(self).allow_simple_key == old(self).allow_simple_key,
            final(self).possible_simple_keys@ == old(self).possible_simple_keys@,
            final(self).failed == old(self).failed,
            final(self).load() == old(self).load(),
            final(self).tokens@.len() >= old(self).tokens@.len(),
            old(self).flow_level == 0 ==> final(self).indent <= column,
            old(self).flow_level == 0 ==> final(self).indent == unwound_indent(
                old(self).indent,
                old(self).indents@,
                column as int,
            ),
            old(self).flow_level != 0 ==> final(self).indent == old(self).indent,
            old(self).indent <= column || old(self).flow_level != 0 ==> final(self).tokens@ == old(self).tokens@ && final(self).indent == old(self).indent,
    {
        if self.flow_level != 0 {
            return ;
        }
        while self.indent > column
            invariant
                self.wf(),
                !self.done,
                column >= -1,
                self.buffer@ == old(self).buffer@,
                self.pointer == old(self).pointer,
                self.line == old(self).line,
                self.column == old(self).column,
                self.done == old(self).done,
                self.flow_level == old(self).flow_level,
                self.tokens_taken == old(self).tokens_taken,
                self.allow_simple_key == old(self).allow_simple_key,
                self.possible_simple_keys@ == old(self).possible_simple_keys@,
                self.failed == old(self).failed,
                self.load() == old(self).load(),
                self.tokens@.len() >= old(self).tokens@.len(),
            unwound_indent(self.indent, self.indents@, column as int) == unwound_indent(
                    old(self).indent,
                    old(self).indents@,
                    column as int,
                ),
                old(self).flow_level == 0,
            old(self).indent <= column ==> self.tokens@ == old(self).tokens@ && self.indent == old(self).indent,
            decreases self.indents@.len(),
        {
            let mark = self.get_mark();
            let ghost before = *self;
            self.indent = match self.indents.pop() {
                Some(v) => v,
                None => -1,
            };
            self.tokens.push(Token::new(TokenKind::BlockEnd, mark, mark));
            proof {
                assert(self.tokens_ok()) by {
                    assert forall|i: int| 0 <= i < self.tokens@.len() implies token_in(
                        self.buffer@,
                        #[trigger] self.tokens@[i],
                    ) && self.tokens@[i].end_mark.pointer <= self.pointer by {
                        if i < before.tokens@.len() {
                            assert(self.tokens@[i] == before.tokens@[i]);
                        }
                    }
                }
                assert(self.keys_ok()) by {
                    assert forall|i: int| 0 <= i < self.possible_simple_keys@.len() implies #[trigger] self.key_ok(
                        self.possible_simple_keys@[i],
                    ) by {
                        assert(before.key_ok(before.possible_simple_keys@[i]));
                    }
                }
                assert(self.indents_ok()) by {
                    assert forall|i: int| 0 <= i < self.indents@.len() implies -1 <= #[trigger] self.indents@[i]
                        <= self.pointer by {
                        assert(self.indents@[i] == before.indents@[i]);
                    }
                }
            }
        }
    }

    /// Open a deeper indentation level at `column`, if it is deeper.
    fn add_indent(&mut self, column: i64) -> (r: bool)
        requires
            old(self).wf(),
            -1 <= column <= old(self).pointer,
        ensures
            final(self).wf(),
            final(self).buffer@ == old(self).buffer@,
            final(self).pointer == old(self).pointer,
            final(self).line == old(self).line,
            final(self).column == old(self).column,
            final(self).done == old(self).done,
            final(self).flow_level == old(self).flow_level,
            final(self).tokens@ == old(self).tokens@,
            final(self).tokens_taken == old(self).tokens_taken,
            final(self).allow_simple_key == old(self).allow_simple_key,
            final(self).possible_simple_keys@ == old(self).possible_simple_keys@,
            final(self).failed == old(self).failed,
            final(self).indents@.len() == old(self).indents@.len() + (if r {
                1int
            } else {
                0
            }),
            r == (old(self).indent < column),
            r ==> final(self).indent == column && final(self).indents@ == old(self).indents@.push(
                old(self).indent,
            ),
            !r ==> final(self).indent == old(self).indent && final(self).indents@ == old(self).indents@,
    {
        if self.indent < column {
            let ghost before = *self;
            self.indents.push(self.indent);
            self.indent = column;
            proof {
                Scanner::lemma_keys_carry(before, *self);
                assert(self.indents_ok()) by {
                    assert forall|i: int| 0 <= i < self.indents@.len() implies -1 <= #[trigger] self.indents@[i]
                        <= self.pointer by {
                        if i < before.indents@.len() {
                            assert(self.indents@[i] == before.indents@[i]);
                        }
                    }
                }
            }
            true
        } else {
            false
        }
    }

    // --- Queueing -----------------------------------------------------------

    /// Queue `t` at the end.
    fn push_token(&mut self, t: Token)
        requires
            old(self).wf(),
            !old(self).done || t.kind is StreamEnd,
            token_in(old(self).buffer@, t),
            token_text(old(self).buffer@, t),
            t.end_mark.pointer <= old(self).pointer,
        ensures
            final(self).wf(),
            final(self).tokens@ == old(self).tokens@.push(t),
            final(self).buffer@ == old(self).buffer@,
            final(self).pointer == old(self).pointer,
            final(self).line == old(self).line,
            final(self).column == old(self).column,
            final(self).done == old(self).done,
            final(self).flow_level == old(self).flow_level,
            final(self).tokens_taken == old(self).tokens_taken,
            final(self).indent == old(self).indent,
            final(self).indents@ == old(self).indents@,
            final(self).allow_simple_key == old(self).allow_simple_key,
            final(self).possible_simple_keys@ == old(self).possible_simple_keys@,
            final(self).failed == old(self).failed,
    {
        let ghost before = *self;
        self.tokens.push(t);
        proof {
            assert(self.tokens_ok()) by {
                assert forall|i: int| 0 <= i < self.tokens@.len() implies token_in(
                    self.buffer@,
                    #[trigger] self.tokens@[i],
                ) && self.tokens@[i].end_mark.pointer <= self.pointer by {
                    if i < before.tokens@.len() {
                        assert(self.tokens@[i] == before.tokens@[i]);
                    }
                }
            }
            assert(self.keys_ok()) by {
                assert forall|i: int| 0 <= i < self.possible_simple_keys@.len() implies #[trigger] self.key_ok(
                    self.possible_simple_keys@[i],
                ) by {
                    assert(before.key_ok(before.possible_simple_keys@[i]));
                }
            }
        }
    }

    /// Consume the one-character indicator here as a token of `kind`.
    fn push_indicator(&mut self, kind: TokenKind)
        requires
            old(self).wf(),
            !old(self).done,
            !(kind is StreamEnd),
            char_at(old(self).buffer@, old(self).pointer as int) != '\0',
            (kind is Key && char_at(old(self).buffer@, old(self).pointer as int) == '?') || indicator_of(
                kind,
            ) == Some(char_at(old(self).buffer@, old(self).pointer as int)),
        ensures
            final(self).wf(),
            final(self).pointer == old(self).pointer + 1,
            final(self).tokens@.len() == old(self).tokens@.len() + 1,
            final(self).tokens@.last().kind == kind,
            final(self).tokens@.last().start_mark == old(self).current_mark(),
            final(self).buffer@ == old(self).buffer@,
            final(self).done == old(self).done,
            final(self).flow_level == old(self).flow_level,
            final(self).tokens_taken == old(self).tokens_taken,
            final(self).indent == old(self).indent,
            final(self).indents@ == old(self).indents@,
            final(self).allow_simple_key == old(self).allow_simple_key,
            final(self).possible_simple_keys@ == old(self).possible_simple_keys@,
            final(self).failed == old(self).failed,
    {
        let start_mark = self.get_mark();
        self.forward1();
        let end_mark = self.get_mark();
        self.push_token(Token::new(kind, start_mark, end_mark));
    }

    /// A scan kept the invariant and only moved forward; a token starts
    /// where the scan started, ends where it stopped or before, and the scan
    /// consumed something; an error has its marks in the buffer.
    spec fn scanned(&self, before: &Scanner, r: Result<Token, YamlError>) -> bool {
        &&& self.wf()
        &&& self.moved_from(before)
        &&& self.pointer >= before.pointer
        &&& match r {
            Ok(t) => {
                &&& token_in(self.buffer@, t)
                &&& t.start_mark.pointer == before.pointer
                &&& t.end_mark.pointer <= self.pointer
                &&& self.pointer > before.pointer
            },
            Err(e) => error_in(self.buffer@, e),
        }
    }

    /// An error at the current position.
    fn error_here(&self, context: &str, context_mark: Mark, problem: String) -> (e: YamlError)
        requires
            self.wf(),
            mark_in(self.buffer@, context_mark),
        ensures
            error_in(self.buffer@, e),
            e.problem@ == problem@,
            e.problem_mark == Some(self.current_mark()),
            e.context_mark == Some(context_mark),
            e.context matches Some(c) && c@ == context@,
    {
        YamlError::new(Some(context), Some(context_mark), problem, Some(self.get_mark()))
    }

    /// Skip spaces.
    fn skip_spaces(&mut self)
        requires
            old(self).wf(),
        ensures
            final(self).wf(),
            final(self).moved_from(old(self)),
            final(self).pointer >= old(self).pointer,
            char_at(final(self).buffer@, final(self).pointer as int) != ' ',
            final(self).pointer == spaces_end(old(self).buffer@, old(self).pointer as int),
    {
        while self.peek0() == ' '
            invariant
                self.wf(),
                self.moved_from(old(self)),
                self.pointer >= old(self).pointer,
                spaces_end(self.buffer@, self.pointer as int) == spaces_end(
                    old(self).buffer@,
                    old(self).pointer as int,
                ),
            decreases self.buffer@.len() - self.pointer,
        {
            self.forward1();
        }
    }

    /// Skip to the end of the line.
    fn skip_to_break(&mut self)
        requires
            old(self).wf(),
        ensures
            final(self).wf(),
            final(self).moved_from(old(self)),
            final(self).pointer >= old(self).pointer,
            is_z_break(char_at(final(self).buffer@, final(self).pointer as int)),
            final(self).pointer == break_from(old(self).buffer@, old(self).pointer as int),
    {
        while !in_z_break(self.peek0())
            invariant
                self.wf(),
                self.moved_from(old(self)),
                self.pointer >= old(self).pointer,
                break_from(self.buffer@, self.pointer as int) == break_from(
                    old(self).buffer@,
                    old(self).pointer as int,
                ),
            decreases self.buffer@.len() - self.pointer,
        {
            self.forward1();
        }
    }

    /// The number of name characters from the current position on.
    fn name_length(&self) -> (n: usize)
        requires
            self.wf(),
        ensures
            self.pointer + n < self.buffer@.len(),
            forall|k: int| 0 <= k < n ==> is_name_char(#[trigger] char_at(self.buffer@, self.pointer + k)),
            !is_name_char(char_at(self.buffer@, self.pointer + n)),
    {
        let mut length: usize = 0;
        while is_alnum(self.peek(length))
            invariant
                self.wf(),
                self.pointer + length < self.buffer@.len(),
                forall|k: int| 0 <= k < length ==> is_name_char(#[trigger] char_at(self.buffer@, self.pointer + k)),
            decreases self.buffer@.len() - self.pointer - length,
        {
            length = length + 1;
        }
        length
    }

    // --- Fetchers ------------------------------------------------------------

    fn fetch_stream_end(&mut self) -> (r: Result<(), YamlError>)
        requires
            old(self).wf(),
            !old(self).done,
        ensures
            final(self).fetched(old(self), r),
            r is Ok ==> final(self).done,
            old(self).possible_simple_keys@.len() == 0 ==> r is Ok && final(self).tokens@.last()
                == (Token { kind: TokenKind::StreamEnd, start_mark: old(self).current_mark(), end_mark: old(self).current_mark() }),
            old(self).possible_simple_keys@.len() == 0 && old(self).indent == -1 ==> final(self).failed
                == old(self).failed && final(self).tokens@ == old(self).tokens@.push(
                Token {
                    kind: TokenKind::StreamEnd,
                    start_mark: old(self).current_mark(),
                    end_mark: old(self).current_mark(),
                },
            ),
    {
        self.unwind_indent(-1);
        self.remove_possible_simple_key()?;
        let ghost mid = *self;
        self.allow_simple_key = false;
        self.possible_simple_keys.clear();
        let mark = self.get_mark();
        self.push_token(Token::new(TokenKind::StreamEnd, mark, mark));
        let ghost mid2 = *self;
        self.done = true;
        proof {
            Scanner::lemma_keys_carry(mid2, *self);
        }
        Ok(())
    }

    fn fetch_directive(&mut self) -> (r: Result<(), YamlError>)
        requires
            old(self).wf(),
            !old(self).done,
            char_at(old(self).buffer@, old(self).pointer as int) == '%',
        ensures
            final(self).fetched(old(self), r),
    {
        self.unwind_indent(-1);
        self.remove_possible_simple_key()?;
        let ghost mid = *self;
        self.allow_simple_key = false;
        proof {
            Scanner::lemma_keys_carry(mid, *self);
        }
        let token = self.scan_directive()?;
        self.push_token(token);
        Ok(())
    }

    fn fetch_document_indicator(&mut self, kind: TokenKind) -> (r: Result<(), YamlError>)
        requires
            old(self).wf(),
            !old(self).done,
            !(kind is StreamEnd),
            old(self).pointer + 3 < old(self).buffer@.len(),
            (kind is DocumentStart && doc_marker_at(old(self).buffer@, old(self).pointer as int, '-'))
                || (kind is DocumentEnd && doc_marker_at(
                old(self).buffer@,
                old(self).pointer as int,
                '.',
            )),
        ensures
            final(self).fetched(old(self), r),
    {
        self.unwind_indent(-1);
        self.remove_possible_simple_key()?;
        let ghost mid = *self;
        self.allow_simple_key = false;
        proof {
            Scanner::lemma_keys_carry(mid, *self);
        }
        let start_mark = self.get_mark();
        self.forward(3);
        let end_mark = self.get_mark();
        self.push_token(Token::new(kind, start_mark, end_mark));
        Ok(())
    }

    fn fetch_flow_collection_start(&mut self, kind: TokenKind) -> (r: Result<(), YamlError>)
        requires
            old(self).wf(),
            !old(self).done,
            !(kind is StreamEnd),
            char_at(old(self).buffer@, old(self).pointer as int) != '\0',
            indicator_of(kind) == Some(char_at(old(self).buffer@, old(self).pointer as int)),
            old(self).tokens_taken + old(self).tokens@.len() <= usize::MAX,
        ensures
            final(self).fetched(old(self), r),
            old(self).possible_simple_keys@.len() == 0 ==> r is Ok && final(self).tokens@.last().kind
                == kind && final(self).tokens@.last().start_mark == old(self).current_mark(),
    {
        self.save_possible_simple_key()?;
        let start_mark = self.get_mark();
        self.forward1();
        let ghost mid = *self;
        self.flow_level = self.flow_level + 1;
        self.allow_simple_key = true;
        proof {
            Scanner::lemma_keys_carry(mid, *self);
        }
        let end_mark = self.get_mark();
        self.push_token(Token::new(kind, start_mark, end_mark));
        Ok(())
    }

    fn fetch_flow_collection_end(&mut self, kind: TokenKind) -> (r: Result<(), YamlError>)
        requires
            old(self).wf(),
            !old(self).done,
            !(kind is StreamEnd),
            char_at(old(self).buffer@, old(self).pointer as int) != '\0',
            indicator_of(kind) == Some(char_at(old(self).buffer@, old(self).pointer as int)),
        ensures
            final(self).fetched(old(self), r),
            old(self).possible_simple_keys@.len() == 0 ==> r is Ok && final(self).tokens@.last().kind
                == kind && final(self).tokens@.last().start_mark == old(self).current_mark(),
            old(self).possible_simple_keys@.len() == 0 ==> final(self).tokens@.len() == old(self).tokens@.len()
                + 1 && final(self).done == old(self).done && final(self).possible_simple_keys@.len() == 0
                && final(self).failed == old(self).failed,
    {
        self.remove_possible_simple_key()?;
        let ghost mid = *self;
        self.flow_level = if self.flow_level > 0 {
            self.flow_level - 1
        } else {
            0
        };
        self.allow_simple_key = false;
        proof {
            Scanner::lemma_keys_carry(mid, *self);
        }
        self.push_indicator(kind);
        Ok(())
    }

    fn fetch_flow_entry(&mut self) -> (r: Result<(), YamlError>)
        requires
            old(self).wf(),
            !old(self).done,
            char_at(old(self).buffer@, old(self).pointer as int) == ',',
        ensures
            final(self).fetched(old(self), r),
            old(self).possible_simple_keys@.len() == 0 ==> r is Ok && final(self).tokens@.last().kind
                == TokenKind::FlowEntry && final(self).tokens@.last().start_mark == old(self).current_mark(),
            old(self).possible_simple_keys@.len() == 0 ==> final(self).tokens@.len() == old(self).tokens@.len()
                + 1 && final(self).done == old(self).done && final(self).possible_simple_keys@.len() == 0
                && final(self).failed == old(self).failed,
    {
        let ghost mid = *self;
        self.allow_simple_key = true;
        proof {
            Scanner::lemma_keys_carry(mid, *self);
        }
        self.remove_possible_simple_key()?;
        self.push_indicator(TokenKind::FlowEntry);
        Ok(())
    }

    /// A block entry `-`, or a `?` key: in the block context it may open a
    /// collection at the current column.
    fn fetch_block_indicator(&mut self, is_entry: bool) -> (r: Result<(), YamlError>)
        requires
            old(self).wf(),
            !old(self).done,
            char_at(old(self).buffer@, old(self).pointer as int) != '\0',
            char_at(old(self).buffer@, old(self).pointer as int) == (if is_entry {
                '-'
            } else {
                '?'
            }),
        ensures
            final(self).fetched(old(self), r),
    {
        if self.flow_level == 0 {
            if !self.allow_simple_key {
                let ghost mid = *self;
                self.failed = true;
                proof {
                    Scanner::lemma_keys_carry(mid, *self);
                }
                let problem = if is_entry {
                    "sequence entries are not allowed here".to_owned()
                } else {
                    "mapping keys are not allowed here".to_owned()
                };
                return Err(YamlError::new(None, None, problem, Some(self.get_mark())));
            }
            if self.add_indent(self.column as i64) {
                let mark = self.get_mark();
                let kind = if is_entry {
                    TokenKind::BlockSequenceStart
                } else {
                    TokenKind::BlockMappingStart
                };
                self.push_token(Token::new(kind, mark, mark));
            }
        }
        let ghost mid = *self;
        self.allow_simple_key = if is_entry {
            true
        } else {
            self.flow_level == 0
        };
        proof {
            Scanner::lemma_keys_carry(mid, *self);
        }
        self.remove_possible_simple_key()?;
        let kind = if is_entry {
            TokenKind::BlockEntry
        } else {
            TokenKind::Key
        };
        self.push_indicator(kind);
        Ok(())
    }

    fn fetch_value(&mut self) -> (r: Result<(), YamlError>)
        requires
            old(self).wf(),
            !old(self).done,
            char_at(old(self).buffer@, old(self).pointer as int) == ':',
        ensures
            final(self).fetched(old(self), r),
    {
        if let Some(i) = self.current_key_index() {
            let key = self.possible_simple_keys[i];
            proof {
                assert(self.key_ok(self.possible_simple_keys@[i as int]));
            }
            let ghost before_keys = self.possible_simple_keys@;
            let ghost mid = *self;
            self.possible_simple_keys.remove(i);
            proof {
                assert forall|k: int| 0 <= k < self.possible_simple_keys@.len() implies #[trigger] self.key_ok(
                    self.possible_simple_keys@[k],
                ) by {
                    if k < i {
                        assert(self.possible_simple_keys@[k] == before_keys[k]);
                        assert(mid.key_ok(mid.possible_simple_keys@[k]));
                    } else {
                        assert(self.possible_simple_keys@[k] == before_keys[k + 1]);
                        assert(mid.key_ok(mid.possible_simple_keys@[k + 1]));
                    }
                }
            }
            proof {
                lemma_position_bounds(self.buffer@, key.mark.pointer as nat);
            }
            // Add KEY.
            let insert_at = key.token_number - self.tokens_taken;
            self.insert_token(insert_at, Token::new(TokenKind::Key, key.mark, key.mark));
            // If this key starts a new block mapping, add BLOCK-MAPPING-START.
            if self.flow_level == 0 && self.add_indent(key.mark.column as i64) {
                self.insert_token(
                    insert_at,
                    Token::new(TokenKind::BlockMappingStart, key.mark, key.mark),
                );
            }
            let ghost mid2 = *self;
            self.allow_simple_key = false;
            proof {
                Scanner::lemma_keys_carry(mid2, *self);
            }
        } else {
            if self.flow_level == 0 {
                if !self.allow_simple_key {
                    let ghost mid = *self;
                    self.failed = true;
                    proof {
                        Scanner::lemma_keys_carry(mid, *self);
                    }
                    return Err(
                        YamlError::new(
                            None,
                            None,
                            "mapping values are not allowed here".to_owned(),
                            Some(self.get_mark()),
                        ),
                    );
                }
                if self.add_indent(self.column as i64) {
                    let mark = self.get_mark();
                    self.push_token(Token::new(TokenKind::BlockMappingStart, mark, mark));
                }
            }
            let ghost mid = *self;
            self.allow_simple_key = self.flow_level == 0;
            proof {
                Scanner::lemma_keys_carry(mid, *self);
            }
            self.remove_possible_simple_key()?;
        }
        self.push_indicator(TokenKind::Value);
        Ok(())
    }

    /// Queue `t` at position `at`, before the later tokens.
    fn insert_token(&mut self, at: usize, t: Token)
        requires
            old(self).wf(),
            !old(self).done,
            at <= old(self).tokens@.len(),
            token_in(old(self).buffer@, t),
            token_text(old(self).buffer@, t),
            t.end_mark.pointer <= old(self).pointer,
        ensures
            final(self).wf(),
            final(self).tokens@ == old(self).tokens@.insert(at as int, t),
            final(self).buffer@ == old(self).buffer@,
            final(self).pointer == old(self).pointer,
            final(self).line == old(self).line,
            final(self).column == old(self).column,
            final(self).done == old(self).done,
            final(self).flow_level == old(self).flow_level,
            final(self).tokens_taken == old(self).tokens_taken,
            final(self).indent == old(self).indent,
            final(self).indents@ == old(self).indents@,
            final(self).allow_simple_key == old(self).allow_simple_key,
            final(self).possible_simple_keys@ == old(self).possible_simple_keys@,
            final(self).failed == old(self).failed,
    {
        let ghost before = *self;
        self.tokens.insert(at, t);
        proof {
            assert(self.tokens_ok()) by {
                assert forall|i: int| 0 <= i < self.tokens@.len() implies token_in(
                    self.buffer@,
                    #[trigger] self.tokens@[i],
                ) && self.tokens@[i].end_mark.pointer <= self.pointer by {
                    if i < at {
                        assert(self.tokens@[i] == before.tokens@[i]);
                    } else if i > at {
                        assert(self.tokens@[i] == before.tokens@[i - 1]);
                    }
                }
            }
            Scanner::lemma_keys_carry(before, *self);
        }
    }

    // --- Directives ----------------------------------------------------------

    /// Only the position moved, forward, and an error has its marks here.
    spec fn advanced<T>(&self, before: &Scanner, r: Result<T, YamlError>) -> bool {
        &&& self.wf()
        &&& self.moved_from(before)
        &&& self.pointer >= before.pointer
        &&& (r matches Err(e) ==> error_in(self.buffer@, e))
    }

    fn scan_directive(&mut self) -> (r: Result<Token, YamlError>)
        requires
            old(self).wf(),
            char_at(old(self).buffer@, old(self).pointer as int) == '%',
        ensures
            final(self).scanned(old(self), r),
            r matches Ok(t) ==> t.kind is Directive,
    {
        let start_mark = self.get_mark();
        self.forward1();
        let name = self.scan_directive_name(start_mark)?;
        let value;
        let end_mark;
        if eq_str(name.as_slice(), "YAML") {
            let (major, minor) = self.scan_yaml_directive_value(start_mark)?;
            value = DirectiveValue::Yaml(major, minor);
            end_mark = self.get_mark();
        } else if eq_str(name.as_slice(), "TAG") {
            let (handle, prefix) = self.scan_tag_directive_value(start_mark)?;
            value = DirectiveValue::Tag(
                chars_to_string(handle.as_slice()),
                chars_to_string(prefix.as_slice()),
            );
            end_mark = self.get_mark();
        } else {
            value = DirectiveValue::Other;
            end_mark = self.get_mark();
            self.skip_to_break();
        }
        self.scan_directive_ignored_line(start_mark)?;
        Ok(
            Token::new(
                TokenKind::Directive { name: chars_to_string(name.as_slice()), value },
                start_mark,
                end_mark,
            ),
        )
    }

    fn scan_directive_name(&mut self, start_mark: Mark) -> (r: Result<Vec<char>, YamlError>)
        requires
            old(self).wf(),
            mark_in(old(self).buffer@, start_mark),
        ensures
            final(self).advanced(old(self), r),
            r matches Ok(v) ==> v@ == old(self).buffer@.subrange(
                old(self).pointer as int,
                final(self).pointer as int,
            ),
            r matches Ok(v) ==> v@.len() > 0 && (forall|k: int|
                0 <= k < v@.len() ==> is_name_char(#[trigger] v@[k])) && is_z_space_break(
                char_at(final(self).buffer@, final(self).pointer as int),
            ),
            r is Err <==> (!is_name_char(char_at(old(self).buffer@, old(self).pointer as int))
                || !is_z_space_break(char_at(final(self).buffer@, final(self).pointer as int))),
    {
        let length = self.name_length();
        let ch = self.peek(length);
        if length == 0 {
            return Err(
                self.error_here(
                    "while scanning a directive",
                    start_mark,
                    text_with_char("expected alphabetic or numeric character, but found ", ch),
                ),
            );
        }
        let value = self.prefix(length);
        proof {
            assert(is_name_char(char_at(self.buffer@, self.pointer + 0)));
            assert forall|k: int| 0 <= k < value@.len() implies is_name_char(#[trigger] value@[k]) by {
                assert(value@[k] == char_at(self.buffer@, self.pointer + k));
            }
        }
        self.forward(length);
        let ch = self.peek0();
        if !in_z_space_break(ch) {
            return Err(
                self.error_here(
                    "while scanning a directive",
                    start_mark,
                    text_with_char("expected alphabetic or numeric character, but found ", ch),
                ),
            );
        }
        Ok(value)
    }

    fn scan_yaml_directive_value(&mut self, start_mark: Mark) -> (r: Result<(u64, u64), YamlError>)
        requires
            old(self).wf(),
            mark_in(old(self).buffer@, start_mark),
        ensures
            final(self).advanced(old(self), r),
            ({
                let buf = old(self).buffer@;
                let h = spaces_end(buf, old(self).pointer as int);
                let d = digits_end(buf, h);
                let e = digits_end(buf, d + 1);
                &&& r is Ok <==> (d > h && char_at(buf, d) == '.' && e > d + 1 && is_z_space_break(
                    char_at(buf, e),
                ))
                &&& r matches Ok((major, minor)) ==> {
                    &&& final(self).pointer == e
                    &&& major == saturated_u64(decimal_number(buf.subrange(h, d)))
                    &&& minor == saturated_u64(decimal_number(buf.subrange(d + 1, e)))
                }
            }),
    {
        self.skip_spaces();
        let major = self.scan_yaml_directive_number(start_mark)?;
        if self.peek0() != '.' {
            return Err(
                self.error_here(
                    "while scanning a directive",
                    start_mark,
                    text_with_char("expected a digit or '.', but found ", self.peek0()),
                ),
            );
        }
        self.forward1();
        let minor = self.scan_yaml_directive_number(start_mark)?;
        if !in_z_space_break(self.peek0()) {
            return Err(
                self.error_here(
                    "while scanning a directive",
                    start_mark,
                    text_with_char("expected a digit or ' ', but found ", self.peek0()),
                ),
            );
        }
        Ok((major, minor))
    }

    /// A decimal number; one too large for `u64` reads as `u64::MAX`.
    fn scan_yaml_directive_number(&mut self, start_mark: Mark) -> (r: Result<u64, YamlError>)
        requires
            old(self).wf(),
            mark_in(old(self).buffer@, start_mark),
        ensures
            final(self).advanced(old(self), r),
            r matches Ok(n) ==> ({
                let digits = old(self).buffer@.subrange(
                    old(self).pointer as int,
                    final(self).pointer as int,
                );
                &&& digits.len() > 0
                &&& all_decimal(digits)
                &&& n == (if decimal_number(digits) <= u64::MAX {
                    decimal_number(digits)
                } else {
                    u64::MAX as int
                })
            }),
            r is Ok <==> '0' <= char_at(old(self).buffer@, old(self).pointer as int) <= '9',
            r is Ok ==> final(self).pointer == digits_end(old(self).buffer@, old(self).pointer as int),
    {
        let ch = self.peek0();
        if !('0' <= ch && ch <= '9') {
            return Err(
                self.error_here(
                    "while scanning a directive",
                    start_mark,
                    text_with_char("expected a digit, but found ", ch),
                ),
            );
        }
        let mut length: usize = 0;
        while '0' <= self.peek(length) && self.peek(length) <= '9'
            invariant
                self.wf(),
                self.pointer + length < self.buffer@.len(),
                forall|k: int|
                    0 <= k < length ==> '0' <= #[trigger] char_at(self.buffer@, self.pointer + k)
                        <= '9',
                digits_end(self.buffer@, self.pointer + length) == digits_end(
                    self.buffer@,
                    self.pointer as int,
                ),
            decreases self.buffer@.len() - self.pointer - length,
        {
            length = length + 1;
        }
        let digits = self.prefix(length);
        proof {
            assert forall|k: int| 0 <= k < digits@.len() implies '0' <= #[trigger] digits@[k] <= '9' by {
                assert(digits@[k] == char_at(self.buffer@, self.pointer + k));
            }
        }
        let value = parse_u64_saturating(digits.as_slice());
        self.forward(length);
        Ok(value)
    }

    fn scan_tag_directive_value(&mut self, start_mark: Mark) -> (r: Result<(Vec<char>, Vec<char>), YamlError>)
        requires
            old(self).wf(),
            mark_in(old(self).buffer@, start_mark),
        ensures
            final(self).advanced(old(self), r),
            r matches Ok((handle, prefix)) ==> {
                let h = spaces_end(old(self).buffer@, old(self).pointer as int);
                &&& tag_handle_text(handle@)
                &&& handle@ == old(self).buffer@.subrange(h, h + handle@.len())
                &&& char_at(old(self).buffer@, h + handle@.len()) == ' '
                &&& prefix@.len() > 0
                &&& is_z_space_break(char_at(final(self).buffer@, final(self).pointer as int))
            },
    {
        self.skip_spaces();
        let handle = self.scan_tag_directive_handle(start_mark)?;
        self.skip_spaces();
        let prefix = self.scan_tag_directive_prefix(start_mark)?;
        Ok((handle, prefix))
    }

    fn scan_tag_directive_handle(&mut self, start_mark: Mark) -> (r: Result<Vec<char>, YamlError>)
        requires
            old(self).wf(),
            mark_in(old(self).buffer@, start_mark),
        ensures
            final(self).advanced(old(self), r),
            r matches Ok(v) ==> v@ == old(self).buffer@.subrange(
                old(self).pointer as int,
                final(self).pointer as int,
            ) && tag_handle_text(v@) && char_at(final(self).buffer@, final(self).pointer as int) == ' ',
    {
        let value = self.scan_tag_handle(false, start_mark)?;
        let ch = self.peek0();
        if ch != ' ' {
            return Err(
                self.error_here(
                    "while scanning a directive",
                    start_mark,
                    text_with_char("expected ' ', but found ", ch),
                ),
            );
        }
        Ok(value)
    }

    fn scan_tag_directive_prefix(&mut self, start_mark: Mark) -> (r: Result<Vec<char>, YamlError>)
        requires
            old(self).wf(),
            mark_in(old(self).buffer@, start_mark),
        ensures
            final(self).advanced(old(self), r),
            r matches Ok(v) ==> v@.len() > 0 && final(self).pointer > old(self).pointer
                && is_z_space_break(char_at(final(self).buffer@, final(self).pointer as int)),
            r matches Ok(v) ==> (!old(self).buffer@.subrange(
                old(self).pointer as int,
                final(self).pointer as int,
            ).contains('%') ==> v@ == old(self).buffer@.subrange(
                old(self).pointer as int,
                final(self).pointer as int,
            )),
    {
        let value = self.scan_tag_uri(false, start_mark)?;
        let ch = self.peek0();
        if !in_z_space_break(ch) {
            return Err(
                self.error_here(
                    "while scanning a directive",
                    start_mark,
                    text_with_char("expected ' ', but found ", ch),
                ),
            );
        }
        Ok(value)
    }

    fn scan_directive_ignored_line(&mut self, start_mark: Mark) -> (r: Result<(), YamlError>)
        requires
            old(self).wf(),
            mark_in(old(self).buffer@, start_mark),
        ensures
            final(self).advanced(old(self), r),
            r is Ok <==> is_z_break(
                char_at(old(self).buffer@, line_rest_end(old(self).buffer@, old(self).pointer as int)),
            ),
            r is Ok ==> final(self).pointer >= line_rest_end(old(self).buffer@, old(self).pointer as int)
                && (is_break_char(
                char_at(old(self).buffer@, line_rest_end(old(self).buffer@, old(self).pointer as int)),
            ) ==> final(self).pointer > line_rest_end(old(self).buffer@, old(self).pointer as int)),
    {
        self.skip_spaces();
        if self.peek0() == '#' {
            self.skip_to_break();
        }
        let ch = self.peek0();
        if !in_z_break(ch) {
            return Err(
                self.error_here(
                    "while scanning a directive",
                    start_mark,
                    text_with_char("expected a comment or a line break, but found ", ch),
                ),
            );
        }
        self.scan_line_break();
        Ok(())
    }

    // --- Anchors and tags ------------------------------------------------------

    /// An alias `*name` or an anchor `&name`.
    fn scan_anchor(&mut self, is_alias: bool) -> (r: Result<Token, YamlError>)
        requires
            old(self).wf(),
            char_at(old(self).buffer@, old(self).pointer as int) == (if is_alias {
                '*'
            } else {
                '&'
            }),
        ensures
            final(self).scanned(old(self), r),
            r matches Ok(t) ==> ({
                let name = old(self).buffer@.subrange(
                    old(self).pointer + 1,
                    t.end_mark.pointer as int,
                );
                if is_alias {
                    t.kind matches TokenKind::Alias(v) && v@ == name
                } else {
                    t.kind matches TokenKind::Anchor(v) && v@ == name
                }
            }),
    {
        let start_mark = self.get_mark();
        let context = if is_alias {
            "while scanning an alias"
        } else {
            "while scanning an anchor"
        };
        self.forward1();
        let length = self.name_length();
        let ch = self.peek(length);
        if length == 0 {
            return Err(
                self.error_here(
                    context,
                    start_mark,
                    text_with_char("expected alphabetic or numeric character, but found ", ch),
                ),
            );
        }
        let value = self.prefix(length);
        self.forward(length);
        let ch = self.peek0();
        if !in_z_blank_break(ch) && !(ch == '?' || ch == ':' || ch == ',' || ch == ']' || ch == '}'
            || ch == '%' || ch == '@' || ch == '`') {
            return Err(
                self.error_here(
                    context,
                    start_mark,
                    text_with_char("expected alphabetic or numeric character, but found ", ch),
                ),
            );
        }
        let end_mark = self.get_mark();
        let v = chars_to_string(value.as_slice());
        let kind = if is_alias {
            TokenKind::Alias(v)
        } else {
            TokenKind::Anchor(v)
        };
        Ok(Token::new(kind, start_mark, end_mark))
    }

    fn scan_tag(&mut self) -> (r: Result<Token, YamlError>)
        requires
            old(self).wf(),
            char_at(old(self).buffer@, old(self).pointer as int) == '!',
        ensures
            final(self).scanned(old(self), r),
            r matches Ok(t) ==> t.kind is Tag,
    {
        let start_mark = self.get_mark();
        let ch = self.peek(1);
        let handle: Option<String>;
        let suffix: Vec<char>;
        if ch == '<' {
            handle = None;
            self.forward(2);
            suffix = self.scan_tag_uri(true, start_mark)?;
            if self.peek0() != '>' {
                return Err(
                    self.error_here(
                        "while parsing a tag",
                        start_mark,
                        text_with_char("expected '>', but found ", self.peek0()),
                    ),
                );
            }
            self.forward1();
        } else if in_z_blank_break(ch) {
            handle = None;
            suffix = str_chars("!");
            self.forward1();
        } else {
            let mut length: usize = 1;
            let mut c = ch;
            while !in_z_space_break(c) && c != '!'
                invariant
                    self.wf(),
                    self.pointer + length < self.buffer@.len(),
                    c == char_at(self.buffer@, self.pointer + length),
                decreases self.buffer@.len() - self.pointer - length,
            {
                length = length + 1;
                c = self.peek(length);
            }
            if c == '!' {
                handle = Some(chars_to_string(self.scan_tag_handle(true, start_mark)?.as_slice()));
            } else {
                handle = Some("!".to_owned());
                self.forward1();
            }
            suffix = self.scan_tag_uri(true, start_mark)?;
        }
        let ch = self.peek0();
        if !in_z_space_break(ch) {
            return Err(
                self.error_here(
                    "while scanning a tag",
                    start_mark,
                    text_with_char("expected ' ', but found ", ch),
                ),
            );
        }
        let end_mark = self.get_mark();
        Ok(
            Token::new(
                TokenKind::Tag { handle, suffix: chars_to_string(suffix.as_slice()) },
                start_mark,
                end_mark,
            ),
        )
    }

    /// A tag handle `!`, `!!` or `!name!`; `in_tag` tells a tag from a
    /// directive in the error context.
    fn scan_tag_handle(&mut self, in_tag: bool, start_mark: Mark) -> (r: Result<Vec<char>, YamlError>)
        requires
            old(self).wf(),
            mark_in(old(self).buffer@, start_mark),
        ensures
            final(self).advanced(old(self), r),
            r is Ok ==> final(self).pointer > old(self).pointer,
            r matches Ok(v) ==> v@ == old(self).buffer@.subrange(
                old(self).pointer as int,
                final(self).pointer as int,
            ) && tag_handle_text(v@) && (v@.len() == 1 ==> char_at(
                final(self).buffer@,
                final(self).pointer as int,
            ) == ' '),
    {
        let context = if in_tag {
            "while scanning a tag"
        } else {
            "while scanning a directive"
        };
        let ch = self.peek0();
        if ch != '!' {
            return Err(
                self.error_here(context, start_mark, text_with_char("expected '!', but found ", ch)),
            );
        }
        let mut length: usize = 1;
        let mut ch = self.peek(length);
        if ch != ' ' {
            while is_alnum(ch)
                invariant
                    self.wf(),
                    self.pointer + length < self.buffer@.len(),
                    ch == char_at(self.buffer@, self.pointer + length),
                    length >= 1,
                    forall|k: int| 1 <= k < length ==> is_name_char(#[trigger] char_at(self.buffer@, self.pointer + k)),
                decreases self.buffer@.len() - self.pointer - length,
            {
                length = length + 1;
                ch = self.peek(length);
            }
            if ch != '!' {
                self.forward(length);
                return Err(
                    self.error_here(
                        context,
                        start_mark,
                        text_with_char("expected '!', but found ", ch),
                    ),
                );
            }
            length = length + 1;
        }
        let value = self.prefix(length);
        proof {
            assert(value@[0] == char_at(self.buffer@, self.pointer as int));
            if length > 1 {
                assert(value@[length - 1] == char_at(self.buffer@, self.pointer + length - 1));
                assert forall|k: int| 0 < k < value@.len() - 1 implies is_name_char(#[trigger] value@[k]) by {
                    assert(value@[k] == char_at(self.buffer@, self.pointer + k));
                }
            }
        }
        self.forward(length);
        Ok(value)
    }

    /// A tag URI, with `%xx` escapes decoded; `in_tag` tells a tag from a
    /// directive in the error context.
    fn scan_tag_uri(&mut self, in_tag: bool, start_mark: Mark) -> (r: Result<Vec<char>, YamlError>)
        requires
            old(self).wf(),
            mark_in(old(self).buffer@, start_mark),
        ensures
            final(self).advanced(old(self), r),
            r matches Ok(v) ==> v@.len() > 0 && final(self).pointer > old(self).pointer
                && !is_uri_char_spec(char_at(final(self).buffer@, final(self).pointer as int)),
            r matches Ok(v) ==> (!old(self).buffer@.subrange(
                old(self).pointer as int,
                final(self).pointer as int,
            ).contains('%') ==> v@ == old(self).buffer@.subrange(
                old(self).pointer as int,
                final(self).pointer as int,
            )),
    {
        let mut chunks: Vec<char> = Vec::new();
        let mut length: usize = 0;
        let mut ch = self.peek(length);
        let ghost mut escaped = false;
        while is_uri_char(ch)
            invariant
                self.wf(),
                self.moved_from(old(self)),
                self.pointer >= old(self).pointer,
                mark_in(self.buffer@, start_mark),
                self.pointer + length < self.buffer@.len(),
                ch == char_at(self.buffer@, self.pointer + length),
                forall|k: int|
                    0 <= k < length ==> #[trigger] char_at(self.buffer@, self.pointer + k) != '%',
                !escaped ==> chunks@ == self.buffer@.subrange(old(self).pointer as int, self.pointer as int),
                escaped ==> self.pointer > old(self).pointer && self.buffer@.subrange(
                    old(self).pointer as int,
                    self.pointer as int,
                ).contains('%'),
            decreases self.buffer@.len() - self.pointer - length,
        {
            if ch == '%' {
                let part = self.prefix(length);
                push_all(&mut chunks, part.as_slice());
                let ghost p_before = self.pointer;
                self.forward(length);
                let ghost at = self.pointer;
                length = 0;
                let decoded = self.scan_uri_escapes(in_tag, start_mark)?;
                push_str(&mut chunks, decoded.as_str());
                proof {
                    let sub = self.buffer@.subrange(old(self).pointer as int, self.pointer as int);
                    assert(sub[at - old(self).pointer] == '%');
                    assert(sub.contains('%'));
                    escaped = true;
                }
            } else {
                length = length + 1;
            }
            ch = self.peek(length);
        }
        let ghost p_before = self.pointer;
        if length > 0 {
            let part = self.prefix(length);
            push_all(&mut chunks, part.as_slice());
            self.forward(length);
        }
        proof {
            let sub = self.buffer@.subrange(old(self).pointer as int, self.pointer as int);
            if escaped {
                let before = self.buffer@.subrange(old(self).pointer as int, p_before as int);
                let w = choose|w: int| 0 <= w < before.len() && before[w] == '%';
                assert(sub[w] == before[w]);
            } else {
                assert(sub =~= chunks@);
            }
        }
        if chunks.len() == 0 {
            let context = if in_tag {
                "while parsing a tag"
            } else {
                "while parsing a directive"
            };
            return Err(
                self.error_here(context, start_mark, text_with_char("expected URI, but found ", ch)),
            );
        }
        Ok(chunks)
    }

    /// A run of `%xx` escapes, decoded as UTF-8.
    fn scan_uri_escapes(&mut self, in_tag: bool, start_mark: Mark) -> (r: Result<String, YamlError>)
        requires
            old(self).wf(),
            mark_in(old(self).buffer@, start_mark),
            char_at(old(self).buffer@, old(self).pointer as int) == '%',
        ensures
            final(self).advanced(old(self), r),
            r is Ok ==> final(self).pointer > old(self).pointer,
    {
        let context = if in_tag {
            "while scanning a tag"
        } else {
            "while scanning a directive"
        };
        let mut codes: Vec<u8> = Vec::new();
        let mark = self.get_mark();
        while self.peek0() == '%'
            invariant
                self.wf(),
                self.moved_from(old(self)),
                self.pointer >= old(self).pointer,
                mark_in(self.buffer@, start_mark),
                mark_in(self.buffer@, mark),
                mark.pointer == old(self).pointer,
                codes@.len() > 0 ==> self.pointer > old(self).pointer,
            decreases self.buffer@.len() - self.pointer,
        {
            self.forward1();
            let c0 = self.peek(0);
            if !is_hex(c0) {
                return Err(
                    self.error_here(
                        context,
                        start_mark,
                        text_with_char(
                            "expected URI escape sequence of 2 hexadecimal numbers, but found ",
                            c0,
                        ),
                    ),
                );
            }
            let c1 = self.peek(1);
            if !is_hex(c1) {
                return Err(
                    self.error_here(
                        context,
                        start_mark,
                        text_with_char(
                            "expected URI escape sequence of 2 hexadecimal numbers, but found ",
                            c1,
                        ),
                    ),
                );
            }
            let code = hex_value_exec(c0) * 16 + hex_value_exec(c1);
            codes.push(code as u8);
            self.forward(2);
        }
        match from_utf8(codes.as_slice()) {
            Ok(value) => Ok(value),
            Err(message) => Err(YamlError::new(Some(context), Some(start_mark), message, Some(mark))),
        }
    }

    // --- Block scalars ---------------------------------------------------------

    /// A literal (`|`) or folded (`>`) block scalar.
    #[verifier::rlimit(60)]
    fn scan_block_scalar(&mut self, style: char) -> (r: Result<Token, YamlError>)
        requires
            old(self).wf(),
            style == '|' || style == '>',
            char_at(old(self).buffer@, old(self).pointer as int) == style,
        ensures
            final(self).scanned(old(self), r),
            r matches Ok(t) ==> (t.kind matches TokenKind::Scalar { plain, style: st, .. } && !plain
                && st == Some(style)),
            r is Ok <==> block_header_ok(old(self).buffer@, old(self).pointer + 1),
            r matches Ok(t) ==> (t.kind matches TokenKind::Scalar { value, .. } && value@
                == block_scalar_value(old(self).buffer@, old(self).pointer as int, old(self).indent as int)),
    {
        let folded = style == '>';
        let mut chunks: Vec<char> = Vec::new();
        let start_mark = self.get_mark();
        let ghost buf = self.buffer@;
        self.forward1();
        let (chomping, increment) = self.scan_block_scalar_indicators(start_mark)?;
        self.scan_block_scalar_ignored_line(start_mark)?;
        let mut min_indent: i64 = self.indent + 1;
        if min_indent < 1 {
            min_indent = 1;
        }
        let mut breaks: Vec<char>;
        let mut end_mark: Mark;
        let indent: i64;
        match increment {
            Some(inc) => {
                indent = min_indent + inc as i64 - 1;
                let (b, e) = self.scan_block_scalar_breaks(indent);
                breaks = b;
                end_mark = e;
            },
            None => {
                let (b, max_indent, e) = self.scan_block_scalar_indentation();
                breaks = b;
                end_mark = e;
                indent = if min_indent > max_indent {
                    min_indent
                } else {
                    max_indent
                };
            },
        }
        let mut line_break: Vec<char> = Vec::new();
        let ghost q0 = self.pointer as int;
        let ghost breaks0 = breaks@;
        while self.column as i64 == indent && self.peek0() != '\0'
            invariant
                self.wf(),
                self.moved_from(old(self)),
                self.pointer > old(self).pointer,
                mark_in(self.buffer@, start_mark),
                start_mark.pointer == old(self).pointer,
                mark_in(self.buffer@, end_mark),
                old(self).pointer <= end_mark.pointer <= self.pointer,
                buf == self.buffer@,
                block_lines_from(buf, self.pointer as int, indent as int, folded, chunks@, breaks@, line_break@)
                    == block_lines_from(buf, q0, indent as int, folded, seq![], breaks0, seq![]),
            ensures
                self.wf(),
                self.moved_from(old(self)),
                self.pointer > old(self).pointer,
                mark_in(self.buffer@, start_mark),
                start_mark.pointer == old(self).pointer,
                mark_in(self.buffer@, end_mark),
                old(self).pointer <= end_mark.pointer <= self.pointer,
                buf == self.buffer@,
                (chunks@, breaks@, line_break@) == block_lines_from(
                    buf,
                    q0,
                    indent as int,
                    folded,
                    seq![],
                    breaks0,
                    seq![],
                ),
            decreases self.buffer@.len() - self.pointer,
        {
            let ghost p0 = self.pointer as int;
            let ghost acc = chunks@;
            let ghost br = breaks@;
            let ghost lb = line_break@;
            push_all(&mut chunks, breaks.as_slice());
            let leading_non_space = !(self.peek0() == ' ' || self.peek0() == '\t');
            let mut length: usize = 0;
            while !in_z_break(self.peek(length))
                invariant
                    self.wf(),
                    self.pointer == p0,
                    buf == self.buffer@,
                    self.pointer + length < self.buffer@.len(),
                    break_from(buf, p0 + length) == break_from(buf, p0),
                decreases self.buffer@.len() - self.pointer - length,
            {
                length = length + 1;
            }
            let text = self.prefix(length);
            push_all(&mut chunks, text.as_slice());
            self.forward(length);
            line_break = self.scan_line_break();
            let (b, e) = self.scan_block_scalar_breaks(indent);
            breaks = b;
            end_mark = e;
            proof {
                assert(block_line_at(buf, p0, indent as int));
                assert(chunks@ == acc + br + buf.subrange(p0, break_from(buf, p0)));
            }
            if self.column as i64 == indent && self.peek0() != '\0' {
                if folded && line_break.len() == 1 && line_break[0] == '\n' && leading_non_space
                    && !(self.peek0() == ' ' || self.peek0() == '\t') {
                    proof {
                        assert(line_break@ =~= seq!['\n']);
                    }
                    if breaks.len() == 0 {
                        chunks.push(' ');
                    }
                } else {
                    proof {
                        if folded && line_break@ == seq!['\n'] && leading_non_space {
                            assert(line_break@.len() == 1 && line_break@[0] == '\n');
                        }
                    }
                    push_all(&mut chunks, line_break.as_slice());
                }
            } else {
                break ;
            }
        }
        // Chomp the tail.
        if !(chomping == Some(false)) {
            push_all(&mut chunks, line_break.as_slice());
        }
        if chomping == Some(true) {
            push_all(&mut chunks, breaks.as_slice());
        }
        Ok(
            Token::new(
                TokenKind::Scalar {
                    value: chars_to_string(chunks.as_slice()),
                    plain: false,
                    style: Some(style),
                },
                start_mark,
                end_mark,
            ),
        )
    }

    /// The chomping (`+` keep, `-` strip) and indentation (1-9) indicators.
    fn scan_block_scalar_indicators(&mut self, start_mark: Mark) -> (r: Result<
        (Option<bool>, Option<u32>),
        YamlError,
    >)
        requires
            old(self).wf(),
            mark_in(old(self).buffer@, start_mark),
        ensures
            final(self).advanced(old(self), r),
            r matches Ok((_, Some(i))) ==> 1 <= i <= 9,
            match block_indicators(old(self).buffer@, old(self).pointer as int) {
                None => r is Err,
                Some((chomping, increment, end)) => if is_z_space_break(char_at(old(self).buffer@, end)) {
                    r == Ok::<(Option<bool>, Option<u32>), YamlError>((chomping, increment))
                        && final(self).pointer == end
                } else {
                    r is Err
                },
            },
    {
        let mut chomping: Option<bool> = None;
        let mut increment: Option<u32> = None;
        let mut ch = self.peek0();
        if ch == '+' || ch == '-' {
            chomping = Some(ch == '+');
            self.forward1();
            ch = self.peek0();
            if '0' <= ch && ch <= '9' {
                let inc = ch as u32 - '0' as u32;
                if inc == 0 {
                    return Err(
                        self.error_here(
                            "while scanning a block scalar",
                            start_mark,
                            "expected indentation indicator in the range 1-9, but found 0".to_owned(),
                        ),
                    );
                }
                increment = Some(inc);
                self.forward1();
            }
        } else if '0' <= ch && ch <= '9' {
            let inc = ch as u32 - '0' as u32;
            if inc == 0 {
                return Err(
                    self.error_here(
                        "while scanning a block scalar",
                        start_mark,
                        "expected indentation indicator in the range 1-9, but found 0".to_owned(),
                    ),
                );
            }
            increment = Some(inc);
            self.forward1();
            ch = self.peek0();
            if ch == '+' || ch == '-' {
                chomping = Some(ch == '+');
                self.forward1();
            }
        }
        let ch = self.peek0();
        if !in_z_space_break(ch) {
            return Err(
                self.error_here(
                    "while scanning a block scalar",
                    start_mark,
                    text_with_char("expected chomping or indentation indicators, but found ", ch),
                ),
            );
        }
        Ok((chomping, increment))
    }

    fn scan_block_scalar_ignored_line(&mut self, start_mark: Mark) -> (r: Result<(), YamlError>)
        requires
            old(self).wf(),
            mark_in(old(self).buffer@, start_mark),
        ensures
            final(self).advanced(old(self), r),
            r is Ok <==> is_z_break(
                char_at(old(self).buffer@, line_rest_end(old(self).buffer@, old(self).pointer as int)),
            ),
            r is Ok ==> final(self).pointer >= line_rest_end(old(self).buffer@, old(self).pointer as int)
                && (is_break_char(
                char_at(old(self).buffer@, line_rest_end(old(self).buffer@, old(self).pointer as int)),
            ) ==> final(self).pointer > line_rest_end(old(self).buffer@, old(self).pointer as int)),
            r is Ok ==> final(self).pointer == break_end(
                old(self).buffer@,
                line_rest_end(old(self).buffer@, old(self).pointer as int),
            ),
    {
        self.skip_spaces();
        if self.peek0() == '#' {
            self.skip_to_break();
        }
        let ch = self.peek0();
        if !in_z_break(ch) {
            return Err(
                self.error_here(
                    "while scanning a block scalar",
                    start_mark,
                    text_with_char("expected a comment or a line break, but found ", ch),
                ),
            );
        }
        self.scan_line_break();
        Ok(())
    }

    /// Skip the leading empty lines, collecting their breaks, and find the
    /// largest column reached.
    fn scan_block_scalar_indentation(&mut self) -> (r: (Vec<char>, i64, Mark))
        requires
            old(self).wf(),
        ensures
            final(self).wf(),
            final(self).moved_from(old(self)),
            final(self).pointer >= old(self).pointer,
            0 <= r.1 <= final(self).pointer,
            mark_in(final(self).buffer@, r.2),
            old(self).pointer <= r.2.pointer <= final(self).pointer,
            (r.0@, r.1 as int, final(self).pointer as int) == block_indentation_from(
                old(self).buffer@,
                old(self).pointer as int,
                seq![],
                0,
            ),
    {
        let mut chunks: Vec<char> = Vec::new();
        let mut max_indent: i64 = 0;
        let mut end_mark = self.get_mark();
        let ghost buf = self.buffer@;
        while self.peek0() == ' ' || in_break(self.peek0())
            invariant
                self.wf(),
                self.moved_from(old(self)),
                self.pointer >= old(self).pointer,
                0 <= max_indent <= self.pointer,
                mark_in(self.buffer@, end_mark),
                old(self).pointer <= end_mark.pointer <= self.pointer,
                buf == self.buffer@,
                block_indentation_from(buf, self.pointer as int, chunks@, max_indent as int)
                    == block_indentation_from(buf, old(self).pointer as int, seq![], 0),
            decreases self.buffer@.len() - self.pointer,
        {
            if self.peek0() != ' ' {
                let lb = self.scan_line_break();
                push_all(&mut chunks, lb.as_slice());
                end_mark = self.get_mark();
            } else {
                self.forward1();
                if self.column as i64 > max_indent {
                    max_indent = self.column as i64;
                }
            }
        }
        (chunks, max_indent, end_mark)
    }

    /// Skip the indentation up to `indent` and the empty lines after the
    /// current line, collecting their breaks.
    fn scan_block_scalar_breaks(&mut self, indent: i64) -> (r: (Vec<char>, Mark))
        requires
            old(self).wf(),
        ensures
            final(self).wf(),
            final(self).moved_from(old(self)),
            final(self).pointer >= old(self).pointer,
            mark_in(final(self).buffer@, r.1),
            old(self).pointer <= r.1.pointer <= final(self).pointer,
            (r.0@, final(self).pointer as int) == block_breaks_from(
                old(self).buffer@,
                old(self).pointer as int,
                indent as int,
                seq![],
            ),
    {
        let mut chunks: Vec<char> = Vec::new();
        let mut end_mark = self.get_mark();
        let ghost buf = self.buffer@;
        let ghost start = self.pointer as int;
        while (self.column as i64) < indent && self.peek0() == ' '
            invariant
                self.wf(),
                self.moved_from(old(self)),
                self.pointer >= old(self).pointer,
                mark_in(self.buffer@, end_mark),
                old(self).pointer <= end_mark.pointer <= self.pointer,
                buf == self.buffer@,
                indent_spaces_end(buf, self.pointer as int, indent as int) == indent_spaces_end(
                    buf,
                    start,
                    indent as int,
                ),
            decreases self.buffer@.len() - self.pointer,
        {
            self.forward1();
        }
        proof {
            lemma_indent_spaces_idem(buf, start, indent as int);
        }
        while in_break(self.peek0())
            invariant
                self.wf(),
                self.moved_from(old(self)),
                self.pointer >= old(self).pointer,
                mark_in(self.buffer@, end_mark),
                old(self).pointer <= end_mark.pointer <= self.pointer,
                buf == self.buffer@,
                indent_spaces_end(buf, self.pointer as int, indent as int) == self.pointer,
                block_breaks_from(buf, self.pointer as int, indent as int, chunks@)
                    == block_breaks_from(buf, start, indent as int, seq![]),
            decreases self.buffer@.len() - self.pointer,
        {
            let ghost p = self.pointer as int;
            let ghost acc = chunks@;
            let lb = self.scan_line_break();
            push_all(&mut chunks, lb.as_slice());
            end_mark = self.get_mark();
            let ghost q0 = self.pointer as int;
            while (self.column as i64) < indent && self.peek0() == ' '
                invariant
                    self.wf(),
                    self.moved_from(old(self)),
                    self.pointer >= old(self).pointer,
                    mark_in(self.buffer@, end_mark),
                    old(self).pointer <= end_mark.pointer <= self.pointer,
                    buf == self.buffer@,
                    indent_spaces_end(buf, self.pointer as int, indent as int) == indent_spaces_end(
                        buf,
                        q0,
                        indent as int,
                    ),
                decreases self.buffer@.len() - self.pointer,
            {
                self.forward1();
            }
            proof {
                lemma_indent_spaces_idem(buf, q0, indent as int);
                assert(block_breaks_from(buf, p, indent as int, acc) == block_breaks_from(
                    buf,
                    q0,
                    indent as int,
                    chunks@,
                ));
            }
        }
        (chunks, end_mark)
    }

    // --- Flow scalars ------------------------------------------------------------

    /// A single- or double-quoted scalar.
    fn scan_flow_scalar(&mut self, style: char) -> (r: Result<Token, YamlError>)
        requires
            old(self).wf(),
            style == '\'' || style == '"',
            char_at(old(self).buffer@, old(self).pointer as int) == style,
        ensures
            final(self).scanned(old(self), r),
            r matches Ok(t) ==> (t.kind matches TokenKind::Scalar { plain, style: st, .. } && !plain
                && st == Some(style)),
            r matches Ok(t) ==> t.end_mark.pointer >= t.start_mark.pointer + 2 && char_at(
                final(self).buffer@,
                t.end_mark.pointer - 1,
            ) == style,
            match quoted_scalar_value(old(self).buffer@, old(self).pointer as int, style == '"') {
                None => r is Err,
                Some(v) => r matches Ok(t) && t.kind matches TokenKind::Scalar { value, .. } && value@
                    == v,
            },
    {
        let double = style == '"';
        let mut chunks: Vec<char> = Vec::new();
        let start_mark = self.get_mark();
        let quote = self.peek0();
        self.forward1();
        self.scan_flow_scalar_non_spaces(double, start_mark, &mut chunks)?;
        while self.peek0() != quote
            invariant
                self.wf(),
                self.moved_from(old(self)),
                self.pointer > old(self).pointer,
                mark_in(self.buffer@, start_mark),
                start_mark.pointer == old(self).pointer,
                quote == style,
                style == '\'' || style == '"',
                double == (style == '"'),
                self.buffer@ == old(self).buffer@,
                quoted_value_from(self.buffer@, self.pointer as int, double, chunks@)
                    == quoted_scalar_value(old(self).buffer@, old(self).pointer as int, double),
            decreases self.buffer@.len() - self.pointer,
        {
            let ghost p0 = self.pointer;
            self.scan_flow_scalar_spaces(start_mark, &mut chunks)?;
            self.scan_flow_scalar_non_spaces(double, start_mark, &mut chunks)?;
        }
        let ghost closing = self.pointer;
        assert(char_at(self.buffer@, closing as int) == style);
        self.forward1();
        let end_mark = self.get_mark();
        assert(end_mark.pointer == closing + 1);
        Ok(
            Token::new(
                TokenKind::Scalar {
                    value: chars_to_string(chunks.as_slice()),
                    plain: false,
                    style: Some(style),
                },
                start_mark,
                end_mark,
            ),
        )
    }

    /// The text of a quoted scalar up to a space, a break or the closing
    /// quote, with escapes decoded; when nothing was consumed, the current
    /// character is the quote or a space, tab, break or the end.
    fn scan_flow_scalar_non_spaces(
        &mut self,
        double: bool,
        start_mark: Mark,
        chunks: &mut Vec<char>,
    ) -> (r: Result<(), YamlError>)
        requires
            old(self).wf(),
            mark_in(old(self).buffer@, start_mark),
        ensures
            final(self).advanced(old(self), r),
            r is Ok && final(self).pointer == old(self).pointer ==> ({
                let ch = char_at(old(self).buffer@, old(self).pointer as int);
                ch == (if double {
                    '"'
                } else {
                    '\''
                }) || is_z_blank_break(ch)
            }),
            match quoted_text_from(old(self).buffer@, old(self).pointer as int, double, old(chunks)@) {
                None => r is Err,
                Some((t, k)) => r is Ok && final(chunks)@ == t && final(self).pointer == k,
            },
    {
        loop
            invariant
                self.wf(),
                self.moved_from(old(self)),
                self.pointer >= old(self).pointer,
                mark_in(self.buffer@, start_mark),
                self.buffer@ == old(self).buffer@,
                quoted_text_from(self.buffer@, self.pointer as int, double, chunks@) == quoted_text_from(
                    old(self).buffer@,
                    old(self).pointer as int,
                    double,
                    old(chunks)@,
                ),
            decreases self.buffer@.len() - self.pointer,
        {
            let ghost p0 = self.pointer;
            let ghost buf = self.buffer@;
            let ghost acc = chunks@;
            let mut length: usize = 0;
            while !is_quoted_stop(self.peek(length))
                invariant
                    self.wf(),
                    self.pointer == p0,
                    self.pointer + length < self.buffer@.len(),
                    buf == self.buffer@,
                    quoted_run_end(buf, p0 + length) == quoted_run_end(buf, p0 as int),
                decreases self.buffer@.len() - self.pointer - length,
            {
                length = length + 1;
            }
            if length > 0 {
                let text = self.prefix(length);
                push_all(chunks, text.as_slice());
                self.forward(length);
            }
            proof {
                assert(chunks@ =~= acc + buf.subrange(p0 as int, quoted_run_end(buf, p0 as int)));
            }
            let ch = self.peek0();
            if !double && ch == '\'' && self.peek(1) == '\'' {
                chunks.push('\'');
                self.forward(2);
            } else if (double && ch == '\'') || (!double && (ch == '"' || ch == '\\')) {
                chunks.push(ch);
                self.forward1();
            } else if double && ch == '\\' {
                self.forward1();
                let ch = self.peek0();
                if let Some(replacement) = escape_replacement(ch) {
                    chunks.push(replacement);
                    self.forward1();
                } else if let Some(length) = escape_code_length(ch) {
                    self.forward1();
                    let mut code: u64 = 0;
                    let mut k: usize = 0;
                    let ghost p1 = self.pointer;
                    while k < length
                        invariant
                            self.wf(),
                            self.moved_from(old(self)),
                            self.pointer == p1,
                            p1 > p0 >= old(self).pointer,
                            mark_in(self.buffer@, start_mark),
                            length == 2 || length == 4 || length == 8,
                            k <= length,
                            self.pointer + k < self.buffer@.len(),
                            code < pow16(k as nat),
                            buf == self.buffer@,
                            code == hex_code(buf, p1 as int, k as nat),
                            forall|j: int| 0 <= j < k ==> is_hex_char(#[trigger] char_at(buf, p1 + j)),
                            double,
                            p1 >= 2,
                            quoted_run_end(buf, p0 as int) == p1 - 2,
                            char_at(buf, p1 - 2) == '\\',
                            escape_replacement_spec(char_at(buf, p1 - 1)) is None,
                            length == (if char_at(buf, p1 - 1) == 'x' {
                                2usize
                            } else if char_at(buf, p1 - 1) == 'u' {
                                4usize
                            } else {
                                8usize
                            }),
                            char_at(buf, p1 - 1) == 'x' || char_at(buf, p1 - 1) == 'u' || char_at(buf, p1 - 1) == 'U',
                            quoted_text_from(buf, p0 as int, double, acc) == quoted_text_from(
                                old(self).buffer@,
                                old(self).pointer as int,
                                double,
                                old(chunks)@,
                            ),
                        decreases length - k,
                    {
                        proof {
                            lemma_pow16_bound(k as nat);
                        }
                        let c = self.peek(k);
                        if !is_hex(c) {
                            proof {
                                let q = p1 - 2;
                                assert(char_at(buf, q + 2 + k) == c);
                                assert(!is_hex_char(char_at(buf, q + 2 + k)));
                            }
                            return Err(
                                self.error_here(
                                    "while scanning a double-quoted scalar",
                                    start_mark,
                                    escape_message(length, c),
                                ),
                            );
                        }
                        code = code * 16 + hex_value_exec(c) as u64;
                        k = k + 1;
                    }
                    proof {
                        lemma_pow16_bound(length as nat);
                    }
                    let replacement = match char_from_u32(code as u32) {
                        Some(c) => c,
                        None => '\u{FFFD}',
                    };
                    chunks.push(replacement);
                    self.forward(length);
                } else if in_break(ch) {
                    self.scan_line_break();
                    self.scan_flow_scalar_breaks(start_mark, chunks)?;
                } else {
                    return Err(
                        self.error_here(
                            "while scanning a double-quoted scalar",
                            start_mark,
                            text_with_char("found unknown escape character ", ch),
                        ),
                    );
                }
            } else {
                return Ok(());
            }
        }
    }

    /// Spaces and breaks inside a quoted scalar, folded; when nothing was
    /// consumed, the current character is none of a space, tab, break or
    /// the end.
    fn scan_flow_scalar_spaces(&mut self, start_mark: Mark, chunks: &mut Vec<char>) -> (r: Result<
        (),
        YamlError,
    >)
        requires
            old(self).wf(),
            mark_in(old(self).buffer@, start_mark),
        ensures
            final(self).advanced(old(self), r),
            r is Ok && final(self).pointer == old(self).pointer ==> !is_z_blank_break(
                char_at(old(self).buffer@, old(self).pointer as int),
            ),
            match quoted_spaces(old(self).buffer@, old(self).pointer as int) {
                None => r is Err,
                Some((t, k)) => r is Ok && final(chunks)@ == old(chunks)@ + t && final(self).pointer == k,
            },
    {
        let mut length: usize = 0;
        while self.peek(length) == ' ' || self.peek(length) == '\t'
            invariant
                self.wf(),
                self.pointer + length < self.buffer@.len(),
                self.buffer@ == old(self).buffer@,
                self.pointer == old(self).pointer,
                blanks_end(self.buffer@, self.pointer + length) == blanks_end(
                    self.buffer@,
                    self.pointer as int,
                ),
            decreases self.buffer@.len() - self.pointer - length,
        {
            length = length + 1;
        }
        let whitespaces = self.prefix(length);
        self.forward(length);
        let ch = self.peek0();
        if ch == '\0' {
            return Err(
                self.error_here(
                    "while scanning a quoted scalar",
                    start_mark,
                    "found unexpected end of stream".to_owned(),
                ),
            );
        } else if in_break(ch) {
            let line_break = self.scan_line_break();
            let mut breaks: Vec<char> = Vec::new();
            let had_breaks = self.scan_flow_scalar_breaks_into(start_mark, &mut breaks)?;
            proof {
                if line_break@ == seq!['\n'] {
                    assert(line_break@.len() == 1 && line_break@[0] == '\n');
                }
                if line_break@.len() == 1 && line_break@[0] == '\n' {
                    assert(line_break@ =~= seq!['\n']);
                }
            }
            if !(line_break.len() == 1 && line_break[0] == '\n') {
                push_all(chunks, line_break.as_slice());
            } else if !had_breaks {
                chunks.push(' ');
            }
            push_all(chunks, breaks.as_slice());
        } else {
            push_all(chunks, whitespaces.as_slice());
        }
        Ok(())
    }

    fn scan_flow_scalar_breaks(&mut self, start_mark: Mark, chunks: &mut Vec<char>) -> (r: Result<
        (),
        YamlError,
    >)
        requires
            old(self).wf(),
            mark_in(old(self).buffer@, start_mark),
        ensures
            final(self).advanced(old(self), r),
            r is Ok ==> appended_breaks(old(chunks)@, final(chunks)@),
            r is Ok ==> ({
                let c = char_at(final(self).buffer@, final(self).pointer as int);
                c != ' ' && c != '\t' && !is_break_char(c)
            }),
            quoted_breaks_from(old(self).buffer@, old(self).pointer as int, seq![]) is None ==> r is Err,
            quoted_breaks_from(old(self).buffer@, old(self).pointer as int, seq![]) matches Some((b, k))
                ==> r is Ok && final(chunks)@ == old(chunks)@ + b && final(self).pointer == k,
    {
        let mut breaks: Vec<char> = Vec::new();
        self.scan_flow_scalar_breaks_into(start_mark, &mut breaks)?;
        push_all(chunks, breaks.as_slice());
        proof {
            assert(final(chunks)@.subrange(0, old(chunks)@.len() as int) =~= old(chunks)@);
            assert forall|k: int| old(chunks)@.len() <= k < final(chunks)@.len() implies break_output(#[trigger] final(chunks)@[k]) by {
                assert(final(chunks)@[k] == breaks@[k - old(chunks)@.len()]);
                assert(breaks@.subrange(0, 0) =~= Seq::<char>::empty());
            }
        }
        Ok(())
    }

    /// The line breaks (and the blanks around them) inside a quoted scalar;
    /// tells whether any break was consumed.
    fn scan_flow_scalar_breaks_into(&mut self, start_mark: Mark, chunks: &mut Vec<char>) -> (r: Result<
        bool,
        YamlError,
    >)
        requires
            old(self).wf(),
            mark_in(old(self).buffer@, start_mark),
        ensures
            final(self).advanced(old(self), r),
            r is Ok ==> appended_breaks(old(chunks)@, final(chunks)@),
            r matches Ok(any) ==> any == (final(chunks)@.len() > old(chunks)@.len()),
            r is Ok ==> ({
                let c = char_at(final(self).buffer@, final(self).pointer as int);
                c != ' ' && c != '\t' && !is_break_char(c)
            }),
            r is Ok <==> quoted_breaks_from(old(self).buffer@, old(self).pointer as int, old(chunks)@) is Some,
            r is Ok ==> quoted_breaks_from(old(self).buffer@, old(self).pointer as int, old(chunks)@)
                == Some((final(chunks)@, final(self).pointer as int)),
    {
        let mut any = false;
        assert(chunks@.subrange(0, chunks@.len() as int) =~= chunks@);
        loop
            invariant
                self.wf(),
                self.moved_from(old(self)),
                self.pointer >= old(self).pointer,
                mark_in(self.buffer@, start_mark),
                appended_breaks(old(chunks)@, chunks@),
                any == (chunks@.len() > old(chunks)@.len()),
                self.buffer@ == old(self).buffer@,
                quoted_breaks_from(self.buffer@, self.pointer as int, chunks@) == quoted_breaks_from(
                    old(self).buffer@,
                    old(self).pointer as int,
                    old(chunks)@,
                ),
            decreases self.buffer@.len() - self.pointer,
        {
            let ghost p0 = self.pointer;
            if self.check_document_marker('-') || self.check_document_marker('.') {
                return Err(
                    self.error_here(
                        "while scanning a quoted scalar",
                        start_mark,
                        "found unexpected document separator".to_owned(),
                    ),
                );
            }
            while self.peek0() == ' ' || self.peek0() == '\t'
                invariant
                    self.wf(),
                    self.moved_from(old(self)),
                    self.pointer >= p0 >= old(self).pointer,
                    mark_in(self.buffer@, start_mark),
                    blanks_end(self.buffer@, self.pointer as int) == blanks_end(self.buffer@, p0 as int),
                decreases self.buffer@.len() - self.pointer,
            {
                self.forward1();
            }
            if in_break(self.peek0()) {
                let ghost before = chunks@;
                let lb = self.scan_line_break();
                push_all(chunks, lb.as_slice());
                proof {
                    assert(chunks@.subrange(0, old(chunks)@.len() as int) =~= before.subrange(
                        0,
                        old(chunks)@.len() as int,
                    ));
                    assert forall|k: int| old(chunks)@.len() <= k < chunks@.len() implies break_output(#[trigger] chunks@[k]) by {
                        if k >= before.len() {
                            assert(chunks@[k] == lb@[k - before.len()]);
                        } else {
                            assert(chunks@[k] == before[k]);
                        }
                    }
                }
                any = true;
            } else {
                return Ok(any);
            }
        }
    }

    // --- Plain scalars -------------------------------------------------------------

    /// A plain scalar: words and the spaces and breaks between them, up to
    /// a comment, an indicator, a lesser indentation or a document marker.
    fn scan_plain(&mut self) -> (t: Token)
        requires
            old(self).wf(),
            plain_start(
                char_at(old(self).buffer@, old(self).pointer as int),
                char_at(old(self).buffer@, old(self).pointer + 1),
                old(self).flow_level,
            ),
        ensures
            final(self).wf(),
            final(self).kept_state(old(self)),
            final(self).pointer > old(self).pointer,
            token_in(final(self).buffer@, t),
            t.start_mark.pointer == old(self).pointer,
            t.end_mark.pointer <= final(self).pointer,
            t.kind matches TokenKind::Scalar { plain, style, .. } && plain && style is None,
            t.kind matches TokenKind::Scalar { value, .. } && value@ == plain_words_from(
                old(self).buffer@,
                old(self).pointer as int,
                old(self).indent + 1,
                old(self).flow_level,
                seq![],
                seq![],
            ),
    {
        let mut chunks: Vec<char> = Vec::new();
        let start_mark = self.get_mark();
        let mut end_mark = start_mark;
        let indent = self.indent + 1;
        let mut spaces: Vec<char> = Vec::new();
        let mut first = true;
        loop
            invariant_except_break
                plain_words_from(
                    self.buffer@,
                    self.pointer as int,
                    indent as int,
                    self.flow_level,
                    chunks@,
                    spaces@,
                ) == plain_words_from(
                    old(self).buffer@,
                    old(self).pointer as int,
                    indent as int,
                    old(self).flow_level,
                    seq![],
                    seq![],
                ),
            invariant
                self.wf(),
                self.kept_state(old(self)),
                self.pointer >= old(self).pointer,
                first ==> self.pointer == old(self).pointer,
                !first ==> self.pointer > old(self).pointer,
                mark_in(self.buffer@, start_mark),
                start_mark.pointer == old(self).pointer,
                mark_in(self.buffer@, end_mark),
                old(self).pointer <= end_mark.pointer <= self.pointer,
                indent == old(self).indent + 1,
                plain_start(
                    char_at(old(self).buffer@, old(self).pointer as int),
                    char_at(old(self).buffer@, old(self).pointer + 1),
                    old(self).flow_level,
                ),
            ensures
                self.wf(),
                self.kept_state(old(self)),
                self.pointer > old(self).pointer,
                mark_in(self.buffer@, end_mark),
                old(self).pointer <= end_mark.pointer <= self.pointer,
                chunks@ == plain_words_from(
                    old(self).buffer@,
                    old(self).pointer as int,
                    old(self).indent + 1,
                    old(self).flow_level,
                    seq![],
                    seq![],
                ),
            decreases self.buffer@.len() - self.pointer,
        {
            let ghost p0 = self.pointer;
            let mut length: usize = 0;
            if self.peek0() == '#' {
                break ;
            }
            while !plain_stop_exec(self.peek(length), self.peek(length + 1), self.flow_level)
                invariant
                    self.wf(),
                    self.pointer == p0,
                    self.pointer + length < self.buffer@.len(),
                    plain_word_end(self.buffer@, p0 + length, self.flow_level) == plain_word_end(
                        self.buffer@,
                        p0 as int,
                        self.flow_level,
                    ),
                decreases self.buffer@.len() - self.pointer - length,
            {
                length = length + 1;
            }
            if length == 0 {
                break ;
            }
            let ghost mid = *self;
            self.allow_simple_key = false;
            proof {
                Scanner::lemma_keys_carry(mid, *self);
            }
            push_all(&mut chunks, spaces.as_slice());
            let text = self.prefix(length);
            push_all(&mut chunks, text.as_slice());
            self.forward(length);
            end_mark = self.get_mark();
            first = false;
            spaces = self.scan_plain_spaces();
            if spaces.len() == 0 || self.peek0() == '#' || (self.flow_level == 0 && (self.column as i64)
                < indent) {
                break ;
            }
        }
        Token::new(
            TokenKind::Scalar {
                value: chars_to_string(chunks.as_slice()),
                plain: true,
                style: None,
            },
            start_mark,
            end_mark,
        )
    }

    /// The spaces and breaks after a word of a plain scalar, folded; empty
    /// at a document marker. A break allows a simple key again.
    fn scan_plain_spaces(&mut self) -> (r: Vec<char>)
        requires
            old(self).wf(),
        ensures
            final(self).wf(),
            final(self).kept_state(old(self)),
            final(self).pointer >= old(self).pointer,
            ({
                let q = spaces_end(old(self).buffer@, old(self).pointer as int);
                if is_break_char(char_at(old(self).buffer@, q)) {
                    &&& final(self).pointer > q
                    &&& (r@.len() == 0 || r@ == seq![' '] || (forall|k: int|
                        0 <= k < r@.len() ==> break_output(#[trigger] r@[k])))
                } else {
                    r@ == old(self).buffer@.subrange(old(self).pointer as int, q) && final(self).pointer
                        == q
                }
            }),
            (r@, final(self).pointer as int) == plain_gap(old(self).buffer@, old(self).pointer as int),
    {
        let mut chunks: Vec<char> = Vec::new();
        let mut length: usize = 0;
        while self.peek(length) == ' '
            invariant
                self.wf(),
                self.pointer + length < self.buffer@.len(),
                spaces_end(self.buffer@, self.pointer + length) == spaces_end(
                    self.buffer@,
                    self.pointer as int,
                ),
            decreases self.buffer@.len() - self.pointer - length,
        {
            length = length + 1;
        }
        assert(spaces_end(self.buffer@, self.pointer + length) == self.pointer + length);
        let whitespaces = self.prefix(length);
        self.forward(length);
        let ch = self.peek0();
        if in_break(ch) {
            let line_break = self.scan_line_break();
            let ghost mid = *self;
            self.allow_simple_key = true;
            proof {
                Scanner::lemma_keys_carry(mid, *self);
            }
            if self.check_document_marker('-') || self.check_document_marker('.') {
                return Vec::new();
            }
            let mut breaks: Vec<char> = Vec::new();
            let ghost q = spaces_end(old(self).buffer@, old(self).pointer as int);
            let ghost j0 = self.pointer as int;
            while self.peek0() == ' ' || in_break(self.peek0())
                invariant
                    self.wf(),
                    self.kept_state(old(self)),
                    self.pointer >= old(self).pointer,
                    self.pointer > q,
                    q == spaces_end(old(self).buffer@, old(self).pointer as int),
                    is_break_char(char_at(old(self).buffer@, q)),
                    forall|k: int| 0 <= k < breaks@.len() ==> break_output(#[trigger] breaks@[k]),
                    j0 == break_end(old(self).buffer@, q),
                    plain_breaks_from(self.buffer@, self.pointer as int, breaks@) == plain_breaks_from(
                        old(self).buffer@,
                        j0,
                        seq![],
                    ),
                decreases self.buffer@.len() - self.pointer,
            {
                if self.peek0() == ' ' {
                    self.forward1();
                } else {
                    let ghost before = breaks@;
                    let lb = self.scan_line_break();
                    push_all(&mut breaks, lb.as_slice());
                    assert forall|k: int| 0 <= k < breaks@.len() implies break_output(#[trigger] breaks@[k]) by {
                        if k >= before.len() {
                            assert(breaks@[k] == lb@[k - before.len()]);
                        } else {
                            assert(breaks@[k] == before[k]);
                        }
                    }
                    if self.check_document_marker('-') || self.check_document_marker('.') {
                        return Vec::new();
                    }
                }
            }
            if !(line_break.len() == 1 && line_break[0] == '\n') {
                push_all(&mut chunks, line_break.as_slice());
            } else if breaks.len() == 0 {
                chunks.push(' ');
            }
            let ghost before = chunks@;
            push_all(&mut chunks, breaks.as_slice());
            proof {
                if !(before == seq![' '] && breaks@.len() == 0) && chunks@.len() > 0 {
                    assert forall|k: int| 0 <= k < chunks@.len() implies break_output(#[trigger] chunks@[k]) by {
                        if k < before.len() {
                            assert(chunks@[k] == before[k]);
                            assert(before == line_break@);
                        } else {
                            assert(chunks@[k] == breaks@[k - before.len()]);
                        }
                    }
                } else if breaks@.len() == 0 {
                    assert(chunks@ =~= before);
                }
            }
        } else if whitespaces.len() > 0 {
            push_all(&mut chunks, whitespaces.as_slice());
        }
        chunks
    }
}

/// Where the text of a quoted scalar stops: a quote, a backslash, a blank,
/// a break or the end.
pub open spec fn quoted_stop(ch: char) -> bool {
    ch == '\'' || ch == '"' || ch == '\\' || is_z_blank_break(ch)
}

fn is_quoted_stop(ch: char) -> (r: bool)
    ensures
        r == quoted_stop(ch),
{
    ch == '\'' || ch == '"' || ch == '\\' || in_z_blank_break(ch)
}

/// The character that a one-character escape `\\ch` stands for.
pub open spec fn escape_replacement_spec(ch: char) -> Option<char> {
    if ch == '0' {
        Some('\0')
    } else if ch == 'a' {
        Some('\x07')
    } else if ch == 'b' {
        Some('\x08')
    } else if ch == 't' || ch == '\t' {
        Some('\x09')
    } else if ch == 'n' {
        Some('\x0A')
    } else if ch == 'v' {
        Some('\x0B')
    } else if ch == 'f' {
        Some('\x0C')
    } else if ch == 'r' {
        Some('\x0D')
    } else if ch == 'e' {
        Some('\x1B')
    } else if ch == ' ' {
        Some('\x20')
    } else if ch == '"' {
        Some('"')
    } else if ch == '\\' {
        Some('\\')
    } else if ch == '/' {
        Some('/')
    } else if ch == 'N' {
        Some('\u{85}')
    } else if ch == '_' {
        Some('\u{A0}')
    } else if ch == 'L' {
        Some('\u{2028}')
    } else if ch == 'P' {
        Some('\u{2029}')
    } else {
        None
    }
}

/// The one-letter escapes that YAML takes from C, `\a \b \t \n \v \f \r`,
/// stand for the control characters U+0007 to U+000D, in that order; `\0`
/// stands for U+0000 and `\e` for escape, U+001B.
pub proof fn lemma_c_escapes(i: int)
    requires
        0 <= i < 7,
    ensures
        escape_replacement_spec(seq!['a', 'b', 't', 'n', 'v', 'f', 'r'][i]) matches Some(c) && c as u32
            == 7 + i,
        escape_replacement_spec('0') matches Some(c) && c as u32 == 0,
        escape_replacement_spec('e') matches Some(c) && c as u32 == 0x1B,
{
    let l = seq!['a', 'b', 't', 'n', 'v', 'f', 'r'];
    if i == 0 {
        assert(l[i] == 'a');
    } else if i == 1 {
        assert(l[i] == 'b');
    } else if i == 2 {
        assert(l[i] == 't');
    } else if i == 3 {
        assert(l[i] == 'n');
    } else if i == 4 {
        assert(l[i] == 'v');
    } else if i == 5 {
        assert(l[i] == 'f');
    } else {
        assert(l[i] == 'r');
    }
}

/// Escaping a space, a double quote, a slash or a backslash gives the
/// character itself, a tab escaped as itself gives a tab, and `\N \_ \L \P`
/// stand for the next line, no-break space, line separator and paragraph
/// separator characters (U+0085, U+00A0, U+2028, U+2029).
pub proof fn lemma_literal_and_unicode_escapes(c: char)
    ensures
        (c == ' ' || c == '"' || c == '/' || c == '\\' || c == '\t') ==> escape_replacement_spec(c)
            == Some(c),
        escape_replacement_spec('N') matches Some(x) && x as u32 == 0x85,
        escape_replacement_spec('_') matches Some(x) && x as u32 == 0xA0,
        escape_replacement_spec('L') matches Some(x) && x as u32 == 0x2028,
        escape_replacement_spec('P') matches Some(x) && x as u32 == 0x2029,
{
}

fn escape_replacement(ch: char) -> (r: Option<char>)
    ensures
        r == escape_replacement_spec(ch),
{
    if ch == '0' {
        Some('\0')
    } else if ch == 'a' {
        Some('\x07')
    } else if ch == 'b' {
        Some('\x08')
    } else if ch == 't' || ch == '\t' {
        Some('\x09')
    } else if ch == 'n' {
        Some('\x0A')
    } else if ch == 'v' {
        Some('\x0B')
    } else if ch == 'f' {
        Some('\x0C')
    } else if ch == 'r' {
        Some('\x0D')
    } else if ch == 'e' {
        Some('\x1B')
    } else if ch == ' ' {
        Some('\x20')
    } else if ch == '"' {
        Some('"')
    } else if ch == '\\' {
        Some('\\')
    } else if ch == '/' {
        Some('/')
    } else if ch == 'N' {
        Some('\u{85}')
    } else if ch == '_' {
        Some('\u{A0}')
    } else if ch == 'L' {
        Some('\u{2028}')
    } else if ch == 'P' {
        Some('\u{2029}')
    } else {
        None
    }
}

/// The number of hexadecimal digits after `\\x`, `\\u` and `\\U`.
fn escape_code_length(ch: char) -> (r: Option<usize>)
    ensures
        r == (if ch == 'x' {
            Some(2usize)
        } else if ch == 'u' {
            Some(4usize)
        } else if ch == 'U' {
            Some(8usize)
        } else {
            None
        }),
{
    if ch == 'x' {
        Some(2)
    } else if ch == 'u' {
        Some(4)
    } else if ch == 'U' {
        Some(8)
    } else {
        None
    }
}

/// `16` to the power `k`.
pub open spec fn pow16(k: nat) -> nat
    decreases k,
{
    if k == 0 {
        1
    } else {
        16 * pow16((k - 1) as nat)
    }
}

proof fn lemma_pow16_bound(k: nat)
    requires
        k <= 8,
    ensures
        pow16(k) <= 0x1_0000_0000,
    decreases 8 - k,
{
    if k < 8 {
        lemma_pow16_bound(k + 1);
        assert(pow16(k + 1) == 16 * pow16(k));
    } else {
        reveal_with_fuel(pow16, 9);
    }
}

/// "expected escape sequence of N hexadecimal numbers, but found X".
fn escape_message(length: usize, ch: char) -> (r: String)
    requires
        length == 2 || length == 4 || length == 8,
    ensures
        r@ == "expected escape sequence of "@ + seq![(if length == 2 {
            '2'
        } else if length == 4 {
            '4'
        } else {
            '8'
        })] + " hexadecimal numbers, but found "@ + py_repr_spec(seq![ch]),
{
    let mut v = str_chars("expected escape sequence of ");
    let digit = if length == 2 {
        '2'
    } else if length == 4 {
        '4'
    } else {
        '8'
    };
    v.push(digit);
    push_str(&mut v, " hexadecimal numbers, but found ");
    let quoted = py_repr_char(ch);
    push_str(&mut v, quoted.as_str());
    chars_to_string(v.as_slice())
}

/// Where a word of a plain scalar stops.
pub open spec fn plain_stop(ch: char, next: char, flow_level: usize) -> bool {
    is_z_blank_break(ch) || (ch == ':' && (is_z_blank_break(next) || (flow_level != 0 && (next
        == ',' || next == '[' || next == ']' || next == '{' || next == '}')))) || (flow_level != 0
        && (ch == ',' || ch == '?' || ch == '[' || ch == ']' || ch == '{' || ch == '}'))
}

fn plain_stop_exec(ch: char, next: char, flow_level: usize) -> (r: bool)
    ensures
        r == plain_stop(ch, next, flow_level),
{
    in_z_blank_break(ch) || (ch == ':' && (in_z_blank_break(next) || (flow_level != 0 && (next
        == ',' || next == '[' || next == ']' || next == '{' || next == '}')))) || (flow_level != 0
        && (ch == ',' || ch == '?' || ch == '[' || ch == ']' || ch == '{' || ch == '}'))
}

/// Whether a plain scalar can start here.
pub open spec fn plain_start(ch: char, next: char, flow_level: usize) -> bool {
    (!is_z_blank_break(ch) && !(ch == '-' || ch == '?' || ch == ':' || ch == ',' || ch == '['
        || ch == ']' || ch == '{' || ch == '}' || ch == '#' || ch == '&' || ch == '*' || ch == '!'
        || ch == '|' || ch == '>' || ch == '\'' || ch == '"' || ch == '%' || ch == '@' || ch
        == '`')) || (!is_z_blank_break(next) && (ch == '-' || (flow_level == 0 && (ch == '?' || ch
        == ':'))))
}

impl Scanner {
    // --- Checkers ----------------------------------------------------------------

    /// A directive starts at the beginning of a line.
    fn check_directive(&self) -> (r: bool)
        ensures
            r == (self.column == 0),
    {
        self.column == 0
    }

    /// `---` or `...` followed by a blank, at the beginning of a line.
    fn check_document_marker(&self, c: char) -> (r: bool)
        requires
            self.wf(),
            c == '-' || c == '.',
        ensures
            r == (self.column == 0 && doc_marker_at(self.buffer@, self.pointer as int, c)),
            r ==> self.pointer + 3 < self.buffer@.len(),
    {
        if self.column != 0 {
            return false;
        }
        let r = self.peek(0) == c && self.peek(1) == c && self.peek(2) == c && in_z_blank_break(
            self.peek(3),
        );
        r
    }

    /// `-` followed by a blank.
    fn check_block_entry(&self) -> (r: bool)
        requires
            self.wf(),
        ensures
            r == is_z_blank_break(char_at(self.buffer@, self.pointer + 1)),
    {
        in_z_blank_break(self.peek(1))
    }

    /// `?` or `:` as an indicator: anywhere in the flow context, followed
    /// by a blank in the block context.
    fn check_key_or_value(&self) -> (r: bool)
        requires
            self.wf(),
        ensures
            r == (self.flow_level != 0 || is_z_blank_break(char_at(self.buffer@, self.pointer + 1))),
    {
        if self.flow_level != 0 {
            true
        } else {
            in_z_blank_break(self.peek(1))
        }
    }

    fn check_plain(&self) -> (r: bool)
        requires
            self.wf(),
        ensures
            r == plain_start(
                char_at(self.buffer@, self.pointer as int),
                char_at(self.buffer@, self.pointer + 1),
                self.flow_level,
            ),
    {
        let ch = self.peek0();
        let next = self.peek(1);
        let not_special = !in_z_blank_break(ch) && !(ch == '-' || ch == '?' || ch == ':' || ch
            == ',' || ch == '[' || ch == ']' || ch == '{' || ch == '}' || ch == '#' || ch == '&'
            || ch == '*' || ch == '!' || ch == '|' || ch == '>' || ch == '\'' || ch == '"' || ch
            == '%' || ch == '@' || ch == '`');
        not_special || (!in_z_blank_break(next) && (ch == '-' || (self.flow_level == 0 && (ch
            == '?' || ch == ':'))))
    }

    // --- Fetchers of scanned tokens ------------------------------------------------

    fn fetch_anchor(&mut self, is_alias: bool) -> (r: Result<(), YamlError>)
        requires
            old(self).wf(),
            !old(self).done,
            char_at(old(self).buffer@, old(self).pointer as int) == (if is_alias {
                '*'
            } else {
                '&'
            }),
            old(self).tokens_taken + old(self).tokens@.len() <= usize::MAX,
        ensures
            final(self).fetched(old(self), r),
    {
        self.save_possible_simple_key()?;
        let ghost mid = *self;
        self.allow_simple_key = false;
        proof {
            Scanner::lemma_keys_carry(mid, *self);
        }
        let token = self.scan_anchor(is_alias)?;
        self.push_token(token);
        Ok(())
    }

    fn fetch_tag(&mut self) -> (r: Result<(), YamlError>)
        requires
            old(self).wf(),
            !old(self).done,
            char_at(old(self).buffer@, old(self).pointer as int) == '!',
            old(self).tokens_taken + old(self).tokens@.len() <= usize::MAX,
        ensures
            final(self).fetched(old(self), r),
    {
        self.save_possible_simple_key()?;
        let ghost mid = *self;
        self.allow_simple_key = false;
        proof {
            Scanner::lemma_keys_carry(mid, *self);
        }
        let token = self.scan_tag()?;
        self.push_token(token);
        Ok(())
    }

    fn fetch_block_scalar(&mut self, style: char) -> (r: Result<(), YamlError>)
        requires
            old(self).wf(),
            !old(self).done,
            style == '|' || style == '>',
            char_at(old(self).buffer@, old(self).pointer as int) == style,
        ensures
            final(self).fetched(old(self), r),
            old(self).possible_simple_keys@.len() == 0 ==> (r is Ok <==> block_header_ok(
                old(self).buffer@,
                old(self).pointer + 1,
            )) && (r is Ok ==> last_scalar_value(final(self).tokens@) == Some(
                block_scalar_value(old(self).buffer@, old(self).pointer as int, old(self).indent as int),
            )),
    {
        let ghost mid = *self;
        self.allow_simple_key = true;
        proof {
            Scanner::lemma_keys_carry(mid, *self);
        }
        self.remove_possible_simple_key()?;
        let token = self.scan_block_scalar(style)?;
        self.push_token(token);
        Ok(())
    }

    fn fetch_flow_scalar(&mut self, style: char) -> (r: Result<(), YamlError>)
        requires
            old(self).wf(),
            !old(self).done,
            style == '\'' || style == '"',
            char_at(old(self).buffer@, old(self).pointer as int) == style,
            old(self).tokens_taken + old(self).tokens@.len() <= usize::MAX,
        ensures
            final(self).fetched(old(self), r),
            old(self).possible_simple_keys@.len() == 0 ==> match quoted_scalar_value(
                old(self).buffer@,
                old(self).pointer as int,
                style == '"',
            ) {
                None => r is Err,
                Some(v) => r is Ok && last_scalar_value(final(self).tokens@) == Some(v),
            },
    {
        self.save_possible_simple_key()?;
        let ghost mid = *self;
        self.allow_simple_key = false;
        proof {
            Scanner::lemma_keys_carry(mid, *self);
        }
        let token = self.scan_flow_scalar(style)?;
        self.push_token(token);
        Ok(())
    }

    fn fetch_plain(&mut self) -> (r: Result<(), YamlError>)
        requires
            old(self).wf(),
            !old(self).done,
            plain_start(
                char_at(old(self).buffer@, old(self).pointer as int),
                char_at(old(self).buffer@, old(self).pointer + 1),
                old(self).flow_level,
            ),
            old(self).tokens_taken + old(self).tokens@.len() <= usize::MAX,
        ensures
            final(self).fetched(old(self), r),
            old(self).possible_simple_keys@.len() == 0 ==> r is Ok && last_scalar_value(
                final(self).tokens@,
            ) == Some(
                plain_words_from(
                    old(self).buffer@,
                    old(self).pointer as int,
                    old(self).indent + 1,
                    old(self).flow_level,
                    seq![],
                    seq![],
                ),
            ),
    {
        self.save_possible_simple_key()?;
        let ghost mid = *self;
        self.allow_simple_key = false;
        proof {
            Scanner::lemma_keys_carry(mid, *self);
        }
        let token = self.scan_plain();
        self.push_token(token);
        Ok(())
    }

    // --- The token stream ----------------------------------------------------------

    /// Scan the next token, or tokens: the indicator or scalar at the next
    /// non-blank position decides which.
    fn fetch_more_tokens_inner(&mut self) -> (r: Result<(), YamlError>)
        requires
            old(self).wf(),
            !old(self).done,
            !old(self).failed,
            old(self).counts_ok(),
        ensures
            final(self).fetched(old(self), r),
            char_at(old(self).buffer@, old(self).pointer as int) == '\0'
                && old(self).possible_simple_keys@.len() == 0 ==> r is Ok && final(self).done
                && final(self).tokens@.last() == (Token {
                kind: TokenKind::StreamEnd,
                start_mark: old(self).current_mark(),
                end_mark: old(self).current_mark(),
            }),
            ({
                let c = char_at(old(self).buffer@, old(self).pointer as int);
                flow_indicator_kind(c) matches Some(k) ==> (old(self).possible_simple_keys@.len() == 0
                    ==> r is Ok && final(self).tokens@.last().kind == k
                    && final(self).tokens@.last().start_mark == old(self).current_mark())
            }),
            ({
                let buf = old(self).buffer@;
                let p = old(self).pointer as int;
                let c = char_at(buf, p);
                let indent = if old(self).flow_level == 0 {
                    unwound_indent(old(self).indent, old(self).indents@, old(self).column as int)
                } else {
                    old(self).indent
                };
                old(self).possible_simple_keys@.len() == 0 ==> {
                    &&& (c == '\'' || c == '"') ==> match quoted_scalar_value(buf, p, c == '"') {
                        None => r is Err,
                        Some(v) => r is Ok && last_scalar_value(final(self).tokens@) == Some(v),
                    }
                    &&& ascii_alnum(c) ==> r is Ok && last_scalar_value(final(self).tokens@) == Some(
                        plain_words_from(buf, p, indent + 1, old(self).flow_level, seq![], seq![]),
                    )
                    &&& (c == '|' || c == '>') && old(self).flow_level == 0 ==> (r is Ok
                        <==> block_header_ok(buf, p + 1)) && (r is Ok ==> last_scalar_value(
                        final(self).tokens@,
                    ) == Some(block_scalar_value(buf, p, indent as int)))
                }
            }),
            old(self).clean_rest() ==> r is Ok && final(self).done && !final(self).failed
                && final(self).tokens@ == old(self).tokens@.push(
                Token {
                    kind: TokenKind::StreamEnd,
                    start_mark: old(self).current_mark(),
                    end_mark: old(self).current_mark(),
                },
            ),
            ({
                let c = char_at(old(self).buffer@, old(self).pointer as int);
                (c == ']' || c == '}' || c == ',') && old(self).possible_simple_keys@.len() == 0
                    && old(self).indent == -1 ==> final(self).tokens@.len() == old(self).tokens@.len() + 1
                    && final(self).done == old(self).done && final(self).possible_simple_keys@.len() == 0
                    && final(self).failed == old(self).failed
            }),
    {
        // Eat whitespaces and comments until the next token.
        self.scan_to_next_token();
        // Remove obsolete possible simple keys.
        self.stale_possible_simple_keys()?;
        // Compare the current indentation and column; this may close blocks.
        self.unwind_indent(self.column as i64);
        let ch = self.peek0();
        if ch == '\0' {
            return self.fetch_stream_end();
        }
        if ch == '%' && self.check_directive() {
            return self.fetch_directive();
        }
        if ch == '-' && self.check_document_marker('-') {
            return self.fetch_document_indicator(TokenKind::DocumentStart);
        }
        if ch == '.' && self.check_document_marker('.') {
            return self.fetch_document_indicator(TokenKind::DocumentEnd);
        }
        if ch == '[' {
            return self.fetch_flow_collection_start(TokenKind::FlowSequenceStart);
        }
        if ch == '{' {
            return self.fetch_flow_collection_start(TokenKind::FlowMappingStart);
        }
        if ch == ']' {
            return self.fetch_flow_collection_end(TokenKind::FlowSequenceEnd);
        }
        if ch == '}' {
            return self.fetch_flow_collection_end(TokenKind::FlowMappingEnd);
        }
        if ch == ',' {
            return self.fetch_flow_entry();
        }
        if ch == '-' && self.check_block_entry() {
            return self.fetch_block_indicator(true);
        }
        if ch == '?' && self.check_key_or_value() {
            return self.fetch_block_indicator(false);
        }
        if ch == ':' && self.check_key_or_value() {
            return self.fetch_value();
        }
        if ch == '*' {
            return self.fetch_anchor(true);
        }
        if ch == '&' {
            return self.fetch_anchor(false);
        }
        if ch == '!' {
            return self.fetch_tag();
        }
        if ch == '|' && self.flow_level == 0 {
            return self.fetch_block_scalar('|');
        }
        if ch == '>' && self.flow_level == 0 {
            return self.fetch_block_scalar('>');
        }
        if ch == '\'' {
            return self.fetch_flow_scalar('\'');
        }
        if ch == '"' {
            return self.fetch_flow_scalar('"');
        }
        if self.check_plain() {
            return self.fetch_plain();
        }
        Err(
            YamlError::new(
                Some("while scanning for the next token"),
                None,
                text_around_char("found character ", ch, " that cannot start any token"),
                Some(self.get_mark()),
            ),
        )
    }

    fn fetch_more_tokens(&mut self) -> (r: Result<(), YamlError>)
        requires
            old(self).wf(),
            !old(self).done,
            !old(self).failed,
            old(self).counts_ok(),
        ensures
            final(self).fetched(old(self), r),
            r is Err ==> final(self).failed,
            old(self).clean_rest() ==> r is Ok && final(self).done && !final(self).failed
                && final(self).tokens@ == old(self).tokens@.push(
                Token {
                    kind: TokenKind::StreamEnd,
                    start_mark: old(self).current_mark(),
                    end_mark: old(self).current_mark(),
                },
            ),
            old(self).at_flow_closer() ==> r is Ok && !final(self).done && !final(self).failed
                && final(self).possible_simple_keys@.len() == 0 && final(self).tokens@.len() == 1
                && Some(final(self).tokens@[0].kind) == flow_indicator_kind(old(self).current_char())
                && final(self).tokens@[0].start_mark == old(self).current_mark(),
    {
        match self.fetch_more_tokens_inner() {
            Ok(()) => Ok(()),
            Err(e) => {
                let ghost mid = *self;
                self.failed = true;
                proof {
                    Scanner::lemma_keys_carry(mid, *self);
                }
                Err(e)
            },
        }
    }

    /// Whether a token must be scanned before the next one can be handed
    /// out: none is queued, or the first may still become a simple key.
    fn need_more_tokens(&mut self) -> (r: Result<bool, YamlError>)
        requires
            old(self).wf(),
        ensures
            final(self).wf(),
            final(self).buffer@ == old(self).buffer@,
            final(self).pointer == old(self).pointer,
            final(self).line == old(self).line,
            final(self).column == old(self).column,
            final(self).done == old(self).done,
            final(self).tokens@ == old(self).tokens@,
            final(self).tokens_taken == old(self).tokens_taken,
            final(self).indents@ == old(self).indents@,
            final(self).possible_simple_keys@.len() <= old(self).possible_simple_keys@.len(),
            old(self).failed ==> r is Err,
            match r {
                Ok(more) => {
                    &&& !final(self).failed
                    &&& more ==> !final(self).done
                    &&& !more ==> (final(self).done || (final(self).tokens@.len() > 0 && forall|i: int|
                        0 <= i < final(self).possible_simple_keys@.len()
                            ==> #[trigger] final(self).possible_simple_keys@[i].token_number
                            != final(self).tokens_taken))
                },
                Err(e) => final(self).failed && error_in(final(self).buffer@, e),
            },
            old(self).ready() ==> r == Ok::<bool, YamlError>(false) && final(self).ready(),
            r == Ok::<bool, YamlError>(false) ==> final(self).keys_fresh(),
            !old(self).failed && !old(self).done && old(self).tokens@.len() == 0 ==> r == Ok::<
                bool,
                YamlError,
            >(true) && *final(self) == *old(self),
            !old(self).failed && old(self).done ==> r == Ok::<bool, YamlError>(false) && *final(self)
                == *old(self),
            old(self).clean_rest() ==> final(self).clean_rest() && final(self).current_mark()
                == old(self).current_mark(),
            !old(self).failed && !old(self).done && old(self).tokens@.len() > 0
                && old(self).possible_simple_keys@.len() == 0 ==> r == Ok::<bool, YamlError>(false)
                && final(self).tokens@ == old(self).tokens@,
            old(self).closer_rest() ==> final(self).closer_rest() && final(self).current_mark()
                == old(self).current_mark() && final(self).current_char() == old(self).current_char(),
    {
        if self.failed {
            return Err(
                YamlError::new(
                    None,
                    None,
                    "scanner is in a failed state".to_owned(),
                    Some(self.get_mark()),
                ),
            );
        }
        if self.done {
            return Ok(false);
        }
        if self.tokens.len() == 0 {
            return Ok(true);
        }
        // The current token may be a potential simple key, so we need to
        // look further.
        self.stale_possible_simple_keys()?;
        match self.next_possible_simple_key() {
            Some(n) => {
                proof {
                    let j = choose|j: int|
                        0 <= j < self.possible_simple_keys@.len()
                            && #[trigger] self.possible_simple_keys@[j].token_number == n;
                    assert(self.possible_simple_keys@[j].token_number == n);
                }
                if n == self.tokens_taken {
                    return Ok(true);
                }
                proof {
                    let j = choose|j: int|
                        0 <= j < self.possible_simple_keys@.len()
                            && #[trigger] self.possible_simple_keys@[j].token_number == n;
                    assert(self.key_ok(self.possible_simple_keys@[j]));
                    assert forall|i: int| 0 <= i < self.possible_simple_keys@.len() implies #[trigger] self.possible_simple_keys@[i].token_number
                        != self.tokens_taken by {
                        assert(self.key_ok(self.possible_simple_keys@[i]));
                    }
                }
            },
            None => {},
        }
        Ok(false)
    }

    /// A valid scanner's buffer holds the end marker and fits the bound on
    /// text lengths.
    pub proof fn lemma_valid_buffer(&self)
        requires
            self.valid(),
        ensures
            1 <= self.buffer_view().len() <= max_text_len() + 1,
            self.buffer_view().last() == '\0',
    {
    }

    /// The number of tokens handed out.
    pub closed spec fn taken(&self) -> nat {
        self.tokens_taken as nat
    }

    /// Hand out the next token; `None` at the end of the stream. After an
    /// error, every call is an error.
    pub fn get_token(&mut self) -> (r: Result<Option<Token>, YamlError>)
        requires
            old(self).valid(),
        ensures
            final(self).valid(),
            final(self).buffer_view() == old(self).buffer_view(),
            old(self).is_failed() ==> r is Err,
            match r {
                Ok(Some(t)) => {
                    &&& token_in(final(self).buffer_view(), t)
                    &&& token_text(final(self).buffer_view(), t)
                    &&& final(self).taken() == old(self).taken() + 1
                    &&& !final(self).is_failed()
                    &&& final(self).taken() <= 4 * final(self).buffer_view().len() + 2
                    &&& (final(self).is_done() && final(self).queued().len() == 0 ==> t.kind is StreamEnd)
                },
                Ok(None) => {
                    &&& old(self).is_done()
                    &&& old(self).queued().len() == 0
                    &&& final(self).is_done()
                    &&& final(self).queued().len() == 0
                },
                Err(e) => final(self).is_failed() && error_in(final(self).buffer_view(), e),
            },
            !(r matches Ok(Some(_))) ==> final(self).taken() == old(self).taken(),
            old(self).ready() ==> r == Ok::<Option<Token>, YamlError>(Some(old(self).queued()[0])),
            old(self).is_failed() ==> (r matches Err(e) && old(self).failure() == Some(e)),
            r matches Err(e) ==> final(self).failure() == Some(e),
            old(self).at_clean_end() ==> r == Ok::<Option<Token>, YamlError>(
                Some(
                    Token {
                        kind: TokenKind::StreamEnd,
                        start_mark: old(self).current_mark(),
                        end_mark: old(self).current_mark(),
                    },
                ),
            ) && final(self).is_done() && final(self).queued().len() == 0,
            old(self).ready() && old(self).clean_rest() && old(self).queued().len() == 1
                ==> final(self).at_clean_end() && final(self).current_mark() == old(self).current_mark(),
            old(self).is_done() && old(self).queued().len() == 0 && !old(self).is_failed() ==> r
                == Ok::<Option<Token>, YamlError>(None),
            old(self).at_flow_closer() ==> (r matches Ok(Some(t)) && Some(t.kind) == flow_indicator_kind(
                old(self).current_char(),
            ) && t.start_mark == old(self).current_mark()),
            old(self).ready() && old(self).closer_rest() && old(self).queued().len() == 1
                ==> final(self).at_flow_closer() && final(self).current_mark() == old(self).current_mark()
                && final(self).current_char() == old(self).current_char(),
    {
        if self.failed {
            match &self.error {
                Some(e) => {
                    return Err(copy_error(e));
                },
                None => {},
            }
        }
        match self.fill_queue() {
            Ok(()) => {},
            Err(e) => {
                let ghost before = *self;
                self.error = Some(copy_error(&e));
                proof {
                    assert(self.tokens_ok() == before.tokens_ok());
                    assert(self.keys_ok() == before.keys_ok()) by {
                        assert forall|i: int| 0 <= i < self.possible_simple_keys@.len() implies #[trigger] self.key_ok(
                            self.possible_simple_keys@[i],
                        ) == before.key_ok(before.possible_simple_keys@[i]) by {}
                    }
                    assert(self.steady());
                }
                return Err(e);
            },
        }
        if self.tokens.len() > 0 {
            let ghost before = *self;
            let t = self.tokens.remove(0);
            self.tokens_taken = self.tokens_taken + 1;
            proof {
                assert(self.tokens_ok()) by {
                    assert forall|i: int| 0 <= i < self.tokens@.len() implies token_in(
                        self.buffer@,
                        #[trigger] self.tokens@[i],
                    ) && self.tokens@[i].end_mark.pointer <= self.pointer by {
                        assert(self.tokens@[i] == before.tokens@[i + 1]);
                    }
                }
                assert(token_in(self.buffer@, before.tokens@[0]));
                assert(self.keys_ok()) by {
                    assert forall|i: int| 0 <= i < self.possible_simple_keys@.len() implies #[trigger] self.key_ok(
                        self.possible_simple_keys@[i],
                    ) by {
                        assert(before.key_ok(before.possible_simple_keys@[i]));
                    }
                }
            }
            Ok(Some(t))
        } else {
            Ok(None)
        }
    }

    /// Scan until the first queued token can be handed out.
    fn fill_queue(&mut self) -> (r: Result<(), YamlError>)
        requires
            old(self).steady(),
        ensures
            final(self).steady(),
            final(self).buffer@ == old(self).buffer@,
            final(self).tokens_taken == old(self).tokens_taken,
            old(self).failed ==> r is Err,
            match r {
                Ok(_) => {
                    &&& !final(self).failed
                    &&& (final(self).done || final(self).tokens@.len() > 0)
                    &&& forall|i: int|
                        0 <= i < final(self).possible_simple_keys@.len()
                            ==> #[trigger] final(self).possible_simple_keys@[i].token_number
                            != final(self).tokens_taken
                    &&& final(self).done ==> final(self).possible_simple_keys@.len() == 0
                    &&& (final(self).tokens@.len() == 0 ==> old(self).done && old(self).tokens@.len() == 0)
                    &&& final(self).tokens_taken + final(self).tokens@.len() <= 4 * final(self).pointer + 2
                },
                Err(e) => final(self).failed && error_in(final(self).buffer@, e),
            },
            old(self).ready() ==> r is Ok && final(self).tokens@ == old(self).tokens@,
            r is Ok && final(self).tokens@.len() > 0 ==> final(self).ready(),
            old(self).at_clean_end() ==> r is Ok && final(self).done && !final(self).failed
                && final(self).tokens@ == seq![
                Token {
                    kind: TokenKind::StreamEnd,
                    start_mark: old(self).current_mark(),
                    end_mark: old(self).current_mark(),
                },
            ],
            old(self).ready() && old(self).clean_rest() ==> final(self).clean_rest()
                && final(self).current_mark() == old(self).current_mark(),
            old(self).done && !old(self).failed && old(self).tokens@.len() == 0 ==> r is Ok
                && final(self).tokens@.len() == 0 && final(self).done,
            old(self).at_flow_closer() ==> r is Ok && final(self).tokens@.len() == 1 && Some(
                final(self).tokens@[0].kind,
            ) == flow_indicator_kind(old(self).current_char()) && final(self).tokens@[0].start_mark
                == old(self).current_mark(),
            old(self).ready() && old(self).closer_rest() ==> final(self).closer_rest()
                && final(self).current_mark() == old(self).current_mark() && final(self).current_char()
                == old(self).current_char(),
    {
        let ghost mut fetched_any = false;
        let ghost quick = old(self).ready();
        let ghost clean = old(self).at_clean_end();
        let ghost closer = old(self).at_flow_closer();
        loop
            invariant
                self.steady(),
                self.buffer@ == old(self).buffer@,
                self.tokens_taken == old(self).tokens_taken,
                old(self).failed ==> self.failed,
                fetched_any ==> self.tokens@.len() > 0,
                !fetched_any ==> self.done == old(self).done && self.tokens@ == old(self).tokens@
                    && self.failed == old(self).failed && self.possible_simple_keys@.len()
                    <= old(self).possible_simple_keys@.len(),
                quick == old(self).ready(),
                quick && !fetched_any ==> self.ready(),
                quick ==> !fetched_any,
                clean == old(self).at_clean_end(),
                clean && !fetched_any ==> self.at_clean_end() && self.current_mark() == old(
                    self).current_mark(),
                clean && fetched_any ==> self.done && !self.failed && self.tokens@ == seq![
                    Token {
                    kind: TokenKind::StreamEnd,
                    start_mark: old(self).current_mark(),
                    end_mark: old(self).current_mark(),
                },
                ],
                quick && old(self).clean_rest() ==> self.clean_rest() && self.current_mark() == old(
                    self).current_mark(),
                old(self).done && !old(self).failed && old(self).tokens@.len() == 0 ==> !fetched_any
                    && self.tokens@.len() == 0 && self.done && !self.failed,
                closer == old(self).at_flow_closer(),
                closer && !fetched_any ==> self.at_flow_closer() && self.current_mark() == old(
                    self).current_mark() && self.current_char() == old(self).current_char(),
                closer && fetched_any ==> !self.done && !self.failed && self.possible_simple_keys@.len()
                    == 0 && self.tokens@.len() == 1 && Some(self.tokens@[0].kind) == flow_indicator_kind(
                    old(self).current_char(),
                ) && self.tokens@[0].start_mark == old(self).current_mark(),
                quick && old(self).closer_rest() ==> self.closer_rest() && self.current_mark() == old(
                    self).current_mark() && self.current_char() == old(self).current_char(),
            ensures
                self.steady(),
                self.buffer@ == old(self).buffer@,
                self.tokens_taken == old(self).tokens_taken,
                !self.failed,
                self.done || self.tokens@.len() > 0,
                forall|i: int|
                    0 <= i < self.possible_simple_keys@.len()
                        ==> #[trigger] self.possible_simple_keys@[i].token_number
                        != self.tokens_taken,
                self.tokens@.len() == 0 ==> old(self).done && old(self).tokens@.len() == 0,
                quick ==> self.tokens@ == old(self).tokens@,
                self.keys_fresh(),
                clean ==> self.done && !self.failed && self.tokens@ == seq![
                    Token {
                    kind: TokenKind::StreamEnd,
                    start_mark: old(self).current_mark(),
                    end_mark: old(self).current_mark(),
                },
                ],
                quick && old(self).clean_rest() ==> self.clean_rest() && self.current_mark() == old(
                    self).current_mark(),
                old(self).done && !old(self).failed && old(self).tokens@.len() == 0 ==> self.tokens@.len()
                    == 0 && self.done,
                closer ==> self.tokens@.len() == 1 && Some(self.tokens@[0].kind) == flow_indicator_kind(
                    old(self).current_char(),
                ) && self.tokens@[0].start_mark == old(self).current_mark(),
                quick && old(self).closer_rest() ==> self.closer_rest() && self.current_mark() == old(
                    self).current_mark() && self.current_char() == old(self).current_char(),
            decreases 2 * (self.buffer@.len() - self.pointer) + (if self.done {
                0int
            } else {
                1
            }),
        {
            let more = self.need_more_tokens()?;
            if !more {
                break ;
            }
            self.fetch_more_tokens()?;
            proof {
                fetched_any = true;
            }
        }
        Ok(())
    }
}

impl Scanner {
    /// A copy of the next token, which stays queued; `None` at the end of
    /// the stream.
    pub fn peek_token_cloned(&mut self) -> (r: Result<Option<Token>, YamlError>)
        requires
            old(self).valid(),
        ensures
            final(self).valid(),
            final(self).buffer_view() == old(self).buffer_view(),
            final(self).taken() == old(self).taken(),
            old(self).is_failed() ==> r is Err,
            match r {
                Ok(Some(t)) => {
                    &&& final(self).ready()
                    &&& t == final(self).queued()[0]
                    &&& token_in(final(self).buffer_view(), t)
                },
                Ok(None) => final(self).is_done() && final(self).queued().len() == 0,
                Err(e) => final(self).is_failed() && error_in(final(self).buffer_view(), e),
            },
            old(self).ready() ==> final(self).queued() == old(self).queued(),
            old(self).ready() ==> r == Ok::<Option<Token>, YamlError>(Some(old(self).queued()[0]))
                && final(self).ready(),
            old(self).is_failed() ==> (r matches Err(e) && old(self).failure() == Some(e)),
            r matches Err(e) ==> final(self).failure() == Some(e),
    {
        if self.failed {
            match &self.error {
                Some(e) => {
                    return Err(copy_error(e));
                },
                None => {},
            }
        }
        match self.fill_queue() {
            Ok(()) => {},
            Err(e) => {
                let ghost before = *self;
                self.error = Some(copy_error(&e));
                proof {
                    assert(self.tokens_ok() == before.tokens_ok());
                    assert(self.keys_ok() == before.keys_ok()) by {
                        assert forall|i: int| 0 <= i < self.possible_simple_keys@.len() implies #[trigger] self.key_ok(
                            self.possible_simple_keys@[i],
                        ) == before.key_ok(before.possible_simple_keys@[i]) by {}
                    }
                    assert(self.steady());
                }
                return Err(e);
            },
        }
        if self.tokens.len() > 0 {
            proof {
                assert(token_in(self.buffer@, self.tokens@[0]));
            }
            Ok(Some(self.tokens[0].duplicate()))
        } else {
            Ok(None)
        }
    }

    /// All tokens of `content` up to the end of the stream or the first
    /// error, the error, and the scanned buffer.
    pub fn scan_all(content: &str) -> (r: (Vec<Token>, Option<YamlError>, Vec<char>))
        requires
            content@.len() <= max_text_len(),
        ensures
            r.2@ == buffer_of(content@),
            forall|i: int| 0 <= i < r.0@.len() ==> token_in(r.2@, #[trigger] r.0@[i]) && token_text(
                r.2@,
                r.0@[i],
            ),
            r.0@.len() >= 1,
            r.0@[0].kind is StreamStart,
            r.0@[0].start_mark == (Mark { pointer: 0, line: 0, column: 0 }),
            r.1 is None ==> r.0@.last().kind is StreamEnd,
            r.1 matches Some(e) ==> error_in(r.2@, e),
            content@.len() == 0 ==> r.1 is None && r.0@.len() == 2 && r.0@[1].kind is StreamEnd,
    {
        let mut scanner = Scanner::new(content);
        let ghost first = scanner.queued()[0];
        let mut tokens: Vec<Token> = Vec::new();
        let first_token = scanner.get_token();
        let mut error: Option<YamlError> = None;
        match first_token {
            Ok(Some(t)) => tokens.push(t),
            _ => {},
        }
        let mut running = true;
        while running
            invariant
                scanner.valid(),
                scanner.buffer_view() == buffer_of(content@),
                tokens@.len() >= 1,
                tokens@[0] == first,
                forall|i: int| 0 <= i < tokens@.len() ==> token_in(scanner.buffer_view(), #[trigger] tokens@[i])
                    && token_text(scanner.buffer_view(), tokens@[i]),
                !running ==> (error is None ==> tokens@.last().kind is StreamEnd),
                error matches Some(e) ==> error_in(scanner.buffer_view(), e),
                running ==> !scanner.is_failed() && scanner.taken() <= 4 * scanner.buffer_view().len() + 2,
                running && scanner.is_done() && scanner.queued().len() == 0 ==> tokens@.last().kind is StreamEnd,
                content@.len() == 0 ==> error is None && tokens@.len() <= 2 && (tokens@.len() == 2
                    ==> tokens@[1].kind is StreamEnd) && (!running ==> tokens@.len() == 2),
                content@.len() == 0 && running && tokens@.len() == 1 ==> scanner.at_clean_end(),
                content@.len() == 0 && running && tokens@.len() == 2 ==> scanner.is_done()
                    && scanner.queued().len() == 0 && !scanner.is_failed(),
            decreases 4 * scanner.buffer_view().len() + 2 - scanner.taken() + (if running {
                1int
            } else {
                0
            }),
        {
            match scanner.get_token() {
                Ok(Some(t)) => {
                    tokens.push(t);
                },
                Ok(None) => {
                    running = false;
                },
                Err(e) => {
                    error = Some(e);
                    running = false;
                },
            }
        }
        (tokens, error, scanner.into_buffer())
    }
}

/// `prefix`, the quoted form of `ch`, then `suffix`.
fn text_around_char(prefix: &str, ch: char, suffix: &str) -> (r: String)
    ensures
        r@ == prefix@ + py_repr_spec(seq![ch]) + suffix@,
{
    let mut v = str_chars(prefix);
    let quoted = py_repr_char(ch);
    push_str(&mut v, quoted.as_str());
    push_str(&mut v, suffix);
    chars_to_string(v.as_slice())
}

/// A character that a folded line break turns into.
pub open spec fn break_output(c: char) -> bool {
    c == '\n' || c == '\u{2028}' || c == '\u{2029}'
}

/// `after` is `before` followed by line-break characters only.
pub open spec fn appended_breaks(before: Seq<char>, after: Seq<char>) -> bool {
    &&& after.len() >= before.len()
    &&& after.subrange(0, before.len() as int) == before
    &&& forall|k: int| before.len() <= k < after.len() ==> break_output(#[trigger] after[k])
}

/// A tag handle: `!` alone, or `!`, name characters and `!`.
pub open spec fn tag_handle_text(v: Seq<char>) -> bool {
    &&& v.len() >= 1
    &&& v[0] == '!'
    &&& v.len() > 1 ==> v.last() == '!' && forall|k: int| 0 < k < v.len() - 1 ==> is_name_char(#[trigger] v[k])
}

/// The first index at or after `i` that holds no space.
pub open spec fn spaces_end(buf: Seq<char>, i: int) -> int
    decreases buf.len() - i,
{
    if i < 0 || i >= buf.len() || buf[i] != ' ' {
        i
    } else {
        spaces_end(buf, i + 1)
    }
}

/// The first index at or after `i` that holds a break or lies at the end.
pub open spec fn break_from(buf: Seq<char>, i: int) -> int
    decreases buf.len() - i,
{
    if i < 0 || i >= buf.len() || is_z_break(buf[i]) {
        i
    } else {
        break_from(buf, i + 1)
    }
}

/// Where the ignored rest of a line from `i` ends: after its spaces and,
/// when a `#` follows them, after the comment.
pub open spec fn line_rest_end(buf: Seq<char>, i: int) -> int {
    let q = spaces_end(buf, i);
    if char_at(buf, q) == '#' {
        break_from(buf, q)
    } else {
        q
    }
}

/// Where the line break at `i` ends: after `"\r\n"`, after a single break
/// character, or at `i` itself when there is none.
pub open spec fn break_end(buf: Seq<char>, i: int) -> int {
    let ch = char_at(buf, i);
    if ch == '\r' && char_at(buf, i + 1) == '\n' {
        i + 2
    } else if is_break_char(ch) {
        i + 1
    } else {
        i
    }
}

/// What the line break at `i` stands for in a scalar: `"\n"` for `'\r'`,
/// `'\n'`, `"\r\n"` and `'\u{85}'`, a line or paragraph separator as it is,
/// nothing where there is no break.
pub open spec fn break_text(buf: Seq<char>, i: int) -> Seq<char> {
    let ch = char_at(buf, i);
    if ch == '\r' || ch == '\n' || ch == '\u{85}' {
        seq!['\n']
    } else if ch == '\u{2028}' || ch == '\u{2029}' {
        seq![ch]
    } else {
        seq![]
    }
}

/// The column of index `i`.
pub open spec fn column_at(buf: Seq<char>, i: int) -> int {
    position(buf, i as nat).1 as int
}

/// Where the spaces from `i` that lie left of column `indent` end.
pub open spec fn indent_spaces_end(buf: Seq<char>, i: int, indent: int) -> int
    decreases buf.len() - i,
{
    if 0 <= i < buf.len() && column_at(buf, i) < indent && buf[i] == ' ' {
        indent_spaces_end(buf, i + 1, indent)
    } else {
        i
    }
}

pub proof fn lemma_indent_spaces_end(buf: Seq<char>, i: int, indent: int)
    ensures
        i <= indent_spaces_end(buf, i, indent),
        i <= buf.len() ==> indent_spaces_end(buf, i, indent) <= buf.len(),
    decreases buf.len() - i,
{
    if 0 <= i < buf.len() && column_at(buf, i) < indent && buf[i] == ' ' {
        lemma_indent_spaces_end(buf, i + 1, indent);
    }
}

pub proof fn lemma_break_from(buf: Seq<char>, i: int)
    ensures
        i <= break_from(buf, i),
        0 <= i <= buf.len() ==> break_from(buf, i) <= buf.len(),
        0 <= i < buf.len() && !is_z_break(buf[i]) ==> i < break_from(buf, i),
    decreases buf.len() - i,
{
    if !(i < 0 || i >= buf.len() || is_z_break(buf[i])) {
        lemma_break_from(buf, i + 1);
    }
}

pub proof fn lemma_indent_spaces_idem(buf: Seq<char>, i: int, indent: int)
    ensures
        indent_spaces_end(buf, indent_spaces_end(buf, i, indent), indent) == indent_spaces_end(
            buf,
            i,
            indent,
        ),
    decreases buf.len() - i,
{
    if 0 <= i < buf.len() && column_at(buf, i) < indent && buf[i] == ' ' {
        lemma_indent_spaces_idem(buf, i + 1, indent);
    }
}

/// The empty lines of a block scalar from `i`: each line's spaces left of
/// column `indent` are skipped and its break is appended to `acc`. Gives the
/// breaks and where the lines end.
pub open spec fn block_breaks_from(buf: Seq<char>, i: int, indent: int, acc: Seq<char>) -> (
    Seq<char>,
    int,
)
    decreases buf.len() - i,
{
    let j = indent_spaces_end(buf, i, indent);
    if 0 <= j < buf.len() && is_break_char(buf[j]) {
        proof {
            lemma_indent_spaces_end(buf, i, indent);
        }
        block_breaks_from(buf, break_end(buf, j), indent, acc + break_text(buf, j))
    } else {
        (acc, j)
    }
}

/// The leading empty lines of a block scalar from `i`: their breaks
/// appended to `acc`, the largest column their spaces reach (from `m`), and
/// where they end.
pub open spec fn block_indentation_from(buf: Seq<char>, i: int, acc: Seq<char>, m: int) -> (
    Seq<char>,
    int,
    int,
)
    decreases buf.len() - i,
{
    if 0 <= i < buf.len() && buf[i] == ' ' {
        let c = column_at(buf, i + 1);
        block_indentation_from(buf, i + 1, acc, if c > m { c } else { m })
    } else if 0 <= i < buf.len() && is_break_char(buf[i]) {
        block_indentation_from(buf, break_end(buf, i), acc + break_text(buf, i), m)
    } else {
        (acc, m, i)
    }
}

pub proof fn lemma_block_breaks_from(buf: Seq<char>, i: int, indent: int, acc: Seq<char>)
    ensures
        i <= block_breaks_from(buf, i, indent, acc).1,
        i <= buf.len() ==> block_breaks_from(buf, i, indent, acc).1 <= buf.len(),
    decreases buf.len() - i,
{
    lemma_indent_spaces_end(buf, i, indent);
    let j = indent_spaces_end(buf, i, indent);
    if 0 <= j < buf.len() && is_break_char(buf[j]) {
        lemma_block_breaks_from(buf, break_end(buf, j), indent, acc + break_text(buf, j));
    }
}

/// Whether a block scalar's body goes on at `i`: a line at column `indent`
/// before the end.
pub open spec fn block_line_at(buf: Seq<char>, i: int, indent: int) -> bool {
    0 <= i < buf.len() && column_at(buf, i) == indent && buf[i] != '\0'
}

/// The lines of a block scalar's body from `i`, at column `indent`, folded
/// (`>`) or literal (`|`): `acc` is the text so far, `breaks` the breaks of
/// the empty lines before `i`, `lb` the break that ended the last line. A
/// line's text is kept as it is; between two lines stands the break that
/// ended the first, except that folding joins two lines that start with no
/// blank and are parted by a single `"\n"` with a space, or with nothing
/// where empty lines lie between them (their breaks stand instead). Gives
/// the text, the breaks of the trailing empty lines and the last break.
pub open spec fn block_lines_from(
    buf: Seq<char>,
    i: int,
    indent: int,
    folded: bool,
    acc: Seq<char>,
    breaks: Seq<char>,
    lb: Seq<char>,
) -> (Seq<char>, Seq<char>, Seq<char>)
    decreases buf.len() - i,
{
    if block_line_at(buf, i, indent) {
        let leading_non_space = !(buf[i] == ' ' || buf[i] == '\t');
        let e = break_from(buf, i);
        let text = acc + breaks + buf.subrange(i, e);
        let lb2 = break_text(buf, e);
        let (breaks2, j) = block_breaks_from(buf, break_end(buf, e), indent, seq![]);
        proof {
            lemma_break_from(buf, i);
            lemma_block_breaks_from(buf, break_end(buf, e), indent, seq![]);
        }
        if block_line_at(buf, j, indent) {
            let joined = if folded && lb2 == seq!['\n'] && leading_non_space && !(buf[j] == ' '
                || buf[j] == '\t') {
                if breaks2.len() == 0 {
                    text.push(' ')
                } else {
                    text
                }
            } else {
                text + lb2
            };
            block_lines_from(buf, j, indent, folded, joined, breaks2, lb2)
        } else {
            (text, breaks2, lb2)
        }
    } else {
        (acc, breaks, lb)
    }
}

/// The value of the block scalar whose indicator, `|` (literal) or `>`
/// (folded), stands at `p`, in a block indented at column `parent`: its
/// lines at the indentation that the header's indicator gives (counted from
/// the parent's) or else that its leading empty lines reach, at least one
/// more than the parent's; then the last line break unless chomping strips
/// it (`-`), and the breaks of the trailing empty lines where chomping keeps
/// them (`+`).
pub open spec fn block_scalar_value(buf: Seq<char>, p: int, parent: int) -> Seq<char> {
    match block_indicators(buf, p + 1) {
        Some((chomping, increment, end)) => {
            let h = break_end(buf, line_rest_end(buf, end));
            let min_indent = if parent + 1 < 1 {
                1
            } else {
                parent + 1
            };
            let (breaks, q, indent) = match increment {
                Some(inc) => {
                    let indent = min_indent + inc - 1;
                    let (b, q) = block_breaks_from(buf, h, indent, seq![]);
                    (b, q, indent)
                },
                None => {
                    let (b, m, q) = block_indentation_from(buf, h, seq![], 0);
                    (b, q, if min_indent > m {
                        min_indent
                    } else {
                        m
                    })
                },
            };
            let (text, trailing, last_break) = block_lines_from(
                buf,
                q,
                indent,
                char_at(buf, p) == '>',
                seq![],
                breaks,
                seq![],
            );
            text + (if chomping == Some(false) {
                seq![]
            } else {
                last_break
            }) + (if chomping == Some(true) {
                trailing
            } else {
                seq![]
            })
        },
        None => seq![],
    }
}

pub proof fn lemma_spaces_end(buf: Seq<char>, i: int)
    ensures
        i <= spaces_end(buf, i),
        0 <= i <= buf.len() ==> spaces_end(buf, i) <= buf.len(),
    decreases buf.len() - i,
{
    if !(i < 0 || i >= buf.len() || buf[i] != ' ') {
        lemma_spaces_end(buf, i + 1);
    }
}

/// A document marker, `---` or `...`, at the start of a line at `i`.
pub open spec fn line_doc_marker(buf: Seq<char>, i: int) -> bool {
    column_at(buf, i) == 0 && (doc_marker_at(buf, i, '-') || doc_marker_at(buf, i, '.'))
}

/// The spaces and line breaks from `i`, inside the gap after a word of a
/// plain scalar once a first break was read, their breaks appended to
/// `acc`: whether a document marker after a break cut them short, the
/// breaks, and where they end.
pub open spec fn plain_breaks_from(buf: Seq<char>, i: int, acc: Seq<char>) -> (bool, Seq<char>, int)
    decreases buf.len() - i,
{
    if 0 <= i < buf.len() && buf[i] == ' ' {
        plain_breaks_from(buf, i + 1, acc)
    } else if 0 <= i < buf.len() && is_break_char(buf[i]) {
        let j = break_end(buf, i);
        if line_doc_marker(buf, j) {
            (true, acc + break_text(buf, i), j)
        } else {
            plain_breaks_from(buf, j, acc + break_text(buf, i))
        }
    } else {
        (false, acc, i)
    }
}

pub proof fn lemma_plain_breaks_from(buf: Seq<char>, i: int, acc: Seq<char>)
    ensures
        i <= plain_breaks_from(buf, i, acc).2,
        0 <= i <= buf.len() ==> plain_breaks_from(buf, i, acc).2 <= buf.len(),
    decreases buf.len() - i,
{
    if 0 <= i < buf.len() && buf[i] == ' ' {
        lemma_plain_breaks_from(buf, i + 1, acc);
    } else if 0 <= i < buf.len() && is_break_char(buf[i]) {
        let j = break_end(buf, i);
        if !line_doc_marker(buf, j) {
            lemma_plain_breaks_from(buf, j, acc + break_text(buf, i));
        }
    }
}

/// The gap after a word of a plain scalar, from `i`, folded, and where it
/// ends: its spaces as they are when no line break follows them; else a
/// single `"\n"` folds into a space, or into nothing before empty lines,
/// whose breaks stand, and any other break stands as it is. Empty where a
/// document marker starts a line in the gap.
pub open spec fn plain_gap(buf: Seq<char>, i: int) -> (Seq<char>, int) {
    let q = spaces_end(buf, i);
    if is_break_char(char_at(buf, q)) {
        let lb = break_text(buf, q);
        let j = break_end(buf, q);
        if line_doc_marker(buf, j) {
            (seq![], j)
        } else {
            let (cut, breaks, k) = plain_breaks_from(buf, j, seq![]);
            if cut {
                (seq![], k)
            } else if lb != seq!['\n'] {
                (lb + breaks, k)
            } else if breaks.len() == 0 {
                (seq![' '], k)
            } else {
                (breaks, k)
            }
        }
    } else {
        (buf.subrange(i, q), q)
    }
}

pub proof fn lemma_plain_gap(buf: Seq<char>, i: int)
    ensures
        i <= plain_gap(buf, i).1,
        0 <= i <= buf.len() ==> plain_gap(buf, i).1 <= buf.len(),
{
    lemma_spaces_end(buf, i);
    let q = spaces_end(buf, i);
    if is_break_char(char_at(buf, q)) {
        let j = break_end(buf, q);
        lemma_plain_breaks_from(buf, j, seq![]);
    }
}

/// Where a word of a plain scalar from `i` ends: at a blank, a break, the
/// end, a `:` before a blank, or in a flow at a flow indicator.
pub open spec fn plain_word_end(buf: Seq<char>, i: int, flow_level: usize) -> int
    decreases buf.len() - i,
{
    if 0 <= i < buf.len() && !plain_stop(char_at(buf, i), char_at(buf, i + 1), flow_level) {
        plain_word_end(buf, i + 1, flow_level)
    } else {
        i
    }
}

pub proof fn lemma_plain_word_end(buf: Seq<char>, i: int, flow_level: usize)
    ensures
        i <= plain_word_end(buf, i, flow_level),
        0 <= i <= buf.len() ==> plain_word_end(buf, i, flow_level) <= buf.len(),
    decreases buf.len() - i,
{
    if 0 <= i < buf.len() && !plain_stop(char_at(buf, i), char_at(buf, i + 1), flow_level) {
        lemma_plain_word_end(buf, i + 1, flow_level);
    }
}

/// The words of a plain scalar from `i`, with `acc` read so far and the
/// folded `gap` before the word at `i`. The scalar ends at a comment, at an
/// empty word, where no gap follows a word, and outside flows at a line
/// indented less than `indent`.
pub open spec fn plain_words_from(
    buf: Seq<char>,
    i: int,
    indent: int,
    flow_level: usize,
    acc: Seq<char>,
    gap: Seq<char>,
) -> Seq<char>
    decreases buf.len() - i,
{
    if char_at(buf, i) == '#' || !(0 <= i < buf.len()) {
        acc
    } else {
        let e = plain_word_end(buf, i, flow_level);
        if e == i {
            acc
        } else {
            let text = acc + gap + buf.subrange(i, e);
            let (gap2, k) = plain_gap(buf, e);
            proof {
                lemma_plain_word_end(buf, i, flow_level);
                lemma_plain_gap(buf, e);
            }
            if gap2.len() == 0 || char_at(buf, k) == '#' || (flow_level == 0 && column_at(buf, k)
                < indent) {
                text
            } else {
                plain_words_from(buf, k, indent, flow_level, text, gap2)
            }
        }
    }
}

/// Where the spaces and tabs from `i` end.
pub open spec fn blanks_end(buf: Seq<char>, i: int) -> int
    decreases buf.len() - i,
{
    if 0 <= i < buf.len() && (buf[i] == ' ' || buf[i] == '\t') {
        blanks_end(buf, i + 1)
    } else {
        i
    }
}

pub proof fn lemma_blanks_end(buf: Seq<char>, i: int)
    ensures
        i <= blanks_end(buf, i),
        i <= buf.len() ==> blanks_end(buf, i) <= buf.len(),
    decreases buf.len() - i,
{
    if 0 <= i < buf.len() && (buf[i] == ' ' || buf[i] == '\t') {
        lemma_blanks_end(buf, i + 1);
    }
}

/// The blank lines inside a quoted scalar from `i`, just after a line
/// break, their breaks appended to `acc`: none where a document marker
/// starts one of them (an error), else the breaks and where they end.
pub open spec fn quoted_breaks_from(buf: Seq<char>, i: int, acc: Seq<char>) -> Option<
    (Seq<char>, int),
>
    decreases buf.len() - i,
{
    if line_doc_marker(buf, i) {
        None
    } else {
        let q = blanks_end(buf, i);
        if 0 <= q < buf.len() && is_break_char(buf[q]) {
            proof {
                lemma_blanks_end(buf, i);
            }
            quoted_breaks_from(buf, break_end(buf, q), acc + break_text(buf, q))
        } else {
            Some((acc, q))
        }
    }
}

pub proof fn lemma_quoted_breaks_from(buf: Seq<char>, i: int, acc: Seq<char>)
    ensures
        quoted_breaks_from(buf, i, acc) matches Some((_, k)) ==> i <= k && (i <= buf.len()
            ==> k <= buf.len()),
    decreases buf.len() - i,
{
    lemma_blanks_end(buf, i);
    if !line_doc_marker(buf, i) {
        let q = blanks_end(buf, i);
        if 0 <= q < buf.len() && is_break_char(buf[q]) {
            lemma_quoted_breaks_from(buf, break_end(buf, q), acc + break_text(buf, q));
        }
    }
}

/// The blanks inside a quoted scalar from `i`, folded, and where they end:
/// the spaces and tabs as they are when no line break follows them; else a
/// single `"\n"` folds into a space, or into nothing before blank lines,
/// whose breaks stand, and any other break stands as it is. None at the end
/// of the stream or at a document marker (errors).
pub open spec fn quoted_spaces(buf: Seq<char>, i: int) -> Option<(Seq<char>, int)> {
    let q = blanks_end(buf, i);
    let ch = char_at(buf, q);
    if ch == '\0' {
        None
    } else if is_break_char(ch) {
        let lb = break_text(buf, q);
        match quoted_breaks_from(buf, break_end(buf, q), seq![]) {
            None => None,
            Some((breaks, k)) => Some(
                (
                    (if lb != seq!['\n'] {
                        lb
                    } else if breaks.len() == 0 {
                        seq![' ']
                    } else {
                        seq![]
                    }) + breaks,
                    k,
                ),
            ),
        }
    } else {
        Some((buf.subrange(i, q), q))
    }
}

/// Where a run of ordinary characters of a quoted scalar from `i` ends.
pub open spec fn quoted_run_end(buf: Seq<char>, i: int) -> int
    decreases buf.len() - i,
{
    if 0 <= i < buf.len() && !quoted_stop(buf[i]) {
        quoted_run_end(buf, i + 1)
    } else {
        i
    }
}

pub proof fn lemma_quoted_run_end(buf: Seq<char>, i: int)
    ensures
        i <= quoted_run_end(buf, i),
        i <= buf.len() ==> quoted_run_end(buf, i) <= buf.len(),
    decreases buf.len() - i,
{
    if 0 <= i < buf.len() && !quoted_stop(buf[i]) {
        lemma_quoted_run_end(buf, i + 1);
    }
}

/// The number that the `n` hexadecimal digits at `i` spell.
pub open spec fn hex_code(buf: Seq<char>, i: int, n: nat) -> nat
    decreases n,
{
    if n == 0 {
        0
    } else {
        (hex_code(buf, i, (n - 1) as nat) * 16 + hex_value(char_at(buf, i + n - 1))) as nat
    }
}

/// What the escape code `code` stands for: its character where it is a
/// Unicode scalar value, else U+FFFD.
pub open spec fn code_char(code: nat) -> char {
    if code < 0x1_0000_0000 && scalar_value(code as u32) {
        (code as u32) as char
    } else {
        '\u{FFFD}'
    }
}

/// The text of a quoted scalar from `i` up to a blank, a break or the
/// closing quote, appended to `acc`: ordinary characters as they are, `''`
/// as `'` in single quotes, the other quote and (in single quotes) `\\` as
/// they are, and in double quotes the escapes decoded, an escaped line break
/// dropped with the blanks after it and the breaks of blank lines kept.
/// None on a bad escape or a document marker (errors), else the text and
/// where it stops.
pub open spec fn quoted_text_from(buf: Seq<char>, i: int, double: bool, acc: Seq<char>) -> Option<
    (Seq<char>, int),
>
    decreases buf.len() - i,
{
    let q = quoted_run_end(buf, i);
    let text = acc + buf.subrange(i, q);
    let ch = char_at(buf, q);
    proof {
        lemma_quoted_run_end(buf, i);
    }
    if !double && ch == '\'' && char_at(buf, q + 1) == '\'' {
        quoted_text_from(buf, q + 2, double, text.push('\''))
    } else if (double && ch == '\'') || (!double && (ch == '"' || ch == '\\')) {
        quoted_text_from(buf, q + 1, double, text.push(ch))
    } else if double && ch == '\\' {
        let e = char_at(buf, q + 1);
        match escape_replacement_spec(e) {
            Some(c) => quoted_text_from(buf, q + 2, double, text.push(c)),
            None => {
                let n: nat = if e == 'x' {
                    2
                } else if e == 'u' {
                    4
                } else if e == 'U' {
                    8
                } else {
                    0
                };
                if n > 0 {
                    if forall|k: int| 0 <= k < n ==> is_hex_char(#[trigger] char_at(buf, q + 2 + k)) {
                        proof {
                            assert(is_hex_char(char_at(buf, q + 2 + (n - 1))));
                        }
                        quoted_text_from(
                            buf,
                            q + 2 + n,
                            double,
                            text.push(code_char(hex_code(buf, q + 2, n))),
                        )
                    } else {
                        None
                    }
                } else if is_break_char(e) {
                    proof {
                        lemma_quoted_breaks_from(buf, break_end(buf, q + 1), seq![]);
                    }
                    match quoted_breaks_from(buf, break_end(buf, q + 1), seq![]) {
                        None => None,
                        Some((breaks, k)) => quoted_text_from(buf, k, double, text + breaks),
                    }
                } else {
                    None
                }
            },
        }
    } else {
        Some((text, q))
    }
}

/// In a double-quoted scalar, `\n` puts a line feed (U+000A) in the value:
/// the text up to the backslash, then a line feed, then the rest read from
/// after the escape.
pub proof fn lemma_escaped_newline(buf: Seq<char>, i: int, acc: Seq<char>)
    requires
        char_at(buf, quoted_run_end(buf, i)) == '\\',
        char_at(buf, quoted_run_end(buf, i) + 1) == 'n',
    ensures
        quoted_text_from(buf, i, true, acc) == quoted_text_from(
            buf,
            quoted_run_end(buf, i) + 2,
            true,
            (acc + buf.subrange(i, quoted_run_end(buf, i))).push('\u{A}'),
        ),
{
}

/// The rest of a quoted scalar from `i`, just after a run of its text, with
/// `acc` read so far: blanks and text alternate up to the closing quote.
/// None where scanning fails (or, which scanning rules out, would not move
/// on).
pub open spec fn quoted_value_from(buf: Seq<char>, i: int, double: bool, acc: Seq<char>) -> Option<
    Seq<char>,
>
    decreases buf.len() - i,
{
    if char_at(buf, i) == (if double {
        '"'
    } else {
        '\''
    }) {
        Some(acc)
    } else {
        match quoted_spaces(buf, i) {
            None => None,
            Some((blanks, j)) => match quoted_text_from(buf, j, double, acc + blanks) {
                None => None,
                Some((text, k)) => if i < k <= buf.len() {
                    quoted_value_from(buf, k, double, text)
                } else {
                    None
                },
            },
        }
    }
}

/// The value of the quoted scalar whose opening quote, `"` (`double`) or
/// `'`, stands at `p`; None where scanning it fails.
pub open spec fn quoted_scalar_value(buf: Seq<char>, p: int, double: bool) -> Option<Seq<char>> {
    match quoted_text_from(buf, p + 1, double, seq![]) {
        None => None,
        Some((text, k)) => quoted_value_from(buf, k, double, text),
    }
}

/// The indentation left once every block indented beyond `column` is
/// closed: each closed block gives way to the indentation stacked under it.
pub open spec fn unwound_indent(indent: i64, indents: Seq<i64>, column: int) -> i64
    decreases indents.len(),
{
    if indent > column {
        if indents.len() == 0 {
            -1i64
        } else {
            unwound_indent(indents.last(), indents.drop_last(), column)
        }
    } else {
        indent
    }
}

/// An ASCII letter or digit.
pub open spec fn ascii_alnum(c: char) -> bool {
    ('a' <= c && c <= 'z') || ('A' <= c && c <= 'Z') || ('0' <= c && c <= '9')
}

/// The value of the last token queued: that of a scalar.
pub open spec fn last_scalar_value(tokens: Seq<Token>) -> Option<Seq<char>> {
    if tokens.len() > 0 {
        match tokens.last().kind {
            TokenKind::Scalar { value, .. } => Some(value@),
            _ => None,
        }
    } else {
        None
    }
}

/// The chomping that `+` or `-` asks for: keep (`true`) or strip.
pub open spec fn chomping_of(c: char) -> Option<bool> {
    if c == '+' {
        Some(true)
    } else if c == '-' {
        Some(false)
    } else {
        None
    }
}

/// The chomping and indentation indicators of a block scalar header at
/// `p`, in either order, and where they end; `None` for an indentation
/// indicator `0`.
pub open spec fn block_indicators(buf: Seq<char>, p: int) -> Option<(Option<bool>, Option<u32>, int)> {
    let c0 = char_at(buf, p);
    let c1 = char_at(buf, p + 1);
    if c0 == '+' || c0 == '-' {
        if c1 == '0' {
            None
        } else if '1' <= c1 <= '9' {
            Some((chomping_of(c0), Some((c1 as u32 - '0' as u32) as u32), p + 2))
        } else {
            Some((chomping_of(c0), None, p + 1))
        }
    } else if c0 == '0' {
        None
    } else if '1' <= c0 <= '9' {
        if c1 == '+' || c1 == '-' {
            Some((chomping_of(c1), Some((c0 as u32 - '0' as u32) as u32), p + 2))
        } else {
            Some((None, Some((c0 as u32 - '0' as u32) as u32), p + 1))
        }
    } else {
        Some((None, None, p))
    }
}

/// A block scalar header at `p` (after `|` or `>`) that scans: indicators
/// followed by a space, a break or the end, then only spaces and a comment
/// up to the line's end.
pub open spec fn block_header_ok(buf: Seq<char>, p: int) -> bool {
    match block_indicators(buf, p) {
        None => false,
        Some((_, _, end)) => is_z_space_break(char_at(buf, end)) && is_z_break(
            char_at(buf, line_rest_end(buf, end)),
        ),
    }
}

/// `c` three times, then a blank, a break or the end.
pub open spec fn doc_marker_at(buf: Seq<char>, p: int, c: char) -> bool {
    char_at(buf, p) == c && char_at(buf, p + 1) == c && char_at(buf, p + 2) == c
        && is_z_blank_break(char_at(buf, p + 3))
}

/// `prefix` followed by the quoted form of `ch`.
fn text_with_char(prefix: &str, ch: char) -> (r: String)
    ensures
        r@ == prefix@ + py_repr_spec(seq![ch]),
{
    let mut v = str_chars(prefix);
    let quoted = py_repr_char(ch);
    push_str(&mut v, quoted.as_str());
    chars_to_string(v.as_slice())
}

/// A character that may stand in a tag URI.
pub open spec fn is_uri_char_spec(ch: char) -> bool {
    is_ascii_alnum(ch) || ch == '-' || ch == ';' || ch == '/' || ch == '?' || ch == ':' || ch == '@'
        || ch == '&' || ch == '=' || ch == '+' || ch == '$' || ch == ',' || ch == '_' || ch == '.'
        || ch == '!' || ch == '~' || ch == '*' || ch == '\'' || ch == '(' || ch == ')' || ch == '['
        || ch == ']' || ch == '%'
}

fn is_uri_char(ch: char) -> (r: bool)
    ensures
        r == is_uri_char_spec(ch),
{
    ('0' <= ch && ch <= '9') || ('a' <= ch && ch <= 'z') || ('A' <= ch && ch <= 'Z') || ch == '-'
        || ch == ';' || ch == '/' || ch == '?' || ch == ':' || ch == '@' || ch == '&' || ch == '='
        || ch == '+' || ch == '$' || ch == ',' || ch == '_' || ch == '.' || ch == '!' || ch == '~'
        || ch == '*' || ch == '\'' || ch == '(' || ch == ')' || ch == '[' || ch == ']' || ch == '%'
}

pub open spec fn all_decimal(s: Seq<char>) -> bool {
    forall|k: int| 0 <= k < s.len() ==> '0' <= #[trigger] s[k] <= '9'
}

/// The first index at or after `i` that holds no decimal digit.
pub open spec fn digits_end(buf: Seq<char>, i: int) -> int
    decreases buf.len() - i,
{
    if i < 0 || i >= buf.len() || !('0' <= buf[i] <= '9') {
        i
    } else {
        digits_end(buf, i + 1)
    }
}

/// `n`, or `u64::MAX` when `n` is larger.
pub open spec fn saturated_u64(n: int) -> int {
    if n <= u64::MAX {
        n
    } else {
        u64::MAX as int
    }
}

/// The number written by the decimal digits `s`.
pub open spec fn decimal_number(s: Seq<char>) -> int
    decreases s.len(),
{
    if s.len() == 0 {
        0
    } else {
        decimal_number(s.drop_last()) * 10 + (s.last() as int - '0' as int)
    }
}

/// The decimal number `digits`, or `u64::MAX` when it does not fit.
fn parse_u64_saturating(digits: &[char]) -> (r: u64)
    requires
        all_decimal(digits@),
    ensures
        r == (if decimal_number(digits@) <= u64::MAX {
            decimal_number(digits@)
        } else {
            u64::MAX as int
        }),
{
    let mut acc: u64 = 0;
    let mut over = false;
    let mut i: usize = 0;
    while i < digits.len()
        invariant
            i <= digits@.len(),
            all_decimal(digits@),
            !over ==> acc == decimal_number(digits@.take(i as int)),
            over ==> decimal_number(digits@.take(i as int)) > u64::MAX,
            decimal_number(digits@.take(i as int)) >= 0,
        decreases digits@.len() - i,
    {
        let d = (digits[i] as u32 - '0' as u32) as u64;
        proof {
            assert(digits@.take(i + 1).drop_last() =~= digits@.take(i as int));
            assert(digits@.take(i + 1).last() == digits@[i as int]);
        }
        if !over {
            if acc <= (u64::MAX - d) / 10 {
                acc = acc * 10 + d;
            } else {
                over = true;
            }
        }
        i = i + 1;
    }
    proof {
        assert(digits@.take(digits@.len() as int) =~= digits@);
    }
    if over {
        u64::MAX
    } else {
        acc
    }
}

} // verus!
