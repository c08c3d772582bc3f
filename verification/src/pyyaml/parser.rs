//! The event parser over the token stream. It reports the first syntax
//! error with PyYAML's messages and positions, and produces the events from
//! which documents are composed.

use vstd::prelude::*;
use crate::pyyaml::error::{Mark, YamlError};
use crate::pyyaml::pyrepr::{py_repr, py_repr_spec};
use crate::pyyaml::scanner::{Scanner, buffer_of, error_in, flow_indicator_kind, mark_in, token_in};
use crate::pyyaml::tokens::{DirectiveValue, Token, TokenKind, token_id};
use crate::text::{chars_to_string, eq_str, max_text_len, push_str, str_chars};

verus! {

/// Parsing events, with what composing values needs.
#[derive(Debug, Clone, PartialEq)]
pub enum Event {
    StreamStart,
    StreamEnd,
    DocumentStart,
    DocumentEnd,
    Alias { value: String, mark: Mark },
    Scalar {
        value: String,
        plain: bool,
        style: Option<char>,
        anchor: Option<String>,
        tag: Option<String>,
    },
    SequenceStart { anchor: Option<String>, tag: Option<String> },
    SequenceEnd,
    MappingStart { anchor: Option<String>, tag: Option<String> },
    MappingEnd,
}

/// Every mark an event holds lies in the buffer `buf`.
pub open spec fn event_in(buf: Seq<char>, e: Event) -> bool {
    e matches Event::Alias { mark, .. } ==> mark_in(buf, mark)
}

/// An empty plain scalar without properties.
pub fn empty_scalar() -> (e: Event)
    ensures
        e matches Event::Scalar { value, plain, style, anchor, tag } && value@.len() == 0 && plain
            && style is None && anchor is None && tag is None,
{
    Event::Scalar { value: String::new(), plain: true, style: None, anchor: None, tag: None }
}

#[derive(Debug, Clone, Copy)]
pub enum State {
    StreamStart,
    ImplicitDocumentStart,
    DocumentStart,
    DocumentContent,
    DocumentEnd,
    BlockNode,
    BlockNodeOrIndentlessSequence,
    FlowNode,
    BlockSequenceFirstEntry,
    BlockSequenceEntry,
    IndentlessSequenceEntry,
    BlockMappingFirstKey,
    BlockMappingKey,
    BlockMappingValue,
    FlowSequenceFirstEntry,
    FlowSequenceEntry { first: bool },
    FlowSequenceEntryMappingKey,
    FlowSequenceEntryMappingValue,
    FlowSequenceEntryMappingEnd,
    FlowMappingFirstKey,
    FlowMappingKey { first: bool },
    FlowMappingValue,
    FlowMappingEmptyValue,
    End,
}

/// The work a state may still do without consuming a token: every step
/// either consumes a token or lowers the weight of the state and of the
/// states waiting on the stack.
pub open spec fn weight(s: State) -> int {
    match s {
        State::StreamStart => 6,
        State::ImplicitDocumentStart => 5,
        State::DocumentStart => 1,
        State::DocumentContent => 3,
        State::DocumentEnd => 2,
        State::BlockNode => 2,
        State::BlockNodeOrIndentlessSequence => 2,
        State::FlowNode => 2,
        State::BlockSequenceFirstEntry => 1,
        State::BlockSequenceEntry => 1,
        State::IndentlessSequenceEntry => 1,
        State::BlockMappingFirstKey => 1,
        State::BlockMappingKey => 1,
        State::BlockMappingValue => 2,
        State::FlowSequenceFirstEntry => 1,
        State::FlowSequenceEntry { first } => if first {
            4
        } else {
            1
        },
        State::FlowSequenceEntryMappingKey => 1,
        State::FlowSequenceEntryMappingValue => 3,
        State::FlowSequenceEntryMappingEnd => 2,
        State::FlowMappingFirstKey => 1,
        State::FlowMappingKey { first } => if first {
            5
        } else {
            1
        },
        State::FlowMappingValue => 2,
        State::FlowMappingEmptyValue => 2,
        State::End => 0,
    }
}

/// The weight of the states on the stack.
pub open spec fn stack_weight(s: Seq<State>) -> int
    decreases s.len(),
{
    if s.len() == 0 {
        0
    } else {
        stack_weight(s.drop_last()) + weight(s.last())
    }
}

/// A state whose first action takes a token that was already checked.
pub open spec fn takes_checked_token(s: State) -> bool {
    match s {
        State::BlockSequenceFirstEntry => true,
        State::BlockMappingFirstKey => true,
        State::FlowSequenceFirstEntry => true,
        State::FlowMappingFirstKey => true,
        State::FlowSequenceEntryMappingKey => true,
        _ => false,
    }
}

pub open spec fn is_node_state(s: State) -> bool {
    match s {
        State::BlockNode => true,
        State::BlockNodeOrIndentlessSequence => true,
        State::FlowNode => true,
        _ => false,
    }
}

#[derive(Debug, Clone, Copy)]
pub enum Choice {
    Directive,
    DocumentStart,
    DocumentEnd,
    StreamEnd,
    BlockEntry,
    BlockEnd,
    Key,
    Value,
    FlowEntry,
    FlowSequenceStart,
    FlowSequenceEnd,
    FlowMappingStart,
    FlowMappingEnd,
    BlockSequenceStart,
    BlockMappingStart,
    Alias,
    Anchor,
    Tag,
    Scalar,
}

/// Whether a token of kind `k` is a `c`.
pub open spec fn kind_is(k: TokenKind, c: Choice) -> bool {
    match c {
        Choice::Directive => k is Directive,
        Choice::DocumentStart => k is DocumentStart,
        Choice::DocumentEnd => k is DocumentEnd,
        Choice::StreamEnd => k is StreamEnd,
        Choice::BlockEntry => k is BlockEntry,
        Choice::BlockEnd => k is BlockEnd,
        Choice::Key => k is Key,
        Choice::Value => k is Value,
        Choice::FlowEntry => k is FlowEntry,
        Choice::FlowSequenceStart => k is FlowSequenceStart,
        Choice::FlowSequenceEnd => k is FlowSequenceEnd,
        Choice::FlowMappingStart => k is FlowMappingStart,
        Choice::FlowMappingEnd => k is FlowMappingEnd,
        Choice::BlockSequenceStart => k is BlockSequenceStart,
        Choice::BlockMappingStart => k is BlockMappingStart,
        Choice::Alias => k is Alias,
        Choice::Anchor => k is Anchor,
        Choice::Tag => k is Tag,
        Choice::Scalar => k is Scalar,
    }
}

/// A step's outcome that produced the event `e`.
pub open spec fn gives_event(r: Result<Option<Event>, YamlError>, e: Event) -> bool {
    r == Ok::<Option<Event>, YamlError>(Some(e))
}

/// A step's outcome that produced an empty plain scalar without properties.
pub open spec fn gives_empty_scalar(r: Result<Option<Event>, YamlError>) -> bool {
    r matches Ok(Some(Event::Scalar { value, plain, style, anchor, tag })) && value@.len() == 0
        && plain && style is None && anchor is None && tag is None
}

/// A step's outcome that failed with its problem at the start of token `t`.
pub open spec fn fails_at(r: Result<Option<Event>, YamlError>, t: Token) -> bool {
    r matches Err(e) && e.problem_mark == Some(t.start_mark)
}

/// What parsing a node gives when its first token `t` is not an anchor or a
/// tag: an alias, a scalar, the start of a collection, or an error at `t`.
/// `block` allows block collections; `indentless` allows a sequence of `-`
/// entries at the indentation of its mapping.
pub open spec fn node_gives(
    block: bool,
    indentless: bool,
    t: Token,
    r: Result<Option<Event>, YamlError>,
) -> bool {
    let sequence = Event::SequenceStart { anchor: None, tag: None };
    let mapping = Event::MappingStart { anchor: None, tag: None };
    match t.kind {
        TokenKind::Anchor(_) => true,
        TokenKind::Tag { .. } => true,
        TokenKind::Alias(value) => gives_event(r, Event::Alias { value, mark: t.start_mark }),
        TokenKind::Scalar { value, plain, style } => gives_event(
            r,
            Event::Scalar { value, plain, style, anchor: None, tag: None },
        ),
        TokenKind::BlockEntry => if indentless {
            gives_event(r, sequence)
        } else {
            fails_at(r, t)
        },
        TokenKind::FlowSequenceStart => gives_event(r, sequence),
        TokenKind::FlowMappingStart => gives_event(r, mapping),
        TokenKind::BlockSequenceStart => if block {
            gives_event(r, sequence)
        } else {
            fails_at(r, t)
        },
        TokenKind::BlockMappingStart => if block {
            gives_event(r, mapping)
        } else {
            fails_at(r, t)
        },
        _ => fails_at(r, t),
    }
}

/// What one step from state `s` gives when its next token is `t`, wherever
/// the two alone decide it (`true` where later tokens decide).
pub open spec fn step_gives(s: State, t: Token, r: Result<Option<Event>, YamlError>) -> bool {
    let k = t.kind;
    match s {
        State::StreamStart => gives_event(r, Event::StreamStart),
        State::ImplicitDocumentStart => if k is StreamEnd {
            gives_event(r, Event::StreamEnd)
        } else if k is Directive || k is DocumentStart {
            true
        } else {
            gives_event(r, Event::DocumentStart)
        },
        State::DocumentStart => k is StreamEnd ==> gives_event(r, Event::StreamEnd),
        State::DocumentEnd => gives_event(r, Event::DocumentEnd),
        State::DocumentContent => if k is Directive || k is DocumentStart || k is DocumentEnd
            || k is StreamEnd {
            gives_empty_scalar(r)
        } else {
            node_gives(true, false, t, r)
        },
        State::BlockNode => node_gives(true, false, t, r),
        State::BlockNodeOrIndentlessSequence => node_gives(true, true, t, r),
        State::FlowNode => node_gives(false, false, t, r),
        State::BlockSequenceEntry => if k is BlockEntry {
            true
        } else if k is BlockEnd {
            gives_event(r, Event::SequenceEnd)
        } else {
            fails_at(r, t)
        },
        State::IndentlessSequenceEntry => !(k is BlockEntry) ==> gives_event(r, Event::SequenceEnd),
        State::BlockMappingKey => if k is Key {
            true
        } else if k is BlockEnd {
            gives_event(r, Event::MappingEnd)
        } else {
            fails_at(r, t)
        },
        State::BlockMappingValue => !(k is Value) ==> gives_empty_scalar(r),
        State::FlowSequenceEntry { first } => if k is FlowSequenceEnd {
            gives_event(r, Event::SequenceEnd)
        } else if first {
            k is Key ==> gives_event(r, Event::MappingStart { anchor: None, tag: None })
        } else {
            !(k is FlowEntry) ==> fails_at(r, t)
        },
        State::FlowSequenceEntryMappingValue => !(k is Value) ==> gives_empty_scalar(r),
        State::FlowSequenceEntryMappingEnd => gives_event(r, Event::MappingEnd),
        State::FlowMappingKey { first } => if k is FlowMappingEnd {
            gives_event(r, Event::MappingEnd)
        } else {
            !first && !(k is FlowEntry) ==> fails_at(r, t)
        },
        State::FlowMappingValue => !(k is Value) ==> gives_empty_scalar(r),
        State::FlowMappingEmptyValue => gives_empty_scalar(r),
        _ => true,
    }
}

/// A node due where the next token closes a flow collection or parts its
/// entries fails there.
proof fn lemma_closer_node_fails(p: Parser, c: char, r: Result<Option<Event>, YamlError>)
    requires
        p.closer_node(c),
        p.next_known() matches Some(t) ==> step_gives(p.current_state(), t, r),
    ensures
        r matches Err(e) && e.problem_mark == Some(Mark { pointer: 0, line: 0, column: 0 }),
{
    let t = p.lookahead->0;
    assert(p.next_known() == Some(t));
    assert(t.kind is FlowSequenceEnd || t.kind is FlowMappingEnd || t.kind is FlowEntry);
}

/// A step that produced no event was one that later tokens decide.
proof fn lemma_step_gives_none(s: State, t: Token, r: Result<Option<Event>, YamlError>)
    requires
        step_gives(s, t, Ok(None)),
    ensures
        step_gives(s, t, r),
{
}

fn kind_matches(token: &Token, choice: Choice) -> (r: bool)
    ensures
        r == kind_is(token.kind, choice),
{
    match choice {
        Choice::Directive => matches!(token.kind, TokenKind::Directive { .. }),
        Choice::DocumentStart => matches!(token.kind, TokenKind::DocumentStart),
        Choice::DocumentEnd => matches!(token.kind, TokenKind::DocumentEnd),
        Choice::StreamEnd => matches!(token.kind, TokenKind::StreamEnd),
        Choice::BlockEntry => matches!(token.kind, TokenKind::BlockEntry),
        Choice::BlockEnd => matches!(token.kind, TokenKind::BlockEnd),
        Choice::Key => matches!(token.kind, TokenKind::Key),
        Choice::Value => matches!(token.kind, TokenKind::Value),
        Choice::FlowEntry => matches!(token.kind, TokenKind::FlowEntry),
        Choice::FlowSequenceStart => matches!(token.kind, TokenKind::FlowSequenceStart),
        Choice::FlowSequenceEnd => matches!(token.kind, TokenKind::FlowSequenceEnd),
        Choice::FlowMappingStart => matches!(token.kind, TokenKind::FlowMappingStart),
        Choice::FlowMappingEnd => matches!(token.kind, TokenKind::FlowMappingEnd),
        Choice::BlockSequenceStart => matches!(token.kind, TokenKind::BlockSequenceStart),
        Choice::BlockMappingStart => matches!(token.kind, TokenKind::BlockMappingStart),
        Choice::Alias => matches!(token.kind, TokenKind::Alias(_)),
        Choice::Anchor => matches!(token.kind, TokenKind::Anchor(_)),
        Choice::Tag => matches!(token.kind, TokenKind::Tag { .. }),
        Choice::Scalar => matches!(token.kind, TokenKind::Scalar { .. }),
    }
}

/// The tag handles every document starts with: `!` and `!!`.
pub fn default_tags() -> (r: Vec<(String, String)>)
    ensures
        r@.len() == 2,
        r@[0].0@ == "!"@ && r@[0].1@ == "!"@,
        r@[1].0@ == "!!"@ && r@[1].1@ == "tag:yaml.org,2002:"@,
{
    let mut map: Vec<(String, String)> = Vec::new();
    map.push(("!".to_owned(), "!".to_owned()));
    map.push(("!!".to_owned(), "tag:yaml.org,2002:".to_owned()));
    map
}

/// Whether `handles` defines `handle`.
pub open spec fn has_handle(handles: Seq<(String, String)>, handle: Seq<char>) -> bool {
    exists|i: int| 0 <= i < handles.len() && (#[trigger] handles[i]).0@ == handle
}

/// The prefix of `handle` among `handles`, the first match.
fn lookup_handle(handles: &Vec<(String, String)>, handle: &String) -> (r: Option<usize>)
    ensures
        r matches Some(i) ==> i < handles@.len() && handles@[i as int].0@ == handle@,
        r is None ==> forall|i: int| 0 <= i < handles@.len() ==> #[trigger] handles@[i].0@ != handle@,
{
    let mut i: usize = 0;
    while i < handles.len()
        invariant
            i <= handles@.len(),
            forall|k: int| 0 <= k < i ==> #[trigger] handles@[k].0@ != handle@,
        decreases handles@.len() - i,
    {
        if handles[i].0 == *handle {
            return Some(i);
        }
        i = i + 1;
    }
    None
}

/// Whether `token` is one of `choices`.
fn token_is_any(token: &Token, choices: &[Choice]) -> (r: bool)
    ensures
        r == exists|i: int| 0 <= i < choices@.len() && kind_is(token.kind, #[trigger] choices@[i]),
{
    let mut i: usize = 0;
    while i < choices.len()
        invariant
            i <= choices@.len(),
            forall|k: int| 0 <= k < i ==> !kind_is(token.kind, #[trigger] choices@[k]),
        decreases choices@.len() - i,
    {
        if kind_matches(token, choices[i]) {
            return true;
        }
        i = i + 1;
    }
    false
}

pub struct Parser {
    scanner: Scanner,
    lookahead: Option<Token>,
    state: State,
    states: Vec<State>,
    marks: Vec<Mark>,
    yaml_version: Option<(u64, u64)>,
    tag_handles: Vec<(String, String)>,
}

impl Parser {
    /// The characters parsed, with the end marker.
    pub closed spec fn buffer_view(&self) -> Seq<char> {
        self.scanner.buffer_view()
    }

    /// The number of tokens the parser has used up.
    spec fn consumed(&self) -> int {
        self.scanner.taken() - (if self.lookahead is Some {
            1int
        } else {
            0
        })
    }

    /// Decreases with every step of the parser.
    pub closed spec fn measure(&self) -> int {
        32 * (4 * self.buffer_view().len() + 3 - self.consumed()) + weight(self.state)
            + stack_weight(self.states@)
    }

    /// The token the parser looks at next where it is already known: the
    /// lookahead, or else the first token the scanner has ready, or the
    /// stream end where only the end of the input is left.
    pub closed spec fn next_known(&self) -> Option<Token> {
        if self.lookahead is Some {
            self.lookahead
        } else if self.scanner.ready() {
            Some(self.scanner.queued()[0])
        } else if self.scanner.at_clean_end() {
            Some(
                Token {
                    kind: TokenKind::StreamEnd,
                    start_mark: self.scanner.current_mark(),
                    end_mark: self.scanner.current_mark(),
                },
            )
        } else {
            None
        }
    }

    /// A parser at the start of an empty input: only the stream start is
    /// queued.
    pub closed spec fn fresh_empty(&self) -> bool {
        &&& self.lookahead is None
        &&& self.state is StreamStart
        &&& self.scanner.ready()
        &&& self.scanner.clean_rest()
        &&& self.scanner.queued().len() == 1
    }

    /// A parser at the start of an input whose first character is `c`, one
    /// of `]`, `}` and `,`: only the stream start is queued.
    pub closed spec fn fresh_closer(&self, c: char) -> bool {
        &&& (c == ']' || c == '}' || c == ',')
        &&& self.lookahead is None
        &&& self.state is StreamStart
        &&& self.scanner.ready()
        &&& self.scanner.closer_rest()
        &&& self.scanner.queued().len() == 1
        &&& self.scanner.current_char() == c
        &&& self.scanner.current_mark() == Mark { pointer: 0, line: 0, column: 0 }
    }

    /// That parser once the stream start was given.
    pub closed spec fn closer_after_start(&self, c: char) -> bool {
        &&& (c == ']' || c == '}' || c == ',')
        &&& self.lookahead is None
        &&& self.state is ImplicitDocumentStart
        &&& self.scanner.at_flow_closer()
        &&& self.scanner.current_char() == c
        &&& self.scanner.current_mark() == Mark { pointer: 0, line: 0, column: 0 }
    }

    /// That parser once the document start was given: a block node is due
    /// and the next token is the indicator `c` at the start.
    pub closed spec fn closer_node(&self, c: char) -> bool {
        &&& (c == ']' || c == '}' || c == ',')
        &&& self.state is BlockNode
        &&& self.lookahead matches Some(t) && Some(t.kind) == flow_indicator_kind(c)
            && t.start_mark == Mark { pointer: 0, line: 0, column: 0 }
    }

    /// A parser of an empty input once the stream start was given.
    pub closed spec fn empty_after_start(&self) -> bool {
        &&& self.lookahead is None
        &&& self.state is ImplicitDocumentStart
        &&& self.scanner.at_clean_end()
    }

    /// The state the parser is in.
    pub closed spec fn current_state(&self) -> State {
        self.state
    }

    pub closed spec fn at_end(&self) -> bool {
        self.state is End
    }

    /// No event has been produced yet.
    pub closed spec fn at_start(&self) -> bool {
        self.state is StreamStart
    }

    /// The scanner is valid and every kept token and mark is in the buffer.
    closed spec fn ok(&self) -> bool {
        &&& self.scanner.valid()
        &&& self.scanner.taken() <= 4 * self.buffer_view().len() + 2
        &&& (self.lookahead matches Some(t) ==> token_in(self.buffer_view(), t)
            && self.scanner.taken() >= 1)
        &&& forall|i: int| 0 <= i < self.marks@.len() ==> mark_in(self.buffer_view(), #[trigger] self.marks@[i])
        &&& forall|i: int| 0 <= i < self.states@.len() ==> !takes_checked_token(#[trigger] self.states@[i])
    }

    /// The parser's invariant between steps.
    pub closed spec fn wf(&self) -> bool {
        &&& self.ok()
        &&& takes_checked_token(self.state) ==> self.lookahead is Some
    }

    pub fn new(content: &str) -> (p: Self)
        requires
            content@.len() <= max_text_len(),
        ensures
            p.wf(),
            p.buffer_view() == buffer_of(content@),
            !p.at_end(),
            p.at_start(),
            content@.len() == 0 ==> p.fresh_empty(),
            content@.len() > 0 && (content@[0] == ']' || content@[0] == '}' || content@[0] == ',')
                ==> p.fresh_closer(content@[0]),
    {
        Parser {
            scanner: Scanner::new(content),
            lookahead: None,
            state: State::StreamStart,
            states: Vec::new(),
            marks: Vec::new(),
            yaml_version: None,
            tag_handles: Vec::new(),
        }
    }

    /// Read the next token into the lookahead, where it stays.
    fn peek_token(&mut self) -> (r: Result<(), YamlError>)
        requires
            old(self).ok(),
        ensures
            final(self).yaml_version == old(self).yaml_version,
            final(self).ok(),
            final(self).buffer_view() == old(self).buffer_view(),
            final(self).consumed() == old(self).consumed(),
            final(self).state == old(self).state,
            final(self).states@ == old(self).states@,
            final(self).marks@ == old(self).marks@,
            final(self).tag_handles@ == old(self).tag_handles@,
            old(self).lookahead is Some ==> final(self).lookahead == old(self).lookahead && r is Ok,
            r matches Err(e) ==> error_in(final(self).buffer_view(), e),
            old(self).lookahead is None && r is Ok ==> match final(self).lookahead {
                Some(t) => token_in(final(self).buffer_view(), t) && final(self).scanner.taken()
                    == old(self).scanner.taken() + 1,
                None => final(self).scanner.is_done() && final(self).scanner.queued().len() == 0,
            },
            old(self).lookahead is None && old(self).scanner.ready() ==> final(self).lookahead == Some(
                old(self).scanner.queued()[0],
            ),
            old(self).next_known() matches Some(t) ==> r is Ok && final(self).lookahead == Some(t),
            old(self).lookahead is None && old(self).scanner.at_flow_closer() ==> r is Ok
                && (final(self).lookahead matches Some(t) && Some(t.kind) == flow_indicator_kind(
                old(self).scanner.current_char(),
            ) && t.start_mark == old(self).scanner.current_mark()),
    {
        if self.lookahead.is_none() {
            self.lookahead = self.scanner.get_token()?;
        }
        Ok(())
    }

    /// Take the next token.
    fn get_token(&mut self) -> (r: Result<Option<Token>, YamlError>)
        requires
            old(self).ok(),
        ensures
            final(self).ok(),
            final(self).buffer_view() == old(self).buffer_view(),
            final(self).lookahead is None,
            final(self).state == old(self).state,
            final(self).states@ == old(self).states@,
            final(self).marks@ == old(self).marks@,
            final(self).tag_handles@ == old(self).tag_handles@,
            old(self).lookahead is Some ==> r == Ok::<Option<Token>, YamlError>(old(self).lookahead),
            old(self).next_known() matches Some(t) ==> r == Ok::<Option<Token>, YamlError>(Some(t)),
            match r {
                Ok(Some(t)) => final(self).consumed() == old(self).consumed() + 1 && token_in(
                    final(self).buffer_view(),
                    t,
                ),
                Ok(None) => final(self).consumed() == old(self).consumed(),
                Err(e) => final(self).consumed() == old(self).consumed() && error_in(
                    final(self).buffer_view(),
                    e,
                ),
            },
            old(self).lookahead is None && old(self).scanner.ready() && old(self).scanner.clean_rest()
                && old(self).scanner.queued().len() == 1 ==> final(self).scanner.at_clean_end(),
            old(self).lookahead is None && old(self).scanner.ready() && old(self).scanner.closer_rest()
                && old(self).scanner.queued().len() == 1 ==> final(self).scanner.at_flow_closer()
                && final(self).scanner.current_mark() == old(self).scanner.current_mark()
                && final(self).scanner.current_char() == old(self).scanner.current_char(),
    {
        if self.lookahead.is_none() {
            self.lookahead = self.scanner.get_token()?;
        }
        let t = self.lookahead.take();
        Ok(t)
    }

    /// Whether the next token is one of `choices`.
    fn check_token(&mut self, choices: &[Choice]) -> (r: Result<bool, YamlError>)
        requires
            old(self).ok(),
        ensures
            final(self).yaml_version == old(self).yaml_version,
            final(self).ok(),
            final(self).buffer_view() == old(self).buffer_view(),
            final(self).consumed() == old(self).consumed(),
            final(self).state == old(self).state,
            final(self).states@ == old(self).states@,
            final(self).marks@ == old(self).marks@,
            final(self).tag_handles@ == old(self).tag_handles@,
            old(self).lookahead is Some ==> final(self).lookahead == old(self).lookahead,
            old(self).next_known() matches Some(t) ==> final(self).lookahead == Some(t) && r
                == Ok::<bool, YamlError>(
                exists|i: int| 0 <= i < choices@.len() && kind_is(t.kind, #[trigger] choices@[i]),
            ),
            match r {
                Ok(true) => final(self).lookahead matches Some(t) && exists|i: int|
                    0 <= i < choices@.len() && kind_is(t.kind, #[trigger] choices@[i]),
                Ok(false) => final(self).lookahead matches Some(t) ==> forall|i: int|
                    0 <= i < choices@.len() ==> !kind_is(t.kind, #[trigger] choices@[i]),
                Err(e) => error_in(final(self).buffer_view(), e),
            },
            old(self).lookahead is None && old(self).scanner.at_flow_closer() ==> r is Ok
                && (final(self).lookahead matches Some(t) && Some(t.kind) == flow_indicator_kind(
                old(self).scanner.current_char(),
            ) && t.start_mark == old(self).scanner.current_mark()),
    {
        self.peek_token()?;
        let r = match &self.lookahead {
            Some(token) => token_is_any(token, choices),
            None => false,
        };
        Ok(r)
    }

    /// A copy of the next token, or a stream-end token at the start of the
    /// buffer when there is none.
    fn peek_required(&mut self) -> (r: Result<Token, YamlError>)
        requires
            old(self).ok(),
        ensures
            final(self).ok(),
            final(self).buffer_view() == old(self).buffer_view(),
            final(self).consumed() == old(self).consumed(),
            final(self).state == old(self).state,
            final(self).states@ == old(self).states@,
            final(self).marks@ == old(self).marks@,
            final(self).tag_handles@ == old(self).tag_handles@,
            old(self).lookahead is Some ==> final(self).lookahead == old(self).lookahead,
            match r {
                Ok(t) => token_in(final(self).buffer_view(), t),
                Err(e) => error_in(final(self).buffer_view(), e),
            },
            r matches Ok(t) ==> match final(self).lookahead {
                Some(l) => t == l,
                None => t.kind is StreamEnd && t.start_mark == (Mark { pointer: 0, line: 0, column: 0 })
                    && t.end_mark == t.start_mark,
            },
            old(self).lookahead is None && r is Ok && final(self).lookahead is None
                ==> final(self).scanner.is_done() && final(self).scanner.queued().len() == 0,
            old(self).next_known() matches Some(t) ==> r == Ok::<Token, YamlError>(t)
                && final(self).lookahead == Some(t),
    {
        self.peek_token()?;
        match &self.lookahead {
            Some(t) => Ok(t.duplicate()),
            None => {
                proof {
                    assert(crate::pyyaml::scanner::position(self.buffer_view(), 0) == (0nat, 0nat));
                }
                Ok(Token::new(TokenKind::StreamEnd, Mark::default(), Mark::default()))
            },
        }
    }

    /// A step kept the invariant and the buffer; when it succeeded the
    /// measure went down by more than `weight(before.state) - k`... stated
    /// per function below; an error has its marks in the buffer.
    spec fn kept(&self, before: &Parser) -> bool {
        &&& self.wf()
        &&& self.buffer_view() == before.buffer_view()
    }

    proof fn lemma_stack_weight_nonneg(s: Seq<State>)
        ensures
            stack_weight(s) >= 0,
        decreases s.len(),
    {
        if s.len() > 0 {
            Parser::lemma_stack_weight_nonneg(s.drop_last());
        }
    }

    proof fn lemma_measure_nonneg(&self)
        requires
            self.ok(),
        ensures
            self.measure() >= 0,
    {
        Parser::lemma_stack_weight_nonneg(self.states@);
    }

    /// The measure of a parser between steps is never negative.
    pub proof fn lemma_measure_bounded(&self)
        requires
            self.wf(),
        ensures
            self.measure() >= 0,
    {
        self.lemma_measure_nonneg();
    }

    /// Push a state to return to.
    fn push_state(&mut self, s: State)
        requires
            old(self).ok(),
            !takes_checked_token(s),
        ensures
            final(self).ok(),
            final(self).buffer_view() == old(self).buffer_view(),
            final(self).consumed() == old(self).consumed(),
            final(self).lookahead == old(self).lookahead,
            final(self).state == old(self).state,
            final(self).states@ == old(self).states@.push(s),
            final(self).marks@ == old(self).marks@,
            final(self).tag_handles@ == old(self).tag_handles@,
            stack_weight(final(self).states@) == stack_weight(old(self).states@) + weight(s),
    {
        self.states.push(s);
        proof {
            assert(self.states@.drop_last() =~= old(self).states@);
            assert forall|i: int| 0 <= i < self.states@.len() implies !takes_checked_token(
                #[trigger] self.states@[i],
            ) by {
                if i < old(self).states@.len() {
                    assert(self.states@[i] == old(self).states@[i]);
                }
            }
        }
    }

    /// Return to the state on top of the stack (the end when there is none).
    fn pop_state(&mut self)
        requires
            old(self).ok(),
        ensures
            final(self).ok(),
            final(self).buffer_view() == old(self).buffer_view(),
            final(self).consumed() == old(self).consumed(),
            final(self).lookahead == old(self).lookahead,
            final(self).marks@ == old(self).marks@,
            final(self).tag_handles@ == old(self).tag_handles@,
            weight(final(self).state) + stack_weight(final(self).states@) <= stack_weight(
                old(self).states@,
            ),
            old(self).states@.len() > 0 ==> final(self).state == old(self).states@.last(),
            old(self).states@.len() == 0 ==> final(self).state is End,
            !takes_checked_token(final(self).state),
    {
        let ghost before = self.states@;
        self.state = match self.states.pop() {
            Some(s) => s,
            None => State::End,
        };
        proof {
            if before.len() > 0 {
                assert(before.drop_last() =~= self.states@);
                assert(!takes_checked_token(before[before.len() - 1]));
                assert forall|i: int| 0 <= i < self.states@.len() implies !takes_checked_token(
                    #[trigger] self.states@[i],
                ) by {
                    assert(self.states@[i] == before[i]);
                }
            }
        }
    }

    /// Forget the mark of the innermost collection.
    fn pop_mark(&mut self)
        requires
            old(self).ok(),
        ensures
            final(self).ok(),
            final(self).buffer_view() == old(self).buffer_view(),
            final(self).consumed() == old(self).consumed(),
            final(self).lookahead == old(self).lookahead,
            final(self).state == old(self).state,
            final(self).states@ == old(self).states@,
            final(self).tag_handles@ == old(self).tag_handles@,
    {
        self.marks.pop();
    }

    /// The mark of the innermost collection.
    fn last_mark(&self) -> (r: Option<Mark>)
        requires
            self.ok(),
        ensures
            r matches Some(m) ==> mark_in(self.buffer_view(), m),
            r == (if self.marks@.len() > 0 {
                Some(self.marks@.last())
            } else {
                None::<Mark>
            }),
    {
        if self.marks.len() > 0 {
            Some(self.marks[self.marks.len() - 1])
        } else {
            None
        }
    }

    /// Take a token known to be next.
    fn take_checked(&mut self) -> (t: Token)
        requires
            old(self).ok(),
            old(self).lookahead is Some,
        ensures
            final(self).yaml_version == old(self).yaml_version,
            final(self).ok(),
            final(self).buffer_view() == old(self).buffer_view(),
            final(self).lookahead is None,
            final(self).consumed() == old(self).consumed() + 1,
            Some(t) == old(self).lookahead,
            token_in(final(self).buffer_view(), t),
            final(self).state == old(self).state,
            final(self).states@ == old(self).states@,
            final(self).marks@ == old(self).marks@,
            final(self).tag_handles@ == old(self).tag_handles@,
    {
        match self.lookahead.take() {
            Some(t) => t,
            None => {
                proof {
                    assert(false);
                }
                Token::new(TokenKind::StreamEnd, Mark::default(), Mark::default())
            },
        }
    }

    // --- Steps ----------------------------------------------------------------

    /// Drive the parser over the whole stream; the first error, if any.
    pub fn check_syntax(content: &str) -> (r: Option<YamlError>)
        requires
            content@.len() <= max_text_len(),
        ensures
            r matches Some(e) ==> error_in(buffer_of(content@), e),
            content@.len() == 0 ==> r is None,
            content@.len() > 0 && (content@[0] == ']' || content@[0] == '}' || content@[0] == ',')
                ==> (r matches Some(e) && e.problem_mark == Some(Mark { pointer: 0, line: 0, column: 0 })),
    {
        let mut parser = Parser::new(content);
        loop
            invariant
                parser.wf(),
                parser.buffer_view() == buffer_of(content@),
                content@.len() == 0 ==> parser.fresh_empty() || parser.empty_after_start()
                    || parser.at_end(),
                content@.len() > 0 && (content@[0] == ']' || content@[0] == '}' || content@[0] == ',')
                    ==> parser.fresh_closer(content@[0]) || parser.closer_after_start(content@[0])
                    || parser.closer_node(content@[0]),
            decreases parser.measure(),
        {
            match parser.next_event() {
                Ok(Some(_)) => {
                    proof {
                        parser.lemma_measure_nonneg();
                    }
                },
                Ok(None) => {
                    return None;
                },
                Err(e) => {
                    return Some(e);
                },
            }
        }
    }

    /// The next event, or `None` at the end of the stream.
    pub fn next_event(&mut self) -> (r: Result<Option<Event>, YamlError>)
        requires
            old(self).wf(),
        ensures
            final(self).buffer_view() == old(self).buffer_view(),
            match r {
                Ok(Some(ev)) => final(self).wf() && final(self).measure() < old(self).measure()
                    && event_in(final(self).buffer_view(), ev),
                Ok(None) => final(self).wf() && final(self).at_end(),
                Err(e) => error_in(final(self).buffer_view(), e),
            },
            old(self).at_start() ==> match r {
                Ok(Some(ev)) => ev is StreamStart,
                Ok(None) => false,
                Err(_) => true,
            },
            old(self).at_end() ==> r == Ok::<Option<Event>, YamlError>(None),
            old(self).next_known() matches Some(t) ==> step_gives(old(self).current_state(), t, r),
            r matches Ok(Some(ev)) ==> (ev is StreamEnd ==> final(self).at_end()),
            old(self).fresh_empty() ==> gives_event(r, Event::StreamStart)
                && final(self).empty_after_start(),
            old(self).empty_after_start() ==> gives_event(r, Event::StreamEnd) && final(self).at_end(),
            forall|c: char| #[trigger] old(self).fresh_closer(c) ==> gives_event(r, Event::StreamStart)
                && final(self).closer_after_start(c),
            forall|c: char| #[trigger] old(self).closer_after_start(c) ==> gives_event(
                r,
                Event::DocumentStart,
            ) && final(self).closer_node(c),
            forall|c: char| #[trigger] old(self).closer_node(c) ==> (r matches Err(e) && e.problem_mark
                == Some(Mark { pointer: 0, line: 0, column: 0 })),
    {
        proof {
            if self.empty_after_start() {
                self.scanner.lemma_clean_end();
            }
        }
        let ghost mut first = true;
        loop
            invariant
                self.wf(),
                self.buffer_view() == old(self).buffer_view(),
                self.measure() <= old(self).measure(),
                self.measure() == old(self).measure() ==> self.state == old(self).state,
                is_node_state(self.state) ==> self.measure() < old(self).measure() || is_node_state(
                    old(self).state,
                ),
                old(self).state is StreamStart ==> self.state is StreamStart,
                first ==> *self == *old(self),
                !first ==> !old(self).at_end() && (old(self).next_known() matches Some(t)
                    ==> step_gives(old(self).state, t, Ok(None))),
                old(self).empty_after_start() ==> (old(self).next_known() matches Some(t)
                    && t.kind is StreamEnd),
                !first ==> forall|c: char| !#[trigger] old(self).closer_after_start(c),
                !first ==> forall|c: char| !#[trigger] old(self).fresh_closer(c),
                !first ==> forall|c: char| !#[trigger] old(self).closer_node(c),
            decreases (if is_node_state(self.state) {
                0int
            } else {
                1
            }),
        {
            if let State::End = self.state {
                return Ok(None);
            }
            let step = self.step();
            proof {
                if first {
                    assert forall|c: char| #[trigger] old(self).closer_node(c) implies (step matches Err(
                        e,
                    ) && e.problem_mark == Some(Mark { pointer: 0, line: 0, column: 0 })) by {
                        lemma_closer_node_fails(*old(self), c, step);
                    }
                }
                if !first {
                    match old(self).next_known() {
                        Some(t) => lemma_step_gives_none(old(self).state, t, step),
                        None => {},
                    }
                }
            }
            match step {
                Ok(Some(event)) => {
                    return Ok(Some(event));
                },
                Ok(None) => {
                    proof {
                        first = false;
                    }
                },
                Err(e) => {
                    return Err(e);
                },
            }
        }
    }

    /// One transition of the state machine, which may produce an event.
    #[verifier::rlimit(40)]
    fn step(&mut self) -> (r: Result<Option<Event>, YamlError>)
        requires
            old(self).wf(),
            !(old(self).state is End),
        ensures
            final(self).ok(),
            final(self).buffer_view() == old(self).buffer_view(),
            match r {
                Ok(e) => final(self).wf() && final(self).measure() < old(self).measure() && (e matches Some(
                    ev,
                ) ==> event_in(final(self).buffer_view(), ev)),
                Err(e) => error_in(final(self).buffer_view(), e),
            },
            r matches Ok(None) ==> is_node_state(final(self).state) && !is_node_state(old(self).state),
            old(self).state is StreamStart ==> (r matches Ok(e) ==> (e matches Some(ev)
                && ev is StreamStart)),
            old(self).next_known() matches Some(t) ==> step_gives(old(self).state, t, r),
            r matches Ok(Some(ev)) ==> (ev is StreamEnd ==> final(self).state is End),
            old(self).fresh_empty() ==> gives_event(r, Event::StreamStart)
                && final(self).empty_after_start(),
            forall|c: char| #[trigger] old(self).fresh_closer(c) ==> gives_event(r, Event::StreamStart)
                && final(self).closer_after_start(c),
            forall|c: char| #[trigger] old(self).closer_after_start(c) ==> gives_event(
                r,
                Event::DocumentStart,
            ) && final(self).closer_node(c),
    {
        match self.state {
            State::End => Ok(None),
            State::StreamStart => {
                self.get_token()?;
                self.state = State::ImplicitDocumentStart;
                Ok(Some(Event::StreamStart))
            },
            State::ImplicitDocumentStart => {
                if !self.check_token(&[Choice::Directive, Choice::DocumentStart, Choice::StreamEnd])? {
                    self.tag_handles = default_tags();
                    self.push_state(State::DocumentEnd);
                    self.state = State::BlockNode;
                    Ok(Some(Event::DocumentStart))
                } else {
                    self.parse_document_start()
                }
            },
            State::DocumentStart => self.parse_document_start(),
            State::DocumentEnd => {
                if self.check_token(&[Choice::DocumentEnd])? {
                    self.get_token()?;
                }
                self.state = State::DocumentStart;
                Ok(Some(Event::DocumentEnd))
            },
            State::DocumentContent => {
                if self.check_token(
                    &[Choice::Directive, Choice::DocumentStart, Choice::DocumentEnd, Choice::StreamEnd],
                )? {
                    self.pop_state();
                    Ok(Some(empty_scalar()))
                } else {
                    self.parse_node(true, false)
                }
            },
            State::BlockNode => self.parse_node(true, false),
            State::BlockNodeOrIndentlessSequence => self.parse_node(true, true),
            State::FlowNode => self.parse_node(false, false),
            State::BlockSequenceFirstEntry => {
                let token = self.take_checked();
                self.push_mark(token.start_mark);
                self.parse_block_sequence_entry()
            },
            State::BlockSequenceEntry => self.parse_block_sequence_entry(),
            State::IndentlessSequenceEntry => self.parse_indentless_sequence_entry(),
            State::BlockMappingFirstKey => {
                let token = self.take_checked();
                self.push_mark(token.start_mark);
                self.parse_block_mapping_key()
            },
            State::BlockMappingKey => self.parse_block_mapping_key(),
            State::BlockMappingValue => self.parse_block_mapping_value(),
            State::FlowSequenceFirstEntry => {
                let token = self.take_checked();
                self.push_mark(token.start_mark);
                self.parse_flow_sequence_entry(true)
            },
            State::FlowSequenceEntry { first } => self.parse_flow_sequence_entry(first),
            State::FlowSequenceEntryMappingKey => {
                self.take_checked();
                if !self.check_token(&[Choice::Value, Choice::FlowEntry, Choice::FlowSequenceEnd])? {
                    self.push_state(State::FlowSequenceEntryMappingValue);
                    self.state = State::FlowNode;
                    Ok(None)
                } else {
                    self.state = State::FlowSequenceEntryMappingValue;
                    Ok(Some(empty_scalar()))
                }
            },
            State::FlowSequenceEntryMappingValue => {
                if self.check_token(&[Choice::Value])? {
                    self.get_token()?;
                    if !self.check_token(&[Choice::FlowEntry, Choice::FlowSequenceEnd])? {
                        self.push_state(State::FlowSequenceEntryMappingEnd);
                        self.state = State::FlowNode;
                        Ok(None)
                    } else {
                        self.state = State::FlowSequenceEntryMappingEnd;
                        Ok(Some(empty_scalar()))
                    }
                } else {
                    self.state = State::FlowSequenceEntryMappingEnd;
                    Ok(Some(empty_scalar()))
                }
            },
            State::FlowSequenceEntryMappingEnd => {
                self.state = State::FlowSequenceEntry { first: false };
                Ok(Some(Event::MappingEnd))
            },
            State::FlowMappingFirstKey => {
                let token = self.take_checked();
                self.push_mark(token.start_mark);
                self.parse_flow_mapping_key(true)
            },
            State::FlowMappingKey { first } => self.parse_flow_mapping_key(first),
            State::FlowMappingValue => {
                if self.check_token(&[Choice::Value])? {
                    self.get_token()?;
                    if !self.check_token(&[Choice::FlowEntry, Choice::FlowMappingEnd])? {
                        self.push_state(State::FlowMappingKey { first: false });
                        self.state = State::FlowNode;
                        Ok(None)
                    } else {
                        self.state = State::FlowMappingKey { first: false };
                        Ok(Some(empty_scalar()))
                    }
                } else {
                    self.state = State::FlowMappingKey { first: false };
                    Ok(Some(empty_scalar()))
                }
            },
            State::FlowMappingEmptyValue => {
                self.state = State::FlowMappingKey { first: false };
                Ok(Some(empty_scalar()))
            },
        }
    }

    fn push_mark(&mut self, m: Mark)
        requires
            old(self).ok(),
            mark_in(old(self).buffer_view(), m),
        ensures
            final(self).ok(),
            final(self).buffer_view() == old(self).buffer_view(),
            final(self).consumed() == old(self).consumed(),
            final(self).lookahead == old(self).lookahead,
            final(self).state == old(self).state,
            final(self).states@ == old(self).states@,
            final(self).tag_handles@ == old(self).tag_handles@,
            final(self).marks@ == old(self).marks@.push(m),
    {
        self.marks.push(m);
        proof {
            assert forall|i: int| 0 <= i < self.marks@.len() implies mark_in(
                self.buffer_view(),
                #[trigger] self.marks@[i],
            ) by {
                if i < old(self).marks@.len() {
                    assert(self.marks@[i] == old(self).marks@[i]);
                }
            }
        }
    }

    fn parse_document_start(&mut self) -> (r: Result<Option<Event>, YamlError>)
        requires
            old(self).ok(),
        ensures
            r matches Ok(Some(ev)) ==> !(ev is Alias),
            r matches Ok(Some(ev)) ==> (ev is StreamEnd ==> final(self).state is End),
            final(self).ok(),
            final(self).buffer_view() == old(self).buffer_view(),
            match r {
                Ok(e) => final(self).wf() && e is Some && final(self).measure() + weight(
                    old(self).state,
                ) <= old(self).measure() + 5 - 32,
                Err(e) => error_in(final(self).buffer_view(), e),
            },
            old(self).next_known() matches Some(t) && t.kind is StreamEnd ==> gives_event(
                r,
                Event::StreamEnd,
            ),
    {
        // Skip extra document end indicators.
        loop
            invariant
                self.ok(),
                self.buffer_view() == old(self).buffer_view(),
                self.state == old(self).state,
                self.states@ == old(self).states@,
                self.consumed() >= old(self).consumed(),
                old(self).next_known() matches Some(t) ==> (!(t.kind is DocumentEnd)
                    ==> self.next_known() == Some(t)),
            decreases 4 * self.buffer_view().len() + 3 - self.consumed(),
        {
            if !self.check_token(&[Choice::DocumentEnd])? {
                break ;
            }
            self.take_checked();
        }
        if !self.check_token(&[Choice::StreamEnd])? {
            self.process_directives()?;
            if !self.check_token(&[Choice::DocumentStart])? {
                let token = self.peek_required()?;
                return Err(
                    YamlError::new(
                        None,
                        None,
                        concat_repr("expected '<document start>', but found ", token.id()),
                        Some(token.start_mark),
                    ),
                );
            }
            self.take_checked();
            self.push_state(State::DocumentEnd);
            self.state = State::DocumentContent;
            Ok(Some(Event::DocumentStart))
        } else {
            // The end of the stream.
            self.take_checked();
            self.state = State::End;
            Ok(Some(Event::StreamEnd))
        }
    }

    /// Read the `%YAML` and `%TAG` directives of a document, then add the
    /// default tag handles that were not redefined.
    fn process_directives(&mut self) -> (r: Result<(), YamlError>)
        requires
            old(self).ok(),
        ensures
            final(self).ok(),
            final(self).buffer_view() == old(self).buffer_view(),
            final(self).state == old(self).state,
            final(self).states@ == old(self).states@,
            final(self).consumed() >= old(self).consumed(),
            r matches Err(e) ==> error_in(final(self).buffer_view(), e),
            r is Ok ==> (final(self).lookahead matches Some(t) ==> !(t.kind is Directive)),
            r is Ok ==> has_handle(final(self).tag_handles@, "!"@) && has_handle(
                final(self).tag_handles@,
                "!!"@,
            ),
            r is Ok ==> (final(self).yaml_version matches Some((major, _)) ==> major == 1),
    {
        self.yaml_version = None;
        self.tag_handles.clear();
        loop
            invariant
                self.ok(),
                self.buffer_view() == old(self).buffer_view(),
                self.state == old(self).state,
                self.states@ == old(self).states@,
                self.consumed() >= old(self).consumed(),
                self.yaml_version matches Some((major, _)) ==> major == 1,
            ensures
                self.ok(),
                self.buffer_view() == old(self).buffer_view(),
                self.state == old(self).state,
                self.states@ == old(self).states@,
                self.consumed() >= old(self).consumed(),
                self.yaml_version matches Some((major, _)) ==> major == 1,
                self.lookahead matches Some(t) ==> !(t.kind is Directive),
            decreases 4 * self.buffer_view().len() + 3 - self.consumed(),
        {
            let is_directive = self.check_token(&[Choice::Directive])?;
            if !is_directive {
                proof {
                    if self.lookahead is Some {
                        assert(!kind_is(self.lookahead->0.kind, [Choice::Directive]@[0]));
                    }
                }
                break ;
            }
            let token = self.take_checked();
            match token.kind {
                TokenKind::Directive { name, value } => {
                    let name_chars = str_chars(name.as_str());
                    if eq_str(name_chars.as_slice(), "YAML") {
                        if self.yaml_version.is_some() {
                            return Err(
                                YamlError::new(
                                    None,
                                    None,
                                    "found duplicate YAML directive".to_owned(),
                                    Some(token.start_mark),
                                ),
                            );
                        }
                        match value {
                            DirectiveValue::Yaml(major, minor) => {
                                if major != 1 {
                                    return Err(
                                        YamlError::new(
                                            None,
                                            None,
                                            "found incompatible YAML document (version 1.* is required)".to_owned(),
                                            Some(token.start_mark),
                                        ),
                                    );
                                }
                                self.yaml_version = Some((major, minor));
                            },
                            _ => {},
                        }
                    } else if eq_str(name_chars.as_slice(), "TAG") {
                        match value {
                            DirectiveValue::Tag(handle, prefix) => {
                                if lookup_handle(&self.tag_handles, &handle).is_some() {
                                    return Err(
                                        YamlError::new(
                                            None,
                                            None,
                                            concat_repr("duplicate tag handle ", handle.as_str()),
                                            Some(token.start_mark),
                                        ),
                                    );
                                }
                                self.tag_handles.push((handle, prefix));
                            },
                            _ => {},
                        }
                    }
                },
                _ => {},
            }
        }
        let defaults = default_tags();
        let ghost la = self.lookahead;
        let mut i: usize = 0;
        while i < defaults.len()
            invariant
                self.ok(),
                self.buffer_view() == old(self).buffer_view(),
                self.state == old(self).state,
                self.states@ == old(self).states@,
                self.consumed() >= old(self).consumed(),
                self.yaml_version matches Some((major, _)) ==> major == 1,
                self.lookahead == la,
                la matches Some(t) ==> !(t.kind is Directive),
                i <= defaults@.len(),
                defaults@.len() == 2,
                defaults@[0].0@ == "!"@,
                defaults@[1].0@ == "!!"@,
                forall|k: int| 0 <= k < i ==> has_handle(self.tag_handles@, (#[trigger] defaults@[k]).0@),
            decreases defaults@.len() - i,
        {
            let ghost before = self.tag_handles@;
            match lookup_handle(&self.tag_handles, &defaults[i].0) {
                Some(j) => {
                    assert(self.tag_handles@[j as int].0@ == defaults@[i as int].0@);
                },
                None => {
                    self.tag_handles.push((defaults[i].0.clone(), defaults[i].1.clone()));
                    assert(self.tag_handles@[before.len() as int].0@ == defaults@[i as int].0@);
                },
            }
            assert forall|k: int| 0 <= k <= i implies has_handle(self.tag_handles@, (#[trigger] defaults@[k]).0@) by {
                if k < i {
                    assert(has_handle(before, defaults@[k].0@));
                    let j = choose|j: int| 0 <= j < before.len() && (#[trigger] before[j]).0@ == defaults@[k].0@;
                    assert(self.tag_handles@[j] == before[j]);
                }
            }
            i = i + 1;
        }
        assert(has_handle(self.tag_handles@, defaults@[0].0@));
        assert(has_handle(self.tag_handles@, defaults@[1].0@));
        Ok(())
    }

    /// A node: an alias, or properties (anchor, tag) and then a scalar, a
    /// collection start, or nothing (an empty scalar).
    #[verifier::rlimit(60)]
    fn parse_node(&mut self, block: bool, indentless_sequence: bool) -> (r: Result<
        Option<Event>,
        YamlError,
    >)
        requires
            old(self).ok(),
        ensures
            final(self).ok(),
            final(self).buffer_view() == old(self).buffer_view(),
            match r {
                Ok(e) => final(self).wf() && e is Some && final(self).measure() + weight(
                    old(self).state,
                ) <= old(self).measure() + 1 && (e matches Some(ev) ==> event_in(
                    final(self).buffer_view(),
                    ev,
                )),
                Err(e) => error_in(final(self).buffer_view(), e),
            },
            old(self).next_known() matches Some(t) ==> node_gives(block, indentless_sequence, t, r),
            r matches Ok(Some(ev)) ==> !(ev is StreamEnd),
    {
        if self.check_token(&[Choice::Alias])? {
            let token = self.take_checked();
            self.pop_state();
            match token.kind {
                TokenKind::Alias(value) => {
                    return Ok(Some(Event::Alias { value, mark: token.start_mark }));
                },
                _ => {
                    proof {
                        assert(false);
                    }
                    return Ok(Some(Event::StreamEnd));
                },
            }
        }
        let mut anchor: Option<String> = None;
        let mut raw_tag: Option<(Option<String>, String)> = None;
        let mut start_mark: Option<Mark> = None;
        let mut tag_mark: Option<Mark> = None;
        if self.check_token(&[Choice::Anchor])? {
            let token = self.take_checked();
            start_mark = Some(token.start_mark);
            match token.kind {
                TokenKind::Anchor(value) => {
                    anchor = Some(value);
                },
                _ => {},
            }
            if self.check_token(&[Choice::Tag])? {
                let token = self.take_checked();
                tag_mark = Some(token.start_mark);
                match token.kind {
                    TokenKind::Tag { handle, suffix } => {
                        raw_tag = Some((handle, suffix));
                    },
                    _ => {},
                }
            }
        } else if self.check_token(&[Choice::Tag])? {
            let token = self.take_checked();
            start_mark = Some(token.start_mark);
            tag_mark = Some(token.start_mark);
            match token.kind {
                TokenKind::Tag { handle, suffix } => {
                    raw_tag = Some((handle, suffix));
                },
                _ => {},
            }
            if self.check_token(&[Choice::Anchor])? {
                let token = self.take_checked();
                match token.kind {
                    TokenKind::Anchor(value) => {
                        anchor = Some(value);
                    },
                    _ => {},
                }
            }
        }
        let tag: Option<String> = match raw_tag {
            Some((Some(handle), suffix)) => match lookup_handle(&self.tag_handles, &handle) {
                Some(i) => Some(concat_two(self.tag_handles[i].1.as_str(), suffix.as_str())),
                None => {
                    return Err(
                        YamlError::new(
                            Some("while parsing a node"),
                            start_mark,
                            concat_repr("found undefined tag handle ", handle.as_str()),
                            tag_mark,
                        ),
                    );
                },
            },
            Some((None, suffix)) => Some(suffix),
            None => None,
        };
        let has_properties = anchor.is_some() || tag.is_some();
        if indentless_sequence && self.check_token(&[Choice::BlockEntry])? {
            self.state = State::IndentlessSequenceEntry;
            return Ok(Some(Event::SequenceStart { anchor, tag }));
        }
        if self.check_token(&[Choice::Scalar])? {
            let token = self.take_checked();
            self.pop_state();
            match token.kind {
                TokenKind::Scalar { value, plain, style } => {
                    Ok(Some(Event::Scalar { value, plain, style, anchor, tag }))
                },
                _ => {
                    proof {
                        assert(false);
                    }
                    Ok(Some(Event::StreamEnd))
                },
            }
        } else if self.check_token(&[Choice::FlowSequenceStart])? {
            self.state = State::FlowSequenceFirstEntry;
            Ok(Some(Event::SequenceStart { anchor, tag }))
        } else if self.check_token(&[Choice::FlowMappingStart])? {
            self.state = State::FlowMappingFirstKey;
            Ok(Some(Event::MappingStart { anchor, tag }))
        } else if block && self.check_token(&[Choice::BlockSequenceStart])? {
            self.state = State::BlockSequenceFirstEntry;
            Ok(Some(Event::SequenceStart { anchor, tag }))
        } else if block && self.check_token(&[Choice::BlockMappingStart])? {
            self.state = State::BlockMappingFirstKey;
            Ok(Some(Event::MappingStart { anchor, tag }))
        } else if has_properties {
            // Empty scalars are allowed even if a tag or an anchor is given.
            self.pop_state();
            Ok(
                Some(
                    Event::Scalar {
                        value: String::new(),
                        plain: true,
                        style: None,
                        anchor,
                        tag,
                    },
                ),
            )
        } else {
            let token = self.peek_required()?;
            let context = if block {
                "while parsing a block node"
            } else {
                "while parsing a flow node"
            };
            let context_mark = match start_mark {
                Some(m) => Some(m),
                None => Some(token.start_mark),
            };
            Err(
                YamlError::new(
                    Some(context),
                    context_mark,
                    concat_repr("expected the node content, but found ", token.id()),
                    Some(token.start_mark),
                ),
            )
        }
    }

    fn parse_block_sequence_entry(&mut self) -> (r: Result<Option<Event>, YamlError>)
        requires
            old(self).ok(),
        ensures
            r matches Ok(Some(ev)) ==> !(ev is Alias),
            r matches Ok(Some(ev)) ==> !(ev is StreamEnd),
            final(self).ok(),
            final(self).buffer_view() == old(self).buffer_view(),
            match r {
                Ok(e) => final(self).wf() && final(self).measure() + weight(old(self).state)
                    <= old(self).measure() + 3 - 32,
                Err(e) => error_in(final(self).buffer_view(), e),
            },
            r matches Ok(None) ==> is_node_state(final(self).state),
            old(self).next_known() matches Some(t) ==> step_gives(State::BlockSequenceEntry, t, r),
    {
        if self.check_token(&[Choice::BlockEntry])? {
            self.take_checked();
            if !self.check_token(&[Choice::BlockEntry, Choice::BlockEnd])? {
                self.push_state(State::BlockSequenceEntry);
                self.state = State::BlockNode;
                return Ok(None);
            }
            self.state = State::BlockSequenceEntry;
            return Ok(Some(empty_scalar()));
        }
        if !self.check_token(&[Choice::BlockEnd])? {
            let token = self.peek_required()?;
            let context_mark = self.last_mark();
            return Err(
                YamlError::new(
                    Some("while parsing a block collection"),
                    context_mark,
                    concat_repr("expected <block end>, but found ", token.id()),
                    Some(token.start_mark),
                ),
            );
        }
        self.take_checked();
        self.pop_state();
        self.pop_mark();
        Ok(Some(Event::SequenceEnd))
    }

    fn parse_indentless_sequence_entry(&mut self) -> (r: Result<Option<Event>, YamlError>)
        requires
            old(self).ok(),
            weight(old(self).state) >= 1,
        ensures
            r matches Ok(Some(ev)) ==> !(ev is Alias),
            r matches Ok(Some(ev)) ==> !(ev is StreamEnd),
            final(self).ok(),
            final(self).buffer_view() == old(self).buffer_view(),
            match r {
                Ok(e) => final(self).wf() && final(self).measure() < old(self).measure(),
                Err(e) => error_in(final(self).buffer_view(), e),
            },
            r matches Ok(None) ==> is_node_state(final(self).state),
            old(self).next_known() matches Some(t) ==> step_gives(State::IndentlessSequenceEntry, t, r),
    {
        if self.check_token(&[Choice::BlockEntry])? {
            self.take_checked();
            if !self.check_token(
                &[Choice::BlockEntry, Choice::Key, Choice::Value, Choice::BlockEnd],
            )? {
                self.push_state(State::IndentlessSequenceEntry);
                self.state = State::BlockNode;
                return Ok(None);
            }
            self.state = State::IndentlessSequenceEntry;
            return Ok(Some(empty_scalar()));
        }
        self.pop_state();
        Ok(Some(Event::SequenceEnd))
    }

    fn parse_block_mapping_key(&mut self) -> (r: Result<Option<Event>, YamlError>)
        requires
            old(self).ok(),
        ensures
            r matches Ok(Some(ev)) ==> !(ev is Alias),
            r matches Ok(Some(ev)) ==> !(ev is StreamEnd),
            final(self).ok(),
            final(self).buffer_view() == old(self).buffer_view(),
            match r {
                Ok(e) => final(self).wf() && final(self).measure() + weight(old(self).state)
                    <= old(self).measure() + 4 - 32,
                Err(e) => error_in(final(self).buffer_view(), e),
            },
            r matches Ok(None) ==> is_node_state(final(self).state),
            old(self).next_known() matches Some(t) ==> step_gives(State::BlockMappingKey, t, r),
    {
        if self.check_token(&[Choice::Key])? {
            self.take_checked();
            if !self.check_token(&[Choice::Key, Choice::Value, Choice::BlockEnd])? {
                self.push_state(State::BlockMappingValue);
                self.state = State::BlockNodeOrIndentlessSequence;
                return Ok(None);
            }
            self.state = State::BlockMappingValue;
            return Ok(Some(empty_scalar()));
        }
        if !self.check_token(&[Choice::BlockEnd])? {
            let token = self.peek_required()?;
            let context_mark = self.last_mark();
            return Err(
                YamlError::new(
                    Some("while parsing a block mapping"),
                    context_mark,
                    concat_repr("expected <block end>, but found ", token.id()),
                    Some(token.start_mark),
                ),
            );
        }
        self.take_checked();
        self.pop_state();
        self.pop_mark();
        Ok(Some(Event::MappingEnd))
    }

    fn parse_block_mapping_value(&mut self) -> (r: Result<Option<Event>, YamlError>)
        requires
            old(self).ok(),
            weight(old(self).state) >= 2,
        ensures
            r matches Ok(Some(ev)) ==> !(ev is Alias),
            r matches Ok(Some(ev)) ==> !(ev is StreamEnd),
            final(self).ok(),
            final(self).buffer_view() == old(self).buffer_view(),
            match r {
                Ok(e) => final(self).wf() && final(self).measure() < old(self).measure(),
                Err(e) => error_in(final(self).buffer_view(), e),
            },
            r matches Ok(None) ==> is_node_state(final(self).state),
            old(self).next_known() matches Some(t) ==> step_gives(State::BlockMappingValue, t, r),
    {
        if self.check_token(&[Choice::Value])? {
            self.take_checked();
            if !self.check_token(&[Choice::Key, Choice::Value, Choice::BlockEnd])? {
                self.push_state(State::BlockMappingKey);
                self.state = State::BlockNodeOrIndentlessSequence;
                return Ok(None);
            }
            self.state = State::BlockMappingKey;
            Ok(Some(empty_scalar()))
        } else {
            self.state = State::BlockMappingKey;
            Ok(Some(empty_scalar()))
        }
    }

    fn parse_flow_sequence_entry(&mut self, first: bool) -> (r: Result<Option<Event>, YamlError>)
        requires
            old(self).ok(),
        ensures
            r matches Ok(Some(ev)) ==> !(ev is Alias),
            r matches Ok(Some(ev)) ==> !(ev is StreamEnd),
            final(self).ok(),
            final(self).buffer_view() == old(self).buffer_view(),
            match r {
                Ok(e) => final(self).wf() && final(self).measure() + weight(old(self).state)
                    <= old(self).measure() + 3 - (if first {
                    0int
                } else {
                    32
                }),
                Err(e) => error_in(final(self).buffer_view(), e),
            },
            r matches Ok(None) ==> is_node_state(final(self).state),
            old(self).next_known() matches Some(t) ==> step_gives(State::FlowSequenceEntry { first }, t, r),
    {
        if !self.check_token(&[Choice::FlowSequenceEnd])? {
            if !first {
                if self.check_token(&[Choice::FlowEntry])? {
                    self.take_checked();
                } else {
                    let token = self.peek_required()?;
                    let context_mark = self.last_mark();
                    return Err(
                        YamlError::new(
                            Some("while parsing a flow sequence"),
                            context_mark,
                            concat_repr("expected ',' or ']', but got ", token.id()),
                            Some(token.start_mark),
                        ),
                    );
                }
            }
            if self.check_token(&[Choice::Key])? {
                self.state = State::FlowSequenceEntryMappingKey;
                return Ok(Some(Event::MappingStart { anchor: None, tag: None }));
            } else if !self.check_token(&[Choice::FlowSequenceEnd])? {
                self.push_state(State::FlowSequenceEntry { first: false });
                self.state = State::FlowNode;
                return Ok(None);
            }
        }
        self.take_checked();
        self.pop_state();
        self.pop_mark();
        Ok(Some(Event::SequenceEnd))
    }

    fn parse_flow_mapping_key(&mut self, first: bool) -> (r: Result<Option<Event>, YamlError>)
        requires
            old(self).ok(),
        ensures
            r matches Ok(Some(ev)) ==> !(ev is Alias),
            r matches Ok(Some(ev)) ==> !(ev is StreamEnd),
            final(self).ok(),
            final(self).buffer_view() == old(self).buffer_view(),
            match r {
                Ok(e) => final(self).wf() && final(self).measure() + weight(old(self).state)
                    <= old(self).measure() + 4 - (if first {
                    0int
                } else {
                    32
                }),
                Err(e) => error_in(final(self).buffer_view(), e),
            },
            r matches Ok(None) ==> is_node_state(final(self).state),
            old(self).next_known() matches Some(t) ==> step_gives(State::FlowMappingKey { first }, t, r),
    {
        if !self.check_token(&[Choice::FlowMappingEnd])? {
            if !first {
                if self.check_token(&[Choice::FlowEntry])? {
                    self.take_checked();
                } else {
                    let token = self.peek_required()?;
                    let context_mark = self.last_mark();
                    return Err(
                        YamlError::new(
                            Some("while parsing a flow mapping"),
                            context_mark,
                            concat_repr("expected ',' or '}', but got ", token.id()),
                            Some(token.start_mark),
                        ),
                    );
                }
            }
            if self.check_token(&[Choice::Key])? {
                self.take_checked();
                if !self.check_token(
                    &[Choice::Value, Choice::FlowEntry, Choice::FlowMappingEnd],
                )? {
                    self.push_state(State::FlowMappingValue);
                    self.state = State::FlowNode;
                    return Ok(None);
                }
                self.state = State::FlowMappingValue;
                return Ok(Some(empty_scalar()));
            } else if !self.check_token(&[Choice::FlowMappingEnd])? {
                self.push_state(State::FlowMappingEmptyValue);
                self.state = State::FlowNode;
                return Ok(None);
            }
        }
        self.take_checked();
        self.pop_state();
        self.pop_mark();
        Ok(Some(Event::MappingEnd))
    }
}

/// `prefix` followed by the quoted form of `s`.
fn concat_repr(prefix: &str, s: &str) -> (r: String)
    ensures
        r@ == prefix@ + py_repr_spec(s@),
{
    let mut v = str_chars(prefix);
    let quoted = py_repr(s);
    push_str(&mut v, quoted.as_str());
    chars_to_string(v.as_slice())
}

/// `a` followed by `b`.
pub(crate) fn concat_two(a: &str, b: &str) -> (r: String)
    ensures
        r@ == a@ + b@,
{
    let mut v = str_chars(a);
    push_str(&mut v, b);
    chars_to_string(v.as_slice())
}

} // verus!
