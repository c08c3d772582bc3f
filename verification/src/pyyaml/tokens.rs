//! Token types.

use vstd::prelude::*;
use crate::pyyaml::error::Mark;

verus! {

#[derive(Debug, Clone, PartialEq)]
pub enum DirectiveValue {
    Yaml(u64, u64),
    Tag(String, String),
    Other,
}

#[derive(Debug, Clone, PartialEq)]
#[allow(inconsistent_fields)]
pub enum TokenKind {
    StreamStart,
    StreamEnd,
    Directive { name: String, value: DirectiveValue },
    DocumentStart,
    DocumentEnd,
    BlockSequenceStart,
    BlockMappingStart,
    BlockEnd,
    FlowSequenceStart,
    FlowMappingStart,
    FlowSequenceEnd,
    FlowMappingEnd,
    Key,
    Value,
    BlockEntry,
    FlowEntry,
    Alias(String),
    Anchor(String),
    Tag { handle: Option<String>, suffix: String },
    Scalar {
        value: String,
        plain: bool,
        /// `None` for plain scalars, otherwise one of `'`, `"`, `|`, `>`.
        style: Option<char>,
    },
}

#[derive(Debug, Clone, PartialEq)]
pub struct Token {
    pub kind: TokenKind,
    pub start_mark: Mark,
    pub end_mark: Mark,
}

/// The identifier of a token kind, as the parser's error messages name it.
pub open spec fn token_id(kind: TokenKind) -> Seq<char> {
    match kind {
        TokenKind::StreamStart => "<stream start>"@,
        TokenKind::StreamEnd => "<stream end>"@,
        TokenKind::Directive { .. } => "<directive>"@,
        TokenKind::DocumentStart => "<document start>"@,
        TokenKind::DocumentEnd => "<document end>"@,
        TokenKind::BlockSequenceStart => "<block sequence start>"@,
        TokenKind::BlockMappingStart => "<block mapping start>"@,
        TokenKind::BlockEnd => "<block end>"@,
        TokenKind::FlowSequenceStart => "["@,
        TokenKind::FlowMappingStart => "{"@,
        TokenKind::FlowSequenceEnd => "]"@,
        TokenKind::FlowMappingEnd => "}"@,
        TokenKind::Key => "?"@,
        TokenKind::Value => ":"@,
        TokenKind::BlockEntry => "-"@,
        TokenKind::FlowEntry => ","@,
        TokenKind::Alias(_) => "<alias>"@,
        TokenKind::Anchor(_) => "<anchor>"@,
        TokenKind::Tag { .. } => "<tag>"@,
        TokenKind::Scalar { .. } => "<scalar>"@,
    }
}

impl Token {
    pub fn new(kind: TokenKind, start_mark: Mark, end_mark: Mark) -> (r: Self)
        ensures
            r.kind == kind,
            r.start_mark == start_mark,
            r.end_mark == end_mark,
    {
        Token { kind, start_mark, end_mark }
    }

    /// The token `id`, used in parser error messages.
    pub fn id(&self) -> (r: &'static str)
        ensures
            r@ == token_id(self.kind),
    {
        match &self.kind {
            TokenKind::StreamStart => "<stream start>",
            TokenKind::StreamEnd => "<stream end>",
            TokenKind::Directive { .. } => "<directive>",
            TokenKind::DocumentStart => "<document start>",
            TokenKind::DocumentEnd => "<document end>",
            TokenKind::BlockSequenceStart => "<block sequence start>",
            TokenKind::BlockMappingStart => "<block mapping start>",
            TokenKind::BlockEnd => "<block end>",
            TokenKind::FlowSequenceStart => "[",
            TokenKind::FlowMappingStart => "{",
            TokenKind::FlowSequenceEnd => "]",
            TokenKind::FlowMappingEnd => "}",
            TokenKind::Key => "?",
            TokenKind::Value => ":",
            TokenKind::BlockEntry => "-",
            TokenKind::FlowEntry => ",",
            TokenKind::Alias(_) => "<alias>",
            TokenKind::Anchor(_) => "<anchor>",
            TokenKind::Tag { .. } => "<tag>",
            TokenKind::Scalar { .. } => "<scalar>",
        }
    }

    pub fn is_scalar(&self) -> (r: bool)
        ensures
            r == (self.kind is Scalar),
    {
        match &self.kind {
            TokenKind::Scalar { .. } => true,
            _ => false,
        }
    }

    pub fn scalar_value(&self) -> (r: Option<&str>)
        ensures
            match self.kind {
                TokenKind::Scalar { value, .. } => r matches Some(v) && v@ == value@,
                _ => r is None,
            },
    {
        match &self.kind {
            TokenKind::Scalar { value, .. } => Some(value.as_str()),
            _ => None,
        }
    }

    pub fn scalar_style(&self) -> (r: Option<char>)
        ensures
            r == match self.kind {
                TokenKind::Scalar { style, .. } => style,
                _ => None,
            },
    {
        match &self.kind {
            TokenKind::Scalar { style, .. } => *style,
            _ => None,
        }
    }

    pub fn scalar_is_plain(&self) -> (r: bool)
        ensures
            r == (self.kind matches TokenKind::Scalar { plain, .. } && plain),
    {
        match &self.kind {
            TokenKind::Scalar { plain, .. } => *plain,
            _ => false,
        }
    }
}

impl DirectiveValue {
    /// A copy of this value.
    pub fn duplicate(&self) -> (r: Self)
        ensures
            r == *self,
    {
        match self {
            DirectiveValue::Yaml(a, b) => DirectiveValue::Yaml(*a, *b),
            DirectiveValue::Tag(h, p) => DirectiveValue::Tag(h.clone(), p.clone()),
            DirectiveValue::Other => DirectiveValue::Other,
        }
    }
}

impl TokenKind {
    /// A copy of this kind.
    pub fn duplicate(&self) -> (r: Self)
        ensures
            r == *self,
    {
        match self {
            TokenKind::StreamStart => TokenKind::StreamStart,
            TokenKind::StreamEnd => TokenKind::StreamEnd,
            TokenKind::Directive { name, value } => TokenKind::Directive {
                name: name.clone(),
                value: value.duplicate(),
            },
            TokenKind::DocumentStart => TokenKind::DocumentStart,
            TokenKind::DocumentEnd => TokenKind::DocumentEnd,
            TokenKind::BlockSequenceStart => TokenKind::BlockSequenceStart,
            TokenKind::BlockMappingStart => TokenKind::BlockMappingStart,
            TokenKind::BlockEnd => TokenKind::BlockEnd,
            TokenKind::FlowSequenceStart => TokenKind::FlowSequenceStart,
            TokenKind::FlowMappingStart => TokenKind::FlowMappingStart,
            TokenKind::FlowSequenceEnd => TokenKind::FlowSequenceEnd,
            TokenKind::FlowMappingEnd => TokenKind::FlowMappingEnd,
            TokenKind::Key => TokenKind::Key,
            TokenKind::Value => TokenKind::Value,
            TokenKind::BlockEntry => TokenKind::BlockEntry,
            TokenKind::FlowEntry => TokenKind::FlowEntry,
            TokenKind::Alias(v) => TokenKind::Alias(v.clone()),
            TokenKind::Anchor(v) => TokenKind::Anchor(v.clone()),
            TokenKind::Tag { handle, suffix } => TokenKind::Tag {
                handle: match handle {
                    Some(h) => Some(h.clone()),
                    None => None,
                },
                suffix: suffix.clone(),
            },
            TokenKind::Scalar { value, plain, style } => TokenKind::Scalar {
                value: value.clone(),
                plain: *plain,
                style: *style,
            },
        }
    }
}

impl Token {
    /// A copy of this token.
    pub fn duplicate(&self) -> (r: Self)
        ensures
            r == *self,
    {
        Token { kind: self.kind.duplicate(), start_mark: self.start_mark, end_mark: self.end_mark }
    }
}

} // verus!
