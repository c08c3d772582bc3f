use fastymllint::pyyaml::loader::event_debug_text;
use fastymllint::pyyaml::error::Mark;
use fastymllint::pyyaml::parser::{Event, Parser};
use fastymllint::pyyaml::scanner::Scanner;
use fastymllint::pyyaml::tokens::{DirectiveValue, TokenKind};

fn kinds(content: &str) -> Vec<TokenKind> {
    let (tokens, error, _) = Scanner::scan_all(content);
    assert!(error.is_none(), "unexpected error: {:?}", error);
    tokens.into_iter().map(|t| t.kind).collect()
}

fn scalar(value: &str, plain: bool, style: Option<char>) -> TokenKind {
    TokenKind::Scalar { value: value.to_string(), plain, style }
}

fn events(content: &str) -> Vec<Event> {
    let mut parser = Parser::new(content);
    let mut out = Vec::new();
    loop {
        match parser.next_event() {
            Ok(Some(e)) => out.push(e),
            Ok(None) => break,
            Err(e) => panic!("unexpected error: {}", e.problem),
        }
    }
    out
}

#[test]
fn test_scan_block_mapping() {
    assert_eq!(
        kinds("a: b\n"),
        vec![
            TokenKind::StreamStart,
            TokenKind::BlockMappingStart,
            TokenKind::Key,
            scalar("a", true, None),
            TokenKind::Value,
            scalar("b", true, None),
            TokenKind::BlockEnd,
            TokenKind::StreamEnd,
        ]
    );
}

#[test]
fn test_scan_marks() {
    let (tokens, error, buffer) = Scanner::scan_all("a: b\n");
    assert!(error.is_none());
    assert_eq!(buffer, vec!['a', ':', ' ', 'b', '\n', '\0']);
    assert_eq!(tokens[3].start_mark, Mark { pointer: 0, line: 0, column: 0 });
    assert_eq!(tokens[3].end_mark, Mark { pointer: 1, line: 0, column: 1 });
    assert_eq!(tokens[5].start_mark, Mark { pointer: 3, line: 0, column: 3 });
    // The stream ends after the line break, on the next line.
    assert_eq!(tokens[7].start_mark, Mark { pointer: 5, line: 1, column: 0 });
}

#[test]
fn test_scan_flow_sequence() {
    assert_eq!(
        kinds("[1, 2]"),
        vec![
            TokenKind::StreamStart,
            TokenKind::FlowSequenceStart,
            scalar("1", true, None),
            TokenKind::FlowEntry,
            scalar("2", true, None),
            TokenKind::FlowSequenceEnd,
            TokenKind::StreamEnd,
        ]
    );
}

#[test]
fn test_scan_block_sequence() {
    assert_eq!(
        kinds("- x\n- y\n"),
        vec![
            TokenKind::StreamStart,
            TokenKind::BlockSequenceStart,
            TokenKind::BlockEntry,
            scalar("x", true, None),
            TokenKind::BlockEntry,
            scalar("y", true, None),
            TokenKind::BlockEnd,
            TokenKind::StreamEnd,
        ]
    );
}

#[test]
fn test_scan_quoted_scalars() {
    let k = kinds("a: \"x\\ty\"\nb: 'it''s'\n");
    assert_eq!(k[5], scalar("x\ty", false, Some('"')));
    assert_eq!(k[9], scalar("it's", false, Some('\'')));
}

#[test]
fn test_scan_unicode_escape() {
    let k = kinds("\"\\u00e9\\x41\"");
    assert_eq!(k[1], scalar("\u{e9}A", false, Some('"')));
}

#[test]
fn test_scan_literal_block_scalar() {
    let k = kinds("x: |\n  l1\n  l2\n");
    assert_eq!(k[5], scalar("l1\nl2\n", false, Some('|')));
}

#[test]
fn test_scan_folded_block_scalar() {
    let k = kinds("x: >-\n  a\n  b\n");
    assert_eq!(k[5], scalar("a b", false, Some('>')));
}

#[test]
fn test_scan_plain_multiline() {
    let k = kinds("k: a\n  b\n");
    assert_eq!(k[5], scalar("a b", true, None));
}

#[test]
fn test_scan_anchor_and_alias() {
    let k = kinds("a: &x 1\nb: *x\n");
    assert_eq!(k[5], TokenKind::Anchor("x".to_string()));
    assert_eq!(k[10], TokenKind::Alias("x".to_string()));
}

#[test]
fn test_scan_tag() {
    let k = kinds("!!str 1");
    assert_eq!(
        k[1],
        TokenKind::Tag { handle: Some("!!".to_string()), suffix: "str".to_string() }
    );
}

#[test]
fn test_scan_directive() {
    let k = kinds("%YAML 1.2\n---\na\n");
    assert_eq!(
        k[1],
        TokenKind::Directive { name: "YAML".to_string(), value: DirectiveValue::Yaml(1, 2) }
    );
    assert_eq!(k[2], TokenKind::DocumentStart);
}

#[test]
fn test_scan_yaml_directive_numbers() {
    let k = kinds("%YAML   12.034 # note\n---\na\n");
    assert_eq!(
        k[1],
        TokenKind::Directive { name: "YAML".to_string(), value: DirectiveValue::Yaml(12, 34) }
    );
    let k = kinds("%YAML 99999999999999999999.1\n--- a\n");
    assert_eq!(
        k[1],
        TokenKind::Directive {
            name: "YAML".to_string(),
            value: DirectiveValue::Yaml(u64::MAX, 1),
        }
    );
}

#[test]
fn test_scan_yaml_directive_malformed() {
    for content in ["%YAML 1\n--- a\n", "%YAML 1.\n--- a\n", "%YAML .1\n--- a\n", "%YAML 1.1x\n--- a\n"] {
        let (_, error, _) = Scanner::scan_all(content);
        assert!(error.is_some(), "no error for {:?}", content);
    }
}

#[test]
fn test_scan_comment_is_skipped() {
    assert_eq!(
        kinds("# only a comment\n"),
        vec![TokenKind::StreamStart, TokenKind::StreamEnd]
    );
}

#[test]
fn test_scan_byte_order_mark() {
    let (tokens, _, _) = Scanner::scan_all("\u{FEFF}a");
    assert_eq!(tokens[1].start_mark, Mark { pointer: 1, line: 0, column: 0 });
}

#[test]
fn test_scan_error_mapping_values() {
    let (_, error, _) = Scanner::scan_all("a: b: c");
    let error = error.expect("an error");
    assert_eq!(error.problem, "mapping values are not allowed here");
    assert_eq!(error.problem_mark, Some(Mark { pointer: 4, line: 0, column: 4 }));
}

#[test]
fn test_scan_error_bad_character() {
    let (_, error, _) = Scanner::scan_all("@");
    let error = error.expect("an error");
    assert_eq!(error.problem, "found character '@' that cannot start any token");
    assert_eq!(error.context.as_deref(), Some("while scanning for the next token"));
}

#[test]
fn test_scan_error_unclosed_quote() {
    let (_, error, _) = Scanner::scan_all("'abc");
    let error = error.expect("an error");
    assert_eq!(error.problem, "found unexpected end of stream");
}

#[test]
fn test_scan_get_after_error_fails() {
    let mut scanner = Scanner::new("@");
    assert!(scanner.get_token().is_ok());
    let first = scanner.get_token().expect_err("an error");
    let again = scanner.get_token();
    assert_eq!(again.err().map(|e| e.problem), Some(first.problem));
}

#[test]
fn test_peek_then_get_same_token() {
    let mut scanner = Scanner::new("a: b");
    let first = scanner.get_token().unwrap().unwrap();
    assert_eq!(first.kind, TokenKind::StreamStart);
    let peeked = scanner.peek_token_cloned().unwrap().unwrap();
    let taken = scanner.get_token().unwrap().unwrap();
    assert_eq!(peeked, taken);
}

#[test]
fn test_parse_events() {
    let e = events("- a\n");
    assert_eq!(e.len(), 7);
    assert_eq!(e[0], Event::StreamStart);
    assert_eq!(e[1], Event::DocumentStart);
    assert_eq!(e[2], Event::SequenceStart { anchor: None, tag: None });
    assert_eq!(
        e[3],
        Event::Scalar {
            value: "a".to_string(),
            plain: true,
            style: None,
            anchor: None,
            tag: None
        }
    );
    assert_eq!(e[4], Event::SequenceEnd);
    assert_eq!(e[5], Event::DocumentEnd);
    assert_eq!(e[6], Event::StreamEnd);
}

#[test]
fn test_parse_tag_directive() {
    let e = events("%TAG !e! tag:example.com,2000:\n--- !e!foo bar\n");
    assert_eq!(
        e[2],
        Event::Scalar {
            value: "bar".to_string(),
            plain: true,
            style: None,
            anchor: None,
            tag: Some("tag:example.com,2000:foo".to_string())
        }
    );
}

#[test]
fn test_parse_empty_value() {
    let e = events("a:\n");
    assert_eq!(e[2], Event::MappingStart { anchor: None, tag: None });
    assert_eq!(
        e[4],
        Event::Scalar {
            value: String::new(),
            plain: true,
            style: None,
            anchor: None,
            tag: None
        }
    );
}

#[test]
fn test_check_syntax_valid() {
    assert!(Parser::check_syntax("a: b\nc:\n  - 1\n  - 2\n").is_none());
    assert!(Parser::check_syntax("").is_none());
}

#[test]
fn test_check_syntax_unclosed_flow_sequence() {
    let error = Parser::check_syntax("[1, 2").expect("an error");
    assert_eq!(error.problem, "expected ',' or ']', but got '<stream end>'");
    assert_eq!(error.context.as_deref(), Some("while parsing a flow sequence"));
}

#[test]
fn test_check_syntax_undefined_tag_handle() {
    let error = Parser::check_syntax("!x!y z").expect("an error");
    assert_eq!(error.problem, "found undefined tag handle '!x!'");
}

#[test]
fn test_check_syntax_duplicate_yaml_directive() {
    let error = Parser::check_syntax("%YAML 1.1\n%YAML 1.1\n--- a\n").expect("an error");
    assert_eq!(error.problem, "found duplicate YAML directive");
}

#[test]
fn test_check_syntax_block_end_expected() {
    let error = Parser::check_syntax("a: 1\n- b\n").expect("an error");
    assert_eq!(error.problem, "expected <block end>, but found '-'");
    assert_eq!(error.context.as_deref(), Some("while parsing a block mapping"));
}

#[test]
fn test_tokens_cover_their_text() {
    let content = "%YAML 1.1\n--- !!map\nkey: [a, {b: c}]\nlist:\n  - &x 'q'\n  - *x\n  ? k\n  : \"v\"\n...\n";
    let (tokens, error, buffer) = Scanner::scan_all(content);
    assert!(error.is_none());
    for t in &tokens {
        let s = t.start_mark.pointer;
        let e = t.end_mark.pointer;
        match &t.kind {
            TokenKind::FlowSequenceStart => assert_eq!((buffer[s], e), ('[', s + 1)),
            TokenKind::FlowSequenceEnd => assert_eq!((buffer[s], e), (']', s + 1)),
            TokenKind::FlowMappingStart => assert_eq!((buffer[s], e), ('{', s + 1)),
            TokenKind::FlowMappingEnd => assert_eq!((buffer[s], e), ('}', s + 1)),
            TokenKind::FlowEntry => assert_eq!((buffer[s], e), (',', s + 1)),
            TokenKind::BlockEntry => assert_eq!((buffer[s], e), ('-', s + 1)),
            TokenKind::Value => assert_eq!((buffer[s], e), (':', s + 1)),
            TokenKind::Key => assert!(s == e || (buffer[s] == '?' && e == s + 1)),
            TokenKind::DocumentStart => assert_eq!(buffer[s..e].iter().collect::<String>(), "---"),
            TokenKind::DocumentEnd => assert_eq!(buffer[s..e].iter().collect::<String>(), "..."),
            TokenKind::Anchor(v) => assert_eq!((buffer[s], buffer[s + 1..e].iter().collect::<String>()), ('&', v.clone())),
            TokenKind::Alias(v) => assert_eq!((buffer[s], buffer[s + 1..e].iter().collect::<String>()), ('*', v.clone())),
            TokenKind::Tag { .. } => assert_eq!(buffer[s], '!'),
            TokenKind::Directive { .. } => assert_eq!(buffer[s], '%'),
            TokenKind::Scalar { plain, style, .. } => {
                assert_eq!(*plain, style.is_none());
                if let Some(c) = style {
                    assert_eq!(buffer[s], *c);
                    if *c == '\'' || *c == '"' {
                        assert!(e >= s + 2);
                        assert_eq!(buffer[e - 1], *c);
                    }
                }
            }
            _ => assert_eq!(s, e),
        }
    }
    assert!(tokens.iter().any(|t| matches!(t.kind, TokenKind::Anchor(_))));
    assert!(tokens.iter().any(|t| matches!(t.kind, TokenKind::DocumentEnd)));
}

#[test]
fn test_event_debug_text_matches_debug() {
    let events = vec![
        Event::StreamStart,
        Event::DocumentEnd,
        Event::Alias { value: "x\"y".to_string(), mark: Mark { pointer: 12, line: 3, column: 0 } },
        Event::Scalar {
            value: "a\nb".to_string(),
            plain: false,
            style: Some('\''),
            anchor: Some("k".to_string()),
            tag: None,
        },
        Event::SequenceStart { anchor: None, tag: Some("!!seq".to_string()) },
        Event::MappingStart { anchor: None, tag: None },
        Event::MappingEnd,
    ];
    for e in events {
        assert_eq!(event_debug_text(&e), format!("{:?}", e));
    }
}

#[test]
fn test_scanner_keeps_returning_its_error() {
    let mut s = Scanner::new("a: b: c");
    let first = loop {
        match s.get_token() {
            Ok(Some(_)) => {}
            Ok(None) => panic!("no error"),
            Err(e) => break e,
        }
    };
    assert_eq!(first.problem, "mapping values are not allowed here");
    for _ in 0..3 {
        let again = s.get_token().expect_err("the same error");
        assert_eq!(again.problem, first.problem);
        assert_eq!(again.problem_mark, first.problem_mark);
    }
}

#[test]
fn test_parse_events_plain_scalar_then_none() {
    let mut parser = Parser::new("a");
    assert_eq!(parser.next_event().unwrap(), Some(Event::StreamStart));
    assert_eq!(parser.next_event().unwrap(), Some(Event::DocumentStart));
    assert_eq!(
        parser.next_event().unwrap(),
        Some(Event::Scalar {
            value: "a".to_string(),
            plain: true,
            style: None,
            anchor: None,
            tag: None
        })
    );
    assert_eq!(parser.next_event().unwrap(), Some(Event::DocumentEnd));
    assert_eq!(parser.next_event().unwrap(), Some(Event::StreamEnd));
    assert_eq!(parser.next_event().unwrap(), None);
    assert_eq!(parser.next_event().unwrap(), None);
}

#[test]
fn test_check_syntax_flow_sequence_marks() {
    let e = Parser::check_syntax("key: [a").expect("an error");
    assert_eq!(e.problem, "expected ',' or ']', but got '<stream end>'");
    assert_eq!(e.context.as_deref(), Some("while parsing a flow sequence"));
    assert_eq!(e.context_mark, Some(Mark { pointer: 5, line: 0, column: 5 }));
    assert_eq!(e.problem_mark, Some(Mark { pointer: 7, line: 0, column: 7 }));
    assert!(Parser::check_syntax("key: [a]\n").is_none());
}

#[test]
fn test_check_syntax_nested_mapping_value() {
    let e = Parser::check_syntax("a: b: c").expect("an error");
    assert_eq!(e.problem, "mapping values are not allowed here");
    assert!(e.context.is_none());
    assert_eq!(e.problem_mark, Some(Mark { pointer: 4, line: 0, column: 4 }));
}

#[test]
fn test_scan_all_simple_mapping() {
    let (t, e, b) = Scanner::scan_all("a: 1");
    assert!(e.is_none());
    assert_eq!(b, vec!['a', ':', ' ', '1', '\0']);
    let kinds: Vec<TokenKind> = t.into_iter().map(|x| x.kind).collect();
    assert_eq!(
        kinds,
        vec![
            TokenKind::StreamStart,
            TokenKind::BlockMappingStart,
            TokenKind::Key,
            scalar("a", true, None),
            TokenKind::Value,
            scalar("1", true, None),
            TokenKind::BlockEnd,
            TokenKind::StreamEnd,
        ]
    );
}

#[test]
fn test_scan_block_scalar_keep_chomping() {
    let k = kinds("x: |+\n  a\n\n");
    assert_eq!(k[5], scalar("a\n\n", false, Some('|')));
}

#[test]
fn test_scan_folded_block_scalar_empty_line() {
    let k = kinds("x: >\n  a\n\n  b\n");
    assert_eq!(k[5], scalar("a\nb\n", false, Some('>')));
}

#[test]
fn test_scan_block_scalar_indentation_indicator() {
    let k = kinds("x: |2\n   a\n");
    assert_eq!(k[5], scalar(" a\n", false, Some('|')));
}

#[test]
fn test_scan_folded_block_scalar_more_indented() {
    let k = kinds("x: >\n  a\n   b\n  c\n");
    assert_eq!(k[5], scalar("a\n b\nc\n", false, Some('>')));
}

#[test]
fn test_scan_plain_scalar_empty_line_folding() {
    let k = kinds("k: a\n\n  b\n");
    assert_eq!(k[5], scalar("a\nb", true, None));
}

#[test]
fn test_scan_plain_scalar_inner_spaces_kept() {
    let k = kinds("a  b   c");
    assert_eq!(k[1], scalar("a  b   c", true, None));
}

#[test]
fn test_scan_single_quoted_folding_and_quote() {
    let k = kinds("'it''s\n\n  here'");
    assert_eq!(k[1], scalar("it's\nhere", false, Some('\'')));
}

#[test]
fn test_scan_double_quoted_escaped_break() {
    let k = kinds("\"a\\\n   b \\x41\"");
    assert_eq!(k[1], scalar("ab A", false, Some('"')));
}

#[test]
fn test_scan_all_empty_input() {
    let (t, e, b) = Scanner::scan_all("");
    assert!(e.is_none());
    assert_eq!(b, vec!['\0']);
    let kinds: Vec<TokenKind> = t.into_iter().map(|x| x.kind).collect();
    assert_eq!(kinds, vec![TokenKind::StreamStart, TokenKind::StreamEnd]);
}

#[test]
fn test_check_syntax_leading_flow_closer() {
    for content in ["]", "} a", ", b"] {
        let e = Parser::check_syntax(content).expect("an error");
        assert_eq!(e.problem_mark, Some(Mark { pointer: 0, line: 0, column: 0 }));
        assert_eq!(e.context.as_deref(), Some("while parsing a block node"));
    }
}
