use celo::compiler::lexer::{is_identifier, Lexer, LexerErrorKind};
use celo::compiler::error::Error;
use celo::compiler::source::{Location, Source, TokenKind};

fn source_of(text: &str) -> Source {
    Source::new("test.celo".to_string(), text.as_bytes().to_vec())
}

fn lex_all(text: &str) -> Vec<(TokenKind, u32, u32)> {
    let mut lexer = Lexer::new(source_of(text));
    let mut out = Vec::new();
    loop {
        match lexer.peek_token().expect("lexing failed") {
            None => break,
            Some(token) => {
                out.push((token.kind, token.location.start, token.location.end));
                lexer.consume_token().expect("consume failed");
            }
        }
    }
    out
}

fn lex_error(text: &str) -> (LexerErrorKind, Location) {
    let mut lexer = Lexer::new(source_of(text));
    loop {
        match lexer.peek_token() {
            Ok(Some(_)) => lexer.consume_token().expect("consume failed"),
            Ok(None) => panic!("expected a lexical error"),
            Err(Error::Lexer(e)) => return (e.kind, e.location),
            Err(_) => panic!("expected a lexical error"),
        }
    }
}

#[test]
fn brackets_and_literals() {
    let tokens = lex_all("( ) [ ] { } 12 3.5 \"hi\"");
    let kinds: Vec<TokenKind> = tokens.iter().map(|t| t.0).collect();
    assert_eq!(
        kinds,
        vec![
            TokenKind::LeftParen,
            TokenKind::RightParen,
            TokenKind::LeftSquare,
            TokenKind::RightSquare,
            TokenKind::LeftCurly,
            TokenKind::RightCurly,
            TokenKind::Integer,
            TokenKind::Float,
            TokenKind::String,
        ]
    );
    assert_eq!(tokens[6], (TokenKind::Integer, 12, 14));
    assert_eq!(tokens[7], (TokenKind::Float, 15, 18));
    assert_eq!(tokens[8], (TokenKind::String, 19, 23));
}

#[test]
fn identifiers_and_keyword() {
    let tokens = lex_all("foo .bar baz! -> ->x -5 -foo -");
    let kinds: Vec<TokenKind> = tokens.iter().map(|t| t.0).collect();
    assert_eq!(
        kinds,
        vec![
            TokenKind::Identifier,
            TokenKind::DotIdentifier,
            TokenKind::BangIdentifier,
            TokenKind::RightArrow,
            TokenKind::Identifier,
            TokenKind::Integer,
            TokenKind::Identifier,
            TokenKind::Identifier,
        ]
    );
    // the keyword table reclassifies exactly the text `->`
    assert_eq!(tokens[3], (TokenKind::RightArrow, 14, 16));
    assert_eq!(tokens[4], (TokenKind::Identifier, 17, 20));
}

// A string literal lexes to one token spanning the full literal,
// escape bytes included.
#[test]
fn string_with_escape_spans_full_literal() {
    let tokens = lex_all("\"a\\nb\"");
    assert_eq!(tokens, vec![(TokenKind::String, 0, 6)]);
}

// An unrecognized escape fails with InvalidEscapeSequence pointing at
// the offending character.
#[test]
fn string_with_bad_escape_fails() {
    let (kind, location) = lex_error("\"a\\qb\"");
    assert_eq!(kind, LexerErrorKind::InvalidEscapeSequence);
    // the one-byte range of the `q` itself
    assert_eq!((location.start, location.end), (3, 4));
}

#[test]
fn unterminated_string_is_invalid_eof() {
    let (kind, location) = lex_error("\"abc");
    assert_eq!(kind, LexerErrorKind::InvalidEof);
    assert_eq!(location.start, 0);
    assert_eq!(location.end, 4);
}

#[test]
fn dot_inside_identifier_is_invalid() {
    let (kind, _) = lex_error("a.b");
    assert_eq!(kind, LexerErrorKind::InvalidCharacter);
}

#[test]
fn character_after_bang_is_invalid() {
    let (kind, _) = lex_error("mac!x");
    assert_eq!(kind, LexerErrorKind::InvalidCharacter);
}

#[test]
fn second_decimal_point_is_invalid() {
    let (kind, _) = lex_error("1.2.3");
    assert_eq!(kind, LexerErrorKind::InvalidCharacter);
}

#[test]
fn stray_character_is_invalid() {
    let (kind, location) = lex_error("  '");
    assert_eq!(kind, LexerErrorKind::InvalidCharacter);
    assert_eq!((location.start, location.end), (2, 3));
}

// Token coverage is total: the substrings covered by consecutive tokens,
// with whitespace and comments skipped in between, reconstruct exactly
// the non-whitespace, non-comment source text.
#[test]
fn token_coverage_reconstructs_source() {
    let text = "ab ; note\n 12 \"s\" .x";
    let tokens = lex_all(text);
    let mut pieces = Vec::new();
    let mut previous_end = 0u32;
    for &(_, start, end) in &tokens {
        assert!(previous_end <= start);
        // the gap holds only whitespace and comment bytes
        let bytes = text.as_bytes();
        let mut i = previous_end as usize;
        while i < start as usize {
            if bytes[i] == b';' {
                while i < start as usize && bytes[i] != b'\n' {
                    i += 1;
                }
            } else {
                assert!(bytes[i].is_ascii_whitespace());
                i += 1;
            }
        }
        pieces.push(&text[start as usize..end as usize]);
        previous_end = end;
    }
    assert_eq!(pieces, vec!["ab", "12", "\"s\"", ".x"]);
}

#[test]
fn comment_is_not_part_of_a_token() {
    let tokens = lex_all("; leading comment\nfoo");
    assert_eq!(tokens, vec![(TokenKind::Identifier, 18, 21)]);
}

#[test]
fn lines_and_columns_count_from_one() {
    let mut lexer = Lexer::new(source_of("a\n  b"));
    let first = lexer.peek_token().unwrap().unwrap();
    assert_eq!((first.location.line, first.location.column), (1, 1));
    lexer.consume_token().unwrap();
    let second = lexer.peek_token().unwrap().unwrap();
    assert_eq!((second.location.line, second.location.column), (2, 3));
}

#[test]
fn empty_input_has_no_tokens() {
    assert_eq!(lex_all(""), vec![]);
    assert_eq!(lex_all(" \t\n; only a comment"), vec![]);
}

#[test]
fn peeking_is_idempotent() {
    let mut lexer = Lexer::new(source_of("one two"));
    let a = lexer.peek_token().unwrap().unwrap();
    let b = lexer.peek_token().unwrap().unwrap();
    assert_eq!(a, b);
    lexer.consume_token().unwrap();
    let c = lexer.peek_token().unwrap().unwrap();
    assert!(c.location.start > a.location.end - 1);
}

#[test]
fn source_index_yields_covered_substring() {
    let source = source_of("fn! main {}");
    let location = Location { start: 4, end: 8, line: 1, column: 5 };
    assert_eq!(source.index(location), b"main");
}

// Unicode-alphabetic characters continue identifiers; other non-ASCII
// characters do not and are invalid outside strings and comments.
#[test]
fn alphabetic_unicode_joins_identifiers() {
    // "héllo" is six bytes: the accented letter takes two
    let tokens = lex_all("h\u{e9}llo .\u{e9}t\u{e9}");
    assert_eq!(
        tokens,
        vec![(TokenKind::Identifier, 0, 6), (TokenKind::DotIdentifier, 7, 13)]
    );
}

#[test]
fn nonalphabetic_unicode_is_invalid() {
    // the error spans the whole offending character
    let (kind, location) = lex_error("\u{a9}");
    assert_eq!(kind, LexerErrorKind::InvalidCharacter);
    assert_eq!((location.start, location.end), (0, 2));
    let (kind, location) = lex_error("\u{2603}");
    assert_eq!(kind, LexerErrorKind::InvalidCharacter);
    assert_eq!((location.start, location.end), (0, 3));
}

#[test]
fn nonalphabetic_unicode_ends_an_identifier() {
    let (kind, location) = lex_error("abc\u{2603}");
    assert_eq!(kind, LexerErrorKind::InvalidCharacter);
    assert_eq!(location.start, 3);
    let mut lexer = Lexer::new(source_of("abc\u{2603}"));
    let first = lexer.peek_token().unwrap().unwrap();
    assert_eq!(
        (first.kind, first.location.start, first.location.end),
        (TokenKind::Identifier, 0, 3)
    );
}

#[test]
fn identifier_predicate_follows_unicode() {
    assert!(is_identifier('\u{e9}', true));
    assert!(is_identifier('a', true));
    assert!(!is_identifier('1', true));
    assert!(is_identifier('1', false));
    assert!(is_identifier('+', true));
    assert!(!is_identifier('\u{a9}', true));
    assert!(!is_identifier('\u{2603}', false));
}

// span(a, b) keeps the first location's start, line and column and takes
// the second's end, for any two locations.
#[test]
fn span_combines_two_locations() {
    let a = Location { start: 3, end: 7, line: 2, column: 4 };
    let b = Location { start: 10, end: 19, line: 5, column: 1 };
    let s = a.span_to(b);
    assert_eq!(s, Location { start: 3, end: 19, line: 2, column: 4 });
}
