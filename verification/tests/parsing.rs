use celo::compiler::error::Error;
use celo::compiler::hir::NodeKind;
use celo::compiler::parser::{ParseHirStep, ParserErrorKind};
use celo::compiler::source::{Source, TokenKind};
use celo::compiler::Compiler;

fn source_of(text: &str) -> Source {
    Source::new("test.celo".to_string(), text.as_bytes().to_vec())
}

fn step_over<'a>(compiler: &'a Compiler, text: &str) -> ParseHirStep<'a> {
    ParseHirStep::new(compiler, source_of(text))
}

fn parser_error(result_error: Error) -> (ParserErrorKind, Option<(u32, u32)>) {
    match result_error {
        Error::Parser(e) => (e.kind, e.location.map(|l| (l.start, l.end))),
        _ => panic!("expected a structural error"),
    }
}

// An unterminated scope is UnclosedScope, anchored at the opening brace.
#[test]
fn unterminated_scope_is_unclosed_scope() {
    let compiler = Compiler::new(source_of(""));
    let mut step = step_over(&compiler, "{ 1 2");
    let (kind, location) = parser_error(step.parse_scope().unwrap_err());
    assert_eq!(kind, ParserErrorKind::UnclosedScope);
    assert_eq!(location, Some((0, 1)));
}

#[test]
fn unterminated_group_is_unclosed_scope() {
    let compiler = Compiler::new(source_of(""));
    let mut step = step_over(&compiler, "( 1 2");
    let (kind, location) = parser_error(step.parse_group().unwrap_err());
    assert_eq!(kind, ParserErrorKind::UnclosedScope);
    assert_eq!(location, Some((0, 1)));
}

#[test]
fn mismatched_delimiter_is_unexpected_token() {
    let compiler = Compiler::new(source_of(""));
    let mut step = step_over(&compiler, "{ 1 )");
    let (kind, location) = parser_error(step.parse_scope().unwrap_err());
    assert_eq!(
        kind,
        ParserErrorKind::UnexpectedToken {
            expected: Some(TokenKind::RightCurly),
            got: TokenKind::RightParen,
        }
    );
    assert_eq!(location, Some((4, 5)));
}

#[test]
fn missing_open_brace_is_unexpected_eof() {
    let compiler = Compiler::new(source_of(""));
    let mut step = step_over(&compiler, "  ");
    let (kind, location) = parser_error(step.parse_scope().unwrap_err());
    assert_eq!(kind, ParserErrorKind::UnexpectedEof { expected: Some(TokenKind::LeftCurly) });
    assert_eq!(location, None);
}

// `-> .x` parses to an Assignment node spanning from the arrow's start
// to the variable's end.
#[test]
fn arrow_then_variable_is_assignment() {
    let compiler = Compiler::new(source_of(""));
    let mut step = step_over(&compiler, "-> .x");
    let node = step.parse_node().unwrap().unwrap();
    assert_eq!((node.location.start, node.location.end), (0, 5));
    match node.kind {
        NodeKind::Assignment(a) => {
            assert_eq!((a.arrow.start, a.arrow.end), (0, 2));
            assert_eq!((a.variable.start, a.variable.end), (3, 5));
        }
        _ => panic!("expected an assignment node"),
    }
}

#[test]
fn arrow_without_variable_is_unexpected_token() {
    let compiler = Compiler::new(source_of(""));
    let mut step = step_over(&compiler, "-> 5");
    let (kind, _) = parser_error(step.parse_node().unwrap_err());
    assert_eq!(
        kind,
        ParserErrorKind::UnexpectedToken {
            expected: Some(TokenKind::DotIdentifier),
            got: TokenKind::Integer,
        }
    );
}

// Sibling nodes come back with strictly increasing, non-overlapping
// locations, at every nesting level.
#[test]
fn scope_nodes_are_ordered_and_nonoverlapping() {
    let compiler = Compiler::new(source_of(""));
    let mut step = step_over(&compiler, "{ 1 2.5 (add .x \"s\") -> .y call }");
    let scope = step.parse_scope().unwrap();
    assert_eq!((scope.start.start, scope.start.end), (0, 1));
    assert_eq!((scope.end.start, scope.end.end), (32, 33));
    assert_eq!(scope.code.len(), 5);
    let mut previous_end = scope.start.end;
    for node in &scope.code {
        assert!(previous_end <= node.location.start);
        assert!(node.location.start < node.location.end);
        previous_end = node.location.end;
    }
    assert!(previous_end <= scope.end.start);
    match &scope.code[2].kind {
        NodeKind::Group(group) => {
            assert_eq!(group.nodes.len(), 3);
            let mut previous_end = group.left_paren.end;
            for node in &group.nodes {
                assert!(previous_end <= node.location.start);
                assert!(node.location.start < node.location.end);
                previous_end = node.location.end;
            }
            assert!(previous_end <= group.right_paren.start);
            assert!(matches!(group.nodes[0].kind, NodeKind::Call));
            assert!(matches!(group.nodes[1].kind, NodeKind::Variable));
            assert!(matches!(group.nodes[2].kind, NodeKind::String));
        }
        _ => panic!("expected a group node"),
    }
    assert!(matches!(scope.code[0].kind, NodeKind::Integer));
    assert!(matches!(scope.code[1].kind, NodeKind::Float));
    assert!(matches!(scope.code[3].kind, NodeKind::Assignment(_)));
    assert!(matches!(scope.code[4].kind, NodeKind::Call));
}

#[test]
fn group_node_spans_its_delimiters() {
    let compiler = Compiler::new(source_of(""));
    let mut step = step_over(&compiler, "( 7 )");
    let node = step.parse_node().unwrap().unwrap();
    assert_eq!((node.location.start, node.location.end), (0, 5));
    assert!(matches!(node.kind, NodeKind::Group(_)));
}

// Reserved forms in expression position fail loudly instead of being
// silently misparsed.
#[test]
fn reserved_forms_fail_loudly() {
    for text in ["[", "{", "mac!"] {
        let compiler = Compiler::new(source_of(""));
        let mut step = step_over(&compiler, text);
        let (kind, _) = parser_error(step.parse_node().unwrap_err());
        assert!(matches!(kind, ParserErrorKind::UnexpectedToken { expected: None, got: _ }));
    }
}

#[test]
fn closing_delimiter_is_not_consumed() {
    let compiler = Compiler::new(source_of(""));
    let mut step = step_over(&compiler, ") 1");
    assert!(step.parse_node().unwrap().is_none());
    // still there: a second call sees the same delimiter
    assert!(step.parse_node().unwrap().is_none());
}
