use celo::compiler::error::Error;
use celo::compiler::parser::{MacroHandler, MacroScope, ParseHirStep, ParserErrorKind};
use celo::compiler::source::{Source, SourceError, SourceErrorKind};
use celo::compiler::Compiler;
use celo::compiler::experimental;

fn source_of(text: &str) -> Source {
    Source::new("test.celo".to_string(), text.as_bytes().to_vec())
}

fn compile(text: &str) -> Result<celo::compiler::hir::Hir, Error> {
    let mut compiler = Compiler::new(source_of(text));
    compiler.compile()
}

#[test]
fn one_function_compiles() {
    let hir = compile("fn! main { 1 2 }").unwrap();
    assert_eq!(hir.modules.len(), 1);
    let module = &hir.modules[0];
    assert_eq!(module.functions.len(), 1);
    let function = &module.functions[0];
    assert_eq!(module.source.index(function.name), b"main");
    // the function spans from its name to the body's closing brace
    assert_eq!((function.location.start, function.location.end), (4, 16));
    assert_eq!(function.body.code.len(), 2);
}

#[test]
fn two_functions_compile_in_order() {
    let hir = compile("fn! one {} fn! two { .x }").unwrap();
    assert_eq!(hir.modules.len(), 1);
    let module = &hir.modules[0];
    assert_eq!(module.functions.len(), 2);
    assert_eq!(module.source.index(module.functions[0].name), b"one");
    assert_eq!(module.source.index(module.functions[1].name), b"two");
    assert_eq!(module.functions[1].body.code.len(), 1);
}

#[test]
fn empty_source_compiles_to_empty_module() {
    let hir = compile("  ; nothing here\n").unwrap();
    assert_eq!(hir.modules.len(), 1);
    assert_eq!(hir.modules[0].functions.len(), 0);
}

// An invocation of an unregistered extension is UnknownMacro at the
// bang token's location.
#[test]
fn unknown_extension_fails_at_its_token() {
    match compile("foo! {}").unwrap_err() {
        Error::Parser(e) => {
            assert_eq!(e.kind, ParserErrorKind::UnknownMacro);
            let location = e.location.unwrap();
            assert_eq!((location.start, location.end), (0, 4));
        }
        _ => panic!("expected a structural error"),
    }
}

#[test]
fn function_without_body_fails() {
    match compile("fn! main").unwrap_err() {
        Error::Parser(e) => {
            assert!(matches!(e.kind, ParserErrorKind::UnexpectedEof { .. }));
        }
        _ => panic!("expected a structural error"),
    }
}

#[test]
fn unterminated_function_body_is_unclosed_scope() {
    match compile("fn! main { 1 2").unwrap_err() {
        Error::Parser(e) => {
            assert_eq!(e.kind, ParserErrorKind::UnclosedScope);
            // anchored at the opening brace
            assert_eq!(e.location.map(|l| (l.start, l.end)), Some((9, 10)));
        }
        _ => panic!("expected a structural error"),
    }
}

#[test]
fn lexical_error_aborts_the_module() {
    match compile("fn! main { \"a\\qb\" }").unwrap_err() {
        Error::Lexer(_) => {}
        _ => panic!("expected a lexical error"),
    }
}

// The root namespace cannot be shadowed: a local binding under a name
// that the root holds never changes what the name resolves to.
#[test]
fn local_binding_cannot_shadow_root() {
    let compiler = Compiler::new(source_of(""));
    let mut step = ParseHirStep::new(&compiler, source_of(""));
    experimental::init(&mut step);
    assert_eq!(step.resolve_macro(b"fn"), Some(MacroHandler::Function));
    step.macro_scopes.push(MacroScope::new());
    step.add_local_macro(b"fn".to_vec(), MacroHandler::Function);
    assert_eq!(step.resolve_macro(b"fn"), Some(MacroHandler::Function));
    step.macro_scopes.pop();
    assert_eq!(step.resolve_macro(b"fn"), Some(MacroHandler::Function));
}

#[test]
fn local_binding_resolves_and_expires_with_its_scope() {
    let compiler = Compiler::new(source_of(""));
    let mut step = ParseHirStep::new(&compiler, source_of(""));
    assert_eq!(step.resolve_macro(b"deffn"), None);
    step.macro_scopes.push(MacroScope::new());
    step.add_local_macro(b"deffn".to_vec(), MacroHandler::Function);
    assert_eq!(step.resolve_macro(b"deffn"), Some(MacroHandler::Function));
    step.macro_scopes.pop();
    assert_eq!(step.resolve_macro(b"deffn"), None);
}

// A name bound only in an outer local namespace stays visible while inner
// namespaces are pushed, and popping the inner namespace does not lose it;
// which binding wins on a clash is fixed by the proved resolution order.
#[test]
fn outer_binding_visible_under_inner_scope() {
    let compiler = Compiler::new(source_of(""));
    let mut step = ParseHirStep::new(&compiler, source_of(""));
    step.macro_scopes.push(MacroScope::new());
    step.add_local_macro(b"outer".to_vec(), MacroHandler::Function);
    step.macro_scopes.push(MacroScope::new());
    assert_eq!(step.resolve_macro(b"outer"), Some(MacroHandler::Function));
    assert_eq!(step.resolve_macro(b"inner"), None);
    step.add_local_macro(b"inner".to_vec(), MacroHandler::Function);
    assert_eq!(step.resolve_macro(b"inner"), Some(MacroHandler::Function));
    step.macro_scopes.pop();
    assert_eq!(step.resolve_macro(b"inner"), None);
    assert_eq!(step.resolve_macro(b"outer"), Some(MacroHandler::Function));
}

#[test]
fn source_error_carries_its_path() {
    let error = SourceError {
        path: "missing.celo".to_string(),
        kind: SourceErrorKind::FileNotFound,
    };
    assert_eq!(error.path, "missing.celo");
    assert!(matches!(error.kind, SourceErrorKind::FileNotFound));
    let other = SourceErrorKind::IoError("interrupted".to_string());
    assert!(matches!(other, SourceErrorKind::IoError(_)));
}
