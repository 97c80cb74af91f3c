//! The built-in syntax extensions. These populate the root namespace
//! before any source is parsed; the set of expansion routines a registry
//! entry can name is the closed enum `MacroHandler`.

use vstd::prelude::*;

use super::error::Error;
use super::hir::Function;
use super::parser::{advances, function_matches, parse_failure, spec_macro_fn, FnStep, MacroHandler, ParseHirStep};
use super::source::TokenKind;

verus! {

/// What the installed root namespace resolves: exactly the name `fn`,
/// bound to the built-in function-defining form.
pub open spec fn builtin_resolve(name: Seq<u8>) -> Option<MacroHandler> {
    if name == seq![0x66u8, 0x6eu8] {
        Some(MacroHandler::Function)
    } else {
        None
    }
}

/// Installs the built-in extensions into the root namespace: the
/// function-defining form, under the name `fn`.
pub fn init(step: &mut ParseHirStep)
    ensures
        final(step).root_scope.handlers@.len() == old(step).root_scope.handlers@.len() + 1,
        final(step).root_scope.handlers@.last().0@ == seq![0x66u8, 0x6eu8],
        final(step).root_scope.handlers@.last().1 == MacroHandler::Function,
        final(step).root_scope.handlers@.drop_last() == old(step).root_scope.handlers@,
        final(step).lexer == old(step).lexer,
        final(step).macro_scopes@ == old(step).macro_scopes@,
        final(step).hir == old(step).hir,
        final(step).current_module == old(step).current_module,
        final(step).source_queue@ == old(step).source_queue@,
        final(step).compiler == old(step).compiler,
        final(step).wf() == old(step).wf(),
{
    let mut name: Vec<u8> = Vec::new();
    name.push(0x66);
    name.push(0x6e);
    proof {
        assert(name@ =~= seq![0x66u8, 0x6eu8]);
        assert(old(step).root_scope.handlers@.push((name, MacroHandler::Function)).drop_last()
            =~= old(step).root_scope.handlers@);
    }
    step.add_root_macro(name, MacroHandler::Function);
}

/// The built-in `fn` extension: `fn! name { body }`. It reads the
/// function's name and its braced body, and appends to the current module
/// a function spanning from the name to the body's closing brace.
pub fn macro_fn(step: &mut ParseHirStep) -> (r: Result<(), Error>)
    requires
        old(step).wf(),
        old(step).current_module < old(step).hir.modules@.len(),
        old(step).hir.modules@[old(step).current_module as int].source.content@ == old(step).lexer.content(),
    ensures
        final(step).wf(),
        final(step).lexer.source == old(step).lexer.source,
        final(step).root_scope == old(step).root_scope,
        final(step).macro_scopes@ == old(step).macro_scopes@,
        final(step).current_module == old(step).current_module,
        final(step).source_queue@ == old(step).source_queue@,
        final(step).compiler == old(step).compiler,
        final(step).lexer.stream_pos() >= old(step).lexer.stream_pos(),
        final(step).hir.modules@.len() == old(step).hir.modules@.len(),
        forall|i: int| 0 <= i < old(step).hir.modules@.len() && i != old(step).current_module as int ==> final(step).hir.modules@[i] == old(step).hir.modules@[i],
        final(step).hir.modules@[old(step).current_module as int].source == old(step).hir.modules@[old(step).current_module as int].source,
        match r {
            Ok(u) => final(step).hir.modules@[old(step).current_module as int].functions@.len()
                == old(step).hir.modules@[old(step).current_module as int].functions@.len() + 1,
            Err(e) => final(step).hir == old(step).hir && !(e is Source),
        },
        match spec_macro_fn(old(step).lexer.content(), old(step).lexer.pending()) {
            FnStep::Fn { function, rest } => (r matches Ok(u)) && final(step).hir.modules@[
                old(step).current_module as int
            ].functions@ == old(step).hir.modules@[
                old(step).current_module as int
            ].functions@.push(final(step).hir.modules@[old(step).current_module as int].functions@.last())
                && function_matches(
                final(step).hir.modules@[old(step).current_module as int].functions@.last(),
                function,
            ) && final(step).lexer.pending() == rest && advances(
                old(step).lexer.content(),
                old(step).lexer.pending(),
                rest,
            ),
            FnStep::Failed { err } => parse_failure(r, old(step).lexer.source, err),
        },
{
    let name = match step.expect_token(TokenKind::Identifier) {
        Ok(t) => t.location,
        Err(e) => {
            return Err(e);
        },
    };
    proof {
        super::lexer::lemma_lex_wf(step.lexer.content(), step.lexer.cursor());
    }
    let scope = match step.parse_scope() {
        Ok(s) => s,
        Err(e) => {
            return Err(e);
        },
    };
    let location = name.span_to(scope.end);
    step.add_function(Function::new(location, name, scope));
    Ok(())
}

} // verus!
