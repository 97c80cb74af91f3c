//! The compiler frontend: source buffers, the lexer, the HIR builder with
//! its syntax-extension registry, and the error taxonomy.

pub mod error;
pub mod experimental;
pub mod hir;
pub mod lexer;
pub mod mir;
pub mod parser;
pub mod source;

use vstd::prelude::*;

use self::lexer::{lex, Cursor};
use self::parser::{function_matches, parse_failure, registry_resolver, spec_parse_module, ModuleStep};
use self::source::Source;

verus! {

/// One compile task over a single main source.
pub struct Compiler {
    pub main_source: Source,
}

impl Compiler {
    pub fn new(main_source: Source) -> (r: Self)
        ensures
            r.main_source == main_source,
    {
        Self { main_source }
    }

    /// Compiles the main source: installs the built-in extensions, runs
    /// the HIR-building step once, and returns the finished HIR — a
    /// non-empty, well-formed flat collection of modules.
    pub fn compile(&mut self) -> (r: Result<hir::Hir, error::Error>)
        requires
            old(self).main_source.wf(),
        ensures
            *final(self) == *old(self),
            match r {
                Ok(h) => h.wf() && h.modules@.len() >= 1 && h.modules@[0].source.path@ == old(
                    self,
                ).main_source.path@ && h.modules@[0].source.content@ == old(
                    self,
                ).main_source.content@,
                Err(e) => !(e is Source),
            },
            match spec_parse_module(
                old(self).main_source.content@,
                lex(old(self).main_source.content@, Cursor { pos: 0, line: 1, col: 1 }),
                (|name: Seq<u8>| experimental::builtin_resolve(name)),
            ) {
                ModuleStep::Module { functions, rest } => (r matches Ok(h) && h.modules@.len() == 1
                    && h.modules@[0].functions@.len() == functions.len() && (forall|i: int|
                    0 <= i < functions.len() ==> function_matches(
                        #[trigger] h.modules@[0].functions@[i],
                        functions[i],
                    ))),
                ModuleStep::Failed { err } => parse_failure(r, old(self).main_source, err),
            },
    {
        let source = self.main_source.clone();
        let mut hir_step = parser::ParseHirStep::new(self, source);
        experimental::init(&mut hir_step);
        proof {
            let f1 = registry_resolver(hir_step.root_scope, hir_step.macro_scopes@);
            let f2 = |name: Seq<u8>| experimental::builtin_resolve(name);
            assert(hir_step.root_scope.handlers@.drop_last() =~= Seq::<(
                Vec<u8>,
                parser::MacroHandler,
            )>::empty());
            assert forall|name: Seq<u8>| #[trigger] f1(name) == f2(name) by {
                if name != seq![0x66u8, 0x6eu8] {
                    assert(parser::MacroScope::spec_resolve(
                        hir_step.root_scope.handlers@.drop_last(),
                        name,
                    ) is None);
                    assert(parser::MacroScope::spec_resolve(hir_step.root_scope.handlers@, name)
                        is None);
                    assert(parser::resolve_in_stack(hir_step.macro_scopes@, name) is None);
                }
            }
            assert(f1 =~= f2);
        }
        hir_step.run()
    }
}

} // verus!
