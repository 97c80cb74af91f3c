//! The parser / HIR builder: it drives the lexer and the syntax-extension
//! registry to construct the HIR tree, and owns the in-progress compile's
//! mutable state.

use std::collections::VecDeque;
use vstd::prelude::*;
use vstd::slice::{slice_index_get, slice_subrange};

use super::error::Error;
use super::experimental;

use super::hir::{nodes_ordered, nodes_wf, Assignment, Function, Group, Hir, Module, Node, NodeKind, Scope};
use super::lexer::{lex, lex_failure, LexStep, Lexer, LexerErrorKind};
use super::source::{Location, Source, Token, TokenKind};
use super::Compiler;

verus! {

/// A structural error met while building the HIR.
#[derive(Debug)]
pub struct ParserError {
    pub source: Source,
    pub location: Option<Location>,
    pub kind: ParserErrorKind,
}

#[derive(Debug, PartialEq, Eq, Clone, Copy)]
pub enum ParserErrorKind {
    UnclosedScope,
    UnexpectedToken { expected: Option<TokenKind>, got: TokenKind },
    UnexpectedEof { expected: Option<TokenKind> },
    UnknownMacro,
}

/// `r` is the structural error `kind` at `location`, citing `source`.
pub open spec fn parser_failure<T>(
    r: Result<T, Error>,
    source: Source,
    kind: ParserErrorKind,
    location: Option<Location>,
) -> bool {
    r matches Err(Error::Parser(e)) && e.kind == kind && e.location == location
        && e.source.path@ == source.path@ && e.source.content@ == source.content@
}

/// The closed set of syntax-extension capabilities that a registry entry
/// can dispatch to. Each variant names one expansion routine; `Function`
/// is the built-in function-defining form.
#[derive(Debug, PartialEq, Eq, Structural, Clone, Copy)]
pub enum MacroHandler {
    Function,
}

/// One namespace of the syntax-extension registry: an ordered mapping
/// from names (byte strings) to handlers; a later entry for the same name
/// overrides an earlier one.
pub struct MacroScope {
    pub handlers: Vec<(Vec<u8>, MacroHandler)>,
}

impl MacroScope {
    /// Lookup in an ordered mapping: the most recently added binding of
    /// the name wins.
    pub open spec fn spec_resolve(
        handlers: Seq<(Vec<u8>, MacroHandler)>,
        name: Seq<u8>,
    ) -> Option<MacroHandler>
        decreases handlers.len(),
    {
        if handlers.len() == 0 {
            None
        } else if handlers.last().0@ == name {
            Some(handlers.last().1)
        } else {
            Self::spec_resolve(handlers.drop_last(), name)
        }
    }

    pub fn new() -> (r: Self)
        ensures
            r.handlers@.len() == 0,
    {
        Self { handlers: Vec::new() }
    }

    pub fn add(&mut self, name: Vec<u8>, handler: MacroHandler)
        ensures
            final(self).handlers@ == old(self).handlers@.push((name, handler)),
    {
        self.handlers.push((name, handler));
    }

    pub fn resolve(&self, name: &[u8]) -> (r: Option<MacroHandler>)
        ensures
            r == Self::spec_resolve(self.handlers@, name@),
    {
        let mut i = self.handlers.len();
        proof {
            assert(self.handlers@.take(self.handlers@.len() as int) =~= self.handlers@);
        }
        loop
            invariant
                i <= self.handlers@.len(),
                Self::spec_resolve(self.handlers@, name@) == Self::spec_resolve(
                    self.handlers@.take(i as int),
                    name@,
                ),
            ensures
                i == 0,
                Self::spec_resolve(self.handlers@, name@) == Self::spec_resolve(
                    self.handlers@.take(i as int),
                    name@,
                ),
            decreases i,
        {
            if i == 0 {
                break ;
            }
            i = i - 1;
            proof {
                assert(self.handlers@.take(i + 1int).last() == self.handlers@[i as int]);
                assert(self.handlers@.take(i + 1int).drop_last() =~= self.handlers@.take(i as int));
            }
            let entry = &self.handlers[i];
            if bytes_eq(entry.0.as_slice(), name) {
                return Some(entry.1);
            }
        }
        proof {
            assert(self.handlers@.take(0int) =~= Seq::<(Vec<u8>, MacroHandler)>::empty());
        }
        None
    }
}

impl Default for MacroScope {
    fn default() -> (r: Self)
        ensures
            r.handlers@.len() == 0,
    {
        Self { handlers: Vec::new() }
    }
}

/// Byte-string equality.
fn bytes_eq(a: &[u8], b: &[u8]) -> (r: bool)
    ensures
        r == (a@ == b@),
{
    if a.len() != b.len() {
        assert(a@.len() != b@.len());
        return false;
    }
    let mut i: usize = 0;
    loop
        invariant
            i <= a@.len(),
            a@.len() == b@.len(),
            forall|j: int| 0 <= j < i ==> a@[j] == b@[j],
        ensures
            i == a@.len(),
            forall|j: int| 0 <= j < i ==> a@[j] == b@[j],
        decreases a@.len() - i,
    {
        if i == a.len() {
            break ;
        }
        if *slice_index_get(a, i) != *slice_index_get(b, i) {
            return false;
        }
        i = i + 1;
    }
    proof {
        assert(a@ =~= b@);
    }
    true
}

/// Resolution through the two-tier namespace: the root namespace always
/// wins; otherwise the local namespaces are searched from the innermost
/// (most recently pushed) outwards.
pub open spec fn resolve_two_tier(
    root: MacroScope,
    scopes: Seq<MacroScope>,
    name: Seq<u8>,
) -> Option<MacroHandler> {
    match MacroScope::spec_resolve(root.handlers@, name) {
        Some(h) => Some(h),
        None => resolve_in_stack(scopes, name),
    }
}

/// The registry's resolution, as a function of the name.
pub open spec fn registry_resolver(root: MacroScope, scopes: Seq<MacroScope>) -> spec_fn(Seq<u8>) -> Option<MacroHandler> {
    |name: Seq<u8>| resolve_two_tier(root, scopes, name)
}

pub open spec fn resolve_in_stack(scopes: Seq<MacroScope>, name: Seq<u8>) -> Option<MacroHandler>
    decreases scopes.len(),
{
    if scopes.len() == 0 {
        None
    } else {
        match MacroScope::spec_resolve(scopes.last().handlers@, name) {
            Some(h) => Some(h),
            None => resolve_in_stack(scopes.drop_last(), name),
        }
    }
}

/// Pushing an empty local namespace never changes what any name resolves to.
pub proof fn lemma_resolve_push_empty(scopes: Seq<MacroScope>, empty: MacroScope, name: Seq<u8>)
    requires
        empty.handlers@.len() == 0,
    ensures
        resolve_in_stack(scopes.push(empty), name) == resolve_in_stack(scopes, name),
{
    assert(scopes.push(empty).drop_last() =~= scopes);
}

/// Root entries cannot be shadowed: when a name is bound in the root
/// namespace, resolution returns the root binding whatever the local
/// namespace stack holds — in particular, registering a local extension
/// under that name never changes what the name resolves to.
pub proof fn lemma_root_entry_wins(
    root: MacroScope,
    scopes1: Seq<MacroScope>,
    scopes2: Seq<MacroScope>,
    name: Seq<u8>,
)
    requires
        MacroScope::spec_resolve(root.handlers@, name) is Some,
    ensures
        resolve_two_tier(root, scopes1, name) == MacroScope::spec_resolve(root.handlers@, name),
        resolve_two_tier(root, scopes1, name) == resolve_two_tier(root, scopes2, name),
{
}

/// The end of a macro name once every trailing `!` is removed.
pub open spec fn trimmed_end(content: Seq<u8>, start: int, end: int) -> int
    decreases end - start,
{
    if end > start && content[end - 1] == 0x21 {
        trimmed_end(content, start, end - 1)
    } else {
        end
    }
}

/// The name under which a bang-identifier token is resolved: its text
/// with the trailing `!` stripped.
pub open spec fn macro_name_spec(content: Seq<u8>, location: Location) -> Seq<u8> {
    content.subrange(location.start as int, trimmed_end(content, location.start as int, location.end as int))
}

/// A parse error as the model states it: a lexical failure or a
/// structural one.
pub enum ParseErr {
    Lexical { kind: LexerErrorKind, location: Location },
    Syntax { kind: ParserErrorKind, location: Option<Location> },
}

/// `r` failed exactly as the model's error says, citing `source`.
pub open spec fn parse_failure<T>(r: Result<T, Error>, source: Source, err: ParseErr) -> bool {
    match err {
        ParseErr::Lexical { kind, location } => lex_failure(r, source, kind, location),
        ParseErr::Syntax { kind, location } => parser_failure(r, source, kind, location),
    }
}

/// The position a pending scan step stands at: the start of its token,
/// or its cursor's offset.
pub open spec fn step_pos(step: LexStep) -> int {
    match step {
        LexStep::End { cur } => cur.pos,
        LexStep::Tok { token, cur } => token.location.start as int,
        LexStep::Fail { kind, location, cur } => cur.pos,
    }
}

/// One pending step strictly advances to the next, staying within the
/// content: every parsed construct satisfies it, and it makes the
/// parsing recursion below visibly well founded.
pub open spec fn advances(content: Seq<u8>, from: LexStep, to: LexStep) -> bool {
    0 <= step_pos(from) && step_pos(from) < step_pos(to) && step_pos(to) <= content.len()
}

/// The model of a parsed node: the tree a parse yields, with sequences in
/// place of vectors.
pub enum NodeModel {
    Integer { location: Location },
    Float { location: Location },
    String { location: Location },
    Call { location: Location },
    Variable { location: Location },
    Assignment { location: Location, arrow: Location, variable: Location },
    Group { location: Location, left_paren: Location, right_paren: Location, nodes: Seq<NodeModel> },
}

/// `n` is exactly the tree that the model `m` describes.
pub open spec fn node_matches(n: Node, m: NodeModel) -> bool
    decreases n,
{
    match m {
        NodeModel::Integer { location } => n.location == location && n.kind is Integer,
        NodeModel::Float { location } => n.location == location && n.kind is Float,
        NodeModel::String { location } => n.location == location && n.kind is String,
        NodeModel::Call { location } => n.location == location && n.kind is Call,
        NodeModel::Variable { location } => n.location == location && n.kind is Variable,
        NodeModel::Assignment { location, arrow, variable } => n.location == location && (
        n.kind matches NodeKind::Assignment(a) && a.arrow == arrow && a.variable == variable),
        NodeModel::Group { location, left_paren, right_paren, nodes } => n.location == location && (
        n.kind matches NodeKind::Group(g) && g.left_paren == left_paren && g.right_paren
            == right_paren && g.nodes@.len() == nodes.len() && forall|i: int|
            0 <= i < nodes.len() ==> node_matches(#[trigger] g.nodes@[i], nodes[i])),
    }
}

pub open spec fn nodes_match(ns: Seq<Node>, ms: Seq<NodeModel>) -> bool {
    ns.len() == ms.len() && forall|i: int| 0 <= i < ms.len() ==> node_matches(
        #[trigger] ns[i],
        ms[i],
    )
}

/// What parsing one node yields: a node and the step to continue from; a
/// stop on a closing delimiter or end of input, with that step left
/// pending; or an error.
pub enum NodeStep {
    Node { node: NodeModel, rest: LexStep },
    Stop { rest: LexStep },
    Failed { err: ParseErr },
}

pub enum ItemsStep {
    Items { nodes: Seq<NodeModel>, rest: LexStep },
    Failed { err: ParseErr },
}

pub enum GroupStep {
    Group { left_paren: Location, right_paren: Location, nodes: Seq<NodeModel>, rest: LexStep },
    Failed { err: ParseErr },
}

pub enum ScopeStep {
    Scope { start: Location, end: Location, nodes: Seq<NodeModel>, rest: LexStep },
    Failed { err: ParseErr },
}

/// A guard for the recursion below that is in fact never taken: every
/// parsed construct advances the scan, which the callers' proofs show.
pub open spec fn stuck_err() -> ParseErr {
    ParseErr::Syntax { kind: ParserErrorKind::UnexpectedEof { expected: None }, location: None }
}

/// The parse model for a parenthesized group from the pending step: the
/// opening parenthesis, the child nodes, then the matching closing one.
/// End of input before the closing parenthesis is an unclosed scope,
/// anchored at the opening one.
pub open spec fn spec_parse_group(content: Seq<u8>, step: LexStep) -> GroupStep
    decreases content.len() - step_pos(step), 0int,
{
    match step {
        LexStep::End { cur } => GroupStep::Failed {
            err: ParseErr::Syntax {
                kind: ParserErrorKind::UnexpectedEof { expected: Some(TokenKind::LeftParen) },
                location: None,
            },
        },
        LexStep::Fail { kind, location, cur } => GroupStep::Failed {
            err: ParseErr::Lexical { kind, location },
        },
        LexStep::Tok { token, cur } => if token.kind != TokenKind::LeftParen {
            GroupStep::Failed {
                err: ParseErr::Syntax {
                    kind: ParserErrorKind::UnexpectedToken {
                        expected: Some(TokenKind::LeftParen),
                        got: token.kind,
                    },
                    location: Some(token.location),
                },
            }
        } else if !advances(content, step, lex(content, cur)) {
            GroupStep::Failed { err: stuck_err() }
        } else {
            match spec_parse_items(content, lex(content, cur)) {
                ItemsStep::Failed { err } => GroupStep::Failed { err },
                ItemsStep::Items { nodes, rest } => match rest {
                    LexStep::End { cur: c } => GroupStep::Failed {
                        err: ParseErr::Syntax {
                            kind: ParserErrorKind::UnclosedScope,
                            location: Some(token.location),
                        },
                    },
                    LexStep::Fail { kind, location, cur: c } => GroupStep::Failed {
                        err: ParseErr::Lexical { kind, location },
                    },
                    LexStep::Tok { token: closer, cur: c } => if closer.kind
                        == TokenKind::RightParen {
                        GroupStep::Group {
                            left_paren: token.location,
                            right_paren: closer.location,
                            nodes,
                            rest: lex(content, c),
                        }
                    } else {
                        GroupStep::Failed {
                            err: ParseErr::Syntax {
                                kind: ParserErrorKind::UnexpectedToken {
                                    expected: Some(TokenKind::RightParen),
                                    got: closer.kind,
                                },
                                location: Some(closer.location),
                            },
                        }
                    },
                },
            }
        },
    }
}

/// The parse model for one node from the pending step. A literal or
/// identifier token becomes the node of matching kind; a closing
/// delimiter or end of input is a stop, with the step left pending;
/// reserved forms fail loudly; an opening parenthesis parses a group; an
/// arrow must be followed by a dot-identifier and forms an assignment
/// spanning from the arrow's start to the variable's end.
pub open spec fn spec_parse_node(content: Seq<u8>, step: LexStep) -> NodeStep
    decreases content.len() - step_pos(step), 1int,
{
    match step {
        LexStep::End { cur } => NodeStep::Stop { rest: step },
        LexStep::Fail { kind, location, cur } => NodeStep::Failed {
            err: ParseErr::Lexical { kind, location },
        },
        LexStep::Tok { token, cur } => match token.kind {
            TokenKind::Integer => NodeStep::Node {
                node: NodeModel::Integer { location: token.location },
                rest: lex(content, cur),
            },
            TokenKind::Float => NodeStep::Node {
                node: NodeModel::Float { location: token.location },
                rest: lex(content, cur),
            },
            TokenKind::String => NodeStep::Node {
                node: NodeModel::String { location: token.location },
                rest: lex(content, cur),
            },
            TokenKind::Identifier => NodeStep::Node {
                node: NodeModel::Call { location: token.location },
                rest: lex(content, cur),
            },
            TokenKind::DotIdentifier => NodeStep::Node {
                node: NodeModel::Variable { location: token.location },
                rest: lex(content, cur),
            },
            TokenKind::RightParen | TokenKind::RightSquare | TokenKind::RightCurly => NodeStep::Stop {
                rest: step,
            },
            TokenKind::LeftSquare | TokenKind::LeftCurly | TokenKind::BangIdentifier => NodeStep::Failed {
                err: ParseErr::Syntax {
                    kind: ParserErrorKind::UnexpectedToken { expected: None, got: token.kind },
                    location: Some(token.location),
                },
            },
            TokenKind::LeftParen => match spec_parse_group(content, step) {
                GroupStep::Failed { err } => NodeStep::Failed { err },
                GroupStep::Group { left_paren, right_paren, nodes, rest } => NodeStep::Node {
                    node: NodeModel::Group {
                        location: left_paren.spec_span_to(right_paren),
                        left_paren,
                        right_paren,
                        nodes,
                    },
                    rest,
                },
            },
            TokenKind::RightArrow => match lex(content, cur) {
                LexStep::End { cur: c } => NodeStep::Failed {
                    err: ParseErr::Syntax {
                        kind: ParserErrorKind::UnexpectedEof {
                            expected: Some(TokenKind::DotIdentifier),
                        },
                        location: None,
                    },
                },
                LexStep::Fail { kind, location, cur: c } => NodeStep::Failed {
                    err: ParseErr::Lexical { kind, location },
                },
                LexStep::Tok { token: variable, cur: c } => if variable.kind
                    == TokenKind::DotIdentifier {
                    NodeStep::Node {
                        node: NodeModel::Assignment {
                            location: token.location.spec_span_to(variable.location),
                            arrow: token.location,
                            variable: variable.location,
                        },
                        rest: lex(content, c),
                    }
                } else {
                    NodeStep::Failed {
                        err: ParseErr::Syntax {
                            kind: ParserErrorKind::UnexpectedToken {
                                expected: Some(TokenKind::DotIdentifier),
                                got: variable.kind,
                            },
                            location: Some(variable.location),
                        },
                    }
                },
            },
        },
    }
}

/// The parse model for a node sequence: nodes until a stop, which leaves
/// the stopping step pending.
pub open spec fn spec_parse_items(content: Seq<u8>, step: LexStep) -> ItemsStep
    decreases content.len() - step_pos(step), 2int,
{
    match spec_parse_node(content, step) {
        NodeStep::Failed { err } => ItemsStep::Failed { err },
        NodeStep::Stop { rest } => ItemsStep::Items { nodes: Seq::empty(), rest },
        NodeStep::Node { node, rest } => if !advances(content, step, rest) {
            ItemsStep::Failed { err: stuck_err() }
        } else {
            match spec_parse_items(content, rest) {
                ItemsStep::Failed { err } => ItemsStep::Failed { err },
                ItemsStep::Items { nodes, rest: after } => ItemsStep::Items {
                    nodes: seq![node] + nodes,
                    rest: after,
                },
            }
        },
    }
}

/// The parse model for a braced scope: the opening brace, the child
/// nodes, then the matching closing brace. End of input before the
/// closing brace is an unclosed scope, anchored at the opening brace.
pub open spec fn spec_parse_scope(content: Seq<u8>, step: LexStep) -> ScopeStep {
    match step {
        LexStep::End { cur } => ScopeStep::Failed {
            err: ParseErr::Syntax {
                kind: ParserErrorKind::UnexpectedEof { expected: Some(TokenKind::LeftCurly) },
                location: None,
            },
        },
        LexStep::Fail { kind, location, cur } => ScopeStep::Failed {
            err: ParseErr::Lexical { kind, location },
        },
        LexStep::Tok { token, cur } => if token.kind != TokenKind::LeftCurly {
            ScopeStep::Failed {
                err: ParseErr::Syntax {
                    kind: ParserErrorKind::UnexpectedToken {
                        expected: Some(TokenKind::LeftCurly),
                        got: token.kind,
                    },
                    location: Some(token.location),
                },
            }
        } else {
            match spec_parse_items(content, lex(content, cur)) {
                ItemsStep::Failed { err } => ScopeStep::Failed { err },
                ItemsStep::Items { nodes, rest } => match rest {
                    LexStep::End { cur: c } => ScopeStep::Failed {
                        err: ParseErr::Syntax {
                            kind: ParserErrorKind::UnclosedScope,
                            location: Some(token.location),
                        },
                    },
                    LexStep::Fail { kind, location, cur: c } => ScopeStep::Failed {
                        err: ParseErr::Lexical { kind, location },
                    },
                    LexStep::Tok { token: closer, cur: c } => if closer.kind
                        == TokenKind::RightCurly {
                        ScopeStep::Scope {
                            start: token.location,
                            end: closer.location,
                            nodes,
                            rest: lex(content, c),
                        }
                    } else {
                        ScopeStep::Failed {
                            err: ParseErr::Syntax {
                                kind: ParserErrorKind::UnexpectedToken {
                                    expected: Some(TokenKind::RightCurly),
                                    got: closer.kind,
                                },
                                location: Some(closer.location),
                            },
                        }
                    },
                },
            }
        },
    }
}

/// Prefixing already-parsed nodes onto the outcome of the remaining parse.
pub open spec fn prepend_items(prefix: Seq<NodeModel>, s: ItemsStep) -> ItemsStep {
    match s {
        ItemsStep::Items { nodes, rest } => ItemsStep::Items { nodes: prefix + nodes, rest },
        ItemsStep::Failed { err } => s,
    }
}

/// The model of a function appended by the built-in `fn` extension.
pub struct FunctionModel {
    pub location: Location,
    pub name: Location,
    pub start: Location,
    pub end: Location,
    pub code: Seq<NodeModel>,
}

/// `f` is exactly the function the model describes.
pub open spec fn function_matches(f: Function, m: FunctionModel) -> bool {
    f.location == m.location && f.name == m.name && f.body.start == m.start && f.body.end == m.end
        && nodes_match(f.body.code@, m.code)
}

pub enum FnStep {
    Fn { function: FunctionModel, rest: LexStep },
    Failed { err: ParseErr },
}

/// The model of the built-in `fn` extension: a name, then a braced body;
/// the function spans from its name to the body's closing brace.
pub open spec fn spec_macro_fn(content: Seq<u8>, step: LexStep) -> FnStep {
    match step {
        LexStep::End { cur } => FnStep::Failed {
            err: ParseErr::Syntax {
                kind: ParserErrorKind::UnexpectedEof { expected: Some(TokenKind::Identifier) },
                location: None,
            },
        },
        LexStep::Fail { kind, location, cur } => FnStep::Failed {
            err: ParseErr::Lexical { kind, location },
        },
        LexStep::Tok { token, cur } => if token.kind != TokenKind::Identifier {
            FnStep::Failed {
                err: ParseErr::Syntax {
                    kind: ParserErrorKind::UnexpectedToken {
                        expected: Some(TokenKind::Identifier),
                        got: token.kind,
                    },
                    location: Some(token.location),
                },
            }
        } else {
            match spec_parse_scope(content, lex(content, cur)) {
                ScopeStep::Failed { err } => FnStep::Failed { err },
                ScopeStep::Scope { start, end, nodes, rest } => FnStep::Fn {
                    function: FunctionModel {
                        location: token.location.spec_span_to(end),
                        name: token.location,
                        start,
                        end,
                        code: nodes,
                    },
                    rest,
                },
            }
        },
    }
}

pub enum ModuleStep {
    Module { functions: Seq<FunctionModel>, rest: LexStep },
    Failed { err: ParseErr },
}

/// The model of a module parse under a resolution function: while the
/// pending token is a bang-identifier, its stripped name is resolved and
/// the handler's construct parsed; an unresolved name is `UnknownMacro`
/// at that token; the first failure anywhere aborts the module. Any other
/// leading token, or the end of input, ends the module successfully.
pub open spec fn spec_parse_module(
    content: Seq<u8>,
    step: LexStep,
    resolve: spec_fn(Seq<u8>) -> Option<MacroHandler>,
) -> ModuleStep
    decreases content.len() - step_pos(step),
{
    match step {
        LexStep::End { cur } => ModuleStep::Module { functions: Seq::empty(), rest: step },
        LexStep::Fail { kind, location, cur } => ModuleStep::Failed {
            err: ParseErr::Lexical { kind, location },
        },
        LexStep::Tok { token, cur } => if token.kind != TokenKind::BangIdentifier {
            ModuleStep::Module { functions: Seq::empty(), rest: step }
        } else {
            match resolve(macro_name_spec(content, token.location)) {
                None => ModuleStep::Failed {
                    err: ParseErr::Syntax {
                        kind: ParserErrorKind::UnknownMacro,
                        location: Some(token.location),
                    },
                },
                Some(handler) => match handler {
                    MacroHandler::Function => match spec_macro_fn(content, lex(content, cur)) {
                        FnStep::Failed { err } => ModuleStep::Failed { err },
                        FnStep::Fn { function, rest } => if !advances(content, step, rest) {
                            ModuleStep::Failed { err: stuck_err() }
                        } else {
                            match spec_parse_module(content, rest, resolve) {
                                ModuleStep::Failed { err } => ModuleStep::Failed { err },
                                ModuleStep::Module { functions, rest: after } => ModuleStep::Module {
                                    functions: seq![function] + functions,
                                    rest: after,
                                },
                            }
                        },
                    },
                },
            }
        },
    }
}

/// Prefixing already-appended functions onto the outcome of the rest of
/// the module parse.
pub open spec fn prepend_functions(prefix: Seq<FunctionModel>, s: ModuleStep) -> ModuleStep {
    match s {
        ModuleStep::Module { functions, rest } => ModuleStep::Module {
            functions: prefix + functions,
            rest,
        },
        ModuleStep::Failed { err } => s,
    }
}

/// The HIR-building step of one compile: it owns the lexer, the
/// syntax-extension registry (root namespace plus a stack of per-module
/// local namespaces), the in-progress HIR, and the module work queue.
pub struct ParseHirStep<'a> {
    pub compiler: &'a Compiler,
    pub lexer: Lexer,
    pub root_scope: MacroScope,
    pub macro_scopes: Vec<MacroScope>,
    pub hir: Hir,
    pub current_module: usize,
    pub source_queue: VecDeque<usize>,
}

impl<'a> ParseHirStep<'a> {
    pub open spec fn wf(&self) -> bool {
        &&& self.lexer.wf()
        &&& self.hir.wf()
    }

    /// What `resolve_macro` returns, over the registry's current state.
    pub open spec fn spec_resolve_macro(&self, name: Seq<u8>) -> Option<MacroHandler> {
        resolve_two_tier(self.root_scope, self.macro_scopes@, name)
    }

    pub fn new(compiler: &'a Compiler, main_source: Source) -> (r: Self)
        requires
            main_source.wf(),
        ensures
            r.wf(),
            r.lexer.source == main_source,
            r.lexer.peek_buf is None,
            r.lexer.cursor().pos == 0,
            r.root_scope.handlers@.len() == 0,
            r.macro_scopes@.len() == 0,
            r.hir.modules@.len() == 0,
            r.current_module == 0,
            r.source_queue@.len() == 0,
    {
        Self {
            compiler,
            lexer: Lexer::new(main_source),
            root_scope: MacroScope::new(),
            macro_scopes: Vec::new(),
            hir: Hir::new(),
            current_module: 0,
            source_queue: VecDeque::new(),
        }
    }

    /// Registers a permanent, non-shadowable extension in the root
    /// namespace. Root entries are populated once, before any parsing.
    pub fn add_root_macro(&mut self, name: Vec<u8>, handler: MacroHandler)
        ensures
            final(self).root_scope.handlers@ == old(self).root_scope.handlers@.push(
                (name, handler),
            ),
            final(self).lexer == old(self).lexer,
            final(self).macro_scopes == old(self).macro_scopes,
            final(self).hir == old(self).hir,
            final(self).current_module == old(self).current_module,
            final(self).source_queue == old(self).source_queue,
            final(self).compiler == old(self).compiler,
    {
        self.root_scope.add(name, handler);
    }

    /// Registers an extension in the innermost local namespace; it lives
    /// only for that module's parse.
    pub fn add_local_macro(&mut self, name: Vec<u8>, handler: MacroHandler)
        requires
            old(self).macro_scopes@.len() > 0,
        ensures
            final(self).macro_scopes@.len() == old(self).macro_scopes@.len(),
            final(self).macro_scopes@.last().handlers@ == old(self).macro_scopes@.last().handlers@.push((name, handler)),
            final(self).macro_scopes@.drop_last() == old(self).macro_scopes@.drop_last(),
            final(self).lexer == old(self).lexer,
            final(self).root_scope == old(self).root_scope,
            final(self).hir == old(self).hir,
            final(self).current_module == old(self).current_module,
            final(self).source_queue == old(self).source_queue,
            final(self).compiler == old(self).compiler,
    {
        let last = self.macro_scopes.len() - 1;
        self.macro_scopes[last].add(name, handler);
        proof {
            assert(final(self).macro_scopes@.drop_last() =~= old(self).macro_scopes@.drop_last());
        }
    }

    /// Resolves a name through the registry: the root namespace first
    /// (it always wins), then the local stack from innermost to
    /// outermost; no match is `None`.
    pub fn resolve_macro(&self, name: &[u8]) -> (r: Option<MacroHandler>)
        ensures
            r == self.spec_resolve_macro(name@),
    {
        match self.root_scope.resolve(name) {
            Some(handler) => Some(handler),
            None => {
                let mut i = self.macro_scopes.len();
                proof {
                    assert(self.macro_scopes@.take(self.macro_scopes@.len() as int)
                        =~= self.macro_scopes@);
                }
                loop
                    invariant
                        i <= self.macro_scopes@.len(),
                        resolve_in_stack(self.macro_scopes@, name@) == resolve_in_stack(
                            self.macro_scopes@.take(i as int),
                            name@,
                        ),
                    ensures
                        i == 0,
                        resolve_in_stack(self.macro_scopes@, name@) == resolve_in_stack(
                            self.macro_scopes@.take(i as int),
                            name@,
                        ),
                    decreases i,
                {
                    if i == 0 {
                        break ;
                    }
                    i = i - 1;
                    proof {
                        assert(self.macro_scopes@.take(i + 1int).last()
                            == self.macro_scopes@[i as int]);
                        assert(self.macro_scopes@.take(i + 1int).drop_last()
                            =~= self.macro_scopes@.take(i as int));
                    }
                    match self.macro_scopes[i].resolve(name) {
                        Some(handler) => {
                            return Some(handler);
                        },
                        None => {},
                    }
                }
                proof {
                    assert(self.macro_scopes@.take(0int) =~= Seq::<MacroScope>::empty());
                }
                None
            },
        }
    }

    /// Builds a structural error citing the current source.
    pub fn make_error(&mut self, location: Option<Location>, kind: ParserErrorKind) -> (r: Error)
        ensures
            *final(self) == *old(self),
            r matches Error::Parser(e) && e.kind == kind && e.location == location
                && e.source.path@ == old(self).lexer.source.path@ && e.source.content@ == old(self).lexer.source.content@,
    {
        let source = self.lexer.source();
        Error::Parser(Box::new(ParserError { source, location, kind }))
    }

    /// Demands the next token to be of `kind` and consumes it; otherwise
    /// reports exactly what stood there instead.
    pub fn expect_token(&mut self, kind: TokenKind) -> (r: Result<Token, Error>)
        requires
            old(self).wf(),
        ensures
            final(self).wf(),
            final(self).lexer.source == old(self).lexer.source,
            final(self).root_scope == old(self).root_scope,
            final(self).macro_scopes == old(self).macro_scopes,
            final(self).hir == old(self).hir,
            final(self).current_module == old(self).current_module,
            final(self).source_queue == old(self).source_queue,
            final(self).compiler == old(self).compiler,
            final(self).lexer.stream_pos() >= old(self).lexer.stream_pos(),
            match old(self).lexer.pending() {
                LexStep::End { cur } => parser_failure(
                    r,
                    old(self).lexer.source,
                    ParserErrorKind::UnexpectedEof { expected: Some(kind) },
                    None::<Location>,
                ) && final(self).lexer.pending() == old(self).lexer.pending(),
                LexStep::Tok { token, cur } => if token.kind == kind {
                    r == Ok::<Token, Error>(token) && final(self).lexer.peek_buf is None
                        && final(self).lexer.cursor() == cur
                        && final(self).lexer.cursor().pos == token.location.end
                        && final(self).lexer.stream_pos() == token.location.end
                        && old(self).lexer.stream_pos() <= token.location.start
                        && token.location.start < token.location.end
                        && token.location.wf_in(old(self).lexer.content())
                } else {
                    // the mismatched token stays unconsumed: still peekable
                    parser_failure(
                        r,
                        old(self).lexer.source,
                        ParserErrorKind::UnexpectedToken { expected: Some(kind), got: token.kind },
                        Some(token.location),
                    ) && final(self).lexer.pending() == old(self).lexer.pending()
                },
                LexStep::Fail { kind: k, location, cur } => lex_failure(
                    r,
                    old(self).lexer.source,
                    k,
                    location,
                ),
            },
    {
        proof {
            super::lexer::lemma_lex_wf(self.lexer.content(), self.lexer.cursor());
        }
        let token = match self.lexer.peek_token() {
            Ok(Some(token)) => token,
            Ok(None) => {
                return Err(self.make_error(
                    None,
                    ParserErrorKind::UnexpectedEof { expected: Some(kind) },
                ));
            },
            Err(e) => {
                return Err(e);
            },
        };
        if token.kind != kind {
            return Err(self.make_error(
                Some(token.location),
                ParserErrorKind::UnexpectedToken { expected: Some(kind), got: token.kind },
            ));
        }
        match self.lexer.consume_token() {
            Ok(_) => {},
            Err(e) => {
                return Err(e);
            },
        }
        Ok(token)
    }

    /// True state that every parsing routine leaves untouched.
    pub open spec fn same_context_as(&self, pre: &Self) -> bool {
        &&& self.lexer.source == pre.lexer.source
        &&& self.root_scope == pre.root_scope
        &&& self.macro_scopes@ == pre.macro_scopes@
        &&& self.hir == pre.hir
        &&& self.current_module == pre.current_module
        &&& self.source_queue@ == pre.source_queue@
        &&& self.compiler == pre.compiler
    }

    /// Parses a node: a literal, call, variable, assignment or
    /// parenthesized group. A bare closing delimiter is "no further
    /// nodes" and is left unconsumed for the enclosing caller; reserved
    /// forms (square brackets, scope literals, extension invocations in
    /// expression position) fail loudly rather than being attempted.
    #[verifier::rlimit(100)]
    pub fn parse_node(&mut self) -> (r: Result<Option<Node>, Error>)
        requires
            old(self).wf(),
        ensures
            final(self).wf(),
            final(self).same_context_as(old(self)),
            final(self).lexer.stream_pos() >= old(self).lexer.stream_pos(),
            match r {
                Ok(Some(node)) => node.wf(old(self).lexer.content())
                    && old(self).lexer.stream_pos() <= node.location.start
                    && final(self).lexer.peek_buf is None
                    && final(self).lexer.cursor().pos == node.location.end,
                Ok(None) => (final(self).lexer.peek_buf matches Some(t) && (t.kind
                    == TokenKind::RightParen || t.kind == TokenKind::RightSquare || t.kind
                    == TokenKind::RightCurly) && final(self).lexer.stream_pos()
                    == t.location.start) || (final(self).lexer.peek_buf is None && lex(
                    final(self).lexer.content(),
                    final(self).lexer.cursor(),
                ) is End),
                Err(e) => !(e is Source),
            },
            match spec_parse_node(old(self).lexer.content(), old(self).lexer.pending()) {
                NodeStep::Node { node: m, rest } => (r matches Ok(Some(n)) && node_matches(n, m))
                    && final(self).lexer.pending() == rest && advances(
                    old(self).lexer.content(),
                    old(self).lexer.pending(),
                    rest,
                ),
                NodeStep::Stop { rest } => r == Ok::<Option<Node>, Error>(None) && final(self).lexer.pending() == rest,
                NodeStep::Failed { err } => parse_failure(r, old(self).lexer.source, err),
            },
        decreases self.lexer.content().len() - self.lexer.stream_pos(), 1int,
    {
        let token = match self.lexer.peek_token() {
            Ok(Some(token)) => token,
            Ok(None) => {
                return Ok(None);
            },
            Err(e) => {
                return Err(e);
            },
        };
        match token.kind {
            TokenKind::Integer | TokenKind::Float | TokenKind::String | TokenKind::Identifier
                | TokenKind::DotIdentifier => {
                let kind = match token.kind {
                    TokenKind::Integer => NodeKind::Integer,
                    TokenKind::Float => NodeKind::Float,
                    TokenKind::String => NodeKind::String,
                    TokenKind::Identifier => NodeKind::Call,
                    _ => NodeKind::Variable,
                };
                match self.lexer.consume_token() {
                    Ok(_) => {},
                    Err(e) => {
                        return Err(e);
                    },
                }
                proof {
                    super::lexer::lemma_lex_wf(self.lexer.content(), self.lexer.cursor());
                    match old(self).lexer.pending() {
                        LexStep::Tok { token: t0, cur: c0 } => {
                            assert(t0 == token);
                            assert(self.lexer.cursor() == c0);
                            assert(self.lexer.pending() == lex(self.lexer.content(), c0));
                            assert(t0.location.start < t0.location.end);
                            assert(step_pos(lex(self.lexer.content(), c0)) > t0.location.start);
                        },
                        _ => {
                            assert(false);
                        },
                    }
                }
                Ok(Some(Node::new(token.location, kind)))
            },
            TokenKind::LeftParen => {
                let group = match self.parse_group() {
                    Ok(g) => g,
                    Err(e) => {
                        return Err(e);
                    },
                };
                let location = group.left_paren.span_to(group.right_paren);
                Ok(Some(Node::new(location, NodeKind::Group(Box::new(group)))))
            },
            TokenKind::RightParen | TokenKind::RightSquare | TokenKind::RightCurly => Ok(None),
            TokenKind::LeftSquare | TokenKind::LeftCurly | TokenKind::BangIdentifier => Err(
                self.make_error(
                    Some(token.location),
                    ParserErrorKind::UnexpectedToken { expected: None, got: token.kind },
                ),
            ),
            TokenKind::RightArrow => {
                let node = match self.parse_assignment() {
                    Ok(n) => n,
                    Err(e) => {
                        return Err(e);
                    },
                };
                Ok(Some(node))
            },
        }
    }

    /// Parses an assignment `-> .target`: the arrow must be immediately
    /// followed by a dot-identifier; the node spans from the arrow's
    /// start to the variable's end.
    fn parse_assignment(&mut self) -> (r: Result<Node, Error>)
        requires
            old(self).wf(),
        ensures
            final(self).wf(),
            final(self).same_context_as(old(self)),
            final(self).lexer.stream_pos() >= old(self).lexer.stream_pos(),
            match r {
                Ok(node) => node.wf(old(self).lexer.content()) && node.kind is Assignment
                    && old(self).lexer.stream_pos() <= node.location.start
                    && final(self).lexer.peek_buf is None
                    && final(self).lexer.cursor().pos == node.location.end,
                Err(e) => !(e is Source),
            },
            (old(self).lexer.pending() matches LexStep::Tok { token, cur } && token.kind
                == TokenKind::RightArrow) ==> match spec_parse_node(
                old(self).lexer.content(),
                old(self).lexer.pending(),
            ) {
                NodeStep::Node { node: m, rest } => (r matches Ok(n) && node_matches(n, m))
                    && final(self).lexer.pending() == rest && advances(
                    old(self).lexer.content(),
                    old(self).lexer.pending(),
                    rest,
                ),
                NodeStep::Stop { rest } => false,
                NodeStep::Failed { err } => parse_failure(r, old(self).lexer.source, err),
            },
        decreases self.lexer.content().len() - self.lexer.stream_pos(), 0int,
    {
        let arrow = match self.expect_token(TokenKind::RightArrow) {
            Ok(t) => t.location,
            Err(e) => {
                return Err(e);
            },
        };
        let variable = match self.expect_token(TokenKind::DotIdentifier) {
            Ok(t) => t.location,
            Err(e) => {
                return Err(e);
            },
        };
        proof {
            super::lexer::lemma_lex_wf(self.lexer.content(), self.lexer.cursor());
        }
        Ok(Node::new(
            arrow.span_to(variable),
            NodeKind::Assignment(Box::new(Assignment::new(arrow, variable))),
        ))
    }

    /// Parses a group of nodes surrounded by parentheses. Reaching end of
    /// input before the closing parenthesis is `UnclosedScope`, anchored
    /// at the opening one.
    #[verifier::rlimit(100)]
    pub fn parse_group(&mut self) -> (r: Result<Group, Error>)
        requires
            old(self).wf(),
        ensures
            final(self).wf(),
            final(self).same_context_as(old(self)),
            final(self).lexer.stream_pos() >= old(self).lexer.stream_pos(),
            match r {
                Ok(group) => {
                    &&& group.left_paren.wf_in(old(self).lexer.content())
                    &&& group.right_paren.wf_in(old(self).lexer.content())
                    &&& group.left_paren.start < group.left_paren.end
                    &&& group.left_paren.end <= group.right_paren.start
                    &&& group.right_paren.start < group.right_paren.end
                    &&& old(self).lexer.stream_pos() <= group.left_paren.start
                    &&& nodes_ordered(
                        group.nodes@,
                        group.left_paren.end as int,
                        group.right_paren.start as int,
                    )
                    &&& nodes_wf(group.nodes@, old(self).lexer.content())
                    &&& final(self).lexer.peek_buf is None
                    &&& final(self).lexer.cursor().pos == group.right_paren.end
                },
                Err(e) => !(e is Source),
            },
            match spec_parse_group(old(self).lexer.content(), old(self).lexer.pending()) {
                GroupStep::Group { left_paren, right_paren, nodes, rest } => (r matches Ok(g)
                    && g.left_paren == left_paren && g.right_paren == right_paren && nodes_match(
                    g.nodes@,
                    nodes,
                )) && final(self).lexer.pending() == rest && advances(
                    old(self).lexer.content(),
                    old(self).lexer.pending(),
                    rest,
                ),
                GroupStep::Failed { err } => parse_failure(r, old(self).lexer.source, err),
            },
        decreases self.lexer.content().len() - self.lexer.stream_pos(), 0int,
    {
        let left = match self.expect_token(TokenKind::LeftParen) {
            Ok(t) => t.location,
            Err(e) => {
                return Err(e);
            },
        };
        let mut nodes: Vec<Node> = Vec::new();
        proof {
            super::lexer::lemma_lex_wf(self.lexer.content(), self.lexer.cursor());
        }
        let ghost inner0 = self.lexer.pending();
        let ghost mut models: Seq<NodeModel> = Seq::empty();
        proof {
            assert(advances(self.lexer.content(), old(self).lexer.pending(), inner0));
            match spec_parse_items(self.lexer.content(), inner0) {
                ItemsStep::Items { nodes: ns, rest } => {
                    assert(models + ns =~= ns);
                },
                ItemsStep::Failed { err } => {},
            }
        }
        loop
            invariant
                self.wf(),
                self.same_context_as(old(self)),
                left.wf_in(self.lexer.content()),
                left.start < left.end,
                old(self).lexer.stream_pos() <= left.start,
                left.end <= self.lexer.stream_pos(),
                nodes_wf(nodes@, self.lexer.content()),
                nodes_ordered(nodes@, left.end as int, self.lexer.stream_pos()),
                nodes_match(nodes@, models),
                old(self).lexer.pending() matches LexStep::Tok { token: lt, cur: lc } && lt.kind
                    == TokenKind::LeftParen && lt.location == left && inner0 == lex(
                    self.lexer.content(),
                    lc,
                ),
                advances(self.lexer.content(), old(self).lexer.pending(), inner0),
                prepend_items(models, spec_parse_items(self.lexer.content(), self.lexer.pending()))
                    == spec_parse_items(self.lexer.content(), inner0),
            ensures
                self.wf(),
                self.same_context_as(old(self)),
                left.end <= self.lexer.stream_pos(),
                nodes_wf(nodes@, self.lexer.content()),
                nodes_ordered(nodes@, left.end as int, self.lexer.stream_pos()),
                nodes_match(nodes@, models),
                old(self).lexer.pending() matches LexStep::Tok { token: lt, cur: lc } && lt.kind
                    == TokenKind::LeftParen && lt.location == left && inner0 == lex(
                    self.lexer.content(),
                    lc,
                ),
                advances(self.lexer.content(), old(self).lexer.pending(), inner0),
                prepend_items(models, spec_parse_items(self.lexer.content(), self.lexer.pending()))
                    == spec_parse_items(self.lexer.content(), inner0),
                (self.lexer.peek_buf matches Some(t) && (t.kind == TokenKind::RightParen
                    || t.kind == TokenKind::RightSquare || t.kind == TokenKind::RightCurly)
                    && self.lexer.stream_pos() == t.location.start) || (self.lexer.peek_buf is None
                    && lex(self.lexer.content(), self.lexer.cursor()) is End),
            decreases self.lexer.content().len() - self.lexer.stream_pos(),
        {
            let ghost pend_i = self.lexer.pending();
            let ghost models_prev = models;
            match self.parse_node() {
                Ok(Some(node)) => {
                    proof {
                        match spec_parse_node(self.lexer.content(), pend_i) {
                            NodeStep::Node { node: m, rest } => {
                                models = models.push(m);
                                match spec_parse_items(self.lexer.content(), rest) {
                                    ItemsStep::Items { nodes: ns, rest: after } => {
                                        assert(models_prev + (seq![m] + ns) =~= models + ns);
                                    },
                                    ItemsStep::Failed { err } => {},
                                }
                            },
                            _ => {
                                assert(false);
                            },
                        }
                    }
                    nodes.push(node);
                },
                Ok(None) => {
                    break ;
                },
                Err(e) => {
                    return Err(e);
                },
            }
        }
        let ghost pend_f = self.lexer.pending();
        proof {
            match pend_f {
                LexStep::Tok { token: tf, cur: cf } => {
                    assert(spec_parse_node(self.lexer.content(), pend_f) == (NodeStep::Stop {
                        rest: pend_f,
                    }));
                },
                LexStep::End { cur: cf } => {
                    assert(spec_parse_node(self.lexer.content(), pend_f) == (NodeStep::Stop {
                        rest: pend_f,
                    }));
                },
                LexStep::Fail { .. } => {
                    assert(false);
                },
            }
            assert(spec_parse_items(self.lexer.content(), pend_f) == (ItemsStep::Items {
                nodes: Seq::<NodeModel>::empty(),
                rest: pend_f,
            }));
            assert(models + Seq::<NodeModel>::empty() =~= models);
            assert(spec_parse_items(self.lexer.content(), inner0) == (ItemsStep::Items {
                nodes: models,
                rest: pend_f,
            }));
        }
        match self.lexer.peek_token() {
            Ok(None) => Err(self.make_error(Some(left), ParserErrorKind::UnclosedScope)),
            Ok(Some(_)) => {
                let right = match self.expect_token(TokenKind::RightParen) {
                    Ok(t) => t.location,
                    Err(e) => {
                        return Err(e);
                    },
                };
                proof {
                    super::lexer::lemma_lex_wf(self.lexer.content(), self.lexer.cursor());
                }
                Ok(Group::new(left, right, nodes))
            },
            Err(e) => Err(e),
        }
    }

    /// Parses a group of nodes surrounded by curly braces. Reaching end
    /// of input before the closing brace is `UnclosedScope`, anchored at
    /// the opening brace's location.
    pub fn parse_scope(&mut self) -> (r: Result<Scope, Error>)
        requires
            old(self).wf(),
        ensures
            final(self).wf(),
            final(self).same_context_as(old(self)),
            final(self).lexer.stream_pos() >= old(self).lexer.stream_pos(),
            match r {
                Ok(scope) => scope.wf(old(self).lexer.content()) && old(self).lexer.stream_pos()
                    <= scope.start.start && final(self).lexer.peek_buf is None && final(self).lexer.cursor().pos == scope.end.end,
                Err(e) => !(e is Source),
            },
            match spec_parse_scope(old(self).lexer.content(), old(self).lexer.pending()) {
                ScopeStep::Scope { start, end, nodes, rest } => (r matches Ok(scope)
                    && scope.start == start && scope.end == end && nodes_match(scope.code@, nodes))
                    && final(self).lexer.pending() == rest && advances(
                    old(self).lexer.content(),
                    old(self).lexer.pending(),
                    rest,
                ),
                ScopeStep::Failed { err } => parse_failure(r, old(self).lexer.source, err),
            },
    {
        let start = match self.expect_token(TokenKind::LeftCurly) {
            Ok(t) => t.location,
            Err(e) => {
                return Err(e);
            },
        };
        let mut code: Vec<Node> = Vec::new();
        proof {
            super::lexer::lemma_lex_wf(self.lexer.content(), self.lexer.cursor());
        }
        let ghost inner0 = self.lexer.pending();
        let ghost mut models: Seq<NodeModel> = Seq::empty();
        proof {
            assert(advances(self.lexer.content(), old(self).lexer.pending(), inner0));
            match spec_parse_items(self.lexer.content(), inner0) {
                ItemsStep::Items { nodes: ns, rest } => {
                    assert(models + ns =~= ns);
                },
                ItemsStep::Failed { err } => {},
            }
        }
        loop
            invariant
                self.wf(),
                self.same_context_as(old(self)),
                start.wf_in(self.lexer.content()),
                start.start < start.end,
                old(self).lexer.stream_pos() <= start.start,
                start.end <= self.lexer.stream_pos(),
                nodes_wf(code@, self.lexer.content()),
                nodes_ordered(code@, start.end as int, self.lexer.stream_pos()),
                nodes_match(code@, models),
                old(self).lexer.pending() matches LexStep::Tok { token: lt, cur: lc } && lt.kind
                    == TokenKind::LeftCurly && lt.location == start && inner0 == lex(
                    self.lexer.content(),
                    lc,
                ),
                advances(self.lexer.content(), old(self).lexer.pending(), inner0),
                prepend_items(models, spec_parse_items(self.lexer.content(), self.lexer.pending()))
                    == spec_parse_items(self.lexer.content(), inner0),
            ensures
                self.wf(),
                self.same_context_as(old(self)),
                start.end <= self.lexer.stream_pos(),
                nodes_wf(code@, self.lexer.content()),
                nodes_ordered(code@, start.end as int, self.lexer.stream_pos()),
                nodes_match(code@, models),
                old(self).lexer.pending() matches LexStep::Tok { token: lt, cur: lc } && lt.kind
                    == TokenKind::LeftCurly && lt.location == start && inner0 == lex(
                    self.lexer.content(),
                    lc,
                ),
                advances(self.lexer.content(), old(self).lexer.pending(), inner0),
                prepend_items(models, spec_parse_items(self.lexer.content(), self.lexer.pending()))
                    == spec_parse_items(self.lexer.content(), inner0),
                (self.lexer.peek_buf matches Some(t) && (t.kind == TokenKind::RightParen
                    || t.kind == TokenKind::RightSquare || t.kind == TokenKind::RightCurly)
                    && self.lexer.stream_pos() == t.location.start) || (self.lexer.peek_buf is None
                    && lex(self.lexer.content(), self.lexer.cursor()) is End),
            decreases self.lexer.content().len() - self.lexer.stream_pos(),
        {
            let ghost pend_i = self.lexer.pending();
            let ghost models_prev = models;
            match self.parse_node() {
                Ok(Some(node)) => {
                    proof {
                        match spec_parse_node(self.lexer.content(), pend_i) {
                            NodeStep::Node { node: m, rest } => {
                                models = models.push(m);
                                match spec_parse_items(self.lexer.content(), rest) {
                                    ItemsStep::Items { nodes: ns, rest: after } => {
                                        assert(models_prev + (seq![m] + ns) =~= models + ns);
                                    },
                                    ItemsStep::Failed { err } => {},
                                }
                            },
                            _ => {
                                assert(false);
                            },
                        }
                    }
                    code.push(node);
                },
                Ok(None) => {
                    break ;
                },
                Err(e) => {
                    return Err(e);
                },
            }
        }
        let ghost pend_f = self.lexer.pending();
        proof {
            match pend_f {
                LexStep::Tok { token: tf, cur: cf } => {
                    assert(spec_parse_node(self.lexer.content(), pend_f) == (NodeStep::Stop {
                        rest: pend_f,
                    }));
                },
                LexStep::End { cur: cf } => {
                    assert(spec_parse_node(self.lexer.content(), pend_f) == (NodeStep::Stop {
                        rest: pend_f,
                    }));
                },
                LexStep::Fail { .. } => {
                    assert(false);
                },
            }
            assert(spec_parse_items(self.lexer.content(), pend_f) == (ItemsStep::Items {
                nodes: Seq::<NodeModel>::empty(),
                rest: pend_f,
            }));
            assert(models + Seq::<NodeModel>::empty() =~= models);
            assert(spec_parse_items(self.lexer.content(), inner0) == (ItemsStep::Items {
                nodes: models,
                rest: pend_f,
            }));
        }
        match self.lexer.peek_token() {
            Ok(None) => Err(self.make_error(Some(start), ParserErrorKind::UnclosedScope)),
            Ok(Some(_)) => {
                let end = match self.expect_token(TokenKind::RightCurly) {
                    Ok(t) => t.location,
                    Err(e) => {
                        return Err(e);
                    },
                };
                proof {
                    super::lexer::lemma_lex_wf(self.lexer.content(), self.lexer.cursor());
                }
                Ok(Scope::new(start, end, code))
            },
            Err(e) => Err(e),
        }
    }

    /// Appends a function to the current module.
    pub fn add_function(&mut self, function: Function)
        requires
            old(self).wf(),
            old(self).current_module < old(self).hir.modules@.len(),
            function.wf(
                old(self).hir.modules@[old(self).current_module as int].source.content@,
            ),
        ensures
            final(self).wf(),
            final(self).lexer == old(self).lexer,
            final(self).root_scope == old(self).root_scope,
            final(self).macro_scopes@ == old(self).macro_scopes@,
            final(self).current_module == old(self).current_module,
            final(self).source_queue@ == old(self).source_queue@,
            final(self).compiler == old(self).compiler,
            final(self).hir.modules@.len() == old(self).hir.modules@.len(),
            forall|i: int| 0 <= i < old(self).hir.modules@.len() && i != old(self).current_module as int ==> final(self).hir.modules@[i] == old(self).hir.modules@[i],
            final(self).hir.modules@[old(self).current_module as int].source == old(self).hir.modules@[old(self).current_module as int].source,
            final(self).hir.modules@[old(self).current_module as int].submodules == old(self).hir.modules@[old(self).current_module as int].submodules,
            final(self).hir.modules@[old(self).current_module as int].functions@ == old(self).hir.modules@[old(self).current_module as int].functions@.push(function),
    {
        let cm = self.current_module;
        self.hir.modules[cm].functions.push(function);
    }

    /// Parses a module: while the next token is a bang-identifier, its
    /// name (with the trailing `!` stripped) is resolved through the
    /// registry and the handler invoked; a name with no binding is
    /// `UnknownMacro` at that token. Any other leading token ends the
    /// module successfully. The module gets a fresh local extension
    /// namespace for the duration of its parse.
    pub fn parse_module(&mut self, is_submodule: bool) -> (r: Result<usize, Error>)
        requires
            old(self).wf(),
        ensures
            final(self).wf(),
            final(self).lexer.source == old(self).lexer.source,
            final(self).root_scope == old(self).root_scope,
            final(self).compiler == old(self).compiler,
            final(self).lexer.stream_pos() >= old(self).lexer.stream_pos(),
            final(self).hir.modules@.len() >= old(self).hir.modules@.len(),
            forall|j: int| 0 <= j < old(self).hir.modules@.len() ==> final(self).hir.modules@[j]
                == old(self).hir.modules@[j],
            match r {
                Ok(idx) => idx == old(self).hir.modules@.len() && final(self).hir.modules@.len()
                    == old(self).hir.modules@.len() + 1 && final(self).current_module == old(self).current_module && final(self).macro_scopes@ == old(self).macro_scopes@ && final(self).source_queue@ == old(self).source_queue@
                    && final(self).hir.modules@[idx as int].source.path@ == old(self).lexer.source.path@
                    && final(self).hir.modules@[idx as int].source.content@ == old(self).lexer.content(),
                Err(e) => !(e is Source),
            },
            match spec_parse_module(
                old(self).lexer.content(),
                old(self).lexer.pending(),
                registry_resolver(old(self).root_scope, old(self).macro_scopes@),
            ) {
                ModuleStep::Module { functions, rest } => (r matches Ok(idx) && idx == old(self).hir.modules@.len())
                    && final(self).hir.modules@[old(self).hir.modules@.len() as int].functions@.len()
                    == functions.len() && (forall|i: int|
                    0 <= i < functions.len() ==> function_matches(
                        #[trigger] final(self).hir.modules@[
                            old(self).hir.modules@.len() as int
                        ].functions@[i],
                        functions[i],
                    )) && final(self).lexer.pending() == rest,
                ModuleStep::Failed { err } => parse_failure(r, old(self).lexer.source, err),
            },
    {
        let ghost resolve: spec_fn(Seq<u8>) -> Option<MacroHandler> = registry_resolver(
            old(self).root_scope,
            old(self).macro_scopes@,
        );
        let ghost pend0 = old(self).lexer.pending();
        let ghost mut fns: Seq<FunctionModel> = Seq::empty();
        let module_index = self.hir.modules.len();
        let previous_module_index = self.current_module;
        self.current_module = module_index;
        self.hir.modules.push(Module::new(self.lexer.source()));
        self.macro_scopes.push(MacroScope::new());
        loop
            invariant
                self.wf(),
                self.lexer.source == old(self).lexer.source,
                self.root_scope == old(self).root_scope,
                self.compiler == old(self).compiler,
                self.current_module == module_index,
                module_index == old(self).hir.modules@.len(),
                self.hir.modules@.len() == old(self).hir.modules@.len() + 1,
                forall|j: int| 0 <= j < old(self).hir.modules@.len() ==> self.hir.modules@[j]
                    == old(self).hir.modules@[j],
                self.hir.modules@[module_index as int].source.path@ == self.lexer.source.path@,
                self.hir.modules@[module_index as int].source.content@ == self.lexer.content(),
                self.macro_scopes@.len() == old(self).macro_scopes@.len() + 1,
                self.macro_scopes@.subrange(0, old(self).macro_scopes@.len() as int) == old(self).macro_scopes@,
                self.source_queue@ == old(self).source_queue@,
                self.lexer.stream_pos() >= old(self).lexer.stream_pos(),
                self.macro_scopes@.last().handlers@.len() == 0,
                pend0 == old(self).lexer.pending(),
                resolve == registry_resolver(old(self).root_scope, old(self).macro_scopes@),
                self.hir.modules@[module_index as int].functions@.len() == fns.len(),
                forall|i: int| 0 <= i < fns.len() ==> function_matches(
                    #[trigger] self.hir.modules@[module_index as int].functions@[i],
                    fns[i],
                ),
                prepend_functions(
                    fns,
                    spec_parse_module(self.lexer.content(), self.lexer.pending(), resolve),
                ) == spec_parse_module(self.lexer.content(), pend0, resolve),
            ensures
                self.wf(),
                self.lexer.source == old(self).lexer.source,
                self.root_scope == old(self).root_scope,
                self.compiler == old(self).compiler,
                self.current_module == module_index,
                module_index == old(self).hir.modules@.len(),
                self.hir.modules@.len() == old(self).hir.modules@.len() + 1,
                forall|j: int| 0 <= j < old(self).hir.modules@.len() ==> self.hir.modules@[j]
                    == old(self).hir.modules@[j],
                self.hir.modules@[module_index as int].source.path@ == self.lexer.source.path@,
                self.hir.modules@[module_index as int].source.content@ == self.lexer.content(),
                self.macro_scopes@.len() == old(self).macro_scopes@.len() + 1,
                self.macro_scopes@.subrange(0, old(self).macro_scopes@.len() as int) == old(self).macro_scopes@,
                self.source_queue@ == old(self).source_queue@,
                self.lexer.stream_pos() >= old(self).lexer.stream_pos(),
                self.hir.modules@[module_index as int].functions@.len() == fns.len(),
                forall|i: int| 0 <= i < fns.len() ==> function_matches(
                    #[trigger] self.hir.modules@[module_index as int].functions@[i],
                    fns[i],
                ),
                spec_parse_module(self.lexer.content(), pend0, resolve) == (ModuleStep::Module {
                    functions: fns,
                    rest: self.lexer.pending(),
                }),
            decreases self.lexer.content().len() - self.lexer.stream_pos(),
        {
            let ghost pend_i = self.lexer.pending();
            let ghost fns_prev = fns;
            let token = match self.lexer.peek_token() {
                Ok(Some(t)) => t,
                Ok(None) => {
                    proof {
                        assert(fns + Seq::<FunctionModel>::empty() =~= fns);
                    }
                    break ;
                },
                Err(e) => {
                    return Err(e);
                },
            };
            if token.kind != TokenKind::BangIdentifier {
                proof {
                    assert(fns + Seq::<FunctionModel>::empty() =~= fns);
                }
                break ;
            }
            let macro_token = match self.expect_token(TokenKind::BangIdentifier) {
                Ok(t) => t.location,
                Err(e) => {
                    return Err(e);
                },
            };
            let name_start = macro_token.start as usize;
            let mut name_end = macro_token.end as usize;
            loop
                invariant
                    name_start <= name_end,
                    name_end <= self.lexer.content().len(),
                    trimmed_end(self.lexer.content(), name_start as int, macro_token.end as int)
                        == trimmed_end(self.lexer.content(), name_start as int, name_end as int),
                ensures
                    name_start <= name_end <= self.lexer.content().len(),
                    trimmed_end(self.lexer.content(), name_start as int, macro_token.end as int)
                        == name_end,
                decreases name_end,
            {
                if name_end > name_start && *slice_index_get(
                    self.lexer.source.content.as_slice(),
                    name_end - 1,
                ) == 0x21 {
                    name_end = name_end - 1;
                } else {
                    break ;
                }
            }
            let name = slice_subrange(self.lexer.source.content.as_slice(), name_start, name_end);
            let resolved = self.resolve_macro(name);
            proof {
                lemma_resolve_push_empty(old(self).macro_scopes@, self.macro_scopes@.last(), name@);
                assert(self.macro_scopes@ =~= old(self).macro_scopes@.push(
                    self.macro_scopes@.last(),
                ));
                assert(resolved == resolve(macro_name_spec(self.lexer.content(), macro_token)))
                    by {
                    assert(resolve(macro_name_spec(self.lexer.content(), macro_token))
                        == resolve_two_tier(
                        old(self).root_scope,
                        old(self).macro_scopes@,
                        macro_name_spec(self.lexer.content(), macro_token),
                    ));
                };
            }
            let handler = match resolved {
                None => {
                    return Err(self.make_error(Some(macro_token), ParserErrorKind::UnknownMacro));
                },
                Some(h) => h,
            };
            proof {
                super::lexer::lemma_lex_wf(self.lexer.content(), self.lexer.cursor());
            }
            match handler {
                MacroHandler::Function => {
                    match experimental::macro_fn(self) {
                        Ok(_) => {},
                        Err(e) => {
                            return Err(e);
                        },
                    }
                    proof {
                        match spec_macro_fn(self.lexer.content(), lex(self.lexer.content(), pend_i->Tok_cur)) {
                            FnStep::Fn { function, rest } => {
                                fns = fns.push(function);
                                match spec_parse_module(self.lexer.content(), rest, resolve) {
                                    ModuleStep::Module { functions: fs, rest: after } => {
                                        assert(fns_prev + (seq![function] + fs) =~= fns + fs);
                                    },
                                    ModuleStep::Failed { err } => {},
                                }
                            },
                            FnStep::Failed { err } => {
                                assert(false);
                            },
                        }
                    }
                },
            }
        }
        self.current_module = previous_module_index;
        let _ = self.macro_scopes.pop();
        proof {
            assert(self.macro_scopes@ =~= old(self).macro_scopes@);
        }
        Ok(module_index)
    }

    /// Runs the HIR-building step to completion: the main source is
    /// parsed as the first module, then the pending-module work queue is
    /// drained; each drained module gets a fresh local namespace beneath
    /// the unchanged root namespace.
    pub fn run(self) -> (r: Result<Hir, Error>)
        requires
            self.wf(),
        ensures
            match r {
                Ok(hir) => hir.wf() && hir.modules@.len() > self.hir.modules@.len()
                    && hir.modules@[self.hir.modules@.len() as int].source.path@
                    == self.lexer.source.path@
                    && hir.modules@[self.hir.modules@.len() as int].source.content@
                    == self.lexer.content(),
                Err(e) => !(e is Source),
            },
            self.source_queue@.len() == 0 ==> match spec_parse_module(
                self.lexer.content(),
                self.lexer.pending(),
                registry_resolver(self.root_scope, self.macro_scopes@),
            ) {
                ModuleStep::Module { functions, rest } => (r matches Ok(hir) && hir.modules@.len()
                    == self.hir.modules@.len() + 1 && hir.modules@[
                    self.hir.modules@.len() as int
                ].functions@.len() == functions.len() && (forall|i: int|
                    0 <= i < functions.len() ==> function_matches(
                        #[trigger] hir.modules@[self.hir.modules@.len() as int].functions@[i],
                        functions[i],
                    ))),
                ModuleStep::Failed { err } => parse_failure(r, self.lexer.source, err),
            },
    {
        let mut step = self;
        let ghost initial_modules = step.hir.modules@.len();
        match step.parse_module(false) {
            Ok(_) => {},
            Err(e) => {
                return Err(e);
            },
        }
        let ghost modules0 = step.hir.modules@;
        loop
            invariant
                step.wf(),
                step.lexer.source == self.lexer.source,
                step.hir.modules@.len() > initial_modules,
                step.hir.modules@[initial_modules as int].source.path@
                    == self.lexer.source.path@,
                step.hir.modules@[initial_modules as int].source.content@ == self.lexer.content(),
                self.source_queue@.len() == 0 ==> step.hir.modules@ == modules0
                    && step.source_queue@.len() == 0,
            decreases step.source_queue@.len(),
        {
            let module_index = match step.source_queue.pop_front() {
                None => {
                    break ;
                },
                Some(i) => i,
            };
            step.current_module = module_index;
            match step.parse_module(false) {
                Ok(_) => {},
                Err(e) => {
                    return Err(e);
                },
            }
        }
        Ok(step.hir)
    }
}

} // verus!
