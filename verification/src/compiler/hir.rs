//! The high-level intermediate representation: the tree of modules,
//! functions, scopes and nodes produced by the frontend.

use vstd::prelude::*;

use super::source::{Location, Source};

verus! {

/// The entire HIR structure of a compile task: a flat collection of
/// modules, cross-referenced by indices rather than owning pointers.
#[derive(Debug)]
pub struct Hir {
    pub modules: Vec<Module>,
}

impl Hir {
    /// Every module's tree is well formed against its own source.
    pub open spec fn wf(&self) -> bool {
        forall|i: int| 0 <= i < self.modules@.len() ==> (#[trigger] self.modules@[i]).wf()
    }

    pub fn new() -> (r: Self)
        ensures
            r.modules@.len() == 0,
            r.wf(),
    {
        Self { modules: Vec::new() }
    }
}

impl Default for Hir {
    fn default() -> (r: Self)
        ensures
            r.modules@.len() == 0,
            r.wf(),
    {
        Self { modules: Vec::new() }
    }
}

/// A module: one per source file or extension-declared submodule. It owns
/// its functions and refers to submodules by index into the flat module
/// collection.
#[derive(Debug)]
pub struct Module {
    pub source: Source,
    pub submodules: Vec<usize>,
    pub functions: Vec<Function>,
}

impl Module {
    pub open spec fn wf(&self) -> bool {
        forall|i: int| 0 <= i < self.functions@.len() ==> (#[trigger] self.functions@[i]).wf(
            self.source.content@,
        )
    }

    pub fn new(source: Source) -> (r: Self)
        ensures
            r.source == source,
            r.submodules@.len() == 0,
            r.functions@.len() == 0,
            r.wf(),
    {
        Self { source, submodules: Vec::new(), functions: Vec::new() }
    }
}

/// A function definition: its full span, the location of its name, and
/// its body scope.
#[derive(Debug)]
pub struct Function {
    pub location: Location,
    pub name: Location,
    pub body: Scope,
}

impl Function {
    pub open spec fn wf(&self, content: Seq<u8>) -> bool {
        &&& self.location.wf_in(content)
        &&& self.name.wf_in(content)
        &&& self.body.wf(content)
    }

    pub fn new(location: Location, name: Location, body: Scope) -> (r: Self)
        ensures
            r.location == location,
            r.name == name,
            r.body == body,
    {
        Self { location, name, body }
    }
}

/// Sibling nodes lie between `lo` and `hi` with strictly increasing,
/// non-overlapping locations.
pub open spec fn nodes_ordered(nodes: Seq<Node>, lo: int, hi: int) -> bool {
    &&& forall|i: int| 0 <= i < nodes.len() ==> lo <= (#[trigger] nodes[i]).location.start
        && nodes[i].location.end <= hi
    &&& forall|i: int| 0 <= i < nodes.len() - 1 ==> (#[trigger] nodes[i]).location.end <= nodes[
        i + 1
    ].location.start
}

/// Every node of the sequence is a well-formed tree.
pub open spec fn nodes_wf(nodes: Seq<Node>, content: Seq<u8>) -> bool {
    forall|i: int| 0 <= i < nodes.len() ==> (#[trigger] nodes[i]).wf(content)
}

/// A delimited, ordered sequence of nodes representing a block of code.
/// `start` and `end` are the locations of the two curly braces; `end` is
/// set exactly once, on the matched closing delimiter.
#[derive(Debug)]
pub struct Scope {
    pub start: Location,
    pub end: Location,
    pub code: Vec<Node>,
}

impl Scope {
    pub open spec fn wf(&self, content: Seq<u8>) -> bool {
        &&& self.start.wf_in(content)
        &&& self.end.wf_in(content)
        &&& self.start.start < self.start.end
        &&& self.start.end <= self.end.start
        &&& self.end.start < self.end.end
        &&& nodes_ordered(self.code@, self.start.end as int, self.end.start as int)
        &&& nodes_wf(self.code@, content)
    }

    pub fn new(start: Location, end: Location, code: Vec<Node>) -> (r: Self)
        ensures
            r.start == start,
            r.end == end,
            r.code == code,
    {
        Self { start, end, code }
    }
}

/// One node of a scope's code: a literal, a call, a variable, an
/// assignment, a parenthesized group, or an extension-supplied record.
#[derive(Debug)]
pub struct Node {
    pub location: Location,
    pub kind: NodeKind,
}

impl Node {
    /// A well-formed tree: the location is within bounds and non-empty,
    /// and composite kinds span exactly their parts, with group children
    /// strictly ordered between the delimiters.
    pub open spec fn wf(&self, content: Seq<u8>) -> bool
        decreases self,
    {
        &&& self.location.wf_in(content)
        &&& self.location.start < self.location.end
        &&& match self.kind {
            NodeKind::Assignment(a) => {
                &&& a.arrow.wf_in(content)
                &&& a.variable.wf_in(content)
                &&& a.arrow.start < a.arrow.end
                &&& a.arrow.end <= a.variable.start
                &&& a.variable.start < a.variable.end
                &&& self.location == a.arrow.spec_span_to(a.variable)
            },
            NodeKind::Group(g) => {
                &&& g.left_paren.wf_in(content)
                &&& g.right_paren.wf_in(content)
                &&& g.left_paren.start < g.left_paren.end
                &&& g.left_paren.end <= g.right_paren.start
                &&& g.right_paren.start < g.right_paren.end
                &&& self.location == g.left_paren.spec_span_to(g.right_paren)
                &&& nodes_ordered(g.nodes@, g.left_paren.end as int, g.right_paren.start as int)
                &&& forall|i: int| 0 <= i < g.nodes@.len() ==> (#[trigger] g.nodes@[i]).wf(content)
            },
            NodeKind::MacroIntermediate(m) => self.location == m.location,
            _ => true,
        }
    }

    pub fn new(location: Location, kind: NodeKind) -> (r: Self)
        ensures
            r.location == location,
            r.kind == kind,
    {
        Self { location, kind }
    }
}

#[derive(Debug)]
pub enum NodeKind {
    Integer,
    Float,
    String,
    Call,
    Variable,
    Assignment(Box<Assignment>),
    Group(Box<Group>),
    MacroIntermediate(Box<MacroIntermediate>),
}

/// An assignment `-> .target`: the arrow's location and the location of
/// the target variable.
#[derive(Debug)]
pub struct Assignment {
    pub arrow: Location,
    pub variable: Location,
}

impl Assignment {
    pub fn new(arrow: Location, variable: Location) -> (r: Self)
        ensures
            r.arrow == arrow,
            r.variable == variable,
    {
        Self { arrow, variable }
    }
}

/// A parenthesized group: the two delimiter locations and the ordered
/// child nodes, exclusively owned (a strict tree).
#[derive(Debug)]
pub struct Group {
    pub left_paren: Location,
    pub right_paren: Location,
    pub nodes: Vec<Node>,
}

impl Group {
    pub fn new(left_paren: Location, right_paren: Location, nodes: Vec<Node>) -> (r: Self)
        ensures
            r.left_paren == left_paren,
            r.right_paren == right_paren,
            r.nodes == nodes,
    {
        Self { left_paren, right_paren, nodes }
    }
}

/// A typed record carried by an extension-built node: the construct's
/// span plus the extension's own encoded payload.
#[derive(Debug)]
pub struct MacroIntermediate {
    pub location: Location,
    pub payload: Vec<u8>,
}

} // verus!
