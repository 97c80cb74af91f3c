//! Source buffers and the byte-range locations that index into them.

use vstd::prelude::*;
use vstd::slice::slice_subrange;

verus! {

/// An error raised while loading a source file, keyed by the failure
/// category of the underlying I/O operation.
#[derive(Debug)]
pub struct SourceError {
    pub path: String,
    pub kind: SourceErrorKind,
}

#[derive(Debug)]
pub enum SourceErrorKind {
    FileNotFound,
    PermissionDenied,
    /// Any other I/O failure, carrying its rendered description.
    IoError(String),
}

/// An immutable source file: a path plus its text, treated as an opaque
/// UTF-8 byte sequence indexed by byte offsets.
#[derive(Debug)]
pub struct Source {
    pub path: String,
    pub content: Vec<u8>,
}

impl Source {
    /// The content must leave room for `u32` byte offsets and for the
    /// one-past-the-content line and column counters.
    pub open spec fn wf(&self) -> bool {
        self.content@.len() < u32::MAX as nat
    }

    pub fn new(path: String, content: Vec<u8>) -> (r: Self)
        ensures
            r.path@ == path@,
            r.content@ == content@,
    {
        Self { path, content }
    }

    /// The exact substring `content[start..end]` covered by a location.
    pub fn index(&self, location: Location) -> (r: &[u8])
        requires
            location.wf_in(self.content@),
        ensures
            r@ == self.content@.subrange(location.start as int, location.end as int),
    {
        slice_subrange(self.content.as_slice(), location.start as usize, location.end as usize)
    }
}

impl Clone for Source {
    fn clone(&self) -> (r: Self)
        ensures
            r.path@ == self.path@,
            r.content@ == self.content@,
    {
        let content = self.content.clone();
        proof {
            assert(content@ =~= self.content@);
        }
        Self { path: self.path.clone(), content }
    }
}

/// A byte range into a source's content, together with the line and column
/// of its start. Invariant: `start <= end`, both within content bounds.
#[derive(Clone, Copy, Debug, Default, PartialEq, Eq, Structural)]
pub struct Location {
    pub start: u32,
    pub end: u32,
    pub line: u32,
    pub column: u32,
}

impl Location {
    pub open spec fn wf_in(self, content: Seq<u8>) -> bool {
        self.start <= self.end && self.end as nat <= content.len()
    }

    /// The enclosing span of two locations: it keeps the first's start,
    /// line and column and takes the second's end.
    pub open spec fn spec_span_to(self, other: Self) -> Self {
        Location { start: self.start, end: other.end, line: self.line, column: self.column }
    }

    pub fn span_to(self, other: Self) -> (r: Self)
        ensures
            r == self.spec_span_to(other),
            r.start == self.start && r.end == other.end,
            r.line == self.line && r.column == self.column,
    {
        Self { start: self.start, end: other.end, line: self.line, column: self.column }
    }
}

/// A classified, located lexical unit produced by the lexer.
#[derive(Clone, Copy, Debug, PartialEq, Eq, Structural)]
pub struct Token {
    pub location: Location,
    pub kind: TokenKind,
}

#[derive(Clone, Copy, Debug, PartialEq, Eq, Structural)]
pub enum TokenKind {
    // Literals
    Integer,
    Float,
    String,
    // Brackets
    LeftParen,
    RightParen,
    LeftSquare,
    RightSquare,
    LeftCurly,
    RightCurly,
    // Identifiers
    Identifier,
    DotIdentifier,
    BangIdentifier,
    // Keywords
    RightArrow,
}

} // verus!
