//! The error taxonomy: three families, one per pipeline stage, each
//! carrying enough source context for diagnostics.

use vstd::prelude::*;

use super::lexer::LexerError;
use super::parser::ParserError;
use super::source::SourceError;

verus! {

/// Any failure of the frontend: loading a source, scanning it, or
/// building the HIR from it.
#[derive(Debug)]
pub enum Error {
    Source(Box<SourceError>),
    Lexer(Box<LexerError>),
    Parser(Box<ParserError>),
}

} // verus!
