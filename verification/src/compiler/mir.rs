//! The mid-level representation: modules and functions in flat
//! collections, referencing each other by index. Later compilation stages
//! are deferred; this records the intended shape.

use vstd::prelude::*;

use super::source::{Location, Source};

verus! {

#[derive(Debug)]
pub struct Mir {
    pub modules: Vec<Box<Module>>,
    pub functions: Vec<Box<Function>>,
}

#[derive(Debug)]
pub struct Module {
    pub source: Source,
    pub submodules: Vec<usize>,
    pub functions: Vec<usize>,
}

#[derive(Debug)]
pub struct Function {
    pub location: Location,
    pub name: Location,
    pub body: Code,
}

/// The lowered body of a function; its design is deferred.
#[derive(Debug)]
pub struct Code {}

} // verus!
