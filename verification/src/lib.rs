//! An extensible source-to-HIR frontend: a lazy tokenizer feeding a
//! recursive-descent builder that assembles a tree-shaped high-level IR,
//! where new top-level syntax forms are introduced at parse time through a
//! pluggable, lexically-scoped dispatch table of syntax extensions.

pub mod compiler;
