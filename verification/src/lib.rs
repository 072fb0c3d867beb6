//! A minimal tape-based esoteric language: a growable byte tape, a single
//! cursor, byte input/output, and bracket-delimited loops.
//!
//! The crate holds two engines over one program representation: a
//! tree-walking interpreter whose behaviour is pinned to a mathematical
//! step semantics (`semantics`), and an ahead-of-time lowering to a
//! block-structured control-flow graph with explicit block parameters
//! (`ir`, `compiler`). Emitting the final object bytes from the lowered
//! graph is the job of an external target backend.

use vstd::prelude::*;

pub mod compiler;
pub mod interpreter;
pub mod ir;
pub mod parser;
pub mod program;
pub mod semantics;

verus! {

/// What an engine does when an `Input` instruction finds the input stream
/// already exhausted: leave the current cell alone, or set it to zero.
#[derive(Clone, Copy, PartialEq, Eq, Structural, Debug)]
pub enum EofBehaviour {
    Ignore,
    Zero,
}

} // verus!
