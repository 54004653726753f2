//! A Game-of-Life style cellular automaton: an immutable rectangular grid of
//! Dead/Alive cells is evolved generation by generation under the classic
//! neighbor-counting rule (no wraparound at the edges), and every computed
//! generation can be rendered to a comma-separated snapshot format.

pub mod codec;
pub mod model;
pub mod patterns;
pub mod simulation;
