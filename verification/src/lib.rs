//! A verified interpreter for the Brainfuck language: an eight-instruction
//! machine acting on a fixed-size tape of bytes.
//!
//! The `semantics` module gives the language a mathematical small-step
//! semantics; the `engine` module holds the executable interpreter, proved to
//! follow that semantics exactly; the `laws` module states and proves general
//! properties of the semantics.

pub mod engine;
pub mod laws;
pub mod semantics;
