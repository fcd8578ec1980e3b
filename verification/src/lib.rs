//! A small scripting-language runtime, verified where its logic lives: a
//! lexer and Pratt parser for a curly-brace language, a bytecode compiler
//! proven equal to its functional specification and to emit only
//! well-formed chunks, a stack virtual machine proven equal to a total
//! step machine (garbage collections included), a mark-sweep heap whose
//! collector provably frees exactly the unreachable slots, and an x86-64
//! template code generator whose output bytes are pinned to the templates.
//!
//! Numbers are IEEE-754 doubles, carried throughout as their 64-bit
//! encodings; the rounding arithmetic itself is delegated to a software
//! IEEE-754 implementation behind trusted wrappers, while equality,
//! ordering and zero tests on encodings are implemented and verified here
//! bit by bit.

use vstd::prelude::*;

pub mod ast;
pub mod chunk;
pub mod compiler;
pub mod engine;
pub mod error;
pub mod heap;
pub mod jit;
pub mod lexer;
pub mod num;
pub mod parser;
pub mod token;
pub mod value;
pub mod vm;

verus! {

} // verus!
