//! The core of a bytecode interpreter for a small Smalltalk-like language:
//! tagged value words, a compiler from the surface AST to a flat instruction
//! stream, and a stack-machine interpreter with closures and non-local
//! returns.  Heap objects and closures live in integer-indexed arenas owned by
//! the [`vm::VM`], so a handle is a plain machine word and the parent-identity
//! check behind non-local returns is an index comparison.

pub mod ast;
pub mod compiler;
pub mod instrs;
pub mod numstr;
pub mod objects;
pub mod val;
pub mod vm;
