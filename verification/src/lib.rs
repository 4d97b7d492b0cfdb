//! The runtime of a small dynamically typed language and the compiler that
//! targets it: a mark-compact garbage collector for a heap of tagged words,
//! with its root scanner, its value printer and its entry points, and the
//! generator of the assembly text that runs on it.

pub mod bump;
pub mod check;
pub mod codegen;
pub mod compact;
pub mod compiler;
pub mod context;
pub mod error;
pub mod gc;
pub mod graph;
pub mod instr;
pub mod laws;
pub mod layout;
pub mod mark;
pub mod memory;
pub mod plan;
pub mod print;
pub mod rewrite;
pub mod roots;
pub mod runtime;
pub mod syntax;
pub mod text;
