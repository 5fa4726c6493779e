//! Core of a bytecode interpreter for a small Lox-family expression language.
//!
//! Source text is scanned into tokens, compiled by a single-pass Pratt parser
//! into a [`chunk::Chunk`] of bytecode with a constant pool and a parallel
//! line-number table, and executed by a stack-based virtual machine.
//!
//! Runtime numbers are IEEE-754 doubles.  The library stores them by their
//! 64-bit pattern and does every tag check, comparison, equality test and
//! negation on those bits itself; only the four arithmetic operations, the
//! decoding of a number literal and the rendering of a number as text need
//! floating-point hardware, and the library asks its caller for those.  The
//! caller decodes each number lexeme into the table a
//! [`compiler::Compiler`] is built with, computes each arithmetic result the
//! [`vm::VM`] pauses for, and renders the values the machine hands back.

pub mod chunk;
pub mod compiler;
pub mod scanner;
pub mod text;
pub mod token;
pub mod value;
pub mod vm;
