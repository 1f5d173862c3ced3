//! A single-pass bytecode compiler and stack-based virtual machine for a
//! small dynamically-typed expression language: numbers, booleans, nil, and
//! strings, with grouping, unary negation and logical not, arithmetic,
//! comparison, equality, and string concatenation.
//!
//! Source text is scanned into tokens, tokens are parsed by a
//! precedence-climbing compiler that emits instructions directly into a
//! [`chunk::Chunk`], and the chunk is executed by the stack machine in
//! [`vm`]. Number values are IEEE-754 doubles owned by the host: the library
//! carries them as opaque 64-bit patterns, and the virtual machine hands
//! each arithmetic step out so that a thin, unverified driver can supply
//! the floating-point results.

pub mod chunk;

pub mod compiler;

pub mod scanner;

pub mod opcode;

pub mod value;

pub mod vm;
