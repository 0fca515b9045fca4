//! A single-pass compiler and stack-based bytecode virtual machine for a small
//! dynamically typed scripting language.
//!
//! Numbers are carried as the bit patterns of IEEE-754 binary64 values. The
//! library compares, negates and tests them on those bits; the arithmetic
//! proper, the parsing of numeric literals and their rendering as text are
//! left to the caller, which answers the virtual machine's arithmetic requests.
use vstd::prelude::*;

pub mod value;
pub mod chunk;
pub mod scanner;
pub mod codegen;
pub mod compiler;
pub mod globals;
pub mod vm;
pub mod input;
