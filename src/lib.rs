//! An interpreter for a small language of resistor networks: numbers with an
//! optional `k` suffix, series (`->`) and parallel (`//`) combinations, and
//! named bindings.
//!
//! The library covers the lexer, the recursive-descent parser and the
//! interpreter's environment. Numbers are kept as exact decimal digit
//! sequences and bound values as the bit patterns of IEEE-754 doubles, so
//! that every step but the floating-point arithmetic itself is verified.
pub mod lexer;

pub mod parser;

pub mod interpreter;
