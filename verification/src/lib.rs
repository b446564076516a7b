//! A small arithmetic-expression pipeline: a lexer that turns text into
//! tokens, a recursive-descent parser that builds a syntax tree with the
//! usual precedence and associativity, and a code generator that renders a
//! tree as a standalone C program printing the expression's value.
//!
//! Numeric literals are carried through the pipeline in normalized textual
//! form (always starting and ending with a digit), so every stage is a plain
//! function on characters; evaluating a tree numerically is left to callers.

pub mod lexer;
pub mod nodes;
pub mod parser;
pub mod tokens;
pub mod transpiler;
