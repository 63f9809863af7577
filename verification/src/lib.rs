//! A small ahead-of-time compiler for a minimal imperative language:
//! a scanner turns source text into tokens, a recursive-descent parser
//! builds statement trees (allocating jump-label numbers as it goes),
//! and a code generator lowers the trees to textual x86-64 assembly.
pub mod tokenize;
pub mod parser;
pub mod emit;
pub mod generator;
pub mod labels;
