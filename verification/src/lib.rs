//! A two-stage front end for a small textual language: a lexer that turns
//! source text into a sequence of classified tokens with exact byte spans,
//! and a tree builder that groups those tokens between matching brackets.

pub mod lexer;
pub mod rules;
pub mod tree;
