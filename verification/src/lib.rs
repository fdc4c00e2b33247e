//! A lexer for PL/0, the small Pascal-family teaching language.
//!
//! [`lexer::lex`] turns source bytes into tokens in one pass from left to
//! right. What it returns is fixed by the mathematical definition in
//! [`grammar`], and every function of the crate is proved against it; [`laws`]
//! holds what follows for every input. The few facts taken on trust from the
//! standard library are gathered in [`unicode`].

pub mod class;
pub mod error;
pub mod grammar;
pub mod laws;
pub mod lexer;
pub mod number;
pub mod token;
pub mod unicode;
