//! A lexical analyzer for a small source language: it turns a text buffer
//! into a sequence of typed, position-tagged tokens, or fails with a single
//! error on the first offending position.

pub mod laws;
pub mod lexer;
pub mod model;
pub mod text;
pub mod token;
