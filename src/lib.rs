//! A character-level parser-combinator engine.
//!
//! Parsers are composed from typed building blocks: literal tokens, delimited
//! groups, separated lists, repetitions, tuples and indentation blocks, on top
//! of a [`charstream::CharStream`] that tracks positions and whitespace handling.

pub mod text;
pub mod charstream;
pub mod parsing;
pub mod tokens;
pub mod combinators;
