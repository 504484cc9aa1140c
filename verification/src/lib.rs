//! Words of a text and where they stand, for checking their spelling.
//!
//! The [`lexer`] cuts a text into words, each with the range that it takes up in lines
//! and characters. The [`server`] looks the words up in a dictionary and makes a
//! diagnostic for each that is not found. [`model`] says what the words of a text are,
//! and [`laws`] what holds of them.

pub mod laws;
pub mod lexer;
pub mod lines;
pub mod model;
pub mod options;
pub mod position;
pub mod server;
pub mod text;
pub mod trusted;
