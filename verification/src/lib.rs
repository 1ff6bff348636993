//! A small SQL front end: a lexer that turns statement text into tokens and a
//! recursive-descent parser that turns tokens into statements.

pub mod text;
pub mod token;
pub mod lexer;
pub mod parser;
pub mod render;
pub mod command;
pub mod round_trip;
pub mod acceptance;

