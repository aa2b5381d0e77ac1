//! A lexer for a small statement language, with the scanner's behaviour
//! stated as a mathematical model and proved against it.
pub mod ast;
pub mod types;
