pub mod laws;
pub mod layout;
pub mod lexing;
pub mod reading;
pub mod scanner;
pub mod text;
pub mod tokens;
