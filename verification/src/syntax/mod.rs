pub mod lexer;
pub mod syntax;
