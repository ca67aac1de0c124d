pub mod unicode;
pub mod green_builder;
pub mod syntax;
pub mod syntax_kind;
pub mod lexer;
pub mod green;
pub mod diagnostics;
pub mod ast;
pub mod variables;
pub mod lex;
pub mod parse;
pub mod lsp;
