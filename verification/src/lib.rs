pub mod ids;
pub mod text;
pub mod token;
pub mod lexer;
pub mod table;
pub mod scope;
pub mod ast;
pub mod grammar;
pub mod parser;
pub mod interpreter;
pub mod grammar_laws;
pub mod scope_laws;
