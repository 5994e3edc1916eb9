//! A compiler from a small expression-oriented language to Lua source text:
//! lexer, token cursor, parser, scoped type checker and code generator.

pub mod text;
pub mod number;
pub mod token;
pub mod error;
pub mod ast;
pub mod lexer;
pub mod traveler;
pub mod grammar;
pub mod parser;
pub mod render;
pub mod typetab;
pub mod symtab;
pub mod check;
pub mod compile;
