//! The front end of a small expression language: a scanner that turns source
//! text into tokens, and a recursive-descent parser that turns the tokens into
//! a syntax tree.

pub mod decimal;
pub mod expr;
pub mod grammar;
pub mod lerror;
pub mod lexical;
pub mod parser;
pub mod scanner;
pub mod text;
pub mod token;

pub use expr::Expr;
pub use lerror::{LoxError, ParseError};
pub use parser::Parser;
pub use scanner::Scanner;
pub use token::{Token, TokenType};
