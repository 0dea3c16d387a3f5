//! Decoding of the wire format: a lexer that cuts the input into tokens and a
//! parser that flattens the tokens into an argument list.

pub mod grammar;
pub mod lexer;
pub mod parser;

pub use self::grammar::{ProtocolError, Token, TokenView};
pub use self::lexer::Lexer;
pub use self::parser::Parser;
