pub mod fmc_syntax;
pub mod grammar;
pub mod parser;
pub mod lexer;
pub mod lithe;
pub mod token;

pub use lexer::Lexer;
pub use lexer::LexerError;
pub use token::Token;
pub use token::TokenType;
pub use lithe::{CompileError, Interpreter};
pub use parser::{Parser, ParserError};
