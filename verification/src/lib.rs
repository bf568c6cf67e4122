pub mod text;
pub mod number;
pub mod lexer;
pub mod ast;
pub mod parser;
pub mod runtime;

pub use lexer::scanner::{scan, ScanError, TokenArray};
pub use lexer::token::{Keyword, Literal, Token, TokenType};
pub use ast::expr::{Depth, Expr};
pub use ast::statement::Statement;
pub use ast::printer::{AstPrinter, Piece};
pub use parser::error::ParseError;
pub use parser::parser::Parser;
pub use parser::resolver::Resolver;
pub use runtime::value::{Callable, Value};
pub use runtime::error::{ControlFlow, RuntimeError};
pub use runtime::interpreter::{Interpreter, Printed};
