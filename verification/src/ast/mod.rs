pub mod expr;
pub mod statement;
pub mod printer;
pub mod colors;
