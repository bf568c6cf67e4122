pub mod error;
pub mod grammar;
pub mod parser;
pub mod resolution;
pub mod resolver;
