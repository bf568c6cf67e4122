pub mod token;
pub mod scanner;
