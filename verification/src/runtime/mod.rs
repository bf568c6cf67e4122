pub mod value;
pub mod error;
pub mod environment;
pub mod function;
pub mod class;
pub mod instance;
pub mod operations;
pub mod clock;
pub mod interpreter;
