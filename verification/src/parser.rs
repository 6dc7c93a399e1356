pub mod ast;
pub mod token;
