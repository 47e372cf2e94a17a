pub mod ast;
pub mod class;
pub mod token;
