pub mod error;
pub mod grammar;
pub mod language;
pub mod parser;

pub use error::{Error, ErrorData};
pub use parser::Parser;
