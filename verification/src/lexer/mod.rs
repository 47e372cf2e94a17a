pub mod error;
pub mod laws;
pub mod lexer;
pub mod shape;
pub mod state;
pub mod stream;

pub use error::{Error, ErrorData};
pub use lexer::Lexer;
pub use state::State;
