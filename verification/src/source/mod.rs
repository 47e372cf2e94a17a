pub mod lines;
pub mod location;
pub mod range;
pub mod source;
pub mod text;

pub use location::Location;
pub use range::Range;
pub use source::Source;
