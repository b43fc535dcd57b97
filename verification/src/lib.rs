pub mod bytes;
pub mod driver;
pub mod flatten;
pub mod json;
pub mod parse;
pub mod path_stack;
pub mod prefix;
pub mod rewind;
