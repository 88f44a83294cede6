//! Textual representation of the IR: the `.arn` format.
//!
//! The text layer depends on the core model, never the other way around.
//! `.arn` is a canonical, human-inspectable external format; normal
//! compilation flows do not pass through it.

pub mod lexer;
pub mod parser;
pub mod printer;

pub use parser::parse;
pub use printer::print;
