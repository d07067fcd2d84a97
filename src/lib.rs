//! Cross-file change coupling: blocks of a file marked `if-changed` name the
//! files, or the named blocks of other files, that must change with them.

pub mod text;
pub mod messages;
pub mod parser;
pub mod engine;
pub mod trailer;
pub mod checker;
pub mod driver;
