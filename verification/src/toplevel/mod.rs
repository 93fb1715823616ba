//! The block parser: it walks a document line by line and recognises its
//! blocks.

pub mod structs;
pub mod parser_object;
pub mod list_pattern;
pub mod list_parser;
pub mod parser;
