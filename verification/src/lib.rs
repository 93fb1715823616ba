//! A parser for a lightweight markup dialect: it turns a text into a typed
//! document tree in which every element has an anchor of its own, its slug.
//!
//! A text is parsed in two phases. The block parser ([`toplevel`]) takes the
//! YAML header off the text ([`frontmatter`]) and walks the rest line by line:
//! it recognises quotes, page breaks, lists, code blocks, headings, notes,
//! fact boxes, images and references ([`reference`]), and gathers every other
//! line into paragraphs. The assembler ([`paws_markdown`], with [`parser`] and
//! [`factbox`]) turns each block into an element, parses its text with the
//! inline parser ([`inline`]), and gives it a slug that no other element has
//! ([`slugs`]). What holds of every document is proved in [`soundness`].
//!
//! Every function states what it computes over a model of its data: texts are
//! sequences of characters, and each type has a view that holds its content
//! as plain values. Two things are taken on trust: which characters beyond
//! `U+007F` count as letters (`char::is_alphabetic`), and what `serde_yaml`
//! decodes a header to.
//!
//! Nesting is as deep as the text makes it: inline constructs within inline
//! constructs, lists within lists. The functions that follow the nesting call
//! themselves once for each level.

pub mod config;
pub mod text;
pub mod ordered_map;
pub mod reference;
pub mod frontmatter;
pub mod structs;
pub mod error;
pub mod parser_util;
pub mod inline;
pub mod toplevel;
pub mod units;
pub mod slugs;
pub mod parser;
pub mod factbox;
pub mod paws_markdown;
pub mod soundness;

pub use crate::error::{Diagnostic, ParseError};
pub use crate::paws_markdown::{parse, parse_with_diagnostics};
pub use crate::structs::{
    Alternative, AssDownDocument, Element, FactBox, Image, ImageSize, ListItem, ListKind,
    MetaData, ParseUnitError, Span, TableOfContent, Unit,
};
