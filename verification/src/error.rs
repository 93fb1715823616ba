//! Why a parse fails.

use vstd::prelude::*;
use crate::structs::ParseUnitError;

verus! {

/// Why a text is no document.
#[derive(Debug, PartialEq, Eq, Clone, Copy)]
pub enum ParseError {
    /// The text ended before the delimiter that closes a bracketed stretch.
    MissingCloser(char),
    /// The size of an image is no length.
    BadImageSize(ParseUnitError),
}

/// What a parse has to say about a document that it did parse.
#[derive(Debug, PartialEq, Eq, Clone, Copy)]
pub enum Diagnostic {
    /// The header has no title.
    MissingTitle,
    /// The header has no date.
    MissingDate,
    /// The document has no header.
    MissingFrontmatter,
    /// The header is there but does not decode.
    MalformedFrontmatter,
    /// A fact box stands inside a fact box; it was dropped.
    NestedFactBox,
    /// A header stands inside a fact box; it was dropped.
    FrontmatterInFactBox,
    /// The size of an image was read, but sizes do not yet change anything.
    ImageSizeIgnored,
}

} // verus!
