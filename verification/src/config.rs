//! The fixed values of the dialect: limits, default titles, reserved words.

use vstd::prelude::*;

verus! {

/// The longest slug, in characters.
pub const MAX_ID_LENGTH: usize = 32;

/// The address of the site where the header gives none.
pub const DEFAULT_URL: &'static str = "";

/// The directory of the data where the header gives none.
pub const DEFAULT_DATA_DIR: &'static str = "data";

/// The directory of the blog where the header gives none.
pub const DEFAULT_BLOG_DIR: &'static str = "blog";

/// The title of the bibliography where the header gives none.
pub const DEFAULT_BIBLIOGRAPHY_TITLE: &'static str = "Bibliography";

/// The title of the notes where the header gives none.
pub const DEFAULT_NOTES_TITLE: &'static str = "Notes";

/// The title of a fact box that gives none.
pub const DEFAULT_FACTBOX_TITLE: &'static str = "Fact Box";

/// What is appended to a slug that collides with the slug of the notes or the
/// bibliography section.
pub const SECTION_COLLISION_SUFFIX: &'static str = "-disass";

/// The key that hides the notes.
pub const FRONTMATTER_HIDE_NOTES: &'static str = "hide-notes";

/// The key that hides the bibliography.
pub const FRONTMATTER_HIDE_REFERENCES: &'static str = "hide-references";

/// The key that hides the contacts.
pub const FRONTMATTER_HIDE_CONTACTS: &'static str = "hide-contacts";

} // verus!
