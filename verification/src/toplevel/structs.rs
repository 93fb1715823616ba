//! What the block parser produces: the blocks of a document, their text
//! still unparsed.

use vstd::prelude::*;
use crate::frontmatter::{Frontmatter, FrontmatterView};
use crate::reference::{ReferenceDefinition, ReferenceView};

verus! {

/// An item of a list with its text still unparsed, or a nested list.
#[derive(Debug, PartialEq)]
pub enum ListItem {
    InnerList(Vec<ListItem>),
    Unordered(String),
    Numbered(usize, String),
    Alphabetical(String, String),
    NumberedRounded(usize, String),
    AlphabeticalRounded(String, String),
}

/// An item of a list as plain data.
pub enum ListItemView {
    InnerList(Seq<ListItemView>),
    Unordered(Seq<char>),
    Numbered(usize, Seq<char>),
    Alphabetical(Seq<char>, Seq<char>),
    NumberedRounded(usize, Seq<char>),
    AlphabeticalRounded(Seq<char>, Seq<char>),
}

impl ListItem {
    /// The value as plain data.
    pub open spec fn model(&self) -> ListItemView
        decreases self,
    {
        match self {
            ListItem::InnerList(v) => ListItemView::InnerList(
                Seq::new(
                    v@.len(),
                    |i: int|
                        if 0 <= i < v@.len() {
                            v@[i].model()
                        } else {
                            ListItemView::InnerList(Seq::empty())
                        },
                ),
            ),
            ListItem::Unordered(t) => ListItemView::Unordered(t@),
            ListItem::Numbered(n, t) => ListItemView::Numbered(*n, t@),
            ListItem::Alphabetical(l, t) => ListItemView::Alphabetical(l@, t@),
            ListItem::NumberedRounded(n, t) => ListItemView::NumberedRounded(*n, t@),
            ListItem::AlphabeticalRounded(l, t) => ListItemView::AlphabeticalRounded(l@, t@),
        }
    }
}

impl View for ListItem {
    type V = ListItemView;

    open spec fn view(&self) -> ListItemView {
        self.model()
    }
}

/// The views of a sequence of list items.
pub open spec fn items_view(s: Seq<ListItem>) -> Seq<ListItemView> {
    Seq::new(s.len(), |i: int| s[i]@)
}

/// The view of a nested list in terms of the views of its items.
pub proof fn lemma_inner_list_view(v: Vec<ListItem>)
    ensures
        ListItem::InnerList(v)@ == ListItemView::InnerList(items_view(v@)),
{
    assert(ListItem::InnerList(v)@->InnerList_0 =~= items_view(v@));
}

/// The size of an image as the document writes it.
#[derive(Debug, PartialEq)]
pub enum ImageSize {
    Unset,
    Single(String),
    Double(String, String),
}

/// The size of an image as plain data.
pub enum ImageSizeView {
    Unset,
    Single(Seq<char>),
    Double(Seq<char>, Seq<char>),
}

impl View for ImageSize {
    type V = ImageSizeView;

    open spec fn view(&self) -> ImageSizeView {
        match self {
            ImageSize::Unset => ImageSizeView::Unset,
            ImageSize::Single(w) => ImageSizeView::Single(w@),
            ImageSize::Double(w, h) => ImageSizeView::Double(w@, h@),
        }
    }
}

/// The size that a width and a height make, where either may be missing. A
/// height alone gets the width `0`.
pub open spec fn size_of(width: Option<Seq<char>>, height: Option<Seq<char>>) -> ImageSizeView {
    match (width, height) {
        (Some(w), Some(h)) => ImageSizeView::Double(w, h),
        (None, Some(h)) => ImageSizeView::Double(seq!['0'], h),
        (Some(w), None) => ImageSizeView::Single(w),
        (None, None) => ImageSizeView::Unset,
    }
}

/// A text that may be missing, as plain data.
pub open spec fn opt_view(s: Option<String>) -> Option<Seq<char>> {
    match s {
        Some(t) => Some(t@),
        None => None,
    }
}

impl ImageSize {
    /// The size that a width and a height make, where either may be missing.
    pub fn from_width_and_height(width: Option<String>, height: Option<String>) -> (r: Self)
        ensures
            r@ == size_of(opt_view(width), opt_view(height)),
    {
        match (width, height) {
            (Some(x), Some(y)) => ImageSize::Double(x, y),
            (None, Some(y)) => {
                let mut zero = String::new();
                zero.push('0');
                ImageSize::Double(zero, y)
            },
            (Some(x), None) => ImageSize::Single(x),
            (None, None) => ImageSize::Unset,
        }
    }
}

/// An image as the document writes it.
#[derive(Debug, PartialEq)]
pub struct Image {
    pub image: String,
    pub alt: String,
    pub size: ImageSize,
}

/// An image as plain data.
pub struct ImageView {
    pub image: Seq<char>,
    pub alt: Seq<char>,
    pub size: ImageSizeView,
}

impl View for Image {
    type V = ImageView;

    open spec fn view(&self) -> ImageView {
        ImageView { image: self.image@, alt: self.alt@, size: self.size@ }
    }
}

impl Image {
    /// An image without alternative text and size.
    pub fn new(image: String) -> (r: Self)
        ensures
            r@ == (ImageView { image: image@, alt: Seq::empty(), size: ImageSizeView::Unset }),
    {
        Image { image, alt: String::new(), size: ImageSize::Unset }
    }

    /// An image with an alternative text.
    pub fn new_with_alt(image: String, alt: String) -> (r: Self)
        ensures
            r@ == (ImageView { image: image@, alt: alt@, size: ImageSizeView::Unset }),
    {
        Image { image, alt, size: ImageSize::Unset }
    }

    /// An image with a size.
    pub fn new_with_size(image: String, size: ImageSize) -> (r: Self)
        ensures
            r@ == (ImageView { image: image@, alt: Seq::empty(), size: size@ }),
    {
        Image { image, alt: String::new(), size }
    }

    /// An image with an alternative text and a size.
    pub fn new_with_alt_and_size(image: String, alt: String, size: ImageSize) -> (r: Self)
        ensures
            r@ == (ImageView { image: image@, alt: alt@, size: size@ }),
    {
        Image { image, alt, size }
    }
}

/// One block of a document.
#[derive(Debug, PartialEq)]
pub enum TopLevelSyntax {
    FrontMatter(Frontmatter),
    CodeBlock(String),
    Heading(String, usize),
    Image(Image),
    List(Vec<ListItem>),
    Paragraph(String),
    Quote(Vec<String>),
    ReferenceDefinition(ReferenceDefinition),
    NoteDefinition { id: String, text: String },
    TOC(String),
    PageBreak,
    FactBox { title: String, body: Vec<TopLevelSyntax> },
}

/// A block as plain data.
pub enum BlockView {
    FrontMatter(FrontmatterView),
    CodeBlock(Seq<char>),
    Heading(Seq<char>, usize),
    Image(ImageView),
    List(Seq<ListItemView>),
    Paragraph(Seq<char>),
    Quote(Seq<Seq<char>>),
    ReferenceDefinition(ReferenceView),
    NoteDefinition { id: Seq<char>, text: Seq<char> },
    TOC(Seq<char>),
    PageBreak,
    FactBox { title: Seq<char>, body: Seq<BlockView> },
}

/// The texts of a sequence of strings.
pub open spec fn strings_view(s: Seq<String>) -> Seq<Seq<char>> {
    Seq::new(s.len(), |i: int| s[i]@)
}

impl TopLevelSyntax {
    /// The value as plain data.
    pub open spec fn model(&self) -> BlockView
        decreases self,
    {
        match self {
            TopLevelSyntax::FrontMatter(f) => BlockView::FrontMatter(f@),
            TopLevelSyntax::CodeBlock(t) => BlockView::CodeBlock(t@),
            TopLevelSyntax::Heading(t, level) => BlockView::Heading(t@, *level),
            TopLevelSyntax::Image(i) => BlockView::Image(i@),
            TopLevelSyntax::List(v) => BlockView::List(items_view(v@)),
            TopLevelSyntax::Paragraph(t) => BlockView::Paragraph(t@),
            TopLevelSyntax::Quote(v) => BlockView::Quote(strings_view(v@)),
            TopLevelSyntax::ReferenceDefinition(r) => BlockView::ReferenceDefinition(r@),
            TopLevelSyntax::NoteDefinition { id, text } => BlockView::NoteDefinition {
                id: id@,
                text: text@,
            },
            TopLevelSyntax::TOC(t) => BlockView::TOC(t@),
            TopLevelSyntax::PageBreak => BlockView::PageBreak,
            TopLevelSyntax::FactBox { title, body } => BlockView::FactBox {
                title: title@,
                body: Seq::new(
                    body@.len(),
                    |i: int|
                        if 0 <= i < body@.len() {
                            body@[i].model()
                        } else {
                            BlockView::PageBreak
                        },
                ),
            },
        }
    }
}

impl View for TopLevelSyntax {
    type V = BlockView;

    open spec fn view(&self) -> BlockView {
        self.model()
    }
}

/// The views of a sequence of blocks.
pub open spec fn blocks_view(s: Seq<TopLevelSyntax>) -> Seq<BlockView> {
    Seq::new(s.len(), |i: int| s[i]@)
}

/// The view of a fact box in terms of the views of its blocks.
pub proof fn lemma_fact_box_view(title: String, body: Vec<TopLevelSyntax>)
    ensures
        (TopLevelSyntax::FactBox { title, body })@ == (BlockView::FactBox {
            title: title@,
            body: blocks_view(body@),
        }),
{
    assert((TopLevelSyntax::FactBox { title, body })@->FactBox_body =~= blocks_view(body@));
}

} // verus!
