//! The document tree: what a parse produces.

use vstd::prelude::*;
use crate::config::{
    DEFAULT_BIBLIOGRAPHY_TITLE, DEFAULT_BLOG_DIR, DEFAULT_DATA_DIR, DEFAULT_NOTES_TITLE,
    DEFAULT_URL,
};
use crate::frontmatter::{Frontmatter, FrontmatterView};
use crate::ordered_map::OrderedMap;
use crate::reference::{DateView, PmdDate, ReferenceDefinition, ReferenceView};

verus! {

/// A base and what replaces or accompanies it: used by hovers, styles and links.
#[derive(Debug, PartialEq)]
pub struct Alternative {
    pub base: Box<Element>,
    pub alt: Box<Element>,
}

/// Elements in a row.
#[derive(Debug, PartialEq)]
pub struct Span {
    pub elements: Vec<Element>,
}

/// The kind of a list.
#[derive(Debug, PartialEq, Eq, Clone, Copy)]
pub enum ListKind {
    Unordered,
    Numbered,
}

/// An item of a list: its content, with its label where it has one, or a
/// nested list.
#[derive(Debug, PartialEq)]
pub enum ListItem {
    Unordered(Box<Element>),
    Numbered(usize, Box<Element>),
    Alphabetical(String, Box<Element>),
    NumberedRounded(usize, Box<Element>),
    AlphabeticalRounded(String, Box<Element>),
    List(Vec<ListItem>),
}

/// A length with its CSS unit.
#[derive(Debug, PartialEq, Eq, Clone, Copy)]
pub enum Unit {
    Cap(isize),
    Ch(isize),
    Em(isize),
    Ex(isize),
    Ic(isize),
    Lh(isize),
    Rcap(isize),
    Rch(isize),
    Rem(isize),
    Ric(isize),
    Rlh(isize),
    Vh(isize),
    Vw(isize),
    Vmax(isize),
    Vb(isize),
    Vi(isize),
    Cqw(isize),
    Cqh(isize),
    Cqi(isize),
    Cqb(isize),
    Cqmin(isize),
    Cqmax(isize),
    Px(isize),
    Cm(isize),
    Mm(isize),
    Q(isize),
    In(isize),
    Pc(isize),
    Pt(isize),
    Percentage(isize),
}

/// Why a text is no length.
#[derive(Debug, PartialEq, Eq, Clone, Copy)]
pub enum ParseUnitError {
    NotANumber,
    NotAUnit,
}

/// The size of an image: a width, a width and a height, or none.
#[derive(Debug, PartialEq, Eq, Clone, Copy)]
pub enum ImageSize {
    Single(Unit),
    Double(Unit, Unit),
    Unset,
}

/// An image: where it comes from, its alternative text, and its size.
#[derive(Debug, PartialEq)]
pub struct Image {
    pub src: String,
    pub alt: Box<Element>,
    pub size: ImageSize,
}

/// An element of a document.
#[derive(Debug, PartialEq)]
pub enum Element {
    Hoverable(Alternative),
    Styled(Alternative),
    Link(Alternative),
    Header(Box<Element>, usize),
    Italics(Box<Element>),
    Bold(Box<Element>),
    InlineCode(String),
    CodeBlock(String),
    Image(Image),
    FactBox(FactBox),
    Quote(Vec<Element>),
    List(Vec<ListItem>),
    Paragraph(Box<Element>),
    Text(String),
    Span(Span),
    Citation(String),
    Note(String),
    PageBreak,
    TOCLocationMarker,
}

/// A titled sub-document: its own notes and its own body.
#[derive(Debug, PartialEq)]
pub struct FactBox {
    pub title: String,
    pub notes: OrderedMap<(Element, String)>,
    pub body: Vec<(Element, String)>,
}

/// A base and its alternative as plain data.
pub struct AlternativeView {
    pub base: Box<ElementView>,
    pub alt: Box<ElementView>,
}

/// Elements in a row as plain data.
pub struct SpanView {
    pub elements: Seq<ElementView>,
}

/// An item of a list as plain data.
pub enum ListItemView {
    Unordered(Box<ElementView>),
    Numbered(usize, Box<ElementView>),
    Alphabetical(Seq<char>, Box<ElementView>),
    NumberedRounded(usize, Box<ElementView>),
    AlphabeticalRounded(Seq<char>, Box<ElementView>),
    List(Seq<ListItemView>),
}

/// An image as plain data.
pub struct ImageView {
    pub src: Seq<char>,
    pub alt: Box<ElementView>,
    pub size: ImageSize,
}

/// A fact box as plain data.
pub struct FactBoxView {
    pub title: Seq<char>,
    pub notes: Seq<(Seq<char>, (ElementView, Seq<char>))>,
    pub body: Seq<(ElementView, Seq<char>)>,
}

/// An element as plain data.
pub enum ElementView {
    Hoverable(AlternativeView),
    Styled(AlternativeView),
    Link(AlternativeView),
    Header(Box<ElementView>, usize),
    Italics(Box<ElementView>),
    Bold(Box<ElementView>),
    InlineCode(Seq<char>),
    CodeBlock(Seq<char>),
    Image(ImageView),
    FactBox(FactBoxView),
    Quote(Seq<ElementView>),
    List(Seq<ListItemView>),
    Paragraph(Box<ElementView>),
    Text(Seq<char>),
    Span(SpanView),
    Citation(Seq<char>),
    Note(Seq<char>),
    PageBreak,
    TOCLocationMarker,
}

impl ListItem {
    /// The value as plain data.
    pub open spec fn model(&self) -> ListItemView
        decreases self,
    {
        match self {
            ListItem::Unordered(e) => ListItemView::Unordered(Box::new(e.model())),
            ListItem::Numbered(n, e) => ListItemView::Numbered(*n, Box::new(e.model())),
            ListItem::Alphabetical(l, e) => ListItemView::Alphabetical(l@, Box::new(e.model())),
            ListItem::NumberedRounded(n, e) => ListItemView::NumberedRounded(
                *n,
                Box::new(e.model()),
            ),
            ListItem::AlphabeticalRounded(l, e) => ListItemView::AlphabeticalRounded(
                l@,
                Box::new(e.model()),
            ),
            ListItem::List(v) => ListItemView::List(
                Seq::new(
                    v@.len(),
                    |i: int|
                        if 0 <= i < v@.len() {
                            v@[i].model()
                        } else {
                            ListItemView::List(Seq::empty())
                        },
                ),
            ),
        }
    }
}

impl Element {
    /// The value as plain data.
    pub open spec fn model(&self) -> ElementView
        decreases self,
    {
        match self {
            Element::Hoverable(a) => ElementView::Hoverable(
                AlternativeView { base: Box::new(a.base.model()), alt: Box::new(a.alt.model()) },
            ),
            Element::Styled(a) => ElementView::Styled(
                AlternativeView { base: Box::new(a.base.model()), alt: Box::new(a.alt.model()) },
            ),
            Element::Link(a) => ElementView::Link(
                AlternativeView { base: Box::new(a.base.model()), alt: Box::new(a.alt.model()) },
            ),
            Element::Header(e, level) => ElementView::Header(Box::new(e.model()), *level),
            Element::Italics(e) => ElementView::Italics(Box::new(e.model())),
            Element::Bold(e) => ElementView::Bold(Box::new(e.model())),
            Element::InlineCode(s) => ElementView::InlineCode(s@),
            Element::CodeBlock(s) => ElementView::CodeBlock(s@),
            Element::Image(img) => ElementView::Image(
                ImageView { src: img.src@, alt: Box::new(img.alt.model()), size: img.size },
            ),
            Element::FactBox(fb) => ElementView::FactBox(
                FactBoxView {
                    title: fb.title@,
                    notes: Seq::new(
                        fb.notes.entries@.len(),
                        |i: int|
                            if 0 <= i < fb.notes.entries@.len() {
                                (
                                    fb.notes.entries@[i].0@,
                                    (fb.notes.entries@[i].1.0.model(), fb.notes.entries@[i].1.1@),
                                )
                            } else {
                                (Seq::empty(), (ElementView::PageBreak, Seq::empty()))
                            },
                    ),
                    body: Seq::new(
                        fb.body@.len(),
                        |i: int|
                            if 0 <= i < fb.body@.len() {
                                (fb.body@[i].0.model(), fb.body@[i].1@)
                            } else {
                                (ElementView::PageBreak, Seq::empty())
                            },
                    ),
                },
            ),
            Element::Quote(v) => ElementView::Quote(
                Seq::new(
                    v@.len(),
                    |i: int|
                        if 0 <= i < v@.len() {
                            v@[i].model()
                        } else {
                            ElementView::PageBreak
                        },
                ),
            ),
            Element::List(v) => ElementView::List(
                Seq::new(
                    v@.len(),
                    |i: int|
                        if 0 <= i < v@.len() {
                            v@[i].model()
                        } else {
                            ListItemView::List(Seq::empty())
                        },
                ),
            ),
            Element::Paragraph(e) => ElementView::Paragraph(Box::new(e.model())),
            Element::Text(s) => ElementView::Text(s@),
            Element::Span(sp) => ElementView::Span(
                SpanView {
                    elements: Seq::new(
                        sp.elements@.len(),
                        |i: int|
                            if 0 <= i < sp.elements@.len() {
                                sp.elements@[i].model()
                            } else {
                                ElementView::PageBreak
                            },
                    ),
                },
            ),
            Element::Citation(s) => ElementView::Citation(s@),
            Element::Note(s) => ElementView::Note(s@),
            Element::PageBreak => ElementView::PageBreak,
            Element::TOCLocationMarker => ElementView::TOCLocationMarker,
        }
    }
}

impl View for Element {
    type V = ElementView;

    open spec fn view(&self) -> ElementView {
        self.model()
    }
}

impl View for ListItem {
    type V = ListItemView;

    open spec fn view(&self) -> ListItemView {
        self.model()
    }
}

/// The views of a sequence of elements.
pub open spec fn elements_view(s: Seq<Element>) -> Seq<ElementView> {
    Seq::new(s.len(), |i: int| s[i]@)
}

/// The views of a sequence of list items.
pub open spec fn items_view(s: Seq<ListItem>) -> Seq<ListItemView> {
    Seq::new(s.len(), |i: int| s[i]@)
}

/// The views of the entries of a body: each element with its slug.
pub open spec fn body_view(s: Seq<(Element, String)>) -> Seq<(ElementView, Seq<char>)> {
    Seq::new(s.len(), |i: int| (s[i].0@, s[i].1@))
}

/// The views of the notes of a fact box.
pub open spec fn box_notes_view(s: Seq<(String, (Element, String))>) -> Seq<
    (Seq<char>, (ElementView, Seq<char>)),
> {
    Seq::new(s.len(), |i: int| (s[i].0@, (s[i].1.0@, s[i].1.1@)))
}

impl View for Alternative {
    type V = AlternativeView;

    open spec fn view(&self) -> AlternativeView {
        AlternativeView { base: Box::new(self.base@), alt: Box::new(self.alt@) }
    }
}

impl View for Span {
    type V = SpanView;

    open spec fn view(&self) -> SpanView {
        SpanView { elements: elements_view(self.elements@) }
    }
}

impl View for Image {
    type V = ImageView;

    open spec fn view(&self) -> ImageView {
        ImageView { src: self.src@, alt: Box::new(self.alt@), size: self.size }
    }
}

impl View for FactBox {
    type V = FactBoxView;

    open spec fn view(&self) -> FactBoxView {
        FactBoxView {
            title: self.title@,
            notes: box_notes_view(self.notes.entries@),
            body: body_view(self.body@),
        }
    }
}

/// What the view of each kind of element is, in terms of the views of its parts.
pub proof fn lemma_element_view(e: Element)
    ensures
        e matches Element::Hoverable(a) ==> e@ == ElementView::Hoverable(a@),
        e matches Element::Styled(a) ==> e@ == ElementView::Styled(a@),
        e matches Element::Link(a) ==> e@ == ElementView::Link(a@),
        e matches Element::Header(x, n) ==> e@ == ElementView::Header(Box::new(x@), n),
        e matches Element::Italics(x) ==> e@ == ElementView::Italics(Box::new(x@)),
        e matches Element::Bold(x) ==> e@ == ElementView::Bold(Box::new(x@)),
        e matches Element::Paragraph(x) ==> e@ == ElementView::Paragraph(Box::new(x@)),
        e matches Element::InlineCode(s) ==> e@ == ElementView::InlineCode(s@),
        e matches Element::CodeBlock(s) ==> e@ == ElementView::CodeBlock(s@),
        e matches Element::Text(s) ==> e@ == ElementView::Text(s@),
        e matches Element::Citation(s) ==> e@ == ElementView::Citation(s@),
        e matches Element::Note(s) ==> e@ == ElementView::Note(s@),
        e matches Element::Image(i) ==> e@ == ElementView::Image(i@),
        e matches Element::FactBox(f) ==> e@ == ElementView::FactBox(f@),
        e matches Element::Quote(v) ==> e@ == ElementView::Quote(elements_view(v@)),
        e matches Element::List(v) ==> e@ == ElementView::List(items_view(v@)),
        e matches Element::Span(s) ==> e@ == ElementView::Span(s@),
        e is PageBreak ==> e@ == ElementView::PageBreak,
        e is TOCLocationMarker ==> e@ == ElementView::TOCLocationMarker,
{
    match e {
        Element::FactBox(f) => {
            assert(e@->FactBox_0.notes =~= f@.notes);
            assert(e@->FactBox_0.body =~= f@.body);
        },
        Element::Quote(v) => {
            assert(e@->Quote_0 =~= elements_view(v@));
        },
        Element::List(v) => {
            assert(e@->List_0 =~= items_view(v@));
        },
        Element::Span(s) => {
            assert(e@->Span_0.elements =~= s@.elements);
        },
        _ => {},
    }
}

/// What the view of each kind of list item is, in terms of the views of its parts.
pub proof fn lemma_item_view(item: ListItem)
    ensures
        item matches ListItem::Unordered(e) ==> item@ == ListItemView::Unordered(Box::new(e@)),
        item matches ListItem::Numbered(n, e) ==> item@ == ListItemView::Numbered(
            n,
            Box::new(e@),
        ),
        item matches ListItem::Alphabetical(l, e) ==> item@ == ListItemView::Alphabetical(
            l@,
            Box::new(e@),
        ),
        item matches ListItem::NumberedRounded(n, e) ==> item@ == ListItemView::NumberedRounded(
            n,
            Box::new(e@),
        ),
        item matches ListItem::AlphabeticalRounded(l, e) ==> item@
            == ListItemView::AlphabeticalRounded(l@, Box::new(e@)),
        item matches ListItem::List(v) ==> item@ == ListItemView::List(items_view(v@)),
{
    match item {
        ListItem::List(v) => {
            assert(item@->List_0 =~= items_view(v@));
        },
        _ => {},
    }
}

/// The table of contents: its title, the index in the body at which it
/// stands, the deepest level among its entries, and its entries, each with
/// its level and the slug it leads to.
#[derive(Debug, PartialEq)]
pub struct TableOfContent {
    pub title: String,
    pub index: usize,
    pub max_depth: usize,
    pub headers: Vec<(Box<Element>, usize, String)>,
}

/// A table of contents as plain data.
pub struct TocView {
    pub title: Seq<char>,
    pub index: usize,
    pub max_depth: usize,
    pub headers: Seq<(ElementView, usize, Seq<char>)>,
}

/// The views of the entries of a table of contents.
pub open spec fn headers_view(s: Seq<(Box<Element>, usize, String)>) -> Seq<
    (ElementView, usize, Seq<char>),
> {
    Seq::new(s.len(), |i: int| (s[i].0@, s[i].1, s[i].2@))
}

impl View for TableOfContent {
    type V = TocView;

    open spec fn view(&self) -> TocView {
        TocView {
            title: self.title@,
            index: self.index,
            max_depth: self.max_depth,
            headers: headers_view(self.headers@),
        }
    }
}

/// What a document says about itself.
#[derive(Debug, PartialEq)]
pub struct MetaData {
    pub title: String,
    pub subtitle: String,
    pub banner: String,
    pub url: String,
    pub data_dir: String,
    pub blog_dir: String,
    pub date_written: PmdDate,
    pub last_update: PmdDate,
    pub hide_references: bool,
    pub hide_notes: bool,
    pub hide_contacts: bool,
    pub toc: Option<TableOfContent>,
    pub bibliography_title: String,
    pub notes_title: String,
    pub frontmatter: Option<Frontmatter>,
}

/// The metadata of a document as plain data.
pub struct MetaView {
    pub title: Seq<char>,
    pub subtitle: Seq<char>,
    pub banner: Seq<char>,
    pub url: Seq<char>,
    pub data_dir: Seq<char>,
    pub blog_dir: Seq<char>,
    pub date_written: DateView,
    pub last_update: DateView,
    pub hide_references: bool,
    pub hide_notes: bool,
    pub hide_contacts: bool,
    pub toc: Option<TocView>,
    pub bibliography_title: Seq<char>,
    pub notes_title: Seq<char>,
    pub frontmatter: Option<FrontmatterView>,
}

impl View for MetaData {
    type V = MetaView;

    open spec fn view(&self) -> MetaView {
        MetaView {
            title: self.title@,
            subtitle: self.subtitle@,
            banner: self.banner@,
            url: self.url@,
            data_dir: self.data_dir@,
            blog_dir: self.blog_dir@,
            date_written: self.date_written@,
            last_update: self.last_update@,
            hide_references: self.hide_references,
            hide_notes: self.hide_notes,
            hide_contacts: self.hide_contacts,
            toc: match self.toc {
                Some(t) => Some(t@),
                None => None,
            },
            bibliography_title: self.bibliography_title@,
            notes_title: self.notes_title@,
            frontmatter: match self.frontmatter {
                Some(f) => Some(f@),
                None => None,
            },
        }
    }
}

/// The metadata of a document that says nothing about itself.
pub open spec fn default_meta() -> MetaView {
    MetaView {
        title: Seq::empty(),
        subtitle: Seq::empty(),
        banner: Seq::empty(),
        url: DEFAULT_URL@,
        data_dir: DEFAULT_DATA_DIR@,
        blog_dir: DEFAULT_BLOG_DIR@,
        date_written: DateView::Unset,
        last_update: DateView::Unset,
        hide_references: false,
        hide_notes: false,
        hide_contacts: false,
        toc: None,
        bibliography_title: DEFAULT_BIBLIOGRAPHY_TITLE@,
        notes_title: DEFAULT_NOTES_TITLE@,
        frontmatter: None,
    }
}

impl MetaData {
    /// The metadata of a document that says nothing about itself.
    pub fn default() -> (r: Self)
        ensures
            r@ == default_meta(),
    {
        MetaData {
            title: String::new(),
            subtitle: String::new(),
            banner: String::new(),
            url: String::from_str(DEFAULT_URL),
            data_dir: String::from_str(DEFAULT_DATA_DIR),
            blog_dir: String::from_str(DEFAULT_BLOG_DIR),
            date_written: PmdDate::Unset,
            last_update: PmdDate::Unset,
            toc: None,
            hide_references: false,
            hide_notes: false,
            hide_contacts: false,
            bibliography_title: String::from_str(DEFAULT_BIBLIOGRAPHY_TITLE),
            notes_title: String::from_str(DEFAULT_NOTES_TITLE),
            frontmatter: None,
        }
    }
}

/// A parsed document.
#[derive(Debug, PartialEq)]
pub struct AssDownDocument {
    pub meta: MetaData,
    pub bibliography_id: String,
    pub notes_id: String,
    pub references: OrderedMap<ReferenceDefinition>,
    pub notes: OrderedMap<Element>,
    pub body: Vec<(Element, String)>,
}

/// A document as plain data.
pub struct DocumentView {
    pub meta: MetaView,
    pub bibliography_id: Seq<char>,
    pub notes_id: Seq<char>,
    pub references: Seq<(Seq<char>, ReferenceView)>,
    pub notes: Seq<(Seq<char>, ElementView)>,
    pub body: Seq<(ElementView, Seq<char>)>,
}

/// The views of the notes of a document.
pub open spec fn notes_view(s: Seq<(String, Element)>) -> Seq<(Seq<char>, ElementView)> {
    Seq::new(s.len(), |i: int| (s[i].0@, s[i].1@))
}

/// The views of the references of a document.
pub open spec fn references_view(s: Seq<(String, ReferenceDefinition)>) -> Seq<
    (Seq<char>, ReferenceView),
> {
    Seq::new(s.len(), |i: int| (s[i].0@, s[i].1@))
}

impl View for AssDownDocument {
    type V = DocumentView;

    open spec fn view(&self) -> DocumentView {
        DocumentView {
            meta: self.meta@,
            bibliography_id: self.bibliography_id@,
            notes_id: self.notes_id@,
            references: references_view(self.references.entries@),
            notes: notes_view(self.notes.entries@),
            body: body_view(self.body@),
        }
    }
}

fn clone_items(v: &Vec<ListItem>) -> (r: Vec<ListItem>)
    ensures
        items_view(r@) == items_view(v@),
    decreases v,
{
    let mut out: Vec<ListItem> = Vec::new();
    let mut i: usize = 0;
    while i < v.len()
        invariant
            i <= v@.len(),
            out@.len() == i,
            forall|j: int| 0 <= j < i ==> (#[trigger] out@[j])@ == v@[j]@,
        decreases v.len() - i,
    {
        out.push(clone_item(&v[i]));
        i += 1;
    }
    out
}

fn clone_item(item: &ListItem) -> (r: ListItem)
    ensures
        r@ == item@,
    decreases item,
{
    proof {
        lemma_item_view(*item);
    }
    let r = match item {
        ListItem::Unordered(e) => ListItem::Unordered(Box::new(clone_element(e))),
        ListItem::Numbered(n, e) => ListItem::Numbered(*n, Box::new(clone_element(e))),
        ListItem::Alphabetical(l, e) => ListItem::Alphabetical(
            l.clone(),
            Box::new(clone_element(e)),
        ),
        ListItem::NumberedRounded(n, e) => ListItem::NumberedRounded(
            *n,
            Box::new(clone_element(e)),
        ),
        ListItem::AlphabeticalRounded(l, e) => ListItem::AlphabeticalRounded(
            l.clone(),
            Box::new(clone_element(e)),
        ),
        ListItem::List(v) => ListItem::List(clone_items(v)),
    };
    proof {
        lemma_item_view(r);
    }
    r
}

fn clone_elements(v: &Vec<Element>) -> (r: Vec<Element>)
    ensures
        elements_view(r@) == elements_view(v@),
    decreases v,
{
    let mut out: Vec<Element> = Vec::new();
    let mut i: usize = 0;
    while i < v.len()
        invariant
            i <= v@.len(),
            out@.len() == i,
            forall|j: int| 0 <= j < i ==> (#[trigger] out@[j])@ == v@[j]@,
        decreases v.len() - i,
    {
        out.push(clone_element(&v[i]));
        i += 1;
    }
    out
}

fn clone_body(v: &Vec<(Element, String)>) -> (r: Vec<(Element, String)>)
    ensures
        body_view(r@) == body_view(v@),
    decreases v,
{
    let mut out: Vec<(Element, String)> = Vec::new();
    let mut i: usize = 0;
    while i < v.len()
        invariant
            i <= v@.len(),
            out@.len() == i,
            forall|j: int|
                0 <= j < i ==> (#[trigger] out@[j]).0@ == v@[j].0@ && out@[j].1@ == v@[j].1@,
        decreases v.len() - i,
    {
        out.push((clone_element(&v[i].0), v[i].1.clone()));
        i += 1;
    }
    out
}

fn clone_box_notes(v: &Vec<(String, (Element, String))>) -> (r: Vec<(String, (Element, String))>)
    ensures
        box_notes_view(r@) == box_notes_view(v@),
        forall|i: int| 0 <= i < v@.len() ==> (#[trigger] r@[i]).0@ == v@[i].0@,
        r@.len() == v@.len(),
    decreases v,
{
    let mut out: Vec<(String, (Element, String))> = Vec::new();
    let mut i: usize = 0;
    while i < v.len()
        invariant
            i <= v@.len(),
            out@.len() == i,
            forall|j: int|
                0 <= j < i ==> (#[trigger] out@[j]).0@ == v@[j].0@ && out@[j].1.0@ == v@[j].1.0@
                    && out@[j].1.1@ == v@[j].1.1@,
        decreases v.len() - i,
    {
        out.push((v[i].0.clone(), (clone_element(&v[i].1.0), v[i].1.1.clone())));
        i += 1;
    }
    out
}

fn clone_pair(a: &Alternative) -> (r: Alternative)
    ensures
        r@ == a@,
    decreases a,
{
    Alternative { base: Box::new(clone_element(&a.base)), alt: Box::new(clone_element(&a.alt)) }
}

/// A copy of an element.
pub fn clone_element(e: &Element) -> (r: Element)
    ensures
        r@ == e@,
    decreases e,
{
    proof {
        lemma_element_view(*e);
    }
    let r = match e {
        Element::Hoverable(a) => Element::Hoverable(clone_pair(a)),
        Element::Styled(a) => Element::Styled(clone_pair(a)),
        Element::Link(a) => Element::Link(clone_pair(a)),
        Element::Header(x, level) => Element::Header(Box::new(clone_element(x)), *level),
        Element::Italics(x) => Element::Italics(Box::new(clone_element(x))),
        Element::Bold(x) => Element::Bold(Box::new(clone_element(x))),
        Element::InlineCode(s) => Element::InlineCode(s.clone()),
        Element::CodeBlock(s) => Element::CodeBlock(s.clone()),
        Element::Image(img) => Element::Image(
            Image { src: img.src.clone(), alt: Box::new(clone_element(&img.alt)), size: img.size },
        ),
        Element::FactBox(fb) => Element::FactBox(
            FactBox {
                title: fb.title.clone(),
                notes: OrderedMap { entries: clone_box_notes(&fb.notes.entries) },
                body: clone_body(&fb.body),
            },
        ),
        Element::Quote(v) => Element::Quote(clone_elements(v)),
        Element::List(v) => Element::List(clone_items(v)),
        Element::Paragraph(x) => Element::Paragraph(Box::new(clone_element(x))),
        Element::Text(s) => Element::Text(s.clone()),
        Element::Span(sp) => Element::Span(Span { elements: clone_elements(&sp.elements) }),
        Element::Citation(s) => Element::Citation(s.clone()),
        Element::Note(s) => Element::Note(s.clone()),
        Element::PageBreak => Element::PageBreak,
        Element::TOCLocationMarker => Element::TOCLocationMarker,
    };
    proof {
        lemma_element_view(r);
    }
    r
}

impl Clone for Element {
    fn clone(&self) -> (r: Self)
        ensures
            r@ == self@,
    {
        clone_element(self)
    }
}

impl Clone for ListItem {
    fn clone(&self) -> (r: Self)
        ensures
            r@ == self@,
    {
        clone_item(self)
    }
}

} // verus!
