//! From blocks to elements: each kind of block becomes its element, with the
//! slug proposed for it.

use vstd::prelude::*;
use crate::error::{Diagnostic, ParseError};
use crate::inline::{inline_parse, parse_inline};
use crate::parser_util::{InfoView, ParserInfo};
use crate::slugs::{dedup, deduped, lemma_deduped, lemma_distinct_push, lemma_strings_push};
use crate::structs::{
    body_view, elements_view, items_view, lemma_element_view, lemma_item_view, Element,
    ElementView, Image, ImageSize, ImageView, ListItem, ListItemView, ParseUnitError, Unit,
};
use crate::text::{append_chars, decimal, decimal_chars, has_ink, to_chars, to_string};
use crate::toplevel::structs as toplevel;
use crate::toplevel::structs::{BlockView, TopLevelSyntax};
use crate::units::unit_of;

verus! {

/// The element that a block gives, with its slug, or nothing where the block
/// is of another kind.
#[derive(Debug, PartialEq)]
pub enum MaybeElement {
    Yes((Element, String)),
    No,
}

/// What a block gives: its element, the slug proposed for it, and the state
/// of the assembly behind it.
pub struct Made {
    pub element: ElementView,
    pub slug: Seq<char>,
    pub info: InfoView,
}

/// Whether a result is the element and the slug of `m`, with the assembly in
/// the state of `m`.
pub open spec fn is_made(r: Result<MaybeElement, ParseError>, info: ParserInfo, m: Made) -> bool {
    r matches Ok(MaybeElement::Yes(p)) && p.0@ == m.element && p.1@ == m.slug && info@ == m.info
}

/// Whether a result says that the block is of another kind, with the
/// assembly as it was.
pub open spec fn is_skipped(
    r: Result<MaybeElement, ParseError>,
    info: ParserInfo,
    before: ParserInfo,
) -> bool {
    r matches Ok(MaybeElement::No) && info@ == before@
}

/// Whether a result is what `m` asks for: the element made, or the error
/// with the assembly as it was.
pub open spec fn is_outcome(
    r: Result<MaybeElement, ParseError>,
    info: ParserInfo,
    before: ParserInfo,
    m: Result<Made, ParseError>,
) -> bool {
    match m {
        Ok(made) => is_made(r, info, made),
        Err(e) => r matches Err(x) && x == e && info@ == before@,
    }
}

/// A name and a number with a dash between them.
pub open spec fn counted_slug(name: Seq<char>, n: usize) -> Seq<char> {
    name + seq!['-'] + decimal(n as nat)
}

/// A name and a number with a dash between them.
pub fn counted(name: &str, n: usize) -> (r: String)
    ensures
        r@ == counted_slug(name@, n),
{
    let mut v = to_chars(name);
    v.push('-');
    let digits = decimal_chars(n);
    append_chars(&mut v, &digits);
    to_string(&v)
}

/// The slug of the `n`-th code block: `codeblock` for the first, and
/// `codeblock` with its number for the others.
pub open spec fn code_slug(n: usize) -> Seq<char> {
    if n == 0 {
        "codeblock"@
    } else {
        counted_slug("codeblock"@, n)
    }
}

/// A page break gives the element of a page break, without a slug.
pub fn parse_pagebreak_element(info: &mut ParserInfo, elem: &TopLevelSyntax) -> (r: Result<
    MaybeElement,
    ParseError,
>)
    ensures
        elem@ is PageBreak ==> is_made(
            r,
            *final(info),
            Made { element: ElementView::PageBreak, slug: Seq::empty(), info: old(info)@ },
        ),
        !(elem@ is PageBreak) ==> is_skipped(r, *final(info), *old(info)),
{
    match elem {
        TopLevelSyntax::PageBreak => Ok(MaybeElement::Yes((Element::PageBreak, String::new()))),
        _ => Ok(MaybeElement::No),
    }
}

/// A header gives a page break in its place.
pub fn parse_frontmatter_element(info: &mut ParserInfo, elem: &TopLevelSyntax) -> (r: Result<
    MaybeElement,
    ParseError,
>)
    ensures
        elem@ is FrontMatter ==> is_made(
            r,
            *final(info),
            Made { element: ElementView::PageBreak, slug: Seq::empty(), info: old(info)@ },
        ),
        !(elem@ is FrontMatter) ==> is_skipped(r, *final(info), *old(info)),
{
    match elem {
        TopLevelSyntax::FrontMatter(_) => Ok(
            MaybeElement::Yes((Element::PageBreak, String::new())),
        ),
        _ => Ok(MaybeElement::No),
    }
}

/// What a code block gives.
pub open spec fn made_codeblock(info: InfoView, text: Seq<char>) -> Made {
    Made {
        element: ElementView::CodeBlock(text),
        slug: code_slug(info.num_codeblocks),
        info: InfoView { num_codeblocks: (info.num_codeblocks + 1) as usize, ..info },
    }
}

/// A code block gives its element, with `codeblock` and its number as its
/// slug.
pub fn parse_codeblock_element(info: &mut ParserInfo, elem: &TopLevelSyntax) -> (r: Result<
    MaybeElement,
    ParseError,
>)
    requires
        old(info).num_codeblocks < usize::MAX,
    ensures
        elem@ matches BlockView::CodeBlock(text) ==> is_made(
            r,
            *final(info),
            made_codeblock(old(info)@, text),
        ),
        !(elem@ is CodeBlock) ==> is_skipped(r, *final(info), *old(info)),
{
    match elem {
        TopLevelSyntax::CodeBlock(block) => {
            let id = info.num_codeblocks;
            info.num_codeblocks += 1;
            let e = Element::CodeBlock(block.clone());
            let slug = if id == 0 {
                String::from_str("codeblock")
            } else {
                counted("codeblock", id)
            };
            Ok(MaybeElement::Yes((e, slug)))
        },
        _ => Ok(MaybeElement::No),
    }
}

/// The size of an image as lengths.
pub open spec fn image_size_of(size: toplevel::ImageSizeView) -> Result<ImageSize, ParseUnitError> {
    match size {
        toplevel::ImageSizeView::Unset => Ok(ImageSize::Unset),
        toplevel::ImageSizeView::Single(x) => match unit_of(x) {
            Ok(w) => Ok(ImageSize::Single(w)),
            Err(e) => Err(e),
        },
        toplevel::ImageSizeView::Double(x, y) => match unit_of(x) {
            Err(e) => Err(e),
            Ok(w) => match unit_of(y) {
                Ok(h) => Ok(ImageSize::Double(w, h)),
                Err(e) => Err(e),
            },
        },
    }
}

/// What an image gives: its size must be made of lengths, and its
/// alternative text is parsed as inline text; the slug is that of the
/// alternative text, or `image` with the number of the image where that is
/// empty. A size that is set is noted as ignored.
pub open spec fn made_image(info: InfoView, img: toplevel::ImageView) -> Result<Made, ParseError> {
    match image_size_of(img.size) {
        Err(e) => Err(ParseError::BadImageSize(e)),
        Ok(size) => match inline_parse(img.alt) {
            Err(e) => Err(e),
            Ok((alt, id)) => Ok(
                Made {
                    element: ElementView::Image(
                        ImageView { src: img.image, alt: Box::new(alt), size },
                    ),
                    slug: if id.len() == 0 {
                        counted_slug("image"@, info.num_image)
                    } else {
                        id
                    },
                    info: InfoView {
                        num_image: (info.num_image + 1) as usize,
                        diagnostics: if size == ImageSize::Unset {
                            info.diagnostics
                        } else {
                            info.diagnostics.push(Diagnostic::ImageSizeIgnored)
                        },
                        ..info
                    },
                },
            ),
        },
    }
}

fn image_size(size: &toplevel::ImageSize) -> (r: Result<ImageSize, ParseUnitError>)
    ensures
        r == image_size_of(size@),
{
    match size {
        toplevel::ImageSize::Unset => Ok(ImageSize::Unset),
        toplevel::ImageSize::Single(x) => match Unit::parse(x.as_str()) {
            Ok(w) => Ok(ImageSize::Single(w)),
            Err(e) => Err(e),
        },
        toplevel::ImageSize::Double(x, y) => match Unit::parse(x.as_str()) {
            Err(e) => Err(e),
            Ok(w) => match Unit::parse(y.as_str()) {
                Ok(h) => Ok(ImageSize::Double(w, h)),
                Err(e) => Err(e),
            },
        },
    }
}

/// An image gives its element; see [`made_image`].
pub fn parse_image_element(info: &mut ParserInfo, elem: &TopLevelSyntax) -> (r: Result<
    MaybeElement,
    ParseError,
>)
    requires
        old(info).num_image < usize::MAX,
    ensures
        elem@ matches BlockView::Image(img) ==> is_outcome(
            r,
            *final(info),
            *old(info),
            made_image(old(info)@, img),
        ),
        !(elem@ is Image) ==> is_skipped(r, *final(info), *old(info)),
{
    match elem {
        TopLevelSyntax::Image(img) => {
            let size = match image_size(&img.size) {
                Ok(s) => s,
                Err(e) => {
                    return Err(ParseError::BadImageSize(e));
                },
            };
            let (alt, id) = match parse_inline(&img.alt) {
                Ok(t) => t,
                Err(e) => {
                    return Err(e);
                },
            };
            match size {
                ImageSize::Unset => {},
                _ => {
                    info.diagnostics.push(Diagnostic::ImageSizeIgnored);
                },
            }
            let num_image = info.num_image;
            info.num_image += 1;
            let slug = if id.as_str().unicode_len() == 0 {
                counted("image", num_image)
            } else {
                id
            };
            let e = Element::Image(Image { src: img.image.clone(), alt, size });
            Ok(MaybeElement::Yes((e, slug)))
        },
        _ => Ok(MaybeElement::No),
    }
}

/// What a heading gives: its text parsed as inline text, with the slug of
/// that text.
pub open spec fn made_heading(info: InfoView, text: Seq<char>, level: usize) -> Result<
    Made,
    ParseError,
> {
    match inline_parse(text) {
        Err(e) => Err(e),
        Ok((object, id)) => Ok(
            Made { element: ElementView::Header(Box::new(object), level), slug: id, info },
        ),
    }
}

/// A heading gives its element; see [`made_heading`].
pub fn parse_heading_element(info: &mut ParserInfo, elem: &TopLevelSyntax) -> (r: Result<
    MaybeElement,
    ParseError,
>)
    ensures
        elem@ matches BlockView::Heading(text, level) ==> is_outcome(
            r,
            *final(info),
            *old(info),
            made_heading(old(info)@, text, level),
        ),
        !(elem@ is Heading) ==> is_skipped(r, *final(info), *old(info)),
{
    match elem {
        TopLevelSyntax::Heading(text, level) => {
            let (object, id) = match parse_inline(text) {
                Ok(t) => t,
                Err(e) => {
                    return Err(e);
                },
            };
            let e = Element::Header(object, *level);
            Ok(MaybeElement::Yes((e, id)))
        },
        _ => Ok(MaybeElement::No),
    }
}

/// What a paragraph gives: its text parsed as inline text, with the slug of
/// that text.
pub open spec fn made_paragraph(info: InfoView, text: Seq<char>) -> Result<Made, ParseError> {
    match inline_parse(text) {
        Err(e) => Err(e),
        Ok((object, id)) => Ok(
            Made { element: ElementView::Paragraph(Box::new(object)), slug: id, info },
        ),
    }
}

/// A paragraph gives its element; see [`made_paragraph`].
pub fn parse_paragraph_element(info: &mut ParserInfo, elem: &TopLevelSyntax) -> (r: Result<
    MaybeElement,
    ParseError,
>)
    ensures
        elem@ matches BlockView::Paragraph(text) ==> is_outcome(
            r,
            *final(info),
            *old(info),
            made_paragraph(old(info)@, text),
        ),
        !(elem@ is Paragraph) ==> is_skipped(r, *final(info), *old(info)),
{
    match elem {
        TopLevelSyntax::Paragraph(text) => {
            let (object, id) = match parse_inline(text) {
                Ok(t) => t,
                Err(e) => {
                    return Err(e);
                },
            };
            let e = Element::Paragraph(object);
            Ok(MaybeElement::Yes((e, id)))
        },
        _ => Ok(MaybeElement::No),
    }
}

/// The lines of a quote from index `from` on, each parsed as inline text and
/// added to `acc`.
pub open spec fn quote_elements(lines: Seq<Seq<char>>, from: int, acc: Seq<ElementView>) -> Result<
    Seq<ElementView>,
    ParseError,
>
    decreases lines.len() - from,
{
    if from < 0 || from >= lines.len() {
        Ok(acc)
    } else {
        match inline_parse(lines[from]) {
            Err(e) => Err(e),
            Ok((object, _)) => quote_elements(lines, from + 1, acc.push(object)),
        }
    }
}

/// What a quote gives: its lines parsed as inline text, with `quote` and the
/// number of the quote as its slug.
pub open spec fn made_quote(info: InfoView, lines: Seq<Seq<char>>) -> Result<Made, ParseError> {
    match quote_elements(lines, 0, Seq::empty()) {
        Err(e) => Err(e),
        Ok(elements) => Ok(
            Made {
                element: ElementView::Quote(elements),
                slug: counted_slug("quote"@, info.num_quotes),
                info: InfoView { num_quotes: (info.num_quotes + 1) as usize, ..info },
            },
        ),
    }
}

/// A quote gives its element; see [`made_quote`].
pub fn parse_quote_element(info: &mut ParserInfo, elem: &TopLevelSyntax) -> (r: Result<
    MaybeElement,
    ParseError,
>)
    requires
        old(info).num_quotes < usize::MAX,
    ensures
        elem@ matches BlockView::Quote(lines) ==> is_outcome(
            r,
            *final(info),
            *old(info),
            made_quote(old(info)@, lines),
        ),
        !(elem@ is Quote) ==> is_skipped(r, *final(info), *old(info)),
{
    match elem {
        TopLevelSyntax::Quote(list) => {
            let result = match quote_lines(list) {
                Ok(v) => v,
                Err(e) => {
                    return Err(e);
                },
            };
            let id = info.num_quotes;
            info.num_quotes += 1;
            let e = Element::Quote(result);
            proof {
                lemma_element_view(e);
            }
            Ok(MaybeElement::Yes((e, counted("quote", id))))
        },
        _ => Ok(MaybeElement::No),
    }
}

fn quote_lines(list: &Vec<String>) -> (r: Result<Vec<Element>, ParseError>)
    ensures
        match quote_elements(toplevel::strings_view(list@), 0, Seq::empty()) {
            Ok(elements) => r matches Ok(v) && elements_view(v@) == elements,
            Err(e) => r matches Err(x) && x == e,
        },
{
    let mut result: Vec<Element> = Vec::new();
    let mut i: usize = 0;
    let ghost lines = toplevel::strings_view(list@);
    assert(elements_view(result@) =~= Seq::empty());
    while i < list.len()
        invariant
            i <= list@.len(),
            lines == toplevel::strings_view(list@),
            quote_elements(lines, i as int, elements_view(result@)) == quote_elements(
                lines,
                0,
                Seq::empty(),
            ),
        decreases list.len() - i,
    {
        let (object, _) = match parse_inline(&list[i]) {
            Ok(t) => t,
            Err(e) => {
                return Err(e);
            },
        };
        proof {
            crate::inline::lemma_elements_push(result@, *object);
        }
        result.push(*object);
        i += 1;
    }
    Ok(result)
}

/// The list item that an item of a block gives: its text parsed as inline
/// text, and the items of a nested list each in turn.
pub open spec fn item_converted(item: toplevel::ListItemView) -> Result<ListItemView, ParseError>
    decreases item, 0int,
{
    match item {
        toplevel::ListItemView::InnerList(v) => match items_converted(v, 0, Seq::empty()) {
            Ok(items) => Ok(ListItemView::List(items)),
            Err(e) => Err(e),
        },
        toplevel::ListItemView::Unordered(t) => match inline_parse(t) {
            Ok((e, _)) => Ok(ListItemView::Unordered(Box::new(e))),
            Err(e) => Err(e),
        },
        toplevel::ListItemView::Numbered(n, t) => match inline_parse(t) {
            Ok((e, _)) => Ok(ListItemView::Numbered(n, Box::new(e))),
            Err(e) => Err(e),
        },
        toplevel::ListItemView::Alphabetical(l, t) => match inline_parse(t) {
            Ok((e, _)) => Ok(ListItemView::Alphabetical(l, Box::new(e))),
            Err(e) => Err(e),
        },
        toplevel::ListItemView::NumberedRounded(n, t) => match inline_parse(t) {
            Ok((e, _)) => Ok(ListItemView::NumberedRounded(n, Box::new(e))),
            Err(e) => Err(e),
        },
        toplevel::ListItemView::AlphabeticalRounded(l, t) => match inline_parse(t) {
            Ok((e, _)) => Ok(ListItemView::AlphabeticalRounded(l, Box::new(e))),
            Err(e) => Err(e),
        },
    }
}

/// The list items that the items of a block from index `from` on give, added
/// to `acc`.
pub open spec fn items_converted(
    v: Seq<toplevel::ListItemView>,
    from: int,
    acc: Seq<ListItemView>,
) -> Result<Seq<ListItemView>, ParseError>
    decreases v, v.len() - from,
{
    if from < 0 || from >= v.len() {
        Ok(acc)
    } else {
        match item_converted(v[from]) {
            Err(e) => Err(e),
            Ok(x) => items_converted(v, from + 1, acc.push(x)),
        }
    }
}

fn convert_item(item: &toplevel::ListItem) -> (r: Result<ListItem, ParseError>)
    ensures
        match item_converted(item@) {
            Ok(x) => r matches Ok(y) && y@ == x,
            Err(e) => r matches Err(x) && x == e,
        },
    decreases item, 0int,
{
    let r = match item {
        toplevel::ListItem::Unordered(text) => match parse_inline(text) {
            Ok((e, _)) => ListItem::Unordered(e),
            Err(e) => {
                return Err(e);
            },
        },
        toplevel::ListItem::Numbered(number, text) => match parse_inline(text) {
            Ok((e, _)) => ListItem::Numbered(*number, e),
            Err(e) => {
                return Err(e);
            },
        },
        toplevel::ListItem::Alphabetical(id, text) => match parse_inline(text) {
            Ok((e, _)) => ListItem::Alphabetical(id.clone(), e),
            Err(e) => {
                return Err(e);
            },
        },
        toplevel::ListItem::NumberedRounded(number, text) => match parse_inline(text) {
            Ok((e, _)) => ListItem::NumberedRounded(*number, e),
            Err(e) => {
                return Err(e);
            },
        },
        toplevel::ListItem::AlphabeticalRounded(id, text) => match parse_inline(text) {
            Ok((e, _)) => ListItem::AlphabeticalRounded(id.clone(), e),
            Err(e) => {
                return Err(e);
            },
        },
        toplevel::ListItem::InnerList(vec) => {
            proof {
                toplevel::lemma_inner_list_view(*vec);
            }
            match parse_list_element_inner(vec) {
                Ok(x) => x,
                Err(e) => {
                    return Err(e);
                },
            }
        },
    };
    Ok(r)
}

fn convert_items(vec: &Vec<toplevel::ListItem>) -> (r: Result<Vec<ListItem>, ParseError>)
    ensures
        match items_converted(toplevel::items_view(vec@), 0, Seq::empty()) {
            Ok(items) => r matches Ok(v) && items_view(v@) == items,
            Err(e) => r matches Err(x) && x == e,
        },
    decreases vec, 1int,
{
    let mut result: Vec<ListItem> = Vec::new();
    let mut i: usize = 0;
    let ghost all = toplevel::items_view(vec@);
    assert(items_view(result@) =~= Seq::empty());
    while i < vec.len()
        invariant
            i <= vec@.len(),
            all == toplevel::items_view(vec@),
            items_converted(all, i as int, items_view(result@)) == items_converted(
                all,
                0,
                Seq::empty(),
            ),
        decreases vec.len() - i,
    {
        let object = match convert_item(&vec[i]) {
            Ok(x) => x,
            Err(e) => {
                return Err(e);
            },
        };
        assert(items_view(result@.push(object)) =~= items_view(result@).push(object@));
        result.push(object);
        i += 1;
    }
    Ok(result)
}

/// The nested list that the items of a nested list of a block give.
pub fn parse_list_element_inner(vec: &Vec<toplevel::ListItem>) -> (r: Result<ListItem, ParseError>)
    ensures
        match items_converted(toplevel::items_view(vec@), 0, Seq::empty()) {
            Ok(items) => r matches Ok(x) && x@ == ListItemView::List(items),
            Err(e) => r matches Err(x) && x == e,
        },
    decreases vec, 2int,
{
    match convert_items(vec) {
        Ok(result) => {
            let r = ListItem::List(result);
            proof {
                lemma_item_view(r);
            }
            Ok(r)
        },
        Err(e) => Err(e),
    }
}

/// What a list gives: its items, each with its text parsed as inline text,
/// with `list` and the number of the list as its slug.
pub open spec fn made_list(info: InfoView, items: Seq<toplevel::ListItemView>) -> Result<
    Made,
    ParseError,
> {
    match items_converted(items, 0, Seq::empty()) {
        Err(e) => Err(e),
        Ok(converted) => Ok(
            Made {
                element: ElementView::List(converted),
                slug: counted_slug("list"@, info.num_lists),
                info: InfoView { num_lists: (info.num_lists + 1) as usize, ..info },
            },
        ),
    }
}

/// A list gives its element; see [`made_list`].
pub fn parse_list_element(info: &mut ParserInfo, elem: &TopLevelSyntax) -> (r: Result<
    MaybeElement,
    ParseError,
>)
    requires
        old(info).num_lists < usize::MAX,
    ensures
        elem@ matches BlockView::List(items) ==> is_outcome(
            r,
            *final(info),
            *old(info),
            made_list(old(info)@, items),
        ),
        !(elem@ is List) ==> is_skipped(r, *final(info), *old(info)),
{
    match elem {
        TopLevelSyntax::List(list) => {
            let result = match convert_items(list) {
                Ok(v) => v,
                Err(e) => {
                    return Err(e);
                },
            };
            let id = info.num_lists;
            info.num_lists += 1;
            let e = Element::List(result);
            proof {
                lemma_element_view(e);
            }
            Ok(MaybeElement::Yes((e, counted("list", id))))
        },
        _ => Ok(MaybeElement::No),
    }
}

/// What is appended to a slug that is taken: a dash and the length that the
/// body had before the element joined it.
pub open spec fn length_suffix(last_length: usize) -> Seq<char> {
    seq!['-'] + decimal(last_length as nat)
}

/// A dash and a length in decimal digits.
pub fn length_suffix_chars(last_length: usize) -> (r: Vec<char>)
    ensures
        r@ == length_suffix(last_length),
        r@.len() > 0,
{
    let mut v: Vec<char> = Vec::new();
    v.push('-');
    let digits = decimal_chars(last_length);
    append_chars(&mut v, &digits);
    v
}

/// The state once the slug of the element that joined the body last has been
/// made free: where the body grew and that slug holds more than white space,
/// the suffix of the old length is appended to it until it is none of the
/// slugs in use, and it joins them.
pub open spec fn checked(info: InfoView, last_length: usize) -> InfoView {
    if info.body.len() != last_length && info.body.len() > 0 && has_ink(info.body.last().1) {
        let slug = deduped(info.body.last().1, info.ids, length_suffix(last_length));
        InfoView {
            body: info.body.drop_last().push((info.body.last().0, slug)),
            ids: info.ids.push(slug),
            ..info
        }
    } else {
        info
    }
}

/// Makes the slug of the element that joined the body last free, and takes
/// it into use.
pub fn check_id(info: &mut ParserInfo, last_length: usize)
    ensures
        final(info)@ == checked(old(info)@, last_length),
        old(info).wf() ==> final(info).wf(),
{
    proof {
        let before = info@;
        if before.body.len() > 0 && has_ink(before.body.last().1) && info.wf() {
            let suffix = length_suffix(last_length);
            lemma_deduped(before.body.last().1, before.ids, suffix);
            lemma_distinct_push(before.ids, deduped(before.body.last().1, before.ids, suffix));
        }
    }
    if info.body.len() != last_length {
        if info.body.len() > 0 {
            let ghost before = info.body@;
            let (e, id) = info.body.pop().unwrap();
            if crate::parser_util::is_valid_id(&id) {
                let suffix = length_suffix_chars(last_length);
                let slug = dedup(id, &info.ids, &suffix);
                proof {
                    lemma_strings_push(info.ids@, slug);
                }
                info.ids.push(slug.clone());
                info.body.push((e, slug));
                assert(body_view(info.body@) =~= body_view(before).drop_last().push(
                    (body_view(before).last().0, slug@),
                ));
            } else {
                info.body.push((e, id));
                assert(info.body@ =~= before);
            }
        }
    }
}

} // verus!
