//! The steps of the assembly: what each block adds to the document, and how
//! a fact box, a document within the document, joins its parent.

use vstd::prelude::*;
use crate::error::{Diagnostic, ParseError};
use crate::inline::{inline_parse, parse_inline};
use crate::ordered_map::{key_index, lemma_key_index, OrderedMap};
use crate::parser::{
    check_id, checked, counted, counted_slug, is_outcome, is_skipped, length_suffix,
    length_suffix_chars, made_codeblock, made_heading, made_image, made_list, made_paragraph,
    made_quote, parse_codeblock_element, parse_heading_element, parse_image_element,
    parse_list_element, parse_pagebreak_element, parse_paragraph_element, parse_quote_element,
    Made, MaybeElement,
};
use crate::parser_util::{
    entry_pos, generate_id, initial_info, is_valid_id, map_put, put_note, put_reference,
    slug_of, InfoView, ParserInfo,
};
use crate::reference::{ReferenceDefinition, ReferenceView};
use crate::slugs::{dedup, deduped, lemma_strings_push};
use crate::structs::{
    body_view, box_notes_view, clone_element, lemma_element_view, notes_view, references_view,
    Element, ElementView, FactBox, FactBoxView, TableOfContent, TocView,
};
use crate::text::{append_chars, has_ink, to_chars, to_string};
use crate::toplevel::structs::{blocks_view, strings_view, BlockView, TopLevelSyntax};

verus! {

/// The state once an element that was made has joined the body and its slug
/// has been made free.
pub open spec fn joined(m: Made) -> InfoView {
    checked(
        InfoView { body: m.info.body.push((m.element, m.slug)), ..m.info },
        m.info.body.len() as usize,
    )
}

/// The state once an element has joined the body, or the error that kept it
/// from being made.
pub open spec fn joined_result(m: Result<Made, ParseError>) -> Result<InfoView, ParseError> {
    match m {
        Ok(made) => Ok(joined(made)),
        Err(e) => Err(e),
    }
}

/// What a block that is neither a header nor a fact box adds to the
/// assembly; nothing is said of those two.
///
/// A reference and a note join their maps. The first marker of a table of
/// contents sets the table up and stands in the body; later ones are
/// dropped. Every other block gives an element that joins the body.
pub open spec fn plain_step(info: InfoView, block: BlockView) -> Option<Result<InfoView, ParseError>> {
    match block {
        BlockView::FrontMatter(_) => None,
        BlockView::FactBox { .. } => None,
        BlockView::ReferenceDefinition(r) => Some(
            Ok(InfoView { references: map_put(info.references, r.id, r), ..info }),
        ),
        BlockView::NoteDefinition { id, text } => Some(
            match inline_parse(text) {
                Err(e) => Err(e),
                Ok((object, _)) => Ok(InfoView { notes: map_put(info.notes, id, object), ..info }),
            },
        ),
        BlockView::TOC(title) => Some(
            Ok(
                if info.metadata.toc is None {
                    InfoView {
                        metadata: crate::structs::MetaView {
                            toc: Some(
                                TocView {
                                    title,
                                    index: info.body.len() as usize,
                                    max_depth: 1,
                                    headers: Seq::empty(),
                                },
                            ),
                            ..info.metadata
                        },
                        body: info.body.push((ElementView::TOCLocationMarker, Seq::empty())),
                        ..info
                    }
                } else {
                    info
                },
            ),
        ),
        BlockView::PageBreak => Some(
            Ok(joined(Made { element: ElementView::PageBreak, slug: Seq::empty(), info })),
        ),
        BlockView::CodeBlock(text) => Some(Ok(joined(made_codeblock(info, text)))),
        BlockView::Image(img) => Some(joined_result(made_image(info, img))),
        BlockView::List(items) => Some(joined_result(made_list(info, items))),
        BlockView::Paragraph(text) => Some(joined_result(made_paragraph(info, text))),
        BlockView::Heading(text, level) => Some(joined_result(made_heading(info, text, level))),
        BlockView::Quote(lines) => Some(joined_result(made_quote(info, lines))),
    }
}

/// The counters are low enough for one more element of each kind.
pub open spec fn has_room(info: InfoView) -> bool {
    &&& info.num_codeblocks < usize::MAX
    &&& info.num_image < usize::MAX
    &&& info.num_lists < usize::MAX
    &&& info.num_quotes < usize::MAX
    &&& info.num_factboxes < usize::MAX
}

/// No counter is above the length of the body.
pub open spec fn counters_within(info: InfoView, bound: int) -> bool {
    &&& info.num_codeblocks <= bound
    &&& info.num_image <= bound
    &&& info.num_lists <= bound
    &&& info.num_quotes <= bound
    &&& info.num_factboxes <= bound
}

fn join(info: &mut ParserInfo, made: MaybeElement, last_length: usize) -> (joined_it: bool)
    requires
        old(info).body@.len() == last_length,
    ensures
        made matches MaybeElement::Yes(p) ==> joined_it && final(info)@ == joined(
            Made { element: p.0@, slug: p.1@, info: old(info)@ },
        ),
        made is No ==> !joined_it && final(info)@ == old(info)@,
{
    match made {
        MaybeElement::Yes(element) => {
            let ghost before = info.body@;
            info.body.push(element);
            assert(body_view(info.body@) =~= body_view(before).push((element.0@, element.1@)));
            check_id(info, last_length);
            true
        },
        MaybeElement::No => false,
    }
}

/// Takes a block that is neither a header nor a fact box into the assembly.
/// Returns whether the block was of such a kind.
pub fn plain_block(info: &mut ParserInfo, elem: &TopLevelSyntax) -> (r: Result<bool, ParseError>)
    requires
        has_room(old(info)@),
    ensures
        match plain_step(old(info)@, elem@) {
            None => r matches Ok(false) && final(info)@ == old(info)@,
            Some(Ok(next)) => r matches Ok(true) && final(info)@ == next,
            Some(Err(e)) => r matches Err(x) && x == e && final(info)@ == old(info)@,
        },
{
    let last_length = info.body.len();
    match elem {
        TopLevelSyntax::FrontMatter(_) => {
            return Ok(false);
        },
        TopLevelSyntax::FactBox { .. } => {
            return Ok(false);
        },
        TopLevelSyntax::ReferenceDefinition(reference) => {
            put_reference(&mut info.references, reference.id.clone(), reference.clone());
            return Ok(true);
        },
        TopLevelSyntax::NoteDefinition { id, text } => {
            let (object, _) = match parse_inline(text) {
                Ok(t) => t,
                Err(e) => {
                    return Err(e);
                },
            };
            put_note(&mut info.notes, id.clone(), *object);
            return Ok(true);
        },
        TopLevelSyntax::TOC(title) => {
            if info.metadata.toc.is_none() {
                let toc = TableOfContent {
                    title: title.clone(),
                    index: info.body.len(),
                    headers: Vec::new(),
                    max_depth: 1,
                };
                assert(toc@.headers =~= Seq::empty());
                info.metadata.toc = Some(toc);
                let ghost before = info.body@;
                info.body.push((Element::TOCLocationMarker, String::new()));
                assert(body_view(info.body@) =~= body_view(before).push(
                    (ElementView::TOCLocationMarker, Seq::empty()),
                ));
            }
            return Ok(true);
        },
        _ => {},
    }
    let made = match parse_pagebreak_element(info, elem) {
        Ok(m) => m,
        Err(e) => {
            return Err(e);
        },
    };
    if join(info, made, last_length) {
        return Ok(true);
    }
    let made = match parse_codeblock_element(info, elem) {
        Ok(m) => m,
        Err(e) => {
            return Err(e);
        },
    };
    if join(info, made, last_length) {
        return Ok(true);
    }
    let made = match parse_image_element(info, elem) {
        Ok(m) => m,
        Err(e) => {
            return Err(e);
        },
    };
    if join(info, made, last_length) {
        return Ok(true);
    }
    let made = match parse_list_element(info, elem) {
        Ok(m) => m,
        Err(e) => {
            return Err(e);
        },
    };
    if join(info, made, last_length) {
        return Ok(true);
    }
    let made = match parse_paragraph_element(info, elem) {
        Ok(m) => m,
        Err(e) => {
            return Err(e);
        },
    };
    if join(info, made, last_length) {
        return Ok(true);
    }
    let made = match parse_heading_element(info, elem) {
        Ok(m) => m,
        Err(e) => {
            return Err(e);
        },
    };
    if join(info, made, last_length) {
        return Ok(true);
    }
    let made = match parse_quote_element(info, elem) {
        Ok(m) => m,
        Err(e) => {
            return Err(e);
        },
    };
    if join(info, made, last_length) {
        return Ok(true);
    }
    Ok(false)
}

/// What a block inside a fact box adds to the assembly of the box: a header
/// and a fact box are dropped and noted; every other block is taken as in any
/// document.
pub open spec fn box_step(info: InfoView, block: BlockView) -> Result<InfoView, ParseError> {
    match block {
        BlockView::FactBox { .. } => Ok(
            InfoView { diagnostics: info.diagnostics.push(Diagnostic::NestedFactBox), ..info },
        ),
        BlockView::FrontMatter(_) => Ok(
            InfoView {
                diagnostics: info.diagnostics.push(Diagnostic::FrontmatterInFactBox),
                ..info
            },
        ),
        _ => match plain_step(info, block) {
            Some(r) => r,
            None => Ok(info),
        },
    }
}

/// The assembly of a fact box after its blocks from index `from` on.
pub open spec fn box_steps(blocks: Seq<BlockView>, from: int, info: InfoView) -> Result<
    InfoView,
    ParseError,
>
    decreases blocks.len() - from,
{
    if from < 0 || from >= blocks.len() {
        Ok(info)
    } else {
        match box_step(info, blocks[from]) {
            Err(e) => Err(e),
            Ok(next) => box_steps(blocks, from + 1, next),
        }
    }
}

/// Assembles the body of a fact box.
pub fn parse_factbox_body(toplevel_syntax: &Vec<TopLevelSyntax>) -> (r: Result<
    ParserInfo,
    ParseError,
>)
    ensures
        match box_steps(blocks_view(toplevel_syntax@), 0, initial_info()) {
            Ok(info) => r matches Ok(x) && x@ == info,
            Err(e) => r matches Err(x) && x == e,
        },
        r matches Ok(x) ==> x.wf(),
{
    proof {
        crate::soundness::lemma_box_steps_distinct(blocks_view(toplevel_syntax@), 0, initial_info());
    }
    let mut info = ParserInfo::new();
    let mut i: usize = 0;
    let ghost blocks = blocks_view(toplevel_syntax@);
    while i < toplevel_syntax.len()
        invariant
            i <= toplevel_syntax@.len(),
            blocks == blocks_view(toplevel_syntax@),
            counters_within(info@, i as int),
            box_steps(blocks, i as int, info@) == box_steps(blocks, 0, initial_info()),
        decreases toplevel_syntax.len() - i,
    {
        let elem = &toplevel_syntax[i];
        match elem {
            TopLevelSyntax::FactBox { .. } => {
                info.diagnostics.push(Diagnostic::NestedFactBox);
            },
            TopLevelSyntax::FrontMatter(_) => {
                info.diagnostics.push(Diagnostic::FrontmatterInFactBox);
            },
            _ => {
                match plain_block(&mut info, elem) {
                    Ok(_) => {},
                    Err(e) => {
                        return Err(e);
                    },
                }
            },
        }
        i += 1;
    }
    Ok(info)
}

/// The references of `more` from index `from` on, stored into `references`.
pub open spec fn merged(
    references: Seq<(Seq<char>, ReferenceView)>,
    more: Seq<(Seq<char>, ReferenceView)>,
    from: int,
) -> Seq<(Seq<char>, ReferenceView)>
    decreases more.len() - from,
{
    if from < 0 || from >= more.len() {
        references
    } else {
        merged(map_put(references, more[from].0, more[from].1), more, from + 1)
    }
}

fn merge_references(into: &mut OrderedMap<ReferenceDefinition>, more: &OrderedMap<ReferenceDefinition>)
    ensures
        references_view(final(into).entries@) == merged(
            references_view(old(into).entries@),
            references_view(more.entries@),
            0,
        ),
{
    let mut i: usize = 0;
    let ghost all = references_view(more.entries@);
    while i < more.entries.len()
        invariant
            i <= more.entries@.len(),
            all == references_view(more.entries@),
            merged(references_view(into.entries@), all, i as int) == merged(
                references_view(old(into).entries@),
                all,
                0,
            ),
        decreases more.entries.len() - i,
    {
        let entry = &more.entries[i];
        put_reference(into, entry.0.clone(), entry.1.clone());
        i += 1;
    }
}

/// The slug of an entry of a fact box within the document: the slug of the
/// box, a dash, and the slug that the entry has within the box.
pub open spec fn namespaced(id: Seq<char>, slug: Seq<char>) -> Seq<char> {
    id + seq!['-'] + slug
}

fn namespace(id: &String, slug: &String) -> (r: String)
    ensures
        r@ == namespaced(id@, slug@),
{
    let mut v = to_chars(id.as_str());
    v.push('-');
    let tail = to_chars(slug.as_str());
    append_chars(&mut v, &tail);
    to_string(&v)
}

/// The body of a fact box within the document, and the slugs in use behind
/// it: each slug that holds more than white space is put under the slug of
/// the box, made free among the slugs in use, and taken into use.
pub open spec fn renamed(
    inner: Seq<(ElementView, Seq<char>)>,
    from: int,
    id: Seq<char>,
    suffix: Seq<char>,
    body: Seq<(ElementView, Seq<char>)>,
    ids: Seq<Seq<char>>,
) -> (Seq<(ElementView, Seq<char>)>, Seq<Seq<char>>)
    decreases inner.len() - from,
{
    if from < 0 || from >= inner.len() {
        (body, ids)
    } else if has_ink(inner[from].1) {
        let slug = deduped(namespaced(id, inner[from].1), ids, suffix);
        renamed(inner, from + 1, id, suffix, body.push((inner[from].0, slug)), ids.push(slug))
    } else {
        renamed(inner, from + 1, id, suffix, body.push(inner[from]), ids)
    }
}

fn rename_body(
    inner: &Vec<(Element, String)>,
    id: &String,
    suffix: &Vec<char>,
    ids: &mut Vec<String>,
) -> (r: Vec<(Element, String)>)
    requires
        suffix@.len() > 0,
    ensures
        (body_view(r@), strings_view(final(ids)@)) == renamed(
            body_view(inner@),
            0,
            id@,
            suffix@,
            Seq::empty(),
            strings_view(old(ids)@),
        ),
{
    let mut out: Vec<(Element, String)> = Vec::new();
    let mut i: usize = 0;
    let ghost all = body_view(inner@);
    assert(body_view(out@) =~= Seq::empty());
    while i < inner.len()
        invariant
            i <= inner@.len(),
            suffix@.len() > 0,
            all == body_view(inner@),
            renamed(all, i as int, id@, suffix@, body_view(out@), strings_view(ids@)) == renamed(
                all,
                0,
                id@,
                suffix@,
                Seq::empty(),
                strings_view(old(ids)@),
            ),
        decreases inner.len() - i,
    {
        let element = clone_element(&inner[i].0);
        let ghost before = out@;
        if is_valid_id(&inner[i].1) {
            let slug = dedup(namespace(id, &inner[i].1), ids, suffix);
            proof {
                lemma_strings_push(ids@, slug);
            }
            ids.push(slug.clone());
            out.push((element, slug));
            assert(body_view(out@) =~= body_view(before).push((all[i as int].0, slug@)));
        } else {
            out.push((element, inner[i].1.clone()));
            assert(body_view(out@) =~= body_view(before).push(all[i as int]));
        }
        i += 1;
    }
    out
}

/// The notes of a fact box: each note of its assembly from index `from` on,
/// with its slug under the slug of the box, stored into `acc`.
pub open spec fn box_notes(
    notes: Seq<(Seq<char>, ElementView)>,
    from: int,
    id: Seq<char>,
    acc: Seq<(Seq<char>, (ElementView, Seq<char>))>,
) -> Seq<(Seq<char>, (ElementView, Seq<char>))>
    decreases notes.len() - from,
{
    if from < 0 || from >= notes.len() {
        acc
    } else {
        box_notes(
            notes,
            from + 1,
            id,
            map_put(acc, notes[from].0, (notes[from].1, namespaced(id, notes[from].0))),
        )
    }
}

proof fn lemma_box_note_pos(entries: Seq<(String, (Element, String))>, key: Seq<char>, from: int)
    requires
        0 <= from <= entries.len(),
    ensures
        entry_pos(box_notes_view(entries), key, from) == key_index(entries, key, from),
    decreases entries.len() - from,
{
    if from < entries.len() && entries[from].0@ != key {
        lemma_box_note_pos(entries, key, from + 1);
    }
}

fn put_box_note(notes: &mut OrderedMap<(Element, String)>, key: String, value: (Element, String))
    ensures
        box_notes_view(final(notes).entries@) == map_put(
            box_notes_view(old(notes).entries@),
            key@,
            (value.0@, value.1@),
        ),
{
    proof {
        lemma_box_note_pos(notes.entries@, key@, 0);
        lemma_key_index(notes.entries@, key@, 0);
    }
    notes.insert(key, value);
}

fn make_box_notes(notes: &OrderedMap<Element>, id: &String) -> (r: OrderedMap<(Element, String)>)
    ensures
        box_notes_view(r.entries@) == box_notes(notes_view(notes.entries@), 0, id@, Seq::empty()),
{
    let mut out: OrderedMap<(Element, String)> = OrderedMap::new();
    let mut i: usize = 0;
    let ghost all = notes_view(notes.entries@);
    assert(box_notes_view(out.entries@) =~= Seq::empty());
    while i < notes.entries.len()
        invariant
            i <= notes.entries@.len(),
            all == notes_view(notes.entries@),
            box_notes(all, i as int, id@, box_notes_view(out.entries@)) == box_notes(
                all,
                0,
                id@,
                Seq::empty(),
            ),
        decreases notes.entries.len() - i,
    {
        let entry = &notes.entries[i];
        put_box_note(&mut out, entry.0.clone(), (clone_element(&entry.1), namespace(id, &entry.0)));
        i += 1;
    }
    out
}

fn append_diagnostics(into: &mut Vec<Diagnostic>, more: &Vec<Diagnostic>)
    ensures
        final(into)@ == old(into)@ + more@,
{
    let mut i: usize = 0;
    while i < more.len()
        invariant
            i <= more@.len(),
            into@ == old(into)@ + more@.take(i as int),
        decreases more.len() - i,
    {
        into.push(more[i]);
        i += 1;
    }
}

/// The slug of a fact box: the slug of its title, or `factbox` with the
/// number of the box where the title has none.
pub open spec fn box_slug(title: Seq<char>, n: usize) -> Seq<char> {
    match slug_of(title) {
        Some(id) => id,
        None => counted_slug("factbox"@, n),
    }
}

/// The fact box that a title and the assembly of its blocks make, within a
/// document in the state `info`: its body with the slugs put under the slug
/// of the box, and its notes. The references of the box join those of the
/// document, and what was noted while the box was assembled joins what is
/// noted of the document.
pub open spec fn made_box_from(info: InfoView, title: Seq<char>, inner: InfoView) -> Made {
    let id = box_slug(title, info.num_factboxes);
    let (body, ids) = renamed(
        inner.body,
        0,
        id,
        length_suffix(info.body.len() as usize),
        Seq::empty(),
        info.ids,
    );
    Made {
        element: ElementView::FactBox(
            FactBoxView { title, notes: box_notes(inner.notes, 0, id, Seq::empty()), body },
        ),
        slug: id,
        info: InfoView {
            references: merged(info.references, inner.references, 0),
            ids,
            num_factboxes: (info.num_factboxes + 1) as usize,
            diagnostics: info.diagnostics + inner.diagnostics,
            ..info
        },
    }
}

/// What a fact box gives: see [`made_box_from`], for the assembly of its
/// blocks.
pub open spec fn made_box(info: InfoView, title: Seq<char>, blocks: Seq<BlockView>) -> Result<
    Made,
    ParseError,
> {
    match box_steps(blocks, 0, initial_info()) {
        Err(e) => Err(e),
        Ok(inner) => Ok(made_box_from(info, title, inner)),
    }
}

/// Makes the element of a fact box: assembles its blocks as a document of
/// their own and puts what they give under the slug of the box.
pub fn parse_factbox_element(info: &mut ParserInfo, elem: &TopLevelSyntax) -> (r: Result<
    MaybeElement,
    ParseError,
>)
    requires
        old(info).num_factboxes < usize::MAX,
    ensures
        elem@ matches BlockView::FactBox { title, body } ==> is_outcome(
            r,
            *final(info),
            *old(info),
            made_box(old(info)@, title, body),
        ),
        !(elem@ is FactBox) ==> is_skipped(r, *final(info), *old(info)),
{
    match elem {
        TopLevelSyntax::FactBox { title, body } => {
            proof {
                crate::toplevel::structs::lemma_fact_box_view(*title, *body);
            }
            let parsed = match parse_factbox_body(body) {
                Ok(p) => p,
                Err(e) => {
                    return Err(e);
                },
            };
            merge_references(&mut info.references, &parsed.references);
            let id = match generate_id(title) {
                Some(id) => id,
                None => counted("factbox", info.num_factboxes),
            };
            let suffix = length_suffix_chars(info.body.len());
            let inner_body = rename_body(&parsed.body, &id, &suffix, &mut info.ids);
            let notes = make_box_notes(&parsed.notes, &id);
            append_diagnostics(&mut info.diagnostics, &parsed.diagnostics);
            info.num_factboxes += 1;
            let factbox = FactBox { title: title.clone(), notes, body: inner_body };
            let e = Element::FactBox(factbox);
            proof {
                lemma_element_view(e);
            }
            Ok(MaybeElement::Yes((e, id)))
        },
        _ => Ok(MaybeElement::No),
    }
}

} // verus!
