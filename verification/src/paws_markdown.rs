//! The document assembler: from the text of a document to the document.

use vstd::prelude::*;
use crate::config::{
    DEFAULT_BIBLIOGRAPHY_TITLE, DEFAULT_NOTES_TITLE, FRONTMATTER_HIDE_CONTACTS,
    FRONTMATTER_HIDE_NOTES, FRONTMATTER_HIDE_REFERENCES, SECTION_COLLISION_SUFFIX,
};
use crate::error::{Diagnostic, ParseError};
use crate::factbox::{
    counters_within, has_room, joined_result, made_box, parse_factbox_element, plain_block,
    plain_step,
};
use crate::frontmatter::{sorted_keys, yaml_text, Frontmatter, FrontmatterView};
use crate::parser::{check_id, MaybeElement};
use crate::parser_util::{
    bibliography_title_of, blog_dir_of, check_frontmatter, data_dir_of, date_of, generate_id,
    has_any_joined, strs_view, unique_keys, get_bibliography_title,
    get_blog_dir, get_data_dir, get_date, get_last_update, get_url, initial_info, last_update_of,
    slug_of, slug_or_empty, text_opt_view, url_of, InfoView, ParserInfo,
};
use crate::reference::{DateView, PmdDate};
use crate::slugs::{
    contains_slug, dedup, deduped, inner_body, lemma_strings_push, no_nested_box, unique_nonempty_slugs,
};
use crate::structs::{
    body_view, clone_element, headers_view, lemma_element_view, AssDownDocument, DocumentView,
    Element, ElementView, FactBox, FactBoxView, MetaView, TableOfContent, TocView,
};
use crate::text::to_chars;
use crate::toplevel::parser::{blocks_of, header_failed, toplevel_chars};
use crate::toplevel::structs::{blocks_view, BlockView, TopLevelSyntax};

verus! {

/// What a block adds to the assembly of a document: the header becomes the
/// header of the document, a fact box is assembled on its own and joins the
/// body, and every other block is taken as it is anywhere.
pub open spec fn top_step(info: InfoView, block: BlockView) -> Result<InfoView, ParseError> {
    match block {
        BlockView::FrontMatter(f) => Ok(
            InfoView { metadata: MetaView { frontmatter: Some(f), ..info.metadata }, ..info },
        ),
        BlockView::FactBox { title, body } => joined_result(made_box(info, title, body)),
        _ => match plain_step(info, block) {
            Some(r) => r,
            None => Ok(info),
        },
    }
}

/// The assembly of a document after its blocks from index `from` on.
pub open spec fn top_steps(blocks: Seq<BlockView>, from: int, info: InfoView) -> Result<
    InfoView,
    ParseError,
>
    decreases blocks.len() - from,
{
    if from < 0 || from >= blocks.len() {
        Ok(info)
    } else {
        match top_step(info, blocks[from]) {
            Err(e) => Err(e),
            Ok(next) => top_steps(blocks, from + 1, next),
        }
    }
}

fn top_block(info: &mut ParserInfo, elem: &TopLevelSyntax) -> (r: Result<(), ParseError>)
    requires
        has_room(old(info)@),
    ensures
        match top_step(old(info)@, elem@) {
            Ok(next) => r is Ok && final(info)@ == next,
            Err(e) => r matches Err(x) && x == e && final(info)@ == old(info)@,
        },
{
    match elem {
        TopLevelSyntax::FrontMatter(frontmatter) => {
            info.metadata.frontmatter = Some(clone_frontmatter(frontmatter));
            Ok(())
        },
        TopLevelSyntax::FactBox { .. } => {
            let last_length = info.body.len();
            let made = match parse_factbox_element(info, elem) {
                Ok(m) => m,
                Err(e) => {
                    return Err(e);
                },
            };
            match made {
                MaybeElement::Yes(element) => {
                    let ghost before = info.body@;
                    info.body.push(element);
                    assert(body_view(info.body@) =~= body_view(before).push(
                        (element.0@, element.1@),
                    ));
                    check_id(info, last_length);
                },
                MaybeElement::No => {},
            }
            Ok(())
        },
        _ => match plain_block(info, elem) {
            Ok(_) => Ok(()),
            Err(e) => Err(e),
        },
    }
}

fn clone_frontmatter(f: &Frontmatter) -> (r: Frontmatter)
    ensures
        r@ == f@,
{
    let mut data: Vec<(String, crate::frontmatter::YamlValue)> = Vec::new();
    let mut i: usize = 0;
    while i < f.data.len()
        invariant
            i <= f.data@.len(),
            data@.len() == i,
            forall|j: int|
                0 <= j < i ==> (#[trigger] data@[j]).0@ == f.data@[j].0@ && data@[j].1@
                    == f.data@[j].1@,
        decreases f.data.len() - i,
    {
        data.push((f.data[i].0.clone(), crate::frontmatter::clone_yaml(&f.data[i].1)));
        i += 1;
    }
    assert(crate::frontmatter::entries_view(data@) =~= crate::frontmatter::entries_view(f.data@));
    Frontmatter { text: f.text.clone(), data }
}

/// A text, or another where the first is missing.
pub open spec fn text_or(t: Option<Seq<char>>, other: Seq<char>) -> Seq<char> {
    match t {
        Some(x) => x,
        None => other,
    }
}

/// A date, or another where the first is missing.
pub open spec fn date_or(t: Option<Seq<char>>, other: DateView) -> DateView {
    match t {
        Some(x) => DateView::Text(x),
        None => other,
    }
}

/// The metadata that a header gives to a document: each entry of the
/// header that is there replaces what the metadata held.
pub open spec fn meta_from(meta: MetaView, f: FrontmatterView) -> MetaView {
    MetaView {
        title: text_or(yaml_text(f.at("title"@)), meta.title),
        subtitle: text_or(yaml_text(f.at("subtitle"@)), meta.subtitle),
        banner: text_or(yaml_text(f.at("banner"@)), meta.banner),
        notes_title: text_or(yaml_text(f.at("notes-title"@)), meta.notes_title),
        bibliography_title: text_or(bibliography_title_of(f), meta.bibliography_title),
        date_written: date_or(date_of(f), meta.date_written),
        last_update: date_or(last_update_of(f), meta.last_update),
        url: text_or(url_of(f), meta.url),
        data_dir: text_or(data_dir_of(f), meta.data_dir),
        blog_dir: text_or(blog_dir_of(f), meta.blog_dir),
        hide_notes: has_any_joined(f, seq![FRONTMATTER_HIDE_NOTES@], 0),
        hide_references: has_any_joined(f, seq![FRONTMATTER_HIDE_REFERENCES@], 0),
        hide_contacts: has_any_joined(f, seq![FRONTMATTER_HIDE_CONTACTS@], 0),
        ..meta
    }
}

/// What there is to say about the header of a document that comes with the
/// name of its source: that it is missing, or that it gives no title or no
/// date. Nothing is said of a document that comes without that name.
pub open spec fn header_notes(frontmatter: Option<FrontmatterView>, has_path: bool) -> Seq<
    Diagnostic,
> {
    if !has_path {
        Seq::empty()
    } else {
        match frontmatter {
            None => seq![Diagnostic::MissingFrontmatter],
            Some(f) => (if yaml_text(f.at("title"@)) is None {
                seq![Diagnostic::MissingTitle]
            } else {
                Seq::empty()
            }) + (if date_of(f) is None {
                seq![Diagnostic::MissingDate]
            } else {
                Seq::empty()
            }),
        }
    }
}

/// The assembly with the metadata that its header gives.
pub open spec fn described(info: InfoView, has_path: bool) -> InfoView {
    InfoView {
        metadata: match info.metadata.frontmatter {
            Some(f) => meta_from(info.metadata, f),
            None => info.metadata,
        },
        diagnostics: info.diagnostics + header_notes(info.metadata.frontmatter, has_path),
        ..info
    }
}

fn has_key(frontmatter: &Frontmatter, key: &'static str) -> (b: bool)
    ensures
        b == has_any_joined(frontmatter@, seq![key@], 0),
{
    let keys: Vec<&str> = vec![key];
    assert(strs_view(keys@) =~= seq![key@]);
    check_frontmatter(frontmatter, &keys)
}

fn set_text(target: &mut String, value: Option<String>)
    ensures
        final(target)@ == text_or(text_opt_view(value), old(target)@),
{
    match value {
        Some(v) => {
            *target = v;
        },
        None => {},
    }
}

fn set_date(target: &mut PmdDate, value: Option<String>)
    ensures
        final(target)@ == date_or(text_opt_view(value), old(target)@),
{
    match value {
        Some(v) => {
            *target = PmdDate::Text(v);
        },
        None => {},
    }
}

fn describe(info: &mut ParserInfo, has_path: bool)
    ensures
        final(info)@ == described(old(info)@, has_path),
{
    let ghost before = info@;
    match &info.metadata.frontmatter {
        Some(frontmatter) => {
            let title = frontmatter.text_at("title");
            let subtitle = frontmatter.text_at("subtitle");
            let banner = frontmatter.text_at("banner");
            let notes_title = frontmatter.text_at("notes-title");
            let bibliography_title = get_bibliography_title(frontmatter);
            let date = get_date(frontmatter);
            let update = get_last_update(frontmatter);
            let url = get_url(frontmatter);
            let data_dir = get_data_dir(frontmatter);
            let blog_dir = get_blog_dir(frontmatter);
            let hide_notes = has_key(frontmatter, FRONTMATTER_HIDE_NOTES);
            let hide_references = has_key(frontmatter, FRONTMATTER_HIDE_REFERENCES);
            let hide_contacts = has_key(frontmatter, FRONTMATTER_HIDE_CONTACTS);
            let no_title = title.is_none();
            let no_date = date.is_none();
            set_text(&mut info.metadata.title, title);
            set_text(&mut info.metadata.subtitle, subtitle);
            set_text(&mut info.metadata.banner, banner);
            set_text(&mut info.metadata.notes_title, notes_title);
            set_text(&mut info.metadata.bibliography_title, bibliography_title);
            set_date(&mut info.metadata.date_written, date);
            set_date(&mut info.metadata.last_update, update);
            set_text(&mut info.metadata.url, url);
            set_text(&mut info.metadata.data_dir, data_dir);
            set_text(&mut info.metadata.blog_dir, blog_dir);
            info.metadata.hide_notes = hide_notes;
            info.metadata.hide_references = hide_references;
            info.metadata.hide_contacts = hide_contacts;
            if has_path && no_title {
                info.diagnostics.push(Diagnostic::MissingTitle);
            }
            if has_path && no_date {
                info.diagnostics.push(Diagnostic::MissingDate);
            }
            assert(info@.diagnostics =~= before.diagnostics + header_notes(
                before.metadata.frontmatter,
                has_path,
            ));
        },
        None => {
            if has_path {
                info.diagnostics.push(Diagnostic::MissingFrontmatter);
            }
            assert(info@.diagnostics =~= before.diagnostics + header_notes(
                before.metadata.frontmatter,
                has_path,
            ));
        },
    }
}

/// The slug of a section: the slug of its title, or the slug of its
/// default title where the title has none.
pub open spec fn section_slug(title: Seq<char>, default_title: Seq<char>) -> Seq<char> {
    match slug_of(title) {
        Some(id) => id,
        None => slug_or_empty(default_title),
    }
}

fn section_id(title: &String, default_title: &str) -> (r: String)
    ensures
        r@ == section_slug(title@, default_title@),
{
    match generate_id(title) {
        Some(id) => id,
        None => match generate_id(&String::from_str(default_title)) {
            Some(id) => id,
            None => String::new(),
        },
    }
}

/// The index of the first entry at or after `from` whose slug is `slug`, or
/// the number of entries.
pub open spec fn slug_index(body: Seq<(ElementView, Seq<char>)>, slug: Seq<char>, from: int) -> int
    decreases body.len() - from,
{
    if from < 0 || from >= body.len() {
        body.len() as int
    } else if body[from].1 == slug {
        from
    } else {
        slug_index(body, slug, from + 1)
    }
}

/// The first position at or after entry `from` that holds `slug`: for each
/// entry, the entries inside it come before the entry itself.
pub open spec fn first_match(body: Seq<(ElementView, Seq<char>)>, slug: Seq<char>, from: int) -> Option<
    (int, int),
>
    decreases body.len() - from,
{
    if from < 0 || from >= body.len() {
        None
    } else {
        let inner = inner_body(body[from].0);
        let j = slug_index(inner, slug, 0);
        if j < inner.len() {
            Some((from, j))
        } else if body[from].1 == slug {
            Some((from, -1))
        } else {
            first_match(body, slug, from + 1)
        }
    }
}

/// The body with another slug at a position.
pub open spec fn renamed_at(body: Seq<(ElementView, Seq<char>)>, i: int, j: int, slug: Seq<char>) -> Seq<
    (ElementView, Seq<char>),
> {
    if j < 0 {
        body.update(i, (body[i].0, slug))
    } else {
        match body[i].0 {
            ElementView::FactBox(fb) => body.update(
                i,
                (
                    ElementView::FactBox(
                        FactBoxView { body: fb.body.update(j, (fb.body[j].0, slug)), ..fb },
                    ),
                    body[i].1,
                ),
            ),
            _ => body,
        }
    }
}

/// The assembly with the slug of a section kept for the section: where the
/// section has entries and its slug is in use, the first element that has
/// the slug gets the fixed suffix appended until its slug is free. Either
/// way the slug of a section that has entries is in use afterwards.
pub open spec fn cleared(info: InfoView, section: Seq<char>, active: bool) -> InfoView {
    if !active {
        info
    } else if info.ids.contains(section) {
        match first_match(info.body, section, 0) {
            Some((i, j)) => {
                let slug = deduped(section, info.ids, SECTION_COLLISION_SUFFIX@);
                InfoView {
                    body: renamed_at(info.body, i, j, slug),
                    ids: info.ids.push(slug),
                    ..info
                }
            },
            None => info,
        }
    } else {
        InfoView { ids: info.ids.push(section), ..info }
    }
}

fn find_slug(body: &Vec<(Element, String)>, slug: &String) -> (r: usize)
    ensures
        r == slug_index(body_view(body@), slug@, 0),
        r <= body@.len(),
{
    let mut i: usize = 0;
    while i < body.len()
        invariant
            i <= body@.len(),
            slug_index(body_view(body@), slug@, i as int) == slug_index(
                body_view(body@),
                slug@,
                0,
            ),
        decreases body.len() - i,
    {
        if body[i].1 == *slug {
            return i;
        }
        i += 1;
    }
    i
}

fn find_match(body: &Vec<(Element, String)>, slug: &String) -> (r: Option<(usize, Option<usize>)>)
    ensures
        match first_match(body_view(body@), slug@, 0) {
            Some((i, j)) => r matches Some(p) && p.0 == i && i < body@.len() && (match p.1 {
                Some(x) => x == j && j < inner_body(body@[i].0@).len(),
                None => j == -1,
            }),
            None => r is None,
        },
{
    let mut i: usize = 0;
    let ghost all = body_view(body@);
    while i < body.len()
        invariant
            i <= body@.len(),
            all == body_view(body@),
            first_match(all, slug@, i as int) == first_match(all, slug@, 0),
        decreases body.len() - i,
    {
        proof {
            lemma_element_view(body@[i as int].0);
        }
        match &body[i].0 {
            Element::FactBox(factbox) => {
                let j = find_slug(&factbox.body, slug);
                if j < factbox.body.len() {
                    return Some((i, Some(j)));
                }
            },
            _ => {},
        }
        if body[i].1 == *slug {
            return Some((i, None));
        }
        i += 1;
    }
    None
}

fn rename_at(body: &mut Vec<(Element, String)>, i: usize, j: Option<usize>, slug: String)
    requires
        i < old(body)@.len(),
        j matches Some(x) ==> x < inner_body(old(body)@[i as int].0@).len(),
    ensures
        body_view(final(body)@) == renamed_at(
            body_view(old(body)@),
            i as int,
            match j {
                Some(x) => x as int,
                None => -1,
            },
            slug@,
        ),
{
    let ghost before = body@;
    let (element, own) = body.remove(i);
    proof {
        lemma_element_view(element);
    }
    match j {
        None => {
            body.insert(i, (element, slug));
        },
        Some(j) => match element {
            Element::FactBox(factbox) => {
                let FactBox { title, notes, body: inner } = factbox;
                let mut inner = inner;
                let ghost inner_before = inner@;
                let (inner_element, _) = inner.remove(j);
                inner.insert(j, (inner_element, slug));
                assert(body_view(inner@) =~= body_view(inner_before).update(
                    j as int,
                    (body_view(inner_before)[j as int].0, slug@),
                ));
                let rebuilt = Element::FactBox(FactBox { title, notes, body: inner });
                proof {
                    lemma_element_view(rebuilt);
                }
                body.insert(i, (rebuilt, own));
            },
            other => {
                body.insert(i, (other, own));
            },
        },
    }
}

fn clear_section(info: &mut ParserInfo, section: &String, active: bool)
    ensures
        final(info)@ == cleared(old(info)@, section@, active),
{
    if !active {
        return ;
    }
    if contains_slug(&info.ids, section) {
        match find_match(&info.body, section) {
            Some((i, j)) => {
                let suffix = to_chars(SECTION_COLLISION_SUFFIX);
                proof {
                    reveal_strlit("-disass");
                }
                let slug = dedup(section.clone(), &info.ids, &suffix);
                proof {
                    lemma_strings_push(info.ids@, slug);
                }
                info.ids.push(slug.clone());
                rename_at(&mut info.body, i, j, slug);
            },
            None => {},
        }
    } else {
        proof {
            lemma_strings_push(info.ids@, *section);
        }
        info.ids.push(section.clone());
    }
}

/// The larger of two depths.
pub open spec fn deeper(a: usize, b: usize) -> usize {
    if a > b {
        a
    } else {
        b
    }
}

/// The entries of the table of contents for the body from index `from` on,
/// added to `headers`, and the deepest level among them and `max_depth`:
/// each heading with its level, and each fact box at level two.
pub open spec fn toc_entries(
    body: Seq<(ElementView, Seq<char>)>,
    from: int,
    headers: Seq<(ElementView, usize, Seq<char>)>,
    max_depth: usize,
) -> (Seq<(ElementView, usize, Seq<char>)>, usize)
    decreases body.len() - from,
{
    if from < 0 || from >= body.len() {
        (headers, max_depth)
    } else {
        match body[from].0 {
            ElementView::Header(text, depth) => toc_entries(
                body,
                from + 1,
                headers.push((*text, depth, body[from].1)),
                deeper(depth, max_depth),
            ),
            ElementView::FactBox(_) => toc_entries(
                body,
                from + 1,
                headers.push((body[from].0, 2, body[from].1)),
                deeper(2, max_depth),
            ),
            _ => toc_entries(body, from + 1, headers, max_depth),
        }
    }
}

/// The entry of a section in the table of contents, if the section has
/// entries: its title at level one.
pub open spec fn section_entry(active: bool, title: Seq<char>, id: Seq<char>) -> Seq<
    (ElementView, usize, Seq<char>),
> {
    if active {
        seq![(ElementView::Text(title), 1usize, id)]
    } else {
        Seq::empty()
    }
}

/// The table of contents once it is filled from the finished body: the
/// headings and fact boxes from its marker on, and the sections of the notes
/// and of the bibliography where they have entries.
pub open spec fn toc_filled(toc: TocView, doc: DocumentView) -> TocView {
    let (headers, max_depth) = toc_entries(doc.body, toc.index as int, toc.headers, toc.max_depth);
    TocView {
        headers: headers + section_entry(
            doc.notes.len() > 0,
            doc.meta.notes_title,
            doc.notes_id,
        ) + section_entry(doc.references.len() > 0, doc.meta.bibliography_title, doc.bibliography_id),
        max_depth,
        ..toc
    }
}

proof fn lemma_headers_push(
    headers: Seq<(Box<Element>, usize, String)>,
    entry: (Box<Element>, usize, String),
)
    ensures
        headers_view(headers.push(entry)) == headers_view(headers).push(
            (entry.0@, entry.1, entry.2@),
        ),
{
}

fn fill_entries(toc: &mut TableOfContent, body: &Vec<(Element, String)>)
    ensures
        (final(toc)@.headers, final(toc).max_depth) == toc_entries(
            body_view(body@),
            old(toc).index as int,
            old(toc)@.headers,
            old(toc).max_depth,
        ),
        final(toc).title == old(toc).title,
        final(toc).index == old(toc).index,
{
    let mut i: usize = toc.index;
    let ghost all = body_view(body@);
    while i < body.len()
        invariant
            all == body_view(body@),
            toc.title == old(toc).title,
            toc.index == old(toc).index,
            toc_entries(all, i as int, toc@.headers, toc.max_depth) == toc_entries(
                all,
                old(toc).index as int,
                old(toc)@.headers,
                old(toc).max_depth,
            ),
        decreases body.len() - i,
    {
        match &body[i].0 {
            Element::Header(text, depth) => {
                if *depth > toc.max_depth {
                    toc.max_depth = *depth;
                }
                let entry = (Box::new(clone_element(text)), *depth, body[i].1.clone());
                proof {
                    lemma_headers_push(toc.headers@, entry);
                }
                toc.headers.push(entry);
            },
            Element::FactBox(_) => {
                if 2 > toc.max_depth {
                    toc.max_depth = 2;
                }
                let entry = (Box::new(clone_element(&body[i].0)), 2usize, body[i].1.clone());
                proof {
                    lemma_headers_push(toc.headers@, entry);
                }
                toc.headers.push(entry);
            },
            _ => {},
        }
        i += 1;
    }
}

fn section_header(toc: &mut TableOfContent, active: bool, title: &String, id: &String)
    ensures
        final(toc)@.headers == old(toc)@.headers + section_entry(active, title@, id@),
        final(toc).title == old(toc).title,
        final(toc).index == old(toc).index,
        final(toc).max_depth == old(toc).max_depth,
{
    if active {
        let e = Element::Text(title.clone());
        let entry = (Box::new(e), 1usize, id.clone());
        toc.headers.push(entry);
    }
}

/// The document that an assembly makes once all blocks are in: the metadata
/// comes from the header, the slugs of the two sections are kept for them,
/// and the table of contents is filled.
pub open spec fn document_from(info: InfoView, has_path: bool, failed: bool) -> (
    DocumentView,
    Seq<Diagnostic>,
) {
    let told = described(info, has_path);
    let notes_id = section_slug(told.metadata.notes_title, DEFAULT_NOTES_TITLE@);
    let bibliography_id = section_slug(
        told.metadata.bibliography_title,
        DEFAULT_BIBLIOGRAPHY_TITLE@,
    );
    let kept = cleared(
        cleared(told, notes_id, told.notes.len() > 0),
        bibliography_id,
        told.references.len() > 0,
    );
    let draft = DocumentView {
        meta: kept.metadata,
        bibliography_id,
        notes_id,
        references: kept.references,
        notes: kept.notes,
        body: kept.body,
    };
    (
        DocumentView {
            meta: MetaView {
                toc: match kept.metadata.toc {
                    Some(toc) => Some(toc_filled(toc, draft)),
                    None => None,
                },
                ..kept.metadata
            },
            ..draft
        },
        if failed {
            kept.diagnostics.push(Diagnostic::MalformedFrontmatter)
        } else {
            kept.diagnostics
        },
    )
}

/// The document that a text is, with what there is to say about it; or why
/// the text is no document. `has_path` says whether the text comes with the
/// name of its source.
pub open spec fn document_of(text: Seq<char>, has_path: bool) -> Result<
    (DocumentView, Seq<Diagnostic>),
    ParseError,
> {
    match top_steps(blocks_of(text), 0, initial_info()) {
        Err(e) => Err(e),
        Ok(info) => Ok(document_from(info, has_path, header_failed(text))),
    }
}

fn finish(info: ParserInfo, has_path: bool, failed: bool) -> (r: (AssDownDocument, Vec<Diagnostic>))
    ensures
        (r.0@, r.1@) == document_from(info@, has_path, failed),
{
    let mut info = info;
    describe(&mut info, has_path);
    let notes_id = section_id(&info.metadata.notes_title, DEFAULT_NOTES_TITLE);
    let bibliography_id = section_id(&info.metadata.bibliography_title, DEFAULT_BIBLIOGRAPHY_TITLE);
    let has_notes = !info.notes.is_empty();
    let has_references = !info.references.is_empty();
    clear_section(&mut info, &notes_id, has_notes);
    clear_section(&mut info, &bibliography_id, has_references);
    let toc = info.metadata.toc.take();
    let toc = match toc {
        Some(toc) => {
            let mut toc = toc;
            fill_entries(&mut toc, &info.body);
            section_header(&mut toc, has_notes, &info.metadata.notes_title, &notes_id);
            section_header(
                &mut toc,
                has_references,
                &info.metadata.bibliography_title,
                &bibliography_id,
            );
            Some(toc)
        },
        None => None,
    };
    info.metadata.toc = toc;
    let mut diagnostics: Vec<Diagnostic> = Vec::new();
    std::mem::swap(&mut diagnostics, &mut info.diagnostics);
    if failed {
        diagnostics.push(Diagnostic::MalformedFrontmatter);
    }
    (info.build(notes_id, bibliography_id), diagnostics)
}

/// Parses a document and says what there is to say about it.
///
/// The parse fails exactly when a piece of inline text has a delimiter that
/// is never closed, or an image has a size that is no length.
pub fn parse_with_diagnostics(file_content: &String, file_path: Option<&String>) -> (r: Result<
    (AssDownDocument, Vec<Diagnostic>),
    ParseError,
>)
    ensures
        match document_of(file_content@, file_path is Some) {
            Ok((doc, diagnostics)) => r matches Ok(p) && p.0@ == doc && p.1@ == diagnostics,
            Err(e) => r matches Err(x) && x == e,
        },
        r matches Ok(p) ==> unique_nonempty_slugs(p.0@.body) && no_nested_box(p.0@.body)
            && unique_keys(p.0@.notes) && unique_keys(p.0@.references),
        r matches Ok(p) ==> (p.0@.meta.frontmatter matches Some(f) ==> sorted_keys(f.data)),
{
    proof {
        crate::soundness::lemma_document_header_sorted(file_content@, file_path is Some);
        crate::soundness::lemma_document_slugs_unique(file_content@, file_path is Some);
        crate::soundness::lemma_document_ids_unique(file_content@, file_path is Some);
    }
    let v = to_chars(file_content.as_str());
    let (toplevel_syntax, failed) = toplevel_chars(&v);
    match assemble(&toplevel_syntax) {
        Ok(info) => Ok(finish(info, file_path.is_some(), failed)),
        Err(e) => Err(e),
    }
}

/// Assembles the blocks of a document.
pub fn assemble(toplevel_syntax: &Vec<TopLevelSyntax>) -> (r: Result<ParserInfo, ParseError>)
    ensures
        match top_steps(blocks_view(toplevel_syntax@), 0, initial_info()) {
            Ok(info) => r matches Ok(x) && x@ == info,
            Err(e) => r matches Err(x) && x == e,
        },
        r matches Ok(x) ==> x.wf(),
{
    proof {
        crate::soundness::lemma_top_steps_distinct(blocks_view(toplevel_syntax@), 0, initial_info());
    }
    let mut info = ParserInfo::new();
    let mut i: usize = 0;
    let ghost blocks = blocks_view(toplevel_syntax@);
    while i < toplevel_syntax.len()
        invariant
            i <= toplevel_syntax@.len(),
            blocks == blocks_view(toplevel_syntax@),
            counters_within(info@, i as int),
            top_steps(blocks, i as int, info@) == top_steps(blocks, 0, initial_info()),
        decreases toplevel_syntax.len() - i,
    {
        let ghost before = info@;
        match top_block(&mut info, &toplevel_syntax[i]) {
            Ok(_) => {},
            Err(e) => {
                return Err(e);
            },
        }
        i += 1;
    }
    Ok(info)
}

/// Parses a document.
pub fn parse(file_content: &String, file_path: Option<&String>) -> (r: Result<
    AssDownDocument,
    ParseError,
>)
    ensures
        match document_of(file_content@, file_path is Some) {
            Ok((doc, _)) => r matches Ok(d) && d@ == doc,
            Err(e) => r matches Err(x) && x == e,
        },
        r matches Ok(d) ==> unique_nonempty_slugs(d@.body) && no_nested_box(d@.body)
            && unique_keys(d@.notes) && unique_keys(d@.references),
        r matches Ok(d) ==> (d@.meta.frontmatter matches Some(f) ==> sorted_keys(f.data)),
{
    match parse_with_diagnostics(file_content, file_path) {
        Ok((doc, _)) => Ok(doc),
        Err(e) => Err(e),
    }
}

} // verus!
