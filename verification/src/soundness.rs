//! What holds of every document: its slugs are unique, the slugs of its two
//! sections are kept for them, and no fact box holds a fact box.

use vstd::prelude::*;
use crate::config::{DEFAULT_BIBLIOGRAPHY_TITLE, DEFAULT_NOTES_TITLE, SECTION_COLLISION_SUFFIX};
use crate::factbox::{
    box_notes, box_step, box_steps, joined, made_box_from, merged, namespaced, plain_step, renamed,
};
use crate::frontmatter::{
    entries_unescaped, escaped, header_end, header_text, lemma_put_all, sorted_keys, yaml_entries,
};
use crate::inline::{initial_state, inline_parse, inline_run};
use crate::parser::{Made, counted_slug, length_suffix};
use crate::parser_util::{
    InfoView, initial_info, inked, lemma_map_put, lemma_slug_is_inked, map_put, slug_of,
    unique_keys,
};
use crate::paws_markdown::{
    cleared, deeper, described, document_of, first_match, renamed_at, section_slug, slug_index,
    toc_entries, top_step, top_steps,
};
use crate::reference::ReferenceView;
use crate::slugs::{
    all_inked, deduped, distinct, inner_body, is_position, lemma_deduped, lemma_deduped_ink,
    lemma_distinct_push, lemma_ink_of_suffix, lemma_push_entry, no_nested_box, registered, slug_at,
    slug_free, unique_nonempty_slugs, unique_slugs, within,
};
use crate::structs::ElementView;
use crate::text::{has_ink, lemma_ink_at};
use crate::toplevel::parser::{WalkState, block_step, blocks_of, ended, walk, walk_start};
use crate::toplevel::structs::BlockView;

verus! {

/// No entry of the body is a fact box.
pub open spec fn box_free(body: Seq<(ElementView, Seq<char>)>) -> bool {
    forall|i: int| 0 <= i < body.len() ==> !(#[trigger] body[i].0 is FactBox)
}

/// The state of an assembly is sound: no two slugs of its body are the same,
/// every slug of its body is in use, and no fact box holds a fact box.
pub open spec fn sound(info: InfoView) -> bool {
    &&& unique_slugs(info.body)
    &&& registered(info.body, info.ids)
    &&& no_nested_box(info.body)
    &&& unique_keys(info.notes)
    &&& unique_keys(info.references)
    &&& tidy_boxes(info.body)
}

/// No fact box of the body has two notes under one id.
pub open spec fn tidy_boxes(body: Seq<(ElementView, Seq<char>)>) -> bool {
    forall|i: int|
        0 <= i < body.len() ==> ((#[trigger] body[i]).0 matches ElementView::FactBox(fb)
            ==> unique_keys(fb.notes))
}

/// An element that is made joins a sound assembly soundly, where it is no
/// fact box and the assembly behind it has the body and the slugs in use of
/// the assembly before it.
proof fn lemma_join_sound(before: InfoView, m: Made)
    requires
        sound(before),
        m.info.body == before.body,
        m.info.ids == before.ids,
        m.info.notes == before.notes,
        m.info.references == before.references,
        !(m.element is FactBox),
    ensures
        sound(joined(m)),
        box_free(before.body) ==> box_free(joined(m).body),
        joined(m).body.len() == before.body.len() + 1,
        within(before.ids, joined(m).ids),
{
    let body = before.body;
    let ids = before.ids;
    let n = body.len();
    let suffix = length_suffix(n as usize);
    let after = joined(m);
    let slug = if has_ink(m.slug) {
        deduped(m.slug, ids, suffix)
    } else {
        m.slug
    };
    assert(after.body == body.push((m.element, slug)));
    let entry = (m.element, slug);
    if has_ink(m.slug) {
        lemma_deduped(m.slug, ids, suffix);
        assert(after.ids.last() == slug);
    }
    assert forall|i: int| 0 <= i < ids.len() implies after.ids.contains(#[trigger] ids[i]) by {
        assert(after.ids[i] == ids[i]);
    }
    lemma_push_entry(body, entry, ids, after.ids);
}

/// A step that is the same for every document keeps the assembly sound, and
/// adds no fact box to the body.
pub proof fn lemma_plain_step_sound(info: InfoView, block: BlockView)
    requires
        sound(info),
    ensures
        plain_step(info, block) matches Some(Ok(next)) ==> sound(next) && (box_free(info.body)
            ==> box_free(next.body)),
{
    match plain_step(info, block) {
        Some(Ok(next)) => {
            match block {
                BlockView::ReferenceDefinition(r) => {
                    lemma_map_put(info.references, r.id, r);
                },
                BlockView::NoteDefinition { id, text } => {
                    lemma_map_put(info.notes, id, crate::inline::inline_parse(text)->Ok_0.0);
                },
                BlockView::TOC(title) => {
                    if info.metadata.toc is None {
                        let marker = Made {
                            element: ElementView::TOCLocationMarker,
                            slug: Seq::empty(),
                            info,
                        };
                        lemma_join_sound(info, marker);
                    }
                },
                BlockView::PageBreak => {
                    lemma_join_sound(
                        info,
                        Made { element: ElementView::PageBreak, slug: Seq::empty(), info },
                    );
                },
                BlockView::CodeBlock(text) => {
                    lemma_join_sound(info, crate::parser::made_codeblock(info, text));
                },
                BlockView::Image(img) => {
                    lemma_join_sound(info, crate::parser::made_image(info, img)->Ok_0);
                },
                BlockView::List(items) => {
                    lemma_join_sound(info, crate::parser::made_list(info, items)->Ok_0);
                },
                BlockView::Paragraph(text) => {
                    lemma_join_sound(info, crate::parser::made_paragraph(info, text)->Ok_0);
                },
                BlockView::Heading(text, level) => {
                    lemma_join_sound(info, crate::parser::made_heading(info, text, level)->Ok_0);
                },
                BlockView::Quote(lines) => {
                    lemma_join_sound(info, crate::parser::made_quote(info, lines)->Ok_0);
                },
                _ => {},
            }
        },
        _ => {},
    }
}

/// The assembly of a fact box adds no fact box to its body.
pub proof fn lemma_box_steps_box_free(blocks: Seq<BlockView>, from: int, info: InfoView)
    requires
        sound(info),
        box_free(info.body),
    ensures
        box_steps(blocks, from, info) matches Ok(last) ==> box_free(last.body),
    decreases blocks.len() - from,
{
    if 0 <= from < blocks.len() {
        lemma_plain_step_sound(info, blocks[from]);
        match box_step(info, blocks[from]) {
            Ok(next) => {
                lemma_box_steps_box_free(blocks, from + 1, next);
            },
            Err(_) => {},
        }
    }
}

/// What putting the slugs of a fact box under the slug of the box gives: the
/// elements stay; each slug that holds more than white space is in use
/// afterwards, was not in use before, and differs from those made before it.
proof fn lemma_renamed(
    inner: Seq<(ElementView, Seq<char>)>,
    from: int,
    id: Seq<char>,
    suffix: Seq<char>,
    body: Seq<(ElementView, Seq<char>)>,
    ids: Seq<Seq<char>>,
)
    requires
        0 <= from <= inner.len(),
        suffix.len() > 0,
        body.len() == from,
    ensures
        ({
            let (b, after) = renamed(inner, from, id, suffix, body, ids);
            &&& b.len() == inner.len()
            &&& within(ids, after)
            &&& forall|k: int| 0 <= k < from ==> b[k] == body[k]
            &&& forall|k: int| from <= k < inner.len() ==> (#[trigger] b[k]).0 == inner[k].0
            &&& forall|k: int|
                from <= k < inner.len() && has_ink((#[trigger] b[k]).1) ==> after.contains(b[k].1)
                    && !ids.contains(b[k].1)
            &&& forall|k1: int, k2: int|
                from <= k1 < k2 < inner.len() && has_ink((#[trigger] b[k1]).1) ==> b[k1].1 != (
                #[trigger] b[k2]).1
        }),
    decreases inner.len() - from,
{
    let (b, after) = renamed(inner, from, id, suffix, body, ids);
    if from < inner.len() {
        let slug = if has_ink(inner[from].1) {
            deduped(namespaced(id, inner[from].1), ids, suffix)
        } else {
            inner[from].1
        };
        let ids2 = if has_ink(inner[from].1) {
            ids.push(slug)
        } else {
            ids
        };
        let body2 = body.push((inner[from].0, slug));
        lemma_deduped(namespaced(id, inner[from].1), ids, suffix);
        lemma_renamed(inner, from + 1, id, suffix, body2, ids2);
        assert forall|i: int| 0 <= i < ids.len() implies after.contains(#[trigger] ids[i]) by {
            assert(ids2[i] == ids[i]);
        }
        if has_ink(inner[from].1) {
            assert(ids2.last() == slug);
        }
        assert forall|k: int|
            from <= k < inner.len() && has_ink((#[trigger] b[k]).1) implies after.contains(b[k].1)
            && !ids.contains(b[k].1) by {
            if k > from {
                if ids.contains(b[k].1) {
                    let w = choose|w: int| 0 <= w < ids.len() && ids[w] == b[k].1;
                    assert(ids2[w] == b[k].1);
                }
            }
        }
    }
}

proof fn lemma_within_push(ids: Seq<Seq<char>>, slug: Seq<char>)
    ensures
        within(ids, ids.push(slug)),
        within(ids, ids),
        ids.push(slug).contains(slug),
{
    assert forall|i: int| 0 <= i < ids.len() implies ids.push(slug).contains(#[trigger] ids[i]) by {
        assert(ids.push(slug)[i] == ids[i]);
    }
    assert(ids.push(slug).last() == slug);
}

/// A fact box joins a sound assembly soundly, where its own assembly added
/// no fact box to its body.
proof fn lemma_box_entry_sound(info: InfoView, title: Seq<char>, inner: InfoView)
    requires
        sound(info),
        box_free(inner.body),
    ensures
        sound(joined(made_box_from(info, title, inner))),
{
    let m = made_box_from(info, title, inner);
    let n = info.body.len();
    let suffix = length_suffix(n as usize);
    let (b, ids2) = renamed(inner.body, 0, m.slug, suffix, Seq::empty(), info.ids);
    lemma_renamed(inner.body, 0, m.slug, suffix, Seq::empty(), info.ids);
    let after = joined(m);
    let slug = if has_ink(m.slug) {
        deduped(m.slug, ids2, suffix)
    } else {
        m.slug
    };
    let entry = (m.element, slug);
    assert(after.body == info.body.push(entry));
    lemma_deduped(m.slug, ids2, suffix);
    lemma_within_push(ids2, slug);
    lemma_push_entry(info.body, entry, info.ids, after.ids);
    lemma_merged(info.references, inner.references, 0);
    lemma_box_notes(inner.notes, 0, m.slug, Seq::empty());
}

proof fn lemma_merged(
    references: Seq<(Seq<char>, ReferenceView)>,
    more: Seq<(Seq<char>, ReferenceView)>,
    from: int,
)
    requires
        unique_keys(references),
    ensures
        unique_keys(merged(references, more, from)),
    decreases more.len() - from,
{
    if 0 <= from < more.len() {
        lemma_map_put(references, more[from].0, more[from].1);
        lemma_merged(map_put(references, more[from].0, more[from].1), more, from + 1);
    }
}

proof fn lemma_box_notes(
    notes: Seq<(Seq<char>, ElementView)>,
    from: int,
    id: Seq<char>,
    acc: Seq<(Seq<char>, (ElementView, Seq<char>))>,
)
    requires
        unique_keys(acc),
    ensures
        unique_keys(box_notes(notes, from, id, acc)),
    decreases notes.len() - from,
{
    if 0 <= from < notes.len() {
        let value = (notes[from].1, namespaced(id, notes[from].0));
        lemma_map_put(acc, notes[from].0, value);
        lemma_box_notes(notes, from + 1, id, map_put(acc, notes[from].0, value));
    }
}

/// Every step of the assembly of a document keeps it sound.
pub proof fn lemma_top_step_sound(info: InfoView, block: BlockView)
    requires
        sound(info),
    ensures
        top_step(info, block) matches Ok(next) ==> sound(next),
{
    lemma_plain_step_sound(info, block);
    match block {
        BlockView::FactBox { title, body } => {
            lemma_box_steps_box_free(body, 0, initial_info());
            match box_steps(body, 0, initial_info()) {
                Ok(inner) => {
                    lemma_box_entry_sound(info, title, inner);
                },
                Err(_) => {},
            }
        },
        _ => {},
    }
}

/// The assembly of a document is sound after every block.
pub proof fn lemma_top_steps_sound(blocks: Seq<BlockView>, from: int, info: InfoView)
    requires
        sound(info),
    ensures
        top_steps(blocks, from, info) matches Ok(last) ==> sound(last),
    decreases blocks.len() - from,
{
    if 0 <= from < blocks.len() {
        lemma_top_step_sound(info, blocks[from]);
        match top_step(info, blocks[from]) {
            Ok(next) => {
                lemma_top_steps_sound(blocks, from + 1, next);
            },
            Err(_) => {},
        }
    }
}

proof fn lemma_slug_index(body: Seq<(ElementView, Seq<char>)>, slug: Seq<char>, from: int)
    requires
        0 <= from <= body.len(),
    ensures
        from <= slug_index(body, slug, from) <= body.len(),
        slug_index(body, slug, from) < body.len() ==> body[slug_index(body, slug, from)].1 == slug,
        forall|k: int| from <= k < slug_index(body, slug, from) ==> (#[trigger] body[k]).1 != slug,
    decreases body.len() - from,
{
    if from < body.len() && body[from].1 != slug {
        lemma_slug_index(body, slug, from + 1);
    }
}

/// What the search for a slug finds is a position that holds the slug; where
/// it finds nothing, no position holds it.
proof fn lemma_first_match(body: Seq<(ElementView, Seq<char>)>, slug: Seq<char>, from: int)
    requires
        0 <= from,
    ensures
        match first_match(body, slug, from) {
            Some((i, j)) => from <= i && is_position(body, i, j) && slug_at(body, i, j) == slug,
            None => forall|i: int, j: int|
                from <= i && is_position(body, i, j) ==> #[trigger] slug_at(body, i, j) != slug,
        },
    decreases body.len() - from,
{
    if from < body.len() {
        let inner = inner_body(body[from].0);
        lemma_slug_index(inner, slug, 0);
        let j = slug_index(inner, slug, 0);
        if j >= inner.len() && body[from].1 != slug {
            lemma_first_match(body, slug, from + 1);
        }
    }
}

/// Giving the slug at one position a slug that is not in use keeps the body
/// sound: every other position keeps its slug.
proof fn lemma_renamed_at(
    body: Seq<(ElementView, Seq<char>)>,
    ids: Seq<Seq<char>>,
    i: int,
    j: int,
    slug: Seq<char>,
)
    requires
        unique_slugs(body),
        registered(body, ids),
        no_nested_box(body),
        is_position(body, i, j),
        !ids.contains(slug),
    ensures
        unique_slugs(renamed_at(body, i, j, slug)),
        registered(renamed_at(body, i, j, slug), ids.push(slug)),
        no_nested_box(renamed_at(body, i, j, slug)),
        tidy_boxes(body) ==> tidy_boxes(renamed_at(body, i, j, slug)),
        forall|a: int, b: int|
            is_position(renamed_at(body, i, j, slug), a, b) == is_position(body, a, b),
        forall|a: int, b: int|
            is_position(body, a, b) ==> #[trigger] slug_at(renamed_at(body, i, j, slug), a, b)
                == (if a == i && b == j {
                slug
            } else {
                slug_at(body, a, b)
            }),
{
    let after = renamed_at(body, i, j, slug);
    let ids2 = ids.push(slug);
    lemma_within_push(ids, slug);
    assert forall|i1: int, j1: int, i2: int, j2: int|
        #![trigger slug_at(after, i1, j1), slug_at(after, i2, j2)]
        is_position(after, i1, j1) && is_position(after, i2, j2) && has_ink(slug_at(after, i1, j1))
            && slug_at(after, i1, j1) == slug_at(after, i2, j2) implies i1 == i2 && j1 == j2 by {
        let first = i1 == i && j1 == j;
        let second = i2 == i && j2 == j;
        if first && !second {
            assert(ids.contains(slug_at(body, i2, j2)));
        } else if !first && second {
            assert(ids.contains(slug_at(body, i1, j1)));
        } else if !first && !second {
            assert(slug_at(body, i1, j1) == slug_at(body, i2, j2));
        }
    }
    assert forall|a: int, b: int|
        is_position(after, a, b) && has_ink(#[trigger] slug_at(after, a, b)) implies ids2.contains(
        slug_at(after, a, b),
    ) by {
        if !(a == i && b == j) {
            let s = slug_at(body, a, b);
            let k = choose|k: int| 0 <= k < ids.len() && ids[k] == s;
        }
    }
}

/// Keeping the slug of a section for the section keeps the assembly sound.
/// Where the section has entries, its slug is in use afterwards, and no
/// element has it where it holds more than white space. A slug in use that
/// no element had is still the slug of no element.
pub proof fn lemma_cleared(info: InfoView, section: Seq<char>, active: bool)
    requires
        sound(info),
    ensures
        sound(cleared(info, section, active)),
        within(info.ids, cleared(info, section, active).ids),
        active ==> cleared(info, section, active).ids.contains(section),
        active && has_ink(section) ==> slug_free(cleared(info, section, active).body, section),
        forall|kept: Seq<char>|
            slug_free(info.body, kept) && info.ids.contains(kept) ==> slug_free(
                #[trigger] cleared(info, section, active).body,
                kept,
            ),
        cleared(info, section, active).notes == info.notes,
        cleared(info, section, active).references == info.references,
        cleared(info, section, active).metadata == info.metadata,
        cleared(info, section, active).diagnostics == info.diagnostics,
{
    lemma_within_push(info.ids, section);
    if active {
        if info.ids.contains(section) {
            lemma_first_match(info.body, section, 0);
            match first_match(info.body, section, 0) {
                Some((i, j)) => {
                    proof_note_suffix();
                    let slug = deduped(section, info.ids, SECTION_COLLISION_SUFFIX@);
                    lemma_deduped(section, info.ids, SECTION_COLLISION_SUFFIX@);
                    lemma_renamed_at(info.body, info.ids, i, j, slug);
                    lemma_within_push(info.ids, slug);
                },
                None => {},
            }
        }
    }
}

proof fn proof_note_suffix()
    ensures
        SECTION_COLLISION_SUFFIX@.len() > 0,
{
    reveal_strlit("-disass");
}

/// The slug that an inline text gives is empty or holds a character that is
/// no white space.
proof fn lemma_inline_slug_inked(text: Seq<char>)
    ensures
        inline_parse(text) matches Ok((_, slug)) ==> inked(slug),
{
    match inline_run(text, initial_state()) {
        Ok(st) => {
            lemma_slug_is_inked(st.seed);
        },
        Err(_) => {},
    }
}

/// A name and a number make a slug that holds more than white space, where
/// the name starts with a character that is no white space.
proof fn lemma_counted_inked(name: Seq<char>, n: usize)
    requires
        name.len() > 0,
        !crate::text::is_space(name[0]),
    ensures
        has_ink(counted_slug(name, n)),
{
    assert(counted_slug(name, n)[0] == name[0]);
    lemma_ink_at(counted_slug(name, n), 0);
}

/// An element that is made joins a body whose slugs are empty or hold more
/// than white space, and leaves such a body, where its own slug and the slugs
/// inside it are such slugs.
proof fn lemma_join_inked(m: Made)
    requires
        all_inked(m.info.body),
        inked(m.slug),
        forall|j: int|
            0 <= j < inner_body(m.element).len() ==> inked((#[trigger] inner_body(m.element)[j]).1),
    ensures
        all_inked(joined(m).body),
{
    let body = m.info.body;
    let n = body.len();
    let suffix = length_suffix(n as usize);
    let after = joined(m);
    let slug = if has_ink(m.slug) {
        deduped(m.slug, m.info.ids, suffix)
    } else {
        m.slug
    };
    assert(after.body == body.push((m.element, slug)));
    if has_ink(m.slug) {
        lemma_deduped_ink(m.slug, m.info.ids, suffix);
    }
    assert forall|i: int, j: int| is_position(after.body, i, j) implies inked(
        #[trigger] slug_at(after.body, i, j),
    ) by {
        if i < n {
            assert(after.body[i] == body[i]);
            assert(is_position(body, i, j));
            assert(slug_at(after.body, i, j) == slug_at(body, i, j));
        } else if j >= 0 {
            assert(slug_at(after.body, i, j) == inner_body(m.element)[j].1);
        }
    }
}

/// A step that is the same for every document leaves every slug of the body
/// empty or with more than white space in it.
proof fn lemma_plain_step_inked(info: InfoView, block: BlockView)
    requires
        all_inked(info.body),
    ensures
        plain_step(info, block) matches Some(Ok(next)) ==> all_inked(next.body),
{
    reveal_strlit("codeblock");
    reveal_strlit("image");
    reveal_strlit("list");
    reveal_strlit("quote");
    match plain_step(info, block) {
        Some(Ok(next)) => {
            match block {
                BlockView::TOC(title) => {
                    if info.metadata.toc is None {
                        lemma_join_inked(
                            Made {
                                element: ElementView::TOCLocationMarker,
                                slug: Seq::empty(),
                                info,
                            },
                        );
                    }
                },
                BlockView::PageBreak => {
                    lemma_join_inked(
                        Made { element: ElementView::PageBreak, slug: Seq::empty(), info },
                    );
                },
                BlockView::CodeBlock(text) => {
                    lemma_counted_inked("codeblock"@, info.num_codeblocks);
                    lemma_ink_at("codeblock"@, 0);
                    lemma_join_inked(crate::parser::made_codeblock(info, text));
                },
                BlockView::Image(img) => {
                    lemma_inline_slug_inked(img.alt);
                    lemma_counted_inked("image"@, info.num_image);
                    lemma_join_inked(crate::parser::made_image(info, img)->Ok_0);
                },
                BlockView::List(items) => {
                    lemma_counted_inked("list"@, info.num_lists);
                    lemma_join_inked(crate::parser::made_list(info, items)->Ok_0);
                },
                BlockView::Paragraph(text) => {
                    lemma_inline_slug_inked(text);
                    lemma_join_inked(crate::parser::made_paragraph(info, text)->Ok_0);
                },
                BlockView::Heading(text, level) => {
                    lemma_inline_slug_inked(text);
                    lemma_join_inked(crate::parser::made_heading(info, text, level)->Ok_0);
                },
                BlockView::Quote(lines) => {
                    lemma_counted_inked("quote"@, info.num_quotes);
                    lemma_join_inked(crate::parser::made_quote(info, lines)->Ok_0);
                },
                _ => {},
            }
        },
        _ => {},
    }
}

/// The assembly of a fact box leaves every slug of its body empty or with
/// more than white space in it.
proof fn lemma_box_steps_inked(blocks: Seq<BlockView>, from: int, info: InfoView)
    requires
        all_inked(info.body),
    ensures
        box_steps(blocks, from, info) matches Ok(last) ==> all_inked(last.body),
    decreases blocks.len() - from,
{
    if 0 <= from < blocks.len() {
        lemma_plain_step_inked(info, blocks[from]);
        match box_step(info, blocks[from]) {
            Ok(next) => {
                lemma_box_steps_inked(blocks, from + 1, next);
            },
            Err(_) => {},
        }
    }
}

/// Putting the slugs of a fact box under the slug of the box leaves each of
/// them empty or with more than white space in it.
proof fn lemma_renamed_inked(
    inner: Seq<(ElementView, Seq<char>)>,
    from: int,
    id: Seq<char>,
    suffix: Seq<char>,
    body: Seq<(ElementView, Seq<char>)>,
    ids: Seq<Seq<char>>,
)
    requires
        0 <= from <= inner.len(),
        suffix.len() > 0,
        forall|k: int| 0 <= k < inner.len() ==> inked((#[trigger] inner[k]).1),
        forall|k: int| 0 <= k < body.len() ==> inked((#[trigger] body[k]).1),
    ensures
        forall|k: int|
            0 <= k < renamed(inner, from, id, suffix, body, ids).0.len() ==> inked(
                (#[trigger] renamed(inner, from, id, suffix, body, ids).0[k]).1,
            ),
    decreases inner.len() - from,
{
    let all = renamed(inner, from, id, suffix, body, ids).0;
    if from < inner.len() {
        let slug = inner[from].1;
        if has_ink(slug) {
            let full = namespaced(id, slug);
            assert(full == (id + seq!['-']) + slug);
            lemma_ink_of_suffix(id + seq!['-'], slug);
            lemma_deduped_ink(full, ids, suffix);
            let free = deduped(full, ids, suffix);
            let body2 = body.push((inner[from].0, free));
            assert forall|k: int| 0 <= k < body2.len() implies inked((#[trigger] body2[k]).1) by {
                if k < body.len() {
                    assert(body2[k] == body[k]);
                }
            }
            lemma_renamed_inked(inner, from + 1, id, suffix, body2, ids.push(free));
            assert(all == renamed(inner, from + 1, id, suffix, body2, ids.push(free)).0);
        } else {
            let body2 = body.push(inner[from]);
            assert forall|k: int| 0 <= k < body2.len() implies inked((#[trigger] body2[k]).1) by {
                if k < body.len() {
                    assert(body2[k] == body[k]);
                }
            }
            lemma_renamed_inked(inner, from + 1, id, suffix, body2, ids);
            assert(all == renamed(inner, from + 1, id, suffix, body2, ids).0);
        }
    } else {
        assert(all == body);
    }
}

/// Every step of the assembly of a document leaves every slug of the body
/// empty or with more than white space in it.
proof fn lemma_top_step_inked(info: InfoView, block: BlockView)
    requires
        all_inked(info.body),
    ensures
        top_step(info, block) matches Ok(next) ==> all_inked(next.body),
{
    lemma_plain_step_inked(info, block);
    match block {
        BlockView::FactBox { title, body } => {
            lemma_box_steps_inked(body, 0, initial_info());
            match box_steps(body, 0, initial_info()) {
                Ok(inner) => {
                    let m = made_box_from(info, title, inner);
                    let suffix = length_suffix(info.body.len() as usize);
                    assert forall|k: int| 0 <= k < inner.body.len() implies inked(
                        (#[trigger] inner.body[k]).1,
                    ) by {
                        assert(is_position(inner.body, k, -1));
                        assert(slug_at(inner.body, k, -1) == inner.body[k].1);
                    }
                    lemma_renamed_inked(inner.body, 0, m.slug, suffix, Seq::empty(), info.ids);
                    reveal_strlit("factbox");
                    lemma_slug_is_inked(title);
                    lemma_counted_inked("factbox"@, info.num_factboxes);
                    lemma_join_inked(m);
                },
                Err(_) => {},
            }
        },
        _ => {},
    }
}

proof fn lemma_top_steps_inked(blocks: Seq<BlockView>, from: int, info: InfoView)
    requires
        all_inked(info.body),
    ensures
        top_steps(blocks, from, info) matches Ok(last) ==> all_inked(last.body),
    decreases blocks.len() - from,
{
    if 0 <= from < blocks.len() {
        lemma_top_step_inked(info, blocks[from]);
        match top_step(info, blocks[from]) {
            Ok(next) => {
                lemma_top_steps_inked(blocks, from + 1, next);
            },
            Err(_) => {},
        }
    }
}

/// Keeping the slug of a section for the section leaves every slug of the
/// body empty or with more than white space in it.
proof fn lemma_cleared_inked(info: InfoView, section: Seq<char>, active: bool)
    requires
        sound(info),
        all_inked(info.body),
    ensures
        all_inked(cleared(info, section, active).body),
{
    if active && info.ids.contains(section) {
        lemma_first_match(info.body, section, 0);
        match first_match(info.body, section, 0) {
            Some((i, j)) => {
                proof_note_suffix();
                reveal_strlit("-disass");
                let slug = deduped(section, info.ids, SECTION_COLLISION_SUFFIX@);
                lemma_deduped(section, info.ids, SECTION_COLLISION_SUFFIX@);
                lemma_deduped_ink(section, info.ids, SECTION_COLLISION_SUFFIX@);
                lemma_renamed_at(info.body, info.ids, i, j, slug);
                let after = renamed_at(info.body, i, j, slug);
                assert forall|a: int, b: int| is_position(after, a, b) implies inked(
                    #[trigger] slug_at(after, a, b),
                ) by {
                    assert(is_position(info.body, a, b));
                    if !(a == i && b == j) {
                        assert(slug_at(after, a, b) == slug_at(info.body, a, b));
                    }
                }
            },
            None => {},
        }
    }
}

/// An element that joins the body leaves the slugs in use distinct.
proof fn lemma_join_distinct(m: Made)
    requires
        distinct(m.info.ids),
    ensures
        distinct(joined(m).ids),
{
    let suffix = length_suffix(m.info.body.len() as usize);
    if has_ink(m.slug) {
        lemma_deduped(m.slug, m.info.ids, suffix);
        lemma_distinct_push(m.info.ids, deduped(m.slug, m.info.ids, suffix));
    }
}

proof fn lemma_plain_step_distinct(info: InfoView, block: BlockView)
    requires
        distinct(info.ids),
    ensures
        plain_step(info, block) matches Some(Ok(next)) ==> distinct(next.ids),
{
    match plain_step(info, block) {
        Some(Ok(next)) => {
            match block {
                BlockView::PageBreak => {
                    lemma_join_distinct(
                        Made { element: ElementView::PageBreak, slug: Seq::empty(), info },
                    );
                },
                BlockView::CodeBlock(text) => {
                    lemma_join_distinct(crate::parser::made_codeblock(info, text));
                },
                BlockView::Image(img) => {
                    lemma_join_distinct(crate::parser::made_image(info, img)->Ok_0);
                },
                BlockView::List(items) => {
                    lemma_join_distinct(crate::parser::made_list(info, items)->Ok_0);
                },
                BlockView::Paragraph(text) => {
                    lemma_join_distinct(crate::parser::made_paragraph(info, text)->Ok_0);
                },
                BlockView::Heading(text, level) => {
                    lemma_join_distinct(crate::parser::made_heading(info, text, level)->Ok_0);
                },
                BlockView::Quote(lines) => {
                    lemma_join_distinct(crate::parser::made_quote(info, lines)->Ok_0);
                },
                _ => {},
            }
        },
        _ => {},
    }
}

proof fn lemma_renamed_distinct(
    inner: Seq<(ElementView, Seq<char>)>,
    from: int,
    id: Seq<char>,
    suffix: Seq<char>,
    body: Seq<(ElementView, Seq<char>)>,
    ids: Seq<Seq<char>>,
)
    requires
        0 <= from,
        suffix.len() > 0,
        distinct(ids),
    ensures
        distinct(renamed(inner, from, id, suffix, body, ids).1),
    decreases inner.len() - from,
{
    if from < inner.len() {
        if has_ink(inner[from].1) {
            let free = deduped(namespaced(id, inner[from].1), ids, suffix);
            lemma_deduped(namespaced(id, inner[from].1), ids, suffix);
            lemma_distinct_push(ids, free);
            lemma_renamed_distinct(
                inner,
                from + 1,
                id,
                suffix,
                body.push((inner[from].0, free)),
                ids.push(free),
            );
        } else {
            lemma_renamed_distinct(inner, from + 1, id, suffix, body.push(inner[from]), ids);
        }
    }
}

proof fn lemma_top_step_distinct(info: InfoView, block: BlockView)
    requires
        distinct(info.ids),
    ensures
        top_step(info, block) matches Ok(next) ==> distinct(next.ids),
{
    lemma_plain_step_distinct(info, block);
    match block {
        BlockView::FactBox { title, body } => {
            match box_steps(body, 0, initial_info()) {
                Ok(inner) => {
                    let m = made_box_from(info, title, inner);
                    lemma_renamed_distinct(
                        inner.body,
                        0,
                        m.slug,
                        length_suffix(info.body.len() as usize),
                        Seq::empty(),
                        info.ids,
                    );
                    lemma_join_distinct(m);
                },
                Err(_) => {},
            }
        },
        _ => {},
    }
}

/// While a document is assembled, none of the slugs in use occurs twice.
pub proof fn lemma_top_steps_distinct(blocks: Seq<BlockView>, from: int, info: InfoView)
    requires
        distinct(info.ids),
    ensures
        top_steps(blocks, from, info) matches Ok(last) ==> distinct(last.ids),
    decreases blocks.len() - from,
{
    if 0 <= from < blocks.len() {
        lemma_top_step_distinct(info, blocks[from]);
        match top_step(info, blocks[from]) {
            Ok(next) => {
                lemma_top_steps_distinct(blocks, from + 1, next);
            },
            Err(_) => {},
        }
    }
}

/// While a fact box is assembled, none of the slugs in use occurs twice.
pub proof fn lemma_box_steps_distinct(blocks: Seq<BlockView>, from: int, info: InfoView)
    requires
        distinct(info.ids),
    ensures
        box_steps(blocks, from, info) matches Ok(last) ==> distinct(last.ids),
    decreases blocks.len() - from,
{
    if 0 <= from < blocks.len() {
        lemma_plain_step_distinct(info, blocks[from]);
        match box_step(info, blocks[from]) {
            Ok(next) => {
                lemma_box_steps_distinct(blocks, from + 1, next);
            },
            Err(_) => {},
        }
    }
}

/// Slugs that are unique where they hold more than white space, and that are
/// empty where they do not, are unique where they are not empty.
pub proof fn lemma_unique_nonempty(body: Seq<(ElementView, Seq<char>)>)
    requires
        unique_slugs(body),
        all_inked(body),
    ensures
        unique_nonempty_slugs(body),
{
    assert forall|i1: int, j1: int, i2: int, j2: int|
        #![trigger slug_at(body, i1, j1), slug_at(body, i2, j2)]
        is_position(body, i1, j1) && is_position(body, i2, j2) && slug_at(body, i1, j1).len() > 0
            && slug_at(body, i1, j1) == slug_at(body, i2, j2) implies i1 == i2 && j1 == j2 by {
        assert(inked(slug_at(body, i1, j1)));
    }
}

/// The slugs of a document are unique: no two elements of its body, the
/// elements inside its fact boxes included, have the same slug, unless the
/// slug is empty. Every slug is empty or holds a character that is no white
/// space. And no fact box holds a fact box.
pub proof fn lemma_document_slugs_unique(text: Seq<char>, has_path: bool)
    ensures
        document_of(text, has_path) matches Ok((doc, _)) ==> unique_nonempty_slugs(doc.body)
            && all_inked(doc.body) && unique_slugs(doc.body) && no_nested_box(doc.body),
{
    lemma_document_sound(text, has_path);
}

/// The notes and the references of a document, and the notes of each of its
/// fact boxes, hold each id once.
pub proof fn lemma_document_ids_unique(text: Seq<char>, has_path: bool)
    ensures
        document_of(text, has_path) matches Ok((doc, _)) ==> unique_keys(doc.notes)
            && unique_keys(doc.references) && tidy_boxes(doc.body),
{
    lemma_document_sound(text, has_path);
}

/// The slug of each section is the slug of the title of the section, and
/// where the section has entries and its slug is not empty it is kept for the
/// section: no element of the body has it, the elements inside fact boxes
/// included.
pub proof fn lemma_section_slugs_kept(text: Seq<char>, has_path: bool)
    ensures
        document_of(text, has_path) matches Ok((doc, _)) ==> {
            &&& doc.notes_id == section_slug(doc.meta.notes_title, DEFAULT_NOTES_TITLE@)
            &&& doc.bibliography_id == section_slug(
                doc.meta.bibliography_title,
                DEFAULT_BIBLIOGRAPHY_TITLE@,
            )
            &&& doc.notes.len() > 0 && doc.notes_id.len() > 0 ==> slug_free(
                doc.body,
                doc.notes_id,
            )
            &&& doc.references.len() > 0 && doc.bibliography_id.len() > 0 ==> slug_free(
                doc.body,
                doc.bibliography_id,
            )
        },
{
    lemma_document_sound(text, has_path);
}

proof fn lemma_document_sound(text: Seq<char>, has_path: bool)
    ensures
        document_of(text, has_path) matches Ok((doc, _)) ==> {
            &&& unique_slugs(doc.body)
            &&& all_inked(doc.body)
            &&& unique_nonempty_slugs(doc.body)
            &&& no_nested_box(doc.body)
            &&& unique_keys(doc.notes)
            &&& unique_keys(doc.references)
            &&& tidy_boxes(doc.body)
            &&& doc.notes_id == section_slug(doc.meta.notes_title, DEFAULT_NOTES_TITLE@)
            &&& doc.bibliography_id == section_slug(
                doc.meta.bibliography_title,
                DEFAULT_BIBLIOGRAPHY_TITLE@,
            )
            &&& doc.notes.len() > 0 && doc.notes_id.len() > 0 ==> slug_free(
                doc.body,
                doc.notes_id,
            )
            &&& doc.references.len() > 0 && doc.bibliography_id.len() > 0 ==> slug_free(
                doc.body,
                doc.bibliography_id,
            )
        },
{
    lemma_top_steps_sound(blocks_of(text), 0, initial_info());
    lemma_top_steps_inked(blocks_of(text), 0, initial_info());
    match top_steps(blocks_of(text), 0, initial_info()) {
        Ok(info) => {
            let told = described(info, has_path);
            let notes_id = section_slug(told.metadata.notes_title, DEFAULT_NOTES_TITLE@);
            let bibliography_id = section_slug(
                told.metadata.bibliography_title,
                DEFAULT_BIBLIOGRAPHY_TITLE@,
            );
            lemma_slug_is_inked(told.metadata.notes_title);
            lemma_slug_is_inked(DEFAULT_NOTES_TITLE@);
            lemma_slug_is_inked(told.metadata.bibliography_title);
            lemma_slug_is_inked(DEFAULT_BIBLIOGRAPHY_TITLE@);
            let first = cleared(told, notes_id, told.notes.len() > 0);
            lemma_cleared(told, notes_id, told.notes.len() > 0);
            lemma_cleared_inked(told, notes_id, told.notes.len() > 0);
            let second = cleared(first, bibliography_id, told.references.len() > 0);
            lemma_cleared(first, bibliography_id, told.references.len() > 0);
            lemma_cleared_inked(first, bibliography_id, told.references.len() > 0);
            lemma_unique_nonempty(second.body);
        },
        Err(_) => {},
    }
}

/// Whether an entry of the table of contents stands for entry `i` of the
/// body: a heading with its text and level, or a fact box at level two, with
/// the slug of the entry.
pub open spec fn is_entry_of(
    header: (ElementView, usize, Seq<char>),
    body: Seq<(ElementView, Seq<char>)>,
    i: int,
) -> bool {
    &&& 0 <= i < body.len()
    &&& header.2 == body[i].1
    &&& match body[i].0 {
        ElementView::Header(text, depth) => header.0 == *text && header.1 == depth,
        ElementView::FactBox(_) => header.0 == body[i].0 && header.1 == 2,
        _ => false,
    }
}

/// Whether an entry of the table of contents stands for an entry of the body
/// at or after index `from`.
pub open spec fn comes_from(
    header: (ElementView, usize, Seq<char>),
    body: Seq<(ElementView, Seq<char>)>,
    from: int,
) -> bool {
    exists|i: int| from <= i && #[trigger] is_entry_of(header, body, i)
}

/// The entries that a walk over the body adds to a table of contents stand
/// for entries of the body from the start of the walk on, and none of them
/// is deeper than the depth that the walk gives.
pub proof fn lemma_toc_entries(
    body: Seq<(ElementView, Seq<char>)>,
    from: int,
    headers: Seq<(ElementView, usize, Seq<char>)>,
    max_depth: usize,
)
    requires
        0 <= from,
    ensures
        ({
            let (all, depth) = toc_entries(body, from, headers, max_depth);
            &&& all.len() >= headers.len()
            &&& forall|k: int| 0 <= k < headers.len() ==> all[k] == headers[k]
            &&& forall|k: int|
                headers.len() <= k < all.len() ==> comes_from(#[trigger] all[k], body, from)
                    && all[k].1 <= depth
            &&& depth >= max_depth
        }),
    decreases body.len() - from,
{
    if from < body.len() {
        let (all, depth) = toc_entries(body, from, headers, max_depth);
        match body[from].0 {
            ElementView::Header(text, level) => {
                let entry = (*text, level, body[from].1);
                lemma_toc_entries(body, from + 1, headers.push(entry), deeper(level, max_depth));
                assert(is_entry_of(entry, body, from));
            },
            ElementView::FactBox(_) => {
                let entry = (body[from].0, 2usize, body[from].1);
                lemma_toc_entries(body, from + 1, headers.push(entry), deeper(2, max_depth));
                assert(is_entry_of(entry, body, from));
            },
            _ => {
                lemma_toc_entries(body, from + 1, headers, max_depth);
            },
        }
    }
}

/// The table of contents of a document lists what stands at or after its
/// marker: each of its entries stands for a heading or a fact box of the body
/// at or after the index of the marker, or is the entry of the notes or of
/// the bibliography.
pub proof fn lemma_toc_lists_what_follows(text: Seq<char>, has_path: bool)
    ensures
        document_of(text, has_path) matches Ok((doc, _)) ==> (doc.meta.toc matches Some(toc)
            ==> forall|k: int|
            0 <= k < toc.headers.len() ==> comes_from(
                #[trigger] toc.headers[k],
                doc.body,
                toc.index as int,
            ) || toc.headers[k] == (ElementView::Text(doc.meta.notes_title), 1usize, doc.notes_id)
                || toc.headers[k] == (
                ElementView::Text(doc.meta.bibliography_title),
                1usize,
                doc.bibliography_id,
            )),
{
    match top_steps(blocks_of(text), 0, initial_info()) {
        Ok(info) => {
            let (doc, _) = crate::paws_markdown::document_from(
                info,
                has_path,
                crate::toplevel::parser::header_failed(text),
            );
            match doc.meta.toc {
                Some(toc) => {
                    let told = described(info, has_path);
                    let kept = cleared(
                        cleared(told, doc.notes_id, told.notes.len() > 0),
                        doc.bibliography_id,
                        told.references.len() > 0,
                    );
                    let start = kept.metadata.toc->0;
                    lemma_toc_entries(doc.body, start.index as int, start.headers, start.max_depth);
                    let (found, depth) = toc_entries(
                        doc.body,
                        start.index as int,
                        start.headers,
                        start.max_depth,
                    );
                    lemma_toc_starts_empty(blocks_of(text), 0, initial_info());
                },
                None => {},
            }
        },
        Err(_) => {},
    }
}

/// While a document is assembled, its table of contents has no entries.
proof fn lemma_toc_starts_empty(blocks: Seq<BlockView>, from: int, info: InfoView)
    requires
        info.metadata.toc matches Some(toc) ==> toc.headers.len() == 0,
    ensures
        top_steps(blocks, from, info) matches Ok(last) ==> (last.metadata.toc matches Some(toc)
            ==> toc.headers.len() == 0),
    decreases blocks.len() - from,
{
    if 0 <= from < blocks.len() {
        match top_step(info, blocks[from]) {
            Ok(next) => {
                lemma_toc_starts_empty(blocks, from + 1, next);
            },
            Err(_) => {},
        }
    }
}

/// A slug is no longer than the limit.
pub proof fn lemma_slug_is_short(s: Seq<char>)
    ensures
        slug_of(s) matches Some(id) ==> id.len() <= crate::config::MAX_ID_LENGTH,
{
}

/// The keys of every header among the blocks are in order.
pub open spec fn headers_sorted(blocks: Seq<BlockView>) -> bool {
    forall|i: int|
        0 <= i < blocks.len() ==> ((#[trigger] blocks[i]) matches BlockView::FrontMatter(f)
            ==> sorted_keys(f.data))
}

proof fn lemma_walk_sorted(st: WalkState)
    requires
        headers_sorted(st.blocks),
    ensures
        headers_sorted(walk(st)),
    decreases st.text.len(),
{
    let done = ended(st).blocks;
    assert(headers_sorted(done)) by {
        assert forall|i: int| 0 <= i < done.len() implies ((#[trigger] done[i]) matches BlockView::FrontMatter(
            f,
        ) ==> sorted_keys(f.data)) by {
            if i < st.blocks.len() {
                assert(done[i] == st.blocks[i]);
            }
        }
    }
    if st.text.len() > 0 {
        let next = block_step(st);
        if next.text.len() < st.text.len() {
            assert(headers_sorted(next.blocks)) by {
                assert forall|i: int| 0 <= i < next.blocks.len() implies ((
                #[trigger] next.blocks[i]) matches BlockView::FrontMatter(f) ==> sorted_keys(
                    f.data,
                )) by {
                    if i < done.len() {
                        assert(next.blocks[i] == done[i]);
                    }
                }
            }
            lemma_walk_sorted(next);
        }
    }
}

/// The keys of the header of a document are in order, each once.
pub proof fn lemma_document_header_sorted(text: Seq<char>, has_path: bool)
    ensures
        document_of(text, has_path) matches Ok((doc, _)) ==> (doc.meta.frontmatter matches Some(f)
            ==> sorted_keys(f.data)),
{
    let start = walk_start(text);
    match header_end(text) {
        Some(end) => {
            let header = header_text(text, end);
            match yaml_entries(escaped(header)) {
                Some(entries) => {
                    lemma_put_all(entries_unescaped(entries), 0, Seq::empty());
                },
                None => {},
            }
        },
        None => {},
    }
    assert(headers_sorted(start.blocks));
    if start.text.len() <= text.len() {
        lemma_walk_sorted(start);
    }
    lemma_top_steps_header(blocks_of(text), 0, initial_info());
}

proof fn lemma_top_steps_header(blocks: Seq<BlockView>, from: int, info: InfoView)
    requires
        headers_sorted(blocks),
        info.metadata.frontmatter matches Some(f) ==> sorted_keys(f.data),
    ensures
        top_steps(blocks, from, info) matches Ok(last) ==> (last.metadata.frontmatter matches Some(
            f,
        ) ==> sorted_keys(f.data)),
    decreases blocks.len() - from,
{
    if 0 <= from < blocks.len() {
        match top_step(info, blocks[from]) {
            Ok(next) => {
                lemma_top_steps_header(blocks, from + 1, next);
            },
            Err(_) => {},
        }
    }
}

} // verus!
