//! Slugs that are unique within a document: the set of slugs in use, and how
//! a slug that is taken becomes one that is free.

use vstd::prelude::*;
use crate::structs::ElementView;
use crate::parser_util::inked;
use crate::text::{
    append_chars, has_ink, is_space, lemma_ink_at, lemma_skip_space_bounds, skip_space, to_chars,
    to_string,
};
use crate::toplevel::structs::strings_view;

verus! {

/// The length of the longest of some slugs.
pub open spec fn max_len(ids: Seq<Seq<char>>) -> nat
    decreases ids.len(),
{
    if ids.len() == 0 {
        0
    } else if ids.last().len() > max_len(ids.drop_last()) {
        ids.last().len()
    } else {
        max_len(ids.drop_last())
    }
}

/// None of some slugs is longer than the longest of them.
pub proof fn lemma_max_len(ids: Seq<Seq<char>>, slug: Seq<char>)
    requires
        ids.contains(slug),
    ensures
        slug.len() <= max_len(ids),
    decreases ids.len(),
{
    if ids.len() > 0 {
        if ids.last() != slug {
            let i = choose|i: int| 0 <= i < ids.len() && ids[i] == slug;
            assert(ids.drop_last()[i] == slug);
            lemma_max_len(ids.drop_last(), slug);
        }
    }
}

/// How much longer a slug can get before it is longer than every one of
/// `ids`.
pub open spec fn room(ids: Seq<Seq<char>>, slug: Seq<char>) -> nat {
    if slug.len() <= max_len(ids) {
        (max_len(ids) - slug.len() + 1) as nat
    } else {
        0
    }
}

/// The slug that `slug` becomes so that it is none of `ids`: `suffix` is
/// appended to it until it is free.
pub open spec fn deduped(slug: Seq<char>, ids: Seq<Seq<char>>, suffix: Seq<char>) -> Seq<char>
    decreases room(ids, slug),
{
    if ids.contains(slug) && suffix.len() > 0 {
        proof {
            lemma_max_len(ids, slug);
        }
        deduped(slug + suffix, ids, suffix)
    } else {
        slug
    }
}

/// A deduplicated slug is free, and it starts with the slug it was made from.
pub proof fn lemma_deduped(slug: Seq<char>, ids: Seq<Seq<char>>, suffix: Seq<char>)
    requires
        suffix.len() > 0,
    ensures
        !ids.contains(deduped(slug, ids, suffix)),
        deduped(slug, ids, suffix).len() >= slug.len(),
        deduped(slug, ids, suffix).take(slug.len() as int) == slug,
        !ids.contains(slug) ==> deduped(slug, ids, suffix) == slug,
    decreases room(ids, slug),
{
    if ids.contains(slug) {
        lemma_max_len(ids, slug);
        lemma_deduped(slug + suffix, ids, suffix);
    }
}

/// Whether a slug is in use.
pub fn contains_slug(ids: &Vec<String>, slug: &String) -> (b: bool)
    ensures
        b == strings_view(ids@).contains(slug@),
{
    let mut i: usize = 0;
    while i < ids.len()
        invariant
            i <= ids@.len(),
            forall|j: int| 0 <= j < i ==> strings_view(ids@)[j] != slug@,
        decreases ids.len() - i,
    {
        if ids[i] == *slug {
            assert(strings_view(ids@)[i as int] == slug@);
            return true;
        }
        i += 1;
    }
    false
}

/// Makes a slug free: appends `suffix` to it until it is none of `ids`.
pub fn dedup(slug: String, ids: &Vec<String>, suffix: &Vec<char>) -> (r: String)
    requires
        suffix@.len() > 0,
    ensures
        r@ == deduped(slug@, strings_view(ids@), suffix@),
        !strings_view(ids@).contains(r@),
{
    let ghost all = strings_view(ids@);
    if !contains_slug(ids, &slug) {
        return slug;
    }
    let mut cur = to_chars(slug.as_str());
    let mut text = slug;
    while contains_slug(ids, &text)
        invariant
            suffix@.len() > 0,
            all == strings_view(ids@),
            text@ == cur@,
            deduped(cur@, all, suffix@) == deduped(slug@, all, suffix@),
        decreases room(all, cur@),
    {
        proof {
            lemma_max_len(all, cur@);
        }
        append_chars(&mut cur, suffix);
        text = to_string(&cur);
    }
    text
}

/// The texts of strings with one more string.
pub proof fn lemma_strings_push(ids: Seq<String>, s: String)
    ensures
        strings_view(ids.push(s)) == strings_view(ids).push(s@),
{
}

/// The body inside an element: the body of a fact box, and nothing for any
/// other element.
pub open spec fn inner_body(e: ElementView) -> Seq<(ElementView, Seq<char>)> {
    match e {
        ElementView::FactBox(fb) => fb.body,
        _ => Seq::empty(),
    }
}

/// Whether `(i, j)` names a slug of the body: the slug of entry `i` itself
/// for `j == -1`, and the slug of entry `j` inside entry `i` otherwise.
pub open spec fn is_position(body: Seq<(ElementView, Seq<char>)>, i: int, j: int) -> bool {
    0 <= i < body.len() && -1 <= j < inner_body(body[i].0).len()
}

/// The slug at a position.
pub open spec fn slug_at(body: Seq<(ElementView, Seq<char>)>, i: int, j: int) -> Seq<char> {
    if j < 0 {
        body[i].1
    } else {
        inner_body(body[i].0)[j].1
    }
}

/// No two slugs of the body that hold more than white space are the same,
/// the slugs inside fact boxes included.
pub open spec fn unique_slugs(body: Seq<(ElementView, Seq<char>)>) -> bool {
    forall|i1: int, j1: int, i2: int, j2: int|
        #![trigger slug_at(body, i1, j1), slug_at(body, i2, j2)]
        is_position(body, i1, j1) && is_position(body, i2, j2) && has_ink(slug_at(body, i1, j1))
            && slug_at(body, i1, j1) == slug_at(body, i2, j2) ==> i1 == i2 && j1 == j2
}

/// Every slug of the body that holds more than white space is one of `ids`.
pub open spec fn registered(body: Seq<(ElementView, Seq<char>)>, ids: Seq<Seq<char>>) -> bool {
    forall|i: int, j: int|
        is_position(body, i, j) && has_ink(#[trigger] slug_at(body, i, j)) ==> ids.contains(
            slug_at(body, i, j),
        )
}

/// No slug of the body is `slug`.
pub open spec fn slug_free(body: Seq<(ElementView, Seq<char>)>, slug: Seq<char>) -> bool {
    forall|i: int, j: int| is_position(body, i, j) ==> #[trigger] slug_at(body, i, j) != slug
}

/// No fact box of the body holds a fact box.
pub open spec fn no_nested_box(body: Seq<(ElementView, Seq<char>)>) -> bool {
    forall|i: int, j: int|
        0 <= i < body.len() && 0 <= j < inner_body(body[i].0).len() ==> !(#[trigger] inner_body(
            body[i].0,
        )[j].0 is FactBox)
}

/// Every slug of the body is empty or holds a character that is no white
/// space.
pub open spec fn all_inked(body: Seq<(ElementView, Seq<char>)>) -> bool {
    forall|i: int, j: int| is_position(body, i, j) ==> inked(#[trigger] slug_at(body, i, j))
}

/// No two slugs of the body that are not empty are the same, the slugs inside
/// fact boxes included.
pub open spec fn unique_nonempty_slugs(body: Seq<(ElementView, Seq<char>)>) -> bool {
    forall|i1: int, j1: int, i2: int, j2: int|
        #![trigger slug_at(body, i1, j1), slug_at(body, i2, j2)]
        is_position(body, i1, j1) && is_position(body, i2, j2) && slug_at(body, i1, j1).len() > 0
            && slug_at(body, i1, j1) == slug_at(body, i2, j2) ==> i1 == i2 && j1 == j2
}

/// A text that starts with a text that holds more than white space holds more
/// than white space.
pub proof fn lemma_ink_of_prefix(whole: Seq<char>, n: int)
    requires
        0 <= n <= whole.len(),
        has_ink(whole.take(n)),
    ensures
        has_ink(whole),
{
    let part = whole.take(n);
    lemma_skip_space_bounds(part, 0);
    let k = skip_space(part, 0);
    assert(part[k] == whole[k]);
    lemma_ink_at(whole, k);
}

/// A text that ends with a text that holds more than white space holds more
/// than white space.
pub proof fn lemma_ink_of_suffix(head: Seq<char>, tail: Seq<char>)
    requires
        has_ink(tail),
    ensures
        has_ink(head + tail),
{
    lemma_skip_space_bounds(tail, 0);
    let k = skip_space(tail, 0);
    assert((head + tail)[head.len() + k] == tail[k]);
    lemma_ink_at(head + tail, head.len() + k);
}

/// A slug that was made free holds more than white space, where the slug it
/// was made from does, or where that slug was in use and the suffix starts
/// with a character that is no white space.
pub proof fn lemma_deduped_ink(slug: Seq<char>, ids: Seq<Seq<char>>, suffix: Seq<char>)
    requires
        suffix.len() > 0,
        has_ink(slug) || (ids.contains(slug) && !is_space(suffix[0])),
    ensures
        has_ink(deduped(slug, ids, suffix)),
{
    lemma_deduped(slug, ids, suffix);
    let d = deduped(slug, ids, suffix);
    if has_ink(slug) {
        lemma_ink_of_prefix(d, slug.len() as int);
    } else {
        let longer = slug + suffix;
        lemma_deduped(longer, ids, suffix);
        assert(d.take(longer.len() as int) == longer);
        assert(d[slug.len() as int] == d.take(longer.len() as int)[slug.len() as int]);
        assert(longer[slug.len() as int] == suffix[0]);
        lemma_ink_at(d, slug.len() as int);
    }
}

/// None of the slugs in use occurs twice.
pub open spec fn distinct(ids: Seq<Seq<char>>) -> bool {
    forall|i: int, j: int| 0 <= i < j < ids.len() ==> ids[i] != ids[j]
}

/// Slugs in use stay distinct when a slug that is not in use joins them.
pub proof fn lemma_distinct_push(ids: Seq<Seq<char>>, slug: Seq<char>)
    requires
        distinct(ids),
        !ids.contains(slug),
    ensures
        distinct(ids.push(slug)),
{
    let all = ids.push(slug);
    assert forall|i: int, j: int| 0 <= i < j < all.len() implies all[i] != all[j] by {
        if j == ids.len() {
            assert(ids[i] == all[i]);
        }
    }
}

/// Every one of `a` is one of `b`.
pub open spec fn within(a: Seq<Seq<char>>, b: Seq<Seq<char>>) -> bool {
    forall|i: int| 0 <= i < a.len() ==> b.contains(#[trigger] a[i])
}

/// A body stays free of repeated slugs when an entry joins it whose own slugs
/// do not repeat and are none of the slugs in use.
pub proof fn lemma_push_entry(
    body: Seq<(ElementView, Seq<char>)>,
    entry: (ElementView, Seq<char>),
    before: Seq<Seq<char>>,
    after: Seq<Seq<char>>,
)
    requires
        unique_slugs(body),
        registered(body, before),
        unique_slugs(seq![entry]),
        registered(seq![entry], after),
        forall|j: int|
            is_position(seq![entry], 0, j) && has_ink(#[trigger] slug_at(seq![entry], 0, j))
                ==> !before.contains(slug_at(seq![entry], 0, j)),
        within(before, after),
    ensures
        unique_slugs(body.push(entry)),
        registered(body.push(entry), after),
{
    let one = seq![entry];
    let all = body.push(entry);
    let n = body.len() as int;
    assert forall|i1: int, j1: int, i2: int, j2: int|
        #![trigger slug_at(all, i1, j1), slug_at(all, i2, j2)]
        is_position(all, i1, j1) && is_position(all, i2, j2) && has_ink(slug_at(all, i1, j1))
            && slug_at(all, i1, j1) == slug_at(all, i2, j2) implies i1 == i2 && j1 == j2 by {
        if i1 < n && i2 < n {
            assert(slug_at(body, i1, j1) == slug_at(body, i2, j2));
        } else if i1 >= n && i2 >= n {
            assert(slug_at(one, 0, j1) == slug_at(one, 0, j2));
        } else if i1 < n {
            assert(before.contains(slug_at(body, i1, j1)));
            assert(!before.contains(slug_at(one, 0, j2)));
        } else {
            assert(before.contains(slug_at(body, i2, j2)));
            assert(!before.contains(slug_at(one, 0, j1)));
        }
    }
    assert forall|i: int, j: int|
        is_position(all, i, j) && has_ink(#[trigger] slug_at(all, i, j)) implies after.contains(
        slug_at(all, i, j),
    ) by {
        if i < n {
            assert(before.contains(slug_at(body, i, j)));
        } else {
            assert(after.contains(slug_at(one, 0, j)));
        }
    }
}

} // verus!
