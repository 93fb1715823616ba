//! The list grammar: contiguous lines that start with a list marker become a
//! nested list, nested by the depth of their indentation.

use vstd::prelude::*;
use crate::text::{
    char_is_digit, find_char, index_of, is_digit, lemma_skip_space_bounds, lemma_trim_end_bounds,
    skip_space, skip_space_from, slice_of, to_chars, to_string, to_string_range, trim,
    trim_end_from, trim_end_index,
};
use crate::toplevel::list_pattern::{match_start, ListPattern};
use crate::toplevel::parser_object::{after_line, first_line, lemma_first_line_bounds, ParseObject};
use crate::toplevel::structs::{
    items_view, lemma_inner_list_view, BlockView, ListItem, ListItemView, TopLevelSyntax,
};

verus! {

/// The marker of a list item as it was written.
#[derive(Debug, PartialEq)]
pub enum MarkerKind {
    Unordered,
    Number(String),
    Alphabetic(String),
}

/// A list item on its way into the nested list, with the depth of its
/// indentation; or a nested list, with the depth of its items.
#[derive(Debug, PartialEq)]
pub enum ListMetaItem {
    Base { depth: usize, marker: MarkerKind, is_rounded: bool, text: String },
    InnerList(usize, Vec<ListMetaItem>),
}

/// An item on its way into a list, or a nested list, as plain data.
pub enum MetaView {
    Base { depth: usize, item: ListItemView },
    InnerList(usize, Seq<MetaView>),
}

/// The value that a sequence of digits writes.
pub open spec fn digits_value(s: Seq<char>) -> nat
    decreases s.len(),
{
    if s.len() == 0 {
        0
    } else {
        digits_value(s.drop_last()) * 10 + (s.last() as nat - '0' as nat) as nat
    }
}

/// Whether a text holds nothing but decimal digits.
pub open spec fn all_digits(s: Seq<char>) -> bool {
    forall|i: int| 0 <= i < s.len() ==> is_digit(#[trigger] s[i])
}

/// The number that a label writes; zero where it is no sequence of digits or
/// is too large.
pub open spec fn number_of(label: Seq<char>) -> usize {
    match usize_of(label) {
        Some(n) => n,
        None => 0,
    }
}

proof fn lemma_digits_value_grows(s: Seq<char>, k: int)
    requires
        0 <= k <= s.len(),
    ensures
        digits_value(s.take(k)) <= digits_value(s),
    decreases s.len() - k,
{
    if k < s.len() {
        lemma_digits_value_grows(s, k + 1);
        assert(s.take(k + 1).drop_last() == s.take(k));
    } else {
        assert(s.take(k) == s);
    }
}

/// The number that a text writes in decimal digits, if it does and the
/// number fits.
pub open spec fn usize_of(s: Seq<char>) -> Option<usize> {
    if s.len() > 0 && all_digits(s) && digits_value(s) <= usize::MAX {
        Some(digits_value(s) as usize)
    } else {
        None
    }
}

/// The number that a text writes in decimal digits.
pub fn parse_usize(v: &Vec<char>) -> (r: Option<usize>)
    ensures
        r == usize_of(v@),
{
    if v.len() == 0 {
        return None;
    }
    let mut acc: usize = 0;
    let mut i: usize = 0;
    while i < v.len()
        invariant
            i <= v@.len(),
            all_digits(v@.take(i as int)),
            acc == digits_value(v@.take(i as int)),
        decreases v.len() - i,
    {
        let c = v[i];
        if !char_is_digit(c) {
            return None;
        }
        let d: usize = (c as u32 - '0' as u32) as usize;
        proof {
            assert(v@.take(i + 1).drop_last() == v@.take(i as int));
            lemma_digits_value_grows(v@, i + 1);
        }
        if acc > (usize::MAX - d) / 10 {
            return None;
        }
        acc = acc * 10 + d;
        i += 1;
    }
    assert(v@.take(v@.len() as int) == v@);
    Some(acc)
}

/// The number that a label writes, or zero.
pub fn parse_number(v: &Vec<char>) -> (r: usize)
    ensures
        r == number_of(v@),
{
    match parse_usize(v) {
        Some(n) => n,
        None => 0,
    }
}

/// The label of a marker: what stands before its closer.
pub open spec fn label_of(marker: Seq<char>, closer: char) -> Seq<char> {
    marker.take(index_of(marker, closer, 0))
}

/// The list item that a marker and a text make.
pub open spec fn leaf_view(marker: MarkerKind, is_rounded: bool, text: Seq<char>) -> ListItemView {
    match marker {
        MarkerKind::Unordered => ListItemView::Unordered(text),
        MarkerKind::Number(m) => if is_rounded {
            ListItemView::NumberedRounded(number_of(label_of(m@, ')')), text)
        } else {
            ListItemView::Numbered(number_of(label_of(m@, '.')), text)
        },
        MarkerKind::Alphabetic(m) => if is_rounded {
            ListItemView::AlphabeticalRounded(label_of(m@, ')'), text)
        } else {
            ListItemView::Alphabetical(label_of(m@, '.'), text)
        },
    }
}

/// The nested list with one more item at `depth`.
///
/// An item at the depth of the list joins its items. A deeper item goes into
/// the last item where that is a list no deeper than the item, and opens a new
/// list otherwise. A shallower item wraps the list: the list and the item
/// become the two items of a new list at the depth of the item.
pub open spec fn inserted(m: MetaView, depth: usize, leaf: ListItemView) -> MetaView
    decreases m,
{
    match m {
        MetaView::Base { .. } => m,
        MetaView::InnerList(own, items) => {
            let base = MetaView::Base { depth, item: leaf };
            if own == depth {
                MetaView::InnerList(own, items.push(base))
            } else if own < depth {
                if items.len() > 0 && items.last() is InnerList && depth >= meta_depth(
                    items.last(),
                ) {
                    MetaView::InnerList(
                        own,
                        items.drop_last().push(inserted(items.last(), depth, leaf)),
                    )
                } else {
                    MetaView::InnerList(own, items.push(MetaView::InnerList(depth, seq![base])))
                }
            } else {
                MetaView::InnerList(depth, seq![m, base])
            }
        },
    }
}

/// The depth of an item or of a nested list.
pub open spec fn meta_depth(m: MetaView) -> usize {
    match m {
        MetaView::Base { depth, .. } => depth,
        MetaView::InnerList(depth, _) => depth,
    }
}

/// The list item that a finished item or nested list stands for.
pub open spec fn converted(m: MetaView) -> ListItemView
    decreases m,
{
    match m {
        MetaView::Base { item, .. } => item,
        MetaView::InnerList(_, items) => ListItemView::InnerList(
            Seq::new(
                items.len(),
                |i: int|
                    if 0 <= i < items.len() {
                        converted(items[i])
                    } else {
                        ListItemView::InnerList(Seq::empty())
                    },
            ),
        ),
    }
}

/// The list items that finished items stand for.
pub open spec fn converted_all(items: Seq<MetaView>) -> Seq<ListItemView> {
    Seq::new(items.len(), |i: int| converted(items[i]))
}

impl ListMetaItem {
    /// The value as plain data.
    pub open spec fn model(&self) -> MetaView
        decreases self,
    {
        match self {
            ListMetaItem::Base { depth, marker, is_rounded, text } => MetaView::Base {
                depth: *depth,
                item: leaf_view(*marker, *is_rounded, text@),
            },
            ListMetaItem::InnerList(depth, v) => MetaView::InnerList(
                *depth,
                Seq::new(
                    v@.len(),
                    |i: int|
                        if 0 <= i < v@.len() {
                            v@[i].model()
                        } else {
                            MetaView::InnerList(0, Seq::empty())
                        },
                ),
            ),
        }
    }

    /// The depth of this item or nested list.
    pub fn get_depth(&self) -> (d: usize)
        ensures
            d == meta_depth(self.model()),
    {
        match self {
            ListMetaItem::InnerList(depth, _) => *depth,
            ListMetaItem::Base { depth, marker: _, is_rounded: _, text: _ } => *depth,
        }
    }

    /// Whether this is a nested list.
    pub fn is_list(&self) -> (b: bool)
        ensures
            b == (self.model() is InnerList),
    {
        match self {
            ListMetaItem::InnerList(_, _) => true,
            ListMetaItem::Base { depth: _, marker: _, is_rounded: _, text: _ } => false,
        }
    }

    /// Puts one more item into this nested list; an item that is no list stays
    /// as it is.
    pub fn insert(&mut self, depth: usize, marker: MarkerKind, is_rounded: bool, text: String)
        ensures
            final(self).model() == inserted(
                old(self).model(),
                depth,
                leaf_view(marker, is_rounded, text@),
            ),
        decreases *old(self),
    {
        let ghost before = self.model();
        match self {
            ListMetaItem::Base { .. } => {},
            ListMetaItem::InnerList(own_depth, items) => {
                let own: usize = *own_depth;
                let ghost old_items = metas_view(items@);
                proof {
                    lemma_inner_meta_view(own, *items);
                }
                if own == depth {
                    let base = ListMetaItem::Base { depth, marker, is_rounded, text };
                    proof {
                        lemma_metas_push(items@, base);
                    }
                    items.push(base);
                    proof {
                        lemma_inner_meta_view(own, *items);
                    }
                } else if own < depth {
                    let descend = items.len() > 0 && items[items.len() - 1].is_list() && depth
                        >= items[items.len() - 1].get_depth();
                    if descend {
                        let ghost rest = items@.drop_last();
                        let mut last = items.pop().unwrap();
                        last.insert(depth, marker, is_rounded, text);
                        proof {
                            lemma_metas_push(items@, last);
                            assert(metas_view(rest) == old_items.drop_last());
                        }
                        items.push(last);
                        proof {
                            lemma_inner_meta_view(own, *items);
                        }
                    } else {
                        let base = ListMetaItem::Base { depth, marker, is_rounded, text };
                        let mut inner: Vec<ListMetaItem> = Vec::new();
                        inner.push(base);
                        let nested = ListMetaItem::InnerList(depth, inner);
                        proof {
                            lemma_inner_meta_view(depth, inner);
                            assert(metas_view(inner@) == seq![base.model()]);
                            lemma_metas_push(items@, nested);
                        }
                        items.push(nested);
                        proof {
                            lemma_inner_meta_view(own, *items);
                        }
                    }
                } else {
                    let base = ListMetaItem::Base { depth, marker, is_rounded, text };
                    let mut wrapped = ListMetaItem::InnerList(depth, Vec::new());
                    std::mem::swap(self, &mut wrapped);
                    let mut both: Vec<ListMetaItem> = Vec::new();
                    both.push(wrapped);
                    both.push(base);
                    proof {
                        lemma_inner_meta_view(depth, both);
                        assert(metas_view(both@) == seq![before, base.model()]);
                    }
                    *self = ListMetaItem::InnerList(depth, both);
                }
            },
        }
    }

    /// The list item that this item or nested list stands for.
    pub fn convert(&self) -> (r: ListItem)
        ensures
            r@ == converted(self.model()),
        decreases self,
    {
        match self {
            ListMetaItem::InnerList(depth, list) => {
                let mut output: Vec<ListItem> = Vec::new();
                let mut i: usize = 0;
                while i < list.len()
                    invariant
                        i <= list@.len(),
                        self is InnerList,
                        self->InnerList_1 === *list,
                        output@.len() == i,
                        forall|j: int|
                            0 <= j < i ==> (#[trigger] output@[j])@ == converted(list@[j].model()),
                    decreases list.len() - i,
                {
                    output.push(list[i].convert());
                    i += 1;
                }
                proof {
                    lemma_inner_list_view(output);
                    assert(items_view(output@) =~= converted(self.model())->InnerList_0);
                }
                ListItem::InnerList(output)
            },
            ListMetaItem::Base { depth: _, marker, is_rounded, text } => match marker {
                MarkerKind::Unordered => ListItem::Unordered(text.clone()),
                MarkerKind::Number(marker) => if *is_rounded {
                    let label = label_chars(marker, ')');
                    ListItem::NumberedRounded(parse_number(&label), text.clone())
                } else {
                    let label = label_chars(marker, '.');
                    ListItem::Numbered(parse_number(&label), text.clone())
                },
                MarkerKind::Alphabetic(marker) => if *is_rounded {
                    let label = label_chars(marker, ')');
                    ListItem::AlphabeticalRounded(to_string(&label), text.clone())
                } else {
                    let label = label_chars(marker, '.');
                    ListItem::Alphabetical(to_string(&label), text.clone())
                },
            },
        }
    }
}

fn label_chars(marker: &String, closer: char) -> (r: Vec<char>)
    ensures
        r@ == label_of(marker@, closer),
{
    let v = to_chars(marker.as_str());
    let k = find_char(&v, closer, 0);
    slice_of(&v, 0, k)
}

/// The views of a sequence of items on their way into a list.
pub open spec fn metas_view(s: Seq<ListMetaItem>) -> Seq<MetaView> {
    Seq::new(s.len(), |i: int| s[i].model())
}

/// The view of a nested list in terms of the views of its items.
pub proof fn lemma_inner_meta_view(depth: usize, v: Vec<ListMetaItem>)
    ensures
        ListMetaItem::InnerList(depth, v).model() == MetaView::InnerList(depth, metas_view(v@)),
{
    assert(ListMetaItem::InnerList(depth, v).model()->InnerList_1 =~= metas_view(v@));
}

/// The views of items with one more item.
pub proof fn lemma_metas_push(items: Seq<ListMetaItem>, m: ListMetaItem)
    ensures
        metas_view(items.push(m)) == metas_view(items).push(m.model()),
{
}

/// The kind of marker with which `s` starts, if it starts with one.
pub open spec fn pattern_of(s: Seq<char>) -> Option<ListPattern> {
    if ListPattern::Unordered.marker_len(s) is Some {
        Some(ListPattern::Unordered)
    } else if ListPattern::Numbered.marker_len(s) is Some {
        Some(ListPattern::Numbered)
    } else if ListPattern::NumberedRounded.marker_len(s) is Some {
        Some(ListPattern::NumberedRounded)
    } else if ListPattern::Alphabetical.marker_len(s) is Some {
        Some(ListPattern::Alphabetical)
    } else if ListPattern::AlphabeticalRounded.marker_len(s) is Some {
        Some(ListPattern::AlphabeticalRounded)
    } else {
        None
    }
}

fn pattern_at(v: &Vec<char>, from: usize) -> (r: Option<(ListPattern, usize)>)
    requires
        from <= v@.len(),
    ensures
        match pattern_of(v@.skip(from as int)) {
            Some(p) => r matches Some(t) && t.0 == p && p.marker_len(v@.skip(from as int)) == Some(
                t.1 as int,
            ) && 0 < t.1 && from + t.1 <= v@.len(),
            None => r is None,
        },
{
    if let Some(n) = match_start(v, from, ListPattern::Unordered) {
        Some((ListPattern::Unordered, n))
    } else if let Some(n) = match_start(v, from, ListPattern::Numbered) {
        Some((ListPattern::Numbered, n))
    } else if let Some(n) = match_start(v, from, ListPattern::NumberedRounded) {
        Some((ListPattern::NumberedRounded, n))
    } else if let Some(n) = match_start(v, from, ListPattern::Alphabetical) {
        Some((ListPattern::Alphabetical, n))
    } else if let Some(n) = match_start(v, from, ListPattern::AlphabeticalRounded) {
        Some((ListPattern::AlphabeticalRounded, n))
    } else {
        None
    }
}

/// The kind of list marker with which `text` starts, if it starts with one.
pub fn get_pattern(text: &str) -> (r: Option<ListPattern>)
    ensures
        r == pattern_of(text@),
{
    let v = to_chars(text);
    assert(v@.skip(0) == v@);
    match pattern_at(&v, 0) {
        Some((p, _)) => Some(p),
        None => None,
    }
}

/// The marker of a kind, holding the text that wrote it.
pub open spec fn marker_view(pattern: ListPattern, marker: Seq<char>, text: Seq<char>) -> ListItemView {
    match pattern {
        ListPattern::Unordered => ListItemView::Unordered(text),
        ListPattern::Numbered => ListItemView::Numbered(number_of(label_of(marker, '.')), text),
        ListPattern::NumberedRounded => ListItemView::NumberedRounded(
            number_of(label_of(marker, ')')),
            text,
        ),
        ListPattern::Alphabetical => ListItemView::Alphabetical(label_of(marker, '.'), text),
        ListPattern::AlphabeticalRounded => ListItemView::AlphabeticalRounded(
            label_of(marker, ')'),
            text,
        ),
    }
}

/// What a line contributes to a list: the number of white space characters
/// before its marker, and its item. A line that starts with no marker, once
/// its leading white space is dropped, contributes nothing.
pub open spec fn line_item(line: Seq<char>) -> Option<(int, ListItemView)> {
    let lead = skip_space(line, 0);
    let rest = line.skip(lead);
    match pattern_of(rest) {
        None => None,
        Some(p) => {
            let n = p.marker_len(rest)->0;
            Some((lead, marker_view(p, rest.take(n), trim(rest.skip(n)))))
        },
    }
}

/// The depth of an item behind `count` white space characters: zero for none
/// or one, and `count - 1` rounded up to an even number for more.
pub open spec fn depth_of(count: int) -> int {
    if count <= 1 {
        0
    } else if (count - 1) % 2 == 0 {
        count - 1
    } else {
        count
    }
}

/// The list with one more item behind `count` white space characters.
pub open spec fn placed(acc: Seq<MetaView>, count: int, leaf: ListItemView) -> Seq<MetaView> {
    let depth = depth_of(count) as usize;
    if count > 1 {
        if acc.len() > 0 && acc.last() is InnerList {
            acc.drop_last().push(inserted(acc.last(), depth, leaf))
        } else {
            acc.push(MetaView::InnerList(depth, seq![MetaView::Base { depth, item: leaf }]))
        }
    } else {
        acc.push(MetaView::Base { depth: 0, item: leaf })
    }
}

/// Reads the lines of one list: the list that they make, added to `acc`, and
/// the text behind them. The list ends before the first line that starts
/// with no marker.
pub open spec fn list_run(s: Seq<char>, acc: Seq<MetaView>) -> (Seq<MetaView>, Seq<char>)
    decreases s.len(),
{
    match line_item(first_line(s)) {
        None => (acc, s),
        Some((count, leaf)) => {
            if s.len() == 0 {
                (acc, s)
            } else {
                proof {
                    lemma_first_line_bounds(s);
                }
                list_run(after_line(s), placed(acc, count, leaf))
            }
        },
    }
}

/// The list that starts at the current line, if one starts there, and the
/// text behind it.
pub open spec fn list_at(s: Seq<char>) -> Option<(Seq<ListItemView>, Seq<char>)> {
    if line_item(first_line(s)) is Some {
        let (metas, rest) = list_run(s, Seq::empty());
        Some((converted_all(metas), rest))
    } else {
        None
    }
}

/// Recognises a list at the current line and takes its lines from the text.
pub fn parse_list(object: &mut ParseObject) -> (r: Option<TopLevelSyntax>)
    ensures
        match list_at(old(object).text@) {
            Some((items, rest)) => r matches Some(b) && b@ == BlockView::List(items)
                && final(object).text@ == rest,
            None => r is None && final(object).text@ == old(object).text@,
        },
        final(object).is_eating == old(object).is_eating,
        final(object).paragraph_buffer == old(object).paragraph_buffer,
        final(object).syntax == old(object).syntax,
{
    let ghost start = object.text@;
    let mut list: Vec<ListMetaItem> = Vec::new();
    let mut found: bool = false;
    assert(metas_view(list@) =~= Seq::empty());
    loop
        invariant
            list_run(object.text@, metas_view(list@)) == list_run(start, Seq::empty()),
            !found ==> object.text@ == start && list@.len() == 0,
            found ==> line_item(first_line(start)) is Some,
            object.is_eating == old(object).is_eating,
            object.paragraph_buffer == old(object).paragraph_buffer,
            object.syntax == old(object).syntax,
        ensures
            line_item(first_line(object.text@)) is None || object.text@.len() == 0,
        decreases object.text@.len(),
    {
        let line = object.current_chars();
        let lead = skip_space_from(&line, 0, line.len());
        assert(line@.subrange(0, line@.len() as int) == line@);
        let (pattern, n) = match pattern_at(&line, lead) {
            Some(t) => t,
            None => {
                break ;
            },
        };
        if object.text.len() == 0 {
            break ;
        }
        let marker = to_string_range(&line, lead, lead + n);
        let a = skip_space_from(&line, lead + n, line.len());
        let b = trim_end_from(&line, a, line.len());
        let text = to_string_range(&line, a, b);
        proof {
            let rest = line@.skip(lead as int);
            assert(rest.skip(n as int) == line@.skip(lead + n));
            lemma_trim_of_skip(line@, lead + n);
            assert(marker@ == rest.take(n as int));
        }
        let (kind, is_rounded) = marker_kind(pattern, marker);
        let ghost acc = metas_view(list@);
        if lead > 1 {
            let depth: usize = if (lead - 1) % 2 == 0 {
                lead - 1
            } else {
                lead
            };
            if list.len() > 0 && list[list.len() - 1].is_list() {
                let ghost rest = list@.drop_last();
                let mut last = list.pop().unwrap();
                last.insert(depth, kind, is_rounded, text);
                proof {
                    lemma_metas_push(list@, last);
                    assert(metas_view(rest) == acc.drop_last());
                }
                list.push(last);
            } else {
                let base = ListMetaItem::Base { depth, marker: kind, is_rounded, text };
                let mut inner: Vec<ListMetaItem> = Vec::new();
                inner.push(base);
                let nested = ListMetaItem::InnerList(depth, inner);
                proof {
                    lemma_inner_meta_view(depth, inner);
                    assert(metas_view(inner@) == seq![base.model()]);
                    lemma_metas_push(list@, nested);
                }
                list.push(nested);
            }
        } else {
            let base = ListMetaItem::Base { depth: 0, marker: kind, is_rounded, text };
            proof {
                lemma_metas_push(list@, base);
            }
            list.push(base);
        }
        proof {
            lemma_first_line_bounds(object.text@);
        }
        object.next();
        found = true;
    }
    if !found {
        return None;
    }
    let mut output: Vec<ListItem> = Vec::new();
    let mut i: usize = 0;
    while i < list.len()
        invariant
            i <= list@.len(),
            output@.len() == i,
            forall|j: int| 0 <= j < i ==> (#[trigger] output@[j])@ == converted(list@[j].model()),
        decreases list.len() - i,
    {
        output.push(list[i].convert());
        i += 1;
    }
    assert(items_view(output@) =~= converted_all(metas_view(list@)));
    Some(TopLevelSyntax::List(output))
}

fn marker_kind(pattern: ListPattern, marker: String) -> (r: (MarkerKind, bool))
    ensures
        forall|text: Seq<char>| #[trigger]
            leaf_view(r.0, r.1, text) == marker_view(pattern, marker@, text),
{
    match pattern {
        ListPattern::Unordered => (MarkerKind::Unordered, false),
        ListPattern::Numbered => (MarkerKind::Number(marker), false),
        ListPattern::Alphabetical => (MarkerKind::Alphabetic(marker), false),
        ListPattern::NumberedRounded => (MarkerKind::Number(marker), true),
        ListPattern::AlphabeticalRounded => (MarkerKind::Alphabetic(marker), true),
    }
}

/// Trimming what stands behind index `at` of a line: the bounds found in the
/// line are the bounds of the trimmed rest.
proof fn lemma_trim_of_skip(line: Seq<char>, at: int)
    requires
        0 <= at <= line.len(),
    ensures
        trim(line.skip(at)) == line.subrange(
            skip_space(line, at),
            trim_end_index(line, skip_space(line, at), line.len() as int),
        ),
{
    let rest = line.skip(at);
    lemma_skip_shift(line, at, 0);
    let a = skip_space(line, at);
    lemma_skip_space_bounds(line, at);
    lemma_trim_end_shift(line, at, a - at, rest.len() as int);
    lemma_trim_end_bounds(line, a, line.len() as int);
}

proof fn lemma_skip_shift(line: Seq<char>, at: int, i: int)
    requires
        0 <= at <= line.len(),
        0 <= i <= line.len() - at,
    ensures
        skip_space(line.skip(at), i) + at == skip_space(line, at + i),
    decreases line.len() - at - i,
{
    let rest = line.skip(at);
    if i < rest.len() && is_space_at(rest, i) {
        lemma_skip_shift(line, at, i + 1);
    }
}

spec fn is_space_at(s: Seq<char>, i: int) -> bool {
    crate::text::is_space(s[i])
}

proof fn lemma_trim_end_shift(line: Seq<char>, at: int, low: int, end: int)
    requires
        0 <= at <= line.len(),
        0 <= low <= end <= line.len() - at,
    ensures
        trim_end_index(line.skip(at), low, end) + at == trim_end_index(line, low + at, end + at),
    decreases end,
{
    let rest = line.skip(at);
    if low < end && is_space_at(rest, end - 1) {
        lemma_trim_end_shift(line, at, low, end - 1);
    }
}

/// Reading a list takes characters from the text and adds none.
pub proof fn lemma_list_run_len(s: Seq<char>, acc: Seq<MetaView>)
    ensures
        list_run(s, acc).1.len() <= s.len(),
    decreases s.len(),
{
    match line_item(first_line(s)) {
        None => {},
        Some((count, leaf)) => {
            if s.len() > 0 {
                lemma_first_line_bounds(s);
                lemma_list_run_len(after_line(s), placed(acc, count, leaf));
            }
        },
    }
}

} // verus!
