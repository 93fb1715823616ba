//! Slugs, citation targets and link targets.

use vstd::prelude::*;
use crate::config::MAX_ID_LENGTH;
use crate::error::ParseError;
use crate::error::Diagnostic;
use crate::frontmatter::{yaml_text, Frontmatter, FrontmatterView};
use crate::ordered_map::{key_index, lemma_key_index, OrderedMap};
use crate::reference::{ReferenceDefinition, ReferenceView};
use crate::structs::{
    body_view, default_meta, notes_view, references_view, AssDownDocument, DocumentView, Element,
    ElementView, MetaData, MetaView,
};
use crate::toplevel::structs::strings_view;
use crate::text::{
    append_chars, char_is_letter, close_index, find_close, has_ink, is_letter, is_space,
    lemma_skip_ink_bounds, lemma_skip_space_bounds, skip_ink, skip_ink_from, skip_space,
    skip_space_from, slice_of, to_chars, to_string, to_string_range,
};

verus! {

/// The words of `s` from index `from` on, joined to `id` with a dash behind
/// each; a word that would make the slug longer than the limit replaces
/// everything gathered so far and ends the walk.
pub open spec fn slug_fold(s: Seq<char>, from: int, id: Seq<char>) -> Seq<char>
    decreases s.len() - from,
{
    let a = skip_space(s, from);
    let b = skip_ink(s, a);
    if from < 0 || from > s.len() || a >= s.len() {
        id
    } else {
        proof {
            lemma_skip_space_bounds(s, from);
            lemma_skip_ink_bounds(s, a);
        }
        if id.len() + (b - a) > MAX_ID_LENGTH {
            s.subrange(a, b)
        } else {
            slug_fold(s, b, id + s.subrange(a, b) + seq!['-'])
        }
    }
}

/// The slug of a text: its words joined by dashes, cut to the limit. A text of
/// white space alone has none.
pub open spec fn slug_of(s: Seq<char>) -> Option<Seq<char>> {
    if !has_ink(s) {
        None
    } else {
        Some(slug_cut(slug_fold(s, 0, Seq::empty())))
    }
}

/// Whether a slug is empty or holds a character that is no white space.
pub open spec fn inked(slug: Seq<char>) -> bool {
    slug.len() == 0 || has_ink(slug)
}

/// What the walk over the words of a text gathers starts with a character
/// that is no white space, where what was gathered before does.
proof fn lemma_slug_fold_head(s: Seq<char>, from: int, id: Seq<char>)
    requires
        id.len() == 0 || !is_space(id[0]),
    ensures
        slug_fold(s, from, id).len() == 0 || !is_space(slug_fold(s, from, id)[0]),
    decreases s.len() - from,
{
    let a = skip_space(s, from);
    let b = skip_ink(s, a);
    if !(from < 0 || from > s.len() || a >= s.len()) {
        lemma_skip_space_bounds(s, from);
        lemma_skip_ink_bounds(s, a);
        let word = s.subrange(a, b);
        assert(word[0] == s[a]);
        if id.len() + (b - a) <= MAX_ID_LENGTH {
            let next = id + word + seq!['-'];
            assert(next[0] == (if id.len() == 0 {
                word[0]
            } else {
                id[0]
            }));
            lemma_slug_fold_head(s, b, next);
        }
    }
}

/// A slug is empty or holds a character that is no white space: every slug
/// that is not empty can serve as a slug.
pub proof fn lemma_slug_is_inked(s: Seq<char>)
    ensures
        slug_of(s) matches Some(id) ==> inked(id),
        inked(slug_or_empty(s)),
{
    if has_ink(s) {
        let folded = slug_fold(s, 0, Seq::empty());
        lemma_slug_fold_head(s, 0, Seq::empty());
        let id = slug_cut(folded);
        if id.len() > 0 {
            assert(id[0] == folded[0]);
            crate::text::lemma_ink_at(id, 0);
        }
    }
}

/// The slug of a text, or the empty text where it has none.
pub open spec fn slug_or_empty(s: Seq<char>) -> Seq<char> {
    match slug_of(s) {
        Some(id) => id,
        None => Seq::empty(),
    }
}

/// The last step of making a slug: cut it to the limit, or drop its last
/// character.
pub open spec fn slug_cut(id: Seq<char>) -> Seq<char> {
    if id.len() > MAX_ID_LENGTH {
        id.take(MAX_ID_LENGTH as int)
    } else if id.len() > 0 {
        id.drop_last()
    } else {
        id
    }
}

fn cut_slug(id: Vec<char>) -> (r: Vec<char>)
    ensures
        r@ == slug_cut(id@),
{
    let mut id = id;
    if id.len() > MAX_ID_LENGTH {
        slice_of(&id, 0, MAX_ID_LENGTH)
    } else if id.len() > 0 {
        id.pop();
        id
    } else {
        id
    }
}

/// The slug of a text; see [`slug_of`].
pub fn slug_chars(v: &Vec<char>) -> (r: Option<Vec<char>>)
    ensures
        match slug_of(v@) {
            Some(id) => r matches Some(x) && x@ == id,
            None => r is None,
        },
{
    let first = skip_space_from(v, 0, v.len());
    assert(v@.subrange(0, v@.len() as int) == v@);
    if first >= v.len() {
        return None;
    }
    let mut id: Vec<char> = Vec::new();
    let mut i: usize = 0;
    loop
        invariant
            i <= v@.len(),
            has_ink(v@),
            slug_fold(v@, i as int, id@) == slug_fold(v@, 0, Seq::empty()),
        decreases v@.len() - i,
    {
        let a = skip_space_from(v, i, v.len());
        assert(v@.subrange(0, v@.len() as int) == v@);
        if a >= v.len() {
            return Some(cut_slug(id));
        }
        let b = skip_ink_from(v, a);
        proof {
            lemma_skip_space_bounds(v@, i as int);
            lemma_skip_ink_bounds(v@, a as int);
        }
        let word = slice_of(v, a, b);
        if id.len() > MAX_ID_LENGTH || b - a > MAX_ID_LENGTH - id.len() {
            return Some(cut_slug(word));
        }
        let ghost before = id@;
        append_chars(&mut id, &word);
        id.push('-');
        assert(id@ == before + v@.subrange(a as int, b as int) + seq!['-']);
        i = b;
    }
}

/// The slug of `text`: its words joined by dashes and cut to the limit, or
/// nothing where the text holds white space alone.
pub fn generate_id(text: &String) -> (r: Option<String>)
    ensures
        match slug_of(text@) {
            Some(id) => r matches Some(x) && x@ == id,
            None => r is None,
        },
{
    let v = to_chars(text.as_str());
    match slug_chars(&v) {
        Some(id) => Some(to_string(&id)),
        None => None,
    }
}

/// Whether `text` can serve as a slug: it holds more than white space.
pub fn is_valid_id(text: &String) -> (b: bool)
    ensures
        b == has_ink(text@),
{
    let v = to_chars(text.as_str());
    let first = skip_space_from(&v, 0, v.len());
    assert(v@.subrange(0, v@.len() as int) == v@);
    first < v.len()
}

/// What a bracketed text refers to when it is a bare reference: a citation
/// where it starts with the sigil and then a letter or a dash, a note where it
/// starts with a caret and goes on.
pub open spec fn cite_target(s: Seq<char>) -> Option<ElementView> {
    if s.len() >= 2 && s[0] == '£' && (is_letter(s[1]) || s[1] == '-') {
        Some(ElementView::Citation(s.skip(1)))
    } else if s.len() >= 2 && s[0] == '^' {
        Some(ElementView::Note(s.skip(1)))
    } else {
        None
    }
}

/// The citation or note that a text names, if it names one.
pub fn citation_of(v: &Vec<char>) -> (r: Option<Element>)
    ensures
        match cite_target(v@) {
            Some(e) => r matches Some(x) && x@ == e,
            None => r is None,
        },
{
    if v.len() >= 2 && v[0] == '£' && (char_is_letter(v[1]) || v[1] == '-') {
        Some(Element::Citation(to_string_range(v, 1, v.len())))
    } else if v.len() >= 2 && v[0] == '^' {
        Some(Element::Note(to_string_range(v, 1, v.len())))
    } else {
        None
    }
}

/// The citation or note that `text` names, if it names one.
pub fn get_citation(text: &String) -> (r: Option<Element>)
    ensures
        match cite_target(text@) {
            Some(e) => r matches Some(x) && x@ == e,
            None => r is None,
        },
{
    let v = to_chars(text.as_str());
    citation_of(&v)
}

/// Where the parenthesised target behind a bracketed text lies: the bounds of
/// its inside and the index behind it. Without an opening parenthesis at `at`
/// the target is empty and nothing is consumed.
pub open spec fn alt_bounds(s: Seq<char>, at: int) -> Result<(int, int, int), ParseError> {
    if 0 <= at < s.len() && s[at] == '(' {
        match close_index(s, at + 1, '(', ')', 0) {
            Some(k) => Ok((at + 1, k, k + 1)),
            None => Err(ParseError::MissingCloser(')')),
        }
    } else {
        Ok((at, at, at))
    }
}

/// Finds the parenthesised target that starts at `at`, if one does.
pub fn gather_link(v: &Vec<char>, at: usize) -> (r: Result<(usize, usize, usize), ParseError>)
    requires
        at <= v@.len(),
    ensures
        match alt_bounds(v@, at as int) {
            Ok((a, b, next)) => r matches Ok(t) && t.0 == a && t.1 == b && t.2 == next && at <= a
                <= b <= next <= v@.len(),
            Err(e) => r == Err::<(usize, usize, usize), ParseError>(e),
        },
{
    if at < v.len() && v[at] == '(' {
        match find_close(v, at + 1, '(', ')') {
            Some(k) => Ok((at + 1, k, k + 1)),
            None => Err(ParseError::MissingCloser(')')),
        }
    } else {
        Ok((at, at, at))
    }
}

/// What an assembly holds while it runs: the notes, references and body
/// gathered so far, the metadata, the slugs in use, the counters from which
/// default slugs are made, and what there is to say about the document.
pub struct ParserInfo {
    pub notes: OrderedMap<Element>,
    pub references: OrderedMap<ReferenceDefinition>,
    pub metadata: MetaData,
    pub body: Vec<(Element, String)>,
    /// The slugs in use: a set, so that none occurs twice (see
    /// [`ParserInfo::wf`]).
    pub ids: Vec<String>,
    pub num_codeblocks: usize,
    pub num_image: usize,
    pub num_lists: usize,
    pub num_quotes: usize,
    pub num_factboxes: usize,
    pub diagnostics: Vec<Diagnostic>,
}

/// The state of an assembly as plain data.
pub struct InfoView {
    pub notes: Seq<(Seq<char>, ElementView)>,
    pub references: Seq<(Seq<char>, ReferenceView)>,
    pub metadata: MetaView,
    pub body: Seq<(ElementView, Seq<char>)>,
    pub ids: Seq<Seq<char>>,
    pub num_codeblocks: usize,
    pub num_image: usize,
    pub num_lists: usize,
    pub num_quotes: usize,
    pub num_factboxes: usize,
    pub diagnostics: Seq<Diagnostic>,
}

impl View for ParserInfo {
    type V = InfoView;

    open spec fn view(&self) -> InfoView {
        InfoView {
            notes: notes_view(self.notes.entries@),
            references: references_view(self.references.entries@),
            metadata: self.metadata@,
            body: body_view(self.body@),
            ids: strings_view(self.ids@),
            num_codeblocks: self.num_codeblocks,
            num_image: self.num_image,
            num_lists: self.num_lists,
            num_quotes: self.num_quotes,
            num_factboxes: self.num_factboxes,
            diagnostics: self.diagnostics@,
        }
    }
}

/// The state before the first block.
pub open spec fn initial_info() -> InfoView {
    InfoView {
        notes: Seq::empty(),
        references: Seq::empty(),
        metadata: default_meta(),
        body: Seq::empty(),
        ids: Seq::empty(),
        num_codeblocks: 0,
        num_image: 0,
        num_lists: 0,
        num_quotes: 0,
        num_factboxes: 0,
        diagnostics: Seq::empty(),
    }
}

impl ParserInfo {
    /// None of the slugs in use occurs twice.
    pub open spec fn wf(&self) -> bool {
        crate::slugs::distinct(self@.ids)
    }

    /// The state before the first block.
    pub fn new() -> (r: Self)
        ensures
            r@ == initial_info(),
            r.wf(),
    {
        let r = ParserInfo {
            notes: OrderedMap::new(),
            references: OrderedMap::new(),
            metadata: MetaData::default(),
            body: Vec::new(),
            ids: Vec::new(),
            num_codeblocks: 0,
            num_image: 0,
            num_lists: 0,
            num_quotes: 0,
            num_factboxes: 0,
            diagnostics: Vec::new(),
        };
        assert(r@.notes =~= Seq::empty());
        assert(r@.references =~= Seq::empty());
        assert(r@.body =~= Seq::empty());
        assert(r@.ids =~= Seq::empty());
        r
    }

    /// The document that the gathered parts make.
    pub fn build(self, notes_id: String, bibliography_id: String) -> (r: AssDownDocument)
        ensures
            r@ == (DocumentView {
                meta: self@.metadata,
                bibliography_id: bibliography_id@,
                notes_id: notes_id@,
                references: self@.references,
                notes: self@.notes,
                body: self@.body,
            }),
    {
        AssDownDocument {
            meta: self.metadata,
            bibliography_id,
            notes_id,
            references: self.references,
            notes: self.notes,
            body: self.body,
        }
    }
}

/// The index of the first entry whose key is `key`, or the number of entries.
pub open spec fn entry_pos<V>(entries: Seq<(Seq<char>, V)>, key: Seq<char>, from: int) -> int
    decreases entries.len() - from,
{
    if from < 0 || from >= entries.len() {
        entries.len() as int
    } else if entries[from].0 == key {
        from
    } else {
        entry_pos(entries, key, from + 1)
    }
}

/// The entries with `value` under `key`: in the place of the entry that had
/// the key, or at the end where none had it.
pub open spec fn map_put<V>(entries: Seq<(Seq<char>, V)>, key: Seq<char>, value: V) -> Seq<
    (Seq<char>, V),
> {
    let i = entry_pos(entries, key, 0);
    if i < entries.len() {
        entries.update(i, (key, value))
    } else {
        entries.push((key, value))
    }
}

/// No key occurs twice.
pub open spec fn unique_keys<V>(entries: Seq<(Seq<char>, V)>) -> bool {
    forall|i: int, j: int| 0 <= i < j < entries.len() ==> entries[i].0 != entries[j].0
}

/// The index of a key is the first index that holds it.
pub proof fn lemma_entry_pos<V>(entries: Seq<(Seq<char>, V)>, key: Seq<char>, from: int)
    requires
        0 <= from <= entries.len(),
    ensures
        from <= entry_pos(entries, key, from) <= entries.len(),
        entry_pos(entries, key, from) < entries.len() ==> entries[entry_pos(entries, key, from)].0
            == key,
        forall|k: int| from <= k < entry_pos(entries, key, from) ==> entries[k].0 != key,
    decreases entries.len() - from,
{
    if from < entries.len() && entries[from].0 != key {
        lemma_entry_pos(entries, key, from + 1);
    }
}

/// Storing a value keeps the order of the keys that are there: a key that is
/// there keeps its place, a new key goes to the end, and no key comes to
/// occur twice.
pub proof fn lemma_map_put<V>(entries: Seq<(Seq<char>, V)>, key: Seq<char>, value: V)
    ensures
        unique_keys(entries) ==> unique_keys(map_put(entries, key, value)),
        entry_pos(entries, key, 0) < entries.len() ==> map_put(entries, key, value).len()
            == entries.len(),
        entry_pos(entries, key, 0) >= entries.len() ==> map_put(entries, key, value).len()
            == entries.len() + 1 && map_put(entries, key, value).last().0 == key,
        forall|i: int| 0 <= i < entries.len() ==> (#[trigger] map_put(entries, key, value)[i]).0
            == entries[i].0,
{
    lemma_entry_pos(entries, key, 0);
}

proof fn lemma_note_pos(entries: Seq<(String, Element)>, key: Seq<char>, from: int)
    requires
        0 <= from <= entries.len(),
    ensures
        entry_pos(notes_view(entries), key, from) == key_index(entries, key, from),
    decreases entries.len() - from,
{
    if from < entries.len() && entries[from].0@ != key {
        lemma_note_pos(entries, key, from + 1);
    }
}

proof fn lemma_reference_pos(entries: Seq<(String, ReferenceDefinition)>, key: Seq<char>, from: int)
    requires
        0 <= from <= entries.len(),
    ensures
        entry_pos(references_view(entries), key, from) == key_index(entries, key, from),
    decreases entries.len() - from,
{
    if from < entries.len() && entries[from].0@ != key {
        lemma_reference_pos(entries, key, from + 1);
    }
}

/// Stores a note under its id.
pub fn put_note(notes: &mut OrderedMap<Element>, key: String, value: Element)
    ensures
        notes_view(final(notes).entries@) == map_put(notes_view(old(notes).entries@), key@, value@),
{
    proof {
        lemma_note_pos(notes.entries@, key@, 0);
        lemma_key_index(notes.entries@, key@, 0);
    }
    notes.insert(key, value);
}

/// Stores a reference under its id.
pub fn put_reference(
    references: &mut OrderedMap<ReferenceDefinition>,
    key: String,
    value: ReferenceDefinition,
)
    ensures
        references_view(final(references).entries@) == map_put(
            references_view(old(references).entries@),
            key@,
            value@,
        ),
{
    proof {
        lemma_reference_pos(references.entries@, key@, 0);
        lemma_key_index(references.entries@, key@, 0);
    }
    references.insert(key, value);
}

/// The first of some texts that is there.
pub open spec fn first_text(options: Seq<Option<Seq<char>>>, from: int) -> Option<Seq<char>>
    decreases options.len() - from,
{
    if from < 0 || from >= options.len() {
        None
    } else if options[from] is Some {
        options[from]
    } else {
        first_text(options, from + 1)
    }
}

/// The address of the site: under `url`, `base_url`, `base url` or
/// `base-url`, whichever is there first.
pub open spec fn url_of(f: FrontmatterView) -> Option<Seq<char>> {
    first_text(
        seq![
            yaml_text(f.at("url"@)),
            yaml_text(f.at("base_url"@)),
            yaml_text(f.at("base url"@)),
            yaml_text(f.at("base-url"@)),
        ],
        0,
    )
}

/// The directory of the data: under `data`, `data_dir`, `data-dir` or
/// `data dir`.
pub open spec fn data_dir_of(f: FrontmatterView) -> Option<Seq<char>> {
    first_text(
        seq![
            yaml_text(f.at("data"@)),
            yaml_text(f.at("data_dir"@)),
            yaml_text(f.at("data-dir"@)),
            yaml_text(f.at("data dir"@)),
        ],
        0,
    )
}

/// The directory of the blog: under `blog`, `blog_dir`, `blog-dir` or
/// `blog dir`.
pub open spec fn blog_dir_of(f: FrontmatterView) -> Option<Seq<char>> {
    first_text(
        seq![
            yaml_text(f.at("blog"@)),
            yaml_text(f.at("blog_dir"@)),
            yaml_text(f.at("blog-dir"@)),
            yaml_text(f.at("blog dir"@)),
        ],
        0,
    )
}

/// The date of writing: under `date`, or under a key that joins to
/// `date-written`.
pub open spec fn date_of(f: FrontmatterView) -> Option<Seq<char>> {
    first_text(seq![yaml_text(f.at("date"@)), yaml_text(f.at_joined("date-written"@))], 0)
}

/// The date of the last update: under a key that joins to `last-update` or to
/// `last-updated`.
pub open spec fn last_update_of(f: FrontmatterView) -> Option<Seq<char>> {
    first_text(
        seq![yaml_text(f.at_joined("last-update"@)), yaml_text(f.at_joined("last-updated"@))],
        0,
    )
}

/// The title of the bibliography: under a key that joins to
/// `bibliography-title`, `references-title` or `sources-title`.
pub open spec fn bibliography_title_of(f: FrontmatterView) -> Option<Seq<char>> {
    first_text(
        seq![
            yaml_text(f.at_joined("bibliography-title"@)),
            yaml_text(f.at_joined("references-title"@)),
            yaml_text(f.at_joined("sources-title"@)),
        ],
        0,
    )
}

/// A text that may be missing, as plain data.
pub open spec fn text_opt_view(s: Option<String>) -> Option<Seq<char>> {
    match s {
        Some(t) => Some(t@),
        None => None,
    }
}

fn pick4(a: Option<String>, b: Option<String>, c: Option<String>, d: Option<String>) -> (r: Option<
    String,
>)
    ensures
        text_opt_view(r) == first_text(
            seq![text_opt_view(a), text_opt_view(b), text_opt_view(c), text_opt_view(d)],
            0,
        ),
{
    proof {
        reveal_with_fuel(first_text, 5);
    }
    if a.is_some() {
        a
    } else if b.is_some() {
        b
    } else if c.is_some() {
        c
    } else {
        d
    }
}

fn pick3(a: Option<String>, b: Option<String>, c: Option<String>) -> (r: Option<String>)
    ensures
        text_opt_view(r) == first_text(
            seq![text_opt_view(a), text_opt_view(b), text_opt_view(c)],
            0,
        ),
{
    proof {
        reveal_with_fuel(first_text, 4);
    }
    if a.is_some() {
        a
    } else if b.is_some() {
        b
    } else {
        c
    }
}

fn pick2(a: Option<String>, b: Option<String>) -> (r: Option<String>)
    ensures
        text_opt_view(r) == first_text(seq![text_opt_view(a), text_opt_view(b)], 0),
{
    proof {
        reveal_with_fuel(first_text, 3);
    }
    if a.is_some() {
        a
    } else {
        b
    }
}

/// The address of the site that the header gives.
pub fn get_url(data: &Frontmatter) -> (r: Option<String>)
    ensures
        text_opt_view(r) == url_of(data@),
{
    pick4(
        data.text_at("url"),
        data.text_at("base_url"),
        data.text_at("base url"),
        data.text_at("base-url"),
    )
}

/// The directory of the data that the header gives.
pub fn get_data_dir(data: &Frontmatter) -> (r: Option<String>)
    ensures
        text_opt_view(r) == data_dir_of(data@),
{
    pick4(
        data.text_at("data"),
        data.text_at("data_dir"),
        data.text_at("data-dir"),
        data.text_at("data dir"),
    )
}

/// The directory of the blog that the header gives.
pub fn get_blog_dir(data: &Frontmatter) -> (r: Option<String>)
    ensures
        text_opt_view(r) == blog_dir_of(data@),
{
    pick4(
        data.text_at("blog"),
        data.text_at("blog_dir"),
        data.text_at("blog-dir"),
        data.text_at("blog dir"),
    )
}

/// The date of writing that the header gives.
pub fn get_date(data: &Frontmatter) -> (r: Option<String>)
    ensures
        text_opt_view(r) == date_of(data@),
{
    pick2(data.text_at("date"), data.text_at_joined("date-written"))
}

/// The date of the last update that the header gives.
pub fn get_last_update(data: &Frontmatter) -> (r: Option<String>)
    ensures
        text_opt_view(r) == last_update_of(data@),
{
    pick2(data.text_at_joined("last-update"), data.text_at_joined("last-updated"))
}

/// The title of the bibliography that the header gives.
pub fn get_bibliography_title(data: &Frontmatter) -> (r: Option<String>)
    ensures
        text_opt_view(r) == bibliography_title_of(data@),
{
    pick3(
        data.text_at_joined("bibliography-title"),
        data.text_at_joined("references-title"),
        data.text_at_joined("sources-title"),
    )
}

/// Whether some key of the header joins to one of `keys`.
pub open spec fn has_any_joined(f: FrontmatterView, keys: Seq<Seq<char>>, from: int) -> bool
    decreases keys.len() - from,
{
    if from < 0 || from >= keys.len() {
        false
    } else {
        f.has_joined(keys[from]) || has_any_joined(f, keys, from + 1)
    }
}

/// The texts of some string slices.
pub open spec fn strs_view(keys: Seq<&str>) -> Seq<Seq<char>> {
    Seq::new(keys.len(), |i: int| keys[i]@)
}

/// Whether the header has one of `keys`, in any of the ways to write it.
pub fn check_frontmatter(fm: &Frontmatter, keys: &Vec<&str>) -> (b: bool)
    ensures
        b == has_any_joined(fm@, strs_view(keys@), 0),
{
    let mut i: usize = keys.len();
    let mut found: bool = false;
    while i > 0
        invariant
            i <= keys@.len(),
            found == has_any_joined(fm@, strs_view(keys@), i as int),
        decreases i,
    {
        i -= 1;
        found = fm.has_joined_key(keys[i]) || found;
    }
    found
}

/// The text under the first of `keys` that the header has, in any of the
/// ways to write it; empty where it has none of them or the value is no text.
pub open spec fn joined_text(f: FrontmatterView, keys: Seq<Seq<char>>, from: int) -> Seq<char>
    decreases keys.len() - from,
{
    if from < 0 || from >= keys.len() {
        Seq::empty()
    } else if f.has_joined(keys[from]) {
        match yaml_text(f.at_joined(keys[from])) {
            Some(t) => t,
            None => Seq::empty(),
        }
    } else {
        joined_text(f, keys, from + 1)
    }
}

/// The text under the first of `keys` that the header has, in any of the
/// ways to write it.
pub fn get_frontmatter_text(fm: &Frontmatter, keys: &Vec<&str>) -> (r: String)
    ensures
        r@ == joined_text(fm@, strs_view(keys@), 0),
{
    let mut i: usize = 0;
    while i < keys.len()
        invariant
            i <= keys@.len(),
            joined_text(fm@, strs_view(keys@), i as int) == joined_text(fm@, strs_view(keys@), 0),
        decreases keys.len() - i,
    {
        if fm.has_joined_key(keys[i]) {
            return match fm.text_at_joined(keys[i]) {
                Some(t) => t,
                None => String::new(),
            };
        }
        i += 1;
    }
    String::new()
}

} // verus!
