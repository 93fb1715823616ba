//! The cursor of the block parser: the text that is left, the paragraph that
//! is being gathered, and the blocks found so far.

use vstd::prelude::*;
use crate::text::{
    append_chars, find_char, find_from, find_seq, has_prefix_at, index_of, lemma_index_of_bounds,
    skip_space, skip_space_from, slice_of, starts_with_at, to_chars, to_string, to_string_range,
    trim, trim_end_from, trim_start,
};
use crate::toplevel::structs::{blocks_view, BlockView, TopLevelSyntax};

verus! {

/// The length of the first line of `s`: up to the first line feed, without
/// the carriage return that may stand before it.
pub open spec fn first_line_len(s: Seq<char>) -> int {
    let k = index_of(s, '\n', 0);
    if 0 < k < s.len() && s[k - 1] == '\r' {
        k - 1
    } else {
        k
    }
}

/// The first line of `s`, without its line ending.
pub open spec fn first_line(s: Seq<char>) -> Seq<char> {
    s.take(first_line_len(s))
}

/// What is left of `s` once `n` characters are dropped; nothing, where `s` has
/// no more than `n`.
pub open spec fn after_skip(s: Seq<char>, n: int) -> Seq<char> {
    if n >= s.len() {
        Seq::empty()
    } else {
        s.skip(n)
    }
}

/// What is left of `s` once its first line and one more character are dropped.
pub open spec fn after_line(s: Seq<char>) -> Seq<char> {
    after_skip(s, first_line_len(s) + 1)
}

/// The first line lies inside the text, and dropping it makes a text that is
/// not empty shorter.
pub proof fn lemma_first_line_bounds(s: Seq<char>)
    ensures
        0 <= first_line_len(s) <= s.len(),
        s.len() > 0 ==> after_line(s).len() < s.len(),
        first_line(s).len() == first_line_len(s),
{
    lemma_index_of_bounds(s, '\n', 0);
}

/// The first place at or after `offset` where `pat` stands in `s`; none where
/// `offset` is not inside `s`.
pub open spec fn find_at(s: Seq<char>, pat: Seq<char>, offset: int) -> Option<int> {
    if offset >= s.len() {
        None
    } else {
        find_seq(s, pat, offset)
    }
}

/// As [`find_at`], with `offset` counted from the first character of `s` that
/// is no white space.
pub open spec fn trimmed_find_at(s: Seq<char>, pat: Seq<char>, offset: int) -> Option<int> {
    find_at(s, pat, skip_space(s, 0) + offset)
}

/// The paragraph that a gathered buffer makes: its text without surrounding
/// white space and with a line feed behind it; none where nothing is left.
pub open spec fn paragraph_of(buffer: Seq<char>) -> Option<Seq<char>> {
    if trim(buffer).len() > 0 {
        Some(trim(buffer).push('\n'))
    } else {
        None
    }
}

/// The blocks after the gathered paragraph, if there is one, has joined them.
pub open spec fn consumed(is_eating: bool, buffer: Seq<char>, blocks: Seq<BlockView>) -> Seq<
    BlockView,
> {
    if is_eating {
        match paragraph_of(buffer) {
            Some(p) => blocks.push(BlockView::Paragraph(p)),
            None => blocks,
        }
    } else {
        blocks
    }
}

/// The cursor of the block parser.
#[derive(Debug, PartialEq)]
pub struct ParseObject {
    pub is_eating: bool,
    pub text: Vec<char>,
    pub paragraph_buffer: Vec<char>,
    pub syntax: Vec<TopLevelSyntax>,
}

impl ParseObject {
    /// The blocks found so far.
    pub open spec fn blocks(&self) -> Seq<BlockView> {
        blocks_view(self.syntax@)
    }

    /// A cursor at the start of `text`.
    pub fn new(text: &str) -> (r: Self)
        ensures
            r.text@ == text@,
            !r.is_eating,
            r.paragraph_buffer@.len() == 0,
            r.syntax@.len() == 0,
    {
        ParseObject {
            text: to_chars(text),
            is_eating: false,
            paragraph_buffer: Vec::new(),
            syntax: Vec::new(),
        }
    }

    /// A cursor at the start of `text`.
    pub fn from_chars(text: Vec<char>) -> (r: Self)
        ensures
            r.text@ == text@,
            !r.is_eating,
            r.paragraph_buffer@.len() == 0,
            r.syntax@.len() == 0,
    {
        ParseObject { text, is_eating: false, paragraph_buffer: Vec::new(), syntax: Vec::new() }
    }

    /// Whether any text is left.
    pub fn has_text(&self) -> (b: bool)
        ensures
            b == (self.text@.len() > 0),
    {
        self.text.len() > 0
    }

    /// The text that is left.
    pub fn text(&self) -> (r: String)
        ensures
            r@ == self.text@,
    {
        to_string(&self.text)
    }

    /// The length of the current line.
    pub fn current_len(&self) -> (n: usize)
        ensures
            n == first_line_len(self.text@),
            n <= self.text@.len(),
    {
        let k = find_char(&self.text, '\n', 0);
        if 0 < k && k < self.text.len() && self.text[k - 1] == '\r' {
            k - 1
        } else {
            k
        }
    }

    /// The current line, without its line ending.
    pub fn current(&self) -> (r: String)
        ensures
            r@ == first_line(self.text@),
    {
        let n = self.current_len();
        to_string_range(&self.text, 0, n)
    }

    /// The current line as characters.
    pub fn current_chars(&self) -> (r: Vec<char>)
        ensures
            r@ == first_line(self.text@),
    {
        let n = self.current_len();
        slice_of(&self.text, 0, n)
    }

    /// Drops the first `offset` characters of the text; all of it, where it
    /// has no more.
    pub fn skip(&mut self, offset: usize)
        ensures
            final(self).text@ == after_skip(old(self).text@, offset as int),
            final(self).is_eating == old(self).is_eating,
            final(self).paragraph_buffer == old(self).paragraph_buffer,
            final(self).syntax == old(self).syntax,
    {
        if offset >= self.text.len() {
            self.text = Vec::new();
        } else {
            let rest = slice_of(&self.text, offset, self.text.len());
            self.text = rest;
        }
    }

    /// Drops the current line and the character behind it.
    pub fn next(&mut self)
        ensures
            final(self).text@ == after_line(old(self).text@),
            final(self).is_eating == old(self).is_eating,
            final(self).paragraph_buffer == old(self).paragraph_buffer,
            final(self).syntax == old(self).syntax,
    {
        let n = self.current_len();
        if n >= self.text.len() {
            self.text = Vec::new();
        } else {
            self.skip(n + 1);
        }
    }

    /// Where `pat` first stands in the current line, at or after `offset`
    /// characters behind the leading white space of the line.
    pub fn trimmed_line_find(&self, pat: &str, offset: usize) -> (r: Option<usize>)
        ensures
            match trimmed_find_at(first_line(self.text@), pat@, offset as int) {
                Some(i) => r == Some(i as usize) && 0 <= i && i + pat@.len() <= self.text@.len(),
                None => r is None,
            },
    {
        let line = self.current_chars();
        let p = to_chars(pat);
        let r = trimmed_find_in(&line, &p, offset);
        proof {
            lemma_first_line_bounds(self.text@);
        }
        r
    }

    /// Where `pat` first stands in the text, at or after `offset` characters
    /// behind the leading white space of the text.
    pub fn trimmed_find(&self, pat: &str, offset: usize) -> (r: Option<usize>)
        ensures
            match trimmed_find_at(self.text@, pat@, offset as int) {
                Some(i) => r == Some(i as usize) && 0 <= i && i + pat@.len() <= self.text@.len(),
                None => r is None,
            },
    {
        let p = to_chars(pat);
        trimmed_find_in(&self.text, &p, offset)
    }

    /// Where `pat` first stands in the text at or after `offset`.
    pub fn find(&self, pat: &str, offset: usize) -> (r: Option<usize>)
        ensures
            match find_at(self.text@, pat@, offset as int) {
                Some(i) => r == Some(i as usize) && 0 <= i && i + pat@.len() <= self.text@.len(),
                None => r is None,
            },
    {
        let p = to_chars(pat);
        find_in(&self.text, &p, offset)
    }

    /// Whether the current line starts with `pat`.
    pub fn starts_with(&self, pat: &str) -> (b: bool)
        ensures
            b == has_prefix_at(first_line(self.text@), pat@, 0),
    {
        let line = self.current_chars();
        let p = to_chars(pat);
        starts_with_at(&line, &p, 0)
    }

    /// Takes the characters from `offset` up to `len` out of the text and
    /// returns them.
    pub fn yoink(&mut self, offset: usize, len: usize) -> (r: String)
        requires
            offset <= len <= old(self).text@.len(),
        ensures
            r@ == old(self).text@.subrange(offset as int, len as int),
            final(self).text@ == old(self).text@.take(offset as int) + old(self).text@.skip(
                len as int,
            ),
            final(self).is_eating == old(self).is_eating,
            final(self).paragraph_buffer == old(self).paragraph_buffer,
            final(self).syntax == old(self).syntax,
    {
        let out = to_string_range(&self.text, offset, len);
        let mut rest = slice_of(&self.text, 0, offset);
        let tail = slice_of(&self.text, len, self.text.len());
        append_chars(&mut rest, &tail);
        self.text = rest;
        out
    }

    /// Adds `text` and a line feed to the paragraph that is being gathered.
    pub fn eat(&mut self, text: &str)
        ensures
            final(self).is_eating,
            final(self).paragraph_buffer@ == (old(self).paragraph_buffer@ + text@).push('\n'),
            final(self).text == old(self).text,
            final(self).syntax == old(self).syntax,
    {
        let t = to_chars(text);
        self.is_eating = true;
        append_chars(&mut self.paragraph_buffer, &t);
        self.paragraph_buffer.push('\n');
    }

    /// Moves the current line into the paragraph that is being gathered.
    pub fn eat_line(&mut self)
        ensures
            final(self).is_eating,
            final(self).paragraph_buffer@ == (old(self).paragraph_buffer@ + first_line(
                old(self).text@,
            )).push('\n'),
            final(self).text@ == after_line(old(self).text@),
            final(self).syntax == old(self).syntax,
    {
        let line = self.current_chars();
        self.is_eating = true;
        append_chars(&mut self.paragraph_buffer, &line);
        self.paragraph_buffer.push('\n');
        self.next();
    }

    /// Ends the paragraph that is being gathered: it joins the blocks unless
    /// it holds white space alone.
    pub fn consume(&mut self)
        ensures
            final(self).blocks() == consumed(
                old(self).is_eating,
                old(self).paragraph_buffer@,
                old(self).blocks(),
            ),
            !final(self).is_eating,
            old(self).is_eating ==> final(self).paragraph_buffer@.len() == 0,
            !old(self).is_eating ==> final(self).paragraph_buffer == old(self).paragraph_buffer,
            final(self).text == old(self).text,
    {
        if self.is_eating {
            let a = skip_space_from(&self.paragraph_buffer, 0, self.paragraph_buffer.len());
            assert(self.paragraph_buffer@.subrange(0, self.paragraph_buffer@.len() as int)
                == self.paragraph_buffer@);
            let b = trim_end_from(&self.paragraph_buffer, a, self.paragraph_buffer.len());
            if a < b {
                let mut text = to_string_range(&self.paragraph_buffer, a, b);
                text.push('\n');
                let block = TopLevelSyntax::Paragraph(text);
                self.syntax.push(block);
            }
            self.is_eating = false;
            self.paragraph_buffer.clear();
        }
    }

    /// Ends the paragraph that is being gathered and adds a block.
    pub fn push(&mut self, syntax: TopLevelSyntax)
        ensures
            final(self).blocks() == consumed(
                old(self).is_eating,
                old(self).paragraph_buffer@,
                old(self).blocks(),
            ).push(syntax@),
            !final(self).is_eating,
            old(self).is_eating ==> final(self).paragraph_buffer@.len() == 0,
            !old(self).is_eating ==> final(self).paragraph_buffer == old(self).paragraph_buffer,
            final(self).text == old(self).text,
    {
        self.consume();
        self.syntax.push(syntax);
    }
}

/// Where `pat` first stands in `v` at or after `offset`.
pub fn find_in(v: &Vec<char>, pat: &Vec<char>, offset: usize) -> (r: Option<usize>)
    ensures
        match find_at(v@, pat@, offset as int) {
            Some(i) => r == Some(i as usize) && 0 <= i && i + pat@.len() <= v@.len(),
            None => r is None,
        },
{
    if offset >= v.len() {
        return None;
    }
    proof {
        lemma_find_seq_bounds(v@, pat@, offset as int);
    }
    find_from(v, pat, offset)
}

/// Where `pat` first stands in `v`, at or after `offset` characters behind
/// its leading white space.
pub fn trimmed_find_in(v: &Vec<char>, pat: &Vec<char>, offset: usize) -> (r: Option<usize>)
    ensures
        match trimmed_find_at(v@, pat@, offset as int) {
            Some(i) => r == Some(i as usize) && 0 <= i && i + pat@.len() <= v@.len(),
            None => r is None,
        },
{
    let lead = skip_space_from(v, 0, v.len());
    assert(v@.subrange(0, v@.len() as int) == v@);
    if offset >= v.len() - lead {
        return None;
    }
    proof {
        lemma_find_seq_bounds(v@, pat@, lead + offset);
    }
    find_from(v, pat, lead + offset)
}

/// What a search finds is a place where the pattern stands, at or after the
/// start of the search.
pub proof fn lemma_find_seq_bounds(s: Seq<char>, p: Seq<char>, from: int)
    requires
        0 <= from,
    ensures
        find_seq(s, p, from) matches Some(i) ==> from <= i && i + p.len() <= s.len()
            && has_prefix_at(s, p, i),
    decreases s.len() - from,
{
    if from + p.len() <= s.len() && !has_prefix_at(s, p, from) && from < s.len() {
        lemma_find_seq_bounds(s, p, from + 1);
    }
}

/// Tests whether a text starts with a pattern once its leading white space is
/// dropped.
pub trait TrimmedStartsWith {
    /// The characters of the text.
    spec fn chars(&self) -> Seq<char>;

    fn trimmed_starts_with(&self, text: &str) -> (b: bool)
        ensures
            b == has_prefix_at(trim_start(self.chars()), text@, 0),
    ;
}

fn trimmed_starts(v: &Vec<char>, pat: &Vec<char>) -> (b: bool)
    ensures
        b == has_prefix_at(trim_start(v@), pat@, 0),
{
    let lead = skip_space_from(v, 0, v.len());
    assert(v@.subrange(0, v@.len() as int) == v@);
    let b = starts_with_at(v, pat, lead);
    proof {
        let t = trim_start(v@);
        if lead + pat@.len() <= v@.len() {
            assert(t.subrange(0, pat@.len() as int) == v@.subrange(
                lead as int,
                lead + pat@.len(),
            ));
        }
    }
    b
}

impl TrimmedStartsWith for &str {
    open spec fn chars(&self) -> Seq<char> {
        self@
    }

    fn trimmed_starts_with(&self, text: &str) -> (b: bool) {
        let v = to_chars(self);
        let p = to_chars(text);
        trimmed_starts(&v, &p)
    }
}

impl TrimmedStartsWith for String {
    open spec fn chars(&self) -> Seq<char> {
        self@
    }

    fn trimmed_starts_with(&self, text: &str) -> (b: bool) {
        let v = to_chars(self.as_str());
        let p = to_chars(text);
        trimmed_starts(&v, &p)
    }
}

impl TrimmedStartsWith for &String {
    open spec fn chars(&self) -> Seq<char> {
        self@
    }

    fn trimmed_starts_with(&self, text: &str) -> (b: bool) {
        let v = to_chars(self.as_str());
        let p = to_chars(text);
        trimmed_starts(&v, &p)
    }
}

} // verus!
