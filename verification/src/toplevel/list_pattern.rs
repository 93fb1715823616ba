//! The five markers that start a list item, and a searcher that finds them in
//! a line.

use vstd::prelude::*;
use crate::text::{char_is_digit, char_is_letter, char_is_space, is_digit, is_letter, is_space, to_chars, to_string_range};

verus! {

/// The family of a list marker.
#[derive(Debug, PartialEq, Eq, Clone, Copy)]
pub enum ListPattern {
    /// `- `
    Unordered,
    /// `1. `
    Numbered,
    /// `a. `
    Alphabetical,
    /// `1) `
    NumberedRounded,
    /// `a) `
    AlphabeticalRounded,
}

/// One step of a search: a match or a rejection of the characters from the
/// first index up to the second, or the end of the text.
#[derive(Debug, PartialEq, Eq, Clone, Copy)]
pub enum SearchStep {
    Match(usize, usize),
    Reject(usize, usize),
    Done,
}

/// The first index at or after `from` that holds no digit, or the length.
pub open spec fn skip_digits(s: Seq<char>, from: int) -> int
    decreases s.len() - from,
{
    if 0 <= from < s.len() && is_digit(s[from]) {
        skip_digits(s, from + 1)
    } else {
        from
    }
}

/// Skipping digits stays inside the text.
pub proof fn lemma_skip_digits_bounds(s: Seq<char>, from: int)
    requires
        0 <= from <= s.len(),
    ensures
        from <= skip_digits(s, from) <= s.len(),
    decreases s.len() - from,
{
    if from < s.len() && is_digit(s[from]) {
        lemma_skip_digits_bounds(s, from + 1);
    }
}

/// The step of the search for `- ` at index `p`.
pub open spec fn unordered_step(s: Seq<char>, p: int) -> SearchStep {
    if p < 0 || p >= s.len() {
        SearchStep::Done
    } else if s[p] == '-' {
        if p + 1 < s.len() {
            if is_space(s[p + 1]) {
                SearchStep::Match(p as usize, (p + 2) as usize)
            } else {
                SearchStep::Reject(p as usize, (p + 2) as usize)
            }
        } else {
            SearchStep::Reject(p as usize, (p + 1) as usize)
        }
    } else {
        SearchStep::Reject(p as usize, (p + 1) as usize)
    }
}

/// Whether `c` can start a label of this kind: a letter for the alphabetical
/// markers, a digit for the numbered ones.
pub open spec fn starts_label(letters: bool, c: char) -> bool {
    if letters {
        is_letter(c)
    } else {
        is_digit(c)
    }
}

/// The step of the search for a labelled marker at index `p`: a label, then
/// `closer`, then white space. A label is one character that starts it, or two
/// of them followed by any number of digits.
pub open spec fn labelled_step(s: Seq<char>, p: int, letters: bool, closer: char) -> SearchStep {
    if p < 0 || p >= s.len() {
        SearchStep::Done
    } else if !starts_label(letters, s[p]) || p + 1 >= s.len() {
        SearchStep::Reject(p as usize, (p + 1) as usize)
    } else {
        let q = if starts_label(letters, s[p + 1]) {
            skip_digits(s, p + 2)
        } else {
            p + 1
        };
        if q >= s.len() {
            SearchStep::Reject(p as usize, q as usize)
        } else if s[q] != closer || q + 1 >= s.len() {
            SearchStep::Reject(p as usize, (q + 1) as usize)
        } else if is_space(s[q + 1]) {
            SearchStep::Match(p as usize, (q + 2) as usize)
        } else {
            SearchStep::Reject(p as usize, (q + 2) as usize)
        }
    }
}

impl ListPattern {
    /// Whether the label of this marker is made of letters.
    pub open spec fn has_letters(&self) -> bool {
        *self == ListPattern::Alphabetical || *self == ListPattern::AlphabeticalRounded
    }

    /// The character that ends the label of this marker.
    pub open spec fn closer(&self) -> char {
        if *self == ListPattern::NumberedRounded || *self == ListPattern::AlphabeticalRounded {
            ')'
        } else {
            '.'
        }
    }

    /// The step of the search for this marker at index `p`.
    pub open spec fn step(&self, s: Seq<char>, p: int) -> SearchStep {
        if *self == ListPattern::Unordered {
            unordered_step(s, p)
        } else {
            labelled_step(s, p, self.has_letters(), self.closer())
        }
    }

    /// The length of this marker where `s` starts with it.
    pub open spec fn marker_len(&self, s: Seq<char>) -> Option<int> {
        match self.step(s, 0) {
            SearchStep::Match(_, end) => Some(end as int),
            _ => None,
        }
    }
}

/// Where a step ends: the index at which the next step starts.
pub open spec fn step_end(step: SearchStep, p: int) -> int {
    match step {
        SearchStep::Match(_, b) => b as int,
        SearchStep::Reject(_, b) => b as int,
        SearchStep::Done => p,
    }
}

/// A step that is not the last moves forward, stays inside the text, and
/// starts where the search stood.
pub proof fn lemma_step_bounds(pattern: ListPattern, s: Seq<char>, p: int)
    requires
        0 <= p <= s.len() <= usize::MAX,
    ensures
        p <= step_end(pattern.step(s, p), p) <= s.len(),
        !(pattern.step(s, p) is Done) ==> p < step_end(pattern.step(s, p), p),
        pattern.step(s, p) matches SearchStep::Match(a, b) ==> a == p,
        pattern.step(s, p) matches SearchStep::Reject(a, b) ==> a == p,
{
    if p + 2 <= s.len() {
        lemma_skip_digits_bounds(s, p + 2);
    }
}

/// A search for one kind of list marker through a text.
pub struct ListPatternSearcher {
    pub haystack: Vec<char>,
    pub position: usize,
    pub searcher: ListPattern,
}

impl ListPatternSearcher {
    /// The search stands inside its text.
    pub open spec fn wf(&self) -> bool {
        self.position <= self.haystack@.len()
    }

    /// A search for `pattern` from the start of `haystack`.
    pub fn new(haystack: &str, pattern: ListPattern) -> (r: Self)
        ensures
            r.haystack@ == haystack@,
            r.position == 0,
            r.searcher == pattern,
            r.wf(),
    {
        ListPatternSearcher { haystack: to_chars(haystack), position: 0, searcher: pattern }
    }

    /// A search for `pattern` from the start of `haystack`.
    pub fn from_chars(haystack: Vec<char>, pattern: ListPattern) -> (r: Self)
        ensures
            r.haystack@ == haystack@,
            r.position == 0,
            r.searcher == pattern,
            r.wf(),
    {
        ListPatternSearcher { haystack, position: 0, searcher: pattern }
    }

    /// The text that is searched.
    pub fn haystack(&self) -> (r: String)
        ensures
            r@ == self.haystack@,
    {
        let r = to_string_range(&self.haystack, 0, self.haystack.len());
        r
    }

    fn next_unordered(&mut self) -> (r: SearchStep)
        requires
            old(self).wf(),
        ensures
            r == unordered_step(old(self).haystack@, old(self).position as int),
            final(self).position == step_end(r, old(self).position as int),
            final(self).haystack == old(self).haystack,
            final(self).searcher == old(self).searcher,
            final(self).wf(),
    {
        let n: usize = self.haystack.len();
        let p: usize = self.position;
        if p >= n {
            return SearchStep::Done;
        }
        if self.haystack[p] == '-' {
            if p + 1 < n {
                self.position = p + 2;
                if char_is_space(self.haystack[p + 1]) {
                    SearchStep::Match(p, p + 2)
                } else {
                    SearchStep::Reject(p, p + 2)
                }
            } else {
                self.position = p + 1;
                SearchStep::Reject(p, p + 1)
            }
        } else {
            self.position = p + 1;
            SearchStep::Reject(p, p + 1)
        }
    }

    fn next_labelled(&mut self, letters: bool, closer: char) -> (r: SearchStep)
        requires
            old(self).wf(),
        ensures
            r == labelled_step(old(self).haystack@, old(self).position as int, letters, closer),
            final(self).position == step_end(r, old(self).position as int),
            final(self).haystack == old(self).haystack,
            final(self).searcher == old(self).searcher,
            final(self).wf(),
    {
        let n: usize = self.haystack.len();
        let p: usize = self.position;
        if p >= n {
            return SearchStep::Done;
        }
        if !starts_label_char(letters, self.haystack[p]) || p + 1 >= n {
            self.position = p + 1;
            return SearchStep::Reject(p, p + 1);
        }
        let mut q: usize = p + 1;
        if starts_label_char(letters, self.haystack[p + 1]) {
            q = p + 2;
            while q < n && char_is_digit(self.haystack[q])
                invariant
                    p + 2 <= q <= n,
                    n == self.haystack@.len(),
                    skip_digits(self.haystack@, q as int) == skip_digits(
                        self.haystack@,
                        p + 2,
                    ),
                decreases n - q,
            {
                q += 1;
            }
        }
        if q >= n {
            self.position = q;
            return SearchStep::Reject(p, q);
        }
        if self.haystack[q] != closer || q + 1 >= n {
            self.position = q + 1;
            return SearchStep::Reject(p, q + 1);
        }
        self.position = q + 2;
        if char_is_space(self.haystack[q + 1]) {
            SearchStep::Match(p, q + 2)
        } else {
            SearchStep::Reject(p, q + 2)
        }
    }

    fn next_numbered(&mut self) -> (r: SearchStep)
        requires
            old(self).wf(),
            old(self).searcher == ListPattern::Numbered || old(self).searcher
                == ListPattern::NumberedRounded,
        ensures
            r == old(self).searcher.step(old(self).haystack@, old(self).position as int),
            final(self).position == step_end(r, old(self).position as int),
            final(self).haystack == old(self).haystack,
            final(self).searcher == old(self).searcher,
            final(self).wf(),
    {
        match self.searcher {
            ListPattern::NumberedRounded => self.next_labelled(false, ')'),
            _ => self.next_labelled(false, '.'),
        }
    }

    fn next_alphabetical(&mut self) -> (r: SearchStep)
        requires
            old(self).wf(),
            old(self).searcher == ListPattern::Alphabetical || old(self).searcher
                == ListPattern::AlphabeticalRounded,
        ensures
            r == old(self).searcher.step(old(self).haystack@, old(self).position as int),
            final(self).position == step_end(r, old(self).position as int),
            final(self).haystack == old(self).haystack,
            final(self).searcher == old(self).searcher,
            final(self).wf(),
    {
        match self.searcher {
            ListPattern::AlphabeticalRounded => self.next_labelled(true, ')'),
            _ => self.next_labelled(true, '.'),
        }
    }

    /// Makes the next step of the search and moves behind it.
    pub fn next(&mut self) -> (r: SearchStep)
        requires
            old(self).wf(),
        ensures
            r == old(self).searcher.step(old(self).haystack@, old(self).position as int),
            final(self).position == step_end(r, old(self).position as int),
            final(self).haystack == old(self).haystack,
            final(self).searcher == old(self).searcher,
            final(self).wf(),
    {
        match self.searcher {
            ListPattern::Unordered => self.next_unordered(),
            ListPattern::NumberedRounded | ListPattern::Numbered => self.next_numbered(),
            ListPattern::AlphabeticalRounded | ListPattern::Alphabetical => self.next_alphabetical(),
        }
    }
}

fn starts_label_char(letters: bool, c: char) -> (b: bool)
    ensures
        b == starts_label(letters, c),
{
    if letters {
        char_is_letter(c)
    } else {
        char_is_digit(c)
    }
}

/// The end of the first match at or after `p`, if the search finds one.
pub open spec fn first_match_end(pattern: ListPattern, s: Seq<char>, p: int) -> Option<int>
    decreases s.len() - p,
{
    match pattern.step(s, p) {
        SearchStep::Match(_, b) => Some(b as int),
        SearchStep::Reject(_, b) => if p < b <= s.len() {
            first_match_end(pattern, s, b as int)
        } else {
            None
        },
        SearchStep::Done => None,
    }
}

/// The first piece of `s` when it is split behind each match of the pattern:
/// up to the end of the first match, or all of `s` where nothing matches. An
/// empty text has no piece.
pub open spec fn first_piece_of(pattern: ListPattern, s: Seq<char>) -> Option<Seq<char>> {
    if s.len() == 0 {
        None
    } else {
        match first_match_end(pattern, s, 0) {
            Some(b) => Some(s.take(b)),
            None => Some(s),
        }
    }
}

/// Whether `text` starts with a marker of this kind.
pub fn starts_with_pattern(text: &str, pattern: ListPattern) -> (b: bool)
    ensures
        b == pattern.marker_len(text@).is_some(),
{
    let mut searcher = ListPatternSearcher::new(text, pattern);
    match searcher.next() {
        SearchStep::Match(_, _) => true,
        _ => false,
    }
}

/// The first piece of `text` when it is split behind each marker of this kind.
pub fn split_inclusive_first(text: &str, pattern: ListPattern) -> (r: Option<String>)
    ensures
        match first_piece_of(pattern, text@) {
            Some(p) => r matches Some(x) && x@ == p,
            None => r is None,
        },
{
    let mut searcher = ListPatternSearcher::new(text, pattern);
    let n: usize = searcher.haystack.len();
    if n == 0 {
        return None;
    }
    loop
        invariant
            searcher.wf(),
            searcher.haystack@ == text@,
            searcher.searcher == pattern,
            0 < n == text@.len(),
            first_match_end(pattern, text@, searcher.position as int) == first_match_end(
                pattern,
                text@,
                0,
            ),
        decreases text@.len() - searcher.position,
    {
        let ghost at = searcher.position as int;
        proof {
            lemma_step_bounds(pattern, text@, at);
        }
        match searcher.next() {
            SearchStep::Match(_, b) => {
                return Some(to_string_range(&searcher.haystack, 0, b));
            },
            SearchStep::Reject(_, _) => {},
            SearchStep::Done => {
                let r = to_string_range(&searcher.haystack, 0, n);
                return Some(r);
            },
        }
    }
}

/// The length of the marker of this kind with which `v` starts, if it starts
/// with one.
pub fn match_start(v: &Vec<char>, from: usize, pattern: ListPattern) -> (r: Option<usize>)
    requires
        from <= v@.len(),
    ensures
        match pattern.marker_len(v@.skip(from as int)) {
            Some(n) => r == Some(n as usize) && from + n <= v@.len() && 0 < n,
            None => r is None,
        },
{
    let line = crate::text::slice_of(v, from, v.len());
    let mut searcher = ListPatternSearcher::from_chars(line, pattern);
    let n: usize = searcher.haystack.len();
    proof {
        lemma_step_bounds(pattern, searcher.haystack@, 0);
    }
    match searcher.next() {
        SearchStep::Match(_, b) => Some(b),
        _ => None,
    }
}

} // verus!
