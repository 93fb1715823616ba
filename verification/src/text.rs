//! Characters and character sequences: the ground every parser here stands on.
//!
//! Text is modelled as `Seq<char>`. The executable functions work on
//! `Vec<char>`; [`to_chars`] and [`to_string`] move between that and `String`.

use vstd::prelude::*;

verus! {

/// Whether a character is white space: one of the characters that Unicode
/// gives the property `White_Space`.
pub open spec fn is_space(c: char) -> bool {
    ||| '\u{9}' <= c && c <= '\u{d}'
    ||| c == ' '
    ||| c == '\u{85}'
    ||| c == '\u{a0}'
    ||| c == '\u{1680}'
    ||| '\u{2000}' <= c && c <= '\u{200a}'
    ||| c == '\u{2028}'
    ||| c == '\u{2029}'
    ||| c == '\u{202f}'
    ||| c == '\u{205f}'
    ||| c == '\u{3000}'
}

/// Whether a character counts as a letter.
pub uninterp spec fn is_letter(c: char) -> bool;

/// A letter of the basic Latin alphabet, `a` to `z` or `A` to `Z`.
pub open spec fn is_ascii_letter(c: char) -> bool {
    ('a' <= c && c <= 'z') || ('A' <= c && c <= 'Z')
}

/// A decimal digit, `0` to `9`.
pub open spec fn is_digit(c: char) -> bool {
    '0' <= c && c <= '9'
}

/// Whether a character is white space.
pub fn char_is_space(c: char) -> (r: bool)
    ensures
        r == is_space(c),
{
    ('\u{9}' <= c && c <= '\u{d}') || c == ' ' || c == '\u{85}' || c == '\u{a0}' || c == '\u{1680}'
        || ('\u{2000}' <= c && c <= '\u{200a}') || c == '\u{2028}' || c == '\u{2029}' || c
        == '\u{202f}' || c == '\u{205f}' || c == '\u{3000}'
}

/// Calls `char::is_alphabetic`, which tests the Unicode `Alphabetic` property.
/// The contract gives the answer the name [`is_letter`]. Of the characters up
/// to `U+007F` it says which have the property: the letters `a` to `z` and `A`
/// to `Z`, and no other. Of the characters above it claims nothing.
#[verifier::external_body]
pub(crate) fn char_is_letter(c: char) -> (r: bool)
    ensures
        r == is_letter(c),
        c <= '\u{7f}' ==> r == is_ascii_letter(c),
{
    c.is_alphabetic()
}

/// `String::push` appends one character to the end of the string.
pub assume_specification[ std::string::String::push ](s: &mut std::string::String, c: char)
    ensures
        final(s)@ == old(s)@.push(c),
;

/// Whether a character is a decimal digit.
pub fn char_is_digit(c: char) -> (r: bool)
    ensures
        r == is_digit(c),
{
    '0' <= c && c <= '9'
}

/// The characters of a string, in order.
pub fn to_chars(s: &str) -> (v: Vec<char>)
    ensures
        v@ == s@,
{
    let mut v: Vec<char> = Vec::new();
    for c in it: s.chars()
        invariant
            it.seq() == s@,
            v@ == s@.take(it.index() as int),
    {
        v.push(c);
    }
    v
}

/// The string made of the characters `v[from..to]`.
pub fn to_string_range(v: &Vec<char>, from: usize, to: usize) -> (s: String)
    requires
        from <= to <= v@.len(),
    ensures
        s@ == v@.subrange(from as int, to as int),
{
    let mut s = String::new();
    let mut i: usize = from;
    while i < to
        invariant
            from <= i <= to <= v@.len(),
            s@ == v@.subrange(from as int, i as int),
        decreases to - i,
    {
        s.push(v[i]);
        i += 1;
    }
    s
}

/// The string made of the characters of `v`.
pub fn to_string(v: &Vec<char>) -> (s: String)
    ensures
        s@ == v@,
{
    let s = to_string_range(v, 0, v.len());
    s
}

/// A copy of `v[from..to]`.
pub fn slice_of(v: &Vec<char>, from: usize, to: usize) -> (r: Vec<char>)
    requires
        from <= to <= v@.len(),
    ensures
        r@ == v@.subrange(from as int, to as int),
{
    let mut r: Vec<char> = Vec::new();
    let mut i: usize = from;
    while i < to
        invariant
            from <= i <= to <= v@.len(),
            r@ == v@.subrange(from as int, i as int),
        decreases to - i,
    {
        r.push(v[i]);
        i += 1;
    }
    r
}

/// Appends the characters of `tail` to `v`.
pub fn append_chars(v: &mut Vec<char>, tail: &Vec<char>)
    ensures
        final(v)@ == old(v)@ + tail@,
{
    let mut i: usize = 0;
    while i < tail.len()
        invariant
            i <= tail@.len(),
            v@ == old(v)@ + tail@.subrange(0, i as int),
        decreases tail.len() - i,
    {
        v.push(tail[i]);
        i += 1;
    }
}

/// Whether `p` stands in `s` at index `at`.
pub open spec fn has_prefix_at(s: Seq<char>, p: Seq<char>, at: int) -> bool {
    0 <= at && at + p.len() <= s.len() && s.subrange(at, at + p.len()) == p
}

/// Whether `pat` stands in `v` at index `at`.
pub fn starts_with_at(v: &Vec<char>, pat: &Vec<char>, at: usize) -> (r: bool)
    ensures
        r == has_prefix_at(v@, pat@, at as int),
{
    if at > v.len() || pat.len() > v.len() - at {
        return false;
    }
    let n: usize = v.len();
    let mut i: usize = 0;
    while i < pat.len()
        invariant
            at + pat@.len() <= n == v@.len(),
            i <= pat@.len(),
            v@.subrange(at as int, at + i) == pat@.subrange(0, i as int),
        decreases pat.len() - i,
    {
        if v[at + i] != pat[i] {
            return false;
        }
        i += 1;
    }
    assert(pat@.subrange(0, pat@.len() as int) == pat@);
    true
}

/// The first index at or after `from` where `p` stands in `s`.
pub open spec fn find_seq(s: Seq<char>, p: Seq<char>, from: int) -> Option<int>
    decreases s.len() - from,
{
    if from < 0 || from + p.len() > s.len() {
        None
    } else if has_prefix_at(s, p, from) {
        Some(from)
    } else if from >= s.len() {
        None
    } else {
        find_seq(s, p, from + 1)
    }
}

/// The first index at or after `from` where `pat` stands in `v`.
pub fn find_from(v: &Vec<char>, pat: &Vec<char>, from: usize) -> (r: Option<usize>)
    ensures
        r matches Some(i) ==> find_seq(v@, pat@, from as int) == Some(i as int),
        r is None ==> find_seq(v@, pat@, from as int) is None,
{
    if from > v.len() || pat.len() > v.len() - from {
        return None;
    }
    let last: usize = v.len() - pat.len();
    let mut i: usize = from;
    loop
        invariant
            from <= i <= last,
            last == v@.len() - pat@.len(),
            find_seq(v@, pat@, i as int) == find_seq(v@, pat@, from as int),
        decreases last - i,
    {
        if starts_with_at(v, pat, i) {
            return Some(i);
        }
        if i == last {
            assert(find_seq(v@, pat@, i + 1) is None);
            return None;
        }
        i += 1;
    }
}

/// The first index at or after `from` that holds `c`, or the length of `s`.
pub open spec fn index_of(s: Seq<char>, c: char, from: int) -> int
    decreases s.len() - from,
{
    if from < 0 || from >= s.len() {
        s.len() as int
    } else if s[from] == c {
        from
    } else {
        index_of(s, c, from + 1)
    }
}

/// The index of a character is the first index that holds it.
pub proof fn lemma_index_of_bounds(s: Seq<char>, c: char, from: int)
    requires
        0 <= from <= s.len(),
    ensures
        from <= index_of(s, c, from) <= s.len(),
        index_of(s, c, from) < s.len() ==> s[index_of(s, c, from)] == c,
        forall|k: int| from <= k < index_of(s, c, from) ==> s[k] != c,
    decreases s.len() - from,
{
    if from < s.len() && s[from] != c {
        lemma_index_of_bounds(s, c, from + 1);
    }
}

/// The first index at or after `from` that holds `c`, or the length.
pub fn find_char(v: &Vec<char>, c: char, from: usize) -> (r: usize)
    requires
        from <= v@.len(),
    ensures
        r == index_of(v@, c, from as int),
        from <= r <= v@.len(),
{
    let mut i: usize = from;
    while i < v.len() && v[i] != c
        invariant
            from <= i <= v@.len(),
            index_of(v@, c, i as int) == index_of(v@, c, from as int),
        decreases v.len() - i,
    {
        i += 1;
    }
    i
}

/// The first index at or after `from` that holds no white space, or the length.
pub open spec fn skip_space(s: Seq<char>, from: int) -> int
    decreases s.len() - from,
{
    if 0 <= from < s.len() && is_space(s[from]) {
        skip_space(s, from + 1)
    } else {
        from
    }
}

/// Skipping white space ends at the first character that is none.
pub proof fn lemma_skip_space_bounds(s: Seq<char>, from: int)
    requires
        0 <= from <= s.len(),
    ensures
        from <= skip_space(s, from) <= s.len(),
        skip_space(s, from) < s.len() ==> !is_space(s[skip_space(s, from)]),
        forall|k: int| from <= k < skip_space(s, from) ==> is_space(s[k]),
    decreases s.len() - from,
{
    if from < s.len() && is_space(s[from]) {
        lemma_skip_space_bounds(s, from + 1);
    }
}

/// The first index at or after `from` and before `to` that holds no white
/// space, or `to`.
pub fn skip_space_from(v: &Vec<char>, from: usize, to: usize) -> (r: usize)
    requires
        from <= to <= v@.len(),
    ensures
        r == skip_space(v@.subrange(0, to as int), from as int),
        from <= r <= to,
{
    let ghost s = v@.subrange(0, to as int);
    let mut i: usize = from;
    while i < to && char_is_space(v[i])
        invariant
            from <= i <= to <= v@.len(),
            s == v@.subrange(0, to as int),
            skip_space(s, i as int) == skip_space(s, from as int),
        decreases to - i,
    {
        i += 1;
    }
    i
}

/// The end of the text once trailing white space is dropped, never below `low`.
pub open spec fn trim_end_index(s: Seq<char>, low: int, end: int) -> int
    decreases end,
{
    if low < end <= s.len() && 0 <= low && is_space(s[end - 1]) {
        trim_end_index(s, low, end - 1)
    } else {
        end
    }
}

/// Dropping trailing white space ends between the bounds.
pub proof fn lemma_trim_end_bounds(s: Seq<char>, low: int, end: int)
    requires
        0 <= low <= end <= s.len(),
    ensures
        low <= trim_end_index(s, low, end) <= end,
    decreases end,
{
    if low < end && is_space(s[end - 1]) {
        lemma_trim_end_bounds(s, low, end - 1);
    }
}

/// The end of `v[low..end]` once trailing white space is dropped.
pub fn trim_end_from(v: &Vec<char>, low: usize, end: usize) -> (r: usize)
    requires
        low <= end <= v@.len(),
    ensures
        r == trim_end_index(v@, low as int, end as int),
        low <= r <= end,
{
    let mut j: usize = end;
    while j > low && char_is_space(v[j - 1])
        invariant
            low <= j <= end <= v@.len(),
            trim_end_index(v@, low as int, j as int) == trim_end_index(v@, low as int, end as int),
        decreases j,
    {
        j -= 1;
    }
    j
}

/// The text without leading white space.
pub open spec fn trim_start(s: Seq<char>) -> Seq<char> {
    s.skip(skip_space(s, 0))
}

/// The text without leading and trailing white space.
pub open spec fn trim(s: Seq<char>) -> Seq<char> {
    let a = skip_space(s, 0);
    s.subrange(a, trim_end_index(s, a, s.len() as int))
}

/// The text without leading and trailing white space.
pub fn trimmed(v: &Vec<char>) -> (r: Vec<char>)
    ensures
        r@ == trim(v@),
{
    let a = skip_space_from(v, 0, v.len());
    assert(v@.subrange(0, v@.len() as int) == v@);
    let b = trim_end_from(v, a, v.len());
    slice_of(v, a, b)
}

/// Whether the text holds a character that is no white space.
pub open spec fn has_ink(s: Seq<char>) -> bool {
    skip_space(s, 0) < s.len()
}

/// A text that holds a character that is no white space holds more than
/// white space.
pub proof fn lemma_ink_at(s: Seq<char>, k: int)
    requires
        0 <= k < s.len(),
        !is_space(s[k]),
    ensures
        has_ink(s),
{
    lemma_skip_space_bounds(s, 0);
}

/// The decimal digits of `n`, most significant first.
pub open spec fn decimal(n: nat) -> Seq<char>
    decreases n,
{
    if n < 10 {
        seq![digit_char(n)]
    } else {
        decimal(n / 10).push(digit_char(n % 10))
    }
}

/// The character of the digit `d`, for `d` below ten.
pub open spec fn digit_char(d: nat) -> char {
    if d == 0 {
        '0'
    } else if d == 1 {
        '1'
    } else if d == 2 {
        '2'
    } else if d == 3 {
        '3'
    } else if d == 4 {
        '4'
    } else if d == 5 {
        '5'
    } else if d == 6 {
        '6'
    } else if d == 7 {
        '7'
    } else if d == 8 {
        '8'
    } else {
        '9'
    }
}

fn digit_of(d: usize) -> (c: char)
    requires
        d < 10,
    ensures
        c == digit_char(d as nat),
{
    if d == 0 {
        '0'
    } else if d == 1 {
        '1'
    } else if d == 2 {
        '2'
    } else if d == 3 {
        '3'
    } else if d == 4 {
        '4'
    } else if d == 5 {
        '5'
    } else if d == 6 {
        '6'
    } else if d == 7 {
        '7'
    } else if d == 8 {
        '8'
    } else {
        '9'
    }
}

/// The decimal writing of `n`.
pub fn decimal_chars(n: usize) -> (r: Vec<char>)
    ensures
        r@ == decimal(n as nat),
    decreases n,
{
    if n < 10 {
        let mut r: Vec<char> = Vec::new();
        r.push(digit_of(n));
        r
    } else {
        let mut r = decimal_chars(n / 10);
        r.push(digit_of(n % 10));
        r
    }
}

/// The first index at or after `from` that holds white space, or the length.
pub open spec fn skip_ink(s: Seq<char>, from: int) -> int
    decreases s.len() - from,
{
    if 0 <= from < s.len() && !is_space(s[from]) {
        skip_ink(s, from + 1)
    } else {
        from
    }
}

/// Skipping what is no white space moves forward where there is any.
pub proof fn lemma_skip_ink_bounds(s: Seq<char>, from: int)
    requires
        0 <= from <= s.len(),
    ensures
        from <= skip_ink(s, from) <= s.len(),
        from < s.len() && !is_space(s[from]) ==> from < skip_ink(s, from),
    decreases s.len() - from,
{
    if from < s.len() && !is_space(s[from]) {
        lemma_skip_ink_bounds(s, from + 1);
    }
}

/// The first index at or after `from` that holds white space, or the length.
pub fn skip_ink_from(v: &Vec<char>, from: usize) -> (r: usize)
    requires
        from <= v@.len(),
    ensures
        r == skip_ink(v@, from as int),
        from <= r <= v@.len(),
{
    let mut i: usize = from;
    while i < v.len() && !char_is_space(v[i])
        invariant
            from <= i <= v@.len(),
            skip_ink(v@, i as int) == skip_ink(v@, from as int),
        decreases v.len() - i,
    {
        i += 1;
    }
    i
}

/// The part of `s` from `a` up to `b`, where `a` is past the start of `s`; the
/// empty text for any other bounds. It is always shorter than a text that is
/// not empty.
pub open spec fn span(s: Seq<char>, a: int, b: int) -> Seq<char> {
    if 0 < a <= b <= s.len() {
        s.subrange(a, b)
    } else {
        Seq::empty()
    }
}

/// The index of the closer that ends a bracketed stretch: the first `close`
/// at or after `from` that is met at depth zero, where each `open` on the way
/// goes one level down and each `close` one level up. `depth` is the depth at
/// `from`.
pub open spec fn close_index(s: Seq<char>, from: int, open: char, close: char, depth: nat) -> Option<
    int,
>
    decreases s.len() - from,
{
    if from < 0 || from >= s.len() {
        None
    } else if s[from] == open {
        close_index(s, from + 1, open, close, depth + 1)
    } else if s[from] == close {
        if depth == 0 {
            Some(from)
        } else {
            close_index(s, from + 1, open, close, (depth - 1) as nat)
        }
    } else {
        close_index(s, from + 1, open, close, depth)
    }
}

/// The closer of a bracketed stretch lies inside the text and is a closer.
pub proof fn lemma_close_index_bounds(s: Seq<char>, from: int, open: char, close: char, depth: nat)
    requires
        0 <= from,
    ensures
        close_index(s, from, open, close, depth) matches Some(j) ==> from <= j < s.len() && s[j]
            == close,
    decreases s.len() - from,
{
    if from < s.len() {
        if s[from] == open {
            lemma_close_index_bounds(s, from + 1, open, close, depth + 1);
        } else if s[from] == close {
            if depth > 0 {
                lemma_close_index_bounds(s, from + 1, open, close, (depth - 1) as nat);
            }
        } else {
            lemma_close_index_bounds(s, from + 1, open, close, depth);
        }
    }
}

/// The index of the closer that ends the bracketed stretch from `from` on.
pub fn find_close(v: &Vec<char>, from: usize, open: char, close: char) -> (r: Option<usize>)
    requires
        from <= v@.len(),
    ensures
        match r {
            Some(j) => close_index(v@, from as int, open, close, 0) == Some(j as int) && from <= j
                < v@.len(),
            None => close_index(v@, from as int, open, close, 0) is None,
        },
{
    let mut i: usize = from;
    let mut depth: usize = 0;
    while i < v.len()
        invariant
            from <= i <= v@.len(),
            depth <= i - from,
            close_index(v@, i as int, open, close, depth as nat) == close_index(
                v@,
                from as int,
                open,
                close,
                0,
            ),
        decreases v.len() - i,
    {
        let c = v[i];
        if c == open {
            depth += 1;
        } else if c == close {
            if depth == 0 {
                return Some(i);
            }
            depth -= 1;
        }
        i += 1;
    }
    None
}

} // verus!
