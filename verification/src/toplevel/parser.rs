//! The recognisers of the block parser, and the walk that tries them in turn.

use vstd::prelude::*;
use crate::text::{
    char_is_space, close_index, find_char, find_close, find_from, has_prefix_at, index_of,
    is_space, lemma_close_index_bounds, lemma_index_of_bounds, lemma_skip_space_bounds, skip_space,
    skip_space_from, slice_of, starts_with_at, to_chars, to_string, to_string_range, trim,
    trim_end_from, trim_start,
};
use crate::toplevel::parser_object::{
    after_line, after_skip, find_at, first_line, first_line_len, lemma_find_seq_bounds,
    lemma_first_line_bounds, trimmed_find_at, trimmed_find_in, ParseObject,
};
use crate::config::DEFAULT_FACTBOX_TITLE;
use crate::frontmatter::{
    escaped, frontmatter_model, header_end, header_text, split_frontmatter, yaml_entries,
};
use crate::reference::{parse_reference_chars, reference_of, ReferenceView};
use crate::text::{append_chars, char_is_letter, is_letter, trimmed};
use crate::toplevel::list_parser::{lemma_list_run_len, list_at, parse_list, parse_usize, usize_of};
use crate::toplevel::structs::{blocks_view, lemma_fact_box_view};
use crate::toplevel::structs::{
    strings_view, BlockView, Image, ImageSize, ImageSizeView, ImageView, TopLevelSyntax,
};

verus! {

/// The marker that opens and closes a comment.
pub open spec fn comment_mark() -> Seq<char> {
    seq!['%', '%']
}

fn comment_mark_chars() -> (r: Vec<char>)
    ensures
        r@ == comment_mark(),
{
    vec!['%', '%']
}

/// The number of characters that the comment at the start of `s` takes, if
/// one starts there: the current line, once its leading white space is
/// dropped, starts with the marker, and the marker comes again later in the
/// line or, failing that, later in the text.
pub open spec fn comment_len(s: Seq<char>) -> Option<int> {
    let line = first_line(s);
    if has_prefix_at(trim_start(line), comment_mark(), 0) {
        match trimmed_find_at(line, comment_mark(), 2) {
            Some(i) => Some(i + 2),
            None => match trimmed_find_at(s, comment_mark(), 2) {
                Some(i) => Some(i + 2),
                None => None,
            },
        }
    } else {
        None
    }
}

/// Drops the comment at the start of the text, if one starts there.
pub fn skip_comment(object: &mut ParseObject) -> (r: bool)
    ensures
        match comment_len(old(object).text@) {
            Some(n) => r && final(object).text@ == after_skip(old(object).text@, n),
            None => !r && final(object).text@ == old(object).text@,
        },
        final(object).is_eating == old(object).is_eating,
        final(object).paragraph_buffer == old(object).paragraph_buffer,
        final(object).syntax == old(object).syntax,
{
    let mark = comment_mark_chars();
    let n: usize = object.text.len();
    let line = object.current_chars();
    let lead = skip_space_from(&line, 0, line.len());
    assert(line@.subrange(0, line@.len() as int) == line@);
    proof {
        let t = trim_start(line@);
        if lead + 2 <= line@.len() {
            assert(t.subrange(0, 2) == line@.subrange(lead as int, lead + 2));
        }
    }
    if starts_with_at(&line, &mark, lead) {
        if let Some(index) = trimmed_find_in(&line, &mark, 2) {
            object.skip(index + 2);
            return true;
        }
        if let Some(index) = trimmed_find_in(&object.text, &mark, 2) {
            object.skip(index + 2);
            return true;
        }
    }
    false
}

/// What a line of a quote holds: the line without its `>` and without one
/// space behind it.
pub open spec fn quote_item(line: Seq<char>) -> Seq<char> {
    if line.len() >= 2 && line[1] == ' ' {
        line.skip(2)
    } else {
        line.skip(1)
    }
}

/// Reads the lines of a quote: contiguous lines that start with `>`.
pub open spec fn quote_run(s: Seq<char>, acc: Seq<Seq<char>>) -> (Seq<Seq<char>>, Seq<char>)
    decreases s.len(),
{
    let line = first_line(s);
    if s.len() > 0 && line.len() > 0 && line[0] == '>' {
        proof {
            lemma_first_line_bounds(s);
        }
        quote_run(after_line(s), acc.push(quote_item(line)))
    } else {
        (acc, s)
    }
}

/// The quote that starts at the current line, if one starts there, and the
/// text behind it.
pub open spec fn quote_at(s: Seq<char>) -> Option<(Seq<Seq<char>>, Seq<char>)> {
    let line = first_line(s);
    if line.len() > 0 && line[0] == '>' {
        Some(quote_run(s, Seq::empty()))
    } else {
        None
    }
}

/// Recognises a quote at the current line and takes its lines from the text.
pub fn parse_quote(object: &mut ParseObject) -> (r: Option<TopLevelSyntax>)
    ensures
        match quote_at(old(object).text@) {
            Some((lines, rest)) => r matches Some(b) && b@ == BlockView::Quote(lines)
                && final(object).text@ == rest,
            None => r is None && final(object).text@ == old(object).text@,
        },
        final(object).is_eating == old(object).is_eating,
        final(object).paragraph_buffer == old(object).paragraph_buffer,
        final(object).syntax == old(object).syntax,
{
    let ghost start = object.text@;
    let mut list: Vec<String> = Vec::new();
    let mut found: bool = false;
    assert(strings_view(list@) =~= Seq::empty());
    loop
        invariant
            quote_run(object.text@, strings_view(list@)) == quote_run(start, Seq::empty()),
            !found ==> object.text@ == start,
            found ==> quote_at(start) is Some,
            object.is_eating == old(object).is_eating,
            object.paragraph_buffer == old(object).paragraph_buffer,
            object.syntax == old(object).syntax,
        ensures
            quote_run(object.text@, strings_view(list@)) == (strings_view(list@), object.text@),
            !found ==> quote_at(start) is None,
        decreases object.text@.len(),
    {
        let line = object.current_chars();
        if !(object.text.len() > 0 && line.len() > 0 && line[0] == '>') {
            break ;
        }
        let from: usize = if line.len() >= 2 && line[1] == ' ' {
            2
        } else {
            1
        };
        let item = to_string_range(&line, from, line.len());
        proof {
            assert(strings_view(list@.push(item)) =~= strings_view(list@).push(item@));
            lemma_first_line_bounds(object.text@);
        }
        list.push(item);
        object.next();
        found = true;
    }
    if !found {
        return None;
    }
    Some(TopLevelSyntax::Quote(list))
}

/// Three dashes.
pub open spec fn dashes() -> Seq<char> {
    seq!['-', '-', '-']
}

/// Whether a line is a page break: without the white space around it, it
/// holds three dashes or more and nothing else.
pub open spec fn is_page_break(line: Seq<char>) -> bool {
    trim(line).len() >= 3 && forall|i: int|
        0 <= i < trim(line).len() ==> #[trigger] trim(line)[i] == '-'
}

/// Recognises a page break at the current line. The text stays as it is.
pub fn parse_pagebreak(object: &mut ParseObject) -> (r: Option<TopLevelSyntax>)
    ensures
        is_page_break(first_line(old(object).text@)) ==> (r matches Some(b) && b@
            == BlockView::PageBreak),
        !is_page_break(first_line(old(object).text@)) ==> r is None,
        *final(object) == *old(object),
{
    let line = trimmed(&object.current_chars());
    if line.len() < 3 {
        return None;
    }
    let mut i: usize = 0;
    while i < line.len()
        invariant
            i <= line@.len(),
            line@ == trim(first_line(old(object).text@)),
            forall|j: int| 0 <= j < i ==> #[trigger] line@[j] == '-',
        decreases line.len() - i,
    {
        if line[i] != '-' {
            return None;
        }
        i += 1;
    }
    Some(TopLevelSyntax::PageBreak)
}

/// The fence of a code block.
pub open spec fn fence() -> Seq<char> {
    seq!['`', '`', '`']
}

/// The code block that starts at the current line, if one starts there, and
/// the text behind it: the line starts with a fence, and the block runs from
/// behind that fence to the end of the next fence.
pub open spec fn code_block_at(s: Seq<char>) -> Option<(Seq<char>, Seq<char>)> {
    if has_prefix_at(first_line(s), fence(), 0) {
        match find_at(s, fence(), 3) {
            Some(last) => Some((s.subrange(3, last + 3), s.skip(last + 3))),
            None => None,
        }
    } else {
        None
    }
}

/// Recognises a code block at the current line and takes it from the text.
pub fn parse_codeblock(object: &mut ParseObject) -> (r: Option<TopLevelSyntax>)
    ensures
        match code_block_at(old(object).text@) {
            Some((block, rest)) => r matches Some(b) && b@ == BlockView::CodeBlock(block)
                && final(object).text@ == rest,
            None => r is None && final(object).text@ == old(object).text@,
        },
        final(object).is_eating == old(object).is_eating,
        final(object).paragraph_buffer == old(object).paragraph_buffer,
        final(object).syntax == old(object).syntax,
{
    let mark: Vec<char> = vec!['`', '`', '`'];
    let line = object.current_chars();
    if !starts_with_at(&line, &mark, 0) {
        return None;
    }
    if 3 >= object.text.len() {
        return None;
    }
    proof {
        lemma_find_seq_bounds(object.text@, mark@, 3);
    }
    let last = match find_from(&object.text, &mark, 3) {
        Some(i) => i,
        None => {
            return None;
        },
    };
    let block = to_string_range(&object.text, 3, last + 3);
    let ghost before = object.text@;
    object.skip(last + 3);
    Some(TopLevelSyntax::CodeBlock(block))
}

/// A character that may stand between the words of a keyword: a dash, a
/// dot or white space.
pub open spec fn is_delimiter(c: char) -> bool {
    c == '-' || c == '.' || is_space(c)
}

fn char_is_delimiter(c: char) -> (b: bool)
    ensures
        b == is_delimiter(c),
{
    c == '-' || c == '.' || char_is_space(c)
}

/// The first delimiter of `s` at or after `from`.
pub open spec fn first_delimiter(s: Seq<char>, from: int) -> Option<char>
    decreases s.len() - from,
{
    if from < 0 || from >= s.len() {
        None
    } else if is_delimiter(s[from]) {
        Some(s[from])
    } else {
        first_delimiter(s, from + 1)
    }
}

fn first_delimiter_in(v: &Vec<char>) -> (r: Option<char>)
    ensures
        r == first_delimiter(v@, 0),
{
    let mut i: usize = 0;
    while i < v.len()
        invariant
            i <= v@.len(),
            first_delimiter(v@, i as int) == first_delimiter(v@, 0),
        decreases v.len() - i,
    {
        if char_is_delimiter(v[i]) {
            return Some(v[i]);
        }
        i += 1;
    }
    None
}

/// The first dash, dot or white space character of `text`.
pub fn string_has_delimeter(text: &str) -> (r: Option<char>)
    ensures
        r == first_delimiter(text@, 0),
{
    let v = to_chars(text);
    first_delimiter_in(&v)
}

/// The first index at or after `from` that holds no delimiter, or the length.
pub open spec fn skip_delimiters(s: Seq<char>, from: int) -> int
    decreases s.len() - from,
{
    if 0 <= from < s.len() && is_delimiter(s[from]) {
        skip_delimiters(s, from + 1)
    } else {
        from
    }
}

/// `text` without the dashes, dots and white space at its start.
pub fn trim_delimeter_start(text: &str) -> (r: String)
    ensures
        r@ == text@.skip(skip_delimiters(text@, 0)),
{
    let v = to_chars(text);
    let mut i: usize = 0;
    while i < v.len() && char_is_delimiter(v[i])
        invariant
            i <= v@.len(),
            skip_delimiters(v@, i as int) == skip_delimiters(v@, 0),
        decreases v.len() - i,
    {
        i += 1;
    }
    let r = to_string_range(&v, i, v.len());
    r
}

/// Where the keyword `check`, read from index `c` on, ends in `text` when it
/// starts at index `t`. A character of the keyword that is its delimiter `d`
/// stands for one delimiter of any kind in the text, and all the delimiters
/// of one occurrence are the same character, `style` once one was read. Every
/// other character stands for itself.
pub open spec fn keyword_end(
    text: Seq<char>,
    t: int,
    check: Seq<char>,
    c: int,
    d: Option<char>,
    style: Option<char>,
) -> Option<int>
    decreases check.len() - c,
{
    if c < 0 || c >= check.len() {
        Some(t)
    } else if t < 0 || t >= text.len() {
        None
    } else if d == Some(check[c]) {
        if is_delimiter(text[t]) && (style is None || style == Some(text[t])) {
            keyword_end(text, t + 1, check, c + 1, d, Some(text[t]))
        } else {
            None
        }
    } else if text[t] == check[c] {
        keyword_end(text, t + 1, check, c + 1, d, style)
    } else {
        None
    }
}

/// The start of a tag.
pub open spec fn tag_open() -> Seq<char> {
    seq!['#', '[']
}

/// The index behind the tag `#[check]` with which `text` starts, if it starts
/// with it. White space may stand behind `#[` and before `]`.
pub open spec fn meta_end(text: Seq<char>, check: Seq<char>) -> Option<int> {
    if has_prefix_at(text, tag_open(), 0) {
        match keyword_end(text, skip_space(text, 2), check, 0, first_delimiter(check, 0), None) {
            Some(t) => {
                let close = skip_space(text, t);
                if 0 <= close < text.len() && text[close] == ']' {
                    Some(close + 1)
                } else {
                    None
                }
            },
            None => None,
        }
    } else {
        None
    }
}

fn meta_end_in(text: &Vec<char>, check: &Vec<char>) -> (r: Option<usize>)
    ensures
        match meta_end(text@, check@) {
            Some(n) => r == Some(n as usize) && 0 < n <= text@.len(),
            None => r is None,
        },
{
    let open: Vec<char> = vec!['#', '['];
    if !starts_with_at(text, &open, 0) {
        return None;
    }
    let n: usize = text.len();
    assert(text@.subrange(0, n as int) == text@);
    let d = first_delimiter_in(check);
    let mut t: usize = skip_space_from(text, 2, n);
    let mut c: usize = 0;
    let mut style: Option<char> = None;
    let ghost start = t;
    while c < check.len()
        invariant
            c <= check@.len(),
            t <= n == text@.len(),
            has_prefix_at(text@, tag_open(), 0),
            start == skip_space(text@, 2),
            d == first_delimiter(check@, 0),
            keyword_end(text@, t as int, check@, c as int, d, style) == keyword_end(
                text@,
                start as int,
                check@,
                0,
                d,
                None,
            ),
        decreases check.len() - c,
    {
        if t >= n {
            return None;
        }
        let x = text[t];
        let k = check[c];
        let is_gap = match d {
            Some(dc) => dc == k,
            None => false,
        };
        if is_gap {
            let same = match style {
                Some(sc) => sc == x,
                None => true,
            };
            if !(char_is_delimiter(x) && same) {
                return None;
            }
            style = Some(x);
        } else if x != k {
            return None;
        }
        t += 1;
        c += 1;
    }
    let close = skip_space_from(text, t, n);
    if close < n && text[close] == ']' {
        Some(close + 1)
    } else {
        None
    }
}

/// The index behind the tag `#[check]` with which `text` starts, if it starts
/// with it.
pub fn is_meta(text: &str, check: &str) -> (r: Option<usize>)
    ensures
        match meta_end(text@, check@) {
            Some(n) => r == Some(n as usize),
            None => r is None,
        },
{
    let t = to_chars(text);
    let c = to_chars(check);
    meta_end_in(&t, &c)
}

/// The title of the table of contents that a line asks for, if it asks for
/// one: what stands behind the tag, without leading white space.
pub open spec fn toc_at(line: Seq<char>) -> Option<Seq<char>> {
    match meta_end(line, "toc"@) {
        Some(n) => Some(trim_start(line.skip(n))),
        None => match meta_end(line, "table-of-content"@) {
            Some(n) => Some(trim_start(line.skip(n))),
            None => match meta_end(line, "table-of-contents"@) {
                Some(n) => Some(trim_start(line.skip(n))),
                None => None,
            },
        },
    }
}

fn rest_trimmed(line: &Vec<char>, n: usize) -> (r: String)
    requires
        n <= line@.len(),
    ensures
        r@ == trim_start(line@.skip(n as int)),
{
    let rest = slice_of(line, n, line.len());
    let a = skip_space_from(&rest, 0, rest.len());
    assert(rest@.subrange(0, rest@.len() as int) == rest@);
    let r = to_string_range(&rest, a, rest.len());
    r
}

/// Recognises the marker of the table of contents at the current line. The
/// text stays as it is.
pub fn parse_table_of_contents(object: &mut ParseObject) -> (r: Option<TopLevelSyntax>)
    ensures
        match toc_at(first_line(old(object).text@)) {
            Some(title) => r matches Some(b) && b@ == BlockView::TOC(title),
            None => r is None,
        },
        *final(object) == *old(object),
{
    let line = object.current_chars();
    let short = to_chars("toc");
    if let Some(n) = meta_end_in(&line, &short) {
        return Some(TopLevelSyntax::TOC(rest_trimmed(&line, n)));
    }
    let single = to_chars("table-of-content");
    if let Some(n) = meta_end_in(&line, &single) {
        return Some(TopLevelSyntax::TOC(rest_trimmed(&line, n)));
    }
    let plural = to_chars("table-of-contents");
    if let Some(n) = meta_end_in(&line, &plural) {
        return Some(TopLevelSyntax::TOC(rest_trimmed(&line, n)));
    }
    None
}

/// The first index at or after `from` that does not hold `c`, or the length.
pub open spec fn skip_char(s: Seq<char>, c: char, from: int) -> int
    decreases s.len() - from,
{
    if 0 <= from < s.len() && s[from] == c {
        skip_char(s, c, from + 1)
    } else {
        from
    }
}

/// The heading that a line holds, if it starts with `#`: its text, without
/// the hashes and the white space behind them, and its level, the number of
/// hashes.
pub open spec fn heading_at(line: Seq<char>) -> Option<(Seq<char>, int)> {
    if line.len() > 0 && line[0] == '#' {
        let n = skip_char(line, '#', 0);
        Some((trim_start(line.skip(n)), n))
    } else {
        None
    }
}

/// Recognises a heading at the current line. The text stays as it is.
pub fn parse_heading(object: &mut ParseObject) -> (r: Option<TopLevelSyntax>)
    ensures
        match heading_at(first_line(old(object).text@)) {
            Some((text, level)) => r matches Some(b) && b@ == BlockView::Heading(
                text,
                level as usize,
            ) && 0 < level <= usize::MAX,
            None => r is None,
        },
        *final(object) == *old(object),
{
    let line = object.current_chars();
    if !(line.len() > 0 && line[0] == '#') {
        return None;
    }
    let mut counter: usize = 0;
    while counter < line.len() && line[counter] == '#'
        invariant
            counter <= line@.len(),
            skip_char(line@, '#', counter as int) == skip_char(line@, '#', 0),
        decreases line.len() - counter,
    {
        counter += 1;
    }
    Some(TopLevelSyntax::Heading(rest_trimmed(&line, counter), counter))
}

/// The end of the id of a note that starts at index `from`: the first `]`
/// that no backslash inside the id stands right before; the length where
/// there is none.
pub open spec fn note_id_end(line: Seq<char>, start: int, from: int) -> int
    decreases line.len() - from,
{
    if from < 0 || from >= line.len() {
        line.len() as int
    } else if line[from] == ']' && !(from > start && line[from - 1] == '\\') {
        from
    } else {
        note_id_end(line, start, from + 1)
    }
}

/// The note that a line defines, if it has the form `[^id]: text`: the id and
/// the text, both without surrounding white space. The id must not be empty.
pub open spec fn note_at(line: Seq<char>) -> Option<(Seq<char>, Seq<char>)> {
    let caret = skip_space(line, 1);
    let start = caret + 1;
    let end = note_id_end(line, start, start);
    if line.len() > 0 && line[0] == '[' && caret < line.len() && line[caret] == '^' && end + 1
        < line.len() && line[end + 1] == ':' && trim(line.subrange(start, end)).len() > 0 {
        Some((trim(line.subrange(start, end)), trim(line.skip(end + 2))))
    } else {
        None
    }
}

fn trimmed_range(v: &Vec<char>, from: usize, to: usize) -> (r: String)
    requires
        from <= to <= v@.len(),
    ensures
        r@ == trim(v@.subrange(from as int, to as int)),
{
    let part = slice_of(v, from, to);
    let a = skip_space_from(&part, 0, part.len());
    assert(part@.subrange(0, part@.len() as int) == part@);
    let b = trim_end_from(&part, a, part.len());
    to_string_range(&part, a, b)
}

/// Recognises the definition of a note at the current line. The text stays
/// as it is.
pub fn parse_note(object: &mut ParseObject) -> (r: Option<TopLevelSyntax>)
    ensures
        match note_at(first_line(old(object).text@)) {
            Some((id, text)) => r matches Some(b) && b@ == (BlockView::NoteDefinition { id, text }),
            None => r is None,
        },
        *final(object) == *old(object),
{
    let line = object.current_chars();
    let n: usize = line.len();
    assert(line@.subrange(0, n as int) == line@);
    if !(n > 0 && line[0] == '[') {
        return None;
    }
    let caret = skip_space_from(&line, 1, n);
    if !(caret < n && line[caret] == '^') {
        return None;
    }
    let start: usize = caret + 1;
    let end = note_id_end_in(&line, start);
    if !(end < n && end + 1 < n && line[end + 1] == ':') {
        return None;
    }
    let id = trimmed_range(&line, start, end);
    if id.as_str().unicode_len() == 0 {
        return None;
    }
    let text = trimmed_range(&line, end + 2, n);
    Some(TopLevelSyntax::NoteDefinition { id, text })
}

fn note_id_end_in(line: &Vec<char>, start: usize) -> (end: usize)
    requires
        start <= line@.len(),
    ensures
        end == note_id_end(line@, start as int, start as int),
        start <= end <= line@.len(),
{
    let n: usize = line.len();
    let mut end: usize = start;
    while end < n
        invariant
            start <= end <= n == line@.len(),
            note_id_end(line@, start as int, end as int) == note_id_end(
                line@,
                start as int,
                start as int,
            ),
        decreases n - end,
    {
        if line[end] == ']' && !(end > start && line[end - 1] == '\\') {
            return end;
        }
        end += 1;
    }
    end
}

/// The index of the closer that ends the stretch with which `text` starts:
/// the first closing delimiter that no opening delimiter before it calls for.
pub fn find_end_balanced(text: &str, delimiters: (char, char)) -> (r: Option<usize>)
    ensures
        match close_index(text@, 0, delimiters.0, delimiters.1, 0) {
            Some(j) => r == Some(j as usize) && 0 <= j < text@.len(),
            None => r is None,
        },
{
    let v = to_chars(text);
    find_close(&v, 0, delimiters.0, delimiters.1)
}

/// The last index below `end` that holds `c`; `-1` where there is none.
pub open spec fn last_index_of(s: Seq<char>, c: char, end: int) -> int
    decreases end,
{
    if end <= 0 || end > s.len() {
        -1
    } else if s[end - 1] == c {
        end - 1
    } else {
        last_index_of(s, c, end - 1)
    }
}

fn find_last(v: &Vec<char>, c: char) -> (r: Option<usize>)
    ensures
        match r {
            Some(i) => i == last_index_of(v@, c, v@.len() as int) && i < v@.len(),
            None => last_index_of(v@, c, v@.len() as int) == -1,
        },
{
    let mut end: usize = v.len();
    while end > 0
        invariant
            end <= v@.len(),
            last_index_of(v@, c, end as int) == last_index_of(v@, c, v@.len() as int),
        decreases end,
    {
        if v[end - 1] == c {
            return Some(end - 1);
        }
        end -= 1;
    }
    None
}

/// The size that a size text asks for: a width and a height around an `x`,
/// a width where the text is a number, and none otherwise.
pub open spec fn size_at(t: Seq<char>) -> ImageSizeView {
    let x = index_of(t, 'x', 0);
    if x < t.len() {
        ImageSizeView::Double(t.take(x), t.subrange(x + 1, index_of(t, 'x', x + 1)))
    } else if usize_of(t) is Some {
        ImageSizeView::Single(t)
    } else {
        ImageSizeView::Unset
    }
}

fn size_in(t: &Vec<char>) -> (r: ImageSize)
    ensures
        r@ == size_at(t@),
{
    let x = find_char(t, 'x', 0);
    if x < t.len() {
        let y = find_char(t, 'x', x + 1);
        let w = to_string_range(t, 0, x);
        let h = to_string_range(t, x + 1, y);
        ImageSize::from_width_and_height(Some(w), Some(h))
    } else if parse_usize(t).is_some() {
        ImageSize::from_width_and_height(Some(to_string(t)), None)
    } else {
        ImageSize::from_width_and_height(None, None)
    }
}

/// The image that a target and an alternative text make: the target is the
/// path, or the path and a size with a `|` between them.
pub open spec fn image_of(target: Seq<char>, alt: Seq<char>) -> ImageView {
    let bar = index_of(target, '|', 0);
    if bar >= target.len() {
        ImageView { image: target, alt, size: ImageSizeView::Unset }
    } else {
        ImageView {
            image: target.take(bar),
            alt,
            size: size_at(target.skip(last_index_of(target, '|', target.len() as int) + 1)),
        }
    }
}

fn image_in(target: &Vec<char>, alt: String) -> (r: Image)
    ensures
        r@ == image_of(target@, alt@),
{
    let bar = find_char(target, '|', 0);
    if bar >= target.len() {
        return Image::new_with_alt(to_string(target), alt);
    }
    let last = match find_last(target, '|') {
        Some(i) => i,
        None => {
            proof {
                lemma_index_of_bounds(target@, '|', 0);
                lemma_last_index_finds(target@, '|', bar as int, target@.len() as int);
            }
            bar
        },
    };
    let size_text = slice_of(target, last + 1, target.len());
    let size = size_in(&size_text);
    let path = to_string_range(target, 0, bar);
    Image::new_with_alt_and_size(path, alt, size)
}

proof fn lemma_last_index_finds(s: Seq<char>, c: char, i: int, end: int)
    requires
        0 <= i < end <= s.len(),
        s[i] == c,
    ensures
        last_index_of(s, c, end) >= i,
    decreases end,
{
    if s[end - 1] != c {
        lemma_last_index_finds(s, c, i, end - 1);
    }
}

/// The start of an image.
pub open spec fn embed_open() -> Seq<char> {
    seq!['[', '[']
}

/// The start of an image, with the exclamation mark.
pub open spec fn embed_open_bang() -> Seq<char> {
    seq!['!', '[', '[']
}

/// The image that starts at the current line, if one starts there, and the
/// number of characters that it takes from the text before the rest of its
/// last line is dropped.
///
/// The line starts with `[[` or `![[`; the target runs up to the first `]`
/// of the line. What follows is the alternative text, up to the closing
/// bracket that balances it, which may stand on a later line. Nothing, or a
/// closing bracket right away, is no alternative text.
pub open spec fn embed_at(s: Seq<char>) -> Option<(ImageView, int)> {
    let line = first_line(s);
    let count: int = if has_prefix_at(line, embed_open_bang(), 0) {
        3
    } else if has_prefix_at(line, embed_open(), 0) {
        2
    } else {
        0
    };
    let end = index_of(line, ']', count);
    if count == 0 || end >= line.len() {
        None
    } else {
        let target = line.subrange(count, end);
        let a = skip_space(line, end + 1);
        if a >= line.len() || line[a] == ']' {
            Some((image_of(target, Seq::empty()), 0))
        } else {
            match close_index(s, a, '[', ']', 0) {
                Some(j) => Some((image_of(target, s.subrange(a, j)), j)),
                None => None,
            }
        }
    }
}

/// Recognises an image at the current line and takes its alternative text
/// from the text.
pub fn parse_embedding(object: &mut ParseObject) -> (r: Option<TopLevelSyntax>)
    ensures
        match embed_at(old(object).text@) {
            Some((image, n)) => r matches Some(b) && b@ == BlockView::Image(image)
                && final(object).text@ == after_skip(old(object).text@, n),
            None => r is None && final(object).text@ == old(object).text@,
        },
        final(object).is_eating == old(object).is_eating,
        final(object).paragraph_buffer == old(object).paragraph_buffer,
        final(object).syntax == old(object).syntax,
{
    let line = object.current_chars();
    let n: usize = line.len();
    let total: usize = object.text.len();
    proof {
        lemma_first_line_bounds(object.text@);
        assert(line@.subrange(0, n as int) == line@);
    }
    let bang: Vec<char> = vec!['!', '[', '['];
    let plain: Vec<char> = vec!['[', '['];
    let count: usize = if starts_with_at(&line, &bang, 0) {
        3
    } else if starts_with_at(&line, &plain, 0) {
        2
    } else {
        return None;
    };
    let end = find_char(&line, ']', count);
    if end >= n {
        return None;
    }
    let target = slice_of(&line, count, end);
    let a = skip_space_from(&line, end + 1, n);
    if a >= n || line[a] == ']' {
        let image = image_in(&target, String::new());
        return Some(TopLevelSyntax::Image(image));
    }
    let j = match find_close(&object.text, a, '[', ']') {
        Some(j) => j,
        None => {
            return None;
        },
    };
    let alt = to_string_range(&object.text, a, j);
    let image = image_in(&target, alt);
    object.skip(j);
    Some(TopLevelSyntax::Image(image))
}

/// The record that starts at the current line, if one starts there, and the
/// number of characters that it takes from the text before the rest of its
/// last line is dropped: the line starts with the sigil and then a letter or
/// a dash, and the text up to its first `}` is a record.
pub open spec fn citation_at(s: Seq<char>) -> Option<(ReferenceView, int)> {
    let line = first_line(s);
    let end = index_of(s, '}', 0);
    if line.len() >= 2 && line[0] == '£' && (is_letter(line[1]) || line[1] == '-') && end
        < s.len() {
        match reference_of(s.take(end + 1)) {
            Ok(r) => Some((r, end)),
            Err(_) => None,
        }
    } else {
        None
    }
}

/// Recognises the definition of a reference at the current line and takes
/// its record from the text.
pub fn parse_citation(object: &mut ParseObject) -> (r: Option<TopLevelSyntax>)
    ensures
        match citation_at(old(object).text@) {
            Some((reference, n)) => r matches Some(b) && b@ == BlockView::ReferenceDefinition(
                reference,
            ) && final(object).text@ == after_skip(old(object).text@, n),
            None => r is None && final(object).text@ == old(object).text@,
        },
        final(object).is_eating == old(object).is_eating,
        final(object).paragraph_buffer == old(object).paragraph_buffer,
        final(object).syntax == old(object).syntax,
{
    let line = object.current_chars();
    let n: usize = object.text.len();
    if !(line.len() >= 2 && line[0] == '£' && (char_is_letter(line[1]) || line[1] == '-')) {
        return None;
    }
    let end = find_char(&object.text, '}', 0);
    if end >= n {
        return None;
    }
    let record = slice_of(&object.text, 0, end + 1);
    match parse_reference_chars(&record) {
        Ok(reference) => {
            object.skip(end);
            Some(TopLevelSyntax::ReferenceDefinition(reference))
        },
        Err(_) => None,
    }
}

/// The end of the line that starts at `from`, without the carriage return
/// that may stand before its line feed.
pub open spec fn line_stop(s: Seq<char>, from: int) -> int {
    let end = index_of(s, '\n', from);
    if from < end < s.len() && s[end - 1] == '\r' {
        end - 1
    } else {
        end
    }
}

/// The lines of `s` from index `from` on, each without its leading white
/// space and with a line feed behind it.
pub open spec fn dedented(s: Seq<char>, from: int) -> Seq<char>
    decreases s.len() - from + 1,
{
    if from < 0 || from >= s.len() {
        Seq::empty()
    } else {
        proof {
            lemma_index_of_bounds(s, '\n', from);
        }
        trim_start(s.subrange(from, line_stop(s, from))).push('\n') + dedented(
            s,
            index_of(s, '\n', from) + 1,
        )
    }
}

/// The dedented lines are no longer than the text they come from, but for the
/// line feed that a last line without one gets.
pub proof fn lemma_dedented_len(s: Seq<char>, from: int)
    requires
        0 <= from,
    ensures
        from <= s.len() ==> dedented(s, from).len() <= s.len() - from + 1,
        from >= s.len() ==> dedented(s, from).len() == 0,
    decreases s.len() - from + 1,
{
    if from < s.len() {
        lemma_index_of_bounds(s, '\n', from);
        let end = index_of(s, '\n', from);
        let line = s.subrange(from, line_stop(s, from));
        lemma_skip_space_bounds(line, 0);
        lemma_dedented_len(s, end + 1);
    }
}

fn dedent(v: &Vec<char>, from: usize) -> (r: Vec<char>)
    ensures
        r@ == dedented(v@, from as int),
{
    let n: usize = v.len();
    let mut out: Vec<char> = Vec::new();
    let mut at: usize = from;
    while at < n
        invariant
            n == v@.len(),
            out@ + dedented(v@, at as int) == dedented(v@, from as int),
        decreases n - at,
    {
        let end = find_char(v, '\n', at);
        let stop: usize = if at < end && end < n && v[end - 1] == '\r' {
            end - 1
        } else {
            end
        };
        let line = slice_of(v, at, stop);
        let lead = skip_space_from(&line, 0, line.len());
        assert(line@.subrange(0, line@.len() as int) == line@);
        let kept = slice_of(&line, lead, line.len());
        let ghost before = out@;
        append_chars(&mut out, &kept);
        out.push('\n');
        let next: usize = if end < n {
            end + 1
        } else {
            n
        };
        proof {
            assert(out@ + dedented(v@, next as int) == before + (trim_start(line@).push('\n')
                + dedented(v@, end + 1)));
        }
        at = next;
    }
    out
}

/// The short start of a fact box.
pub open spec fn fact_open() -> Seq<char> {
    seq!['[', '[', 'f', 'a', 'c', 't', ']']
}

/// The long start of a fact box.
pub open spec fn factbox_open() -> Seq<char> {
    seq!['[', '[', 'f', 'a', 'c', 't', 'b', 'o', 'x', ']']
}

/// The parts of a fact box that starts at the current line.
pub struct FactBoxParts {
    /// The title: the first line of the box, or the default title where that
    /// line holds white space alone.
    pub title: Seq<char>,
    /// The text of the body: the lines behind the first, dedented.
    pub body: Seq<char>,
    /// The index of the bracket that closes the box.
    pub close: int,
}

/// The fact box that starts at the current line, if one starts there: the
/// line starts with `[[fact]` or `[[factbox]`, and the bracket that closes
/// the box balances the brackets behind that.
pub open spec fn factbox_at(s: Seq<char>) -> Option<FactBoxParts> {
    let line = first_line(s);
    let len: int = if has_prefix_at(line, fact_open(), 0) {
        7
    } else if has_prefix_at(line, factbox_open(), 0) {
        10
    } else {
        0
    };
    if len == 0 {
        None
    } else {
        match close_index(s, len, '[', ']', 0) {
            None => None,
            Some(close) => {
                let inner = s.subrange(len, close);
                let first = inner.take(line_stop(inner, 0));
                Some(
                    FactBoxParts {
                        title: if trim(first).len() > 0 {
                            first
                        } else {
                            DEFAULT_FACTBOX_TITLE@
                        },
                        body: dedented(inner, index_of(inner, '\n', 0) + 1),
                        close,
                    },
                )
            },
        }
    }
}

/// The body of a fact box is shorter than the text that the box stands in.
pub proof fn lemma_factbox_body_len(s: Seq<char>)
    ensures
        factbox_at(s) matches Some(parts) ==> parts.body.len() < s.len() && 0 <= parts.close
            < s.len(),
{
    let line = first_line(s);
    let len: int = if has_prefix_at(line, fact_open(), 0) {
        7
    } else if has_prefix_at(line, factbox_open(), 0) {
        10
    } else {
        0
    };
    if len > 0 {
        lemma_close_index_bounds(s, len, '[', ']', 0);
        match close_index(s, len, '[', ']', 0) {
            Some(close) => {
                let inner = s.subrange(len, close);
                lemma_index_of_bounds(inner, '\n', 0);
                lemma_dedented_len(inner, index_of(inner, '\n', 0) + 1);
            },
            None => {},
        }
    }
}

/// Where the walk through a text stands: the text that is left, whether a
/// paragraph is being gathered and what it holds so far, and the blocks found.
pub struct WalkState {
    pub text: Seq<char>,
    pub is_eating: bool,
    pub buffer: Seq<char>,
    pub blocks: Seq<BlockView>,
}

/// The state once the paragraph that is being gathered has ended.
pub open spec fn ended(st: WalkState) -> WalkState {
    WalkState {
        text: st.text,
        is_eating: false,
        buffer: if st.is_eating {
            Seq::empty()
        } else {
            st.buffer
        },
        blocks: crate::toplevel::parser_object::consumed(st.is_eating, st.buffer, st.blocks),
    }
}

/// The blocks of a text: its header, where it has one that decodes, and then
/// what the walk through the rest finds. A paragraph that the end of the text
/// cuts off is a paragraph.
pub open spec fn blocks_of(text: Seq<char>) -> Seq<BlockView>
    decreases text.len(), 3int,
{
    let start = walk_start(text);
    if start.text.len() <= text.len() {
        walk(start)
    } else {
        start.blocks
    }
}

/// Where the walk through a text starts: behind its header, with the header
/// as the first block where it decodes.
pub open spec fn walk_start(text: Seq<char>) -> WalkState {
    match header_end(text) {
        None => WalkState { text, is_eating: false, buffer: Seq::empty(), blocks: Seq::empty() },
        Some(end) => WalkState {
            text: text.skip(end + 4),
            is_eating: false,
            buffer: Seq::empty(),
            blocks: match frontmatter_model(
                header_text(text, end),
                yaml_entries(escaped(header_text(text, end))),
            ) {
                Some(f) => seq![BlockView::FrontMatter(f)],
                None => Seq::empty(),
            },
        },
    }
}

/// Walks from `st` to the end of the text.
pub open spec fn walk(st: WalkState) -> Seq<BlockView>
    decreases st.text.len(), 2int,
{
    if st.text.len() == 0 {
        ended(st).blocks
    } else {
        let next = block_step(st);
        if next.text.len() < st.text.len() {
            walk(next)
        } else {
            ended(st).blocks
        }
    }
}

/// One step of the walk. An empty line ends the paragraph. A comment is
/// dropped. A block that is recognised ends the paragraph and joins the
/// blocks, and the rest of its last line is dropped. Any other line joins
/// the paragraph.
pub open spec fn block_step(st: WalkState) -> WalkState
    decreases st.text.len(), 1int,
{
    let s = st.text;
    if first_line_len(s) == 0 {
        let e = ended(st);
        WalkState { text: after_line(s), is_eating: false, buffer: e.buffer, blocks: e.blocks }
    } else if comment_len(s) is Some {
        WalkState {
            text: after_skip(s, comment_len(s)->0),
            is_eating: st.is_eating,
            buffer: st.buffer,
            blocks: st.blocks,
        }
    } else {
        match recognized(s) {
            Some((block, rest)) => {
                let e = ended(st);
                WalkState {
                    text: after_line(rest),
                    is_eating: false,
                    buffer: e.buffer,
                    blocks: e.blocks.push(block),
                }
            },
            None => WalkState {
                text: after_line(s),
                is_eating: true,
                buffer: (st.buffer + first_line(s)).push('\n'),
                blocks: st.blocks,
            },
        }
    }
}

/// The block that starts at the current line, if a recogniser finds one, and
/// the text behind it. The recognisers are tried in a fixed order: quote,
/// page break, list, code block, table of contents, heading, note, fact box,
/// image, reference.
pub open spec fn recognized(s: Seq<char>) -> Option<(BlockView, Seq<char>)>
    decreases s.len(), 0int,
{
    let line = first_line(s);
    match quote_at(s) {
        Some((lines, rest)) => Some((BlockView::Quote(lines), rest)),
        None => if is_page_break(line) {
            Some((BlockView::PageBreak, s))
        } else {
            match list_at(s) {
                Some((items, rest)) => Some((BlockView::List(items), rest)),
                None => match code_block_at(s) {
                    Some((block, rest)) => Some((BlockView::CodeBlock(block), rest)),
                    None => match toc_at(line) {
                        Some(title) => Some((BlockView::TOC(title), s)),
                        None => match heading_at(line) {
                            Some((text, level)) => Some(
                                (BlockView::Heading(text, level as usize), s),
                            ),
                            None => match note_at(line) {
                                Some((id, text)) => Some(
                                    (BlockView::NoteDefinition { id, text }, s),
                                ),
                                None => match factbox_at(s) {
                                    Some(parts) => {
                                        proof {
                                            lemma_factbox_body_len(s);
                                        }
                                        Some(
                                            (
                                                BlockView::FactBox {
                                                    title: parts.title,
                                                    body: blocks_of(parts.body),
                                                },
                                                after_skip(s, parts.close),
                                            ),
                                        )
                                    },
                                    None => match embed_at(s) {
                                        Some((image, n)) => Some(
                                            (BlockView::Image(image), after_skip(s, n)),
                                        ),
                                        None => match citation_at(s) {
                                            Some((reference, n)) => Some(
                                                (
                                                    BlockView::ReferenceDefinition(reference),
                                                    after_skip(s, n),
                                                ),
                                            ),
                                            None => None,
                                        },
                                    },
                                },
                            },
                        },
                    },
                },
            }
        },
    }
}

/// Reading a quote takes characters from the text and adds none.
pub proof fn lemma_quote_run_len(s: Seq<char>, acc: Seq<Seq<char>>)
    ensures
        quote_run(s, acc).1.len() <= s.len(),
    decreases s.len(),
{
    let line = first_line(s);
    if s.len() > 0 && line.len() > 0 && line[0] == '>' {
        lemma_first_line_bounds(s);
        lemma_quote_run_len(after_line(s), acc.push(quote_item(line)));
    }
}

/// What a recogniser leaves of the text is no longer than the text.
pub proof fn lemma_recognized_len(s: Seq<char>)
    ensures
        recognized(s) matches Some((block, rest)) ==> rest.len() <= s.len(),
{
    lemma_quote_run_len(s, Seq::empty());
    lemma_list_run_len(s, Seq::empty());
    lemma_factbox_body_len(s);
    lemma_find_seq_bounds(s, fence(), 3);
    lemma_index_of_bounds(s, '}', 0);
    let line = first_line(s);
    let count: int = if has_prefix_at(line, embed_open_bang(), 0) {
        3
    } else {
        2
    };
    let a = skip_space(line, index_of(line, ']', count) + 1);
    if count <= line.len() && index_of(line, ']', count) < line.len() {
        lemma_index_of_bounds(line, ']', count);
        lemma_skip_space_bounds(line, index_of(line, ']', count) + 1);
        lemma_close_index_bounds(s, a, '[', ']', 0);
    }
}

/// Every step of the walk takes at least one character from the text.
pub proof fn lemma_block_step_advances(st: WalkState)
    requires
        st.text.len() > 0,
    ensures
        block_step(st).text.len() < st.text.len(),
{
    let s = st.text;
    lemma_first_line_bounds(s);
    if first_line_len(s) != 0 {
        if comment_len(s) is Some {
            let line = first_line(s);
            lemma_skip_space_bounds(line, 0);
            lemma_skip_space_bounds(s, 0);
            lemma_find_seq_bounds(line, comment_mark(), skip_space(line, 0) + 2);
            lemma_find_seq_bounds(s, comment_mark(), skip_space(s, 0) + 2);
        } else {
            lemma_recognized_len(s);
            match recognized(s) {
                Some((block, rest)) => {
                    lemma_first_line_bounds(rest);
                },
                None => {},
            }
        }
    }
}

/// The state that the cursor holds.
pub open spec fn state_of(object: ParseObject) -> WalkState {
    WalkState {
        text: object.text@,
        is_eating: object.is_eating,
        buffer: object.paragraph_buffer@,
        blocks: object.blocks(),
    }
}

/// Recognises a fact box at the current line, takes it from the text up to
/// the bracket that closes it, and parses its body as a text of its own.
pub fn parse_factbox(object: &mut ParseObject) -> (r: Option<TopLevelSyntax>)
    ensures
        match factbox_at(old(object).text@) {
            Some(parts) => r matches Some(b) && b@ == (BlockView::FactBox {
                title: parts.title,
                body: blocks_of(parts.body),
            }) && final(object).text@ == after_skip(old(object).text@, parts.close),
            None => r is None && final(object).text@ == old(object).text@,
        },
        final(object).is_eating == old(object).is_eating,
        final(object).paragraph_buffer == old(object).paragraph_buffer,
        final(object).syntax == old(object).syntax,
    decreases old(object).text@.len(), 0int,
{
    let line = object.current_chars();
    let short: Vec<char> = vec!['[', '[', 'f', 'a', 'c', 't', ']'];
    let long: Vec<char> = vec!['[', '[', 'f', 'a', 'c', 't', 'b', 'o', 'x', ']'];
    let total: usize = object.text.len();
    proof {
        lemma_first_line_bounds(object.text@);
        lemma_factbox_body_len(object.text@);
    }
    let len: usize = if starts_with_at(&line, &short, 0) {
        7
    } else if starts_with_at(&line, &long, 0) {
        10
    } else {
        return None;
    };
    let close = match find_close(&object.text, len, '[', ']') {
        Some(j) => j,
        None => {
            return None;
        },
    };
    let inner = slice_of(&object.text, len, close);
    let end = find_char(&inner, '\n', 0);
    let stop: usize = if 0 < end && end < inner.len() && inner[end - 1] == '\r' {
        end - 1
    } else {
        end
    };
    let first = slice_of(&inner, 0, stop);
    let body_text = if end < inner.len() {
        dedent(&inner, end + 1)
    } else {
        Vec::new()
    };
    let lead = skip_space_from(&first, 0, first.len());
    assert(first@.subrange(0, first@.len() as int) == first@);
    let tail = trim_end_from(&first, lead, first.len());
    let title = if lead < tail {
        to_string(&first)
    } else {
        String::from_str(DEFAULT_FACTBOX_TITLE)
    };
    let (body, _) = toplevel_chars(&body_text);
    object.skip(close);
    proof {
        lemma_fact_box_view(title, body);
    }
    Some(TopLevelSyntax::FactBox { title, body })
}

fn recognize(object: &mut ParseObject) -> (r: Option<TopLevelSyntax>)
    ensures
        match recognized(old(object).text@) {
            Some((block, rest)) => r matches Some(b) && b@ == block && final(object).text@ == rest,
            None => r is None && final(object).text@ == old(object).text@,
        },
        final(object).is_eating == old(object).is_eating,
        final(object).paragraph_buffer == old(object).paragraph_buffer,
        final(object).syntax == old(object).syntax,
    decreases old(object).text@.len(), 1int,
{
    if let Some(elem) = parse_quote(object) {
        return Some(elem);
    }
    if let Some(elem) = parse_pagebreak(object) {
        return Some(elem);
    }
    if let Some(elem) = parse_list(object) {
        return Some(elem);
    }
    if let Some(elem) = parse_codeblock(object) {
        return Some(elem);
    }
    if let Some(elem) = parse_table_of_contents(object) {
        return Some(elem);
    }
    if let Some(elem) = parse_heading(object) {
        return Some(elem);
    }
    if let Some(elem) = parse_note(object) {
        return Some(elem);
    }
    if let Some(elem) = parse_factbox(object) {
        return Some(elem);
    }
    if let Some(elem) = parse_embedding(object) {
        return Some(elem);
    }
    if let Some(elem) = parse_citation(object) {
        return Some(elem);
    }
    None
}

/// The blocks of a text, and whether the text has a header that did not
/// decode.
pub fn toplevel_chars(v: &Vec<char>) -> (r: (Vec<TopLevelSyntax>, bool))
    ensures
        blocks_view(r.0@) == blocks_of(v@),
        r.1 == header_failed(v@),
    decreases v@.len(), 4int,
{
    let split = split_frontmatter(v);
    let rest = slice_of(v, split.rest, v.len());
    assert(v@.skip(0) == v@);
    let mut object = ParseObject::from_chars(rest);
    let failed = split.failed;
    if let Some(frontmatter) = split.frontmatter {
        object.push(TopLevelSyntax::FrontMatter(frontmatter));
    }
    let ghost start = state_of(object);
    assert(start == walk_start(v@)) by {
        assert(start.blocks =~= walk_start(v@).blocks);
        assert(start.buffer =~= walk_start(v@).buffer);
    }
    while object.has_text()
        invariant
            object.text@.len() <= v@.len(),
            !object.is_eating ==> object.paragraph_buffer@.len() == 0,
            walk(state_of(object)) == walk(start),
        decreases object.text@.len(),
    {
        let ghost st = state_of(object);
        proof {
            lemma_block_step_advances(st);
        }
        if object.current_len() == 0 {
            object.next();
            object.consume();
            assert(state_of(object) == block_step(st)) by {
                assert(object.paragraph_buffer@ =~= ended(st).buffer);
            }
            continue ;
        }
        if skip_comment(&mut object) {
            continue ;
        }
        if let Some(elem) = recognize(&mut object) {
            object.next();
            object.push(elem);
            assert(state_of(object) == block_step(st)) by {
                assert(object.paragraph_buffer@ =~= ended(st).buffer);
            }
            continue ;
        }
        object.eat_line();
    }
    let ghost last = state_of(object);
    object.consume();
    assert(object.blocks() == walk(last));
    (object.syntax, failed)
}

/// Whether the text has a header that did not decode.
pub open spec fn header_failed(text: Seq<char>) -> bool {
    match header_end(text) {
        None => false,
        Some(end) => frontmatter_model(
            header_text(text, end),
            yaml_entries(escaped(header_text(text, end))),
        ) is None,
    }
}

/// Finds the blocks of a document: its header and, line by line, the blocks
/// that the recognisers find, with the lines that no recogniser takes
/// gathered into paragraphs.
pub fn toplevel_parse(file_content: &String) -> (r: Result<Vec<TopLevelSyntax>, crate::error::ParseError>)
    ensures
        r matches Ok(blocks) && blocks_view(blocks@) == blocks_of(file_content@),
{
    let v = to_chars(file_content.as_str());
    let (blocks, _) = toplevel_chars(&v);
    Ok(blocks)
}

} // verus!
