//! The inline parser: one scan from left to right over the characters of a
//! line or paragraph, which yields a tree of span-level elements and a slug.

use vstd::prelude::*;
use crate::error::ParseError;
use crate::parser_util::{alt_bounds, cite_target, citation_of, gather_link, slug_chars, slug_or_empty};
use crate::structs::{
    elements_view, lemma_element_view, Alternative, AlternativeView, Element, ElementView, Span,
    SpanView,
};
use crate::text::{
    append_chars, close_index, find_char, find_close, index_of, lemma_close_index_bounds,
    lemma_index_of_bounds, slice_of, span, to_chars, to_string,
};

verus! {

/// Where a scan stands: the index of the next character, the elements made
/// so far, the plain text gathered since the last element, and the text from
/// which the slug will be made.
pub struct InlineState {
    pub pos: int,
    pub items: Seq<ElementView>,
    pub pending: Seq<char>,
    pub seed: Seq<char>,
}

/// The state once the gathered plain text has become a text element.
pub open spec fn flushed(st: InlineState) -> InlineState {
    if st.pending.len() > 0 {
        InlineState {
            pos: st.pos,
            items: st.items.push(ElementView::Text(st.pending)),
            pending: Seq::empty(),
            seed: st.seed,
        }
    } else {
        st
    }
}

/// A base and its alternative.
pub open spec fn pair_view(base: ElementView, alt: ElementView) -> AlternativeView {
    AlternativeView { base: Box::new(base), alt: Box::new(alt) }
}

/// Where a bold stretch that starts at `from` ends: at the first star that is
/// followed by a star while no single star is open and that no backslash
/// escapes, or at the end of the text. A backslash and the character behind
/// it are passed over together. `open` says whether a single star is open.
pub open spec fn bold_end(s: Seq<char>, from: int, open: bool) -> int
    decreases s.len() - from,
{
    if from < 0 || from >= s.len() {
        s.len() as int
    } else if s[from] == '\\' {
        if from + 1 < s.len() {
            bold_end(s, from + 2, open)
        } else {
            s.len() as int
        }
    } else if s[from] == '*' {
        if from + 1 < s.len() && s[from + 1] == '*' && !open {
            from
        } else {
            bold_end(s, from + 1, !open)
        }
    } else {
        bold_end(s, from + 1, open)
    }
}

/// A bold stretch ends inside the text, and where it is closed both closing
/// stars are inside the text.
pub proof fn lemma_bold_end_bounds(s: Seq<char>, from: int, open: bool)
    requires
        0 <= from <= s.len(),
    ensures
        from <= bold_end(s, from, open) <= s.len(),
        bold_end(s, from, open) < s.len() ==> bold_end(s, from, open) + 2 <= s.len(),
    decreases s.len() - from,
{
    if from < s.len() {
        if s[from] == '\\' {
            if from + 1 < s.len() {
                lemma_bold_end_bounds(s, from + 2, open);
            }
        } else if s[from] == '*' {
            if !(from + 1 < s.len() && s[from + 1] == '*' && !open) {
                lemma_bold_end_bounds(s, from + 1, !open);
            }
        } else {
            lemma_bold_end_bounds(s, from + 1, open);
        }
    }
}

/// What one construct contributes: the index behind it, its element (none
/// where a sigil stands without its bracket and is plain text), and what it
/// adds to the text from which the slug is made.
pub struct Piece {
    pub next: int,
    pub element: Option<ElementView>,
    pub seed: Seq<char>,
}

/// What a text parses to: its element and its slug, or why it does not parse.
///
/// No element stands for an empty span, one element for itself, several for
/// the span that holds them.
pub open spec fn inline_parse(s: Seq<char>) -> Result<(ElementView, Seq<char>), ParseError>
    decreases s.len(), s.len() + 4,
{
    match inline_run(s, initial_state()) {
        Err(e) => Err(e),
        Ok(st) => Ok(inline_result(st.items, st.seed)),
    }
}

/// The state before the first character.
pub open spec fn initial_state() -> InlineState {
    InlineState { pos: 0, items: Seq::empty(), pending: Seq::empty(), seed: Seq::empty() }
}

/// The element and the slug that the elements of a scan and its slug text
/// give.
pub open spec fn inline_result(items: Seq<ElementView>, seed: Seq<char>) -> (
    ElementView,
    Seq<char>,
) {
    if items.len() == 0 {
        (ElementView::Span(SpanView { elements: Seq::empty() }), Seq::empty())
    } else if items.len() == 1 {
        (items[0], slug_or_empty(seed))
    } else {
        (ElementView::Span(SpanView { elements: items }), slug_or_empty(seed))
    }
}

/// Runs the scan from `st` to the end of the text.
pub open spec fn inline_run(s: Seq<char>, st: InlineState) -> Result<InlineState, ParseError>
    decreases s.len(), s.len() - st.pos + 3,
{
    if st.pos < 0 || st.pos >= s.len() {
        Ok(flushed(st))
    } else {
        match inline_step(s, st) {
            Err(e) => Err(e),
            Ok(next) => if st.pos < next.pos <= s.len() {
                inline_run(s, next)
            } else {
                Ok(flushed(st))
            },
        }
    }
}

/// Whether a construct starts with this character.
pub open spec fn is_marker(c: char) -> bool {
    c == '%' || c == '£' || c == '[' || c == '`' || c == '*'
}

/// One step of the scan: what the character at `st.pos` and what follows it
/// add to the state.
pub open spec fn inline_step(s: Seq<char>, st: InlineState) -> Result<InlineState, ParseError>
    recommends
        0 <= st.pos < s.len(),
    decreases s.len(), 2int,
{
    let p = st.pos;
    let c = s[p];
    if c == '\\' {
        Ok(escape_step(s, st))
    } else if is_marker(c) {
        let f = flushed(st);
        match construct_at(s, p) {
            Err(e) => Err(e),
            Ok(piece) => Ok(
                match piece.element {
                    Some(e) => InlineState {
                        pos: piece.next,
                        items: f.items.push(e),
                        pending: Seq::empty(),
                        seed: f.seed + piece.seed,
                    },
                    None => InlineState {
                        pos: piece.next,
                        items: f.items,
                        pending: seq![c],
                        seed: f.seed + piece.seed,
                    },
                },
            ),
        }
    } else {
        Ok(
            InlineState {
                pos: p + 1,
                items: st.items,
                pending: st.pending.push(c),
                seed: st.seed.push(c),
            },
        )
    }
}

/// The construct that starts at the marker at index `p`.
pub open spec fn construct_at(s: Seq<char>, p: int) -> Result<Piece, ParseError>
    recommends
        0 <= p < s.len(),
        is_marker(s[p]),
    decreases s.len(), 1int,
{
    let c = s[p];
    if p < 0 || p >= s.len() {
        Ok(Piece { next: p + 1, element: None, seed: Seq::empty() })
    } else if c == '%' || c == '£' {
        sigil_at(s, p)
    } else if c == '[' {
        bracket_at(s, p)
    } else if c == '`' {
        code_at(s, p)
    } else {
        star_at(s, p)
    }
}

/// A hover `%[base](alt)` or a style `£{base}(alt)`: both parts are parsed
/// as inline text. A sigil without its bracket is plain text.
pub open spec fn sigil_at(s: Seq<char>, p: int) -> Result<Piece, ParseError>
    recommends
        0 <= p < s.len(),
    decreases s.len(), 0int,
{
    let c = s[p];
    let open = if c == '%' {
        '['
    } else {
        '{'
    };
    let close = if c == '%' {
        ']'
    } else {
        '}'
    };
    if p < 0 || p >= s.len() {
        Ok(Piece { next: p + 1, element: None, seed: Seq::empty() })
    } else if p + 1 < s.len() && s[p + 1] == open {
        match close_index(s, p + 2, open, close, 0) {
            None => Err(ParseError::MissingCloser(close)),
            Some(j) => match alt_bounds(s, j + 1) {
                Err(e) => Err(e),
                Ok((a, b, next)) => match inline_parse(span(s, p + 2, j)) {
                    Err(e) => Err(e),
                    Ok((base, base_slug)) => match inline_parse(span(s, a, b)) {
                        Err(e) => Err(e),
                        Ok((alt, alt_slug)) => if c == '%' {
                            Ok(
                                Piece {
                                    next,
                                    element: Some(ElementView::Hoverable(pair_view(base, alt))),
                                    seed: base_slug,
                                },
                            )
                        } else {
                            Ok(
                                Piece {
                                    next,
                                    element: Some(ElementView::Styled(pair_view(base, alt))),
                                    seed: seq![' '] + alt_slug + seq![' '],
                                },
                            )
                        },
                    },
                },
            },
        }
    } else {
        Ok(Piece { next: p + 1, element: None, seed: seq![c] })
    }
}

/// A bracketed text: a bare citation or note, or a link with the target that
/// follows in parentheses. A target that is itself a bare citation or note is
/// kept as that reference; any other is parsed as inline text.
pub open spec fn bracket_at(s: Seq<char>, p: int) -> Result<Piece, ParseError>
    recommends
        0 <= p < s.len(),
    decreases s.len(), 0int,
{
    if p < 0 || p >= s.len() {
        Ok(Piece { next: p + 1, element: None, seed: Seq::empty() })
    } else {
        match close_index(s, p + 1, '[', ']', 0) {
            None => Err(ParseError::MissingCloser(']')),
            Some(j) => match cite_target(span(s, p + 1, j)) {
                Some(target) => Ok(Piece { next: j + 1, element: Some(target), seed: Seq::empty() }),
                None => match alt_bounds(s, j + 1) {
                    Err(e) => Err(e),
                    Ok((a, b, next)) => match inline_parse(span(s, p + 1, j)) {
                        Err(e) => Err(e),
                        Ok((base, base_slug)) => match cite_target(span(s, a, b)) {
                            Some(target) => Ok(
                                Piece {
                                    next,
                                    element: Some(ElementView::Link(pair_view(base, target))),
                                    seed: Seq::empty(),
                                },
                            ),
                            None => match inline_parse(span(s, a, b)) {
                                Err(e) => Err(e),
                                Ok((alt, alt_slug)) => Ok(
                                    Piece {
                                        next,
                                        element: Some(ElementView::Link(pair_view(base, alt))),
                                        seed: seq![' '] + base_slug + seq![' '],
                                    },
                                ),
                            },
                        },
                    },
                },
            },
        }
    }
}

/// Inline code: everything up to the next backtick, as it stands.
pub open spec fn code_at(s: Seq<char>, p: int) -> Result<Piece, ParseError> {
    let k = index_of(s, '`', p + 1);
    if k >= s.len() {
        Err(ParseError::MissingCloser('`'))
    } else {
        Ok(
            Piece {
                next: k + 1,
                element: Some(ElementView::InlineCode(s.subrange(p + 1, k))),
                seed: seq![' '] + s.subrange(p + 1, k) + seq![' '],
            },
        )
    }
}

/// Bold (two stars) or italics (one star): the inside is parsed as inline
/// text. Bold runs to the next two stars that no backslash escapes, italics
/// to the next star. A stretch that is never closed runs to the end of the
/// text.
pub open spec fn star_at(s: Seq<char>, p: int) -> Result<Piece, ParseError>
    recommends
        0 <= p < s.len(),
    decreases s.len(), 0int,
{
    if p < 0 || p >= s.len() {
        Ok(Piece { next: p + 1, element: None, seed: Seq::empty() })
    } else if p + 1 < s.len() && s[p + 1] == '*' {
        let k = bold_end(s, p + 2, false);
        match inline_parse(span(s, p + 2, k)) {
            Err(e) => Err(e),
            Ok((inner, slug)) => Ok(
                Piece {
                    next: if k < s.len() {
                        k + 2
                    } else {
                        s.len() as int
                    },
                    element: Some(ElementView::Bold(Box::new(inner))),
                    seed: slug,
                },
            ),
        }
    } else {
        let k = index_of(s, '*', p + 1);
        match inline_parse(span(s, p + 1, k)) {
            Err(e) => Err(e),
            Ok((inner, slug)) => Ok(
                Piece {
                    next: if k < s.len() {
                        k + 1
                    } else {
                        s.len() as int
                    },
                    element: Some(ElementView::Italics(Box::new(inner))),
                    seed: slug,
                },
            ),
        }
    }
}

/// The step at a backslash: the character behind it is taken as it stands. An
/// escaped `%` or sigil right before `[` takes the bracket with it, so that no
/// hover starts there. A backslash at the very end stands for itself.
pub open spec fn escape_step(s: Seq<char>, st: InlineState) -> InlineState {
    let p = st.pos;
    if p + 1 < s.len() {
        let e = s[p + 1];
        if (e == '%' || e == '£') && p + 2 < s.len() && s[p + 2] == '[' {
            InlineState {
                pos: p + 3,
                items: st.items,
                pending: st.pending.push(e).push('['),
                seed: st.seed.push(e).push(e),
            }
        } else {
            InlineState {
                pos: p + 2,
                items: st.items,
                pending: st.pending.push(e),
                seed: st.seed.push(e),
            }
        }
    } else {
        InlineState {
            pos: p + 1,
            items: st.items,
            pending: st.pending.push('\\'),
            seed: st.seed.push('\\'),
        }
    }
}

/// Every construct ends behind its marker and inside the text.
pub proof fn lemma_construct_advances(s: Seq<char>, p: int)
    requires
        0 <= p < s.len(),
        is_marker(s[p]),
    ensures
        construct_at(s, p) matches Ok(piece) ==> p < piece.next <= s.len(),
{
    let c = s[p];
    if c == '%' || c == '£' {
        let open = if c == '%' {
            '['
        } else {
            '{'
        };
        let close = if c == '%' {
            ']'
        } else {
            '}'
        };
        lemma_close_index_bounds(s, p + 2, open, close, 0);
        match close_index(s, p + 2, open, close, 0) {
            Some(j) => {
                lemma_close_index_bounds(s, j + 2, '(', ')', 0);
            },
            None => {},
        }
    } else if c == '[' {
        lemma_close_index_bounds(s, p + 1, '[', ']', 0);
        match close_index(s, p + 1, '[', ']', 0) {
            Some(j) => {
                lemma_close_index_bounds(s, j + 2, '(', ')', 0);
            },
            None => {},
        }
    } else if c == '`' {
        lemma_index_of_bounds(s, '`', p + 1);
    } else {
        if p + 1 < s.len() && s[p + 1] == '*' {
            lemma_bold_end_bounds(s, p + 2, false);
        } else {
            lemma_index_of_bounds(s, '*', p + 1);
        }
    }
}

/// The views of elements with one more element.
pub proof fn lemma_elements_push(items: Seq<Element>, e: Element)
    ensures
        elements_view(items.push(e)) == elements_view(items).push(e@),
{
}

fn flush(body: &mut Vec<Element>, buffer: &mut Vec<char>)
    ensures
        old(buffer)@.len() > 0 ==> elements_view(final(body)@) == elements_view(old(body)@).push(
            ElementView::Text(old(buffer)@),
        ),
        old(buffer)@.len() == 0 ==> final(body)@ == old(body)@,
        final(buffer)@.len() == 0,
{
    if buffer.len() > 0 {
        let e = Element::Text(to_string(buffer));
        body.push(e);
        buffer.clear();
    }
}

/// The state that the executable scan holds in its variables.
pub open spec fn state_of(
    pos: usize,
    body: Vec<Element>,
    buffer: Vec<char>,
    seed: Vec<char>,
) -> InlineState {
    InlineState { pos: pos as int, items: elements_view(body@), pending: buffer@, seed: seed@ }
}

fn pair(base: Element, alt: Element) -> (r: Alternative)
    ensures
        r@ == pair_view(base@, alt@),
{
    Alternative { base: Box::new(base), alt: Box::new(alt) }
}

/// What the executable scan hands back for one construct.
pub struct Found {
    pub next: usize,
    pub element: Option<Element>,
    pub seed: Vec<char>,
}

impl Found {
    /// Whether this is the piece `piece`.
    pub open spec fn is_piece(&self, piece: Piece) -> bool {
        &&& self.next == piece.next
        &&& self.seed@ == piece.seed
        &&& match piece.element {
            Some(e) => self.element matches Some(x) && x@ == e,
            None => self.element is None,
        }
    }
}

fn sigil(v: &Vec<char>, pos: usize) -> (r: Result<Found, ParseError>)
    requires
        pos < v@.len(),
        v@[pos as int] == '%' || v@[pos as int] == '£',
    ensures
        match sigil_at(v@, pos as int) {
            Ok(piece) => r matches Ok(f) && f.is_piece(piece),
            Err(e) => r matches Err(x) && x == e,
        },
    decreases v@.len(), 0int,
{
    let n: usize = v.len();
    let c = v[pos];
    let open = if c == '%' {
        '['
    } else {
        '{'
    };
    let close = if c == '%' {
        ']'
    } else {
        '}'
    };
    if pos + 1 < n && v[pos + 1] == open {
        let j = match find_close(v, pos + 2, open, close) {
            Some(j) => j,
            None => {
                return Err(ParseError::MissingCloser(close));
            },
        };
        let (a, b, next) = match gather_link(v, j + 1) {
            Ok(t) => t,
            Err(e) => {
                return Err(e);
            },
        };
        let base_text = slice_of(v, pos + 2, j);
        let (base, base_slug) = match parse_chars(&base_text) {
            Ok(t) => t,
            Err(e) => {
                return Err(e);
            },
        };
        let alt_text = slice_of(v, a, b);
        let (alt, alt_slug) = match parse_chars(&alt_text) {
            Ok(t) => t,
            Err(e) => {
                return Err(e);
            },
        };
        if c == '%' {
            let e = Element::Hoverable(pair(base, alt));
            Ok(Found { next, element: Some(e), seed: base_slug })
        } else {
            let e = Element::Styled(pair(base, alt));
            let mut seed: Vec<char> = Vec::new();
            seed.push(' ');
            append_chars(&mut seed, &alt_slug);
            seed.push(' ');
            assert(seed@ == seq![' '] + alt_slug@ + seq![' ']);
            Ok(Found { next, element: Some(e), seed })
        }
    } else {
        let mut seed: Vec<char> = Vec::new();
        seed.push(c);
        Ok(Found { next: pos + 1, element: None, seed })
    }
}

fn bracket(v: &Vec<char>, pos: usize) -> (r: Result<Found, ParseError>)
    requires
        pos < v@.len(),
    ensures
        match bracket_at(v@, pos as int) {
            Ok(piece) => r matches Ok(f) && f.is_piece(piece),
            Err(e) => r matches Err(x) && x == e,
        },
    decreases v@.len(), 0int,
{
    let n: usize = v.len();
    let j = match find_close(v, pos + 1, '[', ']') {
        Some(j) => j,
        None => {
            return Err(ParseError::MissingCloser(']'));
        },
    };
    let base_text = slice_of(v, pos + 1, j);
    match citation_of(&base_text) {
        Some(target) => {
            return Ok(Found { next: j + 1, element: Some(target), seed: Vec::new() });
        },
        None => {},
    }
    let (a, b, next) = match gather_link(v, j + 1) {
        Ok(t) => t,
        Err(e) => {
            return Err(e);
        },
    };
    let (base, base_slug) = match parse_chars(&base_text) {
        Ok(t) => t,
        Err(e) => {
            return Err(e);
        },
    };
    let alt_text = slice_of(v, a, b);
    match citation_of(&alt_text) {
        Some(target) => {
            let e = Element::Link(pair(base, target));
            Ok(Found { next, element: Some(e), seed: Vec::new() })
        },
        None => {
            let (alt, alt_slug) = match parse_chars(&alt_text) {
                Ok(t) => t,
                Err(e) => {
                    return Err(e);
                },
            };
            let e = Element::Link(pair(base, alt));
            let mut seed: Vec<char> = Vec::new();
            seed.push(' ');
            append_chars(&mut seed, &base_slug);
            seed.push(' ');
            assert(seed@ == seq![' '] + base_slug@ + seq![' ']);
            Ok(Found { next, element: Some(e), seed })
        },
    }
}

fn code(v: &Vec<char>, pos: usize) -> (r: Result<Found, ParseError>)
    requires
        pos < v@.len(),
    ensures
        match code_at(v@, pos as int) {
            Ok(piece) => r matches Ok(f) && f.is_piece(piece),
            Err(e) => r matches Err(x) && x == e,
        },
{
    let n: usize = v.len();
    let k = find_char(v, '`', pos + 1);
    if k >= n {
        return Err(ParseError::MissingCloser('`'));
    }
    let text = slice_of(v, pos + 1, k);
    let mut seed: Vec<char> = Vec::new();
    seed.push(' ');
    append_chars(&mut seed, &text);
    seed.push(' ');
    assert(seed@ == seq![' '] + text@ + seq![' ']);
    let e = Element::InlineCode(to_string(&text));
    Ok(Found { next: k + 1, element: Some(e), seed })
}

fn star(v: &Vec<char>, pos: usize) -> (r: Result<Found, ParseError>)
    requires
        pos < v@.len(),
    ensures
        match star_at(v@, pos as int) {
            Ok(piece) => r matches Ok(f) && f.is_piece(piece),
            Err(e) => r matches Err(x) && x == e,
        },
    decreases v@.len(), 0int,
{
    let n: usize = v.len();
    if pos + 1 < n && v[pos + 1] == '*' {
        let k = find_bold_end(v, pos + 2);
        let inner_text = slice_of(v, pos + 2, k);
        let (inner, slug) = match parse_chars(&inner_text) {
            Ok(t) => t,
            Err(e) => {
                return Err(e);
            },
        };
        let e = Element::Bold(Box::new(inner));
        let next = if k < n {
            k + 2
        } else {
            n
        };
        Ok(Found { next, element: Some(e), seed: slug })
    } else {
        let k = find_char(v, '*', pos + 1);
        let inner_text = slice_of(v, pos + 1, k);
        let (inner, slug) = match parse_chars(&inner_text) {
            Ok(t) => t,
            Err(e) => {
                return Err(e);
            },
        };
        let e = Element::Italics(Box::new(inner));
        let next = if k < n {
            k + 1
        } else {
            n
        };
        Ok(Found { next, element: Some(e), seed: slug })
    }
}

fn construct(v: &Vec<char>, pos: usize) -> (r: Result<Found, ParseError>)
    requires
        pos < v@.len(),
        is_marker(v@[pos as int]),
    ensures
        match construct_at(v@, pos as int) {
            Ok(piece) => r matches Ok(f) && f.is_piece(piece) && pos < f.next <= v@.len(),
            Err(e) => r matches Err(x) && x == e,
        },
    decreases v@.len(), 1int,
{
    proof {
        lemma_construct_advances(v@, pos as int);
    }
    let c = v[pos];
    if c == '%' || c == '£' {
        sigil(v, pos)
    } else if c == '[' {
        bracket(v, pos)
    } else if c == '`' {
        code(v, pos)
    } else {
        star(v, pos)
    }
}

fn escape(v: &Vec<char>, pos: usize, buffer: &mut Vec<char>, seed: &mut Vec<char>) -> (next: usize)
    requires
        pos < v@.len(),
    ensures
        ({
            let before = InlineState {
                pos: pos as int,
                items: Seq::empty(),
                pending: old(buffer)@,
                seed: old(seed)@,
            };
            let after = escape_step(v@, before);
            next == after.pos && final(buffer)@ == after.pending && final(seed)@ == after.seed
        }),
        pos < next <= v@.len(),
{
    let n: usize = v.len();
    if pos + 1 < n {
        let e = v[pos + 1];
        if (e == '%' || e == '£') && pos + 2 < n && v[pos + 2] == '[' {
            buffer.push(e);
            buffer.push('[');
            seed.push(e);
            seed.push(e);
            pos + 3
        } else {
            buffer.push(e);
            seed.push(e);
            pos + 2
        }
    } else {
        buffer.push('\\');
        seed.push('\\');
        pos + 1
    }
}

fn step(
    v: &Vec<char>,
    pos: usize,
    body: &mut Vec<Element>,
    buffer: &mut Vec<char>,
    seed: &mut Vec<char>,
) -> (r: Result<usize, ParseError>)
    requires
        pos < v@.len(),
    ensures
        match inline_step(v@, state_of(pos, *old(body), *old(buffer), *old(seed))) {
            Ok(st) => r matches Ok(next) && st == state_of(
                next,
                *final(body),
                *final(buffer),
                *final(seed),
            ) && pos < next <= v@.len(),
            Err(e) => r matches Err(x) && x == e,
        },
    decreases v@.len(), 2int,
{
    let n: usize = v.len();
    let ghost st = state_of(pos, *body, *buffer, *seed);
    let c = v[pos];
    if c == '\\' {
        let next = escape(v, pos, buffer, seed);
        Ok(next)
    } else if c == '%' || c == '£' || c == '[' || c == '`' || c == '*' {
        flush(body, buffer);
        assert(state_of(pos, *body, *buffer, *seed) == flushed(st)) by {
            assert(buffer@ =~= Seq::empty());
            assert(st.pending.len() == 0 ==> st.pending =~= Seq::empty());
        }
        let found = match construct(v, pos) {
            Ok(f) => f,
            Err(e) => {
                return Err(e);
            },
        };
        let Found { next, element, seed: more } = found;
        match element {
            Some(e) => {
                proof {
                    lemma_elements_push(body@, e);
                }
                body.push(e);
            },
            None => {
                buffer.push(c);
            },
        }
        append_chars(seed, &more);
        assert(inline_step(v@, st) == Ok::<InlineState, ParseError>(
            state_of(next, *body, *buffer, *seed),
        ));
        Ok(next)
    } else {
        buffer.push(c);
        seed.push(c);
        Ok(pos + 1)
    }
}

fn find_bold_end(v: &Vec<char>, from: usize) -> (r: usize)
    requires
        from <= v@.len(),
    ensures
        r == bold_end(v@, from as int, false),
        from <= r <= v@.len(),
        r < v@.len() ==> r + 2 <= v@.len(),
{
    let mut i: usize = from;
    let mut open: bool = false;
    while i < v.len()
        invariant
            from <= i <= v@.len(),
            bold_end(v@, i as int, open) == bold_end(v@, from as int, false),
        decreases v.len() - i,
    {
        if v[i] == '\\' {
            if i + 1 < v.len() {
                i += 2;
            } else {
                return v.len();
            }
        } else {
            if v[i] == '*' {
                if i + 1 < v.len() && v[i + 1] == '*' && !open {
                    return i;
                }
                open = !open;
            }
            i += 1;
        }
    }
    i
}

/// Parses the characters of a line or paragraph.
pub fn parse_chars(v: &Vec<char>) -> (r: Result<(Element, Vec<char>), ParseError>)
    ensures
        match inline_parse(v@) {
            Ok((e, slug)) => r matches Ok(p) && p.0@ == e && p.1@ == slug,
            Err(e) => r matches Err(x) && x == e,
        },
    decreases v@.len(), v@.len() + 4,
{
    let mut body: Vec<Element> = Vec::new();
    let mut buffer: Vec<char> = Vec::new();
    let mut seed: Vec<char> = Vec::new();
    let mut pos: usize = 0;
    assert(state_of(pos, body, buffer, seed) == initial_state()) by {
        assert(elements_view(body@) =~= Seq::empty());
    }
    while pos < v.len()
        invariant
            pos <= v@.len(),
            inline_run(v@, state_of(pos, body, buffer, seed)) == inline_run(v@, initial_state()),
        decreases v@.len() - pos,
    {
        let ghost cur = state_of(pos, body, buffer, seed);
        match step(v, pos, &mut body, &mut buffer, &mut seed) {
            Ok(next) => {
                pos = next;
            },
            Err(e) => {
                return Err(e);
            },
        }
    }
    let ghost last = state_of(pos, body, buffer, seed);
    flush(&mut body, &mut buffer);
    let slug = match slug_chars(&seed) {
        Some(id) => id,
        None => Vec::new(),
    };
    if body.len() == 0 {
        let e = Element::Span(Span { elements: Vec::new() });
        proof {
            assert(e@->Span_0.elements =~= Seq::empty());
        }
        Ok((e, Vec::new()))
    } else if body.len() == 1 {
        let e = body.pop().unwrap();
        Ok((e, slug))
    } else {
        let e = Element::Span(Span { elements: body });
        proof {
            lemma_element_view(e);
        }
        Ok((e, slug))
    }
}

/// Parses a line or paragraph into its element and its slug.
///
/// The text fails to parse exactly when a bracket, brace, parenthesis or
/// backtick that opens a construct is never closed.
pub fn parse_inline(text: &String) -> (r: Result<(Box<Element>, String), ParseError>)
    ensures
        match inline_parse(text@) {
            Ok((e, slug)) => r matches Ok(p) && p.0@ == e && p.1@ == slug,
            Err(e) => r matches Err(x) && x == e,
        },
{
    let v = to_chars(text.as_str());
    match parse_chars(&v) {
        Ok((e, slug)) => Ok((Box::new(e), to_string(&slug))),
        Err(e) => Err(e),
    }
}

/// Plain text: no backslash and no character that starts a construct.
pub open spec fn is_plain(s: Seq<char>) -> bool {
    forall|i: int| 0 <= i < s.len() ==> s[i] != '\\' && !is_marker(#[trigger] s[i])
}

proof fn lemma_plain_run(s: Seq<char>, st: InlineState)
    requires
        is_plain(s),
        0 <= st.pos <= s.len(),
        st.items == Seq::<ElementView>::empty(),
        st.pending == s.take(st.pos),
        st.seed == s.take(st.pos),
    ensures
        inline_run(s, st) == Ok::<InlineState, ParseError>(
            flushed(InlineState { pos: s.len() as int, items: Seq::empty(), pending: s, seed: s }),
        ),
    decreases s.len() - st.pos,
{
    if st.pos < s.len() {
        let c = s[st.pos];
        let next = InlineState {
            pos: st.pos + 1,
            items: st.items,
            pending: st.pending.push(c),
            seed: st.seed.push(c),
        };
        assert(inline_step(s, st) == Ok::<InlineState, ParseError>(next));
        assert(s.take(st.pos).push(c) == s.take(st.pos + 1));
        lemma_plain_run(s, next);
    } else {
        assert(s.take(st.pos) == s);
    }
}

/// Parsing is the identity on plain text: a text that is not empty and holds
/// neither a backslash nor a character that starts a construct parses to one
/// text element that equals it, with the slug of the text.
pub proof fn lemma_plain_text_parses_to_itself(s: Seq<char>)
    requires
        is_plain(s),
        s.len() > 0,
    ensures
        inline_parse(s) == Ok::<(ElementView, Seq<char>), ParseError>(
            (ElementView::Text(s), slug_or_empty(s)),
        ),
{
    assert(s.take(0) == Seq::<char>::empty());
    lemma_plain_run(s, initial_state());
}

/// The empty text parses to an empty span with an empty slug.
pub proof fn lemma_empty_text_parses_to_empty_span()
    ensures
        inline_parse(Seq::empty()) == Ok::<(ElementView, Seq<char>), ParseError>(
            (ElementView::Span(SpanView { elements: Seq::empty() }), Seq::empty()),
        ),
{
}

} // verus!
