//! Bibliographic records and dates.

use vstd::prelude::*;
use crate::text::{
    find_char, index_of, lemma_index_of_bounds, slice_of, to_chars, to_string, trim, trimmed,
};

verus! {

/// One bibliographic record: what a citation resolves to.
#[derive(Debug, PartialEq)]
pub struct ReferenceDefinition {
    pub id: String,
    /// The fields of the record, in the order in which they were written.
    pub fields: Vec<(String, String)>,
}

/// A bibliographic record as plain data.
pub struct ReferenceView {
    pub id: Seq<char>,
    pub fields: Seq<(Seq<char>, Seq<char>)>,
}

/// The keys and values of a field list as plain text.
pub open spec fn fields_view(fields: Seq<(String, String)>) -> Seq<(Seq<char>, Seq<char>)> {
    Seq::new(fields.len(), |i: int| (fields[i].0@, fields[i].1@))
}

impl View for ReferenceDefinition {
    type V = ReferenceView;

    open spec fn view(&self) -> ReferenceView {
        ReferenceView { id: self.id@, fields: fields_view(self.fields@) }
    }
}

impl Clone for ReferenceDefinition {
    fn clone(&self) -> (r: Self)
        ensures
            r@ == self@,
    {
        let mut fields: Vec<(String, String)> = Vec::new();
        let mut i: usize = 0;
        while i < self.fields.len()
            invariant
                i <= self.fields@.len(),
                fields@.len() == i,
                forall|j: int|
                    0 <= j < i ==> fields@[j].0@ == self.fields@[j].0@ && fields@[j].1@
                        == self.fields@[j].1@,
            decreases self.fields.len() - i,
        {
            fields.push((self.fields[i].0.clone(), self.fields[i].1.clone()));
            i += 1;
        }
        assert(fields_view(fields@) =~= fields_view(self.fields@));
        ReferenceDefinition { id: self.id.clone(), fields }
    }
}

/// A date as the document gives it.
#[derive(Debug, PartialEq)]
pub enum PmdDate {
    Unset,
    Text(String),
}

/// A date as plain data.
pub enum DateView {
    Unset,
    Text(Seq<char>),
}

impl View for PmdDate {
    type V = DateView;

    open spec fn view(&self) -> DateView {
        match self {
            PmdDate::Unset => DateView::Unset,
            PmdDate::Text(s) => DateView::Text(s@),
        }
    }
}

impl Clone for PmdDate {
    fn clone(&self) -> (r: Self)
        ensures
            r@ == self@,
    {
        match self {
            PmdDate::Unset => PmdDate::Unset,
            PmdDate::Text(s) => PmdDate::Text(s.clone()),
        }
    }
}

/// Why a text is no bibliographic record.
#[derive(Debug, PartialEq, Eq, Clone, Copy)]
pub enum ReferenceError {
    /// The text does not start with the sigil.
    MissingSigil,
    /// The text has no `{` behind the sigil, or no `}` behind that.
    MissingBrace,
    /// Nothing stands between the sigil and the brace.
    MissingId,
    /// A line between the braces is no `key: value`.
    BadField,
}

/// The field that one line of a record holds, if it holds one: the line
/// without surrounding white space and without a comma at its end is
/// `key: value`. An empty line holds none; `Err` is a line that is not empty
/// and has no colon or no key.
pub open spec fn field_of(line: Seq<char>) -> Result<Option<(Seq<char>, Seq<char>)>, ReferenceError> {
    let t = trim(line);
    let bare = if t.len() > 0 && t.last() == ',' {
        trim(t.drop_last())
    } else {
        t
    };
    let colon = index_of(bare, ':', 0);
    if bare.len() == 0 {
        Ok(None)
    } else if colon >= bare.len() || trim(bare.take(colon)).len() == 0 {
        Err(ReferenceError::BadField)
    } else {
        Ok(Some((trim(bare.take(colon)), trim(bare.skip(colon + 1)))))
    }
}

/// The fields that the lines of `body` from index `from` on hold, added to
/// `acc`.
pub open spec fn fields_from(body: Seq<char>, from: int, acc: Seq<(Seq<char>, Seq<char>)>) -> Result<
    Seq<(Seq<char>, Seq<char>)>,
    ReferenceError,
>
    decreases body.len() - from + 1,
{
    if from < 0 || from >= body.len() {
        Ok(acc)
    } else {
        let end = index_of(body, '\n', from);
        proof {
            lemma_index_of_bounds(body, '\n', from);
        }
        match field_of(body.subrange(from, end)) {
            Err(e) => Err(e),
            Ok(None) => fields_from(body, end + 1, acc),
            Ok(Some(field)) => fields_from(body, end + 1, acc.push(field)),
        }
    }
}

/// The record that a text writes: the sigil, an id, and between braces one
/// field on each line.
pub open spec fn reference_of(s: Seq<char>) -> Result<ReferenceView, ReferenceError> {
    let open = index_of(s, '{', 1);
    let close = index_of(s, '}', open + 1);
    if s.len() == 0 || s[0] != '£' {
        Err(ReferenceError::MissingSigil)
    } else if open >= s.len() || close >= s.len() {
        Err(ReferenceError::MissingBrace)
    } else if trim(s.subrange(1, open)).len() == 0 {
        Err(ReferenceError::MissingId)
    } else {
        match fields_from(s.subrange(open + 1, close), 0, Seq::empty()) {
            Err(e) => Err(e),
            Ok(fields) => Ok(ReferenceView { id: trim(s.subrange(1, open)), fields }),
        }
    }
}

fn parse_field(line: &Vec<char>) -> (r: Result<Option<(String, String)>, ReferenceError>)
    ensures
        match field_of(line@) {
            Ok(Some(f)) => r matches Ok(Some(x)) && x.0@ == f.0 && x.1@ == f.1,
            Ok(None) => r matches Ok(None),
            Err(e) => r matches Err(x) && x == e,
        },
{
    let t = trimmed(line);
    let bare = if t.len() > 0 && t[t.len() - 1] == ',' {
        let cut = slice_of(&t, 0, t.len() - 1);
        trimmed(&cut)
    } else {
        t
    };
    if bare.len() == 0 {
        return Ok(None);
    }
    let colon = find_char(&bare, ':', 0);
    if colon >= bare.len() {
        return Err(ReferenceError::BadField);
    }
    let key_part = slice_of(&bare, 0, colon);
    let key = trimmed(&key_part);
    if key.len() == 0 {
        return Err(ReferenceError::BadField);
    }
    let value_part = slice_of(&bare, colon + 1, bare.len());
    let value = trimmed(&value_part);
    Ok(Some((to_string(&key), to_string(&value))))
}

/// Reads a bibliographic record.
pub fn parse_reference(text: &str) -> (r: Result<ReferenceDefinition, ReferenceError>)
    ensures
        match reference_of(text@) {
            Ok(view) => r matches Ok(x) && x@ == view,
            Err(e) => r matches Err(x) && x == e,
        },
{
    let v = to_chars(text);
    parse_reference_chars(&v)
}

/// Reads a bibliographic record from its characters.
pub fn parse_reference_chars(v: &Vec<char>) -> (r: Result<ReferenceDefinition, ReferenceError>)
    ensures
        match reference_of(v@) {
            Ok(view) => r matches Ok(x) && x@ == view,
            Err(e) => r matches Err(x) && x == e,
        },
{
    let n: usize = v.len();
    if n == 0 || v[0] != '£' {
        return Err(ReferenceError::MissingSigil);
    }
    let open = find_char(v, '{', 1);
    if open >= n {
        return Err(ReferenceError::MissingBrace);
    }
    let close = find_char(v, '}', open + 1);
    if close >= n {
        return Err(ReferenceError::MissingBrace);
    }
    let id_part = slice_of(v, 1, open);
    let id = trimmed(&id_part);
    if id.len() == 0 {
        return Err(ReferenceError::MissingId);
    }
    let body = slice_of(v, open + 1, close);
    match parse_fields(&body) {
        Ok(fields) => Ok(ReferenceDefinition { id: to_string(&id), fields }),
        Err(e) => Err(e),
    }
}

fn parse_fields(body: &Vec<char>) -> (r: Result<Vec<(String, String)>, ReferenceError>)
    ensures
        match fields_from(body@, 0, Seq::empty()) {
            Ok(fields) => r matches Ok(x) && fields_view(x@) == fields,
            Err(e) => r matches Err(x) && x == e,
        },
{
    let mut fields: Vec<(String, String)> = Vec::new();
    let mut from: usize = 0;
    let m: usize = body.len();
    assert(fields_view(fields@) =~= Seq::empty());
    while from < m
        invariant
            from <= m == body@.len(),
            fields_from(body@, from as int, fields_view(fields@)) == fields_from(
                body@,
                0,
                Seq::empty(),
            ),
        decreases m - from,
    {
        let end = find_char(body, '\n', from);
        let line = slice_of(body, from, end);
        match parse_field(&line) {
            Err(e) => {
                return Err(e);
            },
            Ok(None) => {},
            Ok(Some(field)) => {
                assert(fields_view(fields@.push(field)) =~= fields_view(fields@).push(
                    (field.0@, field.1@),
                ));
                fields.push(field);
            },
        }
        assert(fields_from(body@, m as int, fields_view(fields@)) == fields_from(
            body@,
            m + 1,
            fields_view(fields@),
        ));
        from = if end < m {
            end + 1
        } else {
            m
        };
    }
    Ok(fields)
}

} // verus!
