//! The optional YAML header of a document.

use vstd::prelude::*;
use std::collections::BTreeMap;
use serde_yaml::Value;
use crate::text::{
    find_from, find_seq, has_prefix_at, skip_space_from, slice_of, starts_with_at, to_chars,
    to_string, to_string_range, trim, trim_end_from,
};
use crate::toplevel::parser_object::lemma_find_seq_bounds;

verus! {

/// A decoded YAML value.
#[derive(Debug, PartialEq)]
pub enum YamlValue {
    Null,
    Bool(bool),
    /// A number, held as the text that writes it.
    Number(String),
    Text(String),
    Sequence(Vec<YamlValue>),
    Mapping(Vec<(YamlValue, YamlValue)>),
    /// A tagged value: the tag and what it tags.
    Tagged(String, Box<YamlValue>),
}

/// A decoded YAML value as plain data.
pub enum YamlView {
    Null,
    Bool(bool),
    Number(Seq<char>),
    Text(Seq<char>),
    Sequence(Seq<YamlView>),
    Mapping(Seq<(YamlView, YamlView)>),
    Tagged(Seq<char>, Box<YamlView>),
}

impl YamlValue {
    /// The value as plain data.
    pub open spec fn model(&self) -> YamlView
        decreases self,
    {
        match self {
            YamlValue::Null => YamlView::Null,
            YamlValue::Bool(b) => YamlView::Bool(*b),
            YamlValue::Number(s) => YamlView::Number(s@),
            YamlValue::Text(s) => YamlView::Text(s@),
            YamlValue::Sequence(v) => YamlView::Sequence(
                Seq::new(
                    v@.len(),
                    |i: int|
                        if 0 <= i < v@.len() {
                            v@[i].model()
                        } else {
                            YamlView::Null
                        },
                ),
            ),
            YamlValue::Mapping(v) => YamlView::Mapping(
                Seq::new(
                    v@.len(),
                    |i: int|
                        if 0 <= i < v@.len() {
                            (v@[i].0.model(), v@[i].1.model())
                        } else {
                            (YamlView::Null, YamlView::Null)
                        },
                ),
            ),
            YamlValue::Tagged(t, b) => YamlView::Tagged(t@, Box::new(b.model())),
        }
    }
}

impl View for YamlValue {
    type V = YamlView;

    open spec fn view(&self) -> YamlView {
        self.model()
    }
}

/// The header of a document: its source text and its decoded entries, in the
/// order of their keys, each key once (see [`Frontmatter::wf`]).
#[derive(Debug, PartialEq)]
pub struct Frontmatter {
    pub text: String,
    pub data: Vec<(String, YamlValue)>,
}

/// A header as plain data.
pub struct FrontmatterView {
    pub text: Seq<char>,
    pub data: Seq<(Seq<char>, YamlView)>,
}

/// The keys and values of decoded entries as plain values.
pub open spec fn entries_view(data: Seq<(String, YamlValue)>) -> Seq<(Seq<char>, YamlView)> {
    Seq::new(data.len(), |i: int| (data[i].0@, data[i].1@))
}

impl View for Frontmatter {
    type V = FrontmatterView;

    open spec fn view(&self) -> FrontmatterView {
        FrontmatterView { text: self.text@, data: entries_view(self.data@) }
    }
}

/// `serde_yaml::Value`: a decoded YAML value as `serde_yaml` holds it. Nothing
/// inside it is visible here; [`yaml_parts`] takes it apart.
#[verifier::external_type_specification]
#[verifier::external_body]
pub struct ExYamlValue(serde_yaml::Value);

/// What `serde_yaml` decodes a text to when it is read as a mapping from text
/// keys to values: the entries in the order of their keys, or nothing where
/// the text is no such mapping.
pub uninterp spec fn yaml_entries(text: Seq<char>) -> Option<Seq<(Seq<char>, YamlView)>>;

/// What a value of `serde_yaml` holds.
pub uninterp spec fn yaml_model(v: Value) -> YamlView;

/// How deep the values inside a value of `serde_yaml` are nested.
pub uninterp spec fn yaml_depth(v: Value) -> nat;

/// One level of a decoded value: what it is, and the values inside it still
/// as `serde_yaml` holds them.
pub enum YamlParts {
    Null,
    Bool(bool),
    Number(String),
    Text(String),
    Sequence(Vec<Value>),
    Mapping(Vec<(Value, Value)>),
    Tagged(String, Value),
}

impl YamlParts {
    /// The value that has these parts.
    pub open spec fn model(&self) -> YamlView {
        match self {
            YamlParts::Null => YamlView::Null,
            YamlParts::Bool(b) => YamlView::Bool(*b),
            YamlParts::Number(s) => YamlView::Number(s@),
            YamlParts::Text(s) => YamlView::Text(s@),
            YamlParts::Sequence(items) => YamlView::Sequence(
                Seq::new(items@.len(), |i: int| yaml_model(items@[i])),
            ),
            YamlParts::Mapping(pairs) => YamlView::Mapping(
                Seq::new(
                    pairs@.len(),
                    |i: int| (yaml_model(pairs@[i].0), yaml_model(pairs@[i].1)),
                ),
            ),
            YamlParts::Tagged(tag, inner) => YamlView::Tagged(tag@, Box::new(yaml_model(*inner))),
        }
    }

    /// Every value inside is nested less deeply than `depth`.
    pub open spec fn below(&self, depth: nat) -> bool {
        match self {
            YamlParts::Sequence(items) => forall|i: int|
                0 <= i < items@.len() ==> yaml_depth(#[trigger] items@[i]) < depth,
            YamlParts::Mapping(pairs) => forall|i: int|
                0 <= i < pairs@.len() ==> yaml_depth((#[trigger] pairs@[i]).0) < depth
                    && yaml_depth(pairs@[i].1) < depth,
            YamlParts::Tagged(_, inner) => yaml_depth(*inner) < depth,
            _ => true,
        }
    }
}

/// Takes a `serde_yaml::Value` apart, one level deep: one arm for each of its
/// variants, with the values inside it as they are. A `Number` and the `Tag`
/// of a tagged value come as the text that their `Display` writes, the
/// entries of a `Mapping` in the order in which `Mapping::into_iter` hands
/// them out. The contract says that the parts are what the value holds, and
/// that what is inside a value is nested less deeply than the value.
#[verifier::external_body]
fn yaml_parts(v: Value) -> (r: YamlParts)
    ensures
        r.model() == yaml_model(v),
        r.below(yaml_depth(v)),
{
    match v {
        Value::Null => YamlParts::Null,
        Value::Bool(b) => YamlParts::Bool(b),
        Value::Number(n) => YamlParts::Number(n.to_string()),
        Value::String(s) => YamlParts::Text(s),
        Value::Sequence(s) => YamlParts::Sequence(s),
        Value::Mapping(m) => YamlParts::Mapping(m.into_iter().collect()),
        Value::Tagged(t) => YamlParts::Tagged(t.tag.to_string(), t.value),
    }
}

/// The keys and values of entries as `serde_yaml` holds them, as plain values.
pub open spec fn outside_entries_view(data: Seq<(String, Value)>) -> Seq<(Seq<char>, YamlView)> {
    Seq::new(data.len(), |i: int| (data[i].0@, yaml_model(data[i].1)))
}

/// Calls `serde_yaml::from_str` for a `BTreeMap<String, Value>` and hands out
/// its entries in the order of the map. The contract gives what comes back
/// the name [`yaml_entries`]: a failure of the decoder is `None`, and nothing
/// is claimed about which texts decode to what.
#[verifier::external_body]
fn decode_yaml(text: &str) -> (r: Option<Vec<(String, Value)>>)
    ensures
        match yaml_entries(text@) {
            Some(entries) => r matches Some(v) && outside_entries_view(v@) == entries,
            None => r is None,
        },
{
    let data = serde_yaml::from_str::<BTreeMap<String, Value>>(text).ok()?;
    Some(data.into_iter().collect())
}

/// The items of a vector in the opposite order.
fn reversed<T>(v: Vec<T>) -> (r: Vec<T>)
    ensures
        r@.len() == v@.len(),
        forall|k: int| 0 <= k < r@.len() ==> r@[k] == v@[v@.len() - 1 - k],
{
    let mut v = v;
    let ghost all = v@;
    let mut out: Vec<T> = Vec::new();
    while v.len() > 0
        invariant
            v@.len() + out@.len() == all.len(),
            forall|k: int| 0 <= k < v@.len() ==> v@[k] == all[k],
            forall|k: int| 0 <= k < out@.len() ==> out@[k] == all[all.len() - 1 - k],
        decreases v@.len(),
    {
        let x = v.pop().unwrap();
        out.push(x);
    }
    out
}

/// Turns a value of `serde_yaml` into a value of this library.
fn yaml_from_outside(v: Value) -> (r: YamlValue)
    ensures
        r@ == yaml_model(v),
    decreases yaml_depth(v),
{
    let ghost depth = yaml_depth(v);
    match yaml_parts(v) {
        YamlParts::Null => YamlValue::Null,
        YamlParts::Bool(b) => YamlValue::Bool(b),
        YamlParts::Number(n) => YamlValue::Number(n),
        YamlParts::Text(s) => YamlValue::Text(s),
        YamlParts::Sequence(items) => {
            let ghost all = items@;
            let mut rest = reversed(items);
            let mut out: Vec<YamlValue> = Vec::new();
            while rest.len() > 0
                invariant
                    rest@.len() + out@.len() == all.len(),
                    depth == yaml_depth(v),
                    forall|k: int| 0 <= k < rest@.len() ==> rest@[k] == all[all.len() - 1 - k],
                    forall|i: int| 0 <= i < all.len() ==> yaml_depth(#[trigger] all[i]) < depth,
                    forall|i: int|
                        0 <= i < out@.len() ==> (#[trigger] out@[i])@ == yaml_model(all[i]),
                decreases rest@.len(),
            {
                let x = rest.pop().unwrap();
                out.push(yaml_from_outside(x));
            }
            let r = YamlValue::Sequence(out);
            assert(r@->Sequence_0 =~= yaml_model(v)->Sequence_0);
            r
        },
        YamlParts::Mapping(pairs) => {
            let ghost all = pairs@;
            let mut rest = reversed(pairs);
            let mut out: Vec<(YamlValue, YamlValue)> = Vec::new();
            while rest.len() > 0
                invariant
                    rest@.len() + out@.len() == all.len(),
                    depth == yaml_depth(v),
                    forall|k: int| 0 <= k < rest@.len() ==> rest@[k] == all[all.len() - 1 - k],
                    forall|i: int|
                        0 <= i < all.len() ==> yaml_depth((#[trigger] all[i]).0) < depth
                            && yaml_depth(all[i].1) < depth,
                    forall|i: int|
                        0 <= i < out@.len() ==> (#[trigger] out@[i]).0@ == yaml_model(all[i].0)
                            && out@[i].1@ == yaml_model(all[i].1),
                decreases rest@.len(),
            {
                let (key, value) = rest.pop().unwrap();
                let key = yaml_from_outside(key);
                let value = yaml_from_outside(value);
                out.push((key, value));
            }
            let r = YamlValue::Mapping(out);
            assert(r@->Mapping_0 =~= yaml_model(v)->Mapping_0);
            r
        },
        YamlParts::Tagged(tag, inner) => YamlValue::Tagged(tag, Box::new(yaml_from_outside(inner))),
    }
}

/// Decodes a text as a mapping from text keys to values.
fn decode_entries(text: &str) -> (r: Option<Vec<(String, YamlValue)>>)
    ensures
        match yaml_entries(text@) {
            Some(entries) => r matches Some(v) && entries_view(v@) == entries,
            None => r is None,
        },
{
    let data = match decode_yaml(text) {
        Some(d) => d,
        None => {
            return None;
        },
    };
    let ghost all = data@;
    let mut rest = reversed(data);
    let mut out: Vec<(String, YamlValue)> = Vec::new();
    while rest.len() > 0
        invariant
            rest@.len() + out@.len() == all.len(),
            forall|k: int| 0 <= k < rest@.len() ==> rest@[k] == all[all.len() - 1 - k],
            forall|i: int|
                0 <= i < out@.len() ==> (#[trigger] out@[i]).0@ == all[i].0@ && out@[i].1@
                    == yaml_model(all[i].1),
        decreases rest@.len(),
    {
        let (key, value) = rest.pop().unwrap();
        out.push((key, yaml_from_outside(value)));
    }
    Some(out)
}

/// The text with an underscore before each `%`.
pub open spec fn escaped(s: Seq<char>) -> Seq<char>
    decreases s.len(),
{
    if s.len() == 0 {
        s
    } else if s[0] == '%' {
        seq!['_', '%'] + escaped(s.skip(1))
    } else {
        seq![s[0]] + escaped(s.skip(1))
    }
}

/// The text with each `_%` replaced by `%`, read from the left.
pub open spec fn unescaped(s: Seq<char>) -> Seq<char>
    decreases s.len(),
{
    if s.len() == 0 {
        s
    } else if s.len() >= 2 && s[0] == '_' && s[1] == '%' {
        seq!['%'] + unescaped(s.skip(2))
    } else {
        seq![s[0]] + unescaped(s.skip(1))
    }
}

/// A value that was decoded from an escaped text, with the escapes taken out
/// of every text in it.
pub open spec fn yaml_unescaped(v: YamlView) -> YamlView
    decreases v,
{
    match v {
        YamlView::Text(s) => YamlView::Text(unescaped(s)),
        YamlView::Sequence(items) => YamlView::Sequence(
            Seq::new(
                items.len(),
                |i: int|
                    if 0 <= i < items.len() {
                        yaml_unescaped(items[i])
                    } else {
                        YamlView::Null
                    },
            ),
        ),
        YamlView::Mapping(pairs) => YamlView::Mapping(
            Seq::new(
                pairs.len(),
                |i: int|
                    if 0 <= i < pairs.len() {
                        (yaml_unescaped(pairs[i].0), yaml_unescaped(pairs[i].1))
                    } else {
                        (YamlView::Null, YamlView::Null)
                    },
            ),
        ),
        YamlView::Tagged(tag, inner) => YamlView::Tagged(tag, Box::new(yaml_unescaped(*inner))),
        _ => v,
    }
}

/// Taking the escapes out of an escaped text gives the text back: a `%` in
/// a header is the same `%` after the header went through the decoder's
/// escaping.
pub proof fn lemma_unescape_undoes_escape(s: Seq<char>)
    ensures
        unescaped(escaped(s)) == s,
    decreases s.len(),
{
    if s.len() > 0 {
        let rest = s.skip(1);
        lemma_unescape_undoes_escape(rest);
        let e = escaped(s);
        if s[0] == '%' {
            assert(e.skip(2) == escaped(rest));
        } else {
            assert(e.skip(1) == escaped(rest));
        }
    }
}

/// Puts an underscore before each `%`.
pub fn escape_percent(v: &Vec<char>) -> (r: Vec<char>)
    ensures
        r@ == escaped(v@),
{
    let mut out: Vec<char> = Vec::new();
    let mut i: usize = 0;
    assert(v@.skip(0) == v@);
    while i < v.len()
        invariant
            i <= v@.len(),
            out@ + escaped(v@.skip(i as int)) == escaped(v@),
        decreases v.len() - i,
    {
        let ghost rest = v@.skip(i as int);
        assert(rest.skip(1) == v@.skip(i + 1));
        let ghost before = out@;
        if v[i] == '%' {
            out.push('_');
            out.push('%');
            assert(out@ + escaped(rest.skip(1)) == before + (seq!['_', '%'] + escaped(
                rest.skip(1),
            )));
        } else {
            out.push(v[i]);
            assert(out@ + escaped(rest.skip(1)) == before + (seq![rest[0]] + escaped(
                rest.skip(1),
            )));
        }
        i += 1;
    }
    assert(out@ + escaped(v@.skip(v@.len() as int)) == out@);
    out
}

/// Replaces each `_%` by `%`, reading from the left.
pub fn unescape_percent(v: &Vec<char>) -> (r: Vec<char>)
    ensures
        r@ == unescaped(v@),
{
    let mut out: Vec<char> = Vec::new();
    let mut i: usize = 0;
    let n: usize = v.len();
    assert(v@.skip(0) == v@);
    while i < n
        invariant
            i <= n == v@.len(),
            out@ + unescaped(v@.skip(i as int)) == unescaped(v@),
        decreases n - i,
    {
        let ghost rest = v@.skip(i as int);
        let ghost before = out@;
        if i + 1 < n && v[i] == '_' && v[i + 1] == '%' {
            assert(rest.skip(2) == v@.skip(i + 2));
            out.push('%');
            assert(out@ + unescaped(rest.skip(2)) == before + (seq!['%'] + unescaped(
                rest.skip(2),
            )));
            i += 2;
        } else {
            assert(rest.skip(1) == v@.skip(i + 1));
            out.push(v[i]);
            assert(out@ + unescaped(rest.skip(1)) == before + (seq![rest[0]] + unescaped(
                rest.skip(1),
            )));
            i += 1;
        }
    }
    assert(out@ + unescaped(v@.skip(v@.len() as int)) == out@);
    out
}

/// A copy of a decoded value.
pub fn clone_yaml(val: &YamlValue) -> (r: YamlValue)
    ensures
        r@ == val@,
    decreases val,
{
    match val {
        YamlValue::Null => YamlValue::Null,
        YamlValue::Bool(value) => YamlValue::Bool(*value),
        YamlValue::Number(number) => YamlValue::Number(number.clone()),
        YamlValue::Text(text) => YamlValue::Text(text.clone()),
        YamlValue::Sequence(vec) => {
            let mut values: Vec<YamlValue> = Vec::new();
            let mut i: usize = 0;
            while i < vec.len()
                invariant
                    i <= vec@.len(),
                    val is Sequence,
                    val->Sequence_0 === *vec,
                    values@.len() == i,
                    forall|j: int| 0 <= j < i ==> (#[trigger] values@[j])@ == vec@[j]@,
                decreases vec.len() - i,
            {
                values.push(clone_yaml(&vec[i]));
                i += 1;
            }
            let r = YamlValue::Sequence(values);
            assert(r@->Sequence_0 =~= val@->Sequence_0);
            r
        },
        YamlValue::Mapping(mapping) => {
            let mut pairs: Vec<(YamlValue, YamlValue)> = Vec::new();
            let mut i: usize = 0;
            while i < mapping.len()
                invariant
                    i <= mapping@.len(),
                    val is Mapping,
                    val->Mapping_0 === *mapping,
                    pairs@.len() == i,
                    forall|j: int|
                        0 <= j < i ==> (#[trigger] pairs@[j]).0@ == mapping@[j].0@ && pairs@[j].1@
                            == mapping@[j].1@,
                decreases mapping.len() - i,
            {
                let key = clone_yaml(&mapping[i].0);
                let value = clone_yaml(&mapping[i].1);
                pairs.push((key, value));
                i += 1;
            }
            let r = YamlValue::Mapping(pairs);
            assert(r@->Mapping_0 =~= val@->Mapping_0);
            r
        },
        YamlValue::Tagged(tag, inner) => YamlValue::Tagged(tag.clone(), Box::new(clone_yaml(inner))),
    }
}

impl Clone for YamlValue {
    fn clone(&self) -> (r: Self)
        ensures
            r@ == self@,
    {
        clone_yaml(self)
    }
}

/// Takes the escapes out of every text in a decoded value.
pub fn replace_percentage(val: &YamlValue) -> (r: YamlValue)
    ensures
        r@ == yaml_unescaped(val@),
    decreases val,
{
    match val {
        YamlValue::Null => YamlValue::Null,
        YamlValue::Bool(value) => YamlValue::Bool(*value),
        YamlValue::Number(number) => YamlValue::Number(number.clone()),
        YamlValue::Text(text) => {
            let v = to_chars(text.as_str());
            YamlValue::Text(to_string(&unescape_percent(&v)))
        },
        YamlValue::Sequence(vec) => {
            let mut values: Vec<YamlValue> = Vec::new();
            let mut i: usize = 0;
            while i < vec.len()
                invariant
                    i <= vec@.len(),
                    val is Sequence,
                    val->Sequence_0 === *vec,
                    values@.len() == i,
                    forall|j: int|
                        0 <= j < i ==> (#[trigger] values@[j])@ == yaml_unescaped(vec@[j]@),
                decreases vec.len() - i,
            {
                values.push(replace_percentage(&vec[i]));
                i += 1;
            }
            let r = YamlValue::Sequence(values);
            assert(r@->Sequence_0 =~= yaml_unescaped(val@)->Sequence_0);
            r
        },
        YamlValue::Mapping(mapping) => {
            let mut pairs: Vec<(YamlValue, YamlValue)> = Vec::new();
            let mut i: usize = 0;
            while i < mapping.len()
                invariant
                    i <= mapping@.len(),
                    val is Mapping,
                    val->Mapping_0 === *mapping,
                    pairs@.len() == i,
                    forall|j: int|
                        0 <= j < i ==> (#[trigger] pairs@[j]).0@ == yaml_unescaped(mapping@[j].0@)
                            && pairs@[j].1@ == yaml_unescaped(mapping@[j].1@),
                decreases mapping.len() - i,
            {
                let key = replace_percentage(&mapping[i].0);
                let value = replace_percentage(&mapping[i].1);
                pairs.push((key, value));
                i += 1;
            }
            let r = YamlValue::Mapping(pairs);
            assert(r@->Mapping_0 =~= yaml_unescaped(val@)->Mapping_0);
            r
        },
        YamlValue::Tagged(tag, inner) => YamlValue::Tagged(
            tag.clone(),
            Box::new(replace_percentage(inner)),
        ),
    }
}

/// A key in its joined form: without surrounding white space, and with a
/// dash in place of each underscore and each space.
pub open spec fn joined(key: Seq<char>) -> Seq<char> {
    trim(key).map_values(
        |c: char|
            if c == '_' || c == ' ' {
                '-'
            } else {
                c
            },
    )
}

fn joined_chars(key: &String) -> (r: Vec<char>)
    ensures
        r@ == joined(key@),
{
    let v = to_chars(key.as_str());
    let a = skip_space_from(&v, 0, v.len());
    assert(v@.subrange(0, v@.len() as int) == v@);
    let b = trim_end_from(&v, a, v.len());
    let mut out: Vec<char> = Vec::new();
    let mut i: usize = a;
    while i < b
        invariant
            a <= i <= b <= v@.len(),
            out@.len() == i - a,
            forall|j: int|
                0 <= j < i - a ==> out@[j] == (if v@[a + j] == '_' || v@[a + j] == ' ' {
                    '-'
                } else {
                    v@[a + j]
                }),
        decreases b - i,
    {
        let c = v[i];
        if c == '_' || c == ' ' {
            out.push('-');
        } else {
            out.push(c);
        }
        i += 1;
    }
    out
}

/// The index of the first entry at or after `from` whose joined key is
/// `key`, or the number of entries.
pub open spec fn joined_index(entries: Seq<(Seq<char>, YamlView)>, key: Seq<char>, from: int) -> int
    decreases entries.len() - from,
{
    if from < 0 || from >= entries.len() {
        entries.len() as int
    } else if joined(entries[from].0) == key {
        from
    } else {
        joined_index(entries, key, from + 1)
    }
}

/// The text of a value that is a text, a truth value or a number.
pub open spec fn yaml_text(v: YamlView) -> Option<Seq<char>> {
    match v {
        YamlView::Text(s) => Some(s),
        YamlView::Bool(b) => Some(
            if b {
                "true"@
            } else {
                "false"@
            },
        ),
        YamlView::Number(s) => Some(s),
        _ => None,
    }
}

/// Reads a decoded value as a text.
pub trait FrontmatterHelper {
    /// The value as plain data.
    spec fn value(&self) -> YamlView;

    fn as_string(&self) -> (r: Option<String>)
        ensures
            match yaml_text(self.value()) {
                Some(s) => r matches Some(x) && x@ == s,
                None => r is None,
            },
    ;
}

impl FrontmatterHelper for YamlValue {
    open spec fn value(&self) -> YamlView {
        self@
    }

    fn as_string(&self) -> (r: Option<String>) {
        match self {
            YamlValue::Text(text) => Some(text.clone()),
            YamlValue::Bool(val) => Some(
                if *val {
                    String::from_str("true")
                } else {
                    String::from_str("false")
                },
            ),
            YamlValue::Number(val) => Some(val.clone()),
            _ => None,
        }
    }
}

impl FrontmatterView {
    /// The value under `key`; null where there is none.
    pub open spec fn at(&self, key: Seq<char>) -> YamlView {
        let i = entry_index(self.data, key, 0);
        if i < self.data.len() {
            self.data[i].1
        } else {
            YamlView::Null
        }
    }

    /// The value under the first key whose joined form is `key`; null where
    /// there is none.
    pub open spec fn at_joined(&self, key: Seq<char>) -> YamlView {
        let i = joined_index(self.data, key, 0);
        if i < self.data.len() {
            self.data[i].1
        } else {
            YamlView::Null
        }
    }

    /// Whether some key has the joined form `key`.
    pub open spec fn has_joined(&self, key: Seq<char>) -> bool {
        joined_index(self.data, key, 0) < self.data.len()
    }
}

/// The index of the first entry at or after `from` whose key is `key`, or the
/// number of entries.
pub open spec fn entry_index(entries: Seq<(Seq<char>, YamlView)>, key: Seq<char>, from: int) -> int
    decreases entries.len() - from,
{
    if from < 0 || from >= entries.len() {
        entries.len() as int
    } else if entries[from].0 == key {
        from
    } else {
        entry_index(entries, key, from + 1)
    }
}

/// Whether `a` comes before `b` from index `i` on, where the two are the same
/// up to there: at the first index at which they differ `a` holds the lesser
/// character, or `a` ends there and `b` goes on.
pub open spec fn less_from(a: Seq<char>, b: Seq<char>, i: int) -> bool
    decreases a.len() - i,
{
    if i < 0 || i >= b.len() {
        false
    } else if i >= a.len() {
        true
    } else if a[i] != b[i] {
        a[i] < b[i]
    } else {
        less_from(a, b, i + 1)
    }
}

/// Whether `a` comes before `b` in the order of texts.
pub open spec fn text_less(a: Seq<char>, b: Seq<char>) -> bool {
    less_from(a, b, 0)
}

proof fn lemma_less_transitive(a: Seq<char>, b: Seq<char>, c: Seq<char>, i: int)
    requires
        0 <= i,
        less_from(a, b, i),
        less_from(b, c, i),
    ensures
        less_from(a, c, i),
    decreases a.len() - i,
{
    if i < a.len() && a[i] == b[i] && b[i] == c[i] {
        lemma_less_transitive(a, b, c, i + 1);
    }
}

proof fn lemma_less_or_same(a: Seq<char>, b: Seq<char>, i: int)
    requires
        0 <= i <= a.len(),
        i <= b.len(),
        a.take(i) == b.take(i),
        !less_from(a, b, i),
        !less_from(b, a, i),
    ensures
        a == b,
    decreases a.len() - i,
{
    if i < a.len() && i < b.len() {
        assert(a.take(i + 1) == a.take(i).push(a[i]));
        assert(b.take(i + 1) == b.take(i).push(b[i]));
        lemma_less_or_same(a, b, i + 1);
    } else {
        assert(a.take(a.len() as int) == a);
        assert(b.take(b.len() as int) == b);
    }
}

/// Whether one text comes before another in the order of texts.
pub fn text_before(a: &Vec<char>, b: &Vec<char>) -> (r: bool)
    ensures
        r == text_less(a@, b@),
{
    let mut i: usize = 0;
    loop
        invariant
            i <= a@.len(),
            less_from(a@, b@, i as int) == text_less(a@, b@),
        decreases a@.len() - i,
    {
        if i >= b.len() {
            return false;
        }
        if i >= a.len() {
            return true;
        }
        if a[i] != b[i] {
            return a[i] < b[i];
        }
        i += 1;
    }
}

/// The keys of the entries come in the order of texts, each once.
pub open spec fn sorted_keys(entries: Seq<(Seq<char>, YamlView)>) -> bool {
    forall|i: int, j: int|
        0 <= i < j < entries.len() ==> text_less(#[trigger] entries[i].0, #[trigger] entries[j].0)
}

/// The first index at or after `from` whose key does not come before `key`,
/// or the number of entries.
pub open spec fn slot(entries: Seq<(Seq<char>, YamlView)>, key: Seq<char>, from: int) -> int
    decreases entries.len() - from,
{
    if from < 0 || from >= entries.len() {
        entries.len() as int
    } else if text_less(entries[from].0, key) {
        slot(entries, key, from + 1)
    } else {
        from
    }
}

/// The entries with `value` under `key`, the keys in order: in the place of
/// the entry that had the key, or where the key belongs.
pub open spec fn put_sorted(
    entries: Seq<(Seq<char>, YamlView)>,
    key: Seq<char>,
    value: YamlView,
) -> Seq<(Seq<char>, YamlView)> {
    let p = slot(entries, key, 0);
    if p < entries.len() && entries[p].0 == key {
        entries.update(p, (key, value))
    } else {
        entries.insert(p, (key, value))
    }
}

/// The entries of `more` from index `from` on, put into `acc` one after the
/// other.
pub open spec fn put_all(
    more: Seq<(Seq<char>, YamlView)>,
    from: int,
    acc: Seq<(Seq<char>, YamlView)>,
) -> Seq<(Seq<char>, YamlView)>
    decreases more.len() - from,
{
    if from < 0 || from >= more.len() {
        acc
    } else {
        put_all(more, from + 1, put_sorted(acc, more[from].0, more[from].1))
    }
}

proof fn lemma_slot(entries: Seq<(Seq<char>, YamlView)>, key: Seq<char>, from: int)
    requires
        0 <= from <= entries.len(),
    ensures
        from <= slot(entries, key, from) <= entries.len(),
        forall|k: int|
            from <= k < slot(entries, key, from) ==> text_less((#[trigger] entries[k]).0, key),
        slot(entries, key, from) < entries.len() ==> !text_less(
            entries[slot(entries, key, from)].0,
            key,
        ),
    decreases entries.len() - from,
{
    if from < entries.len() && text_less(entries[from].0, key) {
        lemma_slot(entries, key, from + 1);
    }
}

/// Putting an entry into entries whose keys are in order leaves the keys in
/// order.
pub proof fn lemma_put_sorted(entries: Seq<(Seq<char>, YamlView)>, key: Seq<char>, value: YamlView)
    requires
        sorted_keys(entries),
    ensures
        sorted_keys(put_sorted(entries, key, value)),
{
    let p = slot(entries, key, 0);
    lemma_slot(entries, key, 0);
    let after = put_sorted(entries, key, value);
    if p < entries.len() && entries[p].0 == key {
        assert forall|i: int, j: int| 0 <= i < j < after.len() implies text_less(
            #[trigger] after[i].0,
            #[trigger] after[j].0,
        ) by {
            assert(after[i].0 == entries[i].0);
            assert(after[j].0 == entries[j].0);
        }
    } else {
        assert forall|j: int| p <= j < entries.len() implies text_less(
            key,
            (#[trigger] entries[j]).0,
        ) by {
            if !text_less(key, entries[p].0) {
                assert(key.take(0) == entries[p].0.take(0));
                lemma_less_or_same(key, entries[p].0, 0);
            }
            if j > p {
                lemma_less_transitive(key, entries[p].0, entries[j].0, 0);
            }
        }
        assert forall|i: int, j: int| 0 <= i < j < after.len() implies text_less(
            #[trigger] after[i].0,
            #[trigger] after[j].0,
        ) by {
            let x = if i < p {
                i
            } else {
                i - 1
            };
            let y = if j < p {
                j
            } else {
                j - 1
            };
            if i != p {
                assert(after[i] == entries[x]);
            }
            if j != p {
                assert(after[j] == entries[y]);
            }
        }
    }
}

/// Putting entries, one after the other, into entries whose keys are in
/// order leaves the keys in order.
pub proof fn lemma_put_all(
    more: Seq<(Seq<char>, YamlView)>,
    from: int,
    acc: Seq<(Seq<char>, YamlView)>,
)
    requires
        sorted_keys(acc),
    ensures
        sorted_keys(put_all(more, from, acc)),
    decreases more.len() - from,
{
    if 0 <= from < more.len() {
        lemma_put_sorted(acc, more[from].0, more[from].1);
        lemma_put_all(more, from + 1, put_sorted(acc, more[from].0, more[from].1));
    }
}

impl Frontmatter {
    /// A header without text and without entries.
    pub fn new() -> (r: Self)
        ensures
            r@ == (FrontmatterView { text: Seq::empty(), data: Seq::empty() }),
            r.wf(),
    {
        let r = Frontmatter { text: String::new(), data: Vec::new() };
        assert(entries_view(r.data@) =~= Seq::empty());
        r
    }

    /// The keys come in the order of texts, each once.
    pub open spec fn wf(&self) -> bool {
        sorted_keys(self@.data)
    }

    /// A header with this text and these entries: the entries are put in one
    /// after the other, so that the keys come in order and a key that comes
    /// twice keeps its last value.
    pub fn new_raw(text: String, data: Vec<(String, YamlValue)>) -> (r: Self)
        ensures
            r@ == (FrontmatterView {
                text: text@,
                data: put_all(entries_view(data@), 0, Seq::empty()),
            }),
            r.wf(),
    {
        let ghost all = entries_view(data@);
        let ghost given = data@;
        let mut rest = reversed(data);
        let mut r = Frontmatter { text, data: Vec::new() };
        assert(entries_view(r.data@) =~= Seq::empty());
        while rest.len() > 0
            invariant
                all == entries_view(given),
                rest@.len() <= given.len(),
                forall|k: int| 0 <= k < rest@.len() ==> rest@[k] == given[given.len() - 1 - k],
                r.text@ == text@,
                r.wf(),
                put_all(all, given.len() - rest@.len(), r@.data) == put_all(all, 0, Seq::empty()),
            decreases rest@.len(),
        {
            let ghost at = given.len() - rest@.len();
            let (key, value) = rest.pop().unwrap();
            assert((key, value) == given[at]);
            assert(all[at] == (key@, value@));
            r.insert(key, value);
        }
        r
    }

    fn slot_of(&self, key: &Vec<char>) -> (r: usize)
        ensures
            r == slot(self@.data, key@, 0),
            r <= self.data@.len(),
    {
        let mut i: usize = 0;
        while i < self.data.len()
            invariant
                i <= self.data@.len(),
                slot(self@.data, key@, i as int) == slot(self@.data, key@, 0),
            decreases self.data.len() - i,
        {
            let k = to_chars(self.data[i].0.as_str());
            if !text_before(&k, key) {
                return i;
            }
            i += 1;
        }
        i
    }

    /// Puts an entry in: in the place of the entry that has the key, or where
    /// the key belongs in the order of the keys.
    pub fn insert(&mut self, key: String, value: YamlValue)
        ensures
            final(self)@.text == old(self)@.text,
            final(self)@.data == put_sorted(old(self)@.data, key@, value@),
            old(self).wf() ==> final(self).wf(),
    {
        proof {
            if self.wf() {
                lemma_put_sorted(self@.data, key@, value@);
            }
        }
        let k = to_chars(key.as_str());
        let p = self.slot_of(&k);
        let ghost before = self.data@;
        let same = p < self.data.len() && chars_equal(&to_chars(self.data[p].0.as_str()), &k);
        if same {
            self.data.remove(p);
            self.data.insert(p, (key, value));
            assert(entries_view(self.data@) =~= entries_view(before).update(
                p as int,
                (key@, value@),
            ));
        } else {
            self.data.insert(p, (key, value));
            assert(entries_view(self.data@) =~= entries_view(before).insert(
                p as int,
                (key@, value@),
            ));
        }
    }

    fn position(&self, key: &Vec<char>) -> (r: usize)
        ensures
            r == entry_index(self@.data, key@, 0),
            r <= self.data@.len(),
    {
        let mut i: usize = 0;
        while i < self.data.len()
            invariant
                i <= self.data@.len(),
                entry_index(self@.data, key@, i as int) == entry_index(self@.data, key@, 0),
            decreases self.data.len() - i,
        {
            let k = to_chars(self.data[i].0.as_str());
            if chars_equal(&k, key) {
                return i;
            }
            i += 1;
        }
        i
    }

    fn joined_position(&self, key: &Vec<char>) -> (r: usize)
        ensures
            r == joined_index(self@.data, key@, 0),
            r <= self.data@.len(),
    {
        let mut i: usize = 0;
        while i < self.data.len()
            invariant
                i <= self.data@.len(),
                joined_index(self@.data, key@, i as int) == joined_index(self@.data, key@, 0),
            decreases self.data.len() - i,
        {
            let k = joined_chars(&self.data[i].0);
            if chars_equal(&k, key) {
                return i;
            }
            i += 1;
        }
        i
    }

    /// Whether there is an entry under `key`.
    pub fn has(&self, key: &str) -> (b: bool)
        ensures
            b == (entry_index(self@.data, key@, 0) < self@.data.len()),
    {
        let k = to_chars(key);
        self.position(&k) < self.data.len()
    }

    /// The keys, in the order of the entries.
    pub fn keys(&self) -> (r: Vec<String>)
        ensures
            r@.len() == self@.data.len(),
            forall|i: int| 0 <= i < r@.len() ==> (#[trigger] r@[i])@ == self@.data[i].0,
    {
        let mut out: Vec<String> = Vec::new();
        let mut i: usize = 0;
        while i < self.data.len()
            invariant
                i <= self.data@.len(),
                out@.len() == i,
                forall|j: int| 0 <= j < i ==> (#[trigger] out@[j])@ == self@.data[j].0,
            decreases self.data.len() - i,
        {
            out.push(self.data[i].0.clone());
            i += 1;
        }
        out
    }

    /// Whether some key has the joined form `joined_key`.
    pub fn has_joined_key(&self, joined_key: &str) -> (b: bool)
        ensures
            b == self@.has_joined(joined_key@),
    {
        let k = to_chars(joined_key);
        self.joined_position(&k) < self.data.len()
    }

    /// The value under the first key whose joined form is `joined_key`.
    pub fn get_with_joined_key(&self, joined_key: &str) -> (r: Option<&YamlValue>)
        ensures
            match r {
                Some(v) => self@.has_joined(joined_key@) && v@ == self@.at_joined(joined_key@),
                None => !self@.has_joined(joined_key@),
            },
    {
        let k = to_chars(joined_key);
        let i = self.joined_position(&k);
        if i < self.data.len() {
            Some(&self.data[i].1)
        } else {
            None
        }
    }

    /// The value under `key`.
    pub fn index(&self, key: &str) -> (r: Option<&YamlValue>)
        ensures
            match r {
                Some(v) => entry_index(self@.data, key@, 0) < self@.data.len() && v@ == self@.at(
                    key@,
                ),
                None => entry_index(self@.data, key@, 0) >= self@.data.len(),
            },
    {
        let k = to_chars(key);
        let i = self.position(&k);
        if i < self.data.len() {
            Some(&self.data[i].1)
        } else {
            None
        }
    }

    /// The text of the value under `key`, where that value is a text, a truth
    /// value or a number.
    pub fn text_at(&self, key: &str) -> (r: Option<String>)
        ensures
            match yaml_text(self@.at(key@)) {
                Some(s) => r matches Some(x) && x@ == s,
                None => r is None,
            },
    {
        match self.index(key) {
            Some(v) => v.as_string(),
            None => None,
        }
    }

    /// The text of the value under the first key whose joined form is
    /// `joined_key`, where that value is a text, a truth value or a number.
    pub fn text_at_joined(&self, joined_key: &str) -> (r: Option<String>)
        ensures
            match yaml_text(self@.at_joined(joined_key@)) {
                Some(s) => r matches Some(x) && x@ == s,
                None => r is None,
            },
    {
        match self.get_with_joined_key(joined_key) {
            Some(v) => v.as_string(),
            None => None,
        }
    }
}

/// Whether two texts are the same.
pub fn chars_equal(a: &Vec<char>, b: &Vec<char>) -> (r: bool)
    ensures
        r == (a@ == b@),
{
    if a.len() != b.len() {
        return false;
    }
    let mut i: usize = 0;
    while i < a.len()
        invariant
            i <= a@.len() == b@.len(),
            a@.take(i as int) == b@.take(i as int),
        decreases a.len() - i,
    {
        if a[i] != b[i] {
            return false;
        }
        i += 1;
    }
    assert(a@.take(a@.len() as int) == a@);
    assert(b@.take(b@.len() as int) == b@);
    true
}

/// The line that opens a header.
pub open spec fn header_open() -> Seq<char> {
    seq!['-', '-', '-', '\n']
}

/// The line that opens a header, with a carriage return before its line
/// feed.
pub open spec fn header_open_crlf() -> Seq<char> {
    seq!['-', '-', '-', '\r', '\n']
}

/// The start of the line that closes a header, with the line feed before it.
pub open spec fn header_close() -> Seq<char> {
    seq!['\n', '-', '-', '-']
}

/// Where the header of a text lies, if it has one: the index at which the
/// line that closes it starts. A text has a header where it starts with a
/// line that holds `---` alone and a later line starts with `---`.
pub open spec fn header_end(s: Seq<char>) -> Option<int> {
    if has_prefix_at(s, header_open(), 0) || has_prefix_at(s, header_open_crlf(), 0) {
        find_seq(s, header_close(), 3)
    } else {
        None
    }
}

/// The text of the header that ends at `end`.
pub open spec fn header_text(s: Seq<char>, end: int) -> Seq<char> {
    trim(s.subrange(3, end))
}

/// The entries of a decoded header with the escapes taken out of their
/// values.
pub open spec fn entries_unescaped(entries: Seq<(Seq<char>, YamlView)>) -> Seq<
    (Seq<char>, YamlView),
> {
    Seq::new(entries.len(), |i: int| (entries[i].0, yaml_unescaped(entries[i].1)))
}

/// The header that a header text and what the decoder made of its escaped
/// form give: the text with the decoded entries, their keys in order; an
/// empty header where an empty text did not decode; and none where a text
/// that is not empty did not decode.
pub open spec fn frontmatter_model(
    header: Seq<char>,
    decoded: Option<Seq<(Seq<char>, YamlView)>>,
) -> Option<FrontmatterView> {
    match decoded {
        Some(entries) => Some(
            FrontmatterView {
                text: header,
                data: put_all(entries_unescaped(entries), 0, Seq::empty()),
            },
        ),
        None => if header.len() == 0 {
            Some(FrontmatterView { text: Seq::empty(), data: Seq::empty() })
        } else {
            None
        },
    }
}

/// A header that may be missing, as plain data.
pub open spec fn frontmatter_opt_view(f: Option<Frontmatter>) -> Option<FrontmatterView> {
    match f {
        Some(x) => Some(x@),
        None => None,
    }
}

/// Decoded entries that may be missing, as plain data.
pub open spec fn entries_opt_view(d: Option<Vec<(String, YamlValue)>>) -> Option<
    Seq<(Seq<char>, YamlView)>,
> {
    match d {
        Some(x) => Some(entries_view(x@)),
        None => None,
    }
}

/// Makes the header from its text and from what the decoder gave for it.
pub fn frontmatter_from_decoded(header: String, decoded: Option<Vec<(String, YamlValue)>>) -> (r:
    Option<Frontmatter>)
    ensures
        frontmatter_opt_view(r) == frontmatter_model(header@, entries_opt_view(decoded)),
        r matches Some(f) ==> f.wf(),
{
    match decoded {
        Some(data) => {
            let mut result: Vec<(String, YamlValue)> = Vec::new();
            let mut i: usize = 0;
            while i < data.len()
                invariant
                    i <= data@.len(),
                    result@.len() == i,
                    forall|j: int|
                        0 <= j < i ==> (#[trigger] result@[j]).0@ == data@[j].0@ && result@[j].1@
                            == yaml_unescaped(data@[j].1@),
                decreases data.len() - i,
            {
                result.push((data[i].0.clone(), replace_percentage(&data[i].1)));
                i += 1;
            }
            assert(entries_view(result@) =~= entries_unescaped(entries_view(data@)));
            Some(Frontmatter::new_raw(header, result))
        },
        None => {
            if header.as_str().unicode_len() == 0 {
                Some(Frontmatter::new())
            } else {
                None
            }
        },
    }
}

/// What the start of a text gives: its header, if it has one that decodes,
/// the index at which the rest of the text starts, and whether a header was
/// there that did not decode.
pub struct HeaderSplit {
    pub frontmatter: Option<Frontmatter>,
    pub rest: usize,
    pub failed: bool,
}

/// Splits the header off a text.
///
/// A text without a header is left whole. A header that is there is taken
/// off the text whether it decodes or not; one that does not decode gives
/// no metadata, unless it is empty.
pub fn split_frontmatter(v: &Vec<char>) -> (r: HeaderSplit)
    ensures
        r.rest <= v@.len(),
        match header_end(v@) {
            None => r.frontmatter is None && r.rest == 0 && !r.failed,
            Some(end) => r.rest == end + 4 && frontmatter_opt_view(r.frontmatter)
                == frontmatter_model(
                header_text(v@, end),
                yaml_entries(escaped(header_text(v@, end))),
            ) && r.failed == (r.frontmatter is None),
        },
        r.frontmatter matches Some(f) ==> f.wf(),
{
    let open: Vec<char> = vec!['-', '-', '-', '\n'];
    let open_crlf: Vec<char> = vec!['-', '-', '-', '\r', '\n'];
    let close: Vec<char> = vec!['\n', '-', '-', '-'];
    if !(starts_with_at(v, &open, 0) || starts_with_at(v, &open_crlf, 0)) {
        return HeaderSplit { frontmatter: None, rest: 0, failed: false };
    }
    let n: usize = v.len();
    proof {
        lemma_find_seq_bounds(v@, close@, 3);
    }
    let end = match find_from(v, &close, 3) {
        Some(e) => e,
        None => {
            return HeaderSplit { frontmatter: None, rest: 0, failed: false };
        },
    };
    let part = slice_of(v, 3, end);
    let a = skip_space_from(&part, 0, part.len());
    assert(part@.subrange(0, part@.len() as int) == part@);
    let b = trim_end_from(&part, a, part.len());
    let header = slice_of(&part, a, b);
    let escaped_text = to_string(&escape_percent(&header));
    let decoded = decode_entries(escaped_text.as_str());
    let frontmatter = frontmatter_from_decoded(to_string(&header), decoded);
    let failed = frontmatter.is_none();
    HeaderSplit { frontmatter, rest: end + 4, failed }
}

/// Splits the header off a text: the header, if the text has one that
/// decodes, and the rest of the text.
pub fn parse_frontmatter(text: &str) -> (r: (Option<Frontmatter>, String))
    ensures
        match header_end(text@) {
            None => r.0 is None && r.1@ == text@,
            Some(end) => r.1@ == text@.skip(end + 4) && frontmatter_opt_view(r.0)
                == frontmatter_model(
                header_text(text@, end),
                yaml_entries(escaped(header_text(text@, end))),
            ),
        },
        r.0 matches Some(f) ==> f.wf(),
{
    let v = to_chars(text);
    let split = split_frontmatter(&v);
    let rest = to_string_range(&v, split.rest, v.len());
    (split.frontmatter, rest)
}

} // verus!
