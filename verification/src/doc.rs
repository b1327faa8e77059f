//! Configuration and payload documents (JSON, or TOML read the same way):
//! the value tree the hook installers, the state inspections and the hook
//! payload readers walk. Numbers, and TOML date-times, are kept as their
//! text; an object keeps its entries in order, and a key's value is its
//! first entry's.

use vstd::prelude::*;
use crate::text::{chars_of, contains, contains_seq, is_blank, trim};
use serde_json::Value;

verus! {

/// A document value.
#[derive(Debug)]
pub enum Doc {
    Null,
    Bool(bool),
    Number(String),
    Str(String),
    Datetime(String),
    Array(Vec<Doc>),
    Object(Vec<(String, Doc)>),
}

pub enum DocV {
    Null,
    Bool(bool),
    Number(Seq<char>),
    Str(Seq<char>),
    Datetime(Seq<char>),
    Array(Seq<DocV>),
    Object(Seq<(Seq<char>, DocV)>),
}

pub open spec fn doc_view(d: Doc) -> DocV
    decreases d,
{
    match d {
        Doc::Null => DocV::Null,
        Doc::Bool(b) => DocV::Bool(b),
        Doc::Number(n) => DocV::Number(n@),
        Doc::Str(s) => DocV::Str(s@),
        Doc::Datetime(s) => DocV::Datetime(s@),
        Doc::Array(a) => DocV::Array(
            Seq::new(
                a@.len(),
                |i: int|
                    if 0 <= i < a@.len() {
                        doc_view(a@[i])
                    } else {
                        DocV::Null
                    },
            ),
        ),
        Doc::Object(o) => DocV::Object(
            Seq::new(
                o@.len(),
                |i: int|
                    if 0 <= i < o@.len() {
                        (o@[i].0@, doc_view(o@[i].1))
                    } else {
                        (seq![], DocV::Null)
                    },
            ),
        ),
    }
}

impl View for Doc {
    type V = DocV;

    open spec fn view(&self) -> DocV {
        doc_view(*self)
    }
}

pub open spec fn items_view(a: Seq<Doc>) -> Seq<DocV> {
    a.map_values(|d: Doc| d@)
}

pub open spec fn entries_view(o: Seq<(String, Doc)>) -> Seq<(Seq<char>, DocV)> {
    o.map_values(|p: (String, Doc)| (p.0@, p.1@))
}

pub proof fn lemma_array_view(a: Vec<Doc>)
    ensures
        Doc::Array(a)@ == DocV::Array(items_view(a@)),
{
    match doc_view(Doc::Array(a)) {
        DocV::Array(s) => {
            assert(s =~= items_view(a@));
        },
        _ => {},
    }
}

pub proof fn lemma_object_view(o: Vec<(String, Doc)>)
    ensures
        Doc::Object(o)@ == DocV::Object(entries_view(o@)),
{
    match doc_view(Doc::Object(o)) {
        DocV::Object(s) => {
            assert(s =~= entries_view(o@));
        },
        _ => {},
    }
}

/// The position of the first entry named `k`, or -1.
pub open spec fn key_pos(es: Seq<(Seq<char>, DocV)>, k: Seq<char>) -> int
    decreases es.len(),
{
    if es.len() == 0 {
        -1
    } else if es[0].0 == k {
        0
    } else {
        let r = key_pos(es.drop_first(), k);
        if r < 0 {
            -1
        } else {
            r + 1
        }
    }
}

pub proof fn lemma_key_pos(es: Seq<(Seq<char>, DocV)>, k: Seq<char>)
    ensures
        key_pos(es, k) < 0 ==> key_pos(es, k) == -1 && forall|j: int| 0 <= j < es.len() ==> (#[trigger] es[j]).0 != k,
        key_pos(es, k) >= 0 ==> key_pos(es, k) < es.len() && es[key_pos(es, k)].0 == k && forall|j: int|
            0 <= j < key_pos(es, k) ==> (#[trigger] es[j]).0 != k,
    decreases es.len(),
{
    if es.len() > 0 && es[0].0 != k {
        lemma_key_pos(es.drop_first(), k);
        assert forall|j: int| 0 < j < es.len() implies es[j] == es.drop_first()[j - 1] by {}
    }
}

/// The value of the first entry named `k`.
pub open spec fn entry_of(es: Seq<(Seq<char>, DocV)>, k: Seq<char>) -> Option<DocV> {
    if key_pos(es, k) < 0 {
        None
    } else {
        Some(es[key_pos(es, k)].1)
    }
}

/// `v[k]` for an object `v`; nothing for any other value.
pub open spec fn field(v: DocV, k: Seq<char>) -> Option<DocV> {
    match v {
        DocV::Object(es) => entry_of(es, k),
        _ => None,
    }
}

/// The same field of an optional value.
pub open spec fn field_of(v: Option<DocV>, k: Seq<char>) -> Option<DocV> {
    match v {
        Some(x) => field(x, k),
        None => None,
    }
}

/// A string value's text.
pub open spec fn str_of(v: Option<DocV>) -> Option<Seq<char>> {
    match v {
        Some(DocV::Str(s)) => Some(s),
        _ => None,
    }
}

/// `es` with the first entry named `k` set to `v` in place, or `(k, v)`
/// appended when there is none.
pub open spec fn set_entry(es: Seq<(Seq<char>, DocV)>, k: Seq<char>, v: DocV) -> Seq<(Seq<char>, DocV)> {
    if key_pos(es, k) < 0 {
        es.push((k, v))
    } else {
        es.update(key_pos(es, k), (k, v))
    }
}

/// Setting an entry makes it the key's value and leaves every other key's
/// value alone.
pub proof fn lemma_set_entry(es: Seq<(Seq<char>, DocV)>, k: Seq<char>, v: DocV, k2: Seq<char>)
    ensures
        entry_of(set_entry(es, k, v), k) == Some(v),
        k2 != k ==> entry_of(set_entry(es, k, v), k2) == entry_of(es, k2),
{
    let t = set_entry(es, k, v);
    lemma_key_pos(es, k);
    lemma_key_pos(t, k);
    lemma_key_pos(es, k2);
    lemma_key_pos(t, k2);
    if key_pos(es, k) < 0 {
        assert(t[es.len() as int].0 == k);
        assert forall|j: int| 0 <= j < es.len() implies t[j] == es[j] by {}
    } else {
        let p = key_pos(es, k);
        assert(t[p].0 == k);
        assert forall|j: int| 0 <= j < es.len() && j != p implies t[j] == es[j] by {}
    }
    if k2 != k {
        let a = key_pos(es, k2);
        let b = key_pos(t, k2);
        if a >= 0 {
            assert(t[a] == es[a]);
        }
        if b >= 0 && b < es.len() {
            assert(t[b] == es[b] || t[b].0 == k);
        }
    }
}

/// The position of the first entry named `k`.
pub fn key_position(es: &Vec<(String, Doc)>, k: &str) -> (r: Option<usize>)
    ensures
        match r {
            Some(i) => key_pos(entries_view(es@), k@) == i as int,
            None => key_pos(entries_view(es@), k@) < 0,
        },
{
    let ghost ev = entries_view(es@);
    proof {
        lemma_key_pos(ev, k@);
    }
    let key = String::from_str(k);
    let mut i: usize = 0;
    while i < es.len()
        invariant
            i <= es.len(),
            ev == entries_view(es@),
            key@ == k@,
            forall|j: int| 0 <= j < i ==> (#[trigger] ev[j]).0 != k@,
            key_pos(ev, k@) < 0 ==> key_pos(ev, k@) == -1 && forall|j: int| 0 <= j < ev.len() ==> (#[trigger] ev[j]).0 != k@,
            key_pos(ev, k@) >= 0 ==> key_pos(ev, k@) < ev.len() && ev[key_pos(ev, k@)].0 == k@ && forall|j: int|
                0 <= j < key_pos(ev, k@) ==> (#[trigger] ev[j]).0 != k@,
        decreases es.len() - i,
    {
        assert(ev[i as int] == (es@[i as int].0@, es@[i as int].1@));
        if es[i].0 == key {
            return Some(i);
        }
        i = i + 1;
    }
    None
}

/// The value of the first entry named `k`.
pub fn get_entry<'a>(es: &'a Vec<(String, Doc)>, k: &str) -> (r: Option<&'a Doc>)
    ensures
        opt_view(r) == entry_of(entries_view(es@), k@),
{
    proof {
        lemma_key_pos(entries_view(es@), k@);
    }
    match key_position(es, k) {
        Some(i) => {
            assert(entries_view(es@)[i as int] == (es@[i as int].0@, es@[i as int].1@));
            Some(&es[i].1)
        },
        None => None,
    }
}

/// `d[k]` for an object `d`.
pub fn get<'a>(d: &'a Doc, k: &str) -> (r: Option<&'a Doc>)
    ensures
        match r {
            Some(x) => field(d@, k@) == Some(x@),
            None => field(d@, k@) is None,
        },
{
    match d {
        Doc::Object(es) => {
            proof {
                lemma_object_view(*es);
                lemma_key_pos(entries_view(es@), k@);
            }
            match key_position(es, k) {
                Some(i) => {
                    assert(entries_view(es@)[i as int] == (es@[i as int].0@, es@[i as int].1@));
                    Some(&es[i].1)
                },
                None => None,
            }
        },
        _ => None,
    }
}

/// The same lookup on an optional document.
pub fn get_in<'a>(d: Option<&'a Doc>, k: &str) -> (r: Option<&'a Doc>)
    ensures
        match r {
            Some(x) => field_of(opt_view(d), k@) == Some(x@),
            None => field_of(opt_view(d), k@) is None,
        },
{
    match d {
        Some(x) => get(x, k),
        None => None,
    }
}

pub open spec fn opt_view(d: Option<&Doc>) -> Option<DocV> {
    match d {
        Some(x) => Some(x@),
        None => None,
    }
}

/// The text of a string document.
pub fn as_str<'a>(d: Option<&'a Doc>) -> (r: Option<&'a str>)
    ensures
        match r {
            Some(s) => str_of(opt_view(d)) == Some(s@),
            None => str_of(opt_view(d)) is None,
        },
{
    match d {
        Some(Doc::Str(s)) => Some(s.as_str()),
        _ => None,
    }
}

// ---- reading JSON text ------------------------------------------------------------

/// `serde_json::Value`, carried opaquely.
#[verifier::external_type_specification]
#[verifier::external_body]
pub struct ExJsonValue(Value);

/// What `serde_json` reads `text` as: the document, or its error message.
pub uninterp spec fn json_parse(text: Seq<char>) -> Result<DocV, Seq<char>>;

/// The conversion step of [`parse_json`]: a `serde_json::Value` taken apart
/// variant for variant (a number as its `Display` rendering, an object's
/// entries in the map's order). Nothing is claimed of it on its own; what
/// [`parse_json`] returns is claimed there.
#[verifier::external_body]
fn doc_of_json(v: Value) -> (d: Doc) {
    match v {
        Value::Null => Doc::Null,
        Value::Bool(b) => Doc::Bool(b),
        Value::Number(n) => Doc::Number(n.to_string()),
        Value::String(s) => Doc::Str(s),
        Value::Array(a) => Doc::Array(a.into_iter().map(doc_of_json).collect()),
        Value::Object(m) => Doc::Object(m.into_iter().map(|(k, v)| (k, doc_of_json(v))).collect()),
    }
}

/// `serde_json::from_str::<serde_json::Value>(text)`, converted to a
/// document, or the parser's error rendered with `Display`. Claimed: the
/// result is the name [`json_parse`] applied to `text`.
#[verifier::external_body]
pub(crate) fn parse_json(text: &str) -> (r: Result<Doc, String>)
    ensures
        match r {
            Ok(d) => json_parse(text@) == Ok::<DocV, Seq<char>>(d@),
            Err(m) => json_parse(text@) == Err::<DocV, Seq<char>>(m@),
        },
{
    match serde_json::from_str::<Value>(text) {
        Ok(v) => Ok(doc_of_json(v)),
        Err(e) => Err(e.to_string()),
    }
}

/// One line of a JSON-lines file: nothing for a blank line, else what the
/// line parses to.
pub fn json_line(line: &str) -> (r: Option<Result<Doc, String>>)
    ensures
        match r {
            None => trim(line@).len() == 0,
            Some(Ok(d)) => trim(line@).len() > 0 && json_parse(line@) == Ok::<DocV, Seq<char>>(d@),
            Some(Err(m)) => trim(line@).len() > 0 && json_parse(line@) == Err::<DocV, Seq<char>>(m@),
        },
{
    if is_blank(line) {
        None
    } else {
        Some(parse_json(line))
    }
}

} // verus!
