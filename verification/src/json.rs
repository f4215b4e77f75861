//! JSON documents as the library reads them, with their mathematical view.
//!
//! Objects keep their members in the order in which the document lists
//! them; keys are looked up by their first occurrence.

use vstd::prelude::*;
use serde_json::Value;
use crate::text::{chars_of, copy_string, owned, str_eq};

verus! {

broadcast use vstd::string::group_string_axioms;

/// A JSON number: a non-negative integer, a negative integer, or any other
/// number kept as its decimal text.
#[derive(Debug, Clone, PartialEq, Eq)]
pub enum JsonNumber {
    PosInt(u64),
    NegInt(i64),
    Float(String),
}

/// A JSON document.
#[derive(Debug)]
pub enum JsonValue {
    Null,
    Bool(bool),
    Number(JsonNumber),
    String(String),
    Array(Vec<JsonValue>),
    Object(Vec<(String, JsonValue)>),
}

/// A number as a value.
pub enum NumberView {
    PosInt(u64),
    NegInt(i64),
    Float(Seq<char>),
}

/// A JSON document as a value.
pub enum JsonView {
    Null,
    Bool(bool),
    Number(NumberView),
    Str(Seq<char>),
    Array(Seq<JsonView>),
    Object(Seq<(Seq<char>, JsonView)>),
}

pub open spec fn nview(n: JsonNumber) -> NumberView {
    match n {
        JsonNumber::PosInt(u) => NumberView::PosInt(u),
        JsonNumber::NegInt(i) => NumberView::NegInt(i),
        JsonNumber::Float(s) => NumberView::Float(s@),
    }
}

/// The view of a document.
pub open spec fn jview(v: JsonValue) -> JsonView
    decreases v,
{
    match v {
        JsonValue::Null => JsonView::Null,
        JsonValue::Bool(b) => JsonView::Bool(b),
        JsonValue::Number(n) => JsonView::Number(nview(n)),
        JsonValue::String(s) => JsonView::Str(s@),
        JsonValue::Array(items) => JsonView::Array(jviews(items@)),
        JsonValue::Object(members) => JsonView::Object(mviews(members@)),
    }
}

/// The views of a list of documents.
pub open spec fn jviews(s: Seq<JsonValue>) -> Seq<JsonView>
    decreases s,
{
    if s.len() == 0 {
        seq![]
    } else {
        jviews(s.drop_last()).push(jview(s.last()))
    }
}

/// The views of a list of object members.
pub open spec fn mviews(s: Seq<(String, JsonValue)>) -> Seq<(Seq<char>, JsonView)>
    decreases s,
{
    if s.len() == 0 {
        seq![]
    } else {
        mviews(s.drop_last()).push((s.last().0@, jview(s.last().1)))
    }
}

pub proof fn lemma_jviews_len(s: Seq<JsonValue>)
    ensures
        jviews(s).len() == s.len(),
        forall|i: int| 0 <= i < s.len() ==> #[trigger] jviews(s)[i] == jview(s[i]),
    decreases s.len(),
{
    if s.len() > 0 {
        lemma_jviews_len(s.drop_last());
        assert forall|i: int| 0 <= i < s.len() implies #[trigger] jviews(s)[i] == jview(s[i]) by {
            if i < s.len() - 1 {
                assert(s.drop_last()[i] == s[i]);
            }
        }
    }
}

pub proof fn lemma_mviews_len(s: Seq<(String, JsonValue)>)
    ensures
        mviews(s).len() == s.len(),
        forall|i: int| 0 <= i < s.len() ==> #[trigger] mviews(s)[i] == (s[i].0@, jview(s[i].1)),
    decreases s.len(),
{
    if s.len() > 0 {
        lemma_mviews_len(s.drop_last());
        assert forall|i: int| 0 <= i < s.len() implies #[trigger] mviews(s)[i] == (s[i].0@, jview(s[i].1)) by {
            if i < s.len() - 1 {
                assert(s.drop_last()[i] == s[i]);
            }
        }
    }
}

pub proof fn lemma_jviews_take(s: Seq<JsonValue>, i: int)
    requires
        0 <= i < s.len(),
    ensures
        jviews(s.take(i + 1)) == jviews(s.take(i)).push(jview(s[i])),
{
    assert(s.take(i + 1).drop_last() =~= s.take(i));
}

pub proof fn lemma_mviews_take(s: Seq<(String, JsonValue)>, i: int)
    requires
        0 <= i < s.len(),
    ensures
        mviews(s.take(i + 1)) == mviews(s.take(i)).push((s[i].0@, jview(s[i].1))),
{
    assert(s.take(i + 1).drop_last() =~= s.take(i));
}

/// The position of the first member named `key`.
pub open spec fn key_index(members: Seq<(Seq<char>, JsonView)>, key: Seq<char>) -> Option<int>
    decreases members.len(),
{
    if members.len() == 0 {
        None
    } else if members[0].0 == key {
        Some(0)
    } else {
        match key_index(members.drop_first(), key) {
            Some(i) => Some(i + 1),
            None => None,
        }
    }
}

/// The value of the first member named `key`.
pub open spec fn lookup(members: Seq<(Seq<char>, JsonView)>, key: Seq<char>) -> Option<JsonView> {
    match key_index(members, key) {
        Some(i) => Some(members[i].1),
        None => None,
    }
}

/// `value.get(key)`: the member of an object, `None` for anything else.
pub open spec fn get(v: JsonView, key: Seq<char>) -> Option<JsonView> {
    match v {
        JsonView::Object(m) => lookup(m, key),
        _ => None,
    }
}

/// `key_index` is the first position holding `key`.
pub proof fn lemma_key_index(members: Seq<(Seq<char>, JsonView)>, key: Seq<char>)
    ensures
        match key_index(members, key) {
            Some(i) => 0 <= i < members.len() && members[i].0 == key
                && forall|k: int| 0 <= k < i ==> (#[trigger] members[k]).0 != key,
            None => forall|k: int| 0 <= k < members.len() ==> (#[trigger] members[k]).0 != key,
        },
    decreases members.len(),
{
    if members.len() > 0 {
        lemma_key_index(members.drop_first(), key);
        assert forall|k: int| 1 <= k < members.len() implies #[trigger] members[k] == members.drop_first()[k - 1] by {}
    }
}

/// A position is the first one holding `key` exactly when `key_index` says so.
pub proof fn lemma_key_index_at(members: Seq<(Seq<char>, JsonView)>, key: Seq<char>, i: int)
    requires
        0 <= i <= members.len(),
        forall|k: int| 0 <= k < i ==> (#[trigger] members[k]).0 != key,
        i < members.len() ==> members[i].0 == key,
    ensures
        key_index(members, key) == (if i < members.len() { Some(i) } else { None::<int> }),
{
    lemma_key_index(members, key);
    match key_index(members, key) {
        Some(j) => {
            if j < i {
                assert(members[j].0 != key);
            }
            if i < j {
                assert(members[i].0 != key);
            }
        },
        None => {
            if i < members.len() {
                assert(members[i].0 != key);
            }
        },
    }
}

/// The index of the first member named `key`.
pub fn find_member(members: &Vec<(String, JsonValue)>, key: &str) -> (r: Option<usize>)
    ensures
        (match r { Some(i) => Some(i as int), None => None::<int> }) == key_index(mviews(members@), key@),
        r matches Some(i) ==> i < members@.len(),
{
    let ghost mv = mviews(members@);
    proof {
        lemma_mviews_len(members@);
    }
    let mut i: usize = 0;
    while i < members.len()
        invariant
            i <= members.len(),
            mv == mviews(members@),
            mv.len() == members@.len(),
            forall|k: int| 0 <= k < members@.len() ==> #[trigger] mv[k] == (members@[k].0@, jview(members@[k].1)),
            forall|k: int| 0 <= k < i ==> (#[trigger] mv[k]).0 != key@,
        decreases members.len() - i,
    {
        if str_eq(members[i].0.as_str(), key) {
            proof {
                lemma_key_index_at(mv, key@, i as int);
            }
            return Some(i);
        }
        assert(mv[i as int].0 != key@);
        i = i + 1;
    }
    proof {
        lemma_key_index_at(mv, key@, i as int);
    }
    None
}

/// `value.get(key)` on a document.
pub fn get_member<'a>(v: &'a JsonValue, key: &str) -> (r: Option<&'a JsonValue>)
    ensures
        match r {
            Some(x) => get(jview(*v), key@) == Some(jview(*x)),
            None => get(jview(*v), key@) is None,
        },
{
    match v {
        JsonValue::Object(members) => {
            match find_member(members, key) {
                Some(i) => {
                    proof {
                        lemma_mviews_len(members@);
                    }
                    Some(&members[i].1)
                },
                None => None,
            }
        },
        _ => None,
    }
}

/// A deep copy of a document.
pub fn copy_json(v: &JsonValue) -> (r: JsonValue)
    ensures
        jview(r) == jview(*v),
    decreases v,
{
    match v {
        JsonValue::Null => JsonValue::Null,
        JsonValue::Bool(b) => JsonValue::Bool(*b),
        JsonValue::Number(n) => JsonValue::Number(match n {
            JsonNumber::PosInt(u) => JsonNumber::PosInt(*u),
            JsonNumber::NegInt(i) => JsonNumber::NegInt(*i),
            JsonNumber::Float(s) => JsonNumber::Float(copy_string(s)),
        }),
        JsonValue::String(s) => JsonValue::String(copy_string(s)),
        JsonValue::Array(items) => {
            let mut out: Vec<JsonValue> = Vec::new();
            let mut i: usize = 0;
            while i < items.len()
                invariant
                    i <= items.len(),
                    jviews(out@) == jviews(items@.take(i as int)),
                    out@.len() == i,
                    *v == JsonValue::Array(*items),
                decreases items.len() - i,
            {
                proof {
                    vstd::std_specs::vec::axiom_vec_index_decreases(*items, i as int);
                    assert(decreases_to!(*v => (*v)->Array_0));
                    assert(decreases_to!(*v => items@[i as int]));
                }
                let c = copy_json(&items[i]);
                proof {
                    lemma_jviews_take(items@, i as int);
                    assert(out@.push(c).drop_last() =~= out@);
                }
                out.push(c);
                i = i + 1;
            }
            assert(items@.take(items.len() as int) =~= items@);
            JsonValue::Array(out)
        },
        JsonValue::Object(members) => {
            let mut out: Vec<(String, JsonValue)> = Vec::new();
            let mut i: usize = 0;
            while i < members.len()
                invariant
                    i <= members.len(),
                    mviews(out@) == mviews(members@.take(i as int)),
                    out@.len() == i,
                    *v == JsonValue::Object(*members),
                decreases members.len() - i,
            {
                proof {
                    vstd::std_specs::vec::axiom_vec_index_decreases(*members, i as int);
                    assert(decreases_to!(*v => (*v)->Object_0));
                    assert(decreases_to!(*v => members@[i as int].1));
                }
                let c = copy_json(&members[i].1);
                let k = copy_string(&members[i].0);
                proof {
                    lemma_mviews_take(members@, i as int);
                    assert(out@.push((k, c)).drop_last() =~= out@);
                }
                out.push((k, c));
                i = i + 1;
            }
            assert(members@.take(members.len() as int) =~= members@);
            JsonValue::Object(out)
        },
    }
}

/// A string as a document.
pub open spec fn jstr(s: Seq<char>) -> JsonView {
    JsonView::Str(s)
}

/// Appends a member to an object's list.
pub fn push_member(out: &mut Vec<(String, JsonValue)>, key: &str, v: JsonValue)
    ensures
        mviews(final(out)@) == mviews(old(out)@).push((key@, jview(v))),
{
    let k = owned(key);
    let ghost vv = jview(v);
    let ghost before = out@;
    out.push((k, v));
    assert(out@.drop_last() =~= before);
}

/// The object with these members.
pub fn object_of(members: Vec<(String, JsonValue)>) -> (r: JsonValue)
    ensures
        jview(r) == JsonView::Object(mviews(members@)),
{
    JsonValue::Object(members)
}

/// A string document.
pub fn jstring(s: &str) -> (r: JsonValue)
    ensures
        jview(r) == jstr(s@),
{
    JsonValue::String(owned(s))
}

/// The array of one document.
pub fn single_array(v: JsonValue) -> (r: JsonValue)
    ensures
        jview(r) == JsonView::Array(seq![jview(v)]),
{
    let mut items: Vec<JsonValue> = Vec::new();
    let ghost vv = jview(v);
    items.push(v);
    proof {
        lemma_jviews_len(items@);
        assert(jviews(items@) =~= seq![vv]);
    }
    JsonValue::Array(items)
}

/// The array of two documents.
pub fn pair_array(a: JsonValue, b: JsonValue) -> (r: JsonValue)
    ensures
        jview(r) == JsonView::Array(seq![jview(a), jview(b)]),
{
    let mut items: Vec<JsonValue> = Vec::new();
    let ghost av = jview(a);
    let ghost bv = jview(b);
    items.push(a);
    items.push(b);
    proof {
        lemma_jviews_len(items@);
        assert(jviews(items@) =~= seq![av, bv]);
    }
    JsonValue::Array(items)
}

/// The object of two members.
pub fn two_members(k1: &str, v1: JsonValue, k2: &str, v2: JsonValue) -> (r: JsonValue)
    ensures
        jview(r) == JsonView::Object(seq![(k1@, jview(v1)), (k2@, jview(v2))]),
{
    let mut m: Vec<(String, JsonValue)> = Vec::new();
    assert(mviews(m@) =~= Seq::<(Seq<char>, JsonView)>::empty());
    push_member(&mut m, k1, v1);
    push_member(&mut m, k2, v2);
    assert(mviews(m@) =~= seq![(k1@, jview(v1)), (k2@, jview(v2))]);
    JsonValue::Object(m)
}

/// The object of one member.
pub fn one_member(k: &str, v: JsonValue) -> (r: JsonValue)
    ensures
        jview(r) == JsonView::Object(seq![(k@, jview(v))]),
{
    let mut m: Vec<(String, JsonValue)> = Vec::new();
    assert(mviews(m@) =~= Seq::<(Seq<char>, JsonView)>::empty());
    push_member(&mut m, k, v);
    assert(mviews(m@) =~= seq![(k@, jview(v))]);
    JsonValue::Object(m)
}

/// `serde_json::Value`, a JSON document as serde_json parses it.
#[verifier::external_type_specification]
#[verifier::external_body]
pub struct ExSerdeJsonValue(serde_json::Value);

/// The document a JSON text denotes, as `serde_json::from_str` parses it
/// into a `serde_json::Value` and the library reads that value (see
/// `document_of`), or `None` when the text is not JSON.
pub uninterp spec fn json_text_value(text: Seq<char>) -> Option<JsonView>;

/// A `serde_json::Value` as the library's document: the same kinds, object
/// members in serde_json's order, integers that fit in a `u64` or an `i64`
/// as such, other numbers as their decimal text.  Only `parse_json_text`
/// uses it; what it gives is part of the name `json_text_value`.
#[verifier::external_body]
fn document_of(value: &Value) -> (r: JsonValue) {
    match value {
        Value::Null => JsonValue::Null,
        Value::Bool(b) => JsonValue::Bool(*b),
        Value::Number(n) => JsonValue::Number(match (n.as_u64(), n.as_i64()) {
            (Some(u), _) => JsonNumber::PosInt(u),
            (None, Some(i)) => JsonNumber::NegInt(i),
            _ => JsonNumber::Float(n.to_string()),
        }),
        Value::String(s) => JsonValue::String(s.clone()),
        Value::Array(items) => JsonValue::Array(items.iter().map(document_of).collect()),
        Value::Object(m) => JsonValue::Object(m.iter().map(|(k, v)| (k.clone(), document_of(v))).collect()),
    }
}

/// Calls `serde_json::from_str::<serde_json::Value>` on `raw` and reads the
/// value as a document; `None` when serde_json refuses the text.  The
/// result depends on the text alone (serde_json keeps object members in
/// key order).
#[verifier::external_body]
pub fn parse_json_text(raw: &str) -> (r: Option<JsonValue>)
    ensures
        match json_text_value(raw@) {
            Some(v) => r matches Some(x) && jview(x) == v,
            None => r is None,
        },
{
    match serde_json::from_str::<serde_json::Value>(raw) {
        Ok(value) => Some(document_of(&value)),
        Err(_) => None,
    }
}

} // verus!
