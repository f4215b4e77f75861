//! Importing a configuration file: reading the export envelope, comparing
//! the imported document with the schema of the configuration, and merging
//! it over the defaults field by field.

use vstd::prelude::*;
use crate::json::{
    copy_json, find_member, get, get_member, jview, jviews, key_index, lemma_jviews_len, lemma_key_index, lemma_key_index_at,
    json_text_value, lemma_jviews_take, lemma_mviews_len, lemma_mviews_take, lookup, mviews,
    parse_json_text, JsonNumber, JsonValue, JsonView, NumberView,
};
use crate::text::{append_chars, chars_of, decimal, owned, push_decimal, str_eq, string_from, strs};

verus! {

broadcast use vstd::string::group_string_axioms;

// ---------------------------------------------------------------------------
// Field paths
// ---------------------------------------------------------------------------

/// `parent.key`, or `key` at the top.
pub open spec fn join_path(parent: Seq<char>, key: Seq<char>) -> Seq<char> {
    if parent.len() == 0 { key } else { parent + "."@ + key }
}

/// `path[index]`.
pub open spec fn index_path(path: Seq<char>, index: nat) -> Seq<char> {
    path + "["@ + decimal(index) + "]"@
}

/// How a path is reported: `config` for the whole document.
pub open spec fn reported(path: Seq<char>) -> Seq<char> {
    if path.len() == 0 { "config"@ } else { path }
}

/// The path of member `key` under `parent`.
pub fn join_field_path(parent: &str, key: &str) -> (r: String)
    ensures
        r@ == join_path(parent@, key@),
{
    let mut v = chars_of(parent);
    if v.len() == 0 {
        return owned(key);
    }
    let dot = chars_of(".");
    append_chars(&mut v, &dot);
    let k = chars_of(key);
    append_chars(&mut v, &k);
    string_from(&v)
}

/// The path of item `index` under `path`.
pub fn index_field_path(path: &str, index: usize) -> (r: String)
    ensures
        r@ == index_path(path@, index as nat),
{
    let mut v = chars_of(path);
    let open = chars_of("[");
    append_chars(&mut v, &open);
    push_decimal(&mut v, index as u64);
    let close = chars_of("]");
    append_chars(&mut v, &close);
    string_from(&v)
}

/// The path as it is reported.
pub fn report_path(path: &str) -> (r: String)
    ensures
        r@ == reported(path@),
{
    if chars_of(path).len() == 0 {
        owned("config")
    } else {
        owned(path)
    }
}

// ---------------------------------------------------------------------------
// Kinds of values
// ---------------------------------------------------------------------------

/// Which of the six JSON kinds a value is.
pub open spec fn kind(v: JsonView) -> int {
    match v {
        JsonView::Null => 0,
        JsonView::Bool(_) => 1,
        JsonView::Number(_) => 2,
        JsonView::Str(_) => 3,
        JsonView::Array(_) => 4,
        JsonView::Object(_) => 5,
    }
}

fn kind_of(v: &JsonValue) -> (r: u8)
    ensures
        r as int == kind(jview(*v)),
{
    match v {
        JsonValue::Null => 0,
        JsonValue::Bool(_) => 1,
        JsonValue::Number(_) => 2,
        JsonValue::String(_) => 3,
        JsonValue::Array(_) => 4,
        JsonValue::Object(_) => 5,
    }
}

/// A value fits the schema when it has the schema's kind; the optional
/// output-token limit may also switch between a number and null.
pub open spec fn matches_schema(v: JsonView, schema: JsonView, path: Seq<char>) -> bool {
    kind(v) == kind(schema)
        || ((kind(v) == 2 && kind(schema) == 0) || (kind(v) == 0 && kind(schema) == 2)) && path == "llm.max_output_tokens"@
}

/// Whether `value` may replace a value shaped like `schema` at `path`.
pub fn value_matches_schema(value: &JsonValue, schema: &JsonValue, path: &str) -> (r: bool)
    ensures
        r == matches_schema(jview(*value), jview(*schema), path@),
{
    let a = kind_of(value);
    let b = kind_of(schema);
    if a == b {
        return true;
    }
    if (a == 2 && b == 0) || (a == 0 && b == 2) {
        return str_eq(path, "llm.max_output_tokens");
    }
    false
}

// ---------------------------------------------------------------------------
// Unknown fields
// ---------------------------------------------------------------------------

/// Paths of the imported fields that the schema does not know, in document
/// order; array items are checked against the schema's first item.
pub open spec fn unknown_spec(i: JsonView, s: JsonView, path: Seq<char>) -> Seq<Seq<char>>
    decreases i, 0nat,
{
    match i {
        JsonView::Object(im) => match s {
            JsonView::Object(sm) => unknown_members(im, sm, path, im.len()),
            _ => seq![],
        },
        JsonView::Array(ia) => match s {
            JsonView::Array(sa) => if sa.len() == 0 { seq![] } else { unknown_items(ia, sa[0], path, ia.len()) },
            _ => seq![],
        },
        _ => seq![],
    }
}

/// Unknown fields among the first `n` members.
pub open spec fn unknown_members(im: Seq<(Seq<char>, JsonView)>, sm: Seq<(Seq<char>, JsonView)>, path: Seq<char>, n: nat) -> Seq<Seq<char>>
    decreases im, n,
{
    if n == 0 || n > im.len() {
        seq![]
    } else {
        let k = im[n - 1].0;
        let fp = join_path(path, k);
        unknown_members(im, sm, path, (n - 1) as nat) + match lookup(sm, k) {
            None => seq![fp],
            Some(sv) => unknown_spec(im[n - 1].1, sv, fp),
        }
    }
}

/// Unknown fields among the first `n` items.
pub open spec fn unknown_items(ia: Seq<JsonView>, item: JsonView, path: Seq<char>, n: nat) -> Seq<Seq<char>>
    decreases ia, n,
{
    if n == 0 || n > ia.len() {
        seq![]
    } else {
        unknown_items(ia, item, path, (n - 1) as nat) + unknown_spec(ia[n - 1], item, index_path(path, (n - 1) as nat))
    }
}

/// Appends the paths of the imported fields that the schema does not know.
pub fn collect_unknown_fields(imported: &JsonValue, schema: &JsonValue, path: &str, unknown_fields: &mut Vec<String>)
    ensures
        strs(final(unknown_fields)@) == strs(old(unknown_fields)@) + unknown_spec(jview(*imported), jview(*schema), path@),
    decreases imported,
{
    match imported {
        JsonValue::Object(im) => {
            let sm = match schema {
                JsonValue::Object(sm) => sm,
                _ => {
                    assert(strs(unknown_fields@) =~= strs(old(unknown_fields)@) + unknown_spec(jview(*imported), jview(*schema), path@));
                    return;
                },
            };
            let ghost imv = mviews(im@);
            let ghost smv = mviews(sm@);
            proof {
                lemma_mviews_len(im@);
                lemma_mviews_len(sm@);
            }
            let mut i: usize = 0;
            assert(strs(unknown_fields@) =~= strs(old(unknown_fields)@) + unknown_members(imv, smv, path@, 0));
            while i < im.len()
                invariant
                    i <= im.len(),
                    *imported == JsonValue::Object(*im),
                    imv == mviews(im@),
                    smv == mviews(sm@),
                    imv.len() == im@.len(),
                    smv.len() == sm@.len(),
                    forall|k: int| 0 <= k < im@.len() ==> #[trigger] imv[k] == (im@[k].0@, jview(im@[k].1)),
                    forall|k: int| 0 <= k < sm@.len() ==> #[trigger] smv[k] == (sm@[k].0@, jview(sm@[k].1)),
                    strs(unknown_fields@) == strs(old(unknown_fields)@) + unknown_members(imv, smv, path@, i as nat),
                decreases im.len() - i,
            {
                let field_path = join_field_path(path, im[i].0.as_str());
                let ghost before = strs(unknown_fields@);
                match find_member(sm, im[i].0.as_str()) {
                    None => {
                        let ghost fp = field_path@;
                        unknown_fields.push(field_path);
                        assert(strs(unknown_fields@) =~= before.push(fp));
                    },
                    Some(j) => {
                        proof {
                            vstd::std_specs::vec::axiom_vec_index_decreases(*im, i as int);
                            assert(decreases_to!(*imported => (*imported)->Object_0));
                        }
                        collect_unknown_fields(&im[i].1, &sm[j].1, field_path.as_str(), unknown_fields);
                    },
                }
                proof {
                    assert(unknown_members(imv, smv, path@, (i + 1) as nat) == unknown_members(imv, smv, path@, i as nat) + match lookup(smv, imv[i as int].0) {
                        None => seq![join_path(path@, imv[i as int].0)],
                        Some(sv) => unknown_spec(imv[i as int].1, sv, join_path(path@, imv[i as int].0)),
                    });
                    assert(strs(unknown_fields@) =~= strs(old(unknown_fields)@) + unknown_members(imv, smv, path@, (i + 1) as nat));
                }
                i = i + 1;
            }
        },
        JsonValue::Array(ia) => {
            let sa = match schema {
                JsonValue::Array(sa) => sa,
                _ => {
                    assert(strs(unknown_fields@) =~= strs(old(unknown_fields)@) + unknown_spec(jview(*imported), jview(*schema), path@));
                    return;
                },
            };
            if sa.len() == 0 {
                proof {
                    lemma_jviews_len(sa@);
                }
                assert(strs(unknown_fields@) =~= strs(old(unknown_fields)@) + unknown_spec(jview(*imported), jview(*schema), path@));
                return;
            }
            let item = &sa[0];
            let ghost iav = jviews(ia@);
            proof {
                lemma_jviews_len(ia@);
                lemma_jviews_len(sa@);
            }
            let mut i: usize = 0;
            assert(strs(unknown_fields@) =~= strs(old(unknown_fields)@) + unknown_items(iav, jview(*item), path@, 0));
            while i < ia.len()
                invariant
                    i <= ia.len(),
                    *imported == JsonValue::Array(*ia),
                    iav == jviews(ia@),
                    iav.len() == ia@.len(),
                    forall|k: int| 0 <= k < ia@.len() ==> #[trigger] iav[k] == jview(ia@[k]),
                    strs(unknown_fields@) == strs(old(unknown_fields)@) + unknown_items(iav, jview(*item), path@, i as nat),
                decreases ia.len() - i,
            {
                let item_path = index_field_path(path, i);
                proof {
                    vstd::std_specs::vec::axiom_vec_index_decreases(*ia, i as int);
                    assert(decreases_to!(*imported => (*imported)->Array_0));
                }
                collect_unknown_fields(&ia[i], item, item_path.as_str(), unknown_fields);
                proof {
                    assert(strs(unknown_fields@) =~= strs(old(unknown_fields)@) + unknown_items(iav, jview(*item), path@, (i + 1) as nat));
                }
                i = i + 1;
            }
        },
        _ => {
            assert(strs(unknown_fields@) =~= strs(old(unknown_fields)@) + unknown_spec(jview(*imported), jview(*schema), path@));
        },
    }
}

// ---------------------------------------------------------------------------
// Missing fields
// ---------------------------------------------------------------------------

/// Paths of the fields that the defaults have and the imported document
/// lacks, in the defaults' order; array items are compared with the
/// schema's first item.
pub open spec fn missing_spec(i: JsonView, d: JsonView, s: JsonView, path: Seq<char>) -> Seq<Seq<char>>
    decreases i, 0nat,
{
    match i {
        JsonView::Object(im) => match d {
            JsonView::Object(dm) => match s {
                JsonView::Object(sm) => missing_members(im, dm, sm, path, dm.len()),
                _ => seq![],
            },
            _ => seq![],
        },
        JsonView::Array(ia) => match s {
            JsonView::Array(sa) => if sa.len() == 0 { seq![] } else { missing_items(ia, sa[0], path, ia.len()) },
            _ => seq![],
        },
        _ => seq![],
    }
}

/// Missing fields among the first `n` members of the defaults.
pub open spec fn missing_members(
    im: Seq<(Seq<char>, JsonView)>,
    dm: Seq<(Seq<char>, JsonView)>,
    sm: Seq<(Seq<char>, JsonView)>,
    path: Seq<char>,
    n: nat,
) -> Seq<Seq<char>>
    decreases im, n,
{
    if n == 0 || n > dm.len() {
        seq![]
    } else {
        let k = dm[n - 1].0;
        let dv = dm[n - 1].1;
        let fp = join_path(path, k);
        let sv = match lookup(sm, k) { Some(v) => v, None => dv };
        missing_members(im, dm, sm, path, (n - 1) as nat) + match key_index(im, k) {
            None => seq![fp],
            Some(x) => {
                proof {
                    crate::json::lemma_key_index(im, k);
                }
                missing_spec(im[x].1, dv, sv, fp)
            },
        }
    }
}

/// Missing fields among the first `n` imported items.
pub open spec fn missing_items(ia: Seq<JsonView>, item: JsonView, path: Seq<char>, n: nat) -> Seq<Seq<char>>
    decreases ia, n,
{
    if n == 0 || n > ia.len() {
        seq![]
    } else {
        missing_items(ia, item, path, (n - 1) as nat) + missing_spec(ia[n - 1], item, item, index_path(path, (n - 1) as nat))
    }
}

/// Appends the paths of the default fields that the imported document lacks.
pub fn collect_missing_fields(
    imported: &JsonValue,
    defaults: &JsonValue,
    schema: &JsonValue,
    path: &str,
    missing_fields: &mut Vec<String>,
)
    ensures
        strs(final(missing_fields)@) == strs(old(missing_fields)@) + missing_spec(jview(*imported), jview(*defaults), jview(*schema), path@),
    decreases imported,
{
    match imported {
        JsonValue::Object(im) => {
            let (dm, sm) = match (defaults, schema) {
                (JsonValue::Object(dm), JsonValue::Object(sm)) => (dm, sm),
                _ => {
                    assert(strs(missing_fields@) =~= strs(old(missing_fields)@) + missing_spec(jview(*imported), jview(*defaults), jview(*schema), path@));
                    return;
                },
            };
            let ghost imv = mviews(im@);
            let ghost dmv = mviews(dm@);
            let ghost smv = mviews(sm@);
            proof {
                lemma_mviews_len(im@);
                lemma_mviews_len(dm@);
                lemma_mviews_len(sm@);
            }
            let mut i: usize = 0;
            assert(strs(missing_fields@) =~= strs(old(missing_fields)@) + missing_members(imv, dmv, smv, path@, 0));
            while i < dm.len()
                invariant
                    i <= dm.len(),
                    *imported == JsonValue::Object(*im),
                    imv == mviews(im@),
                    dmv == mviews(dm@),
                    smv == mviews(sm@),
                    imv.len() == im@.len(),
                    dmv.len() == dm@.len(),
                    smv.len() == sm@.len(),
                    forall|k: int| 0 <= k < im@.len() ==> #[trigger] imv[k] == (im@[k].0@, jview(im@[k].1)),
                    forall|k: int| 0 <= k < dm@.len() ==> #[trigger] dmv[k] == (dm@[k].0@, jview(dm@[k].1)),
                    forall|k: int| 0 <= k < sm@.len() ==> #[trigger] smv[k] == (sm@[k].0@, jview(sm@[k].1)),
                    strs(missing_fields@) == strs(old(missing_fields)@) + missing_members(imv, dmv, smv, path@, i as nat),
                decreases dm.len() - i,
            {
                let key = dm[i].0.as_str();
                let field_path = join_field_path(path, key);
                let ghost before = strs(missing_fields@);
                match find_member(im, key) {
                    None => {
                        let ghost fp = field_path@;
                        missing_fields.push(field_path);
                        assert(strs(missing_fields@) =~= before.push(fp));
                    },
                    Some(x) => {
                        let schema_value = match find_member(sm, key) {
                            Some(j) => &sm[j].1,
                            None => &dm[i].1,
                        };
                        proof {
                            vstd::std_specs::vec::axiom_vec_index_decreases(*im, x as int);
                            assert(decreases_to!(*imported => (*imported)->Object_0));
                        }
                        collect_missing_fields(&im[x].1, &dm[i].1, schema_value, field_path.as_str(), missing_fields);
                    },
                }
                proof {
                    assert(strs(missing_fields@) =~= strs(old(missing_fields)@) + missing_members(imv, dmv, smv, path@, (i + 1) as nat));
                }
                i = i + 1;
            }
        },
        JsonValue::Array(ia) => {
            let sa = match schema {
                JsonValue::Array(sa) => sa,
                _ => {
                    assert(strs(missing_fields@) =~= strs(old(missing_fields)@) + missing_spec(jview(*imported), jview(*defaults), jview(*schema), path@));
                    return;
                },
            };
            proof {
                lemma_jviews_len(sa@);
                lemma_jviews_len(ia@);
            }
            if sa.len() == 0 {
                assert(strs(missing_fields@) =~= strs(old(missing_fields)@) + missing_spec(jview(*imported), jview(*defaults), jview(*schema), path@));
                return;
            }
            let item = &sa[0];
            let ghost iav = jviews(ia@);
            let mut i: usize = 0;
            assert(strs(missing_fields@) =~= strs(old(missing_fields)@) + missing_items(iav, jview(*item), path@, 0));
            while i < ia.len()
                invariant
                    i <= ia.len(),
                    *imported == JsonValue::Array(*ia),
                    iav == jviews(ia@),
                    iav.len() == ia@.len(),
                    forall|k: int| 0 <= k < ia@.len() ==> #[trigger] iav[k] == jview(ia@[k]),
                    strs(missing_fields@) == strs(old(missing_fields)@) + missing_items(iav, jview(*item), path@, i as nat),
                decreases ia.len() - i,
            {
                let item_path = index_field_path(path, i);
                proof {
                    vstd::std_specs::vec::axiom_vec_index_decreases(*ia, i as int);
                    assert(decreases_to!(*imported => (*imported)->Array_0));
                }
                collect_missing_fields(&ia[i], item, item, item_path.as_str(), missing_fields);
                proof {
                    assert(strs(missing_fields@) =~= strs(old(missing_fields)@) + missing_items(iav, jview(*item), path@, (i + 1) as nat));
                }
                i = i + 1;
            }
        },
        _ => {
            assert(strs(missing_fields@) =~= strs(old(missing_fields)@) + missing_spec(jview(*imported), jview(*defaults), jview(*schema), path@));
        },
    }
}

// ---------------------------------------------------------------------------
// Merging
// ---------------------------------------------------------------------------

/// `t` with the imported values laid over it where the schema allows them,
/// and the paths of the imported values that were refused.
pub open spec fn merge_spec(t: JsonView, i: JsonView, s: JsonView, path: Seq<char>) -> (JsonView, Seq<Seq<char>>)
    decreases i, 0nat,
{
    if t is Object && i is Object && s is Object {
        let r = merge_members(t->Object_0, i->Object_0, s->Object_0, path, i->Object_0.len());
        (JsonView::Object(r.0), r.1)
    } else if t is Object && s is Object {
        (t, seq![reported(path)])
    } else if t is Array && i is Array && s is Array {
        if s->Array_0.len() == 0 {
            (i, seq![])
        } else {
            let r = merge_items(i->Array_0, s->Array_0[0], path, i->Array_0.len());
            (JsonView::Array(r.0), r.1)
        }
    } else if t is Array && s is Array {
        (t, seq![reported(path)])
    } else if matches_schema(i, s, path) {
        (i, seq![])
    } else {
        (t, seq![reported(path)])
    }
}

/// Merging the first `n` imported members into the target's members; a
/// member that the target or the schema lacks is skipped.
pub open spec fn merge_members(
    tm: Seq<(Seq<char>, JsonView)>,
    im: Seq<(Seq<char>, JsonView)>,
    sm: Seq<(Seq<char>, JsonView)>,
    path: Seq<char>,
    n: nat,
) -> (Seq<(Seq<char>, JsonView)>, Seq<Seq<char>>)
    decreases im, n,
{
    if n == 0 || n > im.len() {
        (tm, seq![])
    } else {
        let prev = merge_members(tm, im, sm, path, (n - 1) as nat);
        let k = im[n - 1].0;
        let fp = join_path(path, k);
        match (key_index(prev.0, k), lookup(sm, k)) {
            (Some(x), Some(sv)) => {
                let r = merge_spec(prev.0[x].1, im[n - 1].1, sv, fp);
                (prev.0.update(x, (k, r.0)), prev.1 + r.1)
            },
            _ => prev,
        }
    }
}

/// The first `n` imported items checked against the schema item: objects
/// are merged over a copy of the schema item, other items are kept when
/// they have its kind and refused otherwise.
pub open spec fn merge_items(ia: Seq<JsonView>, item: JsonView, path: Seq<char>, n: nat) -> (Seq<JsonView>, Seq<Seq<char>>)
    decreases ia, n,
{
    if n == 0 || n > ia.len() {
        (seq![], seq![])
    } else {
        let prev = merge_items(ia, item, path, (n - 1) as nat);
        let v = ia[n - 1];
        let ip = index_path(path, (n - 1) as nat);
        if v is Object && item is Object {
            let r = merge_spec(item, v, item, ip);
            (prev.0.push(r.0), prev.1 + r.1)
        } else if matches_schema(v, item, ip) {
            (prev.0.push(v), prev.1)
        } else {
            (prev.0, prev.1.push(ip))
        }
    }
}

/// Whether an imported value is refused in place of the target's value:
/// an object or a list where the schema has one is replaced only by an
/// object or a list, and any other value only by one of the schema's kind.
pub open spec fn refused(t: JsonView, i: JsonView, s: JsonView, path: Seq<char>) -> bool {
    if t is Object && s is Object {
        !(i is Object)
    } else if t is Array && s is Array {
        !(i is Array)
    } else {
        !matches_schema(i, s, path)
    }
}

/// Whether `k` names at most one member.
pub open spec fn key_once(m: Seq<(Seq<char>, JsonView)>, k: Seq<char>) -> bool {
    forall|a: int, b: int| 0 <= a < m.len() && 0 <= b < m.len() && m[a].0 == k && m[b].0 == k ==> a == b
}

proof fn lemma_refused_member(
    tm: Seq<(Seq<char>, JsonView)>,
    im: Seq<(Seq<char>, JsonView)>,
    sm: Seq<(Seq<char>, JsonView)>,
    path: Seq<char>,
    n: nat,
    k: Seq<char>,
    x: int,
    q: int,
)
    requires
        n <= im.len(),
        key_index(tm, k) == Some(x),
        lookup(sm, k) is Some,
        0 <= q < im.len(),
        im[q].0 == k,
        key_once(im, k),
        refused(tm[x].1, im[q].1, lookup(sm, k)->0, join_path(path, k)),
    ensures
        merge_members(tm, im, sm, path, n).0.len() == tm.len(),
        forall|j: int| 0 <= j < tm.len() ==> (#[trigger] merge_members(tm, im, sm, path, n).0[j]).0 == tm[j].0,
        merge_members(tm, im, sm, path, n).0[x] == tm[x],
        n > q ==> merge_members(tm, im, sm, path, n).1.contains(reported(join_path(path, k))),
    decreases n,
{
    lemma_key_index(tm, k);
    if n > 0 {
        lemma_refused_member(tm, im, sm, path, (n - 1) as nat, k, x, q);
        let prev = merge_members(tm, im, sm, path, (n - 1) as nat);
        let kk = im[n - 1].0;
        let fp = join_path(path, kk);
        let cur = merge_members(tm, im, sm, path, n);
        match (key_index(prev.0, kk), lookup(sm, kk)) {
            (Some(y), Some(sv)) => {
                lemma_key_index(prev.0, kk);
                let r = merge_spec(prev.0[y].1, im[n - 1].1, sv, fp);
                assert(cur.0 == prev.0.update(y, (kk, r.0)));
                assert(cur.1 == prev.1 + r.1);
                if kk == k {
                    assert(n - 1 == q);
                    lemma_key_index_at(prev.0, k, x);
                    assert(y == x);
                    assert(r == (tm[x].1, seq![reported(join_path(path, k))]));
                    assert(cur.0[x] == tm[x]);
                    assert(cur.1[prev.1.len() as int] == reported(join_path(path, k)));
                } else {
                    assert(y != x);
                    assert(n - 1 != q);
                    if n - 1 > q {
                        let w = choose|w: int| 0 <= w < prev.1.len() && prev.1[w] == reported(join_path(path, k));
                        assert(cur.1[w] == prev.1[w]);
                    }
                }
            },
            _ => {
                if kk == k {
                    lemma_key_index_at(prev.0, k, x);
                }
            },
        }
    }
}

/// An imported member of the wrong kind is refused: the merged document
/// keeps the target's value for it, and its path is reported as invalid.
/// This holds of every member of the configuration at any depth, with the
/// defaults as the target.
pub proof fn law_refused_member_keeps_its_value(t: JsonView, i: JsonView, s: JsonView, path: Seq<char>, k: Seq<char>)
    requires
        t is Object,
        i is Object,
        s is Object,
        get(t, k) is Some,
        get(s, k) is Some,
        get(i, k) is Some,
        key_once(i->Object_0, k),
        refused(get(t, k)->0, get(i, k)->0, get(s, k)->0, join_path(path, k)),
    ensures
        get(merge_spec(t, i, s, path).0, k) == get(t, k),
        merge_spec(t, i, s, path).1.contains(reported(join_path(path, k))),
{
    let tm = t->Object_0;
    let im = i->Object_0;
    let sm = s->Object_0;
    lemma_key_index(tm, k);
    lemma_key_index(im, k);
    let x = key_index(tm, k)->0;
    let q = key_index(im, k)->0;
    lemma_refused_member(tm, im, sm, path, im.len(), k, x, q);
    let m = merge_members(tm, im, sm, path, im.len());
    assert forall|j: int| 0 <= j < x implies (#[trigger] m.0[j]).0 != k by {
        assert(m.0[j].0 == tm[j].0);
    }
    lemma_key_index_at(m.0, k, x);
}

/// Whether no two members share a key.
pub open spec fn distinct_keys(m: Seq<(Seq<char>, JsonView)>) -> bool {
    forall|a: int, b: int| 0 <= a < b < m.len() ==> m[a].0 != m[b].0
}

/// Whether the document `i` conforms to the schema `s` over the target `t`
/// at `path`: an object has the target's keys, in the target's order, each
/// once and known to the schema, with conforming values; a list's items
/// have the shape of the schema's item (an object item has exactly the
/// item's keys); any other value is a scalar of the schema's kind.
pub open spec fn conforms(t: JsonView, i: JsonView, s: JsonView, path: Seq<char>) -> bool
    decreases i, 0nat,
{
    if t is Object && s is Object {
        &&& i is Object
        &&& i->Object_0.len() == t->Object_0.len()
        &&& distinct_keys(i->Object_0)
        &&& forall|j: int| 0 <= j < i->Object_0.len() ==> {
            let k = (#[trigger] i->Object_0[j]).0;
            &&& k == t->Object_0[j].0
            &&& lookup(s->Object_0, k) is Some
            &&& conforms(t->Object_0[j].1, i->Object_0[j].1, lookup(s->Object_0, k)->0, join_path(path, k))
        }
    } else if t is Array && s is Array {
        &&& i is Array
        &&& s->Array_0.len() > 0 ==> forall|j: int| 0 <= j < i->Array_0.len() ==> {
            let v = #[trigger] i->Array_0[j];
            let item = s->Array_0[0];
            if (v is Object && item is Object) || (v is Array && item is Array) {
                conforms(item, v, item, index_path(path, j as nat))
            } else {
                matches_schema(v, item, index_path(path, j as nat))
            }
        }
    } else {
        &&& !(i is Object)
        &&& !(i is Array)
        &&& matches_schema(i, s, path)
    }
}

proof fn lemma_members_conform(
    tm: Seq<(Seq<char>, JsonView)>,
    im: Seq<(Seq<char>, JsonView)>,
    sm: Seq<(Seq<char>, JsonView)>,
    path: Seq<char>,
    n: nat,
)
    requires
        n <= im.len(),
        im.len() == tm.len(),
        distinct_keys(im),
        forall|j: int| 0 <= j < im.len() ==> {
            let k = (#[trigger] im[j]).0;
            &&& k == tm[j].0
            &&& lookup(sm, k) is Some
            &&& conforms(tm[j].1, im[j].1, lookup(sm, k)->0, join_path(path, k))
        },
    ensures
        merge_members(tm, im, sm, path, n) == (im.take(n as int) + tm.skip(n as int), Seq::<Seq<char>>::empty()),
        missing_members(im, tm, sm, path, n) == Seq::<Seq<char>>::empty(),
        unknown_members(im, sm, path, n) == Seq::<Seq<char>>::empty(),
    decreases im, n,
{
    if n == 0 {
        assert(im.take(0) + tm.skip(0) =~= tm);
    } else {
        lemma_members_conform(tm, im, sm, path, (n - 1) as nat);
        let j = n - 1;
        let k = im[j].0;
        let fp = join_path(path, k);
        let sv = lookup(sm, k)->0;
        lemma_conforms(tm[j].1, im[j].1, sv, fp);
        let prev = merge_members(tm, im, sm, path, (n - 1) as nat);
        assert forall|a: int| 0 <= a < j implies (#[trigger] prev.0[a]).0 != k by {
            assert(prev.0[a] == im[a]);
        }
        assert(prev.0[j] == tm[j]);
        lemma_key_index_at(prev.0, k, j);
        assert forall|a: int| 0 <= a < j implies (#[trigger] im[a]).0 != k by {}
        lemma_key_index_at(im, k, j);
        assert(prev.0.update(j, (k, im[j].1)) =~= im.take(n as int) + tm.skip(n as int));
        assert(prev.1 + Seq::<Seq<char>>::empty() =~= Seq::<Seq<char>>::empty());
        assert(missing_members(im, tm, sm, path, (n - 1) as nat) + Seq::<Seq<char>>::empty() =~= Seq::<Seq<char>>::empty());
        assert(unknown_members(im, sm, path, (n - 1) as nat) + Seq::<Seq<char>>::empty() =~= Seq::<Seq<char>>::empty());
    }
}

proof fn lemma_items_conform(ia: Seq<JsonView>, item: JsonView, path: Seq<char>, n: nat)
    requires
        n <= ia.len(),
        forall|j: int| 0 <= j < ia.len() ==> {
            let v = #[trigger] ia[j];
            if (v is Object && item is Object) || (v is Array && item is Array) {
                conforms(item, v, item, index_path(path, j as nat))
            } else {
                matches_schema(v, item, index_path(path, j as nat))
            }
        },
    ensures
        merge_items(ia, item, path, n) == (ia.take(n as int), Seq::<Seq<char>>::empty()),
        missing_items(ia, item, path, n) == Seq::<Seq<char>>::empty(),
        unknown_items(ia, item, path, n) == Seq::<Seq<char>>::empty(),
    decreases ia, n,
{
    if n == 0 {
        assert(ia.take(0) =~= Seq::<JsonView>::empty());
    } else {
        lemma_items_conform(ia, item, path, (n - 1) as nat);
        let j = n - 1;
        let v = ia[j];
        let ip = index_path(path, j as nat);
        if (v is Object && item is Object) || (v is Array && item is Array) {
            lemma_conforms(item, v, item, ip);
        } else {
            assert(!(v is Object) && !(v is Array)) by {
                if v is Object || v is Array {
                    assert(kind(v) == kind(item));
                }
            }
            assert(missing_spec(v, item, item, ip) == Seq::<Seq<char>>::empty());
        }
        assert(ia.take((n - 1) as int).push(v) =~= ia.take(n as int));
        assert(Seq::<Seq<char>>::empty() + Seq::<Seq<char>>::empty() =~= Seq::<Seq<char>>::empty());
    }
}

proof fn lemma_conforms(t: JsonView, i: JsonView, s: JsonView, path: Seq<char>)
    requires
        conforms(t, i, s, path),
    ensures
        merge_spec(t, i, s, path) == (i, Seq::<Seq<char>>::empty()),
        missing_spec(i, t, s, path) == Seq::<Seq<char>>::empty(),
        unknown_spec(i, s, path) == Seq::<Seq<char>>::empty(),
    decreases i, 0nat,
{
    if t is Object && s is Object {
        let tm = t->Object_0;
        let im = i->Object_0;
        let sm = s->Object_0;
        lemma_members_conform(tm, im, sm, path, im.len());
        assert(im.take(im.len() as int) + tm.skip(im.len() as int) =~= im);
    } else if t is Array && s is Array {
        let ia = i->Array_0;
        let sa = s->Array_0;
        if sa.len() > 0 {
            lemma_items_conform(ia, sa[0], path, ia.len());
            assert(ia.take(ia.len() as int) =~= ia);
        }
    }
}

/// The export envelope of the configuration document `d`, as the
/// application writes it (serde_json lists the members in key order).
pub open spec fn export_envelope(d: JsonView, exported_at: Seq<char>) -> JsonView {
    JsonView::Object(seq![
        ("config"@, d),
        ("exported_at"@, JsonView::Str(exported_at)),
        ("format"@, JsonView::Str("boltscribe.config"@)),
        ("version"@, JsonView::Number(NumberView::PosInt(1))),
    ])
}

/// An exported configuration comes back unchanged: when the configuration
/// `c` conforms to the schema over the defaults `d` (the shape every
/// configuration the application writes has), importing its export
/// prepares `c` itself, with no missing, unknown or invalid field and no
/// note, and the export's format and version.
pub proof fn law_export_import_round_trip(
    d: JsonView,
    c: JsonView,
    exported_at: Seq<char>,
    r: Result<PreparedImport, String>,
)
    requires
        d is Object,
        conforms(d, c, schema_fold(d, 13), Seq::<char>::empty()),
        import_outcome(export_envelope(c, exported_at), d, r),
    ensures
        r matches Ok(p) && {
            &&& jview(p.merged) == c
            &&& p.report.missing_fields@.len() == 0
            &&& p.report.unknown_fields@.len() == 0
            &&& p.report.invalid_fields@.len() == 0
            &&& p.report.notes@.len() == 0
            &&& (p.report.format matches Some(f) && f@ == "boltscribe.config"@)
            &&& p.report.version == Some(1u32)
        },
{
    reveal_strlit("config");
    reveal_strlit("exported_at");
    reveal_strlit("format");
    reveal_strlit("version");
    reveal_strlit("boltscribe.config");
    reveal_strlit("");
    assert(""@ =~= Seq::<char>::empty());
    let v = export_envelope(c, exported_at);
    let m = v->Object_0;
    let s = schema_fold(d, 13);
    lemma_conforms(d, c, s, Seq::<char>::empty());
    assert(key_index(m, "config"@) == Some(0int));
    assert(m[0].0 == "config"@ && m[1].0 == "exported_at"@);
    assert("config"@[0] != "format"@[0]);
    assert("exported_at"@.len() != "format"@.len());
    assert(m[0].0 != "format"@);
    assert(m[1].0 != "format"@);
    lemma_key_index_at(m, "format"@, 2);
    assert(m[0].0 != "version"@);
    assert(m[1].0 != "version"@);
    assert(m[2].0 != "version"@);
    lemma_key_index_at(m, "version"@, 3);
    assert(extracted(v) == Ok::<JsonView, Seq<char>>(c));
    assert(envelope_key(m[0].0) && envelope_key(m[1].0) && envelope_key(m[2].0) && envelope_key(m[3].0));
    assert(m.len() == 4);
    assert(envelope_unknown(m, 0) =~= Seq::<Seq<char>>::empty());
    assert(envelope_key(m[0].0));
    assert(envelope_unknown(m, 1) == envelope_unknown(m, 0));
    assert(envelope_unknown(m, 1) =~= Seq::<Seq<char>>::empty());
    assert(envelope_unknown(m, 2) =~= Seq::<Seq<char>>::empty());
    assert(envelope_unknown(m, 3) =~= Seq::<Seq<char>>::empty());
    assert(envelope_unknown(m, 4) =~= Seq::<Seq<char>>::empty());
    assert(envelope_report(v) == (Some("boltscribe.config"@), Some(1u32), Seq::<Seq<char>>::empty(), Seq::<Seq<char>>::empty()));
    assert(envelope_notes(Some("boltscribe.config"@), Some(1u32)) =~= Seq::<Seq<char>>::empty());
    assert(r is Ok);
    let p = r->Ok_0;
    assert(jview(p.merged) == c);
    assert(strs(p.report.unknown_fields@) =~= Seq::<Seq<char>>::empty() + Seq::<Seq<char>>::empty());
    assert(strs(p.report.missing_fields@).len() == p.report.missing_fields@.len());
    assert(strs(p.report.invalid_fields@).len() == p.report.invalid_fields@.len());
    assert(strs(p.report.unknown_fields@).len() == p.report.unknown_fields@.len());
    assert(strs(p.report.notes@).len() == p.report.notes@.len());
}

/// Importing an export of the defaults changes nothing: when the defaults
/// conform to their own schema, the prepared import is the defaults
/// themselves, with no missing, unknown or invalid field and no note, and
/// the export's format and version.
pub proof fn law_importing_exported_defaults_changes_nothing(
    d: JsonView,
    exported_at: Seq<char>,
    r: Result<PreparedImport, String>,
)
    requires
        d is Object,
        conforms(d, d, schema_fold(d, 13), Seq::<char>::empty()),
        import_outcome(export_envelope(d, exported_at), d, r),
    ensures
        r matches Ok(p) && {
            &&& jview(p.merged) == d
            &&& p.report.missing_fields@.len() == 0
            &&& p.report.unknown_fields@.len() == 0
            &&& p.report.invalid_fields@.len() == 0
            &&& p.report.notes@.len() == 0
            &&& (p.report.format matches Some(f) && f@ == "boltscribe.config"@)
            &&& p.report.version == Some(1u32)
        },
{
    law_export_import_round_trip(d, d, exported_at, r);
}

proof fn lemma_mviews_update(s: Seq<(String, JsonValue)>, x: int, m: (String, JsonValue))
    requires
        0 <= x < s.len(),
    ensures
        mviews(s.update(x, m)) == mviews(s).update(x, (m.0@, jview(m.1))),
{
    lemma_mviews_len(s);
    lemma_mviews_len(s.update(x, m));
    assert(mviews(s.update(x, m)) =~= mviews(s).update(x, (m.0@, jview(m.1))));
}

fn copy_members(members: &Vec<(String, JsonValue)>) -> (r: Vec<(String, JsonValue)>)
    ensures
        mviews(r@) == mviews(members@),
{
    let mut out: Vec<(String, JsonValue)> = Vec::new();
    let mut i: usize = 0;
    while i < members.len()
        invariant
            i <= members.len(),
            mviews(out@) == mviews(members@.take(i as int)),
        decreases members.len() - i,
    {
        let c = copy_json(&members[i].1);
        let k = crate::text::copy_string(&members[i].0);
        proof {
            lemma_mviews_take(members@, i as int);
            assert(out@.push((k, c)).drop_last() =~= out@);
        }
        out.push((k, c));
        i = i + 1;
    }
    assert(members@.take(members.len() as int) =~= members@);
    out
}

/// The merge of `imported` over `target` (see [`merge_spec`]), appending
/// the refused paths to `invalid_fields`.
pub fn merged_value(
    target: &JsonValue,
    imported: &JsonValue,
    schema: &JsonValue,
    path: &str,
    invalid_fields: &mut Vec<String>,
) -> (r: JsonValue)
    ensures
        jview(r) == merge_spec(jview(*target), jview(*imported), jview(*schema), path@).0,
        strs(final(invalid_fields)@) == strs(old(invalid_fields)@) + merge_spec(jview(*target), jview(*imported), jview(*schema), path@).1,
    decreases imported,
{
    let ghost tv = jview(*target);
    let ghost iv = jview(*imported);
    let ghost sv = jview(*schema);
    let tk = kind_of(target);
    let ik = kind_of(imported);
    let sk = kind_of(schema);
    if tk == 5 && ik == 5 && sk == 5 {
        let (tm, im, sm) = match (target, imported, schema) {
            (JsonValue::Object(tm), JsonValue::Object(im), JsonValue::Object(sm)) => (tm, im, sm),
            _ => { proof { assert(false); } return JsonValue::Null; },
        };
        let ghost tmv = mviews(tm@);
        let ghost imv = mviews(im@);
        let ghost smv = mviews(sm@);
        proof {
            lemma_mviews_len(im@);
            lemma_mviews_len(sm@);
        }
        let mut cur = copy_members(tm);
        let mut i: usize = 0;
        assert(strs(invalid_fields@) =~= strs(old(invalid_fields)@) + merge_members(tmv, imv, smv, path@, 0).1);
        while i < im.len()
            invariant
                i <= im.len(),
                *imported == JsonValue::Object(*im),
                tmv == mviews(tm@),
                imv == mviews(im@),
                smv == mviews(sm@),
                imv.len() == im@.len(),
                smv.len() == sm@.len(),
                forall|k: int| 0 <= k < im@.len() ==> #[trigger] imv[k] == (im@[k].0@, jview(im@[k].1)),
                forall|k: int| 0 <= k < sm@.len() ==> #[trigger] smv[k] == (sm@[k].0@, jview(sm@[k].1)),
                mviews(cur@) == merge_members(tmv, imv, smv, path@, i as nat).0,
                strs(invalid_fields@) == strs(old(invalid_fields)@) + merge_members(tmv, imv, smv, path@, i as nat).1,
            decreases im.len() - i,
        {
            let key = im[i].0.as_str();
            let field_path = join_field_path(path, key);
            let found_target = find_member(&cur, key);
            let found_schema = find_member(sm, key);
            let ghost prev_inv = strs(invalid_fields@);
            let ghost prev = merge_members(tmv, imv, smv, path@, i as nat);
            proof {
                assert(imv[i as int].0 == key@);
                crate::json::lemma_key_index(mviews(cur@), key@);
                lemma_mviews_len(cur@);
            }
            match (found_target, found_schema) {
                (Some(x), Some(j)) => {
                    proof {
                        vstd::std_specs::vec::axiom_vec_index_decreases(*im, i as int);
                        assert(decreases_to!(*imported => (*imported)->Object_0));
                        assert(prev.0[x as int].1 == jview(cur@[x as int].1));
                        assert(lookup(smv, key@) == Some(jview(sm@[j as int].1)));
                    }
                    let nv = merged_value(&cur[x].1, &im[i].1, &sm[j].1, field_path.as_str(), invalid_fields);
                    let k = crate::text::copy_string(&cur[x].0);
                    proof {
                        lemma_mviews_update(cur@, x as int, (k, nv));
                        assert(k@ == key@);
                    }
                    cur.set(x, (k, nv));
                    proof {
                        assert(mviews(cur@) == prev.0.update(x as int, (key@, jview(nv))));
                    }
                },
                _ => {},
            }
            proof {
                assert(strs(invalid_fields@) =~= strs(old(invalid_fields)@) + merge_members(tmv, imv, smv, path@, (i + 1) as nat).1);
            }
            i = i + 1;
        }
        return JsonValue::Object(cur);
    }
    if tk == 5 && sk == 5 {
        let p = report_path(path);
        let ghost pv = p@;
        invalid_fields.push(p);
        assert(strs(invalid_fields@) =~= strs(old(invalid_fields)@).push(pv));
        return copy_json(target);
    }
    if tk == 4 && ik == 4 && sk == 4 {
        let (ia, sa) = match (imported, schema) {
            (JsonValue::Array(ia), JsonValue::Array(sa)) => (ia, sa),
            _ => { proof { assert(false); } return JsonValue::Null; },
        };
        proof {
            lemma_jviews_len(ia@);
            lemma_jviews_len(sa@);
        }
        if sa.len() == 0 {
            assert(strs(invalid_fields@) =~= strs(old(invalid_fields)@) + merge_spec(tv, iv, sv, path@).1);
            return copy_json(imported);
        }
        let item = &sa[0];
        let ghost iav = jviews(ia@);
        let mut kept: Vec<JsonValue> = Vec::new();
        let mut i: usize = 0;
        assert(strs(invalid_fields@) =~= strs(old(invalid_fields)@) + merge_items(iav, jview(*item), path@, 0).1);
        assert(jviews(kept@) =~= merge_items(iav, jview(*item), path@, 0).0);
        while i < ia.len()
            invariant
                i <= ia.len(),
                *imported == JsonValue::Array(*ia),
                iav == jviews(ia@),
                iav.len() == ia@.len(),
                forall|k: int| 0 <= k < ia@.len() ==> #[trigger] iav[k] == jview(ia@[k]),
                jviews(kept@) == merge_items(iav, jview(*item), path@, i as nat).0,
                strs(invalid_fields@) == strs(old(invalid_fields)@) + merge_items(iav, jview(*item), path@, i as nat).1,
            decreases ia.len() - i,
        {
            let item_path = index_field_path(path, i);
            let ghost prev_kept = jviews(kept@);
            if kind_of(&ia[i]) == 5 && kind_of(item) == 5 {
                proof {
                    vstd::std_specs::vec::axiom_vec_index_decreases(*ia, i as int);
                    assert(decreases_to!(*imported => (*imported)->Array_0));
                }
                let nv = merged_value(item, &ia[i], item, item_path.as_str(), invalid_fields);
                proof {
                    assert(kept@.push(nv).drop_last() =~= kept@);
                }
                kept.push(nv);
            } else if value_matches_schema(&ia[i], item, item_path.as_str()) {
                let c = copy_json(&ia[i]);
                proof {
                    assert(kept@.push(c).drop_last() =~= kept@);
                }
                kept.push(c);
            } else {
                let ghost ipv = item_path@;
                invalid_fields.push(item_path);
                assert(strs(invalid_fields@) =~= (strs(old(invalid_fields)@) + merge_items(iav, jview(*item), path@, i as nat).1).push(ipv));
            }
            proof {
                assert(strs(invalid_fields@) =~= strs(old(invalid_fields)@) + merge_items(iav, jview(*item), path@, (i + 1) as nat).1);
            }
            i = i + 1;
        }
        return JsonValue::Array(kept);
    }
    if tk == 4 && sk == 4 {
        let p = report_path(path);
        let ghost pv = p@;
        invalid_fields.push(p);
        assert(strs(invalid_fields@) =~= strs(old(invalid_fields)@).push(pv));
        return copy_json(target);
    }
    if value_matches_schema(imported, schema, path) {
        assert(strs(invalid_fields@) =~= strs(old(invalid_fields)@) + merge_spec(tv, iv, sv, path@).1);
        copy_json(imported)
    } else {
        let p = report_path(path);
        let ghost pv = p@;
        invalid_fields.push(p);
        assert(strs(invalid_fields@) =~= strs(old(invalid_fields)@).push(pv));
        copy_json(target)
    }
}

/// Lays `imported` over `target` where the schema allows it, appending the
/// paths of the refused values to `invalid_fields`.
pub fn merge_imported_value(
    target: &mut JsonValue,
    imported: JsonValue,
    schema: &JsonValue,
    path: &str,
    invalid_fields: &mut Vec<String>,
)
    ensures
        jview(*final(target)) == merge_spec(jview(*old(target)), jview(imported), jview(*schema), path@).0,
        strs(final(invalid_fields)@) == strs(old(invalid_fields)@) + merge_spec(jview(*old(target)), jview(imported), jview(*schema), path@).1,
{
    let r = merged_value(&*target, &imported, schema, path, invalid_fields);
    *target = r;
}

// ---------------------------------------------------------------------------
// The export envelope
// ---------------------------------------------------------------------------

/// `as_str` of an optional value.
pub open spec fn str_of(v: Option<JsonView>) -> Option<Seq<char>> {
    match v {
        Some(JsonView::Str(s)) => Some(s),
        _ => None,
    }
}

/// `as_u64` of an optional value, kept only when it fits in a `u32`.
pub open spec fn u32_of(v: Option<JsonView>) -> Option<u32> {
    match v {
        Some(JsonView::Number(crate::json::NumberView::PosInt(n))) => if n <= u32::MAX { Some(n as u32) } else { None },
        _ => None,
    }
}

/// Whether an object carries any of the export envelope's fields.
pub open spec fn looks_like_envelope(m: Seq<(Seq<char>, JsonView)>) -> bool {
    key_index(m, "config"@) is Some || key_index(m, "format"@) is Some || key_index(m, "version"@) is Some
        || key_index(m, "exported_at"@) is Some
}

/// Notes on the envelope's format and version.
pub open spec fn envelope_notes(format: Option<Seq<char>>, version: Option<u32>) -> Seq<Seq<char>> {
    let f: Seq<Seq<char>> = match format {
        None => seq!["Import file has no format field."@],
        Some(f) => if f == "boltscribe.config"@ { seq![] } else {
            seq!["Import format is \""@ + f + "\", expected \"boltscribe.config\"."@]
        },
    };
    let v: Seq<Seq<char>> = match version {
        None => seq!["Import file has no numeric version field."@],
        Some(v) => if v > 1 {
            seq!["Import version "@ + decimal(v as nat) + " is newer than supported version 1; unknown fields were ignored."@]
        } else {
            seq![]
        },
    };
    f + v
}

pub open spec fn envelope_key(k: Seq<char>) -> bool {
    k == "format"@ || k == "version"@ || k == "exported_at"@ || k == "config"@
}

/// `envelope.key` for each of the first `n` members that is no envelope field.
pub open spec fn envelope_unknown(m: Seq<(Seq<char>, JsonView)>, n: nat) -> Seq<Seq<char>>
    decreases n,
{
    if n == 0 || n > m.len() {
        seq![]
    } else if envelope_key(m[n - 1].0) {
        envelope_unknown(m, (n - 1) as nat)
    } else {
        envelope_unknown(m, (n - 1) as nat).push("envelope."@ + m[n - 1].0)
    }
}

/// The report fields other than the lists of missing and invalid fields.
pub open spec fn report_rest(r: crate::config::ConfigImportReport) -> (Option<Seq<char>>, Option<u32>, Seq<Seq<char>>, Seq<Seq<char>>) {
    (match r.format { Some(f) => Some(f@), None => None }, r.version, strs(r.unknown_fields@), strs(r.notes@))
}

fn push_note(notes: &mut Vec<String>, parts: &Vec<char>)
    ensures
        strs(final(notes)@) == strs(old(notes)@).push(parts@),
{
    let s = string_from(parts);
    let ghost sv = s@;
    notes.push(s);
    assert(strs(notes@) =~= strs(old(notes)@).push(sv));
}

/// The configuration inside an imported document: the `config` member of an
/// export envelope (whose format, version and other members are reported),
/// or the whole document when it carries no envelope fields.
pub fn extract_imported_config(value: JsonValue, report: &mut crate::config::ConfigImportReport) -> (r: Result<JsonValue, String>)
    ensures
        final(report).missing_fields == old(report).missing_fields,
        final(report).invalid_fields == old(report).invalid_fields,
        match jview(value) {
            JsonView::Object(m) => if !looks_like_envelope(m) {
                &&& r matches Ok(v) && jview(v) == jview(value)
                &&& report_rest(*final(report)) == (report_rest(*old(report)).0, report_rest(*old(report)).1, report_rest(*old(report)).2,
                        report_rest(*old(report)).3.push("Imported legacy plain config JSON without export metadata."@))
            } else {
                let format = str_of(lookup(m, "format"@));
                let version = u32_of(lookup(m, "version"@));
                &&& report_rest(*final(report)) == (format, version, report_rest(*old(report)).2 + envelope_unknown(m, m.len()),
                        report_rest(*old(report)).3 + envelope_notes(format, version))
                &&& match lookup(m, "config"@) {
                    Some(c) => r matches Ok(v) && jview(v) == c,
                    None => r matches Err(e) && e@ == "Import file does not contain a config object"@,
                }
            },
            _ => r matches Err(e) && e@ == "Imported config must be a JSON object"@ && report_rest(*final(report)) == report_rest(*old(report)),
        },
{
    let members = match &value {
        JsonValue::Object(m) => m,
        _ => {
            return Err(owned("Imported config must be a JSON object"));
        },
    };
    let ghost mv = mviews(members@);
    proof {
        lemma_mviews_len(members@);
    }
    let has_config = find_member(members, "config").is_some();
    let has_format = find_member(members, "format").is_some();
    let has_version = find_member(members, "version").is_some();
    let has_exported = find_member(members, "exported_at").is_some();
    if !(has_config || has_format || has_version || has_exported) {
        let note = chars_of("Imported legacy plain config JSON without export metadata.");
        push_note(&mut report.notes, &note);
        return Ok(value);
    }
    let format: Option<String> = match get_member(&value, "format") {
        Some(JsonValue::String(f)) => Some(crate::text::copy_string(f)),
        _ => None,
    };
    let version: Option<u32> = match get_member(&value, "version") {
        Some(JsonValue::Number(JsonNumber::PosInt(n))) => if *n <= 4294967295u64 { Some(*n as u32) } else { None },
        _ => None,
    };
    report.format = match &format {
        Some(f) => Some(crate::text::copy_string(f)),
        None => None,
    };
    report.version = version;
    let ghost notes0 = strs(report.notes@);
    match &format {
        None => {
            let note = chars_of("Import file has no format field.");
            push_note(&mut report.notes, &note);
        },
        Some(f) => {
            if !str_eq(f.as_str(), "boltscribe.config") {
                let mut note = chars_of("Import format is \"");
                let fv = chars_of(f.as_str());
                append_chars(&mut note, &fv);
                let tail = chars_of("\", expected \"boltscribe.config\".");
                append_chars(&mut note, &tail);
                push_note(&mut report.notes, &note);
            }
        },
    }
    match version {
        None => {
            let note = chars_of("Import file has no numeric version field.");
            push_note(&mut report.notes, &note);
        },
        Some(v) => {
            if v > 1 {
                let mut note = chars_of("Import version ");
                push_decimal(&mut note, v as u64);
                let tail = chars_of(" is newer than supported version 1; unknown fields were ignored.");
                append_chars(&mut note, &tail);
                push_note(&mut report.notes, &note);
            }
        },
    }
    let ghost fv = match format { Some(f) => Some(f@), None => None::<Seq<char>> };
    assert(strs(report.notes@) =~= notes0 + envelope_notes(fv, version));
    let ghost unknown0 = strs(report.unknown_fields@);
    let ghost fmt = report.format;
    let mut i: usize = 0;
    assert(unknown0 =~= unknown0 + envelope_unknown(mv, 0));
    while i < members.len()
        invariant
            i <= members.len(),
            mv == mviews(members@),
            mv.len() == members@.len(),
            forall|k: int| 0 <= k < members@.len() ==> #[trigger] mv[k] == (members@[k].0@, jview(members@[k].1)),
            strs(report.unknown_fields@) == unknown0 + envelope_unknown(mv, i as nat),
            report.missing_fields == old(report).missing_fields,
            report.invalid_fields == old(report).invalid_fields,
            strs(report.notes@) == notes0 + envelope_notes(fv, version),
            report.format == fmt,
            report.version == version,
        decreases members.len() - i,
    {
        let key = members[i].0.as_str();
        if !(str_eq(key, "format") || str_eq(key, "version") || str_eq(key, "exported_at") || str_eq(key, "config")) {
            let mut p = chars_of("envelope.");
            let kv = chars_of(key);
            append_chars(&mut p, &kv);
            push_note(&mut report.unknown_fields, &p);
        }
        i = i + 1;
    }
    match get_member(&value, "config") {
        Some(c) => Ok(copy_json(c)),
        None => Err(owned("Import file does not contain a config object")),
    }
}

/// Whether the imported document states the two correction text fields
/// (`correction.dictionary_text`, `correction.correction_rules_text`).
pub open spec fn correction_presence(v: JsonView) -> (bool, bool) {
    match get(v, "correction"@) {
        Some(JsonView::Object(c)) => (key_index(c, "dictionary_text"@) is Some, key_index(c, "correction_rules_text"@) is Some),
        _ => (false, false),
    }
}

/// Which correction text fields the imported document states.
pub fn correction_text_field_presence(value: &JsonValue) -> (r: (bool, bool))
    ensures
        r == correction_presence(jview(*value)),
{
    match get_member(value, "correction") {
        Some(JsonValue::Object(c)) => (find_member(c, "dictionary_text").is_some(), find_member(c, "correction_rules_text").is_some()),
        _ => (false, false),
    }
}

/// Whether the imported document states `asr.auth_mode`.
pub fn asr_auth_mode_field_present(value: &JsonValue) -> (r: bool)
    ensures
        r == (match get(jview(*value), "asr"@) {
            Some(JsonView::Object(a)) => key_index(a, "auth_mode"@) is Some,
            _ => false,
        }),
{
    match get_member(value, "asr") {
        Some(JsonValue::Object(a)) => find_member(a, "auth_mode").is_some(),
        _ => false,
    }
}

// ---------------------------------------------------------------------------
// The schema of the configuration
// ---------------------------------------------------------------------------

/// `value[key] = val` on an object (a null becomes an object); a new key is
/// added after the existing members.
pub open spec fn set_member(v: JsonView, k: Seq<char>, val: JsonView) -> JsonView {
    match v {
        JsonView::Object(m) => match key_index(m, k) {
            Some(x) => JsonView::Object(m.update(x, (k, val))),
            None => JsonView::Object(m.push((k, val))),
        },
        _ => JsonView::Object(seq![(k, val)]),
    }
}

/// Setting `[item]` at `path`: the parents are followed while they exist;
/// when one is missing nothing changes.
pub open spec fn set_at(v: JsonView, path: Seq<Seq<char>>, item: JsonView) -> JsonView
    decreases path.len(),
{
    if path.len() == 0 {
        v
    } else if path.len() == 1 {
        set_member(v, path[0], JsonView::Array(seq![item]))
    } else {
        match v {
            JsonView::Object(m) => match key_index(m, path[0]) {
                Some(x) => JsonView::Object(m.update(x, (m[x].0, set_at(m[x].1, path.drop_first(), item)))),
                None => v,
            },
            _ => v,
        }
    }
}

/// Whether setting at `path` reaches, if anywhere, an object or null (other
/// values cannot take a member).
pub open spec fn settable(v: JsonView, path: Seq<Seq<char>>) -> bool
    decreases path.len(),
{
    if path.len() == 0 {
        true
    } else if path.len() == 1 {
        v is Object || v is Null
    } else {
        match v {
            JsonView::Object(m) => match key_index(m, path[0]) {
                Some(x) => settable(m[x].1, path.drop_first()),
                None => true,
            },
            _ => true,
        }
    }
}

pub open spec fn strviews(p: Seq<&str>) -> Seq<Seq<char>> {
    p.map_values(|s: &str| s@)
}

/// Sets `[item]` at `path` in `schema` (see [`set_at`]).
pub fn with_schema_array(schema: &JsonValue, path: &[&str], from: usize, item: &JsonValue) -> (r: JsonValue)
    requires
        from <= path@.len(),
        settable(jview(*schema), strviews(path@).skip(from as int)),
    ensures
        jview(r) == set_at(jview(*schema), strviews(path@).skip(from as int), jview(*item)),
    decreases path@.len() - from,
{
    let ghost p = strviews(path@).skip(from as int);
    let n = path.len();
    if from == n {
        return copy_json(schema);
    }
    assert(p[0] == path@[from as int]@);
    if from + 1 == n {
        let key = path[from];
        let mut items: Vec<JsonValue> = Vec::new();
        let c = copy_json(item);
        let ghost cv = jview(c);
        items.push(c);
        proof {
            assert(jview(items@[0]) == cv);
            lemma_jviews_len(items@);
            assert(jviews(items@) =~= seq![jview(*item)]);
        }
        let val = JsonValue::Array(items);
        match schema {
            JsonValue::Object(m) => {
                let mut cur = copy_members(m);
                proof {
                    lemma_mviews_len(m@);
                    lemma_mviews_len(cur@);
                }
                match find_member(&cur, key) {
                    Some(x) => {
                        let k = owned(key);
                        proof {
                            lemma_mviews_update(cur@, x as int, (k, val));
                        }
                        cur.set(x, (k, val));
                    },
                    None => {
                        let k = owned(key);
                        proof {
                            assert(cur@.push((k, val)).drop_last() =~= cur@);
                        }
                        cur.push((k, val));
                    },
                }
                return JsonValue::Object(cur);
            },
            _ => {
                let mut cur: Vec<(String, JsonValue)> = Vec::new();
                let k = owned(key);
                proof {
                    assert(cur@.push((k, val)).drop_last() =~= cur@);
                }
                cur.push((k, val));
                proof {
                    lemma_mviews_len(cur@);
                    assert(mviews(cur@) =~= seq![(key@, jview(val))]);
                }
                return JsonValue::Object(cur);
            },
        }
    }
    assert(p.drop_first() =~= strviews(path@).skip(from + 1));
    match schema {
        JsonValue::Object(m) => {
            let key = path[from];
            match find_member(m, key) {
                Some(x) => {
                    proof {
                        lemma_mviews_len(m@);
                    }
                    let inner = with_schema_array(&m[x].1, path, from + 1, item);
                    let mut cur = copy_members(m);
                    let k = crate::text::copy_string(&m[x].0);
                    proof {
                        lemma_mviews_len(cur@);
                        lemma_mviews_update(cur@, x as int, (k, inner));
                    }
                    cur.set(x, (k, inner));
                    JsonValue::Object(cur)
                },
                None => copy_json(schema),
            }
        },
        _ => copy_json(schema),
    }
}

/// Sets `[item]` at `path` in `schema`.
pub fn set_schema_array(schema: &mut JsonValue, path: &[&str], item: JsonValue)
    requires
        settable(jview(*old(schema)), strviews(path@)),
    ensures
        jview(*final(schema)) == set_at(jview(*old(schema)), strviews(path@), jview(item)),
{
    assert(strviews(path@).skip(0) =~= strviews(path@));
    let r = with_schema_array(&*schema, path, 0, &item);
    *schema = r;
}

pub open spec fn empty_str() -> JsonView {
    JsonView::Str(Seq::<char>::empty())
}

/// An object whose members, named `keys`, all hold the empty string.
pub open spec fn blank_object(keys: Seq<Seq<char>>) -> JsonView {
    JsonView::Object(keys.map_values(|k: Seq<char>| (k, empty_str())))
}

/// The list fields of the configuration whose items the schema describes,
/// each with the shape of one item (object members in key order).
pub open spec fn schema_paths() -> Seq<Seq<Seq<char>>> {
    seq![
        seq!["hotkeys"@],
        seq!["hotkey_enabled"@],
        seq!["audio"@, "input_device_priority"@],
        seq!["audio"@, "input_device_blacklist"@],
        seq!["audio"@, "output_volume_ducking"@, "device_name_whitelist"@],
        seq!["llm"@, "provider_settings"@],
        seq!["llm"@, "race_models"@],
        seq!["llm"@, "race_targets"@],
        seq!["llm"@, "model_presets"@],
        seq!["correction"@, "variables"@],
        seq!["correction"@, "disabled_dictionary_terms"@],
        seq!["correction"@, "correction_rules"@],
        seq!["correction"@, "dictionary"@],
    ]
}

pub open spec fn schema_items() -> Seq<JsonView> {
    seq![
        empty_str(),
        JsonView::Bool(false),
        blank_object(seq!["id"@, "name"@]),
        blank_object(seq!["id"@, "name"@]),
        empty_str(),
        blank_object(seq!["api_format"@, "api_key"@, "endpoint"@, "provider"@]),
        empty_str(),
        blank_object(seq!["model"@, "provider"@]),
        blank_object(seq!["model"@, "provider"@]),
        blank_object(seq!["name"@, "value"@]),
        empty_str(),
        blank_object(seq!["note"@, "source"@, "target"@]),
        JsonView::Object(seq![("aliases"@, JsonView::Array(seq![empty_str()])), ("note"@, empty_str()), ("term"@, empty_str())]),
    ]
}

/// The defaults after the first `n` list shapes were set.
pub open spec fn schema_fold(v: JsonView, n: nat) -> JsonView
    decreases n,
{
    if n == 0 || n > 13 {
        v
    } else {
        set_at(schema_fold(v, (n - 1) as nat), schema_paths()[n - 1], schema_items()[n - 1])
    }
}

/// Whether each of the first `n` list shapes can be set.
pub open spec fn schema_ok(v: JsonView, n: nat) -> bool
    decreases n,
{
    if n == 0 || n > 13 {
        true
    } else {
        schema_ok(v, (n - 1) as nat) && settable(schema_fold(v, (n - 1) as nat), schema_paths()[n - 1])
    }
}

proof fn lemma_schema_ok(v: JsonView, n: nat, k: nat)
    requires
        schema_ok(v, n),
        k <= n <= 13,
    ensures
        schema_ok(v, k),
    decreases n - k,
{
    if k < n {
        lemma_schema_ok(v, (n - 1) as nat, k);
    }
}

fn blank_object_exec(keys: &[&str]) -> (r: JsonValue)
    ensures
        jview(r) == blank_object(strviews(keys@)),
{
    let mut members: Vec<(String, JsonValue)> = Vec::new();
    let mut i: usize = 0;
    while i < keys.len()
        invariant
            i <= keys.len(),
            mviews(members@) == strviews(keys@).take(i as int).map_values(|k: Seq<char>| (k, empty_str())),
        decreases keys.len() - i,
    {
        let k = owned(keys[i]);
        let v = JsonValue::String(String::new());
        let ghost before = mviews(members@);
        let ghost before_m = members@;
        let ghost kv = k@;
        let ghost vv = jview(v);
        members.push((k, v));
        proof {
            assert(members@.drop_last() =~= before_m);
            assert(members@.last().0@ == kv);
            assert(jview(members@.last().1) == vv);
            assert(mviews(members@) == before.push((keys@[i as int]@, empty_str())));
            assert(strviews(keys@).take(i + 1).map_values(|k: Seq<char>| (k, empty_str()))
                =~= strviews(keys@).take(i as int).map_values(|k: Seq<char>| (k, empty_str())).push((keys@[i as int]@, empty_str())));
        }
        i = i + 1;
    }
    assert(strviews(keys@).take(keys@.len() as int) =~= strviews(keys@));
    JsonValue::Object(members)
}

fn schema_entry(k: usize) -> (r: (Vec<&'static str>, JsonValue))
    requires
        k < 13,
    ensures
        strviews(r.0@) == schema_paths()[k as int],
        jview(r.1) == schema_items()[k as int],
{
    let path: Vec<&'static str>;
    let item: JsonValue;
    if k == 0 {
        path = vec!["hotkeys"];
        item = JsonValue::String(String::new());
    } else if k == 1 {
        path = vec!["hotkey_enabled"];
        item = JsonValue::Bool(false);
    } else if k == 2 {
        path = vec!["audio", "input_device_priority"];
        item = {
            let keys: [&str; 2] = ["id", "name"];
            assert(strviews(keys@) =~= seq!["id"@, "name"@]);
            blank_object_exec(&keys)
        };
    } else if k == 3 {
        path = vec!["audio", "input_device_blacklist"];
        item = {
            let keys: [&str; 2] = ["id", "name"];
            assert(strviews(keys@) =~= seq!["id"@, "name"@]);
            blank_object_exec(&keys)
        };
    } else if k == 4 {
        path = vec!["audio", "output_volume_ducking", "device_name_whitelist"];
        item = JsonValue::String(String::new());
    } else if k == 5 {
        path = vec!["llm", "provider_settings"];
        item = {
            let keys: [&str; 4] = ["api_format", "api_key", "endpoint", "provider"];
            assert(strviews(keys@) =~= seq!["api_format"@, "api_key"@, "endpoint"@, "provider"@]);
            blank_object_exec(&keys)
        };
    } else if k == 6 {
        path = vec!["llm", "race_models"];
        item = JsonValue::String(String::new());
    } else if k == 7 {
        path = vec!["llm", "race_targets"];
        item = {
            let keys: [&str; 2] = ["model", "provider"];
            assert(strviews(keys@) =~= seq!["model"@, "provider"@]);
            blank_object_exec(&keys)
        };
    } else if k == 8 {
        path = vec!["llm", "model_presets"];
        item = {
            let keys: [&str; 2] = ["model", "provider"];
            assert(strviews(keys@) =~= seq!["model"@, "provider"@]);
            blank_object_exec(&keys)
        };
    } else if k == 9 {
        path = vec!["correction", "variables"];
        item = {
            let keys: [&str; 2] = ["name", "value"];
            assert(strviews(keys@) =~= seq!["name"@, "value"@]);
            blank_object_exec(&keys)
        };
    } else if k == 10 {
        path = vec!["correction", "disabled_dictionary_terms"];
        item = JsonValue::String(String::new());
    } else if k == 11 {
        path = vec!["correction", "correction_rules"];
        item = {
            let keys: [&str; 3] = ["note", "source", "target"];
            assert(strviews(keys@) =~= seq!["note"@, "source"@, "target"@]);
            blank_object_exec(&keys)
        };
    } else {
        path = vec!["correction", "dictionary"];
        let mut aliases: Vec<JsonValue> = Vec::new();
        aliases.push(JsonValue::String(String::new()));
        proof {
            lemma_jviews_len(aliases@);
            assert(jviews(aliases@) =~= seq![empty_str()]);
        }
        let mut members: Vec<(String, JsonValue)> = Vec::new();
        members.push((owned("aliases"), JsonValue::Array(aliases)));
        members.push((owned("note"), JsonValue::String(String::new())));
        members.push((owned("term"), JsonValue::String(String::new())));
        proof {
            lemma_mviews_len(members@);
        }
        item = JsonValue::Object(members);
        proof {
            assert(mviews(members@) =~= seq![("aliases"@, JsonView::Array(seq![empty_str()])), ("note"@, empty_str()), ("term"@, empty_str())]);
        }
    }
    proof {
        let sp = schema_paths()[k as int];
        assert(strviews(path@) =~= sp);
        let si = schema_items()[k as int];
    }
    (path, item)
}

/// The schema of the configuration: its defaults, with every list field
/// holding one item that shows the shape of its items.
pub fn config_schema_value(defaults: JsonValue) -> (r: JsonValue)
    requires
        schema_ok(jview(defaults), 13),
    ensures
        jview(r) == schema_fold(jview(defaults), 13),
{
    let ghost d = jview(defaults);
    let mut schema = defaults;
    let mut k: usize = 0;
    while k < 13
        invariant
            k <= 13,
            schema_ok(d, 13),
            jview(schema) == schema_fold(d, k as nat),
        decreases 13 - k,
    {
        let (path, item) = schema_entry(k);
        proof {
            lemma_schema_ok(d, 13, (k + 1) as nat);
        }
        set_schema_array(&mut schema, path.as_slice(), item);
        k = k + 1;
    }
    schema
}

/// Whether `[item]` can be set at `path[from..]` in `v`.
pub fn settable_from(v: &JsonValue, path: &[&str], from: usize) -> (r: bool)
    requires
        from <= path@.len(),
    ensures
        r == settable(jview(*v), strviews(path@).skip(from as int)),
    decreases path@.len() - from,
{
    let ghost p = strviews(path@).skip(from as int);
    let n = path.len();
    if from == n {
        return true;
    }
    assert(p[0] == path@[from as int]@);
    if from + 1 == n {
        return match v {
            JsonValue::Object(_) => true,
            JsonValue::Null => true,
            _ => false,
        };
    }
    assert(p.drop_first() =~= strviews(path@).skip(from + 1));
    match v {
        JsonValue::Object(m) => {
            match find_member(m, path[from]) {
                Some(x) => {
                    proof {
                        lemma_mviews_len(m@);
                    }
                    settable_from(&m[x].1, path, from + 1)
                },
                None => true,
            }
        },
        _ => true,
    }
}

/// Whether the defaults have the shape the schema needs (each list field's
/// parent is an object), so that `config_schema_value` may run.
pub fn defaults_fit_schema(defaults: &JsonValue) -> (r: bool)
    ensures
        r == schema_ok(jview(*defaults), 13),
{
    let ghost d = jview(*defaults);
    let mut schema = copy_json(defaults);
    let mut k: usize = 0;
    while k < 13
        invariant
            k <= 13,
            d == jview(*defaults),
            schema_ok(d, k as nat),
            jview(schema) == schema_fold(d, k as nat),
        decreases 13 - k,
    {
        let (path, item) = schema_entry(k);
        assert(strviews(path@).skip(0) =~= strviews(path@));
        if !settable_from(&schema, path.as_slice(), 0) {
            proof {
                lemma_schema_not_ok(d, (k + 1) as nat, 13);
            }
            return false;
        }
        set_schema_array(&mut schema, path.as_slice(), item);
        k = k + 1;
    }
    true
}

proof fn lemma_schema_not_ok(v: JsonView, k: nat, n: nat)
    requires
        1 <= k <= n <= 13,
        !schema_ok(v, k),
    ensures
        !schema_ok(v, n),
    decreases n - k,
{
    if k < n {
        lemma_schema_not_ok(v, k, (n - 1) as nat);
    }
}

/// The configuration inside an imported document (see
/// `extract_imported_config`), or why there is none.
pub open spec fn extracted(v: JsonView) -> Result<JsonView, Seq<char>> {
    match v {
        JsonView::Object(m) => if !looks_like_envelope(m) {
            Ok(v)
        } else {
            match lookup(m, "config"@) {
                Some(c) => Ok(c),
                None => Err("Import file does not contain a config object"@),
            }
        },
        _ => Err("Imported config must be a JSON object"@),
    }
}

/// The format, version, envelope members and notes an import reports.
pub open spec fn envelope_report(v: JsonView) -> (Option<Seq<char>>, Option<u32>, Seq<Seq<char>>, Seq<Seq<char>>) {
    match v {
        JsonView::Object(m) => if !looks_like_envelope(m) {
            (None, None, seq![], seq!["Imported legacy plain config JSON without export metadata."@])
        } else {
            let format = str_of(lookup(m, "format"@));
            let version = u32_of(lookup(m, "version"@));
            (format, version, envelope_unknown(m, m.len()), envelope_notes(format, version))
        },
        _ => (None, None, seq![], seq![]),
    }
}

/// An imported document, merged over the defaults and ready to become a
/// configuration, with what the import found.
#[derive(Debug)]
pub struct PreparedImport {
    pub merged: JsonValue,
    pub report: crate::config::ConfigImportReport,
    pub correction_text_presence: (bool, bool),
    pub asr_auth_mode_present: bool,
}

/// What preparing the imported document `v` over the defaults `d` gives:
/// the configuration taken out of its envelope (or why there is none), the
/// fields missing from it, unknown to the schema and of the wrong kind, and
/// the merge over the defaults.
pub open spec fn import_outcome(v: JsonView, d: JsonView, r: Result<PreparedImport, String>) -> bool {
    match extracted(v) {
        Err(e) => r matches Err(x) && x@ == e,
        Ok(imp) => r matches Ok(p) && {
            let schema = schema_fold(d, 13);
            let env = envelope_report(v);
            &&& jview(p.merged) == merge_spec(d, imp, schema, ""@).0
            &&& strs(p.report.invalid_fields@) == merge_spec(d, imp, schema, ""@).1
            &&& strs(p.report.missing_fields@) == missing_spec(imp, d, schema, ""@)
            &&& report_rest(p.report) == (env.0, env.1, env.2 + unknown_spec(imp, schema, ""@), env.3)
            &&& p.correction_text_presence == correction_presence(imp)
            &&& p.asr_auth_mode_present == (match get(imp, "asr"@) {
                Some(JsonView::Object(a)) => key_index(a, "auth_mode"@) is Some,
                _ => false,
            })
        },
    }
}

/// Prepares an imported document: takes the configuration out of its
/// envelope, reports the fields missing from it, unknown to the schema and
/// of the wrong kind, and merges it over the defaults.
pub fn prepare_import(value: JsonValue, defaults: JsonValue) -> (r: Result<PreparedImport, String>)
    requires
        schema_ok(jview(defaults), 13),
    ensures
        import_outcome(jview(value), jview(defaults), r),
{
    let mut report = crate::config::ConfigImportReport {
        format: None,
        version: None,
        missing_fields: Vec::new(),
        unknown_fields: Vec::new(),
        invalid_fields: Vec::new(),
        notes: Vec::new(),
    };
    proof {
        assert(strs(report.unknown_fields@) =~= Seq::<Seq<char>>::empty());
        assert(strs(report.notes@) =~= Seq::<Seq<char>>::empty());
        assert(strs(report.missing_fields@) =~= Seq::<Seq<char>>::empty());
        assert(strs(report.invalid_fields@) =~= Seq::<Seq<char>>::empty());
    }
    let ghost v0 = jview(value);
    let imported = match extract_imported_config(value, &mut report) {
        Ok(v) => v,
        Err(e) => return Err(e),
    };
    proof {
        match v0 {
            JsonView::Object(m) => {
                if !looks_like_envelope(m) {
                    assert(report_rest(report).3 =~= seq!["Imported legacy plain config JSON without export metadata."@]);
                    assert(report_rest(report).2 =~= Seq::<Seq<char>>::empty());
                } else {
                    assert(report_rest(report).2 =~= envelope_unknown(m, m.len()));
                    assert(report_rest(report).3 =~= envelope_notes(str_of(lookup(m, "format"@)), u32_of(lookup(m, "version"@))));
                }
            },
            _ => {},
        }
    }
    let presence = correction_text_field_presence(&imported);
    let auth_present = asr_auth_mode_field_present(&imported);
    let default_copy = copy_json(&defaults);
    let schema = config_schema_value(defaults);
    collect_missing_fields(&imported, &default_copy, &schema, "", &mut report.missing_fields);
    collect_unknown_fields(&imported, &schema, "", &mut report.unknown_fields);
    proof {
        assert(strs(report.missing_fields@) =~= missing_spec(jview(imported), jview(default_copy), jview(schema), ""@));
    }
    let mut merged = default_copy;
    merge_imported_value(&mut merged, imported, &schema, "", &mut report.invalid_fields);
    Ok(PreparedImport {
        merged,
        report,
        correction_text_presence: presence,
        asr_auth_mode_present: auth_present,
    })
}

/// Prepares an import from the text of the imported file: text that is not
/// JSON is refused; a document is prepared as `prepare_import` does.
pub fn import_config_text(raw: &str, defaults: JsonValue) -> (r: Result<PreparedImport, String>)
    requires
        schema_ok(jview(defaults), 13),
    ensures
        json_text_value(raw@) is None ==> (r matches Err(e) && e@ == "Failed to parse imported config JSON"@),
        json_text_value(raw@) matches Some(v) ==> import_outcome(v, jview(defaults), r),
{
    match parse_json_text(raw) {
        Some(value) => prepare_import(value, defaults),
        None => Err(crate::text::owned("Failed to parse imported config JSON")),
    }
}

} // verus!
