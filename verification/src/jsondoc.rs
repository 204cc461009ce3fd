//! JSON documents as plain values. Parsing is `serde_json`'s work; the shape this
//! crate expects of a document is read from `JsonValue`.

use vstd::prelude::*;

verus! {

#[verifier::external_type_specification]
#[verifier::external_body]
pub struct ExJsonValue(serde_json::Value);


/// A JSON value. A number is carried as the decimal text that `serde_json` prints for it.
pub enum JsonValue {
    Null,
    Bool(bool),
    Number(String),
    Str(String),
    Array(Vec<JsonValue>),
    /// Key/value members; keys are distinct (the parser builds a map).
    Object(Vec<(String, JsonValue)>),
}

/// What `serde_json::from_str::<serde_json::Value>` makes of `text`: the value, converted
/// variant by variant into `JsonValue`, or, when `serde_json` rejects the text, the
/// message of its error (`Display` of `serde_json::Error`).
pub uninterp spec fn json_document(text: Seq<char>) -> Result<JsonValue, Seq<char>>;

/// Converts one parsed `serde_json::Value` into a `JsonValue`, variant by variant.
#[verifier::external_body]
fn json_value_of(v: &serde_json::Value) -> JsonValue {
    match v {
        serde_json::Value::Null => JsonValue::Null,
        serde_json::Value::Bool(b) => JsonValue::Bool(*b),
        serde_json::Value::Number(n) => JsonValue::Number(n.to_string()),
        serde_json::Value::String(s) => JsonValue::Str(s.clone()),
        serde_json::Value::Array(a) => JsonValue::Array(a.iter().map(json_value_of).collect()),
        serde_json::Value::Object(m) => JsonValue::Object(
            m.iter().map(|(k, x)| (k.clone(), json_value_of(x))).collect(),
        ),
    }
}

/// `serde_json::from_str::<serde_json::Value>`, the error taken by its message (`Display`
/// of `serde_json::Error`). Trusted: the result is `json_document(text)`.
#[verifier::external_body]
pub(crate) fn parse_json(text: &str) -> (res: Result<JsonValue, String>)
    ensures
        match res {
            Ok(v) => json_document(text@) == Ok::<JsonValue, Seq<char>>(v),
            Err(m) => json_document(text@) == Err::<JsonValue, Seq<char>>(m@),
        },
{
    match serde_json::from_str::<serde_json::Value>(text) {
        Ok(v) => Ok(json_value_of(&v)),
        Err(e) => Err(e.to_string()),
    }
}

/// The value under `key` among an object's members (the first member with that key).
pub open spec fn member(entries: Seq<(String, JsonValue)>, key: Seq<char>) -> Option<JsonValue>
    decreases entries.len(),
{
    if entries.len() == 0 {
        None
    } else if entries[0].0@ == key {
        Some(entries[0].1)
    } else {
        member(entries.drop_first(), key)
    }
}

/// `serde_json::Value::get(key)`: the member of an object, `None` for anything else.
pub open spec fn jget(v: JsonValue, key: Seq<char>) -> Option<JsonValue> {
    match v {
        JsonValue::Object(m) => member(m@, key),
        _ => None,
    }
}

/// `.and_then(as_str)`.
pub open spec fn jstr(v: Option<JsonValue>) -> Option<Seq<char>> {
    match v {
        Some(JsonValue::Str(s)) => Some(s@),
        _ => None,
    }
}

proof fn lemma_member_skip(entries: Seq<(String, JsonValue)>, i: int, key: Seq<char>)
    requires
        0 <= i < entries.len(),
        entries[i].0@ != key,
    ensures
        member(entries.skip(i), key) == member(entries.skip(i + 1), key),
{
    assert(entries.skip(i).drop_first() =~= entries.skip(i + 1));
}

/// The value under `key` among `entries`.
pub fn member_exec<'a>(entries: &'a Vec<(String, JsonValue)>, key: &str) -> (res: Option<
    &'a JsonValue,
>)
    ensures
        match res {
            Some(v) => member(entries@, key@) == Some(*v),
            None => member(entries@, key@) is None,
        },
{
    let n = entries.len();
    let k = crate::text::owned(key);
    assert(entries@.skip(0) =~= entries@);
    for i in 0..n
        invariant
            n == entries@.len(),
            k@ == key@,
            member(entries@, key@) == member(entries@.skip(i as int), key@),
    {
        if entries[i].0 == k {
            assert(entries@.skip(i as int)[0] == entries@[i as int]);
            return Some(&entries[i].1);
        }
        proof {
            lemma_member_skip(entries@, i as int, key@);
        }
    }
    assert(entries@.skip(n as int).len() == 0);
    None
}

/// `serde_json::Value::get(key)`.
pub fn jget_exec<'a>(v: &'a JsonValue, key: &str) -> (res: Option<&'a JsonValue>)
    ensures
        match res {
            Some(x) => jget(*v, key@) == Some(*x),
            None => jget(*v, key@) is None,
        },
{
    match v {
        JsonValue::Object(m) => member_exec(m, key),
        _ => None,
    }
}

/// `.and_then(as_str)`, as a fresh string.
pub fn jstr_exec(v: Option<&JsonValue>) -> (res: Option<String>)
    ensures
        match res {
            Some(s) => jstr(match v {
                Some(x) => Some(*x),
                None => None,
            }) == Some(s@),
            None => jstr(match v {
                Some(x) => Some(*x),
                None => None,
            }) is None,
        },
{
    match v {
        Some(JsonValue::Str(s)) => Some(s.clone()),
        _ => None,
    }
}

/// A JSON value as values.
pub enum JsonView {
    Null,
    Bool(bool),
    Number(Seq<char>),
    Str(Seq<char>),
    Array(Seq<JsonView>),
    Object(Seq<(Seq<char>, JsonView)>),
}

/// The value of a `JsonValue`, all the way down.
pub open spec fn jview(v: JsonValue) -> JsonView
    decreases v,
{
    match v {
        JsonValue::Null => JsonView::Null,
        JsonValue::Bool(b) => JsonView::Bool(b),
        JsonValue::Number(n) => JsonView::Number(n@),
        JsonValue::Str(s) => JsonView::Str(s@),
        JsonValue::Array(a) => JsonView::Array(
            Seq::new(
                a@.len(),
                |i: int|
                    if 0 <= i < a@.len() {
                        proof {
                            assert(decreases_to!(v => a));
                            assert(decreases_to!(a => a@));
                            assert(decreases_to!(a@ => a@[i]));
                        }
                        jview(a@[i])
                    } else {
                        JsonView::Null
                    },
            ),
        ),
        JsonValue::Object(m) => JsonView::Object(
            Seq::new(
                m@.len(),
                |i: int|
                    if 0 <= i < m@.len() {
                        proof {
                            assert(decreases_to!(v => m));
                            assert(decreases_to!(m => m@));
                            assert(decreases_to!(m@ => m@[i]));
                            assert(decreases_to!(m@[i] => m@[i].1));
                        }
                        (m@[i].0@, jview(m@[i].1))
                    } else {
                        (seq![], JsonView::Null)
                    },
            ),
        ),
    }
}

impl View for JsonValue {
    type V = JsonView;

    open spec fn view(&self) -> JsonView {
        jview(*self)
    }
}

/// The value under `key` among an object's members as values (the first with that key).
pub open spec fn view_member(m: Seq<(Seq<char>, JsonView)>, key: Seq<char>) -> Option<JsonView>
    decreases m.len(),
{
    if m.len() == 0 {
        None
    } else if m[0].0 == key {
        Some(m[0].1)
    } else {
        view_member(m.drop_first(), key)
    }
}

/// The member `key` of an object value; `None` for anything else.
pub open spec fn view_get(v: JsonView, key: Seq<char>) -> Option<JsonView> {
    match v {
        JsonView::Object(m) => view_member(m, key),
        _ => None,
    }
}

/// Members as values.
pub open spec fn members_view(m: Seq<(String, JsonValue)>) -> Seq<(Seq<char>, JsonView)> {
    m.map_values(|p: (String, JsonValue)| (p.0@, jview(p.1)))
}

/// Elements as values.
pub open spec fn elems_view(a: Seq<JsonValue>) -> Seq<JsonView> {
    a.map_values(|x: JsonValue| jview(x))
}

/// A JSON string.
pub fn jstring(s: String) -> (res: JsonValue)
    ensures
        res@ == JsonView::Str(s@),
{
    JsonValue::Str(s)
}

/// A JSON string from a `&str`.
pub fn jtext(s: &str) -> (res: JsonValue)
    ensures
        res@ == JsonView::Str(s@),
{
    JsonValue::Str(crate::text::owned(s))
}

/// A JSON object with these members, in this order.
pub fn jobject(m: Vec<(String, JsonValue)>) -> (res: JsonValue)
    ensures
        res@ == JsonView::Object(members_view(m@)),
{
    let ghost mv = m@;
    let r = JsonValue::Object(m);
    assert(jview(r)->Object_0 =~= members_view(mv));
    r
}

/// A JSON array with these elements, in this order.
pub fn jarray(a: Vec<JsonValue>) -> (res: JsonValue)
    ensures
        res@ == JsonView::Array(elems_view(a@)),
{
    let ghost av = a@;
    let r = JsonValue::Array(a);
    assert(jview(r)->Array_0 =~= elems_view(av));
    r
}

/// A deep copy of a JSON value.
pub fn jclone(v: &JsonValue) -> (res: JsonValue)
    ensures
        res@ == v@,
    decreases v,
{
    match v {
        JsonValue::Null => JsonValue::Null,
        JsonValue::Bool(b) => JsonValue::Bool(*b),
        JsonValue::Number(n) => JsonValue::Number(n.clone()),
        JsonValue::Str(s) => JsonValue::Str(s.clone()),
        JsonValue::Array(a) => {
            let mut out: Vec<JsonValue> = Vec::new();
            let n = a.len();
            for i in 0..n
                invariant
                    n == a@.len(),
                    *v == JsonValue::Array(*a),
                    elems_view(out@) == elems_view(a@.take(i as int)),
            {
                proof {
                    assert(decreases_to!(*v => (*v)->Array_0));
                    assert((*v)->Array_0 == *a);
                    assert(decreases_to!(*a => a@));
                    assert(decreases_to!(a@ => a@[i as int]));
                }
                let ghost before = out@;
                let x = jclone(&a[i]);
                out.push(x);
                proof {
                    assert(a@.take(i + 1) =~= a@.take(i as int).push(a@[i as int]));
                    assert(elems_view(out@) =~= elems_view(before).push(x@));
                    assert(elems_view(a@.take(i + 1)) =~= elems_view(a@.take(i as int)).push(jview(a@[i as int])));
                }
            }
            assert(a@.take(n as int) =~= a@);
            let r = jarray(out);
            assert(jview(*v)->Array_0 =~= elems_view(a@));
            r
        },
        JsonValue::Object(m) => {
            let mut out: Vec<(String, JsonValue)> = Vec::new();
            let n = m.len();
            for i in 0..n
                invariant
                    n == m@.len(),
                    *v == JsonValue::Object(*m),
                    members_view(out@) == members_view(m@.take(i as int)),
            {
                proof {
                    assert(decreases_to!(*v => (*v)->Object_0));
                    assert((*v)->Object_0 == *m);
                    assert(decreases_to!(*m => m@));
                    assert(decreases_to!(m@ => m@[i as int]));
                    assert(decreases_to!(m@[i as int] => m@[i as int].1));
                }
                let ghost before = out@;
                let x = jclone(&m[i].1);
                let k = m[i].0.clone();
                out.push((k, x));
                proof {
                    assert(m@.take(i + 1) =~= m@.take(i as int).push(m@[i as int]));
                    assert(members_view(out@) =~= members_view(before).push((k@, x@)));
                    assert(members_view(m@.take(i + 1)) =~= members_view(m@.take(i as int)).push((m@[i as int].0@, jview(m@[i as int].1))));
                }
            }
            assert(m@.take(n as int) =~= m@);
            let r = jobject(out);
            assert(jview(*v)->Object_0 =~= members_view(m@));
            r
        },
    }
}

} // verus!
