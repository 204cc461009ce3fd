//! TOML documents as plain values. Parsing is the `toml` crate's work; what the
//! contract file means is this crate's, and it is read from `TomlValue`.

use vstd::prelude::*;

verus! {

#[verifier::external_type_specification]
#[verifier::external_body]
pub struct ExTomlValue(toml::Value);

/// A TOML value, carrying what this crate reads from it. Floats and date-times are
/// carried as `Other`: nothing here reads them.
pub enum TomlValue {
    Str(String),
    Int(i64),
    Bool(bool),
    Array(Vec<TomlValue>),
    /// Key/value entries; keys are distinct (the parser builds a map).
    Table(Vec<(String, TomlValue)>),
    Other,
}

/// What `toml` makes of `text` (`str::parse::<toml::Table>`): the table, converted
/// variant by variant into `TomlValue`, or, when `toml` rejects the text, the message of
/// its error (`Display` of `toml::de::Error`).
pub uninterp spec fn toml_document(text: Seq<char>) -> Result<TomlValue, Seq<char>>;

/// Converts one parsed `toml::Value` into a `TomlValue`, variant by variant.
#[verifier::external_body]
fn toml_value_of(v: &toml::Value) -> TomlValue {
    match v {
        toml::Value::String(s) => TomlValue::Str(s.clone()),
        toml::Value::Integer(i) => TomlValue::Int(*i),
        toml::Value::Boolean(b) => TomlValue::Bool(*b),
        toml::Value::Array(a) => TomlValue::Array(a.iter().map(toml_value_of).collect()),
        toml::Value::Table(t) => TomlValue::Table(
            t.iter().map(|(k, x)| (k.clone(), toml_value_of(x))).collect(),
        ),
        toml::Value::Float(_) | toml::Value::Datetime(_) => TomlValue::Other,
    }
}

/// `str::parse::<toml::Table>` from the `toml` crate, the error taken by its message.
/// Trusted: the result is `toml_document(raw)`; on success it is a `Table`.
#[verifier::external_body]
pub(crate) fn parse_toml(raw: &str) -> (res: Result<TomlValue, String>)
    ensures
        match res {
            Ok(v) => toml_document(raw@) == Ok::<TomlValue, Seq<char>>(v) && v is Table,
            Err(m) => toml_document(raw@) == Err::<TomlValue, Seq<char>>(m@),
        },
{
    match raw.parse::<toml::Table>() {
        Ok(t) => Ok(TomlValue::Table(t.iter().map(|(k, x)| (k.clone(), toml_value_of(x))).collect())),
        Err(e) => Err(e.to_string()),
    }
}

/// The value under `key` in a table's entries (the first entry with that key).
pub open spec fn lookup(entries: Seq<(String, TomlValue)>, key: Seq<char>) -> Option<TomlValue>
    decreases entries.len(),
{
    if entries.len() == 0 {
        None
    } else if entries[0].0@ == key {
        Some(entries[0].1)
    } else {
        lookup(entries.drop_first(), key)
    }
}

/// `toml::Value::get(key)`: the entry of a table, `None` for anything else.
pub open spec fn tget(v: TomlValue, key: Seq<char>) -> Option<TomlValue> {
    match v {
        TomlValue::Table(t) => lookup(t@, key),
        _ => None,
    }
}

/// `.and_then(as_str).unwrap_or("")`.
pub open spec fn str_or_empty(v: Option<TomlValue>) -> Seq<char> {
    match v {
        Some(TomlValue::Str(s)) => s@,
        _ => seq![],
    }
}

/// `.and_then(as_array)`.
pub open spec fn array_of(v: Option<TomlValue>) -> Option<Seq<TomlValue>> {
    match v {
        Some(TomlValue::Array(a)) => Some(a@),
        _ => None,
    }
}

proof fn lemma_lookup_skip(entries: Seq<(String, TomlValue)>, i: int, key: Seq<char>)
    requires
        0 <= i < entries.len(),
        entries[i].0@ != key,
    ensures
        lookup(entries.skip(i), key) == lookup(entries.skip(i + 1), key),
{
    assert(entries.skip(i).drop_first() =~= entries.skip(i + 1));
}

/// The value under `key` in `entries`.
pub fn lookup_exec<'a>(entries: &'a Vec<(String, TomlValue)>, key: &str) -> (res: Option<
    &'a TomlValue,
>)
    ensures
        match res {
            Some(v) => lookup(entries@, key@) == Some(*v),
            None => lookup(entries@, key@) is None,
        },
{
    let n = entries.len();
    let k = crate::text::owned(key);
    assert(entries@.skip(0) =~= entries@);
    for i in 0..n
        invariant
            n == entries@.len(),
            k@ == key@,
            lookup(entries@, key@) == lookup(entries@.skip(i as int), key@),
    {
        if entries[i].0 == k {
            assert(entries@.skip(i as int)[0] == entries@[i as int]);
            return Some(&entries[i].1);
        }
        proof {
            lemma_lookup_skip(entries@, i as int, key@);
        }
    }
    assert(entries@.skip(n as int).len() == 0);
    None
}

/// `toml::Value::get(key)`.
pub fn tget_exec<'a>(v: &'a TomlValue, key: &str) -> (res: Option<&'a TomlValue>)
    ensures
        match res {
            Some(x) => tget(*v, key@) == Some(*x),
            None => tget(*v, key@) is None,
        },
{
    match v {
        TomlValue::Table(t) => lookup_exec(t, key),
        _ => None,
    }
}

/// `.and_then(as_str).unwrap_or("")`, as a fresh string.
pub fn str_or_empty_exec(v: Option<&TomlValue>) -> (res: String)
    ensures
        res@ == str_or_empty(match v {
            Some(x) => Some(*x),
            None => None,
        }),
{
    match v {
        Some(TomlValue::Str(s)) => s.clone(),
        _ => String::new(),
    }
}

} // verus!
