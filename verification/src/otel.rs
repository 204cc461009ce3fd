//! Examining OTel evidence. The vault is an independent collector's record: OTLP/JSON
//! lines (one `ExportTraceServiceRequest` per line) as a file exporter writes them.
//!
//! The rules: without the named span nothing passes. With it, for **every** span of that
//! name, each attribute of `attrs_match` must appear in one of the artifacts copied at
//! declaration. In an append-only vault a tampered resend stays as a contradicting second
//! span and blocks its own way through.

use crate::jsondoc::{jget, jget_exec, jstr, jstr_exec, json_document, parse_json, JsonValue};
use crate::text::{all_white, all_white_exec, chars_of, contains, contains_exec, int_text, join2, join3, join5, lines, lines_exec, nat_text_exec, occurs_at, owned, string_from_chars, trim, trim_exec, utf8_len, utf8_width_exec};
use vstd::prelude::*;

verus! {

/// The record of one OTel examination; the transcript becomes the evidence file.
#[derive(Debug)]
pub struct OtelRun {
    pub vault: String,
    pub span: String,
    pub spans_found: usize,
    pub ok: bool,
    pub transcript: String,
}

/// The attributes of one span: each key with its scalar value in canonical text, or
/// `None` for a value that is not a scalar.
pub type SpanAttrs = Seq<(Seq<char>, Option<Seq<char>>)>;

/// A span's attributes as values.
pub open spec fn attrs_view(a: Seq<(String, Option<String>)>) -> SpanAttrs {
    a.map_values(
        |p: (String, Option<String>)|
            (
                p.0@,
                match p.1 {
                    Some(s) => Some(s@),
                    None => None,
                },
            ),
    )
}

/// Several spans' attributes as values.
pub open spec fn spans_view(v: Seq<Vec<(String, Option<String>)>>) -> Seq<SpanAttrs> {
    v.map_values(|a: Vec<(String, Option<String>)>| attrs_view(a@))
}

// ---------------------------------------------------------------------------
// The OTLP/JSON shape
// ---------------------------------------------------------------------------

/// The text of a scalar carried as a JSON string or number.
pub open spec fn scalar_text(x: JsonValue) -> Option<Seq<char>> {
    match x {
        JsonValue::Str(s) => Some(s@),
        JsonValue::Number(n) => Some(n@),
        _ => None,
    }
}

/// An OTLP `AnyValue` as canonical text: `stringValue` as is; `intValue` and
/// `doubleValue` in decimal (a JSON string or number is accepted); `boolValue` as
/// `true`/`false`. Anything else (array, kvlist, bytes) is not a scalar.
pub open spec fn canonical(v: JsonValue) -> Option<Seq<char>> {
    match jstr(jget(v, "stringValue"@)) {
        Some(s) => Some(s),
        None => match jget(v, "intValue"@) {
            Some(x) => scalar_text(x),
            None => match jget(v, "doubleValue"@) {
                Some(x) => scalar_text(x),
                None => match jget(v, "boolValue"@) {
                    Some(JsonValue::Bool(b)) => Some(
                        if b {
                            "true"@
                        } else {
                            "false"@
                        },
                    ),
                    _ => None,
                },
            },
        },
    }
}

/// The attributes listed in an `attributes` array: entries without a string `key` are
/// skipped; a missing `value` counts as not a scalar.
pub open spec fn attrs_of(list: Seq<JsonValue>) -> SpanAttrs
    decreases list.len(),
{
    if list.len() == 0 {
        seq![]
    } else {
        let p = attrs_of(list.drop_last());
        let a = list.last();
        match jstr(jget(a, "key"@)) {
            None => p,
            Some(k) => p.push(
                (
                    k,
                    match jget(a, "value"@) {
                        Some(x) => canonical(x),
                        None => None,
                    },
                ),
            ),
        }
    }
}

/// The array under `key`: absent is an empty array; present but not an array is an error.
pub open spec fn arr(v: JsonValue, key: Seq<char>) -> Result<Seq<JsonValue>, Seq<char>> {
    match jget(v, key) {
        None => Ok(seq![]),
        Some(JsonValue::Array(a)) => Ok(a@),
        Some(_) => Err(key + " が配列ではない"@),
    }
}

/// The spans named `name` in a `spans` array.
pub open spec fn spans_in(list: Seq<JsonValue>, name: Seq<char>) -> Result<Seq<SpanAttrs>, Seq<char>>
    decreases list.len(),
{
    if list.len() == 0 {
        Ok(seq![])
    } else {
        match spans_in(list.drop_last(), name) {
            Err(m) => Err(m),
            Ok(p) => {
                let sp = list.last();
                if !(sp is Object) {
                    Err("spans の要素がオブジェクトではない"@)
                } else if jstr(jget(sp, "name"@)) != Some(name) {
                    Ok(p)
                } else {
                    match arr(sp, "attributes"@) {
                        Err(m) => Err(m),
                        Ok(at) => Ok(p.push(attrs_of(at))),
                    }
                }
            },
        }
    }
}

/// The spans named `name` in a `scopeSpans` array.
pub open spec fn scopes_in(list: Seq<JsonValue>, name: Seq<char>) -> Result<Seq<SpanAttrs>, Seq<char>>
    decreases list.len(),
{
    if list.len() == 0 {
        Ok(seq![])
    } else {
        match scopes_in(list.drop_last(), name) {
            Err(m) => Err(m),
            Ok(p) => match arr(list.last(), "spans"@) {
                Err(m) => Err(m),
                Ok(sp) => match spans_in(sp, name) {
                    Err(m) => Err(m),
                    Ok(q) => Ok(p + q),
                },
            },
        }
    }
}

/// The spans named `name` in a `resourceSpans` array.
pub open spec fn resources_in(list: Seq<JsonValue>, name: Seq<char>) -> Result<Seq<SpanAttrs>, Seq<char>>
    decreases list.len(),
{
    if list.len() == 0 {
        Ok(seq![])
    } else {
        match resources_in(list.drop_last(), name) {
            Err(m) => Err(m),
            Ok(p) => match arr(list.last(), "scopeSpans"@) {
                Err(m) => Err(m),
                Ok(ss) => match scopes_in(ss, name) {
                    Err(m) => Err(m),
                    Ok(q) => Ok(p + q),
                },
            },
        }
    }
}

/// The spans named `name` in one vault line, in order; or why the line is not an
/// `ExportTraceServiceRequest` (a valid JSON line of the wrong shape is never invisible).
pub open spec fn line_spans(v: JsonValue, name: Seq<char>) -> Result<Seq<SpanAttrs>, Seq<char>> {
    if !(v is Object) {
        Err("行の最上位がオブジェクトではない"@)
    } else {
        match arr(v, "resourceSpans"@) {
            Err(m) => Err(m),
            Ok(rs) => resources_in(rs, name),
        }
    }
}

// ---------------------------------------------------------------------------
// Executable reading of the shape
// ---------------------------------------------------------------------------

fn scalar_text_exec(x: &JsonValue) -> (res: Option<String>)
    ensures
        match res {
            Some(s) => scalar_text(*x) == Some(s@),
            None => scalar_text(*x) is None,
        },
{
    match x {
        JsonValue::Str(s) => Some(s.clone()),
        JsonValue::Number(n) => Some(n.clone()),
        _ => None,
    }
}

/// An OTLP `AnyValue` as canonical text.
fn canonical_exec(v: &JsonValue) -> (res: Option<String>)
    ensures
        match res {
            Some(s) => canonical(*v) == Some(s@),
            None => canonical(*v) is None,
        },
{
    if let Some(s) = jstr_exec(jget_exec(v, "stringValue")) {
        return Some(s);
    }
    if let Some(x) = jget_exec(v, "intValue") {
        return scalar_text_exec(x);
    }
    if let Some(x) = jget_exec(v, "doubleValue") {
        return scalar_text_exec(x);
    }
    match jget_exec(v, "boolValue") {
        Some(JsonValue::Bool(b)) => {
            if *b {
                Some(owned("true"))
            } else {
                Some(owned("false"))
            }
        },
        _ => None,
    }
}

proof fn lemma_attrs_of_step(list: Seq<JsonValue>, i: int)
    requires
        0 <= i < list.len(),
    ensures
        attrs_of(list.take(i + 1)) == (match jstr(jget(list[i], "key"@)) {
            None => attrs_of(list.take(i)),
            Some(k) => attrs_of(list.take(i)).push(
                (
                    k,
                    match jget(list[i], "value"@) {
                        Some(x) => canonical(x),
                        None => None,
                    },
                ),
            ),
        }),
{
    assert(list.take(i + 1).drop_last() =~= list.take(i));
}

/// The attributes listed in an `attributes` array.
fn attrs_of_exec(list: &Vec<JsonValue>) -> (res: Vec<(String, Option<String>)>)
    ensures
        attrs_view(res@) == attrs_of(list@),
{
    let mut res: Vec<(String, Option<String>)> = Vec::new();
    let n = list.len();
    assert(list@.take(0) =~= seq![]);
    assert(attrs_view(res@) =~= seq![]);
    for i in 0..n
        invariant
            n == list@.len(),
            attrs_view(res@) == attrs_of(list@.take(i as int)),
    {
        proof {
            lemma_attrs_of_step(list@, i as int);
        }
        let a = &list[i];
        match jstr_exec(jget_exec(a, "key")) {
            None => {},
            Some(k) => {
                let value = match jget_exec(a, "value") {
                    Some(x) => canonical_exec(x),
                    None => None,
                };
                let ghost before = res@;
                res.push((k, value));
                assert(attrs_view(res@) =~= attrs_view(before).push(
                    (
                        k@,
                        match value {
                            Some(s) => Some(s@),
                            None => None,
                        },
                    ),
                ));
            },
        }
    }
    assert(list@.take(n as int) =~= list@);
    res
}

/// The array under `key` (`None` when absent, which counts as empty).
fn arr_exec<'a>(v: &'a JsonValue, key: &str) -> (res: Result<Option<&'a Vec<JsonValue>>, String>)
    ensures
        match res {
            Ok(Some(a)) => arr(*v, key@) == Ok::<Seq<JsonValue>, Seq<char>>(a@),
            Ok(None) => arr(*v, key@) == Ok::<Seq<JsonValue>, Seq<char>>(seq![]),
            Err(m) => arr(*v, key@) == Err::<Seq<JsonValue>, Seq<char>>(m@),
        },
{
    match jget_exec(v, key) {
        None => Ok(None),
        Some(JsonValue::Array(a)) => Ok(Some(a)),
        Some(_) => Err(join2(key, " が配列ではない")),
    }
}

proof fn lemma_spans_in_step(list: Seq<JsonValue>, i: int, name: Seq<char>)
    requires
        0 <= i < list.len(),
    ensures
        spans_in(list.take(i + 1), name) == (match spans_in(list.take(i), name) {
            Err(m) => Err(m),
            Ok(p) => {
                let sp = list[i];
                if !(sp is Object) {
                    Err("spans の要素がオブジェクトではない"@)
                } else if jstr(jget(sp, "name"@)) != Some(name) {
                    Ok(p)
                } else {
                    match arr(sp, "attributes"@) {
                        Err(m) => Err(m),
                        Ok(at) => Ok(p.push(attrs_of(at))),
                    }
                }
            },
        }),
{
    assert(list.take(i + 1).drop_last() =~= list.take(i));
}

proof fn lemma_spans_in_err(list: Seq<JsonValue>, i: int, name: Seq<char>)
    requires
        0 <= i <= list.len(),
        spans_in(list.take(i), name) is Err,
    ensures
        spans_in(list, name) == spans_in(list.take(i), name),
    decreases list.len() - i,
{
    if i < list.len() {
        lemma_spans_in_step(list, i, name);
        lemma_spans_in_err(list, i + 1, name);
    } else {
        assert(list.take(i) =~= list);
    }
}

/// The spans named `name` in a `spans` array.
fn spans_in_exec(list: &[JsonValue], name: &str) -> (res: Result<Vec<Vec<(String, Option<String>)>>, String>)
    ensures
        match res {
            Ok(v) => spans_in(list@, name@) == Ok::<Seq<SpanAttrs>, Seq<char>>(spans_view(v@)),
            Err(m) => spans_in(list@, name@) == Err::<Seq<SpanAttrs>, Seq<char>>(m@),
        },
{
    let mut out: Vec<Vec<(String, Option<String>)>> = Vec::new();
    let n = list.len();
    let nm = owned(name);
    assert(list@.take(0) =~= seq![]);
    assert(spans_view(out@) =~= seq![]);
    for i in 0..n
        invariant
            n == list@.len(),
            nm@ == name@,
            spans_in(list@.take(i as int), name@) == Ok::<Seq<SpanAttrs>, Seq<char>>(spans_view(out@)),
    {
        proof {
            lemma_spans_in_step(list@, i as int, name@);
        }
        let sp = &list[i];
        match sp {
            JsonValue::Object(_) => {},
            _ => {
                proof {
                    lemma_spans_in_err(list@, i + 1, name@);
                }
                return Err(owned("spans の要素がオブジェクトではない"));
            },
        }
        let same = match jstr_exec(jget_exec(sp, "name")) {
            Some(s) => s == nm,
            None => false,
        };
        if same {
            match arr_exec(sp, "attributes") {
                Err(m) => {
                    proof {
                        lemma_spans_in_err(list@, i + 1, name@);
                    }
                    return Err(m);
                },
                Ok(opt) => {
                    let attrs = match opt {
                        Some(a) => attrs_of_exec(a),
                        None => {
                            let empty: Vec<JsonValue> = Vec::new();
                            assert(empty@ =~= seq![]);
                            attrs_of_exec(&empty)
                        },
                    };
                    let ghost before = out@;
                    out.push(attrs);
                    assert(spans_view(out@) =~= spans_view(before).push(attrs_view(attrs@)));
                },
            }
        }
    }
    assert(list@.take(n as int) =~= list@);
    Ok(out)
}

fn append_spans(out: &mut Vec<Vec<(String, Option<String>)>>, more: Vec<Vec<(String, Option<String>)>>)
    ensures
        spans_view(final(out)@) == spans_view(old(out)@) + spans_view(more@),
{
    let mut more = more;
    let ghost a = out@;
    let ghost b = more@;
    out.append(&mut more);
    assert(out@ =~= a + b);
    assert(spans_view(out@) =~= spans_view(a) + spans_view(b));
}

proof fn lemma_scopes_in_step(list: Seq<JsonValue>, i: int, name: Seq<char>)
    requires
        0 <= i < list.len(),
    ensures
        scopes_in(list.take(i + 1), name) == (match scopes_in(list.take(i), name) {
            Err(m) => Err(m),
            Ok(p) => match arr(list[i], "spans"@) {
                Err(m) => Err(m),
                Ok(sp) => match spans_in(sp, name) {
                    Err(m) => Err(m),
                    Ok(q) => Ok(p + q),
                },
            },
        }),
{
    assert(list.take(i + 1).drop_last() =~= list.take(i));
}

proof fn lemma_scopes_in_err(list: Seq<JsonValue>, i: int, name: Seq<char>)
    requires
        0 <= i <= list.len(),
        scopes_in(list.take(i), name) is Err,
    ensures
        scopes_in(list, name) == scopes_in(list.take(i), name),
    decreases list.len() - i,
{
    if i < list.len() {
        lemma_scopes_in_step(list, i, name);
        lemma_scopes_in_err(list, i + 1, name);
    } else {
        assert(list.take(i) =~= list);
    }
}

/// The spans named `name` in a `scopeSpans` array.
fn scopes_in_exec(list: &[JsonValue], name: &str) -> (res: Result<Vec<Vec<(String, Option<String>)>>, String>)
    ensures
        match res {
            Ok(v) => scopes_in(list@, name@) == Ok::<Seq<SpanAttrs>, Seq<char>>(spans_view(v@)),
            Err(m) => scopes_in(list@, name@) == Err::<Seq<SpanAttrs>, Seq<char>>(m@),
        },
{
    let mut out: Vec<Vec<(String, Option<String>)>> = Vec::new();
    let n = list.len();
    assert(list@.take(0) =~= seq![]);
    assert(spans_view(out@) =~= seq![]);
    for i in 0..n
        invariant
            n == list@.len(),
            scopes_in(list@.take(i as int), name@) == Ok::<Seq<SpanAttrs>, Seq<char>>(spans_view(out@)),
    {
        proof {
            lemma_scopes_in_step(list@, i as int, name@);
        }
        let found = match arr_exec(&list[i], "spans") {
            Err(m) => {
                proof {
                    lemma_scopes_in_err(list@, i + 1, name@);
                }
                return Err(m);
            },
            Ok(Some(sp)) => spans_in_exec(sp.as_slice(), name),
            Ok(None) => {
                let empty: Vec<JsonValue> = Vec::new();
                assert(empty@ =~= seq![]);
                spans_in_exec(empty.as_slice(), name)
            },
        };
        match found {
            Err(m) => {
                proof {
                    lemma_scopes_in_err(list@, i + 1, name@);
                }
                return Err(m);
            },
            Ok(q) => {
                append_spans(&mut out, q);
            },
        }
    }
    assert(list@.take(n as int) =~= list@);
    Ok(out)
}

proof fn lemma_resources_in_step(list: Seq<JsonValue>, i: int, name: Seq<char>)
    requires
        0 <= i < list.len(),
    ensures
        resources_in(list.take(i + 1), name) == (match resources_in(list.take(i), name) {
            Err(m) => Err(m),
            Ok(p) => match arr(list[i], "scopeSpans"@) {
                Err(m) => Err(m),
                Ok(ss) => match scopes_in(ss, name) {
                    Err(m) => Err(m),
                    Ok(q) => Ok(p + q),
                },
            },
        }),
{
    assert(list.take(i + 1).drop_last() =~= list.take(i));
}

proof fn lemma_resources_in_err(list: Seq<JsonValue>, i: int, name: Seq<char>)
    requires
        0 <= i <= list.len(),
        resources_in(list.take(i), name) is Err,
    ensures
        resources_in(list, name) == resources_in(list.take(i), name),
    decreases list.len() - i,
{
    if i < list.len() {
        lemma_resources_in_step(list, i, name);
        lemma_resources_in_err(list, i + 1, name);
    } else {
        assert(list.take(i) =~= list);
    }
}

/// The spans named `name` in a `resourceSpans` array.
fn resources_in_exec(list: &[JsonValue], name: &str) -> (res: Result<Vec<Vec<(String, Option<String>)>>, String>)
    ensures
        match res {
            Ok(v) => resources_in(list@, name@) == Ok::<Seq<SpanAttrs>, Seq<char>>(spans_view(v@)),
            Err(m) => resources_in(list@, name@) == Err::<Seq<SpanAttrs>, Seq<char>>(m@),
        },
{
    let mut out: Vec<Vec<(String, Option<String>)>> = Vec::new();
    let n = list.len();
    assert(list@.take(0) =~= seq![]);
    assert(spans_view(out@) =~= seq![]);
    for i in 0..n
        invariant
            n == list@.len(),
            resources_in(list@.take(i as int), name@) == Ok::<Seq<SpanAttrs>, Seq<char>>(spans_view(out@)),
    {
        proof {
            lemma_resources_in_step(list@, i as int, name@);
        }
        let found = match arr_exec(&list[i], "scopeSpans") {
            Err(m) => {
                proof {
                    lemma_resources_in_err(list@, i + 1, name@);
                }
                return Err(m);
            },
            Ok(Some(ss)) => scopes_in_exec(ss.as_slice(), name),
            Ok(None) => {
                let empty: Vec<JsonValue> = Vec::new();
                assert(empty@ =~= seq![]);
                scopes_in_exec(empty.as_slice(), name)
            },
        };
        match found {
            Err(m) => {
                proof {
                    lemma_resources_in_err(list@, i + 1, name@);
                }
                return Err(m);
            },
            Ok(q) => {
                append_spans(&mut out, q);
            },
        }
    }
    assert(list@.take(n as int) =~= list@);
    Ok(out)
}

/// The attributes of each span named `name` in one vault line, in order, or why the line
/// does not have the shape of an `ExportTraceServiceRequest`.
pub fn collect_spans(v: &JsonValue, name: &str) -> (res: Result<Vec<Vec<(String, Option<String>)>>, String>)
    ensures
        match res {
            Ok(s) => line_spans(*v, name@) == Ok::<Seq<SpanAttrs>, Seq<char>>(spans_view(s@)),
            Err(m) => line_spans(*v, name@) == Err::<Seq<SpanAttrs>, Seq<char>>(m@),
        },
{
    match v {
        JsonValue::Object(_) => {},
        _ => {
            return Err(owned("行の最上位がオブジェクトではない"));
        },
    }
    match arr_exec(v, "resourceSpans") {
        Err(m) => Err(m),
        Ok(Some(rs)) => resources_in_exec(rs.as_slice(), name),
        Ok(None) => {
            let empty: Vec<JsonValue> = Vec::new();
            assert(empty@ =~= seq![]);
            resources_in_exec(empty.as_slice(), name)
        },
    }
}

// ---------------------------------------------------------------------------
// Quoting the matched line of an artifact
// ---------------------------------------------------------------------------

/// Each line's characters.
pub open spec fn lines_view(v: Seq<Vec<char>>) -> Seq<Seq<char>> {
    v.map_values(|x: Vec<char>| x@)
}

/// Position of the first line containing `v`.
pub open spec fn first_line_with(ls: Seq<Seq<char>>, v: Seq<char>) -> Option<int>
    decreases ls.len(),
{
    if ls.len() == 0 {
        None
    } else {
        match first_line_with(ls.drop_last(), v) {
            Some(i) => Some(i),
            None => if contains(ls.last(), v) {
                Some(ls.len() - 1)
            } else {
                None
            },
        }
    }
}

/// Position of the first occurrence of `n` in `h` (std's `str::find`, counted in chars).
pub open spec fn first_occurrence(h: Seq<char>, n: Seq<char>) -> Option<int> {
    if contains(h, n) {
        Some(choose|i: int| occurs_at(h, n, i) && forall|j: int| 0 <= j < i ==> !occurs_at(h, n, j))
    } else {
        None
    }
}

/// The last character of `line` that starts at or before byte `target`.
pub open spec fn start_index(line: Seq<char>, target: nat) -> int {
    choose|k: int|
        0 <= k < line.len() && #[trigger] utf8_len(line.take(k)) <= target && (k + 1 == line.len()
            || utf8_len(line.take(k + 1)) > target)
}

/// The quotation shown for a match: the first line of `text` that contains `value`
/// (or `value` itself), trimmed; a line of more than 120 characters is cut to the 120
/// characters from the last character starting at or before 40 bytes ahead of the
/// match, and marked with `…` at both ends.
pub open spec fn quote(text: Seq<char>, value: Seq<char>) -> Seq<char> {
    let line = quoted_line(text, value);
    if line.len() <= 120 {
        line
    } else {
        cut_line(line, value)
    }
}

/// The first line of `text` that contains `value` (or `value` itself), trimmed.
pub open spec fn quoted_line(text: Seq<char>, value: Seq<char>) -> Seq<char> {
    let ls = lines(text);
    trim(
        match first_line_with(ls, value) {
            Some(i) => ls[i],
            None => value,
        },
    )
}

/// A long line cut to 120 characters around the match, marked with `…` at both ends.
pub open spec fn cut_line(line: Seq<char>, value: Seq<char>) -> Seq<char> {
    let pos: nat = match first_occurrence(line, value) {
        Some(p) => utf8_len(line.take(p)),
        None => 0,
    };
    let target: nat = if pos >= 40 {
        (pos - 40) as nat
    } else {
        0
    };
    let st = start_index(line, target);
    let end = if st + 120 <= line.len() {
        st + 120
    } else {
        line.len() as int
    };
    "…"@ + line.subrange(st, end) + "…"@
}

proof fn lemma_first_line_with_step(ls: Seq<Seq<char>>, i: int, v: Seq<char>)
    requires
        0 <= i < ls.len(),
        first_line_with(ls.take(i), v) is None,
    ensures
        first_line_with(ls.take(i + 1), v) == (if contains(ls[i], v) {
            Some(i)
        } else {
            None::<int>
        }),
{
    assert(ls.take(i + 1).drop_last() =~= ls.take(i));
}

proof fn lemma_first_line_with_found(ls: Seq<Seq<char>>, i: int, v: Seq<char>)
    requires
        0 <= i < ls.len(),
        first_line_with(ls.take(i + 1), v) == Some(i),
    ensures
        first_line_with(ls, v) == Some(i),
    decreases ls.len(),
{
    if ls.len() == i + 1 {
        assert(ls.take(i + 1) =~= ls);
    } else {
        assert(ls.drop_last().take(i + 1) =~= ls.take(i + 1));
        lemma_first_line_with_found(ls.drop_last(), i, v);
    }
}

/// The position of the first line containing `v`.
fn first_line_with_exec(ls: &Vec<Vec<char>>, v: &[char]) -> (res: Option<usize>)
    ensures
        match res {
            Some(i) => first_line_with(lines_view(ls@), v@) == Some(i as int) && i < ls@.len(),
            None => first_line_with(lines_view(ls@), v@) is None,
        },
{
    let n = ls.len();
    let ghost lv = lines_view(ls@);
    assert(lv.take(0) =~= seq![]);
    for i in 0..n
        invariant
            n == ls@.len(),
            lv == lines_view(ls@),
            first_line_with(lv.take(i as int), v@) is None,
    {
        proof {
            lemma_first_line_with_step(lv, i as int, v@);
        }
        if contains_exec(ls[i].as_slice(), v) {
            proof {
                lemma_first_line_with_found(lv, i as int, v@);
            }
            return Some(i);
        }
    }
    assert(lv.take(n as int) =~= lv);
    None
}

pub proof fn lemma_utf8_len_bound(s: Seq<char>)
    ensures
        utf8_len(s) <= 4 * s.len(),
    decreases s.len(),
{
    if s.len() > 0 {
        lemma_utf8_len_bound(s.drop_last());
    }
}

/// Bytes that UTF-8 takes for `s[..k]`.
fn utf8_prefix_len(s: &[char], k: usize) -> (res: u128)
    requires
        k <= s@.len(),
    ensures
        res == utf8_len(s@.take(k as int)),
{
    let mut b: u128 = 0;
    let mut i: usize = 0;
    assert(s@.take(0) =~= seq![]);
    while i < k
        invariant
            i <= k <= s@.len(),
            b == utf8_len(s@.take(i as int)),
        decreases k - i,
    {
        proof {
            crate::text::lemma_utf8_len_take(s@, i as int);
            lemma_utf8_len_bound(s@.take(i as int));
        }
        b = b + utf8_width_exec(s[i]) as u128;
        i += 1;
    }
    b
}

pub proof fn lemma_start_index_unique(line: Seq<char>, target: nat, k: int)
    requires
        0 <= k < line.len(),
        utf8_len(line.take(k)) <= target,
        k + 1 == line.len() || utf8_len(line.take(k + 1)) > target,
    ensures
        start_index(line, target) == k,
{
    let w = start_index(line, target);
    assert(0 <= w < line.len() && utf8_len(line.take(w)) <= target && (w + 1 == line.len()
        || utf8_len(line.take(w + 1)) > target));
    if w < k {
        crate::text::lemma_utf8_len_mono(line, w + 1, k);
    }
    if k < w {
        crate::text::lemma_utf8_len_mono(line, k + 1, w);
    }
}

proof fn lemma_first_occurrence_is(h: Seq<char>, n: Seq<char>, i: int)
    requires
        occurs_at(h, n, i),
        forall|j: int| 0 <= j < i ==> !occurs_at(h, n, j),
    ensures
        first_occurrence(h, n) == Some(i),
{
    assert(contains(h, n));
    let w = choose|w: int| occurs_at(h, n, w) && forall|j: int| 0 <= j < w ==> !occurs_at(h, n, j);
    assert(occurs_at(h, n, w) && forall|j: int| 0 <= j < w ==> !occurs_at(h, n, j));
    if w < i {
        assert(!occurs_at(h, n, w));
    }
    if i < w {
        assert(!occurs_at(h, n, i));
    }
}

/// The line of `text` quoted for a match of `value` (see `quote`).
pub fn quote_match(text: &[char], value: &[char]) -> (res: Vec<char>)
    ensures
        res@ == quote(text@, value@),
{
    let line = quoted_line_exec(text, value);
    if line.len() <= 120 {
        line
    } else {
        cut_line_exec(&line, value)
    }
}

fn quoted_line_exec(text: &[char], value: &[char]) -> (res: Vec<char>)
    ensures
        res@ == quoted_line(text@, value@),
{
    let ls = lines_exec(text);
    assert(lines_view(ls@) =~= lines(text@));
    match first_line_with_exec(&ls, value) {
        Some(i) => trim_exec(ls[i].as_slice()),
        None => trim_exec(value),
    }
}

fn cut_line_exec(line: &Vec<char>, value: &[char]) -> (res: Vec<char>)
    requires
        line@.len() > 120,
    ensures
        res@ == cut_line(line@, value@),
{
    let n = line.len();
    let pos: u128 = match crate::text::find(line.as_slice(), value) {
        Some(p) => {
            proof {
                lemma_first_occurrence_is(line@, value@, p as int);
                lemma_utf8_len_bound(line@.take(p as int));
            }
            utf8_prefix_len(line.as_slice(), p)
        },
        None => 0,
    };
    let target: u128 = if pos >= 40 {
        pos - 40
    } else {
        0
    };
    assert(target <= 4 * n);
    let mut k: usize = 0;
    let mut b: u128 = 0;
    assert(line@.take(0) =~= seq![]);
    while k + 1 < n && b + utf8_width_exec(line[k]) as u128 <= target
        invariant
            n == line@.len(),
            n > 120,
            k < n,
            b == utf8_len(line@.take(k as int)),
            b <= target,
            target <= 4 * n,
        decreases n - k,
    {
        proof {
            crate::text::lemma_utf8_len_take(line@, k as int);
        }
        b = b + utf8_width_exec(line[k]) as u128;
        k += 1;
    }
    proof {
        crate::text::lemma_utf8_len_take(line@, k as int);
        lemma_start_index_unique(line@, target as nat, k as int);
    }
    let end = if n - k > 120 {
        k + 120
    } else {
        n
    };
    let mut out: Vec<char> = Vec::new();
    out.push('…');
    let mid = crate::text::slice_chars(line.as_slice(), k, end);
    let mut i: usize = 0;
    while i < mid.len()
        invariant
            out@ == seq!['…'] + mid@.take(i as int),
            i <= mid@.len(),
        decreases mid@.len() - i,
    {
        out.push(mid[i]);
        assert(mid@.take(i + 1) =~= mid@.take(i as int).push(mid@[i as int]));
        i += 1;
    }
    out.push('…');
    proof {
        reveal_strlit("…");
        assert(mid@.take(mid@.len() as int) =~= mid@);
        assert(out@ =~= "…"@ + mid@ + "…"@);
    }
    out
}

// ---------------------------------------------------------------------------
// The examination
// ---------------------------------------------------------------------------

/// What reading a vault's lines finds: the named spans of every line, or the first line
/// (numbered from 1) that is not JSON (with the parser's message), or that is JSON of the
/// wrong shape (and why).
pub enum VaultScan {
    Spans(Seq<SpanAttrs>),
    Unparsable(nat, Seq<char>),
    Misshapen(nat, Seq<char>),
}

/// Reads the lines of a vault in order, skipping blank lines; the first bad line decides.
pub open spec fn scan(ls: Seq<Seq<char>>, name: Seq<char>) -> VaultScan
    decreases ls.len(),
{
    if ls.len() == 0 {
        VaultScan::Spans(seq![])
    } else {
        match scan(ls.drop_last(), name) {
            VaultScan::Spans(p) => {
                let l = ls.last();
                if all_white(l) {
                    VaultScan::Spans(p)
                } else {
                    match json_document(l) {
                        Err(m) => VaultScan::Unparsable(ls.len(), m),
                        Ok(v) => match line_spans(v, name) {
                            Err(w) => VaultScan::Misshapen(ls.len(), w),
                            Ok(q) => VaultScan::Spans(p + q),
                        },
                    }
                }
            },
            other => other,
        }
    }
}

/// The value of the first attribute keyed `name`: `None` when there is none,
/// `Some(None)` when its value is not a scalar.
pub open spec fn first_attr(attrs: SpanAttrs, name: Seq<char>) -> Option<Option<Seq<char>>>
    decreases attrs.len(),
{
    if attrs.len() == 0 {
        None
    } else {
        match first_attr(attrs.drop_last(), name) {
            Some(x) => Some(x),
            None => if attrs.last().0 == name {
                Some(attrs.last().1)
            } else {
                None
            },
        }
    }
}

/// Position of the first artifact whose text contains `v`.
pub open spec fn first_witness(v: Seq<char>, arts: Seq<(Seq<char>, Seq<char>)>) -> Option<int>
    decreases arts.len(),
{
    if arts.len() == 0 {
        None
    } else {
        match first_witness(v, arts.drop_last()) {
            Some(k) => Some(k),
            None => if contains(arts.last().1, v) {
                Some(arts.len() - 1)
            } else {
                None
            },
        }
    }
}

/// Artifacts (label, text) as values.
pub open spec fn arts_view(a: Seq<(String, String)>) -> Seq<(Seq<char>, Seq<char>)> {
    a.map_values(|p: (String, String)| (p.0@, p.1@))
}

/// The attribute `name` of a span is witnessed: a non-empty scalar value that appears in
/// some artifact.
pub open spec fn attr_passes(attrs: SpanAttrs, name: Seq<char>, arts: Seq<(Seq<char>, Seq<char>)>) -> bool {
    match first_attr(attrs, name) {
        Some(Some(v)) => v.len() > 0 && first_witness(v, arts) is Some,
        _ => false,
    }
}

/// The span has every attribute of `names` witnessed.
pub open spec fn span_passes(attrs: SpanAttrs, names: Seq<Seq<char>>, arts: Seq<(Seq<char>, Seq<char>)>) -> bool {
    forall|ni: int| 0 <= ni < names.len() ==> attr_passes(attrs, #[trigger] names[ni], arts)
}

/// Every span has every attribute of `names` witnessed.
pub open spec fn all_pass(spans: Seq<SpanAttrs>, names: Seq<Seq<char>>, arts: Seq<(Seq<char>, Seq<char>)>) -> bool {
    forall|si: int| 0 <= si < spans.len() ==> span_passes(#[trigger] spans[si], names, arts)
}

/// The transcript line of a failed match.
pub open spec fn fail_line(si: nat, name: Seq<char>, why: Seq<char>) -> Seq<char> {
    "✗ span["@ + int_text(si as int) + "] "@ + name + ": "@ + why + "\n"@
}

/// The transcript line of a successful match, quoting where it matched.
pub open spec fn pass_line(si: nat, name: Seq<char>, v: Seq<char>, label: Seq<char>, q: Seq<char>) -> Seq<char> {
    "✓ span["@ + int_text(si as int) + "] "@ + name + " = \""@ + v + "\" — 成果物 "@ + label
        + " に一致: 「"@ + q + "」\n"@
}

/// The transcript line for attribute `name` of span `si`.
pub open spec fn check_line(si: nat, name: Seq<char>, attrs: SpanAttrs, arts: Seq<(Seq<char>, Seq<char>)>) -> Seq<char> {
    match first_attr(attrs, name) {
        None => fail_line(si, name, "属性が無い"@),
        Some(None) => fail_line(si, name, "属性値が非スカラー(v0.3 はスカラーのみ)"@),
        Some(Some(v)) => if v.len() == 0 {
            fail_line(si, name, "属性値が空(空は突き合わせ不能)"@)
        } else {
            match first_witness(v, arts) {
                Some(k) => pass_line(si, name, v, arts[k].0, quote(arts[k].1, v)),
                None => fail_line(si, name, "値 \""@ + v + "\" がどの成果物写しにも現れない"@),
            }
        },
    }
}

/// The transcript lines for span `si`, one per attribute name.
pub open spec fn span_lines(si: nat, attrs: SpanAttrs, names: Seq<Seq<char>>, arts: Seq<(Seq<char>, Seq<char>)>) -> Seq<char>
    decreases names.len(),
{
    if names.len() == 0 {
        seq![]
    } else {
        span_lines(si, attrs, names.drop_last(), arts) + check_line(si, names.last(), attrs, arts)
    }
}

/// The transcript lines for every span.
pub open spec fn all_lines(spans: Seq<SpanAttrs>, names: Seq<Seq<char>>, arts: Seq<(Seq<char>, Seq<char>)>) -> Seq<char>
    decreases spans.len(),
{
    if spans.len() == 0 {
        seq![]
    } else {
        all_lines(spans.drop_last(), names, arts) + span_lines(
            (spans.len() - 1) as nat,
            spans.last(),
            names,
            arts,
        )
    }
}

/// The vault's text (or why it could not be read) as values.
pub open spec fn contents_view(c: Result<String, String>) -> Result<Seq<char>, Seq<char>> {
    match c {
        Ok(t) => Ok(t@),
        Err(e) => Err(e@),
    }
}

/// What the vault's lines yield for span `name`.
pub open spec fn vault_scan(text: Seq<char>, name: Seq<char>) -> VaultScan {
    scan(lines(text), name)
}

/// Whether the examination passes: the vault was read, every line has the expected shape,
/// the named span is there, and (unless it is a dry run, without artifacts) every such span
/// has every attribute of `names` witnessed by an artifact.
pub open spec fn otel_ok(
    contents: Result<Seq<char>, Seq<char>>,
    span: Seq<char>,
    names: Seq<Seq<char>>,
    arts: Option<Seq<(Seq<char>, Seq<char>)>>,
) -> bool {
    match contents {
        Err(_) => false,
        Ok(text) => match vault_scan(text, span) {
            VaultScan::Spans(s) => s.len() > 0 && match arts {
                None => true,
                Some(a) => all_pass(s, names, a),
            },
            _ => false,
        },
    }
}

/// How many spans of that name the examination found (0 when it stopped before counting).
pub open spec fn otel_spans_found(contents: Result<Seq<char>, Seq<char>>, span: Seq<char>) -> nat {
    match contents {
        Err(_) => 0,
        Ok(text) => match vault_scan(text, span) {
            VaultScan::Spans(s) => s.len(),
            _ => 0,
        },
    }
}

/// The first line of every transcript.
pub open spec fn otel_header(vault: Seq<char>, span: Seq<char>) -> Seq<char> {
    "otel 検分: 蔵 "@ + vault + " / span \""@ + span + "\"\n"@
}

/// The transcript of an examination.
pub open spec fn otel_transcript(
    vault: Seq<char>,
    contents: Result<Seq<char>, Seq<char>>,
    span: Seq<char>,
    names: Seq<Seq<char>>,
    arts: Option<Seq<(Seq<char>, Seq<char>)>>,
) -> Seq<char> {
    let h = otel_header(vault, span);
    match contents {
        Err(e) => h + "✗ 蔵を読めない: "@ + e + "\n"@,
        Ok(text) => match vault_scan(text, span) {
            VaultScan::Unparsable(n, m) => h + "✗ 蔵の行 "@ + int_text(n as int) + " を解析できない: "@ + m + "\n"@,
            VaultScan::Misshapen(n, w) => h + "✗ 蔵の行 "@ + int_text(n as int)
                + " が ExportTraceServiceRequest の形ではない: "@ + w + "\n"@,
            VaultScan::Spans(s) => {
                let count = h + "span \""@ + span + "\": "@ + int_text(s.len() as int) + " 本\n"@;
                if s.len() == 0 {
                    count + "✗ 名指しの span が蔵に無い(過程の証言が無い)\n"@
                } else {
                    match arts {
                        None => count
                            + "(予行: attrs_match の突き合わせは宣言の成果物が要るため、改めで行う)\n"@,
                        Some(a) => count + all_lines(s, names, a) + (if names.len() == 0 {
                            "(attrs_match 指定なし — span の在否のみ)\n"@
                        } else {
                            seq![]
                        }),
                    }
                }
            },
        },
    }
}

// ---------------------------------------------------------------------------
// Executable examination
// ---------------------------------------------------------------------------

proof fn lemma_first_attr_step(a: SpanAttrs, i: int, name: Seq<char>)
    requires
        0 <= i < a.len(),
        first_attr(a.take(i), name) is None,
    ensures
        first_attr(a.take(i + 1), name) == (if a[i].0 == name {
            Some(a[i].1)
        } else {
            None::<Option<Seq<char>>>
        }),
{
    assert(a.take(i + 1).drop_last() =~= a.take(i));
}

proof fn lemma_first_attr_found(a: SpanAttrs, i: int, name: Seq<char>)
    requires
        0 <= i < a.len(),
        first_attr(a.take(i + 1), name) is Some,
    ensures
        first_attr(a, name) == first_attr(a.take(i + 1), name),
    decreases a.len(),
{
    if a.len() == i + 1 {
        assert(a.take(i + 1) =~= a);
    } else {
        assert(a.drop_last().take(i + 1) =~= a.take(i + 1));
        lemma_first_attr_found(a.drop_last(), i, name);
    }
}

/// Position of the first attribute keyed `name`.
fn first_attr_exec(attrs: &Vec<(String, Option<String>)>, name: &String) -> (res: Option<usize>)
    ensures
        match res {
            Some(i) => i < attrs@.len() && attrs@[i as int].0@ == name@ && first_attr(
                attrs_view(attrs@),
                name@,
            ) == Some(attrs_view(attrs@)[i as int].1),
            None => first_attr(attrs_view(attrs@), name@) is None,
        },
{
    let n = attrs.len();
    let ghost av = attrs_view(attrs@);
    assert(av.take(0) =~= seq![]);
    for i in 0..n
        invariant
            n == attrs@.len(),
            av == attrs_view(attrs@),
            first_attr(av.take(i as int), name@) is None,
    {
        proof {
            lemma_first_attr_step(av, i as int, name@);
        }
        if attrs[i].0 == *name {
            proof {
                lemma_first_attr_found(av, i as int, name@);
            }
            return Some(i);
        }
    }
    assert(av.take(n as int) =~= av);
    None
}

proof fn lemma_first_witness_step(v: Seq<char>, a: Seq<(Seq<char>, Seq<char>)>, i: int)
    requires
        0 <= i < a.len(),
        first_witness(v, a.take(i)) is None,
    ensures
        first_witness(v, a.take(i + 1)) == (if contains(a[i].1, v) {
            Some(i)
        } else {
            None::<int>
        }),
{
    assert(a.take(i + 1).drop_last() =~= a.take(i));
}

proof fn lemma_first_witness_found(v: Seq<char>, a: Seq<(Seq<char>, Seq<char>)>, i: int)
    requires
        0 <= i < a.len(),
        first_witness(v, a.take(i + 1)) == Some(i),
    ensures
        first_witness(v, a) == Some(i),
    decreases a.len(),
{
    if a.len() == i + 1 {
        assert(a.take(i + 1) =~= a);
    } else {
        assert(a.drop_last().take(i + 1) =~= a.take(i + 1));
        lemma_first_witness_found(v, a.drop_last(), i);
    }
}

/// Position of the first artifact whose text contains `v`.
fn first_witness_exec(v: &[char], arts: &[(String, String)]) -> (res: Option<usize>)
    ensures
        match res {
            Some(k) => k < arts@.len() && first_witness(v@, arts_view(arts@)) == Some(k as int),
            None => first_witness(v@, arts_view(arts@)) is None,
        },
{
    let n = arts.len();
    let ghost av = arts_view(arts@);
    assert(av.take(0) =~= seq![]);
    for k in 0..n
        invariant
            n == arts@.len(),
            av == arts_view(arts@),
            first_witness(v@, av.take(k as int)) is None,
    {
        proof {
            lemma_first_witness_step(v@, av, k as int);
        }
        let text = chars_of(arts[k].1.as_str());
        if contains_exec(text.as_slice(), v) {
            proof {
                lemma_first_witness_found(v@, av, k as int);
            }
            return Some(k);
        }
    }
    assert(av.take(n as int) =~= av);
    None
}

fn fail_line_exec(si: usize, name: &str, why: &str) -> (res: String)
    ensures
        res@ == fail_line(si as nat, name@, why@),
{
    let st = nat_text_exec(si as u64);
    let mut r = join3("✗ span[", st.as_str(), "] ");
    r.append(name);
    r.append(": ");
    r.append(why);
    r.append("\n");
    r
}

/// The transcript line for attribute `name` of span `si`, and whether it passes.
fn check_attr(si: usize, name: &String, attrs: &Vec<(String, Option<String>)>, arts: &[(String, String)]) -> (res: (String, bool))
    ensures
        res.0@ == check_line(si as nat, name@, attrs_view(attrs@), arts_view(arts@)),
        res.1 == attr_passes(attrs_view(attrs@), name@, arts_view(arts@)),
{
    match first_attr_exec(attrs, name) {
        None => (fail_line_exec(si, name.as_str(), "属性が無い"), false),
        Some(i) => match &attrs[i].1 {
            None => (fail_line_exec(si, name.as_str(), "属性値が非スカラー(v0.3 はスカラーのみ)"), false),
            Some(v) => {
                if v.as_str().is_empty() {
                    return (fail_line_exec(si, name.as_str(), "属性値が空(空は突き合わせ不能)"), false);
                }
                let vc = chars_of(v.as_str());
                match first_witness_exec(vc.as_slice(), arts) {
                    None => {
                        let why = join3("値 \"", v.as_str(), "\" がどの成果物写しにも現れない");
                        (fail_line_exec(si, name.as_str(), why.as_str()), false)
                    },
                    Some(k) => {
                        let text = chars_of(arts[k].1.as_str());
                        let q = string_from_chars(quote_match(text.as_slice(), vc.as_slice()).as_slice());
                        let st = nat_text_exec(si as u64);
                        let mut r = join3("✓ span[", st.as_str(), "] ");
                        r.append(name.as_str());
                        r.append(" = \"");
                        r.append(v.as_str());
                        r.append("\" — 成果物 ");
                        r.append(arts[k].0.as_str());
                        r.append(" に一致: 「");
                        r.append(q.as_str());
                        r.append("」\n");
                        (r, true)
                    },
                }
            },
        },
    }
}

/// The transcript lines of span `si`'s checks and whether all passed.
fn check_span(si: usize, attrs: &Vec<(String, Option<String>)>, names: &[String], arts: &[(String, String)]) -> (res: (String, bool))
    ensures
        res.0@ == span_lines(si as nat, attrs_view(attrs@), crate::contract::strings(names@), arts_view(arts@)),
        res.1 == span_passes(attrs_view(attrs@), crate::contract::strings(names@), arts_view(arts@)),
{
    let ghost at = attrs_view(attrs@);
    let ghost nv = crate::contract::strings(names@);
    let ghost av = arts_view(arts@);
    let mut t = String::new();
    let mut ok = true;
    let nn = names.len();
    assert(nv.take(0) =~= seq![]);
    for ni in 0..nn
        invariant
            nn == names@.len(),
            at == attrs_view(attrs@),
            nv == crate::contract::strings(names@),
            av == arts_view(arts@),
            t@ == span_lines(si as nat, at, nv.take(ni as int), av),
            ok == (forall|b: int| 0 <= b < ni ==> attr_passes(at, #[trigger] nv[b], av)),
    {
        let (line, pass) = check_attr(si, &names[ni], attrs, arts);
        t.append(line.as_str());
        proof {
            assert(nv.take(ni + 1).drop_last() =~= nv.take(ni as int));
            assert(nv[ni as int] == names@[ni as int]@);
            if ok && pass {
                assert forall|b: int| 0 <= b < ni + 1 implies attr_passes(at, #[trigger] nv[b], av) by {
                    if b == ni {
                    }
                }
            }
            if !pass {
                assert(!attr_passes(at, nv[ni as int], av));
            }
        }
        ok = ok && pass;
    }
    assert(nv.take(nn as int) =~= nv);
    (t, ok)
}

/// Matches spans against the declared artifacts: the transcript lines of every check of
/// every span (see `all_lines`) and whether every span has every attribute of `names`
/// witnessed (see `all_pass`).
pub fn check_all(spans: &Vec<Vec<(String, Option<String>)>>, names: &[String], arts: &[(String, String)]) -> (res: (String, bool))
    ensures
        res.0@ == all_lines(spans_view(spans@), crate::contract::strings(names@), arts_view(arts@)),
        res.1 == all_pass(spans_view(spans@), crate::contract::strings(names@), arts_view(arts@)),
{
    let ghost sv = spans_view(spans@);
    let ghost nv = crate::contract::strings(names@);
    let ghost av = arts_view(arts@);
    let mut t = String::new();
    let mut ok = true;
    let ns = spans.len();
    assert(sv.take(0) =~= seq![]);
    for si in 0..ns
        invariant
            ns == spans@.len(),
            sv == spans_view(spans@),
            nv == crate::contract::strings(names@),
            av == arts_view(arts@),
            t@ == all_lines(sv.take(si as int), nv, av),
            ok == (forall|a: int| 0 <= a < si ==> span_passes(#[trigger] sv[a], nv, av)),
    {
        let (lines_of_span, pass) = check_span(si, &spans[si], names, arts);
        t.append(lines_of_span.as_str());
        proof {
            assert(sv.take(si + 1).drop_last() =~= sv.take(si as int));
            assert(sv[si as int] == attrs_view(spans@[si as int]@));
            if ok && pass {
                assert forall|a: int| 0 <= a < si + 1 implies span_passes(#[trigger] sv[a], nv, av) by {
                    if a == si {
                    }
                }
            }
            if !pass {
                assert(!span_passes(sv[si as int], nv, av));
            }
        }
        ok = ok && pass;
    }
    assert(sv.take(ns as int) =~= sv);
    (t, ok)
}

/// What scanning a vault yields, as the transcript needs it.
enum Scanned {
    Spans(Vec<Vec<(String, Option<String>)>>),
    /// The transcript line reporting the first bad vault line.
    Bad(String),
}

proof fn lemma_scan_step(ls: Seq<Seq<char>>, i: int, name: Seq<char>)
    requires
        0 <= i < ls.len(),
    ensures
        scan(ls.take(i + 1), name) == (match scan(ls.take(i), name) {
            VaultScan::Spans(p) => {
                let l = ls[i];
                if all_white(l) {
                    VaultScan::Spans(p)
                } else {
                    match json_document(l) {
                        Err(m) => VaultScan::Unparsable((i + 1) as nat, m),
                        Ok(v) => match line_spans(v, name) {
                            Err(w) => VaultScan::Misshapen((i + 1) as nat, w),
                            Ok(q) => VaultScan::Spans(p + q),
                        },
                    }
                }
            },
            other => other,
        }),
{
    assert(ls.take(i + 1).drop_last() =~= ls.take(i));
}

proof fn lemma_scan_stops(ls: Seq<Seq<char>>, i: int, name: Seq<char>)
    requires
        0 <= i <= ls.len(),
        !(scan(ls.take(i), name) is Spans),
    ensures
        scan(ls, name) == scan(ls.take(i), name),
    decreases ls.len() - i,
{
    if i < ls.len() {
        lemma_scan_step(ls, i, name);
        lemma_scan_stops(ls, i + 1, name);
    } else {
        assert(ls.take(i) =~= ls);
    }
}

/// Reads the vault's lines for the spans named `name`.
fn scan_exec(raw: &str, name: &str) -> (res: Scanned)
    ensures
        match vault_scan(raw@, name@) {
            VaultScan::Spans(s) => res matches Scanned::Spans(v) && spans_view(v@) == s,
            VaultScan::Unparsable(n, m) => res matches Scanned::Bad(l) && l@ == "✗ 蔵の行 "@ + int_text(n as int)
                + " を解析できない: "@ + m + "\n"@,
            VaultScan::Misshapen(n, w) => res matches Scanned::Bad(l) && l@ == "✗ 蔵の行 "@
                + int_text(n as int) + " が ExportTraceServiceRequest の形ではない: "@ + w + "\n"@,
        },
{
    let rc = chars_of(raw);
    let ls = lines_exec(rc.as_slice());
    let ghost lv = lines_view(ls@);
    assert(lv =~= lines(raw@));
    let n = ls.len();
    let mut spans: Vec<Vec<(String, Option<String>)>> = Vec::new();
    assert(lv.take(0) =~= seq![]);
    assert(spans_view(spans@) =~= seq![]);
    for i in 0..n
        invariant
            n == ls@.len(),
            lv == lines_view(ls@),
            lv == lines(raw@),
            scan(lv.take(i as int), name@) == VaultScan::Spans(spans_view(spans@)),
    {
        proof {
            lemma_scan_step(lv, i as int, name@);
            assert(lv[i as int] == ls@[i as int]@);
        }
        if !all_white_exec(ls[i].as_slice()) {
            let line = string_from_chars(ls[i].as_slice());
            let number = nat_text_exec((i + 1) as u64);
            match parse_json(line.as_str()) {
                Err(e) => {
                    let mut l = join3("✗ 蔵の行 ", number.as_str(), " を解析できない: ");
                    l.append(e.as_str());
                    l.append("\n");
                    proof {
                        lemma_scan_stops(lv, i + 1, name@);
                    }
                    return Scanned::Bad(l);
                },
                Ok(v) => match collect_spans(&v, name) {
                    Err(why) => {
                        let mut l = join3("✗ 蔵の行 ", number.as_str(), " が ExportTraceServiceRequest の形ではない: ");
                        l.append(why.as_str());
                        l.append("\n");
                        proof {
                            lemma_scan_stops(lv, i + 1, name@);
                        }
                        return Scanned::Bad(l);
                    },
                    Ok(q) => {
                        append_spans(&mut spans, q);
                    },
                },
            }
        }
    }
    assert(lv.take(n as int) =~= lv);
    Scanned::Spans(spans)
}

/// The artifacts as values, when there are any.
pub open spec fn arts_opt(a: Option<&[(String, String)]>) -> Option<Seq<(Seq<char>, Seq<char>)>> {
    match a {
        Some(x) => Some(arts_view(x@)),
        None => None,
    }
}

/// Examines OTel evidence. `vault` names the vault (as shown in the transcript);
/// `contents` is its text, or why it could not be read. `artifacts` are the (label, text)
/// copies of the artifacts stored at declaration; `None` is a dry run (check), which
/// looks only for the span, since matching needs the declared artifacts.
/// A broken or unreadable vault is no error but a failed examination, on the record.
pub fn examine_otel(
    vault: &str,
    contents: &Result<String, String>,
    span_name: &str,
    attrs_match: &[String],
    artifacts: Option<&[(String, String)]>,
) -> (run: OtelRun)
    ensures
        run.vault@ == vault@,
        run.span@ == span_name@,
        run.ok == otel_ok(contents_view(*contents), span_name@, crate::contract::strings(attrs_match@), arts_opt(artifacts)),
        run.spans_found == otel_spans_found(contents_view(*contents), span_name@),
        run.transcript@ == otel_transcript(vault@, contents_view(*contents), span_name@, crate::contract::strings(attrs_match@), arts_opt(artifacts)),
{
    let mut t = join5("otel 検分: 蔵 ", vault, " / span \"", span_name, "\"\n");
    let raw = match contents {
        Err(e) => {
            t.append("✗ 蔵を読めない: ");
            t.append(e.as_str());
            t.append("\n");
            return OtelRun { vault: owned(vault), span: owned(span_name), spans_found: 0, ok: false, transcript: t };
        },
        Ok(r) => r,
    };
    let spans = match scan_exec(raw.as_str(), span_name) {
        Scanned::Bad(l) => {
            t.append(l.as_str());
            return OtelRun { vault: owned(vault), span: owned(span_name), spans_found: 0, ok: false, transcript: t };
        },
        Scanned::Spans(s) => s,
    };
    let count = nat_text_exec(spans.len() as u64);
    t.append("span \"");
    t.append(span_name);
    t.append("\": ");
    t.append(count.as_str());
    t.append(" 本\n");
    if spans.len() == 0 {
        t.append("✗ 名指しの span が蔵に無い(過程の証言が無い)\n");
        return OtelRun { vault: owned(vault), span: owned(span_name), spans_found: 0, ok: false, transcript: t };
    }
    let arts = match artifacts {
        None => {
            t.append("(予行: attrs_match の突き合わせは宣言の成果物が要るため、改めで行う)\n");
            return OtelRun { vault: owned(vault), span: owned(span_name), spans_found: spans.len(), ok: true, transcript: t };
        },
        Some(a) => a,
    };
    let (checks, ok) = check_all(&spans, attrs_match, arts);
    t.append(checks.as_str());
    if attrs_match.len() == 0 {
        t.append("(attrs_match 指定なし — span の在否のみ)\n");
    } else {
        assert(t@ =~= t@ + Seq::<char>::empty());
    }
    OtelRun { vault: owned(vault), span: owned(span_name), spans_found: spans.len(), ok, transcript: t }
}

// ---------------------------------------------------------------------------
// Laws of the examination
// ---------------------------------------------------------------------------

/// Without the named span nothing passes: a passing examination found at least one span.
pub proof fn lemma_pass_needs_span(
    contents: Result<Seq<char>, Seq<char>>,
    span: Seq<char>,
    names: Seq<Seq<char>>,
    arts: Option<Seq<(Seq<char>, Seq<char>)>>,
)
    ensures
        otel_ok(contents, span, names, arts) ==> otel_spans_found(contents, span) > 0,
{
}

/// Whatever passes matching also passes the dry run: the dry run asks only for the span.
pub proof fn lemma_match_implies_dry_run(
    contents: Result<Seq<char>, Seq<char>>,
    span: Seq<char>,
    names: Seq<Seq<char>>,
    arts: Seq<(Seq<char>, Seq<char>)>,
)
    ensures
        otel_ok(contents, span, names, Some(arts)) ==> otel_ok(contents, span, names, None),
{
}

proof fn lemma_first_witness_extend(v: Seq<char>, a: Seq<(Seq<char>, Seq<char>)>, extra: Seq<(Seq<char>, Seq<char>)>)
    requires
        first_witness(v, a) is Some,
    ensures
        first_witness(v, a + extra) == first_witness(v, a),
    decreases extra.len(),
{
    if extra.len() == 0 {
        assert(a + extra =~= a);
    } else {
        lemma_first_witness_extend(v, a, extra.drop_last());
        assert((a + extra).drop_last() =~= a + extra.drop_last());
    }
}

proof fn lemma_first_witness_any(v: Seq<char>, a: Seq<(Seq<char>, Seq<char>)>)
    ensures
        first_witness(v, a) is Some <==> exists|k: int| 0 <= k < a.len() && contains(#[trigger] a[k].1, v),
        first_witness(v, a) matches Some(k) ==> 0 <= k < a.len() && contains(a[k].1, v),
    decreases a.len(),
{
    if a.len() > 0 {
        lemma_first_witness_any(v, a.drop_last());
        if exists|k: int| 0 <= k < a.len() && contains(#[trigger] a[k].1, v) {
            let k = choose|k: int| 0 <= k < a.len() && contains(#[trigger] a[k].1, v);
            if k < a.len() - 1 {
                assert(a.drop_last()[k] == a[k]);
            }
        }
        if let Some(k) = first_witness(v, a.drop_last()) {
            assert(a.drop_last()[k] == a[k]);
        }
    }
}

/// An attribute is witnessed exactly when its value is a non-empty scalar that some
/// artifact, in whatever position, contains; which artifact it is does not matter.
pub proof fn lemma_witnessed_by_any_artifact(attrs: SpanAttrs, name: Seq<char>, arts: Seq<(Seq<char>, Seq<char>)>)
    ensures
        attr_passes(attrs, name, arts) <==> (first_attr(attrs, name) matches Some(Some(v)) && v.len() > 0 && exists|k: int|
            0 <= k < arts.len() && contains(#[trigger] arts[k].1, v)),
{
    if let Some(Some(v)) = first_attr(attrs, name) {
        lemma_first_witness_any(v, arts);
    }
}

/// Whether an examination passes does not depend on the order of the artifacts: any
/// artifacts put in front of or behind them keep a pass a pass.
pub proof fn lemma_artifact_order_irrelevant(
    contents: Result<Seq<char>, Seq<char>>,
    span: Seq<char>,
    names: Seq<Seq<char>>,
    arts: Seq<(Seq<char>, Seq<char>)>,
    before: Seq<(Seq<char>, Seq<char>)>,
    after: Seq<(Seq<char>, Seq<char>)>,
)
    requires
        otel_ok(contents, span, names, Some(arts)),
    ensures
        otel_ok(contents, span, names, Some(before + arts + after)),
{
    let all = before + arts + after;
    if let Ok(text) = contents {
        if let VaultScan::Spans(s) = vault_scan(text, span) {
            assert forall|si: int| 0 <= si < s.len() implies span_passes(#[trigger] s[si], names, all) by {
                assert(span_passes(s[si], names, arts));
                assert forall|ni: int| 0 <= ni < names.len() implies attr_passes(s[si], #[trigger] names[ni], all) by {
                    assert(attr_passes(s[si], names[ni], arts));
                    lemma_witnessed_by_any_artifact(s[si], names[ni], arts);
                    lemma_witnessed_by_any_artifact(s[si], names[ni], all);
                    if let Some(Some(v)) = first_attr(s[si], names[ni]) {
                        let k = choose|k: int| 0 <= k < arts.len() && contains(#[trigger] arts[k].1, v);
                        assert(all[before.len() + k] == arts[k]);
                    }
                }
            }
        }
    }
}

/// Adding artifacts, or asking for fewer of the attributes, never turns a pass into a
/// failure: every attribute still asked for was witnessed before and still is.
pub proof fn lemma_more_artifacts_fewer_attrs_keep_pass(
    contents: Result<Seq<char>, Seq<char>>,
    span: Seq<char>,
    names: Seq<Seq<char>>,
    fewer: Seq<Seq<char>>,
    arts: Seq<(Seq<char>, Seq<char>)>,
    extra: Seq<(Seq<char>, Seq<char>)>,
)
    requires
        otel_ok(contents, span, names, Some(arts)),
        forall|j: int| 0 <= j < fewer.len() ==> names.contains(#[trigger] fewer[j]),
    ensures
        otel_ok(contents, span, fewer, Some(arts + extra)),
{
    if let Ok(text) = contents {
        if let VaultScan::Spans(s) = vault_scan(text, span) {
            assert forall|si: int| 0 <= si < s.len() implies span_passes(#[trigger] s[si], fewer, arts + extra) by {
                assert(span_passes(s[si], names, arts));
                assert forall|ni: int| 0 <= ni < fewer.len() implies attr_passes(s[si], #[trigger] fewer[ni], arts + extra) by {
                    let k = choose|k: int| 0 <= k < names.len() && names[k] == fewer[ni];
                    assert(attr_passes(s[si], names[k], arts));
                    if let Some(Some(v)) = first_attr(s[si], fewer[ni]) {
                        lemma_first_witness_extend(v, arts, extra);
                    }
                }
            }
        }
    }
}

proof fn lemma_newline_index_append(a: Seq<char>, b: Seq<char>)
    requires
        crate::text::newline_index(a) < a.len(),
    ensures
        crate::text::newline_index(a + b) == crate::text::newline_index(a),
    decreases a.len(),
{
    if a[0] != '\n' {
        assert((a + b).drop_first() =~= a.drop_first() + b);
        lemma_newline_index_append(a.drop_first(), b);
    }
}

proof fn lemma_newline_index_last(a: Seq<char>)
    requires
        a.len() > 0,
        a.last() == '\n',
    ensures
        crate::text::newline_index(a) < a.len(),
    decreases a.len(),
{
    if a[0] != '\n' {
        lemma_newline_index_last(a.drop_first());
    }
}

/// Lines written after a complete vault (empty, or ending in a line feed) come after its
/// lines: appending never changes the lines already there.
pub proof fn lemma_lines_append(a: Seq<char>, b: Seq<char>)
    requires
        a.len() == 0 || a.last() == '\n',
    ensures
        lines(a + b) == lines(a) + lines(b),
    decreases a.len(),
{
    if a.len() == 0 {
        assert(a + b =~= b);
        assert(lines(a) =~= seq![]);
        assert(lines(a) + lines(b) =~= lines(b));
    } else {
        lemma_newline_index_last(a);
        crate::text::lemma_newline_index_bound(a);
        let k = crate::text::newline_index(a);
        lemma_newline_index_append(a, b);
        assert((a + b).take(k as int) =~= a.take(k as int));
        assert((a + b).skip(k + 1 as int) =~= a.skip(k + 1 as int) + b);
        let rest = a.skip(k + 1 as int);
        if rest.len() > 0 {
            assert(rest.last() == a.last());
        }
        lemma_lines_append(rest, b);
        assert(lines(a + b) =~= seq![crate::text::strip_cr(a.take(k as int))] + (lines(rest) + lines(b)));
        assert(lines(a) =~= seq![crate::text::strip_cr(a.take(k as int))] + lines(rest));
        assert(lines(a + b) =~= lines(a) + lines(b));
    }
}

/// Scanning more lines after a scan that found spans: the new lines' spans follow.
pub open spec fn scan_after(first: VaultScan, more: VaultScan, offset: nat) -> VaultScan {
    match first {
        VaultScan::Spans(p) => match more {
            VaultScan::Spans(q) => VaultScan::Spans(p + q),
            VaultScan::Unparsable(n, m) => VaultScan::Unparsable(n + offset, m),
            VaultScan::Misshapen(n, w) => VaultScan::Misshapen(n + offset, w),
        },
        other => other,
    }
}

/// Scanning lines in two parts is scanning the first part, then the second.
pub proof fn lemma_scan_append(l1: Seq<Seq<char>>, l2: Seq<Seq<char>>, name: Seq<char>)
    ensures
        scan(l1 + l2, name) == scan_after(scan(l1, name), scan(l2, name), l1.len()),
    decreases l2.len(),
{
    if l2.len() == 0 {
        assert(l1 + l2 =~= l1);
        if let VaultScan::Spans(p) = scan(l1, name) {
            assert(p + seq![] =~= p);
        }
    } else {
        lemma_scan_append(l1, l2.drop_last(), name);
        assert((l1 + l2).drop_last() =~= l1 + l2.drop_last());
        assert((l1 + l2).last() == l2.last());
        if let VaultScan::Spans(p) = scan(l1, name) {
            if let VaultScan::Spans(q) = scan(l2.drop_last(), name) {
                let l = l2.last();
                if !all_white(l) {
                    if let Ok(v) = json_document(l) {
                        if let Ok(r) = line_spans(v, name) {
                            assert(p + q + r =~= p + (q + r));
                        }
                    }
                }
            }
        }
    }
}

/// An append-only vault cannot be talked round: once an examination has found the named
/// span and still fails (a value unwitnessed, or a broken line), no lines appended later
/// make it pass. A tampered resend stays as a contradicting span and blocks its own way.
pub proof fn lemma_appending_never_rescues(
    a: Seq<char>,
    b: Seq<char>,
    span: Seq<char>,
    names: Seq<Seq<char>>,
    arts: Seq<(Seq<char>, Seq<char>)>,
)
    requires
        a.len() == 0 || a.last() == '\n',
        !otel_ok(Ok(a), span, names, Some(arts)),
        !(vault_scan(a, span) matches VaultScan::Spans(s) && s.len() == 0),
    ensures
        !otel_ok(Ok(a + b), span, names, Some(arts)),
{
    lemma_lines_append(a, b);
    lemma_scan_append(lines(a), lines(b), span);
    if let VaultScan::Spans(p) = vault_scan(a, span) {
        if let VaultScan::Spans(q) = scan(lines(b), span) {
            assert(!all_pass(p, names, arts));
            let si = choose|si: int| 0 <= si < p.len() && !span_passes(#[trigger] p[si], names, arts);
            assert((p + q)[si] == p[si]);
        }
    }
}

} // verus!
