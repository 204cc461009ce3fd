//! The workspace monban stands in: a banto workspace (`banto.toml`). Finding the root is
//! the caller's work; what its settings mean is decided here, as the banto CLI does.

use crate::text::owned;
use crate::tomldoc::{parse_toml, tget, tget_exec, toml_document, TomlValue};
use vstd::prelude::*;

verus! {

/// The settings monban takes from `banto.toml`.
pub struct WsConfig {
    /// Who writes declarations by default.
    pub actor: String,
    /// The ledger file, relative to the root.
    pub ledger_rel: String,
    /// The store of evidence objects, relative to the root.
    pub objects_rel: String,
}

/// `paths.<key>` when it is a string, else `default`.
pub open spec fn path_of(doc: TomlValue, key: Seq<char>, default: Seq<char>) -> Seq<char> {
    match tget(doc, "paths"@) {
        Some(t) => match t {
            TomlValue::Table(_) => match tget(t, key) {
                Some(TomlValue::Str(s)) => s@,
                _ => default,
            },
            _ => default,
        },
        None => default,
    }
}

/// Who declares by default: the `--actor` flag, else `actor` in `banto.toml`, else a
/// non-empty `$USER`, else `unknown`.
pub open spec fn actor_of(doc: TomlValue, flag: Option<Seq<char>>, user: Option<Seq<char>>) -> Seq<char> {
    match flag {
        Some(a) => a,
        None => match tget(doc, "actor"@) {
            Some(TomlValue::Str(s)) => s@,
            _ => match user {
                Some(u) => if u.len() > 0 {
                    u
                } else {
                    "unknown"@
                },
                None => "unknown"@,
            },
        },
    }
}

fn path_of_exec(doc: &TomlValue, key: &str, default: &str) -> (res: String)
    ensures
        res@ == path_of(*doc, key@, default@),
{
    match tget_exec(doc, "paths") {
        Some(t) => match t {
            TomlValue::Table(_) => match tget_exec(t, key) {
                Some(TomlValue::Str(s)) => s.clone(),
                _ => owned(default),
            },
            _ => owned(default),
        },
        None => owned(default),
    }
}

/// The settings a parsed `banto.toml` gives: the ledger and object paths (`paths.ledger`,
/// `paths.objects`, else the defaults) and who declares by default (see `actor_of`).
pub fn config_from_table(doc: &TomlValue, actor_flag: Option<&str>, user: Option<&str>) -> (res: WsConfig)
    ensures
        res.ledger_rel@ == path_of(*doc, "ledger"@, "ledger/ledger.jsonl"@),
        res.objects_rel@ == path_of(*doc, "objects"@, "ledger/objects"@),
        res.actor@ == actor_of(
            *doc,
            match actor_flag {
                Some(a) => Some(a@),
                None => None,
            },
            match user {
                Some(u) => Some(u@),
                None => None,
            },
        ),
{
    let actor = match actor_flag {
        Some(a) => owned(a),
        None => match tget_exec(doc, "actor") {
            Some(TomlValue::Str(s)) => s.clone(),
            _ => match user {
                Some(u) => if u.is_empty() {
                    owned("unknown")
                } else {
                    owned(u)
                },
                None => owned("unknown"),
            },
        },
    };
    WsConfig {
        actor,
        ledger_rel: path_of_exec(doc, "ledger", "ledger/ledger.jsonl"),
        objects_rel: path_of_exec(doc, "objects", "ledger/objects"),
    }
}

/// Reads the settings from the text of `banto.toml`; text that is not TOML is reported
/// with the parser's message.
pub fn workspace_config(banto_toml: &str, actor_flag: Option<&str>, user: Option<&str>) -> (res: Result<WsConfig, String>)
    ensures
        match toml_document(banto_toml@) {
            Err(x) => res matches Err(m) && m@ == "banto.toml の解析に失敗: "@ + x,
            Ok(doc) => res matches Ok(c) && c.ledger_rel@ == path_of(doc, "ledger"@, "ledger/ledger.jsonl"@)
                && c.objects_rel@ == path_of(doc, "objects"@, "ledger/objects"@) && c.actor@ == actor_of(
                doc,
                match actor_flag {
                    Some(a) => Some(a@),
                    None => None,
                },
                match user {
                    Some(u) => Some(u@),
                    None => None,
                },
            ),
        },
{
    match parse_toml(banto_toml) {
        Ok(doc) => Ok(config_from_table(&doc, actor_flag, user)),
        Err(e) => {
            let mut m = owned("banto.toml の解析に失敗: ");
            m.append(e.as_str());
            Err(m)
        },
    }
}

/// The evidence record of bytes stored in the object store: where it lies (inside the
/// store), its hash, media type and size.
pub struct StoredEvidence {
    pub uri: String,
    pub sha256: String,
    pub media_type: String,
    pub bytes: u64,
}

/// `s` without the `/` characters it ends with (std's `trim_end_matches('/')`).
pub open spec fn trim_end_slashes(s: Seq<char>) -> Seq<char>
    decreases s.len(),
{
    if s.len() > 0 && s.last() == '/' {
        trim_end_slashes(s.drop_last())
    } else {
        s
    }
}

/// The evidence record of bytes stored as `objects/<sha256>`: the uri points into the
/// store, as banto's `--store` does, so that `banto verify --deep` can check it.
pub fn stored_evidence(objects_rel: &str, sha256: &str, media_type: &str, bytes: u64) -> (res: StoredEvidence)
    ensures
        res.uri@ == trim_end_slashes(objects_rel@) + "/"@ + sha256@,
        res.sha256@ == sha256@,
        res.media_type@ == media_type@,
        res.bytes == bytes,
{
    let cs = crate::text::chars_of(objects_rel);
    let mut k = cs.len();
    assert(cs@.take(k as int) =~= cs@);
    while k > 0 && cs[k - 1] == '/'
        invariant
            k <= cs@.len(),
            trim_end_slashes(cs@.take(k as int)) == trim_end_slashes(cs@),
        decreases k,
    {
        assert(cs@.take(k as int).drop_last() =~= cs@.take(k - 1));
        k -= 1;
    }
    let kept = crate::text::slice_chars(cs.as_slice(), 0, k);
    assert(kept@ =~= cs@.take(k as int));
    assert(trim_end_slashes(cs@.take(k as int)) == cs@.take(k as int));
    let mut uri = crate::text::string_from_chars(kept.as_slice());
    uri.append("/");
    uri.append(sha256);
    StoredEvidence { uri, sha256: owned(sha256), media_type: owned(media_type), bytes }
}

/// The evidence records of a declaration: the artifacts' stored copies, in the order the
/// artifacts were given, then the copy of the contract it was made under. Verification
/// pairs the artifact labels with these records by position.
pub fn declare_evidence(artifacts: Vec<StoredEvidence>, contract_copy: StoredEvidence) -> (res: Vec<StoredEvidence>)
    ensures
        res@ == artifacts@.push(contract_copy),
{
    let mut res = artifacts;
    res.push(contract_copy);
    res
}

} // verus!
