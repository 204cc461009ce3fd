//! The contract file `monban.toml`: reading it and holding it to its format.
//! Monban only reads the contract; it never invents a requirement.

use crate::text::{int_text, join2, join3, join5, nat_text_exec, owned, str_eq};
use crate::tomldoc::{
    array_of, parse_toml, str_or_empty, str_or_empty_exec, tget, tget_exec,
    toml_document, TomlValue,
};
use crate::MonbanError;
use vstd::prelude::*;

verus! {

/// The schema this gate reads.
pub const SCHEMA: &'static str = "monban/0";

/// A loaded contract. `sha256` is the hash of the contract file itself; declare and verify
/// events are bound to it, so a swapped contract shows in the ledger.
#[derive(Debug, Clone)]
pub struct Contract {
    pub seki: Vec<Seki>,
    pub sha256: String,
}

/// A seki: a checkpoint of the contract. A claim passes through a seki by name.
#[derive(Debug, Clone)]
pub struct Seki {
    pub name: String,
    pub title: String,
    pub evidence: Vec<EvidenceReq>,
}

/// One piece of evidence a seki calls for. With several, all are needed.
#[derive(Debug, Clone)]
pub enum EvidenceReq {
    /// A toolchain monban runs itself; results brought along do not count.
    Toolchain { cmd: Vec<String>, expect_exit: i32 },
    /// OTel spans in an independent collector's vault.
    Otel { vault: String, span: String, attrs_match: Vec<String> },
}

// ---------------------------------------------------------------------------
// Mathematical model
// ---------------------------------------------------------------------------

/// An evidence requirement as values.
pub enum EvidenceSpec {
    Toolchain { cmd: Seq<Seq<char>>, expect_exit: i32 },
    Otel { vault: Seq<char>, span: Seq<char>, attrs_match: Seq<Seq<char>> },
}

/// A seki as values.
pub struct SekiSpec {
    pub name: Seq<char>,
    pub title: Seq<char>,
    pub evidence: Seq<EvidenceSpec>,
}

/// A contract as values.
pub struct ContractSpec {
    pub seki: Seq<SekiSpec>,
    pub sha256: Seq<char>,
}

/// The characters of each string.
pub open spec fn strings(v: Seq<String>) -> Seq<Seq<char>> {
    v.map_values(|s: String| s@)
}

impl View for EvidenceReq {
    type V = EvidenceSpec;

    open spec fn view(&self) -> EvidenceSpec {
        match self {
            EvidenceReq::Toolchain { cmd, expect_exit } => EvidenceSpec::Toolchain {
                cmd: strings(cmd@),
                expect_exit: *expect_exit,
            },
            EvidenceReq::Otel { vault, span, attrs_match } => EvidenceSpec::Otel {
                vault: vault@,
                span: span@,
                attrs_match: strings(attrs_match@),
            },
        }
    }
}

impl View for Seki {
    type V = SekiSpec;

    open spec fn view(&self) -> SekiSpec {
        SekiSpec {
            name: self.name@,
            title: self.title@,
            evidence: self.evidence@.map_values(|e: EvidenceReq| e@),
        }
    }
}

impl View for Contract {
    type V = ContractSpec;

    open spec fn view(&self) -> ContractSpec {
        ContractSpec { seki: self.seki@.map_values(|s: Seki| s@), sha256: self.sha256@ }
    }
}

/// A seki name is lower-case kebab case: ASCII lower-case letters, digits and `-`.
pub open spec fn kebab_char(c: char) -> bool {
    ('a' <= c && c <= 'z') || ('0' <= c && c <= '9') || c == '-'
}

/// A non-empty name of kebab characters.
pub open spec fn valid_name(name: Seq<char>) -> bool {
    name.len() > 0 && forall|i: int| 0 <= i < name.len() ==> kebab_char(#[trigger] name[i])
}

impl EvidenceSpec {
    /// Each requirement can be acted on: a toolchain names a program, an otel check names
    /// its vault, its span and at least one non-empty attribute to match.
    pub open spec fn well_formed(self) -> bool {
        match self {
            EvidenceSpec::Toolchain { cmd, .. } => cmd.len() > 0,
            EvidenceSpec::Otel { vault, span, attrs_match } => {
                &&& vault.len() > 0
                &&& span.len() > 0
                &&& attrs_match.len() > 0
                &&& forall|i: int| 0 <= i < attrs_match.len() ==> #[trigger] attrs_match[i].len() > 0
            },
        }
    }
}

impl SekiSpec {
    /// A seki is a gate: a valid name, a title and at least one piece of evidence.
    pub open spec fn well_formed(self) -> bool {
        &&& valid_name(self.name)
        &&& self.title.len() > 0
        &&& self.evidence.len() > 0
        &&& forall|i: int| 0 <= i < self.evidence.len() ==> (#[trigger] self.evidence[i]).well_formed()
    }
}

impl ContractSpec {
    /// What every loaded contract satisfies.
    pub open spec fn well_formed(self) -> bool {
        &&& self.seki.len() > 0
        &&& forall|i: int| 0 <= i < self.seki.len() ==> (#[trigger] self.seki[i]).well_formed()
        &&& forall|i: int, j: int|
            0 <= i < j < self.seki.len() ==> #[trigger] self.seki[i].name != #[trigger] self.seki[j].name
    }
}

// ---------------------------------------------------------------------------
// What loading means, over the parsed document
// ---------------------------------------------------------------------------

/// The string elements of an array, in order (non-strings are skipped).
pub open spec fn str_elems(a: Seq<TomlValue>) -> Seq<Seq<char>>
    decreases a.len(),
{
    if a.len() == 0 {
        seq![]
    } else {
        let p = str_elems(a.drop_last());
        match a.last() {
            TomlValue::Str(s) => p.push(s@),
            _ => p,
        }
    }
}

/// Every element is a non-empty string.
pub open spec fn all_nonempty_strs(a: Seq<TomlValue>) -> bool {
    forall|i: int| 0 <= i < a.len() ==> (#[trigger] a[i] matches TomlValue::Str(s) && s@.len() > 0)
}

/// The message for an otel field that must be a non-empty string.
pub open spec fn otel_field_msg(seki: Seq<char>, key: Seq<char>) -> Seq<char> {
    "関 "@ + seki + ": otel の "@ + key + " は非空の文字列必須"@
}

/// What one `[[seki.evidence]]` entry means, for the seki named `seki`.
pub open spec fn evidence_spec(v: TomlValue, seki: Seq<char>) -> Result<EvidenceSpec, Seq<char>> {
    match v {
        TomlValue::Table(_) => {
            let kind = str_or_empty(tget(v, "kind"@));
            if kind == "toolchain"@ {
                let cmd = match array_of(tget(v, "cmd"@)) {
                    Some(a) => str_elems(a),
                    None => seq![],
                };
                if cmd.len() == 0 {
                    Err(
                        "関 "@ + seki
                            + ": toolchain の cmd は固定 argv 配列必須(シェル文字列は受けない)"@,
                    )
                } else {
                    let expect_exit = match tget(v, "expect_exit"@) {
                        Some(TomlValue::Int(n)) => n as i32,
                        _ => 0i32,
                    };
                    Ok(EvidenceSpec::Toolchain { cmd, expect_exit })
                }
            } else if kind == "otel"@ {
                let vault = str_or_empty(tget(v, "vault"@));
                let span = str_or_empty(tget(v, "span"@));
                let attrs = array_of(tget(v, "attrs_match"@));
                if vault.len() == 0 {
                    Err(otel_field_msg(seki, "vault"@))
                } else if span.len() == 0 {
                    Err(otel_field_msg(seki, "span"@))
                } else if attrs matches Some(a) && !all_nonempty_strs(a) {
                    Err("関 "@ + seki + ": attrs_match は非空の属性名の列"@)
                } else {
                    let names = match attrs {
                        Some(a) => str_elems(a),
                        None => seq![],
                    };
                    if names.len() == 0 {
                        Err(
                            "関 "@ + seki
                                + ": otel は attrs_match(1件以上)必須 — 在否だけの関は成果物と結ばれない"@,
                        )
                    } else {
                        Ok(EvidenceSpec::Otel { vault, span, attrs_match: names })
                    }
                }
            } else {
                Err("関 "@ + seki + ": 未知の証拠タイプ \""@ + kind + "\""@)
            }
        },
        _ => Err("関 "@ + seki + ": evidence がテーブルではない"@),
    }
}

/// The evidence entries of a seki, in order; the first bad entry decides the error.
pub open spec fn evidence_list(a: Seq<TomlValue>, seki: Seq<char>) -> Result<Seq<EvidenceSpec>, Seq<char>>
    decreases a.len(),
{
    if a.len() == 0 {
        Ok(seq![])
    } else {
        match evidence_list(a.drop_last(), seki) {
            Err(m) => Err(m),
            Ok(p) => match evidence_spec(a.last(), seki) {
                Ok(e) => Ok(p.push(e)),
                Err(m) => Err(m),
            },
        }
    }
}

/// What one `[[seki]]` entry at position `index` means.
pub open spec fn seki_spec(v: TomlValue, index: nat) -> Result<SekiSpec, Seq<char>> {
    match v {
        TomlValue::Table(_) => {
            let name = str_or_empty(tget(v, "name"@));
            if !valid_name(name) {
                Err(
                    "seki["@ + int_text(index as int) + "] の name は小文字ケバブケース必須(実際: \""@
                        + name + "\")"@,
                )
            } else {
                let title = str_or_empty(tget(v, "title"@));
                if title.len() == 0 {
                    Err("関 "@ + name + ": title が無い"@)
                } else {
                    let ev = match array_of(tget(v, "evidence"@)) {
                        Some(a) => evidence_list(a, name),
                        None => Ok(seq![]),
                    };
                    match ev {
                        Err(m) => Err(m),
                        Ok(evidence) => if evidence.len() == 0 {
                            Err(
                                "関 "@ + name
                                    + ": 証拠要件が1つも無い。証拠のない関は門ではない(執行規則1)"@,
                            )
                        } else {
                            Ok(SekiSpec { name, title, evidence })
                        },
                    }
                }
            }
        },
        _ => Err("seki["@ + int_text(index as int) + "] がテーブルではない"@),
    }
}

/// The `[[seki]]` entries, in order; the first bad entry decides the error.
pub open spec fn seki_list(a: Seq<TomlValue>) -> Result<Seq<SekiSpec>, Seq<char>>
    decreases a.len(),
{
    if a.len() == 0 {
        Ok(seq![])
    } else {
        match seki_list(a.drop_last()) {
            Err(m) => Err(m),
            Ok(p) => match seki_spec(a.last(), (a.len() - 1) as nat) {
                Ok(s) => Ok(p.push(s)),
                Err(m) => Err(m),
            },
        }
    }
}

/// The seki at `i` repeats the name of an earlier one.
pub open spec fn repeats_earlier(list: Seq<SekiSpec>, i: int) -> bool {
    exists|j: int| 0 <= j < i && #[trigger] list[j].name == list[i].name
}

/// The first seki that repeats an earlier name.
pub open spec fn first_repeat(list: Seq<SekiSpec>) -> Option<int>
    decreases list.len(),
{
    if list.len() == 0 {
        None
    } else {
        match first_repeat(list.drop_last()) {
            Some(i) => Some(i),
            None => if repeats_earlier(list, list.len() - 1) {
                Some(list.len() - 1)
            } else {
                None
            },
        }
    }
}

/// The message when no seki is given.
pub open spec fn no_seki_msg() -> Seq<char> {
    "[[seki]] が1つも無い"@
}

/// What a parsed contract document means: the contract, or the message of the rule it
/// breaks first.
pub open spec fn contract_spec(doc: TomlValue, sha256: Seq<char>) -> Result<ContractSpec, Seq<char>> {
    let schema = str_or_empty(tget(doc, "schema"@));
    if schema != SCHEMA@ {
        Err("schema は \""@ + SCHEMA@ + "\" でなければならない(実際: \""@ + schema + "\")"@)
    } else {
        match array_of(tget(doc, "seki"@)) {
            None => Err(no_seki_msg()),
            Some(a) => match seki_list(a) {
                Err(m) => Err(m),
                Ok(list) => if list.len() == 0 {
                    Err(no_seki_msg())
                } else {
                    match first_repeat(list) {
                        Some(i) => Err("関の名前が重複: "@ + list[i].name),
                        None => Ok(ContractSpec { seki: list, sha256 }),
                    }
                },
            },
        }
    }
}

// ---------------------------------------------------------------------------
// Executable reading
// ---------------------------------------------------------------------------

proof fn lemma_str_elems_step(a: Seq<TomlValue>, i: int)
    requires
        0 <= i < a.len(),
    ensures
        str_elems(a.take(i + 1)) == (match a[i] {
            TomlValue::Str(s) => str_elems(a.take(i)).push(s@),
            _ => str_elems(a.take(i)),
        }),
{
    assert(a.take(i + 1).drop_last() =~= a.take(i));
}

/// The string elements of `a`.
fn str_elems_exec(a: &Vec<TomlValue>) -> (res: Vec<String>)
    ensures
        strings(res@) == str_elems(a@),
{
    let mut res: Vec<String> = Vec::new();
    let n = a.len();
    assert(a@.take(0) =~= seq![]);
    for i in 0..n
        invariant
            n == a@.len(),
            strings(res@) == str_elems(a@.take(i as int)),
    {
        proof {
            lemma_str_elems_step(a@, i as int);
        }
        match &a[i] {
            TomlValue::Str(s) => {
                let ghost before = res@;
                res.push(s.clone());
                assert(strings(res@) =~= strings(before).push(s@));
            },
            _ => {},
        }
    }
    assert(a@.take(n as int) =~= a@);
    res
}

/// Whether every element of `a` is a non-empty string.
fn all_nonempty_strs_exec(a: &Vec<TomlValue>) -> (res: bool)
    ensures
        res == all_nonempty_strs(a@),
{
    let n = a.len();
    for i in 0..n
        invariant
            n == a@.len(),
            forall|j: int| 0 <= j < i ==> (#[trigger] a@[j] matches TomlValue::Str(s) && s@.len() > 0),
    {
        match &a[i] {
            TomlValue::Str(s) => {
                if s.as_str().is_empty() {
                    return false;
                }
            },
            _ => {
                return false;
            },
        }
    }
    true
}

/// The outcome of reading, stated as an `Err(Invalid(..))` with the given message or an
/// `Ok` whose view is the given value.
pub open spec fn matches_outcome<T: View>(res: Result<T, MonbanError>, outcome: Result<
    T::V,
    Seq<char>,
>) -> bool {
    match outcome {
        Ok(v) => res matches Ok(r) && r@ == v,
        Err(m) => res matches Err(MonbanError::Invalid(x)) && x@ == m,
    }
}

fn invalid<T>(m: String) -> (res: Result<T, MonbanError>)
    ensures
        res matches Err(MonbanError::Invalid(x)) && x@ == m@,
{
    Err(MonbanError::Invalid(m))
}

/// Reads one `[[seki.evidence]]` entry of the seki named `seki`.
fn parse_evidence(v: &TomlValue, seki: &str) -> (res: Result<EvidenceReq, MonbanError>)
    ensures
        matches_outcome(res, evidence_spec(*v, seki@)),
{
    match v {
        TomlValue::Table(_) => {},
        _ => {
            return invalid(join3("関 ", seki, ": evidence がテーブルではない"));
        },
    }
    let kind = str_or_empty_exec(tget_exec(v, "kind"));
    if str_eq(kind.as_str(), "toolchain") {
        let cmd = match tget_exec(v, "cmd") {
            Some(TomlValue::Array(a)) => str_elems_exec(a),
            _ => Vec::new(),
        };
        if cmd.len() == 0 {
            return invalid(
                join3(
                    "関 ",
                    seki,
                    ": toolchain の cmd は固定 argv 配列必須(シェル文字列は受けない)",
                ),
            );
        }
        let expect_exit: i32 = match tget_exec(v, "expect_exit") {
            Some(TomlValue::Int(n)) => *n as i32,
            _ => 0,
        };
        let r = EvidenceReq::Toolchain { cmd, expect_exit };
        Ok(r)
    } else if str_eq(kind.as_str(), "otel") {
        let vault = str_or_empty_exec(tget_exec(v, "vault"));
        if vault.as_str().is_empty() {
            return invalid(join5("関 ", seki, ": otel の ", "vault", " は非空の文字列必須"));
        }
        let span = str_or_empty_exec(tget_exec(v, "span"));
        if span.as_str().is_empty() {
            return invalid(join5("関 ", seki, ": otel の ", "span", " は非空の文字列必須"));
        }
        let attrs_match = match tget_exec(v, "attrs_match") {
            Some(TomlValue::Array(a)) => {
                if !all_nonempty_strs_exec(a) {
                    return invalid(join3("関 ", seki, ": attrs_match は非空の属性名の列"));
                }
                str_elems_exec(a)
            },
            _ => Vec::new(),
        };
        if attrs_match.len() == 0 {
            return invalid(
                join3(
                    "関 ",
                    seki,
                    ": otel は attrs_match(1件以上)必須 — 在否だけの関は成果物と結ばれない",
                ),
            );
        }
        Ok(EvidenceReq::Otel { vault, span, attrs_match })
    } else {
        invalid(join5("関 ", seki, ": 未知の証拠タイプ \"", kind.as_str(), "\""))
    }
}

proof fn lemma_evidence_list_step(a: Seq<TomlValue>, i: int, seki: Seq<char>)
    requires
        0 <= i < a.len(),
    ensures
        evidence_list(a.take(i + 1), seki) == (match evidence_list(a.take(i), seki) {
            Err(m) => Err(m),
            Ok(p) => match evidence_spec(a[i], seki) {
                Ok(e) => Ok(p.push(e)),
                Err(m) => Err(m),
            },
        }),
{
    assert(a.take(i + 1).drop_last() =~= a.take(i));
}

/// Whether every character of `name` is a kebab character, and there is one.
fn valid_name_exec(name: &str) -> (res: bool)
    ensures
        res == valid_name(name@),
{
    let cs = crate::text::chars_of(name);
    if cs.len() == 0 {
        return false;
    }
    let n = cs.len();
    for i in 0..n
        invariant
            n == cs@.len(),
            cs@ == name@,
            forall|j: int| 0 <= j < i ==> kebab_char(#[trigger] cs@[j]),
    {
        let c = cs[i];
        if !(('a' <= c && c <= 'z') || ('0' <= c && c <= '9') || c == '-') {
            return false;
        }
    }
    true
}

/// Reads one `[[seki]]` entry at position `index`.
#[verifier::loop_isolation(false)]
fn parse_seki(v: &TomlValue, index: usize) -> (res: Result<Seki, MonbanError>)
    ensures
        matches_outcome(res, seki_spec(*v, index as nat)),
{
    match v {
        TomlValue::Table(_) => {},
        _ => {
            let i = nat_text_exec(index as u64);
            return invalid(join3("seki[", i.as_str(), "] がテーブルではない"));
        },
    }
    let name = str_or_empty_exec(tget_exec(v, "name"));
    if !valid_name_exec(name.as_str()) {
        let i = nat_text_exec(index as u64);
        let mut m = join3("seki[", i.as_str(), "] の name は小文字ケバブケース必須(実際: \"");
        m.append(name.as_str());
        m.append("\")");
        return invalid(m);
    }
    let title = str_or_empty_exec(tget_exec(v, "title"));
    if title.as_str().is_empty() {
        return invalid(join3("関 ", name.as_str(), ": title が無い"));
    }
    let mut evidence: Vec<EvidenceReq> = Vec::new();
    match tget_exec(v, "evidence") {
        Some(TomlValue::Array(a)) => {
            let n = a.len();
            assert(a@.take(0) =~= seq![]);
            assert(evidence@.map_values(|e: EvidenceReq| e@) =~= seq![]);
            assert(evidence_list(a@.take(0), name@) == Ok::<Seq<EvidenceSpec>, Seq<char>>(seq![]));
            for i in 0..n
                invariant
                    n == a@.len(),
                    evidence_list(a@.take(i as int), name@) == Ok::<Seq<EvidenceSpec>, Seq<char>>(
                        evidence@.map_values(|e: EvidenceReq| e@),
                    ),
            {
                proof {
                    lemma_evidence_list_step(a@, i as int, name@);
                }
                match parse_evidence(&a[i], name.as_str()) {
                    Ok(e) => {
                        let ghost before = evidence@;
                        evidence.push(e);
                        assert(evidence@.map_values(|e: EvidenceReq| e@) =~= before.map_values(
                            |e: EvidenceReq| e@,
                        ).push(e@));
                    },
                    Err(err) => {
                        proof {
                            assert(evidence_spec(a@[i as int], name@) is Err);
                            assert(evidence_list(a@.take(i + 1), name@) == Err::<Seq<EvidenceSpec>, Seq<char>>(
                                evidence_spec(a@[i as int], name@)->Err_0));
                            lemma_evidence_list_err_extends(a@, i + 1, name@);
                            assert(a@.take(n as int) =~= a@);
                        }
                        return Err(err);
                    },
                }
            }
            assert(a@.take(n as int) =~= a@);
        },
        _ => {},
    }
    if evidence.len() == 0 {
        return invalid(
            join3(
                "関 ",
                name.as_str(),
                ": 証拠要件が1つも無い。証拠のない関は門ではない(執行規則1)",
            ),
        );
    }
    Ok(Seki { name, title, evidence })
}

proof fn lemma_evidence_list_err_extends(a: Seq<TomlValue>, i: int, seki: Seq<char>)
    requires
        0 <= i <= a.len(),
        evidence_list(a.take(i), seki) is Err,
    ensures
        evidence_list(a, seki) == evidence_list(a.take(i), seki),
    decreases a.len() - i,
{
    if i < a.len() {
        lemma_evidence_list_step(a, i, seki);
        lemma_evidence_list_err_extends(a, i + 1, seki);
    } else {
        assert(a.take(i) =~= a);
    }
}

proof fn lemma_seki_list_step(a: Seq<TomlValue>, i: int)
    requires
        0 <= i < a.len(),
    ensures
        seki_list(a.take(i + 1)) == (match seki_list(a.take(i)) {
            Err(m) => Err(m),
            Ok(p) => match seki_spec(a[i], i as nat) {
                Ok(s) => Ok(p.push(s)),
                Err(m) => Err(m),
            },
        }),
{
    assert(a.take(i + 1).drop_last() =~= a.take(i));
}

proof fn lemma_seki_list_err_extends(a: Seq<TomlValue>, i: int)
    requires
        0 <= i <= a.len(),
        seki_list(a.take(i)) is Err,
    ensures
        seki_list(a) == seki_list(a.take(i)),
    decreases a.len() - i,
{
    if i < a.len() {
        lemma_seki_list_step(a, i);
        lemma_seki_list_err_extends(a, i + 1);
    } else {
        assert(a.take(i) =~= a);
    }
}

proof fn lemma_repeats_prefix(list: Seq<SekiSpec>, k: int)
    requires
        0 <= k < list.len() - 1,
    ensures
        repeats_earlier(list.drop_last(), k) == repeats_earlier(list, k),
{
    if repeats_earlier(list, k) {
        let j = choose|j: int| 0 <= j < k && #[trigger] list[j].name == list[k].name;
        assert(list.drop_last()[j].name == list.drop_last()[k].name);
    }
    if repeats_earlier(list.drop_last(), k) {
        let j = choose|j: int|
            0 <= j < k && #[trigger] list.drop_last()[j].name == list.drop_last()[k].name;
        assert(list[j].name == list[k].name);
    }
}

proof fn lemma_first_repeat_none(list: Seq<SekiSpec>)
    requires
        forall|k: int| 0 <= k < list.len() ==> !repeats_earlier(list, k),
    ensures
        first_repeat(list) is None,
    decreases list.len(),
{
    if list.len() > 0 {
        assert forall|k: int| 0 <= k < list.drop_last().len() implies !repeats_earlier(
            list.drop_last(),
            k,
        ) by {
            lemma_repeats_prefix(list, k);
        }
        lemma_first_repeat_none(list.drop_last());
    }
}

proof fn lemma_first_repeat_some(list: Seq<SekiSpec>, i: int)
    requires
        0 <= i < list.len(),
        repeats_earlier(list, i),
        forall|k: int| 0 <= k < i ==> !repeats_earlier(list, k),
    ensures
        first_repeat(list) == Some(i),
    decreases list.len(),
{
    if i == list.len() - 1 {
        assert forall|k: int| 0 <= k < list.drop_last().len() implies !repeats_earlier(
            list.drop_last(),
            k,
        ) by {
            lemma_repeats_prefix(list, k);
        }
        lemma_first_repeat_none(list.drop_last());
    } else {
        lemma_repeats_prefix(list, i);
        assert forall|k: int| 0 <= k < i implies !repeats_earlier(list.drop_last(), k) by {
            lemma_repeats_prefix(list, k);
        }
        lemma_first_repeat_some(list.drop_last(), i);
    }
}

proof fn lemma_first_repeat_none_distinct(list: Seq<SekiSpec>)
    requires
        first_repeat(list) is None,
    ensures
        forall|i: int, j: int| 0 <= i < j < list.len() ==> list[i].name != list[j].name,
    decreases list.len(),
{
    if list.len() > 0 {
        lemma_first_repeat_none_distinct(list.drop_last());
        assert forall|i: int, j: int| 0 <= i < j < list.len() implies list[i].name
            != list[j].name by {
            if j == list.len() - 1 {
                if list[i].name == list[j].name {
                    assert(repeats_earlier(list, j));
                }
            } else {
                assert(list.drop_last()[i] == list[i]);
                assert(list.drop_last()[j] == list[j]);
            }
        }
    }
}

proof fn lemma_str_elems_nonempty(a: Seq<TomlValue>)
    requires
        all_nonempty_strs(a),
    ensures
        forall|i: int| 0 <= i < str_elems(a).len() ==> #[trigger] str_elems(a)[i].len() > 0,
    decreases a.len(),
{
    if a.len() > 0 {
        assert(all_nonempty_strs(a.drop_last())) by {
            assert forall|i: int| 0 <= i < a.drop_last().len() implies (#[trigger] a.drop_last()[i] matches TomlValue::Str(
                s,
            ) && s@.len() > 0) by {
                assert(a.drop_last()[i] == a[i]);
            }
        }
        lemma_str_elems_nonempty(a.drop_last());
        assert(a[a.len() - 1] matches TomlValue::Str(s) && s@.len() > 0);
        let p = str_elems(a.drop_last());
        if let TomlValue::Str(s) = a.last() {
            assert(str_elems(a) == p.push(s@));
            assert forall|i: int| 0 <= i < str_elems(a).len() implies #[trigger] str_elems(a)[i].len() > 0 by {
                if i < p.len() {
                    assert(str_elems(a)[i] == p[i]);
                }
            }
        }
    }
}

proof fn lemma_evidence_spec_well_formed(v: TomlValue, seki: Seq<char>)
    ensures
        evidence_spec(v, seki) matches Ok(e) ==> e.well_formed(),
{
    if evidence_spec(v, seki) is Ok {
        let attrs = array_of(tget(v, "attrs_match"@));
        if let Some(a) = attrs {
            if all_nonempty_strs(a) {
                lemma_str_elems_nonempty(a);
            }
        }
    }
}

proof fn lemma_evidence_list_well_formed(a: Seq<TomlValue>, seki: Seq<char>)
    ensures
        evidence_list(a, seki) matches Ok(l) ==> forall|i: int|
            0 <= i < l.len() ==> (#[trigger] l[i]).well_formed(),
    decreases a.len(),
{
    if a.len() > 0 {
        lemma_evidence_list_well_formed(a.drop_last(), seki);
        lemma_evidence_spec_well_formed(a.last(), seki);
    }
}

proof fn lemma_seki_spec_well_formed(v: TomlValue, index: nat)
    ensures
        seki_spec(v, index) matches Ok(s) ==> s.well_formed(),
{
    let name = str_or_empty(tget(v, "name"@));
    if let Some(a) = array_of(tget(v, "evidence"@)) {
        lemma_evidence_list_well_formed(a, name);
    }
}

proof fn lemma_seki_list_well_formed(a: Seq<TomlValue>)
    ensures
        seki_list(a) matches Ok(l) ==> forall|i: int| 0 <= i < l.len() ==> (#[trigger] l[i]).well_formed(),
    decreases a.len(),
{
    if a.len() > 0 {
        lemma_seki_list_well_formed(a.drop_last());
        lemma_seki_spec_well_formed(a.last(), (a.len() - 1) as nat);
    }
}

/// Every contract that loading accepts is well formed: at least one seki, distinct
/// names, and no seki without evidence (a seki without evidence is no gate).
pub proof fn lemma_loaded_contract_well_formed(doc: TomlValue, sha256: Seq<char>)
    ensures
        contract_spec(doc, sha256) matches Ok(c) ==> c.well_formed(),
{
    if let Some(a) = array_of(tget(doc, "seki"@)) {
        lemma_seki_list_well_formed(a);
        if let Ok(list) = seki_list(a) {
            if first_repeat(list) is None {
                lemma_first_repeat_none_distinct(list);
            }
        }
    }
}

proof fn lemma_evidence_list_elems(a: Seq<TomlValue>, seki: Seq<char>)
    requires
        evidence_list(a, seki) is Ok,
    ensures
        evidence_list(a, seki) matches Ok(p) && p.len() == a.len() && forall|k: int|
            0 <= k < a.len() ==> evidence_spec(#[trigger] a[k], seki) == Ok::<EvidenceSpec, Seq<char>>(p[k]),
    decreases a.len(),
{
    if a.len() > 0 {
        lemma_evidence_list_elems(a.drop_last(), seki);
        assert forall|k: int| 0 <= k < a.len() - 1 implies a.drop_last()[k] == a[k] by {}
    }
}

proof fn lemma_seki_list_elems(a: Seq<TomlValue>)
    requires
        seki_list(a) is Ok,
    ensures
        seki_list(a) matches Ok(p) && p.len() == a.len() && forall|k: int|
            0 <= k < a.len() ==> seki_spec(#[trigger] a[k], k as nat) == Ok::<SekiSpec, Seq<char>>(p[k]),
    decreases a.len(),
{
    if a.len() > 0 {
        lemma_seki_list_elems(a.drop_last());
        assert forall|k: int| 0 <= k < a.len() - 1 implies a.drop_last()[k] == a[k] by {}
    }
}

/// Each requirement of a loaded contract is read from its own table: the `j`-th
/// requirement of the `i`-th seki is what the `j`-th `[[seki.evidence]]` table of the `i`-th
/// `[[seki]]` table says. A toolchain requirement runs exactly the strings of that table's
/// `cmd`, and expects the exit code its `expect_exit` gives (an integer within `i32`), or 0
/// when `expect_exit` is absent or not an integer.
pub proof fn lemma_requirement_read_from_its_table(doc: TomlValue, sha256: Seq<char>, i: int, j: int)
    requires
        contract_spec(doc, sha256) matches Ok(c) && 0 <= i < c.seki.len() && 0 <= j < c.seki[i].evidence.len(),
    ensures
        ({
            let c = contract_spec(doc, sha256)->Ok_0;
            let sekis = array_of(tget(doc, "seki"@))->Some_0;
            let evs = array_of(tget(sekis[i], "evidence"@))->Some_0;
            &&& array_of(tget(doc, "seki"@)) is Some
            &&& i < sekis.len()
            &&& array_of(tget(sekis[i], "evidence"@)) is Some
            &&& j < evs.len()
            &&& evidence_spec(evs[j], c.seki[i].name) == Ok::<EvidenceSpec, Seq<char>>(c.seki[i].evidence[j])
            &&& c.seki[i].evidence[j] is Toolchain ==> {
                &&& str_or_empty(tget(evs[j], "kind"@)) == "toolchain"@
                &&& array_of(tget(evs[j], "cmd"@)) is Some
                &&& c.seki[i].evidence[j]->Toolchain_cmd == str_elems(array_of(tget(evs[j], "cmd"@))->Some_0)
                &&& match tget(evs[j], "expect_exit"@) {
                    Some(TomlValue::Int(n)) => i32::MIN <= n <= i32::MAX ==> c.seki[i].evidence[j]->Toolchain_expect_exit == n,
                    _ => c.seki[i].evidence[j]->Toolchain_expect_exit == 0,
                }
            }
        }),
{
    let sekis = array_of(tget(doc, "seki"@))->Some_0;
    lemma_seki_list_elems(sekis);
    let c = contract_spec(doc, sha256)->Ok_0;
    assert(seki_spec(sekis[i], i as nat) == Ok::<SekiSpec, Seq<char>>(c.seki[i]));
    let evs = array_of(tget(sekis[i], "evidence"@))->Some_0;
    lemma_evidence_list_elems(evs, c.seki[i].name);
    assert(evidence_spec(evs[j], c.seki[i].name) == Ok::<EvidenceSpec, Seq<char>>(c.seki[i].evidence[j]));
}

impl Contract {
    /// Loads a contract from the text of its file and that file's SHA-256 (hex).
    /// The result is what `contract_spec` says the parsed document means; text that is not
    /// TOML is a `Parse` error carrying the parser's message.
    pub fn load(raw: &str, sha256: String) -> (res: Result<Contract, MonbanError>)
        ensures
            match toml_document(raw@) {
                Err(m) => res matches Err(MonbanError::Parse(x)) && x@ == m,
                Ok(doc) => matches_outcome(res, contract_spec(doc, sha256@)),
            },
            res matches Ok(c) ==> c@.well_formed(),
    {
        match parse_toml(raw) {
            Ok(doc) => Contract::from_table(&doc, sha256),
            Err(e) => Err(MonbanError::Parse(e)),
        }
    }

    /// The contract a parsed document describes (see `contract_spec`), with `sha256` the
    /// SHA-256 (hex) of the file it was read from.
    #[verifier::loop_isolation(false)]
    pub fn from_table(doc: &TomlValue, sha256: String) -> (res: Result<Contract, MonbanError>)
        ensures
            matches_outcome(res, contract_spec(*doc, sha256@)),
            res matches Ok(c) ==> c@.well_formed(),
    {
        proof {
            lemma_loaded_contract_well_formed(*doc, sha256@);
        }
        let schema = str_or_empty_exec(tget_exec(doc, "schema"));
        if !str_eq(schema.as_str(), SCHEMA) {
            let mut m = join3("schema は \"", SCHEMA, "\" でなければならない(実際: \"");
            m.append(schema.as_str());
            m.append("\")");
            return invalid(m);
        }
        let arr = match tget_exec(doc, "seki") {
            Some(TomlValue::Array(a)) => a,
            _ => {
                return invalid(owned("[[seki]] が1つも無い"));
            },
        };
        let n = arr.len();
        let mut seki: Vec<Seki> = Vec::new();
        assert(arr@.take(0) =~= seq![]);
        assert(seki@.map_values(|s: Seki| s@) =~= seq![]);
        assert(seki_list(arr@.take(0)) == Ok::<Seq<SekiSpec>, Seq<char>>(seq![]));
        for i in 0..n
            invariant
                n == arr@.len(),
                seki_list(arr@.take(i as int)) == Ok::<Seq<SekiSpec>, Seq<char>>(
                    seki@.map_values(|s: Seki| s@),
                ),
        {
            proof {
                lemma_seki_list_step(arr@, i as int);
            }
            match parse_seki(&arr[i], i) {
                Ok(s) => {
                    let ghost before = seki@;
                    seki.push(s);
                    assert(seki@.map_values(|s: Seki| s@) =~= before.map_values(|s: Seki| s@).push(
                        s@,
                    ));
                },
                Err(err) => {
                    proof {
                        assert(seki_spec(arr@[i as int], i as nat) is Err);
                        lemma_seki_list_err_extends(arr@, i + 1);
                    }
                    return Err(err);
                },
            }
        }
        assert(arr@.take(n as int) =~= arr@);
        let ghost list = seki@.map_values(|s: Seki| s@);
        if seki.len() == 0 {
            return invalid(owned("[[seki]] が1つも無い"));
        }
        let m = seki.len();
        for i in 0..m
            invariant
                m == seki@.len(),
                list == seki@.map_values(|s: Seki| s@),
                forall|k: int| 0 <= k < i ==> !repeats_earlier(list, k),
        {
            for j in 0..i
                invariant
                    m == seki@.len(),
                    i < m,
                    list == seki@.map_values(|s: Seki| s@),
                    forall|k: int| 0 <= k < j ==> list[k].name != list[i as int].name,
            {
                if seki[j].name == seki[i].name {
                    proof {
                        assert(list[j as int].name == list[i as int].name);
                        assert(repeats_earlier(list, i as int));
                        lemma_first_repeat_some(list, i as int);
                    }
                    return invalid(join2("関の名前が重複: ", seki[i].name.as_str()));
                }
            }
            assert(!repeats_earlier(list, i as int));
        }
        proof {
            lemma_first_repeat_none(list);
        }
        Ok(Contract { seki, sha256 })
    }

    /// The seki named `name` (the first with that name), or `SekiNotFound(name)`.
    pub fn find_seki(&self, name: &str) -> (res: Result<&Seki, MonbanError>)
        ensures
            match res {
                Ok(s) => exists|i: int|
                    0 <= i < self.seki@.len() && self.seki@[i] == *s && s.name@ == name@
                        && forall|j: int| 0 <= j < i ==> #[trigger] self.seki@[j].name@ != name@,
                Err(e) => e matches MonbanError::SekiNotFound(m) && m@ == name@ && forall|j: int|
                    0 <= j < self.seki@.len() ==> #[trigger] self.seki@[j].name@ != name@,
            },
    {
        let n = self.seki.len();
        let k = owned(name);
        for i in 0..n
            invariant
                n == self.seki@.len(),
                k@ == name@,
                forall|j: int| 0 <= j < i ==> #[trigger] self.seki@[j].name@ != name@,
        {
            if self.seki[i].name == k {
                return Ok(&self.seki[i]);
            }
        }
        Err(MonbanError::SekiNotFound(k))
    }
}

/// A copy of each string.
pub fn clone_strings(v: &[String]) -> (res: Vec<String>)
    ensures
        strings(res@) == strings(v@),
{
    let mut out: Vec<String> = Vec::new();
    let n = v.len();
    for i in 0..n
        invariant
            n == v@.len(),
            strings(out@) == strings(v@.take(i as int)),
    {
        let ghost before = out@;
        let x = v[i].clone();
        out.push(x);
        proof {
            assert(v@.take(i + 1) =~= v@.take(i as int).push(v@[i as int]));
            assert(strings(v@.take(i + 1)) =~= strings(v@.take(i as int)).push(v@[i as int]@));
            assert(strings(out@) =~= strings(before).push(x@));
        }
    }
    assert(v@.take(n as int) =~= v@);
    out
}

} // verus!
