//! Claims at monban: what a declaration must carry, and how a verification is judged.
//!
//! The three articles: no claim passes without evidence; the declarer can never verify
//! itself (monban, which writes every verdict, never declares and never judges its own
//! claim); claims, evidence and verdicts go to an append-only ledger. The ledger, the
//! files and the processes are the caller's; the decisions are here.

use crate::contract::{clone_strings, strings, Contract, EvidenceReq, EvidenceSpec, SekiSpec};
use crate::gate::{exit_text, join_words, join_words_exec, ToolchainRun};
use crate::jsondoc::{
    elems_view, jarray, jview, member, view_get, view_member, jget, jget_exec, jobject, jstr, jstr_exec, jstring, jtext, members_view, JsonValue,
    JsonView,
};
use crate::otel::OtelRun;
use crate::text::{contains, int_text, join2, join3, nat_text_exec, occurs_at, owned, str_eq, string_from_chars};
use crate::{MonbanError, GATE_ACTOR};
use vstd::prelude::*;

verus! {

// ---------------------------------------------------------------------------
// The result of examining one piece of evidence
// ---------------------------------------------------------------------------

/// The examination of one evidence requirement: whatever its kind, whether it passed, its
/// transcript and the form it takes in the ledger.
#[derive(Debug)]
pub enum Run {
    Tool(ToolchainRun),
    Otel(OtelRun),
}

/// Whether the run passed.
pub open spec fn run_ok(r: Run) -> bool {
    match r {
        Run::Tool(t) => t.ok,
        Run::Otel(o) => o.ok,
    }
}

/// How a run is named in reports.
pub open spec fn run_label(r: Run) -> Seq<char> {
    match r {
        Run::Tool(t) => join_words(strings(t.cmd@), " "@) + " (exit "@ + exit_text(t.exit) + ")"@,
        Run::Otel(o) => "otel span \""@ + o.span@ + "\"(蔵 "@ + o.vault@ + ")"@,
    }
}

/// The run as it is recorded among a verdict's checks.
pub open spec fn run_check(r: Run) -> JsonView {
    match r {
        Run::Tool(t) => JsonView::Object(
            seq![
                ("cmd"@, JsonView::Str(join_words(strings(t.cmd@), " "@))),
                (
                    "exit"@,
                    match t.exit {
                        Some(c) => JsonView::Number(int_text(c as int)),
                        None => JsonView::Null,
                    },
                ),
                ("ok"@, JsonView::Bool(t.ok)),
            ],
        ),
        Run::Otel(o) => JsonView::Object(
            seq![
                ("kind"@, JsonView::Str("otel"@)),
                ("vault"@, JsonView::Str(o.vault@)),
                ("span"@, JsonView::Str(o.span@)),
                ("spans_found"@, JsonView::Number(int_text(o.spans_found as int))),
                ("ok"@, JsonView::Bool(o.ok)),
            ],
        ),
    }
}

impl Run {
    /// Whether the run passed.
    pub fn ok(&self) -> (res: bool)
        ensures
            res == run_ok(*self),
    {
        match self {
            Run::Tool(r) => r.ok,
            Run::Otel(r) => r.ok,
        }
    }

    /// The run's transcript.
    pub fn transcript(&self) -> (res: &str)
        ensures
            res@ == match *self {
                Run::Tool(r) => r.transcript@,
                Run::Otel(r) => r.transcript@,
            },
    {
        match self {
            Run::Tool(r) => r.transcript.as_str(),
            Run::Otel(r) => r.transcript.as_str(),
        }
    }

    /// How the run is named in reports.
    pub fn label(&self) -> (res: String)
        ensures
            res@ == run_label(*self),
    {
        match self {
            Run::Tool(r) => {
                let mut s = join_words_exec(r.cmd.as_slice(), " ");
                s.append(" (exit ");
                match r.exit {
                    Some(c) => s.append(crate::text::int_text_exec(c as i64).as_str()),
                    None => s.append("signal"),
                }
                s.append(")");
                s
            },
            Run::Otel(r) => {
                let mut s = join3("otel span \"", r.span.as_str(), "\"(蔵 ");
                s.append(r.vault.as_str());
                s.append(")");
                s
            },
        }
    }

    /// The run as it is recorded among a verdict's checks.
    pub fn check_json(&self) -> (res: JsonValue)
        ensures
            res@ == run_check(*self),
    {
        match self {
            Run::Tool(r) => {
                let exit = match r.exit {
                    Some(c) => JsonValue::Number(crate::text::int_text_exec(c as i64)),
                    None => JsonValue::Null,
                };
                let ghost ev = exit@;
                let mut m: Vec<(String, JsonValue)> = Vec::new();
                m.push((owned("cmd"), jstring(join_words_exec(r.cmd.as_slice(), " "))));
                m.push((owned("exit"), exit));
                m.push((owned("ok"), JsonValue::Bool(r.ok)));
                let res = jobject(m);
                assert(members_view(m@) =~= run_check(*self)->Object_0);
                res
            },
            Run::Otel(r) => {
                let mut m: Vec<(String, JsonValue)> = Vec::new();
                m.push((owned("kind"), jtext("otel")));
                m.push((owned("vault"), jstring(r.vault.clone())));
                m.push((owned("span"), jstring(r.span.clone())));
                m.push(
                    (owned("spans_found"), JsonValue::Number(nat_text_exec(r.spans_found as u64))),
                );
                m.push((owned("ok"), JsonValue::Bool(r.ok)));
                let res = jobject(m);
                assert(members_view(m@) =~= run_check(*self)->Object_0);
                res
            },
        }
    }
}

// ---------------------------------------------------------------------------
// What a seki calls for
// ---------------------------------------------------------------------------

/// `root.join(p)` for a Unix path: an absolute `p` replaces the root; otherwise a `/` is put
/// between them unless the root is empty or already ends with one.
pub open spec fn resolve_path(root: Seq<char>, p: Seq<char>) -> Seq<char> {
    if p.len() > 0 && p[0] == '/' {
        p
    } else if root.len() == 0 || root.last() == '/' {
        root + p
    } else {
        root + "/"@ + p
    }
}

/// A requirement with its vault resolved against the workspace root.
pub open spec fn resolved(e: EvidenceSpec, root: Seq<char>) -> EvidenceSpec {
    match e {
        EvidenceSpec::Toolchain { cmd, expect_exit } => EvidenceSpec::Toolchain { cmd, expect_exit },
        EvidenceSpec::Otel { vault, span, attrs_match } => EvidenceSpec::Otel {
            vault: resolve_path(root, vault),
            span,
            attrs_match,
        },
    }
}

/// `root.join(p)`.
pub fn resolve_path_exec(root: &str, p: &str) -> (res: String)
    ensures
        res@ == resolve_path(root@, p@),
{
    let pc = crate::text::chars_of(p);
    if pc.len() > 0 && pc[0] == '/' {
        return owned(p);
    }
    let rc = crate::text::chars_of(root);
    if rc.len() == 0 || rc[rc.len() - 1] == '/' {
        join2(root, p)
    } else {
        join3(root, "/", p)
    }
}

/// The checks that seki `name` calls for, in the contract's order, each otel vault resolved
/// against `root`; or, when there is no such seki, the error's message.
pub fn seki_probes(contract: &Contract, name: &str, root: &str) -> (res: Result<Vec<EvidenceReq>, String>)
    ensures
        match res {
            Ok(v) => exists|i: int|
                0 <= i < contract@.seki.len() && contract@.seki[i].name == name@ && (forall|j: int|
                    0 <= j < i ==> #[trigger] contract@.seki[j].name != name@) && v@.map_values(
                    |e: EvidenceReq| e@,
                ) == contract@.seki[i].evidence.map_values(|e: EvidenceSpec| resolved(e, root@)),
            Err(m) => (forall|j: int| 0 <= j < contract@.seki.len() ==> #[trigger] contract@.seki[j].name != name@)
                && m@ == "関が見つからない: "@ + name@,
        },
{
    let seki = match contract.find_seki(name) {
        Ok(s) => s,
        Err(e) => {
            proof {
                assert forall|j: int| 0 <= j < contract@.seki.len() implies #[trigger] contract@.seki[j].name != name@ by {
                    assert(contract@.seki[j] == contract.seki@[j]@);
                }
            }
            return Err(e.message());
        },
    };
    let mut out: Vec<EvidenceReq> = Vec::new();
    let n = seki.evidence.len();
    let ghost want = seki@.evidence.map_values(|e: EvidenceSpec| resolved(e, root@));
    for i in 0..n
        invariant
            n == seki.evidence@.len(),
            want == seki@.evidence.map_values(|e: EvidenceSpec| resolved(e, root@)),
            out@.map_values(|e: EvidenceReq| e@) == want.take(i as int),
    {
        let ghost before = out@;
        let r = match &seki.evidence[i] {
            EvidenceReq::Toolchain { cmd, expect_exit } => EvidenceReq::Toolchain {
                cmd: clone_strings(cmd.as_slice()),
                expect_exit: *expect_exit,
            },
            EvidenceReq::Otel { vault, span, attrs_match } => EvidenceReq::Otel {
                vault: resolve_path_exec(root, vault.as_str()),
                span: span.clone(),
                attrs_match: clone_strings(attrs_match.as_slice()),
            },
        };
        out.push(r);
        proof {
            assert(seki@.evidence[i as int] == seki.evidence@[i as int]@);
            assert(want.take(i + 1) =~= want.take(i as int).push(want[i as int]));
            assert(out@.map_values(|e: EvidenceReq| e@) =~= before.map_values(|e: EvidenceReq| e@).push(r@));
        }
    }
    proof {
        assert(want.take(n as int) =~= want);
        let i = choose|i: int|
            0 <= i < contract.seki@.len() && contract.seki@[i] == *seki && seki.name@ == name@ && forall|j: int|
                0 <= j < i ==> #[trigger] contract.seki@[j].name@ != name@;
        assert(contract@.seki[i] == seki@);
        assert forall|j: int| 0 <= j < i implies #[trigger] contract@.seki[j].name != name@ by {
            assert(contract@.seki[j] == contract.seki@[j]@);
        }
    }
    Ok(out)
}

// ---------------------------------------------------------------------------
// Loading the contract of a workspace
// ---------------------------------------------------------------------------

/// Loads the workspace's contract. `file` is `None` when there is no `monban.toml` at the
/// root, else its text or why it could not be read; `sha256` is the hash of its bytes.
/// Errors are returned as the message they are reported with.
pub fn load_contract(root: &str, file: &Option<Result<String, String>>, sha256: String) -> (res: Result<Contract, String>)
    ensures
        match *file {
            None => res matches Err(m) && m@ == "monban.toml が見つからない: "@ + root@
                + "(契約より先にコードは動かない)"@,
            Some(Err(e)) => res matches Err(m) && m@ == "契約を読めない: "@ + e@,
            Some(Ok(raw)) => match crate::tomldoc::toml_document(raw@) {
                Err(x) => res matches Err(m) && m@ == "契約の解析に失敗: "@ + x,
                Ok(doc) => match crate::contract::contract_spec(doc, sha256@) {
                    Ok(c) => res matches Ok(k) && k@ == c,
                    Err(x) => res matches Err(m) && m@ == "契約違反: "@ + x,
                },
            },
        },
        res matches Ok(c) ==> c@.well_formed(),
{
    match file {
        None => Err(join3("monban.toml が見つからない: ", root, "(契約より先にコードは動かない)")),
        Some(Err(e)) => Err(join2("契約を読めない: ", e.as_str())),
        Some(Ok(raw)) => match Contract::load(raw.as_str(), sha256) {
            Ok(c) => Ok(c),
            Err(e) => Err(e.message()),
        },
    }
}

// ---------------------------------------------------------------------------
// Declaring a claim
// ---------------------------------------------------------------------------

/// An event monban asks the ledger to append (the evidence records go with it).
pub struct EventDraft {
    pub actor: String,
    pub event_type: String,
    pub body: JsonValue,
}

/// Why monban refuses a declarant before anything else is looked at.
pub open spec fn declarant_refusal(actor: Seq<char>, evidence_count: nat) -> Option<Seq<char>> {
    if actor == GATE_ACTOR@ {
        Some("門番("@ + GATE_ACTOR@ + ")は宣言しない。宣言と改めの actor は必ず別である(三条二)"@)
    } else if evidence_count == 0 {
        Some("宣言には成果物そのものの証拠が最低1件必要(三条一)"@)
    } else {
        None
    }
}

/// Monban never declares, and no claim is declared without evidence.
pub fn check_declarant(actor: &str, evidence_count: usize) -> (res: Result<(), String>)
    ensures
        match declarant_refusal(actor@, evidence_count as nat) {
            Some(m) => res matches Err(x) && x@ == m,
            None => res is Ok,
        },
{
    if str_eq(actor, GATE_ACTOR) {
        return Err(join3("門番(", GATE_ACTOR, ")は宣言しない。宣言と改めの actor は必ず別である(三条二)"));
    }
    if evidence_count == 0 {
        return Err(owned("宣言には成果物そのものの証拠が最低1件必要(三条一)"));
    }
    Ok(())
}

/// JSON strings, one per string.
pub open spec fn str_views(v: Seq<Seq<char>>) -> Seq<JsonView> {
    v.map_values(|s: Seq<char>| JsonView::Str(s))
}

/// A JSON array of these strings.
pub fn strings_json(v: &[String]) -> (res: JsonValue)
    ensures
        res@ == JsonView::Array(str_views(strings(v@))),
{
    let mut a: Vec<JsonValue> = Vec::new();
    let n = v.len();
    for i in 0..n
        invariant
            n == v@.len(),
            elems_view(a@) == str_views(strings(v@.take(i as int))),
    {
        let ghost before = a@;
        let x = jstring(v[i].clone());
        a.push(x);
        proof {
            assert(v@.take(i + 1) =~= v@.take(i as int).push(v@[i as int]));
            assert(strings(v@.take(i + 1)) =~= strings(v@.take(i as int)).push(v@[i as int]@));
            assert(str_views(strings(v@.take(i + 1))) =~= str_views(strings(v@.take(i as int))).push(JsonView::Str(v@[i as int]@)));
            assert(elems_view(a@) =~= elems_view(before).push(x@));
        }
    }
    assert(v@.take(n as int) =~= v@);
    jarray(a)
}

/// The body of a declaration: its title, the seki it claims, the artifacts given as
/// evidence, and the hash of the contract it was made under.
pub open spec fn declare_body(title: Seq<char>, seki: Seq<char>, artifacts: Seq<Seq<char>>, contract: Seq<char>) -> JsonView {
    JsonView::Object(
        seq![
            ("title"@, JsonView::Str(title)),
            ("seki"@, JsonView::Str(seki)),
            ("artifacts"@, JsonView::Array(str_views(artifacts))),
            ("contract"@, JsonView::Str(contract)),
        ],
    )
}

/// The declaration event for a claim that seki `seki` is passed, with `evidence` (the
/// artifacts' paths) as its evidence. It is refused when the declarant is monban, when
/// there is no evidence, or when the contract has no such seki.
pub fn declare_claim(actor: &str, evidence: &[String], contract: &Contract, seki: &str, title: &str) -> (res: Result<EventDraft, String>)
    ensures
        match declarant_refusal(actor@, evidence@.len()) {
            Some(m) => res matches Err(x) && x@ == m,
            None => if exists|i: int| 0 <= i < contract@.seki.len() && #[trigger] contract@.seki[i].name == seki@ {
                res matches Ok(d) && d.actor@ == actor@ && d.event_type@ == "claim.declare"@ && d.body@
                    == declare_body(title@, seki@, strings(evidence@), contract@.sha256)
            } else {
                res matches Err(x) && x@ == "関が見つからない: "@ + seki@
            },
        },
        res matches Ok(d) ==> d.actor@ != GATE_ACTOR@,
{
    if let Err(m) = check_declarant(actor, evidence.len()) {
        return Err(m);
    }
    match contract.find_seki(seki) {
        Err(e) => {
            proof {
                assert forall|i: int| 0 <= i < contract@.seki.len() implies #[trigger] contract@.seki[i].name != seki@ by {
                    assert(contract@.seki[i] == contract.seki@[i]@);
                }
            }
            return Err(e.message());
        },
        Ok(s) => {
            proof {
                let i = choose|i: int| 0 <= i < contract.seki@.len() && contract.seki@[i] == *s && s.name@ == seki@ && forall|j: int| 0 <= j < i ==> #[trigger] contract.seki@[j].name@ != seki@;
                assert(contract@.seki[i] == contract.seki@[i]@);
                assert(contract@.seki[i].name == seki@);
            }
        },
    }
    let mut m: Vec<(String, JsonValue)> = Vec::new();
    m.push((owned("title"), jtext(title)));
    m.push((owned("seki"), jtext(seki)));
    m.push((owned("artifacts"), strings_json(evidence)));
    m.push((owned("contract"), jstring(contract.sha256.clone())));
    let body = jobject(m);
    assert(members_view(m@) =~= declare_body(title@, seki@, strings(evidence@), contract@.sha256)->Object_0);
    Ok(EventDraft { actor: owned(actor), event_type: owned("claim.declare"), body })
}

// ---------------------------------------------------------------------------
// Verifying a claim
// ---------------------------------------------------------------------------

/// A ledger event as plain values: its id, type, actor, body, and the SHA-256 of each of
/// its evidence records, in order.
pub struct ClaimEvent {
    pub id: String,
    pub event_type: String,
    pub actor: String,
    pub body: JsonValue,
    pub evidence: Vec<String>,
}

/// The seki a claim names, or why monban will not verify it: it is no declaration, it
/// was declared by monban itself, or it names no seki.
pub open spec fn admission(id: Seq<char>, event_type: Seq<char>, actor: Seq<char>, body: JsonValue) -> Result<Seq<char>, Seq<char>> {
    if event_type != "claim.declare"@ {
        Err(id + " は claim.declare ではない(type="@ + event_type + ")"@)
    } else if actor == GATE_ACTOR@ {
        Err("この claim は門番自身("@ + GATE_ACTOR@ + ")の宣言であり、門番は改められない(三条二)"@)
    } else {
        match jstr(jget(body, "seki"@)) {
            Some(s) => Ok(s),
            None => Err(id + " の body に seki が無い(monban の関を通る宣言ではない)"@),
        }
    }
}

/// Admits a claim for verification: the seki it names, or the refusal.
pub fn admit_claim(claim: &ClaimEvent) -> (res: Result<String, String>)
    ensures
        match admission(claim.id@, claim.event_type@, claim.actor@, claim.body) {
            Ok(s) => res matches Ok(x) && x@ == s,
            Err(m) => res matches Err(x) && x@ == m,
        },
{
    if !str_eq(claim.event_type.as_str(), "claim.declare") {
        let mut m = join3(claim.id.as_str(), " は claim.declare ではない(type=", claim.event_type.as_str());
        m.append(")");
        return Err(m);
    }
    if str_eq(claim.actor.as_str(), GATE_ACTOR) {
        return Err(join3("この claim は門番自身(", GATE_ACTOR, ")の宣言であり、門番は改められない(三条二)"));
    }
    match jstr_exec(jget_exec(&claim.body, "seki")) {
        Some(s) => Ok(s),
        None => Err(join2(claim.id.as_str(), " の body に seki が無い(monban の関を通る宣言ではない)")),
    }
}

/// The contract named in the declaration is not the one in force.
pub open spec fn swapped(body: JsonValue, sha256: Seq<char>) -> bool {
    jstr(jget(body, "contract"@)) matches Some(h) && h != sha256
}

/// Whether the contract has been swapped since the claim was declared.
pub fn contract_swapped(claim: &ClaimEvent, contract: &Contract) -> (res: bool)
    ensures
        res == swapped(claim.body, contract@.sha256),
{
    match jstr_exec(jget_exec(&claim.body, "contract")) {
        Some(h) => !str_eq(h.as_str(), contract.sha256.as_str()),
        None => false,
    }
}

/// The strings among JSON values, in order (other values are skipped).
pub open spec fn json_strs(a: Seq<JsonValue>) -> Seq<Seq<char>>
    decreases a.len(),
{
    if a.len() == 0 {
        seq![]
    } else {
        let p = json_strs(a.drop_last());
        match a.last() {
            JsonValue::Str(s) => p.push(s@),
            _ => p,
        }
    }
}

/// The artifact labels a declaration lists.
pub open spec fn artifact_names(body: JsonValue) -> Seq<Seq<char>> {
    match jget(body, "artifacts"@) {
        Some(JsonValue::Array(a)) => json_strs(a@),
        _ => seq![],
    }
}

/// Pairs of corresponding elements, as many as the shorter has.
pub open spec fn zip(a: Seq<Seq<char>>, b: Seq<Seq<char>>) -> Seq<(Seq<char>, Seq<char>)> {
    Seq::new(
        if a.len() <= b.len() {
            a.len()
        } else {
            b.len()
        },
        |i: int| (a[i], b[i]),
    )
}

/// The first seki named `name` calls for OTel evidence.
pub open spec fn seki_has_otel(c: crate::contract::ContractSpec, name: Seq<char>) -> bool {
    exists|i: int|
        0 <= i < c.seki.len() && #[trigger] c.seki[i].name == name && (forall|j: int|
            0 <= j < i ==> #[trigger] c.seki[j].name != name) && exists|k: int|
            0 <= k < c.seki[i].evidence.len() && #[trigger] c.seki[i].evidence[k] is Otel
}

/// (label, stored hash) pairs as values.
pub open spec fn pairs_view(v: Seq<(String, String)>) -> Seq<(Seq<char>, Seq<char>)> {
    v.map_values(|p: (String, String)| (p.0@, p.1@))
}

proof fn lemma_json_strs_step(a: Seq<JsonValue>, i: int)
    requires
        0 <= i < a.len(),
    ensures
        json_strs(a.take(i + 1)) == (match a[i] {
            JsonValue::Str(s) => json_strs(a.take(i)).push(s@),
            _ => json_strs(a.take(i)),
        }),
{
    assert(a.take(i + 1).drop_last() =~= a.take(i));
}

fn json_strs_exec(a: &Vec<JsonValue>) -> (res: Vec<String>)
    ensures
        strings(res@) == json_strs(a@),
{
    let mut res: Vec<String> = Vec::new();
    let n = a.len();
    assert(a@.take(0) =~= seq![]);
    for i in 0..n
        invariant
            n == a@.len(),
            strings(res@) == json_strs(a@.take(i as int)),
    {
        proof {
            lemma_json_strs_step(a@, i as int);
        }
        match &a[i] {
            JsonValue::Str(s) => {
                let ghost before = res@;
                res.push(s.clone());
                assert(strings(res@) =~= strings(before).push(s@));
            },
            _ => {},
        }
    }
    assert(a@.take(n as int) =~= a@);
    res
}

/// Whether the first seki named `name` calls for OTel evidence.
#[verifier::loop_isolation(false)]
fn seki_has_otel_exec(contract: &Contract, name: &str) -> (res: bool)
    ensures
        res == seki_has_otel(contract@, name@),
{
    match contract.find_seki(name) {
        Err(_) => {
            proof {
                assert forall|i: int| 0 <= i < contract@.seki.len() implies #[trigger] contract@.seki[i].name != name@ by {
                    assert(contract@.seki[i] == contract.seki@[i]@);
                }
            }
            false
        },
        Ok(s) => {
            let ghost i = choose|i: int|
                0 <= i < contract.seki@.len() && contract.seki@[i] == *s && s.name@ == name@ && forall|j: int|
                    0 <= j < i ==> #[trigger] contract.seki@[j].name@ != name@;
            proof {
                assert(contract@.seki[i] == s@);
                assert forall|j: int| 0 <= j < i implies #[trigger] contract@.seki[j].name != name@ by {
                    assert(contract@.seki[j] == contract.seki@[j]@);
                }
            }
            let n = s.evidence.len();
            for k in 0..n
                invariant
                    n == s.evidence@.len(),
                    forall|m: int| 0 <= m < k ==> !(s@.evidence[m] is Otel),
            {
                assert(s@.evidence[k as int] == s.evidence@[k as int]@);
                match &s.evidence[k] {
                    EvidenceReq::Otel { .. } => {
                        assert(contract@.seki[i].evidence[k as int] is Otel);
                        assert(exists|k2: int| 0 <= k2 < contract@.seki[i].evidence.len() && #[trigger] contract@.seki[i].evidence[k2] is Otel);
                        assert(contract@.seki[i].name == name@);
                        return true;
                    },
                    _ => {},
                }
            }
            proof {
                if seki_has_otel(contract@, name@) {
                    let i2 = choose|i2: int|
                        0 <= i2 < contract@.seki.len() && #[trigger] contract@.seki[i2].name == name@ && (forall|j: int|
                            0 <= j < i2 ==> #[trigger] contract@.seki[j].name != name@) && exists|k: int|
                            0 <= k < contract@.seki[i2].evidence.len() && #[trigger] contract@.seki[i2].evidence[k] is Otel;
                    if i2 < i {
                        assert(contract@.seki[i2].name != name@);
                    }
                    if i < i2 {
                        assert(contract@.seki[i].name != name@);
                    }
                }
            }
            false
        },
    }
}

/// The artifact copies a verification must read: when the claimed seki calls for OTel
/// evidence, each label the declaration lists with the hash of the evidence record in the
/// same position (as many as both have); otherwise none.
pub fn copies_to_check(claim: &ClaimEvent, contract: &Contract, seki: &str) -> (res: Vec<(String, String)>)
    ensures
        pairs_view(res@) == if seki_has_otel(contract@, seki@) {
            zip(artifact_names(claim.body), strings(claim.evidence@))
        } else {
            seq![]
        },
{
    let mut out: Vec<(String, String)> = Vec::new();
    if !seki_has_otel_exec(contract, seki) {
        assert(pairs_view(out@) =~= seq![]);
        return out;
    }
    let names = match jget_exec(&claim.body, "artifacts") {
        Some(JsonValue::Array(a)) => json_strs_exec(a),
        _ => Vec::new(),
    };
    let ghost want = zip(artifact_names(claim.body), strings(claim.evidence@));
    assert(strings(names@) == artifact_names(claim.body)) by {
        if !(jget(claim.body, "artifacts"@) matches Some(JsonValue::Array(_))) {
            assert(strings(names@) =~= seq![]);
        }
    }
    let n = if names.len() <= claim.evidence.len() {
        names.len()
    } else {
        claim.evidence.len()
    };
    for i in 0..n
        invariant
            n <= names@.len(),
            n <= claim.evidence@.len(),
            n == want.len(),
            want == zip(strings(names@), strings(claim.evidence@)),
            pairs_view(out@) == want.take(i as int),
    {
        let ghost before = out@;
        let p = (names[i].clone(), claim.evidence[i].clone());
        out.push(p);
        proof {
            assert(want.take(i + 1) =~= want.take(i as int).push(want[i as int]));
            assert(pairs_view(out@) =~= pairs_view(before).push((p.0@, p.1@)));
        }
    }
    assert(want.take(n as int) =~= want);
    out
}

/// A stored copy as read back: (label, hash recorded at declaration, and the hash and text
/// of what the store holds now, if it holds anything).
pub type StoredCopy = (String, String, Option<(String, String)>);

/// A stored copy as values.
pub open spec fn copy_view(p: StoredCopy) -> (Seq<char>, Seq<char>, Option<(Seq<char>, Seq<char>)>) {
    (
        p.0@,
        p.1@,
        match p.2 {
            Some(x) => Some((x.0@, x.1@)),
            None => None,
        },
    )
}

/// The (label, text) of every declared copy, or why they cannot be trusted: the first copy
/// that is missing from the store, or whose bytes no longer hash to the recorded hash.
pub open spec fn copies_outcome(c: Seq<(Seq<char>, Seq<char>, Option<(Seq<char>, Seq<char>)>)>) -> Result<Seq<(Seq<char>, Seq<char>)>, Seq<char>>
    decreases c.len(),
{
    if c.len() == 0 {
        Ok(seq![])
    } else {
        match copies_outcome(c.drop_last()) {
            Err(m) => Err(m),
            Ok(p) => {
                let (name, sha, stored) = c.last();
                match stored {
                    None => Err("宣言時の成果物の写しが蔵(objects/)に無い: "@ + name),
                    Some((actual, text)) => if actual != sha {
                        Err("成果物の写しがハッシュと合わない: "@ + name)
                    } else {
                        Ok(p.push((name, text)))
                    },
                }
            },
        }
    }
}

proof fn lemma_copies_step(c: Seq<(Seq<char>, Seq<char>, Option<(Seq<char>, Seq<char>)>)>, i: int)
    requires
        0 <= i < c.len(),
    ensures
        copies_outcome(c.take(i + 1)) == (match copies_outcome(c.take(i)) {
            Err(m) => Err(m),
            Ok(p) => {
                let (name, sha, stored) = c[i];
                match stored {
                    None => Err("宣言時の成果物の写しが蔵(objects/)に無い: "@ + name),
                    Some((actual, text)) => if actual != sha {
                        Err("成果物の写しがハッシュと合わない: "@ + name)
                    } else {
                        Ok(p.push((name, text)))
                    },
                }
            },
        }),
{
    assert(c.take(i + 1).drop_last() =~= c.take(i));
}

proof fn lemma_copies_err(c: Seq<(Seq<char>, Seq<char>, Option<(Seq<char>, Seq<char>)>)>, i: int)
    requires
        0 <= i <= c.len(),
        copies_outcome(c.take(i)) is Err,
    ensures
        copies_outcome(c) == copies_outcome(c.take(i)),
    decreases c.len() - i,
{
    if i < c.len() {
        lemma_copies_step(c, i);
        lemma_copies_err(c, i + 1);
    } else {
        assert(c.take(i) =~= c);
    }
}

/// Checks the declared copies read back from the store (see `copies_outcome`).
pub fn check_copies(copies: &[StoredCopy]) -> (res: Result<Vec<(String, String)>, String>)
    ensures
        match copies_outcome(copies@.map_values(|p: StoredCopy| copy_view(p))) {
            Ok(v) => res matches Ok(x) && pairs_view(x@) == v,
            Err(m) => res matches Err(x) && x@ == m,
        },
{
    let ghost cv = copies@.map_values(|p: StoredCopy| copy_view(p));
    let mut out: Vec<(String, String)> = Vec::new();
    let n = copies.len();
    assert(cv.take(0) =~= seq![]);
    assert(pairs_view(out@) =~= seq![]);
    for i in 0..n
        invariant
            n == copies@.len(),
            cv == copies@.map_values(|p: StoredCopy| copy_view(p)),
            copies_outcome(cv.take(i as int)) == Ok::<Seq<(Seq<char>, Seq<char>)>, Seq<char>>(pairs_view(out@)),
    {
        proof {
            lemma_copies_step(cv, i as int);
            assert(cv[i as int] == copy_view(copies@[i as int]));
        }
        let (name, sha, stored) = &copies[i];
        match stored {
            None => {
                proof {
                    lemma_copies_err(cv, i + 1);
                }
                return Err(join2("宣言時の成果物の写しが蔵(objects/)に無い: ", name.as_str()));
            },
            Some((actual, text)) => {
                if !str_eq(actual.as_str(), sha.as_str()) {
                    proof {
                        lemma_copies_err(cv, i + 1);
                    }
                    return Err(join2("成果物の写しがハッシュと合わない: ", name.as_str()));
                }
                let ghost before = out@;
                let p = (name.clone(), text.clone());
                out.push(p);
                assert(pairs_view(out@) =~= pairs_view(before).push((p.0@, p.1@)));
            },
        }
    }
    assert(cv.take(n as int) =~= cv);
    Ok(out)
}

/// Why a verification fails before any check runs: the contract was swapped, or the
/// declared copies are lost or altered.
pub open spec fn precheck_spec(swapped: bool, copies: Result<Seq<(Seq<char>, Seq<char>)>, Seq<char>>) -> Option<Seq<char>> {
    if swapped {
        Some("契約ファイル(monban.toml)が宣言時から差し替わっている"@)
    } else {
        match copies {
            Err(m) => Some(m),
            Ok(_) => None,
        }
    }
}

/// Why a verification fails before any check runs, if it does.
pub fn precheck(swapped: bool, copies: &Result<Vec<(String, String)>, String>) -> (res: Option<String>)
    ensures
        match precheck_spec(
            swapped,
            match *copies {
                Ok(v) => Ok(pairs_view(v@)),
                Err(m) => Err(m@),
            },
        ) {
            Some(m) => res matches Some(x) && x@ == m,
            None => res is None,
        },
{
    if swapped {
        return Some(owned("契約ファイル(monban.toml)が宣言時から差し替わっている"));
    }
    match copies {
        Err(m) => Some(m.clone()),
        Ok(_) => None,
    }
}

/// The labels of the runs that failed, in order.
pub open spec fn failed_labels(runs: Seq<Run>) -> Seq<Seq<char>>
    decreases runs.len(),
{
    if runs.len() == 0 {
        seq![]
    } else {
        let p = failed_labels(runs.drop_last());
        if run_ok(runs.last()) {
            p
        } else {
            p.push(run_label(runs.last()))
        }
    }
}

/// The verdict (pass or not) and the reason recorded with a failure.
pub open spec fn judgement(pre: Option<Seq<char>>, runs: Seq<Run>) -> (bool, Option<Seq<char>>) {
    match pre {
        Some(r) => (false, Some(r)),
        None => {
            let failed = failed_labels(runs);
            if failed.len() == 0 {
                (true, None)
            } else {
                (false, Some("検査失敗: "@ + join_words(failed, " / "@)))
            }
        },
    }
}

proof fn lemma_failed_labels_step(runs: Seq<Run>, i: int)
    requires
        0 <= i < runs.len(),
    ensures
        failed_labels(runs.take(i + 1)) == (if run_ok(runs[i]) {
            failed_labels(runs.take(i))
        } else {
            failed_labels(runs.take(i)).push(run_label(runs[i]))
        }),
{
    assert(runs.take(i + 1).drop_last() =~= runs.take(i));
}

/// The artifact copies to examine with, when the checks are to run at all: a verification
/// that failed its pre-check runs nothing.
pub fn artifacts_to_run(pre: &Option<String>, copies: &Result<Vec<(String, String)>, String>) -> (res: Option<Vec<(String, String)>>)
    ensures
        pre is Some ==> res is None,
        pre is None ==> match *copies {
            Ok(v) => res matches Some(a) && pairs_view(a@) == pairs_view(v@),
            Err(_) => res is None,
        },
{
    match (pre, copies) {
        (None, Ok(v)) => {
            let mut a: Vec<(String, String)> = Vec::new();
            let n = v.len();
            for i in 0..n
                invariant
                    n == v@.len(),
                    pairs_view(a@) == pairs_view(v@.take(i as int)),
            {
                let ghost before = a@;
                let x = v[i].0.clone();
                let y = v[i].1.clone();
                a.push((x, y));
                proof {
                    assert(v@.take(i + 1) =~= v@.take(i as int).push(v@[i as int]));
                    assert(a@ == before.push((x, y)));
                    assert(pairs_view(a@) =~= pairs_view(before).push((x@, y@)));
                    assert(pairs_view(v@.take(i + 1)) =~= pairs_view(v@.take(i as int)).push((v@[i as int].0@, v@[i as int].1@)));
                }
            }
            assert(v@.take(n as int) =~= v@);
            Some(a)
        },
        _ => None,
    }
}

/// The runs a verdict records: none when the pre-check failed, else every run.
pub open spec fn runs_recorded(pre: Option<Seq<char>>, runs: Seq<Run>) -> Seq<Run> {
    match pre {
        Some(_) => seq![],
        None => runs,
    }
}

/// The runs a verdict records (see `runs_recorded`).
pub fn runs_for_verdict(pre: &Option<String>, runs: Vec<Run>) -> (res: Vec<Run>)
    ensures
        res@ == runs_recorded(
            match *pre {
                Some(r) => Some(r@),
                None => None,
            },
            runs@,
        ),
{
    match pre {
        Some(_) => Vec::new(),
        None => runs,
    }
}

/// Judging a claim. A pre-check failure decides the outcome; otherwise it passes exactly when every run
/// passed, and a failure lists the failed runs.
pub fn judge(pre: &Option<String>, runs: &[Run]) -> (res: (bool, Option<String>))
    ensures
        res.0 == judgement(
            match *pre {
                Some(r) => Some(r@),
                None => None,
            },
            runs@,
        ).0,
        match judgement(
            match *pre {
                Some(r) => Some(r@),
                None => None,
            },
            runs@,
        ).1 {
            Some(m) => res.1 matches Some(x) && x@ == m,
            None => res.1 is None,
        },
{
    if let Some(r) = pre {
        return (false, Some(r.clone()));
    }
    let mut failed: Vec<String> = Vec::new();
    let n = runs.len();
    assert(runs@.take(0) =~= seq![]);
    for i in 0..n
        invariant
            n == runs@.len(),
            strings(failed@) == failed_labels(runs@.take(i as int)),
    {
        proof {
            lemma_failed_labels_step(runs@, i as int);
        }
        if !runs[i].ok() {
            let ghost before = failed@;
            let l = runs[i].label();
            failed.push(l);
            assert(strings(failed@) =~= strings(before).push(l@));
        }
    }
    assert(runs@.take(n as int) =~= runs@);
    if failed.len() == 0 {
        (true, None)
    } else {
        let j = join_words_exec(failed.as_slice(), " / ");
        (false, Some(join2("検査失敗: ", j.as_str())))
    }
}

/// The body recorded for a judged claim: the claim, pass or fail, the seki, the contract in force, the
/// checks that ran, and the reason for a failure.
pub open spec fn verify_body(claim: Seq<char>, pass: bool, seki: Seq<char>, contract: Seq<char>, runs: Seq<Run>, reason: Option<Seq<char>>) -> JsonView {
    let m = seq![
        ("claim"@, JsonView::Str(claim)),
        ("verdict"@, JsonView::Str(if pass { "pass"@ } else { "fail"@ })),
        ("seki"@, JsonView::Str(seki)),
        ("contract"@, JsonView::Str(contract)),
        ("checks"@, JsonView::Array(runs.map_values(|r: Run| run_check(r)))),
    ];
    JsonView::Object(
        match reason {
            Some(r) => m.push(("reason"@, JsonView::Str(r))),
            None => m,
        },
    )
}

/// The verdict event. It is always written by monban.
pub fn verify_draft(claim_id: &str, pass: bool, seki: &str, contract: &Contract, runs: &[Run], reason: &Option<String>) -> (res: EventDraft)
    ensures
        res.actor@ == GATE_ACTOR@,
        res.event_type@ == "claim.verify"@,
        res.body@ == verify_body(
            claim_id@,
            pass,
            seki@,
            contract@.sha256,
            runs@,
            match *reason {
                Some(r) => Some(r@),
                None => None,
            },
        ),
{
    let mut checks: Vec<JsonValue> = Vec::new();
    let n = runs.len();
    for i in 0..n
        invariant
            n == runs@.len(),
            elems_view(checks@) == runs@.take(i as int).map_values(|r: Run| run_check(r)),
    {
        let ghost before = checks@;
        let c = runs[i].check_json();
        checks.push(c);
        proof {
            assert(runs@.take(i + 1) =~= runs@.take(i as int).push(runs@[i as int]));
            assert(runs@.take(i + 1).map_values(|r: Run| run_check(r)) =~= runs@.take(i as int).map_values(|r: Run| run_check(r)).push(run_check(runs@[i as int])));
            assert(elems_view(checks@) =~= elems_view(before).push(c@));
        }
    }
    assert(runs@.take(n as int) =~= runs@);
    let mut m: Vec<(String, JsonValue)> = Vec::new();
    m.push((owned("claim"), jtext(claim_id)));
    m.push((owned("verdict"), if pass { jtext("pass") } else { jtext("fail") }));
    m.push((owned("seki"), jtext(seki)));
    m.push((owned("contract"), jstring(contract.sha256.clone())));
    m.push((owned("checks"), jarray(checks)));
    if let Some(r) = reason {
        m.push((owned("reason"), jstring(r.clone())));
    }
    let body = jobject(m);
    assert(members_view(m@) =~= verify_body(
        claim_id@,
        pass,
        seki@,
        contract@.sha256,
        runs@,
        match *reason {
            Some(r) => Some(r@),
            None => None,
        },
    )->Object_0);
    EventDraft { actor: owned(GATE_ACTOR), event_type: owned("claim.verify"), body }
}

// ---------------------------------------------------------------------------
// Laws of monban
// ---------------------------------------------------------------------------

/// Monban never declares: a declaration in monban's name is always refused.
pub proof fn lemma_gate_never_declares(evidence_count: nat)
    ensures
        declarant_refusal(GATE_ACTOR@, evidence_count) is Some,
{
}

/// No claim without evidence: a declaration with no evidence is always refused.
pub proof fn lemma_no_evidence_no_claim(actor: Seq<char>)
    ensures
        declarant_refusal(actor, 0) is Some,
{
}

/// The declarer can never verify itself: every verdict is written by monban, and the
/// monban admits no claim that monban declared.
pub proof fn lemma_declarer_never_verifies(id: Seq<char>, event_type: Seq<char>, actor: Seq<char>, body: JsonValue)
    ensures
        admission(id, event_type, actor, body) is Ok ==> actor != GATE_ACTOR@,
{
}

/// A contract swapped after the declaration fails the verification, whatever the checks
/// would have said.
pub proof fn lemma_swapped_contract_fails(copies: Result<Seq<(Seq<char>, Seq<char>)>, Seq<char>>, runs: Seq<Run>)
    ensures
        !judgement(precheck_spec(true, copies), runs).0,
{
}

/// A lost or altered artifact copy fails the verification, whatever the checks would have
/// said.
pub proof fn lemma_lost_copy_fails(why: Seq<char>, runs: Seq<Run>)
    ensures
        !judgement(precheck_spec(false, Err(why)), runs).0,
{
}

proof fn lemma_failed_labels_empty(runs: Seq<Run>)
    ensures
        failed_labels(runs).len() == 0 <==> forall|i: int| 0 <= i < runs.len() ==> run_ok(#[trigger] runs[i]),
    decreases runs.len(),
{
    if runs.len() > 0 {
        lemma_failed_labels_empty(runs.drop_last());
        if forall|i: int| 0 <= i < runs.len() ==> run_ok(#[trigger] runs[i]) {
            assert forall|i: int| 0 <= i < runs.drop_last().len() implies run_ok(#[trigger] runs.drop_last()[i]) by {
                assert(runs.drop_last()[i] == runs[i]);
            }
            assert(run_ok(runs[runs.len() - 1]));
        }
        if failed_labels(runs).len() == 0 {
            assert forall|i: int| 0 <= i < runs.len() implies run_ok(#[trigger] runs[i]) by {
                if i < runs.len() - 1 {
                    assert(runs.drop_last()[i] == runs[i]);
                }
            }
        }
    }
}

/// Evidence requirements combine as AND: a verdict passes exactly when nothing failed
/// before the checks and every check passed.
pub proof fn lemma_pass_iff_every_check_passes(pre: Option<Seq<char>>, runs: Seq<Run>)
    ensures
        judgement(pre, runs).0 <==> (pre is None && forall|i: int| 0 <= i < runs.len() ==> run_ok(#[trigger] runs[i])),
{
    lemma_failed_labels_empty(runs);
}

/// A verification that fails its pre-check (a swapped contract, a lost or altered copy)
/// is recorded as a failure with the pre-check's reason and no checks at all.
pub proof fn lemma_failed_precheck_records_no_checks(
    claim: Seq<char>,
    seki: Seq<char>,
    contract: Seq<char>,
    why: Seq<char>,
    runs: Seq<Run>,
)
    ensures
        ({
            let j = judgement(Some(why), runs);
            verify_body(claim, j.0, seki, contract, runs_recorded(Some(why), runs), j.1)
        }) == JsonView::Object(
            seq![
                ("claim"@, JsonView::Str(claim)),
                ("verdict"@, JsonView::Str("fail"@)),
                ("seki"@, JsonView::Str(seki)),
                ("contract"@, JsonView::Str(contract)),
                ("checks"@, JsonView::Array(seq![])),
                ("reason"@, JsonView::Str(why)),
            ],
        ),
{
    let e: Seq<Run> = seq![];
    assert(e.map_values(|r: Run| run_check(r)) =~= seq![]);
    let m = seq![
        ("claim"@, JsonView::Str(claim)),
        ("verdict"@, JsonView::Str("fail"@)),
        ("seki"@, JsonView::Str(seki)),
        ("contract"@, JsonView::Str(contract)),
        ("checks"@, JsonView::Array(seq![])),
    ];
    assert(m.push(("reason"@, JsonView::Str(why))) =~= seq![
        ("claim"@, JsonView::Str(claim)),
        ("verdict"@, JsonView::Str("fail"@)),
        ("seki"@, JsonView::Str(seki)),
        ("contract"@, JsonView::Str(contract)),
        ("checks"@, JsonView::Array(seq![])),
        ("reason"@, JsonView::Str(why)),
    ]);
}

proof fn lemma_json_strs_of_views(a: Seq<JsonValue>, labels: Seq<Seq<char>>)
    requires
        a.len() == labels.len(),
        forall|i: int| 0 <= i < a.len() ==> jview(#[trigger] a[i]) == JsonView::Str(labels[i]),
    ensures
        json_strs(a) == labels,
    decreases a.len(),
{
    if a.len() > 0 {
        assert forall|i: int| 0 <= i < a.len() - 1 implies jview(#[trigger] a.drop_last()[i]) == JsonView::Str(
            labels.drop_last()[i],
        ) by {
            assert(a.drop_last()[i] == a[i]);
            assert(jview(a[i]) == JsonView::Str(labels[i]));
        }
        lemma_json_strs_of_views(a.drop_last(), labels.drop_last());
        assert(jview(a[a.len() - 1]) == JsonView::Str(labels[a.len() - 1]));
        assert(labels =~= labels.drop_last().push(labels.last()));
    }
}

/// The labels a declaration's body lists are exactly the artifacts it was made with.
proof fn lemma_declared_names(body: JsonValue, title: Seq<char>, seki: Seq<char>, labels: Seq<Seq<char>>, contract: Seq<char>)
    requires
        body@ == declare_body(title, seki, labels, contract),
    ensures
        artifact_names(body) == labels,
{
    reveal_strlit("title");
    reveal_strlit("seki");
    reveal_strlit("artifacts");
    reveal_with_fuel(member, 4);
    if let JsonValue::Object(m) = body {
        let v = declare_body(title, seki, labels, contract);
        assert(jview(body) matches JsonView::Object(k) && k.len() == 4);
        assert(m@.len() == 4);
        assert(jview(body) matches JsonView::Object(k) && k[0] == (m@[0].0@, jview(m@[0].1)) && k[1] == (m@[1].0@, jview(m@[1].1)) && k[2] == (m@[2].0@, jview(m@[2].1)));
        assert(m@[0].0@ == "title"@);
        assert(m@[1].0@ == "seki"@);
        assert(m@[2].0@ == "artifacts"@);
        assert("title"@[0] != "artifacts"@[0]);
        assert("seki"@[0] != "artifacts"@[0]);
        assert(m@.drop_first()[0] == m@[1]);
        assert(m@.drop_first().drop_first()[0] == m@[2]);
        assert(member(m@, "artifacts"@) == Some(m@[2].1));
        assert(jview(m@[2].1) == JsonView::Array(str_views(labels)));
        if let JsonValue::Array(a) = m@[2].1 {
            assert(jview(m@[2].1) matches JsonView::Array(x) && x.len() == a@.len());
            assert(str_views(labels).len() == labels.len());
            assert forall|i: int| 0 <= i < a@.len() implies jview(#[trigger] a@[i]) == JsonView::Str(labels[i]) by {
                assert(jview(m@[2].1) matches JsonView::Array(x) && x[i] == jview(a@[i]));
                assert(str_views(labels)[i] == JsonView::Str(labels[i]));
            }
            lemma_json_strs_of_views(a@, labels);
        }
    } else {
        assert(!(jview(body) is Object));
    }
}

/// A declaration's evidence lines up with what verification reads: when the evidence
/// records are the artifacts' stored copies in order, then the contract's copy (see
/// `declare_evidence`), each artifact label the body lists is paired with the hash of its
/// own stored copy, and the contract's copy is paired with none.
pub proof fn lemma_declared_copies_line_up(
    body: JsonValue,
    title: Seq<char>,
    seki: Seq<char>,
    labels: Seq<Seq<char>>,
    contract: Seq<char>,
    hashes: Seq<Seq<char>>,
    contract_copy: Seq<char>,
)
    requires
        body@ == declare_body(title, seki, labels, contract),
        hashes.len() == labels.len(),
    ensures
        zip(artifact_names(body), hashes.push(contract_copy)) == zip(labels, hashes),
        zip(labels, hashes).len() == labels.len(),
        forall|i: int| 0 <= i < labels.len() ==> #[trigger] zip(labels, hashes)[i] == (labels[i], hashes[i]),
{
    lemma_declared_names(body, title, seki, labels, contract);
    assert(zip(labels, hashes.push(contract_copy)) =~= zip(labels, hashes));
}

/// The record of a run names exactly what was run: for an OTel examination its kind, the
/// vault and the span examined, how many spans were found and whether it passed; for a
/// toolchain run the command line, the exit code (`null` without one) and whether it
/// passed.
pub proof fn lemma_check_record_names_the_run(r: Run)
    ensures
        match r {
            Run::Otel(o) => {
                &&& view_get(run_check(r), "kind"@) == Some(JsonView::Str("otel"@))
                &&& view_get(run_check(r), "vault"@) == Some(JsonView::Str(o.vault@))
                &&& view_get(run_check(r), "span"@) == Some(JsonView::Str(o.span@))
                &&& view_get(run_check(r), "spans_found"@) == Some(JsonView::Number(int_text(o.spans_found as int)))
                &&& view_get(run_check(r), "ok"@) == Some(JsonView::Bool(o.ok))
            },
            Run::Tool(t) => {
                &&& view_get(run_check(r), "cmd"@) == Some(JsonView::Str(join_words(strings(t.cmd@), " "@)))
                &&& view_get(run_check(r), "exit"@) == Some(
                    match t.exit {
                        Some(c) => JsonView::Number(int_text(c as int)),
                        None => JsonView::Null,
                    },
                )
                &&& view_get(run_check(r), "ok"@) == Some(JsonView::Bool(t.ok))
            },
        },
{
    reveal_strlit("kind");
    reveal_strlit("vault");
    reveal_strlit("span");
    reveal_strlit("spans_found");
    reveal_strlit("ok");
    reveal_strlit("cmd");
    reveal_strlit("exit");
    reveal_with_fuel(view_member, 6);
    assert("kind"@[0] != "vault"@[0]);
    assert("kind"@[0] != "span"@[0]);
    assert("vault"@[0] != "span"@[0]);
    assert("kind"@[0] != "spans_found"@[0]);
    assert("vault"@[0] != "spans_found"@[0]);
    assert("span"@.len() != "spans_found"@.len());
    assert("kind"@[0] != "ok"@[0]);
    assert("vault"@[0] != "ok"@[0]);
    assert("span"@[0] != "ok"@[0]);
    assert("spans_found"@[0] != "ok"@[0]);
    assert("cmd"@[0] != "exit"@[0]);
    assert("cmd"@[0] != "ok"@[0]);
    assert("exit"@[0] != "ok"@[0]);
    match r {
        Run::Otel(o) => {
            let m = run_check(r)->Object_0;
            assert(m.drop_first()[0] == m[1]);
            assert(m.drop_first().drop_first()[0] == m[2]);
            assert(m.drop_first().drop_first().drop_first()[0] == m[3]);
            assert(m.drop_first().drop_first().drop_first().drop_first()[0] == m[4]);
        },
        Run::Tool(t) => {
            let m = run_check(r)->Object_0;
            assert(m.drop_first()[0] == m[1]);
            assert(m.drop_first().drop_first()[0] == m[2]);
        },
    }
}

// ---------------------------------------------------------------------------
// Reports
// ---------------------------------------------------------------------------

/// The report line of one run of a dry run (check).
pub open spec fn check_line_spec(name: Seq<char>, r: Run) -> Seq<char> {
    (if run_ok(r) {
        "✓"@
    } else {
        "✗"@
    }) + " 関 "@ + name + ": "@ + run_label(r)
}

/// The report line of one run of a dry run (check).
pub fn check_line(name: &str, run: &Run) -> (res: String)
    ensures
        res@ == check_line_spec(name@, *run),
{
    let mark = if run.ok() {
        "✓"
    } else {
        "✗"
    };
    let mut s = join3(mark, " 関 ", name);
    s.append(": ");
    s.append(run.label().as_str());
    s
}

/// The exit code of a dry run: 0 when every run passed, else 1.
pub fn check_exit_code(runs: &[Run]) -> (res: i32)
    ensures
        res == (if forall|i: int| 0 <= i < runs@.len() ==> run_ok(#[trigger] runs@[i]) {
            0i32
        } else {
            1i32
        }),
{
    let n = runs.len();
    for i in 0..n
        invariant
            n == runs@.len(),
            forall|j: int| 0 <= j < i ==> run_ok(#[trigger] runs@[j]),
    {
        if !runs[i].ok() {
            return 1;
        }
    }
    0
}

/// The seki a dry run checks: the one named, or every seki of the contract in order.
pub fn check_names(contract: &Contract, seki: Option<&str>) -> (res: Vec<String>)
    ensures
        strings(res@) == match seki {
            Some(n) => seq![n@],
            None => contract@.seki.map_values(|s: SekiSpec| s.name),
        },
{
    let mut out: Vec<String> = Vec::new();
    match seki {
        Some(n) => {
            out.push(owned(n));
            assert(strings(out@) =~= seq![n@]);
        },
        None => {
            let k = contract.seki.len();
            for i in 0..k
                invariant
                    k == contract.seki@.len(),
                    strings(out@) == contract@.seki.take(i as int).map_values(|s: SekiSpec| s.name),
            {
                let ghost before = out@;
                let x = contract.seki[i].name.clone();
                out.push(x);
                proof {
                    assert(contract@.seki[i as int] == contract.seki@[i as int]@);
                    assert(contract@.seki.take(i + 1) =~= contract@.seki.take(i as int).push(contract@.seki[i as int]));
                    assert(strings(out@) =~= strings(before).push(x@));
                    assert(contract@.seki.take(i + 1).map_values(|s: SekiSpec| s.name) =~= contract@.seki.take(i as int).map_values(|s: SekiSpec| s.name).push(x@));
                }
            }
            assert(contract@.seki.take(k as int) =~= contract@.seki);
        },
    }
    out
}

/// The first characters of `s` that take `n` bytes in UTF-8 (the slice `&s[..n]`).
pub open spec fn byte_prefix(s: Seq<char>, n: nat) -> Seq<char> {
    s.take(choose|k: int| 0 <= k <= s.len() && #[trigger] crate::text::utf8_len(s.take(k)) == n)
}

/// `n` bytes end at a character boundary of `s` (so `&s[..n]` does not panic).
pub open spec fn has_byte_prefix(s: Seq<char>, n: nat) -> bool {
    exists|k: int| 0 <= k <= s.len() && #[trigger] crate::text::utf8_len(s.take(k)) == n
}

proof fn lemma_utf8_len_strict(s: Seq<char>, a: int, b: int)
    requires
        0 <= a < b <= s.len(),
    ensures
        crate::text::utf8_len(s.take(a)) < crate::text::utf8_len(s.take(b)),
{
    crate::text::lemma_utf8_len_mono(s, a, b);
}

/// `&s[..n]` for a boundary `n`.
fn byte_prefix_exec(s: &str, n: u128) -> (res: String)
    requires
        has_byte_prefix(s@, n as nat),
    ensures
        res@ == byte_prefix(s@, n as nat),
{
    let cs = crate::text::chars_of(s);
    let ghost k0 = choose|k: int| 0 <= k <= s@.len() && #[trigger] crate::text::utf8_len(s@.take(k)) == n;
    let mut k: usize = 0;
    let mut b: u128 = 0;
    assert(cs@.take(0) =~= seq![]);
    while b < n
        invariant
            cs@ == s@,
            0 <= k0 <= cs@.len(),
            crate::text::utf8_len(cs@.take(k0)) == n,
            k <= k0,
            b == crate::text::utf8_len(cs@.take(k as int)),
        decreases k0 - k,
    {
        proof {
            if k == k0 {
                assert(false);
            }
            crate::text::lemma_utf8_len_take(cs@, k as int);
            if k + 1 <= k0 {
                crate::text::lemma_utf8_len_mono(cs@, k + 1, k0);
            }
        }
        b = b + crate::text::utf8_width_exec(cs[k]) as u128;
        k += 1;
        proof {
            if k > k0 {
                lemma_utf8_len_strict(cs@, k0, k as int);
                crate::text::lemma_utf8_len_take(cs@, (k - 1) as int);
                if k - 1 < k0 {
                } else {
                    assert(k - 1 == k0);
                }
            }
        }
    }
    proof {
        if k < k0 {
            lemma_utf8_len_strict(cs@, k as int, k0);
        }
        assert(k == k0);
    }
    string_from_chars_prefix(&cs, k)
}

fn string_from_chars_prefix(cs: &Vec<char>, k: usize) -> (res: String)
    requires
        k <= cs@.len(),
    ensures
        res@ == cs@.take(k as int),
{
    let p = crate::text::slice_chars(cs.as_slice(), 0, k);
    assert(p@ =~= cs@.take(k as int));
    crate::text::string_from_chars(p.as_slice())
}

/// The lines listing one requirement.
pub open spec fn evidence_listing(e: EvidenceSpec) -> Seq<char> {
    match e {
        EvidenceSpec::Toolchain { cmd, expect_exit } => "  toolchain: "@ + join_words(cmd, " "@)
            + " (expect exit "@ + int_text(expect_exit as int) + ")"@,
        EvidenceSpec::Otel { vault, span, attrs_match } => "  otel: span \""@ + span + "\" in "@ + vault
            + " (attrs_match: "@ + (if attrs_match.len() == 0 {
            "なし — 在否のみ"@
        } else {
            join_words(attrs_match, ", "@)
        }) + ")"@,
    }
}

proof fn lemma_occurs_in_concat(a: Seq<char>, b: Seq<char>, n: Seq<char>, i: int)
    ensures
        occurs_at(a, n, i) ==> occurs_at(a + b, n, i),
        occurs_at(b, n, i) ==> occurs_at(a + b, n, a.len() + i),
{
    if occurs_at(a, n, i) {
        assert((a + b).subrange(i, i + n.len()) =~= a.subrange(i, i + n.len()));
    }
    if occurs_at(b, n, i) {
        assert((a + b).subrange(a.len() + i, a.len() + i + n.len()) =~= b.subrange(i, i + n.len()));
    }
}

/// Every word joined occurs in the joined text.
proof fn lemma_join_words_contains(ws: Seq<Seq<char>>, sep: Seq<char>, k: int)
    requires
        0 <= k < ws.len(),
    ensures
        contains(join_words(ws, sep), ws[k]),
    decreases ws.len(),
{
    if ws.len() == 1 {
        assert(occurs_at(ws[0], ws[0], 0)) by {
            assert(ws[0].subrange(0, ws[0].len() as int) =~= ws[0]);
        }
    } else {
        let front = join_words(ws.drop_last(), sep);
        if k < ws.len() - 1 {
            lemma_join_words_contains(ws.drop_last(), sep, k);
            assert(ws.drop_last()[k] == ws[k]);
            let i = choose|i: int| occurs_at(front, ws[k], i);
            lemma_occurs_in_concat(front, sep, ws[k], i);
            lemma_occurs_in_concat(front + sep, ws.last(), ws[k], i);
        } else {
            assert(occurs_at(ws.last(), ws.last(), 0)) by {
                assert(ws.last().subrange(0, ws.last().len() as int) =~= ws.last());
            }
            lemma_occurs_in_concat(front + sep, ws.last(), ws.last(), 0);
        }
    }
}

/// The listing of an OTel requirement names the span and the vault, and every attribute
/// of `attrs_match`, in order, joined by ", ".
pub proof fn lemma_otel_listing_names_every_attribute(vault: Seq<char>, span: Seq<char>, names: Seq<Seq<char>>)
    requires
        names.len() > 0,
    ensures
        evidence_listing(EvidenceSpec::Otel { vault, span, attrs_match: names }) == "  otel: span \""@ + span
            + "\" in "@ + vault + " (attrs_match: "@ + join_words(names, ", "@) + ")"@,
        forall|k: int|
            0 <= k < names.len() ==> contains(
                evidence_listing(EvidenceSpec::Otel { vault, span, attrs_match: names }),
                #[trigger] names[k],
            ),
{
    let head = "  otel: span \""@ + span + "\" in "@ + vault + " (attrs_match: "@;
    let j = join_words(names, ", "@);
    assert forall|k: int| 0 <= k < names.len() implies contains(head + j + ")"@, #[trigger] names[k]) by {
        lemma_join_words_contains(names, ", "@, k);
        let i = choose|i: int| occurs_at(j, names[k], i);
        lemma_occurs_in_concat(head, j, names[k], i);
        lemma_occurs_in_concat(head + j, ")"@, names[k], head.len() + i);
    }
}

/// The lines listing one seki: its name, title and number of requirements, then each
/// requirement.
pub open spec fn seki_listing(s: SekiSpec) -> Seq<Seq<char>> {
    seq!["関 "@ + s.name + " — "@ + s.title + "(証拠要件 "@ + int_text(s.evidence.len() as int) + " 件)"@]
        + s.evidence.map_values(|e: EvidenceSpec| evidence_listing(e))
}

/// The lines listing every seki, in order.
pub open spec fn sekis_listing(l: Seq<SekiSpec>) -> Seq<Seq<char>>
    decreases l.len(),
{
    if l.len() == 0 {
        seq![]
    } else {
        sekis_listing(l.drop_last()) + seki_listing(l.last())
    }
}

/// The listing of a contract: its hash (first 12 bytes), then each seki.
pub open spec fn contract_listing_spec(c: crate::contract::ContractSpec) -> Seq<Seq<char>> {
    seq!["契約 monban.toml(sha256 "@ + byte_prefix(c.sha256, 12) + ")"@] + sekis_listing(c.seki)
}

fn evidence_listing_exec(e: &EvidenceReq) -> (res: String)
    ensures
        res@ == evidence_listing(e@),
{
    match e {
        EvidenceReq::Toolchain { cmd, expect_exit } => {
            let mut s = join2("  toolchain: ", join_words_exec(cmd.as_slice(), " ").as_str());
            s.append(" (expect exit ");
            s.append(crate::text::int_text_exec(*expect_exit as i64).as_str());
            s.append(")");
            s
        },
        EvidenceReq::Otel { vault, span, attrs_match } => {
            let mut s = join3("  otel: span \"", span.as_str(), "\" in ");
            s.append(vault.as_str());
            s.append(" (attrs_match: ");
            if attrs_match.len() == 0 {
                s.append("なし — 在否のみ");
            } else {
                s.append(join_words_exec(attrs_match.as_slice(), ", ").as_str());
            }
            s.append(")");
            s
        },
    }
}

/// The lines listing a contract (what `monban contract` prints).
pub fn contract_listing(contract: &Contract) -> (res: Vec<String>)
    requires
        has_byte_prefix(contract@.sha256, 12),
    ensures
        strings(res@) == contract_listing_spec(contract@),
{
    let mut out: Vec<String> = Vec::new();
    let head = byte_prefix_exec(contract.sha256.as_str(), 12);
    out.push(join3("契約 monban.toml(sha256 ", head.as_str(), ")"));
    let k = contract.seki.len();
    let ghost sv = contract@.seki;
    assert(sv.take(0) =~= seq![]);
    assert(strings(out@) =~= seq!["契約 monban.toml(sha256 "@ + byte_prefix(contract@.sha256, 12) + ")"@] + sekis_listing(sv.take(0)));
    for i in 0..k
        invariant
            k == contract.seki@.len(),
            sv == contract@.seki,
            strings(out@) == seq!["契約 monban.toml(sha256 "@ + byte_prefix(contract@.sha256, 12) + ")"@]
                + sekis_listing(sv.take(i as int)),
    {
        let s = &contract.seki[i];
        let ghost start = out@;
        let mut line = join3("関 ", s.name.as_str(), " — ");
        line.append(s.title.as_str());
        line.append("(証拠要件 ");
        line.append(nat_text_exec(s.evidence.len() as u64).as_str());
        line.append(" 件)");
        out.push(line);
        let ghost mid = out@;
        let m = s.evidence.len();
        for j in 0..m
            invariant
                m == s.evidence@.len(),
                out@ == mid + out@.subrange(mid.len() as int, out@.len() as int),
                strings(out@.subrange(mid.len() as int, out@.len() as int)) == s@.evidence.take(j as int).map_values(|e: EvidenceSpec| evidence_listing(e)),
                out@.len() >= mid.len(),
        {
            let ghost before = out@;
            let x = evidence_listing_exec(&s.evidence[j]);
            out.push(x);
            proof {
                assert(s@.evidence[j as int] == s.evidence@[j as int]@);
                assert(out@.subrange(mid.len() as int, out@.len() as int) =~= before.subrange(mid.len() as int, before.len() as int).push(x));
                assert(s@.evidence.take(j + 1) =~= s@.evidence.take(j as int).push(s@.evidence[j as int]));
                assert(strings(out@.subrange(mid.len() as int, out@.len() as int)) =~= strings(before.subrange(mid.len() as int, before.len() as int)).push(x@));
                assert(out@ =~= mid + out@.subrange(mid.len() as int, out@.len() as int));
            }
        }
        proof {
            assert(s@.evidence.take(m as int) =~= s@.evidence);
            assert(sv[i as int] == s@);
            assert(sv.take(i + 1).drop_last() =~= sv.take(i as int));
            assert(strings(mid) =~= strings(start).push(line@));
            assert(strings(out@) =~= strings(mid) + strings(out@.subrange(mid.len() as int, out@.len() as int)));
            assert(seki_listing(s@) =~= seq![line@] + s@.evidence.map_values(|e: EvidenceSpec| evidence_listing(e)));
            assert(strings(out@) =~= seq!["契約 monban.toml(sha256 "@ + byte_prefix(contract@.sha256, 12) + ")"@] + sekis_listing(sv.take(i + 1)));
        }
    }
    assert(sv.take(k as int) =~= sv);
    out
}

/// Why a seki's checks stopped: a toolchain that could not be started.
pub fn spawn_failure(cmd: &[String], err: &MonbanError) -> (res: String)
    ensures
        res@ == "実行できない: "@ + join_words(strings(cmd@), " "@) + ": "@ + err.message_spec(),
{
    let mut s = join2("実行できない: ", join_words_exec(cmd, " ").as_str());
    s.append(": ");
    s.append(err.message().as_str());
    s
}

/// The lines reporting a recorded declaration.
pub fn declare_report(seq: u64, id: &str) -> (res: Vec<String>)
    ensures
        strings(res@) == seq![
            "✓ 記録 seq="@ + int_text(seq as int) + " type=claim.declare id="@ + id@,
            "改めは門番の仕事: `monban verify "@ + id@ + "`"@,
        ],
{
    let mut out: Vec<String> = Vec::new();
    let mut a = join3("✓ 記録 seq=", nat_text_exec(seq).as_str(), " type=claim.declare id=");
    a.append(id);
    out.push(a);
    out.push(join3("改めは門番の仕事: `monban verify ", id, "`"));
    assert(strings(out@) =~= seq![
        "✓ 記録 seq="@ + int_text(seq as int) + " type=claim.declare id="@ + id@,
        "改めは門番の仕事: `monban verify "@ + id@ + "`"@,
    ]);
    out
}

/// The lines reporting a recorded verdict, and the exit code: 0 with a tegata (the pass)
/// for a pass, 1 where the claim stops at monban.
pub fn verdict_report(seq: u64, id: &str, pass: bool, seki: &str, reason: &Option<String>) -> (res: (Vec<String>, i32))
    ensures
        res.1 == (if pass { 0i32 } else { 1i32 }),
        strings(res.0@) == seq![
            "✓ 記録 seq="@ + int_text(seq as int) + " type=claim.verify id="@ + id@,
            if pass {
                "手形 — 関 "@ + seki@ + " を通過(verified by "@ + GATE_ACTOR@ + ")"@
            } else {
                "止まる — 関 "@ + seki@ + " は通れない: "@ + match *reason {
                    Some(r) => r@,
                    None => seq![],
                }
            },
        ],
{
    let mut out: Vec<String> = Vec::new();
    let mut a = join3("✓ 記録 seq=", nat_text_exec(seq).as_str(), " type=claim.verify id=");
    a.append(id);
    out.push(a);
    let b = if pass {
        let mut b = join3("手形 — 関 ", seki, " を通過(verified by ");
        b.append(GATE_ACTOR);
        b.append(")");
        b
    } else {
        let mut b = join3("止まる — 関 ", seki, " は通れない: ");
        match reason {
            Some(r) => b.append(r.as_str()),
            None => {},
        }
        b
    };
    out.push(b);
    assert(strings(out@) =~= seq![
        "✓ 記録 seq="@ + int_text(seq as int) + " type=claim.verify id="@ + id@,
        if pass {
            "手形 — 関 "@ + seki@ + " を通過(verified by "@ + GATE_ACTOR@ + ")"@
        } else {
            "止まる — 関 "@ + seki@ + " は通れない: "@ + match *reason {
                Some(r) => r@,
                None => seq![],
            }
        },
    ]) by {
        if !pass && reason.is_none() {
            assert(b@ =~= "止まる — 関 "@ + seki@ + " は通れない: "@ + Seq::<char>::empty());
        }
    }
    (out, if pass { 0 } else { 1 })
}

} // verus!
