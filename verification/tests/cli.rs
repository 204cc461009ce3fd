//! Monban's three articles, end to end through the library: no claim passes without
//! evidence, the declarer never verifies itself, and a swapped contract shows.

use monban::claim::{
    admit_claim, artifacts_to_run, check_copies, check_exit_code, check_names, contract_listing, contract_swapped,
    copies_to_check, declare_claim, judge, load_contract, precheck, runs_for_verdict, seki_probes, verdict_report,
    verify_draft, ClaimEvent, EventDraft, Run,
};
use monban::contract::{Contract, EvidenceReq};
use monban::gate::run_toolchain;
use monban::jsondoc::JsonValue;
use monban::otel::examine_otel;

const SHA: &str = "9f86d081884c7d659a2feaa0c55ad015a3bf4f1b2b0b822cd15d6c15b0f00a08";
const ROOT: &str = "/work";

const PASS_CONTRACT: &str = r#"
schema = "monban/0"

[[seki]]
name = "tests-pass"
title = "テストが通っている"

  [[seki.evidence]]
  kind = "toolchain"
  cmd = ["true"]
"#;

const FAIL_CONTRACT: &str = r#"
schema = "monban/0"

[[seki]]
name = "tests-pass"
title = "テストが通っている"

  [[seki.evidence]]
  kind = "toolchain"
  cmd = ["false"]
"#;

const OTEL_CONTRACT: &str = r#"
schema = "monban/0"

[[seki]]
name = "report-honest"
title = "レポートの数字は実行過程に裏付けがある"

  [[seki.evidence]]
  kind = "otel"
  vault = "vault.jsonl"
  span = "read_sources"
  attrs_match = ["lines.total"]
"#;

fn load(text: &str) -> Result<Contract, String> {
    load_contract(ROOT, &Some(Ok(text.to_string())), SHA.to_string())
}

fn get<'a>(v: &'a JsonValue, key: &str) -> Option<&'a JsonValue> {
    match v {
        JsonValue::Object(m) => m.iter().find(|(k, _)| k == key).map(|(_, x)| x),
        _ => None,
    }
}

fn text_of(v: Option<&JsonValue>) -> Option<&str> {
    match v {
        Some(JsonValue::Str(s)) => Some(s.as_str()),
        _ => None,
    }
}

/// The event a declaration records, as the ledger hands it back.
fn as_event(id: &str, draft: EventDraft, evidence: Vec<String>) -> ClaimEvent {
    ClaimEvent {
        id: id.to_string(),
        event_type: draft.event_type,
        actor: draft.actor,
        body: draft.body,
        evidence,
    }
}

/// Runs the checks a seki calls for, with each process's outcome given.
fn run_checks(
    contract: &Contract,
    seki: &str,
    exits: &[Option<i32>],
    vault: &Result<String, String>,
    artifacts: Option<&[(String, String)]>,
) -> Vec<Run> {
    let probes = seki_probes(contract, seki, ROOT).unwrap();
    let mut runs = Vec::new();
    let mut k = 0;
    for p in &probes {
        match p {
            EvidenceReq::Toolchain { cmd, expect_exit } => {
                let r = run_toolchain(cmd, *expect_exit, ROOT, Ok((exits[k], String::new(), String::new())))
                    .unwrap();
                k += 1;
                runs.push(Run::Tool(r));
            }
            EvidenceReq::Otel { vault: path, span, attrs_match } => {
                runs.push(Run::Otel(examine_otel(path, vault, span, attrs_match, artifacts)));
            }
        }
    }
    runs
}

#[test]
fn contract_without_evidence_is_rejected() {
    let r = load("schema = \"monban/0\"\n[[seki]]\nname = \"empty\"\ntitle = \"証拠なし\"\n");
    assert!(r.unwrap_err().contains("門ではない"));
}

#[test]
fn otel_without_vault_or_span_is_rejected() {
    let r = load(
        "schema = \"monban/0\"\n[[seki]]\nname = \"o\"\ntitle = \"otel\"\n[[seki.evidence]]\nkind = \"otel\"\n",
    );
    assert!(r.unwrap_err().contains("非空"));
}

#[test]
fn wrong_schema_is_rejected() {
    let r = load("schema = \"monban/9\"\n");
    assert!(r.unwrap_err().contains("monban/0"));
}

#[test]
fn declare_without_evidence_is_rejected() {
    let contract = load(PASS_CONTRACT).unwrap();
    let r = declare_claim("tester", &[], &contract, "tests-pass", "できました");
    assert!(r.is_err(), "拒否された宣言は台帳に残らない");
}

#[test]
fn gate_refuses_to_verify_its_own_declaration() {
    let body = JsonValue::Object(vec![
        ("title".to_string(), JsonValue::Str("x".to_string())),
        ("seki".to_string(), JsonValue::Str("tests-pass".to_string())),
    ]);
    let claim = ClaimEvent {
        id: "e1".to_string(),
        event_type: "claim.declare".to_string(),
        actor: "agent:monban".to_string(),
        body,
        evidence: vec![SHA.to_string()],
    };
    let r = admit_claim(&claim);
    assert!(r.unwrap_err().contains("改められない"));
}

/// Verifies a declared claim under `contract_text`, with the processes exiting as given.
fn verify(
    contract_text: &str,
    claim: &ClaimEvent,
    exits: &[Option<i32>],
    vault: &Result<String, String>,
    stored: Vec<Option<(String, String)>>,
) -> (EventDraft, Vec<String>, i32) {
    verify_under(contract_text, SHA, claim, exits, vault, stored)
}

/// As `verify`, with the contract file now hashing to `sha`.
fn verify_under(
    contract_text: &str,
    sha: &str,
    claim: &ClaimEvent,
    exits: &[Option<i32>],
    vault: &Result<String, String>,
    stored: Vec<Option<(String, String)>>,
) -> (EventDraft, Vec<String>, i32) {
    let seki = admit_claim(claim).unwrap();
    let contract = load_contract(ROOT, &Some(Ok(contract_text.to_string())), sha.to_string()).unwrap();
    let swapped = contract_swapped(claim, &contract);
    let to_read = copies_to_check(claim, &contract, &seki);
    let copies: Vec<(String, String, Option<(String, String)>)> = to_read
        .into_iter()
        .zip(stored.into_iter().chain(std::iter::repeat(None)))
        .map(|((n, s), st)| (n, s, st))
        .collect();
    let checked = check_copies(&copies);
    let pre = precheck(swapped, &checked);
    let runs = match artifacts_to_run(&pre, &checked) {
        Some(arts) => run_checks(&contract, &seki, exits, vault, Some(&arts)),
        None => Vec::new(),
    };
    let runs = runs_for_verdict(&pre, runs);
    let (pass, reason) = judge(&pre, &runs);
    let draft = verify_draft(&claim.id, pass, &seki, &contract, &runs, &reason);
    let (lines, code) = verdict_report(2, "e2", pass, &seki, &reason);
    (draft, lines, code)
}

#[test]
fn verify_pass_issues_tegata() {
    let contract = load(PASS_CONTRACT).unwrap();
    let d = declare_claim("tester", &["seika.md".to_string()], &contract, "tests-pass", "できました").unwrap();
    let claim = as_event("e1", d, vec![SHA.to_string(), SHA.to_string()]);
    let (v, lines, code) = verify(PASS_CONTRACT, &claim, &[Some(0)], &Ok(String::new()), vec![]);
    assert_eq!(code, 0);
    assert!(lines[1].contains("手形"));
    assert_eq!(v.event_type, "claim.verify");
    assert_eq!(v.actor, "agent:monban");
    assert_eq!(text_of(get(&v.body, "verdict")), Some("pass"));
    assert_eq!(text_of(get(&v.body, "claim")), Some("e1"));
    match get(&v.body, "checks") {
        Some(JsonValue::Array(c)) => assert!(!c.is_empty()),
        _ => panic!("no checks"),
    }
}

#[test]
fn verify_fail_stops_at_the_gate() {
    let contract = load(FAIL_CONTRACT).unwrap();
    let d = declare_claim("tester", &["seika.md".to_string()], &contract, "tests-pass", "できました").unwrap();
    let claim = as_event("e1", d, vec![SHA.to_string(), SHA.to_string()]);
    let (v, lines, code) = verify(FAIL_CONTRACT, &claim, &[Some(1)], &Ok(String::new()), vec![]);
    assert_eq!(code, 1);
    assert!(lines[1].contains("止まる"));
    assert_eq!(text_of(get(&v.body, "verdict")), Some("fail"));
}

#[test]
fn check_does_not_touch_the_ledger() {
    let contract = load(PASS_CONTRACT).unwrap();
    let names = check_names(&contract, None);
    let mut runs = Vec::new();
    for n in &names {
        runs.extend(run_checks(&contract, n, &[Some(0)], &Ok(String::new()), None));
    }
    assert_eq!(check_exit_code(&runs), 0);
}

#[test]
fn check_reports_failure() {
    let contract = load(FAIL_CONTRACT).unwrap();
    let names = check_names(&contract, None);
    let mut runs = Vec::new();
    for n in &names {
        runs.extend(run_checks(&contract, n, &[Some(1)], &Ok(String::new()), None));
    }
    assert_eq!(check_exit_code(&runs), 1);
}

#[test]
fn otel_contract_is_listed() {
    let contract = load(OTEL_CONTRACT).unwrap();
    let lines = contract_listing(&contract);
    assert!(lines.iter().any(|l| l.contains("otel: span \"read_sources\"")));
}

fn vault_with(totals: &[&str]) -> Result<String, String> {
    let lines: Vec<String> = totals
        .iter()
        .map(|t| {
            format!("{{\"resourceSpans\":[{{\"scopeSpans\":[{{\"spans\":[{{\"name\":\"read_sources\",\"attributes\":[{{\"key\":\"lines.total\",\"value\":{{\"intValue\":\"{t}\"}}}}]}}]}}]}}]}}")
        })
        .collect();
    Ok(lines.join("\n") + "\n")
}

#[test]
fn otel_verify_pass_issues_tegata() {
    let contract = load(OTEL_CONTRACT).unwrap();
    let d = declare_claim("tester", &["seika.md".to_string()], &contract, "report-honest", "できました").unwrap();
    let art_sha = "aaaa".to_string();
    let claim = as_event("e1", d, vec![art_sha.clone(), SHA.to_string()]);
    let stored = vec![Some((art_sha, "合計: 4106 行(13 ファイル)\n".to_string()))];
    let (v, lines, code) = verify(OTEL_CONTRACT, &claim, &[], &vault_with(&["4106"]), stored);
    assert_eq!(code, 0);
    assert!(lines[1].contains("手形"));
    assert_eq!(text_of(get(&v.body, "verdict")), Some("pass"));
    match get(&v.body, "checks") {
        Some(JsonValue::Array(c)) => {
            assert_eq!(text_of(get(&c[0], "kind")), Some("otel"));
            match get(&c[0], "spans_found") {
                Some(JsonValue::Number(n)) => assert_eq!(n, "1"),
                _ => panic!("no spans_found"),
            }
        }
        _ => panic!("no checks"),
    }
}

#[test]
fn otel_without_attrs_match_is_rejected_at_load() {
    let contract = r#"
schema = "monban/0"

[[seki]]
name = "o"
title = "在否のみ"

  [[seki.evidence]]
  kind = "otel"
  vault = "vault.jsonl"
  span = "s"
"#;
    assert!(load(contract).unwrap_err().contains("attrs_match"));
}

#[test]
fn otel_verify_fails_for_foreign_declare_without_artifacts() {
    let body = JsonValue::Object(vec![
        ("title".to_string(), JsonValue::Str("x".to_string())),
        ("seki".to_string(), JsonValue::Str("report-honest".to_string())),
    ]);
    let claim = ClaimEvent {
        id: "e1".to_string(),
        event_type: "claim.declare".to_string(),
        actor: "tester".to_string(),
        body,
        evidence: vec![SHA.to_string()],
    };
    let (v, _lines, code) = verify(OTEL_CONTRACT, &claim, &[], &vault_with(&["4106"]), vec![]);
    assert_eq!(code, 1);
    assert_eq!(text_of(get(&v.body, "verdict")), Some("fail"));
}

#[test]
fn declare_binds_artifact_and_contract_hash() {
    let contract = load(PASS_CONTRACT).unwrap();
    let d = declare_claim("tester", &["seika.md".to_string()], &contract, "tests-pass", "できました").unwrap();
    assert_eq!(d.event_type, "claim.declare");
    assert_eq!(d.actor, "tester");
    assert_eq!(text_of(get(&d.body, "seki")), Some("tests-pass"));
    assert_eq!(text_of(get(&d.body, "title")), Some("できました"));
    // The body carries the hash of the contract in force.
    assert_eq!(text_of(get(&d.body, "contract")), Some(SHA));
    match get(&d.body, "artifacts") {
        Some(JsonValue::Array(a)) => {
            assert_eq!(a.len(), 1);
            assert_eq!(text_of(a.first()), Some("seika.md"));
        }
        _ => panic!("no artifacts"),
    }
}

#[test]
fn gate_actor_cannot_declare() {
    let contract = load(PASS_CONTRACT).unwrap();
    match declare_claim("agent:monban", &["seika.md".to_string()], &contract, "tests-pass", "x") {
        Err(m) => assert!(m.contains("門番")),
        Ok(_) => panic!("monban declared"),
    }
}

const OTHER_SHA: &str = "2c26b46b68ffc68ff99b453c1d30413413422d706483bfa0f98a5e886266e7ae";

#[test]
fn contract_swap_after_declare_fails_verification() {
    let contract = load(FAIL_CONTRACT).unwrap();
    let d = declare_claim("tester", &["seika.md".to_string()], &contract, "tests-pass", "できました").unwrap();
    let claim = as_event("e1", d, vec![SHA.to_string(), SHA.to_string()]);
    // The contract is swapped for an easier one after the declaration.
    let (v, _lines, code) = verify_under(PASS_CONTRACT, OTHER_SHA, &claim, &[Some(0)], &Ok(String::new()), vec![]);
    assert_eq!(code, 1);
    assert_eq!(text_of(get(&v.body, "verdict")), Some("fail"));
    assert!(text_of(get(&v.body, "reason")).unwrap().contains("差し替わっている"));
    assert!(matches!(get(&v.body, "checks"), Some(JsonValue::Array(c)) if c.is_empty()));
}

/// A declaration of seki `seki` whose one artifact was stored with hash `art_sha`.
fn declared(contract_text: &str, seki: &str, art_sha: &str) -> ClaimEvent {
    let contract = load(contract_text).unwrap();
    let d = declare_claim("tester", &["seika.md".to_string()], &contract, seki, "できました").unwrap();
    as_event("e1", d, vec![art_sha.to_string(), SHA.to_string()])
}

fn stored(art_sha: &str, text: &str) -> Vec<Option<(String, String)>> {
    vec![Some((art_sha.to_string(), text.to_string()))]
}

#[test]
fn otel_verify_fails_when_report_disagrees_with_vault() {
    let claim = declared(OTEL_CONTRACT, "report-honest", "aaaa");
    let (v, _lines, code) = verify(OTEL_CONTRACT, &claim, &[], &vault_with(&["4106"]), stored("aaaa", "合計: 9999 行\n"));
    assert_eq!(code, 1);
    assert_eq!(text_of(get(&v.body, "verdict")), Some("fail"));
}

#[test]
fn otel_verify_fails_on_tampered_resend() {
    let claim = declared(OTEL_CONTRACT, "report-honest", "aaaa");
    let (v, _lines, code) =
        verify(OTEL_CONTRACT, &claim, &[], &vault_with(&["4106", "9999"]), stored("aaaa", "合計: 9999 行\n"));
    assert_eq!(code, 1);
    assert_eq!(text_of(get(&v.body, "verdict")), Some("fail"));
}

#[test]
fn otel_verify_fails_when_span_is_absent() {
    let claim = declared(OTEL_CONTRACT, "report-honest", "aaaa");
    let (_v, _lines, code) = verify(OTEL_CONTRACT, &claim, &[], &Ok(String::new()), stored("aaaa", "合計: 4106 行\n"));
    assert_eq!(code, 1);
}

#[test]
fn otel_matches_declared_copy_not_working_tree() {
    // Only the copy stored at declaration is read; the working tree may say anything.
    let claim = declared(OTEL_CONTRACT, "report-honest", "aaaa");
    let (v, _lines, code) = verify(OTEL_CONTRACT, &claim, &[], &vault_with(&["4106"]), stored("aaaa", "合計: 4106 行\n"));
    assert_eq!(code, 0);
    assert_eq!(text_of(get(&v.body, "verdict")), Some("pass"));
}

#[test]
fn otel_verify_fails_when_declared_copy_is_lost() {
    let claim = declared(OTEL_CONTRACT, "report-honest", "aaaa");
    let (v, _lines, code) = verify(OTEL_CONTRACT, &claim, &[], &vault_with(&["4106"]), vec![None]);
    assert_eq!(code, 1);
    assert_eq!(text_of(get(&v.body, "verdict")), Some("fail"));
    assert!(text_of(get(&v.body, "reason")).unwrap().contains("写し"));
    assert!(matches!(get(&v.body, "checks"), Some(JsonValue::Array(c)) if c.is_empty()));
}

#[test]
fn otel_and_toolchain_combine_as_and() {
    let contract = r#"
schema = "monban/0"

[[seki]]
name = "report-honest"
title = "裏付けがあり、かつ検査が通る"

  [[seki.evidence]]
  kind = "otel"
  vault = "vault.jsonl"
  span = "read_sources"
  attrs_match = ["lines.total"]

  [[seki.evidence]]
  kind = "toolchain"
  cmd = ["false"]
"#;
    let claim = declared(contract, "report-honest", "aaaa");
    let (v, _lines, code) = verify(contract, &claim, &[Some(1)], &vault_with(&["4106"]), stored("aaaa", "合計: 4106 行\n"));
    assert_eq!(code, 1, "otel が通っても toolchain が止める");
    match get(&v.body, "checks") {
        Some(JsonValue::Array(c)) => {
            assert_eq!(c.len(), 2);
            assert!(matches!(get(&c[0], "ok"), Some(JsonValue::Bool(true))));
            assert!(matches!(get(&c[1], "ok"), Some(JsonValue::Bool(false))));
        }
        _ => panic!("no checks"),
    }
}

#[test]
fn otel_verify_fails_when_declared_copy_is_corrupted() {
    // The copy in the store was overwritten; its hash no longer matches its name.
    let claim = declared(OTEL_CONTRACT, "report-honest", "aaaa");
    let (v, _lines, code) =
        verify(OTEL_CONTRACT, &claim, &[], &vault_with(&["4106"]), stored("bbbb", "合計: 4106 行(すり替え)\n"));
    assert_eq!(code, 1);
    assert_eq!(text_of(get(&v.body, "verdict")), Some("fail"));
    assert!(text_of(get(&v.body, "reason")).unwrap().contains("合わない"));
    assert!(matches!(get(&v.body, "checks"), Some(JsonValue::Array(c)) if c.is_empty()));
}

#[test]
fn otel_check_is_presence_only_and_writes_nothing() {
    let contract = load(OTEL_CONTRACT).unwrap();
    let vault = vault_with(&["only-in-vault-not-in-any-artifact"]);
    let mut runs = Vec::new();
    for n in &check_names(&contract, None) {
        runs.extend(run_checks(&contract, n, &[], &vault, None));
    }
    assert_eq!(check_exit_code(&runs), 0);
    let mut runs = Vec::new();
    for n in &check_names(&contract, None) {
        runs.extend(run_checks(&contract, n, &[], &Ok(String::new()), None));
    }
    assert_eq!(check_exit_code(&runs), 1);
}
