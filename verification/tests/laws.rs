//! The library's promises on concrete values: the laws proved in `src/`, the exact texts
//! each formula gives, every error variant, and what each trusted call hands back.

use monban::claim::{
    admit_claim, artifacts_to_run, check_copies, copies_to_check, check_declarant, check_line, contract_listing, contract_swapped,
    declare_claim, declare_report, judge, load_contract, precheck, resolve_path_exec,
    runs_for_verdict, spawn_failure, verdict_report, verify_draft, ClaimEvent, Run,
};
use monban::contract::Contract;
use monban::tomldoc::TomlValue;
use monban::gate::{run_toolchain, MAX_OUTPUT};
use monban::jsondoc::JsonValue;
use monban::mcp::{declare_reply, mcp_dispatch, respond, McpAction};
use monban::otel::{check_all, examine_otel, quote_match};
use monban::text::int_text_exec;
use monban::workspace::{config_from_table, declare_evidence, stored_evidence, workspace_config};
use monban::{MonbanError, GATE_ACTOR};

const SHA: &str = "9f86d081884c7d659a2feaa0c55ad015a3bf4f1b2b0b822cd15d6c15b0f00a08";
const OTHER_SHA: &str = "2c26b46b68ffc68ff99b453c1d30413413422d706483bfa0f98a5e886266e7ae";

const CONTRACT: &str = r#"
schema = "monban/0"

[[seki]]
name = "tests-pass"
title = "テストが通っている"

  [[seki.evidence]]
  kind = "toolchain"
  cmd = ["cargo", "test"]
"#;

fn load(text: &str) -> Result<Contract, String> {
    load_contract("/work", &Some(Ok(text.to_string())), SHA.to_string())
}

fn s(x: &str) -> String {
    x.to_string()
}

fn get<'a>(v: &'a JsonValue, key: &str) -> Option<&'a JsonValue> {
    match v {
        JsonValue::Object(m) => m.iter().find(|(k, _)| k == key).map(|(_, x)| x),
        _ => None,
    }
}

fn is_str(v: Option<&JsonValue>, x: &str) -> bool {
    matches!(v, Some(JsonValue::Str(t)) if t == x)
}

fn is_num(v: Option<&JsonValue>, x: &str) -> bool {
    matches!(v, Some(JsonValue::Number(t)) if t == x)
}

fn body(seki: &str, contract: &str) -> JsonValue {
    JsonValue::Object(vec![
        (s("title"), JsonValue::Str(s("できました"))),
        (s("seki"), JsonValue::Str(s(seki))),
        (s("artifacts"), JsonValue::Array(vec![JsonValue::Str(s("seika.md"))])),
        (s("contract"), JsonValue::Str(s(contract))),
    ])
}

fn claim(actor: &str, body: JsonValue) -> ClaimEvent {
    ClaimEvent {
        id: s("e1"),
        event_type: s("claim.declare"),
        actor: s(actor),
        body,
        evidence: vec![s(OTHER_SHA), s(SHA)],
    }
}

fn tool_run(exit: Option<i32>) -> Run {
    let cmd = vec![s("cargo"), s("test")];
    Run::Tool(run_toolchain(&cmd, 0, "/work", Ok((exit, String::new(), String::new()))).unwrap())
}

fn otlp(span: &str, total: &str) -> String {
    format!(
        "{{\"resourceSpans\":[{{\"scopeSpans\":[{{\"spans\":[{{\"name\":\"{span}\",\"attributes\":[{{\"key\":\"lines.total\",\"value\":{{\"intValue\":\"{total}\"}}}}]}}]}}]}}]}}"
    )
}

// --- laws -------------------------------------------------------------------------

#[test]
fn monban_never_declares() {
    let r = check_declarant(GATE_ACTOR, 3);
    assert_eq!(
        r.unwrap_err(),
        "門番(agent:monban)は宣言しない。宣言と改めの actor は必ず別である(三条二)"
    );
    let contract = load(CONTRACT).unwrap();
    assert!(declare_claim(GATE_ACTOR, &[s("seika.md")], &contract, "tests-pass", "x").is_err());
}

#[test]
fn no_evidence_no_claim() {
    assert_eq!(
        check_declarant("tester", 0).unwrap_err(),
        "宣言には成果物そのものの証拠が最低1件必要(三条一)"
    );
    assert!(check_declarant("tester", 1).is_ok());
}

#[test]
fn the_declarer_never_verifies_itself() {
    let c = claim(GATE_ACTOR, body("tests-pass", SHA));
    assert_eq!(
        admit_claim(&c).unwrap_err(),
        "この claim は門番自身(agent:monban)の宣言であり、門番は改められない(三条二)"
    );
    let contract = load(CONTRACT).unwrap();
    let v = verify_draft("e1", true, "tests-pass", &contract, &[], &None);
    assert_eq!(v.actor, GATE_ACTOR);
    assert_eq!(v.event_type, "claim.verify");
}

#[test]
fn admission_errors_name_the_claim() {
    let mut c = claim("tester", body("tests-pass", SHA));
    c.event_type = s("note");
    assert_eq!(admit_claim(&c).unwrap_err(), "e1 は claim.declare ではない(type=note)");
    let c = claim("tester", JsonValue::Object(vec![]));
    assert_eq!(
        admit_claim(&c).unwrap_err(),
        "e1 の body に seki が無い(monban の関を通る宣言ではない)"
    );
    let c = claim("tester", body("tests-pass", SHA));
    assert_eq!(admit_claim(&c).unwrap(), "tests-pass");
}

#[test]
fn a_swapped_contract_fails_the_claim() {
    let contract = load(CONTRACT).unwrap();
    let c = claim("tester", body("tests-pass", OTHER_SHA));
    assert!(contract_swapped(&c, &contract));
    let same = claim("tester", body("tests-pass", SHA));
    assert!(!contract_swapped(&same, &contract));
    let pre = precheck(true, &Ok(vec![]));
    assert_eq!(pre.as_deref(), Some("契約ファイル(monban.toml)が宣言時から差し替わっている"));
    // Even with every check passing, the claim fails.
    let (pass, reason) = judge(&pre, &[tool_run(Some(0))]);
    assert!(!pass);
    assert_eq!(reason, pre);
}

#[test]
fn a_lost_or_altered_copy_fails_the_claim() {
    let lost = vec![(s("seika.md"), s(SHA), None)];
    assert_eq!(
        check_copies(&lost).unwrap_err(),
        "宣言時の成果物の写しが蔵(objects/)に無い: seika.md"
    );
    let altered = vec![(s("seika.md"), s(SHA), Some((s(OTHER_SHA), s("本文"))))];
    assert_eq!(check_copies(&altered).unwrap_err(), "成果物の写しがハッシュと合わない: seika.md");
    let kept = vec![(s("seika.md"), s(SHA), Some((s(SHA), s("本文"))))];
    assert_eq!(check_copies(&kept).unwrap(), vec![(s("seika.md"), s("本文"))]);
    let pre = precheck(false, &Err(s("成果物の写しがハッシュと合わない: seika.md")));
    assert_eq!(pre.as_deref(), Some("成果物の写しがハッシュと合わない: seika.md"));
    assert_eq!(precheck(false, &Ok(vec![])), None);
}

#[test]
fn a_claim_passes_exactly_when_every_check_passes() {
    let (pass, reason) = judge(&None, &[tool_run(Some(0)), tool_run(Some(0))]);
    assert!(pass);
    assert_eq!(reason, None);
    let (pass, reason) = judge(&None, &[tool_run(Some(0)), tool_run(Some(2)), tool_run(None)]);
    assert!(!pass);
    assert_eq!(
        reason.as_deref(),
        Some("検査失敗: cargo test (exit 2) / cargo test (exit signal)")
    );
}

#[test]
fn a_pass_needs_the_named_span() {
    let v = Ok(otlp("other", "4106") + "\n");
    let arts = vec![(s("report.md"), s("4106"))];
    let run = examine_otel("v.jsonl", &v, "read_sources", &[s("lines.total")], Some(&arts));
    assert!(!run.ok);
    assert_eq!(run.spans_found, 0);
}

#[test]
fn a_match_implies_the_dry_run_passes() {
    let v = Ok(otlp("read_sources", "4106") + "\n");
    let arts = vec![(s("report.md"), s("合計: 4106 行\n"))];
    let full = examine_otel("v.jsonl", &v, "read_sources", &[s("lines.total")], Some(&arts));
    let dry = examine_otel("v.jsonl", &v, "read_sources", &[s("lines.total")], None);
    assert!(full.ok);
    assert!(dry.ok);
    assert_eq!(dry.spans_found, 1);
}

#[test]
fn appending_to_the_vault_never_rescues_a_failure() {
    let arts = vec![(s("report.md"), s("合計: 4106 行\n"))];
    let bad = otlp("read_sources", "9999") + "\n";
    let good = otlp("read_sources", "4106") + "\n";
    let before = examine_otel("v.jsonl", &Ok(bad.clone()), "read_sources", &[s("lines.total")], Some(&arts));
    let after = examine_otel("v.jsonl", &Ok(bad + &good), "read_sources", &[s("lines.total")], Some(&arts));
    assert!(!before.ok);
    assert!(!after.ok);
    assert_eq!(after.spans_found, 2);
}

#[test]
fn mcp_declares_only_for_agents() {
    let line = "{\"jsonrpc\":\"2.0\",\"id\":1,\"method\":\"tools/call\",\"params\":{\"name\":\"monban.declare\",\"arguments\":{\"seki\":\"a\",\"title\":\"b\",\"evidence\":[\"x\"],\"actor\":\"tester\"}}}";
    match mcp_dispatch(line, "0.3.0") {
        McpAction::Reply(r) => {
            let res = get(&r, "result").unwrap();
            assert!(matches!(get(res, "isError"), Some(JsonValue::Bool(true))));
        }
        _ => panic!("a non-agent was let through"),
    }
    let line = line.replace("\"tester\"", "\"agent:kohai\"");
    match mcp_dispatch(&line, "0.3.0") {
        McpAction::Declare { args, .. } => {
            assert_eq!(args.actor, "agent:kohai");
            assert_eq!(args.evidence, vec![s("x")]);
        }
        _ => panic!("an agent's declaration was not passed on"),
    }
}

// --- exact texts ---------------------------------------------------------------------

#[test]
fn toolchain_transcript_is_exact() {
    let cmd = vec![s("cargo"), s("test")];
    let run = run_toolchain(&cmd, 0, "/work", Ok((Some(101), s("out\n"), s("err\n")))).unwrap();
    assert!(!run.ok);
    assert_eq!(run.exit, Some(101));
    assert_eq!(run.cmd, cmd);
    assert_eq!(run.transcript, "$ cargo test\n(exit: 101, expect: 0, cwd: /work)\n---\nout\nerr\n");
    let run = run_toolchain(&cmd, -1, "/work", Ok((None, String::new(), String::new()))).unwrap();
    assert_eq!(run.transcript, "$ cargo test\n(exit: signal, expect: -1, cwd: /work)\n---\n");
}

#[test]
fn long_output_is_cut_at_the_limit() {
    let cmd = vec![s("yes")];
    let out = "y".repeat(MAX_OUTPUT + 5);
    let run = run_toolchain(&cmd, 0, "/w", Ok((Some(0), out, String::new()))).unwrap();
    let head = "$ yes\n(exit: 0, expect: 0, cwd: /w)\n---\n";
    let expected = format!("{head}{}\n…(出力が長いため打ち切り)\n", "y".repeat(MAX_OUTPUT));
    assert_eq!(run.transcript, expected);
    // A multi-byte character straddling the limit is not split.
    let out = format!("{}あ", "y".repeat(MAX_OUTPUT - 1));
    let run = run_toolchain(&cmd, 0, "/w", Ok((Some(0), out, String::new()))).unwrap();
    let expected = format!("{head}{}\n…(出力が長いため打ち切り)\n", "y".repeat(MAX_OUTPUT - 1));
    assert_eq!(run.transcript, expected);
}

#[test]
fn otel_transcript_is_exact() {
    let v = Ok(otlp("read_sources", "4106") + "\n");
    let arts = vec![(s("report.md"), s("合計: 4106 行\n"))];
    let run = examine_otel("vault.jsonl", &v, "read_sources", &[s("lines.total")], Some(&arts));
    assert_eq!(
        run.transcript,
        "otel 検分: 蔵 vault.jsonl / span \"read_sources\"\nspan \"read_sources\": 1 本\n✓ span[0] lines.total = \"4106\" — 成果物 report.md に一致: 「合計: 4106 行」\n"
    );
    assert_eq!(run.vault, "vault.jsonl");
    assert_eq!(run.span, "read_sources");
}

#[test]
fn a_long_quoted_line_is_cut_around_the_match() {
    let line = format!("{}4106{}", "a".repeat(100), "b".repeat(100));
    let text: Vec<char> = format!("head\n  {line}  \ntail\n").chars().collect();
    let value: Vec<char> = "4106".chars().collect();
    let q: String = quote_match(&text, &value).into_iter().collect();
    let expected = format!("…{}…", &line[60..180]);
    assert_eq!(q, expected);
    let short: Vec<char> = " x 4106 y \n".chars().collect();
    let q: String = quote_match(&short, &value).into_iter().collect();
    assert_eq!(q, "x 4106 y");
}

#[test]
fn check_and_label_lines_are_exact() {
    assert_eq!(check_line("tests-pass", &tool_run(Some(0))), "✓ 関 tests-pass: cargo test (exit 0)");
    assert_eq!(check_line("tests-pass", &tool_run(None)), "✗ 関 tests-pass: cargo test (exit signal)");
    let v = Ok(otlp("s", "1") + "\n");
    let run = Run::Otel(examine_otel("/w/v.jsonl", &v, "s", &[], None));
    assert_eq!(check_line("o", &run), "✓ 関 o: otel span \"s\"(蔵 /w/v.jsonl)");
}

#[test]
fn contract_listing_is_exact() {
    let contract = load(CONTRACT).unwrap();
    assert_eq!(
        contract_listing(&contract),
        vec![
            s("契約 monban.toml(sha256 9f86d081884c)"),
            s("関 tests-pass — テストが通っている(証拠要件 1 件)"),
            s("  toolchain: cargo test (expect exit 0)"),
        ]
    );
}

#[test]
fn reports_are_exact() {
    assert_eq!(
        declare_report(7, "abc"),
        vec![s("✓ 記録 seq=7 type=claim.declare id=abc"), s("改めは門番の仕事: `monban verify abc`")]
    );
    let (lines, code) = verdict_report(8, "def", true, "tests-pass", &None);
    assert_eq!(code, 0);
    assert_eq!(
        lines,
        vec![s("✓ 記録 seq=8 type=claim.verify id=def"), s("手形 — 関 tests-pass を通過(verified by agent:monban)")]
    );
    let (lines, code) = verdict_report(9, "ghi", false, "tests-pass", &Some(s("検査失敗: x")));
    assert_eq!(code, 1);
    assert_eq!(lines[1], "止まる — 関 tests-pass は通れない: 検査失敗: x");
}

#[test]
fn mcp_reply_to_a_declaration_is_exact() {
    let id = Some(JsonValue::Number(s("3")));
    let r = declare_reply(&id, &Ok((5, s("abc"))));
    let res = get(&r, "result").unwrap();
    match get(res, "content") {
        Some(JsonValue::Array(c)) => assert!(is_str(
            get(&c[0], "text"),
            "✓ 記録 seq=5 type=claim.declare id=abc\n改めは門番の仕事であり、この口からは呼べない。主人に ID を報せよ。"
        )),
        _ => panic!("no content"),
    }
    assert!(is_num(get(&r, "id"), "3"));
}

#[test]
fn workspace_settings_follow_banto() {
    let c = workspace_config("", None, Some("hanako")).unwrap();
    assert_eq!(c.actor, "hanako");
    assert_eq!(c.ledger_rel, "ledger/ledger.jsonl");
    assert_eq!(c.objects_rel, "ledger/objects");
    let c = workspace_config("actor = \"taro\"\n[paths]\nledger = \"l.jsonl\"\n", None, Some("hanako")).unwrap();
    assert_eq!(c.actor, "taro");
    assert_eq!(c.ledger_rel, "l.jsonl");
    assert_eq!(c.objects_rel, "ledger/objects");
    let c = workspace_config("actor = \"taro\"\n", Some("jiro"), None).unwrap();
    assert_eq!(c.actor, "jiro");
    assert_eq!(workspace_config("", None, Some("")).unwrap().actor, "unknown");
    assert_eq!(workspace_config("", None, None).unwrap().actor, "unknown");
    let e = match workspace_config("actor = ", None, None) {
        Err(e) => e,
        Ok(_) => panic!("bad TOML was accepted"),
    };
    assert!(e.starts_with("banto.toml の解析に失敗: "));
    assert!(e.len() > "banto.toml の解析に失敗: ".len());
}

#[test]
fn stored_evidence_points_into_the_store() {
    let e = stored_evidence("ledger/objects//", SHA, "text/plain", 12);
    assert_eq!(e.uri, format!("ledger/objects/{SHA}"));
    assert_eq!(e.sha256, SHA);
    assert_eq!(e.media_type, "text/plain");
    assert_eq!(e.bytes, 12);
}

#[test]
fn paths_resolve_against_the_root() {
    assert_eq!(resolve_path_exec("/work", "vault.jsonl"), "/work/vault.jsonl");
    assert_eq!(resolve_path_exec("/work/", "v.jsonl"), "/work/v.jsonl");
    assert_eq!(resolve_path_exec("/work", "/var/v.jsonl"), "/var/v.jsonl");
}

#[test]
fn integers_are_written_in_decimal() {
    assert_eq!(int_text_exec(0), "0");
    assert_eq!(int_text_exec(-42), "-42");
    assert_eq!(int_text_exec(i64::MIN), "-9223372036854775808");
}

// --- error variants ----------------------------------------------------------------

#[test]
fn every_error_variant_has_its_words() {
    let io = run_toolchain(&[s("nope")], 0, "/w", Err(s("No such file or directory (os error 2)")));
    let io = io.unwrap_err();
    assert!(matches!(io, MonbanError::Io(_)));
    assert_eq!(io.message(), "契約を読めない: No such file or directory (os error 2)");
    assert_eq!(
        spawn_failure(&[s("nope"), s("-x")], &io),
        "実行できない: nope -x: 契約を読めない: No such file or directory (os error 2)"
    );

    match Contract::load("schema = ", s(SHA)) {
        Err(MonbanError::Parse(m)) => assert!(!m.is_empty() && m != "schema = "),
        _ => panic!("bad TOML was not a parse error"),
    }
    match Contract::load("schema = \"monban/9\"\n", s(SHA)) {
        Err(e @ MonbanError::Invalid(_)) => assert_eq!(
            e.message(),
            "契約違反: schema は \"monban/0\" でなければならない(実際: \"monban/9\")"
        ),
        _ => panic!("a wrong schema was accepted"),
    }
    let contract = load(CONTRACT).unwrap();
    match contract.find_seki("nai") {
        Err(e @ MonbanError::SekiNotFound(_)) => assert_eq!(e.message(), "関が見つからない: nai"),
        _ => panic!("a missing seki was found"),
    }
    assert_eq!(
        load_contract("/work", &None, s(SHA)).unwrap_err(),
        "monban.toml が見つからない: /work(契約より先にコードは動かない)"
    );
    assert_eq!(
        load_contract("/work", &Some(Err(s("denied"))), s(SHA)).unwrap_err(),
        "契約を読めない: denied"
    );
}

#[test]
fn unreadable_mcp_lines_are_ignored() {
    assert!(matches!(mcp_dispatch("not json", "0.3.0"), McpAction::Ignore));
    assert!(matches!(mcp_dispatch("   ", "0.3.0"), McpAction::Ignore));
    match mcp_dispatch("{\"jsonrpc\":\"2.0\",\"id\":\"p\",\"method\":\"ping\"}", "0.3.0") {
        McpAction::Reply(r) => {
            assert!(is_str(get(&r, "id"), "p"));
            assert!(matches!(get(&r, "result"), Some(JsonValue::Object(m)) if m.is_empty()));
        }
        _ => panic!("ping was not answered"),
    }
    match mcp_dispatch("{\"jsonrpc\":\"2.0\",\"id\":2,\"method\":\"tools/verify\"}", "0.3.0") {
        McpAction::Reply(r) => match get(&r, "error") {
            Some(e) => {
                assert!(is_num(get(e, "code"), "-32601"));
                assert!(is_str(get(e, "message"), "method not found: tools/verify"));
            }
            None => panic!("no error"),
        },
        _ => panic!("an unknown method was not refused"),
    }
}

// --- parsed-value entry points ---------------------------------------------------

fn t(k: &str, v: TomlValue) -> (String, TomlValue) {
    (s(k), v)
}

#[test]
fn a_parse_error_is_reported_with_the_parsers_message() {
    let raw = "schema = ";
    let parse = match Contract::load(raw, s(SHA)) {
        Err(MonbanError::Parse(m)) => m,
        _ => panic!("bad TOML was not a parse error"),
    };
    assert_eq!(load(raw).unwrap_err(), format!("契約の解析に失敗: {parse}"));
    match workspace_config(raw, None, None) {
        Err(e) => assert_eq!(e, format!("banto.toml の解析に失敗: {parse}")),
        Ok(_) => panic!("bad TOML was accepted"),
    }
}

#[test]
fn a_contract_is_read_from_a_parsed_table() {
    let doc = TomlValue::Table(vec![
        t("schema", TomlValue::Str(s("monban/0"))),
        t(
            "seki",
            TomlValue::Array(vec![TomlValue::Table(vec![
                t("name", TomlValue::Str(s("tests-pass"))),
                t("title", TomlValue::Str(s("テストが通っている"))),
                t(
                    "evidence",
                    TomlValue::Array(vec![TomlValue::Table(vec![
                        t("kind", TomlValue::Str(s("toolchain"))),
                        t("cmd", TomlValue::Array(vec![TomlValue::Str(s("cargo")), TomlValue::Str(s("test"))])),
                    ])]),
                ),
            ])]),
        ),
    ]);
    let c = Contract::from_table(&doc, s(SHA)).unwrap();
    assert_eq!(c.sha256, SHA);
    assert_eq!(c.seki.len(), 1);
    assert_eq!(c.seki[0].name, "tests-pass");
    let no_seki = TomlValue::Table(vec![t("schema", TomlValue::Str(s("monban/0")))]);
    match Contract::from_table(&no_seki, s(SHA)) {
        Err(e) => assert_eq!(e.message(), "契約違反: [[seki]] が1つも無い"),
        Ok(_) => panic!("a contract without seki was accepted"),
    }
}

#[test]
fn settings_are_read_from_a_parsed_table() {
    let doc = TomlValue::Table(vec![
        t("actor", TomlValue::Str(s("taro"))),
        t("paths", TomlValue::Table(vec![t("objects", TomlValue::Str(s("o")))])),
    ]);
    let c = config_from_table(&doc, None, Some("hanako"));
    assert_eq!(c.actor, "taro");
    assert_eq!(c.ledger_rel, "ledger/ledger.jsonl");
    assert_eq!(c.objects_rel, "o");
}

#[test]
fn a_parsed_message_is_answered() {
    let msg = JsonValue::Object(vec![
        (s("jsonrpc"), JsonValue::Str(s("2.0"))),
        (s("id"), JsonValue::Number(s("7"))),
        (s("method"), JsonValue::Str(s("ping"))),
    ]);
    match respond(&msg, "0.3.0") {
        McpAction::Reply(r) => {
            assert!(is_num(get(&r, "id"), "7"));
            assert!(matches!(get(&r, "result"), Some(JsonValue::Object(m)) if m.is_empty()));
        }
        _ => panic!("ping was not answered"),
    }
    let note = JsonValue::Object(vec![(s("method"), JsonValue::Str(s("notifications/initialized")))]);
    assert!(matches!(respond(&note, "0.3.0"), McpAction::Ignore));
}

#[test]
fn spans_are_matched_against_artifacts() {
    let spans = vec![vec![(s("lines.total"), Some(s("4106")))], vec![(s("lines.total"), None)]];
    let arts = vec![(s("report.md"), s("合計: 4106 行\n"))];
    let (lines, ok) = check_all(&spans, &[s("lines.total")], &arts);
    assert!(!ok);
    assert_eq!(
        lines,
        "✓ span[0] lines.total = \"4106\" — 成果物 report.md に一致: 「合計: 4106 行」\n✗ span[1] lines.total: 属性値が非スカラー(v0.3 はスカラーのみ)\n"
    );
    let (_, ok) = check_all(&spans[..1].to_vec(), &[s("lines.total")], &arts);
    assert!(ok);
}

#[test]
fn more_artifacts_or_fewer_attributes_keep_a_pass() {
    let line = "{\"resourceSpans\":[{\"scopeSpans\":[{\"spans\":[{\"name\":\"s\",\"attributes\":[{\"key\":\"a\",\"value\":{\"intValue\":\"1\"}},{\"key\":\"b\",\"value\":{\"stringValue\":\"x\"}}]}]}]}]}\n";
    let v = Ok(s(line));
    let arts = vec![(s("r.md"), s("1 x"))];
    assert!(examine_otel("v", &v, "s", &[s("a"), s("b")], Some(&arts)).ok);
    let more = vec![(s("r.md"), s("1 x")), (s("other.md"), s("nothing"))];
    assert!(examine_otel("v", &v, "s", &[s("b")], Some(&more)).ok);
    assert!(examine_otel("v", &v, "s", &[], Some(&more)).ok);
}

#[test]
fn an_unparsable_vault_line_is_reported_with_the_parsers_message() {
    let v = Ok(s("{\n"));
    let run = examine_otel("v", &v, "s", &[], None);
    assert!(!run.ok);
    assert!(run.transcript.starts_with("otel 検分: 蔵 v / span \"s\"\n✗ 蔵の行 1 を解析できない: "));
    assert!(run.transcript.ends_with("\n"));
    assert!(run.transcript.len() > "otel 検分: 蔵 v / span \"s\"\n✗ 蔵の行 1 を解析できない: \n".len());
}

// --- what a verification runs and records ------------------------------------------

#[test]
fn a_failed_precheck_runs_and_records_nothing() {
    let pre = Some(s("契約ファイル(monban.toml)が宣言時から差し替わっている"));
    assert!(artifacts_to_run(&pre, &Ok(vec![(s("a"), s("b"))])).is_none());
    assert!(runs_for_verdict(&pre, vec![tool_run(Some(0))]).is_empty());
    let contract = load(CONTRACT).unwrap();
    let (pass, reason) = judge(&pre, &[]);
    let v = verify_draft("e1", pass, "tests-pass", &contract, &[], &reason);
    assert!(is_str(get(&v.body, "verdict"), "fail"));
    assert!(matches!(get(&v.body, "checks"), Some(JsonValue::Array(c)) if c.is_empty()));
    assert!(is_str(get(&v.body, "reason"), "契約ファイル(monban.toml)が宣言時から差し替わっている"));
    let ok = artifacts_to_run(&None, &Ok(vec![(s("a"), s("b"))])).unwrap();
    assert_eq!(ok, vec![(s("a"), s("b"))]);
    assert_eq!(runs_for_verdict(&None, vec![tool_run(Some(0)), tool_run(None)]).len(), 2);
}

#[test]
fn declared_copies_line_up_with_their_labels() {
    const OTEL: &str = "schema = \"monban/0\"\n[[seki]]\nname = \"r\"\ntitle = \"t\"\n[[seki.evidence]]\nkind = \"otel\"\nvault = \"v\"\nspan = \"s\"\nattrs_match = [\"a\"]\n";
    let contract = load(OTEL).unwrap();
    let labels = vec![s("one.md"), s("two.md")];
    let d = declare_claim("tester", &labels, &contract, "r", "x").unwrap();
    let copies = vec![
        stored_evidence("ledger/objects", "h1", "text/plain", 1),
        stored_evidence("ledger/objects", "h2", "text/plain", 2),
    ];
    let ev = declare_evidence(copies, stored_evidence("ledger/objects", SHA, "application/toml", 3));
    let hashes: Vec<String> = ev.iter().map(|e| e.sha256.clone()).collect();
    assert_eq!(hashes, vec![s("h1"), s("h2"), s(SHA)]);
    let c = ClaimEvent { id: s("e1"), event_type: d.event_type, actor: d.actor, body: d.body, evidence: hashes };
    assert_eq!(copies_to_check(&c, &contract, "r"), vec![(s("one.md"), s("h1")), (s("two.md"), s("h2"))]);
}
