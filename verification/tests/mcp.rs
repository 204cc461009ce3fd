//! The agents' entrance: one tool, `monban.declare`; the actor must be an agent; there is no
//! entrance for verifying.

use monban::claim::{declare_claim, load_contract};
use monban::jsondoc::JsonValue;
use monban::mcp::{declare_reply, mcp_dispatch, McpAction};

const CONTRACT: &str = "schema = \"monban/0\"\n\n[[seki]]\nname = \"tests-pass\"\ntitle = \"テスト\"\n\n  [[seki.evidence]]\n  kind = \"toolchain\"\n  cmd = [\"true\"]\n";

fn get<'a>(v: &'a JsonValue, key: &str) -> Option<&'a JsonValue> {
    match v {
        JsonValue::Object(m) => m.iter().find(|(k, _)| k == key).map(|(_, x)| x),
        _ => None,
    }
}

fn init() -> String {
    "{\"jsonrpc\":\"2.0\",\"id\":0,\"method\":\"initialize\",\"params\":{\"protocolVersion\":\"2025-06-18\",\"capabilities\":{},\"clientInfo\":{\"name\":\"test\",\"version\":\"0\"}}}".to_string()
}

fn call(id: u64, name: &str, args: &str) -> String {
    format!("{{\"jsonrpc\":\"2.0\",\"id\":{id},\"method\":\"tools/call\",\"params\":{{\"name\":\"{name}\",\"arguments\":{args}}}}}")
}

/// Answers a session as the server does: replies as they are, declarations made against
/// the contract (the ledger gives the event sequence 1 and id `e1`).
fn session(lines: &[String]) -> (Vec<JsonValue>, Vec<String>) {
    let contract = load_contract("/work", &Some(Ok(CONTRACT.to_string())), "ab".repeat(32)).unwrap();
    let mut out = Vec::new();
    let mut actors = Vec::new();
    for l in lines {
        match mcp_dispatch(l, "0.3.0") {
            McpAction::Ignore => {}
            McpAction::Reply(r) => out.push(r),
            McpAction::Declare { id, args } => {
                let outcome = declare_claim(&args.actor, &args.evidence, &contract, &args.seki, &args.title)
                    .map(|d| {
                        actors.push(d.actor.clone());
                        (1u64, "e1".to_string())
                    });
                out.push(declare_reply(&id, &outcome));
            }
        }
    }
    (out, actors)
}

fn result_text(r: &JsonValue) -> (bool, String) {
    let result = get(r, "result").unwrap();
    let is_error = matches!(get(result, "isError"), Some(JsonValue::Bool(true)));
    let text = match get(result, "content") {
        Some(JsonValue::Array(a)) => match get(&a[0], "text") {
            Some(JsonValue::Str(s)) => s.clone(),
            _ => String::new(),
        },
        _ => String::new(),
    };
    (is_error, text)
}

#[test]
fn lists_exactly_one_tool() {
    let (res, _) = session(&[init(), "{\"jsonrpc\":\"2.0\",\"id\":1,\"method\":\"tools/list\"}".to_string()]);
    let tools = get(get(&res[1], "result").unwrap(), "tools").unwrap();
    match tools {
        JsonValue::Array(a) => {
            assert_eq!(a.len(), 1, "道具は一つだけ");
            assert!(matches!(get(&a[0], "name"), Some(JsonValue::Str(s)) if s == "monban.declare"));
        }
        _ => panic!("tools is not an array"),
    }
}

#[test]
fn declare_via_mcp_appends_claim() {
    let (res, actors) = session(&[
        init(),
        call(1, "monban.declare", "{\"seki\":\"tests-pass\",\"title\":\"テストが通りました\",\"evidence\":[\"seika.md\"],\"actor\":\"agent:kohai\"}"),
    ]);
    let (is_error, text) = result_text(&res[1]);
    assert!(!is_error, "{text}");
    assert!(text.contains("id="));
    assert_eq!(actors, vec!["agent:kohai".to_string()]);
}

#[test]
fn declare_without_evidence_stops() {
    let (res, actors) = session(&[
        init(),
        call(1, "monban.declare", "{\"seki\":\"tests-pass\",\"title\":\"できました\",\"evidence\":[],\"actor\":\"agent:kohai\"}"),
    ]);
    let (is_error, text) = result_text(&res[1]);
    assert!(is_error);
    assert!(text.contains("止まる"));
    assert!(actors.is_empty(), "拒否された宣言は台帳に残らない");
}

#[test]
fn non_agent_actor_is_refused() {
    let (res, actors) = session(&[
        init(),
        call(1, "monban.declare", "{\"seki\":\"tests-pass\",\"title\":\"x\",\"evidence\":[\"seika.md\"],\"actor\":\"keisuke\"}"),
    ]);
    assert!(result_text(&res[1]).0);
    assert!(actors.is_empty());
}

#[test]
fn gate_actor_is_refused() {
    let (res, actors) = session(&[
        init(),
        call(1, "monban.declare", "{\"seki\":\"tests-pass\",\"title\":\"x\",\"evidence\":[\"seika.md\"],\"actor\":\"agent:monban\"}"),
    ]);
    assert!(result_text(&res[1]).0);
    assert!(actors.is_empty());
}

#[test]
fn non_string_evidence_element_is_refused() {
    let (res, actors) = session(&[
        init(),
        call(1, "monban.declare", "{\"seki\":\"tests-pass\",\"title\":\"x\",\"evidence\":[\"seika.md\",42],\"actor\":\"agent:kohai\"}"),
    ]);
    let (is_error, text) = result_text(&res[1]);
    assert!(is_error);
    assert!(text.contains("文字列ではない"));
    assert!(actors.is_empty());
}

#[test]
fn there_is_no_verify_tool() {
    let (res, actors) = session(&[init(), call(1, "monban.verify", "{\"claim\":\"x\"}")]);
    assert!(get(&res[1], "error").is_some(), "改めの口は存在しない");
    assert!(actors.is_empty());
}
