//! The OTel examination, rule by rule: each rule of the vault examination is kept by machine.

use monban::otel::{examine_otel, OtelRun};

/// A vault file's text: the lines, each ended by a line feed.
fn vault(lines: &[String]) -> Result<String, String> {
    Ok(lines.join("\n") + "\n")
}

/// One OTLP/JSON line (an ExportTraceServiceRequest); each value is an OTLP AnyValue in JSON.
fn otlp_line(span: &str, attrs: &[(&str, &str)]) -> String {
    let attributes: Vec<String> = attrs
        .iter()
        .map(|(k, v)| format!("{{\"key\":\"{k}\",\"value\":{v}}}"))
        .collect();
    format!(
        "{{\"resourceSpans\":[{{\"resource\":{{\"attributes\":[]}},\"scopeSpans\":[{{\"scope\":{{\"name\":\"test\"}},\"spans\":[{{\"name\":\"{span}\",\"attributes\":[{}]}}]}}]}}]}}",
        attributes.join(",")
    )
}

fn art(text: &str) -> Vec<(String, String)> {
    vec![("report.md".to_string(), text.to_string())]
}

fn examine(
    v: &Result<String, String>,
    span: &str,
    attrs: &[String],
    artifacts: Option<&[(String, String)]>,
) -> OtelRun {
    examine_otel("vault.jsonl", v, span, attrs, artifacts)
}

#[test]
fn honest_span_matches_artifact() {
    let v = vault(&[otlp_line("read_sources", &[("lines.total", "{\"intValue\":\"4106\"}")])]);
    let attrs = vec!["lines.total".to_string()];
    let run = examine(&v, "read_sources", &attrs, Some(&art("合計: 4106 行\n")));
    assert!(run.ok, "{}", run.transcript);
    assert_eq!(run.spans_found, 1);
}

#[test]
fn absent_span_does_not_pass() {
    let v = vault(&[otlp_line("other", &[])]);
    let run = examine(&v, "read_sources", &[], Some(&art("x")));
    assert!(!run.ok);
    assert_eq!(run.spans_found, 0);
}

#[test]
fn missing_vault_does_not_pass() {
    let v: Result<String, String> = Err("No such file or directory (os error 2)".to_string());
    let run = examine(&v, "s", &[], Some(&art("x")));
    assert!(!run.ok);
    assert!(run.transcript.contains("蔵を読めない"));
}

#[test]
fn malformed_vault_line_does_not_pass() {
    let v = vault(&["not json {".to_string()]);
    let run = examine(&v, "s", &[], Some(&art("x")));
    assert!(!run.ok);
    assert!(run.transcript.contains("解析できない"));
}

#[test]
fn value_absent_from_artifact_does_not_pass() {
    let v = vault(&[otlp_line("read_sources", &[("lines.total", "{\"intValue\":\"5000\"}")])]);
    let attrs = vec!["lines.total".to_string()];
    let run = examine(&v, "read_sources", &attrs, Some(&art("合計: 4106 行\n")));
    assert!(!run.ok);
    assert!(run.transcript.contains("5000"));
}

/// A tampered resend is appended and the contradicting second span blocks the way.
#[test]
fn tampered_resend_blocks_its_own_path() {
    let honest = otlp_line("read_sources", &[("lines.total", "{\"intValue\":\"4106\"}")]);
    let tampered = otlp_line("read_sources", &[("lines.total", "{\"intValue\":\"9999\"}")]);
    let v = vault(&[honest, tampered]);
    let attrs = vec!["lines.total".to_string()];
    for report in ["合計: 4106 行", "合計: 9999 行"] {
        let run = examine(&v, "read_sources", &attrs, Some(&art(report)));
        assert!(!run.ok, "成果物 {report}: {}", run.transcript);
        assert_eq!(run.spans_found, 2);
    }
}

#[test]
fn attr_missing_on_a_span_does_not_pass() {
    let v = vault(&[otlp_line("s", &[("other", "{\"stringValue\":\"x\"}")])]);
    let attrs = vec!["lines.total".to_string()];
    let run = examine(&v, "s", &attrs, Some(&art("x")));
    assert!(!run.ok);
    assert!(run.transcript.contains("属性が無い"));
}

#[test]
fn empty_value_does_not_pass() {
    let v = vault(&[otlp_line("s", &[("a", "{\"stringValue\":\"\"}")])]);
    let attrs = vec!["a".to_string()];
    let run = examine(&v, "s", &attrs, Some(&art("anything")));
    assert!(!run.ok);
    assert!(run.transcript.contains("空"));
}

#[test]
fn non_scalar_value_does_not_pass() {
    let v = vault(&[otlp_line("s", &[("a", "{\"arrayValue\":{\"values\":[]}}")])]);
    let attrs = vec!["a".to_string()];
    let run = examine(&v, "s", &attrs, Some(&art("anything")));
    assert!(!run.ok);
    assert!(run.transcript.contains("非スカラー"));
}

#[test]
fn scalar_canonicalization_is_lenient_about_json_encoding() {
    let v = vault(&[otlp_line(
        "s",
        &[
            ("i", "{\"intValue\":13}"),
            ("d", "{\"doubleValue\":1.5}"),
            ("b", "{\"boolValue\":true}"),
        ],
    )]);
    let attrs = vec!["i".to_string(), "d".to_string(), "b".to_string()];
    let run = examine(&v, "s", &attrs, Some(&art("13 件、1.5 秒、true\n")));
    assert!(run.ok, "{}", run.transcript);
}

#[test]
fn no_attrs_match_means_presence_only() {
    let v = vault(&[otlp_line("s", &[])]);
    let run = examine(&v, "s", &[], Some(&art("x")));
    assert!(run.ok);
}

#[test]
fn dry_run_checks_presence_and_defers_matching() {
    let v = vault(&[otlp_line("s", &[("a", "{\"stringValue\":\"not-in-any-artifact\"}")])]);
    let attrs = vec!["a".to_string()];
    let run = examine(&v, "s", &attrs, None);
    assert!(run.ok, "{}", run.transcript);
    assert!(run.transcript.contains("予行"));
}

#[test]
fn spans_are_found_across_lines_and_resource_groups() {
    let two_groups = "{\"resourceSpans\":[{\"scopeSpans\":[{\"spans\":[{\"name\":\"s\",\"attributes\":[{\"key\":\"a\",\"value\":{\"stringValue\":\"v1\"}}]}]}]},{\"scopeSpans\":[{\"spans\":[{\"name\":\"s\",\"attributes\":[{\"key\":\"a\",\"value\":{\"stringValue\":\"v2\"}}]}]}]}]}".to_string();
    let v = vault(&[two_groups, otlp_line("s", &[("a", "{\"stringValue\":\"v3\"}")])]);
    let attrs = vec!["a".to_string()];
    let run = examine(&v, "s", &attrs, Some(&art("v1 v2 v3")));
    assert!(run.ok, "{}", run.transcript);
    assert_eq!(run.spans_found, 3);
}
