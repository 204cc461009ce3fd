//! The agents' entrance: MCP over stdio, newline-delimited JSON-RPC 2.0.
//! Its one tool is `monban.declare`. There is no tool for verifying, in this version or any
//! later one: an agent is never handed monban's seal.
//! Reading and writing the stream, and the declaration itself, are the caller's work; what
//! each message is answered is decided here.

use crate::claim::json_strs;
use crate::contract::strings;
use crate::jsondoc::{
    elems_view, jarray, jclone, jget, jget_exec, jobject, jstr, jstr_exec, jtext, json_document, members_view,
    parse_json, JsonValue, JsonView,
};
use crate::text::{all_white, int_text, join2, join3, owned, starts_with, str_eq};
use vstd::prelude::*;

verus! {

/// The one tool of this entrance.
pub const TOOL_DECLARE: &'static str = "monban.declare";

/// The protocol version answered when the client asks for none.
pub const PROTOCOL_VERSION: &'static str = "2025-06-18";

/// The arguments of a `monban.declare` call.
pub struct DeclareArgs {
    pub seki: String,
    pub title: String,
    pub actor: String,
    pub evidence: Vec<String>,
}

/// The arguments as values.
pub struct DeclareArgsSpec {
    pub seki: Seq<char>,
    pub title: Seq<char>,
    pub actor: Seq<char>,
    pub evidence: Seq<Seq<char>>,
}

impl View for DeclareArgs {
    type V = DeclareArgsSpec;

    open spec fn view(&self) -> DeclareArgsSpec {
        DeclareArgsSpec {
            seki: self.seki@,
            title: self.title@,
            actor: self.actor@,
            evidence: strings(self.evidence@),
        }
    }
}

/// What to do with one line read from the client.
pub enum McpAction {
    /// Nothing: a blank or unreadable line, or a notification.
    Ignore,
    /// Write this response.
    Reply(JsonValue),
    /// Declare with these arguments, then answer the call `id` (see `declare_reply`).
    Declare { id: Option<JsonValue>, args: DeclareArgs },
}

/// What a line is answered, as values.
pub enum McpOutcome {
    Ignore,
    Reply(JsonView),
    Declare(JsonView, DeclareArgsSpec),
}

// ---------------------------------------------------------------------------
// Responses
// ---------------------------------------------------------------------------

/// The request id as echoed in a response (`null` when there was none).
pub open spec fn id_view(id: Option<JsonValue>) -> JsonView {
    match id {
        Some(v) => v@,
        None => JsonView::Null,
    }
}

/// A JSON-RPC result.
pub open spec fn result_view(id: JsonView, value: JsonView) -> JsonView {
    JsonView::Object(seq![("jsonrpc"@, JsonView::Str("2.0"@)), ("id"@, id), ("result"@, value)])
}

/// A JSON-RPC error.
pub open spec fn error_view(id: JsonView, code: int, message: Seq<char>) -> JsonView {
    JsonView::Object(
        seq![
            ("jsonrpc"@, JsonView::Str("2.0"@)),
            ("id"@, id),
            (
                "error"@,
                JsonView::Object(
                    seq![("code"@, JsonView::Number(int_text(code))), ("message"@, JsonView::Str(message))],
                ),
            ),
        ],
    )
}

/// A tool result holding one text.
pub open spec fn text_result(text: Seq<char>, is_error: bool) -> JsonView {
    JsonView::Object(
        seq![
            (
                "content"@,
                JsonView::Array(
                    seq![JsonView::Object(seq![("type"@, JsonView::Str("text"@)), ("text"@, JsonView::Str(text))])],
                ),
            ),
            ("isError"@, JsonView::Bool(is_error)),
        ],
    )
}

/// A property of the tool's input schema.
pub open spec fn prop_view(ty: Seq<char>, description: Seq<char>) -> JsonView {
    JsonView::Object(seq![("type"@, JsonView::Str(ty)), ("description"@, JsonView::Str(description))])
}

/// The description of the one tool.
pub open spec fn tool_description() -> Seq<char> {
    "完了を主張し、成果物そのものを証拠として提出する(唯一の入口)。証拠なしの主張は通らない。改め(verify)はこの口には無い — 門番の仕事である。"@
}

/// The schema of the one tool, `monban.declare`.
pub open spec fn tool_schema_view() -> JsonView {
    JsonView::Object(
        seq![
            ("name"@, JsonView::Str(TOOL_DECLARE@)),
            ("description"@, JsonView::Str(tool_description())),
            (
                "inputSchema"@,
                JsonView::Object(
                    seq![
                        ("type"@, JsonView::Str("object"@)),
                        (
                            "properties"@,
                            JsonView::Object(
                                seq![
                                    ("seki"@, prop_view("string"@, "通ろうとする関の名前(monban.toml に実在)"@)),
                                    ("title"@, prop_view("string"@, "主張の一文"@)),
                                    (
                                        "evidence"@,
                                        JsonView::Object(
                                            seq![
                                                ("type"@, JsonView::Str("array"@)),
                                                ("items"@, JsonView::Object(seq![("type"@, JsonView::Str("string"@))])),
                                                ("minItems"@, JsonView::Number("1"@)),
                                                ("description"@, JsonView::Str("成果物ファイルのパス(1件以上必須)"@)),
                                            ],
                                        ),
                                    ),
                                    ("actor"@, prop_view("string"@, "宣言者の名。agent: で始まること"@)),
                                ],
                            ),
                        ),
                        (
                            "required"@,
                            JsonView::Array(
                                seq![
                                    JsonView::Str("seki"@),
                                    JsonView::Str("title"@),
                                    JsonView::Str("evidence"@),
                                    JsonView::Str("actor"@),
                                ],
                            ),
                        ),
                    ],
                ),
            ),
        ],
    )
}

/// The answer to `initialize`.
pub open spec fn initialize_view(requested: Seq<char>, version: Seq<char>) -> JsonView {
    JsonView::Object(
        seq![
            ("protocolVersion"@, JsonView::Str(requested)),
            ("capabilities"@, JsonView::Object(seq![("tools"@, JsonView::Object(seq![]))])),
            (
                "serverInfo"@,
                JsonView::Object(seq![("name"@, JsonView::Str("monban"@)), ("version"@, JsonView::Str(version))]),
            ),
        ],
    )
}

fn id_exec(id: &Option<JsonValue>) -> (res: JsonValue)
    ensures
        res@ == id_view(*id),
{
    match id {
        Some(v) => jclone(v),
        None => JsonValue::Null,
    }
}

fn kv(k: &str, v: JsonValue) -> (res: (String, JsonValue))
    ensures
        res.0@ == k@,
        res.1 == v,
{
    (owned(k), v)
}

/// A JSON-RPC result for request `id`.
pub fn rpc_result(id: &Option<JsonValue>, value: JsonValue) -> (res: JsonValue)
    ensures
        res@ == result_view(id_view(*id), value@),
{
    let mut m: Vec<(String, JsonValue)> = Vec::new();
    m.push(kv("jsonrpc", jtext("2.0")));
    m.push(kv("id", id_exec(id)));
    m.push(kv("result", value));
    let r = jobject(m);
    assert(members_view(m@) =~= result_view(id_view(*id), value@)->Object_0);
    r
}

/// A JSON-RPC error for request `id`.
pub fn rpc_error(id: &Option<JsonValue>, code: i64, message: &str) -> (res: JsonValue)
    ensures
        res@ == error_view(id_view(*id), code as int, message@),
{
    let mut e: Vec<(String, JsonValue)> = Vec::new();
    e.push(kv("code", JsonValue::Number(crate::text::int_text_exec(code))));
    e.push(kv("message", jtext(message)));
    let ev = jobject(e);
    assert(members_view(e@) =~= seq![("code"@, JsonView::Number(int_text(code as int))), ("message"@, JsonView::Str(message@))]);
    let mut m: Vec<(String, JsonValue)> = Vec::new();
    m.push(kv("jsonrpc", jtext("2.0")));
    m.push(kv("id", id_exec(id)));
    m.push(kv("error", ev));
    let r = jobject(m);
    assert(members_view(m@) =~= error_view(id_view(*id), code as int, message@)->Object_0);
    r
}

fn text_result_exec(text: &str, is_error: bool) -> (res: JsonValue)
    ensures
        res@ == text_result(text@, is_error),
{
    let mut item: Vec<(String, JsonValue)> = Vec::new();
    item.push(kv("type", jtext("text")));
    item.push(kv("text", jtext(text)));
    let iv = jobject(item);
    assert(members_view(item@) =~= seq![("type"@, JsonView::Str("text"@)), ("text"@, JsonView::Str(text@))]);
    let mut arr: Vec<JsonValue> = Vec::new();
    arr.push(iv);
    let av = jarray(arr);
    assert(elems_view(arr@) =~= seq![iv@]);
    let mut m: Vec<(String, JsonValue)> = Vec::new();
    m.push(kv("content", av));
    m.push(kv("isError", JsonValue::Bool(is_error)));
    let r = jobject(m);
    assert(members_view(m@) =~= text_result(text@, is_error)->Object_0);
    r
}

fn prop_exec(ty: &str, description: &str) -> (res: JsonValue)
    ensures
        res@ == prop_view(ty@, description@),
{
    let mut m: Vec<(String, JsonValue)> = Vec::new();
    m.push(kv("type", jtext(ty)));
    m.push(kv("description", jtext(description)));
    let r = jobject(m);
    assert(members_view(m@) =~= prop_view(ty@, description@)->Object_0);
    r
}

/// The schema of the one tool.
pub fn tool_schema() -> (res: JsonValue)
    ensures
        res@ == tool_schema_view(),
{
    let mut items: Vec<(String, JsonValue)> = Vec::new();
    items.push(kv("type", jtext("string")));
    let items_v = jobject(items);
    assert(members_view(items@) =~= seq![("type"@, JsonView::Str("string"@))]);
    let mut ev: Vec<(String, JsonValue)> = Vec::new();
    ev.push(kv("type", jtext("array")));
    ev.push(kv("items", items_v));
    ev.push(kv("minItems", JsonValue::Number(owned("1"))));
    ev.push(kv("description", jtext("成果物ファイルのパス(1件以上必須)")));
    let ev_v = jobject(ev);
    let ghost ev_want = seq![
        ("type"@, JsonView::Str("array"@)),
        ("items"@, JsonView::Object(seq![("type"@, JsonView::Str("string"@))])),
        ("minItems"@, JsonView::Number("1"@)),
        ("description"@, JsonView::Str("成果物ファイルのパス(1件以上必須)"@)),
    ];
    assert(members_view(ev@) =~= ev_want);
    let mut props: Vec<(String, JsonValue)> = Vec::new();
    props.push(kv("seki", prop_exec("string", "通ろうとする関の名前(monban.toml に実在)")));
    props.push(kv("title", prop_exec("string", "主張の一文")));
    props.push(kv("evidence", ev_v));
    props.push(kv("actor", prop_exec("string", "宣言者の名。agent: で始まること")));
    let props_v = jobject(props);
    let ghost props_want = seq![
        ("seki"@, prop_view("string"@, "通ろうとする関の名前(monban.toml に実在)"@)),
        ("title"@, prop_view("string"@, "主張の一文"@)),
        ("evidence"@, JsonView::Object(ev_want)),
        ("actor"@, prop_view("string"@, "宣言者の名。agent: で始まること"@)),
    ];
    assert(members_view(props@) =~= props_want);
    let mut req: Vec<JsonValue> = Vec::new();
    req.push(jtext("seki"));
    req.push(jtext("title"));
    req.push(jtext("evidence"));
    req.push(jtext("actor"));
    let req_v = jarray(req);
    let ghost req_want = seq![
        JsonView::Str("seki"@),
        JsonView::Str("title"@),
        JsonView::Str("evidence"@),
        JsonView::Str("actor"@),
    ];
    assert(elems_view(req@) =~= req_want);
    let mut input: Vec<(String, JsonValue)> = Vec::new();
    input.push(kv("type", jtext("object")));
    input.push(kv("properties", props_v));
    input.push(kv("required", req_v));
    let input_v = jobject(input);
    let ghost input_want = seq![
        ("type"@, JsonView::Str("object"@)),
        ("properties"@, JsonView::Object(props_want)),
        ("required"@, JsonView::Array(req_want)),
    ];
    assert(members_view(input@) =~= input_want);
    let mut m: Vec<(String, JsonValue)> = Vec::new();
    m.push(kv("name", jtext(TOOL_DECLARE)));
    m.push(
        kv(
            "description",
            jtext(
                "完了を主張し、成果物そのものを証拠として提出する(唯一の入口)。証拠なしの主張は通らない。改め(verify)はこの口には無い — 門番の仕事である。",
            ),
        ),
    );
    m.push(kv("inputSchema", input_v));
    let r = jobject(m);
    assert(members_view(m@) =~= tool_schema_view()->Object_0);
    r
}

fn initialize_exec(requested: &str, version: &str) -> (res: JsonValue)
    ensures
        res@ == initialize_view(requested@, version@),
{
    let empty: Vec<(String, JsonValue)> = Vec::new();
    let empty_v = jobject(empty);
    assert(members_view(empty@) =~= seq![]);
    let mut caps: Vec<(String, JsonValue)> = Vec::new();
    caps.push(kv("tools", empty_v));
    let caps_v = jobject(caps);
    assert(members_view(caps@) =~= seq![("tools"@, JsonView::Object(seq![]))]);
    let mut info: Vec<(String, JsonValue)> = Vec::new();
    info.push(kv("name", jtext("monban")));
    info.push(kv("version", jtext(version)));
    let info_v = jobject(info);
    assert(members_view(info@) =~= seq![("name"@, JsonView::Str("monban"@)), ("version"@, JsonView::Str(version@))]);
    let mut m: Vec<(String, JsonValue)> = Vec::new();
    m.push(kv("protocolVersion", jtext(requested)));
    m.push(kv("capabilities", caps_v));
    m.push(kv("serverInfo", info_v));
    let r = jobject(m);
    assert(members_view(m@) =~= initialize_view(requested@, version@)->Object_0);
    r
}

// ---------------------------------------------------------------------------
// Dispatch
// ---------------------------------------------------------------------------

/// Every element is a JSON string.
pub open spec fn all_json_strs(a: Seq<JsonValue>) -> bool {
    forall|i: int| 0 <= i < a.len() ==> #[trigger] a[i] is Str
}

/// What the arguments of a `monban.declare` call mean, or why they are refused: `seki`,
/// `title` and `actor` must be strings, the actor must be an agent (`agent:` …), and every
/// element of `evidence` must be a string (a missing `evidence` is none at all).
pub open spec fn args_outcome(args: JsonValue) -> Result<DeclareArgsSpec, Seq<char>> {
    match jstr(jget(args, "seki"@)) {
        None => Err("引数 seki が無い"@),
        Some(seki) => match jstr(jget(args, "title"@)) {
            None => Err("引数 title が無い"@),
            Some(title) => match jstr(jget(args, "actor"@)) {
                None => Err("引数 actor が無い"@),
                Some(actor) => if !starts_with(actor, "agent:"@) {
                    Err("この口はエージェント向け。actor は agent: で始まること(実際: \""@ + actor + "\")"@)
                } else {
                    match jget(args, "evidence"@) {
                        Some(JsonValue::Array(a)) => if !all_json_strs(a@) {
                            Err("evidence の要素が文字列ではない(成果物ファイルのパスの列であること)"@)
                        } else {
                            Ok(DeclareArgsSpec { seki, title, actor, evidence: json_strs(a@) })
                        },
                        _ => Ok(DeclareArgsSpec { seki, title, actor, evidence: seq![] }),
                    }
                },
            },
        },
    }
}

/// The `name` of a `tools/call`.
pub open spec fn call_name(params: Option<JsonValue>) -> Seq<char> {
    match params {
        Some(p) => match jstr(jget(p, "name"@)) {
            Some(n) => n,
            None => seq![],
        },
        None => seq![],
    }
}

/// The `arguments` of a `tools/call` (when absent, `{}` stands in, which lacks `seki`).
pub open spec fn call_args(params: Option<JsonValue>) -> Option<JsonValue> {
    match params {
        Some(p) => jget(p, "arguments"@),
        None => None,
    }
}

/// What a `tools/call` is answered: a call of any tool but `monban.declare` is an error; a
/// declaration with refused arguments stops with the reason.
pub open spec fn call_outcome(id: JsonView, params: Option<JsonValue>) -> McpOutcome {
    let name = call_name(params);
    if name != TOOL_DECLARE@ {
        McpOutcome::Reply(
            error_view(
                id,
                -32602,
                "no such tool: "@ + name + "(この口の道具は "@ + TOOL_DECLARE@ + " だけ。改めは門番の仕事)"@,
            ),
        )
    } else {
        let outcome = match call_args(params) {
            Some(a) => args_outcome(a),
            None => Err("引数 seki が無い"@),
        };
        match outcome {
            Ok(a) => McpOutcome::Declare(id, a),
            Err(m) => McpOutcome::Reply(result_view(id, text_result("止まる — "@ + m, true))),
        }
    }
}

/// The protocol version a client asks for in `initialize`, or ours.
pub open spec fn requested_version(msg: JsonValue) -> Seq<char> {
    match jget(msg, "params"@) {
        Some(p) => match jstr(jget(p, "protocolVersion"@)) {
            Some(v) => v,
            None => PROTOCOL_VERSION@,
        },
        None => PROTOCOL_VERSION@,
    }
}

/// What one message (a parsed line) from the client is answered; notifications (no `id`)
/// of unknown methods get no answer.
pub open spec fn message_outcome(msg: JsonValue, version: Seq<char>) -> McpOutcome {
    let id_opt = jget(msg, "id"@);
    let id = match id_opt {
        Some(v) => v@,
        None => JsonView::Null,
    };
    let method = match jstr(jget(msg, "method"@)) {
        Some(m) => m,
        None => seq![],
    };
    if method == "initialize"@ {
        McpOutcome::Reply(result_view(id, initialize_view(requested_version(msg), version)))
    } else if method == "ping"@ {
        McpOutcome::Reply(result_view(id, JsonView::Object(seq![])))
    } else if method == "tools/list"@ {
        McpOutcome::Reply(
            result_view(id, JsonView::Object(seq![("tools"@, JsonView::Array(seq![tool_schema_view()]))])),
        )
    } else if method == "tools/call"@ {
        call_outcome(id, jget(msg, "params"@))
    } else if id_opt is Some {
        McpOutcome::Reply(error_view(id, -32601, "method not found: "@ + method))
    } else {
        McpOutcome::Ignore
    }
}

/// What one line from the client is answered: blank lines and lines that are not JSON
/// are skipped; a message is answered as `message_outcome` says.
pub open spec fn mcp_outcome(line: Seq<char>, version: Seq<char>) -> McpOutcome {
    if all_white(line) {
        McpOutcome::Ignore
    } else {
        match json_document(line) {
            Err(_) => McpOutcome::Ignore,
            Ok(msg) => message_outcome(msg, version),
        }
    }
}

/// The action matches the outcome.
pub open spec fn action_is(a: McpAction, o: McpOutcome) -> bool {
    match o {
        McpOutcome::Ignore => a is Ignore,
        McpOutcome::Reply(v) => a matches McpAction::Reply(r) && r@ == v,
        McpOutcome::Declare(id, args) => a matches McpAction::Declare { id: i, args: x } && id_view(i) == id
            && x@ == args,
    }
}

fn all_json_strs_exec(a: &Vec<JsonValue>) -> (res: bool)
    ensures
        res == all_json_strs(a@),
{
    let n = a.len();
    for i in 0..n
        invariant
            n == a@.len(),
            forall|j: int| 0 <= j < i ==> #[trigger] a@[j] is Str,
    {
        match &a[i] {
            JsonValue::Str(_) => {},
            _ => {
                return false;
            },
        }
    }
    true
}

fn json_strs_vec(a: &Vec<JsonValue>) -> (res: Vec<String>)
    ensures
        strings(res@) == json_strs(a@),
{
    let mut res: Vec<String> = Vec::new();
    let n = a.len();
    assert(a@.take(0) =~= seq![]);
    for i in 0..n
        invariant
            n == a@.len(),
            strings(res@) == json_strs(a@.take(i as int)),
    {
        proof {
            assert(a@.take(i + 1).drop_last() =~= a@.take(i as int));
        }
        match &a[i] {
            JsonValue::Str(s) => {
                let ghost before = res@;
                res.push(s.clone());
                assert(strings(res@) =~= strings(before).push(s@));
            },
            _ => {},
        }
    }
    assert(a@.take(n as int) =~= a@);
    res
}

/// Reads the arguments of a `monban.declare` call (see `args_outcome`).
pub fn declare_args(args: &JsonValue) -> (res: Result<DeclareArgs, String>)
    ensures
        match args_outcome(*args) {
            Ok(a) => res matches Ok(x) && x@ == a,
            Err(m) => res matches Err(x) && x@ == m,
        },
{
    let seki = match jstr_exec(jget_exec(args, "seki")) {
        Some(s) => s,
        None => {
            return Err(owned("引数 seki が無い"));
        },
    };
    let title = match jstr_exec(jget_exec(args, "title")) {
        Some(s) => s,
        None => {
            return Err(owned("引数 title が無い"));
        },
    };
    let actor = match jstr_exec(jget_exec(args, "actor")) {
        Some(s) => s,
        None => {
            return Err(owned("引数 actor が無い"));
        },
    };
    let ac = crate::text::chars_of(actor.as_str());
    let prefix = crate::text::chars_of("agent:");
    if !crate::text::starts_with_exec(ac.as_slice(), prefix.as_slice()) {
        let mut m = join3("この口はエージェント向け。actor は agent: で始まること(実際: \"", actor.as_str(), "\")");
        return Err(m);
    }
    let evidence = match jget_exec(args, "evidence") {
        Some(JsonValue::Array(a)) => {
            if !all_json_strs_exec(a) {
                return Err(owned("evidence の要素が文字列ではない(成果物ファイルのパスの列であること)"));
            }
            json_strs_vec(a)
        },
        _ => Vec::new(),
    };
    assert(strings(evidence@) == (match jget(*args, "evidence"@) {
        Some(JsonValue::Array(a)) => json_strs(a@),
        _ => seq![],
    })) by {
        if !(jget(*args, "evidence"@) matches Some(JsonValue::Array(_))) {
            assert(strings(evidence@) =~= seq![]);
        }
    }
    Ok(DeclareArgs { seki, title, actor, evidence })
}

/// Answers a `tools/call`.
fn handle_call(id: Option<JsonValue>, params: Option<&JsonValue>) -> (res: McpAction)
    ensures
        action_is(
            res,
            call_outcome(
                id_view(id),
                match params {
                    Some(p) => Some(*p),
                    None => None,
                },
            ),
        ),
{
    let name = match params {
        Some(p) => match jstr_exec(jget_exec(p, "name")) {
            Some(n) => n,
            None => String::new(),
        },
        None => String::new(),
    };
    if !str_eq(name.as_str(), TOOL_DECLARE) {
        let mut m = join3("no such tool: ", name.as_str(), "(この口の道具は ");
        m.append(TOOL_DECLARE);
        m.append(" だけ。改めは門番の仕事)");
        return McpAction::Reply(rpc_error(&id, -32602, m.as_str()));
    }
    let outcome = match params {
        Some(p) => match jget_exec(p, "arguments") {
            Some(a) => declare_args(a),
            None => {
                let empty = JsonValue::Object(Vec::new());
                declare_args(&empty)
            },
        },
        None => {
            let empty = JsonValue::Object(Vec::new());
            declare_args(&empty)
        },
    };
    match outcome {
        Ok(args) => McpAction::Declare { id, args },
        Err(m) => {
            let text = join2("止まる — ", m.as_str());
            McpAction::Reply(rpc_result(&id, text_result_exec(text.as_str(), true)))
        },
    }
}

/// Decides what to do with one line read from the client; `version` is the server's
/// version, reported to `initialize`.
pub fn mcp_dispatch(line: &str, version: &str) -> (res: McpAction)
    ensures
        action_is(res, mcp_outcome(line@, version@)),
{
    let lc = crate::text::chars_of(line);
    if crate::text::all_white_exec(lc.as_slice()) {
        return McpAction::Ignore;
    }
    match parse_json(line) {
        Ok(msg) => respond(&msg, version),
        Err(_) => McpAction::Ignore,
    }
}

/// Decides what to do with one message from the client (see `message_outcome`).
pub fn respond(msg: &JsonValue, version: &str) -> (res: McpAction)
    ensures
        action_is(res, message_outcome(*msg, version@)),
{
    let id: Option<JsonValue> = match jget_exec(msg, "id") {
        Some(v) => Some(jclone(v)),
        None => None,
    };
    let method = match jstr_exec(jget_exec(msg, "method")) {
        Some(m) => m,
        None => String::new(),
    };
    if str_eq(method.as_str(), "initialize") {
        let requested = match jget_exec(msg, "params") {
            Some(p) => match jstr_exec(jget_exec(p, "protocolVersion")) {
                Some(v) => v,
                None => owned(PROTOCOL_VERSION),
            },
            None => owned(PROTOCOL_VERSION),
        };
        McpAction::Reply(rpc_result(&id, initialize_exec(requested.as_str(), version)))
    } else if str_eq(method.as_str(), "ping") {
        let empty: Vec<(String, JsonValue)> = Vec::new();
        let e = jobject(empty);
        assert(members_view(empty@) =~= seq![]);
        McpAction::Reply(rpc_result(&id, e))
    } else if str_eq(method.as_str(), "tools/list") {
        let mut tools: Vec<JsonValue> = Vec::new();
        tools.push(tool_schema());
        let tv = jarray(tools);
        assert(elems_view(tools@) =~= seq![tool_schema_view()]);
        let mut m: Vec<(String, JsonValue)> = Vec::new();
        m.push(kv("tools", tv));
        let r = jobject(m);
        assert(members_view(m@) =~= seq![("tools"@, JsonView::Array(seq![tool_schema_view()]))]);
        McpAction::Reply(rpc_result(&id, r))
    } else if str_eq(method.as_str(), "tools/call") {
        handle_call(id, jget_exec(msg, "params"))
    } else if id.is_some() {
        let m = join2("method not found: ", method.as_str());
        McpAction::Reply(rpc_error(&id, -32601, m.as_str()))
    } else {
        McpAction::Ignore
    }
}

/// The answer to a declaration made for call `id`: the recorded event's sequence number
/// and id, or why the declaration stopped.
pub fn declare_reply(id: &Option<JsonValue>, outcome: &Result<(u64, String), String>) -> (res: JsonValue)
    ensures
        res@ == result_view(
            id_view(*id),
            match *outcome {
                Ok((seq, eid)) => text_result(
                    "✓ 記録 seq="@ + int_text(seq as int) + " type=claim.declare id="@ + eid@
                        + "\n改めは門番の仕事であり、この口からは呼べない。主人に ID を報せよ。"@,
                    false,
                ),
                Err(m) => text_result("止まる — "@ + m@, true),
            },
        ),
{
    match outcome {
        Ok((seq, eid)) => {
            let mut t = join3("✓ 記録 seq=", crate::text::nat_text_exec(*seq).as_str(), " type=claim.declare id=");
            t.append(eid.as_str());
            t.append("\n改めは門番の仕事であり、この口からは呼べない。主人に ID を報せよ。");
            rpc_result(id, text_result_exec(t.as_str(), false))
        },
        Err(m) => {
            let t = join2("止まる — ", m.as_str());
            rpc_result(id, text_result_exec(t.as_str(), true))
        },
    }
}

// ---------------------------------------------------------------------------
// Laws of the entrance
// ---------------------------------------------------------------------------

/// There is no verify tool: whatever line a client sends, the only call that leads to an
/// action beyond a reply is a `monban.declare` call, and only from an agent.
pub proof fn lemma_only_agents_declare(line: Seq<char>, version: Seq<char>)
    ensures
        mcp_outcome(line, version) matches McpOutcome::Declare(_, a) ==> {
            &&& starts_with(a.actor, "agent:"@)
            &&& json_document(line) matches Ok(msg)
            &&& jstr(jget(msg, "method"@)) == Some("tools/call"@)
            &&& call_name(jget(msg, "params"@)) == TOOL_DECLARE@
        },
{
    reveal_strlit("tools/call");
}

proof fn lemma_json_strs_all(x: Seq<JsonValue>)
    requires
        all_json_strs(x),
    ensures
        json_strs(x).len() == x.len(),
        forall|i: int| 0 <= i < x.len() ==> jstr(Some(#[trigger] x[i])) == Some(json_strs(x)[i]),
    decreases x.len(),
{
    if x.len() > 0 {
        assert forall|i: int| 0 <= i < x.drop_last().len() implies #[trigger] x.drop_last()[i] is Str by {
            assert(x.drop_last()[i] == x[i]);
        }
        lemma_json_strs_all(x.drop_last());
        assert(x[x.len() - 1] is Str);
        assert forall|i: int| 0 <= i < x.len() implies jstr(Some(#[trigger] x[i])) == Some(json_strs(x)[i]) by {
            if i < x.len() - 1 {
                assert(x.drop_last()[i] == x[i]);
                assert(jstr(Some(x.drop_last()[i])) == Some(json_strs(x.drop_last())[i]));
            }
        }
    }
}

/// A declaration through the entrance carries exactly what the call's arguments say:
/// the seki, title and actor are the strings under their own keys (and the actor is an
/// agent), and the evidence is the strings of the `evidence` array, in order (none when
/// the key is absent or not an array).
pub proof fn lemma_declared_args_are_the_arguments(args: JsonValue)
    ensures
        args_outcome(args) matches Ok(a) ==> {
            &&& jstr(jget(args, "seki"@)) == Some(a.seki)
            &&& jstr(jget(args, "title"@)) == Some(a.title)
            &&& jstr(jget(args, "actor"@)) == Some(a.actor)
            &&& starts_with(a.actor, "agent:"@)
            &&& match jget(args, "evidence"@) {
                Some(JsonValue::Array(x)) => a.evidence.len() == x@.len() && forall|i: int|
                    0 <= i < x@.len() ==> jstr(Some(#[trigger] x@[i])) == Some(a.evidence[i]),
                _ => a.evidence.len() == 0,
            }
        },
{
    if let Some(JsonValue::Array(x)) = jget(args, "evidence"@) {
        if all_json_strs(x@) {
            lemma_json_strs_all(x@);
        }
    }
}

/// A message answered by a declaration declares exactly the call's `arguments` (see
/// `lemma_declared_args_are_the_arguments`), for the call's own `id`.
pub proof fn lemma_declaration_follows_the_call(msg: JsonValue, version: Seq<char>)
    ensures
        message_outcome(msg, version) matches McpOutcome::Declare(id, a) ==> {
            &&& id == (match jget(msg, "id"@) {
                Some(v) => v@,
                None => JsonView::Null,
            })
            &&& jget(msg, "params"@) matches Some(p) && jget(p, "arguments"@) matches Some(args)
                && args_outcome(args) == Ok::<DeclareArgsSpec, Seq<char>>(a)
        },
{
}

/// Exactly one tool is ever listed: whatever line a client sends, a reply whose result
/// lists tools lists the one tool, `monban.declare`, and nothing else.
pub proof fn lemma_one_tool(line: Seq<char>, version: Seq<char>, id: JsonView, m: Seq<(Seq<char>, JsonView)>)
    requires
        mcp_outcome(line, version) == McpOutcome::Reply(result_view(id, JsonView::Object(m))),
        m.len() > 0,
        m[0].0 == "tools"@,
    ensures
        m == seq![("tools"@, JsonView::Array(seq![tool_schema_view()]))],
        tool_schema_view() matches JsonView::Object(t) && t[0] == ("name"@, JsonView::Str(TOOL_DECLARE@)),
{
    reveal_strlit("tools");
    reveal_strlit("protocolVersion");
    reveal_strlit("content");
    reveal_strlit("result");
    reveal_strlit("error");
    assert("result"@[0] != "error"@[0]);
    let r = result_view(id, JsonView::Object(m));
    assert(r matches JsonView::Object(k) && k[2] == ("result"@, JsonView::Object(m)));
    if !all_white(line) {
        if let Ok(msg) = json_document(line) {
            let id2 = match jget(msg, "id"@) {
                Some(v) => v@,
                None => JsonView::Null,
            };
            let method = match jstr(jget(msg, "method"@)) {
                Some(x) => x,
                None => seq![],
            };
            if method == "initialize"@ {
                let v = initialize_view(requested_version(msg), version);
                assert(result_view(id2, v) matches JsonView::Object(k) && k[2] == ("result"@, v));
                assert(v matches JsonView::Object(k) && k[0].0 == "protocolVersion"@);
                assert("tools"@[0] != "protocolVersion"@[0]);
            } else if method == "ping"@ {
                assert(result_view(id2, JsonView::Object(seq![])) matches JsonView::Object(k) && k[2] == (
                    "result"@,
                    JsonView::Object(seq![]),
                ));
            } else if method == "tools/list"@ {
                let v = JsonView::Object(seq![("tools"@, JsonView::Array(seq![tool_schema_view()]))]);
                assert(result_view(id2, v) matches JsonView::Object(k) && k[2] == ("result"@, v));
                assert(JsonView::Object(m) == v);
            } else if method == "tools/call"@ {
                let params = jget(msg, "params"@);
                if call_name(params) != TOOL_DECLARE@ {
                    let e = error_view(id2, -32602, "no such tool: "@ + call_name(params) + "(この口の道具は "@ + TOOL_DECLARE@ + " だけ。改めは門番の仕事)"@);
                    assert(e matches JsonView::Object(k) && k[2].0 == "error"@);
                } else {
                    let outcome = match call_args(params) {
                        Some(a) => args_outcome(a),
                        None => Err("引数 seki が無い"@),
                    };
                    if let Err(e) = outcome {
                        let v = text_result("止まる — "@ + e, true);
                        assert(result_view(id2, v) matches JsonView::Object(k) && k[2] == ("result"@, v));
                        assert(v matches JsonView::Object(k) && k[0].0 == "content"@);
                        assert("tools"@[0] != "content"@[0]);
                    }
                }
            } else if jget(msg, "id"@) is Some {
                let e = error_view(id2, -32601, "method not found: "@ + method);
                assert(e matches JsonView::Object(k) && k[2].0 == "error"@);
            }
        }
    }
}

} // verus!
