use std::sync::Mutex;
use std::time::{Duration, Instant};

use potemkin::json::{parse_json, write_json, Json};
use potemkin::lsp;
use potemkin::plugin::{
    build_transport, missing_host_message, read_reply, resolve_node, timeout_of, Launch,
    PluginError, ProtocolPlugin, RpcTransport,
};
use potemkin::protocol::{
    InitializeParams, InitializeResult, PluginManifest, Request, Response, TransformItem,
    TransformParams, TransformResult, TransformResultItem, Transport, PROTOCOL_VERSION,
};
use potemkin::subprocess::{Heard, RpcError, RpcSession};
use potemkin::{Config, Pipeline, Plugin, TextKind};

fn json(text: &str) -> Json {
    parse_json(text).expect("JSON")
}

/// A plugin process that answers each request line with a response line, or with silence.
struct Lines {
    session: Mutex<RpcSession>,
    answer: fn(&Json) -> Option<String>,
}

fn response(line: &str) -> Heard {
    let v = match parse_json(line) {
        Some(v) => v,
        None => return Heard::InvalidJson,
    };
    Heard::Answer(Response {
        id: v.get("id").unwrap().as_i64().unwrap() as u64,
        result: v.get("result").map(|r| r.dup()),
        error: v.get_str("error").map(|e| e.to_string()),
    })
}

impl RpcTransport for Lines {
    fn call(&self, method: &str, params: Json) -> Result<Json, String> {
        let mut session = self.session.lock().unwrap();
        let call = match session.begin(method, params) {
            Ok(call) => call,
            Err(e) => return Err(session.message(&e)),
        };
        let heard = match (self.answer)(&json(&call.line)) {
            Some(line) => response(&line),
            None => Heard::TimedOut,
        };
        session.settle(call.id, heard).map_err(|e| session.message(&e))
    }
}

fn spawn(
    manifest: &PluginManifest,
    answer: fn(&Json) -> Option<String>,
) -> Result<ProtocolPlugin, PluginError> {
    let lines = Lines {
        session: Mutex::new(RpcSession::new("demo", timeout_of(manifest, 5000))),
        answer,
    };
    ProtocolPlugin::with_transport(manifest, Box::new(lines), 0, true)
}

fn manifest(name: &str, timeout_ms: Option<u64>) -> PluginManifest {
    PluginManifest {
        name: name.to_string(),
        markers: vec!["DemoType<".to_string()],
        languages: vec![],
        language_servers: vec![],
        order: 0,
        timeout_ms,
        transport: Transport::Subprocess {
            command: "python3".to_string(),
            args: vec!["demo.py".to_string()],
        },
    }
}

fn answered(request: &Json, result: Json) -> Option<String> {
    let id = request.get("id").unwrap().dup();
    Some(write_json(&Json::object().with("id", id).with("result", result)))
}

/// Rewrites `DemoType<X>` into `Demo{X}`.
fn demo(request: &Json) -> Option<String> {
    if request.get_str("method") == Some("initialize") {
        return answered(request, json(r#"{"name":"demo","markers":["DemoType<"]}"#));
    }
    let items = match request.get("params").unwrap().get("items").unwrap() {
        Json::Array(items) => items,
        _ => panic!("items"),
    };
    let out: Vec<Json> = items
        .iter()
        .map(|i| {
            let text = i.get_str("text").unwrap();
            Json::text(&text.replace("DemoType<", "Demo{").replace('>', "}"))
        })
        .collect();
    answered(request, Json::object().with("items", Json::Array(out)))
}

/// Answers `initialize`, then hangs.
fn hang(request: &Json) -> Option<String> {
    if request.get_str("method") == Some("initialize") {
        answered(request, json(r#"{"name":"hang","markers":["DemoType<"]}"#))
    } else {
        None
    }
}

fn pipeline(plugin: ProtocolPlugin) -> Pipeline {
    Pipeline::new(vec![Box::new(plugin) as Box<dyn Plugin>], Config::default())
}

const HOVER_REQUEST: &str = r#"{"jsonrpc":"2.0","id":1,"method":"textDocument/hover","params":{}}"#;

#[test]
fn rewrites_hover_via_subprocess_plugin() {
    let plugin = spawn(&manifest("demo", None), demo).ok().expect("spawn demo plugin");
    let mut pipeline = pipeline(plugin);
    pipeline.process_outgoing(&lsp::frame(HOVER_REQUEST));

    let hover = r#"{"jsonrpc":"2.0","id":1,"result":{"contents":{"kind":"markdown","value":"let x: DemoType<i32> = ...;"}}}"#;
    let out = pipeline.process_incoming(&lsp::frame(hover));
    let payload = lsp::payload(&out).unwrap();
    assert!(payload.contains("Demo{i32}"), "expected rewritten type, got: {payload}");
    assert!(!payload.contains("DemoType<"));
}

#[test]
fn untouched_when_no_marker_present() {
    let plugin = spawn(&manifest("demo", None), demo).ok().expect("spawn demo plugin");
    let mut pipeline = pipeline(plugin);
    pipeline.process_outgoing(&lsp::frame(HOVER_REQUEST));

    let hover = r#"{"jsonrpc":"2.0","id":1,"result":{"contents":{"kind":"markdown","value":"let x: String = ...;"}}}"#;
    let framed = lsp::frame(hover);
    assert_eq!(pipeline.process_incoming(&framed), framed);
}

#[test]
fn ignores_untracked_response_ids() {
    let plugin = spawn(&manifest("demo", None), demo).ok().expect("spawn demo plugin");
    let mut pipeline = pipeline(plugin);

    let hover = r#"{"jsonrpc":"2.0","id":999,"result":{"contents":{"kind":"markdown","value":"let x: DemoType<i32> = ...;"}}}"#;
    let framed = lsp::frame(hover);
    let out = pipeline.process_incoming(&framed);
    assert_eq!(out, framed, "untracked id should be forwarded unchanged");
}

#[test]
fn hung_transform_times_out_and_passes_through() {
    let plugin = spawn(&manifest("hang", Some(500)), hang).ok().expect("spawn hang plugin");
    let mut pipeline = pipeline(plugin);
    pipeline.process_outgoing(&lsp::frame(HOVER_REQUEST));
    let hover = r#"{"jsonrpc":"2.0","id":1,"result":{"contents":{"kind":"markdown","value":"let x: DemoType<i32> = ...;"}}}"#;
    let framed = lsp::frame(hover);

    let start = Instant::now();
    let out = pipeline.process_incoming(&framed);
    let elapsed = start.elapsed();
    assert_eq!(out, framed, "hung plugin should pass the hover through unchanged");
    assert!(
        elapsed < Duration::from_secs(10),
        "timeout should fire promptly, took {elapsed:?}"
    );

    let request2 = r#"{"jsonrpc":"2.0","id":2,"method":"textDocument/hover","params":{}}"#;
    pipeline.process_outgoing(&lsp::frame(request2));
    let hover2 = r#"{"jsonrpc":"2.0","id":2,"result":{"contents":{"kind":"markdown","value":"let y: DemoType<u8> = ...;"}}}"#;
    let framed2 = lsp::frame(hover2);
    let start2 = Instant::now();
    let out2 = pipeline.process_incoming(&framed2);
    assert_eq!(out2, framed2, "disabled plugin should pass through");
    assert!(
        start2.elapsed() < Duration::from_millis(400),
        "disabled plugin should fail fast, took {:?}",
        start2.elapsed()
    );
}

/// Rewrites `<Type><X>` into `<Short>{X}`, as the demo does.
fn renaming(request: &Json, name: &str, from: &str, to: &str) -> Option<String> {
    if request.get_str("method") == Some("initialize") {
        return answered(request, Json::object().with("name", Json::text(name)));
    }
    let items = match request.get("params").unwrap().get("items").unwrap() {
        Json::Array(items) => items,
        _ => panic!("items"),
    };
    let text = items[0].get_str("text").unwrap();
    let new = text.replace(from, to).replace('>', "}");
    answered(request, Json::object().with("items", Json::Array(vec![Json::text(&new)])))
}

fn demo_js(request: &Json) -> Option<String> {
    renaming(request, "demo-js", "JsType<", "Js{")
}

fn demo_wasm(request: &Json) -> Option<String> {
    renaming(request, "wasm-demo", "WasmType<", "Wasm{")
}

/// What runs under a command line of Node.
fn node_program(launch: &Launch) -> fn(&Json) -> Option<String> {
    assert_eq!(launch.command, "node");
    assert!(launch.run_as_node);
    match launch.args.iter().map(|a| a.as_str()).collect::<Vec<&str>>()[..] {
        ["demo.js"] => demo_js,
        ["host.js", "wasm-demo.wasm"] => demo_wasm,
        _ => panic!("no such program"),
    }
}

fn hovered(marker: &str, transport: Transport, value: &str) -> (String, String) {
    let mut m = manifest("demo", None);
    m.markers = vec![marker.to_string()];
    m.transport = transport;
    let launch = build_transport(&m, None, Some("host.js".to_string())).expect("a process");
    let answer = node_program(&launch);
    let mut pipeline = pipeline(spawn(&m, answer).ok().expect("spawn plugin"));
    pipeline.process_outgoing(&lsp::frame(HOVER_REQUEST));
    let framed = lsp::frame(&format!(
        r#"{{"jsonrpc":"2.0","id":1,"result":{{"contents":{{"kind":"markdown","value":"{value}"}}}}}}"#
    ));
    let out = pipeline.process_incoming(&framed);
    (framed, out)
}

fn js() -> Transport {
    Transport::Js {
        path: "demo.js".to_string(),
        args: vec![],
    }
}

fn wasm() -> Transport {
    Transport::Wasm {
        path: "wasm-demo.wasm".to_string(),
    }
}

#[test]
fn rewrites_hover_via_js_plugin() {
    let (_, out) = hovered("JsType<", js(), "let x: JsType<i32> = ...;");
    let payload = lsp::payload(&out).unwrap();
    assert!(payload.contains("Js{i32}"), "expected rewritten type, got: {payload}");
    assert!(!payload.contains("JsType<"));
}

#[test]
fn untouched_when_no_marker_present_js() {
    let (framed, out) = hovered("JsType<", js(), "let x: String = ...;");
    assert_eq!(out, framed);
}

#[test]
fn rewrites_hover_via_wasm_plugin() {
    let (_, out) = hovered("WasmType<", wasm(), "let x: WasmType<i32> = ...;");
    let payload = lsp::payload(&out).unwrap();
    assert!(payload.contains("Wasm{i32}"), "expected rewritten type, got: {payload}");
    assert!(!payload.contains("WasmType<"));
}

#[test]
fn untouched_when_no_marker_present_wasm() {
    let (framed, out) = hovered("WasmType<", wasm(), "let x: String = ...;");
    assert_eq!(out, framed);
}

#[test]
fn a_handshake_ends_by_its_reply() {
    let silent = spawn(&manifest("m", None), |_| None);
    match silent {
        Err(PluginError::Call(message)) => assert_eq!(
            message,
            "plugin 'demo' timed out after 5000 ms; disabling it for this session"
        ),
        _ => panic!("a failed call"),
    }
    let odd = spawn(&manifest("m", None), |r| answered(r, json(r#"{"markers":[]}"#)));
    assert!(matches!(odd, Err(PluginError::Malformed)));
    // The manifest's name and markers count, not the reported ones.
    let other = spawn(&manifest("m", None), |r| answered(r, json(r#"["other",["x"]]"#)));
    let plugin = other.ok().unwrap();
    assert_eq!(plugin.name(), "m");
    assert_eq!(plugin.markers().len(), 1);
    assert_eq!(plugin.markers()[0], "DemoType<");
    assert_eq!(
        plugin.name_warning().as_deref(),
        Some("plugin manifest name 'm' does not match reported name 'other'")
    );
    let same = spawn(&manifest("m", None), |r| answered(r, json(r#"{"name":"m"}"#)));
    assert_eq!(same.ok().unwrap().name_warning(), None);
}

#[test]
fn a_session_counts_its_requests_and_disables_itself() {
    let mut s = RpcSession::new("cmd", 250);
    let first = s.begin("initialize", Json::Null).ok().unwrap();
    assert_eq!(first.id, 1);
    assert_eq!(first.line, r#"{"id":1,"method":"initialize","params":null}"#);
    let second = s.begin("transform", json(r#"{"a":"x\ny"}"#)).ok().unwrap();
    assert_eq!(second.id, 2);
    assert!(!second.line.contains('\n'));

    let answer = |id: u64, result: Option<Json>, error: Option<&str>| {
        Heard::Answer(Response {
            id,
            result,
            error: error.map(|e| e.to_string()),
        })
    };
    // None of these disables the plugin.
    let end = s.settle(2, answer(2, Some(Json::Bool(true)), None));
    assert!(matches!(end, Ok(Json::Bool(true))));
    let e = s.settle(2, answer(2, Some(Json::Null), Some("no"))).err().unwrap();
    assert_eq!(s.message(&e), "plugin 'cmd' error: no");
    let e = s.settle(2, answer(2, None, None)).err().unwrap();
    assert_eq!(s.message(&e), "plugin 'cmd' returned no result");
    let e = s.settle(2, Heard::InvalidJson).err().unwrap();
    assert_eq!(s.message(&e), "plugin 'cmd' returned invalid JSON");
    assert!(!s.dead);

    // Each of these does.
    let cases: Vec<(Heard, &str)> = vec![
        (answer(9, Some(Json::Null), None), "plugin 'cmd' response id 9 does not match request id 2"),
        (Heard::TimedOut, "plugin 'cmd' timed out after 250 ms; disabling it for this session"),
        (Heard::Closed, "plugin 'cmd' closed its stdout"),
        (Heard::WriteFailed("broken".to_string()), "plugin 'cmd' write failed: broken"),
    ];
    for (heard, text) in cases {
        let mut s = RpcSession::new("cmd", 250);
        let e = s.settle(2, heard).err().unwrap();
        assert_eq!(s.message(&e), text);
        assert!(s.dead);
        let e = s.begin("transform", Json::Null).err().unwrap();
        assert!(matches!(e, RpcError::Disabled));
        assert_eq!(
            s.message(&e),
            "plugin 'cmd' is disabled (previous timeout or I/O error)"
        );
    }
}

#[test]
fn request_ids_beyond_the_signed_range() {
    let request = Request {
        id: u64::MAX,
        method: "m".to_string(),
        params: None,
    };
    assert_eq!(
        write_json(&request.to_json()),
        r#"{"id":18446744073709551615,"method":"m"}"#
    );
    let mut s = RpcSession::new("cmd", 1);
    s.next_id = u64::MAX;
    assert_eq!(s.begin("m", Json::Null).ok().unwrap().id, u64::MAX);
    assert_eq!(s.next_id, 0);
}

#[test]
fn the_wire_forms() {
    let params = InitializeParams {
        protocol_version: PROTOCOL_VERSION,
        verbosity: 3,
        unicode: false,
    };
    assert_eq!(
        write_json(&params.to_json()),
        r#"{"protocol_version":2,"unicode":false,"verbosity":3}"#
    );
    let params = TransformParams {
        kind: TextKind::InlayHint,
        verbosity: 1,
        unicode: true,
        items: vec![TransformItem {
            text: "t".to_string(),
            original: "o".to_string(),
            position: Some(Json::integer(4)),
            text_edits: None,
        }],
    };
    assert_eq!(
        write_json(&params.to_json()),
        r#"{"items":[{"original":"o","position":4,"text":"t"}],"kind":"inlay_hint","unicode":true,"verbosity":1}"#
    );
    let result = InitializeResult {
        name: "n".to_string(),
        markers: vec!["a".to_string(), "b".to_string()],
    };
    let back = InitializeResult::from_json(&result.to_json()).unwrap();
    assert_eq!(back.name, "n");
    assert_eq!(back.markers, vec!["a", "b"]);
}

#[test]
fn reading_an_initialize_result() {
    let name = |t: &str| InitializeResult::from_json(&json(t)).map(|r| (r.name, r.markers.len()));
    assert_eq!(name(r#"{"name":"x","more":1}"#), Some(("x".to_string(), 0)));
    assert_eq!(name(r#"["x"]"#), Some(("x".to_string(), 0)));
    assert_eq!(name(r#"["x",["m"]]"#), Some(("x".to_string(), 1)));
    assert_eq!(name(r#"["x",["m"],1]"#), None);
    assert_eq!(name(r#"{"name":1}"#), None);
    assert_eq!(name(r#"{"name":"x","markers":null}"#), None);
    assert_eq!(name(r#"{"name":"x","markers":[1]}"#), None);
    assert_eq!(name("null"), None);
}

#[test]
fn reading_a_transform_result() {
    let read = |t: &str| TransformResult::from_json(&json(t));
    let result = read(r#"{"items":["a",{"text":"b","text_edits":[1,2]},{"text":"c","text_edits":null}]}"#)
        .unwrap();
    let texts: Vec<&str> = result.items.iter().map(|i| i.text()).collect();
    assert_eq!(texts, vec!["a", "b", "c"]);
    let edits: Vec<Option<usize>> = result
        .items
        .into_iter()
        .map(|i| i.into_parts().1.map(|e| e.len()))
        .collect();
    assert_eq!(edits, vec![None, Some(2), None]);
    assert_eq!(read(r#"[["a"]]"#).unwrap().items.len(), 1);
    assert!(read(r#"{"items":[1]}"#).is_none());
    assert!(read(r#"{"items":[["a"]]}"#).is_none());
    assert!(read(r#"{"items":[{"text":"a","text_edits":1}]}"#).is_none());
    assert!(read(r#"{"items":[{}]}"#).is_none());
    assert!(read("{}").is_none());
    assert!(TransformResultItem::from_json(&json(r#""x""#)).is_some());
}

#[test]
fn reading_a_reply() {
    let out = read_reply("old", &json(r#"{"items":["new","ignored"]}"#));
    assert_eq!(out.text, "new");
    assert!(matches!(out.text, std::borrow::Cow::Owned(_)));
    let out = read_reply("old", &json(r#"{"items":[{"text":"old","text_edits":[]}]}"#));
    assert!(matches!(out.text, std::borrow::Cow::Borrowed("old")));
    assert_eq!(out.text_edits.map(|e| e.len()), Some(0));
    for odd in [r#"{"items":[]}"#, "{}", "7"] {
        let out = read_reply("old", &json(odd));
        assert_eq!(out.text, "old");
        assert!(out.text_edits.is_none());
    }
}

#[test]
fn launching_a_plugin() {
    let mut m = manifest("p", None);
    let launch = build_transport(&m, None, None).unwrap();
    assert_eq!(launch.command, "python3");
    assert_eq!(launch.args, vec!["demo.py"]);
    assert!(!launch.run_as_node);

    m.transport = Transport::Js {
        path: "p.js".to_string(),
        args: vec!["-x".to_string()],
    };
    let launch = build_transport(&m, Some(" ".to_string()), None).unwrap();
    assert_eq!(launch.command, "node");
    assert_eq!(launch.args, vec!["p.js", "-x"]);
    assert!(launch.run_as_node);

    m.transport = Transport::Wasm {
        path: "p.wasm".to_string(),
    };
    assert!(build_transport(&m, None, Some("\t".to_string())).is_none());
    let launch =
        build_transport(&m, Some("/n".to_string()), Some("host.js".to_string())).unwrap();
    assert_eq!(launch.command, "/n");
    assert_eq!(launch.args, vec!["host.js", "p.wasm"]);

    assert!(missing_host_message("p").starts_with("plugin 'p' uses the wasm transport, but POTEMKIN_WASM_HOST is not set"));
    assert_eq!(resolve_node(Some("x".to_string())), "x");
    assert_eq!(timeout_of(&m, 7), 7);
    m.timeout_ms = Some(9);
    assert_eq!(timeout_of(&m, 7), 9);
}
