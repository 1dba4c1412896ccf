use std::borrow::Cow;

use potemkin::json::{parse_json, write_json, Json};
use potemkin::lsp;
use potemkin::pipeline::{absorb, finish_hint, finish_hover, label_text};
use potemkin::raw::build_raw_section;
use potemkin::tracking::{extract_response_id, is_tracked, request_to_track, Pending, MAX_PENDING};
use potemkin::{
    plugin_is_interested, Config, Pipeline, Plugin, RawConfig, TextKind, TransformContext,
    TransformOutput, DEFAULT_PLUGIN_TIMEOUT_MS,
};

/// Pretty-prints any text containing `Quantity`, and for inlay hints attaches a seeded edit
/// built from the hint position.
struct SeedPlugin {
    markers: Vec<Cow<'static, str>>,
}

impl Plugin for SeedPlugin {
    fn name(&self) -> &str {
        "seed"
    }
    fn markers(&self) -> &[Cow<'static, str>] {
        &self.markers
    }
    fn transform<'a>(&self, text: &'a str, ctx: &TransformContext<'_>) -> TransformOutput<'a> {
        if !text.contains("Quantity") {
            return TransformOutput::unchanged(text);
        }
        let pretty = ": Quantity<m, f64>".to_string();
        let text_edits = if ctx.kind == TextKind::InlayHint {
            ctx.position.map(|p| {
                let range = Json::object().with("start", p.dup()).with("end", p.dup());
                vec![Json::object()
                    .with("range", range)
                    .with("newText", Json::text(": qty!(m)"))]
            })
        } else {
            None
        };
        TransformOutput {
            text: Cow::Owned(pretty),
            text_edits,
        }
    }
}

/// Replaces one text by another, and attaches a marked edit where it has one.
struct Swap {
    name: &'static str,
    markers: Vec<Cow<'static, str>>,
    from: &'static str,
    to: &'static str,
    edit: Option<&'static str>,
}

impl Plugin for Swap {
    fn name(&self) -> &str {
        self.name
    }
    fn markers(&self) -> &[Cow<'static, str>] {
        &self.markers
    }
    fn transform<'a>(&self, text: &'a str, _ctx: &TransformContext<'_>) -> TransformOutput<'a> {
        let replaced = text.replace(self.from, self.to);
        let mut out = if replaced == text {
            TransformOutput::unchanged(text)
        } else {
            TransformOutput::text(Cow::Owned(replaced))
        };
        out.text_edits = self.edit.map(|e| vec![Json::text(e)]);
        out
    }
}

fn swap(name: &'static str, from: &'static str, to: &'static str) -> Box<dyn Plugin> {
    Box::new(Swap {
        name,
        markers: vec![Cow::Borrowed(from)],
        from,
        to,
        edit: None,
    })
}

fn seed_pipeline() -> Pipeline {
    let plugin: Box<dyn Plugin> = Box::new(SeedPlugin {
        markers: vec![Cow::Borrowed("Quantity")],
    });
    Pipeline::new(vec![plugin], Config::default())
}

fn raw_pipeline(raw: RawConfig) -> Pipeline {
    let plugin: Box<dyn Plugin> = Box::new(SeedPlugin {
        markers: vec![Cow::Borrowed("Quantity")],
    });
    Pipeline::new(
        vec![plugin],
        Config {
            raw,
            ..Config::default()
        },
    )
}

fn json(text: &str) -> Json {
    parse_json(text).expect("JSON")
}

fn text_of(v: &Json) -> String {
    write_json(v)
}

fn at<'a>(v: &'a Json, path: &[&str]) -> &'a Json {
    let mut cur = v;
    for step in path {
        cur = match cur {
            Json::Array(items) => &items[step.parse::<usize>().unwrap()],
            _ => cur.get(step).expect("a field"),
        };
    }
    cur
}

fn str_at<'a>(v: &'a Json, path: &[&str]) -> &'a str {
    at(v, path).as_str().expect("a string")
}

fn payload_json(message: &str) -> Json {
    json(lsp::payload(message).expect("framed payload"))
}

fn hover_value(pipe: &mut Pipeline, value: &str) -> String {
    let req = r#"{"jsonrpc":"2.0","id":1,"method":"textDocument/hover","params":{}}"#;
    pipe.process_outgoing(&lsp::frame(req));
    let contents = Json::object()
        .with("kind", Json::text("markdown"))
        .with("value", Json::text(value));
    let resp = Json::object()
        .with("jsonrpc", Json::text("2.0"))
        .with("id", Json::integer(1))
        .with("result", Json::object().with("contents", contents));
    let out = pipe.process_incoming(&lsp::frame(&text_of(&resp)));
    str_at(&payload_json(&out), &["result", "contents", "value"]).to_string()
}

#[test]
fn inlay_resolve_gets_seeded_text_edits() {
    let mut pipe = seed_pipeline();
    let req = r#"{"jsonrpc":"2.0","id":7,"method":"inlayHint/resolve","params":{}}"#;
    pipe.process_outgoing(&lsp::frame(req));

    let resp = r#"{"jsonrpc":"2.0","id":7,"result":{"position":{"line":1,"character":10},"label":[{"value":": "},{"value":"Quantity<Unit<Scale<..>>, f64>"}]}}"#;
    let out = pipe.process_incoming(&lsp::frame(resp));
    let v = payload_json(&out);

    assert_eq!(str_at(&v, &["result", "label", "0", "value"]), ": Quantity<m, f64>");
    let edits = match at(&v, &["result", "textEdits"]) {
        Json::Array(edits) => edits,
        _ => panic!("textEdits"),
    };
    assert_eq!(edits.len(), 1);
    assert_eq!(str_at(&edits[0], &["newText"]), ": qty!(m)");
    assert_eq!(at(&edits[0], &["range", "start", "line"]).as_i64(), Some(1));
}

#[test]
fn hover_is_rewritten_without_text_edits() {
    let mut pipe = seed_pipeline();
    let req = r#"{"jsonrpc":"2.0","id":3,"method":"textDocument/hover","params":{}}"#;
    pipe.process_outgoing(&lsp::frame(req));

    let resp = r#"{"jsonrpc":"2.0","id":3,"result":{"contents":{"kind":"markdown","value":"Quantity<Unit<..>>"}}}"#;
    let out = pipe.process_incoming(&lsp::frame(resp));
    let v = payload_json(&out);

    assert_eq!(str_at(&v, &["result", "contents", "value"]), ": Quantity<m, f64>");
    assert!(at(&v, &["result"]).get("textEdits").is_none());
}

#[test]
fn raw_disabled_appends_nothing() {
    let mut pipe = raw_pipeline(RawConfig::default());
    let out = hover_value(&mut pipe, "Quantity<Unit<..>>");
    assert_eq!(out, ": Quantity<m, f64>");
    assert!(!out.contains("Raw:"));
}

#[test]
fn raw_markdown_fence_and_separator() {
    let mut pipe = raw_pipeline(RawConfig {
        enabled: true,
        label: "Raw:".to_string(),
        fence: Some("rust".to_string()),
        separator: true,
    });
    let out = hover_value(&mut pipe, "Quantity<Unit<..>>");
    assert!(out.starts_with(": Quantity<m, f64>"), "pretty first: {out}");
    assert!(out.contains("\n\n---\n\nRaw:\n\n```rust\n"), "fenced header: {out}");
    assert!(out.contains("Quantity<Unit<..>>"), "raw body present: {out}");
    assert!(out.trim_end().ends_with("```"), "fence closed: {out}");
}

#[test]
fn raw_plaintext_no_fence() {
    let mut pipe = raw_pipeline(RawConfig {
        enabled: true,
        label: "Raw:".to_string(),
        fence: None,
        separator: false,
    });
    let out = hover_value(&mut pipe, "Quantity<Unit<..>>");
    assert_eq!(out, ": Quantity<m, f64>\n\nRaw:\n\nQuantity<Unit<..>>");
    assert!(!out.contains("```"), "no fence in plaintext mode: {out}");
}

#[test]
fn raw_shows_only_changed_lines() {
    let plugin: Box<dyn Plugin> = Box::new(Swap {
        name: "line-seed",
        markers: vec![Cow::Borrowed("Quantity")],
        from: "Type: Quantity<Unit<..>>",
        to: "Type: Q<m>",
        edit: None,
    });
    let mut pipe = Pipeline::new(
        vec![plugin],
        Config {
            raw: RawConfig {
                enabled: true,
                label: "Raw:".to_string(),
                fence: None,
                separator: false,
            },
            ..Config::default()
        },
    );
    let value = "variable x\n\nType: Quantity<Unit<..>>\nextra: keepme";
    let out = hover_value(&mut pipe, value);
    assert!(out.contains("Type: Q<m>"), "line rewritten: {out}");
    assert!(out.contains("Raw:\n\nType: Quantity<Unit<..>>"), "raw = changed line: {out}");
    assert_eq!(out.matches("keepme").count(), 1, "unchanged line not in raw: {out}");
    assert_eq!(out.matches("variable x").count(), 1, "unchanged line not in raw: {out}");
}

#[test]
fn raw_section_edges() {
    let mut raw = RawConfig {
        enabled: true,
        label: String::new(),
        fence: Some("cpp".to_string()),
        separator: false,
    };
    // Two lines are gone, a blank one and a kept one are not shown.
    let section = build_raw_section("a1\r\n\n kept \nb2\n", "x kept y", &raw);
    assert_eq!(section.as_deref(), Some("\n\n```cpp\na1\nb2\n```"));
    // The change was within the lines: the whole original is shown, trimmed.
    raw.fence = None;
    assert_eq!(
        build_raw_section("  abc  ", "_abc_", &raw).as_deref(),
        Some("\n\nabc")
    );
    // Nothing worth showing.
    assert_eq!(build_raw_section(" \n ", "x", &raw), None);
    raw.enabled = false;
    assert_eq!(build_raw_section("abc", "x", &raw), None);
}

#[test]
fn defaults_of_the_options() {
    let config = Config::default();
    assert_eq!(config.verbosity, 0);
    assert!(config.unicode);
    assert_eq!(config.plugin_timeout_ms, DEFAULT_PLUGIN_TIMEOUT_MS);
    assert_eq!(DEFAULT_PLUGIN_TIMEOUT_MS, 5000);
    assert_eq!(config.raw.label, "Raw:");
    assert!(!config.raw.enabled && config.raw.fence.is_none() && !config.raw.separator);
}

#[test]
fn plugins_run_in_order_over_each_others_output() {
    let mut pipe = Pipeline::new(
        vec![swap("one", "A", "B"), swap("two", "B", "C"), swap("three", "A", "never")],
        Config::default(),
    );
    assert_eq!(pipe.plugin_names(), vec!["one", "two", "three"]);
    assert_eq!(hover_value(&mut pipe, "xAx"), "xCx");
}

#[test]
fn the_last_edits_win_even_without_a_new_label() {
    let edit = |name: &'static str, edit: &'static str| -> Box<dyn Plugin> {
        Box::new(Swap {
            name,
            markers: vec![],
            from: "nothing",
            to: "",
            edit: Some(edit),
        })
    };
    let pipe = Pipeline::new(vec![edit("a", "first"), edit("b", "last")], Config::default());
    let hint = json(r#"{"label":"x","textEdits":["old"],"kind":1}"#);
    let (new, changed) = pipe.rewriter.rewrite_inlay_hint(&hint);
    assert!(changed);
    assert!(new.same(&json(r#"{"label":"x","textEdits":["last"],"kind":1}"#)));
}

#[test]
fn a_split_label_becomes_one_part_with_the_first_location() {
    let pipe = Pipeline::new(vec![swap("s", "AB", "Z")], Config::default());
    let hint = json(
        r#"{"label":[{"value":"A"},{"value":"B","location":"l1"},{"location":"l2"},7],"data":5}"#,
    );
    assert_eq!(label_text(&hint).as_deref(), Some("AB"));
    let (new, changed) = pipe.rewriter.rewrite_inlay_hint(&hint);
    assert!(changed);
    assert!(new.same(&json(r#"{"label":[{"value":"Z","location":"l1"}],"data":5}"#)));
    // No label, no text.
    let (same, changed) = pipe.rewriter.rewrite_inlay_hint(&json(r#"{"position":1}"#));
    assert!(!changed && same.same(&json(r#"{"position":1}"#)));
    let (same, changed) = pipe.rewriter.rewrite_inlay_hint(&json(r#"{"label":3}"#));
    assert!(!changed && same.same(&json(r#"{"label":3}"#)));
}

#[test]
fn finishing_a_hint_and_a_hover() {
    let hint = json(r#"{"label":"a","textEdits":[1]}"#);
    let (same, changed) = finish_hint(&hint, "a", None);
    assert!(!changed && same.same(&hint));
    let (new, changed) = finish_hint(&hint, "b", Some(vec![]));
    assert!(changed && new.same(&json(r#"{"label":"b","textEdits":[]}"#)));

    let raw = RawConfig::default();
    assert_eq!(finish_hover("a", "a".to_string(), &raw), ("a".to_string(), false));
    assert_eq!(finish_hover("a", "b".to_string(), &raw), ("b".to_string(), true));
}

#[test]
fn absorbing_an_output() {
    let kept = absorb("now", Some(vec![Json::Null]), TransformOutput::unchanged("now"));
    assert_eq!(kept.0, "now");
    assert_eq!(kept.1.map(|e| e.len()), Some(1));
    let mut out = TransformOutput::text(Cow::Owned("next".to_string()));
    out.text_edits = Some(vec![]);
    let next = absorb("now", Some(vec![Json::Null]), out);
    assert_eq!(next.0, "next");
    assert_eq!(next.1.map(|e| e.len()), Some(0));
    // A text counts, however it is held.
    assert_eq!(absorb("now", None, TransformOutput::text("next")).0, "next");
    assert_eq!(absorb("now", None, TransformOutput::text("next".to_string())).0, "next");
}

/// Answers every text with a borrowed one of its own.
struct Fixed;

impl Plugin for Fixed {
    fn name(&self) -> &str {
        "fixed"
    }
    fn markers(&self) -> &[Cow<'static, str>] {
        &[]
    }
    fn transform<'a>(&self, _text: &'a str, _ctx: &TransformContext<'_>) -> TransformOutput<'a> {
        TransformOutput::text("short")
    }
}

#[test]
fn a_borrowed_text_is_a_rewritten_text() {
    let pipe = Pipeline::new(vec![Box::new(Fixed)], Config::default());
    let mut text = "long".to_string();
    let (changed, edits) = pipe.rewriter.apply_chain(&mut text, TextKind::Hover, None, None);
    assert!(changed && edits.is_none());
    assert_eq!(text, "short");
    let (changed, _) = pipe.rewriter.apply_chain(&mut text, TextKind::Hover, None, None);
    assert!(!changed);
    assert_eq!(text, "short");
}

#[test]
fn a_request_of_the_server_answers_nothing() {
    let mut pipe = Pipeline::new(vec![swap("s", "Quantity<X>", "Q")], Config::default());
    pipe.process_outgoing(&lsp::frame(r#"{"id":3,"method":"textDocument/hover"}"#));
    for body in [
        r#"{"id":3,"method":"workspace/configuration","params":{}}"#,
        // The response to another request, with a field of that name in its result.
        r#"{"result":{"id":3,"contents":"Quantity<X>"},"id":4}"#,
    ] {
        let message = lsp::frame(body);
        assert_eq!(pipe.process_incoming(&message), message);
    }
    let resp = lsp::frame(r#"{"id":3,"result":{"contents":"Quantity<X>"}}"#);
    let out = pipe.process_incoming(&resp);
    assert_eq!(out, lsp::frame(r#"{"id":3,"result":{"contents":"Q"}}"#));
    assert_eq!(pipe.process_incoming(&resp), resp);
}

#[test]
fn a_broken_answer_settles_its_request() {
    let resp = lsp::frame(r#"{"id":3,"result":{"contents":"Quantity<X>"}}"#);
    for body in [
        r#"{"id":3,"result":"#,
        r#"{"id":3.0,"error":"Quantity<X>"}"#,
        r#"{"id":3,"error":"Quantity<X>"}"#,
    ] {
        let mut pipe = Pipeline::new(vec![swap("s", "Quantity<X>", "Q")], Config::default());
        pipe.process_outgoing(&lsp::frame(r#"{"id":3,"method":"textDocument/hover"}"#));
        let message = lsp::frame(body);
        assert_eq!(pipe.process_incoming(&message), message);
        assert_eq!(pipe.process_incoming(&resp), resp, "{body}");
    }
}

#[test]
fn every_shape_of_a_hover_is_rewritten() {
    let pipe = Pipeline::new(vec![swap("s", "A", "B")], Config::default());
    let cases = [
        (r#"{"contents":"A"}"#, r#"{"contents":"B"}"#, true),
        (
            r#"{"contents":{"language":"x","value":"A"},"range":0}"#,
            r#"{"contents":{"language":"x","value":"B"},"range":0}"#,
            true,
        ),
        (
            r#"{"contents":["n",["A"],{"value":"A"},7]}"#,
            r#"{"contents":["n",["B"],{"value":"B"},7]}"#,
            true,
        ),
        (r#"{"contents":{"value":7}}"#, r#"{"contents":{"value":7}}"#, false),
        (r#"{"contents":null}"#, r#"{"contents":null}"#, false),
        (r#"[{"label":"A"},{"label":"n"}]"#, r#"[{"label":"B"},{"label":"n"}]"#, true),
        (r#"{"label":"A"}"#, r#"{"label":"B"}"#, true),
        (r#"{"other":"A"}"#, r#"{"other":"A"}"#, false),
        ("null", "null", false),
    ];
    for (before, after, changed) in cases {
        let (new, flag) = pipe.rewriter.rewrite_result(&json(before));
        assert_eq!(flag, changed, "{before}");
        assert!(new.same(&json(after)), "{before}");
    }
}

#[test]
fn a_response_is_rewritten_once_and_keeps_its_envelope() {
    let mut pipe = Pipeline::new(vec![swap("s", "A", "B")], Config::default());
    let req = r#"{"jsonrpc":"2.0","id":-4,"method":"textDocument/inlayHint"}"#;
    assert_eq!(pipe.process_outgoing(&lsp::frame(req)), lsp::frame(req));
    let resp = lsp::frame(r#"{"jsonrpc":"2.0","id":-4,"result":[{"label":"A"}],"extra":[1,2]}"#);
    let out = pipe.process_incoming(&resp);
    assert!(payload_json(&out)
        .same(&json(r#"{"jsonrpc":"2.0","id":-4,"result":[{"label":"B"}],"extra":[1,2]}"#)));
    assert_eq!(pipe.process_incoming(&resp), resp);
}

#[test]
fn what_goes_wrong_is_forwarded_untouched() {
    let mut pipe = Pipeline::new(vec![swap("s", "A", "B")], Config::default());
    let track = |pipe: &mut Pipeline| {
        let req = r#"{"id":1,"method":"textDocument/hover"}"#;
        pipe.process_outgoing(&lsp::frame(req));
    };
    for body in [
        r#"{"id":1,"result":{"contents":"A"}"#,
        r#"{"id":1,"error":"A"}"#,
        r#"{"id":1,"result":{"contents":"n"}}"#,
        r#"{"id":"1","result":{"contents":"A"}}"#,
        r#"{"method":"A"}"#,
    ] {
        track(&mut pipe);
        let message = lsp::frame(body);
        assert_eq!(pipe.process_incoming(&message), message);
    }
    assert_eq!(pipe.process_incoming("no frame A"), "no frame A");
}

#[test]
fn which_requests_are_tracked() {
    assert!(is_tracked("textDocument/hover"));
    assert!(is_tracked("textDocument/inlayHint"));
    assert!(is_tracked("inlayHint/resolve"));
    assert!(!is_tracked("textDocument/definition"));
    assert_eq!(request_to_track(r#"{"id":5,"method":"textDocument/hover"}"#), Some(5));
    assert_eq!(request_to_track(r#"{"id":"5","method":"textDocument/hover"}"#), None);
    assert_eq!(request_to_track(r#"{"id":5,"method":"x","p":"textDocument/hover"}"#), None);
    assert_eq!(request_to_track(r#"{"id":5,"method":"shutdown"}"#), None);
    assert_eq!(request_to_track(r#"{"id":5,"method":"textDocument/hover""#), None);
}

#[test]
fn response_ids() {
    assert_eq!(extract_response_id(r#"{"id":7,"result":{"id":8}}"#), Some(7));
    assert_eq!(extract_response_id("{\"id\": \t-12}"), Some(-12));
    assert_eq!(extract_response_id(r#"{"id":"7"}"#), None);
    assert_eq!(extract_response_id(r#"{"id":-}"#), None);
    assert_eq!(extract_response_id(r#"{"method":"x"}"#), None);
    assert_eq!(extract_response_id(r#"{"id":-9223372036854775808}"#), Some(i64::MIN));
    assert_eq!(extract_response_id(r#"{"id":9223372036854775807}"#), Some(i64::MAX));
    assert_eq!(extract_response_id(r#"{"id":9223372036854775808}"#), None);
}

#[test]
fn a_full_set_of_pending_ids_is_emptied() {
    let mut pending = Pending::new();
    for id in 0..MAX_PENDING as i64 {
        pending.note(id);
    }
    pending.note(-1);
    assert!(!pending.claim(0));
    assert!(pending.claim(-1));
    assert!(!pending.claim(-1));
}

#[test]
fn interest_goes_by_markers() {
    let any = Swap {
        name: "any",
        markers: vec![],
        from: "",
        to: "",
        edit: None,
    };
    assert!(plugin_is_interested(&any, ""));
    let some = swap("some", "Foo<", "");
    assert!(plugin_is_interested(some.as_ref(), "a Foo<b>"));
    assert!(!plugin_is_interested(some.as_ref(), "a Foo"));
}
