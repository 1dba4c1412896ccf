use std::collections::HashMap;

use potemkin::config_layer::Disk;
use potemkin::json::{parse_json, write_json, Json};
use potemkin::lsp::{frame, payload};
use potemkin::mock_lsp::MockServer;
use potemkin::mux::{Action, Mux};
use potemkin::paths::FilePath;

fn json(text: &str) -> Json {
    parse_json(text).expect("JSON")
}

fn framed(text: &str) -> String {
    frame(text)
}

fn body(message: &str) -> Json {
    json(payload(message).expect("a payload"))
}

fn new_mux() -> Mux {
    Mux::new("server".to_string(), vec!["--stdio".to_string()], Some("mock-ls".to_string()), false)
}

fn show(actions: &[Action]) -> Vec<String> {
    actions
        .iter()
        .map(|a| match a {
            Action::ToEditor(m) => format!("editor {}", payload(m).unwrap()),
            Action::Rewrite(m) => format!("rewrite {}", payload(m).unwrap()),
            Action::Start { backend, message } => {
                format!("start {backend} {}", payload(message).unwrap())
            }
            Action::ToBackend { backend, message } => {
                format!("backend {backend} {}", payload(message).unwrap())
            }
        })
        .collect()
}

/// An editor session over real mock servers, all in one process.
struct Session {
    mux: Mux,
    disk: Disk,
    servers: HashMap<usize, MockServer>,
    to_editor: Vec<Json>,
}

impl Session {
    fn send(&mut self, text: &str) {
        let message = framed(text);
        let actions = self.mux.on_editor_message(&message, &self.disk);
        self.perform(actions);
    }

    fn perform(&mut self, actions: Vec<Action>) {
        for action in actions {
            match action {
                Action::ToEditor(m) | Action::Rewrite(m) => self.editor_hears(&m),
                Action::Start { backend, message } => {
                    self.servers.insert(backend, MockServer::new());
                    self.server_hears(backend, &message);
                }
                Action::ToBackend { backend, message } => self.server_hears(backend, &message),
            }
        }
    }

    fn server_hears(&mut self, backend: usize, message: &str) {
        let out = self
            .servers
            .get_mut(&backend)
            .expect("a server")
            .on_message(payload(message).unwrap());
        for reply in out.sent {
            let actions = self.mux.on_backend_message(backend, &reply);
            self.perform(actions);
        }
    }

    /// The editor answers every `workspace/configuration` with `cfg`.
    fn editor_hears(&mut self, message: &str) {
        let v = body(message);
        if v.get_str("method") == Some("workspace/configuration") {
            let reply = Json::object()
                .with("jsonrpc", Json::text("2.0"))
                .with("id", v.get("id").unwrap().dup())
                .with("result", json(r#"["cfg"]"#));
            self.send(&write_json(&reply));
        } else {
            self.to_editor.push(v);
        }
    }

    fn take_id(&mut self, id: i64) -> Json {
        let at = self
            .to_editor
            .iter()
            .position(|v| v.get("id").and_then(|i| i.as_i64()) == Some(id))
            .expect("a response");
        self.to_editor.remove(at)
    }
}

#[test]
fn multiplexer_routes_per_directory_config() {
    let mut disk = Disk::new();
    disk.add_dir(FilePath::new("/proj"));
    disk.add_dir(FilePath::new("/proj/sub"));
    disk.add_config(
        FilePath::new("/proj"),
        Some("[servers.mock-ls]\nscopeTag = \"root\"\n".to_string()),
    );
    disk.add_config(
        FilePath::new("/proj/sub"),
        Some("[servers.mock-ls]\nscopeTag = \"override\"\n".to_string()),
    );
    let mut s = Session {
        mux: new_mux(),
        disk,
        servers: HashMap::new(),
        to_editor: Vec::new(),
    };

    s.send(r#"{"jsonrpc":"2.0","id":1,"method":"initialize","params":{"rootUri":"file:///proj","workspaceFolders":[{"uri":"file:///proj","name":"proj"}],"initializationOptions":{}}}"#);
    let init = s.take_id(1);
    assert_eq!(
        init.get("result").unwrap().get("serverInfo").unwrap().get_str("name"),
        Some("mock-lsp"),
        "primary backend's initialize result should be relayed to the editor"
    );
    s.send(r#"{"jsonrpc":"2.0","method":"initialized","params":{}}"#);
    for uri in ["file:///proj/main.rs", "file:///proj/sub/lib.rs"] {
        s.send(&format!(
            r#"{{"jsonrpc":"2.0","method":"textDocument/didOpen","params":{{"textDocument":{{"uri":"{uri}","languageId":"rust","version":1,"text":""}}}}}}"#
        ));
    }
    let hover = |s: &mut Session, id: i64, uri: &str| {
        s.send(&format!(
            r#"{{"jsonrpc":"2.0","id":{id},"method":"textDocument/hover","params":{{"textDocument":{{"uri":"{uri}"}},"position":{{"line":0,"character":0}}}}}}"#
        ));
        let v = s.take_id(id);
        let contents = v.get("result").unwrap().get("contents").unwrap();
        contents.get_str("value").unwrap().to_string()
    };
    assert_eq!(
        hover(&mut s, 2, "file:///proj/main.rs"),
        "root",
        "root file should be served by the default backend (root potemkin.toml)"
    );
    assert_eq!(hover(&mut s, 3, "file:///proj/sub/lib.rs"), "override");

    let definition = |s: &mut Session, id: i64, uri: &str| {
        s.send(&format!(
            r#"{{"jsonrpc":"2.0","id":{id},"method":"textDocument/definition","params":{{"textDocument":{{"uri":"{uri}"}},"position":{{"line":0,"character":0}}}}}}"#
        ));
        s.take_id(id).get("result").unwrap().get_str("value").unwrap().to_string()
    };
    assert_eq!(definition(&mut s, 5, "file:///proj/main.rs"), "root:cfg");
    assert_eq!(definition(&mut s, 6, "file:///proj/sub/lib.rs"), "override:cfg");

    s.send(r#"{"jsonrpc":"2.0","id":7,"method":"shutdown"}"#);
    let reply = s.take_id(7);
    assert!(reply.get("result").unwrap().same(&Json::Null), "shutdown should reply with null");
    assert!(s.to_editor.is_empty(), "a single reply");
    s.send(r#"{"jsonrpc":"2.0","method":"exit","params":null}"#);
    assert_eq!(s.mux.shutdown(), vec![0, 1]);
}

#[test]
fn traffic_waits_for_the_handshake() {
    let mut mux = new_mux();
    let disk = Disk::new();
    let out = mux.on_editor_message(
        &framed(r#"{"id":"i","method":"initialize","params":{"x":1}}"#),
        &disk,
    );
    assert_eq!(
        show(&out),
        vec![r#"start 0 {"id":1,"jsonrpc":"2.0","method":"initialize","params":{"x":1}}"#]
    );
    let didopen = r#"{"method":"textDocument/didOpen","params":{"textDocument":{"uri":"file:///a"}}}"#;
    assert!(mux.on_editor_message(&framed(didopen), &disk).is_empty());
    assert!(mux
        .on_editor_message(&framed(r#"{"id":[5],"method":"textDocument/hover"}"#), &disk)
        .is_empty());
    assert!(mux.on_editor_message(&framed(r#"{"method":"$/x"}"#), &disk).is_empty());
    let out = mux.on_backend_message(0, &framed(r#"{"id":1,"result":{"c":2}}"#));
    assert_eq!(
        show(&out),
        vec![
            r#"backend 0 {"jsonrpc":"2.0","method":"initialized","params":{}}"#.to_string(),
            format!("backend 0 {didopen}"),
            r#"backend 0 {"id":2,"method":"textDocument/hover"}"#.to_string(),
            r#"backend 0 {"method":"$/x"}"#.to_string(),
            r#"editor {"id":"i","result":{"c":2}}"#.to_string(),
        ]
    );
    // A second response under the id of the handshake is nobody's.
    assert!(mux.on_backend_message(0, &framed(r#"{"id":1,"result":{"c":2}}"#)).is_empty());
    // The answer goes back under the editor's id, once.
    let answer = framed(r#"{"id":2,"result":7}"#);
    assert_eq!(show(&mux.on_backend_message(0, &answer)), vec![r#"editor {"id":[5],"result":7}"#]);
    assert!(mux.on_backend_message(0, &answer).is_empty());
    assert_eq!(mux.server_path(), "server");
    assert_eq!(mux.args(), &vec!["--stdio".to_string()]);
}

#[test]
fn tracked_responses_go_by_way_of_the_plugins() {
    let mut mux = new_mux();
    let disk = Disk::new();
    mux.on_editor_message(&framed(r#"{"id":0,"method":"initialize"}"#), &disk);
    mux.on_backend_message(0, &framed(r#"{"id":1,"result":null}"#));
    let ask = |mux: &mut Mux, text: &str| show(&mux.on_editor_message(&framed(text), &disk));
    assert_eq!(
        ask(&mut mux, r#"{"id":70,"method":"textDocument/hover"}"#),
        vec![r#"backend 0 {"id":2,"method":"textDocument/hover"}"#]
    );
    ask(&mut mux, r#"{"id":71,"method":"textDocument/rename"}"#);
    let hear = |mux: &mut Mux, text: &str| show(&mux.on_backend_message(0, &framed(text)));
    assert_eq!(hear(&mut mux, r#"{"id":3,"result":1}"#), vec![r#"editor {"id":71,"result":1}"#]);
    assert_eq!(hear(&mut mux, r#"{"id":2,"result":1}"#), vec![r#"rewrite {"id":70,"result":1}"#]);
    assert!(hear(&mut mux, r#"{"id":"2","result":1}"#).is_empty());
    assert_eq!(hear(&mut mux, r#"{"method":"note"}"#), vec![r#"editor {"method":"note"}"#]);
    assert!(hear(&mut mux, r#"{"odd":1}"#).is_empty());
    assert!(hear(&mut mux, "no json").is_empty());
    assert!(mux.on_backend_message(0, "no frame").is_empty());
}

#[test]
fn a_reply_goes_to_the_backend_that_asked() {
    let mut disk = Disk::new();
    disk.add_config(
        FilePath::new("/w/x"),
        Some("[servers.mock-ls]\na = 1\n".to_string()),
    );
    let mut mux = new_mux();
    mux.on_editor_message(
        &framed(r#"{"id":0,"method":"initialize","params":{"rootPath":"/w"}}"#),
        &disk,
    );
    mux.on_backend_message(0, &framed(r#"{"id":1,"result":null}"#));
    let out = mux.on_editor_message(
        &framed(r#"{"method":"textDocument/didOpen","params":{"textDocument":{"uri":"file:///w/x/f"}}}"#),
        &disk,
    );
    assert_eq!(
        show(&out),
        vec![r#"start 1 {"id":2,"jsonrpc":"2.0","method":"initialize","params":{"initializationOptions":{"a":1},"rootPath":"/w"}}"#]
    );
    // The second backend's handshake tells the editor nothing.
    assert_eq!(show(&mux.on_backend_message(1, &framed(r#"{"id":2,"result":null}"#))).len(), 2);
    // Both ask under the same id of their own.
    let ask = framed(r#"{"id":"q","method":"m"}"#);
    assert_eq!(show(&mux.on_backend_message(0, &ask)), vec![r#"editor {"id":3,"method":"m"}"#]);
    assert_eq!(show(&mux.on_backend_message(1, &ask)), vec![r#"editor {"id":4,"method":"m"}"#]);
    let reply = |mux: &mut Mux, id: i64| {
        show(&mux.on_editor_message(&framed(&format!(r#"{{"id":{id},"result":0}}"#)), &disk))
    };
    assert_eq!(reply(&mut mux, 4), vec![r#"backend 1 {"id":"q","result":0}"#]);
    assert_eq!(reply(&mut mux, 3), vec![r#"backend 0 {"id":"q","result":0}"#]);
    assert!(reply(&mut mux, 3).is_empty());
    // Shutdown goes to both; only the primary's reply is relayed.
    let out = mux.on_editor_message(&framed(r#"{"id":9,"method":"shutdown"}"#), &disk);
    assert_eq!(
        show(&out),
        vec![
            r#"backend 0 {"id":5,"jsonrpc":"2.0","method":"shutdown"}"#,
            r#"backend 1 {"id":6,"jsonrpc":"2.0","method":"shutdown"}"#,
        ]
    );
    assert!(mux.on_backend_message(1, &framed(r#"{"id":6,"result":null}"#)).is_empty());
    assert_eq!(
        show(&mux.on_backend_message(0, &framed(r#"{"id":5,"result":null}"#))),
        vec![r#"editor {"id":9,"result":null}"#]
    );
    let out = mux.on_editor_message(&framed(r#"{"method":"exit"}"#), &disk);
    assert_eq!(out.len(), 2);
}

#[test]
fn a_backend_that_cannot_start_is_as_if_it_had_never_been() {
    let disk = Disk::new();
    let mut mux = new_mux();
    let init = framed(r#"{"id":0,"method":"initialize"}"#);
    assert_eq!(show(&mux.on_editor_message(&init, &disk)).len(), 1);
    mux.on_start_failed(0);
    assert!(mux.shutdown().is_empty());
    let out = mux.on_editor_message(&framed(r#"{"id":3,"method":"shutdown"}"#), &disk);
    assert_eq!(show(&out), vec![r#"editor {"id":3,"jsonrpc":"2.0","result":null}"#]);
    // The next one is brought up under another number, and is the primary.
    let out = mux.on_editor_message(&init, &disk);
    assert_eq!(
        show(&out),
        vec![r#"start 1 {"id":2,"jsonrpc":"2.0","method":"initialize","params":{}}"#]
    );
    let out = mux.on_backend_message(1, &framed(r#"{"id":2,"result":8}"#));
    assert_eq!(show(&out)[1], r#"editor {"id":0,"result":8}"#);
    mux.on_start_failed(7);
    assert_eq!(mux.shutdown(), vec![1]);
}

#[test]
fn the_paths_that_a_message_brings_into_play() {
    let disk = Disk::new();
    let mut mux = new_mux();
    let texts = |mux: &Mux, text: &str| -> Vec<String> {
        mux.paths_of_interest(&framed(text)).iter().map(|p| p.text()).collect()
    };
    let init = r#"{"id":0,"method":"initialize","params":{"rootUri":"file:///w"}}"#;
    assert_eq!(texts(&mux, init), vec!["/w"]);
    mux.on_editor_message(&framed(init), &disk);
    let open = r#"{"method":"m","params":{"textDocument":{"uri":"file:///w/a/f"}}}"#;
    assert_eq!(texts(&mux, open), vec!["/w", "/w/a/f"]);
    assert_eq!(texts(&mux, "no json").len(), 0);
}

#[test]
fn the_mock_server() {
    let mut mock = MockServer::new();
    let say = |mock: &mut MockServer, text: &str| -> (Vec<String>, bool) {
        let out = mock.on_message(text);
        let sent = out.sent.iter().map(|m| payload(m).unwrap().to_string()).collect();
        (sent, out.ends)
    };
    assert_eq!(
        say(&mut mock, r#"{"id":1,"method":"textDocument/hover"}"#).0,
        vec![r#"{"id":1,"jsonrpc":"2.0","result":{"contents":{"kind":"plaintext","value":"none"}}}"#]
    );
    assert_eq!(say(&mut mock, "x"), (vec![], false));
    assert_eq!(say(&mut mock, r#"{"method":"initialized"}"#), (vec![], false));
    let ask = say(&mut mock, r#"{"id":2,"method":"textDocument/definition"}"#);
    assert_eq!(
        ask.0,
        vec![r#"{"id":9000,"jsonrpc":"2.0","method":"workspace/configuration","params":{"items":[{"section":"probe"}]}}"#]
    );
    // Everything but the reply is ignored meanwhile.
    assert_eq!(say(&mut mock, r#"{"id":9000,"method":"exit"}"#), (vec![], false));
    assert_eq!(
        say(&mut mock, r#"{"id":9000,"result":["v"]}"#).0,
        vec![r#"{"id":2,"jsonrpc":"2.0","result":{"value":"none:v"}}"#]
    );
    assert_eq!(
        say(&mut mock, r#"{"method":"shutdown"}"#).0,
        vec![r#"{"id":null,"jsonrpc":"2.0","result":null}"#]
    );
    say(&mut mock, r#"{"id":3,"method":"textDocument/definition"}"#);
    // No frame could be read: the value is empty, and the server goes on.
    let end = mock.on_end();
    assert!(!end.ends);
    assert_eq!(
        payload(&end.sent[0]),
        Some(r#"{"id":3,"jsonrpc":"2.0","result":{"value":"none:"}}"#)
    );
    assert_eq!(say(&mut mock, r#"{"id":4,"method":"shutdown"}"#).0.len(), 1);
    assert!(mock.on_end().ends);
    assert!(MockServer::new().on_message(r#"{"method":"exit"}"#).ends);
    assert!(MockServer::new().on_end().ends);
}

#[test]
fn every_root_is_served_with_its_own_settings() {
    let mut disk = Disk::new();
    for (dir, tag) in [("/a", "one"), ("/b", "two"), ("/b/in", "three")] {
        disk.add_dir(FilePath::new(dir));
        let text = format!("[servers.mock-ls]\nscopeTag = \"{tag}\"\n");
        disk.add_config(FilePath::new(dir), Some(text));
    }
    let mut s = Session {
        mux: new_mux(),
        disk,
        servers: HashMap::new(),
        to_editor: Vec::new(),
    };
    s.send(r#"{"id":1,"method":"initialize","params":{"workspaceFolders":[{"uri":"file:///a"},{"uri":"file:///b"}]}}"#);
    let cases = [
        ("/a/f", "one"),
        ("/b/f", "two"),
        ("/b/in/deep/f", "three"),
        ("/b/out/f", "two"),
        ("/elsewhere/f", "one"),
    ];
    for (i, (path, tag)) in cases.iter().enumerate() {
        let id = 10 + i as i64;
        s.send(&format!(
            r#"{{"id":{id},"method":"textDocument/hover","params":{{"textDocument":{{"uri":"file://{path}"}}}}}}"#
        ));
        let contents = s.take_id(id).get("result").unwrap().get("contents").unwrap().dup();
        assert_eq!(contents.get_str("value"), Some(*tag), "{path}");
    }
    assert_eq!(s.mux.shutdown(), vec![0, 1, 2]);
}

#[test]
fn answers_come_back_across_other_traffic() {
    let mut disk = Disk::new();
    disk.add_config(FilePath::new("/w/x"), Some("[servers.mock-ls]\na = 1\n".to_string()));
    let mut mux = new_mux();
    let editor = |mux: &mut Mux, text: &str| show(&mux.on_editor_message(&framed(text), &disk));
    let backend = |mux: &mut Mux, id: usize, text: &str| {
        show(&mux.on_backend_message(id, &framed(text)))
    };
    editor(&mut mux, r#"{"id":0,"method":"initialize","params":{"rootPath":"/w"}}"#);
    backend(&mut mux, 0, r#"{"id":1,"result":null}"#);
    assert_eq!(
        editor(&mut mux, r#"{"id":"slow","method":"m"}"#),
        vec![r#"backend 0 {"id":2,"method":"m"}"#]
    );
    assert_eq!(
        backend(&mut mux, 0, r#"{"id":2,"method":"ask"}"#),
        vec![r#"editor {"id":3,"method":"ask"}"#]
    );
    // Another backend comes up, and others ask and answer.
    let open = r#"{"method":"textDocument/didOpen","params":{"textDocument":{"uri":"file:///w/x/f"}}}"#;
    assert_eq!(editor(&mut mux, open).len(), 1);
    editor(&mut mux, r#"{"id":"quick","method":"m"}"#);
    assert_eq!(
        backend(&mut mux, 0, r#"{"id":5,"result":1}"#),
        vec![r#"editor {"id":"quick","result":1}"#]
    );
    assert_eq!(backend(&mut mux, 1, r#"{"id":4,"result":null}"#).len(), 2);
    // The scope keeps its backend.
    assert_eq!(editor(&mut mux, open), vec![format!("backend 1 {open}")]);
    // Both old requests are still answered, once.
    assert_eq!(
        backend(&mut mux, 0, r#"{"id":2,"result":2,"x":3}"#),
        vec![r#"editor {"id":"slow","result":2,"x":3}"#]
    );
    assert_eq!(
        editor(&mut mux, r#"{"id":3,"result":4}"#),
        vec![r#"backend 0 {"id":2,"result":4}"#]
    );
    assert!(backend(&mut mux, 0, r#"{"id":2,"result":2}"#).is_empty());
    assert!(editor(&mut mux, r#"{"id":3,"result":4}"#).is_empty());
}
