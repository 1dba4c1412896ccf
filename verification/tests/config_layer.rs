use potemkin::config_layer::{
    deep_merge, percent_decode, pick_server, read_server_config, uri_to_path, ConfigLayer, Disk,
    CONFIG_FILE,
};
use potemkin::json::{parse_json, Json};
use potemkin::paths::FilePath;
use potemkin::scope::{extract_roots, resolve_scope, uri_of, ScopeKey};

fn json(text: &str) -> Json {
    parse_json(text).expect("JSON")
}

fn config_at(disk: &mut Disk, dir: &str, text: &str) {
    disk.add_dir(FilePath::new(dir));
    disk.add_config(FilePath::new(dir), Some(text.to_string()));
}

#[test]
fn deep_merge_file_wins_but_preserves_siblings() {
    let mut base = json(r#"{"checkOnSave":true,"cargo":{"features":["a"],"keep":1}}"#);
    let overlay = json(r#"{"checkOnSave":false,"cargo":{"features":["b"]}}"#);
    deep_merge(&mut base, overlay);
    assert!(base.get("checkOnSave").unwrap().same(&json("false"))); // file wins
    let cargo = base.get("cargo").unwrap();
    assert!(cargo.get("features").unwrap().same(&json(r#"["b"]"#))); // array replaced
    assert!(cargo.get("keep").unwrap().same(&json("1"))); // sibling preserved
}

#[test]
fn deep_merge_over_what_is_no_object() {
    let mut base = json("[1]");
    deep_merge(&mut base, json(r#"{"a":{"b":1}}"#));
    assert!(base.same(&json(r#"{"a":{"b":1}}"#)));
    deep_merge(&mut base, json(r#"{"a":{"b":1}}"#));
    assert!(base.same(&json(r#"{"a":{"b":1}}"#)));
    deep_merge(&mut base, json("null"));
    assert!(base.same(&json("null")));
    // Of two entries for one key the last counts.
    let mut base = json(r#"{"k":{"x":0}}"#);
    let twice = Json::Object(vec![
        ("k".to_string(), json(r#"{"lost":1}"#)),
        ("k".to_string(), json(r#"{"y":2}"#)),
    ]);
    deep_merge(&mut base, twice);
    assert!(base.same(&json(r#"{"k":{"x":0,"y":2}}"#)));
}

#[test]
fn uri_to_path_decodes() {
    assert_eq!(
        uri_to_path("file:///home/me/my%20proj", false).unwrap(),
        "/home/me/my proj"
    );
}

#[test]
fn uris_of_every_form() {
    assert_eq!(uri_to_path("file://host/a", false).as_deref(), Some("/a"));
    assert_eq!(uri_to_path("file://host", false).as_deref(), Some("host"));
    assert_eq!(uri_to_path("http:///a", false), None);
    assert_eq!(uri_to_path("file:/a", false), None);
    assert_eq!(uri_to_path("file:///\u{e4}", false).as_deref(), Some("/\u{e4}"));
    assert_eq!(percent_decode("%C3%A4%c3%a4"), "\u{e4}\u{e4}");
    assert_eq!(percent_decode("100%"), "100%");
    assert_eq!(percent_decode("%2"), "%2");
    assert_eq!(percent_decode("%zz%25"), "%zz%");
    assert_eq!(percent_decode("a%FFb"), "a\u{fffd}b");
}

#[test]
fn a_server_table_is_read() {
    assert_eq!(CONFIG_FILE, "potemkin.toml");
    let text = "[servers.ra]\ncheckOnSave = false\ncargo.features = [\"ci\"]\nn = 3\n";
    let config = read_server_config(text, "ra").unwrap();
    assert!(config.same(&json(r#"{"checkOnSave":false,"cargo":{"features":["ci"]},"n":3}"#)));
    assert!(read_server_config(text, "other").is_none());
    assert!(read_server_config("servers = 1", "ra").is_none());
    assert!(read_server_config("not toml at all", "ra").is_none());
    assert!(read_server_config("", "ra").is_none());
    assert!(pick_server(&json(r#"{"servers":{"ra":null}}"#), "ra").is_none());
    assert!(pick_server(&json(r#"{"servers":{"ra":0}}"#), "ra").unwrap().same(&json("0")));
}

#[test]
fn the_nearest_file_wins() {
    let mut disk = Disk::new();
    config_at(&mut disk, "/", "[servers.s]\na = 0\nz = 0\n");
    config_at(&mut disk, "/w", "[servers.s]\na = 1\nb = 1\n");
    config_at(&mut disk, "/w/bad", "[servers");
    disk.add_config(FilePath::new("/w/unreadable"), None);
    config_at(&mut disk, "/w/c", "[servers.s]\nb = 2\n");
    let mut layer = ConfigLayer::new(Some("s".to_string()));
    assert!(layer.active());
    let at = |layer: &mut ConfigLayer, dir: &str| layer.for_dir(&FilePath::new(dir), &disk);
    assert!(at(&mut layer, "/w/c/d").same(&json(r#"{"a":1,"b":2,"z":0}"#)));
    assert!(at(&mut layer, "/w/bad").same(&json(r#"{"a":1,"b":1,"z":0}"#)));
    assert!(at(&mut layer, "/w/unreadable").same(&json(r#"{"a":1,"b":1,"z":0}"#)));
    assert!(at(&mut layer, "relative").same(&json("null")));
}

#[test]
fn an_answer_stands() {
    let mut layer = ConfigLayer::new(Some("s".to_string()));
    let mut disk = Disk::new();
    let dir = FilePath::new("/w");
    assert!(layer.for_dir(&dir, &disk).same(&Json::Null));
    config_at(&mut disk, "/w", "[servers.s]\na = 1\n");
    assert!(layer.for_dir(&dir, &disk).same(&Json::Null));
    assert!(layer.for_dir(&FilePath::new("/w/x"), &disk).same(&json(r#"{"a":1}"#)));
}

#[test]
fn without_a_server_id_the_layer_is_inert() {
    let mut disk = Disk::new();
    config_at(&mut disk, "/w", "[servers.s]\na = 1\n");
    for id in [None, Some(" \t".to_string())] {
        let mut layer = ConfigLayer::new(id);
        assert!(!layer.active());
        assert!(layer.for_dir(&FilePath::new("/w"), &disk).same(&Json::Null));
    }
}

#[test]
fn uri_of_reads_text_document() {
    let v = json(
        r#"{"method":"textDocument/hover","params":{"textDocument":{"uri":"file:///a/b.rs"}}}"#,
    );
    assert_eq!(uri_of(&v), Some("file:///a/b.rs"));
    assert_eq!(uri_of(&json(r#"{"method":"shutdown"}"#)), None);
}

fn root_texts(params: &str) -> Vec<String> {
    extract_roots(&json(params), false).iter().map(|p| p.text()).collect()
}

#[test]
fn extract_roots_prefers_workspace_folders() {
    let roots = root_texts(
        r#"{"workspaceFolders":[{"uri":"file:///ws/a"},{"uri":"file:///ws/b"}],"rootUri":"file:///ws"}"#,
    );
    assert_eq!(roots, vec!["/ws/a", "/ws/b"]);
}

#[test]
fn extract_roots_falls_back_to_root_uri() {
    assert_eq!(root_texts(r#"{"rootUri":"file:///ws"}"#), vec!["/ws"]);
}

#[test]
fn roots_of_other_params() {
    assert_eq!(
        root_texts(r#"{"workspaceFolders":[{"uri":"http://x"},{}],"rootUri":"file:///ws"}"#),
        vec!["/ws"]
    );
    assert_eq!(root_texts(r#"{"rootUri":null,"rootPath":"/p/q/"}"#), vec!["/p/q"]);
    assert!(root_texts(r#"{"workspaceFolders":[]}"#).is_empty());
    assert!(root_texts("null").is_empty());
}

#[test]
fn resolve_scope_only_splits_on_effective_difference() {
    let root = "/tmp/root";
    let mut disk = Disk::new();
    // Root sets a baseline for the `demo` server.
    config_at(&mut disk, root, "[servers.demo]\nvalue = 1\n");
    // An override subtree that genuinely changes the `demo` settings.
    config_at(&mut disk, "/tmp/root/override", "[servers.demo]\nvalue = 2\n");
    // A subtree whose potemkin.toml resolves to the same effective config.
    config_at(&mut disk, "/tmp/root/same", "[servers.demo]\nvalue = 1\n");
    // A subtree that only configures a different server.
    config_at(&mut disk, "/tmp/root/other", "[servers.otherls]\nvalue = 9\n");

    let mut cfg = ConfigLayer::new(Some("demo".into()));
    let roots = vec![FilePath::new(root)];
    let mut scope = |uri: &str| match resolve_scope(&roots, &mut cfg, &disk, uri, false) {
        ScopeKey::Default => None,
        ScopeKey::Dir(dir) => Some(dir.text()),
    };

    // Override subtree: its own backend.
    assert_eq!(
        scope("file:///tmp/root/override/f.rs").as_deref(),
        Some("/tmp/root/override")
    );
    // Identical effective config: default backend (no extra process).
    assert_eq!(scope("file:///tmp/root/same/f.rs"), None);
    // Only-other-server override: default backend for `demo`.
    assert_eq!(scope("file:///tmp/root/other/f.rs"), None);
    // File directly under the root: default backend.
    assert_eq!(scope("file:///tmp/root/f.rs"), None);
    // File outside any workspace root: default backend.
    assert_eq!(scope("file:///nonexistent/x.rs"), None);
    // The directory itself, and no file URI at all.
    assert_eq!(scope("file:///tmp/root/override").as_deref(), Some("/tmp/root/override"));
    assert_eq!(scope("untitled:x"), None);
}

fn scope_text(roots: &[&str], disk: &Disk, server: Option<&str>, uri: &str) -> Option<String> {
    let roots: Vec<FilePath> = roots.iter().map(|r| FilePath::new(r)).collect();
    let mut cfg = ConfigLayer::new(server.map(|s| s.to_string()));
    match resolve_scope(&roots, &mut cfg, disk, uri, false) {
        ScopeKey::Default => None,
        ScopeKey::Dir(dir) => Some(dir.text()),
    }
}

#[test]
fn scopes_stay_within_the_deepest_root() {
    let mut disk = Disk::new();
    config_at(&mut disk, "/", "[servers.s]\nv = 0\n");
    config_at(&mut disk, "/a", "[servers.s]\nv = 1\n");
    let scope = |uri: &str| scope_text(&["/a/b", "/"], &disk, Some("s"), uri);
    // The default backend has the settings of `/a/b`, which are those of `/a`.
    assert_eq!(scope("file:///a/b/f"), None);
    assert_eq!(scope("file:///a/f"), None);
    // Outside of it the root is `/`, with settings of its own.
    assert_eq!(scope("file:///f").as_deref(), Some("/"));
    assert_eq!(scope("file:///c/d/f").as_deref(), Some("/"));
}

#[test]
fn a_second_root_has_its_own_settings() {
    let mut disk = Disk::new();
    config_at(&mut disk, "/a", "[servers.demo]\nvalue = 1\n");
    config_at(&mut disk, "/b", "[servers.demo]\nvalue = 2\n");
    config_at(&mut disk, "/c", "[servers.demo]\nvalue = 1\n");
    let roots = ["/a", "/b", "/c", "/d"];
    let scope = |uri: &str| scope_text(&roots, &disk, Some("demo"), uri);
    assert_eq!(scope("file:///a/f.rs"), None);
    assert_eq!(scope("file:///b/f.rs").as_deref(), Some("/b"));
    assert_eq!(scope("file:///b/x/y/f.rs").as_deref(), Some("/b"));
    // The same settings as the first root's.
    assert_eq!(scope("file:///c/f.rs"), None);
    // Only a file makes a scope.
    assert_eq!(scope("file:///d/f.rs"), None);
    // Without a server there are no settings.
    assert_eq!(scope_text(&roots, &disk, None, "file:///b/f.rs"), None);
}

#[test]
fn a_scope_has_the_settings_of_the_document() {
    let mut disk = Disk::new();
    config_at(&mut disk, "/r", "[servers.s]\nv = 1\nw = 1\n");
    config_at(&mut disk, "/r/x", "[servers.s]\nv = 2\n");
    config_at(&mut disk, "/r/x/y", "[servers.other]\nv = 3\n");
    let mut cfg = ConfigLayer::new(Some("s".into()));
    let roots = vec![FilePath::new("/r")];
    for (uri, dir) in [
        ("file:///r/x/y/z/f", "/r/x/y/z"),
        ("file:///r/x/f", "/r/x"),
    ] {
        match resolve_scope(&roots, &mut cfg, &disk, uri, false) {
            ScopeKey::Dir(scope) => {
                let own = cfg.for_dir(&FilePath::new(dir), &disk);
                assert!(own.same(&json(r#"{"v":2,"w":1}"#)));
                assert!(cfg.for_dir(&scope, &disk).same(&own));
            }
            ScopeKey::Default => panic!("{uri}"),
        }
    }
}

#[test]
fn drive_letters_of_windows() {
    assert_eq!(uri_to_path("file:///C:/x%20y", true).as_deref(), Some("C:/x y"));
    assert_eq!(uri_to_path("file:///C:/x%20y", false).as_deref(), Some("/C:/x y"));
    assert_eq!(uri_to_path("file:////srv/x", true).as_deref(), Some("srv/x"));
    let mut disk = Disk::new();
    for (dir, v) in [(r"C:\w", 1), (r"C:\w\o", 2)] {
        disk.add_config(FilePath::new_on(dir, true), Some(format!("[servers.s]\nv = {v}\n")));
    }
    for params in [
        r#"{"rootUri":"file:///C:/w"}"#,
        r#"{"rootUri":"file:///c%3A/w"}"#,
        r#"{"rootPath":"C:\\w"}"#,
        r#"{"rootPath":"c:\\w\\"}"#,
    ] {
        let roots = extract_roots(&json(params), true);
        assert_eq!(roots[0].text(), "c:/w", "{params}");
        let mut cfg = ConfigLayer::new(Some("s".into()));
        match resolve_scope(&roots, &mut cfg, &disk, "file:///C:/w/o/f", true) {
            ScopeKey::Dir(dir) => assert_eq!(dir.text(), "c:/w/o"),
            ScopeKey::Default => panic!("default"),
        }
    }
    // The way up ends at the drive.
    let drive = FilePath::new_on(r"C:\w", true).parent().unwrap();
    assert_eq!(drive.text(), "c:/");
    assert!(drive.parent().is_none());
    // So it does at a network share.
    let share = FilePath::new_on(r"\\srv\pub\w", true).parent().unwrap();
    assert_eq!(share.text(), "//srv/pub/");
    assert!(share.parent().is_none());
    assert_eq!(FilePath::new_on(r"\\srv\pub\w\x", true).text(), "//srv/pub/w/x");
    // Elsewhere a backslash is a letter like any other, and a drive a name.
    assert_eq!(extract_roots(&json(r#"{"rootPath":"C:\\w"}"#), false)[0].count(), 1);
    assert!(FilePath::new_on("C:/w", false).parent().unwrap().parent().is_some());
}

#[test]
fn settings_that_differ_in_the_sign_of_a_zero_are_the_same() {
    let mut disk = Disk::new();
    config_at(&mut disk, "/r", "[servers.s]\nv = 0.0\n");
    config_at(&mut disk, "/r/x", "[servers.s]\nv = -0.0\n");
    config_at(&mut disk, "/r/y", "[servers.s]\nv = 0\n");
    let roots = vec![FilePath::new("/r")];
    let mut cfg = ConfigLayer::new(Some("s".into()));
    assert!(matches!(
        resolve_scope(&roots, &mut cfg, &disk, "file:///r/x/f", false),
        ScopeKey::Default
    ));
    assert!(matches!(
        resolve_scope(&roots, &mut cfg, &disk, "file:///r/y/f", false),
        ScopeKey::Dir(_)
    ));
}

#[test]
fn paths_by_their_components() {
    let same = |a: &str, b: &str| FilePath::new(a).same(&FilePath::new(b));
    assert!(same("/a//b/./c/", "/a/b/c"));
    assert!(!same("a", "/a"));
    assert!(!same("./a", "a"));
    assert!(same("a/./b", "a/b"));
    assert!(!same("a/../b", "b"));
    let up = |p: &str| FilePath::new(p).parent().map(|p| p.text());
    assert_eq!(up("/a/b").as_deref(), Some("/a"));
    assert_eq!(up("/a").as_deref(), Some("/"));
    assert_eq!(up("/"), None);
    assert_eq!(up("a").as_deref(), Some(""));
    assert_eq!(up(""), None);
    assert_eq!(FilePath::new("/a/b/c").count(), 4);
    assert!(FilePath::new("/ab/c").within(&FilePath::new("/ab")));
    assert!(!FilePath::new("/ab/c").within(&FilePath::new("/a")));
    assert_eq!(FilePath::new("x//y/").text(), "x/y");
}
