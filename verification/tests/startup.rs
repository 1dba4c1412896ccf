use std::borrow::Cow;

use potemkin::order::{load_plugins, ordered_indices};
use potemkin::protocol::{PluginManifest, Transport};
use potemkin::startup::{
    backend_server, env_truthy, languages_match, manifest_file, multiplex_enabled, names_path,
    plugin_dirs, process_languages, process_server_id, read_config, read_raw_config,
    server_candidates, server_matches, user_plugin_order, version_probe, Admission, Discovery,
};
use potemkin::{Plugin, RawConfig, TransformContext, TransformOutput};

fn list(items: &[&str]) -> Vec<String> {
    items.iter().map(|s| s.to_string()).collect()
}

#[test]
fn agnostic_plugin_always_matches() {
    assert!(languages_match(&list(&[]), &list(&["rust"])));
    assert!(languages_match(&list(&[]), &list(&[])));
}

#[test]
fn unknown_process_language_is_permissive() {
    assert!(languages_match(&list(&["rust"]), &list(&[])));
}

#[test]
fn matches_only_on_intersection() {
    assert!(languages_match(&list(&["rust"]), &list(&["rust"])));
    assert!(languages_match(&list(&["c", "cpp"]), &list(&["cpp"])));
    assert!(!languages_match(&list(&["rust"]), &list(&["cpp", "c"])));
}

#[test]
fn matching_is_case_insensitive() {
    assert!(languages_match(&list(&["Rust"]), &list(&["rust"])));
}

#[test]
fn any_server_when_unscoped_or_unknown() {
    assert!(server_matches(&list(&[]), &Some("rust-analyzer".into())));
    assert!(server_matches(&list(&["rust-analyzer"]), &None));
}

#[test]
fn server_matches_only_listed() {
    assert!(server_matches(
        &list(&["rust-analyzer"]),
        &Some("rust-analyzer".into())
    ));
    assert!(!server_matches(
        &list(&["rust-analyzer"]),
        &Some("rust-rover".into())
    ));
}

#[test]
fn server_matching_is_case_insensitive() {
    assert!(server_matches(
        &list(&["Rust-Analyzer"]),
        &Some("rust-analyzer".into())
    ));
}

// ---- plugin application ordering ----

fn entries(items: &[(&str, i32)]) -> Vec<(String, i32)> {
    items.iter().map(|(n, o)| (n.to_string(), *o)).collect()
}

fn ordered_names(items: &[(&str, i32)], user: &[&str]) -> Vec<String> {
    let e = entries(items);
    let u = list(user);
    ordered_indices(&e, &u)
        .into_iter()
        .map(|i| e[i].0.clone())
        .collect()
}

#[test]
fn order_defaults_to_name_when_no_hints() {
    let out = ordered_names(&[("nholthaus-units", 0), ("clangd-x", 0), ("aardvark", 0)], &[]);
    assert_eq!(out, vec!["aardvark", "clangd-x", "nholthaus-units"]);
}

#[test]
fn manifest_order_beats_name() {
    let out = ordered_names(
        &[("typed-linear-algebra", 10), ("nholthaus-units", 0)],
        &[],
    );
    assert_eq!(out, vec!["nholthaus-units", "typed-linear-algebra"]);
}

#[test]
fn order_ties_break_by_name() {
    let out = ordered_names(&[("b", 5), ("a", 5), ("c", 5)], &[]);
    assert_eq!(out, vec!["a", "b", "c"]);
}

#[test]
fn user_override_wins_over_manifest_order() {
    let out = ordered_names(
        &[("nholthaus-units", 0), ("typed-linear-algebra", 10)],
        &["typed-linear-algebra", "nholthaus-units"],
    );
    assert_eq!(out, vec!["typed-linear-algebra", "nholthaus-units"]);
}

#[test]
fn user_override_partial_lists_rest_after() {
    let out = ordered_names(
        &[("z", 0), ("a", 0), ("nholthaus-units", 5)],
        &["nholthaus-units"],
    );
    assert_eq!(out, vec!["nholthaus-units", "a", "z"]);
}

#[test]
fn unknown_user_names_are_ignored() {
    let out = ordered_names(&[("a", 0), ("b", 0)], &["ghost", "b"]);
    assert_eq!(out, vec!["b", "a"]);
}

// ---- settings ----

fn some(text: &str) -> Option<String> {
    Some(text.to_string())
}

#[test]
fn the_order_does_not_depend_on_how_plugins_were_found() {
    let user = ["m", "b"];
    let one = ordered_names(&[("a", 1), ("b", 9), ("c", -1), ("m", 3), ("\u{e9}", 1)], &user);
    let two = ordered_names(&[("\u{e9}", 1), ("m", 3), ("c", -1), ("b", 9), ("a", 1)], &user);
    assert_eq!(one, two);
    assert_eq!(one, vec!["m", "b", "c", "a", "\u{e9}"]);
    // A prefix comes first; ties keep their places.
    assert_eq!(ordered_names(&[("ab", 0), ("a", 0)], &[]), vec!["a", "ab"]);
    assert_eq!(ordered_indices(&entries(&[("a", 0), ("a", 0)]), &list(&[])), vec![0, 1]);
}

struct Named(&'static str);

impl Plugin for Named {
    fn name(&self) -> &str {
        self.0
    }
    fn markers(&self) -> &[Cow<'static, str>] {
        &[]
    }
    fn transform<'a>(&self, text: &'a str, _ctx: &TransformContext<'_>) -> TransformOutput<'a> {
        TransformOutput::unchanged(text)
    }
}

#[test]
fn plugins_are_loaded_in_their_order() {
    let plugin = |name: &'static str| -> Box<dyn Plugin> { Box::new(Named(name)) };
    let chain = load_plugins(
        vec![(0, plugin("z")), (5, plugin("a")), (0, plugin("m"))],
        &list(&["a"]),
    );
    let names: Vec<(i32, &str)> = chain.iter().map(|(o, p)| (*o, p.name())).collect();
    assert_eq!(names, vec![(5, "a"), (0, "m"), (0, "z")]);
}

#[test]
fn truthy_settings() {
    for yes in ["1", " TRUE\n", "Yes", "on"] {
        assert!(env_truthy(some(yes)), "{yes}");
        assert!(multiplex_enabled(some(yes)));
    }
    for no in ["", "0", "off", "truee", "2"] {
        assert!(!env_truthy(some(no)), "{no}");
    }
    assert!(!multiplex_enabled(None));
}

#[test]
fn display_options_are_read() {
    let c = read_config(some("2"), some("false"), some(" 250 "), RawConfig::default());
    assert_eq!((c.verbosity, c.unicode, c.plugin_timeout_ms), (2, false, 250));
    let c = read_config(some("256"), some("no"), some("x"), RawConfig::default());
    assert_eq!((c.verbosity, c.unicode, c.plugin_timeout_ms), (0, true, 5000));
    let c = read_config(some(" 2"), some("0"), None, RawConfig::default());
    assert_eq!((c.verbosity, c.unicode, c.plugin_timeout_ms), (0, false, 5000));
}

#[test]
fn raw_options_are_read() {
    let raw = read_raw_config(some("yes"), None, some(" rust "), some("1"));
    assert!(raw.enabled && raw.separator);
    assert_eq!(raw.label, "Raw:");
    assert_eq!(raw.fence.as_deref(), Some("rust"));
    let raw = read_raw_config(None, some(""), some(" "), None);
    assert!(!raw.enabled && !raw.separator && raw.fence.is_none());
    assert_eq!(raw.label, "");
}

#[test]
fn lists_are_read() {
    assert_eq!(user_plugin_order(some(" a ,,B, c")), vec!["a", "B", "c"]);
    assert!(user_plugin_order(None).is_empty());
    assert_eq!(process_languages(some("C, cpp,")), vec!["c", "cpp"]);
    assert_eq!(process_server_id(some(" Rust-Analyzer ")).as_deref(), Some("rust-analyzer"));
    assert_eq!(process_server_id(some(" ")), None);
    assert_eq!(backend_server(some(" x")).as_deref(), Some(" x"));
    assert_eq!(backend_server(some("\t")), None);
    assert!(version_probe(&list(&["a", "-V"])) && version_probe(&list(&["--version"])));
    assert!(!version_probe(&list(&["--versions"])));
}

fn manifest(name: &str, languages: &[&str], servers: &[&str]) -> PluginManifest {
    PluginManifest {
        name: name.to_string(),
        markers: vec![],
        languages: list(languages),
        language_servers: list(servers),
        order: 0,
        timeout_ms: None,
        transport: Transport::Wasm {
            path: String::new(),
        },
    }
}

#[test]
fn the_first_manifest_of_a_name_wins() {
    let mut d = Discovery::new(list(&["rust"]), some("ra"));
    assert!(matches!(d.decide(&manifest("a", &["rust"], &["RA"])), Admission::Load));
    assert!(matches!(d.decide(&manifest("a", &[], &[])), Admission::Duplicate));
    assert!(matches!(d.decide(&manifest("b", &["c"], &[])), Admission::OtherLanguage));
    assert!(matches!(d.decide(&manifest("b", &[], &[])), Admission::Duplicate));
    assert!(matches!(d.decide(&manifest("c", &[], &["x"])), Admission::OtherServer));
    assert!(matches!(d.decide(&manifest("d", &[], &[])), Admission::Load));
}

#[test]
fn manifest_files() {
    assert!(manifest_file("a.json") && manifest_file("..json"));
    assert!(!manifest_file(".json") && !manifest_file("json") && !manifest_file("a.JSON"));
}

#[test]
fn plugin_directories() {
    let dirs = plugin_dirs(&list(&["/a", "", "/a/", "b", "/a/./"]), some("/h"));
    assert_eq!(dirs, vec!["/a", "b", "/h/.config/potemkin/plugins"]);
    assert_eq!(plugin_dirs(&list(&[]), None), vec!["./.config/potemkin/plugins"]);
}

#[test]
fn commands_for_a_server() {
    assert_eq!(
        server_candidates("ra", some("/h")),
        vec![
            "ra",
            "/h/.cargo/bin/ra",
            "/h/.rustup/toolchains/stable-aarch64-apple-darwin/bin/ra",
            "/h/.rustup/toolchains/stable-x86_64-unknown-linux-gnu/bin/ra",
        ]
    );
    assert_eq!(server_candidates("x", None)[1], "/tmp/.cargo/bin/x");
    assert!(names_path("./x") && !names_path("x"));
}
