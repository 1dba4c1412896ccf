//! What the settings of the process mean, and which plugins it loads.
//!
//! Settings come from environment variables; a variable that is not set is `None`.
use vstd::prelude::*;

use crate::number::{parse_unsigned, unsigned_of};
use crate::paths::{components, FilePath};
use crate::pipeline::{Config, DEFAULT_PLUGIN_TIMEOUT_MS};
use crate::plugin::{keep_non_blank, non_blank, opt_text};
use crate::protocol::PluginManifest;
use crate::raw::RawConfig;
use crate::text::{
    chars_of, copy_list, list_holds, lower, lower_text, same_text, split, split_text, stands_at,
    texts, trim, trim_text,
};

verus! {

// ---- Switches ------------------------------------------------------------------

/// A truthy value: `1`, `true`, `yes` or `on`, whatever its case and the space around it.
pub open spec fn truthy(value: Option<Seq<char>>) -> bool {
    match value {
        Some(text) => {
            let word = lower(trim(text));
            word == "1"@ || word == "true"@ || word == "yes"@ || word == "on"@
        },
        None => false,
    }
}

/// Whether a setting has a truthy value (`1`/`true`/`yes`/`on`).
pub fn env_truthy(value: Option<String>) -> (yes: bool)
    ensures
        yes == truthy(opt_text(value)),
{
    match value {
        Some(text) => {
            let word = lower_text(trim_text(text.as_str()).as_str());
            same_text(word.as_str(), "1") || same_text(word.as_str(), "true") || same_text(
                word.as_str(),
                "yes",
            ) || same_text(word.as_str(), "on")
        },
        None => false,
    }
}

/// Whether the per-directory multiplexer is enabled (`POTEMKIN_MULTIPLEX`). Off by default.
pub fn multiplex_enabled(setting: Option<String>) -> (yes: bool)
    ensures
        yes == truthy(opt_text(setting)),
{
    env_truthy(setting)
}

/// Whether an argument asks for the version of the wrapped server.
pub fn version_probe(args: &Vec<String>) -> (yes: bool)
    ensures
        yes == (texts(args@).contains("--version"@) || texts(args@).contains("-V"@)),
{
    list_holds(args, "--version") || list_holds(args, "-V")
}

// ---- Display options -----------------------------------------------------------

/// The verbosity that a setting asks for; zero where it is no number.
pub open spec fn verbosity_of(setting: Option<Seq<char>>) -> u8 {
    match setting {
        Some(text) => match parse_unsigned(text, u8::MAX as nat) {
            Some(n) => n as u8,
            None => 0,
        },
        None => 0,
    }
}

/// Whether unicode symbols are allowed: unless it is forbidden by `false` or `0`.
pub open spec fn unicode_of(setting: Option<Seq<char>>) -> bool {
    match setting {
        Some(text) => text != "false"@ && text != "0"@,
        None => true,
    }
}

/// The timeout that a setting asks for, in milliseconds; the default where it is no number.
pub open spec fn timeout_setting(setting: Option<Seq<char>>) -> u64 {
    match setting {
        Some(text) => match parse_unsigned(trim(text), u64::MAX as nat) {
            Some(n) => n as u64,
            None => DEFAULT_PLUGIN_TIMEOUT_MS,
        },
        None => DEFAULT_PLUGIN_TIMEOUT_MS,
    }
}

/// The display options, from `POTEMKIN_VERBOSITY`, `POTEMKIN_UNICODE` and
/// `POTEMKIN_PLUGIN_TIMEOUT_MS`.
pub fn read_config(
    verbosity: Option<String>,
    unicode: Option<String>,
    timeout_ms: Option<String>,
    raw: RawConfig,
) -> (config: Config)
    ensures
        config.verbosity == verbosity_of(opt_text(verbosity)),
        config.unicode == unicode_of(opt_text(unicode)),
        config.plugin_timeout_ms == timeout_setting(opt_text(timeout_ms)),
        config.raw == raw,
{
    let verbosity: u8 = match verbosity {
        Some(text) => match unsigned_of(text.as_str(), 255) {
            Some(n) => n as u8,
            None => 0,
        },
        None => 0,
    };
    let unicode = match unicode {
        Some(text) => !same_text(text.as_str(), "false") && !same_text(text.as_str(), "0"),
        None => true,
    };
    let plugin_timeout_ms: u64 = match timeout_ms {
        Some(text) => match unsigned_of(trim_text(text.as_str()).as_str(), u64::MAX) {
            Some(n) => n,
            None => DEFAULT_PLUGIN_TIMEOUT_MS,
        },
        None => DEFAULT_PLUGIN_TIMEOUT_MS,
    };
    Config { verbosity, unicode, raw, plugin_timeout_ms }
}

/// A setting without the space around it, where anything is left.
pub open spec fn trimmed(setting: Option<Seq<char>>) -> Option<Seq<char>> {
    match setting {
        Some(text) => if trim(text).len() > 0 {
            Some(trim(text))
        } else {
            None
        },
        None => None,
    }
}

/// A setting without the space around it, where anything is left.
fn keep_trimmed(setting: Option<String>) -> (kept: Option<String>)
    ensures
        opt_text(kept) == trimmed(opt_text(setting)),
{
    match setting {
        Some(text) => {
            let text = trim_text(text.as_str());
            if text.as_str().unicode_len() > 0 {
                Some(text)
            } else {
                None
            }
        },
        None => None,
    }
}

/// The per-server raw-section rendering, from `POTEMKIN_RAW`, `POTEMKIN_RAW_LABEL`,
/// `POTEMKIN_RAW_FENCE` and `POTEMKIN_RAW_SEPARATOR`.
pub fn read_raw_config(
    enabled: Option<String>,
    label: Option<String>,
    fence: Option<String>,
    separator: Option<String>,
) -> (raw: RawConfig)
    ensures
        raw.enabled == truthy(opt_text(enabled)),
        raw.label@ == (match opt_text(label) {
            Some(text) => text,
            None => "Raw:"@,
        }),
        opt_text(raw.fence) == trimmed(opt_text(fence)),
        raw.separator == truthy(opt_text(separator)),
{
    let label = match label {
        Some(text) => text,
        None => "Raw:".to_owned(),
    };
    RawConfig {
        enabled: env_truthy(enabled),
        label,
        fence: keep_trimmed(fence),
        separator: env_truthy(separator),
    }
}

// ---- Lists ---------------------------------------------------------------------

/// The members of a comma-separated list, without the space around them and without the
/// blank ones.
pub open spec fn listed(setting: Option<Seq<char>>) -> Seq<Seq<char>> {
    match setting {
        Some(text) => split(text, ',').map_values(|s: Seq<char>| trim(s)).filter(
            |s: Seq<char>| s.len() > 0,
        ),
        None => seq![],
    }
}

/// The members of a comma-separated list.
fn read_list(setting: Option<String>) -> (list: Vec<String>)
    ensures
        texts(list@) == listed(opt_text(setting)),
{
    let text = match setting {
        Some(text) => text,
        None => {
            let none: Vec<String> = Vec::new();
            assert(texts(none@) =~= seq![]);
            return none;
        },
    };
    let pieces = split_text(text.as_str(), ',');
    let ghost all = split(text@, ',').map_values(|s: Seq<char>| trim(s));
    let ghost some = |s: Seq<char>| s.len() > 0;
    let mut list: Vec<String> = Vec::new();
    let mut i: usize = 0;
    proof {
        reveal(Seq::filter);
        assert(all.take(0).filter(some) =~= seq![]);
        assert(texts(list@) =~= seq![]);
    }
    while i < pieces.len()
        invariant
            i <= pieces@.len(),
            all == texts(pieces@).map_values(|s: Seq<char>| trim(s)),
            some == (|s: Seq<char>| s.len() > 0),
            texts(list@) == all.take(i as int).filter(some),
        decreases pieces@.len() - i,
    {
        let ghost before = texts(list@);
        let piece = trim_text(pieces[i].as_str());
        assert(texts(pieces@)[i as int] == pieces@[i as int]@);
        assert(all[i as int] == piece@);
        assert(all.take(i + 1).drop_last() =~= all.take(i as int));
        proof {
            reveal(Seq::filter);
        }
        if piece.as_str().unicode_len() > 0 {
            list.push(piece);
            assert(texts(list@) =~= before.push(all[i as int]));
            assert(all.take(i + 1).filter(some) =~= before.push(all[i as int]));
        } else {
            assert(all.take(i + 1).filter(some) =~= before);
        }
        i = i + 1;
    }
    assert(all.take(i as int) =~= all);
    list
}

/// The user's explicit application order, from `POTEMKIN_PLUGIN_ORDER` (a comma-separated
/// list of plugin names, earliest first).
pub fn user_plugin_order(setting: Option<String>) -> (names: Vec<String>)
    ensures
        texts(names@) == listed(opt_text(setting)),
{
    read_list(setting)
}

/// The languages that the wrapped server serves, from `POTEMKIN_LANGUAGES`
/// (comma-separated). Empty means "unknown".
pub fn process_languages(setting: Option<String>) -> (languages: Vec<String>)
    ensures
        texts(languages@) == listed(opt_text(setting)).map_values(|s: Seq<char>| lower(s)),
{
    let list = read_list(setting);
    let mut languages: Vec<String> = Vec::new();
    let mut i: usize = 0;
    while i < list.len()
        invariant
            i <= list@.len(),
            languages@.len() == i,
            forall|j: int| 0 <= j < i ==> (#[trigger] languages@[j])@ == lower(list@[j]@),
        decreases list@.len() - i,
    {
        languages.push(lower_text(list[i].as_str()));
        i = i + 1;
    }
    assert(texts(languages@) =~= texts(list@).map_values(|s: Seq<char>| lower(s)));
    languages
}

/// The id of the wrapped server, from `POTEMKIN_SERVER_ID`. Blank means "unknown".
pub fn process_server_id(setting: Option<String>) -> (id: Option<String>)
    ensures
        opt_text(id) == (match trimmed(opt_text(setting)) {
            Some(text) => Some(lower(text)),
            None => None,
        }),
{
    match keep_trimmed(setting) {
        Some(text) => Some(lower_text(text.as_str())),
        None => None,
    }
}

/// The backend language server command, from `POTEMKIN_SERVER`, or nothing if it is unset or
/// blank. There is deliberately no default backend.
pub fn backend_server(setting: Option<String>) -> (server: Option<String>)
    ensures
        opt_text(server) == non_blank(opt_text(setting)),
{
    keep_non_blank(setting)
}

// ---- Which plugins apply -------------------------------------------------------

/// One of the names, lowered, is in the list.
pub open spec fn one_listed(names: Seq<Seq<char>>, list: Seq<Seq<char>>) -> bool {
    exists|i: int| 0 <= i < names.len() && list.contains(lower(#[trigger] names[i]))
}

/// A plugin's languages fit those of the process: unless both are known and none is shared.
pub open spec fn languages_fit(plugin: Seq<Seq<char>>, process: Seq<Seq<char>>) -> bool {
    plugin.len() == 0 || process.len() == 0 || one_listed(plugin, process)
}

/// Whether a plugin declaring `plugin_langs` should run in a process serving
/// `process_langs`. A plugin with no declared languages always matches; if the process
/// language is unknown, everything matches. Otherwise the two must intersect.
pub fn languages_match(plugin_langs: &Vec<String>, process_langs: &Vec<String>) -> (yes: bool)
    ensures
        yes == languages_fit(texts(plugin_langs@), texts(process_langs@)),
{
    if plugin_langs.len() == 0 || process_langs.len() == 0 {
        return true;
    }
    let ghost names = texts(plugin_langs@);
    let mut i: usize = 0;
    while i < plugin_langs.len()
        invariant
            i <= plugin_langs@.len(),
            names == texts(plugin_langs@),
            forall|j: int|
                0 <= j < i ==> !texts(process_langs@).contains(lower(#[trigger] names[j])),
        decreases plugin_langs@.len() - i,
    {
        assert(names[i as int] == plugin_langs@[i as int]@);
        if list_holds(process_langs, lower_text(plugin_langs[i].as_str()).as_str()) {
            return true;
        }
        i = i + 1;
    }
    false
}

/// A plugin's servers fit the wrapped one: unless both are known and it is not listed.
pub open spec fn servers_fit(plugin: Seq<Seq<char>>, server_id: Option<Seq<char>>) -> bool {
    match server_id {
        Some(id) => plugin.len() == 0 || exists|i: int|
            0 <= i < plugin.len() && lower(#[trigger] plugin[i]) == id,
        None => true,
    }
}

/// Whether a plugin declaring `plugin_servers` should run under `server_id`. A plugin with
/// no declared servers matches any server; if the server id is unknown, everything matches.
/// Otherwise the id must be listed.
pub fn server_matches(plugin_servers: &Vec<String>, server_id: &Option<String>) -> (yes: bool)
    ensures
        yes == servers_fit(texts(plugin_servers@), opt_text(*server_id)),
{
    if plugin_servers.len() == 0 {
        return true;
    }
    let id = match server_id {
        Some(id) => id,
        None => {
            return true;
        },
    };
    let ghost names = texts(plugin_servers@);
    let mut i: usize = 0;
    while i < plugin_servers.len()
        invariant
            i <= plugin_servers@.len(),
            names == texts(plugin_servers@),
            opt_text(*server_id) == Some(id@),
            forall|j: int| 0 <= j < i ==> lower(#[trigger] names[j]) != id@,
        decreases plugin_servers@.len() - i,
    {
        assert(names[i as int] == plugin_servers@[i as int]@);
        if same_text(lower_text(plugin_servers[i].as_str()).as_str(), id.as_str()) {
            assert(lower(names[i as int]) == id@);
            return true;
        }
        i = i + 1;
    }
    false
}

/// Matching goes without regard to case: lists of names that differ in case alone match the
/// same languages and the same servers.
pub proof fn law_matching_ignores_case(
    one: Seq<Seq<char>>,
    two: Seq<Seq<char>>,
    languages: Seq<Seq<char>>,
    server_id: Option<Seq<char>>,
)
    requires
        one.len() == two.len(),
        forall|i: int| 0 <= i < one.len() ==> lower(#[trigger] one[i]) == lower(two[i]),
    ensures
        languages_fit(one, languages) == languages_fit(two, languages),
        servers_fit(one, server_id) == servers_fit(two, server_id),
{
    assert(forall|i: int| 0 <= i < two.len() ==> lower(#[trigger] two[i]) == lower(one[i]));
}

// ---- Discovery -----------------------------------------------------------------

/// What becomes of a manifest that was found.
pub enum Admission {
    /// Its plugin is loaded.
    Load,
    /// A manifest of that name was seen before.
    Duplicate,
    /// Its languages are not those of the wrapped server.
    OtherLanguage,
    /// It is not meant for the wrapped server.
    OtherServer,
}

/// What becomes of a manifest, where `seen` are the names seen before it. The first manifest
/// of a name wins, whether or not it applies.
pub open spec fn admission(
    seen: Seq<Seq<char>>,
    manifest: PluginManifest,
    languages: Seq<Seq<char>>,
    server_id: Option<Seq<char>>,
) -> Admission {
    if seen.contains(manifest.name@) {
        Admission::Duplicate
    } else if !languages_fit(texts(manifest.languages@), languages) {
        Admission::OtherLanguage
    } else if !servers_fit(texts(manifest.language_servers@), server_id) {
        Admission::OtherServer
    } else {
        Admission::Load
    }
}

/// The names seen after a manifest.
pub open spec fn seen_after(seen: Seq<Seq<char>>, name: Seq<char>) -> Seq<Seq<char>> {
    if seen.contains(name) {
        seen
    } else {
        seen.push(name)
    }
}

/// The search for plugins: the names seen so far, and what the process serves.
pub struct Discovery {
    pub seen: Vec<String>,
    pub languages: Vec<String>,
    pub server_id: Option<String>,
}

impl Discovery {
    /// A search that has seen nothing yet.
    pub fn new(languages: Vec<String>, server_id: Option<String>) -> (discovery: Self)
        ensures
            texts(discovery.seen@) == Seq::<Seq<char>>::empty(),
            discovery.languages == languages,
            discovery.server_id == server_id,
    {
        let discovery = Discovery { seen: Vec::new(), languages, server_id };
        assert(texts(discovery.seen@) =~= Seq::<Seq<char>>::empty());
        discovery
    }

    /// Decide on one more manifest, before anything is spawned for it.
    pub fn decide(&mut self, manifest: &PluginManifest) -> (out: Admission)
        ensures
            out == admission(
                texts(old(self).seen@),
                *manifest,
                texts(old(self).languages@),
                opt_text(old(self).server_id),
            ),
            texts(final(self).seen@) == seen_after(texts(old(self).seen@), manifest.name@),
            final(self).languages == old(self).languages,
            final(self).server_id == old(self).server_id,
    {
        if list_holds(&self.seen, manifest.name.as_str()) {
            return Admission::Duplicate;
        }
        let ghost before = texts(self.seen@);
        self.seen.push(manifest.name.clone());
        assert(texts(self.seen@) =~= before.push(manifest.name@));
        if !languages_match(&manifest.languages, &self.languages) {
            return Admission::OtherLanguage;
        }
        if !server_matches(&manifest.language_servers, &self.server_id) {
            return Admission::OtherServer;
        }
        Admission::Load
    }
}

/// A name is loaded at most once: once it was seen, and whatever was seen since, a manifest
/// of that name is a duplicate.
pub proof fn law_name_loaded_once(
    seen: Seq<Seq<char>>,
    name: Seq<char>,
    others: Seq<Seq<char>>,
    manifest: PluginManifest,
    languages: Seq<Seq<char>>,
    server_id: Option<Seq<char>>,
)
    requires
        manifest.name@ == name,
    ensures
        admission(
            seen_all(seen_after(seen, name), others),
            manifest,
            languages,
            server_id,
        ) is Duplicate,
    decreases others.len(),
{
    let now = seen_after(seen, name);
    if !seen.contains(name) {
        assert(now[seen.len() as int] == name);
    }
    lemma_seen_stays(now, others, name);
}

/// The names seen after some more manifests.
pub open spec fn seen_all(seen: Seq<Seq<char>>, others: Seq<Seq<char>>) -> Seq<Seq<char>>
    decreases others.len(),
{
    if others.len() == 0 {
        seen
    } else {
        seen_after(seen_all(seen, others.drop_last()), others.last())
    }
}

proof fn lemma_seen_stays(seen: Seq<Seq<char>>, others: Seq<Seq<char>>, name: Seq<char>)
    requires
        seen.contains(name),
    ensures
        seen_all(seen, others).contains(name),
    decreases others.len(),
{
    if others.len() > 0 {
        lemma_seen_stays(seen, others.drop_last(), name);
        let before = seen_all(seen, others.drop_last());
        let i = choose|i: int| 0 <= i < before.len() && before[i] == name;
        assert(seen_all(seen, others)[i] == name);
    }
}

/// Whether a file of this name is a plugin manifest: one with the extension `json`.
pub fn manifest_file(name: &str) -> (yes: bool)
    ensures
        yes == (name@.len() > 5 && name@.skip(name@.len() - 5) == ".json"@),
{
    let chars = chars_of(name);
    if chars.len() <= 5 {
        return false;
    }
    let suffix = chars_of(".json");
    let at = chars.len() - 5;
    proof {
        reveal_strlit(".json");
        assert(chars@.subrange(at as int, at + 5) =~= chars@.skip(at as int));
    }
    stands_at(&chars, &suffix, at)
}

/// The directories of a list that name something, each path once.
pub open spec fn each_once(dirs: Seq<Seq<char>>) -> Seq<Seq<char>>
    decreases dirs.len(),
{
    if dirs.len() == 0 {
        seq![]
    } else {
        let before = each_once(dirs.drop_last());
        if dirs.last().len() == 0 || same_path_in(before, dirs.last()) {
            before
        } else {
            before.push(dirs.last())
        }
    }
}

/// One of the directories is the same path.
pub open spec fn same_path_in(dirs: Seq<Seq<char>>, dir: Seq<char>) -> bool {
    exists|i: int| 0 <= i < dirs.len() && components(#[trigger] dirs[i]) == components(dir)
}

/// The default user directory for plugins.
pub open spec fn user_plugins(home: Option<Seq<char>>) -> Seq<char> {
    (match home {
        Some(dir) => dir,
        None => "."@,
    }) + "/.config/potemkin/plugins"@
}

/// The ordered list of directories to scan for plugin manifests: the ones on the search path
/// (`POTEMKIN_PLUGINS_DIR`), then the default user directory below `HOME`. Earlier
/// directories win on name conflicts.
pub fn plugin_dirs(search_path: &Vec<String>, home: Option<String>) -> (dirs: Vec<String>)
    ensures
        texts(dirs@) == each_once(texts(search_path@).push(user_plugins(opt_text(home)))),
{
    let mut all = copy_list(search_path);
    let mut last = match home {
        Some(dir) => dir,
        None => ".".to_owned(),
    };
    last.append("/.config/potemkin/plugins");
    let ghost listed = texts(all@);
    all.push(last);
    assert(texts(all@) =~= listed.push(user_plugins(opt_text(home))));
    let ghost names = texts(all@);
    let mut dirs: Vec<String> = Vec::new();
    let mut i: usize = 0;
    assert(texts(dirs@) =~= each_once(names.take(0)));
    while i < all.len()
        invariant
            i <= all@.len(),
            names == texts(all@),
            texts(dirs@) == each_once(names.take(i as int)),
        decreases all@.len() - i,
    {
        let ghost before = texts(dirs@);
        assert(names.take(i + 1).drop_last() =~= names.take(i as int));
        assert(names.take(i + 1).last() == all@[i as int]@);
        if all[i].as_str().unicode_len() > 0 && !path_listed(&dirs, all[i].as_str()) {
            dirs.push(all[i].clone());
            assert(texts(dirs@) =~= before.push(all@[i as int]@));
        }
        i = i + 1;
    }
    assert(names.take(i as int) =~= names);
    dirs
}

/// Whether one of the directories is the same path.
fn path_listed(dirs: &Vec<String>, dir: &str) -> (yes: bool)
    ensures
        yes == same_path_in(texts(dirs@), dir@),
{
    let path = FilePath::new(dir);
    let ghost names = texts(dirs@);
    let mut i: usize = 0;
    while i < dirs.len()
        invariant
            i <= dirs@.len(),
            names == texts(dirs@),
            path@ == components(dir@),
            forall|j: int| 0 <= j < i ==> components(#[trigger] names[j]) != components(dir@),
        decreases dirs@.len() - i,
    {
        assert(names[i as int] == dirs@[i as int]@);
        if FilePath::new(dirs[i].as_str()).same(&path) {
            return true;
        }
        i = i + 1;
    }
    false
}

// ---- The backend ---------------------------------------------------------------

/// The commands to try for a server, in this order.
pub open spec fn candidates(server: Seq<char>, home: Option<Seq<char>>) -> Seq<Seq<char>> {
    let base = match home {
        Some(dir) => dir,
        None => "/tmp"@,
    };
    seq![
        server,
        base + "/.cargo/bin/"@ + server,
        base + "/.rustup/toolchains/stable-aarch64-apple-darwin/bin/"@ + server,
        base + "/.rustup/toolchains/stable-x86_64-unknown-linux-gnu/bin/"@ + server,
    ]
}

/// `base`, then `dir`, then `server`.
fn below(base: &str, dir: &str, server: &str) -> (path: String)
    ensures
        path@ == base@ + dir@ + server@,
{
    let mut path = base.to_owned();
    path.append(dir);
    path.append(server);
    path
}

/// The commands to try for a server, in this order; the first that runs is taken.
pub fn server_candidates(server: &str, home: Option<String>) -> (commands: Vec<String>)
    ensures
        texts(commands@) == candidates(server@, opt_text(home)),
{
    let base = match home {
        Some(dir) => dir,
        None => "/tmp".to_owned(),
    };
    let mut commands: Vec<String> = Vec::new();
    commands.push(server.to_owned());
    commands.push(below(base.as_str(), "/.cargo/bin/", server));
    commands.push(
        below(base.as_str(), "/.rustup/toolchains/stable-aarch64-apple-darwin/bin/", server),
    );
    commands.push(
        below(base.as_str(), "/.rustup/toolchains/stable-x86_64-unknown-linux-gnu/bin/", server),
    );
    assert(texts(commands@) =~= candidates(server@, opt_text(home)));
    commands
}

/// Whether a server command is a path, to be used directly where it exists.
pub fn names_path(server: &str) -> (yes: bool)
    ensures
        yes == server@.contains('/'),
{
    let chars = chars_of(server);
    let mut i: usize = 0;
    while i < chars.len()
        invariant
            i <= chars@.len(),
            chars@ == server@,
            forall|j: int| 0 <= j < i ==> chars@[j] != '/',
        decreases chars@.len() - i,
    {
        if chars[i] == '/' {
            return true;
        }
        i = i + 1;
    }
    false
}

} // verus!
