//! Per-directory language-server config injection.
//!
//! A generic `potemkin.toml` gives any server project-local, per-directory configuration
//! that it does not natively provide. It only ever supplies the server's **initial
//! settings** (the `initializationOptions` of the `initialize` request).
//!
//! A `potemkin.toml` carries one table per server id, `[servers.<id>]`. For a directory, the
//! files on the way up the tree are deep-merged nearest-wins; the result is then deep-merged
//! over whatever the editor supplied, with the file winning for the keys that it specifies.
use vstd::prelude::*;
use vstd::utf8::*;

use crate::json::{
    fields, from_value, last_entry, lemma_entry_below, lemma_entry_is_field, lemma_field_has_entry,
    lemma_last_entry, no_fields, seek_entry, value_content, Json, JsonModel,
};
use crate::paths::{parent, FilePath, PathMap};
use crate::plugin::{keep_non_blank, non_blank, opt_text};
use crate::text::{
    chars_of, find_char, lemma_find_char_is, occurs_at, seek_char, slice_text, stands_at,
};

verus! {

/// The config filename that is discovered in the workspace tree.
pub const CONFIG_FILE: &'static str = "potemkin.toml";

// ---- TOML ----------------------------------------------------------------------

/// A TOML value as the `toml` crate holds it.
#[verifier::external_type_specification]
#[verifier::external_body]
pub struct ExToml(toml::Value);

/// Why the `toml` crate could not read a text.
#[verifier::external_type_specification]
#[verifier::external_body]
pub struct ExTomlError(toml::de::Error);

/// The JSON tree that `serde_json` makes of a TOML value, if it can.
pub uninterp spec fn toml_tree(v: toml::Value) -> Option<JsonModel>;

/// The JSON tree that a text stands for as TOML, if the `toml` crate accepts it.
pub uninterp spec fn toml_parse(text: Seq<char>) -> Option<JsonModel>;

/// `toml::from_str`, into a `toml::Value`.
#[verifier::external_body]
fn read_toml(text: &str) -> (value: Result<toml::Value, toml::de::Error>)
    ensures
        toml_parse(text@) == (match value {
            Ok(v) => toml_tree(v),
            Err(_) => None,
        }),
{
    toml::from_str::<toml::Value>(text)
}

/// `serde_json::to_value`, of a `toml::Value`.
#[verifier::external_body]
fn toml_to_value(v: toml::Value) -> (value: Result<serde_json::Value, serde_json::Error>)
    ensures
        toml_tree(v) == (match value {
            Ok(j) => Some(value_content(j)),
            Err(_) => None,
        }),
{
    serde_json::to_value(v)
}

/// The table `servers.<id>` of a document.
pub open spec fn server_table(document: JsonModel, server_id: Seq<char>) -> Option<JsonModel> {
    match document.get("servers"@) {
        Some(servers) => match servers.get(server_id) {
            Some(JsonModel::Null) => None,
            table => table,
        },
        None => None,
    }
}

/// What a `potemkin.toml` says of a server, if it is TOML and says anything.
pub open spec fn server_config(text: Seq<char>, server_id: Seq<char>) -> Option<JsonModel> {
    match toml_parse(text) {
        Some(document) => server_table(document, server_id),
        None => None,
    }
}

/// The table `servers.<id>` of a document.
pub fn pick_server(document: &Json, server_id: &str) -> (config: Option<Json>)
    ensures
        crate::json::opt(config) == server_table(document@, server_id@),
{
    match document.get("servers") {
        Some(servers) => match servers.get(server_id) {
            Some(table) => match table {
                Json::Null => None,
                _ => {
                    assert(!(table@ is Null));
                    Some(table.dup())
                },
            },
            None => None,
        },
        None => None,
    }
}

/// Parse a `potemkin.toml` and extract `servers.<server_id>` as JSON. A malformed file says
/// nothing.
pub fn read_server_config(text: &str, server_id: &str) -> (config: Option<Json>)
    ensures
        crate::json::opt(config) == server_config(text@, server_id@),
{
    let document = match read_toml(text) {
        Ok(v) => match toml_to_value(v) {
            Ok(json) => from_value(json),
            Err(_) => {
                return None;
            },
        },
        Err(_) => {
            return None;
        },
    };
    pick_server(&document, server_id)
}

// ---- Merging -------------------------------------------------------------------

/// The fields of an object; anything else has none.
pub open spec fn fields_of(json: JsonModel) -> Map<Seq<char>, JsonModel> {
    match json {
        JsonModel::Object(fields) => fields,
        _ => no_fields(),
    }
}

/// `overlay` laid over `base`: objects are merged key by key, and anything else takes the
/// place of what was there.
pub open spec fn merged(base: JsonModel, overlay: JsonModel) -> JsonModel
    decreases overlay,
{
    match overlay {
        JsonModel::Object(over) => JsonModel::Object(
            Map::new(
                |key: Seq<char>| fields_of(base).dom().contains(key) || over.dom().contains(key),
                |key: Seq<char>|
                    if over.dom().contains(key) {
                        if fields_of(base).dom().contains(key) {
                            merged(fields_of(base)[key], over[key])
                        } else {
                            over[key]
                        }
                    } else {
                        fields_of(base)[key]
                    },
            ),
        ),
        _ => overlay,
    }
}

/// What a key has after the overlay; nothing changes for a key that is not in the overlay.
spec fn merged_at(
    base: Map<Seq<char>, JsonModel>,
    over: Map<Seq<char>, JsonModel>,
    key: Seq<char>,
) -> JsonModel {
    if over.dom().contains(key) {
        if base.dom().contains(key) {
            merged(base[key], over[key])
        } else {
            over[key]
        }
    } else {
        base[key]
    }
}

/// The overlay's entries below `count` have been laid over the base.
spec fn merged_upto(
    base: Map<Seq<char>, JsonModel>,
    entries: Seq<(String, Json)>,
    count: int,
    now: Map<Seq<char>, JsonModel>,
) -> bool {
    forall|key: Seq<char>|
        if exists|j: int| 0 <= j < count && last_entry(entries, key, j) {
            (#[trigger] now.dom().contains(key)) && now[key] == merged_at(
                base,
                fields(entries),
                key,
            )
        } else {
            now.dom().contains(key) == base.dom().contains(key) && now[key] == base[key]
        }
}

/// `overlay` laid over `base`.
fn merge(base: Json, overlay: &Json) -> (json: Json)
    ensures
        json@ == merged(base@, overlay@),
    decreases overlay,
{
    match overlay {
        Json::Object(entries) => {
            let ghost under = fields_of(base@);
            let ghost over = fields(entries@);
            let is_object = match &base {
                Json::Object(_) => true,
                _ => false,
            };
            let mut acc = if is_object {
                base
            } else {
                assert(!(base@ is Object));
                Json::object()
            };
            assert(acc@ == JsonModel::Object(under));
            let mut i: usize = 0;
            while i < entries.len()
                invariant
                    i <= entries@.len(),
                    overlay == Json::Object(*entries),
                    over == fields(entries@),
                    acc@ is Object,
                    merged_upto(under, entries@, i as int, acc@->Object_0),
                decreases entries@.len() - i,
            {
                let ghost before = acc@->Object_0;
                let key = entries[i].0.as_str();
                proof {
                    lemma_entry_below(*overlay, i as int);
                    lemma_entry_is_field(entries@, i as int);
                }
                match seek_entry(entries, key) {
                    Some(at) => if at == i {
                        assert forall|j: int| 0 <= j < i implies !last_entry(entries@, key@, j) by {
                            assert(entries@[i as int].0@ == key@);
                        }
                        assert(before.dom().contains(key@) == under.dom().contains(key@));
                        let value = match acc.get(key) {
                            Some(existing) => merge(existing.dup(), &entries[i].1),
                            None => entries[i].1.dup(),
                        };
                        assert(value@ == merged_at(under, over, key@));
                        acc = acc.with(key, value);
                        proof {
                            lemma_merged_step(
                                under,
                                entries@,
                                i as int,
                                before,
                                value@,
                            );
                        }
                    } else {
                        proof {
                            assert forall|other: Seq<char>| !last_entry(
                                entries@,
                                other,
                                i as int,
                            ) by {
                                assert(entries@[at as int].0@ == key@);
                            }
                            lemma_merged_skip(under, entries@, i as int, before);
                        }
                    },
                    None => {},
                }
                i = i + 1;
            }
            proof {
                let now = acc@->Object_0;
                let goal = merged(base@, overlay@)->Object_0;
                assert(overlay@ == JsonModel::Object(over));
                assert forall|key: Seq<char>|
                    now.dom().contains(key) == goal.dom().contains(key) && (now.dom().contains(key)
                        ==> now[key] == goal[key]) by {
                    if over.dom().contains(key) {
                        lemma_field_has_entry(entries@, key);
                        let at = choose|at: int| last_entry(entries@, key, at);
                        assert(0 <= at < i && last_entry(entries@, key, at));
                    } else {
                        assert forall|j: int| 0 <= j < i implies !last_entry(entries@, key, j) by {
                            if last_entry(entries@, key, j) {
                                lemma_last_entry(entries@, key, j);
                            }
                        }
                    }
                    assert(now.dom().contains(key) || !now.dom().contains(key));
                }
                assert(now =~= goal);
            }
            acc
        },
        _ => {
            assert(!(overlay@ is Object));
            overlay.dup()
        },
    }
}

/// Laying one more entry over the base.
proof fn lemma_merged_step(
    under: Map<Seq<char>, JsonModel>,
    entries: Seq<(String, Json)>,
    i: int,
    before: Map<Seq<char>, JsonModel>,
    value: JsonModel,
)
    requires
        0 <= i < entries.len(),
        last_entry(entries, entries[i].0@, i),
        merged_upto(under, entries, i, before),
        value == merged_at(under, fields(entries), entries[i].0@),
    ensures
        merged_upto(under, entries, i + 1, before.insert(entries[i].0@, value)),
{
    let key = entries[i].0@;
    let now = before.insert(key, value);
    assert forall|other: Seq<char>|
        if exists|j: int| 0 <= j < i + 1 && last_entry(entries, other, j) {
            (#[trigger] now.dom().contains(other)) && now[other] == merged_at(
                under,
                fields(entries),
                other,
            )
        } else {
            now.dom().contains(other) == under.dom().contains(other) && now[other] == under[other]
        } by {
        if other == key {
            assert(0 <= i < i + 1 && last_entry(entries, other, i));
        } else {
            assert(!last_entry(entries, other, i));
            assert(before.dom().contains(other) == now.dom().contains(other));
            if exists|j: int| 0 <= j < i + 1 && last_entry(entries, other, j) {
                let j = choose|j: int| 0 <= j < i + 1 && last_entry(entries, other, j);
                assert(0 <= j < i && last_entry(entries, other, j));
            }
        }
    }
}

/// Leaving out an entry that a later one hides.
proof fn lemma_merged_skip(
    under: Map<Seq<char>, JsonModel>,
    entries: Seq<(String, Json)>,
    i: int,
    now: Map<Seq<char>, JsonModel>,
)
    requires
        0 <= i < entries.len(),
        forall|key: Seq<char>| !last_entry(entries, key, i),
        merged_upto(under, entries, i, now),
    ensures
        merged_upto(under, entries, i + 1, now),
{
    assert forall|other: Seq<char>|
        if exists|j: int| 0 <= j < i + 1 && last_entry(entries, other, j) {
            (#[trigger] now.dom().contains(other)) && now[other] == merged_at(
                under,
                fields(entries),
                other,
            )
        } else {
            now.dom().contains(other) == under.dom().contains(other) && now[other] == under[other]
        } by {
        if exists|j: int| 0 <= j < i + 1 && last_entry(entries, other, j) {
            let j = choose|j: int| 0 <= j < i + 1 && last_entry(entries, other, j);
            assert(!last_entry(entries, other, i));
            assert(0 <= j < i && last_entry(entries, other, j));
        }
    }
}

/// Recursively merge `overlay` into `base`, with `overlay` winning. Objects are merged
/// key by key; any other overlay replaces the base value entirely, while sibling keys that
/// the overlay does not mention are preserved.
pub fn deep_merge(base: &mut Json, overlay: Json)
    ensures
        final(base)@ == merged(old(base)@, overlay@),
{
    let mut under = Json::Null;
    std::mem::swap(&mut under, base);
    *base = merge(under, &overlay);
}

/// The overlay wins: where it is no object, it is what is left.
pub proof fn law_overlay_wins(base: JsonModel, overlay: JsonModel)
    requires
        !(overlay is Object),
    ensures
        merged(base, overlay) == overlay,
{
}

/// What the overlay does not mention is preserved, and what it mentions is merged, key by
/// key; nothing else appears.
pub proof fn law_siblings_preserved(base: JsonModel, overlay: JsonModel, key: Seq<char>)
    requires
        overlay is Object,
    ensures
        overlay.get(key) is None ==> merged(base, overlay).get(key) == base.get(key),
        overlay.get(key) matches Some(over) ==> merged(base, overlay).get(key) == Some(
            match base.get(key) {
                Some(under) => merged(under, over),
                None => over,
            },
        ),
{
}

/// Merging the same overlay again changes nothing.
pub proof fn law_merge_idempotent(base: JsonModel, overlay: JsonModel)
    ensures
        merged(merged(base, overlay), overlay) == merged(base, overlay),
    decreases overlay,
{
    if let JsonModel::Object(over) = overlay {
        let once = merged(base, overlay);
        let twice = merged(once, overlay);
        let a = once->Object_0;
        let b = twice->Object_0;
        assert forall|key: Seq<char>| #[trigger] b.dom().contains(key) implies a.dom().contains(key)
            && b[key] == a[key] by {
            if over.dom().contains(key) {
                if fields_of(base).dom().contains(key) {
                    law_merge_idempotent(fields_of(base)[key], over[key]);
                } else {
                    law_merge_self(over[key]);
                }
            }
        }
        assert(b =~= a);
    }
}

/// A value merged over itself is itself.
pub proof fn law_merge_self(value: JsonModel)
    ensures
        merged(value, value) == value,
    decreases value,
{
    if let JsonModel::Object(own) = value {
        let both = merged(value, value)->Object_0;
        assert forall|key: Seq<char>| #[trigger] both.dom().contains(key) implies own.dom().contains(
            key,
        ) && both[key] == own[key] by {
            law_merge_self(own[key]);
        }
        assert(both =~= own);
    }
}

// ---- Files ---------------------------------------------------------------------

/// What is known of the disk: which paths are directories, and which directories hold a
/// `potemkin.toml`, with its text where it can be read.
pub struct Disk {
    dirs: PathMap<()>,
    configs: PathMap<Option<String>>,
}

/// What is known of the disk.
#[verifier::ext_equal]
pub struct DiskModel {
    pub dirs: Set<Seq<Seq<char>>>,
    pub configs: Map<Seq<Seq<char>>, Option<Seq<char>>>,
}

impl View for Disk {
    type V = DiskModel;

    closed spec fn view(&self) -> DiskModel {
        DiskModel {
            dirs: self.dirs@.dom(),
            configs: self.configs@.map_values(|text: Option<String>| opt_text(text)),
        }
    }
}

impl Disk {
    /// A disk of which nothing is known.
    pub fn new() -> (disk: Disk)
        ensures
            disk@ == (DiskModel { dirs: Set::empty(), configs: Map::empty() }),
    {
        let disk = Disk { dirs: PathMap::new(), configs: PathMap::new() };
        assert(disk@ =~= (DiskModel { dirs: Set::empty(), configs: Map::empty() }));
        disk
    }

    /// There is a directory at `path`.
    pub fn add_dir(&mut self, path: FilePath)
        ensures
            final(self)@ == (DiskModel {
                dirs: old(self)@.dirs.insert(path@),
                configs: old(self)@.configs,
            }),
    {
        self.dirs.insert(path, ());
        assert(self@.dirs =~= old(self)@.dirs.insert(path@));
    }

    /// There is a `potemkin.toml` in the directory `dir`; its text, where it can be read.
    pub fn add_config(&mut self, dir: FilePath, text: Option<String>)
        ensures
            final(self)@ == (DiskModel {
                dirs: old(self)@.dirs,
                configs: old(self)@.configs.insert(dir@, opt_text(text)),
            }),
    {
        self.configs.insert(dir, text);
        assert(self@.configs =~= old(self)@.configs.insert(dir@, opt_text(text)));
    }

    /// Whether there is a directory at `path`.
    pub fn is_dir(&self, path: &FilePath) -> (yes: bool)
        ensures
            yes == self@.dirs.contains(path@),
    {
        self.dirs.get(path).is_some()
    }

    /// Whether the directory `dir` holds a `potemkin.toml`.
    pub fn has_config(&self, dir: &FilePath) -> (yes: bool)
        ensures
            yes == self@.configs.dom().contains(dir@),
    {
        self.configs.get(dir).is_some()
    }

    /// What the `potemkin.toml` of the directory `dir` says of a server.
    fn config_at(&self, dir: &FilePath, server_id: &str) -> (config: Option<Json>)
        ensures
            crate::json::opt(config) == config_in(self@, dir@, server_id@),
    {
        match self.configs.get(dir) {
            Some(text) => match text {
                Some(text) => read_server_config(text.as_str(), server_id),
                None => None,
            },
            None => None,
        }
    }
}

/// What the `potemkin.toml` of one directory says of a server, if there is one that can be
/// read and says anything.
pub open spec fn config_in(disk: DiskModel, dir: Seq<Seq<char>>, server_id: Seq<char>) -> Option<
    JsonModel,
> {
    if disk.configs.dom().contains(dir) {
        match disk.configs[dir] {
            Some(text) => server_config(text, server_id),
            None => None,
        }
    } else {
        None
    }
}

/// The settings that apply to a directory: those of the directory above it, with what its
/// own `potemkin.toml` says laid over them.
pub open spec fn layered(disk: DiskModel, dir: Seq<Seq<char>>, server_id: Seq<char>) -> JsonModel
    decreases dir.len(),
{
    let above = match parent(dir) {
        Some(up) => if up.len() < dir.len() {
            layered(disk, up, server_id)
        } else {
            JsonModel::Null
        },
        None => JsonModel::Null,
    };
    match config_in(disk, dir, server_id) {
        Some(config) => merged(above, config),
        None => above,
    }
}

/// The nearest file wins for a key to which it gives a plain value.
pub proof fn law_nearest_wins(
    disk: DiskModel,
    dir: Seq<Seq<char>>,
    server_id: Seq<char>,
    key: Seq<char>,
    value: JsonModel,
)
    requires
        config_in(disk, dir, server_id) is Some,
        config_in(disk, dir, server_id)->0.get(key) == Some(value),
        !(value is Object),
    ensures
        layered(disk, dir, server_id).get(key) == Some(value),
{
    let config = config_in(disk, dir, server_id)->0;
    let above = match parent(dir) {
        Some(up) => layered(disk, up, server_id),
        None => JsonModel::Null,
    };
    assert(layered(disk, dir, server_id) == merged(above, config));
    law_siblings_preserved(above, config, key);
    if let Some(under) = above.get(key) {
        law_overlay_wins(under, value);
    }
}

/// A directory without a file of its own, or whose file says nothing of the server, has the
/// settings of the directory above it.
pub proof fn law_silent_directory_inherits(
    disk: DiskModel,
    dir: Seq<Seq<char>>,
    server_id: Seq<char>,
)
    requires
        parent(dir) is Some,
        config_in(disk, dir, server_id) is None,
    ensures
        layered(disk, dir, server_id) == layered(disk, parent(dir)->0, server_id),
{
}

// ---- The layer -----------------------------------------------------------------

/// Resolves the per-directory settings of a single server, and remembers them.
pub struct ConfigLayer {
    server_id: Option<String>,
    /// The merged settings for each directory that was asked about.
    cache: PathMap<Json>,
}

/// What a layer is.
#[verifier::ext_equal]
pub struct LayerModel {
    pub server_id: Option<Seq<char>>,
    pub cache: Map<Seq<Seq<char>>, JsonModel>,
}

impl View for ConfigLayer {
    type V = LayerModel;

    closed spec fn view(&self) -> LayerModel {
        LayerModel {
            server_id: opt_text(self.server_id),
            cache: self.cache@.map_values(|json: Json| json@),
        }
    }
}

/// The settings that a layer gives for a directory: none without a server id; what was
/// found before, where the directory was asked about before.
pub open spec fn settings_for(layer: LayerModel, disk: DiskModel, dir: Seq<Seq<char>>) -> JsonModel {
    match layer.server_id {
        Some(id) => if layer.cache.dom().contains(dir) {
            layer.cache[dir]
        } else {
            layered(disk, dir, id)
        },
        None => JsonModel::Null,
    }
}

/// A layer after it was asked about a directory.
pub open spec fn asked(layer: LayerModel, disk: DiskModel, dir: Seq<Seq<char>>) -> LayerModel {
    if layer.server_id is Some && !layer.cache.dom().contains(dir) {
        LayerModel { cache: layer.cache.insert(dir, settings_for(layer, disk, dir)), ..layer }
    } else {
        layer
    }
}

/// An answer stands: whatever happens to the files and whatever else is asked, the same
/// directory has the same settings for the rest of the session.
pub proof fn law_answers_stand(
    layer: LayerModel,
    disk: DiskModel,
    dir: Seq<Seq<char>>,
    later: DiskModel,
    other: Seq<Seq<char>>,
    much_later: DiskModel,
)
    ensures
        settings_for(asked(asked(layer, disk, dir), later, other), much_later, dir) == settings_for(
            layer,
            disk,
            dir,
        ),
{
}

/// What a layer remembers is what the files say.
pub open spec fn agrees(layer: LayerModel, disk: DiskModel) -> bool {
    layer.server_id matches Some(id) ==> forall|dir: Seq<Seq<char>>| #[trigger]
        layer.cache.dom().contains(dir) ==> layer.cache[dir] == layered(disk, dir, id)
}

/// As long as what a layer remembers is what the files say, it answers with what they say,
/// and remembers that.
pub proof fn law_agreeing_settings(layer: LayerModel, disk: DiskModel, dir: Seq<Seq<char>>)
    requires
        agrees(layer, disk),
    ensures
        settings_for(layer, disk, dir) == (match layer.server_id {
            Some(id) => layered(disk, dir, id),
            None => JsonModel::Null,
        }),
        agrees(asked(layer, disk, dir), disk),
{
}

impl ConfigLayer {
    /// A layer for a server; a blank id is none.
    pub fn new(server_id: Option<String>) -> (layer: Self)
        ensures
            layer@ == (LayerModel {
                server_id: non_blank(opt_text(server_id)),
                cache: Map::empty(),
            }),
    {
        let layer = ConfigLayer {
            server_id: keep_non_blank(server_id),
            cache: PathMap::new(),
        };
        assert(layer@.cache =~= Map::empty());
        layer
    }

    /// Whether any injection should happen at all. When there is no server id, config cannot
    /// be mapped to a server, so the layer is inert.
    pub fn active(&self) -> (yes: bool)
        ensures
            yes == (self@.server_id is Some),
    {
        self.server_id.is_some()
    }

    /// The merged settings that apply to `dir`, walking up the tree, nearest file winning.
    /// `Null` if inactive or nothing applies.
    pub fn for_dir(&mut self, dir: &FilePath, disk: &Disk) -> (json: Json)
        ensures
            json@ == settings_for(old(self)@, disk@, dir@),
            final(self)@ == asked(old(self)@, disk@, dir@),
    {
        let json = match &self.server_id {
            Some(id) => {
                match self.cache.get(dir) {
                    Some(json) => {
                        return json.dup();
                    },
                    None => {},
                }
                load_merged(dir, disk, id.as_str())
            },
            None => {
                return Json::Null;
            },
        };
        self.cache.insert(dir.dup(), json.dup());
        assert(self@.cache =~= asked(old(self)@, disk@, dir@).cache);
        json
    }
}

/// Deep-merge the server tables of the `potemkin.toml` files from `dir` up to the filesystem
/// root, nearest winning.
fn load_merged(dir: &FilePath, disk: &Disk, server_id: &str) -> (json: Json)
    ensures
        json@ == layered(disk@, dir@, server_id@),
    decreases dir@.len(),
{
    let mut acc = match dir.parent() {
        Some(up) => load_merged(&up, disk, server_id),
        None => Json::Null,
    };
    match disk.config_at(dir, server_id) {
        Some(config) => {
            deep_merge(&mut acc, config);
        },
        None => {},
    }
    acc
}

// ---- URIs ----------------------------------------------------------------------

/// The value of a hexadecimal digit.
pub open spec fn hex_value(byte: u8) -> Option<u8> {
    if 0x30 <= byte <= 0x39 {
        Some((byte - 0x30) as u8)
    } else if 0x41 <= byte <= 0x46 {
        Some((byte - 0x37) as u8)
    } else if 0x61 <= byte <= 0x66 {
        Some((byte - 0x57) as u8)
    } else {
        None
    }
}

/// Bytes with every `%XX` replaced by the byte that it stands for.
pub open spec fn percent_bytes(bytes: Seq<u8>) -> Seq<u8>
    decreases bytes.len(),
{
    if bytes.len() == 0 {
        seq![]
    } else if bytes[0] == 0x25 && bytes.len() > 2 && hex_value(bytes[1]) is Some && hex_value(
        bytes[2],
    ) is Some {
        seq![(hex_value(bytes[1])->0 * 16 + hex_value(bytes[2])->0) as u8] + percent_bytes(
            bytes.skip(3),
        )
    } else {
        seq![bytes[0]] + percent_bytes(bytes.skip(1))
    }
}

/// The text that bytes which are no UTF-8 are read as.
pub uninterp spec fn utf8_lossy(bytes: Seq<u8>) -> Seq<char>;

/// The text that bytes are read as.
pub open spec fn lossy_text(bytes: Seq<u8>) -> Seq<char> {
    if valid_utf8(bytes) {
        decode_utf8(bytes)
    } else {
        utf8_lossy(bytes)
    }
}

/// A path without the slashes at its start.
pub open spec fn without_slashes(path: Seq<char>) -> Seq<char>
    decreases path.len(),
{
    if path.len() > 0 && path[0] == '/' {
        without_slashes(path.drop_first())
    } else {
        path
    }
}

/// The path that a `file://` URI names. On Windows, where a path starts with its drive, the
/// slash before the drive is the URI's alone.
pub open spec fn path_of_uri(uri: Seq<char>, windows: bool) -> Option<Seq<char>> {
    if occurs_at(uri, "file://"@, 0) {
        let rest = uri.skip(7);
        let path = match find_char(rest, '/') {
            Some(at) => rest.skip(at),
            None => rest,
        };
        let decoded = lossy_text(percent_bytes(encode_utf8(path)));
        Some(
            if windows {
                without_slashes(decoded)
            } else {
                decoded
            },
        )
    } else {
        None
    }
}

/// `String::from_utf8_lossy`: the text of valid UTF-8 is what it encodes; what stands for
/// invalid bytes is left unsaid here but for that it depends on the bytes alone.
#[verifier::external_body]
fn string_from_utf8_lossy(bytes: &Vec<u8>) -> (text: String)
    ensures
        text@ == (if valid_utf8(bytes@) {
            decode_utf8(bytes@)
        } else {
            utf8_lossy(bytes@)
        }),
{
    String::from_utf8_lossy(bytes).into_owned()
}

/// The value of a hexadecimal digit.
fn hex_digit(byte: u8) -> (value: Option<u8>)
    ensures
        value == hex_value(byte),
{
    if 0x30 <= byte && byte <= 0x39 {
        Some(byte - 0x30)
    } else if 0x41 <= byte && byte <= 0x46 {
        Some(byte - 0x37)
    } else if 0x61 <= byte && byte <= 0x66 {
        Some(byte - 0x57)
    } else {
        None
    }
}

/// Minimal `%XX` percent-decoding for file URIs.
pub fn percent_decode(text: &str) -> (decoded: String)
    ensures
        decoded@ == lossy_text(percent_bytes(encode_utf8(text@))),
{
    let bytes = text.as_bytes();
    let ghost all = bytes@;
    let mut out: Vec<u8> = Vec::new();
    let mut i: usize = 0;
    assert(all.skip(0) =~= all);
    assert(out@ + percent_bytes(all) =~= percent_bytes(all));
    while i < bytes.len()
        invariant
            i <= bytes@.len(),
            all == bytes@,
            out@ + percent_bytes(all.skip(i as int)) == percent_bytes(all),
        decreases bytes@.len() - i,
    {
        let ghost rest = all.skip(i as int);
        let ghost before = out@;
        if bytes[i] == 0x25 && bytes.len() - i > 2 {
            match (hex_digit(bytes[i + 1]), hex_digit(bytes[i + 2])) {
                (Some(hi), Some(lo)) => {
                    assert(hi <= 15 && lo <= 15);
                    out.push(hi * 16 + lo);
                    proof {
                        assert(rest.skip(3) =~= all.skip(i + 3));
                        assert(out@ + percent_bytes(all.skip(i + 3)) =~= before + percent_bytes(
                            rest,
                        ));
                    }
                    i = i + 3;
                    continue;
                },
                _ => {},
            }
        }
        out.push(bytes[i]);
        proof {
            assert(rest.skip(1) =~= all.skip(i + 1));
            assert(out@ + percent_bytes(all.skip(i + 1)) =~= before + percent_bytes(rest));
        }
        i = i + 1;
    }
    assert(out@ =~= percent_bytes(all));
    string_from_utf8_lossy(&out)
}

/// Convert a `file://` URI to a filesystem path (best-effort: handles the common
/// `file:///abs/path` form and percent-encoding). Gives nothing for other URIs. On Windows
/// `file:///C:/x` is `C:/x`.
pub fn uri_to_path(uri: &str, windows: bool) -> (path: Option<String>)
    ensures
        opt_text(path) == path_of_uri(uri@, windows),
{
    let chars = chars_of(uri);
    let scheme = chars_of("file://");
    proof {
        reveal_strlit("file://");
    }
    if !stands_at(&chars, &scheme, 0) {
        return None;
    }
    let ghost rest = uri@.skip(7);
    let from = match seek_char(&chars, 7, '/') {
        Some(at) => {
            assert(rest.skip(at - 7) =~= chars@.skip(at as int));
            at
        },
        None => 7,
    };
    let path = slice_text(&chars, from, chars.len());
    assert(path@ =~= chars@.skip(from as int));
    let decoded = percent_decode(path.as_str());
    if windows {
        Some(strip_slashes(decoded.as_str()))
    } else {
        Some(decoded)
    }
}

/// A path without the slashes at its start.
fn strip_slashes(path: &str) -> (rest: String)
    ensures
        rest@ == without_slashes(path@),
{
    let chars = chars_of(path);
    let mut from: usize = 0;
    assert(chars@.skip(0) =~= path@);
    while from < chars.len() && chars[from] == '/'
        invariant
            from <= chars@.len(),
            without_slashes(path@) == without_slashes(chars@.skip(from as int)),
        decreases chars@.len() - from,
    {
        assert(chars@.skip(from as int).drop_first() =~= chars@.skip(from + 1));
        from = from + 1;
    }
    let rest = slice_text(&chars, from, chars.len());
    assert(rest@ =~= chars@.skip(from as int));
    rest
}

/// Bytes without a percent sign stand for themselves.
proof fn lemma_no_percent(bytes: Seq<u8>)
    requires
        !bytes.contains(0x25),
    ensures
        percent_bytes(bytes) == bytes,
    decreases bytes.len(),
{
    if bytes.len() > 0 {
        assert(bytes.contains(bytes[0]));
        assert forall|i: int| 0 <= i < bytes.skip(1).len() implies bytes.skip(1)[i] != 0x25 by {
            assert(bytes.contains(bytes[i + 1]));
        }
        lemma_no_percent(bytes.skip(1));
        assert(seq![bytes[0]] + bytes.skip(1) =~= bytes);
    }
}

/// Only the percent sign is encoded with the byte of the percent sign.
proof fn lemma_percent_byte(scalar: u32)
    requires
        is_scalar(scalar),
        scalar != 0x25,
    ensures
        !encode_scalar(scalar).contains(0x25),
{
    assert(scalar <= 0x7f && scalar != 0x25 ==> (scalar & 0x7f) as u8 != 0x25u8) by (bit_vector);
    assert((0xC0u8 | ((scalar >> 6) & 0x1F) as u8) != 0x25u8) by (bit_vector);
    assert((0xE0u8 | ((scalar >> 12) & 0x0F) as u8) != 0x25u8) by (bit_vector);
    assert((0xF0u8 | ((scalar >> 18) & 0x7) as u8) != 0x25u8) by (bit_vector);
    assert((0x80u8 | (scalar & 0x3F) as u8) != 0x25u8) by (bit_vector);
    assert((0x80u8 | ((scalar >> 6) & 0x3F) as u8) != 0x25u8) by (bit_vector);
    assert((0x80u8 | ((scalar >> 12) & 0x3F) as u8) != 0x25u8) by (bit_vector);
}

/// A text without a percent sign is encoded without one.
proof fn lemma_no_percent_encoded(text: Seq<char>)
    requires
        !text.contains('%'),
    ensures
        !encode_utf8(text).contains(0x25),
    decreases text.len(),
{
    if text.len() > 0 {
        assert(text.contains(text[0]));
        let rest = text.drop_first();
        assert forall|i: int| 0 <= i < rest.len() implies rest[i] != '%' by {
            assert(text.contains(text[i + 1]));
        }
        lemma_no_percent_encoded(rest);
        char_is_scalar(text[0]);
        char_u32_cast(text[0], text[0] as u32);
        assert('%' as u32 == 0x25);
        char_u32_cast('%', 0x25);
        lemma_percent_byte(text[0] as u32);
        let head = encode_scalar(text[0] as u32);
        let whole = encode_utf8(text);
        assert forall|i: int| 0 <= i < whole.len() implies whole[i] != 0x25 by {
            if i < head.len() {
                assert(head.contains(head[i]));
            } else {
                assert(encode_utf8(rest).contains(encode_utf8(rest)[i - head.len()]));
            }
        }
    }
}

/// An absolute path that holds no percent sign is what its `file://` URI names, on Windows
/// without the slashes at its start.
pub proof fn law_plain_uri(path: Seq<char>)
    requires
        path.len() > 0,
        path[0] == '/',
        !path.contains('%'),
    ensures
        path_of_uri("file://"@ + path, false) == Some(path),
        path_of_uri("file://"@ + path, true) == Some(without_slashes(path)),
{
    broadcast use encode_utf8_valid_utf8, encode_utf8_decode_utf8;

    reveal_strlit("file://");
    let uri = "file://"@ + path;
    assert(uri.subrange(0, 7) =~= "file://"@);
    assert(uri.skip(7) =~= path);
    lemma_find_char_is(path, '/', 0);
    assert(path.skip(0) =~= path);
    lemma_no_percent_encoded(path);
    lemma_no_percent(encode_utf8(path));
}

/// The hexadecimal digit for a value below sixteen.
pub open spec fn hex_char(value: u8) -> u8 {
    if value < 10 {
        (0x30 + value) as u8
    } else {
        (0x37 + value) as u8
    }
}

/// Every byte in the form `%XX`.
pub open spec fn percent_escaped(bytes: Seq<u8>) -> Seq<u8>
    decreases bytes.len(),
{
    if bytes.len() == 0 {
        seq![]
    } else {
        seq![0x25, hex_char(bytes[0] / 16), hex_char(bytes[0] % 16)] + percent_escaped(bytes.skip(1))
    }
}

/// Decoding gives back whatever bytes were percent-encoded.
pub proof fn law_percent_round_trip(bytes: Seq<u8>)
    ensures
        percent_bytes(percent_escaped(bytes)) == bytes,
    decreases bytes.len(),
{
    if bytes.len() > 0 {
        let escaped = percent_escaped(bytes);
        law_percent_round_trip(bytes.skip(1));
        assert(escaped.skip(3) =~= percent_escaped(bytes.skip(1)));
        assert(hex_value(hex_char(bytes[0] / 16)) == Some((bytes[0] / 16) as u8));
        assert(hex_value(hex_char(bytes[0] % 16)) == Some((bytes[0] % 16) as u8));
        assert(seq![bytes[0]] + bytes.skip(1) =~= bytes);
    }
}

} // verus!
