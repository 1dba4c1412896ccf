//! What holds of the settings: how files combine, which of them count, and which directories
//! a document and a workspace stand for.
use vstd::prelude::*;

use crate::config_layer::{
    config_in, layered, merged, path_of_uri, percent_bytes, settings_for, toml_parse,
    without_slashes, DiskModel, LayerModel,
};
use crate::json::{json_same, JsonModel};
use crate::paths::{components_on, is_root, law_components_rooted, lies_in, parent, rooted};
use crate::plugin::non_blank;
use crate::scope::{
    deepest_root, document_uri, folder_paths, lemma_deepest_root, nearest_config, roots_of,
    scope_of, start_dir, uri_field, ScopeModel,
};
use crate::text::{is_space, lemma_find_char_is};

verus! {

// ---- Values along a path of keys -----------------------------------------------

/// What stands in a value at a path of keys.
pub open spec fn at_path(json: JsonModel, keys: Seq<Seq<char>>) -> Option<JsonModel>
    decreases keys.len(),
{
    if keys.len() == 0 {
        Some(json)
    } else {
        match json.get(keys[0]) {
            Some(below) => at_path(below, keys.drop_first()),
            None => None,
        }
    }
}

/// A value says nothing at a path of keys: it holds objects along the path up to a key that
/// it does not have.
pub open spec fn silent_at(json: JsonModel, keys: Seq<Seq<char>>) -> bool
    decreases keys.len(),
{
    &&& json is Object
    &&& keys.len() > 0
    &&& match json.get(keys[0]) {
        Some(below) => silent_at(below, keys.drop_first()),
        None => true,
    }
}

proof fn lemma_silent(json: JsonModel, keys: Seq<Seq<char>>)
    requires
        silent_at(json, keys),
    ensures
        at_path(json, keys) is None,
    decreases keys.len(),
{
    if let Some(below) = json.get(keys[0]) {
        lemma_silent(below, keys.drop_first());
    }
}

/// Where the overlay says nothing, at whatever depth, the base is kept.
pub proof fn law_merge_keeps_what_is_not_said(
    base: JsonModel,
    overlay: JsonModel,
    keys: Seq<Seq<char>>,
)
    requires
        silent_at(overlay, keys),
    ensures
        at_path(merged(base, overlay), keys) == at_path(base, keys),
    decreases keys.len(),
{
    if let Some(over) = overlay.get(keys[0]) {
        match base.get(keys[0]) {
            Some(under) => {
                law_merge_keeps_what_is_not_said(under, over, keys.drop_first());
            },
            None => {
                lemma_silent(over, keys.drop_first());
            },
        }
    }
}

/// What the overlay says at a path, where it is a plain value, is what stands there.
pub proof fn law_merge_takes_what_is_said(
    base: JsonModel,
    overlay: JsonModel,
    keys: Seq<Seq<char>>,
    value: JsonModel,
)
    requires
        at_path(overlay, keys) == Some(value),
        !(value is Object),
    ensures
        at_path(merged(base, overlay), keys) == Some(value),
    decreases keys.len(),
{
    if keys.len() > 0 {
        let over = overlay.get(keys[0])->0;
        if let Some(under) = base.get(keys[0]) {
            law_merge_takes_what_is_said(under, over, keys.drop_first(), value);
        }
    }
}

/// Whatever stands in the merge at a path is a plain value of one of the two, or an object.
pub proof fn law_merge_adds_nothing(
    base: JsonModel,
    overlay: JsonModel,
    keys: Seq<Seq<char>>,
)
    requires
        at_path(merged(base, overlay), keys) is Some,
    ensures
        at_path(overlay, keys) is Some || at_path(base, keys) is Some,
    decreases keys.len(),
{
    if keys.len() > 0 {
        if overlay is Object {
            match (overlay.get(keys[0]), base.get(keys[0])) {
                (Some(over), Some(under)) => {
                    law_merge_adds_nothing(under, over, keys.drop_first());
                },
                _ => {},
            }
        }
    }
}

// ---- The settings of a directory -----------------------------------------------

/// The settings of a directory whose file says something are its file, laid over the settings
/// of the directory above: what the file does not say at a path of keys is what it is above,
/// and what it says is so.
pub proof fn law_file_over_what_is_above(
    disk: DiskModel,
    dir: Seq<Seq<char>>,
    up: Seq<Seq<char>>,
    server_id: Seq<char>,
    config: JsonModel,
    keys: Seq<Seq<char>>,
)
    requires
        parent(dir) == Some(up),
        config_in(disk, dir, server_id) == Some(config),
    ensures
        layered(disk, dir, server_id) == merged(layered(disk, up, server_id), config),
        silent_at(config, keys) ==> at_path(layered(disk, dir, server_id), keys) == at_path(
            layered(disk, up, server_id),
            keys,
        ),
        at_path(config, keys) matches Some(value) ==> (!(value is Object) ==> at_path(
            layered(disk, dir, server_id),
            keys,
        ) == Some(value)),
        at_path(layered(disk, dir, server_id), keys) is Some ==> at_path(config, keys) is Some
            || at_path(layered(disk, up, server_id), keys) is Some,
{
    let above = layered(disk, up, server_id);
    if silent_at(config, keys) {
        law_merge_keeps_what_is_not_said(above, config, keys);
    }
    if let Some(value) = at_path(config, keys) {
        if !(value is Object) {
            law_merge_takes_what_is_said(above, config, keys, value);
        }
    }
    if at_path(layered(disk, dir, server_id), keys) is Some {
        law_merge_adds_nothing(above, config, keys);
    }
}

/// A directory with nothing above it has what its file says, and without a file no settings.
pub proof fn law_topmost_directory(
    disk: DiskModel,
    dir: Seq<Seq<char>>,
    server_id: Seq<char>,
    keys: Seq<Seq<char>>,
)
    requires
        parent(dir) is None,
    ensures
        config_in(disk, dir, server_id) is None ==> layered(disk, dir, server_id) is Null,
        config_in(disk, dir, server_id) matches Some(config) ==> (at_path(
            config,
            keys,
        ) matches Some(value) ==> (!(value is Object) ==> at_path(
            layered(disk, dir, server_id),
            keys,
        ) == Some(value))),
        config_in(disk, dir, server_id) matches Some(config) ==> (silent_at(config, keys)
            ==> at_path(layered(disk, dir, server_id), keys) is None),
{
    if let Some(config) = config_in(disk, dir, server_id) {
        if let Some(value) = at_path(config, keys) {
            if !(value is Object) {
                law_merge_takes_what_is_said(JsonModel::Null, config, keys, value);
            }
        }
        if silent_at(config, keys) {
            law_merge_keeps_what_is_not_said(JsonModel::Null, config, keys);
        }
    }
}

/// What a file says of a server is its table `servers.<id>`, whatever else stands in the file:
/// tables of other servers and other keys say nothing.
pub proof fn law_file_says(
    disk: DiskModel,
    dir: Seq<Seq<char>>,
    server_id: Seq<char>,
    text: Seq<char>,
    document: JsonModel,
)
    requires
        disk.configs.dom().contains(dir),
        disk.configs[dir] == Some(text),
        toml_parse(text) == Some(document),
    ensures
        document.get("servers"@) is None ==> config_in(disk, dir, server_id) is None,
        document.get("servers"@) matches Some(servers) ==> (servers.get(server_id) is None
            ==> config_in(disk, dir, server_id) is None),
        document.get("servers"@) matches Some(servers) ==> (servers.get(
            server_id,
        ) matches Some(table) ==> (!(table is Null) ==> config_in(disk, dir, server_id) == Some(
            table,
        ))),
{
}

/// A file that is not there, that cannot be read or that is no TOML says nothing.
pub proof fn law_unreadable_file_says_nothing(
    disk: DiskModel,
    dir: Seq<Seq<char>>,
    server_id: Seq<char>,
)
    requires
        disk.configs.dom().contains(dir) ==> (disk.configs[dir] matches Some(text) ==> toml_parse(
            text,
        ) is None),
    ensures
        config_in(disk, dir, server_id) is None,
{
}

/// Without a server id there are no settings; with one, a directory that was not asked about
/// before has what the files say now.
pub proof fn law_settings_of_a_layer(layer: LayerModel, disk: DiskModel, dir: Seq<Seq<char>>)
    ensures
        layer.server_id is None ==> settings_for(layer, disk, dir) is Null,
        layer.server_id matches Some(id) ==> (!layer.cache.dom().contains(dir) ==> settings_for(
            layer,
            disk,
            dir,
        ) == layered(disk, dir, id)),
        layer.server_id is Some && layer.cache.dom().contains(dir) ==> settings_for(
            layer,
            disk,
            dir,
        ) == layer.cache[dir],
{
}

/// Only a file on the way from a directory up to the top counts for it: two disks with the
/// same files there give it the same settings.
pub proof fn law_only_files_above_count(
    one: DiskModel,
    two: DiskModel,
    dir: Seq<Seq<char>>,
    server_id: Seq<char>,
)
    requires
        forall|n: int|
            0 <= n <= dir.len() ==> config_in(one, #[trigger] dir.take(n), server_id) == config_in(
                two,
                dir.take(n),
                server_id,
            ),
    ensures
        layered(one, dir, server_id) == layered(two, dir, server_id),
    decreases dir.len(),
{
    assert(dir.take(dir.len() as int) =~= dir);
    if let Some(up) = parent(dir) {
        assert forall|n: int| 0 <= n <= up.len() implies config_in(
            one,
            #[trigger] up.take(n),
            server_id,
        ) == config_in(two, up.take(n), server_id) by {
            assert(up.take(n) =~= dir.take(n));
        }
        law_only_files_above_count(one, two, up, server_id);
    }
}

/// A setting that is there counts just where it holds anything but white space, and then as
/// it is.
pub proof fn law_blank_settings_do_not_count(text: Seq<char>)
    ensures
        non_blank(None) is None,
        (exists|i: int| 0 <= i < text.len() && !is_space(#[trigger] text[i])) ==> non_blank(
            Some(text),
        ) == Some(text),
        (forall|i: int| 0 <= i < text.len() ==> is_space(#[trigger] text[i])) ==> non_blank(
            Some(text),
        ) is None,
{
    crate::text_laws::law_trim(text);
    crate::text_laws::law_trim_of_blank(text);
}

// ---- Documents and roots -------------------------------------------------------

/// The document of a message is the `uri` of its `params.textDocument`, and nothing else.
pub proof fn law_document_of_a_message(v: JsonModel, params: JsonModel, document: JsonModel)
    ensures
        v.get("params"@) is None ==> document_uri(v) is None,
        v.get("params"@) == Some(params) && params.get("textDocument"@) is None ==> document_uri(
            v,
        ) is None,
        v.get("params"@) == Some(params) && params.get("textDocument"@) == Some(document)
            ==> document_uri(v) == document.get_str("uri"@),
{
}

/// A directory is looked at itself, and a file in the directory that holds it.
pub proof fn law_where_a_path_is_looked_at(disk: DiskModel, path: Seq<Seq<char>>)
    ensures
        disk.dirs.contains(path) ==> start_dir(disk, path) == path,
        !disk.dirs.contains(path) && parent(path) is Some ==> start_dir(disk, path)
            == path.drop_last(),
        parent(path) is None ==> start_dir(disk, path) == path,
{
}

/// Workspace folders are roots one for one and in their order; one without a `file://` URI is
/// passed over.
pub proof fn law_folders_one_for_one(
    first: Seq<JsonModel>,
    second: Seq<JsonModel>,
    folder: JsonModel,
    windows: bool,
)
    ensures
        folder_paths(first + second, windows) == folder_paths(first, windows) + folder_paths(
            second,
            windows,
        ),
        folder.get_str("uri"@) is None ==> folder_paths(seq![folder], windows) == Seq::<
            Seq<Seq<char>>,
        >::empty(),
        folder.get_str("uri"@) matches Some(uri) ==> folder_paths(seq![folder], windows) == (
        match path_of_uri(uri, windows) {
            Some(path) => seq![components_on(path, windows)],
            None => seq![],
        }),
    decreases second.len(),
{
    let one = seq![folder];
    assert(one.drop_last() =~= Seq::<JsonModel>::empty());
    assert(folder_paths(one.drop_last(), windows) =~= seq![]);
    assert(folder_paths(one, windows) =~= (match uri_field(folder, "uri"@, windows) {
        Some(path) => seq![path],
        None => seq![],
    }));
    if second.len() == 0 {
        assert(first + second =~= first);
        assert(folder_paths(first, windows) + folder_paths(second, windows) =~= folder_paths(
            first,
            windows,
        ));
    } else {
        assert((first + second).drop_last() =~= first + second.drop_last());
        assert((first + second).last() == second.last());
        law_folders_one_for_one(first, second.drop_last(), folder, windows);
        assert(folder_paths(first + second, windows) =~= folder_paths(first, windows)
            + folder_paths(second, windows));
    }
}

/// The roots are the workspace folders; where those name none, the root is the `rootUri`; and
/// where that names none either, the `rootPath`.
pub proof fn law_roots_in_turn(params: JsonModel, folders: Seq<JsonModel>, windows: bool)
    ensures
        params.get("workspaceFolders"@) == Some(JsonModel::Array(folders)) && folder_paths(
            folders,
            windows,
        ).len() > 0 ==> roots_of(params, windows) == folder_paths(folders, windows),
        !(params.get("workspaceFolders"@) matches Some(JsonModel::Array(list)) && folder_paths(
            list,
            windows,
        ).len() > 0) ==> roots_of(params, windows) == (match params.get_str("rootUri"@) {
            Some(uri) => match path_of_uri(uri, windows) {
                Some(path) => seq![components_on(path, windows)],
                None => root_path(params, windows),
            },
            None => root_path(params, windows),
        }),
{
}

/// The root that `rootPath` names.
pub open spec fn root_path(params: JsonModel, windows: bool) -> Seq<Seq<Seq<char>>> {
    match params.get_str("rootPath"@) {
        Some(path) => seq![components_on(path, windows)],
        None => seq![],
    }
}

/// Two documents of one directory belong to one scope.
pub proof fn law_one_directory_one_scope(
    layer: LayerModel,
    disk: DiskModel,
    roots: Seq<Seq<Seq<char>>>,
    one: Seq<char>,
    two: Seq<char>,
    windows: bool,
)
    requires
        path_of_uri(one, windows) matches Some(a) && path_of_uri(two, windows) matches Some(b)
            && start_dir(disk, components_on(a, windows)) == start_dir(
            disk,
            components_on(b, windows),
        ),
    ensures
        scope_of(layer, disk, roots, one, windows) == scope_of(layer, disk, roots, two, windows),
{
}

/// What is no `file://` URI names no path, and belongs to the default scope.
pub proof fn law_other_uris(
    layer: LayerModel,
    disk: DiskModel,
    roots: Seq<Seq<Seq<char>>>,
    uri: Seq<char>,
    windows: bool,
)
    requires
        uri.len() < 7 || uri.take(7) != "file://"@,
    ensures
        path_of_uri(uri, windows) is None,
        scope_of(layer, disk, roots, uri, windows) is Default,
{
    reveal_strlit("file://");
    if uri.len() >= 7 {
        assert(uri.subrange(0, 7) =~= uri.take(7));
    }
}

/// The host of a `file://` URI does not count for the path that it names.
pub proof fn law_host_does_not_count(host: Seq<char>, path: Seq<char>, windows: bool)
    requires
        !host.contains('/'),
        path.len() > 0,
        path[0] == '/',
    ensures
        path_of_uri("file://"@ + host + path, windows) == path_of_uri("file://"@ + path, windows),
        path_of_uri("file://"@ + path, windows) is Some,
{
    reveal_strlit("file://");
    let one = "file://"@ + host + path;
    let two = "file://"@ + path;
    assert(one.subrange(0, 7) =~= "file://"@);
    assert(two.subrange(0, 7) =~= "file://"@);
    assert(one.skip(7) =~= host + path);
    assert(two.skip(7) =~= path);
    assert forall|i: int| 0 <= i < host.len() implies (host + path)[i] != '/' by {
        assert(host.contains(host[i]));
    }
    lemma_find_char_is(host + path, '/', host.len() as int);
    lemma_find_char_is(path, '/', 0);
    assert((host + path).skip(host.len() as int) =~= path);
    assert(path.skip(0) =~= path);
}

/// In a text of bytes, `%XX` stands for one byte wherever it stands, and what is before it and
/// after it is decoded as if it stood alone; a percent sign without two hexadecimal digits
/// stands for itself.
pub proof fn law_percent_escapes(before: Seq<u8>, high: u8, low: u8, rest: Seq<u8>)
    requires
        !before.contains(0x25),
    ensures
        hex(high) is Some && hex(low) is Some ==> percent_bytes(
            before + seq![0x25, high, low] + rest,
        ) == before + seq![(hex(high)->0 * 16 + hex(low)->0) as u8] + percent_bytes(rest),
        hex(high) is None || hex(low) is None ==> percent_bytes(
            before + seq![0x25, high, low] + rest,
        ) == before + seq![0x25u8] + percent_bytes(seq![high, low] + rest),
        rest.len() < 2 ==> percent_bytes(before + seq![0x25] + rest) == before + seq![0x25u8]
            + percent_bytes(rest),
        percent_bytes(before) == before,
{
    lemma_plain_bytes(before, seq![0x25, high, low] + rest);
    lemma_plain_bytes(before, seq![0x25] + rest);
    lemma_plain_bytes(before, seq![]);
    let escape = seq![0x25, high, low] + rest;
    assert(before + escape =~= before + seq![0x25, high, low] + rest);
    assert(escape.skip(3) =~= rest);
    assert(escape.skip(1) =~= seq![high, low] + rest);
    let byte = (hex(high)->0 * 16 + hex(low)->0) as u8;
    let later = percent_bytes(seq![high, low] + rest);
    assert(before + (seq![byte] + percent_bytes(rest)) =~= before + seq![byte] + percent_bytes(
        rest,
    ));
    assert(before + (seq![0x25u8] + later) =~= before + seq![0x25u8] + later);
    let short = seq![0x25] + rest;
    assert(before + short =~= before + seq![0x25] + rest);
    assert(short.skip(1) =~= rest);
    assert(before + (seq![0x25u8] + percent_bytes(rest)) =~= before + seq![0x25u8]
        + percent_bytes(rest));
    assert(before + Seq::<u8>::empty() =~= before);
    assert(percent_bytes(Seq::<u8>::empty()) =~= seq![]);
}

proof fn lemma_plain_bytes(before: Seq<u8>, rest: Seq<u8>)
    requires
        !before.contains(0x25),
    ensures
        percent_bytes(before + rest) == before + percent_bytes(rest),
    decreases before.len(),
{
    if before.len() == 0 {
        assert(before + rest =~= rest);
        assert(before + percent_bytes(rest) =~= percent_bytes(rest));
    } else {
        let whole = before + rest;
        let tail = before.skip(1);
        assert(before.contains(before[0]));
        assert forall|i: int| 0 <= i < tail.len() implies tail[i] != 0x25 by {
            assert(before.contains(before[i + 1]));
        }
        lemma_plain_bytes(tail, rest);
        assert(whole.skip(1) =~= tail + rest);
        assert(whole[0] == before[0]);
        assert(percent_bytes(whole) == seq![before[0]] + percent_bytes(whole.skip(1)));
        assert(seq![before[0]] + (tail + percent_bytes(rest)) =~= before + percent_bytes(rest));
    }
}

/// The value of a hexadecimal digit, in either case.
pub open spec fn hex(byte: u8) -> Option<u8> {
    if '0' as u8 <= byte <= '9' as u8 {
        Some((byte - '0' as u8) as u8)
    } else if 'a' as u8 <= byte <= 'f' as u8 {
        Some((byte - 'a' as u8 + 10) as u8)
    } else if 'A' as u8 <= byte <= 'F' as u8 {
        Some((byte - 'A' as u8 + 10) as u8)
    } else {
        None
    }
}

/// A path in a URI on Windows is without the slashes at its start, and as it is besides.
pub proof fn law_slashes_at_the_start(slashes: Seq<char>, path: Seq<char>)
    requires
        forall|i: int| 0 <= i < slashes.len() ==> #[trigger] slashes[i] == '/',
        path.len() == 0 || path[0] != '/',
    ensures
        without_slashes(slashes + path) == path,
    decreases slashes.len(),
{
    if slashes.len() == 0 {
        assert(slashes + path =~= path);
    } else {
        assert((slashes + path).drop_first() =~= slashes.drop_first() + path);
        law_slashes_at_the_start(slashes.drop_first(), path);
    }
}

// ---- Whether settings differ ---------------------------------------------------

/// A fraction that is zero, with either sign.
pub open spec fn zero_text(text: Seq<char>) -> bool {
    text == "0.0"@ || text == "-0.0"@
}

/// Settings that are the same say the same at every path of keys; so where two texts, switches,
/// numbers or kinds of value differ at a path, or only one of the settings says anything there, the
/// settings differ.
pub proof fn law_same_settings_say_the_same(a: JsonModel, b: JsonModel, keys: Seq<Seq<char>>)
    requires
        json_same(a, b),
    ensures
        (at_path(a, keys) is Some) == (at_path(b, keys) is Some),
        at_path(a, keys) matches Some(x) ==> (at_path(b, keys) matches Some(y) && json_same(x, y)),
        at_path(a, keys) matches Some(JsonModel::Str(x)) ==> at_path(b, keys) == Some(
            JsonModel::Str(x),
        ),
        at_path(a, keys) matches Some(JsonModel::Bool(x)) ==> at_path(b, keys) == Some(
            JsonModel::Bool(x),
        ),
        at_path(a, keys) matches Some(JsonModel::Null) ==> at_path(b, keys) == Some(
            JsonModel::Null,
        ),
        at_path(a, keys) matches Some(JsonModel::Array(x)) ==> (at_path(b, keys) matches Some(
            JsonModel::Array(y),
        ) && x.len() == y.len() && forall|i: int|
            0 <= i < x.len() ==> json_same(#[trigger] x[i], y[i])),
        at_path(a, keys) matches Some(JsonModel::Number(x)) ==> (at_path(b, keys) matches Some(
            JsonModel::Number(y),
        ) && (x.text == y.text || (zero_text(x.text) && zero_text(y.text)))),
    decreases keys.len(),
{
    if keys.len() > 0 {
        if let JsonModel::Object(x) = a {
            let y = b->Object_0;
            let key = keys[0];
            assert(x.dom() == y.dom());
            if x.dom().contains(key) {
                assert(json_same(x[key], y[key]));
                law_same_settings_say_the_same(x[key], y[key], keys.drop_first());
            }
        }
    }
}

// ---- Which scope a document has ------------------------------------------------

proof fn lemma_nearest(
    disk: DiskModel,
    start: Seq<Seq<char>>,
    base: Seq<Seq<char>>,
    n: int,
    m: int,
)
    requires
        rooted(start),
        0 < base.len() <= n <= m <= start.len(),
        base == start.take(base.len() as int),
        disk.configs.dom().contains(start.take(n)),
        forall|k: int|
            n < k <= start.len() ==> !disk.configs.dom().contains(#[trigger] start.take(k)),
    ensures
        nearest_config(disk, start.take(m), base) == Some(start.take(n)),
    decreases m,
{
    let dir = start.take(m);
    if m > n {
        assert(!disk.configs.dom().contains(dir));
        assert(dir.len() == m && base.len() < m);
        assert(dir.last() == start[m - 1]);
        assert(!is_root(start[m - 1]));
        assert(dir.drop_last() =~= start.take(m - 1));
        lemma_nearest(disk, start, base, n, m - 1);
    }
}

/// A document in a workspace root has a scope by the nearest file around it, within the deepest
/// root around it: its own where the settings there are not those of the first root, and else
/// the default one.
pub proof fn law_nearest_file_is_the_scope(
    layer: LayerModel,
    disk: DiskModel,
    roots: Seq<Seq<Seq<char>>>,
    uri: Seq<char>,
    windows: bool,
    path: Seq<char>,
    base: Seq<Seq<char>>,
    n: int,
)
    requires
        path_of_uri(uri, windows) == Some(path),
        base.len() > 0,
        roots.contains(base),
        ({
            let start = start_dir(disk, components_on(path, windows));
            &&& base.len() <= n <= start.len()
            &&& lies_in(start, base)
            &&& forall|i: int|
                0 <= i < roots.len() && lies_in(start, #[trigger] roots[i]) ==> roots[i].len()
                    <= base.len()
            &&& disk.configs.dom().contains(start.take(n))
            &&& forall|k: int|
                n < k <= start.len() ==> !disk.configs.dom().contains(#[trigger] start.take(k))
        }),
    ensures
        ({
            let dir = start_dir(disk, components_on(path, windows)).take(n);
            let own = settings_for(layer, disk, dir);
            let default = settings_for(layer, disk, roots[0]);
            scope_of(layer, disk, roots, uri, windows) == (if json_same(own, default) {
                ScopeModel::Default
            } else {
                ScopeModel::Dir(dir)
            })
        }),
{
    let whole = components_on(path, windows);
    let start = start_dir(disk, whole);
    law_components_rooted(path, windows);
    assert(rooted(start)) by {
        assert forall|i: int| 0 < i < start.len() implies !is_root(#[trigger] start[i]) by {
            assert(start[i] == whole[i]);
        }
    }
    lemma_deepest_root(roots, start);
    let i = choose|i: int| 0 <= i < roots.len() && roots[i] == base;
    assert(lies_in(start, roots[i]));
    let root = deepest_root(roots, start)->0;
    assert(root.len() == base.len()) by {
        let k = choose|k: int| 0 <= k < roots.len() && roots[k] == root;
        assert(lies_in(start, roots[k]));
    }
    assert(root =~= base);
    assert(start.take(start.len() as int) =~= start);
    lemma_nearest(disk, start, base, n, start.len() as int);
}

} // verus!
