//! Which settings scope a document belongs to.
use vstd::prelude::*;

use crate::config_layer::{
    agrees, asked, law_agreeing_settings, layered, path_of_uri, settings_for, uri_to_path,
    ConfigLayer, Disk, DiskModel, LayerModel,
};
use crate::json::{json_same, law_json_same_reflexive, lemma_array_model, models, Json, JsonModel};
use crate::paths::{
    components_on, law_components_rooted, law_parent_lies_in, lies_in, parent, rooted, FilePath,
};

verus! {

/// Which config scope a backend serves.
pub enum ScopeKey {
    /// The workspace-wide default backend.
    Default,
    /// A subtree rooted at this directory whose settings differ from the default.
    Dir(FilePath),
}

/// What a scope is.
#[verifier::ext_equal]
pub enum ScopeModel {
    Default,
    Dir(Seq<Seq<char>>),
}

impl View for ScopeKey {
    type V = ScopeModel;

    open spec fn view(&self) -> ScopeModel {
        match self {
            ScopeKey::Default => ScopeModel::Default,
            ScopeKey::Dir(dir) => ScopeModel::Dir(dir@),
        }
    }
}

impl ScopeKey {
    /// Whether two scopes are the same.
    pub fn same(&self, other: &ScopeKey) -> (same: bool)
        ensures
            same == (self@ == other@),
    {
        match (self, other) {
            (ScopeKey::Default, ScopeKey::Default) => true,
            (ScopeKey::Dir(a), ScopeKey::Dir(b)) => a.same(b),
            _ => false,
        }
    }
}

// ---- What a message refers to --------------------------------------------------

/// The `textDocument.uri` that a message refers to, if any.
pub open spec fn document_uri(v: JsonModel) -> Option<Seq<char>> {
    match v.get("params"@) {
        Some(params) => match params.get("textDocument"@) {
            Some(document) => document.get_str("uri"@),
            None => None,
        },
        None => None,
    }
}

/// The `textDocument.uri` that a message refers to, if any.
pub fn uri_of(v: &Json) -> (uri: Option<&str>)
    ensures
        document_uri(v@) == (match uri {
            Some(u) => Some(u@),
            None => None,
        }),
{
    match v.get("params") {
        Some(params) => match params.get("textDocument") {
            Some(document) => document.get_str("uri"),
            None => None,
        },
        None => None,
    }
}

/// The path that the field `key` of an object names by a `file://` URI.
pub open spec fn uri_field(v: JsonModel, key: Seq<char>, windows: bool) -> Option<Seq<Seq<char>>> {
    match v.get_str(key) {
        Some(uri) => match path_of_uri(uri, windows) {
            Some(path) => Some(components_on(path, windows)),
            None => None,
        },
        None => None,
    }
}

/// The paths that some workspace folders name.
pub open spec fn folder_paths(folders: Seq<JsonModel>, windows: bool) -> Seq<Seq<Seq<char>>>
    decreases folders.len(),
{
    if folders.len() == 0 {
        seq![]
    } else {
        let before = folder_paths(folders.drop_last(), windows);
        match uri_field(folders.last(), "uri"@, windows) {
            Some(path) => before.push(path),
            None => before,
        }
    }
}

/// The workspace folders of `initialize` params.
pub open spec fn workspace_folders(params: JsonModel, windows: bool) -> Seq<Seq<Seq<char>>> {
    match params.get("workspaceFolders"@) {
        Some(JsonModel::Array(folders)) => folder_paths(folders, windows),
        _ => seq![],
    }
}

/// The workspace roots of `initialize` params: `workspaceFolders`, else `rootUri`, else
/// `rootPath`.
pub open spec fn roots_of(params: JsonModel, windows: bool) -> Seq<Seq<Seq<char>>> {
    if workspace_folders(params, windows).len() > 0 {
        workspace_folders(params, windows)
    } else {
        match uri_field(params, "rootUri"@, windows) {
            Some(path) => seq![path],
            None => match params.get_str("rootPath"@) {
                Some(path) => seq![components_on(path, windows)],
                None => seq![],
            },
        }
    }
}

/// What a list of paths is.
pub open spec fn path_models(paths: Seq<FilePath>) -> Seq<Seq<Seq<char>>> {
    paths.map_values(|p: FilePath| p@)
}

/// The path that the field `key` of an object names by a `file://` URI.
fn path_field(v: &Json, key: &str, windows: bool) -> (path: Option<FilePath>)
    ensures
        uri_field(v@, key@, windows) == (match path {
            Some(p) => Some(p@),
            None => None,
        }),
{
    match v.get_str(key) {
        Some(uri) => match uri_to_path(uri, windows) {
            Some(path) => Some(FilePath::new_on(path.as_str(), windows)),
            None => None,
        },
        None => None,
    }
}

/// The workspace folders of `initialize` params.
fn folders_of(params: &Json, windows: bool) -> (paths: Vec<FilePath>)
    ensures
        path_models(paths@) == workspace_folders(params@, windows),
{
    let mut paths: Vec<FilePath> = Vec::new();
    assert(path_models(paths@) =~= seq![]);
    match params.get("workspaceFolders") {
        Some(Json::Array(folders)) => {
            proof {
                lemma_array_model(*folders);
            }
            let ghost all = models(folders@);
            let mut i: usize = 0;
            assert(folder_paths(all.take(0), windows) =~= seq![]);
            while i < folders.len()
                invariant
                    i <= folders@.len(),
                    all == models(folders@),
                    path_models(paths@) == folder_paths(all.take(i as int), windows),
                decreases folders@.len() - i,
            {
                let ghost before = path_models(paths@);
                assert(all.take(i + 1).drop_last() =~= all.take(i as int));
                assert(all.take(i + 1).last() == folders@[i as int]@);
                match path_field(&folders[i], "uri", windows) {
                    Some(path) => {
                        paths.push(path);
                        assert(path_models(paths@) =~= before.push(path@));
                    },
                    None => {},
                }
                i = i + 1;
            }
            assert(all.take(i as int) =~= all);
        },
        _ => {},
    }
    paths
}

/// Extract workspace root directories from `initialize` params, trying `workspaceFolders`,
/// then `rootUri`, then `rootPath`.
pub fn extract_roots(params: &Json, windows: bool) -> (roots: Vec<FilePath>)
    ensures
        path_models(roots@) == roots_of(params@, windows),
{
    let folders = folders_of(params, windows);
    if folders.len() > 0 {
        return folders;
    }
    let mut roots: Vec<FilePath> = Vec::new();
    match path_field(params, "rootUri", windows) {
        Some(path) => {
            roots.push(path);
        },
        None => match params.get_str("rootPath") {
            Some(path) => {
                roots.push(FilePath::new_on(path, windows));
            },
            None => {},
        },
    }
    assert(path_models(roots@) =~= roots_of(params@, windows));
    roots
}

// ---- Scopes --------------------------------------------------------------------

/// The directory in which a path is looked at: itself where it is a directory, else the one
/// above it.
pub open spec fn start_dir(disk: DiskModel, path: Seq<Seq<char>>) -> Seq<Seq<char>> {
    if disk.dirs.contains(path) {
        path
    } else {
        match parent(path) {
            Some(above) => above,
            None => path,
        }
    }
}

/// The deepest workspace root that contains a directory.
pub open spec fn deepest_root(roots: Seq<Seq<Seq<char>>>, dir: Seq<Seq<char>>) -> Option<
    Seq<Seq<char>>,
>
    decreases roots.len(),
{
    if roots.len() == 0 {
        None
    } else {
        let best = deepest_root(roots.drop_last(), dir);
        if lies_in(dir, roots.last()) && (best matches Some(root) ==> root.len()
            <= roots.last().len()) {
            Some(roots.last())
        } else {
            best
        }
    }
}

/// The nearest directory from `dir` up to `base` that holds a `potemkin.toml`.
pub open spec fn nearest_config(
    disk: DiskModel,
    dir: Seq<Seq<char>>,
    base: Seq<Seq<char>>,
) -> Option<Seq<Seq<char>>>
    decreases dir.len(),
{
    if disk.configs.dom().contains(dir) {
        Some(dir)
    } else if dir == base {
        None
    } else {
        match parent(dir) {
            Some(above) => if above.len() < dir.len() {
                nearest_config(disk, above, base)
            } else {
                None
            },
            None => None,
        }
    }
}

/// The nearest directory around a document, within its workspace root, that holds a
/// `potemkin.toml`.
pub open spec fn scope_site(
    disk: DiskModel,
    roots: Seq<Seq<Seq<char>>>,
    uri: Seq<char>,
    windows: bool,
) -> Option<Seq<Seq<char>>> {
    match path_of_uri(uri, windows) {
        Some(path) => {
            let start = start_dir(disk, components_on(path, windows));
            match deepest_root(roots, start) {
                Some(base) => nearest_config(disk, start, base),
                None => None,
            }
        },
        None => None,
    }
}

/// The scope that owns a document: the nearest directory, within its workspace root, that
/// holds a `potemkin.toml`, if its settings differ from the default backend's, which are the
/// first root's.
pub open spec fn scope_of(
    layer: LayerModel,
    disk: DiskModel,
    roots: Seq<Seq<Seq<char>>>,
    uri: Seq<char>,
    windows: bool,
) -> ScopeModel {
    match scope_site(disk, roots, uri, windows) {
        Some(site) => if json_same(
            settings_for(layer, disk, site),
            settings_for(layer, disk, roots[0]),
        ) {
            ScopeModel::Default
        } else {
            ScopeModel::Dir(site)
        },
        None => ScopeModel::Default,
    }
}

/// The layer after the scope of a document was asked for.
pub open spec fn layer_after_scope(
    layer: LayerModel,
    disk: DiskModel,
    roots: Seq<Seq<Seq<char>>>,
    uri: Seq<char>,
    windows: bool,
) -> LayerModel {
    match scope_site(disk, roots, uri, windows) {
        Some(site) => asked(asked(layer, disk, site), disk, roots[0]),
        None => layer,
    }
}

/// The deepest workspace root that contains a directory.
fn find_root(roots: &Vec<FilePath>, dir: &FilePath) -> (root: Option<FilePath>)
    ensures
        deepest_root(path_models(roots@), dir@) == (match root {
            Some(r) => Some(r@),
            None => None,
        }),
{
    let ghost all = path_models(roots@);
    let mut best: Option<FilePath> = None;
    let mut i: usize = 0;
    assert(deepest_root(all.take(0), dir@) is None);
    while i < roots.len()
        invariant
            i <= roots@.len(),
            all == path_models(roots@),
            deepest_root(all.take(i as int), dir@) == (match best {
                Some(r) => Some(r@),
                None => None,
            }),
        decreases roots@.len() - i,
    {
        assert(all.take(i + 1).drop_last() =~= all.take(i as int));
        assert(all.take(i + 1).last() == roots@[i as int]@);
        let deeper = match &best {
            Some(root) => root.count() <= roots[i].count(),
            None => true,
        };
        if deeper && dir.within(&roots[i]) {
            best = Some(roots[i].dup());
        }
        i = i + 1;
    }
    assert(all.take(i as int) =~= all);
    best
}

/// The nearest directory from `dir` up to `base` that holds a `potemkin.toml`.
fn find_config(disk: &Disk, dir: &FilePath, base: &FilePath) -> (found: Option<FilePath>)
    ensures
        nearest_config(disk@, dir@, base@) == (match found {
            Some(d) => Some(d@),
            None => None,
        }),
    decreases dir@.len(),
{
    if disk.has_config(dir) {
        return Some(dir.dup());
    }
    if dir.same(base) {
        return None;
    }
    match dir.parent() {
        Some(above) => find_config(disk, &above, base),
        None => None,
    }
}

/// The config scope that owns `uri`: the nearest ancestor directory (within a workspace
/// root) that holds a `potemkin.toml`, if its effective settings differ from the default
/// backend's, which has those of the first root. Falls back to [`ScopeKey::Default`].
pub fn resolve_scope(
    roots: &Vec<FilePath>,
    cfg: &mut ConfigLayer,
    disk: &Disk,
    uri: &str,
    windows: bool,
) -> (scope: ScopeKey)
    ensures
        scope@ == scope_of(old(cfg)@, disk@, path_models(roots@), uri@, windows),
        final(cfg)@ == layer_after_scope(old(cfg)@, disk@, path_models(roots@), uri@, windows),
{
    let path = match uri_to_path(uri, windows) {
        Some(path) => FilePath::new_on(path.as_str(), windows),
        None => {
            return ScopeKey::Default;
        },
    };
    let start = if disk.is_dir(&path) {
        path
    } else {
        match path.parent() {
            Some(above) => above,
            None => path,
        }
    };
    let base = match find_root(roots, &start) {
        Some(base) => base,
        None => {
            return ScopeKey::Default;
        },
    };
    proof {
        lemma_deepest_root(path_models(roots@), start@);
    }
    let site = match find_config(disk, &start, &base) {
        Some(dir) => dir,
        None => {
            return ScopeKey::Default;
        },
    };
    let own = cfg.for_dir(&site, disk);
    assert(path_models(roots@)[0] == roots@[0]@);
    let default = cfg.for_dir(&roots[0], disk);
    if own.same(&default) {
        ScopeKey::Default
    } else {
        ScopeKey::Dir(site)
    }
}

/// A root that contains a directory is one of the roots, and does contain it.
pub(crate) proof fn lemma_deepest_root(roots: Seq<Seq<Seq<char>>>, dir: Seq<Seq<char>>)
    ensures
        deepest_root(roots, dir) matches Some(root) ==> lies_in(dir, root) && roots.contains(root),
        deepest_root(roots, dir) is None ==> forall|i: int|
            0 <= i < roots.len() ==> !lies_in(dir, #[trigger] roots[i]),
        deepest_root(roots, dir) matches Some(root) ==> forall|i: int|
            0 <= i < roots.len() && lies_in(dir, #[trigger] roots[i]) ==> roots[i].len()
                <= root.len(),
    decreases roots.len(),
{
    if roots.len() > 0 {
        let front = roots.drop_last();
        lemma_deepest_root(front, dir);
        assert(forall|i: int| 0 <= i < front.len() ==> front[i] == roots[i]);
        assert(roots.last() == roots[roots.len() - 1]);
        if let Some(root) = deepest_root(front, dir) {
            let i = choose|i: int| 0 <= i < front.len() && front[i] == root;
            assert(roots[i] == root);
        }
        assert forall|i: int| 0 <= i < roots.len() && lies_in(
            dir,
            #[trigger] roots[i],
        ) implies deepest_root(roots, dir) is Some && roots[i].len() <= deepest_root(
            roots,
            dir,
        )->0.len() by {
            if i < front.len() {
                assert(front[i] == roots[i]);
            }
        }
    }
}

/// The way up from a directory leads to every directory that it lies in.
proof fn lemma_up_within(dir: Seq<Seq<char>>, base: Seq<Seq<char>>)
    requires
        lies_in(dir, base),
        dir != base,
        parent(dir) is Some,
    ensures
        lies_in(parent(dir)->0, base),
{
    if base.len() == dir.len() {
        assert(dir.take(base.len() as int) =~= dir);
    }
    assert(dir.drop_last().take(base.len() as int) =~= dir.take(base.len() as int));
}

proof fn lemma_nearest_config(disk: DiskModel, dir: Seq<Seq<char>>, base: Seq<Seq<char>>)
    requires
        lies_in(dir, base),
    ensures
        nearest_config(disk, dir, base) matches Some(found) ==> disk.configs.dom().contains(found)
            && lies_in(dir, found) && lies_in(found, base),
    decreases dir.len(),
{
    law_parent_lies_in(dir, base);
    if !disk.configs.dom().contains(dir) && dir != base {
        if let Some(above) = parent(dir) {
            lemma_up_within(dir, base);
            lemma_nearest_config(disk, above, base);
            if let Some(found) = nearest_config(disk, above, base) {
                assert(dir.take(found.len() as int) =~= above.take(found.len() as int));
            }
        }
    }
}

/// No file stands between a directory and the nearest one that holds a file, nor, where there
/// is none, between the directory and its root.
proof fn lemma_nearest_settles(
    disk: DiskModel,
    dir: Seq<Seq<char>>,
    base: Seq<Seq<char>>,
    server_id: Seq<char>,
)
    requires
        lies_in(dir, base),
        rooted(dir),
    ensures
        nearest_config(disk, dir, base) matches Some(found) ==> layered(disk, dir, server_id)
            == layered(disk, found, server_id),
        nearest_config(disk, dir, base) is None && base.len() > 0 ==> layered(disk, dir, server_id)
            == layered(disk, base, server_id),
    decreases dir.len(),
{
    if !disk.configs.dom().contains(dir) && dir != base {
        if base.len() == dir.len() {
            assert(dir.take(base.len() as int) =~= dir);
        }
        if let Some(above) = parent(dir) {
            lemma_up_within(dir, base);
            lemma_nearest_settles(disk, above, base, server_id);
        } else {
            assert(dir.last() == dir[dir.len() - 1]);
        }
    }
}

/// The scope of a document in `start` can have the settings of that directory: a
/// `potemkin.toml` stands around it within its workspace root, or the root has the same
/// settings as the first root.
pub open spec fn can_follow(
    layer: LayerModel,
    disk: DiskModel,
    roots: Seq<Seq<Seq<char>>>,
    start: Seq<Seq<char>>,
) -> bool {
    match deepest_root(roots, start) {
        Some(base) => nearest_config(disk, start, base) is Some || (base.len() > 0 && json_same(
            settings_for(layer, disk, base),
            settings_for(layer, disk, roots[0]),
        )),
        None => false,
    }
}

/// Where there is one workspace root, the scope of every document in it can have the settings
/// of the document's directory.
pub proof fn law_single_root_is_followed(
    layer: LayerModel,
    disk: DiskModel,
    root: Seq<Seq<char>>,
    start: Seq<Seq<char>>,
)
    requires
        root.len() > 0,
        lies_in(start, root),
    ensures
        can_follow(layer, disk, seq![root], start),
{
    let roots = seq![root];
    assert(roots.last() == root && roots.drop_last().len() == 0);
    assert(deepest_root(roots.drop_last(), start) is None);
    law_json_same_reflexive(settings_for(layer, disk, root));
}

/// A document in a workspace root belongs to a scope with exactly the settings of its
/// directory: the default one just where those equal the default backend's, and otherwise the
/// one of the nearest directory that holds a `potemkin.toml`.
///
/// This is as long as what was found before is what the files say, and not of a document in
/// another root than the first without a `potemkin.toml` in it, which belongs to the default
/// scope whatever the settings of its root are.
pub proof fn law_scope_has_the_settings(
    layer: LayerModel,
    disk: DiskModel,
    roots: Seq<Seq<Seq<char>>>,
    uri: Seq<char>,
    windows: bool,
    path: Seq<char>,
)
    requires
        agrees(layer, disk),
        path_of_uri(uri, windows) == Some(path),
        can_follow(layer, disk, roots, start_dir(disk, components_on(path, windows))),
    ensures
        ({
            let own = settings_for(layer, disk, start_dir(disk, components_on(path, windows)));
            let default = settings_for(layer, disk, roots[0]);
            match scope_of(layer, disk, roots, uri, windows) {
                ScopeModel::Default => json_same(own, default),
                ScopeModel::Dir(dir) => !json_same(own, default) && settings_for(layer, disk, dir)
                    == own,
            }
        }),
{
    let start = start_dir(disk, components_on(path, windows));
    let base = deepest_root(roots, start)->0;
    lemma_deepest_root(roots, start);
    law_components_rooted(path, windows);
    let site = match nearest_config(disk, start, base) {
        Some(dir) => dir,
        None => base,
    };
    law_agreeing_settings(layer, disk, start);
    law_agreeing_settings(layer, disk, site);
    if let Some(id) = layer.server_id {
        lemma_nearest_settles(disk, start, base, id);
    }
}

/// A document in whose workspace root no `potemkin.toml` stands around it belongs to the
/// default scope, and nothing is looked up for it.
pub proof fn law_no_file_is_default(
    layer: LayerModel,
    disk: DiskModel,
    roots: Seq<Seq<Seq<char>>>,
    uri: Seq<char>,
    windows: bool,
    path: Seq<char>,
    base: Seq<Seq<char>>,
)
    requires
        path_of_uri(uri, windows) == Some(path),
        deepest_root(roots, start_dir(disk, components_on(path, windows))) == Some(base),
        nearest_config(disk, start_dir(disk, components_on(path, windows)), base) is None,
    ensures
        scope_of(layer, disk, roots, uri, windows) is Default,
        layer_after_scope(layer, disk, roots, uri, windows) == layer,
{
}

/// A document has a scope of its own only below a directory, within the deepest workspace
/// root around the document, that holds a `potemkin.toml` and whose settings are not the
/// default backend's.
pub proof fn law_scope_splits_on_difference(
    layer: LayerModel,
    disk: DiskModel,
    roots: Seq<Seq<Seq<char>>>,
    uri: Seq<char>,
    windows: bool,
    dir: Seq<Seq<char>>,
)
    requires
        scope_of(layer, disk, roots, uri, windows) == ScopeModel::Dir(dir),
    ensures
        path_of_uri(uri, windows) is Some,
        disk.configs.dom().contains(dir),
        lies_in(start_dir(disk, components_on(path_of_uri(uri, windows)->0, windows)), dir),
        exists|base: Seq<Seq<char>>| roots.contains(base) && #[trigger] lies_in(dir, base),
        !json_same(settings_for(layer, disk, dir), settings_for(layer, disk, roots[0])),
        dir != roots[0],
{
    let start = start_dir(disk, components_on(path_of_uri(uri, windows)->0, windows));
    let base = deepest_root(roots, start)->0;
    lemma_deepest_root(roots, start);
    lemma_nearest_config(disk, start, base);
    if dir == roots[0] {
        law_json_same_reflexive(settings_for(layer, disk, dir));
    }
    assert(roots.contains(base) && lies_in(dir, base));
}

/// A document outside every workspace root belongs to the default scope.
pub proof fn law_outside_roots_is_default(
    layer: LayerModel,
    disk: DiskModel,
    roots: Seq<Seq<Seq<char>>>,
    uri: Seq<char>,
    windows: bool,
    path: Seq<char>,
)
    requires
        path_of_uri(uri, windows) == Some(path),
        forall|i: int|
            0 <= i < roots.len() ==> !lies_in(
                start_dir(disk, components_on(path, windows)),
                #[trigger] roots[i],
            ),
    ensures
        scope_of(layer, disk, roots, uri, windows) is Default,
        layer_after_scope(layer, disk, roots, uri, windows) == layer,
{
    let start = start_dir(disk, components_on(path, windows));
    lemma_deepest_root(roots, start);
    if let Some(root) = deepest_root(roots, start) {
        let i = choose|i: int| 0 <= i < roots.len() && roots[i] == root;
        assert(!lies_in(start, roots[i]));
    }
}

} // verus!
