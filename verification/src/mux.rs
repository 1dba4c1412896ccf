//! LSP multiplexer: fan a single editor session out to multiple backend language-server
//! processes, one per per-directory config *scope*.
//!
//! A **default backend** serves the workspace, with the settings of its first root, and an
//! **extra backend** serves any subtree whose `potemkin.toml` makes its settings actually
//! differ from those. Every backend is the same
//! server binary; they differ only in the `initializationOptions` that each is handed at
//! startup.
//!
//! - **Routing**: requests and notifications carrying a `textDocument.uri` go to the owning
//!   backend; document-less requests go to the default backend; document-less notifications
//!   go to all backends.
//! - **Id remapping**: every editor request is re-issued under an id of the multiplexer's
//!   own, so ids of different backends never collide; responses are mapped back. Requests of
//!   a backend are likewise re-issued toward the editor and mapped back on reply.
//! - **Handshake**: `initialize` is captured and replayed to each backend as it comes up,
//!   with that scope's settings; the *primary* backend's result is the one returned to the
//!   editor. `initialized` is driven to each backend here, and traffic is queued until a
//!   backend is ready.
//!
//! [`Mux`] holds the state and says what is to be done; processes, pipes and plugins are its
//! owner's.
use std::collections::{HashMap, HashSet};
use vstd::prelude::*;

use crate::config_layer::{deep_merge, uri_to_path, ConfigLayer, Disk, LayerModel};
use crate::json::{parse_json, reads_back, write_json, Json, JsonModel, MAX_DEPTH};
use crate::lsp::{frame, law_payload_of_frame, payload};
use crate::mux_model::{
    backend_for, broadcasted, delivered, document_path, empty_reply, ensured, ensured_id, flushed,
    framed_value, index_of, initialize_request, interest, message_scope, new_roots,
    next_backend, next_id, on_answer, on_backend, on_editor, on_editor_notification,
    on_editor_request, on_editor_response, on_handshake, on_initialize, on_request, on_response,
    on_server_request, on_shutdown, on_start_failed, queued, scope_asked, scope_settings,
    scoped_params, sent, sent_to_all, shutdown_one, shutdown_request, shutdown_some, spawned,
    ActionModel, BackendModel, MuxModel, ServerReqModel, StepModel,
};
use crate::pipeline::{claim_incoming, message_value, note_outgoing};
use crate::plugin::{non_blank, opt_text};
use crate::scope::{extract_roots, path_models, resolve_scope, uri_of, ScopeKey};
use crate::paths::FilePath;
use crate::text::{same_text, texts};
use crate::tracking::Pending;

verus! {

broadcast use vstd::std_specs::hash::group_hash_axioms;

/// Whether a backend takes messages yet.
pub enum Status {
    /// Handshake in flight; messages destined for the backend are queued here.
    Initializing(Vec<String>),
    Ready,
}

/// A backend language server.
pub struct Backend {
    pub id: usize,
    pub scope: ScopeKey,
    pub status: Status,
    pub is_primary: bool,
    /// The id of this backend's `initialize` request.
    pub init_id: i64,
    /// The params of that request.
    pub params: Ghost<JsonModel>,
}

impl View for Backend {
    type V = BackendModel;

    open spec fn view(&self) -> BackendModel {
        BackendModel {
            id: self.id,
            scope: self.scope@,
            queue: match self.status {
                Status::Initializing(queue) => Some(texts(queue@)),
                Status::Ready => None,
            },
            is_primary: self.is_primary,
            init_id: self.init_id,
            params: self.params@,
        }
    }
}

/// A request of a backend that awaits the editor's reply.
pub struct ServerReq {
    pub backend: usize,
    /// The id under which the backend asked.
    pub orig_id: Json,
}

impl View for ServerReq {
    type V = ServerReqModel;

    open spec fn view(&self) -> ServerReqModel {
        ServerReqModel { backend: self.backend, id: self.orig_id@ }
    }
}

/// Something to be done after a message.
pub enum Action {
    /// Send this to the editor.
    ToEditor(String),
    /// Run this response through the plugins, and send the outcome to the editor.
    Rewrite(String),
    /// Start a process for this backend and send it this first. If no process can be
    /// started, report it with [`Mux::on_start_failed`].
    Start { backend: usize, message: String },
    /// Send this to the backend.
    ToBackend { backend: usize, message: String },
}

impl View for Action {
    type V = ActionModel;

    open spec fn view(&self) -> ActionModel {
        match self {
            Action::ToEditor(message) => ActionModel::ToEditor(message@),
            Action::Rewrite(message) => ActionModel::Rewrite(message@),
            Action::Start { backend, message } => ActionModel::Start {
                backend: *backend,
                message: message@,
            },
            Action::ToBackend { backend, message } => ActionModel::ToBackend {
                backend: *backend,
                message: message@,
            },
        }
    }
}

/// What a list of actions is.
pub open spec fn action_models(actions: Seq<Action>) -> Seq<ActionModel> {
    actions.map_values(|a: Action| a@)
}

/// What a list of backends is.
pub open spec fn backend_models(backends: Seq<Backend>) -> Seq<BackendModel> {
    backends.map_values(|b: Backend| b@)
}

/// Serialize a JSON value and wrap it in LSP `Content-Length` framing. Whoever unwraps and
/// reads the message finds the value.
pub fn frame_value(v: &Json) -> (message: String)
    ensures
        message@ == framed_value(v@),
        reads_back(v@, MAX_DEPTH as nat) ==> message_value(message@) == Some(v@),
{
    let text = write_json(v);
    proof {
        law_payload_of_frame(text@);
    }
    frame(text.as_str())
}

/// The multiplexer.
pub struct Mux {
    server_path: String,
    args: Vec<String>,
    /// Whether paths are Windows paths.
    windows: bool,
    config_layer: ConfigLayer,
    pending: Pending,
    backends: Vec<Backend>,
    /// The editor's id for each request that awaits a backend's response.
    editor_reqs: HashMap<i64, Json>,
    server_reqs: HashMap<i64, ServerReq>,
    /// Responses to drop (e.g. non-primary `shutdown`).
    swallow: HashSet<i64>,
    editor_initialize_id: Option<Json>,
    primary: Option<usize>,
    next_backend: usize,
    next_id: i64,
    /// Workspace roots captured from `initialize`.
    roots: Vec<FilePath>,
    /// The `initialize` params captured from the editor, replayed to each backend.
    init_params: Option<Json>,
}

impl View for Mux {
    type V = MuxModel;

    closed spec fn view(&self) -> MuxModel {
        MuxModel {
            server_path: self.server_path@,
            args: texts(self.args@),
            windows: self.windows,
            layer: self.config_layer@,
            pending: self.pending@,
            backends: backend_models(self.backends@),
            editor_reqs: self.editor_reqs@.map_values(|id: Json| id@),
            server_reqs: self.server_reqs@.map_values(|req: ServerReq| req@),
            swallow: self.swallow@,
            editor_initialize_id: crate::json::opt(self.editor_initialize_id),
            primary: self.primary,
            next_backend: self.next_backend,
            next_id: self.next_id,
            roots: path_models(self.roots@),
            init_params: crate::json::opt(self.init_params),
        }
    }
}

/// The state before the first message.
pub open spec fn fresh_mux(
    server_path: Seq<char>,
    args: Seq<Seq<char>>,
    server_id: Option<Seq<char>>,
    windows: bool,
) -> MuxModel {
    MuxModel {
        server_path,
        args,
        windows,
        layer: LayerModel { server_id: non_blank(server_id), cache: Map::empty() },
        pending: Set::empty(),
        backends: seq![],
        editor_reqs: Map::empty(),
        server_reqs: Map::empty(),
        swallow: Set::empty(),
        editor_initialize_id: None,
        primary: None,
        next_backend: 0,
        next_id: 1,
        roots: seq![],
        init_params: None,
    }
}

/// One list of actions after another.
fn chained(first: Vec<Action>, second: Vec<Action>) -> (both: Vec<Action>)
    ensures
        action_models(both@) == action_models(first@) + action_models(second@),
{
    let mut both = first;
    let mut rest = second;
    both.append(&mut rest);
    assert(action_models(both@) =~= action_models(first@) + action_models(second@));
    both
}

/// A list of one action.
fn one(action: Action) -> (actions: Vec<Action>)
    ensures
        action_models(actions@) == seq![action@],
{
    let mut actions: Vec<Action> = Vec::new();
    actions.push(action);
    assert(action_models(actions@) =~= seq![action@]);
    actions
}

/// A list without actions.
fn nothing() -> (actions: Vec<Action>)
    ensures
        action_models(actions@) == Seq::<ActionModel>::empty(),
{
    let actions: Vec<Action> = Vec::new();
    assert(action_models(actions@) =~= seq![]);
    actions
}

/// Give one backend a message: it goes out at once, or it is queued while the backend is
/// still handshaking.
fn give(backend: &mut Backend, message: String) -> (actions: Vec<Action>)
    ensures
        final(backend)@ == queued(old(backend)@, message@),
        action_models(actions@) == sent(old(backend)@, message@),
{
    let id = backend.id;
    match &mut backend.status {
        Status::Ready => one(Action::ToBackend { backend: id, message }),
        Status::Initializing(queue) => {
            queue.push(message);
            nothing()
        },
    }
}

impl Mux {
    /// Build a multiplexer for `server_path` (to be started with `args`), tagging its config
    /// scopes for `server_id`; `windows` tells whether paths are Windows paths.
    pub fn new(
        server_path: String,
        args: Vec<String>,
        server_id: Option<String>,
        windows: bool,
    ) -> (mux: Self)
        ensures
            mux@ == fresh_mux(server_path@, texts(args@), opt_text(server_id), windows),
    {
        let mux = Mux {
            server_path,
            args,
            windows,
            config_layer: ConfigLayer::new(server_id),
            pending: Pending::new(),
            backends: Vec::new(),
            editor_reqs: HashMap::new(),
            server_reqs: HashMap::new(),
            swallow: HashSet::new(),
            editor_initialize_id: None,
            primary: None,
            next_backend: 0,
            next_id: 1,
            roots: Vec::new(),
            init_params: None,
        };
        assert(mux@ =~= fresh_mux(server_path@, texts(args@), opt_text(server_id), windows));
        mux
    }

    /// The command that starts a backend.
    pub fn server_path(&self) -> (path: &str)
        ensures
            path@ == self@.server_path,
    {
        self.server_path.as_str()
    }

    /// The arguments of the command that starts a backend.
    pub fn args(&self) -> (args: &Vec<String>)
        ensures
            texts(args@) == self@.args,
    {
        &self.args
    }

    /// An id of the multiplexer's own.
    fn next_id(&mut self) -> (id: i64)
        ensures
            id == old(self)@.next_id,
            final(self)@ == (MuxModel { next_id: next_id(old(self)@.next_id), ..old(self)@ }),
    {
        let id = self.next_id;
        self.next_id = if id == i64::MAX {
            i64::MIN
        } else {
            id + 1
        };
        id
    }

    /// Where the backend with the given id stands.
    fn seek(&self, id: usize) -> (at: Option<usize>)
        ensures
            index_of(self@.backends, id) == (match at {
                Some(i) => Some(i as int),
                None => None,
            }),
            at matches Some(i) ==> i < self.backends@.len(),
    {
        let ghost all = self@.backends;
        let mut i: usize = self.backends.len();
        assert(all.take(i as int) =~= all);
        while i > 0
            invariant
                i <= self.backends@.len(),
                all == backend_models(self.backends@),
                index_of(all, id) == index_of(all.take(i as int), id),
            decreases i,
        {
            assert(all.take(i as int).drop_last() =~= all.take(i - 1));
            assert(all.take(i as int).last() == self.backends@[i - 1]@);
            i = i - 1;
            if self.backends[i].id == id {
                return Some(i);
            }
        }
        None
    }

    /// The backend that serves a scope.
    fn seek_scope(&self, scope: &ScopeKey) -> (id: Option<usize>)
        ensures
            id == backend_for(self@.backends, scope@),
    {
        let ghost all = self@.backends;
        let mut i: usize = self.backends.len();
        assert(all.take(i as int) =~= all);
        while i > 0
            invariant
                i <= self.backends@.len(),
                all == backend_models(self.backends@),
                backend_for(all, scope@) == backend_for(all.take(i as int), scope@),
            decreases i,
        {
            assert(all.take(i as int).drop_last() =~= all.take(i - 1));
            assert(all.take(i as int).last() == self.backends@[i - 1]@);
            i = i - 1;
            if self.backends[i].scope.same(scope) {
                return Some(self.backends[i].id);
            }
        }
        None
    }

    /// Send to a backend, queueing if it is still handshaking.
    fn send_to_backend(&mut self, id: usize, message: String) -> (actions: Vec<Action>)
        ensures
            (StepModel { mux: final(self)@, actions: action_models(actions@) }) == delivered(
                old(self)@,
                id,
                message@,
            ),
    {
        match self.seek(id) {
            Some(i) => {
                let ghost before = self@;
                let actions = give(&mut self.backends[i], message);
                assert(self@.backends =~= before.backends.update(
                    i as int,
                    queued(before.backends[i as int], message@),
                ));
                actions
            },
            None => nothing(),
        }
    }

    /// Send to every backend, queueing for those that are still handshaking.
    fn broadcast(&mut self, message: &str) -> (actions: Vec<Action>)
        ensures
            (StepModel { mux: final(self)@, actions: action_models(actions@) }) == broadcasted(
                old(self)@,
                message@,
            ),
    {
        let ghost before = self@;
        let mut actions = nothing();
        let mut i: usize = 0;
        assert(sent_to_all(before.backends.take(0), message@) =~= seq![]);
        while i < self.backends.len()
            invariant
                i <= self.backends@.len(),
                before == old(self)@,
                self@.backends.len() == before.backends.len(),
                self@ == (MuxModel { backends: self@.backends, ..before }),
                forall|j: int|
                    0 <= j < i ==> (#[trigger] self@.backends[j]) == queued(
                        before.backends[j],
                        message@,
                    ),
                forall|j: int|
                    i <= j < self@.backends.len() ==> (#[trigger] self@.backends[j])
                        == before.backends[j],
                action_models(actions@) == sent_to_all(before.backends.take(i as int), message@),
            decreases self.backends@.len() - i,
        {
            let ghost now = self@;
            let more = give(&mut self.backends[i], message.to_owned());
            actions = chained(actions, more);
            proof {
                assert(before.backends.take(i + 1).drop_last() =~= before.backends.take(i as int));
                assert(before.backends.take(i + 1).last() == before.backends[i as int]);
                assert(self@.backends =~= now.backends.update(
                    i as int,
                    queued(now.backends[i as int], message@),
                ));
            }
            i = i + 1;
        }
        assert(before.backends.take(i as int) =~= before.backends);
        assert(self@.backends =~= broadcasted(before, message@).mux.backends);
        actions
    }

    // ---- Bringing backends up -----------------------------------------------------

    /// The settings of a scope.
    fn settings(&mut self, disk: &Disk, scope: &ScopeKey) -> (settings: Json)
        ensures
            settings@ == scope_settings(old(self)@, disk@, scope@),
            final(self)@ == (MuxModel {
                layer: spawned(old(self)@, disk@, scope@).mux.layer,
                ..old(self)@
            }),
    {
        let dir = match scope {
            ScopeKey::Dir(dir) => Some(dir.dup()),
            ScopeKey::Default => if self.roots.len() > 0 {
                assert(self@.roots[0] == self.roots@[0]@);
                Some(self.roots[0].dup())
            } else {
                None
            },
        };
        match dir {
            Some(dir) => self.config_layer.for_dir(&dir, disk),
            None => Json::Null,
        }
    }

    /// The `initialize` params for a backend with these settings.
    fn params_with(&self, settings: Json) -> (params: Json)
        ensures
            params@ == scoped_params(self@.init_params, settings@),
    {
        let params = match &self.init_params {
            Some(params) => params.dup(),
            None => Json::object(),
        };
        match settings {
            Json::Null => params,
            _ => {
                assert(!(settings@ is Null));
                let mut options = match params.get("initializationOptions") {
                    Some(options) => options.dup(),
                    None => Json::Null,
                };
                deep_merge(&mut options, settings);
                params.with("initializationOptions", options)
            },
        }
    }

    /// Bring up a backend for a scope and start its handshake.
    fn spawn_backend(&mut self, disk: &Disk, scope: ScopeKey) -> (actions: Vec<Action>)
        ensures
            (StepModel { mux: final(self)@, actions: action_models(actions@) }) == spawned(
                old(self)@,
                disk@,
                scope@,
            ),
    {
        let ghost before = self@;
        let id = self.next_backend;
        self.next_backend = if id == usize::MAX {
            0
        } else {
            id + 1
        };
        let is_default = match &scope {
            ScopeKey::Default => true,
            ScopeKey::Dir(_) => false,
        };
        let is_primary = is_default && self.primary.is_none();
        let settings = self.settings(disk, &scope);
        let params = self.params_with(settings);
        let init_id = self.next_id();
        let message = Json::object().with("jsonrpc", Json::text("2.0")).with(
            "id",
            Json::integer(init_id),
        ).with("method", Json::text("initialize")).with("params", params);
        assert(message@ == initialize_request(init_id, params@));
        let ghost asked_with = params@;
        let queue: Vec<String> = Vec::new();
        assert(texts(queue@) =~= seq![]);
        let backend = Backend {
            id,
            scope,
            status: Status::Initializing(queue),
            is_primary,
            init_id,
            params: Ghost(asked_with),
        };
        let ghost listed = self@.backends;
        self.backends.push(backend);
        assert(self@.backends =~= listed.push(backend@));
        if is_primary {
            self.primary = Some(id);
        }
        let actions = one(Action::Start { backend: id, message: frame_value(&message) });
        assert(self@ =~= spawned(before, disk@, scope@).mux);
        actions
    }

    /// The backend serving `scope`; it is brought up (and its handshake started) if
    /// necessary.
    fn ensure_backend(&mut self, disk: &Disk, scope: ScopeKey) -> (up: (usize, Vec<Action>))
        ensures
            up.0 == ensured_id(old(self)@, scope@),
            (StepModel { mux: final(self)@, actions: action_models(up.1@) }) == ensured(
                old(self)@,
                disk@,
                scope@,
            ),
    {
        match self.seek_scope(&scope) {
            Some(id) => (id, nothing()),
            None => {
                let id = self.next_backend;
                let actions = self.spawn_backend(disk, scope);
                (id, actions)
            },
        }
    }

    /// No process could be started for a backend: it is as if it had never been there. What
    /// was queued for it is dropped.
    pub fn on_start_failed(&mut self, backend: usize)
        ensures
            final(self)@ == on_start_failed(old(self)@, backend),
    {
        match self.seek(backend) {
            Some(i) => {
                let ghost before = self@;
                self.backends.remove(i);
                assert(self@.backends =~= before.backends.remove(i as int));
                match self.primary {
                    Some(id) => if id == backend {
                        self.primary = None;
                    },
                    None => {},
                }
            },
            None => {},
        }
    }

    // ---- From the editor ----------------------------------------------------------

    /// The scope of a message: that of its document, else the default.
    fn scope_for(&mut self, disk: &Disk, v: &Json) -> (scope: ScopeKey)
        ensures
            scope@ == message_scope(old(self)@, disk@, v@),
            final(self)@ == scope_asked(old(self)@, disk@, v@),
    {
        match uri_of(v) {
            Some(uri) => resolve_scope(
                &self.roots,
                &mut self.config_layer,
                disk,
                uri,
                self.windows,
            ),
            None => ScopeKey::Default,
        }
    }

    /// The editor's `initialize`.
    fn initialize(&mut self, disk: &Disk, v: &Json, id: &Json) -> (actions: Vec<Action>)
        ensures
            (StepModel { mux: final(self)@, actions: action_models(actions@) }) == on_initialize(
                old(self)@,
                disk@,
                v@,
                id@,
            ),
    {
        match v.get("params") {
            Some(params) => {
                self.init_params = Some(params.dup());
                self.roots = extract_roots(params, self.windows);
            },
            None => {
                self.init_params = None;
                self.roots = Vec::new();
                assert(self@.roots =~= seq![]);
            },
        }
        self.editor_initialize_id = Some(id.dup());
        let up = self.ensure_backend(disk, ScopeKey::Default);
        up.1
    }

    /// Note that the response under the id `our` goes to the editor under its own id.
    fn expect_answer(&mut self, our: i64, editor_id: Json)
        ensures
            final(self)@ == (MuxModel {
                editor_reqs: old(self)@.editor_reqs.insert(our, editor_id@),
                ..old(self)@
            }),
    {
        self.editor_reqs.insert(our, editor_id);
        assert(self@.editor_reqs =~= old(self)@.editor_reqs.insert(our, editor_id@));
    }

    /// Fan `shutdown` out to every backend, relaying the primary's reply to the editor and
    /// swallowing the rest.
    fn broadcast_shutdown(&mut self, editor_id: &Json) -> (actions: Vec<Action>)
        ensures
            (StepModel { mux: final(self)@, actions: action_models(actions@) }) == on_shutdown(
                old(self)@,
                editor_id@,
            ),
    {
        if self.backends.len() == 0 {
            let reply = Json::object().with("jsonrpc", Json::text("2.0")).with(
                "id",
                editor_id.dup(),
            ).with("result", Json::Null);
            assert(reply@ == empty_reply(editor_id@));
            return one(Action::ToEditor(frame_value(&reply)));
        }
        let ghost before = self@;
        let mut listed: Vec<(usize, bool)> = Vec::new();
        let mut i: usize = 0;
        while i < self.backends.len()
            invariant
                i <= self.backends@.len(),
                self@ == before,
                listed@.len() == i,
                before.backends == backend_models(self.backends@),
                forall|j: int|
                    0 <= j < i ==> (#[trigger] listed@[j]).0 == before.backends[j].id
                        && listed@[j].1 == before.backends[j].is_primary,
            decreases self.backends@.len() - i,
        {
            assert(before.backends[i as int] == self.backends@[i as int]@);
            listed.push((self.backends[i].id, self.backends[i].is_primary));
            i = i + 1;
        }
        let mut actions = nothing();
        let mut i: usize = 0;
        assert(before.backends.take(0) =~= seq![]);
        while i < listed.len()
            invariant
                i <= listed@.len(),
                listed@.len() == before.backends.len(),
                forall|j: int|
                    0 <= j < listed@.len() ==> (#[trigger] listed@[j]).0 == before.backends[j].id
                        && listed@[j].1 == before.backends[j].is_primary,
                (StepModel { mux: self@, actions: action_models(actions@) }) == shutdown_some(
                    before,
                    before.backends.take(i as int),
                    editor_id@,
                ),
            decreases listed@.len() - i,
        {
            let ghost now = self@;
            let ghost backend = before.backends[i as int];
            let our = self.next_id();
            if listed[i].1 {
                self.expect_answer(our, editor_id.dup());
            } else {
                self.swallow.insert(our);
                assert(self@.swallow =~= now.swallow.insert(our));
            }
            let message = Json::object().with("jsonrpc", Json::text("2.0")).with(
                "id",
                Json::integer(our),
            ).with("method", Json::text("shutdown"));
            assert(message@ == shutdown_request(our));
            let more = self.send_to_backend(listed[i].0, frame_value(&message));
            assert((StepModel { mux: self@, actions: action_models(more@) }) == shutdown_one(
                now,
                backend,
                editor_id@,
            ));
            actions = chained(actions, more);
            assert(before.backends.take(i + 1).drop_last() =~= before.backends.take(i as int));
            i = i + 1;
        }
        assert(before.backends.take(i as int) =~= before.backends);
        actions
    }

    /// Any other request of the editor.
    fn forward_request(&mut self, disk: &Disk, v: &Json, id: &Json) -> (actions: Vec<Action>)
        ensures
            (StepModel { mux: final(self)@, actions: action_models(actions@) }) == on_request(
                old(self)@,
                disk@,
                v@,
                id@,
            ),
    {
        let scope = self.scope_for(disk, v);
        let (backend, up) = self.ensure_backend(disk, scope);
        let our = self.next_id();
        self.expect_answer(our, id.dup());
        let message = frame_value(&v.dup().with("id", Json::integer(our)));
        let last = self.send_to_backend(backend, message);
        chained(up, last)
    }

    /// A request of the editor.
    fn editor_request(
        &mut self,
        disk: &Disk,
        method: &str,
        v: &Json,
        id: &Json,
    ) -> (actions: Vec<Action>)
        ensures
            (StepModel { mux: final(self)@, actions: action_models(actions@) })
                == on_editor_request(old(self)@, disk@, method@, v@, id@),
    {
        if same_text(method, "initialize") {
            self.initialize(disk, v, id)
        } else if same_text(method, "shutdown") {
            self.broadcast_shutdown(id)
        } else {
            self.forward_request(disk, v, id)
        }
    }

    /// A notification of the editor.
    fn editor_notification(
        &mut self,
        disk: &Disk,
        method: &str,
        v: &Json,
        raw: &str,
    ) -> (actions: Vec<Action>)
        ensures
            (StepModel { mux: final(self)@, actions: action_models(actions@) })
                == on_editor_notification(old(self)@, disk@, method@, v@, raw@),
    {
        if same_text(method, "initialized") {
            return nothing();
        }
        if same_text(method, "exit") || uri_of(v).is_none() {
            return self.broadcast(raw);
        }
        let scope = self.scope_for(disk, v);
        let (backend, up) = self.ensure_backend(disk, scope);
        let last = self.send_to_backend(backend, raw.to_owned());
        chained(up, last)
    }

    /// The editor's reply to a request of a backend: route it back to the backend that
    /// asked, restoring the backend's original request id.
    fn editor_response(&mut self, v: &Json, id: &Json) -> (actions: Vec<Action>)
        ensures
            (StepModel { mux: final(self)@, actions: action_models(actions@) })
                == on_editor_response(old(self)@, v@, id@),
    {
        let our = match id.as_i64() {
            Some(our) => our,
            None => {
                return nothing();
            },
        };
        let ghost before = self@;
        match self.server_reqs.remove(&our) {
            Some(asker) => {
                assert(self@.server_reqs =~= before.server_reqs.remove(our));
                let message = frame_value(&v.dup().with("id", asker.orig_id));
                self.send_to_backend(asker.backend, message)
            },
            None => {
                assert(self@.server_reqs =~= before.server_reqs);
                nothing()
            },
        }
    }

    /// The paths that a message from the editor brings into play: the workspace roots and
    /// the document. Of these and of the directories above them it has to be known which
    /// are directories and which hold a `potemkin.toml`.
    pub fn paths_of_interest(&self, raw: &str) -> (paths: Vec<FilePath>)
        ensures
            path_models(paths@) == interest(self@, raw@),
    {
        let mut paths: Vec<FilePath> = Vec::new();
        assert(path_models(paths@) =~= seq![]);
        let v = match payload(raw) {
            Some(json) => match parse_json(json) {
                Some(v) => v,
                None => {
                    return paths;
                },
            },
            None => {
                return paths;
            },
        };
        let mut i: usize = 0;
        while i < self.roots.len()
            invariant
                i <= self.roots@.len(),
                paths@.len() == i,
                forall|j: int| 0 <= j < i ==> (#[trigger] paths@[j])@ == self.roots@[j]@,
            decreases self.roots@.len() - i,
        {
            paths.push(self.roots[i].dup());
            i = i + 1;
        }
        assert(path_models(paths@) =~= self@.roots);
        match uri_of(&v) {
            Some(uri) => match uri_to_path(uri, self.windows) {
                Some(path) => {
                    paths.push(FilePath::new_on(path.as_str(), self.windows));
                },
                None => {},
            },
            None => {},
        }
        assert(path_models(paths@) =~= self@.roots + document_path(v@, self.windows));
        let ghost before = path_models(paths@);
        let is_initialize = match v.get_str("method") {
            Some(method) => same_text(method, "initialize"),
            None => false,
        };
        if is_initialize {
            match v.get("params") {
                Some(params) => {
                    let mut roots = extract_roots(params, self.windows);
                    let ghost found = path_models(roots@);
                    paths.append(&mut roots);
                    assert(path_models(paths@) =~= before + found);
                },
                None => {
                    assert(before =~= before + new_roots(v@, self.windows));
                },
            }
        } else {
            assert(before =~= before + new_roots(v@, self.windows));
        }
        paths
    }

    /// Handle one framed message from the editor, where `disk` is what is known of the
    /// paths that [`Mux::paths_of_interest`] names and of the directories above them.
    pub fn on_editor_message(&mut self, raw: &str, disk: &Disk) -> (actions: Vec<Action>)
        ensures
            (StepModel { mux: final(self)@, actions: action_models(actions@) }) == on_editor(
                old(self)@,
                disk@,
                raw@,
            ),
    {
        note_outgoing(&mut self.pending, raw);
        let v = match payload(raw) {
            Some(json) => match parse_json(json) {
                Some(v) => v,
                None => {
                    return nothing();
                },
            },
            None => {
                return nothing();
            },
        };
        match (v.get_str("method"), v.get("id")) {
            (Some(method), Some(id)) => self.editor_request(disk, method, &v, id),
            (Some(method), None) => self.editor_notification(disk, method, &v, raw),
            (None, Some(id)) => self.editor_response(&v, id),
            (None, None) => nothing(),
        }
    }

    // ---- From a backend -----------------------------------------------------------

    /// A request of a backend: re-issue it toward the editor under a fresh id and remember
    /// how to route the reply back.
    fn server_request(&mut self, backend: usize, v: &Json, id: &Json) -> (actions: Vec<Action>)
        ensures
            (StepModel { mux: final(self)@, actions: action_models(actions@) })
                == on_server_request(old(self)@, backend, v@, id@),
    {
        let our = self.next_id();
        let ghost before = self@;
        let req = ServerReq { backend, orig_id: id.dup() };
        self.server_reqs.insert(our, req);
        assert(self@.server_reqs =~= before.server_reqs.insert(our, req@));
        one(Action::ToEditor(frame_value(&v.dup().with("id", Json::integer(our)))))
    }

    /// Finish a backend's handshake: mark it ready, drive `initialized`, flush any queued
    /// traffic, and (for the primary) relay its `initialize` result to the editor under the
    /// editor's original id.
    fn complete_handshake(&mut self, i: usize, v: &Json) -> (actions: Vec<Action>)
        requires
            i < old(self)@.backends.len(),
            old(self)@.backends[i as int].queue is Some,
        ensures
            (StepModel { mux: final(self)@, actions: action_models(actions@) }) == on_handshake(
                old(self)@,
                i as int,
                v@,
            ),
    {
        let ghost before = self@;
        assert(before.backends[i as int] == self.backends@[i as int]@);
        let id = self.backends[i].id;
        let is_primary = self.backends[i].is_primary;
        let mut status = Status::Ready;
        std::mem::swap(&mut self.backends[i].status, &mut status);
        let queue = match status {
            Status::Initializing(queue) => queue,
            Status::Ready => Vec::new(),
        };
        assert(self@.backends =~= on_handshake(before, i as int, v@).mux.backends);
        let mut actions = one(
            Action::ToBackend {
                backend: id,
                message: frame("{\"jsonrpc\":\"2.0\",\"method\":\"initialized\",\"params\":{}}"),
            },
        );
        let ghost first = action_models(actions@);
        let ghost waiting = texts(queue@);
        assert(first + flushed(id, waiting.take(0)) =~= first);
        for message in it: queue
            invariant
                texts(it.seq()) == waiting,
                action_models(actions@) == first + flushed(id, waiting.take(it.index())),
        {
            let ghost now = action_models(actions@);
            let ghost k = it.index();
            assert(waiting[k] == message@);
            let action = Action::ToBackend { backend: id, message };
            actions.push(action);
            assert(action_models(actions@) =~= now.push(action@));
            assert(flushed(id, waiting.take(k + 1)) =~= flushed(id, waiting.take(k)).push(
                action@,
            ));
            assert(first + flushed(id, waiting.take(k + 1)) =~= now.push(action@));
        }
        assert(waiting.take(waiting.len() as int) =~= waiting);
        let ghost told = action_models(actions@);
        if is_primary {
            let message = match &self.editor_initialize_id {
                Some(editor_id) => frame_value(&v.dup().with("id", editor_id.dup())),
                None => frame_value(v),
            };
            let action = Action::ToEditor(message);
            actions.push(action);
            assert(action_models(actions@) =~= told + seq![action@]);
        } else {
            assert(told =~= told + seq![]);
        }
        actions
    }

    /// The response to one of the editor's requests.
    fn answer(&mut self, v: &Json, our: i64, editor_id: Json) -> (actions: Vec<Action>)
        requires
            old(self)@.editor_reqs.dom().contains(our),
            old(self)@.editor_reqs[our] == editor_id@,
        ensures
            (StepModel { mux: final(self)@, actions: action_models(actions@) }) == on_answer(
                old(self)@,
                v@,
                our,
            ),
    {
        let ghost before = self@;
        self.editor_reqs.remove(&our);
        assert(self@.editor_reqs =~= before.editor_reqs.remove(our));
        let message = frame_value(&v.dup().with("id", editor_id));
        if claim_incoming(&mut self.pending, message.as_str()) {
            one(Action::Rewrite(message))
        } else {
            one(Action::ToEditor(message))
        }
    }

    /// A response of a backend.
    fn backend_response(&mut self, backend: usize, v: &Json, id: &Json) -> (actions: Vec<Action>)
        ensures
            (StepModel { mux: final(self)@, actions: action_models(actions@) }) == on_response(
                old(self)@,
                backend,
                v@,
                id@,
            ),
    {
        let our = match id.as_i64() {
            Some(our) => our,
            None => {
                return nothing();
            },
        };
        match self.seek(backend) {
            Some(i) => {
                assert(self@.backends[i as int] == self.backends@[i as int]@);
                let waiting = match &self.backends[i].status {
                    Status::Initializing(_) => true,
                    Status::Ready => false,
                };
                if waiting && self.backends[i].init_id == our {
                    return self.complete_handshake(i, v);
                }
            },
            None => {},
        }
        let editor_id = match self.editor_reqs.get(&our) {
            Some(id) => Some(id.dup()),
            None => None,
        };
        match editor_id {
            Some(editor_id) => self.answer(v, our, editor_id),
            None => {
                let ghost before = self@;
                self.swallow.remove(&our);
                assert(self@.swallow =~= before.swallow.remove(our));
                nothing()
            },
        }
    }

    /// Handle one framed message from the backend with the given id.
    pub fn on_backend_message(&mut self, backend: usize, raw: &str) -> (actions: Vec<Action>)
        ensures
            (StepModel { mux: final(self)@, actions: action_models(actions@) }) == on_backend(
                old(self)@,
                backend,
                raw@,
            ),
    {
        let v = match payload(raw) {
            Some(json) => match parse_json(json) {
                Some(v) => v,
                None => {
                    return nothing();
                },
            },
            None => {
                return nothing();
            },
        };
        match (v.get_str("method"), v.get("id")) {
            (Some(_), Some(id)) => self.server_request(backend, &v, id),
            (Some(_), None) => one(Action::ToEditor(raw.to_owned())),
            (None, Some(id)) => self.backend_response(backend, &v, id),
            (None, None) => nothing(),
        }
    }

    /// The backends to kill on session teardown.
    pub fn shutdown(&self) -> (ids: Vec<usize>)
        ensures
            ids@.len() == self@.backends.len(),
            forall|i: int| 0 <= i < ids@.len() ==> (#[trigger] ids@[i]) == self@.backends[i].id,
    {
        let mut ids: Vec<usize> = Vec::new();
        let mut i: usize = 0;
        while i < self.backends.len()
            invariant
                i <= self.backends@.len(),
                ids@.len() == i,
                self@.backends == backend_models(self.backends@),
                forall|j: int| 0 <= j < i ==> (#[trigger] ids@[j]) == self@.backends[j].id,
            decreases self.backends@.len() - i,
        {
            assert(self@.backends[i as int] == self.backends@[i as int]@);
            ids.push(self.backends[i].id);
            i = i + 1;
        }
        ids
    }
}

} // verus!
