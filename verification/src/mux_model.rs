//! What the multiplexer is and what each message does to it.
use vstd::prelude::*;

use crate::config_layer::{asked, merged, path_of_uri, settings_for, DiskModel, LayerModel};
use crate::json::{int_model, json_text, no_fields, JsonModel};
use crate::lsp::framed;
use crate::paths::components_on;
use crate::pipeline::{claimed_id, ids_after_incoming, ids_after_outgoing, message_value};
use crate::scope::{document_uri, layer_after_scope, roots_of, scope_of, ScopeModel};

verus! {

// ---- The state -----------------------------------------------------------------

/// A backend: until its handshake is done, what is meant for it is queued.
#[verifier::ext_equal]
pub struct BackendModel {
    pub id: usize,
    pub scope: ScopeModel,
    /// The queue of a backend that is still initializing.
    pub queue: Option<Seq<Seq<char>>>,
    pub is_primary: bool,
    /// The id of its `initialize` request.
    pub init_id: i64,
    /// The params of its `initialize` request.
    pub params: JsonModel,
}

/// A request of a backend that awaits the editor's reply.
#[verifier::ext_equal]
pub struct ServerReqModel {
    pub backend: usize,
    /// The id under which the backend asked.
    pub id: JsonModel,
}

/// The state of the multiplexer.
#[verifier::ext_equal]
pub struct MuxModel {
    /// The command of the server, and its arguments.
    pub server_path: Seq<char>,
    pub args: Seq<Seq<char>>,
    /// Whether paths are Windows paths.
    pub windows: bool,
    pub layer: LayerModel,
    /// The ids, as the editor knows them, of requests whose responses are rewritten.
    pub pending: Set<i64>,
    pub backends: Seq<BackendModel>,
    /// The editor's id for each request that awaits a backend's response.
    pub editor_reqs: Map<i64, JsonModel>,
    pub server_reqs: Map<i64, ServerReqModel>,
    /// Responses to drop.
    pub swallow: Set<i64>,
    pub editor_initialize_id: Option<JsonModel>,
    pub primary: Option<usize>,
    pub next_backend: usize,
    pub next_id: i64,
    pub roots: Seq<Seq<Seq<char>>>,
    pub init_params: Option<JsonModel>,
}

/// Something to be done after a message.
#[verifier::ext_equal]
pub enum ActionModel {
    /// Send this to the editor.
    ToEditor(Seq<char>),
    /// Run this response through the plugins, and send the outcome to the editor.
    Rewrite(Seq<char>),
    /// Start a process for this backend and send it this first.
    Start { backend: usize, message: Seq<char> },
    /// Send this to the backend.
    ToBackend { backend: usize, message: Seq<char> },
}

/// The state after a message, and what is to be done.
#[verifier::ext_equal]
pub struct StepModel {
    pub mux: MuxModel,
    pub actions: Seq<ActionModel>,
}

/// Nothing is to be done.
pub open spec fn quiet(mux: MuxModel) -> StepModel {
    StepModel { mux, actions: seq![] }
}

/// The id after an id.
pub open spec fn next_id(id: i64) -> i64 {
    if id == i64::MAX {
        i64::MIN
    } else {
        (id + 1) as i64
    }
}

/// The number after a backend's.
pub open spec fn next_backend(id: usize) -> usize {
    if id == usize::MAX {
        0
    } else {
        (id + 1) as usize
    }
}

/// A JSON value in its frame.
pub open spec fn framed_value(v: JsonModel) -> Seq<char> {
    framed(json_text(v))
}

/// A message under another id.
pub open spec fn with_id(v: JsonModel, id: JsonModel) -> Seq<char> {
    framed_value(v.with("id"@, id))
}

// ---- Backends ------------------------------------------------------------------

/// Where the backend with the given id stands.
pub open spec fn index_of(backends: Seq<BackendModel>, id: usize) -> Option<int>
    decreases backends.len(),
{
    if backends.len() == 0 {
        None
    } else if backends.last().id == id {
        Some(backends.len() - 1)
    } else {
        index_of(backends.drop_last(), id)
    }
}

/// The backend that serves a scope.
pub open spec fn backend_for(backends: Seq<BackendModel>, scope: ScopeModel) -> Option<usize>
    decreases backends.len(),
{
    if backends.len() == 0 {
        None
    } else if backends.last().scope == scope {
        Some(backends.last().id)
    } else {
        backend_for(backends.drop_last(), scope)
    }
}

/// A backend with one more message for it: queued while it is still initializing.
pub open spec fn queued(backend: BackendModel, message: Seq<char>) -> BackendModel {
    match backend.queue {
        Some(queue) => BackendModel { queue: Some(queue.push(message)), ..backend },
        None => backend,
    }
}

/// What goes to a backend at once: the message, unless it is queued.
pub open spec fn sent(backend: BackendModel, message: Seq<char>) -> Seq<ActionModel> {
    if backend.queue is None {
        seq![ActionModel::ToBackend { backend: backend.id, message }]
    } else {
        seq![]
    }
}

/// A message for one backend; there may be no such backend.
pub open spec fn delivered(mux: MuxModel, id: usize, message: Seq<char>) -> StepModel {
    match index_of(mux.backends, id) {
        Some(i) => StepModel {
            mux: MuxModel {
                backends: mux.backends.update(i, queued(mux.backends[i], message)),
                ..mux
            },
            actions: sent(mux.backends[i], message),
        },
        None => quiet(mux),
    }
}

/// What goes to the backends at once when a message is for all of them.
pub open spec fn sent_to_all(backends: Seq<BackendModel>, message: Seq<char>) -> Seq<ActionModel>
    decreases backends.len(),
{
    if backends.len() == 0 {
        seq![]
    } else {
        sent_to_all(backends.drop_last(), message) + sent(backends.last(), message)
    }
}

/// A message for every backend.
pub open spec fn broadcasted(mux: MuxModel, message: Seq<char>) -> StepModel {
    StepModel {
        mux: MuxModel {
            backends: mux.backends.map_values(|b: BackendModel| queued(b, message)),
            ..mux
        },
        actions: sent_to_all(mux.backends, message),
    }
}

/// The directory whose settings a scope has.
pub open spec fn scope_dir(mux: MuxModel, scope: ScopeModel) -> Option<Seq<Seq<char>>> {
    match scope {
        ScopeModel::Dir(dir) => Some(dir),
        ScopeModel::Default => if mux.roots.len() > 0 {
            Some(mux.roots[0])
        } else {
            None
        },
    }
}

/// The editor's `initialize` params with the settings of a scope laid over the
/// `initializationOptions`.
pub open spec fn scoped_params(params: Option<JsonModel>, settings: JsonModel) -> JsonModel {
    let given = match params {
        Some(p) => p,
        None => JsonModel::Object(no_fields()),
    };
    if settings is Null {
        given
    } else {
        let options = match given.get("initializationOptions"@) {
            Some(options) => options,
            None => JsonModel::Null,
        };
        given.with("initializationOptions"@, merged(options, settings))
    }
}

/// The `initialize` request for a backend.
pub open spec fn initialize_request(id: i64, params: JsonModel) -> JsonModel {
    JsonModel::Object(
        no_fields().insert("jsonrpc"@, JsonModel::Str("2.0"@)).insert("id"@, int_model(id)).insert(
            "method"@,
            JsonModel::Str("initialize"@),
        ).insert("params"@, params),
    )
}

/// The settings of a scope.
pub open spec fn scope_settings(mux: MuxModel, disk: DiskModel, scope: ScopeModel) -> JsonModel {
    match scope_dir(mux, scope) {
        Some(dir) => settings_for(mux.layer, disk, dir),
        None => JsonModel::Null,
    }
}

/// A backend is brought up for a scope: it is asked to `initialize` first, and whatever else
/// is meant for it waits.
pub open spec fn spawned(mux: MuxModel, disk: DiskModel, scope: ScopeModel) -> StepModel {
    let is_primary = mux.primary is None && scope is Default;
    let params = scoped_params(mux.init_params, scope_settings(mux, disk, scope));
    let backend = BackendModel {
        id: mux.next_backend,
        scope,
        queue: Some(seq![]),
        is_primary,
        init_id: mux.next_id,
        params,
    };
    StepModel {
        mux: MuxModel {
            layer: match scope_dir(mux, scope) {
                Some(dir) => asked(mux.layer, disk, dir),
                None => mux.layer,
            },
            backends: mux.backends.push(backend),
            primary: if is_primary {
                Some(mux.next_backend)
            } else {
                mux.primary
            },
            next_backend: next_backend(mux.next_backend),
            next_id: next_id(mux.next_id),
            ..mux
        },
        actions: seq![
            ActionModel::Start {
                backend: mux.next_backend,
                message: framed_value(initialize_request(mux.next_id, params)),
            },
        ],
    }
}

/// There is a backend for a scope; it is brought up if there was none.
pub open spec fn ensured(mux: MuxModel, disk: DiskModel, scope: ScopeModel) -> StepModel {
    if backend_for(mux.backends, scope) is Some {
        quiet(mux)
    } else {
        spawned(mux, disk, scope)
    }
}

/// The backend of a scope, once there is one.
pub open spec fn ensured_id(mux: MuxModel, scope: ScopeModel) -> usize {
    match backend_for(mux.backends, scope) {
        Some(id) => id,
        None => mux.next_backend,
    }
}

/// A message for the backend of a scope, which is brought up first if there was none.
pub open spec fn routed(
    mux: MuxModel,
    disk: DiskModel,
    scope: ScopeModel,
    message: Seq<char>,
) -> StepModel {
    let up = ensured(mux, disk, scope);
    let last = delivered(up.mux, ensured_id(mux, scope), message);
    StepModel { mux: last.mux, actions: up.actions + last.actions }
}

// ---- From the editor -----------------------------------------------------------

/// The scope that a message belongs to: that of its document, else the default.
pub open spec fn message_scope(mux: MuxModel, disk: DiskModel, v: JsonModel) -> ScopeModel {
    match document_uri(v) {
        Some(uri) => scope_of(mux.layer, disk, mux.roots, uri, mux.windows),
        None => ScopeModel::Default,
    }
}

/// The state after the scope of a message was asked for.
pub open spec fn scope_asked(mux: MuxModel, disk: DiskModel, v: JsonModel) -> MuxModel {
    match document_uri(v) {
        Some(uri) => MuxModel {
            layer: layer_after_scope(mux.layer, disk, mux.roots, uri, mux.windows),
            ..mux
        },
        None => mux,
    }
}

/// The editor's `initialize`: what it says is kept for every backend, and the default one is
/// brought up. Its result is relayed when its handshake is done.
pub open spec fn on_initialize(
    mux: MuxModel,
    disk: DiskModel,
    v: JsonModel,
    id: JsonModel,
) -> StepModel {
    ensured(
        MuxModel {
            init_params: v.get("params"@),
            roots: match v.get("params"@) {
                Some(params) => roots_of(params, mux.windows),
                None => seq![],
            },
            editor_initialize_id: Some(id),
            ..mux
        },
        disk,
        ScopeModel::Default,
    )
}

/// The reply to a `shutdown` that no backend is there to answer.
pub open spec fn empty_reply(id: JsonModel) -> JsonModel {
    JsonModel::Object(
        no_fields().insert("jsonrpc"@, JsonModel::Str("2.0"@)).insert("id"@, id).insert(
            "result"@,
            JsonModel::Null,
        ),
    )
}

/// A `shutdown` request for a backend.
pub open spec fn shutdown_request(id: i64) -> JsonModel {
    JsonModel::Object(
        no_fields().insert("jsonrpc"@, JsonModel::Str("2.0"@)).insert("id"@, int_model(id)).insert(
            "method"@,
            JsonModel::Str("shutdown"@),
        ),
    )
}

/// One backend is asked to shut down; only the primary's reply goes to the editor.
pub open spec fn shutdown_one(mux: MuxModel, backend: BackendModel, id: JsonModel) -> StepModel {
    let our = mux.next_id;
    let noted = if backend.is_primary {
        MuxModel { next_id: next_id(our), editor_reqs: mux.editor_reqs.insert(our, id), ..mux }
    } else {
        MuxModel { next_id: next_id(our), swallow: mux.swallow.insert(our), ..mux }
    };
    delivered(noted, backend.id, framed_value(shutdown_request(our)))
}

/// Some backends, one after the other, are asked to shut down.
pub open spec fn shutdown_some(
    mux: MuxModel,
    backends: Seq<BackendModel>,
    id: JsonModel,
) -> StepModel
    decreases backends.len(),
{
    if backends.len() == 0 {
        quiet(mux)
    } else {
        let before = shutdown_some(mux, backends.drop_last(), id);
        let last = shutdown_one(before.mux, backends.last(), id);
        StepModel { mux: last.mux, actions: before.actions + last.actions }
    }
}

/// The editor's `shutdown` goes to every backend.
pub open spec fn on_shutdown(mux: MuxModel, id: JsonModel) -> StepModel {
    if mux.backends.len() == 0 {
        StepModel { mux, actions: seq![ActionModel::ToEditor(framed_value(empty_reply(id)))] }
    } else {
        shutdown_some(mux, mux.backends, id)
    }
}

/// Any other request of the editor: it goes, under an id of the multiplexer's own, to the
/// backend of its document's scope.
pub open spec fn on_request(
    mux: MuxModel,
    disk: DiskModel,
    v: JsonModel,
    id: JsonModel,
) -> StepModel {
    let scope = message_scope(mux, disk, v);
    let up = ensured(scope_asked(mux, disk, v), disk, scope);
    let our = up.mux.next_id;
    let noted = MuxModel {
        next_id: next_id(our),
        editor_reqs: up.mux.editor_reqs.insert(our, id),
        ..up.mux
    };
    let last = delivered(noted, ensured_id(mux, scope), with_id(v, int_model(our)));
    StepModel { mux: last.mux, actions: up.actions + last.actions }
}

/// A request of the editor.
pub open spec fn on_editor_request(
    mux: MuxModel,
    disk: DiskModel,
    method: Seq<char>,
    v: JsonModel,
    id: JsonModel,
) -> StepModel {
    if method == "initialize"@ {
        on_initialize(mux, disk, v, id)
    } else if method == "shutdown"@ {
        on_shutdown(mux, id)
    } else {
        on_request(mux, disk, v, id)
    }
}

/// A notification of the editor: `initialized` is the multiplexer's own business, one with a
/// document goes to the backend of the document's scope, and the rest go to all backends.
pub open spec fn on_editor_notification(
    mux: MuxModel,
    disk: DiskModel,
    method: Seq<char>,
    v: JsonModel,
    raw: Seq<char>,
) -> StepModel {
    if method == "initialized"@ {
        quiet(mux)
    } else if method == "exit"@ || document_uri(v) is None {
        broadcasted(mux, raw)
    } else {
        routed(scope_asked(mux, disk, v), disk, message_scope(mux, disk, v), raw)
    }
}

/// The editor's reply to a backend's request: it goes to the backend that asked, under the
/// backend's own id.
pub open spec fn on_editor_response(mux: MuxModel, v: JsonModel, id: JsonModel) -> StepModel {
    match id.as_i64() {
        Some(our) => if mux.server_reqs.dom().contains(our) {
            let asker = mux.server_reqs[our];
            delivered(
                MuxModel { server_reqs: mux.server_reqs.remove(our), ..mux },
                asker.backend,
                with_id(v, asker.id),
            )
        } else {
            quiet(mux)
        },
        None => quiet(mux),
    }
}

/// A message of the editor that is JSON.
pub open spec fn on_editor_value(
    mux: MuxModel,
    disk: DiskModel,
    v: JsonModel,
    raw: Seq<char>,
) -> StepModel {
    match (v.get_str("method"@), v.get("id"@)) {
        (Some(method), Some(id)) => on_editor_request(mux, disk, method, v, id),
        (Some(method), None) => on_editor_notification(mux, disk, method, v, raw),
        (None, Some(id)) => on_editor_response(mux, v, id),
        (None, None) => quiet(mux),
    }
}

/// A framed message from the editor. Whatever it is, requests whose responses are rewritten
/// are noted under the editor's ids.
pub open spec fn on_editor(mux: MuxModel, disk: DiskModel, raw: Seq<char>) -> StepModel {
    let noted = MuxModel { pending: ids_after_outgoing(mux.pending, raw), ..mux };
    match message_value(raw) {
        Some(v) => on_editor_value(noted, disk, v, raw),
        None => quiet(noted),
    }
}

// ---- What a message asks of the disk ---------------------------------------------

/// The path of the document that a message refers to, if any.
pub open spec fn document_path(v: JsonModel, windows: bool) -> Seq<Seq<Seq<char>>> {
    match document_uri(v) {
        Some(uri) => match path_of_uri(uri, windows) {
            Some(path) => seq![components_on(path, windows)],
            None => seq![],
        },
        None => seq![],
    }
}

/// The workspace roots that an `initialize` brings.
pub open spec fn new_roots(v: JsonModel, windows: bool) -> Seq<Seq<Seq<char>>> {
    if v.get_str("method"@) == Some("initialize"@) {
        match v.get("params"@) {
            Some(params) => roots_of(params, windows),
            None => seq![],
        }
    } else {
        seq![]
    }
}

/// The paths that a message from the editor brings into play.
pub open spec fn interest(mux: MuxModel, raw: Seq<char>) -> Seq<Seq<Seq<char>>> {
    match message_value(raw) {
        Some(v) => mux.roots + document_path(v, mux.windows) + new_roots(v, mux.windows),
        None => seq![],
    }
}

// ---- From a backend ------------------------------------------------------------

/// A backend's request goes to the editor, under an id of the multiplexer's own.
pub open spec fn on_server_request(
    mux: MuxModel,
    backend: usize,
    v: JsonModel,
    id: JsonModel,
) -> StepModel {
    let our = mux.next_id;
    StepModel {
        mux: MuxModel {
            next_id: next_id(our),
            server_reqs: mux.server_reqs.insert(our, ServerReqModel { backend, id }),
            ..mux
        },
        actions: seq![ActionModel::ToEditor(with_id(v, int_model(our)))],
    }
}

/// The `initialized` notification.
pub open spec fn initialized_message() -> Seq<char> {
    framed("{\"jsonrpc\":\"2.0\",\"method\":\"initialized\",\"params\":{}}"@)
}

/// What a backend gets that was waiting: each message in its turn.
pub open spec fn flushed(id: usize, queue: Seq<Seq<char>>) -> Seq<ActionModel> {
    queue.map_values(|message: Seq<char>| ActionModel::ToBackend { backend: id, message })
}

/// A backend's handshake is done: it is told so, and gets whatever waited for it. The
/// primary's result goes to the editor, under the editor's id.
pub open spec fn on_handshake(mux: MuxModel, i: int, v: JsonModel) -> StepModel {
    let backend = mux.backends[i];
    let queue = match backend.queue {
        Some(queue) => queue,
        None => seq![],
    };
    StepModel {
        mux: MuxModel {
            backends: mux.backends.update(i, BackendModel { queue: None, ..backend }),
            ..mux
        },
        actions: seq![
            ActionModel::ToBackend { backend: backend.id, message: initialized_message() },
        ] + flushed(backend.id, queue) + (if backend.is_primary {
            seq![
                ActionModel::ToEditor(
                    match mux.editor_initialize_id {
                        Some(id) => with_id(v, id),
                        None => framed_value(v),
                    },
                ),
            ]
        } else {
            seq![]
        }),
    }
}

/// The response to a request of the editor: it goes back under the editor's id, by way of
/// the plugins where it is one whose text is rewritten.
pub open spec fn on_answer(mux: MuxModel, v: JsonModel, our: i64) -> StepModel {
    let message = with_id(v, mux.editor_reqs[our]);
    StepModel {
        mux: MuxModel {
            editor_reqs: mux.editor_reqs.remove(our),
            pending: ids_after_incoming(mux.pending, message),
            ..mux
        },
        actions: seq![
            if claimed_id(mux.pending, message) is Some {
                ActionModel::Rewrite(message)
            } else {
                ActionModel::ToEditor(message)
            },
        ],
    }
}

/// Whether a response from a backend ends its handshake; where the backend stands.
pub open spec fn ends_handshake(mux: MuxModel, backend: usize, our: i64) -> Option<int> {
    match index_of(mux.backends, backend) {
        Some(i) => if mux.backends[i].queue is Some && mux.backends[i].init_id == our {
            Some(i)
        } else {
            None
        },
        None => None,
    }
}

/// A backend's response.
pub open spec fn on_response(
    mux: MuxModel,
    backend: usize,
    v: JsonModel,
    id: JsonModel,
) -> StepModel {
    match id.as_i64() {
        Some(our) => match ends_handshake(mux, backend, our) {
            Some(i) => on_handshake(mux, i, v),
            None => if mux.editor_reqs.dom().contains(our) {
                on_answer(mux, v, our)
            } else {
                quiet(MuxModel { swallow: mux.swallow.remove(our), ..mux })
            },
        },
        None => quiet(mux),
    }
}

/// A framed message from a backend. Notifications go to the editor as they are.
pub open spec fn on_backend(mux: MuxModel, backend: usize, raw: Seq<char>) -> StepModel {
    match message_value(raw) {
        Some(v) => match (v.get_str("method"@), v.get("id"@)) {
            (Some(_), Some(id)) => on_server_request(mux, backend, v, id),
            (Some(_), None) => StepModel { mux, actions: seq![ActionModel::ToEditor(raw)] },
            (None, Some(id)) => on_response(mux, backend, v, id),
            (None, None) => quiet(mux),
        },
        None => quiet(mux),
    }
}

/// No process could be started for a backend: it is as if it had never been there.
pub open spec fn on_start_failed(mux: MuxModel, backend: usize) -> MuxModel {
    match index_of(mux.backends, backend) {
        Some(i) => MuxModel {
            backends: mux.backends.remove(i),
            primary: if mux.primary == Some(backend) {
                None
            } else {
                mux.primary
            },
            ..mux
        },
        None => mux,
    }
}

// ---- What happens in a session -------------------------------------------------

/// Something that happens to the multiplexer.
#[verifier::ext_equal]
pub enum EventModel {
    /// The editor sends a message, when the disk is as given.
    Editor { disk: DiskModel, raw: Seq<char> },
    /// A backend sends a message.
    Backend { backend: usize, raw: Seq<char> },
    /// No process could be started for a backend.
    StartFailed { backend: usize },
}

/// What an event does.
pub open spec fn on_event(mux: MuxModel, event: EventModel) -> StepModel {
    match event {
        EventModel::Editor { disk, raw } => on_editor(mux, disk, raw),
        EventModel::Backend { backend, raw } => on_backend(mux, backend, raw),
        EventModel::StartFailed { backend } => quiet(on_start_failed(mux, backend)),
    }
}

/// The state after some events, one after the other.
pub open spec fn after(mux: MuxModel, events: Seq<EventModel>) -> MuxModel
    decreases events.len(),
{
    if events.len() == 0 {
        mux
    } else {
        on_event(after(mux, events.drop_last()), events.last()).mux
    }
}

} // verus!
