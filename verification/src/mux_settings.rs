//! Which settings each backend has.
use vstd::prelude::*;

use crate::config_layer::{
    agrees, asked, law_agreeing_settings, path_of_uri, settings_for, DiskModel, LayerModel,
};
use crate::json::{int_model, json_same, law_json_same_reflexive, JsonModel};
use crate::mux::fresh_mux;
use crate::mux_laws::{
    expecting, ids_left, lemma_backend_for, lemma_ensured_orderly, lemma_index_of, orderly,
    request_id,
};
use crate::mux_model::{
    after, backend_for, broadcasted, delivered, ensured, ensured_id, framed_value, index_of,
    initialize_request, message_scope, on_backend, on_editor, on_editor_request, on_event,
    on_request, on_start_failed, queued, routed, scope_asked, scope_dir, scope_settings,
    scoped_params, sent, shutdown_some, spawned, with_id, ActionModel, BackendModel, EventModel,
    MuxModel, StepModel,
};
use crate::paths::components_on;
use crate::pipeline::{ids_after_outgoing, message_value};
use crate::scope::{
    can_follow, document_uri, law_scope_has_the_settings, roots_of, scope_site,
    start_dir, ScopeModel,
};

verus! {

// ---- What a layer has settled --------------------------------------------------

/// The settings of a directory are settled: nothing that becomes of the files changes them.
pub open spec fn settled(layer: LayerModel, dir: Seq<Seq<char>>) -> bool {
    layer.server_id is Some ==> layer.cache.dom().contains(dir)
}

/// The settled settings of a directory.
pub open spec fn settled_settings(layer: LayerModel, dir: Seq<Seq<char>>) -> JsonModel {
    match layer.server_id {
        Some(_) => layer.cache[dir],
        None => JsonModel::Null,
    }
}

/// To ask for the settings of a directory settles them, and settled settings are what every
/// later question is answered with, however the disk looks by then.
pub proof fn law_asking_settles(
    layer: LayerModel,
    disk: DiskModel,
    dir: Seq<Seq<char>>,
    later: DiskModel,
)
    ensures
        settled(asked(layer, disk, dir), dir),
        settled_settings(asked(layer, disk, dir), dir) == settings_for(layer, disk, dir),
        settled(layer, dir) ==> settings_for(layer, later, dir) == settled_settings(layer, dir),
{
}

/// A layer knows at least what an earlier one knew.
spec fn remembers(earlier: LayerModel, layer: LayerModel) -> bool {
    &&& layer.server_id == earlier.server_id
    &&& forall|dir: Seq<Seq<char>>| #[trigger]
        earlier.cache.dom().contains(dir) ==> layer.cache.dom().contains(dir) && layer.cache[dir]
            == earlier.cache[dir]
}

// ---- What a backend was started with -------------------------------------------

/// A backend was asked to `initialize` with the editor's params, with the settings of its
/// scope laid over the options.
pub open spec fn rightly_started(mux: MuxModel, backend: BackendModel) -> bool {
    match scope_dir(mux, backend.scope) {
        Some(dir) => settled(mux.layer, dir) && backend.params == scoped_params(
            mux.init_params,
            settled_settings(mux.layer, dir),
        ),
        None => backend.params == scoped_params(mux.init_params, JsonModel::Null),
    }
}

/// Every backend was rightly started.
pub open spec fn all_rightly_started(mux: MuxModel) -> bool {
    forall|i: int|
        0 <= i < mux.backends.len() ==> rightly_started(mux, #[trigger] mux.backends[i])
}

/// An event is an `initialize` when there are backends already.
pub open spec fn restarts(mux: MuxModel, event: EventModel) -> bool {
    &&& mux.backends.len() > 0
    &&& event matches EventModel::Editor { raw, .. }
    &&& message_value(raw) matches Some(v)
    &&& v.get_str("method"@) == Some("initialize"@)
    &&& v.get("id"@) is Some
}

/// The editor initializes the session once, before anything else brings a backend up.
pub open spec fn initialized_once(mux: MuxModel, events: Seq<EventModel>) -> bool
    decreases events.len(),
{
    events.len() == 0 || (initialized_once(mux, events.drop_last()) && !restarts(
        after(mux, events.drop_last()),
        events.last(),
    ))
}

/// A backend is the same but for its queue.
pub open spec fn same_backend(before: BackendModel, now: BackendModel) -> bool {
    now == (BackendModel { queue: now.queue, ..before })
}

/// A backend was there, whatever its queue.
spec fn was_there(mux: MuxModel, backend: BackendModel) -> bool {
    exists|i: int| 0 <= i < mux.backends.len() && same_backend(#[trigger] mux.backends[i], backend)
}

/// No backend came to those that were there, and what they were started by is the same.
spec fn no_start(mux: MuxModel, now: MuxModel) -> bool {
    &&& remembers(mux.layer, now.layer)
    &&& now.roots == mux.roots
    &&& now.init_params == mux.init_params
    &&& forall|j: int|
        0 <= j < now.backends.len() ==> was_there(mux, #[trigger] now.backends[j])
}

proof fn lemma_no_start(mux: MuxModel, now: MuxModel)
    requires
        all_rightly_started(mux),
        no_start(mux, now),
    ensures
        all_rightly_started(now),
{
    assert forall|j: int| 0 <= j < now.backends.len() implies rightly_started(
        now,
        #[trigger] now.backends[j],
    ) by {
        let i = choose|i: int|
            0 <= i < mux.backends.len() && same_backend(
                #[trigger] mux.backends[i],
                now.backends[j],
            );
        assert(rightly_started(mux, mux.backends[i]));
        assert(scope_dir(now, now.backends[j].scope) == scope_dir(mux, mux.backends[i].scope));
    }
}

/// The same backends, one for one.
proof fn lemma_same_backends(mux: MuxModel, now: MuxModel)
    requires
        remembers(mux.layer, now.layer),
        now.roots == mux.roots,
        now.init_params == mux.init_params,
        now.backends.len() == mux.backends.len(),
        forall|j: int|
            0 <= j < mux.backends.len() ==> same_backend(
                mux.backends[j],
                #[trigger] now.backends[j],
            ),
    ensures
        no_start(mux, now),
{
    assert forall|j: int| 0 <= j < now.backends.len() implies was_there(
        mux,
        #[trigger] now.backends[j],
    ) by {
        assert(same_backend(mux.backends[j], now.backends[j]));
    }
}

proof fn lemma_delivered_start(mux: MuxModel, id: usize, message: Seq<char>)
    ensures
        no_start(mux, delivered(mux, id, message).mux),
        delivered(mux, id, message).mux.layer == mux.layer,
{
    lemma_index_of(mux.backends, id);
    lemma_same_backends(mux, delivered(mux, id, message).mux);
}

/// A backend that is brought up is started with the settings of its scope, under a number
/// and an id that nothing else has.
pub proof fn law_start_carries_the_settings(mux: MuxModel, disk: DiskModel, scope: ScopeModel)
    requires
        orderly(mux),
    ensures
        ({
            let up = spawned(mux, disk, scope);
            let backend = up.mux.backends.last();
            &&& backend.scope == scope
            &&& backend.id == mux.next_backend
            &&& backend.init_id == mux.next_id
            &&& backend.params == scoped_params(mux.init_params, scope_settings(mux, disk, scope))
            &&& up.actions == seq![
                ActionModel::Start {
                    backend: backend.id,
                    message: framed_value(initialize_request(backend.init_id, backend.params)),
                },
            ]
            &&& forall|i: int|
                0 <= i < mux.backends.len() ==> (#[trigger] mux.backends[i]).id != backend.id
                    && mux.backends[i].init_id != backend.init_id
            &&& rightly_started(up.mux, backend)
        }),
{
    if let Some(dir) = scope_dir(mux, scope) {
        law_asking_settles(mux.layer, disk, dir, disk);
    }
}

proof fn lemma_ensured_start(mux: MuxModel, disk: DiskModel, scope: ScopeModel)
    requires
        all_rightly_started(mux),
    ensures
        all_rightly_started(ensured(mux, disk, scope).mux),
        remembers(mux.layer, ensured(mux, disk, scope).mux.layer),
        ensured(mux, disk, scope).mux.roots == mux.roots,
        ensured(mux, disk, scope).mux.init_params == mux.init_params,
{
    if backend_for(mux.backends, scope) is None {
        let now = spawned(mux, disk, scope).mux;
        if let Some(dir) = scope_dir(mux, scope) {
            law_asking_settles(mux.layer, disk, dir, disk);
        }
        assert forall|i: int| 0 <= i < now.backends.len() implies rightly_started(
            now,
            #[trigger] now.backends[i],
        ) by {
            if i < mux.backends.len() {
                assert(now.backends[i] == mux.backends[i]);
                assert(rightly_started(mux, mux.backends[i]));
                assert(scope_dir(now, now.backends[i].scope) == scope_dir(
                    mux,
                    mux.backends[i].scope,
                ));
            } else {
                assert(scope_dir(now, scope) == scope_dir(mux, scope));
            }
        }
    }
}

proof fn lemma_asked_start(mux: MuxModel, disk: DiskModel, v: JsonModel)
    requires
        all_rightly_started(mux),
    ensures
        all_rightly_started(scope_asked(mux, disk, v)),
        remembers(mux.layer, scope_asked(mux, disk, v).layer),
        scope_asked(mux, disk, v).roots == mux.roots,
        scope_asked(mux, disk, v).init_params == mux.init_params,
        scope_asked(mux, disk, v).backends == mux.backends,
        scope_asked(mux, disk, v).next_id == mux.next_id,
        scope_asked(mux, disk, v).next_backend == mux.next_backend,
{
    let now = scope_asked(mux, disk, v);
    assert(remembers(mux.layer, now.layer));
    lemma_same_backends(mux, now);
    lemma_no_start(mux, now);
}

proof fn lemma_shutdown_start(mux: MuxModel, backends: Seq<BackendModel>, id: JsonModel)
    requires
        all_rightly_started(mux),
    ensures
        all_rightly_started(shutdown_some(mux, backends, id).mux),
        shutdown_some(mux, backends, id).mux.layer == mux.layer,
    decreases backends.len(),
{
    if backends.len() > 0 {
        lemma_shutdown_start(mux, backends.drop_last(), id);
        let before = shutdown_some(mux, backends.drop_last(), id).mux;
        let our = before.next_id;
        let noted = if backends.last().is_primary {
            expecting(before, id)
        } else {
            MuxModel {
                next_id: crate::mux_model::next_id(our),
                swallow: before.swallow.insert(our),
                ..before
            }
        };
        lemma_same_backends(before, noted);
        lemma_no_start(before, noted);
        let message = framed_value(crate::mux_model::shutdown_request(our));
        lemma_delivered_start(noted, backends.last().id, message);
        lemma_no_start(noted, delivered(noted, backends.last().id, message).mux);
    }
}

proof fn lemma_editor_request_start(
    mux: MuxModel,
    disk: DiskModel,
    method: Seq<char>,
    v: JsonModel,
    id: JsonModel,
)
    requires
        all_rightly_started(mux),
        method == "initialize"@ ==> mux.backends.len() == 0,
    ensures
        all_rightly_started(on_editor_request(mux, disk, method, v, id).mux),
{
    if method == "initialize"@ {
        let kept = MuxModel {
            init_params: v.get("params"@),
            roots: match v.get("params"@) {
                Some(params) => roots_of(params, mux.windows),
                None => seq![],
            },
            editor_initialize_id: Some(id),
            ..mux
        };
        assert(all_rightly_started(kept));
        lemma_ensured_start(kept, disk, ScopeModel::Default);
    } else if method == "shutdown"@ {
        lemma_shutdown_start(mux, mux.backends, id);
    } else {
        let scope = message_scope(mux, disk, v);
        let start = scope_asked(mux, disk, v);
        lemma_asked_start(mux, disk, v);
        lemma_ensured_start(start, disk, scope);
        let up = ensured(start, disk, scope).mux;
        let noted = expecting(up, id);
        lemma_same_backends(up, noted);
        lemma_no_start(up, noted);
        let message = with_id(v, int_model(up.next_id));
        lemma_delivered_start(noted, ensured_id(mux, scope), message);
        lemma_no_start(noted, delivered(noted, ensured_id(mux, scope), message).mux);
    }
}

proof fn lemma_editor_start(mux: MuxModel, disk: DiskModel, raw: Seq<char>)
    requires
        all_rightly_started(mux),
        !restarts(mux, EventModel::Editor { disk, raw }),
    ensures
        all_rightly_started(on_editor(mux, disk, raw).mux),
{
    let noted = MuxModel { pending: ids_after_outgoing(mux.pending, raw), ..mux };
    lemma_same_backends(mux, noted);
    lemma_no_start(mux, noted);
    if let Some(v) = message_value(raw) {
        match (v.get_str("method"@), v.get("id"@)) {
            (Some(method), Some(id)) => {
                lemma_editor_request_start(noted, disk, method, v, id);
            },
            (Some(method), None) => {
                let scope = message_scope(noted, disk, v);
                let start = scope_asked(noted, disk, v);
                lemma_asked_start(noted, disk, v);
                lemma_ensured_start(start, disk, scope);
                let up = ensured(start, disk, scope).mux;
                lemma_delivered_start(up, ensured_id(start, scope), raw);
                lemma_no_start(up, delivered(up, ensured_id(start, scope), raw).mux);
                let all = broadcasted(noted, raw).mux;
                lemma_same_backends(noted, all);
                lemma_no_start(noted, all);
            },
            (None, Some(id)) => {
                if let Some(our) = id.as_i64() {
                    if noted.server_reqs.dom().contains(our) {
                        let asker = noted.server_reqs[our];
                        let rest = MuxModel { server_reqs: noted.server_reqs.remove(our), ..noted };
                        lemma_same_backends(noted, rest);
                        lemma_no_start(noted, rest);
                        lemma_delivered_start(rest, asker.backend, with_id(v, asker.id));
                        lemma_no_start(
                            rest,
                            delivered(rest, asker.backend, with_id(v, asker.id)).mux,
                        );
                    }
                }
            },
            (None, None) => {},
        }
    }
}

/// Whatever happens in a session that the editor initializes once, every backend has the
/// settings of its scope.
pub proof fn law_event_keeps_settings(mux: MuxModel, event: EventModel)
    requires
        all_rightly_started(mux),
        !restarts(mux, event),
    ensures
        all_rightly_started(on_event(mux, event).mux),
{
    match event {
        EventModel::Editor { disk, raw } => {
            lemma_editor_start(mux, disk, raw);
        },
        EventModel::Backend { backend, raw } => {
            let now = on_backend(mux, backend, raw).mux;
            lemma_index_of(mux.backends, backend);
            lemma_same_backends(mux, now);
            lemma_no_start(mux, now);
        },
        EventModel::StartFailed { backend } => {
            let now = on_start_failed(mux, backend);
            lemma_index_of(mux.backends, backend);
            assert forall|j: int| 0 <= j < now.backends.len() implies was_there(
                mux,
                #[trigger] now.backends[j],
            ) by {
                let i = match index_of(mux.backends, backend) {
                    Some(at) => if j < at {
                        j
                    } else {
                        j + 1
                    },
                    None => j,
                };
                assert(same_backend(mux.backends[i], now.backends[j]));
            }
            lemma_no_start(mux, now);
        },
    }
}

/// In a session that the editor initializes once, every backend has, at every time, the
/// settings of its scope.
pub proof fn law_session_has_the_settings(
    server_path: Seq<char>,
    args: Seq<Seq<char>>,
    server_id: Option<Seq<char>>,
    windows: bool,
    events: Seq<EventModel>,
)
    requires
        initialized_once(fresh_mux(server_path, args, server_id, windows), events),
    ensures
        all_rightly_started(after(fresh_mux(server_path, args, server_id, windows), events)),
    decreases events.len(),
{
    if events.len() > 0 {
        law_session_has_the_settings(server_path, args, server_id, windows, events.drop_last());
        law_event_keeps_settings(
            after(fresh_mux(server_path, args, server_id, windows), events.drop_last()),
            events.last(),
        );
    }
}

// ---- What a document gets ------------------------------------------------------

/// A message was handed to the `i`-th backend: at once where it is ready, and at the end of
/// its queue where it is not.
pub open spec fn handed(step: StepModel, i: int, message: Seq<char>) -> bool {
    &&& 0 <= i < step.mux.backends.len()
    &&& match step.mux.backends[i].queue {
        Some(queue) => queue.len() > 0 && queue.last() == message,
        None => step.actions == seq![
            ActionModel::ToBackend { backend: step.mux.backends[i].id, message },
        ],
    }
}

/// A backend was started with the editor's params and with settings that equal these.
pub open spec fn has_settings(
    params: Option<JsonModel>,
    backend: BackendModel,
    settings: JsonModel,
) -> bool {
    exists|given: JsonModel| #[trigger]
        json_same(settings, given) && backend.params == scoped_params(params, given)
}

/// The backend of a document's scope, once there is one, has the settings of the document's
/// directory.
proof fn lemma_document_backend(
    mux: MuxModel,
    disk: DiskModel,
    v: JsonModel,
    uri: Seq<char>,
    path: Seq<char>,
) -> (at: int)
    requires
        orderly(mux),
        ids_left(mux),
        all_rightly_started(mux),
        agrees(mux.layer, disk),
        document_uri(v) == Some(uri),
        path_of_uri(uri, mux.windows) == Some(path),
        can_follow(
            mux.layer,
            disk,
            mux.roots,
            start_dir(disk, components_on(path, mux.windows)),
        ),
    ensures
        ({
            let scope = message_scope(mux, disk, v);
            let up = ensured(scope_asked(mux, disk, v), disk, scope);
            let own = settings_for(mux.layer, disk, start_dir(disk, components_on(path, mux.windows)));
            &&& 0 <= at < up.mux.backends.len()
            &&& index_of(up.mux.backends, ensured_id(mux, scope)) == Some(at)
            &&& up.mux.backends[at].scope == scope
            &&& has_settings(mux.init_params, up.mux.backends[at], own)
            &&& up.mux.backends[at].queue is None ==> up.actions.len() == 0
        }),
{
    let scope = message_scope(mux, disk, v);
    let start = scope_asked(mux, disk, v);
    let own = settings_for(mux.layer, disk, start_dir(disk, components_on(path, mux.windows)));
    assert(orderly(start) && ids_left(start));
    lemma_asked_start(mux, disk, v);
    lemma_ensured_orderly(start, disk, scope);
    lemma_ensured_start(start, disk, scope);
    let up = ensured(start, disk, scope);
    let id = ensured_id(mux, scope);
    lemma_backend_for(start.backends, scope);
    let k = if backend_for(start.backends, scope) is Some {
        choose|i: int|
            0 <= i < start.backends.len() && (#[trigger] start.backends[i]).id == id
                && start.backends[i].scope == scope
    } else {
        start.backends.len() as int
    };
    assert(up.mux.backends[k].id == id && up.mux.backends[k].scope == scope);
    lemma_index_of(up.mux.backends, id);
    let at = index_of(up.mux.backends, id)->0;
    if at != k {
        assert(up.mux.backends[at].id != up.mux.backends[k].id);
    }
    assert(rightly_started(up.mux, up.mux.backends[k]));
    assert(mux.roots.len() > 0);
    let dir = scope_dir(up.mux, scope)->0;
    law_scope_has_the_settings(mux.layer, disk, mux.roots, uri, mux.windows, path);
    law_json_same_reflexive(own);
    lemma_asked_agrees(mux, disk, v);
    law_agreeing_settings(mux.layer, disk, dir);
    law_agreeing_settings(start.layer, disk, dir);
    law_agreeing_settings(asked(start.layer, disk, dir), disk, dir);
    let given = settled_settings(up.mux.layer, dir);
    law_asking_settles(up.mux.layer, disk, dir, disk);
    assert(given == settings_for(up.mux.layer, disk, dir));
    assert(agrees(up.mux.layer, disk));
    law_agreeing_settings(up.mux.layer, disk, dir);
    assert(given == settings_for(mux.layer, disk, dir));
    assert(json_same(own, given));
    at
}

proof fn lemma_asked_agrees(mux: MuxModel, disk: DiskModel, v: JsonModel)
    requires
        agrees(mux.layer, disk),
    ensures
        agrees(scope_asked(mux, disk, v).layer, disk),
        scope_asked(mux, disk, v).layer.server_id == mux.layer.server_id,
{
    if let Some(uri) = document_uri(v) {
        if let Some(site) = scope_site(disk, mux.roots, uri, mux.windows) {
            law_agreeing_settings(mux.layer, disk, site);
            law_agreeing_settings(asked(mux.layer, disk, site), disk, mux.roots[0]);
        }
    }
}

/// A request about a document in a workspace root reaches a backend that was started with
/// exactly the settings of the document's directory, where its scope can have those.
pub proof fn law_request_meets_its_settings(
    mux: MuxModel,
    disk: DiskModel,
    v: JsonModel,
    id: JsonModel,
    uri: Seq<char>,
    path: Seq<char>,
)
    requires
        orderly(mux),
        ids_left(mux),
        all_rightly_started(mux),
        agrees(mux.layer, disk),
        document_uri(v) == Some(uri),
        path_of_uri(uri, mux.windows) == Some(path),
        can_follow(
            mux.layer,
            disk,
            mux.roots,
            start_dir(disk, components_on(path, mux.windows)),
        ),
    ensures
        ({
            let step = on_request(mux, disk, v, id);
            let own = settings_for(mux.layer, disk, start_dir(disk, components_on(path, mux.windows)));
            exists|i: int|
                {
                    &&& #[trigger] handed(
                        step,
                        i,
                        with_id(v, int_model(request_id(mux, disk, v))),
                    )
                    &&& has_settings(mux.init_params, step.mux.backends[i], own)
                }
        }),
{
    let scope = message_scope(mux, disk, v);
    let at = lemma_document_backend(mux, disk, v, uri, path);
    let up = ensured(scope_asked(mux, disk, v), disk, scope);
    let own = settings_for(mux.layer, disk, start_dir(disk, components_on(path, mux.windows)));
    let noted = expecting(up.mux, id);
    let message = with_id(v, int_model(up.mux.next_id));
    let step = on_request(mux, disk, v, id);
    assert(step.mux.backends[at] == queued(noted.backends[at], message));
    let given = choose|given: JsonModel| #[trigger]
        json_same(own, given) && up.mux.backends[at].params == scoped_params(
            mux.init_params,
            given,
        );
    assert(json_same(own, given) && step.mux.backends[at].params == scoped_params(
        mux.init_params,
        given,
    ));
    if step.mux.backends[at].queue is None {
        assert(step.actions =~= sent(noted.backends[at], message));
    }
    assert(handed(step, at, message));
}

/// A notification about a document in a workspace root reaches a backend that was started
/// with exactly the settings of the document's directory, where its scope can have those.
pub proof fn law_notification_meets_its_settings(
    mux: MuxModel,
    disk: DiskModel,
    v: JsonModel,
    raw: Seq<char>,
    uri: Seq<char>,
    path: Seq<char>,
)
    requires
        orderly(mux),
        ids_left(mux),
        all_rightly_started(mux),
        agrees(mux.layer, disk),
        document_uri(v) == Some(uri),
        path_of_uri(uri, mux.windows) == Some(path),
        can_follow(
            mux.layer,
            disk,
            mux.roots,
            start_dir(disk, components_on(path, mux.windows)),
        ),
    ensures
        ({
            let step = routed(
                scope_asked(mux, disk, v),
                disk,
                message_scope(mux, disk, v),
                raw,
            );
            let own = settings_for(mux.layer, disk, start_dir(disk, components_on(path, mux.windows)));
            exists|i: int|
                {
                    &&& #[trigger] handed(step, i, raw)
                    &&& has_settings(mux.init_params, step.mux.backends[i], own)
                }
        }),
{
    let scope = message_scope(mux, disk, v);
    let at = lemma_document_backend(mux, disk, v, uri, path);
    let start = scope_asked(mux, disk, v);
    let up = ensured(start, disk, scope);
    let own = settings_for(mux.layer, disk, start_dir(disk, components_on(path, mux.windows)));
    let step = routed(start, disk, scope, raw);
    assert(ensured_id(start, scope) == ensured_id(mux, scope));
    assert(step.mux.backends[at] == queued(up.mux.backends[at], raw));
    let given = choose|given: JsonModel| #[trigger]
        json_same(own, given) && up.mux.backends[at].params == scoped_params(
            mux.init_params,
            given,
        );
    assert(json_same(own, given) && step.mux.backends[at].params == scoped_params(
        mux.init_params,
        given,
    ));
    if step.mux.backends[at].queue is None {
        assert(step.actions =~= sent(up.mux.backends[at], raw));
    }
    assert(handed(step, at, raw));
}

/// As long as the files stay as they are, what is remembered is what they say.
pub proof fn law_event_keeps_agreement(mux: MuxModel, event: EventModel, disk: DiskModel)
    requires
        agrees(mux.layer, disk),
        event matches EventModel::Editor { disk: now, .. } ==> now == disk,
    ensures
        agrees(on_event(mux, event).mux.layer, disk),
{
    if let EventModel::Editor { raw, .. } = event {
        let noted = MuxModel { pending: ids_after_outgoing(mux.pending, raw), ..mux };
        if let Some(v) = message_value(raw) {
            lemma_asked_agrees(noted, disk, v);
            let start = scope_asked(noted, disk, v);
            let scope = message_scope(noted, disk, v);
            if let Some(dir) = scope_dir(start, scope) {
                law_agreeing_settings(start.layer, disk, dir);
            }
            if let (Some(method), Some(id)) = (v.get_str("method"@), v.get("id"@)) {
                if method == "initialize"@ {
                    if let Some(params) = v.get("params"@) {
                        let roots = roots_of(params, mux.windows);
                        if roots.len() > 0 {
                            law_agreeing_settings(noted.layer, disk, roots[0]);
                        }
                    }
                } else if method == "shutdown"@ {
                    lemma_shutdown_layer(noted, noted.backends, id);
                }
            }
        }
    }
}

proof fn lemma_shutdown_layer(mux: MuxModel, backends: Seq<BackendModel>, id: JsonModel)
    ensures
        shutdown_some(mux, backends, id).mux.layer == mux.layer,
    decreases backends.len(),
{
    if backends.len() > 0 {
        lemma_shutdown_layer(mux, backends.drop_last(), id);
    }
}

} // verus!
