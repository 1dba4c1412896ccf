//! What holds of the multiplexer, whatever the messages.
use vstd::prelude::*;

use crate::config_layer::{asked, layered, merged, path_of_uri, settings_for, DiskModel, LayerModel};
use crate::json::{int_model, JsonModel};
use crate::mux::fresh_mux;
use crate::mux_model::{
    backend_for, broadcasted, delivered, document_path, empty_reply, ends_handshake, ensured,
    ensured_id, flushed, framed_value, index_of, initialized_message, interest, message_scope,
    new_roots, next_backend, next_id, on_backend, on_editor, on_editor_request,
    on_editor_response, on_handshake, on_request, on_response, on_shutdown, on_start_failed,
    queued, quiet, scope_asked, scope_dir, scoped_params, shutdown_some, spawned, with_id,
    ActionModel, BackendModel, MuxModel, StepModel,
};
use crate::paths::{components_on, parent};
use crate::pipeline::message_value;
use crate::scope::{
    deepest_root, document_uri, layer_after_scope, lemma_deepest_root, nearest_config, roots_of,
    scope_of, start_dir, ScopeModel,
};

verus! {

// ---- The invariant -------------------------------------------------------------

/// An id of the multiplexer's own is in use.
pub open spec fn in_use(mux: MuxModel, id: i64) -> bool {
    ||| mux.editor_reqs.dom().contains(id)
    ||| mux.server_reqs.dom().contains(id)
    ||| mux.swallow.contains(id)
    ||| exists|i: int| 0 <= i < mux.backends.len() && (#[trigger] mux.backends[i]).init_id == id
}

/// The ids in use were all given out.
pub open spec fn ids_given(mux: MuxModel) -> bool {
    &&& forall|id: i64| #[trigger] mux.editor_reqs.dom().contains(id) ==> id < mux.next_id
    &&& forall|id: i64| #[trigger] mux.server_reqs.dom().contains(id) ==> id < mux.next_id
    &&& forall|id: i64| #[trigger] mux.swallow.contains(id) ==> id < mux.next_id
    &&& forall|i: int|
        0 <= i < mux.backends.len() ==> (#[trigger] mux.backends[i]).init_id < mux.next_id
}

/// No id is in use for two things.
pub open spec fn ids_apart(mux: MuxModel) -> bool {
    &&& forall|id: i64| #[trigger]
        mux.editor_reqs.dom().contains(id) ==> !mux.server_reqs.dom().contains(id)
            && !mux.swallow.contains(id)
    &&& forall|id: i64| #[trigger]
        mux.server_reqs.dom().contains(id) ==> !mux.swallow.contains(id)
    &&& forall|i: int|
        0 <= i < mux.backends.len() ==> !mux.editor_reqs.dom().contains(
            (#[trigger] mux.backends[i]).init_id,
        ) && !mux.server_reqs.dom().contains(mux.backends[i].init_id) && !mux.swallow.contains(
            mux.backends[i].init_id,
        )
    &&& forall|i: int, j: int|
        0 <= i < mux.backends.len() && 0 <= j < mux.backends.len() && i != j
            ==> (#[trigger] mux.backends[i]).init_id != (#[trigger] mux.backends[j]).init_id
}

/// Every backend has a number and a scope of its own, and the primary is the default one.
pub open spec fn backends_apart(mux: MuxModel) -> bool {
    &&& forall|i: int|
        0 <= i < mux.backends.len() ==> (#[trigger] mux.backends[i]).id < mux.next_backend
    &&& forall|i: int, j: int|
        0 <= i < mux.backends.len() && 0 <= j < mux.backends.len() && i != j
            ==> (#[trigger] mux.backends[i]).id != (#[trigger] mux.backends[j]).id
            && mux.backends[i].scope != mux.backends[j].scope
    &&& forall|i: int|
        0 <= i < mux.backends.len() ==> (#[trigger] mux.backends[i]).is_primary == (mux.primary
            == Some(mux.backends[i].id)) && (mux.backends[i].is_primary
            ==> mux.backends[i].scope is Default)
    &&& mux.primary matches Some(id) ==> exists|i: int|
        0 <= i < mux.backends.len() && (#[trigger] mux.backends[i]).id == id
}

/// What every reachable state is, as long as the ids and the numbers do not run out.
pub open spec fn orderly(mux: MuxModel) -> bool {
    &&& ids_given(mux)
    &&& ids_apart(mux)
    &&& backends_apart(mux)
}

/// One message uses up so many ids at most.
pub open spec fn ids_left(mux: MuxModel) -> bool {
    mux.next_id + mux.backends.len() + 2 <= i64::MAX && mux.next_backend < usize::MAX
}

/// The state before the first message is orderly.
pub proof fn law_fresh_is_orderly(
    server_path: Seq<char>,
    args: Seq<Seq<char>>,
    server_id: Option<Seq<char>>,
    windows: bool,
)
    ensures
        orderly(fresh_mux(server_path, args, server_id, windows)),
{
}

/// Where a backend is found, it is one with that number.
pub(crate) proof fn lemma_index_of(backends: Seq<BackendModel>, id: usize)
    ensures
        match index_of(backends, id) {
            Some(i) => 0 <= i < backends.len() && backends[i].id == id,
            None => forall|i: int| 0 <= i < backends.len() ==> (#[trigger] backends[i]).id != id,
        },
    decreases backends.len(),
{
    if backends.len() > 0 && backends.last().id != id {
        lemma_index_of(backends.drop_last(), id);
        assert forall|i: int|
            index_of(backends, id) is None && 0 <= i < backends.len() implies (
        #[trigger] backends[i]).id != id by {
            if i < backends.len() - 1 {
                assert(backends.drop_last()[i] == backends[i]);
            }
        }
    }
}

/// Where no backend serves a scope, none has it.
pub(crate) proof fn lemma_backend_for(backends: Seq<BackendModel>, scope: ScopeModel)
    ensures
        match backend_for(backends, scope) {
            Some(id) => exists|i: int|
                0 <= i < backends.len() && (#[trigger] backends[i]).id == id && backends[i].scope
                    == scope,
            None => forall|i: int|
                0 <= i < backends.len() ==> (#[trigger] backends[i]).scope != scope,
        },
    decreases backends.len(),
{
    if backends.len() > 0 {
        if backends.last().scope == scope {
            let last = backends.len() - 1;
            assert(backends[last].id == backends.last().id);
        } else {
            lemma_backend_for(backends.drop_last(), scope);
            assert(forall|i: int|
                0 <= i < backends.len() - 1 ==> backends.drop_last()[i] == (
                #[trigger] backends[i]));
        }
    }
}

/// Delivering changes nothing but queues.
pub(crate) proof fn lemma_delivered_orderly(mux: MuxModel, id: usize, message: Seq<char>)
    requires
        orderly(mux),
    ensures
        orderly(delivered(mux, id, message).mux),
        delivered(mux, id, message).mux.next_id == mux.next_id,
        delivered(mux, id, message).mux.next_backend == mux.next_backend,
        delivered(mux, id, message).mux.backends.len() == mux.backends.len(),
        same_but_queues(mux, delivered(mux, id, message).mux),
{
    lemma_index_of(mux.backends, id);
    lemma_same_but_queues(mux, delivered(mux, id, message).mux);
}

/// Two states differ in the queues of their backends alone.
pub open spec fn same_but_queues(a: MuxModel, b: MuxModel) -> bool {
    &&& b == (MuxModel { backends: b.backends, ..a })
    &&& a.backends.len() == b.backends.len()
    &&& forall|i: int|
        0 <= i < a.backends.len() ==> (#[trigger] b.backends[i]) == (BackendModel {
            queue: b.backends[i].queue,
            ..a.backends[i]
        })
}

proof fn lemma_same_but_queues(a: MuxModel, b: MuxModel)
    requires
        same_but_queues(a, b),
        orderly(a),
    ensures
        orderly(b),
{
    assert(ids_given(b)) by {
        assert forall|i: int| 0 <= i < b.backends.len() implies (#[trigger] b.backends[i]).init_id
            < b.next_id by {
            assert(a.backends[i].init_id < a.next_id);
        }
    }
    assert(ids_apart(b)) by {
        assert forall|i: int| 0 <= i < b.backends.len() implies !b.editor_reqs.dom().contains(
            (#[trigger] b.backends[i]).init_id,
        ) && !b.server_reqs.dom().contains(b.backends[i].init_id) && !b.swallow.contains(
            b.backends[i].init_id,
        ) by {
            assert(a.backends[i].init_id == b.backends[i].init_id);
        }
        assert forall|i: int, j: int|
            0 <= i < b.backends.len() && 0 <= j < b.backends.len() && i != j implies (
        #[trigger] b.backends[i]).init_id != (#[trigger] b.backends[j]).init_id by {
            assert(a.backends[i].init_id != a.backends[j].init_id);
        }
    }
    assert(backends_apart(b)) by {
        assert forall|i: int| 0 <= i < b.backends.len() implies (#[trigger] b.backends[i]).id
            < b.next_backend && b.backends[i].is_primary == (b.primary == Some(b.backends[i].id))
            && (b.backends[i].is_primary ==> b.backends[i].scope is Default) by {
            assert(a.backends[i].id < a.next_backend);
        }
        assert forall|i: int, j: int|
            0 <= i < b.backends.len() && 0 <= j < b.backends.len() && i != j implies (
        #[trigger] b.backends[i]).id != (#[trigger] b.backends[j]).id && b.backends[i].scope
            != b.backends[j].scope by {
            assert(a.backends[i].id != a.backends[j].id);
        }
        if let Some(id) = b.primary {
            let i = choose|i: int| 0 <= i < a.backends.len() && (#[trigger] a.backends[i]).id == id;
            assert(b.backends[i].id == id);
        }
    }
}

/// A fresh id is in use for nothing.
pub proof fn law_fresh_id_unused(mux: MuxModel)
    requires
        orderly(mux),
    ensures
        !in_use(mux, mux.next_id),
{
}

proof fn lemma_spawned_orderly(mux: MuxModel, disk: DiskModel, scope: ScopeModel)
    requires
        orderly(mux),
        ids_left(mux),
        backend_for(mux.backends, scope) is None,
    ensures
        orderly(spawned(mux, disk, scope).mux),
{
    let now = spawned(mux, disk, scope).mux;
    lemma_backend_for(mux.backends, scope);
    assert(forall|i: int|
        0 <= i < mux.backends.len() ==> (#[trigger] now.backends[i]) == mux.backends[i]);
    let last = mux.backends.len() as int;
    assert(now.backends[last].init_id == mux.next_id);
    assert(now.backends[last].id == mux.next_backend);
    if let Some(id) = now.primary {
        if mux.primary is Some {
            let i = choose|i: int|
                0 <= i < mux.backends.len() && (#[trigger] mux.backends[i]).id == id;
            assert(now.backends[i].id == id);
        }
    }
}

pub(crate) proof fn lemma_ensured_orderly(mux: MuxModel, disk: DiskModel, scope: ScopeModel)
    requires
        orderly(mux),
        ids_left(mux),
    ensures
        orderly(ensured(mux, disk, scope).mux),
        ensured(mux, disk, scope).mux.next_id <= mux.next_id + 1,
        ensured(mux, disk, scope).mux.next_id >= mux.next_id,
{
    if backend_for(mux.backends, scope) is None {
        lemma_spawned_orderly(mux, disk, scope);
    }
}

proof fn lemma_shutdown_orderly(mux: MuxModel, backends: Seq<BackendModel>, id: JsonModel)
    requires
        orderly(mux),
        mux.next_id + backends.len() <= i64::MAX,
    ensures
        orderly(shutdown_some(mux, backends, id).mux),
        shutdown_some(mux, backends, id).mux.next_id == mux.next_id + backends.len(),
    decreases backends.len(),
{
    if backends.len() > 0 {
        lemma_shutdown_orderly(mux, backends.drop_last(), id);
        let before = shutdown_some(mux, backends.drop_last(), id).mux;
        let backend = backends.last();
        let our = before.next_id;
        let noted = if backend.is_primary {
            MuxModel {
                next_id: next_id(our),
                editor_reqs: before.editor_reqs.insert(our, id),
                ..before
            }
        } else {
            MuxModel { next_id: next_id(our), swallow: before.swallow.insert(our), ..before }
        };
        assert(orderly(noted));
        lemma_delivered_orderly(
            noted,
            backend.id,
            framed_value(crate::mux_model::shutdown_request(our)),
        );
    }
}

/// A message from the editor leaves an orderly state behind: ids never collide, whichever
/// backend they belong to, and there is one backend for a scope at most.
pub proof fn law_editor_keeps_order(mux: MuxModel, disk: DiskModel, raw: Seq<char>)
    requires
        orderly(mux),
        ids_left(mux),
    ensures
        orderly(on_editor(mux, disk, raw).mux),
{
    let noted = MuxModel {
        pending: crate::pipeline::ids_after_outgoing(mux.pending, raw),
        ..mux
    };
    assert(orderly(noted) && ids_left(noted));
    if let Some(v) = message_value(raw) {
        match (v.get_str("method"@), v.get("id"@)) {
            (Some(method), Some(id)) => {
                lemma_request_orderly(noted, disk, method, v, id);
            },
            (Some(method), None) => {
                let asked = scope_asked(noted, disk, v);
                let scope = message_scope(noted, disk, v);
                assert(orderly(asked) && ids_left(asked));
                lemma_ensured_orderly(asked, disk, scope);
                lemma_delivered_orderly(
                    ensured(asked, disk, scope).mux,
                    ensured_id(asked, scope),
                    raw,
                );
                let all = broadcasted(noted, raw).mux;
                assert(same_but_queues(noted, all));
                lemma_same_but_queues(noted, all);
            },
            (None, Some(id)) => {
                lemma_editor_response_orderly(noted, v, id);
            },
            (None, None) => {},
        }
    }
}

/// A state that awaits the answer to one more request of the editor.
pub open spec fn expecting(mux: MuxModel, id: JsonModel) -> MuxModel {
    MuxModel {
        next_id: next_id(mux.next_id),
        editor_reqs: mux.editor_reqs.insert(mux.next_id, id),
        ..mux
    }
}

pub(crate) proof fn lemma_expected_orderly(mux: MuxModel, id: JsonModel)
    requires
        orderly(mux),
        mux.next_id < i64::MAX,
    ensures
        orderly(expecting(mux, id)),
{
}

proof fn lemma_request_orderly(
    mux: MuxModel,
    disk: DiskModel,
    method: Seq<char>,
    v: JsonModel,
    id: JsonModel,
)
    requires
        orderly(mux),
        ids_left(mux),
    ensures
        orderly(on_editor_request(mux, disk, method, v, id).mux),
{
    if method == "initialize"@ {
        let kept = MuxModel {
            init_params: v.get("params"@),
            roots: match v.get("params"@) {
                Some(params) => roots_of(params, mux.windows),
                None => seq![],
            },
            editor_initialize_id: Some(id),
            ..mux
        };
        assert(orderly(kept) && ids_left(kept));
        lemma_ensured_orderly(kept, disk, ScopeModel::Default);
    } else if method == "shutdown"@ {
        lemma_shutdown_orderly(mux, mux.backends, id);
    } else {
        let asked = scope_asked(mux, disk, v);
        let scope = message_scope(mux, disk, v);
        assert(orderly(asked) && ids_left(asked));
        lemma_ensured_orderly(asked, disk, scope);
        let up = ensured(asked, disk, scope).mux;
        let our = up.next_id;
        lemma_expected_orderly(up, id);
        lemma_delivered_orderly(
            expecting(up, id),
            ensured_id(mux, scope),
            with_id(v, int_model(our)),
        );
    }
}

proof fn lemma_editor_response_orderly(mux: MuxModel, v: JsonModel, id: JsonModel)
    requires
        orderly(mux),
    ensures
        orderly(on_editor_response(mux, v, id).mux),
{
    if let Some(our) = id.as_i64() {
        if mux.server_reqs.dom().contains(our) {
            let asker = mux.server_reqs[our];
            let settled = MuxModel { server_reqs: mux.server_reqs.remove(our), ..mux };
            assert(orderly(settled));
            lemma_delivered_orderly(settled, asker.backend, with_id(v, asker.id));
        }
    }
}

/// A message from a backend leaves an orderly state behind.
pub proof fn law_backend_keeps_order(mux: MuxModel, backend: usize, raw: Seq<char>)
    requires
        orderly(mux),
        ids_left(mux),
    ensures
        orderly(on_backend(mux, backend, raw).mux),
{
    if let Some(v) = message_value(raw) {
        if let (None, Some(id)) = (v.get_str("method"@), v.get("id"@)) {
            if let Some(our) = id.as_i64() {
                lemma_index_of(mux.backends, backend);
                if let Some(i) = ends_handshake(mux, backend, our) {
                    let now = on_handshake(mux, i, v).mux;
                    assert(same_but_queues(mux, now));
                    lemma_same_but_queues(mux, now);
                }
            }
        }
    }
}

/// A start that failed leaves an orderly state behind.
pub proof fn law_start_failed_keeps_order(mux: MuxModel, backend: usize)
    requires
        orderly(mux),
    ensures
        orderly(on_start_failed(mux, backend)),
{
    lemma_index_of(mux.backends, backend);
    let now = on_start_failed(mux, backend);
    if let Some(at) = index_of(mux.backends, backend) {
        assert forall|i: int| 0 <= i < now.backends.len() implies (#[trigger] now.backends[i])
            == mux.backends[if i < at {
            i
        } else {
            i + 1
        }] by {}
        if let Some(id) = now.primary {
            let i = choose|i: int|
                0 <= i < mux.backends.len() && (#[trigger] mux.backends[i]).id == id;
            assert(now.backends[if i < at {
                i
            } else {
                i - 1
            }].id == id);
        }
    }
}

// ---- Requests of the editor ----------------------------------------------------

/// The id under which a request of the editor goes to its backend.
pub open spec fn request_id(mux: MuxModel, disk: DiskModel, v: JsonModel) -> i64 {
    ensured(scope_asked(mux, disk, v), disk, message_scope(mux, disk, v)).mux.next_id
}

/// An id that awaits a response is no backend's `initialize`.
pub(crate) proof fn lemma_no_handshake(mux: MuxModel, backend: usize, our: i64)
    requires
        orderly(mux),
        mux.editor_reqs.dom().contains(our) || mux.swallow.contains(our),
    ensures
        ends_handshake(mux, backend, our) is None,
{
    lemma_index_of(mux.backends, backend);
    if let Some(i) = index_of(mux.backends, backend) {
        assert(mux.backends[i].init_id != our);
    }
}

/// A request of the editor is handed to one backend, that of its scope: at once where the
/// backend is ready, and at the end of its queue where it is not.
pub proof fn law_request_reaches_its_backend(
    mux: MuxModel,
    disk: DiskModel,
    v: JsonModel,
    id: JsonModel,
)
    requires
        orderly(mux),
        ids_left(mux),
    ensures
        ({
            let step = on_request(mux, disk, v, id);
            let scope = message_scope(mux, disk, v);
            let message = with_id(v, int_model(request_id(mux, disk, v)));
            exists|i: int|
                {
                    &&& 0 <= i < step.mux.backends.len()
                    &&& (#[trigger] step.mux.backends[i]).scope == scope
                    &&& match step.mux.backends[i].queue {
                        Some(queue) => queue.len() > 0 && queue.last() == message,
                        None => step.actions == seq![
                            ActionModel::ToBackend {
                                backend: step.mux.backends[i].id,
                                message,
                            },
                        ],
                    }
                }
        }),
{
    let scope = message_scope(mux, disk, v);
    let start = scope_asked(mux, disk, v);
    let our = request_id(mux, disk, v);
    assert(orderly(start) && ids_left(start));
    lemma_ensured_orderly(start, disk, scope);
    let up = ensured(start, disk, scope);
    let noted = MuxModel {
        next_id: next_id(our),
        editor_reqs: up.mux.editor_reqs.insert(our, id),
        ..up.mux
    };
    let bid = ensured_id(mux, scope);
    let message = with_id(v, int_model(our));
    lemma_backend_for(mux.backends, scope);
    let k = if backend_for(mux.backends, scope) is Some {
        choose|i: int|
            0 <= i < mux.backends.len() && (#[trigger] mux.backends[i]).id == bid
                && mux.backends[i].scope == scope
    } else {
        mux.backends.len() as int
    };
    assert(noted.backends[k].id == bid && noted.backends[k].scope == scope);
    lemma_index_of(noted.backends, bid);
    let i = index_of(noted.backends, bid)->0;
    if i != k {
        assert(up.mux.backends[i].id != up.mux.backends[k].id);
    }
    let step = on_request(mux, disk, v, id);
    assert(step.mux.backends[i] == queued(noted.backends[i], message));
    if step.mux.backends[i].queue is None {
        assert(noted.backends[i].queue is None);
        assert(up.actions =~= seq![]);
        assert(step.actions =~= seq![ActionModel::ToBackend { backend: bid, message }]);
    }
}

/// A response to a request that is to be swallowed goes nowhere, and is forgotten.
pub proof fn law_swallowed(mux: MuxModel, backend: usize, v: JsonModel, our: i64)
    requires
        orderly(mux),
        mux.swallow.contains(our),
    ensures
        on_response(mux, backend, v, int_model(our)) == quiet(
            MuxModel { swallow: mux.swallow.remove(our), ..mux },
        ),
{
    lemma_no_handshake(mux, backend, our);
    assert(!mux.editor_reqs.dom().contains(our));
}

/// A message under another id has that id, and is otherwise the same.
pub proof fn law_other_id(v: JsonModel, id: JsonModel, key: Seq<char>)
    requires
        v.get("id"@) is Some,
    ensures
        with_id(v, id) == framed_value(v.with("id"@, id)),
        v.with("id"@, id).get("id"@) == Some(id),
        key != "id"@ ==> v.with("id"@, id).get(key) == v.get(key),
{
}

// ---- Handshakes ----------------------------------------------------------------

/// What was meant for a backend during its handshake reaches it after `initialized`, in the
/// order in which it came: one more message comes last.
pub proof fn law_queue_keeps_order(mux: MuxModel, id: usize, message: Seq<char>, v: JsonModel)
    requires
        index_of(mux.backends, id) is Some,
        mux.backends[index_of(mux.backends, id)->0].queue is Some,
    ensures
        ({
            let i = index_of(mux.backends, id)->0;
            let queue = mux.backends[i].queue->0;
            let later = delivered(mux, id, message);
            let initialized = ActionModel::ToBackend { backend: id, message: initialized_message() };
            &&& later.actions == Seq::<ActionModel>::empty()
            &&& on_handshake(later.mux, i, v).actions.take((queue.len() + 2) as int) == seq![
                initialized,
            ] + flushed(id, queue) + seq![ActionModel::ToBackend { backend: id, message }]
            &&& on_handshake(later.mux, i, v).mux.backends[i].queue is None
        }),
{
    lemma_index_of(mux.backends, id);
    let i = index_of(mux.backends, id)->0;
    let queue = mux.backends[i].queue->0;
    let later = delivered(mux, id, message);
    assert(flushed(id, queue.push(message)) =~= flushed(id, queue) + seq![
        ActionModel::ToBackend { backend: id, message },
    ]);
    assert(on_handshake(later.mux, i, v).actions.take((queue.len() + 2) as int) =~= seq![
        ActionModel::ToBackend { backend: id, message: initialized_message() },
    ] + flushed(id, queue) + seq![ActionModel::ToBackend { backend: id, message }]);
}

/// A backend that is ready gets what is meant for it at once, and nothing is kept.
pub proof fn law_ready_is_direct(mux: MuxModel, id: usize, message: Seq<char>)
    requires
        index_of(mux.backends, id) is Some,
        mux.backends[index_of(mux.backends, id)->0].queue is None,
    ensures
        delivered(mux, id, message) == (StepModel {
            mux,
            actions: seq![ActionModel::ToBackend { backend: id, message }],
        }),
{
    lemma_index_of(mux.backends, id);
    let i = index_of(mux.backends, id)->0;
    assert(mux.backends.update(i, mux.backends[i]) =~= mux.backends);
}

/// Only the primary backend's `initialize` result reaches the editor, under the editor's id.
pub proof fn law_primary_answers_initialize(mux: MuxModel, i: int, v: JsonModel, id: JsonModel)
    requires
        0 <= i < mux.backends.len(),
        mux.editor_initialize_id == Some(id),
    ensures
        ({
            let actions = on_handshake(mux, i, v).actions;
            &&& mux.backends[i].is_primary ==> actions.last() == ActionModel::ToEditor(
                with_id(v, id),
            )
            &&& !mux.backends[i].is_primary ==> forall|k: int|
                0 <= k < actions.len() ==> (#[trigger] actions[k]) is ToBackend
        }),
{
}

/// A backend for which no process could be started leaves no trace but the ids it used up
/// and the settings that were looked at.
pub proof fn law_failed_start_leaves_no_trace(mux: MuxModel, disk: DiskModel, scope: ScopeModel)
    requires
        orderly(mux),
        ids_left(mux),
    ensures
        ({
            let up = spawned(mux, disk, scope).mux;
            on_start_failed(up, mux.next_backend) == (MuxModel {
                layer: up.layer,
                next_id: up.next_id,
                next_backend: up.next_backend,
                ..mux
            })
        }),
{
    let up = spawned(mux, disk, scope).mux;
    assert(index_of(up.backends, mux.next_backend) == Some(mux.backends.len() as int));
    assert(up.backends.remove(mux.backends.len() as int) =~= mux.backends);
    if mux.primary == Some(mux.next_backend) {
        let i = choose|i: int|
            0 <= i < mux.backends.len() && (#[trigger] mux.backends[i]).id == mux.next_backend;
        assert(mux.backends[i].id < mux.next_backend);
    }
}

// ---- Settings ------------------------------------------------------------------

/// Settings only ever reach a server as `initializationOptions`: laid over the editor's own,
/// and with every other parameter as the editor gave it.
pub proof fn law_settings_are_options(params: JsonModel, settings: JsonModel, key: Seq<char>)
    requires
        params is Object,
    ensures
        settings is Null ==> scoped_params(Some(params), settings) == params,
        key != "initializationOptions"@ ==> scoped_params(Some(params), settings).get(key)
            == params.get(key),
        !(settings is Null) ==> scoped_params(Some(params), settings).get(
            "initializationOptions"@,
        ) == Some(
            merged(
                match params.get("initializationOptions"@) {
                    Some(options) => options,
                    None => JsonModel::Null,
                },
                settings,
            ),
        ),
{
}

/// A `shutdown` with no backend left is answered at once.
pub proof fn law_lonely_shutdown(mux: MuxModel, id: JsonModel)
    requires
        mux.backends.len() == 0,
    ensures
        on_shutdown(mux, id) == (StepModel {
            mux,
            actions: seq![ActionModel::ToEditor(framed_value(empty_reply(id)))],
        }),
{
}

// ---- What has to be known of the disk ------------------------------------------

/// `dir` is `path` or a directory above it.
pub open spec fn at_or_above(path: Seq<Seq<char>>, dir: Seq<Seq<char>>) -> bool
    decreases path.len(),
{
    path == dir || match parent(path) {
        Some(up) => up.len() < path.len() && at_or_above(up, dir),
        None => false,
    }
}

/// Two disks are alike at a directory.
pub open spec fn alike_at(a: DiskModel, b: DiskModel, dir: Seq<Seq<char>>) -> bool {
    &&& a.dirs.contains(dir) == b.dirs.contains(dir)
    &&& a.configs.dom().contains(dir) == b.configs.dom().contains(dir)
    &&& a.configs.dom().contains(dir) ==> a.configs[dir] == b.configs[dir]
}

/// Two disks are alike at a path and at everything above it.
pub open spec fn alike_up(a: DiskModel, b: DiskModel, path: Seq<Seq<char>>) -> bool {
    forall|dir: Seq<Seq<char>>| #[trigger] at_or_above(path, dir) ==> alike_at(a, b, dir)
}

proof fn lemma_above_transitive(
    path: Seq<Seq<char>>,
    dir: Seq<Seq<char>>,
    top: Seq<Seq<char>>,
)
    requires
        at_or_above(path, dir),
        at_or_above(dir, top),
    ensures
        at_or_above(path, top),
    decreases path.len(),
{
    if path != dir {
        lemma_above_transitive(parent(path)->0, dir, top);
    }
}

proof fn lemma_alike_above(
    a: DiskModel,
    b: DiskModel,
    path: Seq<Seq<char>>,
    dir: Seq<Seq<char>>,
)
    requires
        alike_up(a, b, path),
        at_or_above(path, dir),
    ensures
        alike_up(a, b, dir),
{
    assert forall|top: Seq<Seq<char>>| #[trigger] at_or_above(dir, top) implies alike_at(
        a,
        b,
        top,
    ) by {
        lemma_above_transitive(path, dir, top);
    }
}

proof fn lemma_layered_alike(
    a: DiskModel,
    b: DiskModel,
    dir: Seq<Seq<char>>,
    server_id: Seq<char>,
)
    requires
        alike_up(a, b, dir),
    ensures
        layered(a, dir, server_id) == layered(b, dir, server_id),
    decreases dir.len(),
{
    assert(at_or_above(dir, dir));
    if let Some(up) = parent(dir) {
        assert(at_or_above(up, up));
        assert(at_or_above(dir, up));
        lemma_alike_above(a, b, dir, up);
        lemma_layered_alike(a, b, up, server_id);
    }
}

proof fn lemma_settings_alike(
    layer: LayerModel,
    a: DiskModel,
    b: DiskModel,
    dir: Seq<Seq<char>>,
)
    requires
        alike_up(a, b, dir),
    ensures
        settings_for(layer, a, dir) == settings_for(layer, b, dir),
        asked(layer, a, dir) == asked(layer, b, dir),
{
    if let Some(id) = layer.server_id {
        lemma_layered_alike(a, b, dir, id);
    }
}

proof fn lemma_nearest_alike(
    a: DiskModel,
    b: DiskModel,
    dir: Seq<Seq<char>>,
    base: Seq<Seq<char>>,
)
    requires
        alike_up(a, b, dir),
    ensures
        nearest_config(a, dir, base) == nearest_config(b, dir, base),
        nearest_config(a, dir, base) matches Some(found) ==> at_or_above(dir, found),
    decreases dir.len(),
{
    assert(at_or_above(dir, dir));
    if let Some(up) = parent(dir) {
        assert(at_or_above(up, up));
        assert(at_or_above(dir, up));
        lemma_alike_above(a, b, dir, up);
        lemma_nearest_alike(a, b, up, base);
    }
}

/// The scope of a document depends on the disk at the document, at the workspace roots and
/// above them alone; a scope of its own lies at or above the document.
proof fn lemma_scope_alike(
    layer: LayerModel,
    a: DiskModel,
    b: DiskModel,
    roots: Seq<Seq<Seq<char>>>,
    uri: Seq<char>,
    windows: bool,
)
    requires
        path_of_uri(uri, windows) matches Some(path) ==> alike_up(a, b, components_on(path, windows)),
        forall|i: int| 0 <= i < roots.len() ==> alike_up(a, b, #[trigger] roots[i]),
    ensures
        scope_of(layer, a, roots, uri, windows) == scope_of(layer, b, roots, uri, windows),
        layer_after_scope(layer, a, roots, uri, windows) == layer_after_scope(
            layer,
            b,
            roots,
            uri,
            windows,
        ),
        scope_of(layer, a, roots, uri, windows) matches ScopeModel::Dir(dir) ==> alike_up(
            a,
            b,
            dir,
        ),
{
    if let Some(text) = path_of_uri(uri, windows) {
        let path = components_on(text, windows);
        assert(at_or_above(path, path));
        let start = start_dir(a, path);
        assert(start == start_dir(b, path));
        if let Some(up) = parent(path) {
            assert(at_or_above(up, up));
            assert(at_or_above(path, up));
        }
        lemma_alike_above(a, b, path, start);
        if let Some(base) = deepest_root(roots, start) {
            lemma_deepest_root(roots, start);
            let i = choose|i: int| 0 <= i < roots.len() && roots[i] == base;
            assert(alike_up(a, b, roots[i]));
            lemma_nearest_alike(a, b, start, base);
            if let Some(dir) = nearest_config(a, start, base) {
                lemma_alike_above(a, b, start, dir);
                assert(alike_up(a, b, roots[0]));
                lemma_settings_alike(layer, a, b, dir);
                lemma_settings_alike(layer, a, b, roots[0]);
                lemma_settings_alike(asked(layer, a, dir), a, b, roots[0]);
            }
        }
    }
}

proof fn lemma_ensured_alike(mux: MuxModel, a: DiskModel, b: DiskModel, scope: ScopeModel)
    requires
        scope matches ScopeModel::Dir(dir) ==> alike_up(a, b, dir),
        mux.roots.len() > 0 ==> alike_up(a, b, mux.roots[0]),
    ensures
        ensured(mux, a, scope) == ensured(mux, b, scope),
{
    if let Some(dir) = scope_dir(mux, scope) {
        lemma_settings_alike(mux.layer, a, b, dir);
    }
}

/// What a message from the editor does depends on the disk at the paths that it brings into
/// play and above them, and on nothing else.
pub proof fn law_disk_of_interest(mux: MuxModel, a: DiskModel, b: DiskModel, raw: Seq<char>)
    requires
        forall|i: int|
            0 <= i < interest(mux, raw).len() ==> alike_up(a, b, #[trigger] interest(mux, raw)[i]),
    ensures
        on_editor(mux, a, raw) == on_editor(mux, b, raw),
{
    if let Some(v) = message_value(raw) {
        let noted = MuxModel {
            pending: crate::pipeline::ids_after_outgoing(mux.pending, raw),
            ..mux
        };
        let paths = interest(mux, raw);
        assert forall|i: int| 0 <= i < mux.roots.len() implies alike_up(
            a,
            b,
            #[trigger] mux.roots[i],
        ) by {
            assert(paths[i] == mux.roots[i]);
        }
        let fresh = new_roots(v, mux.windows);
        assert forall|i: int| 0 <= i < fresh.len() implies alike_up(a, b, #[trigger] fresh[i]) by {
            assert(paths[mux.roots.len() + document_path(v, mux.windows).len() + i] == fresh[i]);
        }
        if let Some(uri) = document_uri(v) {
            if let Some(path) = path_of_uri(uri, mux.windows) {
                assert(paths[mux.roots.len() as int] == components_on(path, mux.windows));
            }
            lemma_scope_alike(noted.layer, a, b, noted.roots, uri, mux.windows);
        }
        let scope = message_scope(noted, a, v);
        assert(scope == message_scope(noted, b, v));
        let start = scope_asked(noted, a, v);
        assert(start == scope_asked(noted, b, v));
        if mux.roots.len() > 0 {
            assert(alike_up(a, b, mux.roots[0]));
        }
        lemma_ensured_alike(start, a, b, scope);
        if let (Some(method), Some(id)) = (v.get_str("method"@), v.get("id"@)) {
            if method == "initialize"@ {
                let kept = MuxModel {
                    init_params: v.get("params"@),
                    roots: match v.get("params"@) {
                        Some(params) => roots_of(params, mux.windows),
                        None => seq![],
                    },
                    editor_initialize_id: Some(id),
                    ..noted
                };
                assert(kept.roots == fresh);
                if fresh.len() > 0 {
                    assert(alike_up(a, b, fresh[0]));
                }
                lemma_ensured_alike(kept, a, b, ScopeModel::Default);
            }
        }
    }
}

} // verus!
