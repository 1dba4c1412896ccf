//! Where each message goes: which backends, or the editor, get which text, how often and in
//! what order, and what the multiplexer remembers of it.
use vstd::prelude::*;

use crate::config_layer::{settings_for, DiskModel};
use crate::json::{int_model, json_text, JsonModel};
use crate::lsp::framed;
use crate::mux::fresh_mux;
use crate::mux_laws::{ids_given, ids_left, lemma_backend_for, lemma_index_of, orderly};
use crate::mux_model::{
    backend_for, broadcasted, delivered, empty_reply, ensured, ensured_id, flushed, index_of,
    initialize_request, initialized_message, on_backend, on_editor, on_start_failed, queued, routed,
    scope_asked, scope_dir, scope_settings, scoped_params, sent, sent_to_all, shutdown_one,
    shutdown_request, shutdown_some, ActionModel, BackendModel, MuxModel, ServerReqModel, StepModel,
};
use crate::pipeline::{claimed_id, ids_after_outgoing, message_value};
use crate::scope::{document_uri, roots_of, scope_of, ScopeModel};
use crate::text::trim;

verus! {

// ---- The start -----------------------------------------------------------------

/// Before the first message there is no backend and nothing is awaited or known, and no
/// directory was asked about; a server id that is blank is none.
pub proof fn law_start(
    server_path: Seq<char>,
    args: Seq<Seq<char>>,
    server_id: Option<Seq<char>>,
    windows: bool,
)
    ensures
        ({
            let mux = fresh_mux(server_path, args, server_id, windows);
            &&& mux.server_path == server_path
            &&& mux.args == args
            &&& mux.windows == windows
            &&& mux.backends.len() == 0
            &&& mux.primary is None
            &&& mux.pending == Set::<i64>::empty()
            &&& mux.editor_reqs == Map::<i64, JsonModel>::empty()
            &&& mux.server_reqs == Map::<i64, ServerReqModel>::empty()
            &&& mux.swallow == Set::<i64>::empty()
            &&& mux.roots.len() == 0
            &&& mux.init_params is None
            &&& mux.editor_initialize_id is None
            &&& mux.layer.cache == Map::<Seq<Seq<char>>, JsonModel>::empty()
            &&& server_id is None ==> mux.layer.server_id is None
            &&& server_id matches Some(id) ==> mux.layer.server_id == (if trim(id).len() > 0 {
                Some(id)
            } else {
                None
            })
        }),
{
}

// ---- What a backend is handed --------------------------------------------------

/// The messages that some actions send to a backend, in their order.
pub open spec fn sent_to(actions: Seq<ActionModel>, id: usize) -> Seq<Seq<char>>
    decreases actions.len(),
{
    if actions.len() == 0 {
        seq![]
    } else {
        let before = sent_to(actions.drop_last(), id);
        match actions.last() {
            ActionModel::ToBackend { backend, message } => if backend == id {
                before.push(message)
            } else {
                before
            },
            _ => before,
        }
    }
}

/// A backend is handed a message, exactly once: at once where it is ready, and at the end of
/// its queue where it is still initializing. Nothing else of it changes.
pub open spec fn handed_over(
    before: BackendModel,
    after: BackendModel,
    actions: Seq<ActionModel>,
    message: Seq<char>,
) -> bool {
    match before.queue {
        None => after == before && sent_to(actions, before.id) == seq![message],
        Some(queue) => after == (BackendModel { queue: Some(queue.push(message)), ..before })
            && sent_to(actions, before.id).len() == 0,
    }
}

/// A backend is left alone.
pub open spec fn left_alone(
    before: BackendModel,
    after: BackendModel,
    actions: Seq<ActionModel>,
) -> bool {
    after == before && sent_to(actions, before.id).len() == 0
}

proof fn lemma_sent_to_sum(a: Seq<ActionModel>, b: Seq<ActionModel>, id: usize)
    ensures
        sent_to(a + b, id) == sent_to(a, id) + sent_to(b, id),
    decreases b.len(),
{
    if b.len() == 0 {
        assert(a + b =~= a);
        assert(sent_to(b, id) =~= seq![]);
        assert(sent_to(a, id) + sent_to(b, id) =~= sent_to(a, id));
    } else {
        assert((a + b).drop_last() =~= a + b.drop_last());
        assert((a + b).last() == b.last());
        lemma_sent_to_sum(a, b.drop_last(), id);
        assert(sent_to(a + b, id) =~= sent_to(a, id) + sent_to(b, id));
    }
}

proof fn lemma_sent_to_one(action: ActionModel, id: usize)
    ensures
        sent_to(seq![action], id) == (match action {
            ActionModel::ToBackend { backend, message } => if backend == id {
                seq![message]
            } else {
                seq![]
            },
            _ => seq![],
        }),
        sent_to(seq![], id) == Seq::<Seq<char>>::empty(),
{
    let one = seq![action];
    reveal_with_fuel(sent_to, 2);
    assert(one.drop_last() =~= seq![]);
    assert(one.last() == action);
    assert(Seq::<Seq<char>>::empty().push(action->ToBackend_message) =~= seq![
        action->ToBackend_message,
    ]);
}

proof fn lemma_sent(backend: BackendModel, message: Seq<char>, id: usize)
    ensures
        sent_to(sent(backend, message), id) == (if backend.queue is None && backend.id == id {
            seq![message]
        } else {
            seq![]
        }),
{
    lemma_sent_to_one(ActionModel::ToBackend { backend: backend.id, message }, id);
}

/// Numbers tell backends apart.
spec fn numbers_apart(backends: Seq<BackendModel>) -> bool {
    forall|i: int, j: int|
        0 <= i < backends.len() && 0 <= j < backends.len() && i != j ==> (
        #[trigger] backends[i]).id != (#[trigger] backends[j]).id
}

proof fn lemma_found(backends: Seq<BackendModel>, i: int)
    requires
        numbers_apart(backends),
        0 <= i < backends.len(),
    ensures
        index_of(backends, backends[i].id) == Some(i),
{
    lemma_index_of(backends, backends[i].id);
    let k = index_of(backends, backends[i].id);
    if k is Some && k->0 != i {
        assert(backends[k->0].id != backends[i].id);
    }
}

// ---- Notifications of the editor -----------------------------------------------

proof fn lemma_sent_to_all(backends: Seq<BackendModel>, message: Seq<char>, n: int, id: usize)
    requires
        numbers_apart(backends),
        0 <= n <= backends.len(),
    ensures
        forall|i: int|
            0 <= i < n && (#[trigger] backends[i]).id == id && backends[i].queue is None
                ==> sent_to(sent_to_all(backends.take(n), message), id) == seq![message],
        (forall|i: int|
            0 <= i < n && (#[trigger] backends[i]).id == id ==> backends[i].queue is Some)
            ==> sent_to(sent_to_all(backends.take(n), message), id).len() == 0,
        forall|k: int|
            0 <= k < sent_to_all(backends.take(n), message).len() ==> (
            #[trigger] sent_to_all(backends.take(n), message)[k]) is ToBackend,
    decreases n,
{
    let some = backends.take(n);
    if n == 0 {
        assert(sent_to(sent_to_all(some, message), id) =~= seq![]);
    } else {
        lemma_sent_to_all(backends, message, n - 1, id);
        assert(some.drop_last() =~= backends.take(n - 1));
        assert(some.last() == backends[n - 1]);
        let before = sent_to_all(backends.take(n - 1), message);
        let last = sent(backends[n - 1], message);
        lemma_sent_to_sum(before, last, id);
        lemma_sent(backends[n - 1], message, id);
        if backends[n - 1].id == id {
            assert forall|i: int| 0 <= i < n - 1 implies (#[trigger] backends[i]).id != id by {}
            assert(sent_to(before, id) =~= seq![]);
            assert(seq![] + seq![message] =~= seq![message]);
        } else {
            assert(sent_to(before, id) + seq![] =~= sent_to(before, id));
        }
        if forall|i: int|
            0 <= i < n && (#[trigger] backends[i]).id == id ==> backends[i].queue is Some {
            assert(sent_to(before, id).len() == 0);
        }
    }
}

/// What is no request leaves the ids of awaited responses as they were.
proof fn lemma_nothing_awaited(ids: Set<i64>, raw: Seq<char>, v: JsonModel)
    requires
        message_value(raw) == Some(v),
        v.get("id"@) is None || v.get_str("method"@) is None,
    ensures
        ids_after_outgoing(ids, raw) == ids,
{
}

/// A notification that is about no document, and `exit` whatever it is about, goes to every
/// backend as it is, exactly once to each; nothing is started, nothing goes to the editor, and
/// nothing else of the state changes.
pub proof fn law_notification_for_all(
    mux: MuxModel,
    disk: DiskModel,
    raw: Seq<char>,
    v: JsonModel,
    method: Seq<char>,
)
    requires
        orderly(mux),
        message_value(raw) == Some(v),
        v.get("id"@) is None,
        v.get_str("method"@) == Some(method),
        method != "initialized"@,
        method == "exit"@ || document_uri(v) is None,
    ensures
        ({
            let step = on_editor(mux, disk, raw);
            &&& step.mux == (MuxModel { backends: step.mux.backends, ..mux })
            &&& step.mux.backends.len() == mux.backends.len()
            &&& forall|i: int|
                0 <= i < mux.backends.len() ==> handed_over(
                    #[trigger] mux.backends[i],
                    step.mux.backends[i],
                    step.actions,
                    raw,
                )
            &&& forall|k: int|
                0 <= k < step.actions.len() ==> (#[trigger] step.actions[k]) is ToBackend
            &&& forall|id: usize|
                (forall|i: int| 0 <= i < mux.backends.len() ==> (#[trigger] mux.backends[i]).id
                    != id) ==> (#[trigger] sent_to(step.actions, id)).len() == 0
        }),
{
    reveal_strlit("initialized");
    reveal_strlit("exit");
    lemma_nothing_awaited(mux.pending, raw, v);
    let step = on_editor(mux, disk, raw);
    let backends = mux.backends;
    assert(backends.take(backends.len() as int) =~= backends);
    assert(method != "initialized"@);
    assert(step == broadcasted(MuxModel { pending: mux.pending, ..mux }, raw));
    assert forall|i: int| 0 <= i < backends.len() implies handed_over(
        #[trigger] backends[i],
        step.mux.backends[i],
        step.actions,
        raw,
    ) by {
        lemma_sent_to_all(backends, raw, backends.len() as int, backends[i].id);
        assert forall|j: int|
            backends[i].queue is Some && 0 <= j < backends.len() && (#[trigger] backends[j]).id
                == backends[i].id implies backends[j].queue is Some by {
            assert(j == i);
        }
    }
    lemma_sent_to_all(backends, raw, backends.len() as int, 0);
    assert forall|id: usize|
        (forall|i: int| 0 <= i < mux.backends.len() ==> (#[trigger] mux.backends[i]).id
            != id) implies (#[trigger] sent_to(step.actions, id)).len() == 0 by {
        lemma_sent_to_all(backends, raw, backends.len() as int, id);
    }
}

/// The editor's `initialized` is kept from the backends, each of which gets its own when its
/// handshake is done; and what is no JSON, or neither asks, tells nor answers anything, does
/// nothing at all.
pub proof fn law_kept_from_the_backends(
    mux: MuxModel,
    disk: DiskModel,
    raw: Seq<char>,
    v: JsonModel,
)
    requires
        message_value(raw) is None || (message_value(raw) == Some(v) && v.get("id"@) is None && (
        v.get_str("method"@) is None || v.get_str("method"@) == Some("initialized"@))),
    ensures
        on_editor(mux, disk, raw).actions.len() == 0,
        on_editor(mux, disk, raw).mux == (MuxModel {
            pending: on_editor(mux, disk, raw).mux.pending,
            ..mux
        }),
        message_value(raw) is Some ==> on_editor(mux, disk, raw).mux == mux,
{
}

// ---- Messages for one scope ----------------------------------------------------

/// A backend is brought up for a scope: it is the only new one, it has the next number and the
/// next id, it is sent its `initialize` first, and what is meant for it waits in its queue. It
/// is the primary where it is the default one and there is no primary yet.
pub open spec fn brought_up(
    mux: MuxModel,
    disk: DiskModel,
    step: StepModel,
    scope: ScopeModel,
    waiting: Seq<Seq<char>>,
) -> bool {
    let new = step.mux.backends.last();
    &&& step.mux.backends == mux.backends.push(new)
    &&& new.id == mux.next_backend
    &&& new.scope == scope
    &&& new.queue == Some(waiting)
    &&& new.init_id == mux.next_id
    &&& new.is_primary == (mux.primary is None && scope is Default)
    &&& new.params == scoped_params(mux.init_params, scope_settings(mux, disk, scope))
    &&& step.mux.primary == (if new.is_primary {
        Some(new.id)
    } else {
        mux.primary
    })
    &&& step.mux.next_backend == mux.next_backend + 1
    &&& step.actions == seq![
        ActionModel::Start {
            backend: new.id,
            message: framed(json_text(initialize_request(new.init_id, new.params))),
        },
    ]
}

/// A message reaches the backend of a scope and no other. Where there is one, it is handed the
/// message; where there is none, one is brought up and the message waits for it.
pub open spec fn reaches(
    mux: MuxModel,
    disk: DiskModel,
    step: StepModel,
    scope: ScopeModel,
    message: Seq<char>,
) -> bool {
    &&& forall|i: int|
        0 <= i < mux.backends.len() && (#[trigger] mux.backends[i]).scope == scope ==> {
            &&& handed_over(mux.backends[i], step.mux.backends[i], step.actions, message)
            &&& step.mux.backends.len() == mux.backends.len()
            &&& step.mux.primary == mux.primary
            &&& step.mux.next_backend == mux.next_backend
        }
    &&& forall|i: int|
        0 <= i < mux.backends.len() && (#[trigger] mux.backends[i]).scope != scope ==> left_alone(
            mux.backends[i],
            step.mux.backends[i],
            step.actions,
        )
    &&& (exists|i: int| 0 <= i < mux.backends.len() && (#[trigger] mux.backends[i]).scope == scope)
        ==> forall|k: int|
        0 <= k < step.actions.len() ==> (#[trigger] step.actions[k]) is ToBackend
    &&& (forall|i: int| 0 <= i < mux.backends.len() ==> (#[trigger] mux.backends[i]).scope != scope)
        ==> brought_up(mux, disk, step, scope, seq![message])
}

/// Some backend has a scope.
pub open spec fn served(mux: MuxModel, scope: ScopeModel) -> bool {
    exists|i: int| 0 <= i < mux.backends.len() && (#[trigger] mux.backends[i]).scope == scope
}

/// What is delivered once there is a backend for a scope reaches it. `noted` is the state that
/// the backend was brought up in, with something noted in it besides.
proof fn lemma_reaches(
    start: MuxModel,
    disk: DiskModel,
    scope: ScopeModel,
    noted: MuxModel,
    message: Seq<char>,
)
    requires
        orderly(start),
        ids_left(start),
        ({
            let up = ensured(start, disk, scope).mux;
            &&& noted.backends == up.backends
            &&& noted.primary == up.primary
            &&& noted.next_backend == up.next_backend
        }),
    ensures
        ({
            let up = ensured(start, disk, scope);
            let last = delivered(noted, ensured_id(start, scope), message);
            &&& reaches(
                start,
                disk,
                StepModel { mux: last.mux, actions: up.actions + last.actions },
                scope,
                message,
            )
            &&& last.mux == (MuxModel { backends: last.mux.backends, ..noted })
            &&& (backend_for(start.backends, scope) is Some) == served(start, scope)
        }),
{
    let up = ensured(start, disk, scope);
    let id = ensured_id(start, scope);
    let last = delivered(noted, id, message);
    let step = StepModel { mux: last.mux, actions: up.actions + last.actions };
    let n = start.backends.len() as int;
    lemma_backend_for(start.backends, scope);
    if backend_for(start.backends, scope) is Some {
        let k = choose|k: int|
            0 <= k < n && (#[trigger] start.backends[k]).id == id && start.backends[k].scope
                == scope;
        lemma_found(start.backends, k);
        assert(up.actions + last.actions =~= last.actions);
        assert forall|i: int|
            0 <= i < n && (#[trigger] start.backends[i]).scope == scope implies handed_over(
            start.backends[i],
            step.mux.backends[i],
            step.actions,
            message,
        ) by {
            assert(i == k);
            lemma_sent(start.backends[k], message, id);
        }
        assert forall|i: int|
            0 <= i < n && (#[trigger] start.backends[i]).scope != scope implies left_alone(
            start.backends[i],
            step.mux.backends[i],
            step.actions,
        ) by {
            lemma_sent(start.backends[k], message, start.backends[i].id);
        }
        assert(served(start, scope));
    } else {
        let new = up.mux.backends[n];
        assert(numbers_apart(up.mux.backends)) by {
            assert forall|i: int, j: int|
                0 <= i <= n && 0 <= j <= n && i != j implies (#[trigger] up.mux.backends[i]).id
                != (#[trigger] up.mux.backends[j]).id by {
                if i < n {
                    assert(start.backends[i].id < start.next_backend);
                }
                if j < n {
                    assert(start.backends[j].id < start.next_backend);
                }
            }
        }
        lemma_found(up.mux.backends, n);
        assert(last.actions =~= seq![]);
        assert(up.actions + last.actions =~= up.actions);
        let queue = Seq::<Seq<char>>::empty();
        assert(queue.push(message) =~= seq![message]);
        assert(last.mux.backends =~= start.backends.push(last.mux.backends[n]));
        assert forall|i: int|
            0 <= i < n && (#[trigger] start.backends[i]).scope != scope implies left_alone(
            start.backends[i],
            step.mux.backends[i],
            step.actions,
        ) by {
            lemma_sent_to_one(step.actions[0], start.backends[i].id);
            assert(step.actions =~= seq![step.actions[0]]);
        }
    }
}

/// A notification about a document goes as it is to the backend of the document's scope and to
/// no other, whatever its method is but for `initialized` and `exit`.
pub proof fn law_notification_about_a_document(
    mux: MuxModel,
    disk: DiskModel,
    raw: Seq<char>,
    v: JsonModel,
    method: Seq<char>,
    uri: Seq<char>,
)
    requires
        orderly(mux),
        ids_left(mux),
        message_value(raw) == Some(v),
        v.get("id"@) is None,
        v.get_str("method"@) == Some(method),
        method != "initialized"@,
        method != "exit"@,
        document_uri(v) == Some(uri),
    ensures
        ({
            let step = on_editor(mux, disk, raw);
            let scope = scope_of(mux.layer, disk, mux.roots, uri, mux.windows);
            &&& reaches(scope_asked(mux, disk, v), disk, step, scope, raw)
            &&& step.mux == (MuxModel {
                backends: step.mux.backends,
                layer: step.mux.layer,
                primary: step.mux.primary,
                next_backend: step.mux.next_backend,
                next_id: (mux.next_id + if served(mux, scope) {
                    0int
                } else {
                    1
                }) as i64,
                ..mux
            })
        }),
{
    lemma_nothing_awaited(mux.pending, raw, v);
    let start = scope_asked(mux, disk, v);
    assert(orderly(start) && ids_left(start));
    let scope = scope_of(mux.layer, disk, mux.roots, uri, mux.windows);
    lemma_reaches(start, disk, scope, ensured(start, disk, scope).mux, raw);
    assert(on_editor(mux, disk, raw) == routed(start, disk, scope, raw));
    assert(served(start, scope) == served(mux, scope));
}

/// A request that is not the multiplexer's own business goes to the backend of its document's
/// scope, or of the default scope where it has no document, and to no other: under a fresh id,
/// with all else as the editor wrote it. The editor's id is kept for the response.
pub proof fn law_request_to_its_scope(
    mux: MuxModel,
    disk: DiskModel,
    raw: Seq<char>,
    v: JsonModel,
    method: Seq<char>,
    id: JsonModel,
)
    requires
        orderly(mux),
        ids_left(mux),
        message_value(raw) == Some(v),
        v.get("id"@) == Some(id),
        v.get_str("method"@) == Some(method),
        method != "initialize"@,
        method != "shutdown"@,
    ensures
        ({
            let step = on_editor(mux, disk, raw);
            let scope = match document_uri(v) {
                Some(uri) => scope_of(mux.layer, disk, mux.roots, uri, mux.windows),
                None => ScopeModel::Default,
            };
            let our = (mux.next_id + if served(mux, scope) {
                0int
            } else {
                1
            }) as i64;
            &&& reaches(
                scope_asked(mux, disk, v),
                disk,
                step,
                scope,
                framed(json_text(v.with("id"@, int_model(our)))),
            )
            &&& step.mux == (MuxModel {
                backends: step.mux.backends,
                layer: step.mux.layer,
                primary: step.mux.primary,
                next_backend: step.mux.next_backend,
                next_id: (our + 1) as i64,
                editor_reqs: mux.editor_reqs.insert(our, id),
                pending: step.mux.pending,
                ..mux
            })
        }),
{
    let scope = match document_uri(v) {
        Some(uri) => scope_of(mux.layer, disk, mux.roots, uri, mux.windows),
        None => ScopeModel::Default,
    };
    let before = MuxModel { pending: ids_after_outgoing(mux.pending, raw), ..mux };
    let start = scope_asked(before, disk, v);
    assert(orderly(start) && ids_left(start));
    let up = ensured(start, disk, scope);
    let our = up.mux.next_id;
    let noted = MuxModel {
        next_id: (our + 1) as i64,
        editor_reqs: up.mux.editor_reqs.insert(our, id),
        ..up.mux
    };
    let message = framed(json_text(v.with("id"@, int_model(our))));
    lemma_reaches(start, disk, scope, noted, message);
    let asked = scope_asked(mux, disk, v);
    let last = delivered(noted, ensured_id(start, scope), message);
    let step = on_editor(mux, disk, raw);
    assert(step == StepModel { mux: last.mux, actions: up.actions + last.actions });
    assert(served(start, scope) == served(mux, scope));
    assert(scope_settings(start, disk, scope) == scope_settings(asked, disk, scope));
    assert(start.backends == asked.backends);
}

/// What was found out of the settings, to tell the scope of a document, stands for the rest of
/// the session: the scope's directory and the first root have been asked about, and whatever
/// was known before still is.
pub proof fn law_settings_are_kept(
    mux: MuxModel,
    disk: DiskModel,
    raw: Seq<char>,
    v: JsonModel,
    method: Seq<char>,
    uri: Seq<char>,
    dir: Seq<Seq<char>>,
    known: Seq<Seq<char>>,
)
    requires
        mux.layer.server_id is Some,
        message_value(raw) == Some(v),
        v.get_str("method"@) == Some(method),
        method != "initialize"@,
        method != "initialized"@,
        method != "shutdown"@,
        method != "exit"@,
        document_uri(v) == Some(uri),
        scope_of(mux.layer, disk, mux.roots, uri, mux.windows) == ScopeModel::Dir(dir),
    ensures
        ({
            let cache = on_editor(mux, disk, raw).mux.layer.cache;
            &&& cache.dom().contains(dir) && cache[dir] == settings_for(mux.layer, disk, dir)
            &&& cache.dom().contains(mux.roots[0]) && cache[mux.roots[0]] == settings_for(
                mux.layer,
                disk,
                mux.roots[0],
            )
            &&& mux.layer.cache.dom().contains(known) ==> cache.dom().contains(known)
                && cache[known] == mux.layer.cache[known]
            &&& !mux.layer.cache.dom().contains(known) && known != dir && known != mux.roots[0]
                ==> !cache.dom().contains(known)
        }),
{
    let before = MuxModel { pending: ids_after_outgoing(mux.pending, raw), ..mux };
    let start = scope_asked(before, disk, v);
    let scope = ScopeModel::Dir(dir);
    let up = ensured(start, disk, scope);
    lemma_index_of(up.mux.backends, ensured_id(start, scope));
}

/// The editor's `initialize`: its params, the roots they name and its id are kept, and the
/// default backend is brought up with nothing waiting for it, unless there is one already.
/// Nothing goes to the editor yet.
pub proof fn law_initialize(
    mux: MuxModel,
    disk: DiskModel,
    raw: Seq<char>,
    v: JsonModel,
    id: JsonModel,
)
    requires
        orderly(mux),
        ids_left(mux),
        message_value(raw) == Some(v),
        v.get("id"@) == Some(id),
        v.get_str("method"@) == Some("initialize"@),
    ensures
        ({
            let step = on_editor(mux, disk, raw);
            let told = MuxModel {
                init_params: v.get("params"@),
                roots: match v.get("params"@) {
                    Some(params) => roots_of(params, mux.windows),
                    None => seq![],
                },
                editor_initialize_id: Some(id),
                pending: step.mux.pending,
                ..mux
            };
            &&& served(mux, ScopeModel::Default) ==> step.mux == told && step.actions.len() == 0
            &&& !served(mux, ScopeModel::Default) ==> brought_up(
                told,
                disk,
                step,
                ScopeModel::Default,
                seq![],
            ) && step.mux == (MuxModel {
                backends: step.mux.backends,
                layer: step.mux.layer,
                primary: step.mux.primary,
                next_backend: step.mux.next_backend,
                next_id: (mux.next_id + 1) as i64,
                ..told
            })
        }),
{
    lemma_backend_for(mux.backends, ScopeModel::Default);
    let step = on_editor(mux, disk, raw);
    if backend_for(mux.backends, ScopeModel::Default) is Some {
        assert(served(mux, ScopeModel::Default));
    } else {
        assert(step.mux.backends.last() == step.mux.backends[mux.backends.len() as int]);
    }
}

/// What a backend's `initialize` says: the protocol version, the id under which its response
/// is awaited, the method and the params.
pub proof fn law_initialize_request(id: i64, params: JsonModel, key: Seq<char>)
    ensures
        initialize_request(id, params) is Object,
        initialize_request(id, params).get("jsonrpc"@) == Some(JsonModel::Str("2.0"@)),
        initialize_request(id, params).get("id"@) == Some(int_model(id)),
        initialize_request(id, params).get("method"@) == Some(JsonModel::Str("initialize"@)),
        initialize_request(id, params).get("params"@) == Some(params),
        key != "jsonrpc"@ && key != "id"@ && key != "method"@ && key != "params"@
            ==> initialize_request(id, params).get(key) is None,
{
    reveal_strlit("jsonrpc");
    reveal_strlit("id");
    reveal_strlit("method");
    reveal_strlit("params");
    assert("jsonrpc"@.len() == 7 && "id"@.len() == 2 && "method"@.len() == 6);
    assert("params"@.len() == 6 && "params"@[0] != "method"@[0]);
}

/// The params of a backend's `initialize` are the editor's, whole, where its scope has no
/// settings; with settings, everything but the `initializationOptions` is the editor's, and
/// without params of the editor's there is nothing besides.
pub proof fn law_params_are_the_editors(params: JsonModel, settings: JsonModel, key: Seq<char>)
    ensures
        scoped_params(Some(params), JsonModel::Null) == params,
        scoped_params(None, JsonModel::Null) == JsonModel::Object(Map::empty()),
        key != "initializationOptions"@ ==> scoped_params(Some(params), settings).get(key)
            == params.get(key),
        key != "initializationOptions"@ ==> scoped_params(None, settings).get(key) is None,
{
}

/// A scope has the settings of its directory, and the default one those of the first root; a
/// workspace without roots has no settings.
pub proof fn law_directory_of_a_scope(mux: MuxModel, disk: DiskModel, dir: Seq<Seq<char>>)
    ensures
        scope_dir(mux, ScopeModel::Dir(dir)) == Some(dir),
        mux.roots.len() > 0 ==> scope_dir(mux, ScopeModel::Default) == Some(mux.roots[0]),
        mux.roots.len() == 0 ==> scope_dir(mux, ScopeModel::Default) is None,
        scope_settings(mux, disk, ScopeModel::Dir(dir)) == settings_for(mux.layer, disk, dir),
        mux.roots.len() > 0 ==> scope_settings(mux, disk, ScopeModel::Default) == settings_for(
            mux.layer,
            disk,
            mux.roots[0],
        ),
        mux.roots.len() == 0 ==> scope_settings(mux, disk, ScopeModel::Default) is Null,
{
}

/// To tell the scope of a message changes nothing but what is known of the settings, and that
/// only where the message is about a document.
pub proof fn law_telling_the_scope(mux: MuxModel, disk: DiskModel, v: JsonModel)
    ensures
        scope_asked(mux, disk, v) == (MuxModel {
            layer: scope_asked(mux, disk, v).layer,
            ..mux
        }),
        scope_asked(mux, disk, v).layer.server_id == mux.layer.server_id,
        document_uri(v) is None ==> scope_asked(mux, disk, v) == mux,
{
}

// ---- Shutdown ------------------------------------------------------------------

/// A `shutdown` without a backend is answered at once, under the editor's id, with a null
/// result.
pub proof fn law_shutdown_without_backends(
    mux: MuxModel,
    disk: DiskModel,
    raw: Seq<char>,
    v: JsonModel,
    id: JsonModel,
)
    requires
        mux.backends.len() == 0,
        message_value(raw) == Some(v),
        v.get("id"@) == Some(id),
        v.get_str("method"@) == Some("shutdown"@),
    ensures
        on_editor(mux, disk, raw).mux == (MuxModel {
            pending: on_editor(mux, disk, raw).mux.pending,
            ..mux
        }),
        on_editor(mux, disk, raw).actions == seq![
            ActionModel::ToEditor(framed(json_text(empty_reply(id)))),
        ],
        empty_reply(id).get("jsonrpc"@) == Some(JsonModel::Str("2.0"@)),
        empty_reply(id).get("id"@) == Some(id),
        empty_reply(id).get("result"@) == Some(JsonModel::Null),
{
    reveal_strlit("jsonrpc");
    reveal_strlit("id");
    reveal_strlit("result");
    reveal_strlit("initialize");
    reveal_strlit("shutdown");
    assert("initialize"@.len() == 10 && "shutdown"@.len() == 8);
    assert("jsonrpc"@.len() == 7 && "id"@.len() == 2 && "result"@.len() == 6);
}

/// What a backend's `shutdown` says.
pub proof fn law_shutdown_request(id: i64, key: Seq<char>)
    ensures
        shutdown_request(id) is Object,
        shutdown_request(id).get("jsonrpc"@) == Some(JsonModel::Str("2.0"@)),
        shutdown_request(id).get("id"@) == Some(int_model(id)),
        shutdown_request(id).get("method"@) == Some(JsonModel::Str("shutdown"@)),
        key != "jsonrpc"@ && key != "id"@ && key != "method"@ ==> shutdown_request(id).get(
            key,
        ) is None,
{
    reveal_strlit("jsonrpc");
    reveal_strlit("id");
    reveal_strlit("method");
    assert("jsonrpc"@.len() == 7 && "id"@.len() == 2 && "method"@.len() == 6);
}

/// The `shutdown` that the backend at a place gets.
pub open spec fn shutdown_for(mux: MuxModel, i: int) -> Seq<char> {
    framed(json_text(shutdown_request((mux.next_id + i) as i64)))
}

/// What is noted under an id when the first `n` backends are asked to shut down: the primary's
/// response is the editor's, those of the others are dropped, and nothing else changes.
spec fn noted_under(mux: MuxModel, now: MuxModel, id: JsonModel, n: int, our: i64) -> bool {
    if mux.next_id <= our < mux.next_id + n {
        let backend = mux.backends[our - mux.next_id];
        &&& now.editor_reqs.dom().contains(our) == backend.is_primary
        &&& backend.is_primary ==> now.editor_reqs[our] == id
        &&& now.swallow.contains(our) == !backend.is_primary
    } else {
        &&& now.editor_reqs.dom().contains(our) == mux.editor_reqs.dom().contains(our)
        &&& mux.editor_reqs.dom().contains(our) ==> now.editor_reqs[our] == mux.editor_reqs[our]
        &&& now.swallow.contains(our) == mux.swallow.contains(our)
    }
}

/// What is noted when the first `n` backends are asked to shut down.
spec fn stop_noted(mux: MuxModel, now: MuxModel, id: JsonModel, n: int) -> bool {
    forall|our: i64| #[trigger] noted_under(mux, now, id, n, our)
}

proof fn lemma_one_more_noted(
    mux: MuxModel,
    before: MuxModel,
    now: MuxModel,
    id: JsonModel,
    n: int,
)
    requires
        ids_given(mux),
        0 <= n < mux.backends.len(),
        mux.next_id + n < i64::MAX,
        stop_noted(mux, before, id, n),
        ({
            let our = (mux.next_id + n) as i64;
            if mux.backends[n].is_primary {
                now.editor_reqs == before.editor_reqs.insert(our, id) && now.swallow
                    == before.swallow
            } else {
                now.swallow == before.swallow.insert(our) && now.editor_reqs == before.editor_reqs
            }
        }),
    ensures
        stop_noted(mux, now, id, n + 1),
{
    let fresh = (mux.next_id + n) as i64;
    assert forall|our: i64| #[trigger] noted_under(mux, now, id, n + 1, our) by {
        assert(noted_under(mux, before, id, n, our));
        if our == fresh {
            assert(!mux.editor_reqs.dom().contains(our) && !mux.swallow.contains(our));
            assert(mux.backends[our - mux.next_id] == mux.backends[n]);
        }
    }
}

/// The first `n` backends were asked to shut down: `step` is what that does.
spec fn asked_to_stop(mux: MuxModel, step: StepModel, id: JsonModel, n: int) -> bool {
    let b = step.mux.backends;
    &&& b.len() == mux.backends.len()
    &&& step.mux.next_id == mux.next_id + n
    &&& step.mux == (MuxModel {
        backends: b,
        next_id: step.mux.next_id,
        editor_reqs: step.mux.editor_reqs,
        swallow: step.mux.swallow,
        ..mux
    })
    &&& forall|i: int|
        0 <= i < n ==> handed_over(
            #[trigger] mux.backends[i],
            b[i],
            step.actions,
            shutdown_for(mux, i),
        )
    &&& forall|i: int|
        n <= i < mux.backends.len() ==> left_alone(#[trigger] mux.backends[i], b[i], step.actions)
    &&& forall|k: int| 0 <= k < step.actions.len() ==> (#[trigger] step.actions[k]) is ToBackend
    &&& stop_noted(mux, step.mux, id, n)
}

#[verifier::spinoff_prover]
proof fn lemma_shutdown_prefix(mux: MuxModel, id: JsonModel, n: int)
    requires
        orderly(mux),
        ids_left(mux),
        0 <= n <= mux.backends.len(),
    ensures
        asked_to_stop(mux, shutdown_some(mux, mux.backends.take(n), id), id, n),
    decreases n,
{
    let some = mux.backends.take(n);
    let step = shutdown_some(mux, some, id);
    if n == 0 {
        assert forall|i: int| 0 <= i < mux.backends.len() implies left_alone(
            #[trigger] mux.backends[i],
            step.mux.backends[i],
            step.actions,
        ) by {
            assert(sent_to(step.actions, mux.backends[i].id) =~= seq![]);
        }
        assert(stop_noted(mux, step.mux, id, n));
    } else {
        lemma_shutdown_prefix(mux, id, n - 1);
        assert(some.drop_last() =~= mux.backends.take(n - 1));
        assert(some.last() == mux.backends[n - 1]);
        let k = n - 1;
        let before = shutdown_some(mux, mux.backends.take(k), id);
        let backend = mux.backends[k];
        let our = before.mux.next_id;
        let last = shutdown_one(before.mux, backend, id);
        let b = before.mux.backends;
        assert(numbers_apart(b)) by {
            assert forall|i: int, j: int|
                0 <= i < b.len() && 0 <= j < b.len() && i != j implies (#[trigger] b[i]).id != (
            #[trigger] b[j]).id by {
                assert(mux.backends[i].id != mux.backends[j].id);
            }
        }
        assert(b[k] == backend);
        lemma_found(b, k);
        let message = shutdown_for(mux, k);
        assert(our == (mux.next_id + k) as i64);
        assert(last.actions == sent(backend, message));
        assert(last.mux.backends == b.update(k, queued(backend, message)));
        assert forall|i: int| 0 <= i < n implies handed_over(
            #[trigger] mux.backends[i],
            step.mux.backends[i],
            step.actions,
            shutdown_for(mux, i),
        ) by {
            let of = mux.backends[i].id;
            lemma_sent_to_sum(before.actions, last.actions, of);
            lemma_sent(backend, message, of);
            if i < k {
                assert(of != backend.id);
                assert(sent_to(before.actions, of) + seq![] =~= sent_to(before.actions, of));
            } else {
                assert(left_alone(mux.backends[k], b[k], before.actions));
                assert(sent_to(before.actions, of) =~= seq![]);
                assert(seq![] + seq![message] =~= seq![message]);
            }
        }
        assert forall|i: int| n <= i < mux.backends.len() implies left_alone(
            #[trigger] mux.backends[i],
            step.mux.backends[i],
            step.actions,
        ) by {
            let of = mux.backends[i].id;
            assert(left_alone(mux.backends[i], b[i], before.actions));
            lemma_sent_to_sum(before.actions, last.actions, of);
            lemma_sent(backend, message, of);
            assert(of != backend.id);
        }
        assert(step.actions == before.actions + last.actions);
        assert(step.mux == last.mux);
        assert forall|a: int| 0 <= a < step.actions.len() implies (
        #[trigger] step.actions[a]) is ToBackend by {
            if a < before.actions.len() {
                assert(step.actions[a] == before.actions[a]);
            }
        }
        lemma_one_more_noted(mux, before.mux, step.mux, id, k);
    }
}

/// The editor's `shutdown` with backends: each is handed a `shutdown` of its own, exactly once,
/// under ids that follow one another. The primary's response will go to the editor, under the
/// editor's id; those of the others will be dropped.
pub proof fn law_shutdown_of_all(
    mux: MuxModel,
    disk: DiskModel,
    raw: Seq<char>,
    v: JsonModel,
    id: JsonModel,
)
    requires
        orderly(mux),
        ids_left(mux),
        mux.backends.len() > 0,
        message_value(raw) == Some(v),
        v.get("id"@) == Some(id),
        v.get_str("method"@) == Some("shutdown"@),
    ensures
        ({
            let step = on_editor(mux, disk, raw);
            &&& step.mux.backends.len() == mux.backends.len()
            &&& forall|i: int|
                0 <= i < mux.backends.len() ==> {
                    let our = (mux.next_id + i) as i64;
                    &&& handed_over(
                        #[trigger] mux.backends[i],
                        step.mux.backends[i],
                        step.actions,
                        framed(json_text(shutdown_request(our))),
                    )
                    &&& mux.backends[i].is_primary ==> step.mux.editor_reqs.dom().contains(our)
                        && step.mux.editor_reqs[our] == id && !step.mux.swallow.contains(our)
                    &&& !mux.backends[i].is_primary ==> step.mux.swallow.contains(our)
                        && !step.mux.editor_reqs.dom().contains(our)
                }
            &&& forall|k: int|
                0 <= k < step.actions.len() ==> (#[trigger] step.actions[k]) is ToBackend
            &&& step.mux.next_id == mux.next_id + mux.backends.len()
            &&& step.mux == (MuxModel {
                backends: step.mux.backends,
                next_id: step.mux.next_id,
                editor_reqs: step.mux.editor_reqs,
                swallow: step.mux.swallow,
                pending: step.mux.pending,
                ..mux
            })
        }),
{
    reveal_strlit("initialize");
    reveal_strlit("shutdown");
    assert("initialize"@.len() == 10 && "shutdown"@.len() == 8);
    let start = MuxModel { pending: ids_after_outgoing(mux.pending, raw), ..mux };
    assert(orderly(start) && ids_left(start));
    let n = mux.backends.len() as int;
    lemma_shutdown_prefix(start, id, n);
    assert(start.backends.take(n) =~= mux.backends);
    let step = on_editor(mux, disk, raw);
    assert(asked_to_stop(start, step, id, n));
    assert forall|i: int| 0 <= i < n implies {
        let our = (mux.next_id + i) as i64;
        &&& handed_over(
            #[trigger] mux.backends[i],
            step.mux.backends[i],
            step.actions,
            framed(json_text(shutdown_request(our))),
        )
        &&& mux.backends[i].is_primary ==> step.mux.editor_reqs.dom().contains(our)
            && step.mux.editor_reqs[our] == id && !step.mux.swallow.contains(our)
        &&& !mux.backends[i].is_primary ==> step.mux.swallow.contains(our)
            && !step.mux.editor_reqs.dom().contains(our)
    } by {
        let our = (mux.next_id + i) as i64;
        assert(start.backends[i] == mux.backends[i]);
        assert(our == mux.next_id + i);
        assert(noted_under(start, step.mux, id, n, our));
    }
}

// ---- Replies of the editor -----------------------------------------------------

/// The editor's reply to a backend's request goes to the backend that asked and to no other,
/// under the id under which it asked, with all else as the editor wrote it; and it is no longer
/// awaited.
pub proof fn law_reply_to_its_backend(
    mux: MuxModel,
    disk: DiskModel,
    raw: Seq<char>,
    v: JsonModel,
    id: JsonModel,
    our: i64,
)
    requires
        orderly(mux),
        message_value(raw) == Some(v),
        v.get_str("method"@) is None,
        v.get("id"@) == Some(id),
        id.as_i64() == Some(our),
        mux.server_reqs.dom().contains(our),
    ensures
        ({
            let step = on_editor(mux, disk, raw);
            let asker = mux.server_reqs[our];
            let message = framed(json_text(v.with("id"@, asker.id)));
            &&& step.mux.backends.len() == mux.backends.len()
            &&& forall|i: int|
                0 <= i < mux.backends.len() && (#[trigger] mux.backends[i]).id == asker.backend
                    ==> handed_over(
                    mux.backends[i],
                    step.mux.backends[i],
                    step.actions,
                    message,
                )
            &&& forall|i: int|
                0 <= i < mux.backends.len() && (#[trigger] mux.backends[i]).id != asker.backend
                    ==> left_alone(mux.backends[i], step.mux.backends[i], step.actions)
            &&& forall|k: int|
                0 <= k < step.actions.len() ==> (#[trigger] step.actions[k]) is ToBackend
            &&& step.mux == (MuxModel {
                backends: step.mux.backends,
                server_reqs: mux.server_reqs.remove(our),
                ..mux
            })
        }),
{
    lemma_nothing_awaited(mux.pending, raw, v);
    let step = on_editor(mux, disk, raw);
    let asker = mux.server_reqs[our];
    let message = framed(json_text(v.with("id"@, asker.id)));
    lemma_index_of(mux.backends, asker.backend);
    assert forall|i: int|
        0 <= i < mux.backends.len() && (#[trigger] mux.backends[i]).id
            == asker.backend implies handed_over(
        mux.backends[i],
        step.mux.backends[i],
        step.actions,
        message,
    ) by {
        lemma_found(mux.backends, i);
        lemma_sent(mux.backends[i], message, asker.backend);
    }
    assert forall|i: int|
        0 <= i < mux.backends.len() && (#[trigger] mux.backends[i]).id
            != asker.backend implies left_alone(
        mux.backends[i],
        step.mux.backends[i],
        step.actions,
    ) by {
        match index_of(mux.backends, asker.backend) {
            Some(k) => {
                lemma_sent(mux.backends[k], message, mux.backends[i].id);
            },
            None => {
                assert(sent_to(step.actions, mux.backends[i].id) =~= seq![]);
            },
        }
    }
}

// ---- From the backends ---------------------------------------------------------

/// A backend's notification goes to the editor as it is, once, whichever backend sent it, and
/// leaves the state as it was.
pub proof fn law_backend_notification(
    mux: MuxModel,
    backend: usize,
    raw: Seq<char>,
    v: JsonModel,
    method: Seq<char>,
)
    requires
        message_value(raw) == Some(v),
        v.get_str("method"@) == Some(method),
        v.get("id"@) is None,
    ensures
        on_backend(mux, backend, raw).actions == seq![ActionModel::ToEditor(raw)],
        on_backend(mux, backend, raw).mux == mux,
{
}

/// A backend's request goes to the editor, once, under a fresh id, with all else as the backend
/// wrote it; who asked, and under which id, is kept for the reply.
pub proof fn law_backend_request(
    mux: MuxModel,
    backend: usize,
    raw: Seq<char>,
    v: JsonModel,
    method: Seq<char>,
    id: JsonModel,
)
    requires
        mux.next_id < i64::MAX,
        message_value(raw) == Some(v),
        v.get_str("method"@) == Some(method),
        v.get("id"@) == Some(id),
    ensures
        on_backend(mux, backend, raw).actions == seq![
            ActionModel::ToEditor(framed(json_text(v.with("id"@, int_model(mux.next_id))))),
        ],
        on_backend(mux, backend, raw).mux == (MuxModel {
            next_id: (mux.next_id + 1) as i64,
            server_reqs: mux.server_reqs.insert(mux.next_id, ServerReqModel { backend, id }),
            ..mux
        }),
{
}

/// What a backend sends that is no JSON, or neither asks, tells nor answers anything, or answers
/// under what is no integer, does nothing.
pub proof fn law_backend_noise(mux: MuxModel, backend: usize, raw: Seq<char>, v: JsonModel)
    requires
        message_value(raw) is None || (message_value(raw) == Some(v) && v.get_str(
            "method"@,
        ) is None && (v.get("id"@) matches Some(id) ==> id.as_i64() is None)),
    ensures
        on_backend(mux, backend, raw).actions.len() == 0,
        on_backend(mux, backend, raw).mux == mux,
{
}

proof fn lemma_flushed(id: usize, queue: Seq<Seq<char>>, of: usize)
    ensures
        sent_to(flushed(id, queue), of) == (if of == id {
            queue
        } else {
            seq![]
        }),
    decreases queue.len(),
{
    let actions = flushed(id, queue);
    if queue.len() == 0 {
        assert(sent_to(actions, of) =~= seq![]);
        assert(queue =~= seq![]);
    } else {
        lemma_flushed(id, queue.drop_last(), of);
        assert(actions.drop_last() =~= flushed(id, queue.drop_last()));
        assert(actions.last() == ActionModel::ToBackend { backend: id, message: queue.last() });
        assert(queue.drop_last().push(queue.last()) =~= queue);
    }
}

/// The response that ends a backend's handshake: the backend is sent `initialized` first, and
/// then what waited for it, in the order in which it came, and waits no longer. The editor gets
/// the response of the primary, under the id of its own `initialize`, and of no other.
pub proof fn law_end_of_handshake(
    mux: MuxModel,
    raw: Seq<char>,
    v: JsonModel,
    id: JsonModel,
    editor_id: JsonModel,
    i: int,
)
    requires
        orderly(mux),
        0 <= i < mux.backends.len(),
        mux.backends[i].queue is Some,
        mux.editor_initialize_id == Some(editor_id),
        message_value(raw) == Some(v),
        v.get_str("method"@) is None,
        v.get("id"@) == Some(id),
        id.as_i64() == Some(mux.backends[i].init_id),
    ensures
        ({
            let backend = mux.backends[i];
            let queue = backend.queue->0;
            let step = on_backend(mux, backend.id, raw);
            let n = queue.len() as int + 1;
            &&& step.mux == (MuxModel {
                backends: mux.backends.update(i, BackendModel { queue: None, ..backend }),
                ..mux
            })
            &&& sent_to(step.actions, backend.id) == seq![
                framed("{\"jsonrpc\":\"2.0\",\"method\":\"initialized\",\"params\":{}}"@),
            ] + queue
            &&& forall|k: int| 0 <= k < n ==> (#[trigger] step.actions[k]) is ToBackend
            &&& backend.is_primary ==> step.actions.len() == n + 1 && step.actions[n]
                == ActionModel::ToEditor(framed(json_text(v.with("id"@, editor_id))))
            &&& !backend.is_primary ==> step.actions.len() == n
            &&& forall|other: usize|
                other != backend.id ==> (#[trigger] sent_to(step.actions, other)).len() == 0
        }),
{
    let backend = mux.backends[i];
    let queue = backend.queue->0;
    let step = on_backend(mux, backend.id, raw);
    lemma_found(mux.backends, i);
    let first = ActionModel::ToBackend { backend: backend.id, message: initialized_message() };
    let rest = if backend.is_primary {
        seq![ActionModel::ToEditor(framed(json_text(v.with("id"@, editor_id))))]
    } else {
        seq![]
    };
    assert(step.actions == seq![first] + flushed(backend.id, queue) + rest);
    assert forall|of: usize|
        #[trigger] sent_to(step.actions, of) == (if of == backend.id {
            seq![initialized_message()] + queue
        } else {
            seq![]
        }) by {
        lemma_sent_to_sum(seq![first] + flushed(backend.id, queue), rest, of);
        lemma_sent_to_sum(seq![first], flushed(backend.id, queue), of);
        lemma_sent_to_one(first, of);
        lemma_flushed(backend.id, queue, of);
        lemma_sent_to_one(ActionModel::ToEditor(framed(json_text(v.with("id"@, editor_id)))), of);
        assert(sent_to(rest, of) =~= seq![]);
        let none = Seq::<Seq<char>>::empty();
        assert(none + none + none =~= none);
        assert(seq![initialized_message()] + queue + none =~= seq![initialized_message()] + queue);
    }
}

/// The response to a request of the editor goes to the editor, once, under the id that the
/// editor gave the request, whichever backend sends it: by way of the plugins where it is one
/// whose text is rewritten. It is no longer awaited.
pub proof fn law_response_to_the_editor(
    mux: MuxModel,
    backend: usize,
    raw: Seq<char>,
    v: JsonModel,
    id: JsonModel,
    our: i64,
)
    requires
        orderly(mux),
        message_value(raw) == Some(v),
        v.get_str("method"@) is None,
        v.get("id"@) == Some(id),
        id.as_i64() == Some(our),
        mux.editor_reqs.dom().contains(our),
    ensures
        ({
            let step = on_backend(mux, backend, raw);
            let message = framed(json_text(v.with("id"@, mux.editor_reqs[our])));
            &&& claimed_id(mux.pending, message) is Some ==> step.actions == seq![
                ActionModel::Rewrite(message),
            ]
            &&& claimed_id(mux.pending, message) is None ==> step.actions == seq![
                ActionModel::ToEditor(message),
            ]
            &&& step.mux == (MuxModel {
                editor_reqs: mux.editor_reqs.remove(our),
                pending: match claimed_id(mux.pending, message) {
                    Some(claimed) => mux.pending.remove(claimed),
                    None => mux.pending,
                },
                ..mux
            })
        }),
{
    lemma_index_of(mux.backends, backend);
}

/// Any other response goes nowhere; where it is one to be dropped, it was, and is no longer
/// awaited.
pub proof fn law_response_to_no_one(
    mux: MuxModel,
    backend: usize,
    raw: Seq<char>,
    v: JsonModel,
    id: JsonModel,
    our: i64,
)
    requires
        message_value(raw) == Some(v),
        v.get_str("method"@) is None,
        v.get("id"@) == Some(id),
        id.as_i64() == Some(our),
        !mux.editor_reqs.dom().contains(our),
        forall|i: int|
            0 <= i < mux.backends.len() && (#[trigger] mux.backends[i]).id == backend
                && mux.backends[i].queue is Some ==> mux.backends[i].init_id != our,
    ensures
        on_backend(mux, backend, raw).actions.len() == 0,
        on_backend(mux, backend, raw).mux == (MuxModel { swallow: mux.swallow.remove(our), ..mux }),
{
    lemma_index_of(mux.backends, backend);
}

/// A backend that could not be started is gone, and no other; where it was the primary, there
/// is none. A number that no backend has changes nothing.
pub proof fn law_failed_start(mux: MuxModel, backend: usize, i: int)
    requires
        orderly(mux),
    ensures
        0 <= i < mux.backends.len() && mux.backends[i].id == backend ==> on_start_failed(
            mux,
            backend,
        ) == (MuxModel {
            backends: mux.backends.take(i) + mux.backends.skip(i + 1),
            primary: if mux.primary == Some(backend) {
                None
            } else {
                mux.primary
            },
            ..mux
        }),
        (forall|k: int| 0 <= k < mux.backends.len() ==> (#[trigger] mux.backends[k]).id != backend)
            ==> on_start_failed(mux, backend) == mux,
{
    lemma_index_of(mux.backends, backend);
    if 0 <= i < mux.backends.len() && mux.backends[i].id == backend {
        lemma_found(mux.backends, i);
        assert(mux.backends.remove(i) =~= mux.backends.take(i) + mux.backends.skip(i + 1));
    }
}

} // verus!
