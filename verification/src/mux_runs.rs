//! What holds over a whole session of the multiplexer, whatever traffic comes between.
use vstd::prelude::*;

use crate::config_layer::{agrees, law_agreeing_settings, layered, path_of_uri, DiskModel};
use crate::json::{int_model, JsonModel};
use crate::mux_laws::{
    expecting, ids_left, in_use, law_backend_keeps_order, law_editor_keeps_order,
    law_fresh_id_unused, law_fresh_is_orderly, law_start_failed_keeps_order, lemma_backend_for,
    lemma_delivered_orderly, lemma_ensured_orderly, lemma_expected_orderly, lemma_index_of,
    lemma_no_handshake, orderly, request_id,
};
use crate::mux_model::{
    after, backend_for, broadcasted, delivered, ends_handshake, ensured, ensured_id, flushed,
    framed_value, index_of, initialized_message, message_scope, next_id, on_answer, on_backend,
    on_editor, on_editor_request, on_event, on_handshake, on_request, on_response,
    on_server_request, quiet, scope_asked, shutdown_some, with_id, ActionModel, BackendModel,
    EventModel, MuxModel, StepModel,
};
use crate::mux::fresh_mux;
use crate::mux_settings::{
    handed, has_settings, initialized_once, law_event_keeps_agreement,
    law_request_meets_its_settings, law_session_has_the_settings, same_backend,
};
use crate::paths::components_on;
use crate::pipeline::{claimed_id, ids_after_outgoing, message_value};
use crate::scope::{can_follow, document_uri, roots_of, start_dir, ScopeModel};

verus! {

// ---- One event -----------------------------------------------------------------

/// The ids and the numbers do not run out while these events happen.
pub open spec fn ids_last(mux: MuxModel, events: Seq<EventModel>) -> bool
    decreases events.len(),
{
    events.len() == 0 || (ids_last(mux, events.drop_last()) && ids_left(
        after(mux, events.drop_last()),
    ))
}

/// The response under the id `our` that a message is, if it is one.
pub open spec fn response_under(raw: Seq<char>, our: i64) -> Option<JsonModel> {
    match message_value(raw) {
        Some(v) => match (v.get_str("method"@), v.get("id"@)) {
            (None, Some(id)) => if id.as_i64() == Some(our) {
                Some(v)
            } else {
                None
            },
            _ => None,
        },
        None => None,
    }
}

/// The response of a backend under the id `our` that an event is, if it is one.
pub open spec fn backend_answer(event: EventModel, our: i64) -> Option<JsonModel> {
    match event {
        EventModel::Backend { raw, .. } => response_under(raw, our),
        _ => None,
    }
}

/// The reply of the editor under the id `our` that an event is, if it is one.
pub open spec fn editor_answer(event: EventModel, our: i64) -> Option<JsonModel> {
    match event {
        EventModel::Editor { raw, .. } => response_under(raw, our),
        _ => None,
    }
}

/// From one state to the other ids were given out and backends brought up, and nothing that
/// was noted before was lost.
spec fn grown(mux: MuxModel, now: MuxModel) -> bool {
    &&& mux.next_id <= now.next_id
    &&& mux.next_backend <= now.next_backend
    &&& forall|id: i64|
        #![trigger now.editor_reqs.dom().contains(id)]
        #![trigger mux.editor_reqs.dom().contains(id)]
        id < mux.next_id ==> now.editor_reqs.dom().contains(id) == mux.editor_reqs.dom().contains(
            id,
        ) && now.editor_reqs[id] == mux.editor_reqs[id]
    &&& forall|id: i64|
        #![trigger now.server_reqs.dom().contains(id)]
        #![trigger mux.server_reqs.dom().contains(id)]
        id < mux.next_id ==> now.server_reqs.dom().contains(id) == mux.server_reqs.dom().contains(
            id,
        ) && now.server_reqs[id] == mux.server_reqs[id]
    &&& forall|id: i64| #[trigger]
        now.swallow.contains(id) && id < mux.next_id ==> mux.swallow.contains(id)
    &&& mux.backends.len() <= now.backends.len()
    &&& forall|i: int|
        0 <= i < mux.backends.len() ==> same_backend(mux.backends[i], #[trigger] now.backends[i])
    &&& forall|i: int|
        mux.backends.len() <= i < now.backends.len() ==> mux.next_id <= (
        #[trigger] now.backends[i]).init_id && mux.next_backend <= now.backends[i].id
}

proof fn lemma_grown_further(a: MuxModel, b: MuxModel, c: MuxModel)
    requires
        grown(a, b),
        grown(b, c),
    ensures
        grown(a, c),
{
    assert forall|i: int| 0 <= i < a.backends.len() implies same_backend(
        a.backends[i],
        #[trigger] c.backends[i],
    ) by {
        assert(same_backend(a.backends[i], b.backends[i]));
        assert(same_backend(b.backends[i], c.backends[i]));
    }
    assert forall|i: int| a.backends.len() <= i < c.backends.len() implies a.next_id <= (
    #[trigger] c.backends[i]).init_id && a.next_backend <= c.backends[i].id by {
        if i < b.backends.len() {
            assert(same_backend(b.backends[i], c.backends[i]));
            assert(a.next_id <= b.backends[i].init_id);
        }
    }
}

proof fn lemma_delivered_grown(mux: MuxModel, id: usize, message: Seq<char>)
    ensures
        grown(mux, delivered(mux, id, message).mux),
{
    lemma_index_of(mux.backends, id);
}

proof fn lemma_ensured_grown(mux: MuxModel, disk: DiskModel, scope: ScopeModel)
    requires
        ids_left(mux),
    ensures
        grown(mux, ensured(mux, disk, scope).mux),
{
}

proof fn lemma_expecting_grown(mux: MuxModel, id: JsonModel)
    requires
        mux.next_id < i64::MAX,
    ensures
        grown(mux, expecting(mux, id)),
{
}

proof fn lemma_shutdown_grown(mux: MuxModel, backends: Seq<BackendModel>, id: JsonModel)
    requires
        mux.next_id + backends.len() <= i64::MAX,
    ensures
        grown(mux, shutdown_some(mux, backends, id).mux),
        shutdown_some(mux, backends, id).mux.next_id == mux.next_id + backends.len(),
    decreases backends.len(),
{
    if backends.len() > 0 {
        lemma_shutdown_grown(mux, backends.drop_last(), id);
        let before = shutdown_some(mux, backends.drop_last(), id).mux;
        let our = before.next_id;
        let noted = if backends.last().is_primary {
            expecting(before, id)
        } else {
            MuxModel { next_id: next_id(our), swallow: before.swallow.insert(our), ..before }
        };
        assert(grown(before, noted));
        lemma_grown_further(mux, before, noted);
        let message = framed_value(crate::mux_model::shutdown_request(our));
        lemma_delivered_grown(noted, backends.last().id, message);
        let now = delivered(noted, backends.last().id, message).mux;
        lemma_grown_further(mux, noted, now);
    }
}

proof fn lemma_request_grown(
    mux: MuxModel,
    disk: DiskModel,
    method: Seq<char>,
    v: JsonModel,
    id: JsonModel,
)
    requires
        orderly(mux),
        ids_left(mux),
    ensures
        grown(mux, on_editor_request(mux, disk, method, v, id).mux),
{
    if method == "initialize"@ {
        let kept = MuxModel {
            init_params: v.get("params"@),
            roots: match v.get("params"@) {
                Some(params) => roots_of(params, mux.windows),
                None => seq![],
            },
            editor_initialize_id: Some(id),
            ..mux
        };
        assert(grown(mux, kept));
        lemma_ensured_grown(kept, disk, ScopeModel::Default);
        lemma_grown_further(mux, kept, ensured(kept, disk, ScopeModel::Default).mux);
    } else if method == "shutdown"@ {
        lemma_shutdown_grown(mux, mux.backends, id);
    } else {
        lemma_on_request_grown(mux, disk, v, id);
    }
}

proof fn lemma_on_request_grown(mux: MuxModel, disk: DiskModel, v: JsonModel, id: JsonModel)
    requires
        orderly(mux),
        ids_left(mux),
    ensures
        grown(mux, on_request(mux, disk, v, id).mux),
{
    let start = scope_asked(mux, disk, v);
    let scope = message_scope(mux, disk, v);
    assert(grown(mux, start) && ids_left(start));
    lemma_ensured_grown(start, disk, scope);
    let up = ensured(start, disk, scope).mux;
    lemma_grown_further(mux, start, up);
    lemma_expecting_grown(up, id);
    let noted = expecting(up, id);
    lemma_grown_further(mux, up, noted);
    let message = with_id(v, int_model(up.next_id));
    lemma_delivered_grown(noted, ensured_id(mux, scope), message);
    lemma_grown_further(mux, noted, delivered(noted, ensured_id(mux, scope), message).mux);
}

/// What the editor sends loses nothing but a request that it replies to.
proof fn lemma_editor_grown(mux: MuxModel, disk: DiskModel, raw: Seq<char>)
    requires
        orderly(mux),
        ids_left(mux),
    ensures
        ({
            let now = on_editor(mux, disk, raw).mux;
            ||| grown(mux, now)
            ||| exists|our: i64|
                (#[trigger] response_under(raw, our)) is Some && grown(
                    MuxModel { server_reqs: mux.server_reqs.remove(our), ..mux },
                    now,
                )
        }),
{
    let noted = MuxModel { pending: ids_after_outgoing(mux.pending, raw), ..mux };
    let now = on_editor(mux, disk, raw).mux;
    assert(grown(mux, noted));
    assert(orderly(noted) && ids_left(noted));
    if let Some(v) = message_value(raw) {
        match (v.get_str("method"@), v.get("id"@)) {
            (Some(method), Some(id)) => {
                lemma_request_grown(noted, disk, method, v, id);
                lemma_grown_further(mux, noted, now);
            },
            (Some(method), None) => {
                let start = scope_asked(noted, disk, v);
                let scope = message_scope(noted, disk, v);
                assert(grown(noted, start) && ids_left(start));
                lemma_ensured_grown(start, disk, scope);
                let up = ensured(start, disk, scope).mux;
                lemma_grown_further(noted, start, up);
                let last = delivered(up, ensured_id(start, scope), raw).mux;
                lemma_delivered_grown(up, ensured_id(start, scope), raw);
                lemma_grown_further(noted, up, last);
                assert(grown(noted, broadcasted(noted, raw).mux));
                lemma_grown_further(mux, noted, now);
            },
            (None, Some(id)) => {
                if let Some(our) = id.as_i64() {
                    if mux.server_reqs.dom().contains(our) {
                        let asker = mux.server_reqs[our];
                        let less = MuxModel { server_reqs: mux.server_reqs.remove(our), ..mux };
                        let rest = MuxModel { pending: noted.pending, ..less };
                        assert(grown(less, rest));
                        lemma_delivered_grown(rest, asker.backend, with_id(v, asker.id));
                        lemma_grown_further(less, rest, now);
                        assert(response_under(raw, our) is Some);
                    }
                }
            },
            (None, None) => {},
        }
    }
}

/// What a backend sends loses nothing but a request that it answers.
proof fn lemma_backend_grown(mux: MuxModel, backend: usize, raw: Seq<char>)
    requires
        orderly(mux),
        ids_left(mux),
    ensures
        ({
            let now = on_backend(mux, backend, raw).mux;
            ||| grown(mux, now)
            ||| exists|our: i64|
                (#[trigger] response_under(raw, our)) is Some && grown(
                    MuxModel { editor_reqs: mux.editor_reqs.remove(our), ..mux },
                    now,
                )
        }),
{
    lemma_index_of(mux.backends, backend);
    let now = on_backend(mux, backend, raw).mux;
    if let Some(v) = message_value(raw) {
        if let (None, Some(id)) = (v.get_str("method"@), v.get("id"@)) {
            if let Some(our) = id.as_i64() {
                if ends_handshake(mux, backend, our) is None && mux.editor_reqs.dom().contains(
                    our,
                ) {
                    assert(response_under(raw, our) is Some);
                    assert(grown(
                        MuxModel { editor_reqs: mux.editor_reqs.remove(our), ..mux },
                        now,
                    ));
                }
            }
        }
    }
}

/// Some backend was asked to `initialize` under this id.
pub open spec fn initializes(mux: MuxModel, id: i64) -> bool {
    exists|i: int| 0 <= i < mux.backends.len() && (#[trigger] mux.backends[i]).init_id == id
}

proof fn lemma_grown_initializes(mux: MuxModel, now: MuxModel, our: i64)
    requires
        grown(mux, now),
        our < mux.next_id,
        initializes(now, our),
    ensures
        initializes(mux, our),
{
    let i = choose|i: int|
        0 <= i < now.backends.len() && (#[trigger] now.backends[i]).init_id == our;
    if i < mux.backends.len() {
        assert(same_backend(mux.backends[i], now.backends[i]));
        assert(mux.backends[i].init_id == our);
    }
}

/// An event leaves an orderly state behind, and what was given out is not given out again.
proof fn lemma_event_order(mux: MuxModel, event: EventModel)
    requires
        orderly(mux),
        ids_left(mux),
    ensures
        orderly(on_event(mux, event).mux),
        mux.next_id <= on_event(mux, event).mux.next_id,
        mux.next_backend <= on_event(mux, event).mux.next_backend,
{
    match event {
        EventModel::Editor { disk, raw } => {
            law_editor_keeps_order(mux, disk, raw);
            lemma_editor_grown(mux, disk, raw);
        },
        EventModel::Backend { backend, raw } => {
            law_backend_keeps_order(mux, backend, raw);
            lemma_backend_grown(mux, backend, raw);
        },
        EventModel::StartFailed { backend } => {
            law_start_failed_keeps_order(mux, backend);
        },
    }
}

/// What an event does to an id that was given out: it is never given out again, and what it
/// is in use for stays, unless the event is the answer to it.
proof fn lemma_event_keeps_id(mux: MuxModel, event: EventModel, our: i64)
    requires
        orderly(mux),
        ids_left(mux),
        our < mux.next_id,
    ensures
        ({
            let now = on_event(mux, event).mux;
            &&& orderly(now)
            &&& mux.next_id <= now.next_id
            &&& mux.next_backend <= now.next_backend
            &&& now.editor_reqs.dom().contains(our) ==> mux.editor_reqs.dom().contains(our)
            &&& mux.editor_reqs.dom().contains(our) && backend_answer(event, our) is None
                ==> now.editor_reqs.dom().contains(our) && now.editor_reqs[our]
                == mux.editor_reqs[our]
            &&& now.server_reqs.dom().contains(our) ==> mux.server_reqs.dom().contains(our)
            &&& mux.server_reqs.dom().contains(our) && editor_answer(event, our) is None
                ==> now.server_reqs.dom().contains(our) && now.server_reqs[our]
                == mux.server_reqs[our]
            &&& now.swallow.contains(our) ==> mux.swallow.contains(our)
            &&& initializes(now, our) ==> initializes(mux, our)
        }),
{
    let now = on_event(mux, event).mux;
    match event {
        EventModel::Editor { disk, raw } => {
            law_editor_keeps_order(mux, disk, raw);
            lemma_editor_grown(mux, disk, raw);
            if grown(mux, now) {
                if initializes(now, our) {
                    lemma_grown_initializes(mux, now, our);
                }
            } else {
                let other = choose|other: i64|
                    (#[trigger] response_under(raw, other)) is Some && grown(
                        MuxModel { server_reqs: mux.server_reqs.remove(other), ..mux },
                        now,
                    );
                let less = MuxModel { server_reqs: mux.server_reqs.remove(other), ..mux };
                if initializes(now, our) {
                    lemma_grown_initializes(less, now, our);
                    lemma_same_initializes(less, mux, our);
                }
                assert(less.server_reqs.dom().contains(our) == (our != other
                    && mux.server_reqs.dom().contains(our)));
                assert(less.editor_reqs.dom().contains(our) == mux.editor_reqs.dom().contains(our));
            }
        },
        EventModel::Backend { backend, raw } => {
            law_backend_keeps_order(mux, backend, raw);
            lemma_backend_grown(mux, backend, raw);
            if grown(mux, now) {
                if initializes(now, our) {
                    lemma_grown_initializes(mux, now, our);
                }
            } else {
                let other = choose|other: i64|
                    (#[trigger] response_under(raw, other)) is Some && grown(
                        MuxModel { editor_reqs: mux.editor_reqs.remove(other), ..mux },
                        now,
                    );
                let less = MuxModel { editor_reqs: mux.editor_reqs.remove(other), ..mux };
                if initializes(now, our) {
                    lemma_grown_initializes(less, now, our);
                    lemma_same_initializes(less, mux, our);
                }
                assert(less.editor_reqs.dom().contains(our) == (our != other
                    && mux.editor_reqs.dom().contains(our)));
                assert(less.server_reqs.dom().contains(our) == mux.server_reqs.dom().contains(our));
            }
        },
        EventModel::StartFailed { backend } => {
            law_start_failed_keeps_order(mux, backend);
            lemma_index_of(mux.backends, backend);
            if initializes(now, our) {
                let i = choose|i: int|
                    0 <= i < now.backends.len() && (#[trigger] now.backends[i]).init_id == our;
                if let Some(at) = index_of(mux.backends, backend) {
                    let j = if i < at {
                        i
                    } else {
                        i + 1
                    };
                    assert(mux.backends[j].init_id == our);
                } else {
                    assert(mux.backends[i].init_id == our);
                }
            }
        },
    }
}

proof fn lemma_same_initializes(a: MuxModel, b: MuxModel, our: i64)
    requires
        a.backends == b.backends,
        initializes(a, our),
    ensures
        initializes(b, our),
{
    let i = choose|i: int| 0 <= i < a.backends.len() && (#[trigger] a.backends[i]).init_id == our;
    assert(b.backends[i].init_id == our);
}

// ---- Many events ---------------------------------------------------------------

/// Every state that can be reached is orderly, and ids and numbers are given out in rising
/// order: none is given out twice.
pub proof fn law_session_is_orderly(mux: MuxModel, events: Seq<EventModel>)
    requires
        orderly(mux),
        ids_last(mux, events),
    ensures
        orderly(after(mux, events)),
        mux.next_id <= after(mux, events).next_id,
        mux.next_backend <= after(mux, events).next_backend,
    decreases events.len(),
{
    if events.len() > 0 {
        law_session_is_orderly(mux, events.drop_last());
        lemma_event_order(after(mux, events.drop_last()), events.last());
    }
}

/// A request of the editor waits for its answer, whatever else happens.
proof fn lemma_request_waits(mux: MuxModel, events: Seq<EventModel>, our: i64)
    requires
        orderly(mux),
        ids_last(mux, events),
        our < mux.next_id,
        mux.editor_reqs.dom().contains(our),
        forall|i: int|
            0 <= i < events.len() ==> backend_answer(#[trigger] events[i], our) is None,
    ensures
        after(mux, events).editor_reqs.dom().contains(our),
        after(mux, events).editor_reqs[our] == mux.editor_reqs[our],
    decreases events.len(),
{
    if events.len() > 0 {
        let front = events.drop_last();
        assert forall|i: int| 0 <= i < front.len() implies backend_answer(
            #[trigger] front[i],
            our,
        ) is None by {
            assert(front[i] == events[i]);
        }
        lemma_request_waits(mux, front, our);
        law_session_is_orderly(mux, front);
        assert(events.last() == events[events.len() - 1]);
        lemma_event_keeps_id(after(mux, front), events.last(), our);
    }
}

/// A request of a backend waits for its reply, whatever else happens.
proof fn lemma_server_request_waits(mux: MuxModel, events: Seq<EventModel>, our: i64)
    requires
        orderly(mux),
        ids_last(mux, events),
        our < mux.next_id,
        mux.server_reqs.dom().contains(our),
        forall|i: int|
            0 <= i < events.len() ==> editor_answer(#[trigger] events[i], our) is None,
    ensures
        after(mux, events).server_reqs.dom().contains(our),
        after(mux, events).server_reqs[our] == mux.server_reqs[our],
    decreases events.len(),
{
    if events.len() > 0 {
        let front = events.drop_last();
        assert forall|i: int| 0 <= i < front.len() implies editor_answer(
            #[trigger] front[i],
            our,
        ) is None by {
            assert(front[i] == events[i]);
        }
        lemma_server_request_waits(mux, front, our);
        law_session_is_orderly(mux, front);
        assert(events.last() == events[events.len() - 1]);
        lemma_event_keeps_id(after(mux, front), events.last(), our);
    }
}

/// An id that was given out and is in use for nothing stays so.
proof fn lemma_spent(mux: MuxModel, events: Seq<EventModel>, our: i64)
    requires
        orderly(mux),
        ids_last(mux, events),
        our < mux.next_id,
    ensures
        !mux.editor_reqs.dom().contains(our) ==> !after(mux, events).editor_reqs.dom().contains(
            our,
        ),
        !mux.server_reqs.dom().contains(our) ==> !after(mux, events).server_reqs.dom().contains(
            our,
        ),
        !initializes(mux, our) ==> !initializes(after(mux, events), our),
    decreases events.len(),
{
    if events.len() > 0 {
        let front = events.drop_last();
        lemma_spent(mux, front, our);
        law_session_is_orderly(mux, front);
        lemma_event_keeps_id(after(mux, front), events.last(), our);
    }
}

/// A response of a backend under an id that no request awaits, and no handshake, goes nowhere.
pub proof fn law_unawaited_response_goes_nowhere(mux: MuxModel, event: EventModel, our: i64)
    requires
        backend_answer(event, our) is Some,
        !mux.editor_reqs.dom().contains(our),
        !initializes(mux, our),
    ensures
        on_event(mux, event).actions.len() == 0,
{
    if let EventModel::Backend { backend, .. } = event {
        lemma_index_of(mux.backends, backend);
        if let Some(i) = index_of(mux.backends, backend) {
            assert(mux.backends[i].init_id != our);
        }
    }
}

/// A reply of the editor under an id that no request awaits goes nowhere.
pub proof fn law_unawaited_reply_goes_nowhere(mux: MuxModel, event: EventModel, our: i64)
    requires
        editor_answer(event, our) is Some,
        !mux.server_reqs.dom().contains(our),
    ensures
        on_event(mux, event).actions.len() == 0,
{
}

/// An id that was not given out yet is awaited by nothing.
pub proof fn law_nothing_awaits_a_new_id(mux: MuxModel, our: i64)
    requires
        orderly(mux),
        our >= mux.next_id,
    ensures
        !mux.editor_reqs.dom().contains(our),
        !mux.server_reqs.dom().contains(our),
        !initializes(mux, our),
{
}

/// A request of the editor, re-issued under an id that nothing else has, is answered once:
/// whatever happens before it, the first response under that id goes to the editor, under the
/// editor's own id and otherwise as it is, by way of the plugins where its text is tracked;
/// and whatever happens after it, no further response under that id goes anywhere.
pub proof fn law_request_answered_once(
    mux: MuxModel,
    disk: DiskModel,
    v: JsonModel,
    id: JsonModel,
    between: Seq<EventModel>,
    first: EventModel,
    later: Seq<EventModel>,
    second: EventModel,
)
    requires
        orderly(mux),
        ids_left(mux),
        ({
            let our = request_id(mux, disk, v);
            let asked = on_request(mux, disk, v, id).mux;
            let waiting = after(asked, between);
            &&& ids_last(asked, between.push(first))
            &&& forall|i: int|
                0 <= i < between.len() ==> backend_answer(#[trigger] between[i], our) is None
            &&& backend_answer(first, our) is Some
            &&& ids_last(on_event(waiting, first).mux, later)
            &&& backend_answer(second, our) is Some
        }),
    ensures
        ({
            let our = request_id(mux, disk, v);
            let waiting = after(on_request(mux, disk, v, id).mux, between);
            let answered = on_event(waiting, first);
            let message = with_id(backend_answer(first, our)->0, id);
            &&& !in_use(mux, our)
            &&& answered.actions == seq![
                if claimed_id(waiting.pending, message) is Some {
                    ActionModel::Rewrite(message)
                } else {
                    ActionModel::ToEditor(message)
                },
            ]
            &&& on_event(after(answered.mux, later), second).actions.len() == 0
        }),
{
    let our = request_id(mux, disk, v);
    let asked = on_request(mux, disk, v, id).mux;
    lemma_asked(mux, disk, v, id);
    assert(between.push(first).drop_last() =~= between);
    lemma_request_waits(asked, between, our);
    law_session_is_orderly(asked, between);
    let waiting = after(asked, between);
    let answered = on_event(waiting, first);
    let response = backend_answer(first, our)->0;
    if let EventModel::Backend { backend, raw } = first {
        lemma_no_handshake(waiting, backend, our);
        assert(answered == on_answer(waiting, response, our));
        law_backend_keeps_order(waiting, backend, raw);
    }
    assert(!initializes(waiting, our)) by {
        if initializes(waiting, our) {
            let i = choose|i: int|
                0 <= i < waiting.backends.len() && (#[trigger] waiting.backends[i]).init_id == our;
            assert(!waiting.editor_reqs.dom().contains(waiting.backends[i].init_id));
        }
    }
    if initializes(answered.mux, our) {
        lemma_same_initializes(answered.mux, waiting, our);
    }
    lemma_spent(answered.mux, later, our);
    law_unawaited_response_goes_nowhere(after(answered.mux, later), second, our);
}

/// What a request of the editor leaves behind.
proof fn lemma_asked(mux: MuxModel, disk: DiskModel, v: JsonModel, id: JsonModel)
    requires
        orderly(mux),
        ids_left(mux),
    ensures
        ({
            let our = request_id(mux, disk, v);
            let asked = on_request(mux, disk, v, id).mux;
            &&& orderly(asked)
            &&& our < asked.next_id
            &&& !in_use(mux, our)
            &&& asked.editor_reqs.dom().contains(our)
            &&& asked.editor_reqs[our] == id
        }),
{
    let our = request_id(mux, disk, v);
    let scope = message_scope(mux, disk, v);
    let start = scope_asked(mux, disk, v);
    assert(orderly(start) && ids_left(start));
    lemma_ensured_orderly(start, disk, scope);
    let up = ensured(start, disk, scope).mux;
    law_fresh_id_unused(up);
    assert(!in_use(mux, our)) by {
        if initializes(mux, our) {
            let i = choose|i: int|
                0 <= i < mux.backends.len() && (#[trigger] mux.backends[i]).init_id == our;
            assert(up.backends[i].init_id == our);
        }
    }
    lemma_expected_orderly(up, id);
    lemma_delivered_orderly(expecting(up, id), ensured_id(mux, scope), with_id(v, int_model(our)));
}

/// A request of a backend, re-issued toward the editor under an id that nothing else has, is
/// answered once: whatever happens before it, the editor's first reply under that id goes to
/// the backend that asked, under the backend's own id and otherwise as it is, and whatever
/// happens after it, no further reply under that id goes anywhere.
pub proof fn law_server_request_answered_once(
    mux: MuxModel,
    backend: usize,
    v: JsonModel,
    id: JsonModel,
    between: Seq<EventModel>,
    first: EventModel,
    later: Seq<EventModel>,
    second: EventModel,
)
    requires
        orderly(mux),
        ids_left(mux),
        ({
            let our = mux.next_id;
            let asked = on_server_request(mux, backend, v, id).mux;
            let waiting = after(asked, between);
            &&& ids_last(asked, between.push(first))
            &&& forall|i: int|
                0 <= i < between.len() ==> editor_answer(#[trigger] between[i], our) is None
            &&& editor_answer(first, our) is Some
            &&& ids_last(on_event(waiting, first).mux, later)
            &&& editor_answer(second, our) is Some
        }),
    ensures
        ({
            let our = mux.next_id;
            let asked = on_server_request(mux, backend, v, id);
            let waiting = after(asked.mux, between);
            let answered = on_event(waiting, first);
            &&& !in_use(mux, our)
            &&& asked.actions == seq![ActionModel::ToEditor(with_id(v, int_model(our)))]
            &&& answered == delivered(
                MuxModel {
                    server_reqs: waiting.server_reqs.remove(our),
                    pending: answered.mux.pending,
                    ..waiting
                },
                backend,
                with_id(editor_answer(first, our)->0, id),
            )
            &&& on_event(after(answered.mux, later), second).actions.len() == 0
        }),
{
    let our = mux.next_id;
    let asked = on_server_request(mux, backend, v, id).mux;
    law_fresh_id_unused(mux);
    assert(orderly(asked));
    assert(between.push(first).drop_last() =~= between);
    lemma_server_request_waits(asked, between, our);
    law_session_is_orderly(asked, between);
    let waiting = after(asked, between);
    let answered = on_event(waiting, first);
    if let EventModel::Editor { disk, raw } = first {
        law_editor_keeps_order(waiting, disk, raw);
        lemma_event_keeps_id(waiting, first, our);
    }
    lemma_spent(answered.mux, later, our);
}

// ---- Backends ------------------------------------------------------------------

/// A backend with this number, scope and start is there.
pub open spec fn serves(mux: MuxModel, backend: BackendModel) -> bool {
    exists|i: int| 0 <= i < mux.backends.len() && same_backend(backend, #[trigger] mux.backends[i])
}

proof fn lemma_grown_serves(mux: MuxModel, now: MuxModel, backend: BackendModel)
    requires
        grown(mux, now),
        serves(mux, backend),
    ensures
        serves(now, backend),
{
    let i = choose|i: int|
        0 <= i < mux.backends.len() && same_backend(backend, #[trigger] mux.backends[i]);
    assert(same_backend(mux.backends[i], now.backends[i]));
    assert(same_backend(backend, now.backends[i]));
}

proof fn lemma_event_serves(mux: MuxModel, event: EventModel, backend: BackendModel)
    requires
        orderly(mux),
        ids_left(mux),
        serves(mux, backend),
        event != (EventModel::StartFailed { backend: backend.id }),
    ensures
        serves(on_event(mux, event).mux, backend),
{
    let now = on_event(mux, event).mux;
    let at = choose|i: int|
        0 <= i < mux.backends.len() && same_backend(backend, #[trigger] mux.backends[i]);
    match event {
        EventModel::Editor { disk, raw } => {
            lemma_editor_grown(mux, disk, raw);
            if grown(mux, now) {
                lemma_grown_serves(mux, now, backend);
            } else {
                let our = choose|our: i64|
                    (#[trigger] response_under(raw, our)) is Some && grown(
                        MuxModel { server_reqs: mux.server_reqs.remove(our), ..mux },
                        now,
                    );
                let less = MuxModel { server_reqs: mux.server_reqs.remove(our), ..mux };
                assert(same_backend(backend, less.backends[at]));
                lemma_grown_serves(less, now, backend);
            }
        },
        EventModel::Backend { backend: from, raw } => {
            lemma_backend_grown(mux, from, raw);
            if grown(mux, now) {
                lemma_grown_serves(mux, now, backend);
            } else {
                let our = choose|our: i64|
                    (#[trigger] response_under(raw, our)) is Some && grown(
                        MuxModel { editor_reqs: mux.editor_reqs.remove(our), ..mux },
                        now,
                    );
                let less = MuxModel { editor_reqs: mux.editor_reqs.remove(our), ..mux };
                assert(same_backend(backend, less.backends[at]));
                lemma_grown_serves(less, now, backend);
            }
        },
        EventModel::StartFailed { backend: failed } => {
            lemma_index_of(mux.backends, failed);
            let to = match index_of(mux.backends, failed) {
                Some(gone) => if at < gone {
                    at
                } else {
                    at - 1
                },
                None => at,
            };
            assert(same_backend(backend, now.backends[to]));
        },
    }
}

/// A backend stays, with its scope and with what it was started with, as long as its start
/// is not reported to have failed.
proof fn lemma_session_serves(mux: MuxModel, events: Seq<EventModel>, backend: BackendModel)
    requires
        orderly(mux),
        ids_last(mux, events),
        serves(mux, backend),
        forall|i: int|
            0 <= i < events.len() ==> (#[trigger] events[i]) != (EventModel::StartFailed {
                backend: backend.id,
            }),
    ensures
        serves(after(mux, events), backend),
    decreases events.len(),
{
    if events.len() > 0 {
        let front = events.drop_last();
        assert forall|i: int| 0 <= i < front.len() implies (#[trigger] front[i]) != (
        EventModel::StartFailed { backend: backend.id }) by {
            assert(front[i] == events[i]);
        }
        lemma_session_serves(mux, front, backend);
        law_session_is_orderly(mux, front);
        assert(events.last() == events[events.len() - 1]);
        lemma_event_serves(after(mux, front), events.last(), backend);
    }
}

/// A scope keeps the backend that was started for it, with what it was started with: from
/// then on, whatever happens but a failed start, that backend is the one of the scope, no
/// other is brought up for it, and no other backend is ever given its number.
pub proof fn law_scope_keeps_its_backend(
    mux: MuxModel,
    disk: DiskModel,
    scope: ScopeModel,
    events: Seq<EventModel>,
    later: DiskModel,
)
    requires
        orderly(mux),
        ids_left(mux),
        ids_last(ensured(mux, disk, scope).mux, events),
        forall|i: int|
            0 <= i < events.len() ==> (#[trigger] events[i]) != (EventModel::StartFailed {
                backend: ensured_id(mux, scope),
            }),
    ensures
        ({
            let id = ensured_id(mux, scope);
            let up = ensured(mux, disk, scope).mux;
            let now = after(up, events);
            &&& ensured_id(now, scope) == id
            &&& ensured(now, later, scope) == quiet(now)
            &&& id < now.next_backend
            &&& exists|backend: BackendModel|
                {
                    &&& up.backends.contains(backend)
                    &&& backend.id == id
                    &&& backend.scope == scope
                    &&& #[trigger] serves(now, backend)
                }
        }),
{
    let id = ensured_id(mux, scope);
    let up = ensured(mux, disk, scope).mux;
    lemma_ensured_orderly(mux, disk, scope);
    lemma_backend_for(mux.backends, scope);
    let k = if backend_for(mux.backends, scope) is Some {
        choose|i: int|
            0 <= i < mux.backends.len() && (#[trigger] mux.backends[i]).id == id
                && mux.backends[i].scope == scope
    } else {
        mux.backends.len() as int
    };
    let backend = up.backends[k];
    assert(backend.id == id && backend.scope == scope);
    assert(same_backend(backend, up.backends[k]));
    assert(up.backends.contains(backend));
    law_session_is_orderly(up, events);
    lemma_session_serves(up, events, backend);
    let now = after(up, events);
    let i = choose|i: int|
        0 <= i < now.backends.len() && same_backend(backend, #[trigger] now.backends[i]);
    lemma_backend_for(now.backends, scope);
    let j = choose|j: int|
        0 <= j < now.backends.len() && (#[trigger] now.backends[j]).id == backend_for(
            now.backends,
            scope,
        )->0 && now.backends[j].scope == scope;
    if i != j {
        assert(now.backends[i].scope != now.backends[j].scope);
    }
}

// ---- Settings ------------------------------------------------------------------

/// The files stay as they are while these events happen.
pub open spec fn disk_stays(events: Seq<EventModel>, disk: DiskModel) -> bool {
    forall|i: int|
        0 <= i < events.len() ==> ((#[trigger] events[i]) matches EventModel::Editor {
            disk: now,
            ..
        } ==> now == disk)
}

proof fn lemma_session_agrees(mux: MuxModel, events: Seq<EventModel>, disk: DiskModel)
    requires
        agrees(mux.layer, disk),
        disk_stays(events, disk),
    ensures
        agrees(after(mux, events).layer, disk),
    decreases events.len(),
{
    if events.len() > 0 {
        let front = events.drop_last();
        assert(disk_stays(front, disk)) by {
            assert forall|i: int| 0 <= i < front.len() implies ((
            #[trigger] front[i]) matches EventModel::Editor { disk: now, .. } ==> now == disk) by {
                assert(front[i] == events[i]);
            }
        }
        lemma_session_agrees(mux, front, disk);
        assert(events.last() == events[events.len() - 1]);
        law_event_keeps_agreement(after(mux, front), events.last(), disk);
    }
}

/// In a session that the editor initializes once, whatever has happened, a request about a
/// document in a workspace root reaches a backend that was started with exactly what the
/// `potemkin.toml` files say for the document's directory, where its scope can have that.
pub proof fn law_documents_meet_their_settings(
    server_path: Seq<char>,
    args: Seq<Seq<char>>,
    server_id: Option<Seq<char>>,
    windows: bool,
    events: Seq<EventModel>,
    disk: DiskModel,
    v: JsonModel,
    id: JsonModel,
    uri: Seq<char>,
    path: Seq<char>,
)
    requires
        ({
            let fresh = fresh_mux(server_path, args, server_id, windows);
            let mux = after(fresh, events);
            &&& initialized_once(fresh, events)
            &&& ids_last(fresh, events)
            &&& ids_left(mux)
            &&& disk_stays(events, disk)
            &&& document_uri(v) == Some(uri)
            &&& path_of_uri(uri, mux.windows) == Some(path)
            &&& can_follow(
                mux.layer,
                disk,
                mux.roots,
                start_dir(disk, components_on(path, mux.windows)),
            )
        }),
    ensures
        ({
            let mux = after(fresh_mux(server_path, args, server_id, windows), events);
            let step = on_request(mux, disk, v, id);
            let own = match mux.layer.server_id {
                Some(server) => layered(disk, start_dir(disk, components_on(path, mux.windows)), server),
                None => JsonModel::Null,
            };
            exists|i: int|
                {
                    &&& #[trigger] handed(
                        step,
                        i,
                        with_id(v, int_model(request_id(mux, disk, v))),
                    )
                    &&& has_settings(mux.init_params, step.mux.backends[i], own)
                }
        }),
{
    let fresh = fresh_mux(server_path, args, server_id, windows);
    let mux = after(fresh, events);
    law_fresh_is_orderly(server_path, args, server_id, windows);
    law_session_is_orderly(fresh, events);
    law_session_has_the_settings(server_path, args, server_id, windows, events);
    lemma_session_agrees(fresh, events, disk);
    law_agreeing_settings(mux.layer, disk, start_dir(disk, components_on(path, mux.windows)));
    law_request_meets_its_settings(mux, disk, v, id, uri, path);
}

// ---- Handshakes ----------------------------------------------------------------

/// The state after some messages for one backend, one after the other.
pub open spec fn delivered_all(mux: MuxModel, id: usize, messages: Seq<Seq<char>>) -> StepModel
    decreases messages.len(),
{
    if messages.len() == 0 {
        quiet(mux)
    } else {
        let before = delivered_all(mux, id, messages.drop_last());
        let last = delivered(before.mux, id, messages.last());
        StepModel { mux: last.mux, actions: before.actions + last.actions }
    }
}

/// Where a backend stands does not change with what is meant for it.
proof fn lemma_index_by_ids(a: Seq<BackendModel>, b: Seq<BackendModel>, id: usize)
    requires
        a.len() == b.len(),
        forall|i: int| 0 <= i < a.len() ==> (#[trigger] a[i]).id == b[i].id,
    ensures
        index_of(a, id) == index_of(b, id),
    decreases a.len(),
{
    if a.len() > 0 {
        assert(a.last() == a[a.len() - 1] && b.last() == b[b.len() - 1]);
        assert forall|i: int| 0 <= i < a.drop_last().len() implies (
        #[trigger] a.drop_last()[i]).id == b.drop_last()[i].id by {
            assert(a[i].id == b[i].id);
        }
        lemma_index_by_ids(a.drop_last(), b.drop_last(), id);
    }
}

proof fn lemma_queue_grows(mux: MuxModel, id: usize, messages: Seq<Seq<char>>)
    requires
        index_of(mux.backends, id) is Some,
        mux.backends[index_of(mux.backends, id)->0].queue is Some,
    ensures
        ({
            let i = index_of(mux.backends, id)->0;
            let step = delivered_all(mux, id, messages);
            &&& step.actions.len() == 0
            &&& index_of(step.mux.backends, id) == Some(i)
            &&& step.mux == (MuxModel {
                backends: mux.backends.update(
                    i,
                    BackendModel {
                        queue: Some(mux.backends[i].queue->0 + messages),
                        ..mux.backends[i]
                    },
                ),
                ..mux
            })
        }),
    decreases messages.len(),
{
    lemma_index_of(mux.backends, id);
    let i = index_of(mux.backends, id)->0;
    let queue = mux.backends[i].queue->0;
    if messages.len() == 0 {
        assert(queue + messages =~= queue);
        assert(mux.backends.update(i, mux.backends[i]) =~= mux.backends);
    } else {
        lemma_queue_grows(mux, id, messages.drop_last());
        let before = delivered_all(mux, id, messages.drop_last()).mux;
        let step = delivered_all(mux, id, messages);
        assert((queue + messages.drop_last()).push(messages.last()) =~= queue + messages);
        assert(step.mux.backends =~= mux.backends.update(
            i,
            BackendModel { queue: Some(queue + messages), ..mux.backends[i] },
        ));
        lemma_index_by_ids(step.mux.backends, mux.backends, id);
    }
}

/// A handshake in one: while it lasts, whatever is meant for the backend is held back. When
/// it ends, the backend is told `initialized` first, then gets what was held back, each
/// message once and in the order in which it came; what comes later goes to it at once. The
/// editor is sent the result, under its own id, just where the backend is the primary one.
pub proof fn law_handshake(
    mux: MuxModel,
    id: usize,
    messages: Seq<Seq<char>>,
    v: JsonModel,
    editor_id: JsonModel,
    later: Seq<char>,
)
    requires
        index_of(mux.backends, id) is Some,
        mux.backends[index_of(mux.backends, id)->0].queue == Some(Seq::<Seq<char>>::empty()),
        mux.editor_initialize_id == Some(editor_id),
    ensures
        ({
            let i = index_of(mux.backends, id)->0;
            let backend = mux.backends[i];
            let held = delivered_all(mux, id, messages);
            let done = on_response(held.mux, id, v, int_model(backend.init_id));
            &&& held.actions.len() == 0
            &&& done.actions == seq![
                ActionModel::ToBackend { backend: id, message: initialized_message() },
            ] + flushed(id, messages) + (if backend.is_primary {
                seq![ActionModel::ToEditor(with_id(v, editor_id))]
            } else {
                seq![]
            })
            &&& done.mux == (MuxModel {
                backends: mux.backends.update(i, BackendModel { queue: None, ..backend }),
                ..mux
            })
            &&& delivered(done.mux, id, later) == (StepModel {
                mux: done.mux,
                actions: seq![ActionModel::ToBackend { backend: id, message: later }],
            })
        }),
{
    lemma_index_of(mux.backends, id);
    let i = index_of(mux.backends, id)->0;
    let backend = mux.backends[i];
    lemma_queue_grows(mux, id, messages);
    assert(Seq::<Seq<char>>::empty() + messages =~= messages);
    let held = delivered_all(mux, id, messages).mux;
    let done = on_response(held, id, v, int_model(backend.init_id));
    assert(done == on_handshake(held, i, v));
    assert(done.mux.backends =~= mux.backends.update(i, BackendModel { queue: None, ..backend }));
    lemma_index_by_ids(done.mux.backends, mux.backends, id);
    assert(done.mux.backends.update(i, done.mux.backends[i]) =~= done.mux.backends);
}

} // verus!
