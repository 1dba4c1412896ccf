//! What holds of the talk with a plugin: what it is asked, how its answers are read, and how it
//! is started.
use vstd::prelude::*;

use crate::json::{int_model, unsigned_model, Json, JsonModel};
use crate::number::decimal;
use crate::plugin::{
    handshake_ended, launch_of, name_warning, node_command, reply_output, transform_request,
    LaunchModel, PluginError, ProtocolPlugin,
};
use crate::plugin_api::{marker_texts, ContextModel, OutputModel, TextKind};
use crate::protocol::{
    decode_initialize, decode_item, decode_items, decode_strings, decode_transform,
    encode_transform_item, initialize_params, kind_name,
    InitializeModel, ItemModel, PluginManifest, TransformItemModel, Transport,
};
use crate::subprocess::{
    begun, call_ends, encode_request, failure_text, Heard, RpcError, SessionModel,
};
use crate::text::{contains, occurs_at, texts, trim};

verus! {

// ---- What a plugin is asked ----------------------------------------------------

/// A plugin is greeted with the protocol version and the display options.
pub proof fn law_greeting(version: u32, verbosity: u8, unicode: bool, key: Seq<char>)
    ensures
        initialize_params(version, verbosity, unicode).get("protocol_version"@) == Some(
            int_model(version as i64),
        ),
        initialize_params(version, verbosity, unicode).get("verbosity"@) == Some(
            int_model(verbosity as i64),
        ),
        initialize_params(version, verbosity, unicode).get("unicode"@) == Some(
            JsonModel::Bool(unicode),
        ),
        key != "protocol_version"@ && key != "verbosity"@ && key != "unicode"@
            ==> initialize_params(version, verbosity, unicode).get(key) is None,
{
    reveal_strlit("protocol_version");
    reveal_strlit("verbosity");
    reveal_strlit("unicode");
    assert("protocol_version"@.len() == 16 && "verbosity"@.len() == 9 && "unicode"@.len() == 7);
}

/// A request to rewrite a text carries what the plugin is told, each under its name, and one
/// item: the text as it stands in the chain, the text before any plugin ran, and the position
/// and the edits where there are any.
pub proof fn law_what_is_asked(text: Seq<char>, ctx: ContextModel, key: Seq<char>)
    ensures
        ({
            let request = transform_request(text, ctx);
            let items = request.get("items"@)->0;
            let item = items->Array_0[0];
            &&& request.get_str("kind"@) == Some(kind_name(ctx.kind))
            &&& request.get("verbosity"@) == Some(int_model(ctx.verbosity as i64))
            &&& request.get("unicode"@) == Some(JsonModel::Bool(ctx.unicode))
            &&& request.get("items"@) is Some
            &&& items is Array
            &&& items->Array_0.len() == 1
            &&& item.get_str("text"@) == Some(text)
            &&& item.get_str("original"@) == Some(ctx.original)
            &&& item.get("position"@) == ctx.position
            &&& item.get("text_edits"@) == ctx.text_edits
            &&& key != "text"@ && key != "original"@ && key != "position"@ && key != "text_edits"@
                ==> item.get(key) is None
        }),
{
    reveal_strlit("kind");
    reveal_strlit("verbosity");
    reveal_strlit("unicode");
    reveal_strlit("items");
    reveal_strlit("text");
    reveal_strlit("original");
    reveal_strlit("position");
    reveal_strlit("text_edits");
    assert("kind"@.len() == 4 && "verbosity"@.len() == 9 && "unicode"@.len() == 7);
    assert("items"@.len() == 5 && "text"@.len() == 4 && "original"@.len() == 8);
    assert("position"@.len() == 8 && "text_edits"@.len() == 10);
    assert("original"@[0] == 'o' && "position"@[0] == 'p');
    let given = TransformItemModel {
        text,
        original: ctx.original,
        position: ctx.position,
        text_edits: ctx.text_edits,
    };
    let items = transform_request(text, ctx).get("items"@)->0;
    assert(items->Array_0[0] == encode_transform_item(given));
}

/// The kinds of text have names of their own.
pub proof fn law_kind_names(one: TextKind, two: TextKind)
    ensures
        kind_name(TextKind::Hover) == "hover"@,
        kind_name(TextKind::InlayHint) == "inlay_hint"@,
        kind_name(TextKind::Diagnostic) == "diagnostic"@,
        kind_name(TextKind::Other) == "other"@,
        kind_name(one) == kind_name(two) ==> one == two,
{
    reveal_strlit("hover");
    reveal_strlit("inlay_hint");
    reveal_strlit("diagnostic");
    reveal_strlit("other");
    assert("hover"@[0] == 'h' && "inlay_hint"@[0] == 'i');
    assert("diagnostic"@[0] == 'd' && "other"@[0] == 'o');
}

/// A request carries its id, its method and its params, where it has any.
pub proof fn law_request(id: u64, method: Seq<char>, params: Option<JsonModel>, key: Seq<char>)
    ensures
        encode_request(id, method, params).get("id"@) == Some(unsigned_model(id)),
        encode_request(id, method, params).get_str("method"@) == Some(method),
        encode_request(id, method, params).get("params"@) == params,
        key != "id"@ && key != "method"@ && key != "params"@ ==> encode_request(
            id,
            method,
            params,
        ).get(key) is None,
{
    reveal_strlit("id");
    reveal_strlit("method");
    reveal_strlit("params");
    assert("id"@.len() == 2 && "method"@.len() == 6 && "params"@.len() == 6);
    assert("method"@[0] == 'm' && "params"@[0] == 'p');
}

/// Requests to a plugin are numbered one after the other; one that is disabled gets none.
pub proof fn law_numbered(session: SessionModel)
    ensures
        !session.dead && session.next_id < u64::MAX ==> begun(session).next_id == session.next_id
            + 1,
        session.dead ==> begun(session) == session,
        begun(session).dead == session.dead,
        begun(session).label == session.label,
        begun(session).timeout_ms == session.timeout_ms,
{
}

// ---- How an answer is read -----------------------------------------------------

/// An answer under the right id gives its result, unless it reports an error, which then is the
/// outcome whatever else it holds; without either the call fails, and so it does where the
/// answer is one to another request or where none came.
pub proof fn law_outcomes(id: u64, heard: Heard, end: Result<Json, RpcError>)
    requires
        call_ends(id, heard, end),
    ensures
        heard is TimedOut ==> end == Err::<Json, RpcError>(RpcError::TimedOut),
        heard is Closed ==> end == Err::<Json, RpcError>(RpcError::Closed),
        heard is InvalidJson ==> end == Err::<Json, RpcError>(RpcError::InvalidJson),
        heard matches Heard::WriteFailed(reason) ==> end == Err::<Json, RpcError>(
            RpcError::WriteFailed(reason),
        ),
        heard matches Heard::Answer(r) ==> (r.id != id ==> end == Err::<Json, RpcError>(
            RpcError::WrongId { got: r.id, expected: id },
        )),
        heard matches Heard::Answer(r) ==> (r.id == id && r.error is Some ==> end == Err::<
            Json,
            RpcError,
        >(RpcError::Reported(r.error->0))),
        heard matches Heard::Answer(r) ==> (r.id == id && r.error is None && r.result is Some
            ==> end == Ok::<Json, RpcError>(r.result->0)),
        heard matches Heard::Answer(r) ==> (r.id == id && r.error is None && r.result is None
            ==> end == Err::<Json, RpcError>(RpcError::NoResult)),
{
}

/// A plugin's answer to its greeting is read by its `name` and its `markers`, which are none
/// where it gives none; whatever else it says does not count. An answer without a name, or with
/// markers that are no strings, is none.
pub proof fn law_introduction(
    json: JsonModel,
    name: Seq<char>,
    items: Seq<JsonModel>,
    markers: Seq<Seq<char>>,
)
    ensures
        json is Object && json.get_str("name"@) == Some(name) && json.get("markers"@) is None
            ==> decode_initialize(json) == Some(InitializeModel { name, markers: seq![] }),
        json is Object && json.get_str("name"@) == Some(name) && json.get("markers"@) == Some(
            JsonModel::Array(items),
        ) && items.len() == markers.len() && (forall|i: int|
            0 <= i < items.len() ==> #[trigger] items[i] == JsonModel::Str(markers[i]))
            ==> decode_initialize(json) == Some(InitializeModel { name, markers }),
        json is Object && json.get_str("name"@) is None ==> decode_initialize(json) is None,
        json is Object && json.get("markers"@) == Some(JsonModel::Array(items)) && (exists|i: int|
            0 <= i < items.len() && !((#[trigger] items[i]) is Str)) ==> decode_initialize(
            json,
        ) is None,
{
    if items.len() == markers.len() && (forall|i: int|
        0 <= i < items.len() ==> #[trigger] items[i] == JsonModel::Str(markers[i])) {
        assert(items.map_values(|j: JsonModel| j->Str_0) =~= markers);
    }
}

/// What is read by name can be given by position too: the name and the markers of a plugin, and
/// the items of an answer.
pub proof fn law_by_position(
    name: Seq<char>,
    list: JsonModel,
    markers: Seq<Seq<char>>,
    items: Seq<JsonModel>,
    more: Seq<JsonModel>,
)
    ensures
        decode_initialize(JsonModel::Array(seq![JsonModel::Str(name)])) == Some(
            InitializeModel { name, markers: seq![] },
        ),
        decode_strings(list) == Some(markers) ==> decode_initialize(
            JsonModel::Array(seq![JsonModel::Str(name), list]),
        ) == Some(InitializeModel { name, markers }),
        more.len() == 0 || more.len() > 2 ==> decode_initialize(JsonModel::Array(more)) is None,
        decode_transform(JsonModel::Array(seq![JsonModel::Array(items)])) == decode_items(items),
        more.len() != 1 ==> decode_transform(JsonModel::Array(more)) is None,
{
}

/// The plugin that a handshake gives has the name and the markers of its manifest, whatever it
/// calls itself. A handshake without an answer, or with one that is none, gives no plugin.
pub proof fn law_handshake_outcomes(
    manifest: PluginManifest,
    reply: Result<JsonModel, Seq<char>>,
    plugin: Result<ProtocolPlugin, PluginError>,
)
    requires
        handshake_ended(manifest, reply, plugin),
    ensures
        (plugin is Ok) == (reply matches Ok(json) && decode_initialize(json) is Some),
        plugin matches Ok(p) ==> p.name@ == manifest.name@ && marker_texts(p.markers@) == texts(
            manifest.markers@,
        ),
        plugin matches Ok(p) ==> p.reported_name@ == decode_initialize(reply->Ok_0)->0.name,
        reply matches Err(message) ==> (plugin matches Err(PluginError::Call(told)) && told@
            == message),
        reply matches Ok(json) ==> (decode_initialize(json) is None ==> plugin == Err::<
            ProtocolPlugin,
            PluginError,
        >(PluginError::Malformed)),
{
}

/// A plugin that calls itself otherwise than its manifest does is warned of, with both names; no
/// other is.
pub proof fn law_warning(name: Seq<char>, reported: Seq<char>)
    ensures
        name_warning(name, name) is None,
        name != reported ==> name_warning(name, reported) is Some && contains(
            name_warning(name, reported)->0,
            name,
        ) && contains(name_warning(name, reported)->0, reported),
{
    if name != reported {
        let start = "plugin manifest name '"@;
        let middle = "' does not match reported name '"@;
        let text = name_warning(name, reported)->0;
        assert(text.subrange(start.len() as int, (start.len() + name.len()) as int) =~= name);
        assert(occurs_at(text, name, start.len() as int));
        let at = (start.len() + name.len() + middle.len()) as int;
        assert(text.subrange(at, at + reported.len()) =~= reported);
        assert(occurs_at(text, reported, at));
    }
}

/// An item of an answer is a string, which is the new text, or an object with the new text and
/// with the edits that take the place of the old ones, if it has any.
pub proof fn law_items(json: JsonModel, text: Seq<char>, edits: Seq<JsonModel>)
    ensures
        decode_item(JsonModel::Str(text)) == Some(ItemModel { text, text_edits: None }),
        json.get_str("text"@) == Some(text) && (json.get("text_edits"@) is None || json.get(
            "text_edits"@,
        ) == Some(JsonModel::Null)) ==> decode_item(json) == Some(
            ItemModel { text, text_edits: None },
        ),
        json.get_str("text"@) == Some(text) && json.get("text_edits"@) == Some(
            JsonModel::Array(edits),
        ) ==> decode_item(json) == Some(ItemModel { text, text_edits: Some(edits) }),
        !(json is Str) && json.get_str("text"@) is None ==> decode_item(json) is None,
{
}

/// What a plugin answers for a text is its first item: that text and those edits. An answer
/// without items, with one that is none, or none at all, leaves the text without edits.
pub proof fn law_answer(
    text: Seq<char>,
    json: JsonModel,
    items: Seq<JsonModel>,
    first: ItemModel,
    message: Seq<char>,
)
    requires
        json.get("items"@) == Some(JsonModel::Array(items)),
    ensures
        items.len() > 0 && decode_item(items[0]) == Some(first) && (forall|i: int|
            0 <= i < items.len() ==> decode_item(#[trigger] items[i]) is Some) ==> reply_output(
            text,
            Ok(json),
        ) == (OutputModel { text: first.text, text_edits: first.text_edits }),
        items.len() == 0 ==> reply_output(text, Ok(json)) == (OutputModel {
            text,
            text_edits: None,
        }),
        (exists|i: int| 0 <= i < items.len() && decode_item(#[trigger] items[i]) is None)
            ==> reply_output(text, Ok(json)) == (OutputModel { text, text_edits: None }),
        reply_output(text, Err(message)) == (OutputModel { text, text_edits: None }),
{
}

/// What is said of a failed call names what went wrong.
pub proof fn law_failures_say_why(reason: String, got: u64, expected: u64, timeout_ms: u64)
    ensures
        contains(failure_text(RpcError::WriteFailed(reason), timeout_ms), reason@),
        contains(failure_text(RpcError::Reported(reason), timeout_ms), reason@),
        contains(failure_text(RpcError::TimedOut, timeout_ms), decimal(timeout_ms as nat)),
        contains(
            failure_text(RpcError::WrongId { got, expected }, timeout_ms),
            decimal(got as nat),
        ),
        contains(
            failure_text(RpcError::WrongId { got, expected }, timeout_ms),
            decimal(expected as nat),
        ),
{
    lemma_stands_between("' write failed: "@, reason@, seq![]);
    assert("' write failed: "@ + reason@ + seq![] =~= "' write failed: "@ + reason@);
    lemma_stands_between("' error: "@, reason@, seq![]);
    assert("' error: "@ + reason@ + seq![] =~= "' error: "@ + reason@);
    lemma_stands_between(
        "' timed out after "@,
        decimal(timeout_ms as nat),
        " ms; disabling it for this session"@,
    );
    let one = decimal(got as nat);
    let two = decimal(expected as nat);
    let start = "' response id "@;
    let middle = " does not match request id "@;
    lemma_stands_between(start, one, middle + two);
    assert(start + one + (middle + two) =~= start + one + middle + two);
    lemma_stands_between(start + one + middle, two, seq![]);
    assert(start + one + middle + two + seq![] =~= start + one + middle + two);
}

proof fn lemma_stands_between(before: Seq<char>, text: Seq<char>, after: Seq<char>)
    ensures
        contains(before + text + after, text),
{
    let at = before.len() as int;
    assert((before + text + after).subrange(at, at + text.len()) =~= text);
    assert(occurs_at(before + text + after, text, at));
}

// ---- How a plugin is started ---------------------------------------------------

/// A subprocess is started by its own command with its own arguments, whatever Node is. A
/// script is handed to Node, before its arguments; a module is handed to Node by way of the
/// host, and cannot be started without one.
pub proof fn law_launch(
    command: String,
    path: String,
    args: Vec<String>,
    node: Option<Seq<char>>,
    host: Option<Seq<char>>,
    text: Seq<char>,
    i: int,
)
    ensures
        launch_of(Transport::Subprocess { command, args }, node, host) == Some(
            LaunchModel { command: command@, args: texts(args@), run_as_node: false },
        ),
        ({
            let launch = launch_of(Transport::Js { path, args }, node, host)->0;
            &&& launch_of(Transport::Js { path, args }, node, host) is Some
            &&& launch.run_as_node
            &&& launch.command == node_command(node)
            &&& launch.args.len() == args@.len() + 1
            &&& launch.args[0] == path@
            &&& 0 <= i < args@.len() ==> launch.args[i + 1] == args@[i]@
        }),
        trim(text).len() > 0 ==> launch_of(Transport::Wasm { path }, node, Some(text)) == Some(
            LaunchModel {
                command: node_command(node),
                args: seq![text, path@],
                run_as_node: true,
            },
        ),
        trim(text).len() == 0 ==> launch_of(Transport::Wasm { path }, node, Some(text)) is None,
        launch_of(Transport::Wasm { path }, node, None) is None,
        trim(text).len() > 0 ==> node_command(Some(text)) == text,
        trim(text).len() == 0 ==> node_command(Some(text)) == "node"@,
        node_command(None) == "node"@,
{
}

} // verus!
