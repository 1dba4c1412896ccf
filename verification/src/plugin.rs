//! Transport-agnostic plugin adapter.
//!
//! Every plugin, whether a subprocess, a JavaScript file or a WebAssembly module, implements
//! the same tiny RPC contract: a single `call(method, params) -> result`. [`RpcTransport`]
//! captures that, and [`ProtocolPlugin`] builds the higher-level [`Plugin`] on top of any
//! transport.
use std::borrow::Cow;
use vstd::prelude::*;

use crate::json::{opt_ref, Json, JsonModel};
use crate::pipeline::{absorbed, ChainModel};
use crate::plugin_api::{
    marker_texts, no_change, ContextModel, OutputModel, Plugin, TransformContext, TransformOutput,
};
use crate::protocol::{
    decode_initialize, decode_transform, encode_transform_params, initialize_params,
    InitializeParams, InitializeResult, PluginManifest, TransformItem, TransformItemModel,
    TransformParams, TransformParamsModel, TransformResult, Transport, PROTOCOL_VERSION,
};
use crate::text::{blank, copy_list, same_text, texts, trim};

verus! {

/// What a reply is: the `result` payload, or what went wrong.
pub open spec fn reply_model(reply: Result<Json, String>) -> Result<JsonModel, Seq<char>> {
    match reply {
        Ok(json) => Ok(json@),
        Err(message) => Err(message@),
    }
}

/// One JSON request/response round trip to a plugin, giving back the method's `result`
/// payload, or what went wrong. Implementations encapsulate the transport; everything
/// protocol-level lives in [`ProtocolPlugin`].
pub trait RpcTransport: Send + Sync {
    /// Whether a call can be answered so; an error stands for a failed call. A transport
    /// that does not say can answer anything.
    open spec fn may_reply(
        &self,
        method: Seq<char>,
        params: JsonModel,
        reply: Result<JsonModel, Seq<char>>,
    ) -> bool {
        true
    }

    fn call(&self, method: &str, params: Json) -> (reply: Result<Json, String>)
        ensures
            self.may_reply(method@, params@, reply_model(reply)),
    ;
}

/// Why a plugin could not be set up.
pub enum PluginError {
    /// The call of `initialize` failed; what went wrong.
    Call(String),
    /// The answer to `initialize` is none of the protocol.
    Malformed,
}

/// The line to a plugin's process or module.
pub struct Line<T> {
    pub transport: T,
}

/// A [`Plugin`] implemented over any [`RpcTransport`].
pub struct ProtocolPlugin {
    pub name: String,
    /// The name that the plugin gave in the handshake.
    pub reported_name: String,
    pub markers: Vec<Cow<'static, str>>,
    pub rpc: Line<Box<dyn RpcTransport>>,
}

/// How a handshake ends, by the reply to `initialize`: with a plugin of the manifest's name
/// and markers where the reply is one of the protocol, and otherwise with an error, which is
/// the call's own where the call failed.
pub open spec fn handshake_ended(
    manifest: PluginManifest,
    reply: Result<JsonModel, Seq<char>>,
    plugin: Result<ProtocolPlugin, PluginError>,
) -> bool {
    match reply {
        Ok(json) => match decode_initialize(json) {
            Some(reported) => {
                &&& plugin matches Ok(p)
                &&& p.name@ == manifest.name@
                &&& p.reported_name@ == reported.name
                &&& marker_texts(p.markers@) == texts(manifest.markers@)
            },
            None => plugin == Err::<ProtocolPlugin, PluginError>(PluginError::Malformed),
        },
        Err(message) => plugin matches Err(PluginError::Call(told)) && told@ == message,
    }
}

/// What to tell the user about the name that a plugin reported: nothing, where it is the
/// manifest's.
pub open spec fn name_warning(name: Seq<char>, reported: Seq<char>) -> Option<Seq<char>> {
    if reported == name {
        None
    } else {
        Some(
            "plugin manifest name '"@ + name + "' does not match reported name '"@ + reported
                + "'"@,
        )
    }
}

impl ProtocolPlugin {
    /// Perform the `initialize` handshake over an already-constructed transport, and give
    /// back the ready plugin.
    pub fn with_transport(
        manifest: &PluginManifest,
        rpc: Box<dyn RpcTransport>,
        verbosity: u8,
        unicode: bool,
    ) -> (plugin: Result<ProtocolPlugin, PluginError>)
        ensures
            exists|reply: Result<JsonModel, Seq<char>>| #[trigger]
                rpc.may_reply(
                    "initialize"@,
                    initialize_params(PROTOCOL_VERSION, verbosity, unicode),
                    reply,
                ) && handshake_ended(*manifest, reply, plugin),
            plugin matches Ok(p) ==> p.rpc.transport == rpc,
    {
        let params = InitializeParams { protocol_version: PROTOCOL_VERSION, verbosity, unicode };
        let reply = rpc.call("initialize", params.to_json());
        let ghost model = reply_model(reply);
        assert(rpc.may_reply(
            "initialize"@,
            initialize_params(PROTOCOL_VERSION, verbosity, unicode),
            model,
        ));
        let json = match reply {
            Ok(json) => json,
            Err(message) => {
                return Err(PluginError::Call(message));
            },
        };
        match InitializeResult::from_json(&json) {
            Some(init) => {
                let line = Line { transport: rpc };
                let plugin = ProtocolPlugin {
                    name: manifest.name.clone(),
                    reported_name: init.name,
                    markers: owned_markers(&manifest.markers),
                    rpc: line,
                };
                Ok(plugin)
            },
            None => Err(PluginError::Malformed),
        }
    }

    /// The warning that is due where the plugin reported another name than the manifest's.
    pub fn name_warning(&self) -> (warning: Option<String>)
        ensures
            opt_text(warning) == name_warning(self.name@, self.reported_name@),
    {
        if same_text(self.reported_name.as_str(), self.name.as_str()) {
            return None;
        }
        let mut warning = "plugin manifest name '".to_owned();
        warning.append(self.name.as_str());
        warning.append("' does not match reported name '");
        warning.append(self.reported_name.as_str());
        warning.append("'");
        Some(warning)
    }
}

/// The markers of a manifest.
fn owned_markers(list: &Vec<String>) -> (markers: Vec<Cow<'static, str>>)
    ensures
        marker_texts(markers@) == texts(list@),
{
    let mut markers: Vec<Cow<'static, str>> = Vec::new();
    let mut i: usize = 0;
    while i < list.len()
        invariant
            i <= list@.len(),
            markers@.len() == i,
            forall|j: int| 0 <= j < i ==> (#[trigger] markers@[j])@ == list@[j]@,
        decreases list@.len() - i,
    {
        markers.push(Cow::Owned(list[i].clone()));
        i = i + 1;
    }
    assert(marker_texts(markers@) =~= texts(list@));
    markers
}

/// The params of a `transform` call for one text.
pub open spec fn transform_request(text: Seq<char>, ctx: ContextModel) -> JsonModel {
    encode_transform_params(
        TransformParamsModel {
            kind: ctx.kind,
            verbosity: ctx.verbosity,
            unicode: ctx.unicode,
            items: seq![
                TransformItemModel {
                    text,
                    original: ctx.original,
                    position: ctx.position,
                    text_edits: ctx.text_edits,
                },
            ],
        },
    )
}

/// What the reply to a `transform` call makes of a text: its first item takes the text's
/// place, and anything that is no such reply changes nothing.
pub open spec fn reply_output(
    text: Seq<char>,
    reply: Result<JsonModel, Seq<char>>,
) -> OutputModel {
    match reply {
        Ok(json) => match decode_transform(json) {
            Some(items) => if items.len() > 0 {
                OutputModel { text: items[0].text, text_edits: items[0].text_edits }
            } else {
                no_change(text)
            },
            None => no_change(text),
        },
        Err(_) => no_change(text),
    }
}

/// A failed call, a reply that is none of the protocol and one without items leave the text
/// and the edits as they are, wherever in the chain the plugin stands.
pub proof fn law_failure_passes_through(
    state: ChainModel,
    reply: Result<JsonModel, Seq<char>>,
)
    requires
        reply matches Ok(json) ==> (decode_transform(json) matches Some(items) ==> items.len()
            == 0),
    ensures
        absorbed(state, reply_output(state.text, reply)) == state,
{
}

/// What the reply to a `transform` call makes of a text. The text is borrowed just where it
/// is the same.
pub fn read_reply<'a>(text: &'a str, reply: &Json) -> (out: TransformOutput<'a>)
    ensures
        out@ == reply_output(text@, Ok(reply@)),
        out.text == Cow::<'a, str>::Borrowed(text) || (out.text is Owned && out@.text != text@),
{
    match TransformResult::from_json(reply) {
        Some(result) => {
            let mut items = result.items;
            assert(result@.len() == items@.len());
            if items.len() == 0 {
                return TransformOutput::unchanged(text);
            }
            assert(result@[0] == items@[0]@);
            let (out_text, text_edits) = items.swap_remove(0).into_parts();
            let new = if out_text == text.to_owned() {
                Cow::Borrowed(text)
            } else {
                Cow::Owned(out_text)
            };
            TransformOutput { text: new, text_edits }
        },
        None => TransformOutput::unchanged(text),
    }
}

/// A value of its own for an optional reference.
fn dup_opt(json: Option<&Json>) -> (copy: Option<Json>)
    ensures
        crate::json::opt(copy) == opt_ref(json),
{
    match json {
        Some(json) => Some(json.dup()),
        None => None,
    }
}

impl Plugin for ProtocolPlugin {
    open spec fn name_text(&self) -> Seq<char> {
        self.name@
    }

    open spec fn marker_list(&self) -> Seq<Seq<char>> {
        marker_texts(self.markers@)
    }

    open spec fn may_return(&self, text: Seq<char>, ctx: ContextModel, out: OutputModel) -> bool {
        exists|reply: Result<JsonModel, Seq<char>>| #[trigger]
            self.rpc.transport.may_reply("transform"@, transform_request(text, ctx), reply) && out
                == reply_output(text, reply)
    }

    fn name(&self) -> (name: &str) {
        self.name.as_str()
    }

    fn markers(&self) -> (markers: &[Cow<'static, str>]) {
        self.markers.as_slice()
    }

    fn transform<'a>(&self, text: &'a str, ctx: &TransformContext<'_>) -> (out: TransformOutput<'a>)
        ensures
            out.text == Cow::<'a, str>::Borrowed(text) || (out.text is Owned && out@.text
                != text@),
    {
        let item = TransformItem {
            text: text.to_owned(),
            original: ctx.original.to_owned(),
            position: dup_opt(ctx.position),
            text_edits: dup_opt(ctx.text_edits),
        };
        let mut items: Vec<TransformItem> = Vec::new();
        items.push(item);
        let params = TransformParams {
            kind: ctx.kind,
            verbosity: ctx.verbosity,
            unicode: ctx.unicode,
            items,
        };
        assert(params@.items =~= seq![item@]);
        let reply = self.rpc.transport.call("transform", params.to_json());
        let ghost model = reply_model(reply);
        assert(self.rpc.transport.may_reply("transform"@, transform_request(text@, ctx@), model));
        match reply {
            Ok(json) => read_reply(text, &json),
            Err(_) => TransformOutput::unchanged(text),
        }
    }
}

// ---- Launching -----------------------------------------------------------------

/// How to start the process of a plugin.
pub struct Launch {
    pub command: String,
    pub args: Vec<String>,
    /// Whether `ELECTRON_RUN_AS_NODE=1` is set, which makes an Electron binary behave as
    /// plain Node; a real `node` binary ignores it.
    pub run_as_node: bool,
}

/// What a launch is.
#[verifier::ext_equal]
pub struct LaunchModel {
    pub command: Seq<char>,
    pub args: Seq<Seq<char>>,
    pub run_as_node: bool,
}

impl View for Launch {
    type V = LaunchModel;

    open spec fn view(&self) -> LaunchModel {
        LaunchModel {
            command: self.command@,
            args: texts(self.args@),
            run_as_node: self.run_as_node,
        }
    }
}

/// What an optional text is.
pub open spec fn opt_text(text: Option<String>) -> Option<Seq<char>> {
    match text {
        Some(t) => Some(t@),
        None => None,
    }
}

/// A setting that is there and not blank.
pub open spec fn non_blank(value: Option<Seq<char>>) -> Option<Seq<char>> {
    match value {
        Some(text) => if trim(text).len() > 0 {
            Some(text)
        } else {
            None
        },
        None => None,
    }
}

/// A setting that is there and not blank.
pub fn keep_non_blank(value: Option<String>) -> (kept: Option<String>)
    ensures
        opt_text(kept) == non_blank(opt_text(value)),
{
    match value {
        Some(text) => if blank(text.as_str()) {
            None
        } else {
            Some(text)
        },
        None => None,
    }
}

/// The Node runtime: the one that was set, else `node` on the `PATH`.
pub open spec fn node_command(setting: Option<Seq<char>>) -> Seq<char> {
    match non_blank(setting) {
        Some(node) => node,
        None => "node"@,
    }
}

/// The process that runs a plugin, where it can be run: a WebAssembly module needs a Node
/// harness to load it.
pub open spec fn launch_of(
    transport: Transport,
    node: Option<Seq<char>>,
    wasm_host: Option<Seq<char>>,
) -> Option<LaunchModel> {
    match transport {
        Transport::Subprocess { command, args } => Some(
            LaunchModel { command: command@, args: texts(args@), run_as_node: false },
        ),
        Transport::Js { path, args } => Some(
            LaunchModel {
                command: node_command(node),
                args: seq![path@] + texts(args@),
                run_as_node: true,
            },
        ),
        Transport::Wasm { path } => match non_blank(wasm_host) {
            Some(host) => Some(
                LaunchModel {
                    command: node_command(node),
                    args: seq![host, path@],
                    run_as_node: true,
                },
            ),
            None => None,
        },
    }
}

/// Resolve the Node runtime for JS/WASM plugins: the editor's bundled Node (`POTEMKIN_NODE`),
/// else `node` on `PATH`.
pub fn resolve_node(setting: Option<String>) -> (node: String)
    ensures
        node@ == node_command(opt_text(setting)),
{
    match keep_non_blank(setting) {
        Some(node) => node,
        None => "node".to_owned(),
    }
}

/// A Node process with these arguments.
fn spawn_node(node: String, args: Vec<String>) -> (launch: Launch)
    ensures
        launch@ == (LaunchModel { command: node@, args: texts(args@), run_as_node: true }),
{
    Launch { command: node, args, run_as_node: true }
}

/// The process for a manifest, resolving JS/WASM specifics, where `node` is `POTEMKIN_NODE`
/// and `wasm_host` is `POTEMKIN_WASM_HOST`.
pub fn build_transport(
    manifest: &PluginManifest,
    node: Option<String>,
    wasm_host: Option<String>,
) -> (launch: Option<Launch>)
    ensures
        launch_of(manifest.transport, opt_text(node), opt_text(wasm_host)) == (match launch {
            Some(l) => Some(l@),
            None => None,
        }),
{
    match &manifest.transport {
        Transport::Subprocess { command, args } => Some(
            Launch { command: command.clone(), args: copy_list(args), run_as_node: false },
        ),
        Transport::Js { path, args } => {
            let mut full: Vec<String> = Vec::new();
            full.push(path.clone());
            let mut rest = copy_list(args);
            let ghost tail = rest@;
            full.append(&mut rest);
            assert(texts(full@) =~= seq![path@] + texts(tail));
            Some(spawn_node(resolve_node(node), full))
        },
        Transport::Wasm { path } => match keep_non_blank(wasm_host) {
            Some(host) => {
                let mut full: Vec<String> = Vec::new();
                full.push(host);
                full.push(path.clone());
                assert(texts(full@) =~= seq![host@, path@]);
                Some(spawn_node(resolve_node(node), full))
            },
            None => None,
        },
    }
}

/// What to tell the user where a WebAssembly plugin has no harness to run it.
pub fn missing_host_message(name: &str) -> (message: String)
    ensures
        message@ == "plugin '"@ + name@
            + "' uses the wasm transport, but POTEMKIN_WASM_HOST is not set (the VS Code extension sets this; for standalone use, point it at a Node harness bundling @extism/extism)"@,
{
    let mut message = "plugin '".to_owned();
    message.append(name);
    message.append(
        "' uses the wasm transport, but POTEMKIN_WASM_HOST is not set (the VS Code extension sets this; for standalone use, point it at a Node harness bundling @extism/extism)",
    );
    message
}

/// The timeout of a plugin's round trips, in milliseconds: the manifest's own, else the
/// default.
pub fn timeout_of(manifest: &PluginManifest, default_ms: u64) -> (ms: u64)
    ensures
        ms == (match manifest.timeout_ms {
            Some(own) => own,
            None => default_ms,
        }),
{
    match manifest.timeout_ms {
        Some(own) => own,
        None => default_ms,
    }
}

} // verus!
