//! The cross-language plugin protocol.
//!
//! A plugin speaks newline-delimited JSON: one request object per line in, one response
//! object per line out, matched by `id`. The proxy sends `initialize` once and `transform`
//! thereafter.
use vstd::prelude::*;

use crate::json::{int_model, lemma_array_model, models, no_fields, opt, Json, JsonModel};
use crate::plugin_api::{opt_models, TextKind};
use crate::text::texts;

verus! {

/// Bump when the wire format changes incompatibly.
///
/// v2: the items of a `transform` result may be objects (`{ text, text_edits }`) in addition
/// to bare strings, and [`TransformItem`] may carry the `position` and the `text_edits` of an
/// inlay hint.
pub const PROTOCOL_VERSION: u32 = 2;

// ---- Envelopes -----------------------------------------------------------------

/// A request envelope sent proxy -> plugin.
pub struct Request {
    pub id: u64,
    pub method: String,
    pub params: Option<Json>,
}

/// A response envelope sent plugin -> proxy.
pub struct Response {
    pub id: u64,
    pub result: Option<Json>,
    pub error: Option<String>,
}

// ---- initialize ----------------------------------------------------------------

/// `method: "initialize"` params.
pub struct InitializeParams {
    pub protocol_version: u32,
    pub verbosity: u8,
    pub unicode: bool,
}

/// The wire form of the `initialize` params.
pub open spec fn initialize_params(version: u32, verbosity: u8, unicode: bool) -> JsonModel {
    JsonModel::Object(
        no_fields().insert("protocol_version"@, int_model(version as i64)).insert(
            "verbosity"@,
            int_model(verbosity as i64),
        ).insert("unicode"@, JsonModel::Bool(unicode)),
    )
}

impl InitializeParams {
    /// The wire form.
    pub fn to_json(&self) -> (json: Json)
        ensures
            json@ == initialize_params(self.protocol_version, self.verbosity, self.unicode),
    {
        Json::object().with(
            "protocol_version",
            Json::integer(self.protocol_version as i64),
        ).with("verbosity", Json::integer(self.verbosity as i64)).with(
            "unicode",
            Json::Bool(self.unicode),
        )
    }
}

/// `method: "initialize"` result.
pub struct InitializeResult {
    pub name: String,
    /// Markers the plugin actually honors.
    pub markers: Vec<String>,
}

/// What an `initialize` result says.
#[verifier::ext_equal]
pub struct InitializeModel {
    pub name: Seq<char>,
    pub markers: Seq<Seq<char>>,
}

impl View for InitializeResult {
    type V = InitializeModel;

    open spec fn view(&self) -> InitializeModel {
        InitializeModel { name: self.name@, markers: texts(self.markers@) }
    }
}

/// Every item is a string.
pub open spec fn all_strings(items: Seq<JsonModel>) -> bool {
    forall|i: int| 0 <= i < items.len() ==> (#[trigger] items[i]) is Str
}

/// The strings of an array of strings.
pub open spec fn decode_strings(json: JsonModel) -> Option<Seq<Seq<char>>> {
    match json {
        JsonModel::Array(items) => if all_strings(items) {
            Some(items.map_values(|j: JsonModel| j->Str_0))
        } else {
            None
        },
        _ => None,
    }
}

/// The JSON array of some strings.
pub open spec fn encode_strings(list: Seq<Seq<char>>) -> JsonModel {
    JsonModel::Array(list.map_values(|s: Seq<char>| JsonModel::Str(s)))
}

/// The `initialize` result that a JSON value writes: an object with the string `name` and,
/// if the plugin likes, the strings `markers`; or an array of the two in this order.
pub open spec fn decode_initialize(json: JsonModel) -> Option<InitializeModel> {
    let (name, markers) = match json {
        JsonModel::Object(_) => (json.get("name"@), json.get("markers"@)),
        JsonModel::Array(items) => if 1 <= items.len() <= 2 {
            (
                Some(items[0]),
                if items.len() == 2 {
                    Some(items[1])
                } else {
                    None
                },
            )
        } else {
            (None, None)
        },
        _ => (None, None),
    };
    match (name, markers) {
        (Some(JsonModel::Str(name)), None) => Some(InitializeModel { name, markers: seq![] }),
        (Some(JsonModel::Str(name)), Some(list)) => match decode_strings(list) {
            Some(markers) => Some(InitializeModel { name, markers }),
            None => None,
        },
        _ => None,
    }
}

/// The wire form of an `initialize` result.
pub open spec fn encode_initialize(result: InitializeModel) -> JsonModel {
    JsonModel::Object(
        no_fields().insert("name"@, JsonModel::Str(result.name)).insert(
            "markers"@,
            encode_strings(result.markers),
        ),
    )
}

/// The strings of an array of strings.
fn strings_of(json: &Json) -> (list: Option<Vec<String>>)
    ensures
        decode_strings(json@) == (match list {
            Some(l) => Some(texts(l@)),
            None => None,
        }),
{
    match json {
        Json::Array(items) => {
            proof {
                lemma_array_model(*items);
            }
            let ghost all = models(items@);
            let mut list: Vec<String> = Vec::new();
            let mut i: usize = 0;
            while i < items.len()
                invariant
                    i <= items@.len(),
                    all == models(items@),
                    json@ == JsonModel::Array(all),
                    list@.len() == i,
                    forall|j: int|
                        0 <= j < i ==> (#[trigger] all[j]) is Str && all[j]->Str_0 == list@[j]@,
                decreases items@.len() - i,
            {
                assert(all[i as int] == items@[i as int]@);
                match items[i].as_str() {
                    Some(text) => list.push(text.to_owned()),
                    None => {
                        return None;
                    },
                }
                i = i + 1;
            }
            assert(texts(list@) =~= all.map_values(|j: JsonModel| j->Str_0));
            Some(list)
        },
        _ => None,
    }
}

/// The JSON array of some strings.
fn strings_json(list: &Vec<String>) -> (json: Json)
    ensures
        json@ == encode_strings(texts(list@)),
{
    let mut items: Vec<Json> = Vec::new();
    let mut i: usize = 0;
    while i < list.len()
        invariant
            i <= list@.len(),
            items@.len() == i,
            forall|j: int| 0 <= j < i ==> (#[trigger] items@[j])@ == JsonModel::Str(list@[j]@),
        decreases list@.len() - i,
    {
        items.push(Json::text(list[i].as_str()));
        i = i + 1;
    }
    proof {
        lemma_array_model(items);
        assert(models(items@) =~= texts(list@).map_values(|s: Seq<char>| JsonModel::Str(s)));
    }
    Json::Array(items)
}

impl InitializeResult {
    /// Read the wire form; nothing where it is not one.
    pub fn from_json(json: &Json) -> (result: Option<InitializeResult>)
        ensures
            decode_initialize(json@) == (match result {
                Some(r) => Some(r@),
                None => None,
            }),
    {
        let (name, markers) = match json {
            Json::Object(_) => (json.get("name"), json.get("markers")),
            Json::Array(items) => {
                proof {
                    lemma_array_model(*items);
                }
                if items.len() == 1 {
                    (Some(&items[0]), None)
                } else if items.len() == 2 {
                    (Some(&items[0]), Some(&items[1]))
                } else {
                    (None, None)
                }
            },
            _ => (None, None),
        };
        match name {
            Some(Json::Str(name)) => match markers {
                None => {
                    let result = InitializeResult { name: name.clone(), markers: Vec::new() };
                    assert(result@.markers =~= seq![]);
                    Some(result)
                },
                Some(list) => match strings_of(list) {
                    Some(markers) => Some(InitializeResult { name: name.clone(), markers }),
                    None => None,
                },
            },
            _ => None,
        }
    }

    /// The wire form.
    pub fn to_json(&self) -> (json: Json)
        ensures
            json@ == encode_initialize(self@),
    {
        Json::object().with("name", Json::text(self.name.as_str())).with(
            "markers",
            strings_json(&self.markers),
        )
    }
}

/// Reading an `initialize` result that was written gives it back.
pub proof fn law_initialize_round_trip(result: InitializeModel)
    ensures
        decode_initialize(encode_initialize(result)) == Some(result),
{
    reveal_strlit("name");
    reveal_strlit("markers");
    assert("name"@ != "markers"@) by {
        assert("name"@.len() == 4 && "markers"@.len() == 7);
    }
    let list = result.markers.map_values(|s: Seq<char>| JsonModel::Str(s));
    assert(list.map_values(|j: JsonModel| j->Str_0) =~= result.markers);
}

// ---- transform -----------------------------------------------------------------

/// One string to rewrite, plus the pristine original for context.
pub struct TransformItem {
    /// The current text (may reflect edits by earlier plugins in the chain).
    pub text: String,
    /// The original text before any plugin ran.
    pub original: String,
    /// The `position` of an inlay hint.
    pub position: Option<Json>,
    /// The existing `textEdits` of an inlay hint.
    pub text_edits: Option<Json>,
}

/// What a string to rewrite says.
#[verifier::ext_equal]
pub struct TransformItemModel {
    pub text: Seq<char>,
    pub original: Seq<char>,
    pub position: Option<JsonModel>,
    pub text_edits: Option<JsonModel>,
}

impl View for TransformItem {
    type V = TransformItemModel;

    open spec fn view(&self) -> TransformItemModel {
        TransformItemModel {
            text: self.text@,
            original: self.original@,
            position: opt(self.position),
            text_edits: opt(self.text_edits),
        }
    }
}

/// `fields` with one more field, where there is a value for it.
pub open spec fn with_some(
    fields: Map<Seq<char>, JsonModel>,
    key: Seq<char>,
    value: Option<JsonModel>,
) -> Map<Seq<char>, JsonModel> {
    match value {
        Some(v) => fields.insert(key, v),
        None => fields,
    }
}

/// The wire form of one string to rewrite.
pub open spec fn encode_transform_item(item: TransformItemModel) -> JsonModel {
    JsonModel::Object(
        with_some(
            with_some(
                no_fields().insert("text"@, JsonModel::Str(item.text)).insert(
                    "original"@,
                    JsonModel::Str(item.original),
                ),
                "position"@,
                item.position,
            ),
            "text_edits"@,
            item.text_edits,
        ),
    )
}

impl TransformItem {
    /// The wire form.
    pub fn to_json(&self) -> (json: Json)
        ensures
            json@ == encode_transform_item(self@),
    {
        let mut json = Json::object().with("text", Json::text(self.text.as_str())).with(
            "original",
            Json::text(self.original.as_str()),
        );
        match &self.position {
            Some(position) => {
                json = json.with("position", position.dup());
            },
            None => {},
        }
        match &self.text_edits {
            Some(edits) => {
                json = json.with("text_edits", edits.dup());
            },
            None => {},
        }
        json
    }
}

/// The wire name of a kind of text.
pub open spec fn kind_name(kind: TextKind) -> Seq<char> {
    match kind {
        TextKind::Hover => "hover"@,
        TextKind::InlayHint => "inlay_hint"@,
        TextKind::Diagnostic => "diagnostic"@,
        TextKind::Other => "other"@,
    }
}

/// `method: "transform"` params.
pub struct TransformParams {
    pub kind: TextKind,
    pub verbosity: u8,
    pub unicode: bool,
    pub items: Vec<TransformItem>,
}

/// What `transform` params say.
#[verifier::ext_equal]
pub struct TransformParamsModel {
    pub kind: TextKind,
    pub verbosity: u8,
    pub unicode: bool,
    pub items: Seq<TransformItemModel>,
}

impl View for TransformParams {
    type V = TransformParamsModel;

    open spec fn view(&self) -> TransformParamsModel {
        TransformParamsModel {
            kind: self.kind,
            verbosity: self.verbosity,
            unicode: self.unicode,
            items: self.items@.map_values(|i: TransformItem| i@),
        }
    }
}

/// The wire form of `transform` params.
pub open spec fn encode_transform_params(params: TransformParamsModel) -> JsonModel {
    JsonModel::Object(
        no_fields().insert("kind"@, JsonModel::Str(kind_name(params.kind))).insert(
            "verbosity"@,
            int_model(params.verbosity as i64),
        ).insert("unicode"@, JsonModel::Bool(params.unicode)).insert(
            "items"@,
            JsonModel::Array(
                params.items.map_values(|i: TransformItemModel| encode_transform_item(i)),
            ),
        ),
    )
}

impl TransformParams {
    /// The wire form.
    pub fn to_json(&self) -> (json: Json)
        ensures
            json@ == encode_transform_params(self@),
    {
        let kind = match self.kind {
            TextKind::Hover => "hover",
            TextKind::InlayHint => "inlay_hint",
            TextKind::Diagnostic => "diagnostic",
            TextKind::Other => "other",
        };
        let mut items: Vec<Json> = Vec::new();
        let mut i: usize = 0;
        while i < self.items.len()
            invariant
                i <= self.items@.len(),
                items@.len() == i,
                forall|j: int|
                    0 <= j < i ==> (#[trigger] items@[j])@ == encode_transform_item(
                        self.items@[j]@,
                    ),
            decreases self.items@.len() - i,
        {
            items.push(self.items[i].to_json());
            i = i + 1;
        }
        proof {
            lemma_array_model(items);
            assert(models(items@) =~= self@.items.map_values(
                |i: TransformItemModel| encode_transform_item(i),
            ));
        }
        Json::object().with("kind", Json::text(kind)).with(
            "verbosity",
            Json::integer(self.verbosity as i64),
        ).with("unicode", Json::Bool(self.unicode)).with("items", Json::Array(items))
    }
}

/// One transformed item: a bare rewritten string, or an object that also carries edits.
pub enum TransformResultItem {
    /// Just the rewritten text.
    Text(String),
    /// Rewritten text plus optional structured output.
    Rich {
        text: String,
        /// Replacement `textEdits` of an inlay hint. `None` leaves the existing edits
        /// untouched.
        text_edits: Option<Vec<Json>>,
    },
}

/// What a transformed item says.
#[verifier::ext_equal]
pub struct ItemModel {
    pub text: Seq<char>,
    pub text_edits: Option<Seq<JsonModel>>,
}

impl View for TransformResultItem {
    type V = ItemModel;

    open spec fn view(&self) -> ItemModel {
        match self {
            TransformResultItem::Text(text) => ItemModel { text: text@, text_edits: None },
            TransformResultItem::Rich { text, text_edits } => ItemModel {
                text: text@,
                text_edits: opt_models(*text_edits),
            },
        }
    }
}

/// The transformed item that a JSON value writes: a string, or an object with the string
/// `text` and, if the plugin likes, the array `text_edits`.
pub open spec fn decode_item(json: JsonModel) -> Option<ItemModel> {
    match json {
        JsonModel::Str(text) => Some(ItemModel { text, text_edits: None }),
        JsonModel::Object(_) => match json.get_str("text"@) {
            Some(text) => match json.get("text_edits"@) {
                None => Some(ItemModel { text, text_edits: None }),
                Some(JsonModel::Null) => Some(ItemModel { text, text_edits: None }),
                Some(JsonModel::Array(edits)) => Some(ItemModel { text, text_edits: Some(edits) }),
                Some(_) => None,
            },
            None => None,
        },
        _ => None,
    }
}

/// The wire form of a transformed item: bare where there are no edits to carry.
pub open spec fn encode_item(item: ItemModel) -> JsonModel {
    match item.text_edits {
        Some(edits) => JsonModel::Object(
            no_fields().insert("text"@, JsonModel::Str(item.text)).insert(
                "text_edits"@,
                JsonModel::Array(edits),
            ),
        ),
        None => JsonModel::Str(item.text),
    }
}

/// The items that some JSON values write, if each of them writes one.
pub open spec fn decode_items(items: Seq<JsonModel>) -> Option<Seq<ItemModel>> {
    if forall|i: int| 0 <= i < items.len() ==> decode_item(#[trigger] items[i]) is Some {
        Some(items.map_values(|j: JsonModel| decode_item(j)->0))
    } else {
        None
    }
}

/// The items of the `transform` result that a JSON value writes: an object with the array
/// `items`, or an array of that array.
pub open spec fn decode_transform(json: JsonModel) -> Option<Seq<ItemModel>> {
    match json {
        JsonModel::Object(_) => match json.get("items"@) {
            Some(JsonModel::Array(items)) => decode_items(items),
            _ => None,
        },
        JsonModel::Array(outer) => if outer.len() == 1 {
            match outer[0] {
                JsonModel::Array(items) => decode_items(items),
                _ => None,
            }
        } else {
            None
        },
        _ => None,
    }
}

/// The wire form of a `transform` result.
pub open spec fn encode_transform(items: Seq<ItemModel>) -> JsonModel {
    JsonModel::Object(
        no_fields().insert(
            "items"@,
            JsonModel::Array(items.map_values(|i: ItemModel| encode_item(i))),
        ),
    )
}

impl TransformResultItem {
    /// The rewritten text, regardless of variant.
    pub fn text(&self) -> (text: &str)
        ensures
            text@ == self@.text,
    {
        match self {
            TransformResultItem::Text(text) => text.as_str(),
            TransformResultItem::Rich { text, .. } => text.as_str(),
        }
    }

    /// Consume into `(text, text_edits)`.
    pub fn into_parts(self) -> (parts: (String, Option<Vec<Json>>))
        ensures
            parts.0@ == self@.text,
            opt_models(parts.1) == self@.text_edits,
    {
        match self {
            TransformResultItem::Text(text) => (text, None),
            TransformResultItem::Rich { text, text_edits } => (text, text_edits),
        }
    }

    /// Read the wire form; nothing where it is not one.
    pub fn from_json(json: &Json) -> (item: Option<TransformResultItem>)
        ensures
            decode_item(json@) == (match item {
                Some(i) => Some(i@),
                None => None,
            }),
    {
        match json {
            Json::Str(text) => Some(TransformResultItem::Text(text.clone())),
            Json::Object(_) => match json.get_str("text") {
                Some(text) => {
                    let text = text.to_owned();
                    match json.get("text_edits") {
                        None => Some(TransformResultItem::Rich { text, text_edits: None }),
                        Some(Json::Null) => Some(
                            TransformResultItem::Rich { text, text_edits: None },
                        ),
                        Some(Json::Array(edits)) => {
                            proof {
                                lemma_array_model(*edits);
                            }
                            Some(
                                TransformResultItem::Rich {
                                    text,
                                    text_edits: Some(copy_items(edits)),
                                },
                            )
                        },
                        Some(_) => None,
                    }
                },
                None => None,
            },
            _ => None,
        }
    }
}

/// A list with the same JSON values.
pub(crate) fn copy_items(items: &Vec<Json>) -> (copies: Vec<Json>)
    ensures
        models(copies@) == models(items@),
{
    let mut copies: Vec<Json> = Vec::new();
    let mut i: usize = 0;
    while i < items.len()
        invariant
            i <= items@.len(),
            copies@.len() == i,
            forall|j: int| 0 <= j < i ==> (#[trigger] copies@[j])@ == items@[j]@,
        decreases items@.len() - i,
    {
        copies.push(items[i].dup());
        i = i + 1;
    }
    assert(models(copies@) =~= models(items@));
    copies
}

/// `method: "transform"` result. `items[i]` is the rewrite of the request's `items[i]`.
pub struct TransformResult {
    pub items: Vec<TransformResultItem>,
}

impl View for TransformResult {
    type V = Seq<ItemModel>;

    open spec fn view(&self) -> Seq<ItemModel> {
        self.items@.map_values(|i: TransformResultItem| i@)
    }
}

/// The items that some JSON values write.
fn items_of(list: &Vec<Json>) -> (result: Option<TransformResult>)
    ensures
        decode_items(models(list@)) == (match result {
            Some(r) => Some(r@),
            None => None,
        }),
{
    let ghost all = models(list@);
    let mut items: Vec<TransformResultItem> = Vec::new();
    let mut i: usize = 0;
    while i < list.len()
        invariant
            i <= list@.len(),
            all == models(list@),
            items@.len() == i,
            forall|j: int|
                0 <= j < i ==> decode_item(#[trigger] all[j]) == Some(items@[j]@),
        decreases list@.len() - i,
    {
        assert(all[i as int] == list@[i as int]@);
        match TransformResultItem::from_json(&list[i]) {
            Some(item) => items.push(item),
            None => {
                return None;
            },
        }
        i = i + 1;
    }
    let result = TransformResult { items };
    assert(result@ =~= all.map_values(|j: JsonModel| decode_item(j)->0));
    Some(result)
}

impl TransformResult {
    /// Read the wire form; nothing where it is not one.
    pub fn from_json(json: &Json) -> (result: Option<TransformResult>)
        ensures
            decode_transform(json@) == (match result {
                Some(r) => Some(r@),
                None => None,
            }),
    {
        match json {
            Json::Object(_) => match json.get("items") {
                Some(Json::Array(items)) => {
                    proof {
                        lemma_array_model(*items);
                    }
                    items_of(items)
                },
                _ => None,
            },
            Json::Array(outer) => {
                proof {
                    lemma_array_model(*outer);
                }
                if outer.len() == 1 {
                    match &outer[0] {
                        Json::Array(items) => {
                            proof {
                                lemma_array_model(*items);
                            }
                            items_of(items)
                        },
                        _ => None,
                    }
                } else {
                    None
                }
            },
            _ => None,
        }
    }
}

/// Reading a `transform` result that was written gives it back, whether its items are bare
/// strings or carry edits.
pub proof fn law_transform_round_trip(items: Seq<ItemModel>)
    ensures
        decode_transform(encode_transform(items)) == Some(items),
{
    reveal_strlit("text");
    reveal_strlit("text_edits");
    assert("text"@ != "text_edits"@) by {
        assert("text"@.len() == 4 && "text_edits"@.len() == 10);
    }
    let wire = items.map_values(|i: ItemModel| encode_item(i));
    assert forall|i: int| 0 <= i < wire.len() implies decode_item(#[trigger] wire[i]) == Some(
        items[i],
    ) by {
        assert(wire[i] == encode_item(items[i]));
    }
    assert(wire.map_values(|j: JsonModel| decode_item(j)->0) =~= items);
}

// ---- Manifests -----------------------------------------------------------------

/// How the proxy launches a plugin.
pub enum Transport {
    /// The proxy spawns `command` and speaks JSONL over stdio.
    Subprocess { command: String, args: Vec<String> },
    /// A JavaScript file run with a Node runtime.
    Js { path: String, args: Vec<String> },
    /// A WebAssembly module run in a Node runtime by a small harness.
    Wasm { path: String },
}

/// A plugin's manifest: a small JSON file the proxy discovers at startup.
pub struct PluginManifest {
    /// Stable identifier.
    pub name: String,
    /// Cheap substrings gating the fast path.
    pub markers: Vec<String>,
    /// LSP `languageId`s this plugin applies to. Empty means language-agnostic.
    pub languages: Vec<String>,
    /// Ids of the language servers this plugin supports. Empty means any server.
    pub language_servers: Vec<String>,
    /// Application-order hint for the transform chain: lower runs earlier.
    pub order: i32,
    /// Per-plugin timeout, in milliseconds, for a single round trip.
    pub timeout_ms: Option<u64>,
    /// How to run the plugin.
    pub transport: Transport,
}

} // verus!
