//! A minimal mock language server to exercise the multiplexer.
//!
//! - On `initialize` it records `initializationOptions.scopeTag` and gives that string back
//!   from every `textDocument/hover`.
//! - On `textDocument/definition` it asks the editor for a `workspace/configuration` value,
//!   waits for the reply, and gives back `"<scopeTag>:<client value>"`.
//! - `shutdown` is answered with `null`; `exit` ends it. Anything else is ignored.
use vstd::prelude::*;

use crate::json::{
    int_model, json_parse, lemma_array_model, models, no_fields, parse_json, Json, JsonModel,
};
use crate::mux::frame_value;
use crate::mux_model::{framed_value, next_id};
use crate::number::{
    decimal, is_digit, lemma_decimal_round_trip, parse_unsigned, unsigned_of,
};
use crate::text::{
    chars_of, occurs_at, same_text, slice_text, stands_at, texts, trim, trim_end, trim_text,
};
use crate::text_laws::{law_numbers, law_space_around_does_not_count, lemma_skip_end};

verus! {

/// What the mock server knows.
#[verifier::ext_equal]
pub struct MockModel {
    pub scope_tag: Seq<char>,
    pub next_req: i64,
    /// The request that it waits for a reply to, and the id of the request that it will
    /// answer then.
    pub waiting: Option<(i64, JsonModel)>,
}

/// What a message does: the state after it, what is sent, and whether the server ends.
#[verifier::ext_equal]
pub struct MockStep {
    pub mock: MockModel,
    pub sent: Seq<Seq<char>>,
    pub ends: bool,
}

/// A response.
pub open spec fn reply_to(id: JsonModel, result: JsonModel) -> JsonModel {
    JsonModel::Object(
        no_fields().insert("jsonrpc"@, JsonModel::Str("2.0"@)).insert("id"@, id).insert(
            "result"@,
            result,
        ),
    )
}

/// An object with one field.
pub open spec fn single(key: Seq<char>, value: JsonModel) -> JsonModel {
    JsonModel::Object(no_fields().insert(key, value))
}

/// The result of `initialize`.
pub open spec fn mock_capabilities() -> JsonModel {
    JsonModel::Object(
        no_fields().insert(
            "capabilities"@,
            JsonModel::Object(
                no_fields().insert("hoverProvider"@, JsonModel::Bool(true)).insert(
                    "definitionProvider"@,
                    JsonModel::Bool(true),
                ),
            ),
        ).insert("serverInfo"@, single("name"@, JsonModel::Str("mock-lsp"@))),
    )
}

/// The result of a hover.
pub open spec fn mock_hover(tag: Seq<char>) -> JsonModel {
    single(
        "contents"@,
        JsonModel::Object(
            no_fields().insert("kind"@, JsonModel::Str("plaintext"@)).insert(
                "value"@,
                JsonModel::Str(tag),
            ),
        ),
    )
}

/// The request for the editor's configuration.
pub open spec fn config_request(id: i64) -> JsonModel {
    JsonModel::Object(
        no_fields().insert("jsonrpc"@, JsonModel::Str("2.0"@)).insert("id"@, int_model(id)).insert(
            "method"@,
            JsonModel::Str("workspace/configuration"@),
        ).insert(
            "params"@,
            single(
                "items"@,
                JsonModel::Array(seq![single("section"@, JsonModel::Str("probe"@))]),
            ),
        ),
    )
}

/// `params.initializationOptions.scopeTag` of an `initialize`.
pub open spec fn tag_in(v: JsonModel) -> Option<Seq<char>> {
    match v.get("params"@) {
        Some(params) => match params.get("initializationOptions"@) {
            Some(options) => options.get_str("scopeTag"@),
            None => None,
        },
        None => None,
    }
}

/// The first entry of a reply's `result`, where it is a string.
pub open spec fn first_result(v: JsonModel) -> Seq<char> {
    let first = match v.get("result"@) {
        Some(JsonModel::Array(items)) => if items.len() > 0 {
            items[0].as_str()
        } else {
            None
        },
        Some(result) => result.get_str("0"@),
        None => None,
    };
    match first {
        Some(text) => text,
        None => seq![],
    }
}

/// The answer to a `textDocument/definition`, once the editor has replied.
pub open spec fn mock_definition(tag: Seq<char>, client: Seq<char>) -> JsonModel {
    single("value"@, JsonModel::Str(tag + ":"@ + client))
}

/// The id of a message.
pub open spec fn mock_id(v: JsonModel) -> JsonModel {
    match v.get("id"@) {
        Some(id) => id,
        None => JsonModel::Null,
    }
}

/// A message while the server waits for nothing.
pub open spec fn mock_idle(mock: MockModel, v: JsonModel) -> MockStep {
    let id = mock_id(v);
    match v.get_str("method"@) {
        Some(method) => if method == "initialize"@ {
            MockStep {
                mock: MockModel {
                    scope_tag: match tag_in(v) {
                        Some(tag) => tag,
                        None => mock.scope_tag,
                    },
                    ..mock
                },
                sent: seq![framed_value(reply_to(id, mock_capabilities()))],
                ends: false,
            }
        } else if method == "textDocument/hover"@ {
            MockStep {
                mock,
                sent: seq![framed_value(reply_to(id, mock_hover(mock.scope_tag)))],
                ends: false,
            }
        } else if method == "textDocument/definition"@ {
            MockStep {
                mock: MockModel {
                    next_req: next_id(mock.next_req),
                    waiting: Some((mock.next_req, id)),
                    ..mock
                },
                sent: seq![framed_value(config_request(mock.next_req))],
                ends: false,
            }
        } else if method == "shutdown"@ {
            MockStep { mock, sent: seq![framed_value(reply_to(id, JsonModel::Null))], ends: false }
        } else {
            MockStep { mock, sent: seq![], ends: method == "exit"@ }
        },
        None => MockStep { mock, sent: seq![], ends: false },
    }
}

/// A message, or none where none could be read, while the server waits for a reply: any other
/// message is ignored, and where none could be read the value is empty.
pub open spec fn mock_waiting(
    mock: MockModel,
    req: i64,
    id: JsonModel,
    v: Option<JsonModel>,
) -> MockStep {
    let client = match v {
        Some(v) => first_result(v),
        None => seq![],
    };
    if v is None || mock_reply(v->0, req) {
        MockStep {
            mock: MockModel { waiting: None, ..mock },
            sent: seq![framed_value(reply_to(id, mock_definition(mock.scope_tag, client)))],
            ends: false,
        }
    } else {
        MockStep { mock, sent: seq![], ends: false }
    }
}

/// Whether a message is the reply to a request.
pub open spec fn mock_reply(v: JsonModel, req: i64) -> bool {
    v.get("method"@) is None && mock_id(v).as_i64() == Some(req)
}

/// What the body of a message does; one that is no JSON is ignored.
pub open spec fn mock_step(mock: MockModel, body: Seq<char>) -> MockStep {
    match json_parse(body) {
        Some(v) => match mock.waiting {
            Some((req, id)) => mock_waiting(mock, req, id, Some(v)),
            None => mock_idle(mock, v),
        },
        None => MockStep { mock, sent: seq![], ends: false },
    }
}

/// What it does that no message could be read, because the input has ended or holds no frame:
/// a server that waits for a reply gives that up and goes on reading, and any other ends.
pub open spec fn mock_end(mock: MockModel) -> MockStep {
    match mock.waiting {
        Some((req, id)) => mock_waiting(mock, req, id, None),
        None => MockStep { mock, sent: seq![], ends: true },
    }
}

/// The mock server.
pub struct MockServer {
    scope_tag: String,
    next_req: i64,
    waiting: Option<(i64, Json)>,
}

impl View for MockServer {
    type V = MockModel;

    closed spec fn view(&self) -> MockModel {
        MockModel {
            scope_tag: self.scope_tag@,
            next_req: self.next_req,
            waiting: match self.waiting {
                Some((req, id)) => Some((req, id@)),
                None => None,
            },
        }
    }
}

/// What the mock server does after a message.
pub struct MockOutput {
    /// The framed messages to send.
    pub sent: Vec<String>,
    /// Whether the server ends.
    pub ends: bool,
}

/// Send one message and go on.
fn send(v: &Json) -> (out: MockOutput)
    ensures
        texts(out.sent@) == seq![framed_value(v@)],
        !out.ends,
{
    let mut sent: Vec<String> = Vec::new();
    sent.push(frame_value(v));
    assert(texts(sent@) =~= seq![framed_value(v@)]);
    MockOutput { sent, ends: false }
}

/// Send nothing.
fn silent(ends: bool) -> (out: MockOutput)
    ensures
        texts(out.sent@) == Seq::<Seq<char>>::empty(),
        out.ends == ends,
{
    let sent: Vec<String> = Vec::new();
    assert(texts(sent@) =~= seq![]);
    MockOutput { sent, ends }
}

/// A response.
fn reply(id: Json, result: Json) -> (json: Json)
    ensures
        json@ == reply_to(id@, result@),
{
    Json::object().with("jsonrpc", Json::text("2.0")).with("id", id).with("result", result)
}

/// The first entry of a reply's `result`, where it is a string.
fn client_value(v: &Json) -> (text: String)
    ensures
        text@ == first_result(v@),
{
    let first = match v.get("result") {
        Some(result) => match result {
            Json::Array(items) => {
                proof {
                    lemma_array_model(*items);
                }
                if items.len() > 0 {
                    assert(models(items@)[0] == items@[0]@);
                    items[0].as_str()
                } else {
                    None
                }
            },
            _ => {
                assert(!(result@ is Array));
                result.get_str("0")
            },
        },
        None => None,
    };
    match first {
        Some(text) => text.to_owned(),
        None => {
            let text = String::new();
            assert(text@ =~= seq![]);
            text
        },
    }
}

impl MockServer {
    /// A server that was told nothing yet. The ids of its own requests are kept well clear
    /// of an editor's.
    pub fn new() -> (mock: Self)
        ensures
            mock@ == (MockModel { scope_tag: "none"@, next_req: 9000, waiting: None }),
    {
        MockServer { scope_tag: "none".to_owned(), next_req: 9000, waiting: None }
    }

    /// A message while the server waits for nothing.
    fn idle(&mut self, v: &Json) -> (out: MockOutput)
        requires
            old(self)@.waiting is None,
        ensures
            (MockStep { mock: final(self)@, sent: texts(out.sent@), ends: out.ends }) == mock_idle(
                old(self)@,
                v@,
            ),
    {
        let id = match v.get("id") {
            Some(id) => id.dup(),
            None => Json::Null,
        };
        let method = match v.get_str("method") {
            Some(method) => method,
            None => {
                return silent(false);
            },
        };
        if same_text(method, "initialize") {
            match v.get("params") {
                Some(params) => match params.get("initializationOptions") {
                    Some(options) => match options.get_str("scopeTag") {
                        Some(tag) => {
                            self.scope_tag = tag.to_owned();
                        },
                        None => {},
                    },
                    None => {},
                },
                None => {},
            }
            let capabilities = Json::object().with("hoverProvider", Json::Bool(true)).with(
                "definitionProvider",
                Json::Bool(true),
            );
            let info = Json::object().with("name", Json::text("mock-lsp"));
            let result = Json::object().with("capabilities", capabilities).with("serverInfo", info);
            assert(result@ == mock_capabilities());
            send(&reply(id, result))
        } else if same_text(method, "textDocument/hover") {
            let contents = Json::object().with("kind", Json::text("plaintext")).with(
                "value",
                Json::text(self.scope_tag.as_str()),
            );
            let result = Json::object().with("contents", contents);
            send(&reply(id, result))
        } else if same_text(method, "textDocument/definition") {
            let req = self.next_req;
            self.next_req = if req == i64::MAX {
                i64::MIN
            } else {
                req + 1
            };
            self.waiting = Some((req, id));
            let mut items: Vec<Json> = Vec::new();
            items.push(Json::object().with("section", Json::text("probe")));
            proof {
                lemma_array_model(items);
                assert(models(items@) =~= seq![single("section"@, JsonModel::Str("probe"@))]);
            }
            let params = Json::object().with("items", Json::Array(items));
            let request = Json::object().with("jsonrpc", Json::text("2.0")).with(
                "id",
                Json::integer(req),
            ).with("method", Json::text("workspace/configuration")).with("params", params);
            assert(request@ == config_request(req));
            send(&request)
        } else if same_text(method, "shutdown") {
            send(&reply(id, Json::Null))
        } else {
            silent(same_text(method, "exit"))
        }
    }

    /// Answer the request that was held back for the editor's reply.
    fn answer(&mut self, id: Json, client: &str) -> (out: MockOutput)
        ensures
            final(self)@ == (MockModel { waiting: None, ..old(self)@ }),
            texts(out.sent@) == seq![
                framed_value(reply_to(id@, mock_definition(old(self)@.scope_tag, client@))),
            ],
            !out.ends,
    {
        let mut value = self.scope_tag.clone();
        value.append(":");
        value.append(client);
        self.waiting = None;
        send(&reply(id, Json::object().with("value", Json::text(value.as_str()))))
    }

    /// Handle the body of one message.
    pub fn on_message(&mut self, body: &str) -> (out: MockOutput)
        ensures
            (MockStep { mock: final(self)@, sent: texts(out.sent@), ends: out.ends }) == mock_step(
                old(self)@,
                body@,
            ),
    {
        let v = match parse_json(body) {
            Some(v) => v,
            None => {
                return silent(false);
            },
        };
        let (req, id) = match &self.waiting {
            Some((req, id)) => (*req, id.dup()),
            None => {
                return self.idle(&v);
            },
        };
        self.await_config_reply(req, id, &v)
    }

    /// A message while the server waits for the editor's reply to `req`. Messages that are
    /// not that reply are ignored.
    fn await_config_reply(&mut self, req: i64, id: Json, v: &Json) -> (out: MockOutput)
        requires
            old(self)@.waiting == Some((req, id@)),
        ensures
            (MockStep { mock: final(self)@, sent: texts(out.sent@), ends: out.ends })
                == mock_waiting(old(self)@, req, id@, Some(v@)),
    {
        let answers = match v.get("id") {
            Some(id) => match id.as_i64() {
                Some(got) => got == req && !v.has("method"),
                None => false,
            },
            None => false,
        };
        if answers {
            let client = client_value(v);
            self.answer(id, client.as_str())
        } else {
            silent(false)
        }
    }

    /// Handle that no message could be read: the input has ended or holds no frame.
    pub fn on_end(&mut self) -> (out: MockOutput)
        ensures
            (MockStep { mock: final(self)@, sent: texts(out.sent@), ends: out.ends }) == mock_end(
                old(self)@,
            ),
    {
        let held = match &self.waiting {
            Some((_, id)) => Some(id.dup()),
            None => None,
        };
        match held {
            Some(id) => {
                let client = String::new();
                assert(client@ =~= seq![]);
                self.answer(id, client.as_str())
            },
            None => silent(true),
        }
    }
}

// ---- Headers -------------------------------------------------------------------

/// What a header line is to the mock server: the content length read so far, and whether the
/// line ends the headers. Only the exact name `Content-Length` counts, and a value that is no
/// number counts as none.
pub open spec fn mock_header(length: Option<nat>, line: Seq<char>) -> (Option<nat>, bool) {
    let header = trim_end(line);
    if header.len() == 0 {
        (length, true)
    } else if occurs_at(header, "Content-Length:"@, 0) {
        (parse_unsigned(trim(header.skip(15)), usize::MAX as nat), false)
    } else {
        (length, false)
    }
}

/// Take one more header line; the content length read so far, and whether the headers end.
pub fn read_mock_header(length: Option<usize>, line: &str) -> (out: (Option<usize>, bool))
    ensures
        (crate::lsp::length_of(out.0), out.1) == mock_header(crate::lsp::length_of(length), line@),
{
    let chars = chars_of(line);
    let mut end: usize = chars.len();
    assert(chars@.take(end as int) =~= chars@);
    while end > 0 && crate::text::space(chars[end - 1])
        invariant
            end <= chars@.len(),
            trim_end(line@) == trim_end(chars@.take(end as int)),
        decreases end,
    {
        assert(chars@.take(end as int).drop_last() =~= chars@.take(end - 1));
        end = end - 1;
    }
    let header = chars_of(slice_text(&chars, 0, end).as_str());
    assert(header@ =~= chars@.take(end as int));
    if header.len() == 0 {
        return (length, true);
    }
    let name = chars_of("Content-Length:");
    proof {
        reveal_strlit("Content-Length:");
    }
    if stands_at(&header, &name, 0) {
        let rest = slice_text(&header, 15, header.len());
        assert(rest@ =~= header@.skip(15));
        match unsigned_of(trim_text(rest.as_str()).as_str(), usize::MAX as u64) {
            Some(n) => (Some(n as usize), false),
            None => (None, false),
        }
    } else {
        (length, false)
    }
}

// ---- What holds of the server --------------------------------------------------

/// A reply carries the id of the request, and the result.
pub proof fn law_reply(id: JsonModel, result: JsonModel)
    ensures
        reply_to(id, result).get("jsonrpc"@) == Some(JsonModel::Str("2.0"@)),
        reply_to(id, result).get("id"@) == Some(id),
        reply_to(id, result).get("result"@) == Some(result),
{
    reveal_strlit("jsonrpc");
    reveal_strlit("id");
    reveal_strlit("result");
    assert("jsonrpc"@.len() == 7 && "id"@.len() == 2 && "result"@.len() == 6);
}

/// A header of the content length gives the length, any other header leaves it, and a blank line
/// ends the headers.
pub proof fn law_mock_headers(length: Option<nat>, n: nat, line: Seq<char>)
    requires
        n <= usize::MAX,
    ensures
        mock_header(length, "Content-Length: "@ + decimal(n) + "\r\n"@) == (Some(n), false),
        mock_header(length, "\r\n"@) == (length, true),
        trim_end(line).len() > 0 && !occurs_at(trim_end(line), "Content-Length:"@, 0)
            ==> mock_header(length, line) == (length, false),
{
    reveal_strlit("Content-Length: ");
    reveal_strlit("Content-Length:");
    reveal_strlit("\r\n");
    lemma_decimal_round_trip(n);
    let header = "Content-Length: "@ + decimal(n);
    let none = Seq::<char>::empty();
    assert(is_digit(decimal(n)[0]) && is_digit(decimal(n).last()));
    assert(header.last() == decimal(n).last());
    lemma_skip_end(header, "\r\n"@);
    assert(header.subrange(0, 15) =~= "Content-Length:"@);
    assert(header.skip(15) =~= seq![' '] + decimal(n));
    law_space_around_does_not_count(seq![' '], decimal(n), none);
    assert(seq![' '] + decimal(n) + none =~= seq![' '] + decimal(n));
    law_numbers(n, usize::MAX as nat, none);
    let end = "\r\n"@;
    reveal_with_fuel(trim_end, 3);
    assert(end.drop_last().drop_last() =~= none);
    assert(trim_end(end) =~= none);
}

/// The server says what it was told: a hover after an `initialize` shows the tag that came with
/// its options, under the id of the hover, and neither ends the server.
pub proof fn law_hover_shows_the_tag(
    mock: MockModel,
    first: JsonModel,
    tag: Seq<char>,
    hover: JsonModel,
    first_id: JsonModel,
    id: JsonModel,
)
    requires
        mock.waiting is None,
        first.get_str("method"@) == Some("initialize"@),
        first.get("id"@) == Some(first_id),
        tag_in(first) == Some(tag),
        hover.get_str("method"@) == Some("textDocument/hover"@),
        hover.get("id"@) == Some(id),
    ensures
        ({
            let started = mock_idle(mock, first);
            let shown = mock_idle(started.mock, hover);
            let contents = mock_hover(tag).get("contents"@)->0;
            &&& started.sent == seq![framed_value(reply_to(first_id, mock_capabilities()))]
            &&& shown.sent == seq![framed_value(reply_to(id, mock_hover(tag)))]
            &&& !started.ends && !shown.ends
            &&& shown.mock == started.mock
            &&& started.mock.waiting is None
            &&& contents.get_str("value"@) == Some(tag)
            &&& contents.get_str("kind"@) == Some("plaintext"@)
        }),
{
    reveal_strlit("initialize");
    reveal_strlit("textDocument/hover");
    reveal_strlit("contents");
    reveal_strlit("kind");
    reveal_strlit("value");
    assert("initialize"@.len() == 10 && "textDocument/hover"@.len() == 18);
    assert("kind"@.len() == 4 && "value"@.len() == 5);
}

/// A definition is answered, under its id, with the tag and with what the client says: the
/// server asks the client first, and whatever comes before the reply does nothing.
pub proof fn law_definition_shows_the_client(
    mock: MockModel,
    v: JsonModel,
    id: JsonModel,
    between: JsonModel,
    reply: JsonModel,
    text: Seq<char>,
    rest: Seq<JsonModel>,
)
    requires
        mock.waiting is None,
        v.get_str("method"@) == Some("textDocument/definition"@),
        v.get("id"@) == Some(id),
        between.get("method"@) is Some || (between.get("id"@) matches Some(other)
            && other.as_i64() != Some(mock.next_req)),
        reply.get("method"@) is None,
        reply.get("id"@) == Some(int_model(mock.next_req)),
        reply.get("result"@) == Some(JsonModel::Array(seq![JsonModel::Str(text)] + rest)),
    ensures
        ({
            let asked = mock_idle(mock, v);
            let still = mock_waiting(asked.mock, mock.next_req, id, Some(between));
            let done = mock_waiting(asked.mock, mock.next_req, id, Some(reply));
            let ended = mock_end(asked.mock);
            &&& asked.sent == seq![framed_value(config_request(mock.next_req))]
            &&& asked.mock.waiting == Some((mock.next_req, id))
            &&& still.mock == asked.mock && still.sent.len() == 0
            &&& done.sent == seq![
                framed_value(
                    reply_to(
                        id,
                        single("value"@, JsonModel::Str(mock.scope_tag + ":"@ + text)),
                    ),
                ),
            ]
            &&& done.mock.waiting is None
            &&& ended.sent.len() == 1 && !ended.ends && ended.mock.waiting is None
            &&& mock_end(ended.mock).ends
        }),
{
    reveal_strlit("initialize");
    reveal_strlit("textDocument/hover");
    reveal_strlit("textDocument/definition");
    assert("initialize"@.len() == 10 && "textDocument/hover"@.len() == 18);
    assert("textDocument/definition"@.len() == 23);
    let items = seq![JsonModel::Str(text)] + rest;
    assert(items[0] == JsonModel::Str(text));
}

/// A `shutdown` is answered with nothing, `exit` ends the server without a word, and other
/// messages do neither.
pub proof fn law_other_messages(mock: MockModel, v: JsonModel, id: JsonModel, method: Seq<char>)
    requires
        v.get_str("method"@) == Some(method),
        v.get("id"@) == Some(id) || v.get("id"@) is None,
    ensures
        method == "shutdown"@ && v.get("id"@) == Some(id) ==> mock_idle(mock, v).sent == seq![
            framed_value(reply_to(id, JsonModel::Null)),
        ] && !mock_idle(mock, v).ends,
        method == "exit"@ ==> mock_idle(mock, v).ends && mock_idle(mock, v).sent.len() == 0,
        method != "initialize"@ && method != "textDocument/hover"@ && method
            != "textDocument/definition"@ && method != "shutdown"@ ==> mock_idle(mock, v).sent.len()
            == 0 && mock_idle(mock, v).ends == (method == "exit"@),
        method != "initialize"@ && method != "textDocument/definition"@ ==> mock_idle(mock, v).mock
            == mock,
{
    reveal_strlit("initialize");
    reveal_strlit("textDocument/hover");
    reveal_strlit("textDocument/definition");
    reveal_strlit("shutdown");
    reveal_strlit("exit");
    assert("initialize"@.len() == 10 && "textDocument/hover"@.len() == 18);
    assert("textDocument/definition"@.len() == 23 && "shutdown"@.len() == 8);
    assert("exit"@.len() == 4);
}

} // verus!
