//! One plugin process, call by call.
//!
//! A plugin that speaks newline-delimited JSON over stdio is asked one request at a time.
//! Every call is bounded by a timeout. If a plugin hangs, closes its pipe or answers out of
//! step, it is disabled: every later call fails at once, so one bad plugin drops out of the
//! chain instead of stalling the editor.
//!
//! [`RpcSession`] holds what a session knows and decides what each event means; the pipes
//! and the child process are its owner's.
use vstd::prelude::*;

use crate::json::{json_text, no_fields, unsigned_model, write_json, Json, JsonModel};
use crate::number::{decimal, decimal_text};
use crate::protocol::{with_some, Request, Response};

verus! {

/// Why a call failed.
pub enum RpcError {
    /// An earlier call disabled the plugin.
    Disabled,
    /// The request could not be written to the plugin; what the system said.
    WriteFailed(String),
    /// No answer came in time.
    TimedOut,
    /// The plugin closed its standard output.
    Closed,
    /// The answer is no response envelope.
    InvalidJson,
    /// The answer is one to another request.
    WrongId { got: u64, expected: u64 },
    /// The plugin answered with an error.
    Reported(String),
    /// The answer holds neither a result nor an error.
    NoResult,
}

/// What came of a request that was handed to the plugin.
pub enum Heard {
    /// It could not be written.
    WriteFailed(String),
    /// No line came in time.
    TimedOut,
    /// The plugin's output ended.
    Closed,
    /// A line came that is no response envelope.
    InvalidJson,
    /// A response came.
    Answer(Response),
}

/// Whether a plugin is given up on after this.
pub open spec fn disables(id: u64, heard: Heard) -> bool {
    match heard {
        Heard::WriteFailed(_) => true,
        Heard::TimedOut => true,
        Heard::Closed => true,
        Heard::InvalidJson => false,
        Heard::Answer(response) => response.id != id,
    }
}

/// How the call with the given id ends.
pub open spec fn call_ends(id: u64, heard: Heard, end: Result<Json, RpcError>) -> bool {
    match heard {
        Heard::WriteFailed(reason) => end == Err::<Json, RpcError>(RpcError::WriteFailed(reason)),
        Heard::TimedOut => end == Err::<Json, RpcError>(RpcError::TimedOut),
        Heard::Closed => end == Err::<Json, RpcError>(RpcError::Closed),
        Heard::InvalidJson => end == Err::<Json, RpcError>(RpcError::InvalidJson),
        Heard::Answer(response) => if response.id != id {
            end == Err::<Json, RpcError>(RpcError::WrongId { got: response.id, expected: id })
        } else {
            match (response.error, response.result) {
                (Some(message), _) => end == Err::<Json, RpcError>(RpcError::Reported(message)),
                (None, Some(result)) => end == Ok::<Json, RpcError>(result),
                (None, None) => end == Err::<Json, RpcError>(RpcError::NoResult),
            }
        },
    }
}

/// The wire form of a request.
pub open spec fn encode_request(id: u64, method: Seq<char>, params: Option<JsonModel>) -> JsonModel {
    JsonModel::Object(
        with_some(
            no_fields().insert("id"@, unsigned_model(id)).insert("method"@, JsonModel::Str(method)),
            "params"@,
            params,
        ),
    )
}

impl Request {
    /// The wire form.
    pub fn to_json(self) -> (json: Json)
        ensures
            json@ == encode_request(self.id, self.method@, crate::json::opt(self.params)),
    {
        let json = Json::object().with("id", Json::unsigned(self.id)).with(
            "method",
            Json::text(self.method.as_str()),
        );
        match self.params {
            Some(params) => json.with("params", params),
            None => json,
        }
    }
}

/// What a session with a plugin process knows.
pub struct RpcSession {
    /// Human label (the command) for diagnostics.
    pub label: String,
    /// The id of the next request.
    pub next_id: u64,
    /// Timeout, in milliseconds, for a single round trip.
    pub timeout_ms: u64,
    /// Set once the plugin was given up on.
    pub dead: bool,
}

/// A request that goes out: its id and its line.
pub struct Call {
    pub id: u64,
    pub line: String,
}

/// What a session is.
#[verifier::ext_equal]
pub struct SessionModel {
    pub label: Seq<char>,
    pub next_id: u64,
    pub timeout_ms: u64,
    pub dead: bool,
}

impl View for RpcSession {
    type V = SessionModel;

    open spec fn view(&self) -> SessionModel {
        SessionModel {
            label: self.label@,
            next_id: self.next_id,
            timeout_ms: self.timeout_ms,
            dead: self.dead,
        }
    }
}

/// The session after a call was begun: an id is used up, unless the plugin is disabled.
pub open spec fn begun(session: SessionModel) -> SessionModel {
    SessionModel {
        next_id: if session.dead {
            session.next_id
        } else if session.next_id == u64::MAX {
            0
        } else {
            (session.next_id + 1) as u64
        },
        ..session
    }
}

/// The session after a call ended.
pub open spec fn ended(session: SessionModel, id: u64, heard: Heard) -> SessionModel {
    SessionModel { dead: session.dead || disables(id, heard), ..session }
}

/// What happens in a session.
pub enum SessionEvent {
    /// A call is begun.
    Begun,
    /// The call with this id ends.
    Ended { id: u64, heard: Heard },
}

/// The session after some events, one after the other.
pub open spec fn session_after(session: SessionModel, events: Seq<SessionEvent>) -> SessionModel
    decreases events.len(),
{
    if events.len() == 0 {
        session
    } else {
        let before = session_after(session, events.drop_last());
        match events.last() {
            SessionEvent::Begun => begun(before),
            SessionEvent::Ended { id, heard } => ended(before, id, heard),
        }
    }
}

/// A disabled plugin stays disabled for the rest of the session: whatever calls are made,
/// none of them uses up an id, since none goes out.
pub proof fn law_disabled_stays(session: SessionModel, events: Seq<SessionEvent>)
    requires
        session.dead,
    ensures
        session_after(session, events) == session,
    decreases events.len(),
{
    if events.len() > 0 {
        law_disabled_stays(session, events.drop_last());
    }
}

/// A call that could not be written, that ran out of time, that found the output closed or
/// that got the answer to another request disables the plugin for good. An answer to the very
/// request disables nothing, also where it is an error, and neither does a line that is no
/// response.
pub proof fn law_faults_disable_for_good(
    session: SessionModel,
    id: u64,
    heard: Heard,
    events: Seq<SessionEvent>,
)
    ensures
        heard is WriteFailed || heard is TimedOut || heard is Closed || (heard is Answer
            && heard->Answer_0.id != id) ==> session_after(ended(session, id, heard), events).dead,
        heard is InvalidJson || (heard is Answer && heard->Answer_0.id == id) ==> ended(
            session,
            id,
            heard,
        ) == session,
{
    if disables(id, heard) {
        law_disabled_stays(ended(session, id, heard), events);
    }
}

impl RpcSession {
    /// A session with a fresh process.
    pub fn new(label: &str, timeout_ms: u64) -> (session: RpcSession)
        ensures
            session@ == (SessionModel { label: label@, next_id: 1, timeout_ms, dead: false }),
    {
        RpcSession { label: label.to_owned(), next_id: 1, timeout_ms, dead: false }
    }

    /// Begin a call: the line to write to the plugin, or at once an error where the plugin is
    /// disabled. Every request has an id of its own.
    pub fn begin(&mut self, method: &str, params: Json) -> (call: Result<Call, RpcError>)
        ensures
            final(self)@ == begun(old(self)@),
            old(self).dead ==> call == Err::<Call, RpcError>(RpcError::Disabled),
            !old(self).dead ==> call is Ok && call->Ok_0.id == old(self).next_id
                && call->Ok_0.line@ == json_text(
                encode_request(old(self).next_id, method@, Some(params@)),
            ) && !call->Ok_0.line@.contains('\n'),
    {
        if self.dead {
            return Err(RpcError::Disabled);
        }
        let id = self.next_id;
        self.next_id = if id == u64::MAX {
            0
        } else {
            id + 1
        };
        let request = Request { id, method: method.to_owned(), params: Some(params) };
        let line = write_json(&request.to_json());
        Ok(Call { id, line })
    }

    /// End the call with the given id, by what was heard of it. A plugin that could not be
    /// written to, that let the time run out, that closed its output or that answered
    /// another request is disabled.
    pub fn settle(&mut self, id: u64, heard: Heard) -> (end: Result<Json, RpcError>)
        ensures
            call_ends(id, heard, end),
            final(self)@ == ended(old(self)@, id, heard),
    {
        match heard {
            Heard::WriteFailed(reason) => {
                self.disable();
                Err(RpcError::WriteFailed(reason))
            },
            Heard::TimedOut => {
                self.disable();
                Err(RpcError::TimedOut)
            },
            Heard::Closed => {
                self.disable();
                Err(RpcError::Closed)
            },
            Heard::InvalidJson => Err(RpcError::InvalidJson),
            Heard::Answer(response) => {
                if response.id != id {
                    self.disable();
                    return Err(RpcError::WrongId { got: response.id, expected: id });
                }
                match response.error {
                    Some(message) => Err(RpcError::Reported(message)),
                    None => match response.result {
                        Some(result) => Ok(result),
                        None => Err(RpcError::NoResult),
                    },
                }
            },
        }
    }

    /// Give up on the plugin, so that subsequent calls fail fast.
    fn disable(&mut self)
        ensures
            final(self)@ == (SessionModel { dead: true, ..old(self)@ }),
    {
        self.dead = true;
    }

    /// What to tell the user about a failed call.
    pub fn message(&self, error: &RpcError) -> (message: String)
        ensures
            message@ == "plugin '"@ + self.label@ + failure_text(*error, self.timeout_ms),
    {
        let mut message = "plugin '".to_owned();
        message.append(self.label.as_str());
        match error {
            RpcError::Disabled => {
                message.append("' is disabled (previous timeout or I/O error)");
            },
            RpcError::WriteFailed(reason) => {
                message.append("' write failed: ");
                message.append(reason.as_str());
            },
            RpcError::TimedOut => {
                message.append("' timed out after ");
                message.append(decimal_text(self.timeout_ms).as_str());
                message.append(" ms; disabling it for this session");
            },
            RpcError::Closed => {
                message.append("' closed its stdout");
            },
            RpcError::InvalidJson => {
                message.append("' returned invalid JSON");
            },
            RpcError::WrongId { got, expected } => {
                message.append("' response id ");
                message.append(decimal_text(*got).as_str());
                message.append(" does not match request id ");
                message.append(decimal_text(*expected).as_str());
            },
            RpcError::Reported(text) => {
                message.append("' error: ");
                message.append(text.as_str());
            },
            RpcError::NoResult => {
                message.append("' returned no result");
            },
        }
        assert(message@ =~= "plugin '"@ + self.label@ + failure_text(*error, self.timeout_ms));
        message
    }
}

/// What is said of a plugin whose call failed, after its name.
pub open spec fn failure_text(error: RpcError, timeout_ms: u64) -> Seq<char> {
    match error {
        RpcError::Disabled => "' is disabled (previous timeout or I/O error)"@,
        RpcError::WriteFailed(reason) => "' write failed: "@ + reason@,
        RpcError::TimedOut => "' timed out after "@ + decimal(timeout_ms as nat)
            + " ms; disabling it for this session"@,
        RpcError::Closed => "' closed its stdout"@,
        RpcError::InvalidJson => "' returned invalid JSON"@,
        RpcError::WrongId { got, expected } => "' response id "@ + decimal(got as nat)
            + " does not match request id "@ + decimal(expected as nat),
        RpcError::Reported(text) => "' error: "@ + text@,
        RpcError::NoResult => "' returned no result"@,
    }
}

/// A result is handed on only from the answer to the very request.
pub proof fn law_result_is_the_requests(id: u64, heard: Heard, end: Result<Json, RpcError>)
    requires
        call_ends(id, heard, end),
        end is Ok,
    ensures
        heard is Answer,
        heard->Answer_0.id == id,
        heard->Answer_0.error is None,
        heard->Answer_0.result == Some(end->Ok_0),
        !disables(id, heard),
{
}

} // verus!
