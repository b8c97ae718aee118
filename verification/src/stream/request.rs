//! What the socket side does with a request line.

use vstd::prelude::*;
use vstd::string::*;

use crate::outside::find_json_member;
use crate::schema::{error, success, ErrorCode, Reply, ResponseResult, ServerCapabilities};
use crate::text::appended;

verus! {

/// Whether the stream goes on after a request line.
#[derive(Debug, Clone, Copy, PartialEq, Eq, Structural)]
pub enum LineOutcome {
    Continue,
    Close,
}

/// A request as the socket side tells requests apart.
#[derive(Debug, Clone, Copy, PartialEq, Eq, Structural)]
pub enum StreamMethod {
    ControlOpen,
    ControlClose,
    Ping,
    EventsSubscribe,
    TerminalInput,
    EventsWait,
    AgentPrompt,
    AgentWait,
    PaneWaitForOutput,
    PaneGraphicsStream,
    /// Anything else.
    Other,
}

/// A request line that was understood.
#[derive(Debug)]
pub struct ParsedRequest {
    pub id: String,
    pub method: StreamMethod,
}

/// What the socket side does with a request line.
#[derive(Debug)]
pub enum RequestStep {
    /// Nothing: the line is empty.
    Skip,
    /// Write the answer; the stream goes on.
    Answer { reply: Reply },
    /// Write the answer; the stream goes on even if it cannot be written.
    Complain { reply: Reply },
    /// Write the answer; the stream closes.
    AnswerAndClose { reply: Reply },
    /// Start subscriptions.
    Subscribe,
    /// Send input to a PTY.
    Input,
    /// Have the server answer.
    Dispatch,
}

impl StreamMethod {
    /// The name of a method that a control stream does not offer.
    pub open spec fn unsupported_name(self) -> Option<Seq<char>> {
        match self {
            StreamMethod::ControlOpen => Some("control.open"@),
            StreamMethod::EventsWait => Some("events.wait"@),
            StreamMethod::AgentPrompt => Some("agent.prompt"@),
            StreamMethod::AgentWait => Some("agent.wait"@),
            StreamMethod::PaneWaitForOutput => Some("pane.wait_for_output"@),
            StreamMethod::PaneGraphicsStream => Some("pane.graphics.stream"@),
            _ => None,
        }
    }
}

/// The answer to a method that a control stream does not offer.
fn unsupported(request_id: String, method: &str) -> (reply: Reply)
    ensures
        reply@ == crate::schema::failure(
            request_id@,
            ErrorCode::UnsupportedInControlStream,
            method@ + " is not available on a control stream; use a separate connection"@,
        ),
{
    error(
        request_id,
        ErrorCode::UnsupportedInControlStream,
        appended(method, " is not available on a control stream; use a separate connection"),
    )
}

/// Whether a step is what a request comes to: methods that a control stream
/// does not offer are refused, the socket side answers or starts what is its
/// own, and the server answers the rest.
pub open spec fn routed(
    step: RequestStep,
    id: Seq<char>,
    method: StreamMethod,
    version: Seq<char>,
    protocol: u32,
    capabilities: Option<ServerCapabilities>,
) -> bool {
    match method.unsupported_name() {
        Some(name) => step matches RequestStep::Answer { reply } && reply@
            == crate::schema::failure(
            id,
            ErrorCode::UnsupportedInControlStream,
            name + " is not available on a control stream; use a separate connection"@,
        ),
        None => match method {
            StreamMethod::ControlClose => step matches RequestStep::AnswerAndClose { reply }
                && reply@ == (crate::schema::ReplyModel::Success {
                id,
                result: crate::schema::ResultModel::Done,
            }),
            StreamMethod::Ping => step matches RequestStep::Answer { reply } && reply@
                == (crate::schema::ReplyModel::Success {
                id,
                result: crate::schema::ResultModel::Pong { version, protocol, capabilities },
            }),
            StreamMethod::EventsSubscribe => step is Subscribe,
            StreamMethod::TerminalInput => step is Input,
            _ => step is Dispatch,
        },
    }
}

/// Decides what to do with a request.
fn route(
    request_id: String,
    method: StreamMethod,
    version: &String,
    protocol: u32,
    capabilities: Option<ServerCapabilities>,
) -> (step: RequestStep)
    ensures
        routed(step, request_id@, method, version@, protocol, capabilities),
{
    match method {
        StreamMethod::ControlOpen => RequestStep::Answer {
            reply: unsupported(request_id, "control.open"),
        },
        StreamMethod::ControlClose => RequestStep::AnswerAndClose {
            reply: success(request_id, ResponseResult::Done),
        },
        StreamMethod::Ping => RequestStep::Answer {
            reply: success(
                request_id,
                ResponseResult::Pong { version: version.clone(), protocol, capabilities },
            ),
        },
        StreamMethod::EventsSubscribe => RequestStep::Subscribe,
        StreamMethod::TerminalInput => RequestStep::Input,
        StreamMethod::EventsWait => RequestStep::Answer {
            reply: unsupported(request_id, "events.wait"),
        },
        StreamMethod::AgentPrompt => RequestStep::Answer {
            reply: unsupported(request_id, "agent.prompt"),
        },
        StreamMethod::AgentWait => RequestStep::Answer {
            reply: unsupported(request_id, "agent.wait"),
        },
        StreamMethod::PaneWaitForOutput => RequestStep::Answer {
            reply: unsupported(request_id, "pane.wait_for_output"),
        },
        StreamMethod::PaneGraphicsStream => RequestStep::Answer {
            reply: unsupported(request_id, "pane.graphics.stream"),
        },
        StreamMethod::Other => RequestStep::Dispatch,
    }
}

/// Decides what to do with a request line, given what it was understood as, or
/// what is wrong with it.
pub fn handle_request_line(
    line: &str,
    parsed: Result<ParsedRequest, String>,
    version: &String,
    protocol: u32,
    capabilities: Option<ServerCapabilities>,
) -> (step: RequestStep)
    ensures
        if line@.len() == 0 {
            step is Skip
        } else {
            match parsed {
                Ok(request) => routed(
                    step,
                    request.id@,
                    request.method,
                    version@,
                    protocol,
                    capabilities,
                ),
                Err(problem) => step matches RequestStep::Complain { reply } && reply@
                    == crate::schema::failure(
                    id_of_member(crate::outside::json_member(line@, "id"@)),
                    ErrorCode::InvalidRequest,
                    "invalid request: "@ + problem@,
                ),
            }
        },
{
    if line.unicode_len() == 0 {
        return RequestStep::Skip;
    }
    match parsed {
        Ok(request) => route(request.id, request.method, version, protocol, capabilities),
        Err(problem) => RequestStep::Complain { reply: invalid_request(line, problem.as_str()) },
    }
}

/// The request id that a looked-up `id` member gives: its text, else none.
pub open spec fn id_of_member(member: Option<Option<Option<Seq<char>>>>) -> Seq<char> {
    match member {
        Some(Some(Some(id))) => id,
        _ => Seq::empty(),
    }
}

/// The request id that a looked-up `id` member gives.
pub fn request_id_from_member(member: Option<Option<Option<String>>>) -> (id: String)
    ensures
        id@ == id_of_member(crate::outside::member_view(member)),
{
    match member {
        Some(Some(Some(id))) => id,
        _ => String::new(),
    }
}

/// The id of a request line that is no request, as far as it names one.
pub fn request_id_from_line(line: &str) -> (id: String)
    ensures
        id@ == id_of_member(crate::outside::json_member(line@, "id"@)),
{
    request_id_from_member(find_json_member(line, "id"))
}

/// The answer to a line that is no request; `problem` says what is wrong with
/// it.
fn invalid_request(line: &str, problem: &str) -> (reply: Reply)
    ensures
        reply@ == crate::schema::failure(
            id_of_member(crate::outside::json_member(line@, "id"@)),
            ErrorCode::InvalidRequest,
            "invalid request: "@ + problem@,
        ),
{
    error(
        request_id_from_line(line),
        ErrorCode::InvalidRequest,
        appended("invalid request: ", problem),
    )
}

/// What decides whether the stream goes on after a request.
#[derive(Debug, Clone, Copy, PartialEq, Eq, Structural)]
pub enum Afterwards {
    /// It goes on.
    GoesOn,
    /// It goes on unless there was an answer that could not be written.
    GoesOnIfWritten,
    /// It closes.
    Closes,
}

impl RequestStep {
    /// What decides whether the stream goes on after this step.
    pub fn afterwards(&self) -> (afterwards: Afterwards)
        ensures
            afterwards == (match self {
                RequestStep::Skip | RequestStep::Complain { .. } => Afterwards::GoesOn,
                RequestStep::AnswerAndClose { .. } => Afterwards::Closes,
                _ => Afterwards::GoesOnIfWritten,
            }),
    {
        match self {
            RequestStep::Skip | RequestStep::Complain { .. } => Afterwards::GoesOn,
            RequestStep::AnswerAndClose { .. } => Afterwards::Closes,
            _ => Afterwards::GoesOnIfWritten,
        }
    }
}

/// Whether the stream goes on, given what became of the answer: nothing was
/// left to write, or it was written, or it could not be.
pub fn line_outcome(afterwards: Afterwards, written: Option<bool>) -> (outcome: LineOutcome)
    ensures
        outcome == (match afterwards {
            Afterwards::GoesOn => LineOutcome::Continue,
            Afterwards::GoesOnIfWritten => if written == Some(false) {
                LineOutcome::Close
            } else {
                LineOutcome::Continue
            },
            Afterwards::Closes => LineOutcome::Close,
        }),
{
    match afterwards {
        Afterwards::GoesOn => LineOutcome::Continue,
        Afterwards::GoesOnIfWritten => match written {
            Some(true) | None => LineOutcome::Continue,
            Some(false) => LineOutcome::Close,
        },
        Afterwards::Closes => LineOutcome::Close,
    }
}

/// Whether the answer to `control.open` failed, given its `error` member: it
/// did when there is one, or when the answer is no JSON.
pub open spec fn failed_by_member(member: Option<Option<Option<Seq<char>>>>) -> bool {
    member != Some(None::<Option<Seq<char>>>)
}

/// Whether the answer to `control.open` failed, given its `error` member.
pub fn open_failed_by_member(member: &Option<Option<Option<String>>>) -> (failed: bool)
    ensures
        failed == failed_by_member(crate::outside::member_view(*member)),
{
    match member {
        Some(None) => false,
        _ => true,
    }
}

/// Whether the answer to `control.open` failed.
pub fn open_failed(opened: &str) -> (failed: bool)
    ensures
        failed == failed_by_member(crate::outside::json_member(opened@, "error"@)),
{
    open_failed_by_member(&find_json_member(opened, "error"))
}

} // verus!
