//! `terminal.input`: keystrokes and automatic replies on their way to a PTY.

use vstd::prelude::*;

use crate::control::ControlConnectionHandle;
use crate::outside::{base64_decode, frozen_bytes};
use crate::schema::{
    error, success, ErrorCode, Reply, ResponseResult, TabClaimGeometryParams, TerminalInputParams,
};
use crate::text::{appended, joined};

verus! {

/// What comes of a `terminal.input` request.
#[derive(Debug)]
pub enum InputStep {
    /// Nothing goes to the PTY.
    Answer { reply: Reply },
    /// The bytes go to the attach's PTY, after the claim if there is one;
    /// `input_sent` answers.
    Send { claim: Option<InputClaim>, bytes: bytes::Bytes },
}

/// The `tab.claim_geometry` request that goes ahead of a keystroke.
#[derive(Debug)]
pub struct InputClaim {
    pub id: String,
    pub params: TabClaimGeometryParams,
}

/// How handing bytes to a PTY ended.
#[derive(Debug, Clone, Copy, PartialEq, Eq, Structural)]
pub enum SendOutcome {
    Accepted,
    /// The PTY's queue is full.
    Full,
    /// The terminal takes no more input.
    Closed,
}

/// Whether input is an automatic reply that must not reach the PTY: the attach
/// does not answer the terminal's queries, nor did so until just now.
pub open spec fn is_stale_reply(
    handle: crate::control::HandleModel,
    attach_id: Seq<char>,
    auto: bool,
    now: u64,
) -> bool {
    auto && !handle.inputs[attach_id].may_answer(now)
}

/// Whether input claims the attach's tab: it is real typing, and the server
/// flagged the attach.
pub open spec fn claims(
    handle: crate::control::HandleModel,
    attach_id: Seq<char>,
    auto: bool,
) -> bool {
    !auto && handle.claim_on_input.contains(attach_id)
}

/// The handle once input was looked at: a claim is used up by one input.
pub open spec fn after_input(
    handle: crate::control::HandleModel,
    decoded: Result<Seq<u8>, Seq<char>>,
    attach_id: Seq<char>,
    auto: bool,
) -> crate::control::HandleModel {
    if decoded is Ok && handle.inputs.contains_key(attach_id) && !auto {
        crate::control::HandleModel {
            claim_on_input: handle.claim_on_input.remove(attach_id),
            ..handle
        }
    } else {
        handle
    }
}

/// What comes of input: its bytes must be base64 and its attach live; a stale
/// automatic reply is dropped without an error; everything else goes to the
/// PTY, typing behind a claim where one is due.
pub open spec fn comes_of_input(
    step: InputStep,
    handle: crate::control::HandleModel,
    id: Seq<char>,
    decoded: Result<Seq<u8>, Seq<char>>,
    attach_id: Seq<char>,
    auto: bool,
    now: u64,
) -> bool {
    match decoded {
        Err(message) => step matches InputStep::Answer { reply } && reply@
            == crate::schema::failure(
            id,
            ErrorCode::InvalidRequest,
            "invalid terminal.input bytes: "@ + message,
        ),
        Ok(content) => if !handle.inputs.contains_key(attach_id) {
            step matches InputStep::Answer { reply } && reply@ == crate::schema::failure(
                id,
                ErrorCode::UnknownAttach,
                "attach "@ + attach_id + " is not live"@,
            )
        } else if is_stale_reply(handle, attach_id, auto, now) {
            step matches InputStep::Answer { reply } && reply@
                == (crate::schema::ReplyModel::Success {
                id,
                result: crate::schema::ResultModel::Done,
            })
        } else {
            &&& step matches InputStep::Send { claim, bytes }
            &&& crate::outside::bytes_content(bytes) == content
            &&& claim is Some <==> claims(handle, attach_id, auto)
            &&& claim matches Some(claim) ==> {
                &&& claim.id@ == id + ":claim"@
                &&& claim.params.tab_id is None
                &&& crate::text::optional_text(claim.params.attach_id) == Some(attach_id)
            }
        },
    }
}

/// Decides what comes of input whose bytes were decoded, or could not be.
pub fn decoded_input(
    handle: &mut ControlConnectionHandle,
    id: String,
    decoded: Result<Vec<u8>, String>,
    attach_id: &str,
    auto: bool,
    now: u64,
) -> (step: InputStep)
    ensures
        comes_of_input(
            step,
            old(handle)@,
            id@,
            crate::outside::decoded_view(decoded),
            attach_id@,
            auto,
            now,
        ),
        final(handle)@ == after_input(
            old(handle)@,
            crate::outside::decoded_view(decoded),
            attach_id@,
            auto,
        ),
{
    let content: Vec<u8> = match decoded {
        Ok(content) => content,
        Err(message) => {
            return InputStep::Answer {
                reply: error(
                    id,
                    ErrorCode::InvalidRequest,
                    appended("invalid terminal.input bytes: ", message.as_str()),
                ),
            };
        },
    };
    let answers_queries: bool = match handle.input_sink_with_authority(attach_id, now) {
        Some(answers_queries) => answers_queries,
        None => {
            return InputStep::Answer {
                reply: error(
                    id,
                    ErrorCode::UnknownAttach,
                    joined("attach ", attach_id, " is not live"),
                ),
            };
        },
    };
    if auto && !answers_queries {
        return InputStep::Answer { reply: success(id, ResponseResult::Done) };
    }
    let claim = if !auto && handle.take_claim_on_input(attach_id) {
        Some(
            InputClaim {
                id: appended(id.as_str(), ":claim"),
                params: TabClaimGeometryParams {
                    tab_id: None,
                    attach_id: Some(attach_id.to_owned()),
                },
            },
        )
    } else {
        None
    };
    InputStep::Send { claim, bytes: frozen_bytes(content) }
}

/// Decides what comes of a `terminal.input` request at `now`.
pub fn terminal_input(
    handle: &mut ControlConnectionHandle,
    id: String,
    params: &TerminalInputParams,
    now: u64,
) -> (step: InputStep)
    ensures
        comes_of_input(
            step,
            old(handle)@,
            id@,
            crate::outside::base64_content(params.bytes@),
            params.attach_id@,
            params.auto,
            now,
        ),
        final(handle)@ == after_input(
            old(handle)@,
            crate::outside::base64_content(params.bytes@),
            params.attach_id@,
            params.auto,
        ),
{
    let decoded = base64_decode(params.bytes.as_str());
    decoded_input(handle, id, decoded, params.attach_id.as_str(), params.auto, now)
}

/// The answer once bytes were handed to a PTY, or were not.
pub fn input_sent(id: String, outcome: SendOutcome) -> (reply: Reply)
    ensures
        reply@ == (match outcome {
            SendOutcome::Accepted => crate::schema::ReplyModel::Success {
                id: id@,
                result: crate::schema::ResultModel::Done,
            },
            SendOutcome::Full => crate::schema::failure(
                id@,
                ErrorCode::InputFull,
                "terminal input queue is full; retry"@,
            ),
            SendOutcome::Closed => crate::schema::failure(
                id@,
                ErrorCode::TerminalClosed,
                "terminal no longer accepts input"@,
            ),
        }),
{
    match outcome {
        SendOutcome::Accepted => success(id, ResponseResult::Done),
        SendOutcome::Full => error(
            id,
            ErrorCode::InputFull,
            "terminal input queue is full; retry".to_owned(),
        ),
        SendOutcome::Closed => error(
            id,
            ErrorCode::TerminalClosed,
            "terminal no longer accepts input".to_owned(),
        ),
    }
}

/// An automatic reply never claims a tab and leaves a flagged claim for real
/// typing.
pub proof fn automatic_replies_never_claim(
    step: InputStep,
    handle: crate::control::HandleModel,
    id: Seq<char>,
    decoded: Result<Seq<u8>, Seq<char>>,
    attach_id: Seq<char>,
    now: u64,
)
    requires
        comes_of_input(step, handle, id, decoded, attach_id, true, now),
    ensures
        step matches InputStep::Send { claim, bytes } ==> claim is None,
        after_input(handle, decoded, attach_id, true) == handle,
{
}

/// An automatic reply reaches the PTY only from an attach that answers the
/// terminal's queries, or did so within the grace window.
pub proof fn only_the_authority_replies(
    step: InputStep,
    handle: crate::control::HandleModel,
    id: Seq<char>,
    decoded: Result<Seq<u8>, Seq<char>>,
    attach_id: Seq<char>,
    now: u64,
)
    requires
        comes_of_input(step, handle, id, decoded, attach_id, true, now),
        step is Send,
    ensures
        handle.inputs.contains_key(attach_id),
        handle.inputs[attach_id].authority || (handle.inputs[attach_id].lost_at matches Some(lost)
            && now - lost <= crate::control::AUTHORITY_GRACE),
{
}

/// One input, one claim: typing on a flagged attach claims its tab, and typing
/// again does not.
pub proof fn one_input_makes_one_claim(
    handle: crate::control::HandleModel,
    decoded: Result<Seq<u8>, Seq<char>>,
    attach_id: Seq<char>,
)
    requires
        decoded is Ok,
        handle.inputs.contains_key(attach_id),
    ensures
        !claims(after_input(handle, decoded, attach_id, false), attach_id, false),
{
}

/// What a client encoded is what reaches the PTY.
pub proof fn ptys_get_what_clients_encoded(
    step: InputStep,
    handle: crate::control::HandleModel,
    id: Seq<char>,
    text: Seq<char>,
    content: Seq<u8>,
    attach_id: Seq<char>,
    auto: bool,
    now: u64,
)
    requires
        crate::outside::decodes_to(text, content),
        comes_of_input(
            step,
            handle,
            id,
            crate::outside::base64_content(text),
            attach_id,
            auto,
            now,
        ),
    ensures
        step matches InputStep::Send { claim, bytes } ==> crate::outside::bytes_content(bytes)
            == content,
{
}

} // verus!
