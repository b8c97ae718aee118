//! What holds between a client and its stream.

use vstd::prelude::*;

use super::input::{input_sent, InputStep, SendOutcome};
use super::reader::{reader_wait, retries, ReadFailure, ReaderWait, TimeoutOutcome};
use super::records::WriterLine;
use super::request::{
    line_outcome, Afterwards, LineOutcome, RequestStep, StreamMethod,
};
use super::serve::{ServeAction, ServeEvent, ServeStage, SocketOutcome};
use super::subscribe::{events_gap_record, Started};
use crate::control::InputEntry;
use crate::event_hub::EventGap;
use crate::schema::{ControlRecord, ErrorCode, Reply, ServerCapabilities};

verus! {

/// Whether an attach answers a terminal's queries at a time, or did until two
/// seconds before at most.
pub open spec fn just_answered(entry: InputEntry, now: u64) -> bool {
    entry.authority || (entry.lost_at is Some && now - entry.lost_at->Some_0 <= 2_000_000_000)
}

/// Whether an input is answered with success and goes nowhere.
pub open spec fn dropped(step: InputStep, id: Seq<char>) -> bool {
    step matches InputStep::Answer { reply } && reply@ == (crate::schema::ReplyModel::Success {
        id,
        result: crate::schema::ResultModel::Done,
    })
}

/// Whether an input is refused with a code.
pub open spec fn refused(
    step: InputStep,
    id: Seq<char>,
    code: ErrorCode,
    message: Seq<char>,
) -> bool {
    step matches InputStep::Answer { reply } && reply@ == (crate::schema::ReplyModel::Failure {
        id,
        code,
        message,
    })
}

/// Typing on an attach that takes input reaches the PTY, whoever answers the
/// terminal's queries. A claim through the attach goes ahead of it exactly when
/// the server flagged the attach.
pub proof fn typing_reaches_the_pty(
    step: InputStep,
    handle: crate::control::HandleModel,
    id: Seq<char>,
    content: Seq<u8>,
    attach_id: Seq<char>,
    now: u64,
)
    requires
        super::input::comes_of_input(step, handle, id, Ok(content), attach_id, false, now),
        handle.inputs.contains_key(attach_id),
    ensures
        step is Send,
        crate::outside::bytes_content(step->Send_bytes) == content,
        step->Send_claim is Some <==> handle.claim_on_input.contains(attach_id),
        step->Send_claim is Some ==> {
            let claim = step->Send_claim->Some_0;
            &&& claim.id@ == id + ":claim"@
            &&& claim.params.tab_id is None
            &&& claim.params.attach_id is Some
            &&& claim.params.attach_id->Some_0@ == attach_id
        },
{
}

/// An automatic reply reaches the PTY, without a claim, from an attach that
/// answers the terminal's queries or did so until two seconds before. From any
/// other attach it is dropped, which is no failure.
pub proof fn automatic_replies_are_the_answering_attachs(
    step: InputStep,
    handle: crate::control::HandleModel,
    id: Seq<char>,
    content: Seq<u8>,
    attach_id: Seq<char>,
    now: u64,
)
    requires
        super::input::comes_of_input(step, handle, id, Ok(content), attach_id, true, now),
        handle.inputs.contains_key(attach_id),
    ensures
        just_answered(handle.inputs[attach_id], now) ==> step is Send
            && crate::outside::bytes_content(step->Send_bytes) == content && step->Send_claim is None,
        !just_answered(handle.inputs[attach_id], now) ==> dropped(step, id),
{
}

/// Input for an attach that takes none is refused, and so are bytes that could
/// not be decoded, for any attach.
pub proof fn bad_input_is_refused(
    step: InputStep,
    handle: crate::control::HandleModel,
    id: Seq<char>,
    decoded: Result<Seq<u8>, Seq<char>>,
    attach_id: Seq<char>,
    auto: bool,
    now: u64,
)
    requires
        super::input::comes_of_input(step, handle, id, decoded, attach_id, auto, now),
    ensures
        decoded is Err ==> refused(
            step,
            id,
            ErrorCode::InvalidRequest,
            "invalid terminal.input bytes: "@ + decoded->Err_0,
        ),
        decoded is Ok && !handle.inputs.contains_key(attach_id) ==> refused(
            step,
            id,
            ErrorCode::UnknownAttach,
            "attach "@ + attach_id + " is not live"@,
        ),
{
}

/// Typing uses up its attach's flag, and that alone; whatever else comes in
/// changes nothing.
pub proof fn typing_uses_up_the_flag(
    handle: crate::control::HandleModel,
    decoded: Result<Seq<u8>, Seq<char>>,
    attach_id: Seq<char>,
    auto: bool,
    other: Seq<char>,
)
    ensures
        ({
            let after = super::input::after_input(handle, decoded, attach_id, auto);
            let typed = decoded is Ok && handle.inputs.contains_key(attach_id) && !auto;
            &&& after.id == handle.id
            &&& after.alive == handle.alive
            &&& after.inputs == handle.inputs
            &&& after.protocol == handle.protocol
            &&& after.claim_on_input.contains(other) <==> handle.claim_on_input.contains(other)
                && !(typed && other == attach_id)
        }),
{
}

/// An attach that loses authority is remembered to have lost it at that time;
/// one that gains it forgets; one that had none to lose remembers what it did.
/// Nothing else of a handle changes, and no attach comes to take input.
pub proof fn losing_authority_is_remembered(
    handle: crate::control::HandleModel,
    attach_id: Seq<char>,
    is_authority: bool,
    now: u64,
    other: Seq<char>,
)
    ensures
        ({
            let after = handle.with_input_authority(attach_id, is_authority, now);
            let entry = after.inputs[attach_id];
            &&& after.inputs.contains_key(other) == handle.inputs.contains_key(other)
            &&& other != attach_id && handle.inputs.contains_key(other) ==> after.inputs[other]
                == handle.inputs[other]
            &&& after.id == handle.id && after.alive == handle.alive && after.protocol
                == handle.protocol && after.claim_on_input == handle.claim_on_input
            &&& handle.inputs.contains_key(attach_id) ==> {
                &&& entry.authority == is_authority
                &&& is_authority ==> entry.lost_at is None
                &&& !is_authority && handle.inputs[attach_id].authority ==> entry.lost_at == Some(
                    now,
                )
                &&& !is_authority && !handle.inputs[attach_id].authority ==> entry.lost_at
                    == handle.inputs[attach_id].lost_at
            }
        }),
{
    if handle.inputs.contains_key(attach_id) {
        let after = handle.with_input_authority(attach_id, is_authority, now);
        assert(after.inputs.contains_key(attach_id));
    }
}

/// An attach that takes input starts without authority, and never lost any; one
/// that takes none any more is gone. The others stay.
pub proof fn inputs_come_and_go(
    handle: crate::control::HandleModel,
    attach_id: Seq<char>,
    other: Seq<char>,
    now: u64,
)
    requires
        other != attach_id,
    ensures
        ({
            let with = handle.registered(attach_id);
            let without = handle.unregistered(attach_id);
            &&& with.inputs.contains_key(attach_id)
            &&& !with.inputs[attach_id].authority
            &&& with.inputs[attach_id].lost_at is None
            &&& !just_answered(with.inputs[attach_id], now)
            &&& !without.inputs.contains_key(attach_id)
            &&& with.inputs.contains_key(other) == handle.inputs.contains_key(other)
            &&& without.inputs.contains_key(other) == handle.inputs.contains_key(other)
            &&& handle.inputs.contains_key(other) ==> with.inputs[other] == handle.inputs[other]
                && without.inputs[other] == handle.inputs[other]
        }),
{
}

/// How handing bytes to a PTY ended is what the client is told.
pub proof fn the_client_learns_what_became_of_its_input(
    id: String,
    outcome: SendOutcome,
    reply: Reply,
)
    requires
        call_ensures(input_sent, (id, outcome), reply),
    ensures
        outcome == SendOutcome::Accepted ==> reply@ == (crate::schema::ReplyModel::Success {
            id: id@,
            result: crate::schema::ResultModel::Done,
        }),
        outcome == SendOutcome::Full ==> reply@ == (crate::schema::ReplyModel::Failure {
            id: id@,
            code: ErrorCode::InputFull,
            message: "terminal input queue is full; retry"@,
        }),
        outcome == SendOutcome::Closed ==> reply@ == (crate::schema::ReplyModel::Failure {
            id: id@,
            code: ErrorCode::TerminalClosed,
            message: "terminal no longer accepts input"@,
        }),
{
}

/// Whether a request is refused on a control stream.
pub open spec fn is_refused(step: RequestStep, id: Seq<char>, name: Seq<char>) -> bool {
    step matches RequestStep::Answer { reply } && reply@ == (crate::schema::ReplyModel::Failure {
        id,
        code: ErrorCode::UnsupportedInControlStream,
        message: name + " is not available on a control stream; use a separate connection"@,
    })
}

/// Whether a request is answered with a result.
pub open spec fn is_answered(
    step: RequestStep,
    id: Seq<char>,
    result: crate::schema::ResultModel,
) -> bool {
    step matches RequestStep::Answer { reply } && reply@ == (crate::schema::ReplyModel::Success {
        id,
        result,
    })
}

/// Whether a request is answered as done and the stream closes.
pub open spec fn is_closing(step: RequestStep, id: Seq<char>) -> bool {
    step matches RequestStep::AnswerAndClose { reply } && reply@
        == (crate::schema::ReplyModel::Success { id, result: crate::schema::ResultModel::Done })
}

/// Methods that wait, stream or open are refused. Closing is answered and closes.
/// A ping is answered on the spot with who the server is. Subscriptions and input
/// are the stream's own. The server answers everything else.
pub proof fn requests_go_where_they_belong(
    step: RequestStep,
    id: Seq<char>,
    method: StreamMethod,
    version: Seq<char>,
    protocol: u32,
    capabilities: Option<ServerCapabilities>,
)
    requires
        super::request::routed(step, id, method, version, protocol, capabilities),
    ensures
        method == StreamMethod::ControlOpen ==> is_refused(step, id, "control.open"@),
        method == StreamMethod::EventsWait ==> is_refused(step, id, "events.wait"@),
        method == StreamMethod::AgentPrompt ==> is_refused(step, id, "agent.prompt"@),
        method == StreamMethod::AgentWait ==> is_refused(step, id, "agent.wait"@),
        method == StreamMethod::PaneWaitForOutput ==> is_refused(step, id, "pane.wait_for_output"@),
        method == StreamMethod::PaneGraphicsStream ==> is_refused(
            step,
            id,
            "pane.graphics.stream"@,
        ),
        method == StreamMethod::ControlClose ==> is_closing(step, id),
        method == StreamMethod::Ping ==> is_answered(
            step,
            id,
            crate::schema::ResultModel::Pong { version, protocol, capabilities },
        ),
        method == StreamMethod::EventsSubscribe ==> step is Subscribe,
        method == StreamMethod::TerminalInput ==> step is Input,
        method == StreamMethod::Other ==> step is Dispatch,
{
}

/// A stream closes when it was asked to, or when it goes on only if its answer
/// is written and that failed; else it goes on.
pub proof fn streams_close_for_a_reason(
    afterwards: Afterwards,
    written: Option<bool>,
    outcome: LineOutcome,
)
    requires
        call_ensures(line_outcome, (afterwards, written), outcome),
    ensures
        outcome == LineOutcome::Close <==> afterwards == Afterwards::Closes || (afterwards
            == Afterwards::GoesOnIfWritten && written == Some(false)),
{
}

/// An empty line and a line that is no request never close a stream; a request to
/// close always does; what else there is goes on if its answer can be written.
pub proof fn steps_say_whether_the_stream_goes_on(step: RequestStep, afterwards: Afterwards)
    requires
        call_ensures(RequestStep::afterwards, (&step,), afterwards),
    ensures
        step is Skip || step is Complain ==> afterwards == Afterwards::GoesOn,
        step is AnswerAndClose ==> afterwards == Afterwards::Closes,
        step is Answer || step is Subscribe || step is Input || step is Dispatch ==> afterwards
            == Afterwards::GoesOnIfWritten,
{
}

/// A line that is no request is answered under the id it names as text, else
/// under none. Opening failed unless the answer is an object without an error.
pub proof fn answers_are_told_apart_by_one_member(member: Option<Option<Option<Seq<char>>>>)
    ensures
        member is Some && member->Some_0 is Some && member->Some_0->Some_0 is Some
            ==> super::request::id_of_member(member) == member->Some_0->Some_0->Some_0,
        !(member is Some && member->Some_0 is Some && member->Some_0->Some_0 is Some)
            ==> super::request::id_of_member(member).len() == 0,
        super::request::failed_by_member(member) <==> member is None || member->Some_0 is Some,
{
}

/// Output is written with the attach it is for, its number and all its bytes,
/// and gives as many bytes back to that attach's budget as it had. No other item
/// gives anything back.
pub proof fn output_is_written_whole(
    item: crate::control::OutboundModel,
    line: WriterLine,
)
    requires
        super::records::writes(item, line),
    ensures
        item matches crate::control::OutboundModel::Output { attach_id, seq, bytes } ==> {
            &&& line is Record
            &&& line->record is Output
            &&& line->record->Output_attach_id@ == attach_id
            &&& line->record->Output_seq == seq
            &&& crate::outside::decodes_to(line->record->Output_bytes@, bytes)
            &&& super::records::gives_back(item) == Some((attach_id, bytes.len()))
        },
        !(item is Output) ==> super::records::gives_back(item) is None,
{
}

/// Every record says of its attach what was queued: the snapshot, what was
/// dropped and after which output, why it ended, whether it answers queries. A
/// finished line is written as it is.
pub proof fn records_say_what_was_queued(
    item: crate::control::OutboundModel,
    line: WriterLine,
)
    requires
        super::records::writes(item, line),
    ensures
        item matches crate::control::OutboundModel::Line(text) ==> line is Line && line->line@
            == text,
        item matches crate::control::OutboundModel::Snapshot { attach_id, snapshot } ==> {
            &&& line is Record
            &&& line->record is Snapshot
            &&& line->record->Snapshot_attach_id@ == attach_id
            &&& line->record->Snapshot_snapshot == snapshot
        },
        item matches crate::control::OutboundModel::Gap { attach_id, seq, dropped_bytes } ==> {
            &&& line is Record
            &&& line->record is Gap
            &&& line->record->Gap_attach_id@ == attach_id
            &&& line->record->Gap_seq == seq
            &&& line->record->Gap_dropped_bytes == dropped_bytes
        },
        item matches crate::control::OutboundModel::Detached { attach_id, reason } ==> {
            &&& line is Record
            &&& line->record is Detached
            &&& line->record->Detached_attach_id@ == attach_id
            &&& line->record->Detached_reason == reason
        },
        item matches crate::control::OutboundModel::Authority { attach_id, answers_queries } ==> {
            &&& line is Record
            &&& line->record is Authority
            &&& line->record->Authority_attach_id@ == attach_id
            &&& line->record->Authority_answers_queries == answers_queries
        },
{
}

/// What a stream goes through, event by event, from the answer of `control.open`
/// to its end.
pub open spec fn gone_through(stage: ServeStage, events: Seq<ServeEvent>) -> (
    ServeStage,
    Seq<ServeAction>,
)
    decreases events.len(),
{
    if events.len() == 0 {
        (stage, Seq::empty())
    } else {
        let (before, actions) = gone_through(stage, events.drop_last());
        let (after, action) = super::serve::served(before, events.last());
        (after, actions.push(action))
    }
}

/// A stream whose opening succeeded writes its answer, starts its writer, reads
/// requests and is released, as a success unless reading failed. One whose
/// opening failed is released once its answer is written.
pub proof fn a_stream_is_served_to_its_end(ended: SocketOutcome)
    ensures
        ({
            let opened = ServeEvent::Opened { failed: false };
            let answered = ServeEvent::Answered { outcome: SocketOutcome::Done };
            let started = ServeEvent::Started { outcome: SocketOutcome::Done };
            let over = ServeEvent::ReaderEnded { outcome: ended };
            let (stage, actions) = gone_through(
                ServeStage::Opening,
                seq![opened, answered, started, over],
            );
            &&& stage == ServeStage::Over
            &&& actions == seq![
                ServeAction::WriteAnswer,
                ServeAction::StartWriter,
                ServeAction::ReadRequests,
                ServeAction::Release { ok: ended != SocketOutcome::Failed },
            ]
        }),
        ({
            let opened = ServeEvent::Opened { failed: true };
            let answered = ServeEvent::Answered { outcome: SocketOutcome::Done };
            let (stage, actions) = gone_through(ServeStage::Opening, seq![opened, answered]);
            &&& stage == ServeStage::Over
            &&& actions == seq![ServeAction::WriteAnswer, ServeAction::Release { ok: true }]
        }),
{
    let over = ServeEvent::ReaderEnded { outcome: ended };
    let answered = ServeEvent::Answered { outcome: SocketOutcome::Done };
    let started = ServeEvent::Started { outcome: SocketOutcome::Done };
    let opened = ServeEvent::Opened { failed: false };
    let failed = ServeEvent::Opened { failed: true };
    let all = seq![opened, answered, started, over];
    reveal_with_fuel(gone_through, 5);
    assert(all.drop_last() =~= seq![opened, answered, started]);
    assert(seq![opened, answered, started].drop_last() =~= seq![opened, answered]);
    assert(seq![opened, answered].drop_last() =~= seq![opened]);
    assert(seq![opened].drop_last() =~= Seq::<ServeEvent>::empty());
    assert(seq![failed, answered].drop_last() =~= seq![failed]);
    assert(seq![failed].drop_last() =~= Seq::<ServeEvent>::empty());
    let actions = gone_through(ServeStage::Opening, all).1;
    assert(actions =~= seq![
        ServeAction::WriteAnswer,
        ServeAction::StartWriter,
        ServeAction::ReadRequests,
        ServeAction::Release { ok: ended != SocketOutcome::Failed },
    ]);
    assert(gone_through(ServeStage::Opening, seq![failed, answered]).1 =~= seq![
        ServeAction::WriteAnswer,
        ServeAction::Release { ok: true },
    ]);
}

/// A client that is gone before its answer is written is no failure; a socket
/// that fails is, and so is one that the writer cannot have.
pub proof fn streams_that_break_are_released(
    failed: bool,
    outcome: SocketOutcome,
    stage: ServeStage,
    event: ServeEvent,
)
    requires
        outcome != SocketOutcome::Done,
        (stage == (ServeStage::Answering { failed }) && event == (ServeEvent::Answered { outcome }))
            || (stage == ServeStage::Starting && event == (ServeEvent::Started { outcome })),
    ensures
        super::serve::served(stage, event).0 == ServeStage::Over,
        super::serve::served(stage, event).1 == (ServeAction::Release {
            ok: stage is Answering && outcome == SocketOutcome::Disconnected,
        }),
{
}

/// A request to subscribe starts everything it asks for, in order and behind
/// what was active, or nothing: the first part that could not be set up is then
/// the answer.
pub proof fn subscriptions_start_all_or_none<S>(
    id: Seq<char>,
    start_sequence: u64,
    prepared: Seq<Result<S, Reply>>,
    before: Seq<Started<S>>,
    after: Seq<Started<S>>,
    reply: Reply,
    k: int,
)
    requires
        super::subscribe::subscribed(id, start_sequence, prepared, before, after, reply),
        0 <= k < prepared.len() || prepared.len() == 0,
    ensures
        0 <= k < prepared.len() && prepared[k] is Err && (forall|i: int|
            0 <= i < k ==> (#[trigger] prepared[i]) is Ok) ==> after == before && reply
            == prepared[k]->Err_0,
        (forall|i: int| 0 <= i < prepared.len() ==> (#[trigger] prepared[i]) is Ok) ==> {
            &&& reply@ == (crate::schema::ReplyModel::Success {
                id,
                result: crate::schema::ResultModel::SubscriptionStarted,
            })
            &&& after.len() == before.len() + prepared.len()
            &&& forall|i: int|
                0 <= i < prepared.len() ==> (#[trigger] after[before.len() + i]).subscription
                    == prepared[i]->Ok_0 && after[before.len() + i].start_sequence
                    == start_sequence
        },
{
    let failed = |p: Result<S, Reply>| p is Err;
    crate::find::lemma_first_index(prepared, failed);
    if 0 <= k < prepared.len() && prepared[k] is Err {
        assert(failed(prepared[k]));
    }
}

/// A stream of protocol 2 or later is told of events it lost, how many and
/// where it goes on; an older one, or one that lost none, is told nothing.
pub proof fn lost_events_are_told(
    protocol: u32,
    gap: Option<EventGap>,
    record: Option<ControlRecord>,
)
    requires
        call_ensures(events_gap_record, (protocol, gap), record),
    ensures
        record is Some <==> gap is Some && protocol >= 2,
        record is Some ==> {
            &&& record->Some_0 is EventsGap
            &&& record->Some_0->EventsGap_dropped == gap->Some_0.dropped
            &&& record->Some_0->EventsGap_resume_sequence == gap->Some_0.resume_sequence
        },
{
}

/// A reader goes on after a read that was interrupted or timed out, and after no
/// other failure. A socket without timeouts is polled.
pub proof fn readers_outlast_quiet_sockets(
    failure: ReadFailure,
    again: bool,
    outcome: TimeoutOutcome,
    wait: ReaderWait,
)
    requires
        call_ensures(retries, (failure,), again),
        call_ensures(reader_wait, (outcome,), wait),
    ensures
        again <==> failure == ReadFailure::Interrupted || failure == ReadFailure::WouldBlock
            || failure == ReadFailure::TimedOut,
        wait == ReaderWait::SocketTimeout <==> outcome == TimeoutOutcome::Granted,
        wait == ReaderWait::Poll <==> outcome == TimeoutOutcome::Unsupported,
        wait == ReaderWait::Fail <==> outcome == TimeoutOutcome::Failed,
{
}

/// Every code of a failure has its own name.
pub proof fn codes_have_names(code: ErrorCode)
    ensures
        code.text() == (match code {
            ErrorCode::ControlStreamRequired => "control_stream_required"@,
            ErrorCode::UnsupportedInControlStream => "unsupported_in_control_stream"@,
            ErrorCode::AmbiguousTarget => "ambiguous_target"@,
            ErrorCode::NotFound => "not_found"@,
            ErrorCode::TerminalBusy => "terminal_busy"@,
            ErrorCode::TerminalAttached => "terminal_attached"@,
            ErrorCode::UnknownAttach => "unknown_attach"@,
            ErrorCode::SnapshotFailed => "snapshot_failed"@,
            ErrorCode::GeometryFollowsTab => "geometry_follows_tab"@,
            ErrorCode::InvalidRequest => "invalid_request"@,
            ErrorCode::NoGeometry => "no_geometry"@,
            ErrorCode::InputFull => "input_full"@,
            ErrorCode::TerminalClosed => "terminal_closed"@,
        }),
{
}

/// A hub keeps the newest 2048 events: all of them up to that many, and never
/// more.
pub proof fn hubs_keep_the_newest_events<E>(
    hub: crate::event_hub::HubModel<E>,
    event: E,
    sequence: u64,
)
    requires
        hub.wf(),
        hub.sequence < u64::MAX,
        sequence <= hub.sequence,
    ensures
        hub.events.len() == (if hub.sequence < 2048 {
            hub.sequence as int
        } else {
            2048int
        }),
        hub.pushed(event).sequence == hub.sequence + 1,
        hub.pushed(event).events.last() == ((hub.sequence + 1) as u64, event),
        hub.gap_after(sequence) is Some <==> hub.sequence - sequence > 2048,
        hub.gap_after(sequence) matches Some(gap) ==> gap.resume_sequence == hub.sequence - 2047
            && gap.dropped == hub.sequence - 2048 - sequence,
{
    crate::event_hub::hubs_number_events_without_a_hole(hub, event);
    if hub.events.len() > 0 {
        assert(hub.events[0].0 == hub.sequence - hub.events.len() + 1);
    }
}

/// A line ends at its first newline. A line without one may grow to eight
/// mebibytes.
pub proof fn lines_end_at_a_newline(bytes: Seq<u8>, end: int)
    ensures
        0 <= end < bytes.len() && bytes[end] == 10 && (forall|i: int|
            0 <= i < end ==> #[trigger] bytes[i] != 10) ==> super::line_buffer::line_end(bytes)
            == Some(end),
        (forall|i: int| 0 <= i < bytes.len() ==> #[trigger] bytes[i] != 10)
            ==> super::line_buffer::line_end(bytes) is None,
        bytes.len() <= 8 * 1024 * 1024 ==> bytes.len()
            + super::line_buffer::room_for(bytes) == 8 * 1024 * 1024,
        bytes.len() > 8 * 1024 * 1024 ==> super::line_buffer::room_for(
            bytes,
        ) == 0,
{
    let newline = |byte: u8| byte == 0x0a;
    crate::find::lemma_first_index(bytes, newline);
    if 0 <= end < bytes.len() && bytes[end] == 10 {
        assert(newline(bytes[end]));
    }
}

} // verus!
