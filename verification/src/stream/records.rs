//! What the writer of a control stream makes of a queued item.

use vstd::prelude::*;

use crate::control::ControlOutbound;
use crate::outside::{base64_encode, bytes_slice};
use crate::schema::ControlRecord;

verus! {

/// What is written for a queued item.
#[derive(Debug)]
pub enum WriterLine {
    /// A finished line.
    Line { line: String },
    /// A record to be encoded.
    Record { record: ControlRecord },
}

/// The line that stands for a record that could not be encoded.
pub open spec fn encode_failure_text() -> Seq<char> {
    "{\"type\":\"control.error\",\"message\":\"failed to encode record\"}"@
}

/// The line that stands for a record that could not be encoded.
pub fn encode_failure_line() -> (line: &'static str)
    ensures
        line@ == encode_failure_text(),
{
    "{\"type\":\"control.error\",\"message\":\"failed to encode record\"}"
}

/// Whether an item's bytes can be encoded at all.
pub open spec fn encodable(item: crate::control::OutboundModel) -> bool {
    match item {
        crate::control::OutboundModel::Output { attach_id, seq, bytes } => bytes.len() / 3 * 4 + 4
            <= isize::MAX,
        _ => true,
    }
}

/// Whether a line or record is what a queued item comes to.
pub open spec fn writes(item: crate::control::OutboundModel, line: WriterLine) -> bool {
    match item {
        crate::control::OutboundModel::Line(text) => line matches WriterLine::Line { line }
            && line@ == text,
        crate::control::OutboundModel::Snapshot { attach_id, snapshot } => {
            &&& line matches WriterLine::Record { record }
            &&& record matches ControlRecord::Snapshot { attach_id: id, snapshot: shown }
            &&& id@ == attach_id
            &&& shown == snapshot
        },
        crate::control::OutboundModel::Output { attach_id, seq, bytes } => {
            &&& line matches WriterLine::Record { record }
            &&& record matches ControlRecord::Output { attach_id: id, seq: number, bytes: text }
            &&& id@ == attach_id
            &&& number == seq
            &&& text@ == crate::outside::base64_text(bytes)
            &&& crate::outside::decodes_to(text@, bytes)
        },
        crate::control::OutboundModel::Gap { attach_id, seq, dropped_bytes } => {
            &&& line matches WriterLine::Record { record }
            &&& record matches ControlRecord::Gap {
                attach_id: id,
                seq: number,
                dropped_bytes: dropped,
            }
            &&& id@ == attach_id
            &&& number == seq
            &&& dropped == dropped_bytes
        },
        crate::control::OutboundModel::Detached { attach_id, reason } => {
            &&& line matches WriterLine::Record { record }
            &&& record matches ControlRecord::Detached { attach_id: id, reason: why }
            &&& id@ == attach_id
            &&& why == reason
        },
        crate::control::OutboundModel::Authority { attach_id, answers_queries } => {
            &&& line matches WriterLine::Record { record }
            &&& record matches ControlRecord::Authority { attach_id: id, answers_queries: answers }
            &&& id@ == attach_id
            &&& answers == answers_queries
        },
    }
}

/// The attach whose budget a written item gives back, and how much.
pub open spec fn gives_back(item: crate::control::OutboundModel) -> Option<(Seq<char>, nat)> {
    match item {
        crate::control::OutboundModel::Output { attach_id, seq, bytes } => Some(
            (attach_id, bytes.len()),
        ),
        _ => None,
    }
}

/// What the writer makes of a queued item: the line or record, and the attach
/// whose budget it gives back.
pub fn writer_line(item: ControlOutbound) -> (written: (WriterLine, Option<(String, usize)>))
    requires
        encodable(item@),
    ensures
        writes(item@, written.0),
        match written.1 {
            Some((attach_id, len)) => gives_back(item@) == Some((attach_id@, len as nat)),
            None => gives_back(item@) is None,
        },
{
    match item {
        ControlOutbound::Line(line) => (WriterLine::Line { line }, None),
        ControlOutbound::Snapshot { attach_id, snapshot } => (
            WriterLine::Record {
                record: ControlRecord::Snapshot { attach_id, snapshot: *snapshot },
            },
            None,
        ),
        ControlOutbound::Output { attach_id, seq, bytes } => {
            let raw = bytes_slice(&bytes);
            let len: usize = raw.len();
            let text = base64_encode(raw);
            let owner = attach_id.clone();
            (
                WriterLine::Record {
                    record: ControlRecord::Output { attach_id, seq, bytes: text },
                },
                Some((owner, len)),
            )
        },
        ControlOutbound::Gap { attach_id, seq, dropped_bytes } => (
            WriterLine::Record { record: ControlRecord::Gap { attach_id, seq, dropped_bytes } },
            None,
        ),
        ControlOutbound::Detached { attach_id, reason } => (
            WriterLine::Record { record: ControlRecord::Detached { attach_id, reason } },
            None,
        ),
        ControlOutbound::Authority { attach_id, answers_queries } => (
            WriterLine::Record { record: ControlRecord::Authority { attach_id, answers_queries } },
            None,
        ),
    }
}

/// What the writer makes of a queued item, unless its bytes are too many to be
/// encoded.
pub fn encodable_line(item: ControlOutbound) -> (written: Option<
    (WriterLine, Option<(String, usize)>),
>)
    ensures
        match written {
            Some((line, released)) => {
                &&& encodable(item@)
                &&& writes(item@, line)
                &&& match released {
                    Some((attach_id, len)) => gives_back(item@) == Some((attach_id@, len as nat)),
                    None => gives_back(item@) is None,
                }
            },
            None => !encodable(item@),
        },
{
    if let ControlOutbound::Output { bytes, .. } = &item {
        let len: usize = bytes_slice(bytes).len();
        if len / 3 > (isize::MAX as usize - 4) / 4 {
            return None;
        }
    }
    Some(writer_line(item))
}

/// What a client decodes from an output record is what the terminal wrote.
pub proof fn clients_decode_what_was_written(
    item: crate::control::OutboundModel,
    line: WriterLine,
)
    requires
        writes(item, line),
        item is Output,
    ensures
        line matches WriterLine::Record { record } && (record matches ControlRecord::Output {
            attach_id: _,
            seq: _,
            bytes,
        } && crate::outside::base64_content(bytes@) == Ok::<Seq<u8>, Seq<char>>(
            item->Output_bytes,
        )),
{
}

} // verus!
