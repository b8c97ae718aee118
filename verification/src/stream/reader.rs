//! What the reader of a control stream does next.

use vstd::prelude::*;

use super::line_buffer::LineBuffer;
use crate::outside::trim_text;

verus! {

/// Bytes read at a time.
pub const READ_CHUNK_BYTES: usize = 0x1_0000;

/// How often, in nanoseconds, a blocked reader looks whether the stream is
/// still alive.
pub const READER_WAKE_INTERVAL: u64 = 1_000_000_000;

/// What the reader does next.
#[derive(Debug)]
pub enum ReaderAction {
    /// Handle a request line.
    Handle { line: String },
    /// Read that many bytes at most.
    Read { limit: usize },
    /// Stop: the server shuts down or the stream is dead.
    Stop,
    /// Give up: a request line is too large.
    TooLarge,
}

/// Why a read came back without data.
#[derive(Debug, Clone, Copy, PartialEq, Eq, Structural)]
pub enum ReadFailure {
    Interrupted,
    WouldBlock,
    TimedOut,
    Other,
}

/// How a reader waits for data.
#[derive(Debug, Clone, Copy, PartialEq, Eq, Structural)]
pub enum ReaderWait {
    /// The socket wakes the reader up.
    SocketTimeout,
    /// The reader polls.
    Poll,
    /// The socket is unusable.
    Fail,
}

/// How asking a socket for a receive timeout ended.
#[derive(Debug, Clone, Copy, PartialEq, Eq, Structural)]
pub enum TimeoutOutcome {
    Granted,
    Unsupported,
    Failed,
}

/// How to wait for data: waking periodically lets the reader notice a dead
/// writer (a client that stopped reading) and release the attaches instead of
/// blocking forever. Named pipes have no receive timeout, so they poll.
pub fn reader_wait(outcome: TimeoutOutcome) -> (wait: ReaderWait)
    ensures
        wait == (match outcome {
            TimeoutOutcome::Granted => ReaderWait::SocketTimeout,
            TimeoutOutcome::Unsupported => ReaderWait::Poll,
            TimeoutOutcome::Failed => ReaderWait::Fail,
        }),
{
    match outcome {
        TimeoutOutcome::Granted => ReaderWait::SocketTimeout,
        TimeoutOutcome::Unsupported => ReaderWait::Poll,
        TimeoutOutcome::Failed => ReaderWait::Fail,
    }
}

/// Whether the reader just goes on after a read that failed.
pub fn retries(failure: ReadFailure) -> (again: bool)
    ensures
        again == (failure != ReadFailure::Other),
{
    match failure {
        ReadFailure::Interrupted | ReadFailure::WouldBlock | ReadFailure::TimedOut => true,
        ReadFailure::Other => false,
    }
}

/// Decides what the reader does next: finished lines first, then more bytes
/// as far as the line may still grow.
pub fn next_action(lines: &mut LineBuffer, running: bool, alive: bool) -> (action: ReaderAction)
    ensures
        match super::line_buffer::line_end(old(lines)@) {
            Some(end) => {
                &&& final(lines)@ == old(lines)@.skip(end + 1)
                &&& if running && alive {
                    let bytes = old(lines)@.take(end + 1);
                    &&& action matches ReaderAction::Handle { line }
                    &&& line@ == crate::outside::trimmed(crate::outside::lossy_text(bytes))
                    &&& vstd::utf8::valid_utf8(bytes) ==> line@ == crate::outside::trimmed(
                        vstd::utf8::decode_utf8(bytes),
                    )
                } else {
                    action is Stop
                }
            },
            None => {
                let room = super::line_buffer::room_for(old(lines)@);
                &&& final(lines)@ == old(lines)@
                &&& if room == 0 {
                    action is TooLarge
                } else if running && alive {
                    action == (ReaderAction::Read {
                        limit: if room < READ_CHUNK_BYTES {
                            room
                        } else {
                            READ_CHUNK_BYTES
                        },
                    })
                } else {
                    action is Stop
                }
            },
        },
{
    match lines.next_line() {
        Some(line) => {
            if !running || !alive {
                return ReaderAction::Stop;
            }
            ReaderAction::Handle { line: trim_text(line.as_str()).to_owned() }
        },
        None => {
            let room: usize = lines.room();
            if room == 0 {
                return ReaderAction::TooLarge;
            }
            if !running || !alive {
                return ReaderAction::Stop;
            }
            ReaderAction::Read {
                limit: if room < READ_CHUNK_BYTES {
                    room
                } else {
                    READ_CHUNK_BYTES
                },
            }
        },
    }
}

/// A stream that obeys the limits of its reads never holds an unterminated
/// line beyond the cap: it is given up before.
pub proof fn readers_never_hold_more_than_a_line(bytes: Seq<u8>, read: Seq<u8>)
    requires
        bytes.len() <= super::line_buffer::MAX_CONTROL_LINE_BYTES,
        super::line_buffer::line_end(bytes) is None,
        super::line_buffer::room_for(bytes) > 0,
        read.len() <= super::line_buffer::room_for(bytes),
        read.len() <= READ_CHUNK_BYTES,
    ensures
        (bytes + read).len() <= super::line_buffer::MAX_CONTROL_LINE_BYTES,
{
}

} // verus!
