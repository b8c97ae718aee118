//! The life of one control stream on its socket.

use vstd::prelude::*;

use crate::headless::dispatch::ControlMethod;
use crate::schema::ControlOpenParams;

verus! {

/// Where a stream stands.
#[derive(Debug, Clone, Copy, PartialEq, Eq, Structural)]
pub enum ServeStage {
    /// `control.open` is with the server.
    Opening,
    /// The answer is being written, which may be a failure.
    Answering { failed: bool },
    /// The writer gets its end of the socket.
    Starting,
    /// Requests are read.
    Streaming,
    /// The stream is over.
    Over,
}

/// How an operation on a socket ended.
#[derive(Debug, Clone, Copy, PartialEq, Eq, Structural)]
pub enum SocketOutcome {
    Done,
    /// The client is gone.
    Disconnected,
    Failed,
}

/// What happened to a stream.
#[derive(Debug, Clone, Copy, PartialEq, Eq, Structural)]
pub enum ServeEvent {
    /// The server answered `control.open`.
    Opened { failed: bool },
    /// The answer was written, or was not.
    Answered { outcome: SocketOutcome },
    /// The writer got its end of the socket, or did not.
    Started { outcome: SocketOutcome },
    /// Reading ended.
    ReaderEnded { outcome: SocketOutcome },
}

/// What is to be done for a stream.
#[derive(Debug, Clone, Copy, PartialEq, Eq, Structural)]
pub enum ServeAction {
    /// Write the answer to `control.open`.
    WriteAnswer,
    /// Give the writer its end of the socket.
    StartWriter,
    /// Read requests until the stream ends.
    ReadRequests,
    /// Mark the stream dead, have the server drop its attaches and claims, and
    /// return, with an error or without.
    Release { ok: bool },
    /// The event has no place here.
    Ignore,
}

/// What becomes of a stream: the server registered the connection while
/// answering, so every exit from then on releases it the same way. A client
/// that is gone is no error.
pub open spec fn served(stage: ServeStage, event: ServeEvent) -> (ServeStage, ServeAction) {
    match (stage, event) {
        (ServeStage::Opening, ServeEvent::Opened { failed }) => (
            ServeStage::Answering { failed },
            ServeAction::WriteAnswer,
        ),
        (ServeStage::Answering { failed }, ServeEvent::Answered { outcome }) => match outcome {
            SocketOutcome::Done => if failed {
                (ServeStage::Over, ServeAction::Release { ok: true })
            } else {
                (ServeStage::Starting, ServeAction::StartWriter)
            },
            SocketOutcome::Disconnected => (ServeStage::Over, ServeAction::Release { ok: true }),
            SocketOutcome::Failed => (ServeStage::Over, ServeAction::Release { ok: false }),
        },
        (ServeStage::Starting, ServeEvent::Started { outcome }) => match outcome {
            SocketOutcome::Done => (ServeStage::Streaming, ServeAction::ReadRequests),
            _ => (ServeStage::Over, ServeAction::Release { ok: false }),
        },
        (ServeStage::Streaming, ServeEvent::ReaderEnded { outcome }) => (
            ServeStage::Over,
            ServeAction::Release { ok: outcome != SocketOutcome::Failed },
        ),
        _ => (stage, ServeAction::Ignore),
    }
}

/// A stream on its socket.
#[derive(Debug)]
pub struct ServedStream {
    stage: ServeStage,
}

impl View for ServedStream {
    type V = ServeStage;

    closed spec fn view(&self) -> ServeStage {
        self.stage
    }
}

impl ServedStream {
    /// A stream whose `control.open` goes to the server, with what the client
    /// declared.
    pub fn open(params: ControlOpenParams) -> (opened: (Self, ControlMethod))
        ensures
            opened.0@ == ServeStage::Opening,
            opened.1 == (ControlMethod::ControlOpen { params }),
    {
        (ServedStream { stage: ServeStage::Opening }, ControlMethod::ControlOpen { params })
    }

    /// Takes an event and says what is to be done.
    pub fn step(&mut self, event: ServeEvent) -> (action: ServeAction)
        ensures
            (final(self)@, action) == served(old(self)@, event),
    {
        match (self.stage, event) {
            (ServeStage::Opening, ServeEvent::Opened { failed }) => {
                self.stage = ServeStage::Answering { failed };
                ServeAction::WriteAnswer
            },
            (ServeStage::Answering { failed }, ServeEvent::Answered { outcome }) => {
                match outcome {
                    SocketOutcome::Done => {
                        if failed {
                            self.stage = ServeStage::Over;
                            ServeAction::Release { ok: true }
                        } else {
                            self.stage = ServeStage::Starting;
                            ServeAction::StartWriter
                        }
                    },
                    SocketOutcome::Disconnected => {
                        self.stage = ServeStage::Over;
                        ServeAction::Release { ok: true }
                    },
                    SocketOutcome::Failed => {
                        self.stage = ServeStage::Over;
                        ServeAction::Release { ok: false }
                    },
                }
            },
            (ServeStage::Starting, ServeEvent::Started { outcome }) => {
                match outcome {
                    SocketOutcome::Done => {
                        self.stage = ServeStage::Streaming;
                        ServeAction::ReadRequests
                    },
                    SocketOutcome::Disconnected | SocketOutcome::Failed => {
                        self.stage = ServeStage::Over;
                        ServeAction::Release { ok: false }
                    },
                }
            },
            (ServeStage::Streaming, ServeEvent::ReaderEnded { outcome }) => {
                self.stage = ServeStage::Over;
                ServeAction::Release { ok: outcome != SocketOutcome::Failed }
            },
            _ => ServeAction::Ignore,
        }
    }
}

/// A stream is over exactly when it was released: no way out of one leaves its
/// attaches and claims behind, and none releases it twice.
pub proof fn every_exit_releases_the_stream(stage: ServeStage, event: ServeEvent)
    requires
        stage != ServeStage::Over,
    ensures
        served(stage, event).0 == ServeStage::Over <==> served(stage, event).1 is Release,
        served(ServeStage::Over, event) == (ServeStage::Over, ServeAction::Ignore),
{
}

} // verus!
