//! The two-step upload protocol of one client connection, as a state machine.
//!
//! The session never touches the network or the disk itself. Each call of
//! [`Session::step`] takes the outcome of the previous action (an [`Event`])
//! and answers with the next [`Action`] for the caller to perform. A new
//! session waits for the identification frame, so the caller starts by
//! receiving.
use vstd::prelude::*;
use crate::codec::{base64_decoded, decode_bytes};
use crate::frame::{branch_code, branch_code_of, copy_range, payload_text, payload_text_of};

verus! {

/// The size of the receive buffer: bytes of a frame beyond it are not read.
pub const RECEIVE_LIMIT: usize = 1024;

/// Why a session stopped before completing.
#[derive(Clone, Copy, Debug, PartialEq, Eq, Structural)]
pub enum Failure {
    /// The client closed the connection (or sent nothing) where a frame was due.
    EndOfStream,
    /// A read, a write or a filesystem operation failed.
    Io,
    /// The identification frame holds no `~`, so it names no branch.
    MalformedIdent,
    /// The payload frame is not valid Base64.
    InvalidPayload,
    /// An event arrived that the current stage does not wait for.
    UnexpectedEvent,
}

/// Where a session stands.
#[derive(Clone, Copy, Debug, PartialEq, Eq, Structural)]
pub enum Stage {
    /// Waiting for the identification frame.
    AwaitIdent,
    /// Waiting for the branch directory to be ensured.
    EnsureBranch,
    /// Waiting for the first `OK` to be sent.
    AckIdent,
    /// Waiting for the payload frame.
    AwaitPayload,
    /// Waiting for the report file to be written.
    WriteReport,
    /// Waiting for the second `OK` to be sent.
    AckDone,
    /// Both acknowledgements were sent.
    Done,
    /// The session stopped early.
    Aborted(Failure),
}

/// What happened when the caller performed the last action.
pub enum Event {
    /// One receive returned these bytes; no bytes means the peer closed.
    Received(Vec<u8>),
    /// The peer closed the connection.
    EndOfStream,
    /// The action failed with an I/O or filesystem error.
    Failed,
    /// The branch directory exists.
    BranchReady,
    /// `OK` was written to the connection.
    OkSent,
    /// The report file was written.
    ReportWritten,
}

pub enum EventView {
    Received(Seq<u8>),
    EndOfStream,
    Failed,
    BranchReady,
    OkSent,
    ReportWritten,
}

impl View for Event {
    type V = EventView;

    open spec fn view(&self) -> EventView {
        match self {
            Event::Received(bytes) => EventView::Received(bytes@),
            Event::EndOfStream => EventView::EndOfStream,
            Event::Failed => EventView::Failed,
            Event::BranchReady => EventView::BranchReady,
            Event::OkSent => EventView::OkSent,
            Event::ReportWritten => EventView::ReportWritten,
        }
    }
}

/// What the caller is to do next.
pub enum Action {
    /// Receive one frame, into a buffer of `RECEIVE_LIMIT` bytes.
    Receive,
    /// Make sure that the directory of this branch exists.
    EnsureBranch(Vec<u8>),
    /// Write `OK` to the connection.
    SendOk,
    /// Create or truncate the report file of `branch` and write `report` to it.
    WriteReport { branch: Vec<u8>, report: Vec<u8> },
    /// The session completed: close the connection.
    Finish,
    /// The session failed: report why and close the connection.
    Abort(Failure),
}

pub enum ActionView {
    Receive,
    EnsureBranch(Seq<u8>),
    SendOk,
    WriteReport { branch: Seq<u8>, report: Seq<u8> },
    Finish,
    Abort(Failure),
}

impl View for Action {
    type V = ActionView;

    open spec fn view(&self) -> ActionView {
        match self {
            Action::Receive => ActionView::Receive,
            Action::EnsureBranch(code) => ActionView::EnsureBranch(code@),
            Action::SendOk => ActionView::SendOk,
            Action::WriteReport { branch, report } => ActionView::WriteReport {
                branch: branch@,
                report: report@,
            },
            Action::Finish => ActionView::Finish,
            Action::Abort(f) => ActionView::Abort(*f),
        }
    }
}

/// The protocol state of one connection.
pub struct Session {
    stage: Stage,
    branch: Vec<u8>,
}

/// A session as a value: its stage and the branch code it has read (empty
/// before the identification frame).
pub struct SessionView {
    pub stage: Stage,
    pub branch: Seq<u8>,
}

impl View for Session {
    type V = SessionView;

    closed spec fn view(&self) -> SessionView {
        SessionView { stage: self.stage, branch: self.branch@ }
    }
}

/// The part of a frame that one receive reads.
pub open spec fn received(frame: Seq<u8>) -> Seq<u8> {
    if frame.len() <= RECEIVE_LIMIT {
        frame
    } else {
        frame.subrange(0, RECEIVE_LIMIT as int)
    }
}

/// The bytes of one acknowledgement: `OK`.
pub open spec fn ack_bytes() -> Seq<u8> {
    seq![0x4fu8, 0x4bu8]
}

pub open spec fn initial() -> SessionView {
    SessionView { stage: Stage::AwaitIdent, branch: Seq::empty() }
}

pub open spec fn is_terminal(stage: Stage) -> bool {
    stage is Done || stage is Aborted
}

pub open spec fn abort(s: SessionView, f: Failure) -> (SessionView, ActionView) {
    (SessionView { stage: Stage::Aborted(f), branch: s.branch }, ActionView::Abort(f))
}

/// The failure that an event other than the awaited one causes.
pub open spec fn failure_of(e: EventView) -> Failure {
    match e {
        EventView::EndOfStream => Failure::EndOfStream,
        EventView::Received(bytes) => if bytes.len() == 0 {
            Failure::EndOfStream
        } else {
            Failure::UnexpectedEvent
        },
        EventView::Failed => Failure::Io,
        _ => Failure::UnexpectedEvent,
    }
}

/// One move of the protocol: the next state and the action to perform.
pub open spec fn step_spec(s: SessionView, e: EventView) -> (SessionView, ActionView) {
    match s.stage {
        Stage::AwaitIdent => match e {
            EventView::Received(frame) if frame.len() > 0 => match branch_code_of(
                received(frame),
            ) {
                Some(code) => (
                    SessionView { stage: Stage::EnsureBranch, branch: code },
                    ActionView::EnsureBranch(code),
                ),
                None => abort(s, Failure::MalformedIdent),
            },
            _ => abort(s, failure_of(e)),
        },
        Stage::EnsureBranch => match e {
            EventView::BranchReady => (
                SessionView { stage: Stage::AckIdent, branch: s.branch },
                ActionView::SendOk,
            ),
            _ => abort(s, failure_of(e)),
        },
        Stage::AckIdent => match e {
            EventView::OkSent => (
                SessionView { stage: Stage::AwaitPayload, branch: s.branch },
                ActionView::Receive,
            ),
            _ => abort(s, failure_of(e)),
        },
        Stage::AwaitPayload => match e {
            EventView::Received(frame) if frame.len() > 0 => match base64_decoded(
                payload_text_of(received(frame)),
            ) {
                Some(report) => (
                    SessionView { stage: Stage::WriteReport, branch: s.branch },
                    ActionView::WriteReport { branch: s.branch, report },
                ),
                None => abort(s, Failure::InvalidPayload),
            },
            _ => abort(s, failure_of(e)),
        },
        Stage::WriteReport => match e {
            EventView::ReportWritten => (
                SessionView { stage: Stage::AckDone, branch: s.branch },
                ActionView::SendOk,
            ),
            _ => abort(s, failure_of(e)),
        },
        Stage::AckDone => match e {
            EventView::OkSent => (
                SessionView { stage: Stage::Done, branch: s.branch },
                ActionView::Finish,
            ),
            _ => abort(s, failure_of(e)),
        },
        Stage::Done => (s, ActionView::Finish),
        Stage::Aborted(f) => (s, ActionView::Abort(f)),
    }
}

impl Session {
    /// A session that waits for the identification frame.
    pub fn new() -> (r: Session)
        ensures
            r@ == initial(),
    {
        Session { stage: Stage::AwaitIdent, branch: Vec::new() }
    }

    pub fn stage(&self) -> (r: Stage)
        ensures
            r == self@.stage,
    {
        self.stage
    }

    /// The branch code read from the identification frame.
    pub fn branch(&self) -> (r: &Vec<u8>)
        ensures
            r@ == self@.branch,
    {
        &self.branch
    }

    /// Whether the session has completed or stopped.
    pub fn is_finished(&self) -> (r: bool)
        ensures
            r == is_terminal(self@.stage),
    {
        match self.stage {
            Stage::Done | Stage::Aborted(_) => true,
            _ => false,
        }
    }

    fn abort_with(&mut self, f: Failure) -> (a: Action)
        ensures
            (final(self)@, a@) == abort(old(self)@, f),
    {
        self.stage = Stage::Aborted(f);
        Action::Abort(f)
    }

    /// Takes the outcome of the last action and returns the next one.
    pub fn step(&mut self, event: Event) -> (a: Action)
        ensures
            (final(self)@, a@) == step_spec(old(self)@, event@),
    {
        let f = match &event {
            Event::EndOfStream => Failure::EndOfStream,
            Event::Received(bytes) => if bytes.len() == 0 {
                Failure::EndOfStream
            } else {
                Failure::UnexpectedEvent
            },
            Event::Failed => Failure::Io,
            _ => Failure::UnexpectedEvent,
        };
        match self.stage {
            Stage::AwaitIdent => match event {
                Event::Received(frame) if frame.len() > 0 => {
                    let buffered = read_buffer(&frame);
                    match branch_code(buffered.as_slice()) {
                        Some(code) => {
                            self.stage = Stage::EnsureBranch;
                            self.branch = code.clone();
                            Action::EnsureBranch(code)
                        },
                        None => self.abort_with(Failure::MalformedIdent),
                    }
                },
                _ => self.abort_with(f),
            },
            Stage::EnsureBranch => match event {
                Event::BranchReady => {
                    self.stage = Stage::AckIdent;
                    Action::SendOk
                },
                _ => self.abort_with(f),
            },
            Stage::AckIdent => match event {
                Event::OkSent => {
                    self.stage = Stage::AwaitPayload;
                    Action::Receive
                },
                _ => self.abort_with(f),
            },
            Stage::AwaitPayload => match event {
                Event::Received(frame) if frame.len() > 0 => {
                    let buffered = read_buffer(&frame);
                    let text = payload_text(buffered.as_slice());
                    match decode_bytes(text.as_slice()) {
                        Ok(report) => {
                            self.stage = Stage::WriteReport;
                            Action::WriteReport { branch: self.branch.clone(), report }
                        },
                        Err(_) => self.abort_with(Failure::InvalidPayload),
                    }
                },
                _ => self.abort_with(f),
            },
            Stage::WriteReport => match event {
                Event::ReportWritten => {
                    self.stage = Stage::AckDone;
                    Action::SendOk
                },
                _ => self.abort_with(f),
            },
            Stage::AckDone => match event {
                Event::OkSent => {
                    self.stage = Stage::Done;
                    Action::Finish
                },
                _ => self.abort_with(f),
            },
            Stage::Done => Action::Finish,
            Stage::Aborted(g) => Action::Abort(g),
        }
    }
}

/// The bytes of `frame` that a receive buffer of `RECEIVE_LIMIT` bytes holds.
pub fn read_buffer(frame: &Vec<u8>) -> (r: Vec<u8>)
    ensures
        r@ == received(frame@),
{
    let n: usize = if frame.len() <= RECEIVE_LIMIT {
        frame.len()
    } else {
        RECEIVE_LIMIT
    };
    let r = copy_range(frame.as_slice(), 0, n);
    proof {
        if frame@.len() <= RECEIVE_LIMIT {
            assert(frame@.subrange(0, n as int) =~= frame@);
        }
    }
    r
}

/// The bytes of one acknowledgement.
pub fn ack() -> (r: Vec<u8>)
    ensures
        r@ == ack_bytes(),
{
    let mut r: Vec<u8> = Vec::new();
    r.push(0x4f);
    r.push(0x4b);
    r
}

} // verus!
