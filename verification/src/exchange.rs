//! The wire exchange of one attempt, as a state machine.
//!
//! An attempt reads the source file, connects, announces the file's name,
//! waits for the acknowledgment, uploads the file, downloads the artifact in
//! bounded chunks and has it stored. The machine decides; a driver acts. The
//! machine hands the driver one [`Action`] at a time, the driver performs it
//! and reports what happened as an [`Event`], and the machine answers with
//! the next action, until that action is [`Action::Finish`].
//!
//! How an attempt fails decides whether it is worth repeating:
//!
//! * a local step (reading the source, storing the artifact) that does not
//!   succeed is a local I/O failure;
//! * a network step that times out or fails, and a peer that closes the
//!   connection where a reply should begin, are transient;
//! * a reply that is not what the protocol asks for is a protocol violation:
//!   three bytes that are not `ACK`, a peer that closes in the middle of the
//!   acknowledgment, of the length prefix or of the artifact, more bytes than
//!   were asked for, a file name too long for its prefix.

use crate::framing::{
    ack, be_bytes, be_value, decode_u64_be, encode_name_frame, encode_payload_frame, is_ack,
    lemma_be_value_inverse, lemma_payload_frame_round_trip, name_frame, payload_frame, ACK_LEN, PAYLOAD_PREFIX_LEN,
};
use crate::naming::{detect_format, encoded_filename, encoded_filename_for, format_of};
use crate::session::{AttemptResult, AttemptView, FailureKind};
use vstd::prelude::*;
use vstd::string::*;
use vstd::utf8::encode_utf8;

verus! {

/// The largest number of bytes that the machine asks for at once while it
/// downloads an artifact.
pub const CHUNK_SIZE: usize = 1024;

/// Where an attempt stands: what the driver is doing on its behalf.
#[derive(Clone, Copy, Debug, PartialEq, Eq, Structural)]
pub enum Phase {
    /// Reading the source file.
    ReadingSource,
    /// Connecting to the server.
    Connecting,
    /// Sending the frame that announces the file's name.
    SendingName,
    /// Receiving the acknowledgment.
    AwaitingAck,
    /// Sending the frame that carries the file.
    SendingPayload,
    /// Receiving the length prefix of the artifact.
    AwaitingLength,
    /// Receiving the artifact.
    Downloading,
    /// Storing the artifact.
    Storing,
    /// Ended: the artifact is stored.
    Succeeded,
    /// Ended: the attempt failed.
    Failed(FailureKind),
}

/// What the driver is to do next.
#[derive(Clone, Debug, PartialEq, Eq)]
pub enum Action {
    /// Read the source file and report its content.
    ReadSource,
    /// Connect to the server.
    Connect,
    /// Send these bytes, all of them.
    Send(Vec<u8>),
    /// Receive at least one byte and at most this many, and report them;
    /// report no bytes when the peer has closed the connection.
    Receive(usize),
    /// Store these bytes under this name.
    Store { name: String, bytes: Vec<u8> },
    /// Close the connection, if there is one: the attempt has ended thus.
    Finish(AttemptResult),
}

/// The mathematical content of an [`Action`].
pub enum ActionView {
    ReadSource,
    Connect,
    Send(Seq<u8>),
    Receive(nat),
    Store { name: Seq<char>, bytes: Seq<u8> },
    Finish(AttemptView),
}

impl View for Action {
    type V = ActionView;

    open spec fn view(&self) -> ActionView {
        match self {
            Action::ReadSource => ActionView::ReadSource,
            Action::Connect => ActionView::Connect,
            Action::Send(bytes) => ActionView::Send(bytes@),
            Action::Receive(limit) => ActionView::Receive(*limit as nat),
            Action::Store { name, bytes } => ActionView::Store { name: name@, bytes: bytes@ },
            Action::Finish(result) => ActionView::Finish(result@),
        }
    }
}

/// What became of the action that the driver performed.
#[derive(Clone, Debug, PartialEq, Eq)]
pub enum Event {
    /// It succeeded. After `ReadSource` the bytes are the file's content;
    /// after `Receive` they are what arrived, none if the peer has closed
    /// the connection; after any other action they mean nothing.
    Done(Vec<u8>),
    /// It did not end in time.
    TimedOut,
    /// It failed.
    Failed,
}

/// The mathematical content of an [`Event`].
pub enum EventView {
    Done(Seq<u8>),
    TimedOut,
    Failed,
}

impl View for Event {
    type V = EventView;

    open spec fn view(&self) -> EventView {
        match self {
            Event::Done(bytes) => EventView::Done(bytes@),
            Event::TimedOut => EventView::TimedOut,
            Event::Failed => EventView::Failed,
        }
    }
}

/// The mathematical content of an [`Exchange`].
pub struct ExchangeView {
    /// The name that is announced to the server.
    pub file_name: Seq<char>,
    /// The server's address.
    pub server: Seq<char>,
    /// Where the attempt stands.
    pub phase: Phase,
    /// The content of the source file, once it has been read.
    pub payload: Seq<u8>,
    /// The bytes received so far of the unit that is being received.
    pub buffer: Seq<u8>,
    /// While downloading, the number of bytes of the artifact still to come.
    pub remaining: nat,
    /// The name of the artifact, once it is known.
    pub stored_name: Seq<char>,
}

/// The number of bytes to ask for when `remaining` bytes are still to come.
pub open spec fn chunk_request(remaining: nat) -> nat {
    if remaining < CHUNK_SIZE {
        remaining
    } else {
        CHUNK_SIZE as nat
    }
}

impl ExchangeView {
    /// An attempt that has not done anything yet: its first action is
    /// `ReadSource`.
    pub open spec fn initial(file_name: Seq<char>, server: Seq<char>) -> ExchangeView {
        ExchangeView {
            file_name,
            server,
            phase: Phase::ReadingSource,
            payload: Seq::empty(),
            buffer: Seq::empty(),
            remaining: 0,
            stored_name: Seq::empty(),
        }
    }

    /// What holds of an attempt at every moment: a unit that is being
    /// received is not complete yet.
    pub open spec fn wf(self) -> bool {
        &&& self.phase == Phase::AwaitingAck ==> self.buffer.len() < 3
        &&& self.phase == Phase::AwaitingLength ==> self.buffer.len() < 8
        &&& self.phase == Phase::Downloading ==> 0 < self.remaining <= u64::MAX
    }

    /// Whether the attempt has ended.
    pub open spec fn is_finished(self) -> bool {
        self.phase == Phase::Succeeded || self.phase is Failed
    }

    /// How the attempt ended, if it has.
    pub open spec fn result(self) -> Option<AttemptView> {
        match self.phase {
            Phase::Succeeded => Some(AttemptView::Stored(self.stored_name)),
            Phase::Failed(kind) => Some(AttemptView::Failed(kind)),
            _ => None,
        }
    }

    /// The attempt ends in failure; what was received of an unfinished unit
    /// is dropped.
    pub open spec fn fail(self, kind: FailureKind) -> (ExchangeView, ActionView) {
        (
            ExchangeView { phase: Phase::Failed(kind), buffer: Seq::empty(), remaining: 0, ..self },
            ActionView::Finish(AttemptView::Failed(kind)),
        )
    }

    /// The artifact is complete: it goes to be stored under the name that
    /// its format gives it.
    pub open spec fn store(self, artifact: Seq<u8>) -> (ExchangeView, ActionView) {
        let name = encoded_filename(self.file_name, self.server, format_of(artifact));
        (
            ExchangeView {
                phase: Phase::Storing,
                buffer: Seq::empty(),
                remaining: 0,
                stored_name: name,
                ..self
            },
            ActionView::Store { name, bytes: artifact },
        )
    }

    /// Bytes have arrived while the acknowledgment is awaited.
    pub open spec fn take_ack(self, bytes: Seq<u8>) -> (ExchangeView, ActionView) {
        let got = self.buffer + bytes;
        if bytes.len() == 0 {
            if self.buffer.len() == 0 {
                self.fail(FailureKind::Transient)
            } else {
                self.fail(FailureKind::ProtocolViolation)
            }
        } else if got.len() > 3 {
            self.fail(FailureKind::ProtocolViolation)
        } else if got.len() < 3 {
            (ExchangeView { buffer: got, ..self }, ActionView::Receive((3 - got.len()) as nat))
        } else if got == ack() {
            (
                ExchangeView { phase: Phase::SendingPayload, buffer: Seq::empty(), ..self },
                ActionView::Send(payload_frame(self.payload)),
            )
        } else {
            self.fail(FailureKind::ProtocolViolation)
        }
    }

    /// Bytes have arrived while the artifact's length prefix is awaited.
    pub open spec fn take_length(self, bytes: Seq<u8>) -> (ExchangeView, ActionView) {
        let got = self.buffer + bytes;
        if bytes.len() == 0 {
            if self.buffer.len() == 0 {
                self.fail(FailureKind::Transient)
            } else {
                self.fail(FailureKind::ProtocolViolation)
            }
        } else if got.len() > 8 {
            self.fail(FailureKind::ProtocolViolation)
        } else if got.len() < 8 {
            (ExchangeView { buffer: got, ..self }, ActionView::Receive((8 - got.len()) as nat))
        } else if be_value(got) == 0 {
            self.store(Seq::empty())
        } else {
            (
                ExchangeView {
                    phase: Phase::Downloading,
                    buffer: Seq::empty(),
                    remaining: be_value(got),
                    ..self
                },
                ActionView::Receive(chunk_request(be_value(got))),
            )
        }
    }

    /// Bytes have arrived while the artifact is awaited.
    pub open spec fn take_artifact(self, bytes: Seq<u8>) -> (ExchangeView, ActionView) {
        let got = self.buffer + bytes;
        if bytes.len() == 0 {
            self.fail(FailureKind::ProtocolViolation)
        } else if bytes.len() > chunk_request(self.remaining) {
            self.fail(FailureKind::ProtocolViolation)
        } else if bytes.len() == self.remaining {
            self.store(got)
        } else {
            (
                ExchangeView {
                    buffer: got,
                    remaining: (self.remaining - bytes.len()) as nat,
                    ..self
                },
                ActionView::Receive(chunk_request((self.remaining - bytes.len()) as nat)),
            )
        }
    }

    /// What has been received of the frame that carries the artifact: the
    /// bytes of its prefix, and once the prefix is complete, the prefix and
    /// the bytes of the artifact.
    pub open spec fn received(self) -> Seq<u8> {
        match self.phase {
            Phase::AwaitingLength => self.buffer,
            Phase::Downloading => be_bytes(self.buffer.len() + self.remaining, 8) + self.buffer,
            _ => Seq::empty(),
        }
    }

    /// Whether the attempt is receiving the frame that carries the artifact.
    pub open spec fn is_downloading(self) -> bool {
        self.phase == Phase::AwaitingLength || self.phase == Phase::Downloading
    }

    /// The number of bytes that the driver was last asked to receive.
    pub open spec fn request(self) -> nat {
        match self.phase {
            Phase::AwaitingAck => (3 - self.buffer.len()) as nat,
            Phase::AwaitingLength => (8 - self.buffer.len()) as nat,
            Phase::Downloading => chunk_request(self.remaining),
            _ => 0,
        }
    }

    /// Whether `chunks` can be what a driver reports, one reception after
    /// the other: each holds at least one byte, and none holds more than was
    /// asked for.
    pub open spec fn within_requests(self, chunks: Seq<Seq<u8>>) -> bool
        decreases chunks.len(),
    {
        chunks.len() == 0 || {
            &&& self.within_requests(chunks.drop_last())
            &&& 0 < chunks.last().len() <= self.fed(chunks.drop_last()).request()
        }
    }

    /// The attempt once the source has been read as `content`, the
    /// connection made and the file's name sent: the acknowledgment is
    /// awaited.
    #[verifier::opaque]
    pub open spec fn after_announcing(self, content: Seq<u8>) -> ExchangeView {
        self.step(EventView::Done(content)).0.step(EventView::Done(Seq::empty())).0.step(
            EventView::Done(Seq::empty()),
        ).0
    }

    /// The attempt once, after that, the acknowledgment has arrived as
    /// `ack_chunks` and the file has been sent: the artifact's frame is
    /// awaited.
    #[verifier::opaque]
    pub open spec fn after_upload(self, content: Seq<u8>, ack_chunks: Seq<Seq<u8>>) -> ExchangeView {
        self.after_announcing(content).fed(ack_chunks).step(EventView::Done(Seq::empty())).0
    }

    /// The attempt after the driver has received `chunks`, one after the
    /// other.
    pub open spec fn fed(self, chunks: Seq<Seq<u8>>) -> ExchangeView
        decreases chunks.len(),
    {
        if chunks.len() == 0 {
            self
        } else {
            self.fed(chunks.drop_last()).step(EventView::Done(chunks.last())).0
        }
    }

    /// The attempt after the driver has reported `event`, and the action
    /// that the driver is to perform next.
    pub open spec fn step(self, event: EventView) -> (ExchangeView, ActionView) {
        match self.phase {
            Phase::ReadingSource => match event {
                EventView::Done(content) => (
                    ExchangeView { phase: Phase::Connecting, payload: content, ..self },
                    ActionView::Connect,
                ),
                _ => self.fail(FailureKind::LocalIo),
            },
            Phase::Connecting => match event {
                EventView::Done(_) => if encode_utf8(self.file_name).len() <= u32::MAX {
                    (
                        ExchangeView { phase: Phase::SendingName, ..self },
                        ActionView::Send(name_frame(self.file_name)),
                    )
                } else {
                    self.fail(FailureKind::ProtocolViolation)
                },
                _ => self.fail(FailureKind::Transient),
            },
            Phase::SendingName => match event {
                EventView::Done(_) => (
                    ExchangeView { phase: Phase::AwaitingAck, buffer: Seq::empty(), ..self },
                    ActionView::Receive(3),
                ),
                _ => self.fail(FailureKind::Transient),
            },
            Phase::AwaitingAck => match event {
                EventView::Done(bytes) => self.take_ack(bytes),
                _ => self.fail(FailureKind::Transient),
            },
            Phase::SendingPayload => match event {
                EventView::Done(_) => (
                    ExchangeView { phase: Phase::AwaitingLength, buffer: Seq::empty(), ..self },
                    ActionView::Receive(8),
                ),
                _ => self.fail(FailureKind::Transient),
            },
            Phase::AwaitingLength => match event {
                EventView::Done(bytes) => self.take_length(bytes),
                _ => self.fail(FailureKind::Transient),
            },
            Phase::Downloading => match event {
                EventView::Done(bytes) => self.take_artifact(bytes),
                _ => self.fail(FailureKind::Transient),
            },
            Phase::Storing => match event {
                EventView::Done(_) => (
                    ExchangeView { phase: Phase::Succeeded, ..self },
                    ActionView::Finish(AttemptView::Stored(self.stored_name)),
                ),
                _ => self.fail(FailureKind::LocalIo),
            },
            Phase::Succeeded => (self, ActionView::Finish(AttemptView::Stored(self.stored_name))),
            Phase::Failed(kind) => (self, ActionView::Finish(AttemptView::Failed(kind))),
        }
    }
}

/// One attempt to send a file to a server and to store what comes back.
pub struct Exchange {
    file_name: String,
    server: String,
    phase: Phase,
    payload: Vec<u8>,
    buffer: Vec<u8>,
    remaining: u64,
    stored_name: String,
}

impl View for Exchange {
    type V = ExchangeView;

    closed spec fn view(&self) -> ExchangeView {
        ExchangeView {
            file_name: self.file_name@,
            server: self.server@,
            phase: self.phase,
            payload: self.payload@,
            buffer: self.buffer@,
            remaining: self.remaining as nat,
            stored_name: self.stored_name@,
        }
    }
}

/// The number of bytes to ask for when `remaining` bytes are still to come.
fn next_request(remaining: u64) -> (limit: usize)
    ensures
        limit == chunk_request(remaining as nat),
{
    if remaining < CHUNK_SIZE as u64 {
        remaining as usize
    } else {
        CHUNK_SIZE
    }
}

impl Exchange {
    /// A new attempt for the file named `file_name` and the server at
    /// `server`, and its first action.
    pub fn new(file_name: String, server: String) -> (start: (Exchange, Action))
        ensures
            start.0@ == ExchangeView::initial(file_name@, server@),
            start.0@.wf(),
            start.1@ == ActionView::ReadSource,
    {
        (
            Exchange {
                file_name,
                server,
                phase: Phase::ReadingSource,
                payload: Vec::new(),
                buffer: Vec::new(),
                remaining: 0,
                stored_name: String::new(),
            },
            Action::ReadSource,
        )
    }

    /// Where the attempt stands.
    pub fn phase(&self) -> (phase: Phase)
        ensures
            phase == self@.phase,
    {
        self.phase
    }

    /// Whether the attempt has ended.
    pub fn is_finished(&self) -> (done: bool)
        ensures
            done == self@.is_finished(),
    {
        match self.phase {
            Phase::Succeeded => true,
            Phase::Failed(_) => true,
            _ => false,
        }
    }

    /// Ends the attempt as a failure of the kind `kind`.
    pub(crate) fn fail(self, kind: FailureKind) -> (next: (Exchange, Action))
        ensures
            next.0@ == self@.fail(kind).0,
            next.1@ == self@.fail(kind).1,
            next.0@.wf(),
    {
        (
            Exchange { phase: Phase::Failed(kind), buffer: Vec::new(), remaining: 0, ..self },
            Action::Finish(AttemptResult::Failed(kind)),
        )
    }

    fn store(self, artifact: Vec<u8>) -> (next: (Exchange, Action))
        ensures
            next.0@ == self@.store(artifact@).0,
            next.1@ == self@.store(artifact@).1,
            next.0@.wf(),
    {
        let format = detect_format(artifact.as_slice());
        let name = encoded_filename_for(self.file_name.as_str(), self.server.as_str(), format);
        let stored_name = name.clone();
        (
            Exchange {
                phase: Phase::Storing,
                buffer: Vec::new(),
                remaining: 0,
                stored_name,
                ..self
            },
            Action::Store { name, bytes: artifact },
        )
    }

    fn take_ack(self, bytes: Vec<u8>) -> (next: (Exchange, Action))
        requires
            self@.wf(),
            self@.phase == Phase::AwaitingAck,
        ensures
            next.0@ == self@.take_ack(bytes@).0,
            next.1@ == self@.take_ack(bytes@).1,
            next.0@.wf(),
    {
        if bytes.len() == 0 {
            if self.buffer.len() == 0 {
                return self.fail(FailureKind::Transient);
            } else {
                return self.fail(FailureKind::ProtocolViolation);
            }
        }
        if bytes.len() > ACK_LEN - self.buffer.len() {
            return self.fail(FailureKind::ProtocolViolation);
        }
        let mut chunk = bytes;
        let mut this = self;
        this.buffer.append(&mut chunk);
        if this.buffer.len() < ACK_LEN {
            let limit = ACK_LEN - this.buffer.len();
            (this, Action::Receive(limit))
        } else if is_ack(this.buffer.as_slice()) {
            let frame = encode_payload_frame(this.payload.as_slice());
            (
                Exchange { phase: Phase::SendingPayload, buffer: Vec::new(), ..this },
                Action::Send(frame),
            )
        } else {
            this.fail(FailureKind::ProtocolViolation)
        }
    }

    fn take_length(self, bytes: Vec<u8>) -> (next: (Exchange, Action))
        requires
            self@.wf(),
            self@.phase == Phase::AwaitingLength,
        ensures
            next.0@ == self@.take_length(bytes@).0,
            next.1@ == self@.take_length(bytes@).1,
            next.0@.wf(),
    {
        if bytes.len() == 0 {
            if self.buffer.len() == 0 {
                return self.fail(FailureKind::Transient);
            } else {
                return self.fail(FailureKind::ProtocolViolation);
            }
        }
        if bytes.len() > PAYLOAD_PREFIX_LEN - self.buffer.len() {
            return self.fail(FailureKind::ProtocolViolation);
        }
        let mut chunk = bytes;
        let mut this = self;
        this.buffer.append(&mut chunk);
        match decode_u64_be(this.buffer.as_slice()) {
            None => {
                let limit = PAYLOAD_PREFIX_LEN - this.buffer.len();
                (this, Action::Receive(limit))
            },
            Some(declared) => {
                if declared == 0 {
                    this.store(Vec::new())
                } else {
                    let limit = next_request(declared);
                    (
                        Exchange {
                            phase: Phase::Downloading,
                            buffer: Vec::new(),
                            remaining: declared,
                            ..this
                        },
                        Action::Receive(limit),
                    )
                }
            },
        }
    }

    fn take_artifact(self, bytes: Vec<u8>) -> (next: (Exchange, Action))
        requires
            self@.wf(),
            self@.phase == Phase::Downloading,
        ensures
            next.0@ == self@.take_artifact(bytes@).0,
            next.1@ == self@.take_artifact(bytes@).1,
            next.0@.wf(),
    {
        if bytes.len() == 0 {
            return self.fail(FailureKind::ProtocolViolation);
        }
        let limit = next_request(self.remaining);
        if bytes.len() > limit {
            return self.fail(FailureKind::ProtocolViolation);
        }
        let count = bytes.len() as u64;
        let ghost arrived = bytes@;
        let mut chunk = bytes;
        let mut this = self;
        this.buffer.append(&mut chunk);
        if count == this.remaining {
            let mut artifact: Vec<u8> = Vec::new();
            artifact.append(&mut this.buffer);
            assert(artifact@ =~= self@.buffer + arrived);
            this.store(artifact)
        } else {
            let remaining = this.remaining - count;
            let limit = next_request(remaining);
            (Exchange { remaining, ..this }, Action::Receive(limit))
        }
    }

    /// Takes note of what became of the action that the driver performed
    /// last, and decides what it is to do next.
    pub fn step(self, event: Event) -> (next: (Exchange, Action))
        requires
            self@.wf(),
        ensures
            next.0@ == self@.step(event@).0,
            next.1@ == self@.step(event@).1,
            next.0@.wf(),
    {
        match self.phase {
            Phase::ReadingSource => match event {
                Event::Done(content) => (
                    Exchange { phase: Phase::Connecting, payload: content, ..self },
                    Action::Connect,
                ),
                _ => self.fail(FailureKind::LocalIo),
            },
            Phase::Connecting => match event {
                Event::Done(_) => match encode_name_frame(self.file_name.as_str()) {
                    Some(frame) => (
                        Exchange { phase: Phase::SendingName, ..self },
                        Action::Send(frame),
                    ),
                    None => self.fail(FailureKind::ProtocolViolation),
                },
                _ => self.fail(FailureKind::Transient),
            },
            Phase::SendingName => match event {
                Event::Done(_) => (
                    Exchange { phase: Phase::AwaitingAck, buffer: Vec::new(), ..self },
                    Action::Receive(ACK_LEN),
                ),
                _ => self.fail(FailureKind::Transient),
            },
            Phase::AwaitingAck => match event {
                Event::Done(bytes) => self.take_ack(bytes),
                _ => self.fail(FailureKind::Transient),
            },
            Phase::SendingPayload => match event {
                Event::Done(_) => (
                    Exchange { phase: Phase::AwaitingLength, buffer: Vec::new(), ..self },
                    Action::Receive(PAYLOAD_PREFIX_LEN),
                ),
                _ => self.fail(FailureKind::Transient),
            },
            Phase::AwaitingLength => match event {
                Event::Done(bytes) => self.take_length(bytes),
                _ => self.fail(FailureKind::Transient),
            },
            Phase::Downloading => match event {
                Event::Done(bytes) => self.take_artifact(bytes),
                _ => self.fail(FailureKind::Transient),
            },
            Phase::Storing => match event {
                Event::Done(_) => {
                    let name = self.stored_name.clone();
                    (
                        Exchange { phase: Phase::Succeeded, ..self },
                        Action::Finish(AttemptResult::Stored(name)),
                    )
                },
                _ => self.fail(FailureKind::LocalIo),
            },
            Phase::Succeeded => {
                let name = self.stored_name.clone();
                (self, Action::Finish(AttemptResult::Stored(name)))
            },
            Phase::Failed(kind) => (self, Action::Finish(AttemptResult::Failed(kind))),
        }
    }
}

/// The bytes of `chunks`, one chunk after the other.
pub open spec fn joined(chunks: Seq<Seq<u8>>) -> Seq<u8>
    decreases chunks.len(),
{
    if chunks.len() == 0 {
        Seq::empty()
    } else {
        joined(chunks.drop_last()) + chunks.last()
    }
}

/// A step keeps an attempt well formed.
pub proof fn lemma_step_preserves_wf(state: ExchangeView, event: EventView)
    requires
        state.wf(),
    ensures
        state.step(event).0.wf(),
{
    if state.phase == Phase::AwaitingLength {
        if let EventView::Done(bytes) = event {
            lemma_be_value_inverse(state.buffer + bytes);
            crate::framing::lemma_capacity_values();
        }
    }
}

/// The driver is told to finish exactly when the attempt has ended, and is
/// told how it ended; an attempt that has ended stays as it is, whatever is
/// reported to it.
pub proof fn lemma_finish_is_final(state: ExchangeView, event: EventView)
    ensures
        state.step(event).0.is_finished() <==> state.step(event).1 is Finish,
        state.step(event).0.is_finished() ==> state.step(event).1 == ActionView::Finish(
            state.step(event).0.result().unwrap(),
        ),
        state.is_finished() ==> state.step(event).0 == state,
{
}

/// All that is ever sent is the frame of the file's name, once the
/// connection stands, and the frame of the file's content, once the
/// acknowledgment has arrived.
pub proof fn lemma_only_frames_are_sent(state: ExchangeView, event: EventView)
    ensures
        state.step(event).1 matches ActionView::Send(bytes) ==> {
            ||| state.phase == Phase::Connecting && bytes == name_frame(state.file_name)
            ||| state.phase == Phase::AwaitingAck && bytes == payload_frame(state.payload)
        },
{
}

/// The driver is never asked to receive nothing, and never more than one
/// chunk at once, however long the artifact is said to be.
pub proof fn lemma_requests_are_bounded(state: ExchangeView, event: EventView)
    requires
        state.wf(),
    ensures
        state.step(event).1 matches ActionView::Receive(limit) ==> 0 < limit <= CHUNK_SIZE,
{
}

/// Nothing but the three bytes `ACK` lets an attempt go on to upload the
/// file: three bytes that differ from them end the attempt as a protocol
/// violation.
pub proof fn lemma_only_ack_opens_upload(state: ExchangeView, event: EventView)
    requires
        state.phase == Phase::AwaitingAck,
    ensures
        state.step(event).0.phase == Phase::SendingPayload <==> (event matches EventView::Done(
            bytes,
        ) && bytes.len() > 0 && state.buffer + bytes == ack()),
        state.step(event).0.phase == Phase::SendingPayload ==> state.step(event).1
            == ActionView::Send(payload_frame(state.payload)),
        event matches EventView::Done(bytes) && bytes.len() > 0 && (state.buffer + bytes).len() == 3
            && state.buffer + bytes != ack() ==> state.step(event) == state.fail(
            FailureKind::ProtocolViolation,
        ),
{
    if let EventView::Done(bytes) = event {
        if bytes.len() == 0 && state.buffer + bytes == ack() {
            assert(state.buffer =~= state.buffer + bytes);
        }
    }
}

/// A peer that closes the connection where a reply should begin, a step
/// that times out and a network step that fails end the attempt as a
/// transient failure.
pub proof fn lemma_lost_connection_is_transient(state: ExchangeView, event: EventView)
    requires
        state.phase == Phase::Connecting || state.phase == Phase::SendingName || state.phase
            == Phase::AwaitingAck || state.phase == Phase::SendingPayload || state.phase
            == Phase::AwaitingLength || state.phase == Phase::Downloading,
    ensures
        event == EventView::TimedOut || event == EventView::Failed ==> state.step(event)
            == state.fail(FailureKind::Transient),
        (state.phase == Phase::AwaitingAck || state.phase == Phase::AwaitingLength)
            && state.buffer.len() == 0 && event == EventView::Done(Seq::empty()) ==> state.step(
            event,
        ) == state.fail(FailureKind::Transient),
{
}

/// While the frame that carries the artifact is received, every chunk that
/// is taken is added to what has been received; and when the artifact goes
/// to be stored, what has been received is the artifact's frame, no byte
/// more and no byte less, and the name is that of the artifact.
pub proof fn lemma_download_keeps_stream(state: ExchangeView, bytes: Seq<u8>)
    requires
        state.wf(),
        state.is_downloading(),
    ensures
        ({
            let (next, action) = state.step(EventView::Done(bytes));
            &&& next.is_downloading() ==> next.received() == state.received() + bytes
            &&& action matches ActionView::Store { name, bytes: artifact } ==> {
                &&& payload_frame(artifact) == state.received() + bytes
                &&& name == encoded_filename(state.file_name, state.server, format_of(artifact))
            }
            &&& next.is_downloading() || next.phase == Phase::Storing || next.phase is Failed
        }),
{
    let got = state.buffer + bytes;
    let (next, action) = state.step(EventView::Done(bytes));
    if state.phase == Phase::AwaitingLength {
        if bytes.len() > 0 && got.len() == 8 {
            lemma_be_value_inverse(got);
            if be_value(got) == 0 {
                assert(payload_frame(Seq::<u8>::empty()) =~= got);
            } else {
                assert(next.received() =~= got);
            }
        }
    } else {
        if 0 < bytes.len() <= chunk_request(state.remaining) {
            if bytes.len() == state.remaining {
                assert(payload_frame(got) =~= state.received() + bytes);
            } else {
                assert(next.received() =~= state.received() + bytes);
            }
        }
    }
}

/// What a series of receptions leaves behind, from the moment the attempt
/// starts to wait for the artifact's frame.
proof fn lemma_fed_stream(state: ExchangeView, chunks: Seq<Seq<u8>>)
    requires
        state.wf(),
        state.phase == Phase::AwaitingLength,
        state.buffer.len() == 0,
    ensures
        state.fed(chunks).wf(),
        state.fed(chunks).file_name == state.file_name,
        state.fed(chunks).server == state.server,
        state.fed(chunks).is_downloading() ==> state.fed(chunks).received() == joined(chunks),
        state.fed(chunks).is_downloading() || state.fed(chunks).phase == Phase::Storing
            || state.fed(chunks).is_finished(),
    decreases chunks.len(),
{
    if chunks.len() == 0 {
        assert(state.received() =~= joined(chunks));
    } else {
        let before = state.fed(chunks.drop_last());
        lemma_fed_stream(state, chunks.drop_last());
        lemma_step_preserves_wf(before, EventView::Done(chunks.last()));
        if before.is_downloading() {
            lemma_download_keeps_stream(before, chunks.last());
        }
    }
}

/// An artifact is stored exactly as the server framed it: when an attempt
/// that has uploaded its file receives a series of chunks and then hands an
/// artifact over to be stored, the chunks, one after the other, are the
/// artifact's frame. So where the server answers with the frame of the very
/// bytes that were uploaded, those bytes are what is stored.
pub proof fn lemma_stored_artifact_is_what_was_framed(
    state: ExchangeView,
    chunks: Seq<Seq<u8>>,
    name: Seq<char>,
    artifact: Seq<u8>,
)
    requires
        state.wf(),
        state.phase == Phase::AwaitingLength,
        state.buffer.len() == 0,
        chunks.len() > 0,
        state.fed(chunks.drop_last()).step(EventView::Done(chunks.last())).1 == (
        ActionView::Store { name, bytes: artifact }),
    ensures
        joined(chunks) == payload_frame(artifact),
        joined(chunks) == payload_frame(state.payload) && state.payload.len() <= u64::MAX
            ==> artifact == state.payload,
        name == encoded_filename(state.file_name, state.server, format_of(artifact)),
{
    let before = state.fed(chunks.drop_last());
    lemma_fed_stream(state, chunks.drop_last());
    lemma_download_keeps_stream(before, chunks.last());
    if joined(chunks) == payload_frame(state.payload) && state.payload.len() <= u64::MAX {
        lemma_payload_frame_round_trip(state.payload);
        let frame = payload_frame(artifact);
        crate::framing::lemma_be_bytes_len(artifact.len(), 8);
        assert(frame.len() == artifact.len() + 8);
        assert(frame.subrange(8, 8 + artifact.len() as int) =~= artifact);
    }
}

/// Receiving one series of chunks and then another is receiving the two in
/// a row.
pub proof fn lemma_fed_in_two(state: ExchangeView, first: Seq<Seq<u8>>, second: Seq<Seq<u8>>)
    ensures
        state.fed(first + second) == state.fed(first).fed(second),
    decreases second.len(),
{
    if second.len() == 0 {
        assert(first + second =~= first);
    } else {
        lemma_fed_in_two(state, first, second.drop_last());
        assert((first + second).drop_last() =~= first + second.drop_last());
        assert((first + second).last() == second.last());
    }
}

/// However the three bytes `ACK` are cut into pieces, the attempt takes
/// them: it waits while they are incomplete, and with the last piece it
/// sends the frame of the file.
pub proof fn lemma_ack_in_pieces(state: ExchangeView, chunks: Seq<Seq<u8>>)
    requires
        state.phase == Phase::AwaitingAck,
        state.buffer.len() == 0,
        forall|i: int| 0 <= i < chunks.len() ==> (#[trigger] chunks[i]).len() > 0,
        joined(chunks).is_prefix_of(ack()),
    ensures
        joined(chunks).len() < 3 ==> state.fed(chunks) == (ExchangeView {
            buffer: joined(chunks),
            ..state
        }),
        joined(chunks) == ack() ==> chunks.len() > 0 && state.fed(chunks.drop_last()).step(
            EventView::Done(chunks.last()),
        ) == (
            ExchangeView { phase: Phase::SendingPayload, buffer: Seq::empty(), ..state },
            ActionView::Send(payload_frame(state.payload)),
        ),
    decreases chunks.len(),
{
    if chunks.len() == 0 {
        assert(state.buffer =~= joined(chunks));
    } else {
        let front = chunks.drop_last();
        let last = chunks.last();
        assert(last == chunks[chunks.len() - 1]);
        assert forall|i: int| 0 <= i < front.len() implies (#[trigger] front[i]).len() > 0 by {
            assert(front[i] == chunks[i]);
        }
        assert(joined(front) =~= joined(chunks).subrange(0, joined(front).len() as int));
        assert(joined(front) =~= ack().subrange(0, joined(front).len() as int));
        lemma_ack_in_pieces(state, front);
        let got = joined(front) + last;
        assert(got == joined(chunks));
        if got.len() == 3 {
            assert(got =~= ack());
        }
    }
}

/// However the frame of an artifact is cut into pieces, as long as no piece
/// is longer than what was asked for, the attempt takes them: it waits for
/// the prefix, then for the artifact, and with the last piece it hands the
/// artifact over to be stored, whole and under its name.
pub proof fn lemma_frame_in_pieces(state: ExchangeView, chunks: Seq<Seq<u8>>, artifact: Seq<u8>)
    requires
        state.phase == Phase::AwaitingLength,
        state.buffer.len() == 0,
        artifact.len() <= u64::MAX,
        state.within_requests(chunks),
        joined(chunks).is_prefix_of(payload_frame(artifact)),
    ensures
        joined(chunks).len() < 8 ==> state.fed(chunks) == (ExchangeView {
            buffer: joined(chunks),
            ..state
        }),
        8 <= joined(chunks).len() < 8 + artifact.len() ==> state.fed(chunks) == (ExchangeView {
            phase: Phase::Downloading,
            buffer: joined(chunks).subrange(8, joined(chunks).len() as int),
            remaining: (8 + artifact.len() - joined(chunks).len()) as nat,
            ..state
        }),
        joined(chunks) == payload_frame(artifact) ==> chunks.len() > 0 && state.fed(
            chunks.drop_last(),
        ).step(EventView::Done(chunks.last())) == state.store(artifact),
    decreases chunks.len(),
{
    let frame = payload_frame(artifact);
    lemma_payload_frame_round_trip(artifact);
    if chunks.len() == 0 {
        assert(state.buffer =~= joined(chunks));
    } else {
        let front = chunks.drop_last();
        let last = chunks.last();
        let before = state.fed(front);
        let got = joined(chunks);
        assert(got == joined(front) + last);
        assert(joined(front) =~= got.subrange(0, joined(front).len() as int));
        assert(joined(front) =~= frame.subrange(0, joined(front).len() as int));
        lemma_frame_in_pieces(state, front, artifact);
        let so_far = joined(front).len() as int;
        if so_far < 8 {
            assert(before.request() == 8 - so_far);
            if got.len() == 8 {
                assert(got =~= frame.subrange(0, 8));
                if artifact.len() == 0 {
                    assert(artifact =~= Seq::<u8>::empty());
                } else {
                    assert(got.subrange(8, 8) =~= Seq::<u8>::empty());
                }
            }
        } else {
            assert(before.buffer + last =~= got.subrange(8, got.len() as int));
            if last.len() == before.remaining {
                assert(got =~= frame);
                assert(got.subrange(8, got.len() as int) =~= artifact);
            }
        }
    }
}

/// The reports that bring an attempt from its beginning to the moment the
/// artifact's frame is awaited: the source's content, a connection, the name
/// sent, the acknowledgment in pieces, the file sent.
pub open spec fn reports_of_upload(content: Seq<u8>, ack_chunks: Seq<Seq<u8>>) -> Seq<Seq<u8>> {
    seq![content, Seq::empty(), Seq::empty()] + ack_chunks + seq![Seq::empty()]
}

/// Once the source has been read, the connection made and the name sent, an
/// attempt awaits the acknowledgment and holds the source's content.
pub proof fn lemma_after_announcing(start: ExchangeView, content: Seq<u8>)
    requires
        start.phase == Phase::ReadingSource,
        encode_utf8(start.file_name).len() <= u32::MAX,
    ensures
        start.after_announcing(content) == (ExchangeView {
            phase: Phase::AwaitingAck,
            payload: content,
            buffer: Seq::empty(),
            ..start
        }),
        start.fed(seq![content, Seq::empty(), Seq::empty()]) == start.after_announcing(content),
{
    reveal(ExchangeView::after_announcing);
    reveal_with_fuel(ExchangeView::fed, 4);
    let head = seq![content, Seq::<u8>::empty(), Seq::<u8>::empty()];
    assert(head.drop_last() =~= seq![content, Seq::<u8>::empty()]);
    assert(head.drop_last().drop_last() =~= seq![content]);
    assert(head.drop_last().drop_last().drop_last() =~= Seq::<Seq<u8>>::empty());
}

/// Once, after that, the acknowledgment has arrived, in whatever pieces, and
/// the file has been sent, an attempt awaits the artifact's frame.
pub proof fn lemma_after_upload(start: ExchangeView, content: Seq<u8>, ack_chunks: Seq<Seq<u8>>)
    requires
        start.phase == Phase::ReadingSource,
        encode_utf8(start.file_name).len() <= u32::MAX,
        forall|i: int| 0 <= i < ack_chunks.len() ==> (#[trigger] ack_chunks[i]).len() > 0,
        joined(ack_chunks) == ack(),
    ensures
        start.after_upload(content, ack_chunks) == (ExchangeView {
            phase: Phase::AwaitingLength,
            payload: content,
            buffer: Seq::empty(),
            ..start
        }),
        start.fed(reports_of_upload(content, ack_chunks)) == start.after_upload(
            content,
            ack_chunks,
        ),
{
    reveal(ExchangeView::after_upload);
    lemma_after_announcing(start, content);
    let announced = start.after_announcing(content);
    lemma_ack_in_pieces(announced, ack_chunks);
    let head = seq![content, Seq::<u8>::empty(), Seq::<u8>::empty()];
    let gap = seq![Seq::<u8>::empty()];
    lemma_fed_in_two(start, head, ack_chunks);
    lemma_fed_in_two(start, head + ack_chunks, gap);
    assert(announced.fed(ack_chunks).fed(gap) == announced.fed(ack_chunks).step(
        EventView::Done(Seq::empty()),
    ).0) by {
        reveal_with_fuel(ExchangeView::fed, 2);
        assert(gap.drop_last() =~= Seq::<Seq<u8>>::empty());
    }
}

/// Against a server that acknowledges the name and answers the upload with
/// the frame of the very bytes it was sent, an attempt stores those bytes,
/// all of them and nothing else, under the name of the file and the server,
/// and then succeeds. This holds however the acknowledgment and the frame
/// are cut into pieces on their way, as long as no piece is empty or longer
/// than what was asked for, and for an empty file as for any other.
pub proof fn lemma_echo_is_stored(
    start: ExchangeView,
    content: Seq<u8>,
    ack_chunks: Seq<Seq<u8>>,
    frame_chunks: Seq<Seq<u8>>,
    after_store: Seq<u8>,
)
    requires
        start.phase == Phase::ReadingSource,
        encode_utf8(start.file_name).len() <= u32::MAX,
        content.len() <= u64::MAX,
        forall|i: int| 0 <= i < ack_chunks.len() ==> (#[trigger] ack_chunks[i]).len() > 0,
        joined(ack_chunks) == ack(),
        start.after_upload(content, ack_chunks).within_requests(frame_chunks),
        joined(frame_chunks) == payload_frame(content),
    ensures
        ({
            let name = encoded_filename(start.file_name, start.server, format_of(content));
            let waiting = start.after_upload(content, ack_chunks);
            let (storing, store) = waiting.fed(frame_chunks.drop_last()).step(
                EventView::Done(frame_chunks.last()),
            );
            &&& frame_chunks.len() > 0
            &&& store == ActionView::Store { name, bytes: content }
            &&& storing == waiting.fed(frame_chunks)
            &&& storing.phase == Phase::Storing
            &&& storing.step(EventView::Done(after_store)) == (
                ExchangeView { phase: Phase::Succeeded, ..storing },
                ActionView::Finish(AttemptView::Stored(name)),
            )
        }),
{
    lemma_after_upload(start, content, ack_chunks);
    let waiting = start.after_upload(content, ack_chunks);
    lemma_frame_in_pieces(waiting, frame_chunks, content);
}

} // verus!
