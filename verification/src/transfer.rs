//! A whole session: attempts of the exchange, repeated as the task's retry
//! policy says.
//!
//! The session hands its driver the actions of the current attempt. When an
//! attempt ends, the session records the result with the task; if the task
//! allows another attempt, the next action is the first of a new attempt, and
//! the driver, told to read the source and to connect again, lets go of the
//! old connection. Otherwise the next action is [`Action::Finish`], and the
//! session has an outcome.

use crate::exchange::{Action, ActionView, Event, EventView, Exchange, ExchangeView};
use crate::session::{
    AttemptResult, AttemptView, FailureKind, SessionState, TaskView, TransferOutcome, TransferTask,
};
use crate::exchange::{
    joined, lemma_after_upload, lemma_echo_is_stored, lemma_fed_in_two, lemma_finish_is_final,
    lemma_step_preserves_wf, reports_of_upload, Phase,
};
use crate::framing::{ack, payload_frame};
use crate::naming::{encoded_filename, format_of};
use crate::session::lemma_steps_preserve_wf;
use vstd::prelude::*;
use vstd::string::*;
use vstd::utf8::encode_utf8;

verus! {

/// The mathematical content of a [`TransferSession`].
pub struct SessionView {
    /// The task, with the progress of its session.
    pub task: TaskView,
    /// The current attempt, or the last one.
    pub exchange: ExchangeView,
}

impl SessionView {
    /// What holds of a session at every moment: its task has begun, the
    /// attempt is for the task's file and server, and the attempt is under
    /// way exactly as long as the task is `Attempting`.
    pub open spec fn wf(self) -> bool {
        &&& self.task.wf()
        &&& self.exchange.wf()
        &&& self.task.state != SessionState::Pending
        &&& self.exchange.file_name == self.task.file.base_name
        &&& self.exchange.server == self.task.server
        &&& self.task.state == SessionState::Attempting <==> !self.exchange.is_finished()
    }

    /// The session of `task` as it begins at time `now`, and its first
    /// action: the first action of an attempt, or `Finish` for a task that
    /// allows no attempt.
    pub open spec fn started(task: TaskView, now: nat) -> (SessionView, ActionView) {
        let begun = task.begun(now);
        let fresh = ExchangeView::initial(task.file.base_name, task.server);
        if begun.state == SessionState::Attempting {
            (SessionView { task: begun, exchange: fresh }, ActionView::ReadSource)
        } else {
            let (ended, action) = fresh.fail(FailureKind::Transient);
            (SessionView { task: begun, exchange: ended }, action)
        }
    }

    /// The session after the driver has reported `event`, and the action
    /// that the driver is to perform next.
    pub open spec fn advanced(self, event: EventView) -> (SessionView, ActionView) {
        let (exchange, action) = self.exchange.step(event);
        match action {
            ActionView::Finish(result) => {
                let task = self.task.recorded(result);
                if task.state == SessionState::Attempting {
                    (
                        SessionView {
                            task,
                            exchange: ExchangeView::initial(task.file.base_name, task.server),
                        },
                        ActionView::ReadSource,
                    )
                } else {
                    (SessionView { task, exchange }, action)
                }
            },
            _ => (SessionView { task: self.task, exchange }, action),
        }
    }

    /// The session after one attempt on a server that accepts the connection
    /// and closes it without a reply, and what the driver is told then: the
    /// source is read as `content`, the connection made, the name sent, and
    /// nothing received.
    #[verifier::opaque]
    pub open spec fn after_closed_round(self, content: Seq<u8>) -> (SessionView, ActionView) {
        self.advanced(EventView::Done(content)).0.advanced(EventView::Done(Seq::empty())).0.advanced(
            EventView::Done(Seq::empty()),
        ).0.advanced(EventView::Done(Seq::empty()))
    }

    /// The session after the driver has reported `events`, one after the
    /// other.
    pub open spec fn driven(self, events: Seq<EventView>) -> SessionView
        decreases events.len(),
    {
        if events.len() == 0 {
            self
        } else {
            self.driven(events.drop_last()).advanced(events.last()).0
        }
    }
}

/// One task and the attempt that is being made for it.
pub struct TransferSession {
    task: TransferTask,
    exchange: Exchange,
}

impl View for TransferSession {
    type V = SessionView;

    closed spec fn view(&self) -> SessionView {
        SessionView { task: self.task@, exchange: self.exchange@ }
    }
}

impl TransferSession {
    /// Begins the session of a pending task at time `now`, in nanoseconds on
    /// the caller's clock.
    pub fn start(task: TransferTask, now: u64) -> (start: (TransferSession, Action))
        requires
            task@.wf(),
            task@.state == SessionState::Pending,
        ensures
            start.0@ == SessionView::started(task@, now as nat).0,
            start.1@ == SessionView::started(task@, now as nat).1,
            start.0@.wf(),
    {
        let mut task = task;
        let attempt = task.begin(now);
        let name = task.file().base_name().to_owned();
        let server = task.server().to_owned();
        let (exchange, first) = Exchange::new(name, server);
        if attempt {
            (TransferSession { task, exchange }, first)
        } else {
            let (exchange, action) = exchange.fail(FailureKind::Transient);
            (TransferSession { task, exchange }, action)
        }
    }

    /// Takes note of what became of the action that the driver performed
    /// last, and decides what it is to do next.
    pub fn advance(self, event: Event) -> (next: (TransferSession, Action))
        requires
            self@.wf(),
        ensures
            next.0@ == self@.advanced(event@).0,
            next.1@ == self@.advanced(event@).1,
            next.0@.wf(),
    {
        let TransferSession { task, exchange } = self;
        let mut task = task;
        let (exchange, action) = exchange.step(event);
        match action {
            Action::Finish(result) => {
                let again = task.record(result.duplicate());
                if again {
                    let name = task.file().base_name().to_owned();
                    let server = task.server().to_owned();
                    let (fresh, first) = Exchange::new(name, server);
                    (TransferSession { task, exchange: fresh }, first)
                } else {
                    (TransferSession { task, exchange }, Action::Finish(result))
                }
            },
            other => (TransferSession { task, exchange }, other),
        }
    }

    /// The task, with the progress of its session.
    pub fn task(&self) -> (task: &TransferTask)
        ensures
            task@ == self@.task,
    {
        &self.task
    }

    /// What the session reports at time `now`: its outcome once it has
    /// ended, nothing before.
    pub fn outcome(&self, now: u64) -> (report: Option<TransferOutcome>)
        ensures
            match report {
                Some(o) => self@.task.outcome(now as nat) == Some(o@),
                None => self@.task.outcome(now as nat) is None,
            },
    {
        self.task.outcome(now)
    }
}

/// A step keeps a session well formed, and with it the count of attempts
/// within the task's limit.
pub proof fn lemma_advance_preserves_wf(session: SessionView, event: EventView)
    requires
        session.wf(),
    ensures
        session.advanced(event).0.wf(),
        session.advanced(event).0.task.attempts <= session.task.max_attempts,
        session.advanced(event).0.task.max_attempts == session.task.max_attempts,
{
    lemma_step_preserves_wf(session.exchange, event);
    lemma_finish_is_final(session.exchange, event);
    if let ActionView::Finish(result) = session.exchange.step(event).1 {
        lemma_steps_preserve_wf(session.task, 0, result);
    }
}

/// Whatever the driver reports, and for however long, the count of attempts
/// stays within the task's limit.
pub proof fn lemma_attempts_never_exceed_limit(session: SessionView, events: Seq<EventView>)
    requires
        session.wf(),
    ensures
        session.driven(events).wf(),
        session.driven(events).task.attempts <= session.task.max_attempts,
        session.driven(events).task.max_attempts == session.task.max_attempts,
    decreases events.len(),
{
    if events.len() > 0 {
        lemma_attempts_never_exceed_limit(session, events.drop_last());
        lemma_advance_preserves_wf(session.driven(events.drop_last()), events.last());
    }
}

/// A session that has ended stays as it is and keeps telling its driver to
/// finish: it has one outcome, and no later report changes it.
pub proof fn lemma_ended_session_is_final(session: SessionView, events: Seq<EventView>)
    requires
        session.wf(),
        session.task.is_terminal(),
    ensures
        session.driven(events) == session,
        forall|event: EventView| #[trigger] session.advanced(event).1 is Finish,
    decreases events.len(),
{
    assert forall|event: EventView| #[trigger] session.advanced(event).1 is Finish by {
        lemma_finish_is_final(session.exchange, event);
    }
    if events.len() > 0 {
        lemma_ended_session_is_final(session, events.drop_last());
        lemma_finish_is_final(session.exchange, events.last());
    }
}

/// An attempt that fails for a reason that is not transient ends the
/// session: the task is `Failed` with that reason, its count of attempts is
/// untouched, and the driver is told to finish, not to try again.
pub proof fn lemma_fatal_failure_is_not_retried(
    session: SessionView,
    event: EventView,
    kind: FailureKind,
)
    requires
        session.wf(),
        session.task.state == SessionState::Attempting,
        session.exchange.step(event).1 == ActionView::Finish(AttemptView::Failed(kind)),
        !kind.retryable(),
    ensures
        session.advanced(event).0.task == (TaskView {
            state: SessionState::Failed(kind),
            ..session.task
        }),
        session.advanced(event).1 == ActionView::Finish(AttemptView::Failed(kind)),
{
}

/// The reports of one attempt on a server that accepts the connection and
/// closes it without a reply.
pub open spec fn closed_round(content: Seq<u8>) -> Seq<EventView> {
    seq![
        EventView::Done(content),
        EventView::Done(Seq::empty()),
        EventView::Done(Seq::empty()),
        EventView::Done(Seq::empty()),
    ]
}

/// An attempt on a server that accepts the connection and closes it without
/// a reply costs the task one attempt: the source is read, the connection
/// made, the name sent, and then the peer is found to have closed. If the
/// task allows another attempt the driver is told to start over, and if not
/// the session has failed for a transient reason, with as many attempts
/// counted as the task allows.
pub proof fn lemma_closed_connection_costs_one_attempt(session: SessionView, content: Seq<u8>)
    requires
        session.wf(),
        session.task.state == SessionState::Attempting,
        session.exchange.phase == Phase::ReadingSource,
        encode_utf8(session.task.file.base_name).len() <= u32::MAX,
    ensures
        session.driven(closed_round(content)) == session.after_closed_round(content).0,
        ({
            let (closed, action) = session.after_closed_round(content);
            &&& closed.wf()
            &&& session.task.attempts + 1 < session.task.max_attempts ==> {
                &&& closed.task == (TaskView {
                    attempts: session.task.attempts + 1,
                    ..session.task
                })
                &&& closed.exchange == ExchangeView::initial(
                    session.task.file.base_name,
                    session.task.server,
                )
                &&& action == ActionView::ReadSource
            }
            &&& session.task.attempts + 1 >= session.task.max_attempts ==> {
                &&& closed.task == (TaskView {
                    attempts: session.task.max_attempts,
                    state: SessionState::Failed(FailureKind::Transient),
                    ..session.task
                })
                &&& action == ActionView::Finish(AttemptView::Failed(FailureKind::Transient))
            }
        }),
{
    reveal(SessionView::after_closed_round);
    let round = closed_round(content);
    assert(session.driven(round) == session.after_closed_round(content).0) by {
        reveal_with_fuel(SessionView::driven, 5);
        assert(round.drop_last() =~= seq![round[0], round[1], round[2]]);
        assert(round.drop_last().drop_last() =~= seq![round[0], round[1]]);
        assert(round.drop_last().drop_last().drop_last() =~= seq![round[0]]);
        assert(round.drop_last().drop_last().drop_last().drop_last() =~= Seq::<
            EventView,
        >::empty());
    }
}

/// The reports of steps that succeeded with these bytes, one after the
/// other.
pub open spec fn done_events(chunks: Seq<Seq<u8>>) -> Seq<EventView> {
    Seq::new(chunks.len(), |i: int| EventView::Done(chunks[i]))
}

/// The reports of one such attempt after the other, as many as `contents`
/// holds contents of the source.
pub open spec fn closed_rounds(contents: Seq<Seq<u8>>) -> Seq<EventView>
    decreases contents.len(),
{
    if contents.len() == 0 {
        Seq::empty()
    } else {
        closed_rounds(contents.drop_last()) + closed_round(contents.last())
    }
}

/// Driving a session through one series of reports and then another is
/// driving it through the two in a row.
pub proof fn lemma_driven_in_two(session: SessionView, first: Seq<EventView>, second: Seq<EventView>)
    ensures
        session.driven(first + second) == session.driven(first).driven(second),
    decreases second.len(),
{
    if second.len() == 0 {
        assert(first + second =~= first);
    } else {
        lemma_driven_in_two(session, first, second.drop_last());
        assert((first + second).drop_last() =~= first + second.drop_last());
        assert((first + second).last() == second.last());
    }
}

/// As long as an attempt lasts, the session is its task, untouched, and the
/// attempt.
pub proof fn lemma_session_follows_attempt(session: SessionView, chunks: Seq<Seq<u8>>)
    requires
        !session.exchange.fed(chunks).is_finished(),
    ensures
        session.driven(done_events(chunks)) == (SessionView {
            task: session.task,
            exchange: session.exchange.fed(chunks),
        }),
        chunks.len() > 0 ==> session.driven(done_events(chunks.drop_last())).advanced(
            EventView::Done(chunks.last()),
        ).1 == session.exchange.fed(chunks.drop_last()).step(EventView::Done(chunks.last())).1,
    decreases chunks.len(),
{
    if chunks.len() > 0 {
        let front = chunks.drop_last();
        let event = EventView::Done(chunks.last());
        lemma_finish_is_final(session.exchange.fed(front), event);
        lemma_session_follows_attempt(session, front);
        assert(done_events(chunks).drop_last() =~= done_events(front));
        assert(done_events(chunks).last() == event);
    }
}

/// An attempt that ends with the artifact stored ends the session in
/// `Success`, with the artifact's name as its output and the count of
/// attempts untouched.
pub proof fn lemma_stored_attempt_succeeds(session: SessionView, event: EventView, name: Seq<char>)
    requires
        session.task.state == SessionState::Attempting,
        session.exchange.step(event).1 == ActionView::Finish(AttemptView::Stored(name)),
    ensures
        session.advanced(event) == (
            SessionView {
                task: TaskView {
                    state: SessionState::Success,
                    output: Some(name),
                    ..session.task
                },
                exchange: session.exchange.step(event).0,
            },
            ActionView::Finish(AttemptView::Stored(name)),
        ),
{
}

/// Against a server that acknowledges the name and answers the upload with
/// the frame of the very bytes it was sent, a session succeeds at the
/// attempt it is making: what it hands over to be stored is the content of
/// the source, byte for byte, under the name of the file and the server, and
/// once that is stored the session has ended in `Success` without another
/// attempt counted. This holds however the acknowledgment and the frame are
/// cut into pieces on their way, as long as no piece is empty or longer than
/// what was asked for, and for an empty file as for any other.
pub proof fn lemma_echo_session_succeeds(
    session: SessionView,
    content: Seq<u8>,
    ack_chunks: Seq<Seq<u8>>,
    frame_chunks: Seq<Seq<u8>>,
    after_store: Seq<u8>,
)
    requires
        session.wf(),
        session.task.state == SessionState::Attempting,
        session.exchange.phase == Phase::ReadingSource,
        encode_utf8(session.task.file.base_name).len() <= u32::MAX,
        content.len() <= u64::MAX,
        forall|i: int| 0 <= i < ack_chunks.len() ==> (#[trigger] ack_chunks[i]).len() > 0,
        joined(ack_chunks) == ack(),
        session.exchange.after_upload(content, ack_chunks).within_requests(frame_chunks),
        joined(frame_chunks) == payload_frame(content),
    ensures
        ({
            let name = encoded_filename(
                session.task.file.base_name,
                session.task.server,
                format_of(content),
            );
            let reports = reports_of_upload(content, ack_chunks) + frame_chunks;
            let storing = session.driven(done_events(reports));
            &&& session.driven(done_events(reports.drop_last())).advanced(
                EventView::Done(reports.last()),
            ).1 == ActionView::Store { name, bytes: content }
            &&& storing.task == session.task
            &&& storing.advanced(EventView::Done(after_store)).1 == ActionView::Finish(
                AttemptView::Stored(name),
            )
            &&& storing.advanced(EventView::Done(after_store)).0.task == (TaskView {
                state: SessionState::Success,
                output: Some(name),
                ..session.task
            })
        }),
{
    let start = session.exchange;
    let upload = reports_of_upload(content, ack_chunks);
    let reports = upload + frame_chunks;
    let waiting = start.after_upload(content, ack_chunks);
    lemma_echo_is_stored(start, content, ack_chunks, frame_chunks, after_store);
    lemma_after_upload(start, content, ack_chunks);
    lemma_fed_in_two(start, upload, frame_chunks);
    lemma_fed_in_two(start, upload, frame_chunks.drop_last());
    assert(reports.drop_last() =~= upload + frame_chunks.drop_last());
    assert(reports.last() == frame_chunks.last());
    lemma_session_follows_attempt(session, reports);
    lemma_stored_attempt_succeeds(
        SessionView { task: session.task, exchange: waiting.fed(frame_chunks) },
        EventView::Done(after_store),
        encoded_filename(session.task.file.base_name, session.task.server, format_of(content)),
    );
}

/// A session that meets a server that closes every connection without a
/// reply makes exactly as many attempts as its task allows, every one of
/// them ending as a transient failure: after fewer rounds it is about to
/// make another attempt, with the rounds so far counted, and after that many
/// rounds it has `Failed` for a transient reason and stays so.
pub proof fn lemma_closing_server_exhausts_attempts(
    task: TaskView,
    now: nat,
    contents: Seq<Seq<u8>>,
)
    requires
        task.wf(),
        task.state == SessionState::Pending,
        encode_utf8(task.file.base_name).len() <= u32::MAX,
    ensures
        ({
            let end = SessionView::started(task, now).0.driven(closed_rounds(contents));
            &&& end.wf()
            &&& contents.len() < task.max_attempts ==> {
                &&& end.task.state == SessionState::Attempting
                &&& end.task.attempts == contents.len()
                &&& end.exchange == ExchangeView::initial(task.file.base_name, task.server)
            }
            &&& contents.len() >= task.max_attempts ==> {
                &&& end.task.state == SessionState::Failed(FailureKind::Transient)
                &&& end.task.attempts == task.max_attempts
            }
            &&& end.task.file == task.file
            &&& end.task.server == task.server
            &&& end.task.max_attempts == task.max_attempts
        }),
    decreases contents.len(),
{
    let begun = SessionView::started(task, now).0;
    if contents.len() > 0 {
        let front = contents.drop_last();
        lemma_closing_server_exhausts_attempts(task, now, front);
        let before = begun.driven(closed_rounds(front));
        let round = closed_round(contents.last());
        lemma_driven_in_two(begun, closed_rounds(front), round);
        if front.len() < task.max_attempts {
            lemma_closed_connection_costs_one_attempt(before, contents.last());
        } else {
            lemma_ended_session_is_final(before, round);
        }
    }
}

} // verus!
