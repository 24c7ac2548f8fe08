//! One transfer session: a task, its retry policy and its outcome.
//!
//! A task pairs one source image with one server. It starts `Pending`,
//! becomes `Attempting` when the session begins, and ends in `Success` or in
//! `Failed`. A transient failure is retried at once until the task's limit of
//! attempts is used up; any other failure ends the session on the spot.

use crate::files::{ImageFile, ImageFileView};
use vstd::prelude::*;
use vstd::string::*;

verus! {

/// Why an attempt, or a whole session, failed.
#[derive(Clone, Copy, Debug, PartialEq, Eq, Structural)]
pub enum FailureKind {
    /// The source file could not be read or the artifact could not be
    /// written.
    LocalIo,
    /// The network let the attempt down: the connection was refused, lost or
    /// too slow.
    Transient,
    /// The server sent something other than what the protocol asks for.
    ProtocolViolation,
}

impl FailureKind {
    /// Whether an attempt that failed in this way is worth repeating.
    pub open spec fn retryable(self) -> bool {
        self == FailureKind::Transient
    }

    /// Whether an attempt that failed in this way is worth repeating.
    pub fn is_retryable(self) -> (yes: bool)
        ensures
            yes == self.retryable(),
    {
        match self {
            FailureKind::Transient => true,
            FailureKind::LocalIo => false,
            FailureKind::ProtocolViolation => false,
        }
    }
}

/// How one attempt ended.
#[derive(Clone, Debug, PartialEq, Eq)]
pub enum AttemptResult {
    /// The artifact was stored under this name.
    Stored(String),
    /// The attempt failed.
    Failed(FailureKind),
}

/// The mathematical content of an [`AttemptResult`].
pub enum AttemptView {
    /// The artifact was stored under this name.
    Stored(Seq<char>),
    /// The attempt failed.
    Failed(FailureKind),
}

impl View for AttemptResult {
    type V = AttemptView;

    open spec fn view(&self) -> AttemptView {
        match self {
            AttemptResult::Stored(name) => AttemptView::Stored(name@),
            AttemptResult::Failed(kind) => AttemptView::Failed(*kind),
        }
    }
}

impl AttemptResult {
    /// A second value with the same content.
    pub fn duplicate(&self) -> (copy: AttemptResult)
        ensures
            copy@ == self@,
    {
        match self {
            AttemptResult::Stored(name) => AttemptResult::Stored(name.clone()),
            AttemptResult::Failed(kind) => AttemptResult::Failed(*kind),
        }
    }
}

/// Where a session stands.
#[derive(Clone, Copy, Debug, PartialEq, Eq, Structural)]
pub enum SessionState {
    /// Not begun.
    Pending,
    /// An attempt is under way, or about to be.
    Attempting,
    /// Ended: the artifact is stored.
    Success,
    /// Ended: no artifact.
    Failed(FailureKind),
}

/// The mathematical content of a [`TransferTask`].
pub struct TaskView {
    /// The source image.
    pub file: ImageFileView,
    /// The server's address.
    pub server: Seq<char>,
    /// The number of attempts that the task allows.
    pub max_attempts: nat,
    /// The number of attempts that have failed for a transient reason.
    pub attempts: nat,
    /// When the session began, once it has.
    pub started_at: Option<nat>,
    /// Where the session stands.
    pub state: SessionState,
    /// The name of the stored artifact, once the session has succeeded.
    pub output: Option<Seq<char>>,
}

impl TaskView {
    /// A task for `file` and `server` whose session has not begun.
    pub open spec fn pending(file: ImageFileView, server: Seq<char>, max_attempts: nat) -> TaskView {
        TaskView {
            file,
            server,
            max_attempts,
            attempts: 0,
            started_at: None,
            state: SessionState::Pending,
            output: None,
        }
    }

    /// What holds of a task at every moment of its life.
    pub open spec fn wf(self) -> bool {
        &&& self.attempts <= self.max_attempts
        &&& self.state == SessionState::Attempting ==> self.attempts < self.max_attempts
        &&& self.state == SessionState::Pending ==> self.attempts == 0
        &&& self.started_at is None <==> self.state == SessionState::Pending
        &&& self.output is Some <==> self.state == SessionState::Success
    }

    /// Whether the session has ended.
    pub open spec fn is_terminal(self) -> bool {
        self.state == SessionState::Success || self.state is Failed
    }

    /// The task after its session has begun at time `now`. A task that
    /// allows no attempt at all fails at once; a task that has begun before
    /// stays as it is.
    pub open spec fn begun(self, now: nat) -> TaskView {
        if self.state != SessionState::Pending {
            self
        } else if self.max_attempts == 0 {
            TaskView {
                started_at: Some(now),
                state: SessionState::Failed(FailureKind::Transient),
                ..self
            }
        } else {
            TaskView { started_at: Some(now), state: SessionState::Attempting, ..self }
        }
    }

    /// The task after an attempt has ended with `result`. Outside
    /// `Attempting` there is no attempt to end, and the task stays as it is.
    pub open spec fn recorded(self, result: AttemptView) -> TaskView {
        if self.state != SessionState::Attempting {
            self
        } else {
            match result {
                AttemptView::Stored(name) => TaskView {
                    state: SessionState::Success,
                    output: Some(name),
                    ..self
                },
                AttemptView::Failed(kind) => if !kind.retryable() {
                    TaskView { state: SessionState::Failed(kind), ..self }
                } else if self.attempts + 1 < self.max_attempts {
                    TaskView { attempts: self.attempts + 1, ..self }
                } else {
                    TaskView {
                        attempts: self.attempts + 1,
                        state: SessionState::Failed(kind),
                        ..self
                    }
                },
            }
        }
    }

    /// The task after a whole series of attempts has ended, one after the
    /// other, with `results`.
    pub open spec fn replayed(self, results: Seq<AttemptView>) -> TaskView
        decreases results.len(),
    {
        if results.len() == 0 {
            self
        } else {
            self.replayed(results.drop_last()).recorded(results.last())
        }
    }

    /// The time between the session's beginning and `now`; nothing for a
    /// task that has not begun or a clock that ran backwards.
    pub open spec fn elapsed(self, now: nat) -> nat {
        match self.started_at {
            Some(start) => if now >= start {
                (now - start) as nat
            } else {
                0
            },
            None => 0,
        }
    }
}

/// How a session ended.
#[derive(Clone, Copy, Debug, PartialEq, Eq, Structural)]
pub enum Status {
    /// The artifact is stored.
    Success,
    /// No artifact, for this reason.
    Failure(FailureKind),
}

/// What a session reports when it has ended.
#[derive(Clone, Debug, PartialEq, Eq)]
pub struct TransferOutcome {
    /// Whether the artifact was stored, and if not, why.
    pub status: Status,
    /// The number of attempts that failed for a transient reason.
    pub attempts: u32,
    /// The time from the session's beginning to its end, in nanoseconds,
    /// every retry included.
    pub elapsed: u64,
    /// The name of the stored artifact, for a session that succeeded.
    pub output: Option<String>,
}

/// The mathematical content of a [`TransferOutcome`].
pub struct OutcomeView {
    /// Whether the artifact was stored, and if not, why.
    pub status: Status,
    /// The number of attempts that failed for a transient reason.
    pub attempts: nat,
    /// The time from the session's beginning to its end.
    pub elapsed: nat,
    /// The name of the stored artifact, for a session that succeeded.
    pub output: Option<Seq<char>>,
}

impl View for TransferOutcome {
    type V = OutcomeView;

    open spec fn view(&self) -> OutcomeView {
        OutcomeView {
            status: self.status,
            attempts: self.attempts as nat,
            elapsed: self.elapsed as nat,
            output: match self.output {
                Some(name) => Some(name@),
                None => None,
            },
        }
    }
}

impl TaskView {
    /// What the session reports at time `now`: nothing before it has ended.
    pub open spec fn outcome(self, now: nat) -> Option<OutcomeView> {
        match self.state {
            SessionState::Success => Some(
                OutcomeView {
                    status: Status::Success,
                    attempts: self.attempts,
                    elapsed: self.elapsed(now),
                    output: self.output,
                },
            ),
            SessionState::Failed(kind) => Some(
                OutcomeView {
                    status: Status::Failure(kind),
                    attempts: self.attempts,
                    elapsed: self.elapsed(now),
                    output: None,
                },
            ),
            _ => None,
        }
    }
}

/// One source image paired with one server, and the progress of its session.
pub struct TransferTask {
    file: ImageFile,
    server: String,
    max_attempts: u32,
    attempts: u32,
    started_at: Option<u64>,
    state: SessionState,
    output: Option<String>,
}

impl View for TransferTask {
    type V = TaskView;

    closed spec fn view(&self) -> TaskView {
        TaskView {
            file: self.file@,
            server: self.server@,
            max_attempts: self.max_attempts as nat,
            attempts: self.attempts as nat,
            started_at: match self.started_at {
                Some(t) => Some(t as nat),
                None => None,
            },
            state: self.state,
            output: match self.output {
                Some(name) => Some(name@),
                None => None,
            },
        }
    }
}

impl TransferTask {
    /// A pending task for `file` and `server` that allows `max_attempts`
    /// attempts.
    pub fn new(file: ImageFile, server: String, max_attempts: u32) -> (task: TransferTask)
        ensures
            task@ == TaskView::pending(file@, server@, max_attempts as nat),
            task@.wf(),
    {
        TransferTask {
            file,
            server,
            max_attempts,
            attempts: 0,
            started_at: None,
            state: SessionState::Pending,
            output: None,
        }
    }

    /// Begins the session at time `now`, in nanoseconds on the caller's
    /// clock, and says whether an attempt is to be made.
    pub fn begin(&mut self, now: u64) -> (attempt: bool)
        requires
            old(self)@.wf(),
        ensures
            final(self)@ == old(self)@.begun(now as nat),
            final(self)@.wf(),
            attempt == (final(self)@.state == SessionState::Attempting),
    {
        match self.state {
            SessionState::Pending => {
                self.started_at = Some(now);
                if self.max_attempts == 0 {
                    self.state = SessionState::Failed(FailureKind::Transient);
                    false
                } else {
                    self.state = SessionState::Attempting;
                    true
                }
            },
            SessionState::Attempting => true,
            _ => false,
        }
    }

    /// Takes note of how an attempt ended, and says whether another attempt
    /// is to be made.
    pub fn record(&mut self, result: AttemptResult) -> (again: bool)
        requires
            old(self)@.wf(),
        ensures
            final(self)@ == old(self)@.recorded(result@),
            final(self)@.wf(),
            again == (final(self)@.state == SessionState::Attempting),
    {
        match self.state {
            SessionState::Attempting => match result {
                AttemptResult::Stored(name) => {
                    self.state = SessionState::Success;
                    self.output = Some(name);
                    false
                },
                AttemptResult::Failed(kind) => {
                    if !kind.is_retryable() {
                        self.state = SessionState::Failed(kind);
                        false
                    } else {
                        self.attempts = self.attempts + 1;
                        if self.attempts < self.max_attempts {
                            true
                        } else {
                            self.state = SessionState::Failed(kind);
                            false
                        }
                    }
                },
            },
            _ => false,
        }
    }

    /// The source image.
    pub fn file(&self) -> (file: &ImageFile)
        ensures
            file@ == self@.file,
    {
        &self.file
    }

    /// The server's address.
    pub fn server(&self) -> (server: &str)
        ensures
            server@ == self@.server,
    {
        self.server.as_str()
    }

    /// Where the session stands.
    pub fn state(&self) -> (state: SessionState)
        ensures
            state == self@.state,
    {
        self.state
    }

    /// The number of attempts that have failed for a transient reason.
    pub fn attempts(&self) -> (attempts: u32)
        ensures
            attempts == self@.attempts,
    {
        self.attempts
    }

    /// The number of attempts that the task allows.
    pub fn max_attempts(&self) -> (limit: u32)
        ensures
            limit == self@.max_attempts,
    {
        self.max_attempts
    }

    /// Whether the session has ended.
    pub fn is_terminal(&self) -> (done: bool)
        ensures
            done == self@.is_terminal(),
    {
        match self.state {
            SessionState::Success => true,
            SessionState::Failed(_) => true,
            _ => false,
        }
    }

    /// What the session reports at time `now`: its outcome once it has
    /// ended, nothing before.
    pub fn outcome(&self, now: u64) -> (report: Option<TransferOutcome>)
        ensures
            match report {
                Some(o) => self@.outcome(now as nat) == Some(o@),
                None => self@.outcome(now as nat) is None,
            },
    {
        let elapsed: u64 = match self.started_at {
            Some(start) => if now >= start {
                now - start
            } else {
                0
            },
            None => 0,
        };
        match self.state {
            SessionState::Success => Some(
                TransferOutcome {
                    status: Status::Success,
                    attempts: self.attempts,
                    elapsed,
                    output: self.output.clone(),
                },
            ),
            SessionState::Failed(kind) => Some(
                TransferOutcome {
                    status: Status::Failure(kind),
                    attempts: self.attempts,
                    elapsed,
                    output: None,
                },
            ),
            _ => None,
        }
    }
}

/// A series of `count` attempts that all fail for a transient reason.
pub open spec fn transient_failures(count: nat) -> Seq<AttemptView> {
    Seq::new(count, |i: int| AttemptView::Failed(FailureKind::Transient))
}

/// Beginning a session and recording an attempt keep a task well formed.
pub proof fn lemma_steps_preserve_wf(task: TaskView, now: nat, result: AttemptView)
    requires
        task.wf(),
    ensures
        task.begun(now).wf(),
        task.recorded(result).wf(),
{
}

/// Whatever the attempts of a session bring, the number of attempts that the
/// task counts never exceeds the task's limit.
pub proof fn lemma_attempts_within_limit(task: TaskView, results: Seq<AttemptView>)
    requires
        task.wf(),
    ensures
        task.replayed(results).wf(),
        task.replayed(results).attempts <= task.max_attempts,
        task.replayed(results).max_attempts == task.max_attempts,
    decreases results.len(),
{
    if results.len() > 0 {
        lemma_attempts_within_limit(task, results.drop_last());
        lemma_steps_preserve_wf(task.replayed(results.drop_last()), 0, results.last());
    }
}

/// Only a task that is `Attempting` takes note of results: a session that
/// has ended reports one outcome and keeps it, and a session that has not
/// begun has nothing to record.
pub proof fn lemma_idle_task_ignores_results(task: TaskView, results: Seq<AttemptView>)
    requires
        task.state != SessionState::Attempting,
    ensures
        task.replayed(results) == task,
    decreases results.len(),
{
    if results.len() > 0 {
        lemma_idle_task_ignores_results(task, results.drop_last());
    }
}

/// A failure that is not transient ends the session at once, without
/// touching the count of attempts, and nothing that is recorded afterwards
/// brings the task back to `Attempting`.
pub proof fn lemma_fatal_failure_is_final(
    task: TaskView,
    kind: FailureKind,
    later: Seq<AttemptView>,
)
    requires
        !kind.retryable(),
    ensures
        task.state == SessionState::Attempting ==> task.recorded(AttemptView::Failed(kind)) == (
        TaskView { state: SessionState::Failed(kind), ..task }),
        task.recorded(AttemptView::Failed(kind)).replayed(later).state != SessionState::Attempting,
{
    lemma_idle_task_ignores_results(task.recorded(AttemptView::Failed(kind)), later);
}

/// A session whose attempts all fail for a transient reason makes exactly as
/// many attempts as the task allows: after fewer failures it is still
/// `Attempting`, after that many it has `Failed`, and further failures change
/// nothing.
pub proof fn lemma_transient_exhaustion(task: TaskView, now: nat, count: nat)
    requires
        task.wf(),
        task.state == SessionState::Pending,
    ensures
        count < task.max_attempts ==> task.begun(now).replayed(transient_failures(count)) == (
        TaskView {
            started_at: Some(now),
            state: SessionState::Attempting,
            attempts: count,
            ..task
        }),
        count >= task.max_attempts ==> task.begun(now).replayed(transient_failures(count)) == (
        TaskView {
            started_at: Some(now),
            state: SessionState::Failed(FailureKind::Transient),
            attempts: task.max_attempts,
            ..task
        }),
    decreases count,
{
    if count > 0 {
        let shorter = transient_failures((count - 1) as nat);
        assert(transient_failures(count).drop_last() =~= shorter);
        assert(transient_failures(count).last() == AttemptView::Failed(FailureKind::Transient));
        lemma_transient_exhaustion(task, now, (count - 1) as nat);
    } else {
        assert(transient_failures(0).len() == 0);
    }
}

} // verus!
