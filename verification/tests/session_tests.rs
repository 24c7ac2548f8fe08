use stego_transfer::files::{DirectoryEntry, ImageFile};
use stego_transfer::session::{
    AttemptResult, FailureKind, SessionState, Status, TransferOutcome, TransferTask,
};

fn image(name: &str) -> ImageFile {
    ImageFile::from_entry(&DirectoryEntry {
        path: format!("./images/{}", name),
        is_file: true,
    })
    .unwrap()
}

fn task(max_attempts: u32) -> TransferTask {
    TransferTask::new(image("cat.png"), "127.0.0.1:8080".to_string(), max_attempts)
}

fn transient() -> AttemptResult {
    AttemptResult::Failed(FailureKind::Transient)
}

#[test]
fn only_transient_failures_are_retryable() {
    assert!(FailureKind::Transient.is_retryable());
    assert!(!FailureKind::LocalIo.is_retryable());
    assert!(!FailureKind::ProtocolViolation.is_retryable());
}

#[test]
fn new_task_is_pending() {
    let t = task(5);
    assert_eq!(t.state(), SessionState::Pending);
    assert_eq!(t.attempts(), 0);
    assert_eq!(t.max_attempts(), 5);
    assert_eq!(t.server(), "127.0.0.1:8080");
    assert_eq!(t.file().base_name(), "cat.png");
    assert!(!t.is_terminal());
    assert_eq!(t.outcome(10), None);
}

#[test]
fn begin_moves_to_attempting() {
    let mut t = task(5);
    assert!(t.begin(100));
    assert_eq!(t.state(), SessionState::Attempting);
    assert_eq!(t.attempts(), 0);
    // beginning twice changes nothing
    assert!(t.begin(999));
    assert_eq!(t.state(), SessionState::Attempting);
}

#[test]
fn success_ends_the_session() {
    let mut t = task(5);
    t.begin(100);
    assert!(!t.record(AttemptResult::Stored("out.png".to_string())));
    assert_eq!(t.state(), SessionState::Success);
    assert!(t.is_terminal());
    assert_eq!(
        t.outcome(350),
        Some(TransferOutcome {
            status: Status::Success,
            attempts: 0,
            elapsed: 250,
            output: Some("out.png".to_string()),
        })
    );
}

#[test]
fn attempts_never_exceed_the_limit() {
    for max in 0u32..6 {
        let mut t = task(max);
        t.begin(0);
        for _ in 0..10 {
            t.record(transient());
            assert!(t.attempts() <= max);
        }
        assert_eq!(t.attempts(), max);
        assert_eq!(t.state(), SessionState::Failed(FailureKind::Transient));
    }
}

#[test]
fn transient_failures_are_retried_up_to_the_limit() {
    let mut t = task(3);
    assert!(t.begin(0));
    assert!(t.record(transient()));
    assert_eq!((t.state(), t.attempts()), (SessionState::Attempting, 1));
    assert!(t.record(transient()));
    assert_eq!((t.state(), t.attempts()), (SessionState::Attempting, 2));
    assert!(!t.record(transient()));
    assert_eq!((t.state(), t.attempts()), (SessionState::Failed(FailureKind::Transient), 3));
    assert_eq!(
        t.outcome(40),
        Some(TransferOutcome {
            status: Status::Failure(FailureKind::Transient),
            attempts: 3,
            elapsed: 40,
            output: None,
        })
    );
}

#[test]
fn success_after_retries_keeps_the_count() {
    let mut t = task(5);
    t.begin(1_000);
    t.record(transient());
    t.record(transient());
    assert!(!t.record(AttemptResult::Stored("a.png".to_string())));
    let outcome = t.outcome(4_000).unwrap();
    assert_eq!(outcome.status, Status::Success);
    assert_eq!(outcome.attempts, 2);
    assert_eq!(outcome.elapsed, 3_000);
}

#[test]
fn fatal_failure_is_not_retried() {
    for kind in [FailureKind::LocalIo, FailureKind::ProtocolViolation] {
        let mut t = task(5);
        t.begin(0);
        assert!(!t.record(AttemptResult::Failed(kind)));
        assert_eq!(t.state(), SessionState::Failed(kind));
        assert_eq!(t.attempts(), 0);
        // nothing brings the task back
        assert!(!t.record(transient()));
        assert!(!t.record(AttemptResult::Stored("late.png".to_string())));
        assert!(!t.begin(5));
        assert_eq!(t.state(), SessionState::Failed(kind));
        assert_eq!(t.outcome(9).unwrap().output, None);
    }
}

#[test]
fn ended_session_keeps_its_outcome() {
    let mut t = task(2);
    t.begin(0);
    t.record(AttemptResult::Stored("first.png".to_string()));
    t.record(AttemptResult::Stored("second.png".to_string()));
    t.record(transient());
    assert_eq!(t.state(), SessionState::Success);
    assert_eq!(t.outcome(1).unwrap().output, Some("first.png".to_string()));
}

#[test]
fn task_without_attempts_fails_at_once() {
    let mut t = task(0);
    assert!(!t.begin(7));
    assert_eq!(t.state(), SessionState::Failed(FailureKind::Transient));
    assert_eq!(t.attempts(), 0);
    assert_eq!(t.outcome(7).unwrap().elapsed, 0);
}

#[test]
fn pending_task_records_nothing() {
    let mut t = task(3);
    assert!(!t.record(transient()));
    assert_eq!(t.state(), SessionState::Pending);
    assert_eq!(t.attempts(), 0);
}

#[test]
fn elapsed_time_is_never_negative() {
    let mut t = task(1);
    t.begin(500);
    t.record(transient());
    assert_eq!(t.outcome(400).unwrap().elapsed, 0);
    assert_eq!(t.outcome(500).unwrap().elapsed, 0);
    assert_eq!(t.outcome(u64::MAX).unwrap().elapsed, u64::MAX - 500);
}

#[test]
fn attempt_result_duplicates() {
    let stored = AttemptResult::Stored("n.png".to_string());
    assert_eq!(stored.duplicate(), stored);
    let failed = AttemptResult::Failed(FailureKind::LocalIo);
    assert_eq!(failed.duplicate(), failed);
}
