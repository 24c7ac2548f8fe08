use stego_transfer::exchange::{Action, Event};
use stego_transfer::files::ImageFile;
use stego_transfer::metrics::summarize;
use stego_transfer::session::{FailureKind, Status, TransferOutcome, TransferTask};
use stego_transfer::transfer::TransferSession;

/// One session and the stub server it talks to, driven a step at a time.
struct Driven {
    session: Option<TransferSession>,
    action: Action,
    echoes: bool,
    source: Vec<u8>,
    incoming: Vec<u8>,
    sends: u32,
    connections: u32,
    stored: Vec<(String, Vec<u8>)>,
    outcome: Option<TransferOutcome>,
}

impl Driven {
    fn new(path: &str, server: &str, max_attempts: u32, echoes: bool, source: Vec<u8>) -> Driven {
        let file = ImageFile::from_entry(&stego_transfer::files::DirectoryEntry {
            path: path.to_string(),
            is_file: true,
        })
        .unwrap();
        let task = TransferTask::new(file, server.to_string(), max_attempts);
        let (session, action) = TransferSession::start(task, 0);
        Driven {
            session: Some(session),
            action,
            echoes,
            source,
            incoming: Vec::new(),
            sends: 0,
            connections: 0,
            stored: Vec::new(),
            outcome: None,
        }
    }

    /// Performs the pending action and reports it; false once the session has ended.
    fn tick(&mut self, clock: u64) -> bool {
        if self.outcome.is_some() {
            return false;
        }
        let session = self.session.take().unwrap();
        let event = match self.action.clone() {
            Action::ReadSource => Event::Done(self.source.clone()),
            Action::Connect => {
                self.incoming.clear();
                self.sends = 0;
                self.connections += 1;
                Event::Done(Vec::new())
            }
            Action::Send(bytes) => {
                self.sends += 1;
                if self.echoes {
                    if self.sends == 1 {
                        self.incoming.extend_from_slice(b"ACK");
                    } else {
                        self.incoming.extend_from_slice(&bytes);
                    }
                }
                Event::Done(Vec::new())
            }
            Action::Receive(limit) => {
                let take = limit.min(self.incoming.len()).min(5);
                Event::Done(self.incoming.drain(..take).collect())
            }
            Action::Store { name, bytes } => {
                self.stored.push((name, bytes));
                Event::Done(Vec::new())
            }
            Action::Finish(_) => {
                self.outcome = session.outcome(clock);
                self.session = Some(session);
                return false;
            }
        };
        let (next, action) = session.advance(event);
        self.session = Some(next);
        self.action = action;
        true
    }

    fn run_alone(mut self) -> Driven {
        let mut clock = 0;
        while self.tick(clock) {
            clock += 1;
        }
        self
    }
}

fn closing(max_attempts: u32) -> Driven {
    Driven::new("images/a.png", "10.0.0.1:1", max_attempts, false, vec![1, 2, 3])
}

fn echoing() -> Driven {
    let source: Vec<u8> = (0..40u8).collect();
    Driven::new("images/b.png", "10.0.0.2:1", 5, true, source)
}

#[test]
fn failing_session_does_not_disturb_its_neighbour() {
    for max_attempts in 1u32..5 {
        let mut a = closing(max_attempts);
        let mut b = echoing();
        let mut clock = 0u64;
        loop {
            let a_runs = a.tick(clock);
            let b_runs = b.tick(clock);
            clock += 1;
            if !a_runs && !b_runs {
                break;
            }
        }
        let a_outcome = a.outcome.clone().unwrap();
        let b_outcome = b.outcome.clone().unwrap();
        assert_eq!(a_outcome.status, Status::Failure(FailureKind::Transient));
        assert_eq!(a_outcome.attempts, max_attempts);
        assert_eq!(a_outcome.output, None);
        assert_eq!(a.connections, max_attempts);
        assert!(a.stored.is_empty());

        let alone = echoing().run_alone();
        assert_eq!(b_outcome.status, Status::Success);
        assert_eq!(b_outcome.attempts, 0);
        assert_eq!(b_outcome.output, alone.outcome.clone().unwrap().output);
        assert_eq!(b_outcome.output, Some("b.png_encoded_10.0.0.2_1.bin".to_string()));
        assert_eq!(b.stored, alone.stored);
        assert_eq!(b.stored[0].1, (0..40u8).collect::<Vec<u8>>());
        assert_eq!(b.connections, 1);

        let summary = summarize(&vec![a_outcome, b_outcome]);
        assert_eq!(summary.attempted, 2);
        assert_eq!(summary.succeeded, 1);
        assert_eq!(summary.failed, 1);
    }
}

#[test]
fn echo_of_an_empty_file_succeeds_at_the_first_attempt() {
    let done = Driven::new("images/e.jpg", "h:9", 3, true, Vec::new()).run_alone();
    let outcome = done.outcome.unwrap();
    assert_eq!(outcome.status, Status::Success);
    assert_eq!(outcome.attempts, 0);
    assert_eq!(done.connections, 1);
    assert_eq!(done.stored, vec![("e.jpg_encoded_h_9.bin".to_string(), Vec::new())]);
}

#[test]
fn announced_name_is_the_last_component_of_the_path() {
    let mut session = Driven::new("images/sub/cat.png", "h:1", 1, true, vec![7]);
    let mut sent = Vec::new();
    let mut clock = 0;
    loop {
        if let Action::Send(bytes) = &session.action {
            sent.push(bytes.clone());
        }
        if !session.tick(clock) {
            break;
        }
        clock += 1;
    }
    assert_eq!(sent[0], vec![0, 0, 0, 7, b'c', b'a', b't', b'.', b'p', b'n', b'g']);
    assert_eq!(session.stored[0].0, "cat.png_encoded_h_1.bin");
}
