use stego_transfer::exchange::{Action, Event, Exchange, Phase, CHUNK_SIZE};
use stego_transfer::framing::{encode_name_frame, encode_payload_frame};
use stego_transfer::session::{AttemptResult, FailureKind};

const PNG_HEAD: [u8; 8] = [137, 80, 78, 71, 13, 10, 26, 10];

/// What a stub server does with a connection.
#[derive(Clone)]
enum Stub {
    /// Acknowledges the name and answers the upload with the frame of what was uploaded.
    Echo,
    /// Accepts the connection and closes it without a word.
    ClosesAtOnce,
    /// Answers the name with these bytes and closes.
    Replies(Vec<u8>),
    /// Acknowledges the name and answers the upload with these bytes, then closes.
    Answers(Vec<u8>),
    /// Refuses the connection.
    Refuses,
}

/// What a run of one attempt against a stub leaves behind.
struct Run {
    sent: Vec<Vec<u8>>,
    requests: Vec<usize>,
    stored: Option<(String, Vec<u8>)>,
    result: AttemptResult,
    end: Exchange,
}

fn run_attempt(stub: Stub, source: Option<Vec<u8>>, read_at_most: usize, store_ok: bool) -> Run {
    let (mut exchange, mut action) =
        Exchange::new("cat.png".to_string(), "127.0.0.1:8080".to_string());
    let mut incoming: Vec<u8> = Vec::new();
    let mut sent: Vec<Vec<u8>> = Vec::new();
    let mut requests = Vec::new();
    let mut stored = None;
    for _ in 0..100_000 {
        let event = match action {
            Action::ReadSource => match &source {
                Some(content) => Event::Done(content.clone()),
                None => Event::Failed,
            },
            Action::Connect => match stub {
                Stub::Refuses => Event::Failed,
                _ => Event::Done(Vec::new()),
            },
            Action::Send(bytes) => {
                match &stub {
                    Stub::Echo => {
                        if sent.is_empty() {
                            incoming.extend_from_slice(b"ACK");
                        } else {
                            incoming.extend_from_slice(&bytes);
                        }
                    }
                    Stub::Replies(reply) => {
                        if sent.is_empty() {
                            incoming.extend_from_slice(reply);
                        }
                    }
                    Stub::Answers(answer) => {
                        if sent.is_empty() {
                            incoming.extend_from_slice(b"ACK");
                        } else {
                            incoming.extend_from_slice(answer);
                        }
                    }
                    Stub::ClosesAtOnce | Stub::Refuses => {}
                }
                sent.push(bytes);
                Event::Done(Vec::new())
            }
            Action::Receive(limit) => {
                assert!(limit > 0);
                requests.push(limit);
                let take = limit.min(read_at_most).min(incoming.len());
                let chunk: Vec<u8> = incoming.drain(..take).collect();
                Event::Done(chunk)
            }
            Action::Store { name, bytes } => {
                stored = Some((name, bytes));
                if store_ok {
                    Event::Done(Vec::new())
                } else {
                    Event::Failed
                }
            }
            Action::Finish(result) => {
                assert!(exchange.is_finished());
                return Run { sent, requests, stored, result, end: exchange };
            }
        };
        let next = exchange.step(event);
        exchange = next.0;
        action = next.1;
    }
    panic!("the attempt did not end");
}

#[test]
fn first_action_reads_the_source() {
    let (exchange, action) = Exchange::new("cat.png".to_string(), "h:1".to_string());
    assert_eq!(action, Action::ReadSource);
    assert_eq!(exchange.phase(), Phase::ReadingSource);
    assert!(!exchange.is_finished());
}

#[test]
fn echo_server_round_trip() {
    let mut source = PNG_HEAD.to_vec();
    source.extend((0..5000u32).map(|i| (i % 251) as u8));
    let run = run_attempt(Stub::Echo, Some(source.clone()), usize::MAX, true);
    let (name, bytes) = run.stored.unwrap();
    assert_eq!(bytes, source);
    assert_eq!(name, "cat.png_encoded_127.0.0.1_8080.png");
    assert_eq!(run.result, AttemptResult::Stored(name));
    assert_eq!(run.end.phase(), Phase::Succeeded);
}

#[test]
fn echo_server_round_trip_in_small_reads() {
    for read_at_most in [1usize, 2, 3, 7, 8, 9, 1000, 1024, 1025] {
        let source: Vec<u8> = (0..3000u32).map(|i| (i * 7 % 256) as u8).collect();
        let run = run_attempt(Stub::Echo, Some(source.clone()), read_at_most, true);
        let (name, bytes) = run.stored.unwrap();
        assert_eq!(bytes, source);
        assert_eq!(name, "cat.png_encoded_127.0.0.1_8080.bin");
        assert_eq!(run.result, AttemptResult::Stored(name));
    }
}

#[test]
fn upload_is_name_frame_then_payload_frame() {
    let source = vec![9u8, 8, 7];
    let run = run_attempt(Stub::Echo, Some(source.clone()), usize::MAX, true);
    assert_eq!(run.sent.len(), 2);
    assert_eq!(run.sent[0], encode_name_frame("cat.png").unwrap());
    assert_eq!(run.sent[0], vec![0, 0, 0, 7, b'c', b'a', b't', b'.', b'p', b'n', b'g']);
    assert_eq!(run.sent[1], encode_payload_frame(&source));
    assert_eq!(run.sent[1], vec![0, 0, 0, 0, 0, 0, 0, 3, 9, 8, 7]);
}

#[test]
fn download_asks_for_bounded_chunks() {
    let source = vec![1u8; 2500];
    let run = run_attempt(Stub::Echo, Some(source), usize::MAX, true);
    assert_eq!(run.requests, vec![3, 8, CHUNK_SIZE, CHUNK_SIZE, 452]);
    assert_eq!(CHUNK_SIZE, 1024);
    assert!(run.requests.iter().all(|&limit| limit <= CHUNK_SIZE));
}

#[test]
fn empty_artifact_is_a_valid_result() {
    let run = run_attempt(Stub::Echo, Some(Vec::new()), usize::MAX, true);
    let (name, bytes) = run.stored.unwrap();
    assert!(bytes.is_empty());
    assert_eq!(name, "cat.png_encoded_127.0.0.1_8080.bin");
    assert_eq!(run.result, AttemptResult::Stored(name));
    assert_eq!(run.requests, vec![3, 8]);
}

#[test]
fn artifact_extension_follows_its_content() {
    let jpeg = vec![255u8, 216, 255, 224, 1, 2, 3];
    let run = run_attempt(Stub::Answers(encode_payload_frame(&jpeg)), Some(vec![1]), 4, true);
    let (name, bytes) = run.stored.unwrap();
    assert_eq!(bytes, jpeg);
    assert_eq!(name, "cat.png_encoded_127.0.0.1_8080.jpg");
}

#[test]
fn server_that_closes_at_once_is_a_transient_failure() {
    let run = run_attempt(Stub::ClosesAtOnce, Some(vec![1, 2, 3]), usize::MAX, true);
    assert_eq!(run.result, AttemptResult::Failed(FailureKind::Transient));
    assert_eq!(run.end.phase(), Phase::Failed(FailureKind::Transient));
    assert_eq!(run.stored, None);
    // the file itself was never sent
    assert_eq!(run.sent.len(), 1);
}

#[test]
fn refused_connection_is_a_transient_failure() {
    let run = run_attempt(Stub::Refuses, Some(vec![1, 2, 3]), usize::MAX, true);
    assert_eq!(run.result, AttemptResult::Failed(FailureKind::Transient));
    assert!(run.sent.is_empty());
}

#[test]
fn wrong_acknowledgment_is_a_protocol_violation() {
    for reply in [&b"NAK"[..], b"ack", b"ACX", b"KCA", b"\0\0\0"] {
        let run = run_attempt(Stub::Replies(reply.to_vec()), Some(vec![1, 2, 3]), usize::MAX, true);
        assert_eq!(run.result, AttemptResult::Failed(FailureKind::ProtocolViolation));
        assert_eq!(run.stored, None);
        // nothing was uploaded after the bad handshake
        assert_eq!(run.sent.len(), 1);
    }
}

#[test]
fn wrong_acknowledgment_byte_by_byte_is_a_protocol_violation() {
    let run = run_attempt(Stub::Replies(b"ACE".to_vec()), Some(vec![1]), 1, true);
    assert_eq!(run.result, AttemptResult::Failed(FailureKind::ProtocolViolation));
    assert_eq!(run.requests, vec![3, 2, 1]);
}

#[test]
fn short_acknowledgment_is_a_protocol_violation() {
    for reply in [&b"A"[..], b"AC"] {
        let run = run_attempt(Stub::Replies(reply.to_vec()), Some(vec![1]), usize::MAX, true);
        assert_eq!(run.result, AttemptResult::Failed(FailureKind::ProtocolViolation));
    }
}

#[test]
fn acknowledgment_in_pieces_is_accepted() {
    let run = run_attempt(Stub::Echo, Some(vec![5, 6]), 1, true);
    assert_eq!(run.stored.unwrap().1, vec![5, 6]);
}

#[test]
fn silence_after_upload_is_a_transient_failure() {
    let run = run_attempt(Stub::Answers(Vec::new()), Some(vec![1]), usize::MAX, true);
    assert_eq!(run.result, AttemptResult::Failed(FailureKind::Transient));
    assert_eq!(run.sent.len(), 2);
}

#[test]
fn truncated_length_prefix_is_a_protocol_violation() {
    for n in 1..8 {
        let run = run_attempt(Stub::Answers(vec![0; n]), Some(vec![1]), usize::MAX, true);
        assert_eq!(run.result, AttemptResult::Failed(FailureKind::ProtocolViolation));
    }
}

#[test]
fn truncated_artifact_is_a_protocol_violation() {
    let mut answer = encode_payload_frame(&[1, 2, 3, 4, 5]);
    answer.truncate(8 + 3);
    let run = run_attempt(Stub::Answers(answer), Some(vec![1]), usize::MAX, true);
    assert_eq!(run.result, AttemptResult::Failed(FailureKind::ProtocolViolation));
    assert_eq!(run.stored, None);
    let mut none_at_all = encode_payload_frame(&[1, 2, 3, 4, 5]);
    none_at_all.truncate(8);
    let run = run_attempt(Stub::Answers(none_at_all), Some(vec![1]), usize::MAX, true);
    assert_eq!(run.result, AttemptResult::Failed(FailureKind::ProtocolViolation));
}

#[test]
fn bytes_after_the_artifact_are_not_read() {
    let mut answer = encode_payload_frame(&[1, 2, 3]);
    answer.extend_from_slice(&[9, 9, 9, 9]);
    let run = run_attempt(Stub::Answers(answer), Some(vec![1]), usize::MAX, true);
    assert_eq!(run.stored.unwrap().1, vec![1, 2, 3]);
    assert_eq!(run.requests, vec![3, 8, 3]);
}

#[test]
fn unreadable_source_is_a_local_failure() {
    let run = run_attempt(Stub::Echo, None, usize::MAX, true);
    assert_eq!(run.result, AttemptResult::Failed(FailureKind::LocalIo));
    assert!(run.sent.is_empty());
    assert!(run.requests.is_empty());
}

#[test]
fn unwritable_output_is_a_local_failure() {
    let run = run_attempt(Stub::Echo, Some(vec![1, 2]), usize::MAX, false);
    assert_eq!(run.result, AttemptResult::Failed(FailureKind::LocalIo));
    assert_eq!(run.end.phase(), Phase::Failed(FailureKind::LocalIo));
}

fn exchange_at(phase: Phase) -> Exchange {
    let (mut exchange, _) = Exchange::new("cat.png".to_string(), "h:1".to_string());
    let script: Vec<Event> = vec![
        Event::Done(vec![1, 2, 3]),
        Event::Done(Vec::new()),
        Event::Done(Vec::new()),
        Event::Done(b"ACK".to_vec()),
        Event::Done(Vec::new()),
        Event::Done(vec![0, 0, 0, 0, 0, 0, 0, 2]),
        Event::Done(vec![7, 7]),
    ];
    for event in script {
        if exchange.phase() == phase {
            break;
        }
        exchange = exchange.step(event).0;
    }
    assert_eq!(exchange.phase(), phase);
    exchange
}

#[test]
fn phases_follow_the_protocol() {
    let (exchange, _) = Exchange::new("cat.png".to_string(), "h:1".to_string());
    let (exchange, action) = exchange.step(Event::Done(vec![1, 2, 3]));
    assert_eq!((exchange.phase(), action), (Phase::Connecting, Action::Connect));
    let (exchange, action) = exchange.step(Event::Done(Vec::new()));
    assert_eq!(exchange.phase(), Phase::SendingName);
    assert_eq!(action, Action::Send(vec![0, 0, 0, 7, b'c', b'a', b't', b'.', b'p', b'n', b'g']));
    let (exchange, action) = exchange.step(Event::Done(Vec::new()));
    assert_eq!((exchange.phase(), action), (Phase::AwaitingAck, Action::Receive(3)));
    let (exchange, action) = exchange.step(Event::Done(b"ACK".to_vec()));
    assert_eq!(exchange.phase(), Phase::SendingPayload);
    assert_eq!(action, Action::Send(vec![0, 0, 0, 0, 0, 0, 0, 3, 1, 2, 3]));
    let (exchange, action) = exchange.step(Event::Done(Vec::new()));
    assert_eq!((exchange.phase(), action), (Phase::AwaitingLength, Action::Receive(8)));
    let (exchange, action) = exchange.step(Event::Done(vec![0, 0, 0, 0, 0, 0, 0, 2]));
    assert_eq!((exchange.phase(), action), (Phase::Downloading, Action::Receive(2)));
    let (exchange, action) = exchange.step(Event::Done(vec![7, 7]));
    assert_eq!(exchange.phase(), Phase::Storing);
    assert_eq!(
        action,
        Action::Store { name: "cat.png_encoded_h_1.bin".to_string(), bytes: vec![7, 7] }
    );
    let (exchange, action) = exchange.step(Event::Done(Vec::new()));
    assert_eq!(exchange.phase(), Phase::Succeeded);
    assert_eq!(
        action,
        Action::Finish(AttemptResult::Stored("cat.png_encoded_h_1.bin".to_string()))
    );
}

#[test]
fn timeout_on_the_network_is_transient() {
    for phase in [
        Phase::Connecting,
        Phase::SendingName,
        Phase::AwaitingAck,
        Phase::SendingPayload,
        Phase::AwaitingLength,
        Phase::Downloading,
    ] {
        for event in [Event::TimedOut, Event::Failed] {
            let (next, action) = exchange_at(phase).step(event);
            assert_eq!(next.phase(), Phase::Failed(FailureKind::Transient));
            assert_eq!(action, Action::Finish(AttemptResult::Failed(FailureKind::Transient)));
        }
    }
}

#[test]
fn failure_of_a_local_step_is_local() {
    for phase in [Phase::ReadingSource, Phase::Storing] {
        for event in [Event::TimedOut, Event::Failed] {
            let (next, action) = exchange_at(phase).step(event);
            assert_eq!(next.phase(), Phase::Failed(FailureKind::LocalIo));
            assert_eq!(action, Action::Finish(AttemptResult::Failed(FailureKind::LocalIo)));
        }
    }
}

#[test]
fn more_bytes_than_asked_for_is_a_protocol_violation() {
    let (next, _) = exchange_at(Phase::AwaitingAck).step(Event::Done(b"ACKK".to_vec()));
    assert_eq!(next.phase(), Phase::Failed(FailureKind::ProtocolViolation));
    let (next, _) = exchange_at(Phase::AwaitingLength).step(Event::Done(vec![0; 9]));
    assert_eq!(next.phase(), Phase::Failed(FailureKind::ProtocolViolation));
    let (next, _) = exchange_at(Phase::Downloading).step(Event::Done(vec![7, 7, 7]));
    assert_eq!(next.phase(), Phase::Failed(FailureKind::ProtocolViolation));
}

#[test]
fn finished_exchange_stays_finished() {
    let run = run_attempt(Stub::Echo, Some(vec![1]), usize::MAX, true);
    let name = "cat.png_encoded_127.0.0.1_8080.bin".to_string();
    let mut exchange = run.end;
    for event in [Event::Failed, Event::TimedOut, Event::Done(vec![1, 2, 3])] {
        let (next, action) = exchange.step(event);
        assert_eq!(next.phase(), Phase::Succeeded);
        assert_eq!(action, Action::Finish(AttemptResult::Stored(name.clone())));
        exchange = next;
    }
    let run = run_attempt(Stub::Replies(b"NAK".to_vec()), Some(vec![1]), usize::MAX, true);
    let (next, action) = run.end.step(Event::Done(b"ACK".to_vec()));
    assert_eq!(next.phase(), Phase::Failed(FailureKind::ProtocolViolation));
    assert_eq!(action, Action::Finish(AttemptResult::Failed(FailureKind::ProtocolViolation)));
}
