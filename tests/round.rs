use pool_miner::aggregate::aggregate;
use pool_miner::codec::DecodeFailure;
use pool_miner::partition::NonceRange;
use pool_miner::round::{
    evaluate, step, task_from_reply, AcquireError, Action, Event, MiningTask, RoundState, TaskReply,
    RETRY_DELAY_SECS,
};
use pool_miner::search::{Candidate, DrillHash, WorkerResult};

const ZERO_CHALLENGE: &str = "AAAAAAAAAAAAAAAAAAAAAAAAAAAAAAAAAAAAAAAAAAA=";

fn reply(code: Option<u64>, challenge: &str, min: u64, start: u64, end: u64) -> TaskReply {
    TaskReply {
        code,
        challenge: Some(challenge.to_string()),
        pubkey: Some("pool-key".to_string()),
        min_difficulty: Some(min),
        nonce_start: Some(start),
        nonce_end: Some(end),
    }
}

fn task(min: u64) -> MiningTask {
    task_from_reply(reply(Some(1), ZERO_CHALLENGE, min, 0, 4)).unwrap()
}

fn found(nonce: u64, difficulty: u32, hashes: u64) -> Option<WorkerResult> {
    Some(WorkerResult {
        best: Some(Candidate { nonce, hash: DrillHash { d: [1; 16], h: [0; 32] }, difficulty }),
        hashes,
        scanned_to: 0,
    })
}

fn is_fetch(a: &Action, secs: u64) -> bool {
    matches!(a, Action::FetchTask { delay_secs } if *delay_secs == secs)
}

#[test]
fn valid_reply_becomes_task() {
    let t = task(3);
    assert_eq!(t.challenge, [0; 32]);
    assert_eq!(t.pubkey, "pool-key");
    assert_eq!(t.min_difficulty, 3);
    assert_eq!((t.nonce_start, t.nonce_end), (0, 4));
}

#[test]
fn reply_errors() {
    assert_eq!(task_from_reply(reply(Some(0), ZERO_CHALLENGE, 1, 0, 4)).err(), Some(AcquireError::Status));
    assert_eq!(task_from_reply(reply(None, ZERO_CHALLENGE, 1, 0, 4)).err(), Some(AcquireError::Status));
    assert_eq!(
        task_from_reply(reply(Some(1), "***", 1, 0, 4)).err(),
        Some(AcquireError::Challenge(DecodeFailure::InvalidBase64))
    );
    assert_eq!(
        task_from_reply(reply(Some(1), "AQIDBAUGBwg=", 1, 0, 4)).err(),
        Some(AcquireError::Challenge(DecodeFailure::WrongLength))
    );
    assert_eq!(task_from_reply(reply(Some(1), ZERO_CHALLENGE, 1, 5, 4)).err(), Some(AcquireError::Range));
}

#[test]
fn missing_fields_are_refused() {
    let mut r = reply(Some(1), ZERO_CHALLENGE, 1, 0, 4);
    r.pubkey = None;
    assert_eq!(task_from_reply(r).err(), Some(AcquireError::MissingField));
    let mut r = reply(Some(1), ZERO_CHALLENGE, 1, 0, 4);
    r.nonce_end = None;
    assert_eq!(task_from_reply(r).err(), Some(AcquireError::MissingField));
    let mut r = reply(Some(1), ZERO_CHALLENGE, 1, 0, 4);
    r.min_difficulty = None;
    let (s, a) = step(RoundState::AcquireTask, Event::TaskFetched(r), 2);
    assert!(matches!(s, RoundState::AcquireTask));
    assert!(is_fetch(&a, RETRY_DELAY_SECS));
    let mut r = reply(Some(0), ZERO_CHALLENGE, 1, 0, 4);
    r.challenge = None;
    assert_eq!(task_from_reply(r).err(), Some(AcquireError::Status));
}

#[test]
fn failed_status_retries_after_delay() {
    let (s, a) = step(RoundState::AcquireTask, Event::TaskFetched(reply(Some(2), ZERO_CHALLENGE, 1, 0, 4)), 2);
    assert!(matches!(s, RoundState::AcquireTask));
    assert!(is_fetch(&a, RETRY_DELAY_SECS));
    assert_eq!(RETRY_DELAY_SECS, 1);
}

#[test]
fn transport_failure_retries_after_delay() {
    let (s, a) = step(RoundState::AcquireTask, Event::FetchFailed, 2);
    assert!(matches!(s, RoundState::AcquireTask));
    assert!(is_fetch(&a, 1));
}

#[test]
fn bad_challenge_never_starts_mining() {
    let (s, a) = step(RoundState::AcquireTask, Event::TaskFetched(reply(Some(1), "AQIDBAUGBwg=", 1, 0, 4)), 2);
    assert!(matches!(s, RoundState::AcquireTask));
    assert!(is_fetch(&a, 1));
}

#[test]
fn low_difficulty_is_discarded() {
    let o = aggregate(&vec![found(1, 15, 3), found(3, 12, 3)]);
    assert!(evaluate(task(20), &o).is_none());
    let (s, a) = step(RoundState::Mine(task(20)), Event::WorkersJoined(vec![found(1, 15, 3), found(3, 12, 3)]), 2);
    assert!(matches!(s, RoundState::AcquireTask));
    assert!(is_fetch(&a, 0));
}

#[test]
fn no_candidate_is_discarded() {
    let (s, a) = step(RoundState::Mine(task(0)), Event::WorkersJoined(vec![None, None]), 2);
    assert!(matches!(s, RoundState::AcquireTask));
    assert!(is_fetch(&a, 0));
}

#[test]
fn reaching_minimum_submits() {
    let o = aggregate(&vec![found(2, 20, 1)]);
    let sub = evaluate(task(20), &o).unwrap();
    assert_eq!(sub.difficulty, 20);
    assert_eq!(sub.n, "AgAAAAAAAAA=");
    assert_eq!(sub.d, "AQEBAQEBAQEBAQEBAQEBAQ==");
    assert_eq!(sub.challenge, ZERO_CHALLENGE);
    assert_eq!(sub.pubkey, "pool-key");
}

#[test]
fn full_round() {
    let mut submissions = 0;
    let (s, a) = step(RoundState::AcquireTask, Event::TaskFetched(reply(Some(1), ZERO_CHALLENGE, 1, 0, 4)), 2);
    assert!(matches!(s, RoundState::Mine(_)));
    match a {
        Action::RunWorkers { challenge, ranges } => {
            assert_eq!(challenge, [0; 32]);
            assert_eq!(ranges, vec![NonceRange { start: 0, end: 2 }, NonceRange { start: 2, end: 4 }]);
        }
        _ => panic!("expected workers to run"),
    }
    let (s, a) = step(s, Event::WorkersJoined(vec![found(1, 3, 4), found(2, 5, 4)]), 2);
    assert!(matches!(s, RoundState::Submit));
    if let Action::SubmitSolution(sub) = a {
        submissions += 1;
        assert_eq!(sub.difficulty, 5);
        assert_eq!(sub.n, "AgAAAAAAAAA=");
    }
    let (s, a) = step(s, Event::SubmitFinished, 2);
    assert!(matches!(s, RoundState::AcquireTask));
    assert!(is_fetch(&a, 0));
    assert_eq!(submissions, 1);
}
