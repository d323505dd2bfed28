use vstd::prelude::*;
use crate::aggregate::{aggregate, agg_best, lemma_aggregate_first_maximum, result_best, RoundOutcome};
use crate::codec::{base64_to_array, decode_exact, le_bytes, le_bytes_spec, u8_16_to_base64, u8_8_to_base64, DecodeFailure};
use crate::partition::{partition, sub_range_spec, NonceRange};
use crate::primitives::base64_encoding;
use crate::search::{opt_view, CandidateView, WorkerResult};

verus! {

/// Seconds to wait before asking for a task again after a failed acquisition.
pub const RETRY_DELAY_SECS: u64 = 1;

/// Seconds each worker may search before it stops.
pub const WORKER_BUDGET_SECS: u64 = 10;

/// The status code with which the coordinator reports success.
pub const STATUS_OK: u64 = 1;

/// The fields of the coordinator's answer to a task request.
#[derive(Debug)]
pub struct TaskReply {
    /// The status code; `None` where the answer carried none.
    pub code: Option<u64>,
    /// The challenge as base64 text. This and the fields below are `None`
    /// where the answer lacked them or held a value of another kind.
    pub challenge: Option<String>,
    pub pubkey: Option<String>,
    pub min_difficulty: Option<u64>,
    pub nonce_start: Option<u64>,
    pub nonce_end: Option<u64>,
}

/// One round's work: read-only once made.
#[derive(Debug)]
pub struct MiningTask {
    pub challenge: [u8; 32],
    /// The challenge as the coordinator sent it.
    pub challenge_text: String,
    pub pubkey: String,
    pub min_difficulty: u64,
    pub nonce_start: u64,
    pub nonce_end: u64,
}

impl MiningTask {
    /// The nonce range is well ordered and the challenge is the decoded text.
    pub open spec fn wf(&self) -> bool {
        &&& self.nonce_start <= self.nonce_end
        &&& decode_exact(self.challenge_text@, 32) == Ok::<Seq<u8>, DecodeFailure>(self.challenge@)
    }
}

/// Why a task answer was refused.
#[derive(Clone, Copy, Debug, PartialEq, Eq, Structural)]
pub enum AcquireError {
    /// The status code is missing or is not the success code.
    Status,
    /// A field of the task is missing.
    MissingField,
    /// The challenge is not base64 text of 32 bytes.
    Challenge(DecodeFailure),
    /// The nonce range ends before it starts.
    Range,
}

/// What the coordinator receives for a solution.
#[derive(Debug)]
pub struct Submission {
    /// The challenge text of the task.
    pub challenge: String,
    /// The base64 digest.
    pub d: String,
    /// The base64 of the nonce's little-endian bytes.
    pub n: String,
    pub difficulty: u32,
    pub pubkey: String,
}

/// A request to start mining a challenge over a nonce range with a minimum difficulty.
#[derive(Clone, Copy, Debug)]
pub enum ServerMessage {
    StartMining([u8; 32], NonceRange, u64),
}

/// Options of the mining command.
#[derive(Clone, Copy, Debug, PartialEq, Eq, Structural)]
pub struct MineArgs {
    /// How many workers to run; the detected number of processing units when absent.
    pub cores: Option<usize>,
}

impl MineArgs {
    /// The number of workers: the override where one was given, else `detected`.
    pub fn worker_count(&self, detected: usize) -> (r: usize)
        ensures
            r == match self.cores {
                Some(c) => c,
                None => detected,
            },
    {
        match self.cores {
            Some(c) => c,
            None => detected,
        }
    }
}

/// The phase the round loop is in.
#[derive(Debug)]
pub enum RoundState {
    AcquireTask,
    Mine(MiningTask),
    Submit,
}

/// What the outside world reports back to the round loop.
#[derive(Debug)]
pub enum Event {
    /// The task request was answered.
    TaskFetched(TaskReply),
    /// The task request could not be sent or its answer not read.
    FetchFailed,
    /// All workers have joined, each with its result or absent if it failed.
    WorkersJoined(Vec<Option<WorkerResult>>),
    /// The submission finished, whatever its outcome.
    SubmitFinished,
}

/// What the round loop asks the outside world to do next.
#[derive(Debug)]
pub enum Action {
    /// Wait `delay_secs` seconds, then request a task.
    FetchTask { delay_secs: u64 },
    /// Run one worker per sub-range on the challenge and report their results.
    RunWorkers { challenge: [u8; 32], ranges: Vec<NonceRange> },
    /// Send the submission.
    SubmitSolution(Submission),
}

/// The refusal a task answer earns, if any.
pub open spec fn reply_error(r: TaskReply) -> Option<AcquireError> {
    if r.code != Some(STATUS_OK) {
        Some(AcquireError::Status)
    } else if r.challenge is None || r.pubkey is None || r.min_difficulty is None || r.nonce_start is None
        || r.nonce_end is None {
        Some(AcquireError::MissingField)
    } else {
        match decode_exact(r.challenge->Some_0@, 32) {
            Err(e) => Some(AcquireError::Challenge(e)),
            Ok(_) => if r.nonce_start->Some_0 > r.nonce_end->Some_0 {
                Some(AcquireError::Range)
            } else {
                None
            },
        }
    }
}

/// The task carries the answer's values.
pub open spec fn task_matches(t: MiningTask, r: TaskReply) -> bool {
    &&& r.challenge is Some && t.challenge_text@ == r.challenge->Some_0@
    &&& r.pubkey is Some && t.pubkey@ == r.pubkey->Some_0@
    &&& r.min_difficulty == Some(t.min_difficulty)
    &&& r.nonce_start == Some(t.nonce_start)
    &&& r.nonce_end == Some(t.nonce_end)
    &&& decode_exact(t.challenge_text@, 32) == Ok::<Seq<u8>, DecodeFailure>(t.challenge@)
}

/// A round's best candidate is worth submitting.
pub open spec fn worth_submitting(t: MiningTask, best: Option<CandidateView>) -> bool {
    best is Some && best->Some_0.difficulty >= t.min_difficulty
}

/// The submission carries the task's identifiers and the candidate's values.
pub open spec fn submission_matches(s: Submission, t: MiningTask, c: CandidateView) -> bool {
    &&& s.challenge@ == t.challenge_text@
    &&& s.d@ == base64_encoding(c.hash.d)
    &&& s.n@ == base64_encoding(le_bytes_spec(c.nonce))
    &&& s.difficulty == c.difficulty
    &&& s.pubkey@ == t.pubkey@
}

/// A round is submitted exactly when some worker's best candidate reaches the
/// task's minimum difficulty; in particular a round in which no worker
/// result carries a candidate (all absent or empty) is discarded.
pub proof fn lemma_round_submitted_iff_minimum_reached(t: MiningTask, rs: Seq<Option<WorkerResult>>)
    ensures
        worth_submitting(t, agg_best(rs)) <==> exists|j: int|
            0 <= j < rs.len() && #[trigger] result_best(rs[j]) is Some && result_best(rs[j])->Some_0.difficulty
                >= t.min_difficulty,
        (forall|j: int| 0 <= j < rs.len() ==> #[trigger] result_best(rs[j]) is None) ==> !worth_submitting(
            t,
            agg_best(rs),
        ),
{
    lemma_aggregate_first_maximum(rs);
    if worth_submitting(t, agg_best(rs)) {
        let i = choose|i: int|
            0 <= i < rs.len() && #[trigger] result_best(rs[i]) == agg_best(rs) && (forall|j: int|
                0 <= j < rs.len() && #[trigger] result_best(rs[j]) is Some
                    ==> result_best(rs[j])->Some_0.difficulty <= agg_best(rs)->Some_0.difficulty) && (forall|j: int|
                0 <= j < i && #[trigger] result_best(rs[j]) is Some
                    ==> result_best(rs[j])->Some_0.difficulty < agg_best(rs)->Some_0.difficulty);
        assert(result_best(rs[i]) is Some);
    }
}

/// Turns the coordinator's answer into a task, or says why it cannot.
pub fn task_from_reply(reply: TaskReply) -> (r: Result<MiningTask, AcquireError>)
    ensures
        match r {
            Ok(t) => reply_error(reply) is None && task_matches(t, reply) && t.wf(),
            Err(e) => reply_error(reply) == Some(e),
        },
{
    match reply.code {
        Some(c) => {
            if c != STATUS_OK {
                return Err(AcquireError::Status);
            }
        },
        None => {
            return Err(AcquireError::Status);
        },
    }
    let (challenge_text, pubkey, min_difficulty, nonce_start, nonce_end) = match (
        reply.challenge,
        reply.pubkey,
        reply.min_difficulty,
        reply.nonce_start,
        reply.nonce_end,
    ) {
        (Some(c), Some(p), Some(m), Some(s), Some(e)) => (c, p, m, s, e),
        _ => return Err(AcquireError::MissingField),
    };
    let challenge = match base64_to_array(challenge_text.as_str()) {
        Ok(a) => a,
        Err(e) => return Err(AcquireError::Challenge(e)),
    };
    if nonce_start > nonce_end {
        return Err(AcquireError::Range);
    }
    Ok(MiningTask { challenge, challenge_text, pubkey, min_difficulty, nonce_start, nonce_end })
}

/// Decides whether a round's outcome is submitted: only a best candidate whose
/// difficulty reaches the task's minimum is; anything less is discarded.
pub fn evaluate(task: MiningTask, outcome: &RoundOutcome) -> (r: Option<Submission>)
    ensures
        r is Some <==> worth_submitting(task, opt_view(outcome.best)),
        r is Some ==> submission_matches(r->Some_0, task, opt_view(outcome.best)->Some_0),
{
    match outcome.best {
        None => None,
        Some(c) => {
            if (c.difficulty as u64) < task.min_difficulty {
                None
            } else {
                let d = u8_16_to_base64(c.hash.d);
                let n = u8_8_to_base64(le_bytes(c.nonce));
                Some(Submission {
                    challenge: task.challenge_text,
                    d,
                    n,
                    difficulty: c.difficulty,
                    pubkey: task.pubkey,
                })
            }
        },
    }
}

/// The action waits `secs` seconds and then requests a task.
pub open spec fn fetches_after(a: Action, secs: u64) -> bool {
    match a {
        Action::FetchTask { delay_secs } => delay_secs == secs,
        _ => false,
    }
}

/// The action runs one worker per sub-range of the task's nonce range split
/// among `cores` workers, on the task's challenge.
pub open spec fn runs_workers(a: Action, t: MiningTask, cores: u64) -> bool {
    match a {
        Action::RunWorkers { challenge, ranges } => {
            &&& challenge == t.challenge
            &&& ranges@.len() == cores
            &&& forall|i: int|
                0 <= i < cores ==> ranges@[i] == #[trigger] sub_range_spec(
                    t.nonce_start as int,
                    t.nonce_end as int,
                    cores as int,
                    i,
                )
        },
        _ => false,
    }
}

/// The action submits the candidate for the task.
pub open spec fn submits(a: Action, t: MiningTask, c: CandidateView) -> bool {
    match a {
        Action::SubmitSolution(s) => submission_matches(s, t, c),
        _ => false,
    }
}

/// One transition of the round loop: from its phase and what the outside
/// world reported, to the next phase and what the outside world must do.
/// A task answer that is refused, or a failed request, leads back to
/// acquisition after the retry delay; valid work is split among the workers;
/// the joined results are submitted only if the best difficulty reaches the
/// task's minimum; after a submission, whatever its outcome, or a discard, the
/// next task is requested at once.
pub fn step(state: RoundState, event: Event, cores: u64) -> (r: (RoundState, Action))
    requires
        cores >= 1,
        state is Mine ==> state->Mine_0.wf(),
    ensures
        r.0 is Mine ==> r.0->Mine_0.wf(),
        r.0 is Mine <==> r.1 is RunWorkers,
        r.0 is Submit <==> r.1 is SubmitSolution,
        (state is AcquireTask && event is TaskFetched) ==> match reply_error(event->TaskFetched_0) {
            Some(_) => r.0 is AcquireTask && fetches_after(r.1, RETRY_DELAY_SECS),
            None => r.0 is Mine && task_matches(r.0->Mine_0, event->TaskFetched_0) && runs_workers(
                r.1,
                r.0->Mine_0,
                cores,
            ),
        },
        (state is AcquireTask && event is FetchFailed) ==> r.0 is AcquireTask && fetches_after(r.1, RETRY_DELAY_SECS),
        (state is Mine && event is WorkersJoined) ==> if worth_submitting(
            state->Mine_0,
            agg_best(event->WorkersJoined_0@),
        ) {
            r.0 is Submit && submits(r.1, state->Mine_0, agg_best(event->WorkersJoined_0@)->Some_0)
        } else {
            r.0 is AcquireTask && fetches_after(r.1, 0)
        },
        !((state is AcquireTask && (event is TaskFetched || event is FetchFailed)) || (state is Mine
            && event is WorkersJoined)) ==> r.0 is AcquireTask && fetches_after(r.1, 0),
{
    match state {
        RoundState::AcquireTask => match event {
            Event::TaskFetched(reply) => match task_from_reply(reply) {
                Ok(task) => {
                    let ranges = partition(task.nonce_start, task.nonce_end, cores);
                    let challenge = task.challenge;
                    (RoundState::Mine(task), Action::RunWorkers { challenge, ranges })
                },
                Err(_) => (RoundState::AcquireTask, Action::FetchTask { delay_secs: RETRY_DELAY_SECS }),
            },
            Event::FetchFailed => (RoundState::AcquireTask, Action::FetchTask { delay_secs: RETRY_DELAY_SECS }),
            _ => (RoundState::AcquireTask, Action::FetchTask { delay_secs: 0 }),
        },
        RoundState::Mine(task) => match event {
            Event::WorkersJoined(results) => {
                let outcome = aggregate(&results);
                match evaluate(task, &outcome) {
                    Some(submission) => (RoundState::Submit, Action::SubmitSolution(submission)),
                    None => (RoundState::AcquireTask, Action::FetchTask { delay_secs: 0 }),
                }
            },
            _ => (RoundState::AcquireTask, Action::FetchTask { delay_secs: 0 }),
        },
        RoundState::Submit => (RoundState::AcquireTask, Action::FetchTask { delay_secs: 0 }),
    }
}

} // verus!
