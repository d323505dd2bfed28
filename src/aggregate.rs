use vstd::prelude::*;
use crate::search::{better, opt_view, saturated, Candidate, CandidateView, WorkerResult};

verus! {

/// The result of one round: the global best candidate and the total number of
/// hashes the workers examined.
#[derive(Clone, Copy, Debug)]
pub struct RoundOutcome {
    pub best: Option<Candidate>,
    pub total_hashes: u64,
}

/// The best candidate a worker's result carries; none for an absent result.
pub open spec fn result_best(r: Option<WorkerResult>) -> Option<CandidateView> {
    match r {
        Some(w) => opt_view(w.best),
        None => None,
    }
}

/// The hashes a worker's result counts; none for an absent result.
pub open spec fn result_hashes(r: Option<WorkerResult>) -> int {
    match r {
        Some(w) => w.hashes as int,
        None => 0,
    }
}

/// Reduction of the worker results in worker-index order by strictly greater
/// difficulty: the lowest index wins a tie.
pub open spec fn agg_best(rs: Seq<Option<WorkerResult>>) -> Option<CandidateView>
    decreases rs.len(),
{
    if rs.len() == 0 {
        None
    } else {
        match result_best(rs.last()) {
            Some(c) => better(agg_best(rs.drop_last()), c),
            None => agg_best(rs.drop_last()),
        }
    }
}

/// Sum of the hashes of all worker results.
pub open spec fn agg_hashes(rs: Seq<Option<WorkerResult>>) -> int
    decreases rs.len(),
{
    if rs.len() == 0 {
        0
    } else {
        agg_hashes(rs.drop_last()) + result_hashes(rs.last())
    }
}

/// Index of the worker whose candidate `agg_best` keeps, -1 where none is kept.
spec fn agg_index(rs: Seq<Option<WorkerResult>>) -> int
    decreases rs.len(),
{
    if rs.len() == 0 {
        -1
    } else {
        match result_best(rs.last()) {
            Some(c) => if agg_best(rs.drop_last()) is None || c.difficulty > agg_best(
                rs.drop_last(),
            )->Some_0.difficulty {
                rs.len() - 1
            } else {
                agg_index(rs.drop_last())
            },
            None => agg_index(rs.drop_last()),
        }
    }
}

proof fn lemma_agg_index(rs: Seq<Option<WorkerResult>>)
    ensures
        agg_best(rs) is None <==> (forall|j: int| 0 <= j < rs.len() ==> #[trigger] result_best(rs[j]) is None),
        agg_best(rs) is Some ==> {
            let i = agg_index(rs);
            let d = agg_best(rs)->Some_0.difficulty;
            &&& 0 <= i < rs.len()
            &&& result_best(rs[i]) == agg_best(rs)
            &&& forall|j: int|
                0 <= j < rs.len() && #[trigger] result_best(rs[j]) is Some ==> result_best(rs[j])->Some_0.difficulty <= d
            &&& forall|j: int|
                0 <= j < i && #[trigger] result_best(rs[j]) is Some ==> result_best(rs[j])->Some_0.difficulty < d
        },
    decreases rs.len(),
{
    if rs.len() > 0 {
        let p = rs.drop_last();
        lemma_agg_index(p);
        assert forall|j: int| 0 <= j < p.len() implies #[trigger] p[j] == rs[j] by {}
        assert(rs[rs.len() - 1] == rs.last());
        if agg_best(rs) is None {
            assert forall|j: int| 0 <= j < rs.len() implies #[trigger] result_best(rs[j]) is None by {
                if j < p.len() {
                    assert(p[j] == rs[j]);
                }
            }
        } else {
            let i = agg_index(rs);
            let d = agg_best(rs)->Some_0.difficulty;
            assert forall|j: int|
                0 <= j < rs.len() && #[trigger] result_best(rs[j]) is Some implies result_best(rs[j])->Some_0.difficulty <= d by {
                if j < p.len() {
                    assert(p[j] == rs[j]);
                }
            }
            assert forall|j: int|
                0 <= j < i && #[trigger] result_best(rs[j]) is Some implies result_best(rs[j])->Some_0.difficulty < d by {
                if j < p.len() {
                    assert(p[j] == rs[j]);
                }
            }
        }
    }
}

/// The global best of a round is absent exactly when no worker result carries
/// a candidate; otherwise it is the candidate of some worker, its difficulty is
/// the maximum over all workers' best candidates, and every worker of lower
/// index has a strictly lower best difficulty (the lowest index wins a tie).
pub proof fn lemma_aggregate_first_maximum(rs: Seq<Option<WorkerResult>>)
    ensures
        agg_best(rs) is None <==> (forall|j: int| 0 <= j < rs.len() ==> #[trigger] result_best(rs[j]) is None),
        agg_best(rs) is Some ==> exists|i: int|
            0 <= i < rs.len() && #[trigger] result_best(rs[i]) == agg_best(rs) && (forall|j: int|
                0 <= j < rs.len() && #[trigger] result_best(rs[j]) is Some
                    ==> result_best(rs[j])->Some_0.difficulty <= agg_best(rs)->Some_0.difficulty) && (forall|j: int|
                0 <= j < i && #[trigger] result_best(rs[j]) is Some
                    ==> result_best(rs[j])->Some_0.difficulty < agg_best(rs)->Some_0.difficulty),
{
    lemma_agg_index(rs);
    if agg_best(rs) is Some {
        let i = agg_index(rs);
        assert(result_best(rs[i]) == agg_best(rs));
    }
}

/// Reduces the results of all workers, in worker-index order, to the round's
/// best candidate and total hash count. An absent result (a worker that
/// failed) contributes nothing.
pub fn aggregate(results: &Vec<Option<WorkerResult>>) -> (r: RoundOutcome)
    ensures
        opt_view(r.best) == agg_best(results@),
        r.total_hashes == saturated(agg_hashes(results@)),
{
    let mut best: Option<Candidate> = None;
    let mut total: u64 = 0;
    let mut i: usize = 0;
    while i < results.len()
        invariant
            i <= results@.len(),
            opt_view(best) == agg_best(results@.take(i as int)),
            total == saturated(agg_hashes(results@.take(i as int))),
            forall|k: int| 0 <= k <= i ==> #[trigger] agg_hashes(results@.take(k)) >= 0,
        decreases results@.len() - i,
    {
        proof {
            assert(results@.take(i + 1).drop_last() =~= results@.take(i as int));
            assert(results@.take(i + 1).last() == results@[i as int]);
        }
        match results[i] {
            Some(w) => {
                total = if w.hashes <= u64::MAX - total { total + w.hashes } else { u64::MAX };
                match w.best {
                    Some(c) => {
                        let improves = match best {
                            None => true,
                            Some(b) => c.difficulty > b.difficulty,
                        };
                        if improves {
                            best = Some(c);
                        }
                    },
                    None => {},
                }
            },
            None => {},
        }
        i = i + 1;
        assert(agg_hashes(results@.take(i as int)) >= 0);
    }
    assert(results@.take(results@.len() as int) =~= results@);
    RoundOutcome { best, total_hashes: total }
}

} // verus!
