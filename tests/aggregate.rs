use pool_miner::aggregate::aggregate;
use pool_miner::search::{Candidate, DrillHash, WorkerResult};

fn cand(nonce: u64, difficulty: u32) -> Candidate {
    Candidate { nonce, hash: DrillHash { d: [nonce as u8; 16], h: [0; 32] }, difficulty }
}

fn res(best: Option<Candidate>, hashes: u64) -> Option<WorkerResult> {
    Some(WorkerResult { best, hashes, scanned_to: 0 })
}

#[test]
fn global_best_is_the_maximum() {
    let rs = vec![res(Some(cand(1, 5)), 10), res(Some(cand(2, 9)), 20), res(Some(cand(3, 7)), 30)];
    let o = aggregate(&rs);
    assert_eq!(o.best.map(|c| (c.nonce, c.difficulty)), Some((2, 9)));
    assert_eq!(o.total_hashes, 60);
}

#[test]
fn tie_keeps_lowest_worker_index() {
    let rs = vec![res(Some(cand(1, 3)), 1), res(Some(cand(2, 8)), 1), res(Some(cand(3, 8)), 1)];
    let o = aggregate(&rs);
    assert_eq!(o.best.map(|c| c.nonce), Some(2));
}

#[test]
fn absent_results_are_skipped() {
    let rs = vec![None, res(None, 4), res(Some(cand(9, 1)), 6), None];
    let o = aggregate(&rs);
    assert_eq!(o.best.map(|c| (c.nonce, c.difficulty)), Some((9, 1)));
    assert_eq!(o.total_hashes, 10);
}

#[test]
fn all_absent_gives_no_candidate() {
    let o = aggregate(&vec![None, None]);
    assert!(o.best.is_none());
    assert_eq!(o.total_hashes, 0);
    assert!(aggregate(&Vec::new()).best.is_none());
}

#[test]
fn hash_total_saturates() {
    let rs = vec![res(None, u64::MAX - 1), res(None, 5)];
    assert_eq!(aggregate(&rs).total_hashes, u64::MAX);
}
