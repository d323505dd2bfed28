use vstd::prelude::*;
use vstd::relations::{sorted_by, total_ordering};
use crate::codec::{le_bytes, le_bytes_spec};
use crate::partition::NonceRange;
use crate::primitives::{equix_solutions, keccak256, keccak256_of, leading_zero_bits, solve_seed};

verus! {

/// A solution digest with the hash derived from it.
#[derive(Clone, Copy, Debug)]
pub struct DrillHash {
    /// The 16-byte equix solution.
    pub d: [u8; 16],
    /// Keccak-256 of the sorted digest followed by the nonce.
    pub h: [u8; 32],
}

/// A hash as byte strings.
pub struct HashView {
    pub d: Seq<u8>,
    pub h: Seq<u8>,
}

impl View for DrillHash {
    type V = HashView;

    open spec fn view(&self) -> HashView {
        HashView { d: self.d@, h: self.h@ }
    }
}

/// One solution found for a nonce, with its difficulty.
#[derive(Clone, Copy, Debug)]
pub struct Candidate {
    pub nonce: u64,
    pub hash: DrillHash,
    pub difficulty: u32,
}

/// A candidate with its hash as byte strings.
pub struct CandidateView {
    pub nonce: u64,
    pub hash: HashView,
    pub difficulty: u32,
}

impl View for Candidate {
    type V = CandidateView;

    open spec fn view(&self) -> CandidateView {
        CandidateView { nonce: self.nonce, hash: self.hash@, difficulty: self.difficulty }
    }
}

/// The view of an optional candidate.
pub open spec fn opt_view(c: Option<Candidate>) -> Option<CandidateView> {
    match c {
        Some(c) => Some(c@),
        None => None,
    }
}

/// What a worker hands back: its best candidate, if it found any, how many
/// hashes it examined, and the nonce at which it stopped scanning.
#[derive(Clone, Copy, Debug)]
pub struct WorkerResult {
    pub best: Option<Candidate>,
    pub hashes: u64,
    pub scanned_to: u64,
}

/// Ascending order of 16-bit words.
pub open spec fn word_leq() -> spec_fn(u16, u16) -> bool {
    |a: u16, b: u16| a <= b
}

/// The digest read as eight little-endian 16-bit words, the layout the
/// digest has in memory on the little-endian targets the solver runs on.
pub open spec fn digest_words(d: Seq<u8>) -> Seq<u16> {
    Seq::new(8, |i: int| (d[2 * i] + 256 * d[2 * i + 1]) as u16)
}

/// Sixteen bytes holding the words, each little-endian.
pub open spec fn words_bytes(w: Seq<u16>) -> Seq<u8> {
    Seq::new(
        16,
        |k: int|
            if k % 2 == 0 {
                (w[k / 2] % 256) as u8
            } else {
                (w[k / 2] / 256) as u8
            },
    )
}

/// The digest with its eight words put in ascending order.
pub open spec fn sorted_digest(d: Seq<u8>) -> Seq<u8> {
    words_bytes(digest_words(d).sort_by(word_leq()))
}

/// The hash of a digest found for the given nonce bytes.
pub open spec fn hash_of(d: Seq<u8>, nonce: Seq<u8>) -> HashView {
    HashView { d, h: keccak256_of(sorted_digest(d) + nonce) }
}

/// All hashes the solver yields for a challenge and nonce, in the solver's order.
pub open spec fn hashes_spec(challenge: Seq<u8>, nonce: Seq<u8>) -> Seq<HashView> {
    match equix_solutions(challenge + nonce) {
        None => Seq::empty(),
        Some(ds) => ds.map_values(|d: Seq<u8>| hash_of(d, nonce)),
    }
}

/// The candidates for one nonce.
pub open spec fn candidates_at(challenge: Seq<u8>, n: u64) -> Seq<CandidateView> {
    hashes_spec(challenge, le_bytes_spec(n)).map_values(
        |h: HashView| CandidateView { nonce: n, hash: h, difficulty: leading_zero_bits(h.h) as u32 },
    )
}

/// The candidates of the nonces `from..to`, in nonce order.
pub open spec fn candidates_in(challenge: Seq<u8>, from: int, to: int) -> Seq<CandidateView>
    decreases to - from,
{
    if to <= from {
        Seq::empty()
    } else {
        candidates_in(challenge, from, to - 1) + candidates_at(challenge, (to - 1) as u64)
    }
}

/// The held best after seeing `c`: replaced only on strictly greater difficulty.
pub open spec fn better(b: Option<CandidateView>, c: CandidateView) -> Option<CandidateView> {
    if b is None || c.difficulty > b->Some_0.difficulty {
        Some(c)
    } else {
        b
    }
}

/// The best of a sequence of candidates scanned in order: the first one of
/// highest difficulty.
pub open spec fn best_of(s: Seq<CandidateView>) -> Option<CandidateView>
    decreases s.len(),
{
    if s.len() == 0 {
        None
    } else {
        better(best_of(s.drop_last()), s.last())
    }
}

/// A count that stops at the largest `u64`.
pub open spec fn saturated(n: int) -> int {
    if n > u64::MAX {
        u64::MAX as int
    } else {
        n
    }
}

proof fn lemma_word_leq_total()
    ensures
        total_ordering(word_leq()),
{
}

proof fn lemma_swap_multiset(s: Seq<u16>, i: int, j: int)
    requires
        0 <= i < s.len(),
        0 <= j < s.len(),
        i != j,
    ensures
        s.update(i, s[j]).update(j, s[i]).to_multiset() == s.to_multiset(),
{
    broadcast use vstd::seq_lib::to_multiset_update;
    broadcast use vstd::multiset::group_multiset_axioms;
    broadcast use vstd::seq_lib::group_to_multiset_ensures;

    let m = s.to_multiset();
    let t = s.update(i, s[j]);
    assert(t[j] == s[j]);
    assert(m.count(s[i]) > 0);
    assert(t.to_multiset() == m.insert(s[j]).remove(s[i]));
    assert(t.update(j, s[i]).to_multiset() == t.to_multiset().insert(s[i]).remove(s[j]));
    assert(m.insert(s[j]).remove(s[i]).insert(s[i]).remove(s[j]) =~= m);
}

/// Sorts the words in ascending order, by insertion.
fn sort_words(words: &mut Vec<u16>)
    ensures
        final(words)@.len() == old(words)@.len(),
        final(words)@.to_multiset() == old(words)@.to_multiset(),
        forall|a: int, b: int| 0 <= a < b < final(words)@.len() ==> final(words)@[a] <= final(words)@[b],
{
    let n = words.len();
    let mut i: usize = 0;
    while i < n
        invariant
            i <= n,
            words@.len() == n,
            words@.to_multiset() == old(words)@.to_multiset(),
            forall|a: int, b: int| 0 <= a < b < i ==> words@[a] <= words@[b],
        decreases n - i,
    {
        let mut j: usize = i;
        while j > 0 && words[j - 1] > words[j]
            invariant
                j <= i < n,
                words@.len() == n,
                words@.to_multiset() == old(words)@.to_multiset(),
                forall|a: int, b: int| 0 <= a < b <= i && a != j && b != j ==> words@[a] <= words@[b],
                forall|b: int| j < b <= i ==> words@[j as int] <= words@[b],
            decreases j,
        {
            let x = words[j];
            let y = words[j - 1];
            proof {
                lemma_swap_multiset(words@, j - 1, j as int);
            }
            words.set(j - 1, x);
            words.set(j, y);
            j = j - 1;
        }
        assert forall|a: int, b: int| 0 <= a < b <= i implies words@[a] <= words@[b] by {
            if b == j && a < j - 1 {
                assert(words@[a] <= words@[j - 1]);
            }
        }
        i = i + 1;
    }
}

/// Puts the eight 16-bit words of a digest in ascending order.
pub fn sorted(digest: [u8; 16]) -> (r: [u8; 16])
    ensures
        r@ == sorted_digest(digest@),
{
    let mut words: Vec<u16> = Vec::new();
    let mut i: usize = 0;
    while i < 8
        invariant
            i <= 8,
            words@.len() == i,
            forall|k: int| 0 <= k < i ==> words@[k] == digest_words(digest@)[k],
        decreases 8 - i,
    {
        words.push(digest[2 * i] as u16 + 256u16 * (digest[2 * i + 1] as u16));
        i = i + 1;
    }
    assert(words@ =~= digest_words(digest@));
    sort_words(&mut words);
    proof {
        let w = digest_words(digest@);
        lemma_word_leq_total();
        w.lemma_sort_by_ensures(word_leq());
        assert(sorted_by(words@, word_leq()));
        vstd::seq_lib::lemma_sorted_unique(words@, w.sort_by(word_leq()), word_leq());
    }
    let mut out = [0u8; 16];
    let mut k: usize = 0;
    while k < 16
        invariant
            k <= 16,
            words@.len() == 8,
            forall|j: int| 0 <= j < k ==> out@[j] == words_bytes(words@)[j],
        decreases 16 - k,
    {
        let w = words[k / 2];
        out[k] = if k % 2 == 0 { (w % 256) as u8 } else { (w / 256) as u8 };
        k = k + 1;
    }
    assert(out@ =~= words_bytes(words@));
    out
}

/// Keccak-256 of the sorted digest followed by the nonce bytes.
pub fn hashv(digest: &[u8; 16], nonce: &[u8; 8]) -> (r: [u8; 32])
    ensures
        r@ == keccak256_of(sorted_digest(digest@) + nonce@),
{
    let s = sorted(*digest);
    let mut data: Vec<u8> = Vec::new();
    let mut i: usize = 0;
    while i < 16
        invariant
            i <= 16,
            data@ == s@.take(i as int),
        decreases 16 - i,
    {
        data.push(s[i]);
        i = i + 1;
        assert(data@ =~= s@.take(i as int));
    }
    let mut j: usize = 0;
    while j < 8
        invariant
            j <= 8,
            data@ == s@ + nonce@.take(j as int),
        decreases 8 - j,
    {
        data.push(nonce[j]);
        j = j + 1;
        assert(data@ =~= s@ + nonce@.take(j as int));
    }
    assert(data@ =~= s@ + nonce@);
    keccak256(&data)
}

impl DrillHash {
    /// The number of leading zero bits of the hash.
    pub fn difficulty(&self) -> (r: u32)
        ensures
            r == leading_zero_bits(self.h@),
    {
        drillx::difficulty(self.h)
    }
}

/// The equix solutions for a challenge and nonce, `None` where the solver
/// cannot be built for them.
pub fn get_digests_with_memory(
    memory: &mut drillx::equix::SolverMemory,
    challenge: &[u8; 32],
    nonce: &[u8; 8],
) -> (r: Option<Vec<[u8; 16]>>)
    ensures
        r is None <==> equix_solutions(challenge@ + nonce@) is None,
        r is Some ==> equix_solutions(challenge@ + nonce@) == Some(
            r->Some_0@.map_values(|d: [u8; 16]| d@),
        ),
        r is Some ==> r->Some_0@.len() <= 8,
{
    let seed = drillx::seed(challenge, nonce);
    solve_seed(memory, &seed)
}

/// The hashes of every solution for a challenge and nonce; none where the
/// solver cannot be built for them.
pub fn get_hashes_with_memory(
    memory: &mut drillx::equix::SolverMemory,
    challenge: &[u8; 32],
    nonce: &[u8; 8],
) -> (r: Vec<DrillHash>)
    ensures
        r@.map_values(|h: DrillHash| h@) == hashes_spec(challenge@, nonce@),
        r@.len() <= 8,
{
    let mut hashes: Vec<DrillHash> = Vec::new();
    match get_digests_with_memory(memory, challenge, nonce) {
        None => {
            assert(hashes@.map_values(|h: DrillHash| h@) =~= hashes_spec(challenge@, nonce@));
        },
        Some(solutions) => {
            let ghost ds = solutions@.map_values(|d: [u8; 16]| d@);
            let mut i: usize = 0;
            while i < solutions.len()
                invariant
                    i <= solutions@.len(),
                    solutions@.len() <= 8,
                    ds == solutions@.map_values(|d: [u8; 16]| d@),
                    hashes@.len() == i,
                    forall|k: int| 0 <= k < i ==> #[trigger] hashes@[k]@ == hash_of(ds[k], nonce@),
                decreases solutions@.len() - i,
            {
                let digest = solutions[i];
                hashes.push(DrillHash { d: digest, h: hashv(&digest, nonce) });
                i = i + 1;
            }
            assert(hashes@.map_values(|h: DrillHash| h@) =~= hashes_spec(challenge@, nonce@));
        },
    }
    hashes
}

/// Of candidates scanned in order, the held best is absent only when none
/// was scanned; otherwise it is one of them, no candidate has a higher
/// difficulty, and every candidate scanned before it has a strictly lower one:
/// ties keep the earliest found.
pub proof fn lemma_best_of_first_maximum(s: Seq<CandidateView>)
    ensures
        best_of(s) is None <==> s.len() == 0,
        best_of(s) is Some ==> exists|i: int|
            0 <= i < s.len() && s[i] == best_of(s)->Some_0 && (forall|j: int|
                0 <= j < s.len() ==> (#[trigger] s[j]).difficulty <= best_of(s)->Some_0.difficulty) && (forall|j: int|
                0 <= j < i ==> (#[trigger] s[j]).difficulty < best_of(s)->Some_0.difficulty),
    decreases s.len(),
{
    if s.len() > 0 {
        let p = s.drop_last();
        lemma_best_of_first_maximum(p);
        let b = best_of(s)->Some_0;
        if best_of(p) is Some && !(s.last().difficulty > best_of(p)->Some_0.difficulty) {
            let i = choose|i: int|
                0 <= i < p.len() && p[i] == best_of(p)->Some_0 && (forall|j: int|
                    0 <= j < p.len() ==> (#[trigger] p[j]).difficulty <= best_of(p)->Some_0.difficulty) && (forall|j: int|
                    0 <= j < i ==> (#[trigger] p[j]).difficulty < best_of(p)->Some_0.difficulty);
            assert(s[i] == p[i]);
            assert forall|j: int| 0 <= j < s.len() implies (#[trigger] s[j]).difficulty <= b.difficulty by {
                if j < p.len() {
                    assert(s[j] == p[j]);
                }
            }
            assert forall|j: int| 0 <= j < i implies (#[trigger] s[j]).difficulty < b.difficulty by {
                assert(s[j] == p[j]);
            }
        } else {
            let i = s.len() - 1;
            assert(s[i] == b);
            assert forall|j: int| 0 <= j < s.len() implies (#[trigger] s[j]).difficulty <= b.difficulty by {
                if j < p.len() {
                    assert(s[j] == p[j]);
                }
            }
            assert forall|j: int| 0 <= j < i implies (#[trigger] s[j]).difficulty < b.difficulty by {
                assert(s[j] == p[j]);
            }
        }
    }
}

proof fn lemma_best_push(s: Seq<CandidateView>, c: CandidateView)
    ensures
        best_of(s.push(c)) == better(best_of(s), c),
{
    assert(s.push(c).drop_last() =~= s);
}

/// One step of a worker that has scanned `range` up to `acc.scanned_to` and
/// has been running for `elapsed_secs` seconds: it stops (`None`) when the
/// range is exhausted or the budget is spent, else it scans the next nonce
/// against the solver and folds its candidates into the result. A candidate
/// replaces the held best only on strictly greater difficulty, and each
/// candidate counts as one examined hash.
pub fn worker_step(
    memory: &mut drillx::equix::SolverMemory,
    challenge: &[u8; 32],
    range: NonceRange,
    budget_secs: u64,
    elapsed_secs: u64,
    acc: WorkerResult,
) -> (r: Option<WorkerResult>)
    requires
        range.start <= acc.scanned_to <= range.end,
        opt_view(acc.best) == best_of(candidates_in(challenge@, range.start as int, acc.scanned_to as int)),
        acc.hashes == saturated(candidates_in(challenge@, range.start as int, acc.scanned_to as int).len() as int),
    ensures
        r is None <==> (acc.scanned_to >= range.end || elapsed_secs >= budget_secs),
        r is Some ==> r->Some_0.scanned_to == acc.scanned_to + 1,
        r is Some ==> opt_view(r->Some_0.best) == best_of(
            candidates_in(challenge@, range.start as int, acc.scanned_to + 1),
        ),
        r is Some ==> r->Some_0.hashes == saturated(
            candidates_in(challenge@, range.start as int, acc.scanned_to + 1).len() as int,
        ),
{
    if acc.scanned_to >= range.end || elapsed_secs >= budget_secs {
        return None;
    }
    let nonce = acc.scanned_to;
    let mut best = acc.best;
    let mut total_hashes = acc.hashes;
    let nonce_bytes = le_bytes(nonce);
    let found = get_hashes_with_memory(memory, challenge, &nonce_bytes);
    let ghost before = candidates_in(challenge@, range.start as int, nonce as int);
    let ghost here = candidates_at(challenge@, nonce);
    assert(here.len() == found@.len());
    let mut j: usize = 0;
    while j < found.len()
        invariant
            j <= found@.len(),
            here == candidates_at(challenge@, nonce),
            here.len() == found@.len(),
            found@.map_values(|h: DrillHash| h@) == hashes_spec(challenge@, le_bytes_spec(nonce)),
            opt_view(best) == best_of(before + here.take(j as int)),
            total_hashes == saturated((before + here.take(j as int)).len() as int),
        decreases found@.len() - j,
    {
        let hx = found[j];
        assert(found@.map_values(|h: DrillHash| h@)[j as int] == hx@);
        total_hashes = if total_hashes < u64::MAX { total_hashes + 1 } else { total_hashes };
        let difficulty = hx.difficulty();
        let c = Candidate { nonce, hash: hx, difficulty };
        assert(c@ == here[j as int]);
        proof {
            lemma_best_push(before + here.take(j as int), here[j as int]);
            assert((before + here.take(j as int)).push(here[j as int]) =~= before + here.take(j + 1));
        }
        let improves = match best {
            None => true,
            Some(b) => difficulty > b.difficulty,
        };
        if improves {
            best = Some(c);
        }
        j = j + 1;
    }
    assert(here.take(found@.len() as int) =~= here);
    Some(WorkerResult { best, hashes: total_hashes, scanned_to: nonce + 1 })
}

/// Scans the nonces of `range` in increasing order, each against the solver,
/// until the range is exhausted or `budget_secs` seconds have passed since the
/// start: the clock is read before each nonce and `worker_step` decides. The
/// best candidate is the first one of highest difficulty among all candidates
/// of the scanned nonces, and every candidate counts as one examined hash.
pub fn mine_range(challenge: &[u8; 32], range: NonceRange, budget_secs: u64) -> (r: WorkerResult)
    ensures
        range.start <= range.end ==> range.start <= r.scanned_to <= range.end,
        range.start > range.end ==> r.scanned_to == range.start,
        budget_secs == 0 ==> r.scanned_to == range.start,
        opt_view(r.best) == best_of(candidates_in(challenge@, range.start as int, r.scanned_to as int)),
        r.hashes == saturated(candidates_in(challenge@, range.start as int, r.scanned_to as int).len() as int),
{
    let mut acc = WorkerResult { best: None, hashes: 0, scanned_to: range.start };
    if range.start > range.end {
        return acc;
    }
    let mut memory = drillx::equix::SolverMemory::new();
    let timer = std::time::Instant::now();
    loop
        invariant
            range.start <= acc.scanned_to <= range.end,
            budget_secs == 0 ==> acc.scanned_to == range.start,
            opt_view(acc.best) == best_of(candidates_in(challenge@, range.start as int, acc.scanned_to as int)),
            acc.hashes == saturated(candidates_in(challenge@, range.start as int, acc.scanned_to as int).len() as int),
        ensures
            range.start <= acc.scanned_to <= range.end,
            budget_secs == 0 ==> acc.scanned_to == range.start,
            opt_view(acc.best) == best_of(candidates_in(challenge@, range.start as int, acc.scanned_to as int)),
            acc.hashes == saturated(candidates_in(challenge@, range.start as int, acc.scanned_to as int).len() as int),
        decreases range.end - acc.scanned_to,
    {
        let elapsed = timer.elapsed().as_secs();
        match worker_step(&mut memory, challenge, range, budget_secs, elapsed, acc) {
            Some(next) => {
                acc = next;
            },
            None => {
                break;
            },
        }
    }
    acc
}

} // verus!
