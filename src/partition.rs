use vstd::prelude::*;

verus! {

/// A half-open interval `[start, end)` of nonces.
#[derive(Clone, Copy, Debug, PartialEq, Eq, Structural)]
pub struct NonceRange {
    pub start: u64,
    pub end: u64,
}

impl NonceRange {
    pub open spec fn len_spec(self) -> int {
        self.end - self.start
    }

    pub open spec fn contains_spec(self, n: int) -> bool {
        self.start <= n < self.end
    }
}

/// Number of nonces every worker receives at least.
pub open spec fn step_of(start: int, end: int, c: int) -> int {
    (end - start) / c
}

/// Number of workers (the first ones) that receive one extra nonce.
pub open spec fn rem_of(start: int, end: int, c: int) -> int {
    (end - start) % c
}

/// First nonce of sub-range `i`.
pub open spec fn sub_start(start: int, end: int, c: int, i: int) -> int {
    start + i * step_of(start, end, c) + if i < rem_of(start, end, c) {
        i
    } else {
        rem_of(start, end, c)
    }
}

/// Number of nonces in sub-range `i`.
pub open spec fn sub_len(start: int, end: int, c: int, i: int) -> int {
    step_of(start, end, c) + if i < rem_of(start, end, c) {
        1int
    } else {
        0int
    }
}

/// End (exclusive) of sub-range `i`.
pub open spec fn sub_end(start: int, end: int, c: int, i: int) -> int {
    sub_start(start, end, c, i) + sub_len(start, end, c, i)
}

/// Sub-range `i` of the partition of `[start, end)` among `c` workers.
pub open spec fn sub_range_spec(start: int, end: int, c: int, i: int) -> NonceRange {
    NonceRange {
        start: sub_start(start, end, c, i) as u64,
        end: sub_end(start, end, c, i) as u64,
    }
}

/// Sum of the lengths of the first `k` sub-ranges.
pub open spec fn sum_lens(start: int, end: int, c: int, k: int) -> int
    decreases k,
{
    if k <= 0 {
        0
    } else {
        sum_lens(start, end, c, k - 1) + sub_len(start, end, c, k - 1)
    }
}

proof fn lemma_step(start: int, end: int, c: int, i: int)
    requires
        start <= end,
        c >= 1,
        0 <= i,
    ensures
        sub_start(start, end, c, i + 1) == sub_end(start, end, c, i),
        step_of(start, end, c) >= 0,
        0 <= rem_of(start, end, c) < c,
{
    let step = step_of(start, end, c);
    assert((i + 1) * step == i * step + step) by (nonlinear_arith);
    assert(step >= 0) by (nonlinear_arith)
        requires
            step == (end - start) / c,
            end - start >= 0,
            c >= 1,
    ;
}

proof fn lemma_bounds(start: int, end: int, c: int, i: int)
    requires
        start <= end,
        c >= 1,
        0 <= i <= c,
    ensures
        start <= sub_start(start, end, c, i) <= end,
        sub_start(start, end, c, c) == end,
        i < c ==> sub_end(start, end, c, i) <= end,
        i < c ==> sub_start(start, end, c, i) <= sub_end(start, end, c, i),
{
    let step = step_of(start, end, c);
    let rem = rem_of(start, end, c);
    lemma_step(start, end, c, i);
    vstd::arithmetic::div_mod::lemma_fundamental_div_mod(end - start, c);
    assert(end - start == c * step + rem);
    assert(i * step <= c * step) by (nonlinear_arith)
        requires
            i <= c,
            step >= 0,
    ;
    assert(0 <= i * step) by (nonlinear_arith)
        requires
            i >= 0,
            step >= 0,
    ;
    if i < c {
        assert((i + 1) * step <= c * step) by (nonlinear_arith)
            requires
                i + 1 <= c,
                step >= 0,
        ;
        assert((i + 1) * step == i * step + step) by (nonlinear_arith);
    }
}

proof fn lemma_prefix_sum(start: int, end: int, c: int, k: int)
    requires
        start <= end,
        c >= 1,
        0 <= k,
    ensures
        sum_lens(start, end, c, k) == sub_start(start, end, c, k) - start,
    decreases k,
{
    if k > 0 {
        lemma_prefix_sum(start, end, c, k - 1);
        lemma_step(start, end, c, k - 1);
    }
}

proof fn lemma_ordered(start: int, end: int, c: int, i: int, j: int)
    requires
        start <= end,
        c >= 1,
        0 <= i < j,
    ensures
        sub_end(start, end, c, i) <= sub_start(start, end, c, j),
    decreases j - i,
{
    lemma_step(start, end, c, i);
    if j > i + 1 {
        lemma_ordered(start, end, c, i + 1, j);
        lemma_step(start, end, c, i + 1);
    }
}

proof fn lemma_find(start: int, end: int, c: int, n: int, k: int) -> (i: int)
    requires
        start <= end,
        c >= 1,
        0 <= k < c,
        sub_start(start, end, c, k) <= n < end,
    ensures
        k <= i < c,
        sub_start(start, end, c, i) <= n < sub_end(start, end, c, i),
    decreases c - k,
{
    lemma_step(start, end, c, k);
    lemma_bounds(start, end, c, c);
    if n < sub_end(start, end, c, k) {
        k
    } else {
        if k + 1 == c {
            assert(sub_end(start, end, c, k) == end);
        }
        lemma_find(start, end, c, n, k + 1)
    }
}

/// Sum of the lengths of a sequence of ranges.
pub open spec fn total_len(rs: Seq<NonceRange>) -> int
    decreases rs.len(),
{
    if rs.len() == 0 {
        0
    } else {
        total_len(rs.drop_last()) + rs.last().len_spec()
    }
}

/// Nonce `n` lies in one of the ranges.
pub open spec fn some_range_contains(rs: Seq<NonceRange>, n: int) -> bool {
    exists|i: int| 0 <= i < rs.len() && (#[trigger] rs[i]).contains_spec(n)
}

/// The ranges that `partition` returns for `[nonce_start, nonce_end)` and
/// `cores` workers are contiguous, begin at `nonce_start` and end at
/// `nonce_end`; none is reversed; any two are disjoint; every nonce of the
/// range lies in one of them and no nonce outside it lies in any; and their
/// lengths sum to `nonce_end - nonce_start`.
pub proof fn lemma_partition_ranges(nonce_start: u64, nonce_end: u64, cores: u64, rs: Seq<NonceRange>)
    requires
        nonce_start <= nonce_end,
        cores >= 1,
        rs.len() == cores,
        forall|i: int|
            0 <= i < cores ==> rs[i] == #[trigger] sub_range_spec(
                nonce_start as int,
                nonce_end as int,
                cores as int,
                i,
            ),
    ensures
        rs[0].start == nonce_start,
        rs[cores - 1].end == nonce_end,
        forall|i: int| 0 <= i < cores ==> #[trigger] rs[i].start <= rs[i].end,
        forall|i: int| 0 <= i < cores - 1 ==> #[trigger] rs[i].end == rs[i + 1].start,
        forall|i: int, j: int|
            0 <= i < j < cores ==> (#[trigger] rs[i]).end <= (#[trigger] rs[j]).start,
        forall|n: int| nonce_start <= n < nonce_end ==> #[trigger] some_range_contains(rs, n),
        forall|n: int, i: int|
            0 <= i < cores && #[trigger] rs[i].contains_spec(n) ==> nonce_start <= n < nonce_end,
        total_len(rs) == nonce_end - nonce_start,
{
    let (s, e, c) = (nonce_start as int, nonce_end as int, cores as int);
    assert forall|i: int| 0 <= i < c implies #[trigger] rs[i].start == sub_start(s, e, c, i) && rs[i].end
        == sub_end(s, e, c, i) && s <= rs[i].start <= rs[i].end <= e by {
        lemma_range_at(s, e, c, rs, i);
    }
    lemma_range_at(s, e, c, rs, 0);
    lemma_range_at(s, e, c, rs, c - 1);
    lemma_bounds(s, e, c, c);
    lemma_step(s, e, c, c - 1);
    assert forall|i: int| 0 <= i < c - 1 implies #[trigger] rs[i].end == rs[i + 1].start by {
        lemma_range_at(s, e, c, rs, i);
        lemma_range_at(s, e, c, rs, i + 1);
        lemma_step(s, e, c, i);
    }
    assert forall|i: int, j: int| 0 <= i < j < c implies (#[trigger] rs[i]).end <= (#[trigger] rs[j]).start by {
        lemma_range_at(s, e, c, rs, i);
        lemma_range_at(s, e, c, rs, j);
        lemma_ordered(s, e, c, i, j);
    }
    assert forall|n: int| s <= n < e implies #[trigger] some_range_contains(rs, n) by {
        lemma_bounds(s, e, c, 0);
        let i = lemma_find(s, e, c, n, 0);
        lemma_range_at(s, e, c, rs, i);
        assert(rs[i].contains_spec(n));
    }
    lemma_total_len_prefix(s, e, c, rs, c);
    lemma_prefix_sum(s, e, c, c);
    assert(rs.take(c) =~= rs);
}

proof fn lemma_range_at(s: int, e: int, c: int, rs: Seq<NonceRange>, i: int)
    requires
        0 <= s <= e <= u64::MAX,
        c >= 1,
        0 <= i < c,
        rs.len() == c,
        forall|k: int| 0 <= k < c ==> rs[k] == #[trigger] sub_range_spec(s, e, c, k),
    ensures
        rs[i].start == sub_start(s, e, c, i),
        rs[i].end == sub_end(s, e, c, i),
        s <= rs[i].start <= rs[i].end <= e,
{
    lemma_bounds(s, e, c, i);
    assert(rs[i] == sub_range_spec(s, e, c, i));
}

proof fn lemma_total_len_prefix(s: int, e: int, c: int, rs: Seq<NonceRange>, k: int)
    requires
        0 <= s <= e <= u64::MAX,
        c >= 1,
        rs.len() == c,
        0 <= k <= c,
        forall|i: int| 0 <= i < c ==> rs[i] == #[trigger] sub_range_spec(s, e, c, i),
    ensures
        total_len(rs.take(k)) == sum_lens(s, e, c, k),
    decreases k,
{
    if k > 0 {
        lemma_total_len_prefix(s, e, c, rs, k - 1);
        lemma_range_at(s, e, c, rs, k - 1);
        assert(rs.take(k).drop_last() =~= rs.take(k - 1));
        assert(rs.take(k).last() == rs[k - 1]);
    }
}

/// The sub-range of worker `index` when `[nonce_start, nonce_end)` is split
/// among `cores` workers: the first `(end - start) % cores` workers receive
/// one nonce more than the others, and the sub-ranges follow one another.
pub fn sub_range(nonce_start: u64, nonce_end: u64, cores: u64, index: u64) -> (r: NonceRange)
    requires
        nonce_start <= nonce_end,
        cores >= 1,
        index < cores,
    ensures
        r == sub_range_spec(nonce_start as int, nonce_end as int, cores as int, index as int),
{
    proof {
        lemma_bounds(nonce_start as int, nonce_end as int, cores as int, index as int);
        lemma_step(nonce_start as int, nonce_end as int, cores as int, index as int);
    }
    let total: u64 = nonce_end - nonce_start;
    let step: u64 = total / cores;
    let remainder: u64 = total % cores;
    let extra: u64 = if index < remainder { index } else { remainder };
    assert(index * step <= total) by (nonlinear_arith)
        requires
            index < cores,
            step == total / cores,
            cores * (total / cores) <= total,
    {
        vstd::arithmetic::div_mod::lemma_fundamental_div_mod(total as int, cores as int);
    }
    let start: u64 = nonce_start + index * step + extra;
    let len: u64 = step + if index < remainder { 1u64 } else { 0u64 };
    NonceRange { start, end: start + len }
}

/// Splits `[nonce_start, nonce_end)` into `cores` contiguous sub-ranges, one
/// per worker in worker-index order.
pub fn partition(nonce_start: u64, nonce_end: u64, cores: u64) -> (r: Vec<NonceRange>)
    requires
        nonce_start <= nonce_end,
        cores >= 1,
    ensures
        r@.len() == cores,
        forall|i: int|
            0 <= i < cores ==> r@[i] == #[trigger] sub_range_spec(
                nonce_start as int,
                nonce_end as int,
                cores as int,
                i,
            ),
{
    let mut ranges: Vec<NonceRange> = Vec::new();
    let mut i: u64 = 0;
    while i < cores
        invariant
            nonce_start <= nonce_end,
            cores >= 1,
            i <= cores,
            ranges@.len() == i,
            forall|k: int|
                0 <= k < i ==> ranges@[k] == #[trigger] sub_range_spec(
                    nonce_start as int,
                    nonce_end as int,
                    cores as int,
                    k,
                ),
        decreases cores - i,
    {
        ranges.push(sub_range(nonce_start, nonce_end, cores, i));
        i = i + 1;
    }
    ranges
}

} // verus!
