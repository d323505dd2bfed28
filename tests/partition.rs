use pool_miner::partition::{partition, sub_range, NonceRange};

fn bounds(ranges: &[NonceRange]) -> Vec<(u64, u64)> {
    ranges.iter().map(|r| (r.start, r.end)).collect()
}

#[test]
fn even_split_of_one_hundred_among_four() {
    let r = partition(0, 100, 4);
    assert_eq!(bounds(&r), vec![(0, 25), (25, 50), (50, 75), (75, 100)]);
}

#[test]
fn remainder_goes_to_first_workers() {
    let r = partition(0, 10, 3);
    let lens: Vec<u64> = r.iter().map(|x| x.end - x.start).collect();
    assert_eq!(lens, vec![4, 3, 3]);
    assert_eq!(lens.iter().sum::<u64>(), 10);
    assert_eq!(bounds(&r), vec![(0, 4), (4, 7), (7, 10)]);
}

#[test]
fn more_workers_than_nonces() {
    let r = partition(7, 9, 4);
    assert_eq!(bounds(&r), vec![(7, 8), (8, 9), (9, 9), (9, 9)]);
}

#[test]
fn empty_range() {
    let r = partition(5, 5, 3);
    assert_eq!(bounds(&r), vec![(5, 5), (5, 5), (5, 5)]);
}

#[test]
fn single_worker_takes_everything() {
    let r = partition(3, 17, 1);
    assert_eq!(bounds(&r), vec![(3, 17)]);
}

#[test]
fn coverage_on_uneven_split() {
    let (s, e, c) = (1_000u64, 123_457u64, 7u64);
    let r = partition(s, e, c);
    assert_eq!(r.len(), 7);
    assert_eq!(r[0].start, s);
    assert_eq!(r[6].end, e);
    for i in 0..6 {
        assert_eq!(r[i].end, r[i + 1].start);
    }
    let total: u64 = r.iter().map(|x| x.end - x.start).sum();
    assert_eq!(total, e - s);
}

#[test]
fn full_u64_range_does_not_overflow() {
    let r = partition(0, u64::MAX, 3);
    assert_eq!(r[0].start, 0);
    assert_eq!(r[2].end, u64::MAX);
    assert_eq!(bounds(&r)[0], (0, 6148914691236517205));
}

#[test]
fn sub_range_matches_partition() {
    let r = partition(0, 10, 3);
    for i in 0..3u64 {
        assert_eq!(sub_range(0, 10, 3, i), r[i as usize]);
    }
}
