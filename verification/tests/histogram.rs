use analyze_stats::histogram::Bucket;
use analyze_stats::histogram::Histogram;

fn shape(hist: &Histogram) -> Vec<(Vec<u8>, u64, u64)> {
    hist.buckets()
        .iter()
        .map(|b: &Bucket| (b.upper_bound.clone(), b.count, b.repeats))
        .collect()
}

#[test]
fn histogram_counts_repeats_in_exact_mode() {
    let mut hist = Histogram::new(4);
    for v in [1u8, 1, 1, 2, 2, 5] {
        hist.append(&vec![v], true);
    }
    assert_eq!(
        shape(&hist),
        vec![(vec![1u8], 3, 3), (vec![2u8], 5, 2), (vec![5u8], 6, 1)]
    );
    assert_eq!(hist.buckets_num(), 4);
}

#[test]
fn histogram_leaves_repeats_alone_otherwise() {
    let mut hist = Histogram::new(4);
    for v in [1u8, 1, 1, 2, 2, 5] {
        hist.append(&vec![v], false);
    }
    assert_eq!(
        shape(&hist),
        vec![(vec![1u8], 3, 1), (vec![2u8], 5, 1), (vec![5u8], 6, 1)]
    );
}

#[test]
fn histogram_merges_the_lightest_neighbours() {
    let mut hist = Histogram::new(3);
    for v in [1u8, 2, 2, 2, 2, 2, 3] {
        hist.append(&vec![v], true);
    }
    assert_eq!(
        shape(&hist),
        vec![(vec![1u8], 1, 1), (vec![2u8], 6, 5), (vec![3u8], 7, 1)]
    );
    // a fourth bucket: the pairs weigh 6, 6 and 2, so 3 and 4 become one
    hist.append(&vec![4u8], true);
    assert_eq!(
        shape(&hist),
        vec![(vec![1u8], 1, 1), (vec![2u8], 6, 5), (vec![4u8], 8, 1)]
    );
    hist.append(&vec![4u8], true);
    assert_eq!(hist.buckets()[2].repeats, 2);
    assert_eq!(hist.buckets()[2].count, 9);
}

#[test]
fn histogram_merges_the_first_of_equal_pairs() {
    let mut hist = Histogram::new(3);
    for v in [1u8, 2, 3, 4] {
        hist.append(&vec![v], false);
    }
    // all pairs weigh 2: the first pair, 1 and 2, becomes one
    assert_eq!(
        shape(&hist),
        vec![(vec![2u8], 2, 1), (vec![3u8], 3, 1), (vec![4u8], 4, 1)]
    );
}

#[test]
fn histogram_stays_within_its_buckets() {
    for &max in &[1usize, 2, 5, 64] {
        let mut hist = Histogram::new(max);
        for i in 0..300u32 {
            let v = (i / 3).to_be_bytes().to_vec();
            hist.append(&v, i % 2 == 0);
            assert!(hist.buckets().len() <= max);
            let counts: Vec<u64> = hist.buckets().iter().map(|b| b.count).collect();
            assert!(counts.windows(2).all(|w| w[0] <= w[1]));
            assert_eq!(*counts.last().unwrap(), i as u64 + 1);
            let bounds: Vec<&Vec<u8>> = hist.buckets().iter().map(|b| &b.upper_bound).collect();
            assert!(bounds.windows(2).all(|w| w[0] < w[1]));
        }
        assert_eq!(hist.buckets().last().unwrap().upper_bound, 99u32.to_be_bytes().to_vec());
    }
}

#[test]
fn histogram_without_room_keeps_one_bucket() {
    let mut hist = Histogram::new(0);
    assert!(hist.buckets().is_empty());
    for v in [1u8, 2, 3] {
        hist.append(&vec![v], true);
        assert_eq!(hist.buckets().len(), 1);
    }
    assert_eq!(shape(&hist), vec![(vec![3u8], 3, 1)]);
    let proto = hist.into_proto();
    assert_eq!(proto.buckets.len(), 1);
    assert_eq!(proto.buckets[0].count, 3);
}

#[test]
fn histogram_exact_repeats_survive_merges() {
    let mut hist = Histogram::new(2);
    let stream = [1u8, 1, 2, 3, 3, 3, 4, 5, 5];
    for v in stream {
        hist.append(&vec![v], true);
    }
    for b in hist.buckets() {
        let occurrences = stream.iter().filter(|v| vec![**v] == b.upper_bound).count();
        assert_eq!(b.repeats, occurrences as u64);
    }
    assert_eq!(hist.buckets().last().unwrap().count, 9);
}
