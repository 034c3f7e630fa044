use analyze_stats::cmsketch::CmSketch;
use analyze_stats::fmsketch::FmSketch;

#[test]
fn fm_sketch_keeps_smallest_hashes() {
    let mut s = FmSketch::new(2);
    s.insert_hash_value(5);
    assert_eq!(s.hash_values(), &vec![5u64]);
    s.insert_hash_value(3);
    assert_eq!(s.hash_values(), &vec![3u64, 5]);
    s.insert_hash_value(9);
    assert_eq!(s.hash_values(), &vec![3u64, 5]);
    s.insert_hash_value(1);
    assert_eq!(s.hash_values(), &vec![1u64, 3]);
    s.insert_hash_value(3);
    assert_eq!(s.hash_values(), &vec![1u64, 3]);
    assert_eq!(s.len(), 2);
    assert_eq!(s.max_size(), 2);
}

#[test]
fn fm_sketch_never_exceeds_capacity() {
    for &k in &[0usize, 1, 4, 16] {
        let mut s = FmSketch::new(k);
        let mut x: u64 = 0x9e37_79b9_7f4a_7c15;
        let mut seen: Vec<u64> = Vec::new();
        for _ in 0..500 {
            x = x.wrapping_mul(6364136223846793005).wrapping_add(1442695040888963407);
            let h = x >> 40;
            s.insert_hash_value(h);
            seen.push(h);
            assert!(s.len() <= k);
        }
        seen.sort();
        seen.dedup();
        seen.truncate(k);
        assert_eq!(s.hash_values(), &seen);
    }
}

#[test]
fn fm_sketch_duplicates_retain_one() {
    let mut s = FmSketch::new(8);
    for _ in 0..100 {
        s.insert_hash_value(42);
    }
    assert_eq!(s.hash_values(), &vec![42u64]);
    let mut by_value = FmSketch::new(8);
    for _ in 0..100 {
        by_value.insert(&b"same".to_vec());
    }
    assert_eq!(by_value.len(), 1);
}

#[test]
fn fm_sketch_hashes_values_with_murmur3() {
    let mut s = FmSketch::new(4);
    s.insert(&b"hello".to_vec());
    assert_eq!(s.hash_values(), &vec![0xcbd8_a7b3_41bd_9b02u64]);
    s.insert(&b"hello, world".to_vec());
    assert_eq!(
        s.hash_values(),
        &vec![0x342f_ac62_3a5e_bc8eu64, 0xcbd8_a7b3_41bd_9b02]
    );
    s.insert(&Vec::new());
    assert_eq!(s.hash_values()[0], 0);
}

#[test]
fn fm_sketch_merge_keeps_smallest_of_both() {
    let mut a = FmSketch::new(3);
    for h in [1u64, 5, 9] {
        a.insert_hash_value(h);
    }
    let mut b = FmSketch::new(3);
    for h in [2u64, 3, 5, 100] {
        b.insert_hash_value(h);
    }
    assert_eq!(b.hash_values(), &vec![2u64, 3, 5]);
    a.merge(&b);
    assert_eq!(a.hash_values(), &vec![1u64, 2, 3]);
    let copy = a.clone();
    assert_eq!(copy.hash_values(), a.hash_values());
    assert_eq!(copy.max_size(), 3);
    assert_eq!(a.into_proto().hashset, vec![1u64, 2, 3]);
}

#[test]
fn cm_sketch_needs_depth_and_width() {
    assert!(CmSketch::new(0, 16).is_none());
    assert!(CmSketch::new(2, 0).is_none());
    assert!(CmSketch::new(0, 0).is_none());
    let c = CmSketch::new(2, 3).unwrap();
    assert_eq!(c.depth(), 2);
    assert_eq!(c.width(), 3);
    assert_eq!(c.count(), 0);
    assert_eq!(c.table(), &vec![vec![0u32; 3]; 2]);
    assert!(c.top_n().is_empty());
}

#[test]
fn cm_sketch_slots_follow_the_digest() {
    let mut c = CmSketch::new(3, 7).unwrap();
    // rows 0, 1, 2 select (3 + 5 * row) % 7 = 3, 1, 6
    c.insert_hash(3, 5);
    assert_eq!(
        c.table(),
        &vec![
            vec![0u32, 0, 0, 1, 0, 0, 0],
            vec![0, 1, 0, 0, 0, 0, 0],
            vec![0, 0, 0, 0, 0, 0, 1]
        ]
    );
    assert_eq!(c.count(), 1);
    assert_eq!(c.estimate_hash(3, 5), 1);
    assert_eq!(c.estimate_hash(4, 0), 0);
    // the sums wrap: u64::MAX + 2 is 1, u64::MAX + 4 is 3
    c.insert_hash(u64::MAX, 2);
    assert_eq!(c.table()[0][(u64::MAX % 7) as usize], 1);
    assert_eq!(c.table()[1][1], 2);
    assert_eq!(c.table()[2][3], 1);
    assert_eq!(c.count(), 2);
}

#[test]
fn cm_sketch_counts_values_by_murmur3() {
    let mut c = CmSketch::new(2, 16).unwrap();
    let hello = b"hello".to_vec();
    c.insert(&hello);
    // digest (0xcbd8a7b341bd9b02, 0x5b1e906a48ae1d19): slots 0x02 and (0x02 + 0x19) % 16
    assert_eq!(c.table()[0][2], 1);
    assert_eq!(c.table()[1][11], 1);
    assert_eq!(c.table()[0].iter().sum::<u32>(), 1);
    assert_eq!(c.table()[1].iter().sum::<u32>(), 1);
    c.insert(&hello);
    c.insert(&hello);
    assert_eq!(c.estimate(&hello), 3);
    assert_eq!(c.count(), 3);
}

#[test]
fn cm_sketch_subtracts_and_promotes() {
    let mut c = CmSketch::new(2, 8).unwrap();
    for _ in 0..5 {
        c.insert_hash(1, 1);
    }
    c.insert_hash(2, 0);
    assert_eq!(c.estimate_hash(1, 1), 5);
    c.subtract_hash(1, 1, 3);
    assert_eq!(c.estimate_hash(1, 1), 2);
    assert_eq!(c.count(), 3);
    // counters and total stop at zero
    c.subtract_hash(1, 1, 10);
    assert_eq!(c.estimate_hash(1, 1), 0);
    assert_eq!(c.count(), 0);
    assert_eq!(c.estimate_hash(2, 0), 0);
    c.promote_heavy_hitter(vec![9u8, 9], 5);
    c.promote_heavy_hitter(vec![1u8], 2);
    assert_eq!(c.top_n(), &vec![(vec![9u8, 9], 5u64), (vec![1u8], 2)]);
    let proto = c.into_proto();
    assert_eq!(proto.top_n.len(), 2);
    assert_eq!(proto.rows.len(), 2);
    assert_eq!(proto.rows[0].len(), 8);
}

#[test]
fn cm_sketch_estimate_is_the_smallest_counter() {
    let mut c = CmSketch::new(2, 4).unwrap();
    // (0, 1) selects slots 0 and 1; (0, 2) selects 0 and 2; (4, 1) selects 0 and 1
    c.insert_hash(0, 1);
    c.insert_hash(0, 2);
    c.insert_hash(0, 2);
    assert_eq!(c.table()[0][0], 3);
    assert_eq!(c.estimate_hash(0, 1), 1);
    assert_eq!(c.estimate_hash(0, 2), 2);
    assert_eq!(c.estimate_hash(4, 1), 1);
    assert_eq!(c.estimate_hash(0, 3), 0);
}
