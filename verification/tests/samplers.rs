use std::collections::HashMap;

use analyze_stats::column_sample::SampleCollector;
use analyze_stats::request::SampleRate;
use analyze_stats::reservoir::ReservoirRowSampleCollector;
use analyze_stats::row_base::TraceEvent;
use analyze_stats::row_sample::BernoulliRowSampleCollector;

/// The encoding of a signed integer: the flag of a variable-length integer
/// and the zigzag varint of the number.
fn encode_i64(v: i64) -> Vec<u8> {
    let mut out = vec![8u8];
    let mut n = ((v << 1) ^ (v >> 63)) as u64;
    while n >= 0x80 {
        out.push((n as u8) | 0x80);
        n >>= 7;
    }
    out.push(n as u8);
    out
}

/// The encoding of a null: its flag alone.
fn encode_null() -> Vec<u8> {
    vec![0u8]
}

fn apply(sum: &mut i64, event: Option<TraceEvent>) {
    match event {
        Some(TraceEvent::Add(n)) => *sum += n as i64,
        Some(TraceEvent::Sub(n)) => *sum -= n as i64,
        None => {}
    }
}

#[test]
fn test_sample_collector() {
    let max_sample_size = 3;
    let max_fm_sketch_size = 10;
    let cm_sketch_depth = 2;
    let cm_sketch_width = 16;
    let mut sample = SampleCollector::new(
        max_sample_size,
        max_fm_sketch_size,
        cm_sketch_depth,
        cm_sketch_width,
    );
    let cases = vec![encode_i64(1), encode_null(), encode_i64(2), encode_i64(5)];

    for data in cases {
        sample.collect(data);
    }
    assert_eq!(sample.samples().len(), max_sample_size);
    assert_eq!(sample.null_count(), 1);
    assert_eq!(sample.count(), 3);
    assert_eq!(sample.cm_sketch().as_ref().unwrap().count(), 3);
    assert_eq!(sample.total_size(), 3)
}

#[test]
fn test_row_reservoir_sample_collector() {
    let sample_num = 20;
    let row_num = 100;
    let loop_cnt = 1000;
    let mut item_cnt: HashMap<Vec<u8>, usize> = HashMap::new();
    let mut nums: Vec<Vec<u8>> = Vec::with_capacity(row_num);
    for i in 0..row_num {
        nums.push(encode_i64(i as i64));
    }
    let mut memtrace: i64 = 0;
    for loop_i in 0..loop_cnt {
        let mut collector = ReservoirRowSampleCollector::new(sample_num, 1000, 1);
        for row in &nums {
            if collector.pick_sample() {
                apply(&mut memtrace, collector.push_sample(&[row.clone()]).unwrap());
            }
        }
        assert_eq!(collector.samples().len(), sample_num);
        for sample in collector.samples() {
            *item_cnt.entry(sample.1[0].clone()).or_insert(0) += 1;
        }

        // Test memory usage tracing is correct.
        apply(&mut memtrace, collector.report_memory_usage());
        assert_eq!(
            collector.base().reported_memory_usage(),
            collector.base().memory_usage()
        );
        if loop_i % 2 == 0 {
            let (_, event) = collector.to_proto();
            apply(&mut memtrace, Some(event));
            assert_eq!(collector.base().memory_usage(), 0);
            assert_eq!(memtrace, 0);
        }
        apply(&mut memtrace, Some(collector.release()));
        assert_eq!(memtrace, 0);
    }

    let exp_freq = sample_num as f64 * loop_cnt as f64 / row_num as f64;
    let delta = 0.5;
    for (_, v) in item_cnt.into_iter() {
        assert!(
            v as f64 >= exp_freq / (1.0 + delta) && v as f64 <= exp_freq * (1.0 + delta),
            "v: {}",
            v
        );
    }
}

#[test]
fn test_row_bernoulli_sample_collector() {
    let sample_num = 20;
    let row_num = 100;
    let loop_cnt = 1000;
    let mut item_cnt: HashMap<Vec<u8>, usize> = HashMap::new();
    let mut nums: Vec<Vec<u8>> = Vec::with_capacity(row_num);
    for i in 0..row_num {
        nums.push(encode_i64(i as i64));
    }
    let mut memtrace: i64 = 0;
    for loop_i in 0..loop_cnt {
        let mut collector = BernoulliRowSampleCollector::new(
            SampleRate {
                numerator: sample_num as u64,
                denominator: row_num as u64,
            },
            1000,
            1,
        );
        for row in &nums {
            if collector.pick_sample() {
                apply(&mut memtrace, collector.push_sample(&[row.clone()]).unwrap());
            }
        }
        for sample in collector.samples() {
            *item_cnt.entry(sample[0].clone()).or_insert(0) += 1;
        }

        // Test memory usage tracing is correct.
        apply(&mut memtrace, collector.report_memory_usage());
        assert_eq!(
            collector.base().reported_memory_usage(),
            collector.base().memory_usage()
        );
        if loop_i % 2 == 0 {
            let (_, event) = collector.to_proto();
            apply(&mut memtrace, Some(event));
            assert_eq!(collector.base().memory_usage(), 0);
            assert_eq!(memtrace, 0);
        }
        apply(&mut memtrace, Some(collector.release()));
        assert_eq!(memtrace, 0);
    }

    let exp_freq = sample_num as f64 * loop_cnt as f64 / row_num as f64;
    let delta = 0.5;
    for (_, v) in item_cnt.into_iter() {
        assert!(
            v as f64 >= exp_freq / (1.0 + delta) && v as f64 <= exp_freq * (1.0 + delta),
            "v: {}",
            v
        );
    }
}

#[test]
fn test_abnormal_sampling() {
    let sample_num = 0; // abnormal.
    let row_num = 100;
    let mut nums: Vec<Vec<u8>> = Vec::with_capacity(row_num);
    for i in 0..row_num {
        nums.push(encode_i64(i as i64));
    }
    {
        // Test for ReservoirRowSampleCollector
        let mut collector = ReservoirRowSampleCollector::new(sample_num, 1000, 1);
        for row in &nums {
            if collector.pick_sample() {
                collector.push_sample(&[row.clone()]).unwrap();
            }
        }
        assert_eq!(collector.samples().len(), 0);
    }
    {
        // Test for BernoulliRowSampleCollector
        let mut collector = BernoulliRowSampleCollector::new(
            SampleRate {
                numerator: sample_num as u64,
                denominator: row_num as u64,
            },
            1000,
            1,
        );
        for row in &nums {
            if collector.pick_sample() {
                collector.push_sample(&[row.clone()]).unwrap();
            }
        }
        assert_eq!(collector.samples().len(), 0);
    }
}

#[test]
fn column_reservoir_keeps_short_stream_whole() {
    let mut sample = SampleCollector::new(5, 10, 2, 16);
    let values = vec![encode_i64(7), encode_i64(-3), encode_i64(7), encode_i64(1000)];
    for v in &values {
        sample.collect(v.clone());
    }
    assert_eq!(sample.samples(), &values);
    assert_eq!(sample.count(), 4);
    assert_eq!(sample.null_count(), 0);
    // payloads: 1 + 1 + 1 + 2 bytes
    assert_eq!(sample.total_size(), 5);
}

#[test]
fn column_reservoir_stays_at_its_size() {
    for &max in &[0usize, 1, 3, 7] {
        let mut sample = SampleCollector::new(max, 10, 0, 0);
        for i in 0..50 {
            sample.collect(encode_i64(i));
            assert!(sample.samples().len() <= max);
        }
        assert_eq!(sample.samples().len(), max);
        assert_eq!(sample.count(), 50);
        assert!(sample.cm_sketch().is_none());
    }
}

#[test]
fn column_reservoir_with_given_draws() {
    let mut sample = SampleCollector::new(2, 10, 0, 0);
    sample.collect_with(encode_i64(1), (11, 0), 0, 0);
    sample.collect_with(encode_i64(2), (12, 0), 0, 0);
    assert_eq!(sample.samples(), &vec![encode_i64(1), encode_i64(2)]);
    // full: a draw of 2 is not below the size 2, so the value is not kept
    sample.collect_with(encode_i64(3), (13, 0), 2, 0);
    assert_eq!(sample.samples(), &vec![encode_i64(1), encode_i64(2)]);
    // a draw of 1 admits the value, which replaces the sample at 0
    sample.collect_with(encode_i64(4), (14, 0), 1, 0);
    assert_eq!(sample.samples(), &vec![encode_i64(2), encode_i64(4)]);
    assert_eq!(sample.count(), 4);
    assert_eq!(sample.fm_sketch().hash_values(), &vec![11u64, 12, 13, 14]);
}

#[test]
fn column_collector_leaves_nulls_out() {
    let mut sample = SampleCollector::new(4, 10, 2, 16);
    sample.collect(encode_i64(9));
    let hashes = sample.fm_sketch().hash_values().clone();
    let table = sample.cm_sketch().as_ref().unwrap().table().clone();
    for _ in 0..3 {
        sample.collect(encode_null());
    }
    assert_eq!(sample.null_count(), 3);
    assert_eq!(sample.count(), 1);
    assert_eq!(sample.total_size(), 1);
    assert_eq!(sample.samples().len(), 1);
    assert_eq!(sample.fm_sketch().hash_values(), &hashes);
    assert_eq!(sample.cm_sketch().as_ref().unwrap().table(), &table);
    assert_eq!(sample.cm_sketch().as_ref().unwrap().count(), 1);
}

#[test]
fn column_reservoir_samples_uniformly() {
    let sample_num = 20;
    let row_num = 100;
    let loop_cnt = 1000;
    let mut item_cnt: HashMap<Vec<u8>, usize> = HashMap::new();
    for _ in 0..loop_cnt {
        let mut sample = SampleCollector::new(sample_num, 10, 0, 0);
        for i in 0..row_num {
            sample.collect(encode_i64(i as i64));
        }
        assert_eq!(sample.samples().len(), sample_num);
        for s in sample.samples() {
            *item_cnt.entry(s.clone()).or_insert(0) += 1;
        }
    }
    let exp_freq = sample_num as f64 * loop_cnt as f64 / row_num as f64;
    let delta = 0.5;
    assert_eq!(item_cnt.len(), row_num);
    for (_, v) in item_cnt.into_iter() {
        assert!(
            v as f64 >= exp_freq / (1.0 + delta) && v as f64 <= exp_freq * (1.0 + delta),
            "v: {}",
            v
        );
    }
}

#[test]
fn bernoulli_full_rate_takes_every_row() {
    // every draw lies below the denominator 1, hence is 0 and below the numerator
    let mut collector = BernoulliRowSampleCollector::new(
        SampleRate {
            numerator: 1,
            denominator: 1,
        },
        10,
        1,
    );
    for i in 0..50 {
        assert!(collector.pick_sample());
        collector.push_sample(&[encode_i64(i)]).unwrap();
    }
    assert_eq!(collector.samples().len(), 50);
    assert_eq!(collector.samples()[7], vec![encode_i64(7)]);
}

#[test]
fn bernoulli_without_denominator_declines() {
    let mut collector = BernoulliRowSampleCollector::new(
        SampleRate {
            numerator: 5,
            denominator: 0,
        },
        10,
        1,
    );
    for _ in 0..20 {
        assert!(!collector.pick_sample());
    }
    assert!(!collector.pick_with(0));
}

#[test]
fn bernoulli_decides_by_the_draw() {
    let collector = BernoulliRowSampleCollector::new(
        SampleRate {
            numerator: 3,
            denominator: 10,
        },
        10,
        1,
    );
    assert!(collector.pick_with(0));
    assert!(collector.pick_with(2));
    assert!(!collector.pick_with(3));
    assert!(!collector.pick_with(9));
}

#[test]
fn reservoir_keeps_highest_priorities() {
    let mut collector = ReservoirRowSampleCollector::new(2, 10, 1);
    assert!(collector.pick_with(5));
    collector.push_sample(&[vec![1u8, 1]]).unwrap();
    assert!(collector.pick_with(9));
    collector.push_sample(&[vec![1u8, 2, 2]]).unwrap();
    assert_eq!(collector.base().memory_usage(), 5);
    // full: a priority that does not exceed the lowest weight is declined
    assert!(!collector.pick_with(5));
    assert!(!collector.pick_with(4));
    assert_eq!(collector.samples().len(), 2);
    // a higher priority evicts the sample of weight 5 and its two bytes
    assert!(collector.pick_with(7));
    assert_eq!(collector.samples().len(), 1);
    assert_eq!(collector.base().memory_usage(), 3);
    collector.push_sample(&[vec![1u8, 3, 3, 3]]).unwrap();
    assert_eq!(collector.base().memory_usage(), 7);
    let weights: Vec<i64> = collector.samples().iter().map(|s| s.0).collect();
    assert_eq!(weights, vec![9, 7]);
    assert_eq!(collector.samples()[1].1, vec![vec![1u8, 3, 3, 3]]);
    let (proto, event) = collector.to_proto();
    assert_eq!(event, TraceEvent::Sub(0));
    assert_eq!(proto.samples.len(), 2);
    assert_eq!(proto.samples[0].weight, Some(9));
    assert_eq!(proto.samples[0].row, vec![vec![1u8, 2, 2]]);
    assert_eq!(proto.samples[1].weight, Some(7));
    assert_eq!(collector.samples().len(), 0);
    assert_eq!(collector.base().memory_usage(), 0);
}

#[test]
fn reservoir_evicts_by_row_among_equal_weights() {
    let mut collector = ReservoirRowSampleCollector::new(3, 10, 1);
    for row in [vec![vec![1u8, 2]], vec![vec![1u8, 1, 9]], vec![vec![1u8, 3]]] {
        assert!(collector.pick_with(5));
        collector.push_sample(&row).unwrap();
    }
    assert_eq!(collector.base().memory_usage(), 7);
    assert!(!collector.pick_with(5));
    // of the three samples of weight 5 the one whose row sorts first leaves
    assert!(collector.pick_with(6));
    let rows: Vec<Vec<Vec<u8>>> = collector.samples().iter().map(|s| s.1.clone()).collect();
    assert_eq!(rows, vec![vec![vec![1u8, 2]], vec![vec![1u8, 3]]]);
    assert_eq!(collector.base().memory_usage(), 4);
    collector.push_sample(&[vec![1u8]]).unwrap();
    // the lighter weight goes before an earlier row
    assert!(collector.pick_with(8));
    let weights: Vec<i64> = collector.samples().iter().map(|s| s.0).collect();
    assert_eq!(weights, vec![6, 5]);
    assert_eq!(collector.samples()[1].1, vec![vec![1u8, 3]]);
}

#[test]
fn memory_is_reported_past_the_threshold() {
    let mut collector = BernoulliRowSampleCollector::new(
        SampleRate {
            numerator: 1,
            denominator: 1,
        },
        10,
        1,
    );
    let row = vec![vec![7u8; 600 * 1024]];
    // 600 KiB: not yet past one MiB
    assert_eq!(collector.push_sample(&row).unwrap(), None);
    assert_eq!(collector.base().memory_usage(), 600 * 1024);
    assert_eq!(collector.base().reported_memory_usage(), 0);
    // 1200 KiB: reported as a whole
    assert_eq!(
        collector.push_sample(&row).unwrap(),
        Some(TraceEvent::Add(1200 * 1024))
    );
    assert_eq!(collector.base().reported_memory_usage(), 1200 * 1024);
    assert_eq!(collector.push_sample(&row).unwrap(), None);
    assert_eq!(collector.report_memory_usage(), Some(TraceEvent::Add(600 * 1024)));
    assert_eq!(collector.report_memory_usage(), Some(TraceEvent::Add(0)));
    let (_, event) = collector.to_proto();
    assert_eq!(event, TraceEvent::Sub(1800 * 1024));
    assert_eq!(collector.base().memory_usage(), 0);
    assert_eq!(collector.base().reported_memory_usage(), 0);
    assert_eq!(collector.release(), TraceEvent::Sub(0));
}
