use analyze_stats::error::Error;
use analyze_stats::request::find_group_out_of_range;
use analyze_stats::request::AnalyzeColumnGroup;
use analyze_stats::request::AnalyzeColumnsReq;
use analyze_stats::request::ColumnInfo;
use analyze_stats::request::SampleRate;
use analyze_stats::row_base::BaseRowSampleCollector;
use analyze_stats::row_base::TraceEvent;
use analyze_stats::row_collector::RowSampleCollector;
use analyze_stats::row_sample::checked_row_size;
use analyze_stats::row_stats::AnalyzeSamplingResult;
use analyze_stats::row_stats::RowSampleBuilder;
use analyze_stats::row_stats::SampledRow;

fn column(string_like: bool) -> ColumnInfo {
    ColumnInfo {
        column_id: 1,
        pk_handle: false,
        string_like,
    }
}

fn request(columns: Vec<ColumnInfo>, groups: Vec<Vec<usize>>, sample_size: usize) -> AnalyzeColumnsReq {
    AnalyzeColumnsReq {
        bucket_size: 8,
        sample_size,
        sketch_size: 100,
        columns_info: columns,
        cmsketch_depth: 2,
        cmsketch_width: 16,
        primary_column_ids: Vec::new(),
        column_groups: groups
            .into_iter()
            .map(|column_offsets| AnalyzeColumnGroup { column_offsets })
            .collect(),
        sample_rate: SampleRate {
            numerator: 1,
            denominator: 1,
        },
        primary_prefix_column_ids: Vec::new(),
    }
}

fn row(vals: Vec<Vec<u8>>, keys: Vec<Vec<u8>>) -> SampledRow {
    let n = vals.len();
    SampledRow {
        column_vals: vals,
        collation_key_vals: keys,
        sort_key_shortcut: vec![false; n],
    }
}

#[test]
fn row_builder_refuses_a_request_without_columns() {
    let made = RowSampleBuilder::new(request(vec![], vec![], 10), false);
    assert!(matches!(made, Err(Error::EmptyColumnsInfo)));
}

#[test]
fn row_builder_refuses_a_group_out_of_range() {
    let made = RowSampleBuilder::new(
        request(
            vec![column(false), column(false)],
            vec![vec![0, 1], vec![1, 2], vec![5]],
            10,
        ),
        false,
    );
    assert!(matches!(made, Err(Error::GroupOutOfRange(1))));
}

#[test]
fn groups_out_of_range_are_found() {
    let groups: Vec<AnalyzeColumnGroup> = [vec![0usize, 1], vec![], vec![1, 3], vec![9]]
        .into_iter()
        .map(|column_offsets| AnalyzeColumnGroup { column_offsets })
        .collect();
    assert_eq!(find_group_out_of_range(&groups, 4), Some(3));
    assert_eq!(find_group_out_of_range(&groups, 3), Some(2));
    assert_eq!(find_group_out_of_range(&groups, 10), None);
    assert_eq!(find_group_out_of_range(&groups[..2], 2), None);
    assert_eq!(find_group_out_of_range(&groups, 0), Some(0));
    assert_eq!(find_group_out_of_range(&[], 0), None);
}

#[test]
fn row_builder_picks_the_sampler_by_sample_size() {
    let builder = RowSampleBuilder::new(request(vec![column(false)], vec![], 10), true).unwrap();
    assert!(builder.is_auto_analyze());
    assert!(matches!(
        builder.new_collector(),
        RowSampleCollector::Reservoir(_)
    ));
    let builder = RowSampleBuilder::new(request(vec![column(false)], vec![], 0), false).unwrap();
    assert!(!builder.is_auto_analyze());
    assert!(matches!(
        builder.new_collector(),
        RowSampleCollector::Bernoulli(_)
    ));
}

#[test]
fn base_collects_columns() {
    let infos = vec![column(false), column(true)];
    let mut base = BaseRowSampleCollector::new(10, 2);
    base.collect_column(
        &[vec![8u8, 1], vec![1u8, b'A']],
        &[vec![], vec![1u8, b'a']],
        &infos,
    );
    base.collect_column(
        &[vec![0u8], vec![1u8, b'a']],
        &[vec![], vec![1u8, b'a']],
        &infos,
    );
    assert_eq!(base.null_count(), &vec![1u64, 0]);
    assert_eq!(base.total_sizes(), &vec![1u64, 2]);
    // the second column enters its sketch by its sort key, which is the same twice
    assert_eq!(base.fm_sketches()[0].len(), 1);
    assert_eq!(base.fm_sketches()[1].len(), 1);
    assert_eq!(base.count(), 0);
}

#[test]
fn base_collects_groups() {
    let infos = vec![column(false), column(true), column(false)];
    let groups = vec![
        AnalyzeColumnGroup {
            column_offsets: vec![0, 1],
        },
        AnalyzeColumnGroup {
            column_offsets: vec![2],
        },
        AnalyzeColumnGroup {
            column_offsets: vec![0, 2],
        },
    ];
    let mut base = BaseRowSampleCollector::new(10, 6);
    let vals = vec![vec![8u8, 1, 1], vec![1u8, b'A'], vec![0u8]];
    let keys = vec![vec![], vec![1u8, b'a'], vec![]];
    base.collect_column_group(&vals, &keys, &infos, &groups);
    // group 0: payloads 2 + 1; group 1 has one member and is left alone;
    // group 2: the null member adds nothing
    assert_eq!(base.total_sizes(), &vec![0u64, 0, 0, 3, 0, 2]);
    assert_eq!(base.null_count(), &vec![0u64; 6]);
    let lens: Vec<usize> = base.fm_sketches().iter().map(|s| s.len()).collect();
    assert_eq!(lens, vec![0, 0, 0, 1, 0, 1]);
    // the key of group 0 is the encoding of column 0 joined with the sort key of column 1
    let mut expected = analyze_stats::fmsketch::FmSketch::new(10);
    expected.insert(&vec![8u8, 1, 1, 1, b'a']);
    assert_eq!(
        base.fm_sketches()[3].hash_values(),
        expected.hash_values()
    );
}

#[test]
fn row_builder_samples_a_batch() {
    let builder = RowSampleBuilder::new(
        request(
            vec![column(false), column(true)],
            vec![vec![1], vec![0, 1]],
            0,
        ),
        false,
    )
    .unwrap();
    let mut collector = builder.new_collector();
    let rows = vec![
        row(
            vec![vec![8u8, 1], vec![1u8, b'x', b'y']],
            vec![vec![], vec![1u8, b'X', b'Y']],
        ),
        row(vec![vec![0u8], vec![0u8]], vec![vec![], vec![0u8]]),
        row(
            vec![vec![8u8, 1], vec![1u8, b'X', b'Y']],
            vec![vec![], vec![1u8, b'X', b'Y']],
        ),
    ];
    let outcome = builder.collect_column_stats(&mut collector, &rows).unwrap();
    // the rate 1/1 picks every row; every column is read by its encoding
    assert_eq!(outcome.read_size, 5 + 2 + 5);
    assert!(outcome.events.is_empty());
    assert_eq!(collector.get_memory_usage(), 12);
    assert_eq!(collector.get_reported_memory_usage(), 0);
    let result = builder.finish(collector);
    let (resp, event) = result.into_proto();
    assert_eq!(event, TraceEvent::Sub(0));
    assert!(resp.collectors.is_empty());
    assert!(resp.pk_hist.is_none());
    let proto = resp.row_collector.unwrap();
    assert_eq!(proto.count, 3);
    assert_eq!(proto.samples.len(), 3);
    assert_eq!(proto.samples[1].row, vec![vec![0u8], vec![0u8]]);
    assert_eq!(proto.samples[0].weight, None);
    // columns 0 and 1, then the group of column 1 alone, which copies column 1,
    // then the group of both, which keeps no null count
    assert_eq!(proto.null_counts, vec![1u64, 1, 1, 0]);
    assert_eq!(proto.total_size, vec![2u64, 4, 4, 6]);
    let lens: Vec<usize> = proto.fm_sketch.iter().map(|s| s.hashset.len()).collect();
    assert_eq!(lens, vec![1, 1, 1, 2]);
    assert_eq!(proto.fm_sketch[1].hashset, proto.fm_sketch[2].hashset);
}

#[test]
fn row_builder_counts_sort_keys_of_rows_not_picked() {
    let mut req = request(vec![column(true)], vec![], 0);
    req.sample_rate = SampleRate {
        numerator: 0,
        denominator: 1,
    };
    let builder = RowSampleBuilder::new(req, false).unwrap();
    let mut collector = builder.new_collector();
    let rows = vec![SampledRow {
        column_vals: vec![vec![1u8, b'a', b'b', b'c']],
        collation_key_vals: vec![vec![1u8, b'A']],
        sort_key_shortcut: vec![true],
    }];
    let outcome = builder.collect_column_stats(&mut collector, &rows).unwrap();
    assert_eq!(outcome.read_size, 2);
    assert_eq!(collector.get_memory_usage(), 0);
    let (resp, _) = builder.finish(collector).into_proto();
    let proto = resp.row_collector.unwrap();
    assert!(proto.samples.is_empty());
    // the statistics took the row in although it was not sampled
    assert_eq!(proto.count, 1);
    assert_eq!(proto.total_size, vec![3u64]);
    assert_eq!(proto.fm_sketch[0].hashset.len(), 1);
}

#[test]
fn row_sampler_with_given_draws() {
    let infos = vec![column(false)];
    let builder = RowSampleBuilder::new(request(infos.clone(), vec![], 2), false).unwrap();
    let mut collector = builder.new_collector();
    for (draw, value) in [(5u64, 1u8), (9, 2), (3, 3), (7, 4)] {
        let vals = vec![vec![8u8, value]];
        let outcome = collector
            .sample_row_with(draw, &vals, &[vec![]], &infos, &[])
            .unwrap();
        assert_eq!(outcome.pick, draw != 3);
        assert_eq!(outcome.event, None);
    }
    assert_eq!(collector.get_memory_usage(), 4);
    let (proto, _) = collector.to_proto();
    assert_eq!(proto.count, 4);
    let kept: Vec<(Vec<Vec<u8>>, Option<i64>)> = proto
        .samples
        .into_iter()
        .map(|s| (s.row, s.weight))
        .collect();
    assert_eq!(
        kept,
        vec![
            (vec![vec![8u8, 2]], Some(9)),
            (vec![vec![8u8, 4]], Some(7))
        ]
    );
}

#[test]
fn row_sampler_reports_memory_as_it_grows() {
    let infos = vec![column(false)];
    let builder = RowSampleBuilder::new(request(infos, vec![], 0), false).unwrap();
    let mut collector = builder.new_collector();
    let big = vec![7u8; 700 * 1024];
    let rows: Vec<SampledRow> = (0..4).map(|_| row(vec![big.clone()], vec![vec![]])).collect();
    let outcome = builder.collect_column_stats(&mut collector, &rows).unwrap();
    assert_eq!(
        outcome.events,
        vec![
            TraceEvent::Add(1400 * 1024),
            TraceEvent::Add(1400 * 1024)
        ]
    );
    assert_eq!(collector.get_reported_memory_usage(), 2800 * 1024);
    assert_eq!(collector.release(), TraceEvent::Sub(2800 * 1024));
}

#[test]
fn row_size_is_the_sum_of_the_columns() {
    assert_eq!(checked_row_size(&[]), Some(0));
    assert_eq!(
        checked_row_size(&[vec![1u8, 2], vec![], vec![3u8]]),
        Some(3)
    );
}

#[test]
fn default_sampling_result_is_empty() {
    let (resp, event) = AnalyzeSamplingResult::default().into_proto();
    assert_eq!(event, TraceEvent::Sub(0));
    let proto = resp.row_collector.unwrap();
    assert!(proto.samples.is_empty());
    assert!(proto.null_counts.is_empty());
    assert_eq!(proto.count, 0);
}
