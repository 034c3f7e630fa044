use analyze_stats::analyze::AnalyzeContext;
use analyze_stats::column_stats::value_to_count;
use analyze_stats::column_stats::SampleBuilder;
use analyze_stats::column_stats::TableRow;
use analyze_stats::error::Error;
use analyze_stats::request::AnalyzeColumnsReq;
use analyze_stats::request::AnalyzeIndexReq;
use analyze_stats::request::ColumnInfo;
use analyze_stats::request::SampleRate;

fn plain_row(columns: Vec<Vec<u8>>) -> TableRow {
    let n = columns.len();
    TableRow {
        columns,
        canonical: vec![None; n],
        sort_keys: vec![None; n],
    }
}

fn column(pk_handle: bool) -> ColumnInfo {
    ColumnInfo {
        column_id: 1,
        pk_handle,
        string_like: false,
    }
}

fn request(columns: Vec<ColumnInfo>, primary: Vec<i64>) -> AnalyzeColumnsReq {
    AnalyzeColumnsReq {
        bucket_size: 8,
        sample_size: 10,
        sketch_size: 100,
        columns_info: columns,
        cmsketch_depth: 2,
        cmsketch_width: 16,
        primary_column_ids: primary,
        column_groups: Vec::new(),
        sample_rate: SampleRate {
            numerator: 0,
            denominator: 1,
        },
        primary_prefix_column_ids: Vec::new(),
    }
}

fn index_request(version: Option<i32>, top_n_size: usize) -> AnalyzeIndexReq {
    AnalyzeIndexReq {
        bucket_size: 0,
        num_columns: 0,
        cmsketch_depth: 0,
        cmsketch_width: 0,
        sketch_size: 0,
        top_n_size,
        version,
    }
}

#[test]
fn column_builder_refuses_a_request_without_columns() {
    assert!(matches!(
        SampleBuilder::new(request(vec![], vec![]), None),
        Err(Error::EmptyColumnsInfo)
    ));
}

#[test]
fn column_builder_feeds_the_primary_key_histogram() {
    let mut builder =
        SampleBuilder::new(request(vec![column(true), column(false)], vec![]), None).unwrap();
    assert_eq!(builder.columns_without_handle_len(), 1);
    let rows: Vec<TableRow> = (1..=4u8)
        .map(|i| plain_row(vec![vec![3u8, i], vec![8u8, i % 2]]))
        .collect();
    builder.collect_columns_stats(&rows).unwrap();
    let (col_res, idx_res) = builder.finish();
    assert!(idx_res.is_none());
    assert_eq!(col_res.pk_hist().buckets().len(), 4);
    assert_eq!(col_res.pk_hist().buckets()[3].count, 4);
    assert_eq!(col_res.pk_hist().buckets()[3].upper_bound, vec![3u8, 4]);
    let collector = &col_res.sample_collectors()[0];
    assert_eq!(collector.count(), 4);
    assert_eq!(collector.samples().len(), 4);
    assert_eq!(collector.fm_sketch().len(), 2);
    assert_eq!(collector.total_size(), 4);
    let resp = col_res.into_proto();
    assert_eq!(resp.collectors.len(), 1);
    assert_eq!(resp.collectors[0].count, 4);
    assert_eq!(resp.pk_hist.unwrap().buckets.len(), 4);
    assert!(resp.row_collector.is_none());
}

#[test]
fn column_builder_without_primary_key_in_the_scan() {
    let mut builder =
        SampleBuilder::new(request(vec![column(false), column(false)], vec![]), None).unwrap();
    assert_eq!(builder.columns_without_handle_len(), 2);
    let row = plain_row(vec![vec![8u8, 1], vec![0u8]]);
    builder.collect_row(&row).unwrap();
    let (col_res, _) = builder.finish();
    assert!(col_res.pk_hist().buckets().is_empty());
    assert_eq!(col_res.sample_collectors()[0].count(), 1);
    assert_eq!(col_res.sample_collectors()[1].count(), 0);
    assert_eq!(col_res.sample_collectors()[1].null_count(), 1);
    let resp = col_res.into_proto();
    let counts: Vec<u64> = resp.collectors.iter().map(|c| c.count).collect();
    assert_eq!(counts, vec![1, 0]);
}

#[test]
fn column_builder_scans_the_composite_key_in_the_same_pass() {
    let mut builder = SampleBuilder::new(
        request(vec![column(false), column(false)], vec![7, 8]),
        Some(index_request(Some(2), 1)),
    )
    .unwrap();
    let rows: Vec<TableRow> = [(1u8, 1u8), (1, 1), (1, 2), (2, 2), (2, 2), (2, 2)]
        .iter()
        .map(|(a, b)| plain_row(vec![vec![8u8, *a], vec![8u8, *b]]))
        .collect();
    // the runs go on from one batch to the next
    builder.collect_columns_stats(&rows[..4]).unwrap();
    builder.collect_columns_stats(&rows[4..]).unwrap();
    let resp = AnalyzeContext::handle_mixed(builder).unwrap();
    let cms = resp.index_resp.cms.unwrap();
    assert_eq!(cms.top_n, vec![(vec![8u8, 2, 8, 2], 3u64)]);
    assert_eq!(resp.index_resp.hist.buckets.len(), 3);
    assert_eq!(resp.index_resp.hist.buckets[2].repeats, 3);
    assert_eq!(resp.columns_resp.collectors.len(), 2);
    assert_eq!(resp.columns_resp.collectors[0].count, 6);
}

#[test]
fn column_builder_refuses_a_short_row() {
    let mut builder = SampleBuilder::new(
        request(vec![column(false), column(false)], vec![7, 8]),
        Some(index_request(None, 0)),
    )
    .unwrap();
    let short_key = plain_row(vec![vec![8u8, 1]]);
    assert!(matches!(
        builder.collect_row(&short_key),
        Err(Error::MissingColumn(1))
    ));
    let no_answers = TableRow {
        columns: vec![vec![8u8, 1], vec![8u8, 1]],
        canonical: vec![None],
        sort_keys: vec![None, None],
    };
    assert!(matches!(
        builder.collect_columns_stats(&[no_answers]),
        Err(Error::MissingEncoding(1))
    ));
    let no_sort_keys = TableRow {
        columns: vec![vec![8u8, 1], vec![8u8, 1]],
        canonical: vec![None, None],
        sort_keys: vec![],
    };
    assert!(matches!(
        builder.collect_row(&no_sort_keys),
        Err(Error::MissingEncoding(0))
    ));
    // the second column is scanned as a fixed-width integer and comes
    // without its canonical encoding
    let not_canonical = plain_row(vec![vec![8u8, 1], vec![3u8, 0, 0, 0, 0, 0, 0, 0, 1]]);
    assert!(matches!(
        builder.collect_row(&not_canonical),
        Err(Error::MissingEncoding(1))
    ));
    let (col_res, idx_res) = builder.finish();
    assert_eq!(col_res.sample_collectors()[0].count(), 0);
    assert!(idx_res.unwrap().hist().buckets().is_empty());
}

#[test]
fn mixed_answer_needs_index_statistics() {
    let builder = SampleBuilder::new(request(vec![column(false)], vec![]), None).unwrap();
    assert!(matches!(
        AnalyzeContext::handle_mixed(builder),
        Err(Error::MissingIndexResponse)
    ));
    let builder = SampleBuilder::new(request(vec![column(false)], vec![]), None).unwrap();
    let resp = AnalyzeContext::handle_column(builder).unwrap();
    assert_eq!(resp.collectors.len(), 1);
}

#[test]
fn column_builder_counts_canonical_encodings_and_sort_keys() {
    let mut req = request(vec![column(true), column(false), column(false)], vec![]);
    req.columns_info[2].string_like = true;
    let mut builder = SampleBuilder::new(req, None).unwrap();
    assert_eq!(builder.sampled_info().len(), 2);
    assert!(builder.sampled_info()[1].string_like);
    let fixed = vec![3u8, 128, 0, 0, 0, 0, 0, 0, 7];
    let rows = vec![
        TableRow {
            columns: vec![vec![3u8, 1], fixed.clone(), vec![1u8, b'a']],
            canonical: vec![Some(vec![8u8, 14]), None],
            sort_keys: vec![None, Some(vec![1u8, b'A'])],
        },
        TableRow {
            columns: vec![vec![3u8, 2], vec![8u8, 14], vec![1u8, b'A']],
            canonical: vec![None, None],
            sort_keys: vec![None, Some(vec![1u8, b'A'])],
        },
        TableRow {
            columns: vec![vec![3u8, 3], vec![0u8], vec![0u8]],
            canonical: vec![None, None],
            sort_keys: vec![None, None],
        },
    ];
    assert_eq!(
        builder.sampled_columns(&rows[0].columns),
        &rows[0].columns[1..]
    );
    builder.collect_columns_stats(&rows).unwrap();
    let (col_res, _) = builder.finish();
    let integers = &col_res.sample_collectors()[0];
    // the fixed-width value is counted by its canonical form, which the
    // second row holds as scanned
    assert_eq!(integers.samples(), &vec![vec![8u8, 14], vec![8u8, 14]]);
    assert_eq!(integers.fm_sketch().len(), 1);
    assert_eq!(integers.total_size(), 2);
    assert_eq!(integers.null_count(), 1);
    let texts = &col_res.sample_collectors()[1];
    // both texts are counted by the one sort key; the null as it is
    assert_eq!(texts.samples(), &vec![vec![1u8, b'A'], vec![1u8, b'A']]);
    assert_eq!(texts.fm_sketch().len(), 1);
    assert_eq!(texts.null_count(), 1);
    assert_eq!(col_res.pk_hist().buckets().len(), 3);
}

#[test]
fn values_are_counted_by_the_right_bytes() {
    let plain = column(false);
    let mut text = column(false);
    text.string_like = true;
    let canonical = Some(vec![8u8, 2]);
    let key = Some(vec![1u8, b'K']);
    for flag in [3u8, 4, 7] {
        let scanned = vec![flag, 0, 0, 0, 0, 0, 0, 0, 1];
        assert_eq!(
            value_to_count(&plain, &scanned, &canonical, &None),
            Some(vec![8u8, 2])
        );
        assert_eq!(value_to_count(&plain, &scanned, &None, &key), None);
    }
    for flag in [0u8, 1, 2, 5, 6, 8, 9, 10] {
        let scanned = vec![flag, 9];
        assert_eq!(
            value_to_count(&plain, &scanned, &canonical, &key),
            Some(scanned.clone())
        );
    }
    assert_eq!(
        value_to_count(&text, &vec![1u8, b'k'], &None, &key),
        Some(vec![1u8, b'K'])
    );
    assert_eq!(value_to_count(&text, &vec![1u8, b'k'], &None, &None), None);
    assert_eq!(
        value_to_count(&text, &vec![0u8], &None, &key),
        Some(vec![0u8])
    );
    assert_eq!(
        value_to_count(&text, &vec![3u8, 1], &Some(vec![0u8]), &key),
        Some(vec![0u8])
    );
}
