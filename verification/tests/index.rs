use analyze_stats::analyze::AnalyzeContext;
use analyze_stats::error::Error;
use analyze_stats::index_stats::handle_index;
use analyze_stats::index_stats::IndexStatsBuilder;
use analyze_stats::request::AnalyzeIndexReq;
use analyze_stats::top_n::offer;

fn request(version: Option<i32>, top_n_size: usize, num_columns: usize) -> AnalyzeIndexReq {
    AnalyzeIndexReq {
        bucket_size: 8,
        num_columns,
        cmsketch_depth: 4,
        cmsketch_width: 64,
        sketch_size: 100,
        top_n_size,
        version,
    }
}

fn entries(values: &[u8]) -> Vec<Vec<Vec<u8>>> {
    values.iter().map(|v| vec![vec![8u8, *v]]).collect()
}

#[test]
fn heavy_hitters_come_with_exact_counts() {
    let req = request(Some(2), 2, 1);
    let result = handle_index(&req, &entries(&[1, 1, 1, 2, 2, 5])).unwrap();
    let cms = result.cms().as_ref().unwrap();
    assert_eq!(
        cms.top_n(),
        &vec![(vec![8u8, 1], 3u64), (vec![8u8, 2], 2)]
    );
    // six values were counted, five of them were taken out again
    assert_eq!(cms.count(), 1);
    assert_eq!(cms.estimate(&vec![8u8, 1]), 0);
    assert_eq!(cms.estimate(&vec![8u8, 2]), 0);
    assert_eq!(cms.estimate(&vec![8u8, 5]), 1);
    let buckets = result.hist().buckets();
    assert_eq!(buckets.len(), 3);
    assert_eq!(buckets[0].repeats, 3);
    assert_eq!(buckets[1].repeats, 2);
    assert_eq!(buckets[2].count, 6);
    assert_eq!(result.fms().as_ref().unwrap().len(), 3);
}

#[test]
fn heavy_hitters_are_the_longest_runs() {
    let req = request(Some(2), 2, 1);
    let result = handle_index(&req, &entries(&[1, 2, 2, 3, 3, 3, 4, 4, 4, 4, 5])).unwrap();
    let cms = result.cms().as_ref().unwrap();
    assert_eq!(
        cms.top_n(),
        &vec![(vec![8u8, 4], 4u64), (vec![8u8, 3], 3)]
    );
    assert_eq!(cms.count(), 4);
}

#[test]
fn first_version_reports_no_heavy_hitters() {
    for version in [None, Some(1)] {
        let req = request(version, 2, 1);
        let result = handle_index(&req, &entries(&[1, 1, 1, 2, 2, 5])).unwrap();
        let cms = result.cms().as_ref().unwrap();
        assert!(cms.top_n().is_empty());
        assert_eq!(cms.count(), 6);
        assert_eq!(cms.estimate(&vec![8u8, 1]), 3);
        let buckets = result.hist().buckets();
        assert_eq!(buckets[0].count, 3);
        assert_eq!(buckets[0].repeats, 1);
    }
}

#[test]
fn no_heavy_hitters_where_none_are_asked_for() {
    let req = request(Some(2), 0, 1);
    let result = handle_index(&req, &entries(&[1, 1, 2])).unwrap();
    assert!(result.cms().as_ref().unwrap().top_n().is_empty());
    assert_eq!(result.cms().as_ref().unwrap().count(), 3);
}

#[test]
fn entry_without_a_column_is_an_error() {
    let req = request(Some(2), 2, 2);
    let rows = vec![
        vec![vec![8u8, 1], vec![8u8, 2]],
        vec![vec![8u8, 1]],
        vec![],
    ];
    match handle_index(&req, &rows) {
        Err(Error::MissingColumn(1)) => {}
        other => panic!("unexpected: {:?}", other.err()),
    }
    assert!(matches!(
        AnalyzeContext::handle_index(&req, &rows[2..]),
        Err(Error::MissingColumn(0))
    ));
    let mut builder = IndexStatsBuilder::new(&req);
    assert!(builder.push_entry(&rows[0]).is_ok());
    assert!(matches!(
        builder.push_entry(&rows[1]),
        Err(Error::MissingColumn(1))
    ));
    let result = builder.finish();
    assert_eq!(result.hist().buckets().len(), 1);
}

#[test]
fn an_entry_is_counted_once_by_its_joined_columns() {
    let req = request(Some(1), 0, 2);
    let rows = vec![
        vec![vec![1u8], vec![2u8], vec![9u8]],
        vec![vec![1u8], vec![3u8]],
    ];
    let result = handle_index(&req, &rows).unwrap();
    let cms = result.cms().as_ref().unwrap();
    // each entry counts once, as its first two columns joined; the third is not read
    assert_eq!(cms.count(), 2);
    assert_eq!(cms.estimate(&vec![1u8, 2]), 1);
    assert_eq!(cms.estimate(&vec![1u8, 3]), 1);
    assert_eq!(cms.estimate(&vec![1u8]), 0);
    assert_eq!(cms.estimate(&vec![1u8, 2, 9]), 0);
    let bounds: Vec<Vec<u8>> = result
        .hist()
        .buckets()
        .iter()
        .map(|b| b.upper_bound.clone())
        .collect();
    assert_eq!(bounds, vec![vec![1u8, 2], vec![1u8, 3]]);
    let resp = result.into_proto();
    assert_eq!(resp.hist.buckets.len(), 2);
    assert!(resp.cms.is_some());
    let collector = resp.collector.unwrap();
    assert_eq!(collector.fm_sketch.unwrap().hashset.len(), 2);
    assert!(collector.samples.is_empty());
    assert_eq!(collector.count, 0);
}

#[test]
fn index_without_matrix_has_no_count_min_sketch() {
    let mut req = request(Some(2), 2, 1);
    req.cmsketch_depth = 0;
    let result = handle_index(&req, &entries(&[1, 1, 2])).unwrap();
    assert!(result.cms().is_none());
    assert_eq!(result.fms().as_ref().unwrap().len(), 2);
    assert!(result.into_proto().cms.is_none());
}

#[test]
fn offers_keep_the_greatest_items() {
    let mut items: Vec<(u32, Vec<u8>)> = Vec::new();
    offer(&mut items, (2, vec![5u8]), 3);
    offer(&mut items, (7, vec![1u8]), 3);
    offer(&mut items, (2, vec![9u8]), 3);
    assert_eq!(
        items,
        vec![(7, vec![1u8]), (2, vec![9u8]), (2, vec![5u8])]
    );
    // too many: the least, by count and then by value, leaves
    offer(&mut items, (2, vec![7u8]), 3);
    assert_eq!(
        items,
        vec![(7, vec![1u8]), (2, vec![9u8]), (2, vec![7u8])]
    );
    offer(&mut items, (1, vec![0u8]), 3);
    assert_eq!(items.len(), 3);
    assert_eq!(items[2], (2, vec![7u8]));
    // a prefix sorts before what it is a prefix of
    offer(&mut items, (2, vec![7u8, 0]), 4);
    assert_eq!(items[2], (2, vec![7u8, 0]));
    assert_eq!(items[3], (2, vec![7u8]));
    offer(&mut items, (9, vec![]), 0);
    assert!(items.len() == 4);
}
