use analyze_stats::analyze::AnalyzeContext;
use analyze_stats::analyze::AnalyzePlan;
use analyze_stats::analyze::Statistics;
use analyze_stats::encoding::bytes_eq;
use analyze_stats::encoding::bytes_less;
use analyze_stats::encoding::is_null;
use analyze_stats::encoding::needs_canonical_form;
use analyze_stats::encoding::payload_size;
use analyze_stats::encoding::rows_less;
use analyze_stats::error::Error;
use analyze_stats::request::AnalyzeColumnGroup;
use analyze_stats::request::AnalyzeColumnsReq;
use analyze_stats::request::AnalyzeIndexReq;
use analyze_stats::request::AnalyzeReq;
use analyze_stats::request::AnalyzeType;
use analyze_stats::request::ColumnInfo;
use analyze_stats::request::KeyRange;

fn columns_request(columns: usize) -> AnalyzeColumnsReq {
    let mut req = AnalyzeColumnsReq::new();
    for i in 0..columns {
        req.columns_info.push(ColumnInfo {
            column_id: i as i64,
            pk_handle: false,
            string_like: false,
        });
    }
    req
}

fn context(tp: AnalyzeType, flags: u64, columns: Option<usize>) -> AnalyzeContext {
    let req = AnalyzeReq {
        tp,
        flags,
        idx_req: Some(AnalyzeIndexReq::new()),
        col_req: columns.map(columns_request),
    };
    let ranges = vec![KeyRange {
        start: vec![1u8],
        end: vec![2u8],
    }];
    AnalyzeContext::new(req, ranges).unwrap()
}

#[test]
fn request_of_the_system_session_is_recognised() {
    assert!(context(AnalyzeType::TypeIndex, 2048, None).is_auto_analyze());
    assert!(context(AnalyzeType::TypeIndex, 2048 | 1, None).is_auto_analyze());
    assert!(!context(AnalyzeType::TypeIndex, 0, None).is_auto_analyze());
    assert!(!context(AnalyzeType::TypeIndex, 1024 | 4096, None).is_auto_analyze());
}

#[test]
fn index_requests_scan_entries() {
    match context(AnalyzeType::TypeIndex, 0, None).plan_request() {
        Ok(AnalyzePlan::Index {
            ranges,
            is_common_handle,
            ..
        }) => {
            assert!(!is_common_handle);
            assert_eq!(ranges.len(), 1);
        }
        _ => panic!("an index request scans entries"),
    }
    match context(AnalyzeType::TypeCommonHandle, 0, None).plan_request() {
        Ok(AnalyzePlan::Index {
            is_common_handle, ..
        }) => assert!(is_common_handle),
        _ => panic!("a request for a composite key scans entries"),
    }
}

#[test]
fn table_requests_scan_rows() {
    assert!(matches!(
        context(AnalyzeType::TypeColumn, 0, Some(2)).plan_request(),
        Ok(AnalyzePlan::Column { .. })
    ));
    assert!(matches!(
        context(AnalyzeType::TypeMixed, 0, Some(2)).plan_request(),
        Ok(AnalyzePlan::Mixed { .. })
    ));
    match context(AnalyzeType::TypeFullSampling, 2048, Some(2)).plan_request() {
        Ok(AnalyzePlan::FullSampling { sampler, ranges }) => {
            assert!(sampler.is_auto_analyze());
            assert_eq!(ranges.len(), 1);
        }
        _ => panic!("a request for a sample scans rows"),
    }
}

#[test]
fn requests_without_columns_are_refused() {
    for tp in [
        AnalyzeType::TypeColumn,
        AnalyzeType::TypeMixed,
        AnalyzeType::TypeFullSampling,
    ] {
        assert!(matches!(
            context(tp, 0, Some(0)).plan_request(),
            Err(Error::EmptyColumnsInfo)
        ));
        assert!(matches!(
            context(tp, 0, None).plan_request(),
            Err(Error::EmptyColumnsInfo)
        ));
    }
}

#[test]
fn sampling_request_with_a_bad_group_is_refused() {
    let mut col_req = columns_request(2);
    col_req.column_groups.push(AnalyzeColumnGroup {
        column_offsets: vec![2],
    });
    let req = AnalyzeReq {
        tp: AnalyzeType::TypeFullSampling,
        flags: 0,
        idx_req: None,
        col_req: Some(col_req),
    };
    let mut ctx = AnalyzeContext::new(req, Vec::new()).unwrap();
    assert!(matches!(
        ctx.plan_request(),
        Err(Error::GroupOutOfRange(0))
    ));
}

#[test]
fn ranges_stay_where_nothing_is_planned() {
    let mut ctx = context(AnalyzeType::TypeSampleIndex, 0, Some(1));
    assert!(ctx.plan_request().is_err());
    assert_eq!(ctx.ranges().len(), 1);
    assert_eq!(ctx.ranges()[0].start, vec![1u8]);
    // the request is whole still: planning again gives the same answer
    assert!(matches!(ctx.plan_request(), Err(Error::NotImplemented)));
    let mut ctx = context(AnalyzeType::TypeIndex, 0, None);
    assert!(ctx.plan_request().is_ok());
    assert!(ctx.ranges().is_empty());
}

#[test]
fn sample_of_an_index_is_not_implemented() {
    let plan = context(AnalyzeType::TypeSampleIndex, 0, Some(1)).plan_request();
    let error = match plan {
        Err(e) => e,
        Ok(_) => panic!("nothing is planned for a sample of an index"),
    };
    assert!(matches!(error, Error::NotImplemented));
    let traced = AnalyzeContext::build_response(Err(error)).unwrap();
    assert_eq!(
        traced.response.other_error,
        "Analyze of this kind not implemented"
    );
    assert!(traced.response.data.is_empty());
    assert_eq!(traced.memory_size, 0);
}

#[test]
fn response_carries_the_answer() {
    let traced = AnalyzeContext::build_response(Ok(vec![1u8, 2, 3])).unwrap();
    assert_eq!(traced.response.data, vec![1u8, 2, 3]);
    assert_eq!(traced.response.other_error, "");
    assert_eq!(traced.memory_size, 3);
}

#[test]
fn response_carries_errors_of_the_data() {
    for (error, message) in [
        (Error::EmptyColumnsInfo, "empty columns_info"),
        (Error::Codec("datum is cut short".to_string()), "datum is cut short"),
        (
            Error::MissingColumn(3),
            "3th column is missing in datum buffer",
        ),
        (
            Error::GroupOutOfRange(1),
            "1th column group names a column out of range",
        ),
        (
            Error::MissingEncoding(120),
            "120th column lacks its canonical encoding or its sort key",
        ),
        (
            Error::MissingColumn(0),
            "0th column is missing in datum buffer",
        ),
        (
            Error::MissingColumn(usize::MAX),
            "18446744073709551615th column is missing in datum buffer",
        ),
        (
            Error::MissingIndexResponse,
            "Mixed analyze type should have index response.",
        ),
        (
            Error::MemoryExhausted,
            "sampled rows exceed the memory that can be accounted",
        ),
    ] {
        assert!(error.soft());
        assert_eq!(error.message(), message);
        let traced = AnalyzeContext::build_response(Err(error)).unwrap();
        assert_eq!(traced.response.other_error, message);
    }
}

#[test]
fn errors_of_the_scan_fail_the_call() {
    let error = Error::Storage("key is locked".to_string());
    assert!(!error.soft());
    assert_eq!(error.message(), "key is locked");
    match AnalyzeContext::build_response(Err(error)) {
        Err(Error::Storage(text)) => assert_eq!(text, "key is locked"),
        _ => panic!("an error of the scan is handed on"),
    }
}

#[test]
fn scan_statistics_are_handed_on_once() {
    let mut ctx = context(AnalyzeType::TypeIndex, 0, None);
    ctx.record_scan_statistics(&Statistics {
        processed_keys: 3,
        read_keys: 4,
        read_bytes: 50,
    });
    ctx.record_scan_statistics(&Statistics {
        processed_keys: 1,
        read_keys: 1,
        read_bytes: u64::MAX,
    });
    let mut dest = Statistics {
        processed_keys: 10,
        read_keys: 0,
        read_bytes: 7,
    };
    ctx.collect_scan_statistics(&mut dest);
    assert_eq!(
        dest,
        Statistics {
            processed_keys: 14,
            read_keys: 5,
            read_bytes: u64::MAX,
        }
    );
    ctx.collect_scan_statistics(&mut dest);
    assert_eq!(dest.processed_keys, 14);
    assert_eq!(Statistics::default().read_keys, 0);
}

#[test]
fn flags_of_encodings() {
    assert!(is_null(&vec![0u8]));
    assert!(is_null(&vec![0u8, 1]));
    assert!(!is_null(&vec![8u8, 0]));
    assert!(!is_null(&vec![]));
    for flag in [3u8, 4, 7] {
        assert!(needs_canonical_form(&vec![flag, 0, 0, 0, 0, 0, 0, 0, 1]));
    }
    for flag in [0u8, 1, 2, 5, 6, 8, 9, 10] {
        assert!(!needs_canonical_form(&vec![flag, 1]));
    }
    assert!(!needs_canonical_form(&vec![]));
    assert_eq!(payload_size(&vec![8u8, 1, 2]), 2);
    assert_eq!(payload_size(&vec![0u8]), 0);
    assert_eq!(payload_size(&vec![]), 0);
}

#[test]
fn order_of_rows() {
    let cases: Vec<(Vec<Vec<u8>>, Vec<Vec<u8>>)> = vec![
        (vec![], vec![]),
        (vec![], vec![vec![]]),
        (vec![vec![1]], vec![vec![1], vec![]]),
        (vec![vec![1, 2]], vec![vec![1], vec![9]]),
        (vec![vec![1], vec![2, 0]], vec![vec![1], vec![2]]),
        (vec![vec![3], vec![4]], vec![vec![3], vec![4]]),
    ];
    for (a, b) in cases {
        assert_eq!(rows_less(&a, &b), a < b);
        assert_eq!(rows_less(&b, &a), b < a);
    }
}

#[test]
fn order_of_encodings() {
    let cases: Vec<(Vec<u8>, Vec<u8>)> = vec![
        (vec![], vec![]),
        (vec![], vec![0]),
        (vec![1], vec![1, 0]),
        (vec![1, 2], vec![1, 3]),
        (vec![1, 255], vec![2]),
        (vec![3, 1, 4], vec![3, 1, 4]),
        (vec![9], vec![1, 1, 1]),
    ];
    for (a, b) in cases {
        assert_eq!(bytes_less(&a, &b), a < b);
        assert_eq!(bytes_less(&b, &a), b < a);
        assert_eq!(bytes_eq(&a, &b), a == b);
    }
}
