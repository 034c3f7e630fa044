//! The records in which finished statistics leave the library, field for
//! field as they go on the wire.

use crate::cmsketch::matrix_view;
use crate::cmsketch::top_n_view;
use crate::cmsketch::CountMin;
use crate::encoding::values_view;
use crate::fmsketch::DistinctValues;
use crate::histogram::buckets_view;
use crate::histogram::Bucket;
use crate::histogram::BucketView;
use vstd::prelude::*;

verus! {

/// A distinct-value sketch: the retained hashes, smallest first.
pub struct FmSketchProto {
    pub hashset: Vec<u64>,
}

/// A count-min sketch: the counters row by row, and the heavy hitters.
pub struct CmSketchProto {
    pub rows: Vec<Vec<u32>>,
    pub top_n: Vec<(Vec<u8>, u64)>,
}

/// A histogram: its buckets in order.
pub struct HistogramProto {
    pub buckets: Vec<Bucket>,
}

/// The statistics and the sample of one column.
pub struct SampleCollectorProto {
    pub samples: Vec<Vec<u8>>,
    pub null_count: u64,
    pub count: u64,
    pub fm_sketch: Option<FmSketchProto>,
    pub cm_sketch: Option<CmSketchProto>,
    pub total_size: u64,
}

/// One sampled row, with its weight where the sampler assigns one.
pub struct RowSampleProto {
    pub row: Vec<Vec<u8>>,
    pub weight: Option<i64>,
}

/// The sampled rows with the per-column and per-group statistics.
pub struct RowSampleCollectorProto {
    pub samples: Vec<RowSampleProto>,
    pub null_counts: Vec<u64>,
    pub count: u64,
    pub fm_sketch: Vec<FmSketchProto>,
    pub total_size: Vec<u64>,
}

/// The answer to a request for column statistics.
pub struct AnalyzeColumnsResp {
    pub collectors: Vec<SampleCollectorProto>,
    pub pk_hist: Option<HistogramProto>,
    pub row_collector: Option<RowSampleCollectorProto>,
}

/// The answer to a request for index statistics.
pub struct AnalyzeIndexResp {
    pub hist: HistogramProto,
    pub cms: Option<CmSketchProto>,
    pub collector: Option<SampleCollectorProto>,
}

/// The answer to a request for both in one pass.
pub struct AnalyzeMixedResp {
    pub index_resp: AnalyzeIndexResp,
    pub columns_resp: AnalyzeColumnsResp,
}

impl View for FmSketchProto {
    type V = Seq<u64>;

    open spec fn view(&self) -> Seq<u64> {
        self.hashset@
    }
}

/// What a count-min record holds.
pub struct CmSketchRecord {
    pub rows: Seq<Seq<u32>>,
    pub top_n: Seq<(Seq<u8>, u64)>,
}

impl View for CmSketchProto {
    type V = CmSketchRecord;

    open spec fn view(&self) -> CmSketchRecord {
        CmSketchRecord { rows: matrix_view(self.rows@), top_n: top_n_view(self.top_n@) }
    }
}

impl View for HistogramProto {
    type V = Seq<BucketView>;

    open spec fn view(&self) -> Seq<BucketView> {
        buckets_view(self.buckets@)
    }
}

/// The record of a sketch, where there is one.
pub open spec fn fm_record(sketch: Option<FmSketchProto>) -> Option<Seq<u64>> {
    match sketch {
        Some(s) => Some(s@),
        None => None,
    }
}

/// The record of a sketch, where there is one.
pub open spec fn cm_record(sketch: Option<CmSketchProto>) -> Option<CmSketchRecord> {
    match sketch {
        Some(s) => Some(s@),
        None => None,
    }
}

/// What the record of one column holds.
pub struct SampleCollectorRecord {
    pub samples: Seq<Seq<u8>>,
    pub null_count: u64,
    pub count: u64,
    pub fm_sketch: Option<Seq<u64>>,
    pub cm_sketch: Option<CmSketchRecord>,
    pub total_size: u64,
}

impl View for SampleCollectorProto {
    type V = SampleCollectorRecord;

    open spec fn view(&self) -> SampleCollectorRecord {
        SampleCollectorRecord {
            samples: values_view(self.samples@),
            null_count: self.null_count,
            count: self.count,
            fm_sketch: fm_record(self.fm_sketch),
            cm_sketch: cm_record(self.cm_sketch),
            total_size: self.total_size,
        }
    }
}

impl View for RowSampleProto {
    type V = (Seq<Seq<u8>>, Option<i64>);

    open spec fn view(&self) -> (Seq<Seq<u8>>, Option<i64>) {
        (values_view(self.row@), self.weight)
    }
}

/// What the record of a row sampler holds.
pub struct RowSampleCollectorRecord {
    pub samples: Seq<(Seq<Seq<u8>>, Option<i64>)>,
    pub null_counts: Seq<u64>,
    pub count: u64,
    pub fm_sketch: Seq<Seq<u64>>,
    pub total_size: Seq<u64>,
}

impl View for RowSampleCollectorProto {
    type V = RowSampleCollectorRecord;

    open spec fn view(&self) -> RowSampleCollectorRecord {
        RowSampleCollectorRecord {
            samples: Seq::new(self.samples@.len(), |i: int| self.samples@[i]@),
            null_counts: self.null_counts@,
            count: self.count,
            fm_sketch: Seq::new(self.fm_sketch@.len(), |i: int| self.fm_sketch@[i]@),
            total_size: self.total_size@,
        }
    }
}

/// The record of a histogram, where there is one.
pub open spec fn hist_record(hist: Option<HistogramProto>) -> Option<Seq<BucketView>> {
    match hist {
        Some(h) => Some(h@),
        None => None,
    }
}

/// The record of a column, where there is one.
pub open spec fn collector_record(collector: Option<SampleCollectorProto>) -> Option<
    SampleCollectorRecord,
> {
    match collector {
        Some(c) => Some(c@),
        None => None,
    }
}

/// The record of a row sampler, where there is one.
pub open spec fn row_collector_record(collector: Option<RowSampleCollectorProto>) -> Option<
    RowSampleCollectorRecord,
> {
    match collector {
        Some(c) => Some(c@),
        None => None,
    }
}

/// What an answer on columns holds.
pub struct AnalyzeColumnsRecord {
    pub collectors: Seq<SampleCollectorRecord>,
    pub pk_hist: Option<Seq<BucketView>>,
    pub row_collector: Option<RowSampleCollectorRecord>,
}

impl View for AnalyzeColumnsResp {
    type V = AnalyzeColumnsRecord;

    open spec fn view(&self) -> AnalyzeColumnsRecord {
        AnalyzeColumnsRecord {
            collectors: Seq::new(self.collectors@.len(), |i: int| self.collectors@[i]@),
            pk_hist: hist_record(self.pk_hist),
            row_collector: row_collector_record(self.row_collector),
        }
    }
}

/// What an answer on an index holds.
pub struct AnalyzeIndexRecord {
    pub hist: Seq<BucketView>,
    pub cms: Option<CmSketchRecord>,
    pub collector: Option<SampleCollectorRecord>,
}

impl View for AnalyzeIndexResp {
    type V = AnalyzeIndexRecord;

    open spec fn view(&self) -> AnalyzeIndexRecord {
        AnalyzeIndexRecord {
            hist: self.hist@,
            cms: cm_record(self.cms),
            collector: collector_record(self.collector),
        }
    }
}

impl View for AnalyzeMixedResp {
    type V = (AnalyzeIndexRecord, AnalyzeColumnsRecord);

    open spec fn view(&self) -> (AnalyzeIndexRecord, AnalyzeColumnsRecord) {
        (self.index_resp@, self.columns_resp@)
    }
}

/// The record of a distinct-value sketch.
pub open spec fn fm_sketch_record(sketch: DistinctValues) -> Seq<u64> {
    sketch.hashes
}

/// The record of a count-min sketch.
pub open spec fn cm_sketch_record(sketch: CountMin) -> CmSketchRecord {
    CmSketchRecord { rows: sketch.table, top_n: sketch.top_n }
}

} // verus!
