//! The handler of analyze requests: picks the builder that a request asks
//! for, turns what the builder made into an answer, and shapes the response.

use crate::column_stats::columns_record;
use crate::column_stats::AnalyzeMixedResult;
use crate::column_stats::ColumnStatistics;
use crate::column_stats::SampleBuilder;
use crate::error::Error;
use crate::index_stats::entries_view;
use crate::index_stats::first_short;
use crate::index_stats::handle_index;
use crate::index_stats::IndexStatistics;
use crate::proto::AnalyzeColumnsResp;
use crate::proto::AnalyzeIndexResp;
use crate::proto::AnalyzeMixedResp;
use crate::request::AnalyzeColumnsReq;
use crate::request::AnalyzeIndexReq;
use crate::request::AnalyzeReq;
use crate::request::AnalyzeType;
use crate::request::KeyRange;
use crate::row_base::TraceEvent;
use crate::row_collector::RowSampleCollector;
use crate::row_stats::RowSampleBuilder;
use crate::row_stats::RowSamplePlan;
use vstd::prelude::*;

verus! {

/// The flag of a request that comes from the system's own session.
pub const REQ_FLAG_TIDB_SYSSESSION: u64 = 2048;

/// What a scan has cost.
#[derive(Clone, Copy, Debug, PartialEq, Eq, Structural)]
pub struct Statistics {
    pub processed_keys: u64,
    pub read_keys: u64,
    pub read_bytes: u64,
}

impl Statistics {
    /// The cost of both scans together, each count stopping at the largest
    /// it can hold.
    pub open spec fn plus(self, other: Statistics) -> Statistics {
        Statistics {
            processed_keys: self.processed_keys.saturating_add(other.processed_keys),
            read_keys: self.read_keys.saturating_add(other.read_keys),
            read_bytes: self.read_bytes.saturating_add(other.read_bytes),
        }
    }

    /// The cost of no scan.
    pub open spec fn zero() -> Statistics {
        Statistics { processed_keys: 0, read_keys: 0, read_bytes: 0 }
    }

    /// Adds the cost of another scan.
    pub fn add(&mut self, other: &Statistics)
        ensures
            *final(self) == old(self).plus(*other),
    {
        self.processed_keys = self.processed_keys.saturating_add(other.processed_keys);
        self.read_keys = self.read_keys.saturating_add(other.read_keys);
        self.read_bytes = self.read_bytes.saturating_add(other.read_bytes);
    }
}

impl Default for Statistics {
    fn default() -> (stats: Statistics)
        ensures
            stats == Statistics::zero(),
    {
        Statistics { processed_keys: 0, read_keys: 0, read_bytes: 0 }
    }
}

/// The response to a request: the answer in bytes, or the message of an
/// error that the response carries.
pub struct Response {
    pub data: Vec<u8>,
    pub other_error: String,
}

/// A response with the memory it is accounted to take.
pub struct TracedResponse {
    pub response: Response,
    pub memory_size: usize,
}

/// What is to be done for a request.
pub enum AnalyzePlan {
    /// Scan the entries of an index, or of a composite primary key, in the
    /// ranges given.
    Index { req: AnalyzeIndexReq, ranges: Vec<KeyRange>, is_common_handle: bool },
    /// Scan the rows of the table for the statistics of its columns.
    Column { builder: SampleBuilder, ranges: Vec<KeyRange> },
    /// Scan the rows of the table for the statistics of its columns and of
    /// its composite primary key.
    Mixed { builder: SampleBuilder, ranges: Vec<KeyRange> },
    /// Scan the rows of the table for a sample of them.
    FullSampling { sampler: RowSampleBuilder, ranges: Vec<KeyRange> },
}

/// The index request of a request, or the one in which nothing is set.
pub open spec fn index_req_of(req: Option<AnalyzeIndexReq>) -> AnalyzeIndexReq {
    match req {
        Some(r) => r,
        None => AnalyzeIndexReq {
            bucket_size: 0,
            num_columns: 0,
            cmsketch_depth: 0,
            cmsketch_width: 0,
            sketch_size: 0,
            top_n_size: 0,
            version: None,
        },
    }
}

/// The request names at least one column.
pub open spec fn has_columns(req: AnalyzeReq) -> bool {
    req.col_req matches Some(c) && c.columns_info@.len() > 0
}

/// `plan` is what is to be done for the request: for each kind of request
/// the scan it asks for, with the parts of the request and the ranges, or
/// the error for which nothing can be done.
pub open spec fn planned(
    req: AnalyzeReq,
    ranges: Seq<KeyRange>,
    is_auto_analyze: bool,
    plan: Result<AnalyzePlan, Error>,
) -> bool {
    match req.tp {
        AnalyzeType::TypeIndex | AnalyzeType::TypeCommonHandle => plan matches Ok(
            AnalyzePlan::Index { req: index, ranges: taken, is_common_handle },
        ) && index == index_req_of(req.idx_req) && taken@ == ranges && is_common_handle == (
        req.tp == AnalyzeType::TypeCommonHandle),
        AnalyzeType::TypeColumn => if has_columns(req) {
            plan matches Ok(AnalyzePlan::Column { builder, ranges: taken }) && builder@.wf()
                && builder@ == ColumnStatistics::start(req.col_req->Some_0, None) && taken@
                == ranges
        } else {
            plan matches Err(e) && e == Error::EmptyColumnsInfo
        },
        AnalyzeType::TypeMixed => if has_columns(req) {
            plan matches Ok(AnalyzePlan::Mixed { builder, ranges: taken }) && builder@.wf()
                && builder@ == ColumnStatistics::start(
                req.col_req->Some_0,
                Some(index_req_of(req.idx_req)),
            ) && taken@ == ranges
        } else {
            plan matches Err(e) && e == Error::EmptyColumnsInfo
        },
        AnalyzeType::TypeFullSampling => if !has_columns(req) {
            plan matches Err(e) && e == Error::EmptyColumnsInfo
        } else {
            match RowSamplePlan::refusal(req.col_req->Some_0) {
                Some(refusal) => plan matches Err(e) && e == refusal,
                None => plan matches Ok(AnalyzePlan::FullSampling { sampler, ranges: taken })
                    && sampler@.wf() && sampler@ == RowSamplePlan::of(
                    req.col_req->Some_0,
                    is_auto_analyze,
                ) && taken@ == ranges,
            }
        },
        AnalyzeType::TypeSampleIndex => plan matches Err(e) && e == Error::NotImplemented,
    }
}

/// The request after its parts were taken for what is to be done: the
/// index request for a scan of entries, the columns request for a scan of
/// rows, both for a scan that serves both, and nothing where nothing is
/// done.
pub open spec fn taken(req: AnalyzeReq) -> AnalyzeReq {
    match req.tp {
        AnalyzeType::TypeIndex | AnalyzeType::TypeCommonHandle => AnalyzeReq {
            idx_req: None,
            ..req
        },
        AnalyzeType::TypeColumn | AnalyzeType::TypeFullSampling => AnalyzeReq {
            col_req: None,
            ..req
        },
        AnalyzeType::TypeMixed => AnalyzeReq { idx_req: None, col_req: None, ..req },
        AnalyzeType::TypeSampleIndex => req,
    }
}

/// The handler of one analyze request.
pub struct AnalyzeContext {
    req: AnalyzeReq,
    ranges: Vec<KeyRange>,
    storage_stats: Statistics,
    is_auto_analyze: bool,
}

impl AnalyzeContext {
    /// The request as it stands: its parts leave it when they are planned.
    pub closed spec fn request(&self) -> AnalyzeReq {
        self.req
    }

    /// The ranges to scan, until they are planned.
    pub closed spec fn key_ranges(&self) -> Seq<KeyRange> {
        self.ranges@
    }

    /// The request comes from the system's own session.
    pub closed spec fn auto_analyze(&self) -> bool {
        self.is_auto_analyze
    }

    /// The cost of the scans made so far and not yet handed on.
    pub closed spec fn scan_statistics(&self) -> Statistics {
        self.storage_stats
    }

    /// A handler for the request. The request counts as the system's own
    /// where its flags say so.
    pub fn new(req: AnalyzeReq, ranges: Vec<KeyRange>) -> (made: Result<AnalyzeContext, Error>)
        ensures
            made matches Ok(ctx) && ctx.request() == req && ctx.key_ranges() == ranges@
                && ctx.auto_analyze() == (req.flags & REQ_FLAG_TIDB_SYSSESSION > 0)
                && ctx.scan_statistics() == Statistics::zero(),
    {
        let is_auto_analyze = req.flags & REQ_FLAG_TIDB_SYSSESSION > 0;
        Ok(AnalyzeContext { req, ranges, storage_stats: Statistics::default(), is_auto_analyze })
    }

    /// The ranges to scan, until they are planned.
    pub fn ranges(&self) -> (ranges: &Vec<KeyRange>)
        ensures
            ranges@ == self.key_ranges(),
    {
        &self.ranges
    }

    /// Whether the request comes from the system's own session.
    pub fn is_auto_analyze(&self) -> (r: bool)
        ensures
            r == self.auto_analyze(),
    {
        self.is_auto_analyze
    }

    /// Decides what is to be done for the request, and takes the request's
    /// parts and ranges for it. A request for the statistics of an index
    /// or of a composite primary key is answered by a scan of entries;
    /// one for columns, for columns and key together, or for a sample, by
    /// a scan of rows with the builder made for it, if the request lets
    /// one be made. A sample of an index is not implemented: the request
    /// and the ranges stay with the handler as they were.
    pub fn plan_request(&mut self) -> (plan: Result<AnalyzePlan, Error>)
        ensures
            final(self).scan_statistics() == old(self).scan_statistics(),
            final(self).auto_analyze() == old(self).auto_analyze(),
            final(self).request() == taken(old(self).request()),
            final(self).key_ranges() == if old(self).request().tp
                == AnalyzeType::TypeSampleIndex {
                old(self).key_ranges()
            } else {
                Seq::<KeyRange>::empty()
            },
            planned(
                old(self).request(),
                old(self).key_ranges(),
                old(self).auto_analyze(),
                plan,
            ),
    {
        let mut ranges: Vec<KeyRange> = Vec::new();
        match self.req.tp {
            AnalyzeType::TypeIndex | AnalyzeType::TypeCommonHandle => {
                let req = match self.req.idx_req.take() {
                    Some(r) => r,
                    None => AnalyzeIndexReq::new(),
                };
                std::mem::swap(&mut ranges, &mut self.ranges);
                let is_common_handle = match self.req.tp {
                    AnalyzeType::TypeCommonHandle => true,
                    _ => false,
                };
                Ok(AnalyzePlan::Index { req, ranges, is_common_handle })
            },
            AnalyzeType::TypeColumn => {
                let col_req = match self.req.col_req.take() {
                    Some(r) => r,
                    None => AnalyzeColumnsReq::new(),
                };
                std::mem::swap(&mut ranges, &mut self.ranges);
                match SampleBuilder::new(col_req, None) {
                    Ok(builder) => Ok(AnalyzePlan::Column { builder, ranges }),
                    Err(e) => Err(e),
                }
            },
            AnalyzeType::TypeMixed => {
                let col_req = match self.req.col_req.take() {
                    Some(r) => r,
                    None => AnalyzeColumnsReq::new(),
                };
                let idx_req = match self.req.idx_req.take() {
                    Some(r) => r,
                    None => AnalyzeIndexReq::new(),
                };
                std::mem::swap(&mut ranges, &mut self.ranges);
                match SampleBuilder::new(col_req, Some(idx_req)) {
                    Ok(builder) => Ok(AnalyzePlan::Mixed { builder, ranges }),
                    Err(e) => Err(e),
                }
            },
            AnalyzeType::TypeFullSampling => {
                let col_req = match self.req.col_req.take() {
                    Some(r) => r,
                    None => AnalyzeColumnsReq::new(),
                };
                std::mem::swap(&mut ranges, &mut self.ranges);
                match RowSampleBuilder::new(col_req, self.is_auto_analyze) {
                    Ok(sampler) => Ok(AnalyzePlan::FullSampling { sampler, ranges }),
                    Err(e) => Err(e),
                }
            },
            AnalyzeType::TypeSampleIndex => Err(Error::NotImplemented),
        }
    }

    /// Builds the statistics of an index from its entries in key order and
    /// turns them into the answer.
    pub fn handle_index(req: &AnalyzeIndexReq, entries: &[Vec<Vec<u8>>]) -> (done: Result<
        AnalyzeIndexResp,
        Error,
    >)
        ensures
            done is Err <==> first_short(entries_view(entries@), req.num_columns as nat)
                < entries@.len(),
            done matches Err(e) ==> e == Error::MissingColumn(
                entries_view(entries@)[first_short(
                    entries_view(entries@),
                    req.num_columns as nat,
                )].len() as usize,
            ),
            done matches Ok(resp) ==> resp@ == IndexStatistics::start(*req).collect_all(
                entries_view(entries@),
            ).finish().record(),
    {
        match handle_index(req, entries) {
            Ok(result) => Ok(result.into_proto()),
            Err(e) => Err(e),
        }
    }

    /// Ends a scan for column statistics and turns what the builder made
    /// into the answer.
    pub fn handle_column(builder: SampleBuilder) -> (done: Result<AnalyzeColumnsResp, Error>)
        requires
            builder@.wf(),
        ensures
            done matches Ok(resp) && resp@ == columns_record(builder@.finish().0),
    {
        let (col_res, _) = builder.finish();
        Ok(col_res.into_proto())
    }

    /// Ends a scan for the statistics of columns and composite primary key
    /// and turns what the builder made into the answer. A builder that was
    /// not asked for the key's statistics has none to give, which is an
    /// error.
    pub fn handle_mixed(builder: SampleBuilder) -> (done: Result<AnalyzeMixedResp, Error>)
        requires
            builder@.wf(),
        ensures
            done is Ok <==> builder@.analyze_common_handle,
            done matches Err(e) ==> e == Error::MissingIndexResponse,
            done matches Ok(resp) ==> resp@ == (
                builder@.common_handle.finish().record(),
                columns_record(builder@.finish().0),
            ),
    {
        let (col_res, idx_res) = builder.finish();
        match idx_res {
            Some(idx) => Ok(AnalyzeMixedResult::new(col_res, idx).into_proto()),
            None => Err(Error::MissingIndexResponse),
        }
    }

    /// Ends a scan for a sample of rows and turns what the sampler holds
    /// into the answer; the event gives back the memory that the sampler
    /// had reported.
    pub fn handle_full_sampling(builder: &RowSampleBuilder, collector: RowSampleCollector) -> (done:
        Result<(AnalyzeColumnsResp, TraceEvent), Error>)
        requires
            builder@.wf(),
            collector@.wf(),
            collector@.base().len() == builder@.len(),
        ensures
            done matches Ok(out) && out.0.row_collector matches Some(record) && record@
                == builder@.finish(collector@).record() && out.1 == TraceEvent::Sub(
                collector@.base().reported_memory_usage,
            ),
    {
        let sample_res = builder.finish(collector);
        Ok(sample_res.into_proto())
    }

    /// Shapes the response. An answer goes into a response with the
    /// memory it takes. An error that describes the request or the data
    /// goes into a response as its message. An error of the scan fails the
    /// call.
    pub fn build_response(ret: Result<Vec<u8>, Error>) -> (done: Result<TracedResponse, Error>)
        ensures
            match ret {
                Ok(data) => done matches Ok(traced) && traced.response.data@ == data@
                    && traced.response.other_error@.len() == 0 && traced.memory_size
                    == data@.len(),
                Err(e) => if e.is_soft() {
                    done matches Ok(traced) && traced.response.data@.len() == 0
                        && traced.memory_size == 0 && traced.response.other_error@
                        == e.words()
                } else {
                    done == Err::<TracedResponse, Error>(e)
                },
            },
    {
        match ret {
            Ok(data) => {
                let memory_size = data.len();
                Ok(
                    TracedResponse {
                        response: Response { data, other_error: String::new() },
                        memory_size,
                    },
                )
            },
            Err(e) => {
                if e.soft() {
                    Ok(
                        TracedResponse {
                            response: Response { data: Vec::new(), other_error: e.message() },
                            memory_size: 0,
                        },
                    )
                } else {
                    Err(e)
                }
            },
        }
    }

    /// Takes the cost of a scan into the handler's account.
    pub fn record_scan_statistics(&mut self, stats: &Statistics)
        ensures
            final(self).scan_statistics() == old(self).scan_statistics().plus(*stats),
            final(self).request() == old(self).request(),
            final(self).key_ranges() == old(self).key_ranges(),
            final(self).auto_analyze() == old(self).auto_analyze(),
    {
        self.storage_stats.add(stats);
    }

    /// Hands the cost of the scans made so far on to `dest` and starts the
    /// handler's account afresh.
    pub fn collect_scan_statistics(&mut self, dest: &mut Statistics)
        ensures
            *final(dest) == old(dest).plus(old(self).scan_statistics()),
            final(self).scan_statistics() == Statistics::zero(),
            final(self).request() == old(self).request(),
            final(self).key_ranges() == old(self).key_ranges(),
            final(self).auto_analyze() == old(self).auto_analyze(),
    {
        dest.add(&self.storage_stats);
        self.storage_stats = Statistics::default();
    }
}

} // verus!
