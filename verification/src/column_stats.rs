//! Builder of column statistics: one pass over the rows of a table feeds a
//! histogram of the integer primary key, a collector for each other column
//! and, where asked for, the statistics of a composite primary key.

use crate::column_sample::ColumnSample;
use crate::column_sample::SampleCollector;
use crate::encoding::has_canonical_form;
use crate::encoding::is_null_value;
use crate::encoding::needs_canonical_form;
use crate::encoding::values_view;
use crate::error::Error;
use crate::hashing::murmur3_x64_128;
use crate::histogram::lemma_append_wf;
use crate::histogram::Buckets;
use crate::histogram::Histogram;
use crate::proto::AnalyzeColumnsRecord;
use crate::proto::AnalyzeColumnsResp;
use crate::proto::AnalyzeMixedResp;
use crate::proto::SampleCollectorProto;
use crate::index_stats::AnalyzeIndexResult;
use crate::index_stats::IndexResult;
use crate::index_stats::IndexStatistics;
use crate::index_stats::IndexStatsBuilder;
use crate::request::AnalyzeColumnsReq;
use crate::request::AnalyzeIndexReq;
use crate::request::string_like_flags;
use crate::request::ColumnInfo;
use vstd::prelude::*;
use vstd::slice::slice_subrange;

verus! {

/// One scanned row of a table, with what the codec made of its columns.
pub struct TableRow {
    /// The encoding of each scanned column, the integer primary key first
    /// where the scan yields it.
    pub columns: Vec<Vec<u8>>,
    /// For each column but the integer primary key, the canonical
    /// variable-length encoding of its value, where the value is scanned
    /// in a fixed-width encoding that has one.
    pub canonical: Vec<Option<Vec<u8>>>,
    /// For each column but the integer primary key, the encoded sort key
    /// of its value, where the column is compared under a collation and
    /// the value is not null.
    pub sort_keys: Vec<Option<Vec<u8>>>,
}

/// What a scanned row holds.
pub struct TableRowView {
    pub columns: Seq<Seq<u8>>,
    pub canonical: Seq<Option<Seq<u8>>>,
    pub sort_keys: Seq<Option<Seq<u8>>>,
}

/// The views of a list of answers of the codec.
pub open spec fn answers_view(answers: Seq<Option<Vec<u8>>>) -> Seq<Option<Seq<u8>>> {
    Seq::new(
        answers.len(),
        |i: int|
            match answers[i] {
                Some(a) => Some(a@),
                None => None,
            },
    )
}

impl View for TableRow {
    type V = TableRowView;

    open spec fn view(&self) -> TableRowView {
        TableRowView {
            columns: values_view(self.columns@),
            canonical: answers_view(self.canonical@),
            sort_keys: answers_view(self.sort_keys@),
        }
    }
}

/// The bytes by which a scanned value is counted and sampled. A value in
/// the fixed-width encoding of an integer, an unsigned integer or a
/// duration is taken in its canonical encoding; every other value as it
/// was scanned. In a column that is compared under a collation a value
/// that is not null is then replaced by its encoded sort key. Where the
/// encoding or the sort key that is called for is not at hand, there are
/// no such bytes.
pub open spec fn counted_value(
    string_like: bool,
    scanned: Seq<u8>,
    canonical: Option<Seq<u8>>,
    sort_key: Option<Seq<u8>>,
) -> Option<Seq<u8>> {
    let value = if has_canonical_form(scanned) {
        canonical
    } else {
        Some(scanned)
    };
    match value {
        Some(v) => if string_like && !is_null_value(v) {
            sort_key
        } else {
            Some(v)
        },
        None => None,
    }
}

/// Chooses the bytes by which a scanned value is counted and sampled.
pub fn value_to_count(
    info: &ColumnInfo,
    scanned: &Vec<u8>,
    canonical: &Option<Vec<u8>>,
    sort_key: &Option<Vec<u8>>,
) -> (value: Option<Vec<u8>>)
    ensures
        match value {
            Some(v) => counted_value(
                info.string_like,
                scanned@,
                answers_view(seq![*canonical])[0],
                answers_view(seq![*sort_key])[0],
            ) == Some(v@),
            None => counted_value(
                info.string_like,
                scanned@,
                answers_view(seq![*canonical])[0],
                answers_view(seq![*sort_key])[0],
            ) is None,
        },
{
    let value: &Vec<u8> = if needs_canonical_form(scanned) {
        match canonical {
            Some(c) => c,
            None => {
                return None;
            },
        }
    } else {
        scanned
    };
    if info.needs_sort_key(value) {
        match sort_key {
            Some(k) => {
                let copy = k.clone();
                assert(copy@ =~= k@);
                Some(copy)
            },
            None => None,
        }
    } else {
        let copy = value.clone();
        assert(copy@ =~= value@);
        Some(copy)
    }
}

/// The first position at which there are no bytes, or the number of
/// positions if there is none.
pub open spec fn first_missing(values: Seq<Option<Seq<u8>>>) -> int
    decreases values.len(),
{
    if values.len() == 0 {
        0
    } else {
        let before = first_missing(values.drop_last());
        if before < values.len() - 1 {
            before
        } else if values.last() is None {
            values.len() - 1
        } else {
            values.len() as int
        }
    }
}

/// At the first missing position there are no bytes, and before it there
/// are.
pub proof fn lemma_first_missing(values: Seq<Option<Seq<u8>>>)
    ensures
        0 <= first_missing(values) <= values.len(),
        first_missing(values) < values.len() ==> values[first_missing(values)] is None,
        forall|i: int| 0 <= i < first_missing(values) ==> (#[trigger] values[i]) is Some,
    decreases values.len(),
{
    if values.len() > 0 {
        let front = values.drop_last();
        lemma_first_missing(front);
        assert forall|i: int| 0 <= i < first_missing(values) implies (#[trigger] values[i]) is Some by {
            if i < front.len() {
                assert(values[i] == front[i]);
            }
        }
        if first_missing(front) < front.len() {
            assert(values[first_missing(front)] == front[first_missing(front)]);
        }
    }
}

/// The first missing position of a list is that of any part of it that
/// reaches so far.
pub proof fn lemma_first_missing_extends(values: Seq<Option<Seq<u8>>>, k: int)
    requires
        0 <= k <= values.len(),
        first_missing(values.subrange(0, k)) < k,
    ensures
        first_missing(values) == first_missing(values.subrange(0, k)),
    decreases values.len() - k,
{
    if k < values.len() {
        assert(values.subrange(0, k + 1).drop_last() =~= values.subrange(0, k));
        lemma_first_missing_extends(values, k + 1);
    } else {
        assert(values.subrange(0, k) =~= values);
    }
}

/// The views of a list of rows.
pub open spec fn table_rows_view(rows: Seq<TableRow>) -> Seq<TableRowView> {
    Seq::new(rows.len(), |i: int| rows[i]@)
}

/// The views of a list of collectors.
pub open spec fn collectors_view(collectors: Seq<SampleCollector>) -> Seq<ColumnSample> {
    Seq::new(collectors.len(), |i: int| collectors[i]@)
}

/// The request for the statistics of the composite primary key that a
/// request for columns implies: the sizes of the columns' request, and the
/// heavy hitters and version of the index request that came with it.
pub open spec fn handle_request(req: AnalyzeColumnsReq, common_handle_req: Option<AnalyzeIndexReq>)
    -> AnalyzeIndexReq {
    AnalyzeIndexReq {
        bucket_size: req.bucket_size,
        num_columns: req.primary_column_ids@.len() as usize,
        cmsketch_depth: req.cmsketch_depth,
        cmsketch_width: req.cmsketch_width,
        sketch_size: req.sketch_size,
        top_n_size: match common_handle_req {
            Some(c) => c.top_n_size,
            None => 0,
        },
        version: match common_handle_req {
            Some(c) => c.version,
            None => None,
        },
    }
}

/// What the builder holds while it scans.
pub struct ColumnStatistics {
    pub pk_hist: Buckets,
    pub collectors: Seq<ColumnSample>,
    /// For each collector, whether its column is compared under a
    /// collation.
    pub string_like: Seq<bool>,
    pub common_handle: IndexStatistics,
    pub analyze_common_handle: bool,
}

/// The number of columns that are collected: all that are declared but
/// the integer primary key, which is declared first if at all.
pub open spec fn collected_len(columns_info: Seq<ColumnInfo>) -> nat {
    if columns_info.len() > 0 && columns_info[0].pk_handle {
        (columns_info.len() - 1) as nat
    } else {
        columns_info.len()
    }
}

impl ColumnStatistics {
    /// The builder before the scan: a collector for each column but the
    /// integer primary key.
    pub open spec fn start(req: AnalyzeColumnsReq, common_handle_req: Option<AnalyzeIndexReq>)
        -> ColumnStatistics {
        ColumnStatistics {
            pk_hist: Buckets::empty(req.bucket_size as nat),
            collectors: Seq::new(
                collected_len(req.columns_info@),
                |i: int|
                    ColumnSample::empty(
                        req.sample_size as nat,
                        req.sketch_size as nat,
                        req.cmsketch_depth as nat,
                        req.cmsketch_width as nat,
                    ),
            ),
            string_like: Seq::new(
                collected_len(req.columns_info@),
                |i: int|
                    req.columns_info@[req.columns_info@.len() - collected_len(req.columns_info@)
                        + i].string_like,
            ),
            common_handle: IndexStatistics::start(handle_request(req, common_handle_req)),
            analyze_common_handle: common_handle_req is Some,
        }
    }

    /// Every part is well formed, and of every collector it is known how
    /// its column is compared.
    pub open spec fn wf(self) -> bool {
        &&& self.pk_hist.wf()
        &&& self.common_handle.wf()
        &&& self.string_like.len() == self.collectors.len()
        &&& forall|i: int| 0 <= i < self.collectors.len() ==> (#[trigger] self.collectors[i]).wf()
    }

    /// The row starts with the integer primary key: it has one column more
    /// than there are collectors.
    pub open spec fn has_handle(self, columns: Seq<Seq<u8>>) -> bool {
        self.collectors.len() + 1 == columns.len()
    }

    /// The columns of a row without the integer primary key.
    pub open spec fn rest(self, columns: Seq<Seq<u8>>) -> Seq<Seq<u8>> {
        if self.has_handle(columns) {
            columns.subrange(1, columns.len() as int)
        } else {
            columns
        }
    }

    /// For each collector the bytes that it takes of the row, where they
    /// are at hand: those by which the value of its column is counted.
    pub open spec fn values(self, row: TableRowView) -> Seq<Option<Seq<u8>>> {
        Seq::new(
            self.collectors.len(),
            |i: int|
                counted_value(
                    self.string_like[i],
                    self.rest(row.columns)[i],
                    row.canonical[i],
                    row.sort_keys[i],
                ),
        )
    }

    /// What a row lacks, if anything: a column of the composite primary
    /// key, a column for one of the collectors, an answer of the codec for
    /// one of them, or the encoding or sort key by which a column is
    /// counted.
    pub open spec fn lacks(self, row: TableRowView) -> Option<Error> {
        let rest = self.rest(row.columns);
        if self.analyze_common_handle && rest.len() < self.common_handle.num_columns {
            Some(Error::MissingColumn(rest.len() as usize))
        } else if rest.len() < self.collectors.len() {
            Some(Error::MissingColumn(rest.len() as usize))
        } else if row.canonical.len() < self.collectors.len() {
            Some(Error::MissingEncoding(row.canonical.len() as usize))
        } else if row.sort_keys.len() < self.collectors.len() {
            Some(Error::MissingEncoding(row.sort_keys.len() as usize))
        } else if first_missing(self.values(row)) < self.collectors.len() {
            Some(Error::MissingEncoding(first_missing(self.values(row)) as usize))
        } else {
            None
        }
    }

    /// The builder after one row that lacks nothing. The integer primary
    /// key, where the row has it, goes into its histogram; the columns
    /// after it go into the statistics of the composite primary key, where
    /// those are asked for; and each collector takes the bytes by which
    /// the value of its column is counted, with the draws that stand at its
    /// position.
    pub open spec fn collect_row(self, row: TableRowView, draws: Seq<(u64, int)>)
        -> ColumnStatistics {
        ColumnStatistics {
            pk_hist: if self.has_handle(row.columns) {
                self.pk_hist.append(row.columns[0], false)
            } else {
                self.pk_hist
            },
            collectors: Seq::new(
                self.collectors.len(),
                |i: int|
                    self.collectors[i].collect_with(
                        self.values(row)[i]->Some_0,
                        murmur3_x64_128(self.values(row)[i]->Some_0, 0),
                        draws[i].0,
                        draws[i].1,
                    ),
            ),
            common_handle: if self.analyze_common_handle {
                self.common_handle.collect(self.rest(row.columns))
            } else {
                self.common_handle
            },
            ..self
        }
    }

    /// The draws are such as are made: the first below the new count of
    /// its collector, the second a place in the reservoir wherever a sample
    /// has to leave.
    pub open spec fn draws_fit(self, row: TableRowView, draws: Seq<(u64, int)>) -> bool {
        &&& draws.len() == self.collectors.len()
        &&& forall|i: int|
            0 <= i < self.collectors.len() ==> (#[trigger] draws[i]).0
                < self.collectors[i].count.saturating_add(1)
        &&& forall|i: int|
            0 <= i < self.collectors.len() && (#[trigger] self.collectors[i]).evicts(
                self.values(row)[i]->Some_0,
                draws[i].0,
            ) ==> 0 <= draws[i].1 < self.collectors[i].max_sample_size
    }

    /// The builder after each of `rows` in turn, each with its draws, and
    /// the error at which the scan stopped, if it did. The row that stops
    /// the scan leaves the builder as it found it.
    pub open spec fn collect_rows(self, rows: Seq<TableRowView>, draws: Seq<Seq<(u64, int)>>) -> (
        ColumnStatistics,
        Option<Error>,
    )
        decreases rows.len(),
    {
        if rows.len() == 0 {
            (self, None)
        } else {
            let before = self.collect_rows(rows.drop_last(), draws.drop_last());
            if before.1 is Some {
                before
            } else if before.0.lacks(rows.last()) is Some {
                (before.0, before.0.lacks(rows.last()))
            } else {
                (before.0.collect_row(rows.last(), draws.last()), None)
            }
        }
    }

    /// The statistics once the scan is done: those of the columns, and
    /// those of the composite primary key where they were asked for.
    pub open spec fn finish(self) -> ((Seq<ColumnSample>, Buckets), Option<IndexResult>) {
        (
            (self.collectors, self.pk_hist),
            if self.analyze_common_handle {
                Some(self.common_handle.finish())
            } else {
                None
            },
        )
    }
}

/// A scan that has stopped at an error stays stopped.
pub proof fn lemma_stopped_stays(
    start: ColumnStatistics,
    rows: Seq<TableRowView>,
    draws: Seq<Seq<(u64, int)>>,
    k: int,
)
    requires
        0 <= k <= rows.len(),
        draws.len() == rows.len(),
        start.collect_rows(rows.subrange(0, k), draws.subrange(0, k)).1 is Some,
    ensures
        start.collect_rows(rows, draws) == start.collect_rows(
            rows.subrange(0, k),
            draws.subrange(0, k),
        ),
    decreases rows.len() - k,
{
    if k < rows.len() {
        assert(rows.subrange(0, k + 1).drop_last() =~= rows.subrange(0, k));
        assert(draws.subrange(0, k + 1).drop_last() =~= draws.subrange(0, k));
        lemma_stopped_stays(start, rows, draws, k + 1);
    } else {
        assert(rows.subrange(0, k) =~= rows);
        assert(draws.subrange(0, k) =~= draws);
    }
}

/// The statistics of the columns of a table.
pub struct AnalyzeColumnsResult {
    sample_collectors: Vec<SampleCollector>,
    pk_hist: Histogram,
}

impl View for AnalyzeColumnsResult {
    type V = (Seq<ColumnSample>, Buckets);

    closed spec fn view(&self) -> (Seq<ColumnSample>, Buckets) {
        (collectors_view(self.sample_collectors@), self.pk_hist@)
    }
}

impl AnalyzeColumnsResult {
    /// The statistics made of the collectors and the histogram at hand.
    pub fn new(sample_collectors: Vec<SampleCollector>, pk_hist: Histogram) -> (result:
        AnalyzeColumnsResult)
        ensures
            result@ == (collectors_view(sample_collectors@), pk_hist@),
    {
        AnalyzeColumnsResult { sample_collectors, pk_hist }
    }

    /// The collector of each column.
    pub fn sample_collectors(&self) -> (collectors: &Vec<SampleCollector>)
        ensures
            collectors_view(collectors@) == self@.0,
    {
        &self.sample_collectors
    }

    /// The histogram of the integer primary key.
    pub fn pk_hist(&self) -> (hist: &Histogram)
        ensures
            hist@ == self@.1,
    {
        &self.pk_hist
    }

    /// The answer that carries the statistics: the record of each
    /// collector, in the order of the columns, and the histogram.
    pub fn into_proto(self) -> (resp: AnalyzeColumnsResp)
        ensures
            resp@ == columns_record(self@),
    {
        let hist = self.pk_hist.into_proto();
        let ghost all = collectors_view(self.sample_collectors@);
        let mut taken = self.sample_collectors;
        let mut reversed: Vec<SampleCollectorProto> = Vec::new();
        while taken.len() > 0
            invariant
                taken@.len() + reversed@.len() == all.len(),
                forall|k: int| 0 <= k < taken@.len() ==> (#[trigger] taken@[k])@ == all[k],
                forall|k: int|
                    0 <= k < reversed@.len() ==> (#[trigger] reversed@[k])@ == all[all.len() - 1
                        - k].record(),
            decreases taken@.len(),
        {
            let collector = taken.pop().unwrap();
            reversed.push(collector.into_proto());
        }
        let mut cols: Vec<SampleCollectorProto> = Vec::new();
        let ghost protos = Seq::new(reversed@.len(), |k: int| reversed@[k]@);
        while reversed.len() > 0
            invariant
                reversed@.len() + cols@.len() == all.len(),
                protos.len() == all.len(),
                forall|k: int| 0 <= k < protos.len() ==> protos[k] == all[all.len() - 1 - k].record(),
                forall|k: int| 0 <= k < reversed@.len() ==> (#[trigger] reversed@[k])@ == protos[k],
                forall|k: int| 0 <= k < cols@.len() ==> (#[trigger] cols@[k])@ == all[k].record(),
            decreases reversed@.len(),
        {
            let proto = reversed.pop().unwrap();
            cols.push(proto);
        }
        let resp = AnalyzeColumnsResp { collectors: cols, pk_hist: Some(hist), row_collector: None };
        assert(resp@.collectors =~= columns_record(self@).collectors);
        resp
    }
}

/// The answer that carries the statistics of the columns.
pub open spec fn columns_record(result: (Seq<ColumnSample>, Buckets)) -> AnalyzeColumnsRecord {
    AnalyzeColumnsRecord {
        collectors: Seq::new(result.0.len(), |i: int| result.0[i].record()),
        pk_hist: Some(result.1.buckets),
        row_collector: None,
    }
}

/// The statistics of the columns and of the composite primary key of a
/// table, from one pass.
pub struct AnalyzeMixedResult {
    col_res: AnalyzeColumnsResult,
    idx_res: AnalyzeIndexResult,
}

impl View for AnalyzeMixedResult {
    type V = ((Seq<ColumnSample>, Buckets), IndexResult);

    closed spec fn view(&self) -> ((Seq<ColumnSample>, Buckets), IndexResult) {
        (self.col_res@, self.idx_res@)
    }
}

impl AnalyzeMixedResult {
    /// The statistics made of both parts.
    pub fn new(col_res: AnalyzeColumnsResult, idx_res: AnalyzeIndexResult) -> (result:
        AnalyzeMixedResult)
        ensures
            result@ == (col_res@, idx_res@),
    {
        AnalyzeMixedResult { col_res, idx_res }
    }

    /// The answer that carries both parts.
    pub fn into_proto(self) -> (resp: AnalyzeMixedResp)
        ensures
            resp@ == (self@.1.record(), columns_record(self@.0)),
    {
        let index_resp = self.idx_res.into_proto();
        let columns_resp = self.col_res.into_proto();
        AnalyzeMixedResp { index_resp, columns_resp }
    }
}

/// Builder of the statistics of the columns of a table.
pub struct SampleBuilder {
    pk_builder: Histogram,
    collectors: Vec<SampleCollector>,
    common_handle: IndexStatsBuilder,
    analyze_common_handle: bool,
    columns_info: Vec<ColumnInfo>,
    sampled_info: Vec<ColumnInfo>,
    common_handle_col_ids: Vec<i64>,
    primary_prefix_column_ids: Vec<i64>,
}

impl View for SampleBuilder {
    type V = ColumnStatistics;

    closed spec fn view(&self) -> ColumnStatistics {
        ColumnStatistics {
            pk_hist: self.pk_builder@,
            collectors: collectors_view(self.collectors@),
            string_like: string_like_flags(self.sampled_info@),
            common_handle: self.common_handle@,
            analyze_common_handle: self.analyze_common_handle,
        }
    }
}

impl SampleBuilder {
    /// The columns that the request declares.
    pub closed spec fn declared_columns(&self) -> Seq<ColumnInfo> {
        self.columns_info@
    }

    /// The columns that make up the composite primary key.
    pub closed spec fn handle_columns(&self) -> Seq<i64> {
        self.common_handle_col_ids@
    }

    /// The columns of the composite primary key that are indexed by a
    /// prefix.
    pub closed spec fn prefix_columns(&self) -> Seq<i64> {
        self.primary_prefix_column_ids@
    }

    /// The declarations of the columns that are collected, one for each
    /// collector.
    pub closed spec fn collected_columns(&self) -> Seq<ColumnInfo> {
        self.sampled_info@
    }

    /// A builder for the request that has scanned nothing. A request
    /// without columns is refused.
    pub fn new(req: AnalyzeColumnsReq, common_handle_req: Option<AnalyzeIndexReq>) -> (made:
        Result<SampleBuilder, Error>)
        ensures
            made is Err <==> req.columns_info@.len() == 0,
            made matches Err(e) ==> e == Error::EmptyColumnsInfo,
            made matches Ok(builder) ==> builder@ == ColumnStatistics::start(
                req,
                common_handle_req,
            ) && builder@.wf() && builder.declared_columns() == req.columns_info@
                && builder.handle_columns() == req.primary_column_ids@
                && builder.prefix_columns() == req.primary_prefix_column_ids@
                && builder.collected_columns() == req.columns_info@.subrange(
                req.columns_info@.len() - collected_len(req.columns_info@),
                req.columns_info@.len() as int,
            ),
    {
        if req.columns_info.len() == 0 {
            return Err(Error::EmptyColumnsInfo);
        }
        let columns_without_handle_len: usize = if req.columns_info[0].get_pk_handle() {
            req.columns_info.len() - 1
        } else {
            req.columns_info.len()
        };
        let mut collectors: Vec<SampleCollector> = Vec::new();
        let mut i: usize = 0;
        while i < columns_without_handle_len
            invariant
                i <= columns_without_handle_len,
                collectors@.len() == i,
                forall|k: int|
                    0 <= k < i ==> (#[trigger] collectors@[k])@ == ColumnSample::empty(
                        req.sample_size as nat,
                        req.sketch_size as nat,
                        req.cmsketch_depth as nat,
                        req.cmsketch_width as nat,
                    ) && collectors@[k]@.wf(),
            decreases columns_without_handle_len - i,
        {
            collectors.push(
                SampleCollector::new(
                    req.sample_size,
                    req.sketch_size,
                    req.cmsketch_depth,
                    req.cmsketch_width,
                ),
            );
            i += 1;
        }
        let handle_req = AnalyzeIndexReq {
            bucket_size: req.bucket_size,
            num_columns: req.primary_column_ids.len(),
            cmsketch_depth: req.cmsketch_depth,
            cmsketch_width: req.cmsketch_width,
            sketch_size: req.sketch_size,
            top_n_size: match &common_handle_req {
                Some(c) => c.top_n_size,
                None => 0,
            },
            version: match &common_handle_req {
                Some(c) => c.version,
                None => None,
            },
        };
        let declared: usize = req.columns_info.len();
        let skipped: usize = declared - columns_without_handle_len;
        let mut sampled_info: Vec<ColumnInfo> = Vec::new();
        let mut k: usize = 0;
        while k < columns_without_handle_len
            invariant
                k <= columns_without_handle_len,
                declared == req.columns_info@.len(),
                skipped + columns_without_handle_len == declared,
                sampled_info@ == req.columns_info@.subrange(skipped as int, skipped + k),
            decreases columns_without_handle_len - k,
        {
            sampled_info.push(req.columns_info[skipped + k]);
            k += 1;
            assert(sampled_info@ =~= req.columns_info@.subrange(skipped as int, skipped + k));
        }
        let builder = SampleBuilder {
            pk_builder: Histogram::new(req.bucket_size),
            collectors,
            common_handle: IndexStatsBuilder::new(&handle_req),
            analyze_common_handle: common_handle_req.is_some(),
            columns_info: req.columns_info,
            sampled_info,
            common_handle_col_ids: req.primary_column_ids,
            primary_prefix_column_ids: req.primary_prefix_column_ids,
        };
        assert(builder@.collectors =~= ColumnStatistics::start(req, common_handle_req).collectors);
        assert(builder@.string_like =~= ColumnStatistics::start(req, common_handle_req).string_like);
        Ok(builder)
    }

    /// What the builder reads of each column.
    pub fn columns_info(&self) -> (info: &Vec<ColumnInfo>)
        ensures
            info@ == self.declared_columns(),
    {
        &self.columns_info
    }

    /// The columns that make up the composite primary key.
    pub fn common_handle_col_ids(&self) -> (ids: &Vec<i64>)
        ensures
            ids@ == self.handle_columns(),
    {
        &self.common_handle_col_ids
    }

    /// The columns of the composite primary key that are indexed by a
    /// prefix.
    pub fn primary_prefix_column_ids(&self) -> (ids: &Vec<i64>)
        ensures
            ids@ == self.prefix_columns(),
    {
        &self.primary_prefix_column_ids
    }

    /// The declarations of the columns that are collected, one for each
    /// collector.
    pub fn sampled_info(&self) -> (info: &Vec<ColumnInfo>)
        ensures
            info@ == self.collected_columns(),
            string_like_flags(info@) == self@.string_like,
    {
        &self.sampled_info
    }

    /// The columns of a scanned row that are collected: all of them, but
    /// for the integer primary key where the row starts with it.
    pub fn sampled_columns<'a>(&self, columns: &'a [Vec<u8>]) -> (rest: &'a [Vec<u8>])
        ensures
            values_view(rest@) == self@.rest(values_view(columns@)),
            rest@ == if self@.has_handle(values_view(columns@)) {
                columns@.subrange(1, columns@.len() as int)
            } else {
                columns@
            },
    {
        let has_handle = self.collectors.len().checked_add(1) == Some(columns.len());
        let rest: &[Vec<u8>] = if has_handle {
            slice_subrange(columns, 1, columns.len())
        } else {
            columns
        };
        assert(values_view(rest@) =~= self@.rest(values_view(columns@)));
        rest
    }

    /// The number of columns that are collected: all but the integer
    /// primary key.
    pub fn columns_without_handle_len(&self) -> (n: usize)
        ensures
            n == self@.collectors.len(),
    {
        self.collectors.len()
    }

    /// Takes in one scanned row. A row that lacks a column is refused and
    /// leaves the builder as it was. The draws that place values in full
    /// reservoirs are made at random.
    pub fn collect_row(&mut self, row: &TableRow) -> (done: Result<(), Error>)
        requires
            old(self)@.wf(),
        ensures
            done is Err <==> old(self)@.lacks(row@) is Some,
            done matches Err(e) ==> old(self)@.lacks(row@) == Some(e) && final(self)@ == old(
                self,
            )@,
            done is Ok ==> exists|draws: Seq<(u64, int)>|
                old(self)@.draws_fit(row@, draws) && final(self)@ == #[trigger] old(
                    self,
                )@.collect_row(row@, draws),
            final(self)@.wf(),
            final(self).declared_columns() == old(self).declared_columns(),
            final(self).handle_columns() == old(self).handle_columns(),
    {
        let ghost start = self@;
        let n = self.collectors.len();
        let has_handle = n.checked_add(1) == Some(row.columns.len());
        assert(has_handle == start.has_handle(row@.columns));
        let rest = self.sampled_columns(row.columns.as_slice());
        if self.analyze_common_handle && rest.len() < self.common_handle.num_columns() {
            return Err(Error::MissingColumn(rest.len()));
        }
        if rest.len() < n {
            return Err(Error::MissingColumn(rest.len()));
        }
        if row.canonical.len() < n {
            return Err(Error::MissingEncoding(row.canonical.len()));
        }
        if row.sort_keys.len() < n {
            return Err(Error::MissingEncoding(row.sort_keys.len()));
        }
        let ghost wanted = start.values(row@);
        let mut values: Vec<Vec<u8>> = Vec::new();
        let mut k: usize = 0;
        while k < n
            invariant
                k <= n,
                n == self.collectors@.len(),
                n == self.sampled_info@.len(),
                n <= rest@.len(),
                n <= row.canonical@.len(),
                n <= row.sort_keys@.len(),
                self@ == start,
                start == old(self)@,
                start.wf(),
                !(start.analyze_common_handle && rest@.len() < start.common_handle.num_columns),
                values_view(rest@) == start.rest(row@.columns),
                wanted == start.values(row@),
                values@.len() == k,
                forall|j: int| 0 <= j < k ==> wanted[j] == Some((#[trigger] values@[j])@),
                first_missing(wanted.subrange(0, k as int)) == k,
            decreases n - k,
        {
            let value = value_to_count(
                &self.sampled_info[k],
                &rest[k],
                &row.canonical[k],
                &row.sort_keys[k],
            );
            proof {
                assert(values_view(rest@)[k as int] == rest@[k as int]@);
                assert(answers_view(seq![row.canonical@[k as int]])[0] == row@.canonical[k as int]);
                assert(answers_view(seq![row.sort_keys@[k as int]])[0] == row@.sort_keys[k as int]);
                assert(wanted.subrange(0, k + 1).drop_last() =~= wanted.subrange(0, k as int));
                assert(wanted.subrange(0, k + 1).last() == wanted[k as int]);
            }
            match value {
                Some(v) => {
                    values.push(v);
                },
                None => {
                    proof {
                        lemma_first_missing_extends(wanted, k + 1);
                    }
                    return Err(Error::MissingEncoding(k));
                },
            }
            k += 1;
        }
        proof {
            assert(wanted.subrange(0, k as int) =~= wanted);
        }
        if has_handle {
            proof {
                lemma_append_wf(start.pk_hist, row@.columns[0], false);
            }
            self.pk_builder.append(&row.columns[0], false);
        }
        if self.analyze_common_handle {
            let pushed = self.common_handle.push_entry(rest);
            assert(pushed is Ok);
        }
        let ghost mut draws: Seq<(u64, int)> = Seq::empty();
        let mut i: usize = 0;
        while i < self.collectors.len()
            invariant
                i <= self.collectors@.len(),
                self.collectors@.len() == start.collectors.len(),
                self.collectors@.len() == values@.len(),
                wanted == start.values(row@),
                forall|j: int|
                    0 <= j < values@.len() ==> wanted[j] == Some((#[trigger] values@[j])@),
                self@.string_like == start.string_like,
                start == old(self)@,
                start.wf(),
                self@.pk_hist == start.collect_row(row@, draws).pk_hist,
                self@.common_handle == start.collect_row(row@, draws).common_handle,
                self@.pk_hist.wf(),
                self@.common_handle.wf(),
                self@.analyze_common_handle == start.analyze_common_handle,
                self.declared_columns() == old(self).declared_columns(),
                self.handle_columns() == old(self).handle_columns(),
                draws.len() == i,
                forall|k: int| 0 <= k < self.collectors@.len() ==> (#[trigger] self@.collectors[k]).wf(),
                forall|k: int|
                    0 <= k < i ==> (#[trigger] self@.collectors[k]) == start.collectors[k].collect_with(
                        wanted[k]->Some_0,
                        murmur3_x64_128(wanted[k]->Some_0, 0),
                        draws[k].0,
                        draws[k].1,
                    ),
                forall|k: int|
                    0 <= k < i ==> (#[trigger] draws[k]).0 < start.collectors[k].count.saturating_add(
                        1,
                    ),
                forall|k: int|
                    0 <= k < i && (#[trigger] start.collectors[k]).evicts(
                        wanted[k]->Some_0,
                        draws[k].0,
                    ) ==> 0 <= draws[k].1 < start.collectors[k].max_sample_size,
                forall|k: int|
                    i <= k < self.collectors@.len() ==> (#[trigger] self@.collectors[k])
                        == start.collectors[k],
            decreases self.collectors@.len() - i,
        {
            let value = values[i].clone();
            assert(value@ =~= values@[i as int]@);
            assert(wanted[i as int] == Some(value@));
            let ghost before = self@;
            assert(before.collectors[i as int] == start.collectors[i as int]);
            assert(before.collectors[i as int].wf());
            self.collectors[i].collect(value);
            let ghost after = self.collectors@[i as int]@;
            proof {
                let (d, v) = choose|d: u64, v: int|
                    {
                        &&& d < start.collectors[i as int].count.saturating_add(1)
                        &&& start.collectors[i as int].evicts(value@, d) ==> 0 <= v
                            < start.collectors[i as int].max_sample_size
                        &&& #[trigger] start.collectors[i as int].collect_with(
                            value@,
                            murmur3_x64_128(value@, 0),
                            d,
                            v,
                        ) == after
                    };
                draws = draws.push((d, v));
                assert(self@.collectors =~= before.collectors.update(i as int, after));
            }
            i += 1;
        }
        proof {
            assert(self@.collectors =~= start.collect_row(row@, draws).collectors);
        }
        Ok(())
    }

    /// Feeds the scanned rows to the builder, one after the other. The
    /// first row that lacks a column ends the scan with an error.
    pub fn collect_columns_stats(&mut self, rows: &[TableRow]) -> (done: Result<(), Error>)
        requires
            old(self)@.wf(),
        ensures
            exists|draws: Seq<Seq<(u64, int)>>|
                {
                    let end = #[trigger] old(self)@.collect_rows(table_rows_view(rows@), draws);
                    &&& draws.len() == rows@.len()
                    &&& final(self)@ == end.0
                    &&& match done {
                        Ok(_) => end.1 is None,
                        Err(e) => end.1 == Some(e),
                    }
                },
            final(self)@.wf(),
            final(self).declared_columns() == old(self).declared_columns(),
            final(self).handle_columns() == old(self).handle_columns(),
    {
        let ghost all = table_rows_view(rows@);
        let ghost mut draws: Seq<Seq<(u64, int)>> = Seq::empty();
        let mut i: usize = 0;
        while i < rows.len()
            invariant
                i <= rows@.len(),
                all == table_rows_view(rows@),
                self@.wf(),
                self.declared_columns() == old(self).declared_columns(),
                self.handle_columns() == old(self).handle_columns(),
                draws.len() == i,
                old(self)@.collect_rows(all.subrange(0, i as int), draws) == (
                    self@,
                    None::<Error>,
                ),
            decreases rows@.len() - i,
        {
            let ghost before = self@;
            assert(all[i as int] == rows@[i as int]@);
            let done = self.collect_row(&rows[i]);
            proof {
                assert(all.subrange(0, i + 1).drop_last() =~= all.subrange(0, i as int));
            }
            match done {
                Ok(_) => {
                    proof {
                        let row_draws = choose|row_draws: Seq<(u64, int)>|
                            before.draws_fit(rows@[i as int]@, row_draws) && self@
                                == #[trigger] before.collect_row(rows@[i as int]@, row_draws);
                        let longer = draws.push(row_draws);
                        assert(longer.drop_last() =~= draws);
                        draws = longer;
                    }
                },
                Err(e) => {
                    proof {
                        let longer = draws.push(Seq::empty());
                        assert(longer.drop_last() =~= draws);
                        let padded = longer + Seq::new(
                            (rows@.len() - i - 1) as nat,
                            |k: int| Seq::<(u64, int)>::empty(),
                        );
                        assert(padded.subrange(0, i + 1) =~= longer);
                        lemma_stopped_stays(old(self)@, all, padded, i + 1);
                    }
                    return Err(e);
                },
            }
            i += 1;
        }
        proof {
            assert(all.subrange(0, i as int) =~= all);
        }
        Ok(())
    }

    /// Ends the scan and hands the statistics over: those of the columns,
    /// and those of the composite primary key where they were asked for.
    pub fn finish(self) -> (result: (AnalyzeColumnsResult, Option<AnalyzeIndexResult>))
        requires
            self@.wf(),
        ensures
            result.0@ == self@.finish().0,
            match result.1 {
                Some(index) => self@.finish().1 == Some(index@),
                None => self@.finish().1 is None,
            },
    {
        let idx_res = if self.analyze_common_handle {
            Some(self.common_handle.finish())
        } else {
            None
        };
        (AnalyzeColumnsResult::new(self.collectors, self.pk_builder), idx_res)
    }
}

} // verus!
