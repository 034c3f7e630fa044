//! Builder of row samples: feeds every scanned row to a row sampler and
//! hands the sampler over when the scan is done.

use crate::encoding::values_view;
use crate::error::Error;
use crate::proto::AnalyzeColumnsResp;
use crate::request::find_group_out_of_range;
use crate::request::first_bad_group;
use crate::request::group_offsets;
use crate::request::groups_in_range;
use crate::request::string_like_flags;
use crate::request::AnalyzeColumnGroup;
use crate::request::AnalyzeColumnsReq;
use crate::request::ColumnInfo;
use crate::request::SampleRate;
use crate::reservoir::ReservoirRowSampleCollector;
use crate::reservoir::ReservoirSample;
use crate::row_base::lemma_report_accounts;
use crate::row_base::RowStatistics;
use crate::row_base::TraceEvent;
use crate::reservoir::holds_heaviest;
use crate::reservoir::lemma_offer_holds_heaviest;
use crate::reservoir::lemma_pick_and_push_offer;
use crate::reservoir::lemma_pick_wf;
use crate::row_collector::lemma_sample_row_wf;
use crate::row_collector::priority_of;
use crate::row_collector::RowSample;
use crate::row_collector::RowSampleCollector;
use crate::row_sample::row_bytes;
use crate::row_sample::BernoulliRowSampleCollector;
use crate::row_sample::BernoulliSample;
use vstd::prelude::*;

verus! {

/// One scanned row, ready to be sampled.
pub struct SampledRow {
    /// The encoding of each column.
    pub column_vals: Vec<Vec<u8>>,
    /// The sort key of each column that is compared under a collation.
    pub collation_key_vals: Vec<Vec<u8>>,
    /// For each column, whether its sort key was made without encoding the
    /// column first.
    pub sort_key_shortcut: Vec<bool>,
}

/// What a scanned row holds.
pub struct SampledRowView {
    pub vals: Seq<Seq<u8>>,
    pub keys: Seq<Seq<u8>>,
    pub shortcut: Seq<bool>,
}

impl View for SampledRow {
    type V = SampledRowView;

    open spec fn view(&self) -> SampledRowView {
        SampledRowView {
            vals: values_view(self.column_vals@),
            keys: values_view(self.collation_key_vals@),
            shortcut: self.sort_key_shortcut@,
        }
    }
}

/// The views of a list of rows.
pub open spec fn sampled_rows_view(rows: Seq<SampledRow>) -> Seq<SampledRowView> {
    Seq::new(rows.len(), |i: int| rows[i]@)
}

/// Every row has `col_len` columns, sort keys and flags.
pub open spec fn rows_fit(rows: Seq<SampledRowView>, col_len: nat) -> bool {
    forall|i: int|
        0 <= i < rows.len() ==> (#[trigger] rows[i]).vals.len() == col_len && rows[i].keys.len()
            == col_len && rows[i].shortcut.len() == col_len
}

/// The bytes read for the first `n` columns of a row: for a column whose
/// sort key was made without encoding it, the sort key unless the row was
/// picked; the encoding otherwise. The sum stops at the largest number a
/// machine word holds.
pub open spec fn read_size(row: SampledRowView, pick: bool, n: nat) -> usize
    decreases n,
{
    if n == 0 {
        0
    } else {
        let here = if row.shortcut[n - 1] && !pick {
            row.keys[n - 1].len()
        } else {
            row.vals[n - 1].len()
        };
        read_size(row, pick, (n - 1) as nat).saturating_add(here as usize)
    }
}

/// The statistics after each of the first `n` groups that has one member
/// took the sketch, null count and size of that member.
pub open spec fn copy_single_groups(
    base: RowStatistics,
    groups: Seq<Seq<usize>>,
    col_len: nat,
    n: nat,
) -> RowStatistics
    decreases n,
{
    if n == 0 {
        base
    } else {
        let before = copy_single_groups(base, groups, col_len, (n - 1) as nat);
        if groups[n - 1].len() == 1 {
            before.copy_column(groups[n - 1][0] as int, col_len + n - 1)
        } else {
            before
        }
    }
}

/// What the builder was made for.
pub struct RowSamplePlan {
    pub max_sample_size: nat,
    pub max_fm_sketch_size: nat,
    pub sample_rate: SampleRate,
    pub string_like: Seq<bool>,
    pub groups: Seq<Seq<usize>>,
    pub is_auto_analyze: bool,
}

impl RowSamplePlan {
    /// The plan that a request asks for.
    pub open spec fn of(req: AnalyzeColumnsReq, is_auto_analyze: bool) -> RowSamplePlan {
        RowSamplePlan {
            max_sample_size: req.sample_size as nat,
            max_fm_sketch_size: req.sketch_size as nat,
            sample_rate: req.sample_rate,
            string_like: string_like_flags(req.columns_info@),
            groups: group_offsets(req.column_groups@),
            is_auto_analyze,
        }
    }

    /// Why no builder can be made for a request, if none can: it names no
    /// column, or has a group that names a column it lacks, or more columns
    /// and groups than can be counted.
    pub open spec fn refusal(req: AnalyzeColumnsReq) -> Option<Error> {
        let groups = group_offsets(req.column_groups@);
        let col_len = req.columns_info@.len();
        if col_len == 0 {
            Some(Error::EmptyColumnsInfo)
        } else if first_bad_group(groups, col_len) < groups.len() {
            Some(Error::GroupOutOfRange(first_bad_group(groups, col_len) as usize))
        } else if col_len + groups.len() > usize::MAX {
            Some(Error::MemoryExhausted)
        } else {
            None
        }
    }

    /// There is a column, every group names columns that exist, and columns
    /// and groups can be counted together.
    pub open spec fn wf(self) -> bool {
        &&& self.string_like.len() > 0
        &&& groups_in_range(self.groups, self.string_like.len())
        &&& self.string_like.len() + self.groups.len() <= usize::MAX
    }

    /// The number of columns and groups.
    pub open spec fn len(self) -> nat {
        self.string_like.len() + self.groups.len()
    }

    /// The sampler that the plan starts with: a reservoir where a sample
    /// size is set, a fixed-rate sampler otherwise.
    pub open spec fn collector(self) -> RowSample {
        if self.max_sample_size > 0 {
            RowSample::Reservoir(
                ReservoirSample {
                    base: RowStatistics::empty(self.max_fm_sketch_size, self.len()),
                    samples: Seq::empty(),
                    max_sample_size: self.max_sample_size,
                    cur_rng: 0,
                },
            )
        } else {
            RowSample::Bernoulli(
                BernoulliSample {
                    base: RowStatistics::empty(self.max_fm_sketch_size, self.len()),
                    samples: Seq::empty(),
                    sample_rate: self.sample_rate,
                },
            )
        }
    }

    /// The sampler after each of `rows` in turn, each with its draw, and
    /// what the rows came to: the bytes read and the reports that became
    /// due, or the error at which the scan stopped.
    pub open spec fn sample_rows(
        self,
        start: RowSample,
        rows: Seq<SampledRowView>,
        draws: Seq<u64>,
    ) -> (RowSample, Result<(usize, Seq<TraceEvent>), Error>)
        decreases rows.len(),
    {
        if rows.len() == 0 {
            (start, Ok((0usize, Seq::empty())))
        } else {
            let before = self.sample_rows(start, rows.drop_last(), draws.drop_last());
            match before.1 {
                Err(e) => before,
                Ok(sofar) => {
                    let row = rows.last();
                    let step = before.0.sample_row(
                        draws.last(),
                        row.vals,
                        row.keys,
                        self.string_like,
                        self.groups,
                    );
                    match step.1 {
                        Err(e) => (step.0, Err(e)),
                        Ok(outcome) => (
                            step.0,
                            Ok(
                                (
                                    sofar.0.saturating_add(
                                        read_size(row, outcome.pick, self.string_like.len()),
                                    ),
                                    match outcome.event {
                                        Some(event) => sofar.1.push(event),
                                        None => sofar.1,
                                    },
                                ),
                            ),
                        ),
                    }
                },
            }
        }
    }

    /// The sampler once the scan is done.
    pub open spec fn finish(self, collector: RowSample) -> RowSample {
        collector.with_base(
            copy_single_groups(
                collector.base(),
                self.groups,
                self.string_like.len(),
                self.groups.len(),
            ),
        )
    }
}

/// A scan that has stopped at an error stays stopped.
pub proof fn lemma_stopped_stays(
    plan: RowSamplePlan,
    start: RowSample,
    rows: Seq<SampledRowView>,
    draws: Seq<u64>,
    k: int,
)
    requires
        0 <= k <= rows.len(),
        draws.len() == rows.len(),
        plan.sample_rows(start, rows.subrange(0, k), draws.subrange(0, k)).1 is Err,
    ensures
        plan.sample_rows(start, rows, draws) == plan.sample_rows(
            start,
            rows.subrange(0, k),
            draws.subrange(0, k),
        ),
    decreases rows.len() - k,
{
    if k < rows.len() {
        assert(rows.subrange(0, k + 1).drop_last() =~= rows.subrange(0, k));
        assert(draws.subrange(0, k + 1).drop_last() =~= draws.subrange(0, k));
        lemma_stopped_stays(plan, start, rows, draws, k + 1);
    } else {
        assert(rows.subrange(0, k) =~= rows);
        assert(draws.subrange(0, k) =~= draws);
    }
}

/// The change that a run of events makes to the account of memory.
pub open spec fn trace_total(events: Seq<TraceEvent>) -> int
    decreases events.len(),
{
    if events.len() == 0 {
        0
    } else {
        trace_total(events.drop_last()) + match events.last() {
            TraceEvent::Add(n) => n as int,
            TraceEvent::Sub(n) => -(n as int),
        }
    }
}

/// However many rows are sampled, the reports that became due add up to
/// what the sampler holds as reported; and once the record is taken, the
/// event that comes with it brings the account back to where it stood
/// before the first row.
pub proof fn lemma_account_settles(
    plan: RowSamplePlan,
    start: RowSample,
    rows: Seq<SampledRowView>,
    draws: Seq<u64>,
)
    requires
        draws.len() == rows.len(),
        plan.sample_rows(start, rows, draws).1 is Ok,
    ensures
        ({
            let end = plan.sample_rows(start, rows, draws);
            let events = end.1->Ok_0.1;
            &&& trace_total(events) == end.0.base().reported_memory_usage
                - start.base().reported_memory_usage
            &&& trace_total(events.push(TraceEvent::Sub(end.0.base().reported_memory_usage)))
                == -start.base().reported_memory_usage
            &&& end.0.finished().base().memory_usage == 0
            &&& end.0.finished().base().reported_memory_usage == 0
        }),
    decreases rows.len(),
{
    let end = plan.sample_rows(start, rows, draws);
    let events = end.1->Ok_0.1;
    if rows.len() > 0 {
        let before = plan.sample_rows(start, rows.drop_last(), draws.drop_last());
        assert(before.1 is Ok);
        lemma_account_settles(plan, start, rows.drop_last(), draws.drop_last());
        let sofar = before.1->Ok_0.1;
        let row = rows.last();
        let step = before.0.sample_row(
            draws.last(),
            row.vals,
            row.keys,
            plan.string_like,
            plan.groups,
        );
        assert(step.1 is Ok);
        assert(end.0 == step.0);
        let decided = before.0.pick_with(draws.last());
        assert(decided.0.base().reported_memory_usage == before.0.base().reported_memory_usage);
        let observed = decided.0.with_base(
            decided.0.base().observe_row(row.vals, row.keys, plan.string_like, plan.groups),
        );
        assert(observed.base().reported_memory_usage == before.0.base().reported_memory_usage);
        if decided.1 {
            let charged = RowStatistics {
                memory_usage: (observed.base().memory_usage + row_bytes(row.vals)) as usize,
                ..observed.base()
            };
            lemma_report_accounts(charged, false);
            assert(end.0.base() == charged.report(false).0);
            assert(step.1->Ok_0.event == charged.report(false).1);
            match charged.report(false).1 {
                Some(event) => {
                    assert(events == sofar.push(event));
                    assert(events.drop_last() =~= sofar);
                    assert(events.last() == event);
                },
                None => {
                    assert(events == sofar);
                },
            }
        } else {
            assert(events == sofar);
            assert(end.0.base() == observed.base());
        }
    }
    assert(events.push(TraceEvent::Sub(end.0.base().reported_memory_usage)).drop_last()
        =~= events);
}

/// However many rows are sampled, the sampler stays well formed: its
/// sample is within its bound and the accounted memory is that of the
/// sampled rows. A reservoir fills up and then stays full: after a scan
/// that did not stop at an error it holds as many rows as it has room for,
/// or all the rows it was offered where those are fewer.
pub proof fn lemma_reservoir_fills(
    plan: RowSamplePlan,
    start: RowSample,
    rows: Seq<SampledRowView>,
    draws: Seq<u64>,
)
    requires
        start.wf(),
        draws.len() == rows.len(),
    ensures
        plan.sample_rows(start, rows, draws).0.wf(),
        plan.sample_rows(start, rows, draws).0 is Reservoir <==> start is Reservoir,
        start matches RowSample::Reservoir(r) ==> plan.sample_rows(
            start,
            rows,
            draws,
        ).0->Reservoir_0.max_sample_size == r.max_sample_size,
        start matches RowSample::Reservoir(r) ==> (plan.sample_rows(start, rows, draws).1 is Ok
            ==> plan.sample_rows(start, rows, draws).0.sample_len() == if r.samples.len()
            + rows.len() <= r.max_sample_size {
            r.samples.len() + rows.len()
        } else {
            r.max_sample_size
        }),
    decreases rows.len(),
{
    if rows.len() > 0 {
        let before = plan.sample_rows(start, rows.drop_last(), draws.drop_last());
        lemma_reservoir_fills(plan, start, rows.drop_last(), draws.drop_last());
        if before.1 is Ok {
            let row = rows.last();
            lemma_sample_row_wf(
                before.0,
                draws.last(),
                row.vals,
                row.keys,
                plan.string_like,
                plan.groups,
            );
            if let RowSample::Reservoir(held) = before.0 {
                lemma_pick_wf(held, priority_of(draws.last()));
            }
        }
    }
}

/// The rows of a scan as they are offered to a reservoir: each with the
/// priority that its draw stands for.
pub open spec fn offered_rows(rows: Seq<SampledRowView>, draws: Seq<u64>) -> Seq<
    (i64, Seq<Seq<u8>>),
> {
    Seq::new(rows.len(), |i: int| (priority_of(draws[i]), rows[i].vals))
}

/// After a scan that did not stop at an error, a reservoir that was empty
/// before holds the rows of highest priority: as many as it has room for,
/// each under the priority drawn for it, and no row that it does not hold
/// drew a higher priority than one that it holds.
pub proof fn lemma_reservoir_holds_heaviest(
    plan: RowSamplePlan,
    start: RowSample,
    rows: Seq<SampledRowView>,
    draws: Seq<u64>,
)
    requires
        start matches RowSample::Reservoir(r) && r.samples.len() == 0,
        draws.len() == rows.len(),
        plan.sample_rows(start, rows, draws).1 is Ok,
    ensures
        plan.sample_rows(start, rows, draws).0 matches RowSample::Reservoir(end)
            && end.max_sample_size == start->Reservoir_0.max_sample_size && holds_heaviest(
            end.samples,
            offered_rows(rows, draws),
            end.max_sample_size,
        ),
    decreases rows.len(),
{
    let k = start->Reservoir_0.max_sample_size;
    if rows.len() == 0 {
        assert(offered_rows(rows, draws) =~= Seq::empty());
    } else {
        let before = plan.sample_rows(start, rows.drop_last(), draws.drop_last());
        assert(before.1 is Ok);
        lemma_reservoir_holds_heaviest(plan, start, rows.drop_last(), draws.drop_last());
        let held = before.0->Reservoir_0;
        let row = rows.last();
        let x = (priority_of(draws.last()), row.vals);
        let offered = offered_rows(rows.drop_last(), draws.drop_last());
        assert(offered_rows(rows, draws) =~= offered.push(x));
        lemma_offer_holds_heaviest(held.samples, offered, x, k);
        lemma_pick_and_push_offer(held, x.0, row.vals);
        let decided = held.pick_with(x.0);
        let observed = ReservoirSample {
            base: decided.0.base.observe_row(row.vals, row.keys, plan.string_like, plan.groups),
            ..decided.0
        };
        if decided.1 {
            assert(observed.push(row.vals).0.samples == decided.0.push(row.vals).0.samples);
        }
    }
}

/// What a batch of rows came to.
pub struct BatchOutcome {
    /// The bytes read for the rows.
    pub read_size: usize,
    /// The reports of memory that became due, in order.
    pub events: Vec<TraceEvent>,
}

/// Builder of a row sample.
pub struct RowSampleBuilder {
    max_sample_size: usize,
    max_fm_sketch_size: usize,
    sample_rate: SampleRate,
    columns_info: Vec<ColumnInfo>,
    column_groups: Vec<AnalyzeColumnGroup>,
    is_auto_analyze: bool,
    primary_column_ids: Vec<i64>,
    primary_prefix_column_ids: Vec<i64>,
}

impl View for RowSampleBuilder {
    type V = RowSamplePlan;

    closed spec fn view(&self) -> RowSamplePlan {
        RowSamplePlan {
            max_sample_size: self.max_sample_size as nat,
            max_fm_sketch_size: self.max_fm_sketch_size as nat,
            sample_rate: self.sample_rate,
            string_like: string_like_flags(self.columns_info@),
            groups: group_offsets(self.column_groups@),
            is_auto_analyze: self.is_auto_analyze,
        }
    }
}

fn row_read_size(row: &SampledRow, pick: bool, col_len: usize) -> (n: usize)
    requires
        row@.vals.len() == col_len,
        row@.keys.len() == col_len,
        row@.shortcut.len() == col_len,
    ensures
        n == read_size(row@, pick, col_len as nat),
{
    let mut n: usize = 0;
    let mut i: usize = 0;
    while i < col_len
        invariant
            i <= col_len,
            row@.vals.len() == col_len,
            row@.keys.len() == col_len,
            row@.shortcut.len() == col_len,
            n == read_size(row@, pick, i as nat),
        decreases col_len - i,
    {
        let here = if row.sort_key_shortcut[i] && !pick {
            row.collation_key_vals[i].len()
        } else {
            row.column_vals[i].len()
        };
        n = n.saturating_add(here);
        i += 1;
    }
    n
}

impl RowSampleBuilder {
    /// A builder for the request. A request without columns is refused, and
    /// so is one with a group that names a column it does not have.
    pub fn new(req: AnalyzeColumnsReq, is_auto_analyze: bool) -> (made: Result<
        RowSampleBuilder,
        Error,
    >)
        ensures
            made matches Ok(builder) ==> builder@ == RowSamplePlan::of(req, is_auto_analyze)
                && builder@.wf() && builder.declared_columns() == req.columns_info@
                && builder.handle_columns() == req.primary_column_ids@
                && builder.prefix_columns() == req.primary_prefix_column_ids@,
            made is Err <==> RowSamplePlan::refusal(req) is Some,
            made matches Err(e) ==> RowSamplePlan::refusal(req) == Some(e),
    {
        if req.columns_info.len() == 0 {
            return Err(Error::EmptyColumnsInfo);
        }
        let col_len = req.columns_info.len();
        match find_group_out_of_range(req.column_groups.as_slice(), col_len) {
            Some(g) => {
                return Err(Error::GroupOutOfRange(g));
            },
            None => {},
        }
        if req.column_groups.len() > usize::MAX - col_len {
            return Err(Error::MemoryExhausted);
        }
        Ok(
            RowSampleBuilder {
                max_sample_size: req.sample_size,
                max_fm_sketch_size: req.sketch_size,
                sample_rate: req.sample_rate,
                columns_info: req.columns_info,
                column_groups: req.column_groups,
                is_auto_analyze,
                primary_column_ids: req.primary_column_ids,
                primary_prefix_column_ids: req.primary_prefix_column_ids,
            },
        )
    }

    /// The columns that the request declares.
    pub closed spec fn declared_columns(&self) -> Seq<ColumnInfo> {
        self.columns_info@
    }

    /// The columns that make up the composite primary key.
    pub closed spec fn handle_columns(&self) -> Seq<i64> {
        self.primary_column_ids@
    }

    /// The columns of the composite primary key that are indexed by a
    /// prefix.
    pub closed spec fn prefix_columns(&self) -> Seq<i64> {
        self.primary_prefix_column_ids@
    }

    /// The columns that make up the composite primary key.
    pub fn primary_column_ids(&self) -> (ids: &Vec<i64>)
        ensures
            ids@ == self.handle_columns(),
    {
        &self.primary_column_ids
    }

    /// The columns of the composite primary key that are indexed by a
    /// prefix.
    pub fn primary_prefix_column_ids(&self) -> (ids: &Vec<i64>)
        ensures
            ids@ == self.prefix_columns(),
    {
        &self.primary_prefix_column_ids
    }

    /// Whether the request comes from the system's own session.
    pub fn is_auto_analyze(&self) -> (r: bool)
        ensures
            r == self@.is_auto_analyze,
    {
        self.is_auto_analyze
    }

    /// What the builder reads of each column.
    pub fn columns_info(&self) -> (info: &Vec<ColumnInfo>)
        ensures
            info@ == self.declared_columns(),
            string_like_flags(info@) == self@.string_like,
    {
        &self.columns_info
    }

    /// The sampler to feed: a reservoir where a sample size is set, a
    /// fixed-rate sampler otherwise.
    pub fn new_collector(&self) -> (collector: RowSampleCollector)
        requires
            self@.wf(),
        ensures
            collector@ == self@.collector(),
            collector@.wf(),
            collector@.base().len() == self@.len(),
    {
        let len = self.columns_info.len() + self.column_groups.len();
        if self.max_sample_size > 0 {
            return RowSampleCollector::Reservoir(
                ReservoirRowSampleCollector::new(
                    self.max_sample_size,
                    self.max_fm_sketch_size,
                    len,
                ),
            );
        }
        RowSampleCollector::Bernoulli(
            BernoulliRowSampleCollector::new(self.sample_rate, self.max_fm_sketch_size, len),
        )
    }

    /// Feeds a batch of scanned rows to the sampler. Every row is taken
    /// into the statistics; the rows that the sampler picks are stored. A
    /// picked row whose bytes cannot be accounted for ends the scan with an
    /// error.
    pub fn collect_column_stats(&self, collector: &mut RowSampleCollector, rows: &[SampledRow]) -> (done:
        Result<BatchOutcome, Error>)
        requires
            self@.wf(),
            old(collector)@.wf(),
            old(collector)@.base().len() == self@.len(),
            rows_fit(sampled_rows_view(rows@), self@.string_like.len()),
        ensures
            exists|draws: Seq<u64>|
                {
                    let end = #[trigger] self@.sample_rows(
                        old(collector)@,
                        sampled_rows_view(rows@),
                        draws,
                    );
                    &&& draws.len() == rows@.len()
                    &&& final(collector)@ == end.0
                    &&& match done {
                        Ok(outcome) => end.1 == Ok::<(usize, Seq<TraceEvent>), Error>(
                            (outcome.read_size, outcome.events@),
                        ),
                        Err(e) => end.1 == Err::<(usize, Seq<TraceEvent>), Error>(e),
                    }
                },
            final(collector)@.wf(),
            final(collector)@.base().len() == self@.len(),
    {
        let ghost all = sampled_rows_view(rows@);
        let ghost mut draws: Seq<u64> = Seq::empty();
        let col_len = self.columns_info.len();
        let mut read: usize = 0;
        let mut events: Vec<TraceEvent> = Vec::new();
        let mut i: usize = 0;
        while i < rows.len()
            invariant
                i <= rows@.len(),
                all == sampled_rows_view(rows@),
                rows_fit(all, self@.string_like.len()),
                col_len == self@.string_like.len(),
                self@.wf(),
                collector@.wf(),
                collector@.base().len() == self@.len(),
                draws.len() == i,
                self@.sample_rows(old(collector)@, all.subrange(0, i as int), draws) == (
                    collector@,
                    Ok::<(usize, Seq<TraceEvent>), Error>((read, events@)),
                ),
            decreases rows@.len() - i,
        {
            let row = &rows[i];
            assert(all[i as int] == row@);
            let ghost before = collector@;
            let done = collector.sample_row(
                row.column_vals.as_slice(),
                row.collation_key_vals.as_slice(),
                self.columns_info.as_slice(),
                self.column_groups.as_slice(),
            );
            let ghost draw = choose|draw: u64|
                (collector@, done) == #[trigger] before.sample_row(
                    draw,
                    row@.vals,
                    row@.keys,
                    self@.string_like,
                    self@.groups,
                );
            proof {
                let longer = draws.push(draw);
                assert(all.subrange(0, i + 1).drop_last() =~= all.subrange(0, i as int));
                assert(longer.drop_last() =~= draws);
                draws = longer;
            }
            match done {
                Ok(outcome) => {
                    read = read.saturating_add(row_read_size(row, outcome.pick, col_len));
                    match outcome.event {
                        Some(event) => {
                            events.push(event);
                        },
                        None => {},
                    }
                },
                Err(e) => {
                    proof {
                        let padded = draws + Seq::new(
                            (rows@.len() - i - 1) as nat,
                            |k: int| 0u64,
                        );
                        assert(padded.subrange(0, i + 1) =~= draws);
                        lemma_stopped_stays(self@, old(collector)@, all, padded, i + 1);
                    }
                    return Err(e);
                },
            }
            i += 1;
        }
        proof {
            assert(all.subrange(0, i as int) =~= all);
        }
        Ok(BatchOutcome { read_size: read, events })
    }

    /// Ends the scan: every group of one column takes the sketch, null
    /// count and size of that column, and the sampler is handed over.
    pub fn finish(&self, collector: RowSampleCollector) -> (result: AnalyzeSamplingResult)
        requires
            self@.wf(),
            collector@.wf(),
            collector@.base().len() == self@.len(),
        ensures
            result@ == self@.finish(collector@),
            result@.wf(),
            result@.base().memory_usage == collector@.base().memory_usage,
            result@.base().reported_memory_usage == collector@.base().reported_memory_usage,
    {
        let mut collector = collector;
        let ghost start = collector@;
        let col_len = self.columns_info.len();
        let mut i: usize = 0;
        while i < self.column_groups.len()
            invariant
                i <= self.column_groups@.len(),
                col_len == self@.string_like.len(),
                self@.wf(),
                collector@.wf(),
                collector@.base().len() == self@.len(),
                collector@ == start.with_base(
                    copy_single_groups(start.base(), self@.groups, col_len as nat, i as nat),
                ),
                collector@.base().memory_usage == start.base().memory_usage,
                collector@.base().reported_memory_usage == start.base().reported_memory_usage,
            decreases self.column_groups@.len() - i,
        {
            let offsets = &self.column_groups[i].column_offsets;
            assert(self@.groups[i as int] == offsets@);
            if offsets.len() == 1 {
                let col_pos: usize = offsets[0];
                let col_group_pos: usize = col_len + i;
                collector.copy_column(col_pos, col_group_pos);
            }
            i += 1;
        }
        AnalyzeSamplingResult::new(collector)
    }
}

/// The sample of the rows of a table.
pub struct AnalyzeSamplingResult {
    row_sample_collector: RowSampleCollector,
}

impl View for AnalyzeSamplingResult {
    type V = RowSample;

    closed spec fn view(&self) -> RowSample {
        self.row_sample_collector@
    }
}

impl Default for AnalyzeSamplingResult {
    fn default() -> (result: AnalyzeSamplingResult)
        ensures
            result@ == RowSample::Reservoir(
                ReservoirSample {
                    base: RowStatistics::empty(0, 0),
                    samples: Seq::empty(),
                    max_sample_size: 0,
                    cur_rng: 0,
                },
            ),
    {
        AnalyzeSamplingResult::new(
            RowSampleCollector::Reservoir(ReservoirRowSampleCollector::default()),
        )
    }
}

impl AnalyzeSamplingResult {
    /// The result that holds the sampler.
    pub fn new(row_sample_collector: RowSampleCollector) -> (result: AnalyzeSamplingResult)
        ensures
            result@ == row_sample_collector@,
    {
        AnalyzeSamplingResult { row_sample_collector }
    }

    /// The sampler.
    pub fn row_sample_collector(&self) -> (collector: &RowSampleCollector)
        ensures
            collector@ == self@,
    {
        &self.row_sample_collector
    }

    /// The answer that carries the record of the sampler, and the event
    /// that gives back the memory the sampler had reported.
    pub fn into_proto(self) -> (out: (AnalyzeColumnsResp, TraceEvent))
        ensures
            out.0.row_collector matches Some(record) && record@ == self@.record(),
            out.0.collectors@.len() == 0,
            out.0.pk_hist is None,
            out.1 == TraceEvent::Sub(self@.base().reported_memory_usage),
    {
        let mut result = self;
        let (pb_collector, event) = result.row_sample_collector.to_proto();
        (
            AnalyzeColumnsResp {
                collectors: Vec::new(),
                pk_hist: None,
                row_collector: Some(pb_collector),
            },
            event,
        )
    }
}

} // verus!
