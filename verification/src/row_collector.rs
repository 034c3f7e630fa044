//! A row sampler of either kind.

use crate::encoding::values_view;
use crate::error::Error;
use crate::proto::RowSampleCollectorProto;
use crate::proto::RowSampleCollectorRecord;
use crate::request::group_offsets;
use crate::request::groups_in_range;
use crate::request::string_like_flags;
use crate::request::AnalyzeColumnGroup;
use crate::request::ColumnInfo;
use crate::reservoir::lemma_pick_wf;
use crate::reservoir::lemma_place_exists;
use crate::reservoir::lemma_push_wf;
use crate::reservoir::place;
use crate::reservoir::ReservoirRowSampleCollector;
use crate::reservoir::ReservoirSample;
use crate::row_base::lemma_observe_row_wf;
use crate::row_base::RowStatistics;
use crate::row_base::TraceEvent;
use crate::row_sample::row_bytes;
use crate::row_sample::BernoulliRowSampleCollector;
use crate::row_sample::BernoulliSample;
use vstd::prelude::*;

verus! {

/// What a row sampler holds, of either kind.
pub enum RowSample {
    Bernoulli(BernoulliSample),
    Reservoir(ReservoirSample),
}

/// The priority that a draw stands for: the draw itself, or the largest
/// priority where the draw is beyond it.
pub open spec fn priority_of(draw: u64) -> i64 {
    if draw <= i64::MAX {
        draw as i64
    } else {
        i64::MAX
    }
}

/// What became of one row: whether it was sampled, and the report of
/// memory that storing it made due, if any.
pub struct RowOutcome {
    pub pick: bool,
    pub event: Option<TraceEvent>,
}

impl RowSample {
    /// The sampler is well formed.
    pub open spec fn wf(self) -> bool {
        match self {
            RowSample::Bernoulli(b) => b.wf(),
            RowSample::Reservoir(r) => r.wf(),
        }
    }

    /// The shared statistics.
    pub open spec fn base(self) -> RowStatistics {
        match self {
            RowSample::Bernoulli(b) => b.base,
            RowSample::Reservoir(r) => r.base,
        }
    }

    /// The sampler with other shared statistics.
    pub open spec fn with_base(self, base: RowStatistics) -> RowSample {
        match self {
            RowSample::Bernoulli(b) => RowSample::Bernoulli(BernoulliSample { base, ..b }),
            RowSample::Reservoir(r) => RowSample::Reservoir(ReservoirSample { base, ..r }),
        }
    }

    /// The number of rows sampled.
    pub open spec fn sample_len(self) -> nat {
        match self {
            RowSample::Bernoulli(b) => b.samples.len(),
            RowSample::Reservoir(r) => r.samples.len(),
        }
    }

    /// The sampler has room for one more row.
    pub open spec fn has_room(self) -> bool {
        match self {
            RowSample::Bernoulli(b) => true,
            RowSample::Reservoir(r) => r.samples.len() < r.max_sample_size,
        }
    }

    /// The sampler after the decision on a row by the draw made for it,
    /// and the decision.
    pub open spec fn pick_with(self, draw: u64) -> (RowSample, bool) {
        match self {
            RowSample::Bernoulli(b) => (self, b.pick_with(draw)),
            RowSample::Reservoir(r) => (
                RowSample::Reservoir(r.pick_with(priority_of(draw)).0),
                r.pick_with(priority_of(draw)).1,
            ),
        }
    }

    /// The sampler after a picked row was stored, and the report that
    /// became due.
    pub open spec fn push(self, data: Seq<Seq<u8>>) -> (RowSample, Option<TraceEvent>) {
        match self {
            RowSample::Bernoulli(b) => (RowSample::Bernoulli(b.push(data).0), b.push(data).1),
            RowSample::Reservoir(r) => (RowSample::Reservoir(r.push(data).0), r.push(data).1),
        }
    }

    /// The sampler after one row that drew `draw`. The decision is made
    /// first; the statistics take the row in whatever the decision; a picked
    /// row is stored then, unless its bytes cannot be accounted for, which
    /// is an error.
    pub open spec fn sample_row(
        self,
        draw: u64,
        vals: Seq<Seq<u8>>,
        keys: Seq<Seq<u8>>,
        string_like: Seq<bool>,
        groups: Seq<Seq<usize>>,
    ) -> (RowSample, Result<RowOutcome, Error>) {
        let decided = self.pick_with(draw);
        let observed = decided.0.with_base(
            decided.0.base().observe_row(vals, keys, string_like, groups),
        );
        if !decided.1 {
            (observed, Ok(RowOutcome { pick: false, event: None }))
        } else if observed.base().memory_usage + row_bytes(vals) > usize::MAX {
            (observed, Err(Error::MemoryExhausted))
        } else {
            (observed.push(vals).0, Ok(RowOutcome { pick: true, event: observed.push(vals).1 }))
        }
    }

    /// The record of the sampler.
    pub open spec fn record(self) -> RowSampleCollectorRecord {
        match self {
            RowSample::Bernoulli(b) => b.record(),
            RowSample::Reservoir(r) => r.record(),
        }
    }

    /// The sampler after its record was taken.
    pub open spec fn finished(self) -> RowSample {
        match self {
            RowSample::Bernoulli(b) => RowSample::Bernoulli(b.finished()),
            RowSample::Reservoir(r) => RowSample::Reservoir(r.finished()),
        }
    }
}

/// One row keeps a sampler well formed, whatever it draws and whether or
/// not the row can be stored; a reservoir keeps its size and stays within
/// it.
pub proof fn lemma_sample_row_wf(
    s: RowSample,
    draw: u64,
    vals: Seq<Seq<u8>>,
    keys: Seq<Seq<u8>>,
    string_like: Seq<bool>,
    groups: Seq<Seq<usize>>,
)
    requires
        s.wf(),
    ensures
        s.sample_row(draw, vals, keys, string_like, groups).0.wf(),
        s.sample_row(draw, vals, keys, string_like, groups).0.base().len() == s.base().len(),
        s.sample_row(draw, vals, keys, string_like, groups).0 is Reservoir <==> s is Reservoir,
        s matches RowSample::Reservoir(r) ==> s.sample_row(
            draw,
            vals,
            keys,
            string_like,
            groups,
        ).0->Reservoir_0.max_sample_size == r.max_sample_size,
        s.sample_row(draw, vals, keys, string_like, groups).1 matches Ok(outcome) ==> s.sample_row(
            draw,
            vals,
            keys,
            string_like,
            groups,
        ).0.sample_len() == if !outcome.pick {
            s.sample_len()
        } else if s.has_room() {
            s.sample_len() + 1
        } else {
            s.sample_len()
        },
{
    let decided = s.pick_with(draw);
    lemma_observe_row_wf(decided.0.base(), vals, keys, string_like, groups);
    let observed = decided.0.with_base(
        decided.0.base().observe_row(vals, keys, string_like, groups),
    );
    match s {
        RowSample::Bernoulli(b) => {
            if decided.1 && observed.base().memory_usage + row_bytes(vals) <= usize::MAX {
                assert(b.samples.push(vals).drop_last() =~= b.samples);
            }
        },
        RowSample::Reservoir(r) => {
            lemma_pick_wf(r, priority_of(draw));
            let held = observed->Reservoir_0;
            if decided.1 && observed.base().memory_usage + row_bytes(vals) <= usize::MAX {
                lemma_place_exists(held.samples, held.cur_rng);
                lemma_push_wf(held, vals, place(held.samples, held.cur_rng));
            }
        },
    }
}

/// A sampler that can sample nothing samples nothing: with a reservoir of
/// size zero, or a rate of zero, no draw picks a row, and the sample stays
/// as it is.
pub proof fn lemma_abnormal_sampling(
    s: RowSample,
    draw: u64,
    vals: Seq<Seq<u8>>,
    keys: Seq<Seq<u8>>,
    string_like: Seq<bool>,
    groups: Seq<Seq<usize>>,
)
    requires
        match s {
            RowSample::Bernoulli(b) => b.sample_rate.numerator == 0,
            RowSample::Reservoir(r) => r.max_sample_size == 0,
        },
    ensures
        !s.pick_with(draw).1,
        s.sample_row(draw, vals, keys, string_like, groups).1 == Ok::<RowOutcome, Error>(
            RowOutcome { pick: false, event: None },
        ),
        s.sample_row(draw, vals, keys, string_like, groups).0.sample_len() == s.sample_len(),
        match s {
            RowSample::Bernoulli(b) => s.sample_row(draw, vals, keys, string_like, groups).0
                matches RowSample::Bernoulli(after) && after.samples == b.samples,
            RowSample::Reservoir(r) => s.sample_row(draw, vals, keys, string_like, groups).0
                matches RowSample::Reservoir(after) && after.samples == r.samples,
        },
{
}

/// Whether or not a row is sampled, the statistics take it in the same:
/// counts, sizes and sketches after the row do not depend on the draw.
pub proof fn lemma_statistics_ignore_sampling(
    s: RowSample,
    draw1: u64,
    draw2: u64,
    vals: Seq<Seq<u8>>,
    keys: Seq<Seq<u8>>,
    string_like: Seq<bool>,
    groups: Seq<Seq<usize>>,
)
    ensures
        ({
            let a = s.sample_row(draw1, vals, keys, string_like, groups).0.base();
            let b = s.sample_row(draw2, vals, keys, string_like, groups).0.base();
            let c = s.base().observe_row(vals, keys, string_like, groups);
            &&& a.null_count == c.null_count && b.null_count == c.null_count
            &&& a.count == c.count && b.count == c.count
            &&& a.fm_sketches == c.fm_sketches && b.fm_sketches == c.fm_sketches
            &&& a.total_sizes == c.total_sizes && b.total_sizes == c.total_sizes
        }),
{
}

/// A row sampler of either kind.
pub enum RowSampleCollector {
    Bernoulli(BernoulliRowSampleCollector),
    Reservoir(ReservoirRowSampleCollector),
}

impl View for RowSampleCollector {
    type V = RowSample;

    open spec fn view(&self) -> RowSample {
        match self {
            RowSampleCollector::Bernoulli(b) => RowSample::Bernoulli(b@),
            RowSampleCollector::Reservoir(r) => RowSample::Reservoir(r@),
        }
    }
}

impl RowSampleCollector {
    /// The memory that the sample is accounted to take.
    pub fn get_memory_usage(&self) -> (n: usize)
        ensures
            n == self@.base().memory_usage,
    {
        match self {
            RowSampleCollector::Bernoulli(b) => b.base().memory_usage(),
            RowSampleCollector::Reservoir(r) => r.base().memory_usage(),
        }
    }

    /// The memory that was reported so far.
    pub fn get_reported_memory_usage(&self) -> (n: usize)
        ensures
            n == self@.base().reported_memory_usage,
    {
        match self {
            RowSampleCollector::Bernoulli(b) => b.base().reported_memory_usage(),
            RowSampleCollector::Reservoir(r) => r.base().reported_memory_usage(),
        }
    }

    /// Draws the number that decides on the next row: for a fixed rate one
    /// below its denominator, for a reservoir a priority.
    pub fn draw(&mut self) -> (draw: u64)
        ensures
            final(self)@ == old(self)@,
            match old(self)@ {
                RowSample::Bernoulli(b) => if b.sample_rate.denominator > 0 {
                    draw < b.sample_rate.denominator
                } else {
                    draw == 0
                },
                RowSample::Reservoir(r) => draw < i64::MAX,
            },
    {
        match self {
            RowSampleCollector::Bernoulli(b) => b.draw(),
            RowSampleCollector::Reservoir(r) => r.draw() as u64,
        }
    }

    /// Decides on a row by the draw made for it.
    pub fn pick_with(&mut self, draw: u64) -> (pick: bool)
        requires
            old(self)@.wf(),
        ensures
            final(self)@ == old(self)@.pick_with(draw).0,
            pick == old(self)@.pick_with(draw).1,
            final(self)@.wf(),
            pick ==> final(self)@.has_room(),
            final(self)@.base().len() == old(self)@.base().len(),
    {
        match self {
            RowSampleCollector::Bernoulli(b) => b.pick_with(draw),
            RowSampleCollector::Reservoir(r) => {
                let priority: i64 = if draw <= 0x7fff_ffff_ffff_ffff {
                    draw as i64
                } else {
                    i64::MAX
                };
                proof {
                    lemma_pick_wf(r@, priority);
                }
                r.pick_with(priority)
            },
        }
    }

    /// Draws for the next row and decides by the draw whether it is
    /// sampled.
    pub fn pick_sample(&mut self) -> (pick: bool)
        requires
            old(self)@.wf(),
        ensures
            exists|draw: u64| (#[trigger] old(self)@.pick_with(draw)) == (final(self)@, pick),
            final(self)@.wf(),
            pick ==> final(self)@.has_room(),
    {
        let draw = self.draw();
        self.pick_with(draw)
    }

    /// Takes one row into the shared statistics, sampled or not.
    pub fn observe_row(
        &mut self,
        columns_val: &[Vec<u8>],
        collation_keys_val: &[Vec<u8>],
        columns_info: &[ColumnInfo],
        column_groups: &[AnalyzeColumnGroup],
    )
        requires
            old(self)@.wf(),
            columns_val@.len() == collation_keys_val@.len(),
            columns_val@.len() == columns_info@.len(),
            columns_val@.len() + column_groups@.len() <= old(self)@.base().len(),
            groups_in_range(group_offsets(column_groups@), columns_val@.len()),
        ensures
            final(self)@ == old(self)@.with_base(
                old(self)@.base().observe_row(
                    values_view(columns_val@),
                    values_view(collation_keys_val@),
                    string_like_flags(columns_info@),
                    group_offsets(column_groups@),
                ),
            ),
            final(self)@.wf(),
            final(self)@.base().len() == old(self)@.base().len(),
    {
        match self {
            RowSampleCollector::Bernoulli(b) => b.observe_row(
                columns_val,
                collation_keys_val,
                columns_info,
                column_groups,
            ),
            RowSampleCollector::Reservoir(r) => r.observe_row(
                columns_val,
                collation_keys_val,
                columns_info,
                column_groups,
            ),
        }
    }

    /// Gives entry `to` of the shared statistics the sketch, null count and
    /// size of entry `from`.
    pub fn copy_column(&mut self, from: usize, to: usize)
        requires
            old(self)@.wf(),
            from < old(self)@.base().len(),
            to < old(self)@.base().len(),
        ensures
            final(self)@ == old(self)@.with_base(
                old(self)@.base().copy_column(from as int, to as int),
            ),
            final(self)@.wf(),
            final(self)@.base().len() == old(self)@.base().len(),
    {
        match self {
            RowSampleCollector::Bernoulli(b) => b.copy_column(from, to),
            RowSampleCollector::Reservoir(r) => r.copy_column(from, to),
        }
    }

    /// Stores a row that was picked. A row whose bytes cannot be added to
    /// the accounted memory is refused and leaves the sampler as it was.
    pub fn push_sample(&mut self, data: &[Vec<u8>]) -> (done: Result<Option<TraceEvent>, Error>)
        requires
            old(self)@.wf(),
            old(self)@.has_room(),
        ensures
            done is Ok <==> old(self)@.base().memory_usage + row_bytes(values_view(data@))
                <= usize::MAX,
            done matches Ok(event) ==> final(self)@ == old(self)@.push(values_view(data@)).0
                && event == old(self)@.push(values_view(data@)).1,
            done matches Err(e) ==> e == Error::MemoryExhausted && final(self)@ == old(self)@,
            final(self)@.wf(),
            final(self)@.base().len() == old(self)@.base().len(),
    {
        match self {
            RowSampleCollector::Bernoulli(b) => b.push_sample(data),
            RowSampleCollector::Reservoir(r) => r.push_sample(data),
        }
    }

    /// Takes in one row that drew `draw`: decides on it, takes it into the
    /// statistics, and stores it if it was picked.
    pub fn sample_row_with(
        &mut self,
        draw: u64,
        columns_val: &[Vec<u8>],
        collation_keys_val: &[Vec<u8>],
        columns_info: &[ColumnInfo],
        column_groups: &[AnalyzeColumnGroup],
    ) -> (done: Result<RowOutcome, Error>)
        requires
            old(self)@.wf(),
            columns_val@.len() == collation_keys_val@.len(),
            columns_val@.len() == columns_info@.len(),
            columns_val@.len() + column_groups@.len() <= old(self)@.base().len(),
            groups_in_range(group_offsets(column_groups@), columns_val@.len()),
        ensures
            (final(self)@, done) == old(self)@.sample_row(
                draw,
                values_view(columns_val@),
                values_view(collation_keys_val@),
                string_like_flags(columns_info@),
                group_offsets(column_groups@),
            ),
            final(self)@.wf(),
            final(self)@.base().len() == old(self)@.base().len(),
    {
        let pick = self.pick_with(draw);
        self.observe_row(columns_val, collation_keys_val, columns_info, column_groups);
        if !pick {
            return Ok(RowOutcome { pick: false, event: None });
        }
        match self.push_sample(columns_val) {
            Ok(event) => Ok(RowOutcome { pick: true, event }),
            Err(e) => Err(e),
        }
    }

    /// Takes in one row, with a draw made at random.
    pub fn sample_row(
        &mut self,
        columns_val: &[Vec<u8>],
        collation_keys_val: &[Vec<u8>],
        columns_info: &[ColumnInfo],
        column_groups: &[AnalyzeColumnGroup],
    ) -> (done: Result<RowOutcome, Error>)
        requires
            old(self)@.wf(),
            columns_val@.len() == collation_keys_val@.len(),
            columns_val@.len() == columns_info@.len(),
            columns_val@.len() + column_groups@.len() <= old(self)@.base().len(),
            groups_in_range(group_offsets(column_groups@), columns_val@.len()),
        ensures
            exists|draw: u64|
                (final(self)@, done) == #[trigger] old(self)@.sample_row(
                    draw,
                    values_view(columns_val@),
                    values_view(collation_keys_val@),
                    string_like_flags(columns_info@),
                    group_offsets(column_groups@),
                ),
            final(self)@.wf(),
            final(self)@.base().len() == old(self)@.base().len(),
    {
        let draw = self.draw();
        self.sample_row_with(draw, columns_val, collation_keys_val, columns_info, column_groups)
    }

    /// Reports the accounted memory, whether or not a report is due.
    pub fn report_memory_usage(&mut self) -> (event: Option<TraceEvent>)
        ensures
            final(self)@ == old(self)@.with_base(old(self)@.base().report(true).0),
            event == old(self)@.base().report(true).1,
            old(self)@.wf() ==> final(self)@.wf(),
    {
        match self {
            RowSampleCollector::Bernoulli(b) => b.report_memory_usage(),
            RowSampleCollector::Reservoir(r) => r.report_memory_usage(),
        }
    }

    /// Gives the sampler up without taking its record: the event gives
    /// back all the memory that was reported, so that nothing stays on the
    /// account.
    pub fn release(self) -> (event: TraceEvent)
        ensures
            event == TraceEvent::Sub(self@.base().reported_memory_usage),
    {
        match self {
            RowSampleCollector::Bernoulli(b) => b.release(),
            RowSampleCollector::Reservoir(r) => r.release(),
        }
    }

    /// Takes the record of the sampler and releases what it accounted for:
    /// the event gives back all the memory that was reported.
    pub fn to_proto(&mut self) -> (out: (RowSampleCollectorProto, TraceEvent))
        ensures
            out.0@ == old(self)@.record(),
            out.1 == TraceEvent::Sub(old(self)@.base().reported_memory_usage),
            final(self)@ == old(self)@.finished(),
    {
        match self {
            RowSampleCollector::Bernoulli(b) => b.to_proto(),
            RowSampleCollector::Reservoir(r) => r.to_proto(),
        }
    }
}

} // verus!
