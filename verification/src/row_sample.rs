//! The two row samplers: one keeps each row with a fixed probability, the
//! other keeps a fixed number of rows by random priority.

use crate::encoding::values_view;
use crate::error::Error;
use crate::proto::RowSampleCollectorProto;
use crate::proto::RowSampleCollectorRecord;
use crate::proto::RowSampleProto;
use crate::random::random_below;
use crate::request::group_offsets;
use crate::request::groups_in_range;
use crate::request::string_like_flags;
use crate::request::AnalyzeColumnGroup;
use crate::request::ColumnInfo;
use crate::request::SampleRate;
use crate::row_base::BaseRowSampleCollector;
use crate::row_base::RowStatistics;
use crate::row_base::TraceEvent;
use vstd::prelude::*;

verus! {

/// The bytes of a row: the lengths of its encoded columns together.
pub open spec fn row_bytes(row: Seq<Seq<u8>>) -> nat
    decreases row.len(),
{
    if row.len() == 0 {
        0
    } else {
        row_bytes(row.drop_last()) + row.last().len()
    }
}

/// The bytes of a list of rows.
pub open spec fn rows_bytes(rows: Seq<Seq<Seq<u8>>>) -> nat
    decreases rows.len(),
{
    if rows.len() == 0 {
        0
    } else {
        rows_bytes(rows.drop_last()) + row_bytes(rows.last())
    }
}

/// The rows of a list of weighted rows.
pub open spec fn rows_of(samples: Seq<(i64, Seq<Seq<u8>>)>) -> Seq<Seq<Seq<u8>>> {
    Seq::new(samples.len(), |i: int| samples[i].1)
}

/// The first columns of a row take no more bytes than the whole row.
pub proof fn lemma_row_bytes_prefix(row: Seq<Seq<u8>>, n: int)
    requires
        0 <= n <= row.len(),
    ensures
        row_bytes(row.subrange(0, n)) <= row_bytes(row),
    decreases row.len(),
{
    if n == row.len() {
        assert(row.subrange(0, n) =~= row);
    } else {
        lemma_row_bytes_prefix(row.drop_last(), n);
        assert(row.drop_last().subrange(0, n) =~= row.subrange(0, n));
    }
}

/// A row that joins a list, wherever it is put, adds its bytes to those of
/// the list.
pub proof fn lemma_rows_bytes_insert(rows: Seq<Seq<Seq<u8>>>, p: int, row: Seq<Seq<u8>>)
    requires
        0 <= p <= rows.len(),
    ensures
        rows_bytes(rows.insert(p, row)) == rows_bytes(rows) + row_bytes(row),
    decreases rows.len(),
{
    let grown = rows.insert(p, row);
    if p == rows.len() {
        assert(grown.drop_last() =~= rows);
    } else {
        lemma_rows_bytes_insert(rows.drop_last(), p, row);
        assert(grown.drop_last() =~= rows.drop_last().insert(p, row));
        assert(grown.last() == rows.last());
    }
}

/// A row that leaves a list takes its bytes from those of the list.
pub proof fn lemma_rows_bytes_remove(rows: Seq<Seq<Seq<u8>>>, p: int)
    requires
        0 <= p < rows.len(),
    ensures
        rows_bytes(rows.remove(p)) == rows_bytes(rows) - row_bytes(rows[p]),
{
    lemma_rows_bytes_insert(rows.remove(p), p, rows[p]);
    assert(rows.remove(p).insert(p, rows[p]) =~= rows);
}

/// The bytes of a row, where a machine word can hold their number.
pub fn checked_row_size(data: &[Vec<u8>]) -> (size: Option<usize>)
    ensures
        size == if row_bytes(values_view(data@)) <= usize::MAX {
            Some(row_bytes(values_view(data@)) as usize)
        } else {
            None
        },
{
    let ghost row = values_view(data@);
    let mut size: usize = 0;
    let mut i: usize = 0;
    while i < data.len()
        invariant
            i <= data@.len(),
            row == values_view(data@),
            size == row_bytes(row.subrange(0, i as int)),
        decreases data@.len() - i,
    {
        proof {
            assert(row.subrange(0, i + 1).drop_last() =~= row.subrange(0, i as int));
            lemma_row_bytes_prefix(row, i + 1);
        }
        match size.checked_add(data[i].len()) {
            Some(n) => {
                size = n;
            },
            None => {
                return None;
            },
        }
        i += 1;
    }
    assert(row.subrange(0, i as int) =~= row);
    Some(size)
}

/// A copy of a row.
pub fn clone_row(data: &[Vec<u8>]) -> (row: Vec<Vec<u8>>)
    ensures
        values_view(row@) == values_view(data@),
{
    let mut row: Vec<Vec<u8>> = Vec::new();
    let mut i: usize = 0;
    while i < data.len()
        invariant
            i <= data@.len(),
            row@.len() == i,
            forall|k: int| 0 <= k < i ==> (#[trigger] row@[k])@ == data@[k]@,
        decreases data@.len() - i,
    {
        let column = data[i].clone();
        assert(column@ =~= data@[i as int]@);
        row.push(column);
        i += 1;
    }
    assert(values_view(row@) =~= values_view(data@));
    row
}

impl SampleRate {
    /// A draw below the numerator admits the row, so that of the
    /// `denominator` equally likely draws `numerator` admit it.
    pub open spec fn admits(self, draw: u64) -> bool {
        draw < self.numerator
    }

    /// Decides on a row by the draw made for it.
    pub fn decide(&self, draw: u64) -> (pick: bool)
        ensures
            pick == self.admits(draw),
    {
        draw < self.numerator
    }
}

/// What a fixed-rate sampler holds.
pub struct BernoulliSample {
    pub base: RowStatistics,
    pub samples: Seq<Seq<Seq<u8>>>,
    pub sample_rate: SampleRate,
}

impl BernoulliSample {
    /// The statistics are well formed and the accounted memory is that of
    /// the sampled rows.
    pub open spec fn wf(self) -> bool {
        self.base.wf() && self.base.memory_usage == rows_bytes(self.samples)
    }

    /// The decision on a row by the draw made for it: the rate decides,
    /// and a rate without a denominator admits nothing.
    pub open spec fn pick_with(self, draw: u64) -> bool {
        self.sample_rate.denominator > 0 && self.sample_rate.admits(draw)
    }

    /// The sampler after a picked row was stored: the row joins the sample,
    /// its bytes the accounted memory, and a report is made if due.
    pub open spec fn push(self, data: Seq<Seq<u8>>) -> (BernoulliSample, Option<TraceEvent>) {
        let charged = RowStatistics {
            memory_usage: (self.base.memory_usage + row_bytes(data)) as usize,
            ..self.base
        };
        (
            BernoulliSample {
                base: charged.report(false).0,
                samples: self.samples.push(data),
                ..self
            },
            charged.report(false).1,
        )
    }

    /// The sampler after its record was taken: the sample and the sketches
    /// are gone, and no memory is accounted or reported.
    pub open spec fn finished(self) -> BernoulliSample {
        BernoulliSample {
            base: RowStatistics {
                memory_usage: 0,
                reported_memory_usage: 0,
                fm_sketches: Seq::empty(),
                ..self.base
            },
            samples: Seq::empty(),
            ..self
        }
    }

    /// The record of the sampler: the rows in the order they were picked,
    /// without weights, and the shared statistics.
    pub open spec fn record(self) -> RowSampleCollectorRecord {
        RowSampleCollectorRecord {
            samples: Seq::new(self.samples.len(), |i: int| (self.samples[i], None::<i64>)),
            null_counts: self.base.null_count,
            count: self.base.count,
            fm_sketch: Seq::new(
                self.base.fm_sketches.len(),
                |i: int| self.base.fm_sketches[i].hashes,
            ),
            total_size: self.base.total_sizes,
        }
    }
}

/// Row sampler that keeps each row with a fixed probability.
pub struct BernoulliRowSampleCollector {
    base: BaseRowSampleCollector,
    samples: Vec<Vec<Vec<u8>>>,
    sample_rate: SampleRate,
}

/// The views of a list of rows.
pub open spec fn rows_view(rows: Seq<Vec<Vec<u8>>>) -> Seq<Seq<Seq<u8>>> {
    Seq::new(rows.len(), |i: int| values_view(rows[i]@))
}

impl View for BernoulliRowSampleCollector {
    type V = BernoulliSample;

    closed spec fn view(&self) -> BernoulliSample {
        BernoulliSample {
            base: self.base@,
            samples: rows_view(self.samples@),
            sample_rate: self.sample_rate,
        }
    }
}

impl Default for BernoulliRowSampleCollector {
    fn default() -> (collector: BernoulliRowSampleCollector)
        ensures
            collector@ == (BernoulliSample {
                base: RowStatistics::empty(0, 0),
                samples: Seq::empty(),
                sample_rate: SampleRate { numerator: 0, denominator: 1 },
            }),
            collector@.wf(),
    {
        BernoulliRowSampleCollector::new(SampleRate { numerator: 0, denominator: 1 }, 0, 0)
    }
}

impl BernoulliRowSampleCollector {
    /// A sampler that has seen nothing.
    pub fn new(sample_rate: SampleRate, max_fm_sketch_size: usize, col_and_group_len: usize) -> (collector:
        BernoulliRowSampleCollector)
        ensures
            collector@ == (BernoulliSample {
                base: RowStatistics::empty(max_fm_sketch_size as nat, col_and_group_len as nat),
                samples: Seq::empty(),
                sample_rate,
            }),
            collector@.wf(),
    {
        let collector = BernoulliRowSampleCollector {
            base: BaseRowSampleCollector::new(max_fm_sketch_size, col_and_group_len),
            samples: Vec::new(),
            sample_rate,
        };
        assert(collector@.samples =~= Seq::empty());
        collector
    }

    /// The shared statistics.
    pub fn base(&self) -> (base: &BaseRowSampleCollector)
        ensures
            base@ == self@.base,
    {
        &self.base
    }

    /// The sampled rows in the order they were picked.
    pub fn samples(&self) -> (samples: &Vec<Vec<Vec<u8>>>)
        ensures
            rows_view(samples@) == self@.samples,
    {
        &self.samples
    }


    /// Takes one row into the shared statistics, sampled or not.
    pub fn observe_row(
        &mut self,
        columns_val: &[Vec<u8>],
        collation_keys_val: &[Vec<u8>],
        columns_info: &[ColumnInfo],
        column_groups: &[AnalyzeColumnGroup],
    )
        requires
            old(self)@.wf(),
            columns_val@.len() == collation_keys_val@.len(),
            columns_val@.len() == columns_info@.len(),
            columns_val@.len() + column_groups@.len() <= old(self)@.base.len(),
            groups_in_range(group_offsets(column_groups@), columns_val@.len()),
        ensures
            final(self)@ == (BernoulliSample {
                base: old(self)@.base.observe_row(
                    values_view(columns_val@),
                    values_view(collation_keys_val@),
                    string_like_flags(columns_info@),
                    group_offsets(column_groups@),
                ),
                ..old(self)@
            }),
            final(self)@.wf(),
            final(self)@.base.len() == old(self)@.base.len(),
    {
        self.base.observe_row(columns_val, collation_keys_val, columns_info, column_groups);
    }

    /// Gives entry `to` of the shared statistics the sketch, null count and
    /// size of entry `from`.
    pub fn copy_column(&mut self, from: usize, to: usize)
        requires
            old(self)@.wf(),
            from < old(self)@.base.len(),
            to < old(self)@.base.len(),
        ensures
            final(self)@ == (BernoulliSample {
                base: old(self)@.base.copy_column(from as int, to as int),
                ..old(self)@
            }),
            final(self)@.wf(),
            final(self)@.base.len() == old(self)@.base.len(),
    {
        self.base.copy_column(from, to);
    }

    /// Draws the number that decides on the next row: one below the rate's
    /// denominator, or zero where the rate has none.
    pub fn draw(&mut self) -> (draw: u64)
        ensures
            final(self)@ == old(self)@,
            old(self)@.sample_rate.denominator > 0 ==> draw < old(self)@.sample_rate.denominator,
            old(self)@.sample_rate.denominator == 0 ==> draw == 0,
    {
        if self.sample_rate.denominator == 0 {
            return 0;
        }
        let denominator = self.sample_rate.denominator;
        random_below(self.base.rng(), denominator)
    }

    /// Decides on a row by the draw made for it.
    pub fn pick_with(&self, draw: u64) -> (pick: bool)
        ensures
            pick == self@.pick_with(draw),
    {
        self.sample_rate.denominator > 0 && self.sample_rate.decide(draw)
    }

    /// Decides by one draw whether the next row is sampled, so that of the
    /// rows a share of `numerator` in `denominator` is expected. A rate of
    /// zero admits no row.
    pub fn pick_sample(&mut self) -> (pick: bool)
        ensures
            final(self)@ == old(self)@,
            exists|draw: u64|
                (old(self)@.sample_rate.denominator > 0 ==> draw
                    < old(self)@.sample_rate.denominator) && pick
                    == #[trigger] old(self)@.pick_with(draw),
            old(self)@.sample_rate.numerator == 0 ==> !pick,
    {
        let draw = self.draw();
        let pick = self.pick_with(draw);
        assert(pick == old(self)@.pick_with(draw));
        pick
    }

    /// Stores a row that was picked. A row whose bytes cannot be added to
    /// the accounted memory is refused and leaves the sampler as it was.
    pub fn push_sample(&mut self, data: &[Vec<u8>]) -> (done: Result<Option<TraceEvent>, Error>)
        requires
            old(self)@.wf(),
        ensures
            done is Ok <==> old(self)@.base.memory_usage + row_bytes(values_view(data@))
                <= usize::MAX,
            done matches Ok(event) ==> final(self)@ == old(self)@.push(values_view(data@)).0
                && event == old(self)@.push(values_view(data@)).1,
            done matches Err(e) ==> e == Error::MemoryExhausted && final(self)@ == old(self)@,
            final(self)@.wf(),
            final(self)@.base.len() == old(self)@.base.len(),
    {
        let memory = match checked_row_size(data) {
            Some(size) => self.base.memory_usage().checked_add(size),
            None => None,
        };
        let memory = match memory {
            Some(memory) => memory,
            None => {
                return Err(Error::MemoryExhausted);
            },
        };
        let sample = clone_row(data);
        self.base.set_memory_usage(memory);
        let event = self.base.report_memory_usage(false);
        self.samples.push(sample);
        proof {
            assert(self@.samples =~= old(self)@.samples.push(values_view(data@)));
            assert(self@.samples.drop_last() =~= old(self)@.samples);
        }
        Ok(event)
    }

    /// Reports the accounted memory, whether or not a report is due.
    pub fn report_memory_usage(&mut self) -> (event: Option<TraceEvent>)
        ensures
            final(self)@ == (BernoulliSample { base: old(self)@.base.report(true).0, ..old(self)@ }),
            event == old(self)@.base.report(true).1,
            old(self)@.wf() ==> final(self)@.wf(),
    {
        self.base.report_memory_usage(true)
    }


    /// Gives the sampler up without taking its record: the event gives
    /// back all the memory that was reported, so that nothing stays on the
    /// account.
    pub fn release(self) -> (event: TraceEvent)
        ensures
            event == TraceEvent::Sub(self@.base.reported_memory_usage),
    {
        TraceEvent::Sub(self.base.reported_memory_usage())
    }

    /// Takes the record of the sampler and releases what it accounted for:
    /// the event gives back all the memory that was reported.
    pub fn to_proto(&mut self) -> (out: (RowSampleCollectorProto, TraceEvent))
        ensures
            out.0@ == old(self)@.record(),
            out.1 == TraceEvent::Sub(old(self)@.base.reported_memory_usage),
            final(self)@ == old(self)@.finished(),
    {
        self.base.set_memory_usage(0);
        let reported = self.base.reported_memory_usage();
        let _ = self.base.report_memory_usage(true);
        let mut taken: Vec<Vec<Vec<u8>>> = Vec::new();
        std::mem::swap(&mut taken, &mut self.samples);
        let mut samples: Vec<RowSampleProto> = Vec::new();
        let mut i: usize = 0;
        let ghost rows = rows_view(taken@);
        while i < taken.len()
            invariant
                i <= taken@.len(),
                taken@.len() == rows.len(),
                samples@.len() == i,
                forall|k: int| 0 <= k < i ==> (#[trigger] samples@[k])@ == (rows[k], None::<i64>),
                forall|k: int| i <= k < taken@.len() ==> values_view((#[trigger] taken@[k])@) == rows[k],
            decreases taken@.len() - i,
        {
            let mut row: Vec<Vec<u8>> = Vec::new();
            std::mem::swap(&mut row, &mut taken[i]);
            samples.push(RowSampleProto { row, weight: None });
            i += 1;
        }
        let mut s = RowSampleCollectorProto {
            samples,
            null_counts: Vec::new(),
            count: 0,
            fm_sketch: Vec::new(),
            total_size: Vec::new(),
        };
        self.base.fill_proto(&mut s);
        proof {
            assert(s@.samples =~= old(self)@.record().samples);
            assert(self@.samples =~= Seq::empty());
        }
        (s, TraceEvent::Sub(reported))
    }
}

} // verus!
