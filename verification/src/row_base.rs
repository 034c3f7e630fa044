//! What every row sampler keeps beside its sample: per-column and
//! per-group null counts, sizes and distinct-value sketches, and the
//! account of the memory that the sample takes.

use crate::encoding::add_payload;
use crate::encoding::is_null;
use crate::encoding::is_null_value;
use crate::encoding::payload_size;
use crate::encoding::values_view;
use crate::fmsketch::lemma_insert_wf;
use crate::fmsketch::DistinctValues;
use crate::fmsketch::FmSketch;
use crate::hashing::hash128;
use crate::hashing::hash64;
use crate::proto::FmSketchProto;
use crate::proto::RowSampleCollectorProto;
use crate::proto::RowSampleCollectorRecord;
use crate::random::new_rng;
use crate::request::group_offsets;
use crate::request::groups_in_range;
use crate::request::string_like_flags;
use crate::request::AnalyzeColumnGroup;
use crate::request::ColumnInfo;
use rand::rngs::StdRng;
use vstd::prelude::*;

verus! {

/// The change in accounted memory beyond which it is reported at once.
pub const MEMORY_REPORT_THRESHOLD: usize = 1024 * 1024;

/// A change to report to the process-wide account of memory.
#[derive(Clone, Copy, Debug, PartialEq, Eq, Structural)]
pub enum TraceEvent {
    Add(usize),
    Sub(usize),
}

/// By how much an event, if any, changes the account.
pub open spec fn event_delta(event: Option<TraceEvent>) -> int {
    match event {
        Some(TraceEvent::Add(n)) => n as int,
        Some(TraceEvent::Sub(n)) => -(n as int),
        None => 0,
    }
}

/// The bytes by which column `j` enters sketches: its sort key where the
/// column is compared under a collation, its encoding otherwise.
pub open spec fn sort_key(
    vals: Seq<Seq<u8>>,
    keys: Seq<Seq<u8>>,
    string_like: Seq<bool>,
    j: int,
) -> Seq<u8> {
    if string_like[j] {
        keys[j]
    } else {
        vals[j]
    }
}

/// The bytes by which a group of columns enters its sketch: the sort keys
/// of its members, one after the other.
pub open spec fn group_key(
    vals: Seq<Seq<u8>>,
    keys: Seq<Seq<u8>>,
    string_like: Seq<bool>,
    offsets: Seq<usize>,
) -> Seq<u8>
    decreases offsets.len(),
{
    if offsets.len() == 0 {
        Seq::empty()
    } else {
        group_key(vals, keys, string_like, offsets.drop_last()) + sort_key(
            vals,
            keys,
            string_like,
            offsets.last() as int,
        )
    }
}

/// A running size after the payloads of the members of a group that are
/// not null.
pub open spec fn add_group_payload(total: u64, vals: Seq<Seq<u8>>, offsets: Seq<usize>) -> u64
    decreases offsets.len(),
{
    if offsets.len() == 0 {
        total
    } else {
        let before = add_group_payload(total, vals, offsets.drop_last());
        let v = vals[offsets.last() as int];
        if is_null_value(v) {
            before
        } else {
            add_payload(before, v)
        }
    }
}

/// What the shared part of a row sampler holds. The first entries of each
/// list stand for the columns, the entries after them for the groups.
pub struct RowStatistics {
    pub null_count: Seq<u64>,
    pub count: u64,
    pub fm_sketches: Seq<DistinctValues>,
    pub total_sizes: Seq<u64>,
    pub memory_usage: usize,
    pub reported_memory_usage: usize,
}

impl RowStatistics {
    /// The statistics of `len` columns and groups of which nothing was
    /// seen.
    pub open spec fn empty(max_fm_sketch_size: nat, len: nat) -> RowStatistics {
        RowStatistics {
            null_count: Seq::new(len, |i: int| 0u64),
            count: 0,
            fm_sketches: Seq::new(len, |i: int| DistinctValues::empty(max_fm_sketch_size)),
            total_sizes: Seq::new(len, |i: int| 0u64),
            memory_usage: 0,
            reported_memory_usage: 0,
        }
    }

    /// The number of columns and groups.
    pub open spec fn len(self) -> nat {
        self.null_count.len()
    }

    /// The three lists are of one length and the sketches are well formed.
    pub open spec fn wf(self) -> bool {
        &&& self.fm_sketches.len() == self.null_count.len()
        &&& self.total_sizes.len() == self.null_count.len()
        &&& forall|i: int| 0 <= i < self.fm_sketches.len() ==> (#[trigger] self.fm_sketches[i]).wf()
    }

    /// Column `i` holds a null in this row.
    pub open spec fn null_at(vals: Seq<Seq<u8>>, i: int) -> bool {
        0 <= i < vals.len() && is_null_value(vals[i])
    }

    /// Column `i` holds a value in this row.
    pub open spec fn value_at(vals: Seq<Seq<u8>>, i: int) -> bool {
        0 <= i < vals.len() && !is_null_value(vals[i])
    }

    /// The statistics after the columns of one row. A null raises the null
    /// count of its column and nothing else; any other value enters the
    /// column's sketch by its sort key and raises the column's size by its
    /// payload.
    pub open spec fn collect_column(
        self,
        vals: Seq<Seq<u8>>,
        keys: Seq<Seq<u8>>,
        string_like: Seq<bool>,
    ) -> RowStatistics {
        RowStatistics {
            null_count: Seq::new(
                self.null_count.len(),
                |i: int|
                    if Self::null_at(vals, i) {
                        self.null_count[i].saturating_add(1)
                    } else {
                        self.null_count[i]
                    },
            ),
            fm_sketches: Seq::new(
                self.fm_sketches.len(),
                |i: int|
                    if Self::value_at(vals, i) {
                        self.fm_sketches[i].insert(hash64(sort_key(vals, keys, string_like, i)))
                    } else {
                        self.fm_sketches[i]
                    },
            ),
            total_sizes: Seq::new(
                self.total_sizes.len(),
                |i: int|
                    if Self::value_at(vals, i) {
                        add_payload(self.total_sizes[i], vals[i])
                    } else {
                        self.total_sizes[i]
                    },
            ),
            ..self
        }
    }

    /// Entry `i` stands for a group of several columns.
    pub open spec fn group_at(col_len: nat, groups: Seq<Seq<usize>>, i: int) -> bool {
        col_len <= i < col_len + groups.len() && groups[i - col_len].len() != 1
    }

    /// The statistics after the groups of one row. A group of one column
    /// is left alone. Any other group takes the payloads of its members
    /// that are not null into its size, and the sort keys of all its
    /// members, joined, into its sketch.
    pub open spec fn collect_column_group(
        self,
        vals: Seq<Seq<u8>>,
        keys: Seq<Seq<u8>>,
        string_like: Seq<bool>,
        groups: Seq<Seq<usize>>,
    ) -> RowStatistics {
        RowStatistics {
            fm_sketches: Seq::new(
                self.fm_sketches.len(),
                |i: int|
                    if Self::group_at(vals.len(), groups, i) {
                        self.fm_sketches[i].insert(
                            hash64(group_key(vals, keys, string_like, groups[i - vals.len()])),
                        )
                    } else {
                        self.fm_sketches[i]
                    },
            ),
            total_sizes: Seq::new(
                self.total_sizes.len(),
                |i: int|
                    if Self::group_at(vals.len(), groups, i) {
                        add_group_payload(self.total_sizes[i], vals, groups[i - vals.len()])
                    } else {
                        self.total_sizes[i]
                    },
            ),
            ..self
        }
    }

    /// The statistics after one more row was counted.
    pub open spec fn count_row(self) -> RowStatistics {
        RowStatistics { count: self.count.saturating_add(1), ..self }
    }

    /// The statistics after one row: the row is counted, then its groups
    /// and its columns are taken in. Whether the row is sampled plays no
    /// part.
    pub open spec fn observe_row(
        self,
        vals: Seq<Seq<u8>>,
        keys: Seq<Seq<u8>>,
        string_like: Seq<bool>,
        groups: Seq<Seq<usize>>,
    ) -> RowStatistics {
        self.count_row().collect_column_group(vals, keys, string_like, groups).collect_column(
            vals,
            keys,
            string_like,
        )
    }

    /// The statistics after entry `to` took the sketch, null count and
    /// size of entry `from`.
    pub open spec fn copy_column(self, from: int, to: int) -> RowStatistics {
        RowStatistics {
            null_count: self.null_count.update(to, self.null_count[from]),
            fm_sketches: self.fm_sketches.update(to, self.fm_sketches[from]),
            total_sizes: self.total_sizes.update(to, self.total_sizes[from]),
            ..self
        }
    }

    /// The accounted memory differs from the reported by more than the
    /// threshold.
    pub open spec fn report_due(self) -> bool {
        self.memory_usage - self.reported_memory_usage > MEMORY_REPORT_THRESHOLD
            || self.reported_memory_usage - self.memory_usage > MEMORY_REPORT_THRESHOLD
    }

    /// The event that brings the reported memory up to the accounted.
    pub open spec fn pending_event(self) -> TraceEvent {
        if self.memory_usage >= self.reported_memory_usage {
            TraceEvent::Add((self.memory_usage - self.reported_memory_usage) as usize)
        } else {
            TraceEvent::Sub((self.reported_memory_usage - self.memory_usage) as usize)
        }
    }

    /// The statistics after a report was considered, and the event to
    /// report: none unless the report is due or forced.
    pub open spec fn report(self, on_finish: bool) -> (RowStatistics, Option<TraceEvent>) {
        if on_finish || self.report_due() {
            (
                RowStatistics { reported_memory_usage: self.memory_usage, ..self },
                Some(self.pending_event()),
            )
        } else {
            (self, None)
        }
    }

    /// The part of the record that the shared statistics fill.
    pub open spec fn fill(self, record: RowSampleCollectorRecord) -> RowSampleCollectorRecord {
        RowSampleCollectorRecord {
            samples: record.samples,
            null_counts: self.null_count,
            count: self.count,
            fm_sketch: Seq::new(self.fm_sketches.len(), |i: int| self.fm_sketches[i].hashes),
            total_size: self.total_sizes,
        }
    }
}

/// One row keeps the statistics well formed, and leaves their length and
/// the account of memory alone.
pub proof fn lemma_observe_row_wf(
    s: RowStatistics,
    vals: Seq<Seq<u8>>,
    keys: Seq<Seq<u8>>,
    string_like: Seq<bool>,
    groups: Seq<Seq<usize>>,
)
    requires
        s.wf(),
    ensures
        s.observe_row(vals, keys, string_like, groups).wf(),
        s.observe_row(vals, keys, string_like, groups).len() == s.len(),
        s.observe_row(vals, keys, string_like, groups).memory_usage == s.memory_usage,
        s.observe_row(vals, keys, string_like, groups).reported_memory_usage
            == s.reported_memory_usage,
{
    let grouped = s.count_row().collect_column_group(vals, keys, string_like, groups);
    assert forall|i: int| 0 <= i < grouped.fm_sketches.len() implies (#[trigger] grouped.fm_sketches[i]).wf() by {
        assert(s.fm_sketches[i].wf());
        if RowStatistics::group_at(vals.len(), groups, i) {
            lemma_insert_wf(
                s.fm_sketches[i],
                hash64(group_key(vals, keys, string_like, groups[i - vals.len()])),
            );
        }
    }
    let after = grouped.collect_column(vals, keys, string_like);
    assert forall|i: int| 0 <= i < after.fm_sketches.len() implies (#[trigger] after.fm_sketches[i]).wf() by {
        assert(grouped.fm_sketches[i].wf());
        if RowStatistics::value_at(vals, i) {
            lemma_insert_wf(grouped.fm_sketches[i], hash64(sort_key(vals, keys, string_like, i)));
        }
    }
}

/// A null in a column raises the null count of that column by one and
/// leaves the column's sketch and size alone; any other value leaves the
/// null count alone.
pub proof fn lemma_null_column_only_counted(
    s: RowStatistics,
    vals: Seq<Seq<u8>>,
    keys: Seq<Seq<u8>>,
    string_like: Seq<bool>,
    i: int,
)
    requires
        s.wf(),
        0 <= i < vals.len() <= s.len(),
    ensures
        ({
            let after = s.collect_column(vals, keys, string_like);
            &&& is_null_value(vals[i]) ==> after.null_count[i] == s.null_count[i].saturating_add(1)
                && after.fm_sketches[i] == s.fm_sketches[i] && after.total_sizes[i]
                == s.total_sizes[i]
            &&& !is_null_value(vals[i]) ==> after.null_count[i] == s.null_count[i]
                && after.total_sizes[i] == add_payload(s.total_sizes[i], vals[i])
        }),
{
}

/// A member of a group that is null adds nothing to the size of the group.
pub proof fn lemma_null_member_adds_nothing(total: u64, vals: Seq<Seq<u8>>, offsets: Seq<usize>)
    requires
        offsets.len() > 0,
        is_null_value(vals[offsets.last() as int]),
    ensures
        add_group_payload(total, vals, offsets) == add_group_payload(
            total,
            vals,
            offsets.drop_last(),
        ),
{
}

/// Every report moves the reported memory by exactly what its event says,
/// leaves the accounted memory alone, and a forced report makes the two
/// equal.
pub proof fn lemma_report_accounts(s: RowStatistics, on_finish: bool)
    ensures
        s.report(on_finish).0.reported_memory_usage == s.reported_memory_usage + event_delta(
            s.report(on_finish).1,
        ),
        s.report(on_finish).0.memory_usage == s.memory_usage,
        on_finish ==> s.report(on_finish).0.reported_memory_usage == s.memory_usage,
        !s.report(on_finish).0.report_due(),
{
}

/// The sum of the events of a run of reports is the difference between the
/// reported memory at its end and at its start: what was reported in all
/// is what the last report says.
pub proof fn lemma_reports_add_up(reported: Seq<int>, events: Seq<Option<TraceEvent>>)
    requires
        reported.len() == events.len() + 1,
        forall|i: int|
            0 <= i < events.len() ==> reported[i + 1] == reported[i] + event_delta(
                #[trigger] events[i],
            ),
    ensures
        sum_of_events(events) == reported.last() - reported[0],
    decreases events.len(),
{
    if events.len() > 0 {
        let front = events.drop_last();
        assert forall|i: int| 0 <= i < front.len() implies reported.drop_last()[i + 1]
            == reported.drop_last()[i] + event_delta(#[trigger] front[i]) by {
            assert(front[i] == events[i]);
        }
        lemma_reports_add_up(reported.drop_last(), front);
        assert(events.last() == events[events.len() - 1]);
    }
}

/// The change that a run of events makes to the account.
pub open spec fn sum_of_events(events: Seq<Option<TraceEvent>>) -> int
    decreases events.len(),
{
    if events.len() == 0 {
        0
    } else {
        sum_of_events(events.drop_last()) + event_delta(events.last())
    }
}

/// The shared part of a row sampler.
pub struct BaseRowSampleCollector {
    null_count: Vec<u64>,
    count: u64,
    fm_sketches: Vec<FmSketch>,
    rng: StdRng,
    total_sizes: Vec<u64>,
    memory_usage: usize,
    reported_memory_usage: usize,
}

/// The views of a list of sketches.
pub open spec fn sketches_view(sketches: Seq<FmSketch>) -> Seq<DistinctValues> {
    Seq::new(sketches.len(), |i: int| sketches[i]@)
}

impl View for BaseRowSampleCollector {
    type V = RowStatistics;

    closed spec fn view(&self) -> RowStatistics {
        RowStatistics {
            null_count: self.null_count@,
            count: self.count,
            fm_sketches: sketches_view(self.fm_sketches@),
            total_sizes: self.total_sizes@,
            memory_usage: self.memory_usage,
            reported_memory_usage: self.reported_memory_usage,
        }
    }
}

fn zero_counts(len: usize) -> (counts: Vec<u64>)
    ensures
        counts@ == Seq::new(len as nat, |i: int| 0u64),
{
    let mut counts: Vec<u64> = Vec::new();
    let mut i: usize = 0;
    while i < len
        invariant
            i <= len,
            counts@ == Seq::new(i as nat, |i: int| 0u64),
        decreases len - i,
    {
        counts.push(0);
        i += 1;
        assert(counts@ =~= Seq::new(i as nat, |i: int| 0u64));
    }
    counts
}

/// Appends the bytes of `src` to `dst`.
pub fn append_bytes(dst: &mut Vec<u8>, src: &Vec<u8>)
    ensures
        final(dst)@ == old(dst)@ + src@,
{
    let mut i: usize = 0;
    while i < src.len()
        invariant
            i <= src.len(),
            dst@ == old(dst)@ + src@.subrange(0, i as int),
        decreases src.len() - i,
    {
        dst.push(src[i]);
        i += 1;
        assert(dst@ =~= old(dst)@ + src@.subrange(0, i as int));
    }
    assert(src@.subrange(0, i as int) =~= src@);
}

impl Default for BaseRowSampleCollector {
    fn default() -> (collector: BaseRowSampleCollector)
        ensures
            collector@ == RowStatistics::empty(0, 0),
            collector@.wf(),
    {
        BaseRowSampleCollector::new(0, 0)
    }
}

impl BaseRowSampleCollector {
    /// The generator that the sampler draws from.
    pub closed spec fn generator(&self) -> StdRng {
        self.rng
    }

    /// Statistics of `col_and_group_len` columns and groups of which nothing
    /// was seen, each with a sketch of at most `max_fm_sketch_size` hashes.
    pub fn new(max_fm_sketch_size: usize, col_and_group_len: usize) -> (collector:
        BaseRowSampleCollector)
        ensures
            collector@ == RowStatistics::empty(
                max_fm_sketch_size as nat,
                col_and_group_len as nat,
            ),
            collector@.wf(),
    {
        let mut fm_sketches: Vec<FmSketch> = Vec::new();
        let mut i: usize = 0;
        while i < col_and_group_len
            invariant
                i <= col_and_group_len,
                fm_sketches@.len() == i,
                forall|j: int|
                    0 <= j < i ==> (#[trigger] fm_sketches@[j])@ == DistinctValues::empty(
                        max_fm_sketch_size as nat,
                    ),
            decreases col_and_group_len - i,
        {
            fm_sketches.push(FmSketch::new(max_fm_sketch_size));
            i += 1;
        }
        let collector = BaseRowSampleCollector {
            null_count: zero_counts(col_and_group_len),
            count: 0,
            fm_sketches,
            rng: new_rng(),
            total_sizes: zero_counts(col_and_group_len),
            memory_usage: 0,
            reported_memory_usage: 0,
        };
        assert(collector@.fm_sketches =~= RowStatistics::empty(
            max_fm_sketch_size as nat,
            col_and_group_len as nat,
        ).fm_sketches);
        collector
    }

    /// The number of rows seen.
    pub fn count(&self) -> (n: u64)
        ensures
            n == self@.count,
    {
        self.count
    }

    /// The null count of each column and group.
    pub fn null_count(&self) -> (counts: &Vec<u64>)
        ensures
            counts@ == self@.null_count,
    {
        &self.null_count
    }

    /// The size of each column and group.
    pub fn total_sizes(&self) -> (sizes: &Vec<u64>)
        ensures
            sizes@ == self@.total_sizes,
    {
        &self.total_sizes
    }

    /// The sketch of each column and group.
    pub fn fm_sketches(&self) -> (sketches: &Vec<FmSketch>)
        ensures
            sketches_view(sketches@) == self@.fm_sketches,
    {
        &self.fm_sketches
    }

    /// The memory that the sample is accounted to take.
    pub fn memory_usage(&self) -> (n: usize)
        ensures
            n == self@.memory_usage,
    {
        self.memory_usage
    }

    /// The memory that was reported so far.
    pub fn reported_memory_usage(&self) -> (n: usize)
        ensures
            n == self@.reported_memory_usage,
    {
        self.reported_memory_usage
    }

    /// The random source of the sampler: the borrowed generator is the
    /// sampler's own, and what the borrower leaves of it is what the
    /// sampler draws from next. The statistics are not touched.
    pub fn rng(&mut self) -> (rng: &mut StdRng)
        ensures
            *rng == old(self).generator(),
            final(self).generator() == *final(rng),
            final(self)@ == old(self)@,
    {
        &mut self.rng
    }

    /// Counts one more row.
    pub fn count_row(&mut self)
        ensures
            final(self)@ == old(self)@.count_row(),
    {
        self.count = self.count.saturating_add(1);
    }

    /// Takes one row into the statistics: counts it, then takes in its
    /// groups and its columns.
    pub fn observe_row(
        &mut self,
        columns_val: &[Vec<u8>],
        collation_keys_val: &[Vec<u8>],
        columns_info: &[ColumnInfo],
        column_groups: &[AnalyzeColumnGroup],
    )
        requires
            old(self)@.wf(),
            columns_val@.len() == collation_keys_val@.len(),
            columns_val@.len() == columns_info@.len(),
            columns_val@.len() + column_groups@.len() <= old(self)@.len(),
            groups_in_range(group_offsets(column_groups@), columns_val@.len()),
        ensures
            final(self)@ == old(self)@.observe_row(
                values_view(columns_val@),
                values_view(collation_keys_val@),
                string_like_flags(columns_info@),
                group_offsets(column_groups@),
            ),
            final(self)@.wf(),
            final(self)@.len() == old(self)@.len(),
            final(self)@.memory_usage == old(self)@.memory_usage,
            final(self)@.reported_memory_usage == old(self)@.reported_memory_usage,
    {
        self.count_row();
        self.collect_column_group(columns_val, collation_keys_val, columns_info, column_groups);
        self.collect_column(columns_val, collation_keys_val, columns_info);
    }

    /// Sets the accounted memory.
    pub fn set_memory_usage(&mut self, memory_usage: usize)
        ensures
            final(self)@ == (RowStatistics { memory_usage, ..old(self)@ }),
    {
        self.memory_usage = memory_usage;
    }

    /// Gives group or column `to` the sketch, null count and size of
    /// column `from`.
    pub fn copy_column(&mut self, from: usize, to: usize)
        requires
            old(self)@.wf(),
            from < old(self)@.len(),
            to < old(self)@.len(),
        ensures
            final(self)@ == old(self)@.copy_column(from as int, to as int),
            final(self)@.wf(),
    {
        let sketch = self.fm_sketches[from].clone();
        self.fm_sketches[to] = sketch;
        let nulls: u64 = self.null_count[from];
        self.null_count[to] = nulls;
        let size: u64 = self.total_sizes[from];
        self.total_sizes[to] = size;
        assert(self@.fm_sketches =~= old(self)@.fm_sketches.update(
            to as int,
            old(self)@.fm_sketches[from as int],
        ));
    }

    /// Takes the groups of one row into their sizes and sketches.
    pub fn collect_column_group(
        &mut self,
        columns_val: &[Vec<u8>],
        collation_keys_val: &[Vec<u8>],
        columns_info: &[ColumnInfo],
        column_groups: &[AnalyzeColumnGroup],
    )
        requires
            old(self)@.wf(),
            columns_val@.len() == collation_keys_val@.len(),
            columns_val@.len() == columns_info@.len(),
            columns_val@.len() + column_groups@.len() <= old(self)@.len(),
            groups_in_range(group_offsets(column_groups@), columns_val@.len()),
        ensures
            final(self)@ == old(self)@.collect_column_group(
                values_view(columns_val@),
                values_view(collation_keys_val@),
                string_like_flags(columns_info@),
                group_offsets(column_groups@),
            ),
            final(self)@.wf(),
    {
        let ghost vals = values_view(columns_val@);
        let ghost keys = values_view(collation_keys_val@);
        let ghost flags = string_like_flags(columns_info@);
        let ghost groups = group_offsets(column_groups@);
        let ghost goal = old(self)@.collect_column_group(vals, keys, flags, groups);
        let col_len = columns_val.len();
        let len = self.null_count.len();
        let mut g: usize = 0;
        while g < column_groups.len()
            invariant
                g <= column_groups@.len(),
                col_len == columns_val@.len(),
                columns_val@.len() == collation_keys_val@.len(),
                columns_val@.len() == columns_info@.len(),
                col_len + column_groups@.len() <= old(self)@.len(),
                groups_in_range(groups, col_len as nat),
                vals == values_view(columns_val@),
                keys == values_view(collation_keys_val@),
                flags == string_like_flags(columns_info@),
                groups == group_offsets(column_groups@),
                goal == old(self)@.collect_column_group(vals, keys, flags, groups),
                old(self)@.wf(),
                self@.wf(),
                self@.len() == old(self)@.len(),
                self@.null_count == old(self)@.null_count,
                self@.count == old(self)@.count,
                self@.memory_usage == old(self)@.memory_usage,
                self@.reported_memory_usage == old(self)@.reported_memory_usage,
                self@.len() == len,
                forall|i: int|
                    0 <= i < col_len + g ==> (#[trigger] self@.fm_sketches[i])
                        == goal.fm_sketches[i],
                forall|i: int|
                    0 <= i < col_len + g ==> (#[trigger] self@.total_sizes[i])
                        == goal.total_sizes[i],
                forall|i: int|
                    col_len + g <= i < self@.len() ==> (#[trigger] self@.fm_sketches[i]) == old(
                        self,
                    )@.fm_sketches[i],
                forall|i: int|
                    col_len + g <= i < self@.len() ==> (#[trigger] self@.total_sizes[i]) == old(
                        self,
                    )@.total_sizes[i],
            decreases column_groups@.len() - g,
        {
            let offsets = &column_groups[g].column_offsets;
            let slot: usize = col_len + g;
            assert(groups[g as int] == offsets@);
            assert(self@.fm_sketches[slot as int] == old(self)@.fm_sketches[slot as int]);
            assert(self@.total_sizes[slot as int] == old(self)@.total_sizes[slot as int]);
            let ghost before = self@;
            if offsets.len() != 1 {
                let mut total: u64 = self.total_sizes[slot];
                let mut key: Vec<u8> = Vec::new();
                let mut m: usize = 0;
                while m < offsets.len()
                    invariant
                        m <= offsets@.len(),
                        col_len == columns_val@.len(),
                        columns_val@.len() == collation_keys_val@.len(),
                        columns_val@.len() == columns_info@.len(),
                        forall|k: int| 0 <= k < offsets@.len() ==> offsets@[k] < col_len,
                        vals == values_view(columns_val@),
                        keys == values_view(collation_keys_val@),
                        flags == string_like_flags(columns_info@),
                        total == add_group_payload(
                            old(self)@.total_sizes[slot as int],
                            vals,
                            offsets@.subrange(0, m as int),
                        ),
                        key@ == group_key(vals, keys, flags, offsets@.subrange(0, m as int)),
                    decreases offsets@.len() - m,
                {
                    let j: usize = offsets[m];
                    assert(offsets@.subrange(0, m + 1).drop_last() =~= offsets@.subrange(
                        0,
                        m as int,
                    ));
                    if !is_null(&columns_val[j]) {
                        total = total.saturating_add(payload_size(&columns_val[j]) as u64);
                    }
                    if columns_info[j].is_string_like() {
                        append_bytes(&mut key, &collation_keys_val[j]);
                    } else {
                        append_bytes(&mut key, &columns_val[j]);
                    }
                    m += 1;
                }
                assert(offsets@.subrange(0, m as int) =~= offsets@);
                self.total_sizes[slot] = total;
                let digest = hash128(&key, 0);
                proof {
                    lemma_insert_wf(self@.fm_sketches[slot as int], digest.0);
                }
                self.fm_sketches[slot].insert_hash_value(digest.0);
                assert(self@.fm_sketches =~= before.fm_sketches.update(
                    slot as int,
                    before.fm_sketches[slot as int].insert(digest.0),
                ));
                assert(self@.total_sizes =~= before.total_sizes.update(slot as int, total));
            }
            g += 1;
        }
        assert(self@.fm_sketches =~= goal.fm_sketches);
        assert(self@.total_sizes =~= goal.total_sizes);
    }

    /// Takes the columns of one row into their null counts, sizes and
    /// sketches.
    pub fn collect_column(
        &mut self,
        columns_val: &[Vec<u8>],
        collation_keys_val: &[Vec<u8>],
        columns_info: &[ColumnInfo],
    )
        requires
            old(self)@.wf(),
            columns_val@.len() == collation_keys_val@.len(),
            columns_val@.len() == columns_info@.len(),
            columns_val@.len() <= old(self)@.len(),
        ensures
            final(self)@ == old(self)@.collect_column(
                values_view(columns_val@),
                values_view(collation_keys_val@),
                string_like_flags(columns_info@),
            ),
            final(self)@.wf(),
    {
        let ghost vals = values_view(columns_val@);
        let ghost keys = values_view(collation_keys_val@);
        let ghost flags = string_like_flags(columns_info@);
        let ghost goal = old(self)@.collect_column(vals, keys, flags);
        let mut i: usize = 0;
        while i < columns_val.len()
            invariant
                i <= columns_val@.len(),
                columns_val@.len() == collation_keys_val@.len(),
                columns_val@.len() == columns_info@.len(),
                columns_val@.len() <= old(self)@.len(),
                vals == values_view(columns_val@),
                keys == values_view(collation_keys_val@),
                flags == string_like_flags(columns_info@),
                goal == old(self)@.collect_column(vals, keys, flags),
                old(self)@.wf(),
                self@.wf(),
                self@.len() == old(self)@.len(),
                self@.count == old(self)@.count,
                self@.memory_usage == old(self)@.memory_usage,
                self@.reported_memory_usage == old(self)@.reported_memory_usage,
                forall|k: int|
                    0 <= k < i ==> (#[trigger] self@.fm_sketches[k]) == goal.fm_sketches[k],
                forall|k: int|
                    0 <= k < i ==> (#[trigger] self@.total_sizes[k]) == goal.total_sizes[k],
                forall|k: int|
                    0 <= k < i ==> (#[trigger] self@.null_count[k]) == goal.null_count[k],
                forall|k: int|
                    i <= k < self@.len() ==> (#[trigger] self@.fm_sketches[k]) == old(
                        self,
                    )@.fm_sketches[k],
                forall|k: int|
                    i <= k < self@.len() ==> (#[trigger] self@.total_sizes[k]) == old(
                        self,
                    )@.total_sizes[k],
                forall|k: int|
                    i <= k < self@.len() ==> (#[trigger] self@.null_count[k]) == old(
                        self,
                    )@.null_count[k],
            decreases columns_val@.len() - i,
        {
            assert(self@.fm_sketches[i as int] == old(self)@.fm_sketches[i as int]);
            assert(self@.total_sizes[i as int] == old(self)@.total_sizes[i as int]);
            assert(self@.null_count[i as int] == old(self)@.null_count[i as int]);
            let ghost before = self@;
            let ghost key = sort_key(vals, keys, flags, i as int);
            proof {
                lemma_insert_wf(before.fm_sketches[i as int], hash64(key));
            }
            if is_null(&columns_val[i]) {
                let nulls: u64 = self.null_count[i];
                self.null_count[i] = nulls.saturating_add(1);
                assert(self@.null_count =~= before.null_count.update(
                    i as int,
                    nulls.saturating_add(1),
                ));
                assert(self@.fm_sketches =~= before.fm_sketches);
            } else {
                if columns_info[i].is_string_like() {
                    self.fm_sketches[i].insert(&collation_keys_val[i]);
                } else {
                    self.fm_sketches[i].insert(&columns_val[i]);
                }
                let size: u64 = self.total_sizes[i];
                self.total_sizes[i] = size.saturating_add(payload_size(&columns_val[i]) as u64);
                assert(self@.fm_sketches =~= before.fm_sketches.update(
                    i as int,
                    before.fm_sketches[i as int].insert(hash64(key)),
                ));
                assert(self@.total_sizes =~= before.total_sizes.update(
                    i as int,
                    add_payload(size, vals[i as int]),
                ));
            }
            i += 1;
        }
        assert(self@.fm_sketches =~= goal.fm_sketches);
        assert(self@.total_sizes =~= goal.total_sizes);
        assert(self@.null_count =~= goal.null_count);
    }

    /// Writes the statistics into a record and gives the sketches away.
    pub fn fill_proto(&mut self, proto_collector: &mut RowSampleCollectorProto)
        ensures
            final(proto_collector)@ == old(self)@.fill(old(proto_collector)@),
            final(self)@ == (RowStatistics { fm_sketches: Seq::empty(), ..old(self)@ }),
    {
        proto_collector.null_counts = self.null_count.clone();
        proto_collector.count = self.count;
        let mut taken: Vec<FmSketch> = Vec::new();
        std::mem::swap(&mut taken, &mut self.fm_sketches);
        let mut records: Vec<FmSketchProto> = Vec::new();
        let mut i: usize = 0;
        while i < taken.len()
            invariant
                i <= taken@.len(),
                records@.len() == i,
                forall|k: int| 0 <= k < i ==> (#[trigger] records@[k])@ == taken@[k]@.hashes,
            decreases taken@.len() - i,
        {
            let hashes = taken[i].hash_values().clone();
            records.push(FmSketchProto { hashset: hashes });
            i += 1;
        }
        proto_collector.fm_sketch = records;
        proto_collector.total_size = self.total_sizes.clone();
        assert(proto_collector@.fm_sketch =~= old(self)@.fill(old(proto_collector)@).fm_sketch);
        assert(self@.fm_sketches =~= Seq::empty());
    }

    /// Reports the accounted memory if it has moved from the reported by
    /// more than the threshold, or if `on_finish` forces the report.
    pub fn report_memory_usage(&mut self, on_finish: bool) -> (event: Option<TraceEvent>)
        ensures
            final(self)@ == old(self)@.report(on_finish).0,
            event == old(self)@.report(on_finish).1,
    {
        let grown = self.memory_usage >= self.reported_memory_usage;
        let diff: usize = if grown {
            self.memory_usage - self.reported_memory_usage
        } else {
            self.reported_memory_usage - self.memory_usage
        };
        if on_finish || diff > MEMORY_REPORT_THRESHOLD {
            let event = if grown {
                TraceEvent::Add(diff)
            } else {
                TraceEvent::Sub(diff)
            };
            self.reported_memory_usage = self.memory_usage;
            Some(event)
        } else {
            None
        }
    }
}

} // verus!
