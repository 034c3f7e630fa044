//! Statistics of an index, built from its entries in key order: a
//! histogram, both sketches, and the most frequent values with their exact
//! counts.

use crate::cmsketch::CmSketch;
use crate::cmsketch::CountMin;
use crate::column_sample::cm_view;
use crate::encoding::bytes_eq;
use crate::encoding::contiguous;
use crate::encoding::lemma_contiguous_prefix;
use crate::encoding::lemma_occurrences;
use crate::encoding::occurrences;
use crate::encoding::values_view;
use crate::error::Error;
use crate::fmsketch::lemma_insert_wf;
use crate::fmsketch::DistinctValues;
use crate::fmsketch::FmSketch;
use crate::hashing::hash64;
use crate::hashing::murmur3_x64_128;
use crate::histogram::lemma_append_wf;
use crate::histogram::Buckets;
use crate::histogram::Histogram;
use crate::proto::cm_sketch_record;
use crate::proto::AnalyzeIndexRecord;
use crate::proto::AnalyzeIndexResp;
use crate::proto::SampleCollectorProto;
use crate::proto::SampleCollectorRecord;
use crate::request::AnalyzeIndexReq;
use crate::row_base::append_bytes;
use crate::top_n::counted_view;
use crate::top_n::items_descend;
use crate::top_n::lemma_top_push_descends;
use crate::top_n::lemma_top_push_members;
use crate::top_n::offer;
use crate::top_n::holds_greatest;
use crate::top_n::lemma_top_push_distinct;
use crate::top_n::lemma_top_push_holds_greatest;
use crate::top_n::top_push;
use crate::top_n::total_count;
use crate::top_n::values_distinct;
use crate::top_n::Counted;
use vstd::prelude::*;

verus! {

/// The version of statistics that tracks nothing exactly.
pub const ANALYZE_VERSION_V1: i32 = 1;

/// The version of statistics that counts repeats and heavy hitters
/// exactly.
pub const ANALYZE_VERSION_V2: i32 = 2;

/// The first `n` columns of an entry, joined.
pub open spec fn prefix_key(columns: Seq<Seq<u8>>, n: nat) -> Seq<u8>
    decreases n,
{
    if n == 0 {
        Seq::empty()
    } else {
        prefix_key(columns, (n - 1) as nat) + columns[n - 1]
    }
}

/// A sketch after each item was taken out of the matrix by its count and
/// recorded as a heavy hitter.
pub open spec fn promote_items(sketch: CountMin, items: Seq<Counted>) -> CountMin
    decreases items.len(),
{
    if items.len() == 0 {
        sketch
    } else {
        let item = items.last();
        promote_items(sketch, items.drop_last()).subtract(
            murmur3_x64_128(item.1, 0),
            item.0,
        ).promote(item.1, item.0 as u64)
    }
}

/// The heavy hitters after a run of equal values ended: the run is
/// offered, if there was one.
pub open spec fn close_run(topn: Seq<Counted>, run: Counted, top_n_size: nat) -> Seq<Counted> {
    if run.0 > 0 {
        top_push(topn, run, top_n_size)
    } else {
        topn
    }
}

/// What the builder holds while it scans.
pub struct IndexStatistics {
    pub hist: Buckets,
    pub cms: Option<CountMin>,
    pub fms: DistinctValues,
    /// The most frequent values of the runs that have ended.
    pub topn: Seq<Counted>,
    /// The value of the run that is under way, and its length so far.
    pub cur_val: Counted,
    pub top_n_size: nat,
    pub stats_version: i32,
    pub num_columns: nat,
}

/// What the builder hands over when the scan is done.
pub struct IndexResult {
    pub hist: Buckets,
    pub cms: Option<CountMin>,
    pub fms: Option<DistinctValues>,
}

impl IndexStatistics {
    /// The builder before the scan.
    pub open spec fn start(req: AnalyzeIndexReq) -> IndexStatistics {
        IndexStatistics {
            hist: Buckets::empty(req.bucket_size as nat),
            cms: if req.cmsketch_depth == 0 || req.cmsketch_width == 0 {
                None
            } else {
                Some(CountMin::empty(req.cmsketch_depth as nat, req.cmsketch_width as nat))
            },
            fms: DistinctValues::empty(req.sketch_size as nat),
            topn: Seq::empty(),
            cur_val: (0, Seq::empty()),
            top_n_size: req.top_n_size as nat,
            stats_version: match req.version {
                Some(v) => v,
                None => ANALYZE_VERSION_V1,
            },
            num_columns: req.num_columns as nat,
        }
    }

    /// The sketches and the histogram are well formed.
    pub open spec fn wf(self) -> bool {
        &&& self.hist.wf()
        &&& self.fms.wf()
        &&& self.cms matches Some(c) ==> c.wf()
        &&& self.num_columns <= usize::MAX
    }

    /// The builder counts repeats and heavy hitters exactly.
    pub open spec fn exact(self) -> bool {
        self.stats_version == ANALYZE_VERSION_V2
    }

    /// The run under way after one more value: a value equal to that of
    /// the run makes it longer; any other value ends the run, which is
    /// offered to the heavy hitters, and starts a run of its own.
    pub open spec fn track(self, data: Seq<u8>) -> IndexStatistics {
        if self.cur_val.1 == data {
            IndexStatistics { cur_val: (self.cur_val.0.saturating_add(1), data), ..self }
        } else {
            IndexStatistics {
                topn: close_run(self.topn, self.cur_val, self.top_n_size),
                cur_val: (1, data),
                ..self
            }
        }
    }

    /// The builder after one entry of at least `num_columns` columns. Its
    /// first `num_columns` columns, joined, are the value of the entry: the
    /// count-min sketch, the distinct-value sketch and the histogram each
    /// take the value once, and in exact mode the value is tracked as part
    /// of a run.
    pub open spec fn collect(self, columns: Seq<Seq<u8>>) -> IndexStatistics {
        let data = prefix_key(columns, self.num_columns);
        let counted = IndexStatistics {
            hist: self.hist.append(data, self.exact()),
            cms: match self.cms {
                Some(c) => Some(c.add(murmur3_x64_128(data, 0))),
                None => None,
            },
            fms: self.fms.insert(hash64(data)),
            ..self
        };
        if self.exact() {
            counted.track(data)
        } else {
            counted
        }
    }

    /// The builder after each of `entries` in turn.
    pub open spec fn collect_all(self, entries: Seq<Seq<Seq<u8>>>) -> IndexStatistics
        decreases entries.len(),
    {
        if entries.len() == 0 {
            self
        } else {
            self.collect_all(entries.drop_last()).collect(entries.last())
        }
    }

    /// The heavy hitters once the scan is done: the last run has ended too.
    pub open spec fn heavy_hitters(self) -> Seq<Counted> {
        if self.exact() {
            close_run(self.topn, self.cur_val, self.top_n_size)
        } else {
            Seq::empty()
        }
    }

    /// The statistics once the scan is done. In exact mode every heavy
    /// hitter is taken out of the count-min matrix by its count and
    /// recorded beside it, the most frequent first.
    pub open spec fn finish(self) -> IndexResult {
        IndexResult {
            hist: self.hist,
            cms: match self.cms {
                Some(c) => Some(promote_items(c, self.heavy_hitters())),
                None => None,
            },
            fms: Some(self.fms),
        }
    }
}

impl IndexResult {
    /// The answer that carries the statistics: the histogram, the
    /// count-min sketch where there is one, and the distinct-value sketch
    /// in the record of a column that holds nothing else.
    pub open spec fn record(self) -> AnalyzeIndexRecord {
        AnalyzeIndexRecord {
            hist: self.hist.buckets,
            cms: match self.cms {
                Some(c) => Some(cm_sketch_record(c)),
                None => None,
            },
            collector: match self.fms {
                Some(f) => Some(
                    SampleCollectorRecord {
                        samples: Seq::empty(),
                        null_count: 0,
                        count: 0,
                        fm_sketch: Some(f.hashes),
                        cm_sketch: None,
                        total_size: 0,
                    },
                ),
                None => None,
            },
        }
    }
}

/// The first entry that has fewer than `n` columns, or the number of
/// entries if there is none.
pub open spec fn first_short(entries: Seq<Seq<Seq<u8>>>, n: nat) -> int
    decreases entries.len(),
{
    if entries.len() == 0 {
        0
    } else {
        let before = first_short(entries.drop_last(), n);
        if before < entries.len() - 1 {
            before
        } else if entries.last().len() < n {
            entries.len() - 1
        } else {
            entries.len() as int
        }
    }
}

/// The first short entry is short, and the entries before it are not.
pub proof fn lemma_first_short(entries: Seq<Seq<Seq<u8>>>, n: nat)
    ensures
        0 <= first_short(entries, n) <= entries.len(),
        first_short(entries, n) < entries.len() ==> entries[first_short(entries, n)].len() < n,
        forall|i: int| 0 <= i < first_short(entries, n) ==> (#[trigger] entries[i]).len() >= n,
    decreases entries.len(),
{
    if entries.len() > 0 {
        let front = entries.drop_last();
        lemma_first_short(front, n);
        assert forall|i: int| 0 <= i < first_short(entries, n) implies (#[trigger] entries[i]).len()
            >= n by {
            if i < front.len() {
                assert(entries[i] == front[i]);
            }
        }
        if first_short(front, n) < front.len() {
            assert(entries[first_short(front, n)] == front[first_short(front, n)]);
        }
    }
}

/// The views of a list of entries.
pub open spec fn entries_view(entries: Seq<Vec<Vec<u8>>>) -> Seq<Seq<Seq<u8>>> {
    Seq::new(entries.len(), |i: int| values_view(entries[i]@))
}

/// One entry keeps the builder well formed.
pub proof fn lemma_collect_wf(s: IndexStatistics, columns: Seq<Seq<u8>>)
    requires
        s.wf(),
    ensures
        s.collect(columns).wf(),
        s.collect(columns).num_columns == s.num_columns,
        s.collect(columns).stats_version == s.stats_version,
        s.collect(columns).top_n_size == s.top_n_size,
{
    let data = prefix_key(columns, s.num_columns);
    lemma_append_wf(s.hist, data, s.exact());
    lemma_insert_wf(s.fms, hash64(data));
}

/// Builder of the statistics of an index.
pub struct IndexStatsBuilder {
    hist: Histogram,
    cms: Option<CmSketch>,
    fms: FmSketch,
    topn_heap: Vec<(u32, Vec<u8>)>,
    cur_val: (u32, Vec<u8>),
    top_n_size: usize,
    stats_version: i32,
    num_columns: usize,
}

impl View for IndexStatsBuilder {
    type V = IndexStatistics;

    closed spec fn view(&self) -> IndexStatistics {
        IndexStatistics {
            hist: self.hist@,
            cms: cm_view(self.cms),
            fms: self.fms@,
            topn: counted_view(self.topn_heap@),
            cur_val: (self.cur_val.0, self.cur_val.1@),
            top_n_size: self.top_n_size as nat,
            stats_version: self.stats_version,
            num_columns: self.num_columns as nat,
        }
    }
}

/// The statistics of an index.
pub struct AnalyzeIndexResult {
    hist: Histogram,
    cms: Option<CmSketch>,
    fms: Option<FmSketch>,
}

/// The view of a distinct-value sketch, where there is one.
pub open spec fn fm_view(sketch: Option<FmSketch>) -> Option<DistinctValues> {
    match sketch {
        Some(s) => Some(s@),
        None => None,
    }
}

impl View for AnalyzeIndexResult {
    type V = IndexResult;

    closed spec fn view(&self) -> IndexResult {
        IndexResult { hist: self.hist@, cms: cm_view(self.cms), fms: fm_view(self.fms) }
    }
}

impl AnalyzeIndexResult {
    /// The statistics made of a histogram and the sketches at hand.
    pub fn new(hist: Histogram, cms: Option<CmSketch>, fms: Option<FmSketch>) -> (result:
        AnalyzeIndexResult)
        ensures
            result@ == (IndexResult { hist: hist@, cms: cm_view(cms), fms: fm_view(fms) }),
    {
        AnalyzeIndexResult { hist, cms, fms }
    }

    /// The histogram.
    pub fn hist(&self) -> (hist: &Histogram)
        ensures
            hist@ == self@.hist,
    {
        &self.hist
    }

    /// The count-min sketch, where one was asked for.
    pub fn cms(&self) -> (cms: &Option<CmSketch>)
        ensures
            cm_view(*cms) == self@.cms,
    {
        &self.cms
    }

    /// The distinct-value sketch.
    pub fn fms(&self) -> (fms: &Option<FmSketch>)
        ensures
            fm_view(*fms) == self@.fms,
    {
        &self.fms
    }

    /// The answer that carries the statistics.
    pub fn into_proto(self) -> (resp: AnalyzeIndexResp)
        ensures
            resp@ == self@.record(),
    {
        let hist = self.hist.into_proto();
        let cms = match self.cms {
            Some(c) => Some(c.into_proto()),
            None => None,
        };
        let collector = match self.fms {
            Some(f) => {
                let s = SampleCollectorProto {
                    samples: Vec::new(),
                    null_count: 0,
                    count: 0,
                    fm_sketch: Some(f.into_proto()),
                    cm_sketch: None,
                    total_size: 0,
                };
                assert(s@.samples =~= Seq::empty());
                Some(s)
            },
            None => None,
        };
        AnalyzeIndexResp { hist, cms, collector }
    }
}

impl IndexStatsBuilder {
    /// A builder for the request that has scanned nothing.
    pub fn new(req: &AnalyzeIndexReq) -> (builder: IndexStatsBuilder)
        ensures
            builder@ == IndexStatistics::start(*req),
            builder@.wf(),
    {
        let builder = IndexStatsBuilder {
            hist: Histogram::new(req.bucket_size),
            cms: CmSketch::new(req.cmsketch_depth, req.cmsketch_width),
            fms: FmSketch::new(req.sketch_size),
            topn_heap: Vec::new(),
            cur_val: (0, Vec::new()),
            top_n_size: req.top_n_size,
            stats_version: match req.version {
                Some(v) => v,
                None => ANALYZE_VERSION_V1,
            },
            num_columns: req.num_columns,
        };
        assert(builder@.topn =~= Seq::empty());
        assert(builder@.cur_val.1 =~= Seq::empty());
        builder
    }

    /// The number of columns that make up an entry.
    pub fn num_columns(&self) -> (n: usize)
        ensures
            n == self@.num_columns,
    {
        self.num_columns
    }

    fn track(&mut self, data: Vec<u8>)
        ensures
            final(self)@ == old(self)@.track(data@),
    {
        if bytes_eq(&self.cur_val.1, &data) {
            self.cur_val.0 = self.cur_val.0.saturating_add(1);
        } else {
            let mut run: (u32, Vec<u8>) = (1, data);
            std::mem::swap(&mut run, &mut self.cur_val);
            if run.0 > 0 {
                offer(&mut self.topn_heap, run, self.top_n_size);
            }
        }
    }

    /// Takes in one entry, given as its columns. An entry with fewer than
    /// `num_columns` columns is refused and leaves the builder as it was.
    pub fn push_entry(&mut self, columns: &[Vec<u8>]) -> (done: Result<(), Error>)
        requires
            old(self)@.wf(),
        ensures
            done is Err <==> columns@.len() < old(self)@.num_columns,
            done matches Err(e) ==> e == Error::MissingColumn(columns@.len() as usize)
                && final(self)@ == old(self)@,
            done is Ok ==> final(self)@ == old(self)@.collect(values_view(columns@)),
            final(self)@.wf(),
    {
        if columns.len() < self.num_columns {
            return Err(Error::MissingColumn(columns.len()));
        }
        let ghost cols = values_view(columns@);
        proof {
            lemma_collect_wf(self@, cols);
        }
        let mut data: Vec<u8> = Vec::new();
        let mut i: usize = 0;
        while i < self.num_columns
            invariant
                i <= self.num_columns <= columns@.len(),
                cols == values_view(columns@),
                data@ == prefix_key(cols, i as nat),
            decreases self.num_columns - i,
        {
            append_bytes(&mut data, &columns[i]);
            i += 1;
        }
        match &mut self.cms {
            Some(c) => {
                c.insert(&data);
            },
            None => {},
        }
        self.fms.insert(&data);
        if self.stats_version == ANALYZE_VERSION_V2 {
            self.hist.append(&data, true);
            self.track(data);
        } else {
            self.hist.append(&data, false);
        }
        Ok(())
    }

    /// Ends the scan and hands the statistics over.
    pub fn finish(self) -> (result: AnalyzeIndexResult)
        requires
            self@.wf(),
        ensures
            result@ == self@.finish(),
    {
        let mut builder = self;
        let ghost start = builder@;
        if builder.stats_version == ANALYZE_VERSION_V2 {
            let mut run: (u32, Vec<u8>) = (0, Vec::new());
            std::mem::swap(&mut run, &mut builder.cur_val);
            if run.0 > 0 {
                offer(&mut builder.topn_heap, run, builder.top_n_size);
            }
            let ghost items = counted_view(builder.topn_heap@);
            assert(items == start.heavy_hitters());
            match &mut builder.cms {
                Some(c) => {
                    let mut taken: Vec<(u32, Vec<u8>)> = Vec::new();
                    std::mem::swap(&mut taken, &mut builder.topn_heap);
                    let ghost sketch = c@;
                    let mut i: usize = 0;
                    while i < taken.len()
                        invariant
                            i <= taken@.len(),
                            taken@.len() == items.len(),
                            sketch.wf(),
                            c@.wf(),
                            c@ == promote_items(sketch, items.subrange(0, i as int)),
                            forall|k: int|
                                i <= k < taken@.len() ==> (#[trigger] taken@[k]).0 == items[k].0
                                    && taken@[k].1@ == items[k].1,
                        decreases taken@.len() - i,
                    {
                        let count: u32 = taken[i].0;
                        let mut value: Vec<u8> = Vec::new();
                        std::mem::swap(&mut value, &mut taken[i].1);
                        proof {
                            assert(items.subrange(0, i + 1).drop_last() =~= items.subrange(
                                0,
                                i as int,
                            ));
                        }
                        c.subtract(&value, count);
                        c.promote_heavy_hitter(value, count as u64);
                        i += 1;
                    }
                    assert(items.subrange(0, i as int) =~= items);
                },
                None => {},
            }
        }
        AnalyzeIndexResult::new(builder.hist, builder.cms, Some(builder.fms))
    }
}

/// Builds the statistics of an index from its entries in key order, each
/// given as its columns. The first entry with fewer columns than the
/// request names ends the scan with an error.
pub fn handle_index(req: &AnalyzeIndexReq, entries: &[Vec<Vec<u8>>]) -> (done: Result<
    AnalyzeIndexResult,
    Error,
>)
    ensures
        done is Err <==> first_short(entries_view(entries@), req.num_columns as nat)
            < entries@.len(),
        done matches Err(e) ==> e == Error::MissingColumn(
            entries_view(entries@)[first_short(
                entries_view(entries@),
                req.num_columns as nat,
            )].len() as usize,
        ),
        done matches Ok(result) ==> result@ == IndexStatistics::start(*req).collect_all(
            entries_view(entries@),
        ).finish(),
{
    let ghost all = entries_view(entries@);
    let mut builder = IndexStatsBuilder::new(req);
    let mut i: usize = 0;
    while i < entries.len()
        invariant
            i <= entries@.len(),
            all == entries_view(entries@),
            builder@.wf(),
            builder@.num_columns == req.num_columns,
            first_short(all.subrange(0, i as int), req.num_columns as nat) == i,
            builder@ == IndexStatistics::start(*req).collect_all(all.subrange(0, i as int)),
        decreases entries@.len() - i,
    {
        proof {
            assert(all.subrange(0, i + 1).drop_last() =~= all.subrange(0, i as int));
            lemma_collect_wf(builder@, all[i as int]);
        }
        match builder.push_entry(entries[i].as_slice()) {
            Ok(_) => {},
            Err(e) => {
                proof {
                    lemma_first_short_extends(all, i + 1, req.num_columns as nat);
                }
                return Err(e);
            },
        }
        i += 1;
    }
    assert(all.subrange(0, i as int) =~= all);
    Ok(builder.finish())
}

/// The first short entry of a list is the first short entry of any part of
/// it that reaches so far.
pub proof fn lemma_first_short_extends(entries: Seq<Seq<Seq<u8>>>, k: int, n: nat)
    requires
        0 <= k <= entries.len(),
        first_short(entries.subrange(0, k), n) < k,
    ensures
        first_short(entries, n) == first_short(entries.subrange(0, k), n),
    decreases entries.len() - k,
{
    if k < entries.len() {
        assert(entries.subrange(0, k + 1).drop_last() =~= entries.subrange(0, k));
        lemma_first_short_extends(entries, k + 1, n);
    } else {
        assert(entries.subrange(0, k) =~= entries);
    }
}

/// The values that the entries stand for: the first `n` columns of each,
/// joined.
pub open spec fn entry_values(entries: Seq<Seq<Seq<u8>>>, n: nat) -> Seq<Seq<u8>> {
    Seq::new(entries.len(), |i: int| prefix_key(entries[i], n))
}

/// What holds of the runs while a contiguous stream is scanned in exact
/// mode: the run under way is that of the last value and has counted all
/// its occurrences, and every run that ended is held with the count of all
/// occurrences of its value, which is not the last value. No value is
/// held twice, and the counts held are together no more than the values
/// seen.
pub open spec fn runs_exact(s: IndexStatistics, seen: Seq<Seq<u8>>) -> bool {
    &&& values_distinct(s.topn)
    &&& total_count(s.topn) + s.cur_val.0 <= seen.len()
    &&& seen.len() == 0 ==> s.cur_val.0 == 0 && s.cur_val.1.len() == 0 && s.topn.len() == 0
    &&& seen.len() > 0 ==> s.cur_val.1 == seen.last() && s.cur_val.0 == occurrences(
        seen,
        seen.last(),
    )
    &&& forall|k: int|
        0 <= k < s.topn.len() ==> (#[trigger] s.topn[k]).0 > 0 && s.topn[k].0 == occurrences(
            seen,
            s.topn[k].1,
        ) && seen.len() > 0 && s.topn[k].1 != seen.last()
}

/// One more value of a contiguous stream keeps the runs exact.
pub proof fn lemma_track_exact(s: IndexStatistics, seen: Seq<Seq<u8>>, x: Seq<u8>)
    requires
        runs_exact(s, seen),
        contiguous(seen.push(x)),
        seen.len() < u32::MAX,
    ensures
        runs_exact(s.track(x), seen.push(x)),
{
    let next = seen.push(x);
    let after = s.track(x);
    assert(next.drop_last() =~= seen);
    lemma_occurrences(seen, x);
    if seen.len() > 0 && x != seen.last() {
        // a value that differs from the last one has not occurred before
        if occurrences(seen, x) > 0 {
            let i = choose|i: int| 0 <= i < seen.len() && seen[i] == x;
            assert(next[i] == x && next[seen.len() as int] == x);
            assert(next[seen.len() - 1] == seen.last());
            assert(false);
        }
    }
    if s.cur_val.1 == x {
        assert forall|k: int| 0 <= k < after.topn.len() implies (#[trigger] after.topn[k]).0 > 0
            && after.topn[k].0 == occurrences(next, after.topn[k].1) && next.len() > 0
            && after.topn[k].1 != next.last() by {
            assert(s.topn[k].1 != x);
        }
    } else {
        lemma_top_push_members(s.topn, s.cur_val, s.top_n_size);
        if s.cur_val.0 > 0 {
            lemma_top_push_distinct(s.topn, s.cur_val, s.top_n_size);
        }
        assert forall|k: int| 0 <= k < after.topn.len() implies (#[trigger] after.topn[k]).0 > 0
            && after.topn[k].0 == occurrences(next, after.topn[k].1) && next.len() > 0
            && after.topn[k].1 != next.last() by {
            let item = after.topn[k];
            if s.cur_val.0 > 0 && item == s.cur_val {
            } else {
                assert(s.topn.contains(item));
                let j = choose|j: int| 0 <= j < s.topn.len() && s.topn[j] == item;
                assert(s.topn[j].0 == occurrences(seen, item.1));
                lemma_occurrences(seen, item.1);
                if item.1 == x {
                    let i = choose|i: int| 0 <= i < seen.len() && seen[i] == item.1;
                    assert(next[i] == x && next[seen.len() as int] == x);
                    assert(next[seen.len() - 1] == seen.last());
                    assert(false);
                }
            }
        }
    }
}

/// The runs of a stream: each stretch of equal values that stand
/// together, as its length and its value, in the order of the stream.
/// Where equal values always stand together there is one run for each
/// value that occurs.
pub open spec fn runs(values: Seq<Seq<u8>>) -> Seq<Counted>
    decreases values.len(),
{
    if values.len() == 0 {
        Seq::empty()
    } else {
        let before = runs(values.drop_last());
        if values.len() >= 2 && values[values.len() - 2] == values.last() {
            before.update(
                before.len() - 1,
                (before.last().0.saturating_add(1), values.last()),
            )
        } else {
            before.push((1u32, values.last()))
        }
    }
}

/// Where equal values stand together in a stream, its runs are one for
/// each value that occurs: no value has two runs, every run is as long as
/// its value occurs often, and every value of the stream has its run.
pub proof fn lemma_runs_of_contiguous(values: Seq<Seq<u8>>)
    requires
        contiguous(values),
        values.len() <= u32::MAX,
    ensures
        values.len() > 0 ==> runs(values).len() > 0 && runs(values).last().1 == values.last(),
        values_distinct(runs(values)),
        forall|k: int|
            0 <= k < runs(values).len() ==> (#[trigger] runs(values)[k]).0 >= 1 && runs(
                values,
            )[k].0 == occurrences(values, runs(values)[k].1),
        forall|i: int|
            0 <= i < values.len() ==> exists|k: int|
                0 <= k < runs(values).len() && runs(values)[k].1 == #[trigger] values[i],
    decreases values.len(),
{
    if values.len() > 0 {
        let p = values.drop_last();
        let x = values.last();
        let before = runs(p);
        let all = runs(values);
        lemma_contiguous_prefix(values);
        lemma_runs_of_contiguous(p);
        lemma_occurrences(p, x);
        if values.len() >= 2 && values[values.len() - 2] == x {
            assert(p.last() == x);
            assert forall|k: int| 0 <= k < all.len() implies (#[trigger] all[k]).0 >= 1 && all[k].0
                == occurrences(values, all[k].1) by {
                if k < all.len() - 1 {
                    assert(all[k] == before[k]);
                    assert(before[k].1 != before[before.len() - 1].1);
                }
            }
            assert forall|j: int, k: int| 0 <= j < k < all.len() implies all[j].1 != all[k].1 by {
                assert(all[j].1 == before[j].1 && all[k].1 == before[k].1);
            }
            assert forall|i: int| 0 <= i < values.len() implies exists|k: int|
                0 <= k < all.len() && all[k].1 == #[trigger] values[i] by {
                if i < p.len() {
                    assert(values[i] == p[i]);
                    let k = choose|k: int| 0 <= k < before.len() && before[k].1 == p[i];
                    assert(all[k].1 == values[i]);
                } else {
                    assert(all[all.len() - 1].1 == values[i]);
                }
            }
        } else {
            if occurrences(p, x) > 0 {
                let i = choose|i: int| 0 <= i < p.len() && p[i] == x;
                assert(values[i] == x && values[values.len() - 1] == x);
                assert(values[values.len() - 2] == p.last());
                assert(false);
            }
            assert forall|k: int| 0 <= k < before.len() implies (#[trigger] before[k]).1 != x by {
                lemma_occurrences(p, before[k].1);
            }
            assert forall|k: int| 0 <= k < all.len() implies (#[trigger] all[k]).0 >= 1 && all[k].0
                == occurrences(values, all[k].1) by {
                if k < before.len() {
                    assert(all[k] == before[k]);
                }
            }
            assert forall|j: int, k: int| 0 <= j < k < all.len() implies all[j].1 != all[k].1 by {
                assert(all[j] == before[j]);
                if k < before.len() {
                    assert(all[k] == before[k]);
                }
            }
            assert forall|i: int| 0 <= i < values.len() implies exists|k: int|
                0 <= k < all.len() && all[k].1 == #[trigger] values[i] by {
                if i < p.len() {
                    assert(values[i] == p[i]);
                    let k = choose|k: int| 0 <= k < before.len() && before[k].1 == p[i];
                    assert(all[k] == before[k]);
                } else {
                    assert(all[all.len() - 1].1 == values[i]);
                }
            }
        }
    }
}

/// What holds of the runs while any stream is scanned in exact mode: the
/// run under way is the last run of the stream, and of the runs before it
/// the greatest are held.
pub open spec fn runs_tracked(s: IndexStatistics, seen: Seq<Seq<u8>>) -> bool {
    &&& seen.len() == 0 ==> s.cur_val.0 == 0 && s.cur_val.1.len() == 0 && s.topn.len() == 0
    &&& seen.len() > 0 ==> runs(seen).len() > 0 && s.cur_val == runs(seen).last() && s.cur_val.0
        >= 1 && s.cur_val.1 == seen.last() && holds_greatest(
        s.topn,
        runs(seen).drop_last(),
        s.top_n_size,
    )
}

/// One more value keeps the runs tracked.
pub proof fn lemma_track_runs(s: IndexStatistics, seen: Seq<Seq<u8>>, x: Seq<u8>)
    requires
        runs_tracked(s, seen),
    ensures
        runs_tracked(s.track(x), seen.push(x)),
        s.track(x).top_n_size == s.top_n_size,
{
    let next = seen.push(x);
    let after = s.track(x);
    assert(next.drop_last() =~= seen);
    assert(next.last() == x);
    let before = runs(seen);
    if seen.len() == 0 {
        assert(before =~= Seq::<Counted>::empty());
        assert(runs(next) =~= seq![(1u32, x)]);
        assert(runs(next).drop_last() =~= Seq::<Counted>::empty());
        if s.cur_val.1 == x {
            assert(after.cur_val.1 =~= x);
        }
    } else {
        assert(next[next.len() - 2] == seen.last());
        if x == seen.last() {
            assert(runs(next).drop_last() =~= before.drop_last());
        } else {
            assert(runs(next) == before.push((1u32, x)));
            assert(runs(next).drop_last() =~= before);
            assert(before =~= before.drop_last().push(s.cur_val));
            lemma_top_push_holds_greatest(s.topn, before.drop_last(), s.cur_val, s.top_n_size);
        }
    }
}

/// A scan in exact mode keeps the runs tracked, whatever the stream.
pub proof fn lemma_scan_runs(s: IndexStatistics, entries: Seq<Seq<Seq<u8>>>)
    requires
        s.exact(),
        runs_tracked(s, Seq::empty()),
    ensures
        runs_tracked(s.collect_all(entries), entry_values(entries, s.num_columns)),
        s.collect_all(entries).exact(),
        s.collect_all(entries).num_columns == s.num_columns,
        s.collect_all(entries).top_n_size == s.top_n_size,
    decreases entries.len(),
{
    let values = entry_values(entries, s.num_columns);
    if entries.len() == 0 {
        assert(values =~= Seq::empty());
    } else {
        let front = entries.drop_last();
        lemma_entry_values_prefix(entries, s.num_columns);
        lemma_scan_runs(s, front);
        let before = s.collect_all(front);
        let data = prefix_key(entries.last(), s.num_columns);
        let counted = IndexStatistics {
            hist: before.hist.append(data, before.exact()),
            cms: match before.cms {
                Some(c) => Some(c.add(murmur3_x64_128(data, 0))),
                None => None,
            },
            fms: before.fms.insert(hash64(data)),
            ..before
        };
        assert(runs_tracked(counted, entry_values(front, s.num_columns)));
        lemma_track_runs(counted, entry_values(front, s.num_columns), data);
    }
}

/// The heavy hitters that a scan in exact mode reports are the greatest
/// runs of the stream, by length and then by value: as many as were asked
/// for, or all the runs where those are fewer, and no run that is not
/// reported is greater than one that is.
pub proof fn lemma_heavy_hitters_greatest(req: AnalyzeIndexReq, entries: Seq<Seq<Seq<u8>>>)
    requires
        req.version == Some(ANALYZE_VERSION_V2),
    ensures
        holds_greatest(
            IndexStatistics::start(req).collect_all(entries).heavy_hitters(),
            runs(entry_values(entries, req.num_columns as nat)),
            req.top_n_size as nat,
        ),
{
    let s = IndexStatistics::start(req);
    let values = entry_values(entries, req.num_columns as nat);
    lemma_scan_runs(s, entries);
    let end = s.collect_all(entries);
    if values.len() == 0 {
        assert(runs(values) =~= Seq::<Counted>::empty());
    } else {
        let all = runs(values);
        assert(all =~= all.drop_last().push(end.cur_val));
        lemma_top_push_holds_greatest(end.topn, all.drop_last(), end.cur_val, end.top_n_size);
    }
}

/// The heavy hitters as an answer lists them: each value with its count.
pub open spec fn listed(items: Seq<Counted>) -> Seq<(Seq<u8>, u64)> {
    Seq::new(items.len(), |k: int| (items[k].1, items[k].0 as u64))
}

/// Taking items out of a matrix that has counted at least as much as they
/// count together lowers the total by just that, and lists them behind what
/// was listed, in their order.
pub proof fn lemma_promote_items(c: CountMin, items: Seq<Counted>)
    requires
        total_count(items) <= c.count,
    ensures
        promote_items(c, items).count == c.count - total_count(items),
        promote_items(c, items).top_n == c.top_n + listed(items),
        promote_items(c, items).depth == c.depth,
        promote_items(c, items).width == c.width,
    decreases items.len(),
{
    if items.len() == 0 {
        assert(c.top_n + listed(items) =~= c.top_n);
    } else {
        let front = items.drop_last();
        lemma_promote_items(c, front);
        assert(c.top_n + listed(items) =~= (c.top_n + listed(front)).push(
            (items.last().1, items.last().0 as u64),
        ));
    }
}

/// A scan counts every entry once in the matrix, short of the counter's
/// limit, and lists nothing beside it.
pub proof fn lemma_scan_counts(s: IndexStatistics, entries: Seq<Seq<Seq<u8>>>)
    requires
        s.cms matches Some(c) && c.count + entries.len() <= u32::MAX,
    ensures
        s.collect_all(entries).cms matches Some(after) && after.count == s.cms->Some_0.count
            + entries.len() && after.top_n == s.cms->Some_0.top_n,
    decreases entries.len(),
{
    if entries.len() > 0 {
        lemma_scan_counts(s, entries.drop_last());
    }
}

/// Where equal values stand together in the scanned stream, as they do in
/// an ascending one, the answer of a scan in exact mode that keeps a
/// matrix lists no value twice, lists each value with the number of all
/// its occurrences in the stream, and counts every scanned entry once:
/// either in the count of a listed value or in what is left in the matrix.
pub proof fn lemma_answer_counts_once(req: AnalyzeIndexReq, entries: Seq<Seq<Seq<u8>>>)
    requires
        req.version == Some(ANALYZE_VERSION_V2),
        req.cmsketch_depth > 0,
        req.cmsketch_width > 0,
        contiguous(entry_values(entries, req.num_columns as nat)),
        entries.len() <= u32::MAX,
    ensures
        ({
            let values = entry_values(entries, req.num_columns as nat);
            let end = IndexStatistics::start(req).collect_all(entries);
            let reported = end.heavy_hitters();
            &&& end.finish().cms matches Some(c) && c.top_n == listed(reported) && c.count
                + total_count(reported) == entries.len()
            &&& end.finish().fms is Some
            &&& values_distinct(reported)
            &&& reported.len() <= req.top_n_size
            &&& forall|k: int|
                0 <= k < reported.len() ==> (#[trigger] reported[k]).0 >= 1 && reported[k].0
                    == occurrences(values, reported[k].1)
        }),
{
    let s = IndexStatistics::start(req);
    let values = entry_values(entries, req.num_columns as nat);
    lemma_heavy_hitters_exact(req, entries);
    lemma_scan_exact(s, entries);
    lemma_scan_counts(s, entries);
    let end = s.collect_all(entries);
    let reported = end.heavy_hitters();
    if end.cur_val.0 > 0 {
        assert forall|k: int| 0 <= k < end.topn.len() implies (#[trigger] end.topn[k]).1
            != end.cur_val.1 by {}
        lemma_top_push_distinct(end.topn, end.cur_val, end.top_n_size);
    }
    lemma_promote_items(end.cms->Some_0, reported);
    assert(Seq::<(Seq<u8>, u64)>::empty() + listed(reported) =~= listed(reported));
}

/// The values of a list of entries without the last are those of the list
/// without the last.
pub proof fn lemma_entry_values_prefix(entries: Seq<Seq<Seq<u8>>>, n: nat)
    requires
        entries.len() > 0,
    ensures
        entry_values(entries, n) == entry_values(entries.drop_last(), n).push(
            prefix_key(entries.last(), n),
        ),
{
    assert(entry_values(entries, n) =~= entry_values(entries.drop_last(), n).push(
        prefix_key(entries.last(), n),
    ));
}

/// A scan in exact mode of a stream in which equal values stand together
/// keeps the runs exact.
pub proof fn lemma_scan_exact(s: IndexStatistics, entries: Seq<Seq<Seq<u8>>>)
    requires
        s.exact(),
        runs_exact(s, Seq::empty()),
        contiguous(entry_values(entries, s.num_columns)),
        entries.len() <= u32::MAX,
    ensures
        runs_exact(s.collect_all(entries), entry_values(entries, s.num_columns)),
        s.collect_all(entries).exact(),
        s.collect_all(entries).num_columns == s.num_columns,
        s.collect_all(entries).top_n_size == s.top_n_size,
    decreases entries.len(),
{
    let values = entry_values(entries, s.num_columns);
    if entries.len() == 0 {
        assert(values =~= Seq::empty());
    } else {
        let front = entries.drop_last();
        lemma_entry_values_prefix(entries, s.num_columns);
        lemma_contiguous_prefix(values);
        assert(values.drop_last() =~= entry_values(front, s.num_columns));
        lemma_scan_exact(s, front);
        let before = s.collect_all(front);
        let data = prefix_key(entries.last(), s.num_columns);
        let counted = IndexStatistics {
            hist: before.hist.append(data, before.exact()),
            cms: match before.cms {
                Some(c) => Some(c.add(murmur3_x64_128(data, 0))),
                None => None,
            },
            fms: before.fms.insert(hash64(data)),
            ..before
        };
        assert(runs_exact(counted, entry_values(front, s.num_columns)));
        lemma_track_exact(counted, entry_values(front, s.num_columns), data);
    }
}

/// Where equal values stand together in the scanned stream, as they do in
/// an ascending one, every heavy hitter that a scan in exact mode reports
/// comes with the number of all occurrences of its value in the stream.
pub proof fn lemma_heavy_hitters_exact(req: AnalyzeIndexReq, entries: Seq<Seq<Seq<u8>>>)
    requires
        req.version == Some(ANALYZE_VERSION_V2),
        contiguous(entry_values(entries, req.num_columns as nat)),
        entries.len() <= u32::MAX,
    ensures
        ({
            let values = entry_values(entries, req.num_columns as nat);
            let reported = IndexStatistics::start(req).collect_all(entries).heavy_hitters();
            &&& reported.len() <= req.top_n_size
            &&& forall|k: int|
                0 <= k < reported.len() ==> (#[trigger] reported[k]).0 > 0 && reported[k].0
                    == occurrences(values, reported[k].1)
        }),
{
    let s = IndexStatistics::start(req);
    let values = entry_values(entries, req.num_columns as nat);
    lemma_scan_exact(s, entries);
    let end = s.collect_all(entries);
    let reported = end.heavy_hitters();
    lemma_top_push_members(end.topn, end.cur_val, end.top_n_size);
    lemma_heavy_hitters_bounded(s, entries);
    assert forall|k: int| 0 <= k < reported.len() implies (#[trigger] reported[k]).0 > 0
        && reported[k].0 == occurrences(values, reported[k].1) by {
        let item = reported[k];
        if end.cur_val.0 > 0 && item == end.cur_val {
        } else {
            assert(end.topn.contains(item));
            let j = choose|j: int| 0 <= j < end.topn.len() && end.topn[j] == item;
            assert(end.topn[j].0 == occurrences(values, item.1));
        }
    }
}

/// The heavy hitters are held in descending order and never outnumber the
/// size asked for.
pub open spec fn top_n_kept(s: IndexStatistics) -> bool {
    items_descend(s.topn) && s.topn.len() <= s.top_n_size
}

/// A scan keeps the heavy hitters in order and within their number, and so
/// are those it reports.
pub proof fn lemma_heavy_hitters_bounded(s: IndexStatistics, entries: Seq<Seq<Seq<u8>>>)
    requires
        top_n_kept(s),
    ensures
        top_n_kept(s.collect_all(entries)),
        s.collect_all(entries).top_n_size == s.top_n_size,
        s.collect_all(entries).stats_version == s.stats_version,
        items_descend(s.collect_all(entries).heavy_hitters()),
        s.collect_all(entries).heavy_hitters().len() <= s.top_n_size,
    decreases entries.len(),
{
    if entries.len() > 0 {
        lemma_heavy_hitters_bounded(s, entries.drop_last());
        let before = s.collect_all(entries.drop_last());
        lemma_top_push_descends(before.topn, before.cur_val, before.top_n_size);
    }
    let end = s.collect_all(entries);
    lemma_top_push_descends(end.topn, end.cur_val, end.top_n_size);
}

} // verus!
