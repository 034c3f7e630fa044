//! Per-column collector: counts, size, both sketches and a reservoir sample
//! of the values of one column.

use crate::cmsketch::CmSketch;
use crate::cmsketch::CountMin;
use crate::encoding::add_payload;
use crate::encoding::is_null;
use crate::encoding::is_null_value;
use crate::encoding::payload_size;
use crate::encoding::values_view;
use crate::fmsketch::lemma_insert_wf;
use crate::fmsketch::DistinctValues;
use crate::fmsketch::FmSketch;
use crate::hashing::hash128;
use crate::hashing::murmur3_x64_128;
use crate::proto::cm_sketch_record;
use crate::proto::SampleCollectorProto;
use crate::proto::SampleCollectorRecord;
use crate::random::new_rng;
use crate::random::random_below;
use rand::rngs::StdRng;
use vstd::prelude::*;

verus! {

/// A count-min sketch, where there is one, after counting a value.
pub open spec fn add_to(sketch: Option<CountMin>, digest: (u64, u64)) -> Option<CountMin> {
    match sketch {
        Some(c) => Some(c.add(digest)),
        None => None,
    }
}

/// One value as a collector meets it: its bytes and digest, and the two
/// draws that decide its place in a full reservoir.
pub struct Observation {
    pub data: Seq<u8>,
    pub digest: (u64, u64),
    pub draw: u64,
    pub victim: int,
}

/// What a column collector holds.
pub struct ColumnSample {
    pub samples: Seq<Seq<u8>>,
    pub null_count: u64,
    pub count: u64,
    pub max_sample_size: nat,
    pub fm_sketch: DistinctValues,
    pub cm_sketch: Option<CountMin>,
    pub total_size: u64,
}

impl ColumnSample {
    /// The collector that has seen nothing.
    pub open spec fn empty(
        max_sample_size: nat,
        max_fm_sketch_size: nat,
        cm_sketch_depth: nat,
        cm_sketch_width: nat,
    ) -> ColumnSample {
        ColumnSample {
            samples: Seq::empty(),
            null_count: 0,
            count: 0,
            max_sample_size,
            fm_sketch: DistinctValues::empty(max_fm_sketch_size),
            cm_sketch: if cm_sketch_depth == 0 || cm_sketch_width == 0 {
                None
            } else {
                Some(CountMin::empty(cm_sketch_depth, cm_sketch_width))
            },
            total_size: 0,
        }
    }

    /// The sample is within its bound and holds no null, and the sketches
    /// are well formed.
    pub open spec fn wf(self) -> bool {
        &&& self.samples.len() <= self.max_sample_size <= usize::MAX
        &&& forall|i: int| 0 <= i < self.samples.len() ==> !is_null_value(#[trigger] self.samples[i])
        &&& self.fm_sketch.wf()
        &&& self.cm_sketch matches Some(c) ==> c.wf()
    }

    /// The collector after counting a value that is not null: the count
    /// goes up by one, the size by the payload, and both sketches see the
    /// value. The sample is untouched.
    pub open spec fn observe(self, data: Seq<u8>, digest: (u64, u64)) -> ColumnSample {
        ColumnSample {
            count: self.count.saturating_add(1),
            fm_sketch: self.fm_sketch.insert(digest.0),
            cm_sketch: add_to(self.cm_sketch, digest),
            total_size: add_payload(self.total_size, data),
            ..self
        }
    }

    /// A value that is not null finds the reservoir full and `draw` admits
    /// it: an earlier sample has to leave.
    pub open spec fn evicts(self, data: Seq<u8>, draw: u64) -> bool {
        !is_null_value(data) && self.samples.len() >= self.max_sample_size && draw
            < self.max_sample_size
    }

    /// The collector after one value. A null only raises the null count.
    /// Any other value is counted, and joins the sample while the
    /// reservoir has room; once it is full the value is admitted when
    /// `draw`, taken below the new count, is below the reservoir's size,
    /// and then takes the place of the sample at `victim`.
    pub open spec fn collect_with(self, data: Seq<u8>, digest: (u64, u64), draw: u64, victim: int)
        -> ColumnSample {
        if is_null_value(data) {
            ColumnSample { null_count: self.null_count.saturating_add(1), ..self }
        } else {
            let seen = self.observe(data, digest);
            if self.samples.len() < self.max_sample_size {
                ColumnSample { samples: self.samples.push(data), ..seen }
            } else if draw < self.max_sample_size {
                ColumnSample { samples: self.samples.remove(victim).push(data), ..seen }
            } else {
                seen
            }
        }
    }

    /// The collector after each observation of `stream` in turn.
    pub open spec fn collect_all(self, stream: Seq<Observation>) -> ColumnSample
        decreases stream.len(),
    {
        if stream.len() == 0 {
            self
        } else {
            let o = stream.last();
            self.collect_all(stream.drop_last()).collect_with(o.data, o.digest, o.draw, o.victim)
        }
    }

    /// The record of the collector.
    pub open spec fn record(self) -> SampleCollectorRecord {
        SampleCollectorRecord {
            samples: self.samples,
            null_count: self.null_count,
            count: self.count,
            fm_sketch: Some(self.fm_sketch.hashes),
            cm_sketch: match self.cm_sketch {
                Some(c) => Some(cm_sketch_record(c)),
                None => None,
            },
            total_size: self.total_size,
        }
    }
}

/// The values of a stream of observations.
pub open spec fn observed_values(stream: Seq<Observation>) -> Seq<Seq<u8>> {
    Seq::new(stream.len(), |i: int| stream[i].data)
}

/// The number of observations whose value is not null.
pub open spec fn count_non_null(stream: Seq<Observation>) -> nat
    decreases stream.len(),
{
    if stream.len() == 0 {
        0
    } else {
        count_non_null(stream.drop_last()) + if is_null_value(stream.last().data) {
            0nat
        } else {
            1nat
        }
    }
}

/// Every victim named by the stream is a place in the reservoir.
pub open spec fn victims_in_range(stream: Seq<Observation>, max_sample_size: nat) -> bool {
    forall|i: int|
        0 <= i < stream.len() ==> 0 <= (#[trigger] stream[i]).victim < max_sample_size
            || max_sample_size == 0
}

/// One value keeps a collector well formed.
pub proof fn lemma_collect_wf(c: ColumnSample, data: Seq<u8>, digest: (u64, u64), draw: u64, victim: int)
    requires
        c.wf(),
        c.evicts(data, draw) ==> 0 <= victim < c.max_sample_size,
    ensures
        c.collect_with(data, digest, draw, victim).wf(),
        c.collect_with(data, digest, draw, victim).max_sample_size == c.max_sample_size,
{
    lemma_insert_wf(c.fm_sketch, digest.0);
    let r = c.collect_with(data, digest, draw, victim);
    if !is_null_value(data) {
        if c.samples.len() < c.max_sample_size {
            assert forall|i: int| 0 <= i < r.samples.len() implies !is_null_value(
                #[trigger] r.samples[i],
            ) by {
                if i < c.samples.len() {
                    assert(r.samples[i] == c.samples[i]);
                }
            }
        } else if draw < c.max_sample_size {
            let kept = c.samples.remove(victim);
            assert forall|i: int| 0 <= i < r.samples.len() implies !is_null_value(
                #[trigger] r.samples[i],
            ) by {
                if i < kept.len() {
                    assert(r.samples[i] == kept[i]);
                    if i < victim {
                        assert(kept[i] == c.samples[i]);
                    } else {
                        assert(kept[i] == c.samples[i + 1]);
                    }
                }
            }
        }
    }
}

/// A null raises the null count by one and changes nothing else: no
/// sketch, no size, no sample.
pub proof fn lemma_null_only_counted(c: ColumnSample, data: Seq<u8>, digest: (u64, u64), draw: u64, victim: int)
    requires
        is_null_value(data),
    ensures
        c.collect_with(data, digest, draw, victim) == (ColumnSample {
            null_count: c.null_count.saturating_add(1),
            ..c
        }),
{
}

/// The sample never outgrows the reservoir, and it holds as many values as
/// the reservoir has room for or as were not null, whichever is fewer.
pub proof fn lemma_sample_size(c: ColumnSample, stream: Seq<Observation>)
    requires
        c.wf(),
        victims_in_range(stream, c.max_sample_size),
    ensures
        c.collect_all(stream).wf(),
        c.collect_all(stream).max_sample_size == c.max_sample_size,
        c.collect_all(stream).samples.len() == if c.samples.len() + count_non_null(stream)
            <= c.max_sample_size {
            c.samples.len() + count_non_null(stream)
        } else {
            c.max_sample_size
        },
    decreases stream.len(),
{
    if stream.len() > 0 {
        let front = stream.drop_last();
        let o = stream.last();
        assert(victims_in_range(front, c.max_sample_size)) by {
            assert forall|i: int| 0 <= i < front.len() implies 0 <= (#[trigger] front[i]).victim
                < c.max_sample_size || c.max_sample_size == 0 by {
                assert(front[i] == stream[i]);
            }
        }
        lemma_sample_size(c, front);
        assert(o == stream[stream.len() - 1]);
        lemma_collect_wf(c.collect_all(front), o.data, o.digest, o.draw, o.victim);
    }
}

/// While the reservoir has room for them, the values that are not null are
/// all kept, in the order they came.
pub proof fn lemma_short_stream_kept(c: ColumnSample, stream: Seq<Observation>)
    requires
        c.samples.len() + stream.len() <= c.max_sample_size,
        forall|i: int| 0 <= i < stream.len() ==> !is_null_value((#[trigger] stream[i]).data),
    ensures
        c.collect_all(stream).samples == c.samples + observed_values(stream),
        c.collect_all(stream).max_sample_size == c.max_sample_size,
    decreases stream.len(),
{
    if stream.len() == 0 {
        assert(c.samples + observed_values(stream) =~= c.samples);
    } else {
        let front = stream.drop_last();
        let o = stream.last();
        assert forall|i: int| 0 <= i < front.len() implies !is_null_value(
            (#[trigger] front[i]).data,
        ) by {
            assert(front[i] == stream[i]);
        }
        lemma_short_stream_kept(c, front);
        assert(o == stream[stream.len() - 1]);
        assert((c.samples + observed_values(front)).push(o.data) =~= c.samples + observed_values(
            stream,
        ));
    }
}

/// Collector of the statistics and the sample of one column.
pub struct SampleCollector {
    samples: Vec<Vec<u8>>,
    null_count: u64,
    count: u64,
    max_sample_size: usize,
    fm_sketch: FmSketch,
    cm_sketch: Option<CmSketch>,
    rng: StdRng,
    total_size: u64,
}

/// The view of a count-min sketch, where there is one.
pub open spec fn cm_view(sketch: Option<CmSketch>) -> Option<CountMin> {
    match sketch {
        Some(c) => Some(c@),
        None => None,
    }
}

impl View for SampleCollector {
    type V = ColumnSample;

    closed spec fn view(&self) -> ColumnSample {
        ColumnSample {
            samples: values_view(self.samples@),
            null_count: self.null_count,
            count: self.count,
            max_sample_size: self.max_sample_size as nat,
            fm_sketch: self.fm_sketch@,
            cm_sketch: cm_view(self.cm_sketch),
            total_size: self.total_size,
        }
    }
}

impl SampleCollector {
    /// A collector that has seen nothing, with a reservoir of
    /// `max_sample_size` values and sketches of the given sizes; without a
    /// count-min sketch where its depth or width is zero.
    pub fn new(
        max_sample_size: usize,
        max_fm_sketch_size: usize,
        cm_sketch_depth: usize,
        cm_sketch_width: usize,
    ) -> (collector: SampleCollector)
        ensures
            collector@ == ColumnSample::empty(
                max_sample_size as nat,
                max_fm_sketch_size as nat,
                cm_sketch_depth as nat,
                cm_sketch_width as nat,
            ),
            collector@.wf(),
    {
        let collector = SampleCollector {
            samples: Vec::new(),
            null_count: 0,
            count: 0,
            max_sample_size,
            fm_sketch: FmSketch::new(max_fm_sketch_size),
            cm_sketch: CmSketch::new(cm_sketch_depth, cm_sketch_width),
            rng: new_rng(),
            total_size: 0,
        };
        assert(collector@.samples =~= Seq::empty());
        collector
    }

    /// The sampled values, oldest first.
    pub fn samples(&self) -> (samples: &Vec<Vec<u8>>)
        ensures
            values_view(samples@) == self@.samples,
    {
        &self.samples
    }

    /// The number of nulls seen.
    pub fn null_count(&self) -> (n: u64)
        ensures
            n == self@.null_count,
    {
        self.null_count
    }

    /// The number of values seen that were not null.
    pub fn count(&self) -> (n: u64)
        ensures
            n == self@.count,
    {
        self.count
    }

    /// The payload bytes of the values seen that were not null.
    pub fn total_size(&self) -> (n: u64)
        ensures
            n == self@.total_size,
    {
        self.total_size
    }

    /// The size of the reservoir.
    pub fn max_sample_size(&self) -> (n: usize)
        ensures
            n == self@.max_sample_size,
    {
        self.max_sample_size
    }

    /// The distinct-value sketch of the values seen.
    pub fn fm_sketch(&self) -> (sketch: &FmSketch)
        ensures
            sketch@ == self@.fm_sketch,
    {
        &self.fm_sketch
    }

    /// The count-min sketch of the values seen, where the collector keeps
    /// one.
    pub fn cm_sketch(&self) -> (sketch: &Option<CmSketch>)
        ensures
            cm_view(*sketch) == self@.cm_sketch,
    {
        &self.cm_sketch
    }

    /// Takes in one value whose digest and draws are given.
    pub fn collect_with(&mut self, data: Vec<u8>, digest: (u64, u64), draw: u64, victim: usize)
        requires
            old(self)@.wf(),
            old(self)@.evicts(data@, draw) ==> victim < old(self)@.max_sample_size,
        ensures
            final(self)@ == old(self)@.collect_with(data@, digest, draw, victim as int),
            final(self)@.wf(),
    {
        proof {
            lemma_collect_wf(self@, data@, digest, draw, victim as int);
        }
        if is_null(&data) {
            self.null_count = self.null_count.saturating_add(1);
            return ;
        }
        self.count = self.count.saturating_add(1);
        self.fm_sketch.insert_hash_value(digest.0);
        match &mut self.cm_sketch {
            Some(c) => {
                c.insert_hash(digest.0, digest.1);
            },
            None => {},
        }
        self.total_size = self.total_size.saturating_add(payload_size(&data) as u64);
        if self.samples.len() < self.max_sample_size {
            self.samples.push(data);
            assert(self@.samples =~= old(self)@.samples.push(data@));
            return ;
        }
        if draw < self.max_sample_size as u64 {
            self.samples.remove(victim);
            self.samples.push(data);
            assert(self@.samples =~= old(self)@.samples.remove(victim as int).push(data@));
        }
    }

    /// Takes in one value. The digest is that of the value; where the
    /// reservoir is full, the two draws are made at random, the first below
    /// the new count and the second, where the first admits the value,
    /// below the reservoir's size.
    pub fn collect(&mut self, data: Vec<u8>)
        requires
            old(self)@.wf(),
        ensures
            exists|draw: u64, victim: int|
                {
                    &&& draw < old(self)@.count.saturating_add(1)
                    &&& old(self)@.evicts(data@, draw) ==> 0 <= victim < old(self)@.max_sample_size
                    &&& #[trigger] old(self)@.collect_with(
                        data@,
                        murmur3_x64_128(data@, 0),
                        draw,
                        victim,
                    ) == final(self)@
                },
            final(self)@.wf(),
    {
        let digest = hash128(&data, 0);
        let mut draw: u64 = 0;
        let mut victim: usize = 0;
        if !is_null(&data) && self.samples.len() >= self.max_sample_size {
            draw = random_below(&mut self.rng, self.count.saturating_add(1));
            if draw < self.max_sample_size as u64 {
                victim = random_below(&mut self.rng, self.max_sample_size as u64) as usize;
            }
        }
        self.collect_with(data, digest, draw, victim);
    }

    /// The record of the collector.
    pub fn into_proto(self) -> (proto: SampleCollectorProto)
        ensures
            proto@ == self@.record(),
    {
        SampleCollectorProto {
            samples: self.samples,
            null_count: self.null_count,
            count: self.count,
            fm_sketch: Some(self.fm_sketch.into_proto()),
            cm_sketch: match self.cm_sketch {
                Some(c) => Some(c.into_proto()),
                None => None,
            },
            total_size: self.total_size,
        }
    }
}

} // verus!
