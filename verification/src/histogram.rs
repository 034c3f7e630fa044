//! Equi-depth histogram built online from an ascending stream of values.

use crate::encoding::bytes_eq;
use crate::encoding::bytes_lt;
use crate::encoding::lemma_ascending_prefix;
use crate::encoding::lemma_bytes_lt_asymmetric;
use crate::encoding::lemma_bytes_lt_transitive;
use crate::encoding::lemma_occurrences;
use crate::encoding::occurrences;
use crate::encoding::values_ascend;
use crate::proto::HistogramProto;
use vstd::prelude::*;

verus! {

/// One bucket of a histogram.
pub struct Bucket {
    /// The number of values in this bucket and in all the buckets before it.
    pub count: u64,
    /// The greatest value in the bucket.
    pub upper_bound: Vec<u8>,
    /// How often the greatest value was counted.
    pub repeats: u64,
}

/// What a bucket holds.
pub struct BucketView {
    pub count: u64,
    pub upper_bound: Seq<u8>,
    pub repeats: u64,
}

impl View for Bucket {
    type V = BucketView;

    open spec fn view(&self) -> BucketView {
        BucketView { count: self.count, upper_bound: self.upper_bound@, repeats: self.repeats }
    }
}

/// The views of a list of buckets.
pub open spec fn buckets_view(buckets: Seq<Bucket>) -> Seq<BucketView> {
    Seq::new(buckets.len(), |i: int| buckets[i]@)
}

/// What a histogram holds: its buckets in the order they were opened, and
/// the number of buckets it may keep.
pub struct Buckets {
    pub max_buckets: nat,
    pub buckets: Seq<BucketView>,
}

/// Cumulative counts never go down from one bucket to the next.
pub open spec fn counts_ascend(buckets: Seq<BucketView>) -> bool {
    forall|i: int, j: int| 0 <= i <= j < buckets.len() ==> buckets[i].count <= buckets[j].count
}

/// Upper bounds go up from each bucket to the next.
pub open spec fn bounds_ascend(buckets: Seq<BucketView>) -> bool {
    forall|i: int, j: int|
        0 <= i < j < buckets.len() ==> bytes_lt(buckets[i].upper_bound, buckets[j].upper_bound)
}

/// The number of values counted before bucket `i`.
pub open spec fn count_before(buckets: Seq<BucketView>, i: int) -> int {
    if i > 0 {
        buckets[i - 1].count as int
    } else {
        0
    }
}

/// The number of values that buckets `i` and `i + 1` hold together.
pub open spec fn pair_weight(buckets: Seq<BucketView>, i: int) -> int {
    buckets[i + 1].count - count_before(buckets, i)
}

/// Among the first `n` pairs of neighbours, the first of those that hold
/// the fewest values.
pub open spec fn lightest_pair(buckets: Seq<BucketView>, n: nat) -> int
    decreases n,
{
    if n <= 1 {
        0
    } else {
        let best = lightest_pair(buckets, (n - 1) as nat);
        if pair_weight(buckets, n - 1) < pair_weight(buckets, best) {
            n - 1
        } else {
            best
        }
    }
}

impl Buckets {
    /// The histogram without buckets.
    pub open spec fn empty(max_buckets: nat) -> Buckets {
        Buckets { max_buckets, buckets: Seq::empty() }
    }

    /// The number of buckets that the histogram never exceeds: the
    /// configured number, but one where that is zero.
    pub open spec fn bound(self) -> nat {
        if self.max_buckets == 0 {
            1
        } else {
            self.max_buckets
        }
    }

    /// The histogram is within its bound and its cumulative counts ascend.
    pub open spec fn wf(self) -> bool {
        self.buckets.len() <= self.bound() && counts_ascend(self.buckets)
    }

    /// The number of values counted so far.
    pub open spec fn total(self) -> u64 {
        if self.buckets.len() > 0 {
            self.buckets.last().count
        } else {
            0
        }
    }

    /// The histogram after one more value. A value equal to the last upper
    /// bound is counted into the last bucket, and into its repeats where
    /// `exact` is set. Any other value opens a bucket of its own; if that
    /// makes more buckets than allowed, the two neighbours that together
    /// hold the fewest values become one, which keeps the upper bound,
    /// cumulative count and repeats of the second.
    pub open spec fn append(self, data: Seq<u8>, exact: bool) -> Buckets {
        if self.buckets.len() > 0 && self.buckets.last().upper_bound == data {
            let last = self.buckets.last();
            Buckets {
                buckets: self.buckets.update(
                    self.buckets.len() - 1,
                    BucketView {
                        count: last.count.saturating_add(1),
                        upper_bound: data,
                        repeats: if exact {
                            last.repeats.saturating_add(1)
                        } else {
                            last.repeats
                        },
                    },
                ),
                ..self
            }
        } else {
            let opened = self.buckets.push(
                BucketView { count: self.total().saturating_add(1), upper_bound: data, repeats: 1 },
            );
            Buckets {
                buckets: if opened.len() > self.max_buckets && opened.len() >= 2 {
                    opened.remove(lightest_pair(opened, (opened.len() - 1) as nat))
                } else {
                    opened
                },
                ..self
            }
        }
    }

    /// The histogram after each value of `stream` in turn; with each value
    /// comes the mode in which it is appended.
    pub open spec fn append_all(self, stream: Seq<(Seq<u8>, bool)>) -> Buckets
        decreases stream.len(),
    {
        if stream.len() == 0 {
            self
        } else {
            self.append_all(stream.drop_last()).append(stream.last().0, stream.last().1)
        }
    }
}

/// The lightest pair is one of the pairs, none is lighter, and none before
/// it is as light.
pub proof fn lemma_lightest_pair(buckets: Seq<BucketView>, n: nat)
    requires
        n >= 1,
    ensures
        0 <= lightest_pair(buckets, n) < n,
        forall|i: int|
            0 <= i < n ==> pair_weight(buckets, lightest_pair(buckets, n)) <= #[trigger] pair_weight(
                buckets,
                i,
            ),
        forall|i: int|
            0 <= i < lightest_pair(buckets, n) ==> pair_weight(buckets, lightest_pair(buckets, n))
                < #[trigger] pair_weight(buckets, i),
    decreases n,
{
    if n > 1 {
        lemma_lightest_pair(buckets, (n - 1) as nat);
    }
}

/// One more value keeps the histogram within its bound and its cumulative
/// counts ascending, and raises the total by one.
pub proof fn lemma_append_wf(h: Buckets, data: Seq<u8>, exact: bool)
    requires
        h.wf(),
    ensures
        h.append(data, exact).wf(),
        h.append(data, exact).max_buckets == h.max_buckets,
        h.append(data, exact).total() == h.total().saturating_add(1),
{
    let r = h.append(data, exact);
    if h.buckets.len() > 0 && h.buckets.last().upper_bound == data {
        assert(counts_ascend(r.buckets));
    } else {
        let opened = h.buckets.push(
            BucketView { count: h.total().saturating_add(1), upper_bound: data, repeats: 1 },
        );
        assert(counts_ascend(opened));
        if opened.len() > h.max_buckets && opened.len() >= 2 {
            let p = lightest_pair(opened, (opened.len() - 1) as nat);
            lemma_lightest_pair(opened, (opened.len() - 1) as nat);
            assert(r.buckets == opened.remove(p));
            assert(r.buckets.last() == opened.last());
            assert(counts_ascend(r.buckets)) by {
                assert forall|i: int, j: int| 0 <= i <= j < r.buckets.len() implies r.buckets[i].count
                    <= r.buckets[j].count by {
                    let oi = if i < p {
                        i
                    } else {
                        i + 1
                    };
                    let oj = if j < p {
                        j
                    } else {
                        j + 1
                    };
                    assert(r.buckets[i] == opened[oi]);
                    assert(r.buckets[j] == opened[oj]);
                }
            }
        }
    }
}

/// However many values are appended, in whatever modes, the histogram stays
/// within its bound, its cumulative counts ascend, and a histogram that may
/// keep at least one bucket never keeps more than it may.
pub proof fn lemma_append_all_wf(h: Buckets, stream: Seq<(Seq<u8>, bool)>)
    requires
        h.wf(),
    ensures
        h.append_all(stream).wf(),
        h.append_all(stream).max_buckets == h.max_buckets,
        counts_ascend(h.append_all(stream).buckets),
        h.max_buckets >= 1 ==> h.append_all(stream).buckets.len() <= h.max_buckets,
    decreases stream.len(),
{
    if stream.len() > 0 {
        lemma_append_all_wf(h, stream.drop_last());
        lemma_append_wf(h.append_all(stream.drop_last()), stream.last().0, stream.last().1);
    }
}

/// While fewer than `u64::MAX` values were appended, the total is their
/// number.
pub proof fn lemma_total_counts_stream(max_buckets: nat, stream: Seq<(Seq<u8>, bool)>)
    requires
        stream.len() <= u64::MAX,
    ensures
        Buckets::empty(max_buckets).append_all(stream).total() == stream.len(),
    decreases stream.len(),
{
    let e = Buckets::empty(max_buckets);
    if stream.len() > 0 {
        lemma_total_counts_stream(max_buckets, stream.drop_last());
        lemma_append_all_wf(e, stream.drop_last());
        lemma_append_wf(e.append_all(stream.drop_last()), stream.last().0, stream.last().1);
    }
}

/// A value that is not below the last upper bound keeps the upper bounds
/// ascending.
pub proof fn lemma_append_keeps_bounds_ascending(h: Buckets, data: Seq<u8>, exact: bool)
    requires
        bounds_ascend(h.buckets),
        h.buckets.len() > 0 ==> h.buckets.last().upper_bound == data || bytes_lt(
            h.buckets.last().upper_bound,
            data,
        ),
    ensures
        bounds_ascend(h.append(data, exact).buckets),
        h.append(data, exact).buckets.len() > 0,
        h.append(data, exact).buckets.last().upper_bound == data,
{
    let r = h.append(data, exact);
    if h.buckets.len() > 0 && h.buckets.last().upper_bound == data {
        assert(bounds_ascend(r.buckets));
    } else {
        let opened = h.buckets.push(
            BucketView { count: h.total().saturating_add(1), upper_bound: data, repeats: 1 },
        );
        assert(bounds_ascend(opened)) by {
            assert forall|i: int, j: int| 0 <= i < j < opened.len() implies bytes_lt(
                opened[i].upper_bound,
                opened[j].upper_bound,
            ) by {
                if j == opened.len() - 1 {
                    if i < h.buckets.len() - 1 {
                        assert(bytes_lt(
                            h.buckets[i].upper_bound,
                            h.buckets[h.buckets.len() - 1].upper_bound,
                        ));
                        lemma_bytes_lt_transitive(
                            h.buckets[i].upper_bound,
                            h.buckets.last().upper_bound,
                            data,
                        );
                    }
                } else {
                    assert(opened[i] == h.buckets[i] && opened[j] == h.buckets[j]);
                }
            }
        }
        if opened.len() > h.max_buckets && opened.len() >= 2 {
            let p = lightest_pair(opened, (opened.len() - 1) as nat);
            lemma_lightest_pair(opened, (opened.len() - 1) as nat);
            assert(r.buckets == opened.remove(p));
            assert(r.buckets.last() == opened.last());
            assert forall|i: int, j: int| 0 <= i < j < r.buckets.len() implies bytes_lt(
                r.buckets[i].upper_bound,
                r.buckets[j].upper_bound,
            ) by {
                let oi = if i < p {
                    i
                } else {
                    i + 1
                };
                let oj = if j < p {
                    j
                } else {
                    j + 1
                };
                assert(r.buckets[i] == opened[oi]);
                assert(r.buckets[j] == opened[oj]);
            }
        }
    }
}

/// The stream in which every value of `values` is appended in exact mode.
pub open spec fn exact_stream(values: Seq<Seq<u8>>) -> Seq<(Seq<u8>, bool)> {
    Seq::new(values.len(), |i: int| (values[i], true))
}

/// What holds of a histogram while an ascending stream is appended in
/// exact mode: the upper bounds ascend, the last of them is the last value
/// seen, and the repeats of every bucket are the number of all
/// occurrences of its upper bound.
pub open spec fn repeats_exact(h: Buckets, seen: Seq<Seq<u8>>) -> bool {
    &&& bounds_ascend(h.buckets)
    &&& seen.len() == 0 ==> h.buckets.len() == 0
    &&& seen.len() > 0 ==> h.buckets.len() > 0 && h.buckets.last().upper_bound == seen.last()
    &&& forall|k: int|
        0 <= k < h.buckets.len() ==> (#[trigger] h.buckets[k]).repeats == occurrences(
            seen,
            h.buckets[k].upper_bound,
        )
}

/// One more value of an ascending stream, appended in exact mode, keeps
/// the repeats exact.
pub proof fn lemma_append_exact(h: Buckets, seen: Seq<Seq<u8>>, x: Seq<u8>)
    requires
        repeats_exact(h, seen),
        values_ascend(seen.push(x)),
        seen.len() < u64::MAX,
    ensures
        repeats_exact(h.append(x, true), seen.push(x)),
{
    let next = seen.push(x);
    let r = h.append(x, true);
    assert(next.drop_last() =~= seen);
    lemma_occurrences(seen, x);
    if seen.len() > 0 {
        assert(next[seen.len() - 1] == seen.last() && next[seen.len() as int] == x);
        assert(seen.last() == x || bytes_lt(seen.last(), x));
    }
    lemma_append_keeps_bounds_ascending(h, x, true);
    if h.buckets.len() > 0 && h.buckets.last().upper_bound == x {
        assert forall|k: int| 0 <= k < r.buckets.len() implies (#[trigger] r.buckets[k]).repeats
            == occurrences(next, r.buckets[k].upper_bound) by {
            if k < h.buckets.len() - 1 {
                assert(bytes_lt(h.buckets[k].upper_bound, h.buckets[h.buckets.len() - 1].upper_bound));
                lemma_bytes_lt_asymmetric(h.buckets[k].upper_bound, x);
            }
        }
    } else {
        if occurrences(seen, x) > 0 {
            let i = choose|i: int| 0 <= i < seen.len() && seen[i] == x;
            assert(next[i] == x && next[seen.len() - 1] == seen.last());
            lemma_bytes_lt_asymmetric(x, seen.last());
            assert(false);
        }
        let opened = h.buckets.push(
            BucketView { count: h.total().saturating_add(1), upper_bound: x, repeats: 1 },
        );
        assert forall|k: int| 0 <= k < opened.len() implies (#[trigger] opened[k]).repeats
            == occurrences(next, opened[k].upper_bound) by {
            if k < h.buckets.len() {
                assert(opened[k] == h.buckets[k]);
                if k < h.buckets.len() - 1 {
                    assert(bytes_lt(
                        h.buckets[k].upper_bound,
                        h.buckets[h.buckets.len() - 1].upper_bound,
                    ));
                    lemma_bytes_lt_transitive(
                        h.buckets[k].upper_bound,
                        h.buckets.last().upper_bound,
                        x,
                    );
                }
                lemma_bytes_lt_asymmetric(h.buckets[k].upper_bound, x);
            }
        }
        if opened.len() > h.max_buckets && opened.len() >= 2 {
            let p = lightest_pair(opened, (opened.len() - 1) as nat);
            lemma_lightest_pair(opened, (opened.len() - 1) as nat);
            assert forall|k: int| 0 <= k < r.buckets.len() implies (#[trigger] r.buckets[k]).repeats
                == occurrences(next, r.buckets[k].upper_bound) by {
                let ok = if k < p {
                    k
                } else {
                    k + 1
                };
                assert(r.buckets[k] == opened[ok]);
            }
        }
    }
}

/// In exact mode and on an ascending stream, the repeats of every bucket
/// are exact: they count all occurrences of the bucket's upper bound, not
/// an estimate of them, and the upper bounds come out in ascending order.
pub proof fn lemma_ascending_stream_exact(max_buckets: nat, values: Seq<Seq<u8>>)
    requires
        values_ascend(values),
        values.len() <= u64::MAX,
    ensures
        repeats_exact(Buckets::empty(max_buckets).append_all(exact_stream(values)), values),
    decreases values.len(),
{
    if values.len() > 0 {
        let front = values.drop_last();
        lemma_ascending_prefix(values);
        lemma_ascending_stream_exact(max_buckets, front);
        assert(exact_stream(values).drop_last() =~= exact_stream(front));
        assert(front.push(values.last()) =~= values);
        lemma_append_exact(
            Buckets::empty(max_buckets).append_all(exact_stream(front)),
            front,
            values.last(),
        );
    }
}

/// Equi-depth histogram of bounded size.
pub struct Histogram {
    buckets: Vec<Bucket>,
    buckets_num: usize,
}

impl View for Histogram {
    type V = Buckets;

    closed spec fn view(&self) -> Buckets {
        Buckets { max_buckets: self.buckets_num as nat, buckets: buckets_view(self.buckets@) }
    }
}

fn count_again(bucket: &mut Bucket, exact_repeat_mode: bool)
    ensures
        final(bucket)@ == (BucketView {
            count: old(bucket).count.saturating_add(1),
            upper_bound: old(bucket).upper_bound@,
            repeats: if exact_repeat_mode {
                old(bucket).repeats.saturating_add(1)
            } else {
                old(bucket).repeats
            },
        }),
{
    bucket.count = bucket.count.saturating_add(1);
    if exact_repeat_mode {
        bucket.repeats = bucket.repeats.saturating_add(1);
    }
}

impl Histogram {
    /// A histogram without buckets that may keep `buckets_num` of them. A
    /// histogram that may keep none keeps one all the same once a value is
    /// appended: what it has counted has to stand somewhere.
    pub fn new(buckets_num: usize) -> (hist: Histogram)
        ensures
            hist@ == Buckets::empty(buckets_num as nat),
            hist@.wf(),
            hist@.bound() == if buckets_num == 0 {
                1
            } else {
                buckets_num as nat
            },
    {
        let hist = Histogram { buckets: Vec::new(), buckets_num };
        assert(hist@.buckets =~= Seq::empty());
        hist
    }

    /// The buckets, in ascending order of their upper bounds where the
    /// values came in ascending order.
    pub fn buckets(&self) -> (buckets: &Vec<Bucket>)
        ensures
            buckets_view(buckets@) == self@.buckets,
    {
        &self.buckets
    }

    /// The number of buckets the histogram was asked to keep.
    pub fn buckets_num(&self) -> (n: usize)
        ensures
            n == self@.max_buckets,
    {
        self.buckets_num
    }

    /// The record of the histogram: its buckets in order.
    pub fn into_proto(self) -> (proto: HistogramProto)
        ensures
            proto@ == self@.buckets,
    {
        HistogramProto { buckets: self.buckets }
    }

    fn find_lightest_pair(&self) -> (p: usize)
        requires
            self.buckets.len() >= 2,
            counts_ascend(buckets_view(self.buckets@)),
        ensures
            p == lightest_pair(buckets_view(self.buckets@), (self.buckets.len() - 1) as nat),
            p < self.buckets.len() - 1,
    {
        let ghost view = buckets_view(self.buckets@);
        let mut best: usize = 0;
        let mut best_weight: u64 = self.buckets[1].count;
        let mut i: usize = 1;
        while i < self.buckets.len() - 1
            invariant
                1 <= i <= self.buckets.len() - 1,
                view == buckets_view(self.buckets@),
                counts_ascend(view),
                best == lightest_pair(view, i as nat),
                best < i,
                best_weight == pair_weight(view, best as int),
            decreases self.buckets.len() - i,
        {
            assert(view[i - 1].count <= view[i + 1].count);
            let weight: u64 = self.buckets[i + 1].count - self.buckets[i - 1].count;
            if weight < best_weight {
                best = i;
                best_weight = weight;
            }
            i += 1;
        }
        best
    }

    /// Counts one more value, which must not sort before the values that
    /// came earlier if the buckets are to come out in order. Afterwards
    /// there is at least one bucket, and no more than the histogram may
    /// keep, or one where it may keep none.
    pub fn append(&mut self, data: &Vec<u8>, exact_repeat_mode: bool)
        requires
            old(self)@.wf(),
        ensures
            final(self)@ == old(self)@.append(data@, exact_repeat_mode),
            final(self)@.wf(),
            1 <= final(self)@.buckets.len() <= final(self)@.bound(),
            final(self)@.max_buckets >= 1 ==> final(self)@.buckets.len()
                <= final(self)@.max_buckets,
            final(self)@.max_buckets == 0 ==> final(self)@.buckets.len() == 1,
    {
        proof {
            lemma_append_wf(self@, data@, exact_repeat_mode);
        }
        let n = self.buckets.len();
        if n > 0 && bytes_eq(&self.buckets[n - 1].upper_bound, data) {
            count_again(&mut self.buckets[n - 1], exact_repeat_mode);
            assert(self@.buckets =~= old(self)@.append(data@, exact_repeat_mode).buckets);
            return ;
        }
        let total: u64 = if n > 0 {
            self.buckets[n - 1].count
        } else {
            0
        };
        let upper_bound = data.clone();
        assert(upper_bound@ =~= data@);
        self.buckets.push(Bucket { count: total.saturating_add(1), upper_bound, repeats: 1 });
        let ghost opened = old(self)@.buckets.push(
            BucketView { count: old(self)@.total().saturating_add(1), upper_bound: data@, repeats: 1 },
        );
        assert(buckets_view(self.buckets@) =~= opened);
        if self.buckets.len() > self.buckets_num && self.buckets.len() >= 2 {
            assert(counts_ascend(opened));
            let p = self.find_lightest_pair();
            self.buckets.remove(p);
            assert(buckets_view(self.buckets@) =~= opened.remove(p as int));
        }
    }
}

} // verus!
