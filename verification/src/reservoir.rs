//! Row sampler that keeps a fixed number of rows: each row draws a random
//! priority, and the rows of highest priority stay.

use crate::encoding::lemma_rows_lt_asymmetric;
use crate::encoding::lemma_rows_lt_transitive;
use crate::encoding::rows_less;
use crate::encoding::rows_lt;
use crate::encoding::values_view;
use crate::error::Error;
use crate::proto::RowSampleCollectorProto;
use crate::proto::RowSampleCollectorRecord;
use crate::proto::RowSampleProto;
use crate::random::random_below;
use crate::request::group_offsets;
use crate::request::groups_in_range;
use crate::request::string_like_flags;
use crate::request::AnalyzeColumnGroup;
use crate::request::ColumnInfo;
use crate::row_base::BaseRowSampleCollector;
use crate::row_base::RowStatistics;
use crate::row_base::TraceEvent;
use crate::row_sample::checked_row_size;
use crate::row_sample::clone_row;
use crate::row_sample::lemma_rows_bytes_insert;
use crate::row_sample::lemma_rows_bytes_remove;
use crate::row_sample::row_bytes;
use crate::row_sample::rows_bytes;
use crate::row_sample::rows_of;
use vstd::prelude::*;

verus! {

/// Weights never go up from one sample to the next.
pub open spec fn weights_descend(samples: Seq<(i64, Seq<Seq<u8>>)>) -> bool {
    forall|i: int, j: int| 0 <= i <= j < samples.len() ==> samples[i].0 >= samples[j].0
}

/// `p` splits `samples` into those of weight at least `w` and those below.
pub open spec fn is_place(samples: Seq<(i64, Seq<Seq<u8>>)>, w: i64, p: int) -> bool {
    &&& 0 <= p <= samples.len()
    &&& forall|i: int| 0 <= i < p ==> (#[trigger] samples[i]).0 >= w
    &&& forall|i: int| p <= i < samples.len() ==> (#[trigger] samples[i]).0 < w
}

/// Where a sample of weight `w` joins samples of descending weight: behind
/// all those that weigh at least as much.
pub open spec fn place(samples: Seq<(i64, Seq<Seq<u8>>)>, w: i64) -> int {
    choose|p: int| is_place(samples, w, p)
}

/// There is one place for each weight.
pub proof fn lemma_place_unique(samples: Seq<(i64, Seq<Seq<u8>>)>, w: i64, p: int)
    requires
        is_place(samples, w, p),
    ensures
        place(samples, w) == p,
{
    let q = place(samples, w);
    assert(is_place(samples, w, q));
    if q < p {
        assert(samples[q].0 >= w);
    }
    if p < q {
        assert(samples[p].0 >= w);
    }
}

/// Samples of descending weight have a place for every weight.
pub proof fn lemma_place_exists(samples: Seq<(i64, Seq<Seq<u8>>)>, w: i64)
    requires
        weights_descend(samples),
    ensures
        is_place(samples, w, place(samples, w)),
    decreases samples.len(),
{
    if samples.len() == 0 {
        assert(is_place(samples, w, 0));
    } else if samples.last().0 >= w {
        assert(is_place(samples, w, samples.len() as int)) by {
            assert forall|i: int| 0 <= i < samples.len() implies (#[trigger] samples[i]).0
                >= w by {
                assert(samples[i].0 >= samples[samples.len() - 1].0);
            }
        }
    } else {
        let front = samples.drop_last();
        assert(weights_descend(front)) by {
            assert forall|i: int, j: int| 0 <= i <= j < front.len() implies front[i].0
                >= front[j].0 by {
                assert(samples[i].0 >= samples[j].0);
            }
        }
        lemma_place_exists(front, w);
        let p = place(front, w);
        assert(is_place(samples, w, p)) by {
            assert forall|i: int| 0 <= i < p implies (#[trigger] samples[i]).0 >= w by {
                assert(front[i].0 >= w);
            }
            assert forall|i: int| p <= i < samples.len() implies (#[trigger] samples[i]).0
                < w by {
                if i < front.len() {
                    assert(front[i].0 < w);
                }
            }
        }
    }
}

/// The order in which samples leave a full reservoir: by weight, and by
/// row where weights are equal.
pub open spec fn weighted_lt(a: (i64, Seq<Seq<u8>>), b: (i64, Seq<Seq<u8>>)) -> bool {
    a.0 < b.0 || (a.0 == b.0 && rows_lt(a.1, b.1))
}

/// Among the first `n` samples, the first of those that come first in the
/// order by weight and row: the sample that leaves when one has to.
pub open spec fn lightest(samples: Seq<(i64, Seq<Seq<u8>>)>, n: nat) -> int
    decreases n,
{
    if n <= 1 {
        0
    } else {
        let best = lightest(samples, (n - 1) as nat);
        if weighted_lt(samples[n - 1], samples[best]) {
            n - 1
        } else {
            best
        }
    }
}

/// The order by weight and row is transitive, and no sample comes before
/// itself in it.
pub proof fn lemma_weighted_order(
    a: (i64, Seq<Seq<u8>>),
    b: (i64, Seq<Seq<u8>>),
    c: (i64, Seq<Seq<u8>>),
)
    ensures
        !weighted_lt(a, a),
        weighted_lt(a, b) && weighted_lt(b, c) ==> weighted_lt(a, c),
{
    lemma_rows_lt_asymmetric(a.1, a.1);
    if rows_lt(a.1, b.1) && rows_lt(b.1, c.1) {
        lemma_rows_lt_transitive(a.1, b.1, c.1);
    }
}

/// The lightest sample is one of the samples; none weighs less, and none
/// comes before it in the order by weight and row.
pub proof fn lemma_lightest(samples: Seq<(i64, Seq<Seq<u8>>)>, n: nat)
    requires
        1 <= n <= samples.len(),
    ensures
        0 <= lightest(samples, n) < n,
        forall|i: int| 0 <= i < n ==> samples[lightest(samples, n)].0 <= (#[trigger] samples[i]).0,
        forall|i: int| 0 <= i < n ==> !weighted_lt(#[trigger] samples[i], samples[lightest(samples, n)]),
    decreases n,
{
    if n > 1 {
        lemma_lightest(samples, (n - 1) as nat);
        let best = lightest(samples, (n - 1) as nat);
        let l = lightest(samples, n);
        assert forall|i: int| 0 <= i < n implies !weighted_lt(#[trigger] samples[i], samples[l]) by {
            lemma_weighted_order(samples[i], samples[n - 1], samples[best]);
            lemma_weighted_order(samples[n - 1], samples[n - 1], samples[n - 1]);
        }
    } else {
        lemma_weighted_order(samples[0], samples[0], samples[0]);
    }
}

/// The samples after a row was offered with its priority to a reservoir of
/// `k` rows: it joins at the place of its weight while there is room; once
/// the reservoir is full it takes the place of the lightest sample if it is
/// heavier than the least weight, and is declined if not.
pub open spec fn offer(
    kept: Seq<(i64, Seq<Seq<u8>>)>,
    x: (i64, Seq<Seq<u8>>),
    k: nat,
) -> Seq<(i64, Seq<Seq<u8>>)> {
    if k == 0 {
        kept
    } else if kept.len() < k {
        kept.insert(place(kept, x.0), x)
    } else if kept.last().0 < x.0 {
        let rest = kept.remove(lightest(kept, kept.len()));
        rest.insert(place(rest, x.0), x)
    } else {
        kept
    }
}

/// `kept` holds the `k` heaviest of the rows `offered`, or all of them
/// where they are fewer: it holds rows that were offered, heaviest first,
/// and whatever was offered and is not held weighs no more than any row
/// that is.
pub open spec fn holds_heaviest(
    kept: Seq<(i64, Seq<Seq<u8>>)>,
    offered: Seq<(i64, Seq<Seq<u8>>)>,
    k: nat,
) -> bool {
    &&& weights_descend(kept)
    &&& kept.len() == if offered.len() <= k {
        offered.len()
    } else {
        k
    }
    &&& forall|i: int| 0 <= i < kept.len() ==> offered.contains(#[trigger] kept[i])
    &&& forall|i: int|
        0 <= i < offered.len() ==> kept.contains(#[trigger] offered[i]) || (kept.len() == k
            && forall|j: int| 0 <= j < kept.len() ==> (#[trigger] kept[j]).0 >= offered[i].0)
}

/// A sample that joins samples of descending weight at the place of its
/// weight leaves them in descending weight.
pub proof fn lemma_insert_descends(samples: Seq<(i64, Seq<Seq<u8>>)>, x: (i64, Seq<Seq<u8>>))
    requires
        weights_descend(samples),
    ensures
        is_place(samples, x.0, place(samples, x.0)),
        weights_descend(samples.insert(place(samples, x.0), x)),
{
    lemma_place_exists(samples, x.0);
    let p = place(samples, x.0);
    let grown = samples.insert(p, x);
    assert forall|i: int, j: int| 0 <= i <= j < grown.len() implies grown[i].0 >= grown[j].0 by {
        let oi = if i < p {
            i
        } else {
            i - 1
        };
        let oj = if j < p {
            j
        } else {
            j - 1
        };
        if i != p {
            assert(grown[i] == samples[oi]);
        }
        if j != p {
            assert(grown[j] == samples[oj]);
        }
    }
}

/// What joins a list is in it afterwards, with all that was in it, and
/// nothing else is.
pub proof fn lemma_insert_members(
    samples: Seq<(i64, Seq<Seq<u8>>)>,
    p: int,
    x: (i64, Seq<Seq<u8>>),
)
    requires
        0 <= p <= samples.len(),
    ensures
        samples.insert(p, x).contains(x),
        forall|i: int| 0 <= i < samples.len() ==> samples.insert(p, x).contains(#[trigger] samples[i]),
        forall|j: int|
            0 <= j < samples.len() + 1 ==> (#[trigger] samples.insert(p, x)[j]) == x
                || samples.contains(samples.insert(p, x)[j]),
{
    let grown = samples.insert(p, x);
    assert(grown[p] == x);
    assert forall|i: int| 0 <= i < samples.len() implies grown.contains(#[trigger] samples[i]) by {
        if i < p {
            assert(grown[i] == samples[i]);
        } else {
            assert(grown[i + 1] == samples[i]);
        }
    }
    assert forall|j: int| 0 <= j < samples.len() + 1 implies (#[trigger] grown[j]) == x
        || samples.contains(grown[j]) by {
        if j < p {
            assert(grown[j] == samples[j]);
        } else if j > p {
            assert(grown[j] == samples[j - 1]);
        }
    }
}

/// What is in a list is, with one more row offered, among the rows
/// offered.
proof fn lemma_offered_grows(
    offered: Seq<(i64, Seq<Seq<u8>>)>,
    x: (i64, Seq<Seq<u8>>),
    y: (i64, Seq<Seq<u8>>),
)
    requires
        y == x || offered.contains(y),
    ensures
        offered.push(x).contains(y),
{
    let next = offered.push(x);
    if offered.contains(y) {
        let o = choose|o: int| 0 <= o < offered.len() && offered[o] == y;
        assert(next[o] == y);
    } else {
        assert(next[offered.len() as int] == y);
    }
}

/// A row offered while there is room is kept with all that was kept.
proof fn lemma_offer_with_room(
    kept: Seq<(i64, Seq<Seq<u8>>)>,
    offered: Seq<(i64, Seq<Seq<u8>>)>,
    x: (i64, Seq<Seq<u8>>),
    k: nat,
)
    requires
        holds_heaviest(kept, offered, k),
        kept.len() < k,
    ensures
        holds_heaviest(kept.insert(place(kept, x.0), x), offered.push(x), k),
{
    let next = offered.push(x);
    lemma_insert_descends(kept, x);
    let p = place(kept, x.0);
    let after = kept.insert(p, x);
    lemma_insert_members(kept, p, x);
    assert forall|i: int| 0 <= i < after.len() implies next.contains(#[trigger] after[i]) by {
        lemma_offered_grows(offered, x, after[i]);
    }
    assert forall|i: int| 0 <= i < next.len() implies after.contains(#[trigger] next[i]) by {
        if i < offered.len() {
            assert(next[i] == offered[i]);
            assert(kept.contains(offered[i]));
            let q = choose|q: int| 0 <= q < kept.len() && kept[q] == offered[i];
            assert(after.contains(kept[q]));
        }
    }
}

/// A row offered to a full reservoir that is heavier than the least
/// weight takes the place of the lightest sample.
proof fn lemma_offer_replaces(
    kept: Seq<(i64, Seq<Seq<u8>>)>,
    offered: Seq<(i64, Seq<Seq<u8>>)>,
    x: (i64, Seq<Seq<u8>>),
    k: nat,
)
    requires
        holds_heaviest(kept, offered, k),
        k > 0,
        kept.len() == k,
        kept.last().0 < x.0,
    ensures
        holds_heaviest(offer(kept, x, k), offered.push(x), k),
{
    let next = offered.push(x);
    lemma_lightest(kept, kept.len());
    let m = lightest(kept, kept.len());
    let front = kept.remove(m);
    let gone = kept[m];
    assert(gone.0 <= kept[kept.len() - 1].0);
    assert forall|q: int| 0 <= q < kept.len() && q != m implies front.contains(#[trigger] kept[q]) by {
        if q < m {
            assert(front[q] == kept[q]);
        } else {
            assert(front[q - 1] == kept[q]);
        }
    }
    assert forall|q: int| 0 <= q < front.len() implies kept.contains(#[trigger] front[q])
        && front[q].0 >= gone.0 by {
        if q < m {
            assert(front[q] == kept[q]);
        } else {
            assert(front[q] == kept[q + 1]);
        }
    }
    assert(weights_descend(front)) by {
        assert forall|i: int, j: int| 0 <= i <= j < front.len() implies front[i].0
            >= front[j].0 by {
            let oi = if i < m {
                i
            } else {
                i + 1
            };
            let oj = if j < m {
                j
            } else {
                j + 1
            };
            assert(front[i] == kept[oi] && front[j] == kept[oj]);
        }
    }
    lemma_insert_descends(front, x);
    let p = place(front, x.0);
    let after = front.insert(p, x);
    lemma_insert_members(front, p, x);
    assert forall|j: int| 0 <= j < after.len() implies (#[trigger] after[j]).0 >= gone.0 by {
        if after[j] != x {
            let q = choose|q: int| 0 <= q < front.len() && front[q] == after[j];
            assert(front[q].0 >= gone.0);
        }
    }
    assert forall|i: int| 0 <= i < after.len() implies next.contains(#[trigger] after[i]) by {
        if after[i] != x {
            let q = choose|q: int| 0 <= q < front.len() && front[q] == after[i];
            assert(kept.contains(front[q]));
            let r = choose|r: int| 0 <= r < kept.len() && kept[r] == front[q];
            assert(offered.contains(kept[r]));
        }
        lemma_offered_grows(offered, x, after[i]);
    }
    assert forall|i: int| 0 <= i < next.len() implies after.contains(#[trigger] next[i]) || (
    after.len() == k && forall|j: int| 0 <= j < after.len() ==> (#[trigger] after[j]).0
        >= next[i].0) by {
        if i < offered.len() {
            assert(next[i] == offered[i]);
            if kept.contains(offered[i]) {
                let q = choose|q: int| 0 <= q < kept.len() && kept[q] == offered[i];
                if q != m {
                    assert(front.contains(kept[q]));
                    let r = choose|r: int| 0 <= r < front.len() && front[r] == kept[q];
                    assert(after.contains(front[r]));
                }
            } else {
                assert(kept[kept.len() - 1].0 >= offered[i].0);
                assert forall|j: int| 0 <= j < after.len() implies (#[trigger] after[j]).0
                    >= offered[i].0 by {
                    if after[j] != x {
                        let q = choose|q: int| 0 <= q < front.len() && front[q] == after[j];
                        assert(kept.contains(front[q]));
                        let r = choose|r: int| 0 <= r < kept.len() && kept[r] == front[q];
                        assert(kept[r].0 >= offered[i].0);
                    }
                }
            }
        }
    }
}

/// A row offered to a full reservoir that is no heavier than the lightest
/// sample is declined.
proof fn lemma_offer_declined(
    kept: Seq<(i64, Seq<Seq<u8>>)>,
    offered: Seq<(i64, Seq<Seq<u8>>)>,
    x: (i64, Seq<Seq<u8>>),
    k: nat,
)
    requires
        holds_heaviest(kept, offered, k),
        kept.len() == k,
        k == 0 || kept.last().0 >= x.0,
    ensures
        holds_heaviest(kept, offered.push(x), k),
{
    let next = offered.push(x);
    assert forall|i: int| 0 <= i < kept.len() implies next.contains(#[trigger] kept[i]) by {
        assert(offered.contains(kept[i]));
        lemma_offered_grows(offered, x, kept[i]);
    }
    assert forall|j: int| 0 <= j < kept.len() implies (#[trigger] kept[j]).0 >= x.0 by {
        assert(kept[j].0 >= kept[kept.len() - 1].0);
    }
    assert forall|i: int| 0 <= i < next.len() implies kept.contains(#[trigger] next[i]) || (
    kept.len() == k && forall|j: int| 0 <= j < kept.len() ==> (#[trigger] kept[j]).0
        >= next[i].0) by {
        if i < offered.len() {
            assert(next[i] == offered[i]);
        }
    }
}

/// One more row offered leaves the reservoir with the heaviest of the rows
/// offered so far.
pub proof fn lemma_offer_holds_heaviest(
    kept: Seq<(i64, Seq<Seq<u8>>)>,
    offered: Seq<(i64, Seq<Seq<u8>>)>,
    x: (i64, Seq<Seq<u8>>),
    k: nat,
)
    requires
        holds_heaviest(kept, offered, k),
    ensures
        holds_heaviest(offer(kept, x, k), offered.push(x), k),
{
    if k == 0 {
        lemma_offer_declined(kept, offered, x, k);
    } else if kept.len() < k {
        lemma_offer_with_room(kept, offered, x, k);
    } else if kept.last().0 < x.0 {
        lemma_offer_replaces(kept, offered, x, k);
    } else {
        lemma_offer_declined(kept, offered, x, k);
    }
}

/// What a priority sampler holds: the sampled rows with their weights,
/// heaviest first, and the weight drawn for the row that was last picked.
pub struct ReservoirSample {
    pub base: RowStatistics,
    pub samples: Seq<(i64, Seq<Seq<u8>>)>,
    pub max_sample_size: nat,
    pub cur_rng: i64,
}

impl ReservoirSample {
    /// The sample is within its bound and ordered by weight, the
    /// statistics are well formed, and the accounted memory is that of the
    /// sampled rows.
    pub open spec fn wf(self) -> bool {
        &&& self.base.wf()
        &&& self.samples.len() <= self.max_sample_size <= usize::MAX
        &&& weights_descend(self.samples)
        &&& self.base.memory_usage == rows_bytes(rows_of(self.samples))
    }

    /// The sampler after the decision on a row that drew `priority`, and
    /// the decision. A sampler of size zero declines every row. While
    /// there is room every row is picked. A full sampler picks the row if
    /// its priority exceeds the lowest weight sampled; the lightest sample
    /// then leaves, which among samples of the lowest weight is the one
    /// whose row sorts first, and its bytes leave the accounted memory. A
    /// picked row's priority is kept to become its weight.
    pub open spec fn pick_with(self, priority: i64) -> (ReservoirSample, bool) {
        if self.max_sample_size == 0 {
            (self, false)
        } else if self.samples.len() < self.max_sample_size {
            (ReservoirSample { cur_rng: priority, ..self }, true)
        } else if self.samples.last().0 < priority {
            (
                ReservoirSample {
                    base: RowStatistics {
                        memory_usage: (self.base.memory_usage - row_bytes(
                            self.samples[lightest(self.samples, self.samples.len())].1,
                        )) as usize,
                        ..self.base
                    },
                    samples: self.samples.remove(lightest(self.samples, self.samples.len())),
                    cur_rng: priority,
                    ..self
                },
                true,
            )
        } else {
            (self, false)
        }
    }

    /// The sampler after a picked row was stored: the row joins the sample
    /// at the place of its weight, its bytes join the accounted memory, and
    /// a report is made if due.
    pub open spec fn push(self, data: Seq<Seq<u8>>) -> (ReservoirSample, Option<TraceEvent>) {
        let charged = RowStatistics {
            memory_usage: (self.base.memory_usage + row_bytes(data)) as usize,
            ..self.base
        };
        (
            ReservoirSample {
                base: charged.report(false).0,
                samples: self.samples.insert(
                    place(self.samples, self.cur_rng),
                    (self.cur_rng, data),
                ),
                ..self
            },
            charged.report(false).1,
        )
    }

    /// The sampler after its record was taken: the sample and the sketches
    /// are gone, and no memory is accounted or reported.
    pub open spec fn finished(self) -> ReservoirSample {
        ReservoirSample {
            base: RowStatistics {
                memory_usage: 0,
                reported_memory_usage: 0,
                fm_sketches: Seq::empty(),
                ..self.base
            },
            samples: Seq::empty(),
            ..self
        }
    }

    /// The record of the sampler: the rows with their weights, heaviest
    /// first, and the shared statistics.
    pub open spec fn record(self) -> RowSampleCollectorRecord {
        RowSampleCollectorRecord {
            samples: Seq::new(
                self.samples.len(),
                |i: int| (self.samples[i].1, Some(self.samples[i].0)),
            ),
            null_counts: self.base.null_count,
            count: self.base.count,
            fm_sketch: Seq::new(
                self.base.fm_sketches.len(),
                |i: int| self.base.fm_sketches[i].hashes,
            ),
            total_size: self.base.total_sizes,
        }
    }
}

/// A decision, and the storing of the row if it is picked, leave the
/// samples that offering the row with its priority leaves.
pub proof fn lemma_pick_and_push_offer(s: ReservoirSample, priority: i64, data: Seq<Seq<u8>>)
    requires
        s.samples.len() <= s.max_sample_size,
    ensures
        ({
            let decided = s.pick_with(priority);
            let after = if decided.1 {
                decided.0.push(data).0
            } else {
                decided.0
            };
            &&& after.samples == offer(s.samples, (priority, data), s.max_sample_size)
            &&& after.max_sample_size == s.max_sample_size
        }),
{
}

/// A decision keeps the sampler well formed, and a picked row finds room.
pub proof fn lemma_pick_wf(s: ReservoirSample, priority: i64)
    requires
        s.wf(),
    ensures
        s.pick_with(priority).0.wf(),
        s.pick_with(priority).0.max_sample_size == s.max_sample_size,
        s.pick_with(priority).1 ==> s.pick_with(priority).0.samples.len() < s.max_sample_size,
        s.pick_with(priority).1 ==> s.pick_with(priority).0.cur_rng == priority,
        s.pick_with(priority).0.samples.len() == if s.pick_with(priority).1 && s.samples.len()
            >= s.max_sample_size {
            s.samples.len() - 1
        } else {
            s.samples.len() as int
        },
{
    if s.max_sample_size > 0 && s.samples.len() >= s.max_sample_size && s.samples.last().0
        < priority {
        lemma_lightest(s.samples, s.samples.len());
        let m = lightest(s.samples, s.samples.len());
        let rest = s.samples.remove(m);
        assert(rows_of(rest) =~= rows_of(s.samples).remove(m));
        assert(rows_of(s.samples)[m] == s.samples[m].1);
        lemma_rows_bytes_remove(rows_of(s.samples), m);
        assert(weights_descend(rest)) by {
            assert forall|i: int, j: int| 0 <= i <= j < rest.len() implies rest[i].0
                >= rest[j].0 by {
                let oi = if i < m {
                    i
                } else {
                    i + 1
                };
                let oj = if j < m {
                    j
                } else {
                    j + 1
                };
                assert(rest[i] == s.samples[oi] && rest[j] == s.samples[oj]);
            }
        }
    }
}

/// Storing a picked row keeps the sampler well formed.
pub proof fn lemma_push_wf(s: ReservoirSample, data: Seq<Seq<u8>>, p: int)
    requires
        s.wf(),
        s.samples.len() < s.max_sample_size,
        s.base.memory_usage + row_bytes(data) <= usize::MAX,
        is_place(s.samples, s.cur_rng, p),
    ensures
        s.push(data).0.wf(),
        s.push(data).0.samples == s.samples.insert(p, (s.cur_rng, data)),
        s.push(data).0.max_sample_size == s.max_sample_size,
{
    lemma_place_unique(s.samples, s.cur_rng, p);
    let grown = s.samples.insert(p, (s.cur_rng, data));
    assert(weights_descend(grown)) by {
        assert forall|i: int, j: int| 0 <= i <= j < grown.len() implies grown[i].0
            >= grown[j].0 by {
            let oi = if i < p {
                i
            } else {
                i - 1
            };
            let oj = if j < p {
                j
            } else {
                j - 1
            };
            if i != p {
                assert(grown[i] == s.samples[oi]);
            }
            if j != p {
                assert(grown[j] == s.samples[oj]);
            }
        }
    }
    lemma_rows_bytes_insert(rows_of(s.samples), p, data);
    assert(rows_of(grown) =~= rows_of(s.samples).insert(p, data));
}

/// A sampler of size zero declines every row, whatever it draws, and stays
/// as it is.
pub proof fn lemma_zero_size_declines(s: ReservoirSample, priority: i64)
    requires
        s.max_sample_size == 0,
    ensures
        s.pick_with(priority) == (s, false),
{
}

/// Row sampler that keeps the rows of highest random priority.
pub struct ReservoirRowSampleCollector {
    base: BaseRowSampleCollector,
    samples: Vec<(i64, Vec<Vec<u8>>)>,
    max_sample_size: usize,
    cur_rng: i64,
}

/// The views of a list of weighted rows.
pub open spec fn weighted_rows_view(samples: Seq<(i64, Vec<Vec<u8>>)>) -> Seq<
    (i64, Seq<Seq<u8>>),
> {
    Seq::new(samples.len(), |i: int| (samples[i].0, values_view(samples[i].1@)))
}

impl View for ReservoirRowSampleCollector {
    type V = ReservoirSample;

    closed spec fn view(&self) -> ReservoirSample {
        ReservoirSample {
            base: self.base@,
            samples: weighted_rows_view(self.samples@),
            max_sample_size: self.max_sample_size as nat,
            cur_rng: self.cur_rng,
        }
    }
}

impl Default for ReservoirRowSampleCollector {
    fn default() -> (collector: ReservoirRowSampleCollector)
        ensures
            collector@ == (ReservoirSample {
                base: RowStatistics::empty(0, 0),
                samples: Seq::empty(),
                max_sample_size: 0,
                cur_rng: 0,
            }),
            collector@.wf(),
    {
        ReservoirRowSampleCollector::new(0, 0, 0)
    }
}

impl ReservoirRowSampleCollector {
    /// A sampler of at most `max_sample_size` rows that has seen nothing.
    pub fn new(max_sample_size: usize, max_fm_sketch_size: usize, col_and_group_len: usize) -> (collector:
        ReservoirRowSampleCollector)
        ensures
            collector@ == (ReservoirSample {
                base: RowStatistics::empty(max_fm_sketch_size as nat, col_and_group_len as nat),
                samples: Seq::empty(),
                max_sample_size: max_sample_size as nat,
                cur_rng: 0,
            }),
            collector@.wf(),
    {
        let collector = ReservoirRowSampleCollector {
            base: BaseRowSampleCollector::new(max_fm_sketch_size, col_and_group_len),
            samples: Vec::new(),
            max_sample_size,
            cur_rng: 0,
        };
        assert(collector@.samples =~= Seq::empty());
        assert(rows_of(collector@.samples) =~= Seq::empty());
        collector
    }

    /// The shared statistics.
    pub fn base(&self) -> (base: &BaseRowSampleCollector)
        ensures
            base@ == self@.base,
    {
        &self.base
    }

    /// The sampled rows with their weights, heaviest first.
    pub fn samples(&self) -> (samples: &Vec<(i64, Vec<Vec<u8>>)>)
        ensures
            weighted_rows_view(samples@) == self@.samples,
    {
        &self.samples
    }

    /// The number of rows the sampler keeps at most.
    pub fn max_sample_size(&self) -> (n: usize)
        ensures
            n == self@.max_sample_size,
    {
        self.max_sample_size
    }


    /// Takes one row into the shared statistics, sampled or not.
    pub fn observe_row(
        &mut self,
        columns_val: &[Vec<u8>],
        collation_keys_val: &[Vec<u8>],
        columns_info: &[ColumnInfo],
        column_groups: &[AnalyzeColumnGroup],
    )
        requires
            old(self)@.wf(),
            columns_val@.len() == collation_keys_val@.len(),
            columns_val@.len() == columns_info@.len(),
            columns_val@.len() + column_groups@.len() <= old(self)@.base.len(),
            groups_in_range(group_offsets(column_groups@), columns_val@.len()),
        ensures
            final(self)@ == (ReservoirSample {
                base: old(self)@.base.observe_row(
                    values_view(columns_val@),
                    values_view(collation_keys_val@),
                    string_like_flags(columns_info@),
                    group_offsets(column_groups@),
                ),
                ..old(self)@
            }),
            final(self)@.wf(),
            final(self)@.base.len() == old(self)@.base.len(),
    {
        self.base.observe_row(columns_val, collation_keys_val, columns_info, column_groups);
    }

    /// Gives entry `to` of the shared statistics the sketch, null count and
    /// size of entry `from`.
    pub fn copy_column(&mut self, from: usize, to: usize)
        requires
            old(self)@.wf(),
            from < old(self)@.base.len(),
            to < old(self)@.base.len(),
        ensures
            final(self)@ == (ReservoirSample {
                base: old(self)@.base.copy_column(from as int, to as int),
                ..old(self)@
            }),
            final(self)@.wf(),
            final(self)@.base.len() == old(self)@.base.len(),
    {
        self.base.copy_column(from, to);
    }

    /// Decides on a row by the priority drawn for it.
    pub fn pick_with(&mut self, priority: i64) -> (pick: bool)
        requires
            old(self)@.wf(),
        ensures
            final(self)@ == old(self)@.pick_with(priority).0,
            pick == old(self)@.pick_with(priority).1,
            final(self)@.wf(),
    {
        proof {
            lemma_pick_wf(self@, priority);
        }
        if self.max_sample_size == 0 {
            return false;
        }
        let n = self.samples.len();
        if n < self.max_sample_size {
            self.cur_rng = priority;
            return true;
        }
        if self.samples[n - 1].0 < priority {
            self.cur_rng = priority;
            let m = self.find_lightest();
            let evicted = self.samples.remove(m);
            assert(values_view(evicted.1@) == old(self)@.samples[m as int].1);
            proof {
                assert(rows_of(old(self)@.samples)[m as int] == old(self)@.samples[m as int].1);
                lemma_rows_bytes_remove(rows_of(old(self)@.samples), m as int);
            }
            let size = checked_row_size(evicted.1.as_slice());
            let memory = self.base.memory_usage() - size.unwrap();
            self.base.set_memory_usage(memory);
            assert(self@.samples =~= old(self)@.samples.remove(m as int));
            return true;
        }
        false
    }

    fn find_lightest(&self) -> (m: usize)
        requires
            self.samples@.len() >= 1,
        ensures
            m == lightest(self@.samples, self@.samples.len()),
            m < self.samples@.len(),
    {
        let ghost view = self@.samples;
        let mut best: usize = 0;
        let mut i: usize = 1;
        while i < self.samples.len()
            invariant
                1 <= i <= self.samples@.len(),
                view == weighted_rows_view(self.samples@),
                best == lightest(view, i as nat),
                best < i,
            decreases self.samples@.len() - i,
        {
            let lighter = self.samples[i].0 < self.samples[best].0 || (self.samples[i].0
                == self.samples[best].0 && rows_less(&self.samples[i].1, &self.samples[best].1));
            if lighter {
                best = i;
            }
            i += 1;
        }
        best
    }

    /// Draws the priority of the next row: a number from zero up to, and
    /// not including, the largest that a weight can be.
    pub fn draw(&mut self) -> (priority: i64)
        ensures
            final(self)@ == old(self)@,
            0 <= priority < i64::MAX,
    {
        let draw = random_below(self.base.rng(), 0x7fff_ffff_ffff_ffff);
        draw as i64
    }

    /// Draws a priority for the next row and decides by it whether the row
    /// is sampled. A sampler of size zero declines without a draw.
    pub fn pick_sample(&mut self) -> (pick: bool)
        requires
            old(self)@.wf(),
        ensures
            exists|priority: i64|
                0 <= priority < i64::MAX && (#[trigger] old(self)@.pick_with(priority)) == (
                    final(self)@,
                    pick,
                ),
            final(self)@.wf(),
            old(self)@.max_sample_size == 0 ==> !pick && final(self)@ == old(self)@,
            pick ==> final(self)@.samples.len() < final(self)@.max_sample_size,
    {
        if self.max_sample_size == 0 {
            assert(old(self)@.pick_with(0) == (self@, false));
            return false;
        }
        let priority = self.draw();
        proof {
            lemma_pick_wf(self@, priority);
        }
        self.pick_with(priority)
    }

    /// Stores a row that was picked, under the weight drawn for it. A row
    /// whose bytes cannot be added to the accounted memory is refused and
    /// leaves the sampler as it was.
    pub fn push_sample(&mut self, data: &[Vec<u8>]) -> (done: Result<Option<TraceEvent>, Error>)
        requires
            old(self)@.wf(),
            old(self)@.samples.len() < old(self)@.max_sample_size,
        ensures
            done is Ok <==> old(self)@.base.memory_usage + row_bytes(values_view(data@))
                <= usize::MAX,
            done matches Ok(event) ==> final(self)@ == old(self)@.push(values_view(data@)).0
                && event == old(self)@.push(values_view(data@)).1,
            done matches Err(e) ==> e == Error::MemoryExhausted && final(self)@ == old(self)@,
            final(self)@.wf(),
            final(self)@.base.len() == old(self)@.base.len(),
    {
        let memory = match checked_row_size(data) {
            Some(size) => self.base.memory_usage().checked_add(size),
            None => None,
        };
        let memory = match memory {
            Some(memory) => memory,
            None => {
                return Err(Error::MemoryExhausted);
            },
        };
        let sample = clone_row(data);
        self.base.set_memory_usage(memory);
        let event = self.base.report_memory_usage(false);
        let weight = self.cur_rng;
        let mut p: usize = self.samples.len();
        while p > 0 && self.samples[p - 1].0 < weight
            invariant
                p <= self.samples@.len(),
                forall|i: int| p <= i < self.samples@.len() ==> (#[trigger] self.samples@[i]).0 < weight,
            decreases p,
        {
            p -= 1;
        }
        proof {
            let view = old(self)@.samples;
            assert(is_place(view, weight, p as int)) by {
                assert forall|i: int| 0 <= i < p implies (#[trigger] view[i]).0 >= weight by {
                    assert(view[i].0 >= view[p - 1].0);
                }
                assert forall|i: int| p <= i < view.len() implies (#[trigger] view[i]).0
                    < weight by {
                    assert(self.samples@[i].0 < weight);
                }
            }
            lemma_push_wf(old(self)@, values_view(data@), p as int);
        }
        self.samples.insert(p, (weight, sample));
        assert(self@.samples =~= old(self)@.samples.insert(
            p as int,
            (weight, values_view(data@)),
        ));
        Ok(event)
    }

    /// Reports the accounted memory, whether or not a report is due.
    pub fn report_memory_usage(&mut self) -> (event: Option<TraceEvent>)
        ensures
            final(self)@ == (ReservoirSample { base: old(self)@.base.report(true).0, ..old(self)@ }),
            event == old(self)@.base.report(true).1,
            old(self)@.wf() ==> final(self)@.wf(),
    {
        self.base.report_memory_usage(true)
    }


    /// Gives the sampler up without taking its record: the event gives
    /// back all the memory that was reported, so that nothing stays on the
    /// account.
    pub fn release(self) -> (event: TraceEvent)
        ensures
            event == TraceEvent::Sub(self@.base.reported_memory_usage),
    {
        TraceEvent::Sub(self.base.reported_memory_usage())
    }

    /// Takes the record of the sampler and releases what it accounted for:
    /// the event gives back all the memory that was reported.
    pub fn to_proto(&mut self) -> (out: (RowSampleCollectorProto, TraceEvent))
        ensures
            out.0@ == old(self)@.record(),
            out.1 == TraceEvent::Sub(old(self)@.base.reported_memory_usage),
            final(self)@ == old(self)@.finished(),
    {
        self.base.set_memory_usage(0);
        let reported = self.base.reported_memory_usage();
        let _ = self.base.report_memory_usage(true);
        let mut taken: Vec<(i64, Vec<Vec<u8>>)> = Vec::new();
        std::mem::swap(&mut taken, &mut self.samples);
        let mut samples: Vec<RowSampleProto> = Vec::new();
        let mut i: usize = 0;
        let ghost rows = weighted_rows_view(taken@);
        while i < taken.len()
            invariant
                i <= taken@.len(),
                taken@.len() == rows.len(),
                samples@.len() == i,
                forall|k: int|
                    0 <= k < i ==> (#[trigger] samples@[k])@ == (rows[k].1, Some(rows[k].0)),
                forall|k: int|
                    i <= k < taken@.len() ==> (#[trigger] taken@[k]).0 == rows[k].0 && values_view(
                        taken@[k].1@,
                    ) == rows[k].1,
            decreases taken@.len() - i,
        {
            let mut row: Vec<Vec<u8>> = Vec::new();
            let weight: i64 = taken[i].0;
            std::mem::swap(&mut row, &mut taken[i].1);
            samples.push(RowSampleProto { row, weight: Some(weight) });
            i += 1;
        }
        let mut s = RowSampleCollectorProto {
            samples,
            null_counts: Vec::new(),
            count: 0,
            fm_sketch: Vec::new(),
            total_size: Vec::new(),
        };
        self.base.fill_proto(&mut s);
        proof {
            assert(s@.samples =~= old(self)@.record().samples);
            assert(self@.samples =~= Seq::empty());
        }
        (s, TraceEvent::Sub(reported))
    }
}

} // verus!
