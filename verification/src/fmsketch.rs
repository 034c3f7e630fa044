//! Distinct-value sketch: keeps the smallest hashes seen, up to a fixed
//! number, from which a planner estimates how many distinct values there
//! were.

use crate::hashing::hash128;
use crate::hashing::hash64;
use crate::proto::FmSketchProto;
use vstd::prelude::*;

verus! {

/// Every element is smaller than the ones after it.
pub open spec fn strictly_ascending(s: Seq<u64>) -> bool {
    forall|i: int, j: int| 0 <= i < j < s.len() ==> s[i] < s[j]
}

/// `p` splits `s` into the elements below `h` and the elements not below.
pub open spec fn is_rank(s: Seq<u64>, h: u64, p: int) -> bool {
    &&& 0 <= p <= s.len()
    &&& forall|i: int| 0 <= i < p ==> s[i] < h
    &&& forall|i: int| p <= i < s.len() ==> s[i] >= h
}

/// The number of elements of an ascending `s` that are below `h`.
pub open spec fn rank(s: Seq<u64>, h: u64) -> int {
    choose|p: int| is_rank(s, h, p)
}

/// `kept` holds exactly the `k` smallest members of `seen`, or all of them
/// where there are fewer.
pub open spec fn holds_smallest(kept: Seq<u64>, seen: Set<u64>, k: nat) -> bool {
    &&& strictly_ascending(kept)
    &&& kept.len() <= k
    &&& forall|i: int| 0 <= i < kept.len() ==> seen.contains(#[trigger] kept[i])
    &&& forall|x: u64| #[trigger]
        seen.contains(x) ==> kept.contains(x) || (kept.len() == k && forall|i: int|
            0 <= i < kept.len() ==> kept[i] < x)
}

/// What a sketch holds: its capacity and the retained hashes in ascending
/// order.
pub struct DistinctValues {
    pub capacity: nat,
    pub hashes: Seq<u64>,
}

impl DistinctValues {
    /// The sketch that has seen nothing.
    pub open spec fn empty(capacity: nat) -> DistinctValues {
        DistinctValues { capacity, hashes: Seq::empty() }
    }

    /// The retained hashes ascend and do not outnumber the capacity.
    pub open spec fn wf(self) -> bool {
        strictly_ascending(self.hashes) && self.hashes.len() <= self.capacity
    }

    /// The sketch after seeing `h`: unchanged where `h` is retained already
    /// or is not among the `capacity` smallest; otherwise `h` enters at its
    /// rank and the largest hash leaves if the sketch was full.
    pub open spec fn insert(self, h: u64) -> DistinctValues {
        let p = rank(self.hashes, h);
        if self.hashes.contains(h) || p >= self.capacity {
            self
        } else {
            let grown = self.hashes.insert(p, h);
            DistinctValues {
                capacity: self.capacity,
                hashes: if grown.len() > self.capacity {
                    grown.subrange(0, self.capacity as int)
                } else {
                    grown
                },
            }
        }
    }

    /// The sketch after seeing each hash of `hs` in turn.
    pub open spec fn insert_all(self, hs: Seq<u64>) -> DistinctValues
        decreases hs.len(),
    {
        if hs.len() == 0 {
            self
        } else {
            self.insert_all(hs.drop_last()).insert(hs.last())
        }
    }
}

/// An ascending sequence has exactly one rank for each hash.
pub proof fn lemma_rank_unique(s: Seq<u64>, h: u64, p: int)
    requires
        is_rank(s, h, p),
    ensures
        rank(s, h) == p,
{
    let q = rank(s, h);
    assert(is_rank(s, h, q));
    if q < p {
        assert(s[q] < h);
    }
    if p < q {
        assert(s[p] < h);
    }
}

/// Every ascending sequence has a rank for every hash.
pub proof fn lemma_rank_exists(s: Seq<u64>, h: u64)
    requires
        strictly_ascending(s),
    ensures
        is_rank(s, h, rank(s, h)),
    decreases s.len(),
{
    if s.len() == 0 {
        assert(is_rank(s, h, 0));
    } else {
        let t = s.drop_last();
        lemma_rank_exists(t, h);
        let p = rank(t, h);
        if s.last() < h {
            assert(is_rank(s, h, s.len() as int)) by {
                assert forall|i: int| 0 <= i < s.len() implies s[i] < h by {
                    if i < s.len() - 1 {
                        assert(s[i] < s[s.len() - 1]);
                    }
                }
            }
        } else {
            assert(is_rank(s, h, p)) by {
                assert forall|i: int| 0 <= i < p implies s[i] < h by {
                    assert(t[i] < h);
                }
                assert forall|i: int| p <= i < s.len() implies s[i] >= h by {
                    if i < s.len() - 1 {
                        assert(t[i] >= h);
                    }
                }
            }
        }
    }
}

/// A hash is retained exactly when it stands at its own rank.
pub proof fn lemma_contains_at_rank(s: Seq<u64>, h: u64, p: int)
    requires
        strictly_ascending(s),
        is_rank(s, h, p),
    ensures
        s.contains(h) <==> (p < s.len() && s[p] == h),
{
    if s.contains(h) {
        let i = choose|i: int| 0 <= i < s.len() && s[i] == h;
        if i < p {
            assert(s[i] < h);
        }
        if i > p {
            assert(s[p] < s[i]);
        }
    }
}

/// Seeing one more hash keeps the sketch well formed and keeps it equal to
/// the smallest members of what it has seen.
pub proof fn lemma_insert_holds_smallest(v: DistinctValues, seen: Set<u64>, h: u64)
    requires
        holds_smallest(v.hashes, seen, v.capacity),
    ensures
        v.insert(h).capacity == v.capacity,
        holds_smallest(v.insert(h).hashes, seen.insert(h), v.capacity),
{
    let s = v.hashes;
    let k = v.capacity;
    lemma_rank_exists(s, h);
    let p = rank(s, h);
    lemma_contains_at_rank(s, h, p);
    let r = v.insert(h).hashes;
    if s.contains(h) || p >= k {
        assert forall|x: u64| #[trigger] seen.insert(h).contains(x) implies r.contains(x) || (
        r.len() == k && forall|i: int| 0 <= i < r.len() ==> r[i] < x) by {
            if x != h {
                assert(seen.contains(x));
            }
        }
    } else {
        let grown = s.insert(p, h);
        assert(strictly_ascending(grown)) by {
            assert forall|i: int, j: int| 0 <= i < j < grown.len() implies grown[i]
                < grown[j] by {
                if j < p {
                    assert(grown[i] == s[i] && grown[j] == s[j]);
                } else if j == p {
                    assert(grown[i] == s[i]);
                } else if i < p {
                    assert(grown[i] == s[i] && grown[j] == s[j - 1]);
                    assert(s[i] < h && s[j - 1] >= h);
                } else if i == p {
                    assert(grown[j] == s[j - 1]);
                    assert(s[p] >= h && s[p] != h);
                    if j - 1 > p {
                        assert(s[p] < s[j - 1]);
                    }
                } else {
                    assert(grown[i] == s[i - 1] && grown[j] == s[j - 1]);
                }
            }
        }
        assert(grown[p] == h);
        assert forall|i: int| 0 <= i < grown.len() implies seen.insert(h).contains(
            #[trigger] grown[i],
        ) by {
            if i < p {
                assert(grown[i] == s[i]);
            } else if i > p {
                assert(grown[i] == s[i - 1]);
            }
        }
        assert forall|x: u64| s.contains(x) implies grown.contains(x) by {
            let i = choose|i: int| 0 <= i < s.len() && s[i] == x;
            if i < p {
                assert(grown[i] == x);
            } else {
                assert(grown[i + 1] == x);
            }
        }
        if grown.len() > k {
            assert(r == grown.subrange(0, k as int));
            assert(r[p] == h);
            assert forall|x: u64| #[trigger] seen.insert(h).contains(x) implies r.contains(x)
                || (r.len() == k && forall|i: int| 0 <= i < r.len() ==> r[i] < x) by {
                if x == h {
                    assert(r[p] == x);
                } else if s.contains(x) {
                    let i = choose|i: int| 0 <= i < grown.len() && grown[i] == x;
                    if i < k {
                        assert(r[i] == x);
                    } else {
                        assert forall|j: int| 0 <= j < r.len() implies r[j] < x by {
                            assert(grown[j] < grown[i]);
                        }
                    }
                } else {
                    assert(seen.contains(x));
                    assert forall|j: int| 0 <= j < r.len() implies r[j] < x by {
                        if j < p {
                            assert(r[j] == s[j]);
                        } else if j == p {
                            assert(s[p] < x);
                            assert(h <= s[p]);
                        } else {
                            assert(r[j] == s[j - 1]);
                        }
                    }
                }
            }
        } else {
            assert(r == grown);
            assert forall|x: u64| #[trigger] seen.insert(h).contains(x) implies r.contains(x)
                || (r.len() == k && forall|i: int| 0 <= i < r.len() ==> r[i] < x) by {
                if x == h {
                    assert(r[p] == x);
                } else {
                    assert(seen.contains(x));
                }
            }
        }
    }
}

/// Seeing a hash keeps a well-formed sketch well formed.
pub proof fn lemma_insert_wf(v: DistinctValues, h: u64)
    requires
        v.wf(),
    ensures
        v.insert(h).wf(),
        v.insert(h).capacity == v.capacity,
{
    let seen = v.hashes.to_set();
    assert(holds_smallest(v.hashes, seen, v.capacity)) by {
        assert forall|x: u64| #[trigger] seen.contains(x) implies v.hashes.contains(x) by {}
    }
    lemma_insert_holds_smallest(v, seen, h);
}

/// However many hashes a sketch sees, and however often each repeats, it
/// stays within its capacity, and what it retains are the smallest of the
/// hashes it started with and those it saw.
pub proof fn lemma_insert_all_holds_smallest(v: DistinctValues, seen: Set<u64>, hs: Seq<u64>)
    requires
        holds_smallest(v.hashes, seen, v.capacity),
    ensures
        v.insert_all(hs).capacity == v.capacity,
        v.insert_all(hs).wf(),
        holds_smallest(v.insert_all(hs).hashes, seen.union(hs.to_set()), v.capacity),
    decreases hs.len(),
{
    if hs.len() == 0 {
        assert(seen.union(hs.to_set()) =~= seen);
    } else {
        let front = hs.drop_last();
        lemma_insert_all_holds_smallest(v, seen, front);
        lemma_insert_holds_smallest(
            v.insert_all(front),
            seen.union(front.to_set()),
            hs.last(),
        );
        assert(seen.union(front.to_set()).insert(hs.last()) =~= seen.union(hs.to_set())) by {
            assert forall|x: u64| hs.to_set().contains(x) <==> (front.to_set().contains(x) || x
                == hs.last()) by {
                if hs.to_set().contains(x) {
                    let i = choose|i: int| 0 <= i < hs.len() && hs[i] == x;
                    if i < hs.len() - 1 {
                        assert(front[i] == x);
                    }
                }
                if front.to_set().contains(x) {
                    let i = choose|i: int| 0 <= i < front.len() && front[i] == x;
                    assert(hs[i] == x);
                }
                if x == hs.last() {
                    assert(hs[hs.len() - 1] == x);
                }
            }
        }
    }
}

/// A fresh sketch that sees the stream `hs` retains the `capacity` smallest
/// distinct hashes of the stream.
pub proof fn lemma_sketch_of_stream(capacity: nat, hs: Seq<u64>)
    ensures
        DistinctValues::empty(capacity).insert_all(hs).hashes.len() <= capacity,
        holds_smallest(
            DistinctValues::empty(capacity).insert_all(hs).hashes,
            hs.to_set(),
            capacity,
        ),
{
    let e = DistinctValues::empty(capacity);
    assert(holds_smallest(e.hashes, Set::<u64>::empty(), capacity));
    lemma_insert_all_holds_smallest(e, Set::<u64>::empty(), hs);
    assert(Set::<u64>::empty().union(hs.to_set()) =~= hs.to_set());
}

/// A sketch that sees one hash over and over retains at most that one.
pub proof fn lemma_duplicates_retain_one(capacity: nat, hs: Seq<u64>, h: u64)
    requires
        forall|i: int| 0 <= i < hs.len() ==> hs[i] == h,
    ensures
        DistinctValues::empty(capacity).insert_all(hs).hashes.len() <= 1,
{
    lemma_sketch_of_stream(capacity, hs);
    let kept = DistinctValues::empty(capacity).insert_all(hs).hashes;
    if kept.len() >= 2 {
        assert(hs.to_set().contains(kept[0]));
        assert(hs.to_set().contains(kept[1]));
        assert(kept[0] < kept[1]);
    }
}

/// Distinct-value sketch of bounded size over 64-bit hashes.
pub struct FmSketch {
    max_size: usize,
    hashes: Vec<u64>,
}

impl View for FmSketch {
    type V = DistinctValues;

    closed spec fn view(&self) -> DistinctValues {
        DistinctValues { capacity: self.max_size as nat, hashes: self.hashes@ }
    }
}

impl Clone for FmSketch {
    fn clone(&self) -> (copy: Self)
        ensures
            copy@ == self@,
    {
        let hashes = self.hashes.clone();
        assert(hashes@ =~= self.hashes@);
        FmSketch { max_size: self.max_size, hashes }
    }
}

impl FmSketch {
    /// An empty sketch that retains at most `max_size` hashes.
    pub fn new(max_size: usize) -> (sketch: FmSketch)
        ensures
            sketch@ == DistinctValues::empty(max_size as nat),
            sketch@.wf(),
    {
        FmSketch { max_size, hashes: Vec::new() }
    }

    /// The number of hashes the sketch may retain.
    pub fn max_size(&self) -> (k: usize)
        ensures
            k == self@.capacity,
    {
        self.max_size
    }

    /// The number of hashes retained now.
    pub fn len(&self) -> (n: usize)
        ensures
            n == self@.hashes.len(),
    {
        self.hashes.len()
    }

    /// The retained hashes, smallest first.
    pub fn hash_values(&self) -> (hashes: &Vec<u64>)
        ensures
            hashes@ == self@.hashes,
    {
        &self.hashes
    }

    fn lower_bound(&self, hash_val: u64) -> (p: usize)
        requires
            self@.wf(),
        ensures
            p == rank(self@.hashes, hash_val),
            is_rank(self@.hashes, hash_val, p as int),
    {
        let mut lo: usize = 0;
        let mut hi: usize = self.hashes.len();
        while lo < hi
            invariant
                lo <= hi <= self.hashes.len(),
                strictly_ascending(self.hashes@),
                forall|i: int| 0 <= i < lo ==> self.hashes@[i] < hash_val,
                forall|i: int| hi <= i < self.hashes.len() ==> self.hashes@[i] >= hash_val,
            decreases hi - lo,
        {
            let mid: usize = lo + (hi - lo) / 2;
            if self.hashes[mid] < hash_val {
                proof {
                    assert forall|i: int| 0 <= i < mid + 1 implies self.hashes@[i] < hash_val by {
                        if i < mid {
                            assert(self.hashes@[i] < self.hashes@[mid as int]);
                        }
                    }
                }
                lo = mid + 1;
            } else {
                proof {
                    assert forall|i: int| mid <= i < self.hashes.len() implies self.hashes@[i]
                        >= hash_val by {
                        if i > mid {
                            assert(self.hashes@[mid as int] < self.hashes@[i]);
                        }
                    }
                }
                hi = mid;
            }
        }
        proof {
            lemma_rank_unique(self.hashes@, hash_val, lo as int);
        }
        lo
    }

    /// Records one hash.
    pub fn insert_hash_value(&mut self, hash_val: u64)
        requires
            old(self)@.wf(),
        ensures
            final(self)@ == old(self)@.insert(hash_val),
            final(self)@.wf(),
    {
        let p = self.lower_bound(hash_val);
        proof {
            lemma_contains_at_rank(self.hashes@, hash_val, p as int);
            lemma_insert_wf(self@, hash_val);
        }
        if p < self.hashes.len() && self.hashes[p] == hash_val {
            return ;
        }
        if p >= self.max_size {
            return ;
        }
        let ghost before = self.hashes@;
        if self.hashes.len() == self.max_size {
            self.hashes.pop();
        }
        self.hashes.insert(p, hash_val);
        proof {
            let grown = before.insert(p as int, hash_val);
            if before.len() == self.max_size {
                assert(self.hashes@ =~= grown.subrange(0, self.max_size as int));
            } else {
                assert(self.hashes@ =~= grown);
            }
        }
    }

    /// Records one value by the first word of its digest.
    pub fn insert(&mut self, bytes: &Vec<u8>)
        requires
            old(self)@.wf(),
        ensures
            final(self)@ == old(self)@.insert(hash64(bytes@)),
            final(self)@.wf(),
    {
        let digest = hash128(bytes, 0);
        self.insert_hash_value(digest.0);
    }

    /// The record of the sketch: the retained hashes, smallest first.
    pub fn into_proto(self) -> (proto: FmSketchProto)
        ensures
            proto@ == self@.hashes,
    {
        FmSketchProto { hashset: self.hashes }
    }

    /// Records every hash that `other` retains, so that the sketch comes to
    /// hold the smallest hashes of both.
    pub fn merge(&mut self, other: &FmSketch)
        requires
            old(self)@.wf(),
        ensures
            final(self)@ == old(self)@.insert_all(other@.hashes),
            final(self)@.wf(),
    {
        let mut i: usize = 0;
        while i < other.hashes.len()
            invariant
                i <= other.hashes.len(),
                self@.wf(),
                self@ == old(self)@.insert_all(other.hashes@.subrange(0, i as int)),
            decreases other.hashes.len() - i,
        {
            proof {
                assert(other.hashes@.subrange(0, i + 1).drop_last() =~= other.hashes@.subrange(
                    0,
                    i as int,
                ));
            }
            self.insert_hash_value(other.hashes[i]);
            i += 1;
        }
        proof {
            assert(other.hashes@.subrange(0, i as int) =~= other.hashes@);
        }
    }
}

} // verus!
