//! Count-min sketch: a small matrix of counters that bounds from above how
//! often each value was seen, with a list of values whose counts are known
//! exactly.

use crate::hashing::hash128;
use crate::hashing::murmur3_x64_128;
use crate::proto::cm_sketch_record;
use crate::proto::CmSketchProto;
use vstd::prelude::*;

verus! {

/// The counter that a digest selects in row `row` of a matrix `width`
/// counters wide: the first word plus `row` times the second, in 64-bit
/// arithmetic that wraps, reduced by the width.
pub open spec fn slot(digest: (u64, u64), row: u64, width: u64) -> int {
    (digest.0.wrapping_add(digest.1.wrapping_mul(row)) as int) % (width as int)
}

/// A row of `width` counters at zero.
pub open spec fn zeros(width: nat) -> Seq<u32> {
    Seq::new(width, |c: int| 0u32)
}

/// The views of the rows of a matrix.
pub open spec fn matrix_view(rows: Seq<Vec<u32>>) -> Seq<Seq<u32>> {
    Seq::new(rows.len(), |r: int| rows[r]@)
}

/// The views of a list of values with their exact counts.
pub open spec fn top_n_view(items: Seq<(Vec<u8>, u64)>) -> Seq<(Seq<u8>, u64)> {
    Seq::new(items.len(), |i: int| (items[i].0@, items[i].1))
}

/// What a sketch holds: the matrix, the number of values counted in it, and
/// the heavy hitters with their exact counts.
pub struct CountMin {
    pub depth: nat,
    pub width: nat,
    pub count: u32,
    pub table: Seq<Seq<u32>>,
    pub top_n: Seq<(Seq<u8>, u64)>,
}

impl CountMin {
    /// The sketch of the given shape that has counted nothing.
    pub open spec fn empty(depth: nat, width: nat) -> CountMin {
        CountMin {
            depth,
            width,
            count: 0,
            table: Seq::new(depth, |r: int| zeros(width)),
            top_n: Seq::empty(),
        }
    }

    /// The matrix has `depth` rows of `width` counters, and neither is zero.
    pub open spec fn wf(self) -> bool {
        &&& 0 < self.depth <= usize::MAX
        &&& 0 < self.width <= usize::MAX
        &&& self.table.len() == self.depth
        &&& forall|r: int| 0 <= r < self.depth ==> (#[trigger] self.table[r]).len() == self.width
    }

    /// The counter of row `r` that `digest` selects.
    pub open spec fn cell(self, digest: (u64, u64), r: int) -> u32 {
        self.table[r][slot(digest, r as u64, self.width as u64)]
    }

    /// The sketch after counting a value once: in every row the selected
    /// counter goes up by one, and so does the total; each stops at its
    /// largest value.
    pub open spec fn add(self, digest: (u64, u64)) -> CountMin {
        CountMin {
            count: self.count.saturating_add(1),
            table: Seq::new(
                self.depth,
                |r: int|
                    self.table[r].update(
                        slot(digest, r as u64, self.width as u64),
                        self.cell(digest, r).saturating_add(1),
                    ),
            ),
            ..self
        }
    }

    /// The sketch after taking `cnt` occurrences of a value out: in every
    /// row the selected counter goes down by `cnt`, and so does the total;
    /// each stops at zero.
    pub open spec fn subtract(self, digest: (u64, u64), cnt: u32) -> CountMin {
        CountMin {
            count: self.count.saturating_sub(cnt),
            table: Seq::new(
                self.depth,
                |r: int|
                    self.table[r].update(
                        slot(digest, r as u64, self.width as u64),
                        self.cell(digest, r).saturating_sub(cnt),
                    ),
            ),
            ..self
        }
    }

    /// The sketch after counting a value `n` times.
    pub open spec fn add_times(self, digest: (u64, u64), n: nat) -> CountMin
        decreases n,
    {
        if n == 0 {
            self
        } else {
            self.add_times(digest, (n - 1) as nat).add(digest)
        }
    }

    /// The smallest of the counters that `digest` selects in the first `n`
    /// rows.
    pub open spec fn min_cell(self, digest: (u64, u64), n: nat) -> u32
        decreases n,
    {
        if n == 0 {
            u32::MAX
        } else {
            let rest = self.min_cell(digest, (n - 1) as nat);
            let here = self.cell(digest, n - 1);
            if here < rest {
                here
            } else {
                rest
            }
        }
    }

    /// The estimated count of a value: the smallest of its counters.
    pub open spec fn estimate(self, digest: (u64, u64)) -> u32 {
        self.min_cell(digest, self.depth)
    }

    /// The sketch after a value was recorded as a heavy hitter.
    pub open spec fn promote(self, value: Seq<u8>, cnt: u64) -> CountMin {
        CountMin { top_n: self.top_n.push((value, cnt)), ..self }
    }
}

/// Counting and subtracting keep the shape of the matrix.
pub proof fn lemma_shape_kept(v: CountMin, digest: (u64, u64), cnt: u32)
    requires
        v.wf(),
    ensures
        v.add(digest).wf(),
        v.subtract(digest, cnt).wf(),
{
}

/// Short of the counters' limit, counting a value `n` times raises its
/// counters and the total by `n` and leaves every other counter alone.
pub proof fn lemma_add_times(v: CountMin, digest: (u64, u64), n: nat)
    requires
        v.wf(),
        v.count + n <= u32::MAX,
        forall|r: int| 0 <= r < v.depth ==> v.cell(digest, r) + n <= u32::MAX,
    ensures
        v.add_times(digest, n).wf(),
        v.add_times(digest, n).depth == v.depth,
        v.add_times(digest, n).width == v.width,
        v.add_times(digest, n).top_n == v.top_n,
        v.add_times(digest, n).count == v.count + n,
        forall|r: int|
            0 <= r < v.depth ==> (#[trigger] v.add_times(digest, n).table[r]) == v.table[r].update(
                slot(digest, r as u64, v.width as u64),
                (v.cell(digest, r) + n) as u32,
            ),
    decreases n,
{
    if n == 0 {
        assert forall|r: int| 0 <= r < v.depth implies (#[trigger] v.table[r]) == v.table[r].update(
            slot(digest, r as u64, v.width as u64),
            v.cell(digest, r),
        ) by {
            assert(v.table[r].len() == v.width);
            assert(v.table[r] =~= v.table[r].update(
                slot(digest, r as u64, v.width as u64),
                v.cell(digest, r),
            ));
        }
    } else {
        lemma_add_times(v, digest, (n - 1) as nat);
        let before = v.add_times(digest, (n - 1) as nat);
        let after = before.add(digest);
        assert forall|r: int| 0 <= r < v.depth implies (#[trigger] after.table[r])
            == v.table[r].update(
            slot(digest, r as u64, v.width as u64),
            (v.cell(digest, r) + n) as u32,
        ) by {
            assert(v.table[r].len() == v.width);
            assert(before.table[r] == v.table[r].update(
                slot(digest, r as u64, v.width as u64),
                (v.cell(digest, r) + n - 1) as u32,
            ));
            assert(after.table[r] =~= v.table[r].update(
                slot(digest, r as u64, v.width as u64),
                (v.cell(digest, r) + n) as u32,
            ));
        }
    }
}

/// Taking a value out as often as it was counted leaves the matrix as if
/// the value had never been counted: what is recorded beside the matrix
/// as a heavy hitter is not counted in it a second time.
pub proof fn lemma_subtract_takes_back(v: CountMin, digest: (u64, u64), n: nat)
    requires
        v.wf(),
        v.count + n <= u32::MAX,
        forall|r: int| 0 <= r < v.depth ==> v.cell(digest, r) + n <= u32::MAX,
    ensures
        v.add_times(digest, n).subtract(digest, n as u32) == v,
{
    lemma_add_times(v, digest, n);
    let counted = v.add_times(digest, n);
    let back = counted.subtract(digest, n as u32);
    assert forall|r: int| 0 <= r < v.depth implies #[trigger] back.table[r] == v.table[r] by {
        assert(v.table[r].len() == v.width);
        assert(counted.table[r] == v.table[r].update(
            slot(digest, r as u64, v.width as u64),
            (v.cell(digest, r) + n) as u32,
        ));
        assert(back.table[r] =~= v.table[r]);
    }
    assert(back.table =~= v.table);
}

/// The estimate never exceeds any counter of the value, and is one of them.
pub proof fn lemma_estimate_is_minimum(v: CountMin, digest: (u64, u64), n: nat)
    requires
        v.wf(),
        0 < n <= v.depth,
    ensures
        forall|r: int| 0 <= r < n ==> v.min_cell(digest, n) <= v.cell(digest, r),
        exists|r: int| 0 <= r < n && v.min_cell(digest, n) == v.cell(digest, r),
    decreases n,
{
    if n > 1 {
        lemma_estimate_is_minimum(v, digest, (n - 1) as nat);
        let r0 = choose|r: int|
            0 <= r < n - 1 && v.min_cell(digest, (n - 1) as nat) == v.cell(digest, r);
        if v.cell(digest, n - 1) < v.min_cell(digest, (n - 1) as nat) {
            assert(v.min_cell(digest, n) == v.cell(digest, n - 1));
        } else {
            assert(v.min_cell(digest, n) == v.cell(digest, r0));
        }
    } else {
        assert(v.min_cell(digest, 0) == u32::MAX);
        assert(v.min_cell(digest, n) == v.cell(digest, 0));
    }
}

/// Counting a value raises its estimate by one, short of the counter's
/// limit, and lowers no estimate.
pub proof fn lemma_add_raises_estimate(v: CountMin, digest: (u64, u64), other: (u64, u64), n: nat)
    requires
        v.wf(),
        n <= v.depth,
    ensures
        n > 0 ==> v.add(digest).min_cell(digest, n) == v.min_cell(digest, n).saturating_add(1),
        v.add(digest).min_cell(other, n) >= v.min_cell(other, n),
    decreases n,
{
    if n > 0 {
        lemma_add_raises_estimate(v, digest, other, (n - 1) as nat);
        let w = v.add(digest);
        assert(w.cell(digest, n - 1) == v.cell(digest, n - 1).saturating_add(1));
        assert(w.cell(other, n - 1) >= v.cell(other, n - 1));
        if n == 1 {
            assert(v.min_cell(digest, 0) == u32::MAX);
            assert(w.min_cell(digest, 0) == u32::MAX);
        }
    }
}

/// Count-min sketch over byte strings.
pub struct CmSketch {
    depth: usize,
    width: usize,
    count: u32,
    table: Vec<Vec<u32>>,
    top_n: Vec<(Vec<u8>, u64)>,
}

impl View for CmSketch {
    type V = CountMin;

    closed spec fn view(&self) -> CountMin {
        CountMin {
            depth: self.depth as nat,
            width: self.width as nat,
            count: self.count,
            table: matrix_view(self.table@),
            top_n: top_n_view(self.top_n@),
        }
    }
}

fn zero_row(width: usize) -> (row: Vec<u32>)
    ensures
        row@ == zeros(width as nat),
{
    let mut row: Vec<u32> = Vec::new();
    let mut c: usize = 0;
    while c < width
        invariant
            c <= width,
            row@ == zeros(c as nat),
        decreases width - c,
    {
        row.push(0);
        c += 1;
        assert(row@ =~= zeros(c as nat));
    }
    row
}

fn bump(row: &mut Vec<u32>, j: usize)
    requires
        j < old(row).len(),
    ensures
        final(row)@ == old(row)@.update(j as int, old(row)@[j as int].saturating_add(1)),
{
    let v: u32 = row[j];
    row[j] = v.saturating_add(1);
}

fn lower(row: &mut Vec<u32>, j: usize, cnt: u32)
    requires
        j < old(row).len(),
    ensures
        final(row)@ == old(row)@.update(j as int, old(row)@[j as int].saturating_sub(cnt)),
{
    let v: u32 = row[j];
    row[j] = v.saturating_sub(cnt);
}

impl CmSketch {
    /// A sketch of `d` rows of `w` counters, all zero; none where either is
    /// zero.
    pub fn new(d: usize, w: usize) -> (sketch: Option<CmSketch>)
        ensures
            (d == 0 || w == 0) <==> sketch is None,
            sketch matches Some(s) ==> s@ == CountMin::empty(d as nat, w as nat) && s@.wf(),
    {
        if d == 0 || w == 0 {
            return None;
        }
        let mut table: Vec<Vec<u32>> = Vec::new();
        let mut r: usize = 0;
        while r < d
            invariant
                r <= d,
                table@.len() == r,
                forall|i: int| 0 <= i < r ==> (#[trigger] table@[i])@ == zeros(w as nat),
            decreases d - r,
        {
            let row = zero_row(w);
            table.push(row);
            r += 1;
        }
        let sketch = CmSketch { depth: d, width: w, count: 0, table, top_n: Vec::new() };
        assert(sketch@.top_n =~= Seq::empty());
        assert(sketch@.table =~= CountMin::empty(d as nat, w as nat).table);
        Some(sketch)
    }

    /// The heavy hitters with their exact counts, in the order they were
    /// recorded.
    pub fn top_n(&self) -> (items: &Vec<(Vec<u8>, u64)>)
        ensures
            top_n_view(items@) == self@.top_n,
    {
        &self.top_n
    }

    /// The counters of the matrix, row by row.
    pub fn table(&self) -> (rows: &Vec<Vec<u32>>)
        ensures
            matrix_view(rows@) == self@.table,
    {
        &self.table
    }

    /// The number of rows of the matrix.
    pub fn depth(&self) -> (d: usize)
        ensures
            d == self@.depth,
    {
        self.depth
    }

    /// The number of counters in a row of the matrix.
    pub fn width(&self) -> (w: usize)
        ensures
            w == self@.width,
    {
        self.width
    }

    /// The number of values counted in the matrix.
    pub fn count(&self) -> (n: u32)
        ensures
            n == self@.count,
    {
        self.count
    }

    fn slot_of(&self, h1: u64, h2: u64, r: usize) -> (j: usize)
        requires
            self@.wf(),
            r < self@.depth,
        ensures
            j == slot((h1, h2), r as u64, self@.width as u64),
            j < self@.width,
    {
        let j: u64 = h1.wrapping_add(h2.wrapping_mul(r as u64)) % (self.width as u64);
        j as usize
    }

    /// Counts one occurrence of the value with the given digest.
    pub fn insert_hash(&mut self, h1: u64, h2: u64)
        requires
            old(self)@.wf(),
        ensures
            final(self)@ == old(self)@.add((h1, h2)),
            final(self)@.wf(),
    {
        self.count = self.count.saturating_add(1);
        let mut r: usize = 0;
        while r < self.depth
            invariant
                r <= self.depth,
                self.depth == old(self).depth,
                self.width == old(self).width,
                self.top_n == old(self).top_n,
                self.count == old(self).count.saturating_add(1),
                old(self)@.wf(),
                self.table@.len() == self.depth,
                forall|i: int|
                    0 <= i < r ==> (#[trigger] self.table@[i])@ == old(self)@.add((h1, h2)).table[i],
                forall|i: int|
                    r <= i < self.depth ==> (#[trigger] self.table@[i])@ == old(self)@.table[i],
            decreases self.depth - r,
        {
            assert(self.table@[r as int]@ == old(self)@.table[r as int]);
            let j = self.slot_of(h1, h2, r);
            bump(&mut self.table[r], j);
            r += 1;
        }
        assert(self@.table =~= old(self)@.add((h1, h2)).table);
    }

    /// Takes `cnt` occurrences of the value with the given digest out of the
    /// matrix.
    pub fn subtract_hash(&mut self, h1: u64, h2: u64, cnt: u32)
        requires
            old(self)@.wf(),
        ensures
            final(self)@ == old(self)@.subtract((h1, h2), cnt),
            final(self)@.wf(),
    {
        self.count = self.count.saturating_sub(cnt);
        let mut r: usize = 0;
        while r < self.depth
            invariant
                r <= self.depth,
                self.depth == old(self).depth,
                self.width == old(self).width,
                self.top_n == old(self).top_n,
                self.count == old(self).count.saturating_sub(cnt),
                old(self)@.wf(),
                self.table@.len() == self.depth,
                forall|i: int|
                    0 <= i < r ==> (#[trigger] self.table@[i])@ == old(self)@.subtract(
                        (h1, h2),
                        cnt,
                    ).table[i],
                forall|i: int|
                    r <= i < self.depth ==> (#[trigger] self.table@[i])@ == old(self)@.table[i],
            decreases self.depth - r,
        {
            assert(self.table@[r as int]@ == old(self)@.table[r as int]);
            let j = self.slot_of(h1, h2, r);
            lower(&mut self.table[r], j, cnt);
            r += 1;
        }
        assert(self@.table =~= old(self)@.subtract((h1, h2), cnt).table);
    }

    /// The estimated count of the value with the given digest.
    pub fn estimate_hash(&self, h1: u64, h2: u64) -> (n: u32)
        requires
            self@.wf(),
        ensures
            n == self@.estimate((h1, h2)),
    {
        let mut n: u32 = u32::MAX;
        let mut r: usize = 0;
        while r < self.depth
            invariant
                r <= self.depth,
                self@.wf(),
                n == self@.min_cell((h1, h2), r as nat),
            decreases self.depth - r,
        {
            let j = self.slot_of(h1, h2, r);
            assert(self.table@[r as int]@ == self@.table[r as int]);
            let here: u32 = self.table[r][j];
            if here < n {
                n = here;
            }
            r += 1;
        }
        n
    }

    /// Counts one occurrence of `bytes`.
    pub fn insert(&mut self, bytes: &Vec<u8>)
        requires
            old(self)@.wf(),
        ensures
            final(self)@ == old(self)@.add(murmur3_x64_128(bytes@, 0)),
            final(self)@.wf(),
    {
        let digest = hash128(bytes, 0);
        self.insert_hash(digest.0, digest.1);
    }

    /// Takes `cnt` occurrences of `bytes` out of the matrix.
    pub fn subtract(&mut self, bytes: &Vec<u8>, cnt: u32)
        requires
            old(self)@.wf(),
        ensures
            final(self)@ == old(self)@.subtract(murmur3_x64_128(bytes@, 0), cnt),
            final(self)@.wf(),
    {
        let digest = hash128(bytes, 0);
        self.subtract_hash(digest.0, digest.1, cnt);
    }

    /// The estimated count of `bytes`: the smallest of its counters.
    pub fn estimate(&self, bytes: &Vec<u8>) -> (n: u32)
        requires
            self@.wf(),
        ensures
            n == self@.estimate(murmur3_x64_128(bytes@, 0)),
    {
        let digest = hash128(bytes, 0);
        self.estimate_hash(digest.0, digest.1)
    }

    /// The record of the sketch: the matrix and the heavy hitters.
    pub fn into_proto(self) -> (proto: CmSketchProto)
        ensures
            proto@ == cm_sketch_record(self@),
    {
        CmSketchProto { rows: self.table, top_n: self.top_n }
    }

    /// Records `bytes` as a heavy hitter seen exactly `cnt` times.
    pub fn promote_heavy_hitter(&mut self, bytes: Vec<u8>, cnt: u64)
        ensures
            final(self)@ == old(self)@.promote(bytes@, cnt),
            old(self)@.wf() ==> final(self)@.wf(),
    {
        self.top_n.push((bytes, cnt));
        assert(self@.top_n =~= old(self)@.top_n.push((bytes@, cnt)));
    }
}

} // verus!
