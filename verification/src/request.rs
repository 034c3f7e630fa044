//! The requests that the builders are made from, as plain values.

use crate::encoding::is_null;
use crate::encoding::is_null_value;
use vstd::prelude::*;

verus! {

/// The kind of statistics a request asks for.
#[derive(Clone, Copy, Debug, PartialEq, Eq, Structural)]
pub enum AnalyzeType {
    TypeIndex,
    TypeColumn,
    TypeCommonHandle,
    TypeSampleIndex,
    TypeMixed,
    TypeFullSampling,
}

/// What the builders read of a column's declaration.
#[derive(Clone, Copy, Debug)]
pub struct ColumnInfo {
    pub column_id: i64,
    /// The column is the table's integer primary key.
    pub pk_handle: bool,
    /// The column's type is compared under a collation.
    pub string_like: bool,
}

/// A group of columns whose combined values are counted as one.
pub struct AnalyzeColumnGroup {
    /// The positions of the member columns in the row.
    pub column_offsets: Vec<usize>,
}

/// The share of rows to sample: `numerator` out of every `denominator`.
#[derive(Clone, Copy, Debug)]
pub struct SampleRate {
    pub numerator: u64,
    pub denominator: u64,
}

/// A request for the statistics of an index.
pub struct AnalyzeIndexReq {
    pub bucket_size: usize,
    pub num_columns: usize,
    pub cmsketch_depth: usize,
    pub cmsketch_width: usize,
    pub sketch_size: usize,
    pub top_n_size: usize,
    pub version: Option<i32>,
}

/// A request for the statistics of the columns of a table.
pub struct AnalyzeColumnsReq {
    pub bucket_size: usize,
    pub sample_size: usize,
    pub sketch_size: usize,
    pub columns_info: Vec<ColumnInfo>,
    pub cmsketch_depth: usize,
    pub cmsketch_width: usize,
    pub primary_column_ids: Vec<i64>,
    pub column_groups: Vec<AnalyzeColumnGroup>,
    pub sample_rate: SampleRate,
    pub primary_prefix_column_ids: Vec<i64>,
}

/// A range of keys to scan.
pub struct KeyRange {
    pub start: Vec<u8>,
    pub end: Vec<u8>,
}

/// A request to analyze, of any kind.
pub struct AnalyzeReq {
    pub tp: AnalyzeType,
    pub flags: u64,
    pub idx_req: Option<AnalyzeIndexReq>,
    pub col_req: Option<AnalyzeColumnsReq>,
}

/// For each column, whether it is compared under a collation.
pub open spec fn string_like_flags(columns_info: Seq<ColumnInfo>) -> Seq<bool> {
    Seq::new(columns_info.len(), |i: int| columns_info[i].string_like)
}

/// The member positions of each group.
pub open spec fn group_offsets(column_groups: Seq<AnalyzeColumnGroup>) -> Seq<Seq<usize>> {
    Seq::new(column_groups.len(), |i: int| column_groups[i].column_offsets@)
}

/// Every member of every group is one of the first `col_len` columns.
pub open spec fn groups_in_range(groups: Seq<Seq<usize>>, col_len: nat) -> bool {
    forall|g: int, m: int|
        0 <= g < groups.len() && 0 <= m < groups[g].len() ==> (#[trigger] groups[g][m]) < col_len
}

/// Every member of the group is one of the first `col_len` columns.
pub open spec fn group_ok(offsets: Seq<usize>, col_len: nat) -> bool {
    forall|m: int| 0 <= m < offsets.len() ==> (#[trigger] offsets[m]) < col_len
}

/// The first group that has a member beyond the columns, or the number of
/// groups if there is none.
pub open spec fn first_bad_group(groups: Seq<Seq<usize>>, col_len: nat) -> int
    decreases groups.len(),
{
    if groups.len() == 0 {
        0
    } else {
        let before = first_bad_group(groups.drop_last(), col_len);
        if before < groups.len() - 1 {
            before
        } else if !group_ok(groups.last(), col_len) {
            groups.len() - 1
        } else {
            groups.len() as int
        }
    }
}

/// The first bad group is bad, and the groups before it are not.
pub proof fn lemma_first_bad_group(groups: Seq<Seq<usize>>, col_len: nat)
    ensures
        0 <= first_bad_group(groups, col_len) <= groups.len(),
        first_bad_group(groups, col_len) < groups.len() ==> !group_ok(
            groups[first_bad_group(groups, col_len)],
            col_len,
        ),
        forall|g: int|
            0 <= g < first_bad_group(groups, col_len) ==> group_ok(#[trigger] groups[g], col_len),
    decreases groups.len(),
{
    if groups.len() > 0 {
        let front = groups.drop_last();
        lemma_first_bad_group(front, col_len);
        assert forall|g: int| 0 <= g < first_bad_group(groups, col_len) implies group_ok(
            #[trigger] groups[g],
            col_len,
        ) by {
            if g < front.len() {
                assert(groups[g] == front[g]);
            }
        }
        if first_bad_group(front, col_len) < front.len() {
            assert(groups[first_bad_group(front, col_len)] == front[first_bad_group(
                front,
                col_len,
            )]);
        }
    }
}

/// Where no group is bad, all groups are in range.
pub proof fn lemma_no_bad_group(groups: Seq<Seq<usize>>, col_len: nat)
    requires
        first_bad_group(groups, col_len) == groups.len(),
    ensures
        groups_in_range(groups, col_len),
    decreases groups.len(),
{
    if groups.len() > 0 {
        lemma_no_bad_group(groups.drop_last(), col_len);
        assert forall|g: int, m: int|
            0 <= g < groups.len() && 0 <= m < groups[g].len() implies (#[trigger] groups[g][m])
            < col_len by {
            if g < groups.len() - 1 {
                assert(groups.drop_last()[g][m] < col_len);
            }
        }
    }
}

/// The first bad group of a list is the first bad group of any part of it
/// that reaches so far.
pub proof fn lemma_first_bad_extends(groups: Seq<Seq<usize>>, k: int, col_len: nat)
    requires
        0 <= k <= groups.len(),
        first_bad_group(groups.subrange(0, k), col_len) < k,
    ensures
        first_bad_group(groups, col_len) == first_bad_group(groups.subrange(0, k), col_len),
    decreases groups.len() - k,
{
    if k < groups.len() {
        assert(groups.subrange(0, k + 1).drop_last() =~= groups.subrange(0, k));
        lemma_first_bad_extends(groups, k + 1, col_len);
    } else {
        assert(groups.subrange(0, k) =~= groups);
    }
}

fn check_group(offsets: &Vec<usize>, col_len: usize) -> (ok: bool)
    ensures
        ok == group_ok(offsets@, col_len as nat),
{
    let mut m: usize = 0;
    while m < offsets.len()
        invariant
            m <= offsets@.len(),
            forall|k: int| 0 <= k < m ==> (#[trigger] offsets@[k]) < col_len,
        decreases offsets@.len() - m,
    {
        if offsets[m] >= col_len {
            return false;
        }
        m += 1;
    }
    true
}

/// Looks for a group that names a column beyond the first `col_len`, and
/// says which is the first, if there is one.
pub fn find_group_out_of_range(column_groups: &[AnalyzeColumnGroup], col_len: usize) -> (bad:
    Option<usize>)
    ensures
        match bad {
            Some(g) => g < column_groups@.len() && g == first_bad_group(
                group_offsets(column_groups@),
                col_len as nat,
            ),
            None => first_bad_group(group_offsets(column_groups@), col_len as nat)
                == column_groups@.len() && groups_in_range(
                group_offsets(column_groups@),
                col_len as nat,
            ),
        },
{
    let ghost groups = group_offsets(column_groups@);
    let mut g: usize = 0;
    while g < column_groups.len()
        invariant
            g <= column_groups@.len(),
            groups == group_offsets(column_groups@),
            first_bad_group(groups.subrange(0, g as int), col_len as nat) == g,
        decreases column_groups@.len() - g,
    {
        proof {
            assert(groups.subrange(0, g + 1).drop_last() =~= groups.subrange(0, g as int));
            assert(groups.subrange(0, g + 1).last() == column_groups@[g as int].column_offsets@);
        }
        if !check_group(&column_groups[g].column_offsets, col_len) {
            proof {
                lemma_first_bad_extends(groups, g + 1, col_len as nat);
            }
            return Some(g);
        }
        g += 1;
    }
    proof {
        assert(groups.subrange(0, g as int) =~= groups);
        lemma_no_bad_group(groups, col_len as nat);
    }
    None
}

impl ColumnInfo {
    /// Whether the column is the table's integer primary key.
    pub fn get_pk_handle(&self) -> (r: bool)
        ensures
            r == self.pk_handle,
    {
        self.pk_handle
    }

    /// Whether the column's type is compared under a collation.
    pub fn is_string_like(&self) -> (r: bool)
        ensures
            r == self.string_like,
    {
        self.string_like
    }

    /// Whether a value of the column is counted by its sort key: the
    /// column is compared under a collation and the value is not null.
    pub fn needs_sort_key(&self, value: &Vec<u8>) -> (r: bool)
        ensures
            r == (self.string_like && !is_null_value(value@)),
    {
        self.string_like && !is_null(value)
    }
}

impl AnalyzeIndexReq {
    /// The request in which nothing is set.
    pub fn new() -> (req: AnalyzeIndexReq)
        ensures
            req.bucket_size == 0,
            req.num_columns == 0,
            req.cmsketch_depth == 0,
            req.cmsketch_width == 0,
            req.sketch_size == 0,
            req.top_n_size == 0,
            req.version is None,
    {
        AnalyzeIndexReq {
            bucket_size: 0,
            num_columns: 0,
            cmsketch_depth: 0,
            cmsketch_width: 0,
            sketch_size: 0,
            top_n_size: 0,
            version: None,
        }
    }
}

impl AnalyzeColumnsReq {
    /// The request in which nothing is set.
    pub fn new() -> (req: AnalyzeColumnsReq)
        ensures
            req.bucket_size == 0,
            req.sample_size == 0,
            req.sketch_size == 0,
            req.columns_info@.len() == 0,
            req.cmsketch_depth == 0,
            req.cmsketch_width == 0,
            req.primary_column_ids@.len() == 0,
            req.column_groups@.len() == 0,
            req.sample_rate.numerator == 0,
            req.sample_rate.denominator == 1,
            req.primary_prefix_column_ids@.len() == 0,
    {
        AnalyzeColumnsReq {
            bucket_size: 0,
            sample_size: 0,
            sketch_size: 0,
            columns_info: Vec::new(),
            cmsketch_depth: 0,
            cmsketch_width: 0,
            primary_column_ids: Vec::new(),
            column_groups: Vec::new(),
            sample_rate: SampleRate { numerator: 0, denominator: 1 },
            primary_prefix_column_ids: Vec::new(),
        }
    }
}

} // verus!
