//! Encoded column values: the flag byte that opens every value, and the
//! byte-wise order on encodings.

use vstd::prelude::*;

verus! {

/// Flag byte of an encoded null.
pub const NIL_FLAG: u8 = 0;

/// Flag byte of a fixed-width signed integer.
pub const INT_FLAG: u8 = 3;

/// Flag byte of a fixed-width unsigned integer.
pub const UINT_FLAG: u8 = 4;

/// Flag byte of a fixed-width duration.
pub const DURATION_FLAG: u8 = 7;

/// An encoded value is null when its flag byte is the null flag.
pub open spec fn is_null_value(value: Seq<u8>) -> bool {
    value.len() > 0 && value[0] == NIL_FLAG
}

/// The three fixed-width encodings that have a canonical variable-length
/// form: signed integers, unsigned integers and durations.
pub open spec fn has_canonical_form(value: Seq<u8>) -> bool {
    value.len() > 0 && (value[0] == INT_FLAG || value[0] == UINT_FLAG || value[0]
        == DURATION_FLAG)
}

/// The payload size of an encoded value: its length without the flag byte.
pub open spec fn payload_len(value: Seq<u8>) -> nat {
    if value.len() > 0 {
        (value.len() - 1) as nat
    } else {
        0
    }
}

/// A running size after the payload of one more value, stopping at the
/// largest size that can be held.
pub open spec fn add_payload(total: u64, data: Seq<u8>) -> u64 {
    if total + payload_len(data) > u64::MAX {
        u64::MAX
    } else {
        (total + payload_len(data)) as u64
    }
}

/// The views of a list of encoded values.
pub open spec fn values_view(values: Seq<Vec<u8>>) -> Seq<Seq<u8>> {
    Seq::new(values.len(), |i: int| values[i]@)
}

/// `a` and `b` hold the same bytes at every index below `k`.
pub open spec fn agree_below(a: Seq<u8>, b: Seq<u8>, k: int) -> bool {
    forall|i: int| 0 <= i < k ==> a[i] == b[i]
}

/// Lexicographic order on byte strings: `a` sorts before `b` when `a` is a
/// proper prefix of `b`, or holds the smaller byte where they first differ.
pub open spec fn bytes_lt(a: Seq<u8>, b: Seq<u8>) -> bool {
    exists|k: int|
        0 <= k <= a.len() && k <= b.len() && #[trigger] agree_below(a, b, k) && (if k
            == a.len() {
            k < b.len()
        } else {
            k < b.len() && a[k] < b[k]
        })
}

/// Tests the flag byte of an encoded value for the null flag.
pub fn is_null(value: &Vec<u8>) -> (r: bool)
    ensures
        r == is_null_value(value@),
{
    value.len() > 0 && value[0] == NIL_FLAG
}

/// The payload size of an encoded value.
pub fn payload_size(value: &Vec<u8>) -> (n: usize)
    ensures
        n == payload_len(value@),
{
    if value.len() > 0 {
        value.len() - 1
    } else {
        0
    }
}

/// Says whether a value must be re-encoded into its canonical
/// variable-length form before it is counted.
pub fn needs_canonical_form(value: &Vec<u8>) -> (r: bool)
    ensures
        r == has_canonical_form(value@),
{
    value.len() > 0 && (value[0] == INT_FLAG || value[0] == UINT_FLAG || value[0]
        == DURATION_FLAG)
}

/// Byte-wise equality of two encodings.
pub fn bytes_eq(a: &Vec<u8>, b: &Vec<u8>) -> (r: bool)
    ensures
        r == (a@ == b@),
{
    if a.len() != b.len() {
        return false;
    }
    let mut i: usize = 0;
    while i < a.len()
        invariant
            a.len() == b.len(),
            i <= a.len(),
            agree_below(a@, b@, i as int),
        decreases a.len() - i,
    {
        if a[i] != b[i] {
            return false;
        }
        i += 1;
    }
    assert(a@ =~= b@);
    true
}

/// Decides the lexicographic order on two encodings.
pub fn bytes_less(a: &Vec<u8>, b: &Vec<u8>) -> (r: bool)
    ensures
        r == bytes_lt(a@, b@),
{
    let mut i: usize = 0;
    while i < a.len() && i < b.len()
        invariant
            i <= a.len(),
            i <= b.len(),
            agree_below(a@, b@, i as int),
        decreases a.len() - i,
    {
        if a[i] != b[i] {
            let r = a[i] < b[i];
            proof {
                lemma_first_difference(a@, b@, i as int);
            }
            return r;
        }
        i += 1;
    }
    proof {
        lemma_common_prefix(a@, b@, i as int);
    }
    i < b.len()
}

/// Where two strings agree below `k` and differ at `k`, the byte at `k`
/// decides their order.
pub proof fn lemma_first_difference(a: Seq<u8>, b: Seq<u8>, k: int)
    requires
        0 <= k < a.len(),
        k < b.len(),
        agree_below(a, b, k),
        a[k] != b[k],
    ensures
        bytes_lt(a, b) == (a[k] < b[k]),
        bytes_lt(b, a) == (b[k] < a[k]),
{
    assert(agree_below(b, a, k));
    assert forall|j: int| j > k implies !agree_below(a, b, j) && !agree_below(b, a, j) by {}
}

/// Where one string is a prefix of the other, the shorter sorts first.
pub proof fn lemma_common_prefix(a: Seq<u8>, b: Seq<u8>, k: int)
    requires
        0 <= k <= a.len(),
        k <= b.len(),
        k == a.len() || k == b.len(),
        agree_below(a, b, k),
    ensures
        bytes_lt(a, b) == (k < b.len()),
        bytes_lt(b, a) == (k < a.len()),
{
    assert(agree_below(b, a, k));
}

/// The order is strict: nothing sorts before itself, and no two strings
/// sort before each other.
pub proof fn lemma_bytes_lt_asymmetric(a: Seq<u8>, b: Seq<u8>)
    ensures
        !(bytes_lt(a, b) && bytes_lt(b, a)),
        bytes_lt(a, b) ==> a != b,
{
    if bytes_lt(a, b) {
        let k = choose|k: int|
            0 <= k <= a.len() && k <= b.len() && #[trigger] agree_below(a, b, k) && (if k
                == a.len() {
                k < b.len()
            } else {
                k < b.len() && a[k] < b[k]
            });
        if k == a.len() {
            lemma_common_prefix(a, b, k);
        } else {
            lemma_first_difference(a, b, k);
        }
    }
}

/// The order is transitive.
pub proof fn lemma_bytes_lt_transitive(a: Seq<u8>, b: Seq<u8>, c: Seq<u8>)
    requires
        bytes_lt(a, b),
        bytes_lt(b, c),
    ensures
        bytes_lt(a, c),
{
    let k1 = choose|k: int|
        0 <= k <= a.len() && k <= b.len() && #[trigger] agree_below(a, b, k) && (if k
            == a.len() {
            k < b.len()
        } else {
            k < b.len() && a[k] < b[k]
        });
    let k2 = choose|k: int|
        0 <= k <= b.len() && k <= c.len() && #[trigger] agree_below(b, c, k) && (if k
            == b.len() {
            k < c.len()
        } else {
            k < c.len() && b[k] < c[k]
        });
    let k = if k1 <= k2 {
        k1
    } else {
        k2
    };
    assert(agree_below(a, c, k));
    if k == a.len() {
        lemma_common_prefix(a, c, k);
    } else {
        lemma_first_difference(a, c, k);
    }
}

/// Two different strings are ordered one way or the other.
pub proof fn lemma_bytes_lt_total(a: Seq<u8>, b: Seq<u8>)
    ensures
        a == b || bytes_lt(a, b) || bytes_lt(b, a),
    decreases a.len(),
{
    lemma_order_from(a, b, 0);
}

proof fn lemma_order_from(a: Seq<u8>, b: Seq<u8>, k: int)
    requires
        0 <= k <= a.len(),
        k <= b.len(),
        agree_below(a, b, k),
    ensures
        a == b || bytes_lt(a, b) || bytes_lt(b, a),
    decreases a.len() - k,
{
    if k == a.len() || k == b.len() {
        lemma_common_prefix(a, b, k);
        if k == a.len() && k == b.len() {
            assert(a =~= b);
        }
    } else if a[k] != b[k] {
        lemma_first_difference(a, b, k);
    } else {
        lemma_order_from(a, b, k + 1);
    }
}

/// How often `v` occurs among `values`.
pub open spec fn occurrences(values: Seq<Seq<u8>>, v: Seq<u8>) -> nat
    decreases values.len(),
{
    if values.len() == 0 {
        0
    } else {
        occurrences(values.drop_last(), v) + if values.last() == v {
            1nat
        } else {
            0nat
        }
    }
}

/// Equal values stand together: between two occurrences of a value there
/// is nothing but that value. An ascending stream is of this kind.
pub open spec fn contiguous(values: Seq<Seq<u8>>) -> bool {
    forall|i: int, j: int, k: int|
        0 <= i < j < k < values.len() && #[trigger] values[i] == #[trigger] values[k]
            ==> #[trigger] values[j] == values[i]
}

/// The values never go down: each is equal to or sorts before the ones
/// that follow it.
pub open spec fn values_ascend(values: Seq<Seq<u8>>) -> bool {
    forall|i: int, j: int|
        0 <= i < j < values.len() ==> values[i] == values[j] || bytes_lt(values[i], values[j])
}

/// A value occurs no more often than there are values, and occurs
/// somewhere if it occurs at all.
pub proof fn lemma_occurrences(values: Seq<Seq<u8>>, v: Seq<u8>)
    ensures
        occurrences(values, v) <= values.len(),
        occurrences(values, v) > 0 <==> exists|i: int| 0 <= i < values.len() && values[i] == v,
    decreases values.len(),
{
    if values.len() > 0 {
        lemma_occurrences(values.drop_last(), v);
        if occurrences(values.drop_last(), v) > 0 {
            let i = choose|i: int| 0 <= i < values.len() - 1 && values.drop_last()[i] == v;
            assert(values[i] == v);
        }
        if exists|i: int| 0 <= i < values.len() && values[i] == v {
            let i = choose|i: int| 0 <= i < values.len() && values[i] == v;
            if i < values.len() - 1 {
                assert(values.drop_last()[i] == v);
            }
        }
    }
}

/// Part of a contiguous stream is contiguous.
pub proof fn lemma_contiguous_prefix(values: Seq<Seq<u8>>)
    requires
        contiguous(values),
        values.len() > 0,
    ensures
        contiguous(values.drop_last()),
{
    let front = values.drop_last();
    assert forall|i: int, j: int, k: int|
        0 <= i < j < k < front.len() && #[trigger] front[i] == #[trigger] front[k] implies #[trigger] front[j]
        == front[i] by {
        assert(values[i] == values[k]);
        assert(values[j] == values[i]);
    }
}

/// In an ascending stream equal values stand together.
pub proof fn lemma_ascending_is_contiguous(values: Seq<Seq<u8>>)
    requires
        values_ascend(values),
    ensures
        contiguous(values),
{
    assert forall|i: int, j: int, k: int|
        0 <= i < j < k < values.len() && #[trigger] values[i] == #[trigger] values[k] implies #[trigger] values[j]
        == values[i] by {
        lemma_bytes_lt_asymmetric(values[i], values[j]);
        assert(values[j] == values[k] || bytes_lt(values[j], values[k]));
    }
}

/// Part of an ascending stream is ascending.
pub proof fn lemma_ascending_prefix(values: Seq<Seq<u8>>)
    requires
        values_ascend(values),
        values.len() > 0,
    ensures
        values_ascend(values.drop_last()),
{
    let front = values.drop_last();
    assert forall|i: int, j: int| 0 <= i < j < front.len() implies front[i] == front[j]
        || bytes_lt(front[i], front[j]) by {
        assert(values[i] == values[j] || bytes_lt(values[i], values[j]));
    }
}

/// Two rows hold the same encodings at every column below `k`.
pub open spec fn rows_agree_below(a: Seq<Seq<u8>>, b: Seq<Seq<u8>>, k: int) -> bool {
    forall|i: int| 0 <= i < k ==> a[i] == b[i]
}

/// Lexicographic order on rows: `a` sorts before `b` when `a` is a proper
/// prefix of `b`, or holds the encoding that sorts first in the column
/// where they first differ.
pub open spec fn rows_lt(a: Seq<Seq<u8>>, b: Seq<Seq<u8>>) -> bool {
    exists|k: int|
        0 <= k <= a.len() && k <= b.len() && #[trigger] rows_agree_below(a, b, k) && (if k
            == a.len() {
            k < b.len()
        } else {
            k < b.len() && bytes_lt(a[k], b[k])
        })
}

/// Where two rows agree below column `k` and differ there, that column
/// decides their order.
pub proof fn lemma_rows_first_difference(a: Seq<Seq<u8>>, b: Seq<Seq<u8>>, k: int)
    requires
        0 <= k < a.len(),
        k < b.len(),
        rows_agree_below(a, b, k),
        a[k] != b[k],
    ensures
        rows_lt(a, b) == bytes_lt(a[k], b[k]),
        rows_lt(b, a) == bytes_lt(b[k], a[k]),
{
    assert(rows_agree_below(b, a, k));
    assert forall|j: int| j > k implies !rows_agree_below(a, b, j) && !rows_agree_below(b, a, j) by {}
    assert forall|j: int| 0 <= j < k implies !bytes_lt(a[j], b[j]) && !bytes_lt(b[j], a[j]) by {
        lemma_bytes_lt_asymmetric(a[j], b[j]);
        lemma_bytes_lt_asymmetric(b[j], a[j]);
    }
}

/// Where one row is a prefix of the other, the shorter sorts first.
pub proof fn lemma_rows_common_prefix(a: Seq<Seq<u8>>, b: Seq<Seq<u8>>, k: int)
    requires
        0 <= k <= a.len(),
        k <= b.len(),
        k == a.len() || k == b.len(),
        rows_agree_below(a, b, k),
    ensures
        rows_lt(a, b) == (k < b.len()),
        rows_lt(b, a) == (k < a.len()),
{
    assert(rows_agree_below(b, a, k));
    assert forall|j: int| 0 <= j < k implies !bytes_lt(a[j], b[j]) && !bytes_lt(b[j], a[j]) by {
        lemma_bytes_lt_asymmetric(a[j], b[j]);
        lemma_bytes_lt_asymmetric(b[j], a[j]);
    }
}

/// The order on rows is strict: no row sorts before itself, and no two
/// rows sort before each other.
pub proof fn lemma_rows_lt_asymmetric(a: Seq<Seq<u8>>, b: Seq<Seq<u8>>)
    ensures
        !(rows_lt(a, b) && rows_lt(b, a)),
        rows_lt(a, b) ==> a != b,
{
    if rows_lt(a, b) {
        let k = choose|k: int|
            0 <= k <= a.len() && k <= b.len() && #[trigger] rows_agree_below(a, b, k) && (if k
                == a.len() {
                k < b.len()
            } else {
                k < b.len() && bytes_lt(a[k], b[k])
            });
        if k == a.len() {
            lemma_rows_common_prefix(a, b, k);
        } else {
            lemma_bytes_lt_asymmetric(a[k], b[k]);
            lemma_rows_first_difference(a, b, k);
        }
    }
}

/// The order on rows is transitive.
pub proof fn lemma_rows_lt_transitive(a: Seq<Seq<u8>>, b: Seq<Seq<u8>>, c: Seq<Seq<u8>>)
    requires
        rows_lt(a, b),
        rows_lt(b, c),
    ensures
        rows_lt(a, c),
{
    let k1 = choose|k: int|
        0 <= k <= a.len() && k <= b.len() && #[trigger] rows_agree_below(a, b, k) && (if k
            == a.len() {
            k < b.len()
        } else {
            k < b.len() && bytes_lt(a[k], b[k])
        });
    let k2 = choose|k: int|
        0 <= k <= b.len() && k <= c.len() && #[trigger] rows_agree_below(b, c, k) && (if k
            == b.len() {
            k < c.len()
        } else {
            k < c.len() && bytes_lt(b[k], c[k])
        });
    let k = if k1 <= k2 {
        k1
    } else {
        k2
    };
    assert(rows_agree_below(a, c, k));
    if k == a.len() {
        lemma_rows_common_prefix(a, c, k);
    } else {
        if k1 < k2 {
            assert(b[k] == c[k]);
        } else if k2 < k1 {
            assert(a[k] == b[k]);
        } else {
            lemma_bytes_lt_transitive(a[k], b[k], c[k]);
        }
        lemma_bytes_lt_asymmetric(a[k], c[k]);
        lemma_rows_first_difference(a, c, k);
    }
}

/// Decides the lexicographic order on two rows.
pub fn rows_less(a: &Vec<Vec<u8>>, b: &Vec<Vec<u8>>) -> (r: bool)
    ensures
        r == rows_lt(values_view(a@), values_view(b@)),
{
    let mut i: usize = 0;
    while i < a.len() && i < b.len()
        invariant
            i <= a.len(),
            i <= b.len(),
            rows_agree_below(values_view(a@), values_view(b@), i as int),
        decreases a.len() - i,
    {
        if !bytes_eq(&a[i], &b[i]) {
            let r = bytes_less(&a[i], &b[i]);
            proof {
                lemma_rows_first_difference(values_view(a@), values_view(b@), i as int);
            }
            return r;
        }
        i += 1;
    }
    proof {
        lemma_rows_common_prefix(values_view(a@), values_view(b@), i as int);
    }
    i < b.len()
}

} // verus!
