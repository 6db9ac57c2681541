//! Laws relating the comparison operators to one another, proved once and
//! for all over the specification-level masks that the dispatchers'
//! contracts pin down.

use vstd::prelude::*;
use crate::column::{Int64Chunked, Utf8Chunked};
use crate::ops::{CmpOp, compare_scalar_spec, compare_spec, compare_spec_utf8, str_lt};

verus! {

/// Comparing a numeric column for equality against itself yields an all-true
/// mask of the column's own length.
pub proof fn lemma_eq_reflexive(a: Seq<i64>)
    ensures
        compare_spec(CmpOp::Equal, a, a).len() == a.len(),
        forall|i: int| 0 <= i < a.len() ==> compare_spec(CmpOp::Equal, a, a)[i],
{
}

/// Comparing a text column for equality against itself yields an all-true
/// mask of the column's own length.
pub proof fn lemma_eq_reflexive_utf8(a: Seq<Seq<char>>)
    ensures
        compare_spec_utf8(CmpOp::Equal, a, a).len() == a.len(),
        forall|i: int| 0 <= i < a.len() ==> compare_spec_utf8(CmpOp::Equal, a, a)[i],
{
}

/// A column/column comparison is invariant to chunking: the contracts of the
/// dispatchers pin the mask down by the operands' flattened contents alone,
/// so operands that agree elementwise compare equal however they are chunked.
pub proof fn lemma_compare_chunking_invariant(
    op: CmpOp,
    a1: &Int64Chunked,
    a2: &Int64Chunked,
    b1: &Int64Chunked,
    b2: &Int64Chunked,
)
    requires
        a1.flat() == a2.flat(),
        b1.flat() == b2.flat(),
    ensures
        compare_spec(op, a1.flat(), b1.flat()) == compare_spec(op, a2.flat(), b2.flat()),
{
}

/// The text counterpart of [`lemma_compare_chunking_invariant`].
pub proof fn lemma_compare_chunking_invariant_utf8(
    op: CmpOp,
    a1: &Utf8Chunked,
    a2: &Utf8Chunked,
    b1: &Utf8Chunked,
    b2: &Utf8Chunked,
)
    requires
        a1.flat() == a2.flat(),
        b1.flat() == b2.flat(),
    ensures
        compare_spec_utf8(op, a1.flat(), b1.flat()) == compare_spec_utf8(
            op,
            a2.flat(),
            b2.flat(),
        ),
{
}

/// The inequality mask is the elementwise logical complement of the equality
/// mask, on numeric columns.
pub proof fn lemma_neq_complements_eq(a: Seq<i64>, b: Seq<i64>)
    ensures
        compare_spec(CmpOp::NotEqual, a, b).len() == compare_spec(CmpOp::Equal, a, b).len(),
        forall|i: int|
            0 <= i < a.len() ==> compare_spec(CmpOp::NotEqual, a, b)[i] == !compare_spec(
                CmpOp::Equal,
                a,
                b,
            )[i],
{
}

/// The inequality mask is the elementwise logical complement of the equality
/// mask, on text columns.
pub proof fn lemma_neq_complements_eq_utf8(a: Seq<Seq<char>>, b: Seq<Seq<char>>)
    ensures
        compare_spec_utf8(CmpOp::NotEqual, a, b).len() == compare_spec_utf8(
            CmpOp::Equal,
            a,
            b,
        ).len(),
        forall|i: int|
            0 <= i < a.len() ==> compare_spec_utf8(CmpOp::NotEqual, a, b)[i] == !compare_spec_utf8(
                CmpOp::Equal,
                a,
                b,
            )[i],
{
}

/// Lexicographic order on character sequences is a strict total order:
/// of `a` below `b`, `b` below `a`, and `a == b`, exactly one holds.
pub proof fn lemma_str_lt_trichotomy(a: Seq<char>, b: Seq<char>)
    ensures
        str_lt(a, b) || str_lt(b, a) || a == b,
        str_lt(a, b) ==> !str_lt(b, a) && a != b,
        a == b ==> !str_lt(a, b),
    decreases a.len(),
{
    if a.len() == 0 && b.len() == 0 {
        assert(a =~= b);
    } else if a.len() == 0 || b.len() == 0 {
    } else if a[0] != b[0] {
    } else {
        lemma_str_lt_trichotomy(a.drop_first(), b.drop_first());
        if a.drop_first() == b.drop_first() {
            assert forall|i: int| 0 <= i < a.len() implies a[i] == b[i] by {
                if i > 0 {
                    assert(a.drop_first()[i - 1] == b.drop_first()[i - 1]);
                }
            }
            assert(a =~= b);
        }
        if a == b {
            assert(a.drop_first() =~= b.drop_first());
        }
    }
}

/// Order duality on numeric columns: `gt(a, b)` and `lt(b, a)` agree
/// elementwise, `ge` is `gt` or `eq`, and `le` is `lt` or `eq`.
pub proof fn lemma_order_duality(a: Seq<i64>, b: Seq<i64>)
    requires
        a.len() == b.len(),
    ensures
        compare_spec(CmpOp::Greater, a, b) == compare_spec(CmpOp::Less, b, a),
        forall|i: int|
            0 <= i < a.len() ==> compare_spec(CmpOp::GreaterOrEqual, a, b)[i] == (compare_spec(
                CmpOp::Greater,
                a,
                b,
            )[i] || compare_spec(CmpOp::Equal, a, b)[i]),
        forall|i: int|
            0 <= i < a.len() ==> compare_spec(CmpOp::LessOrEqual, a, b)[i] == (compare_spec(
                CmpOp::Less,
                a,
                b,
            )[i] || compare_spec(CmpOp::Equal, a, b)[i]),
{
    assert(compare_spec(CmpOp::Greater, a, b) =~= compare_spec(CmpOp::Less, b, a));
}

/// Order duality on text columns: `gt(a, b)` and `lt(b, a)` agree
/// elementwise, `ge` is `gt` or `eq`, and `le` is `lt` or `eq`.
pub proof fn lemma_order_duality_utf8(a: Seq<Seq<char>>, b: Seq<Seq<char>>)
    requires
        a.len() == b.len(),
    ensures
        compare_spec_utf8(CmpOp::Greater, a, b) == compare_spec_utf8(CmpOp::Less, b, a),
        forall|i: int|
            0 <= i < a.len() ==> compare_spec_utf8(CmpOp::GreaterOrEqual, a, b)[i] == (
            compare_spec_utf8(CmpOp::Greater, a, b)[i] || compare_spec_utf8(CmpOp::Equal, a, b)[i]),
        forall|i: int|
            0 <= i < a.len() ==> compare_spec_utf8(CmpOp::LessOrEqual, a, b)[i] == (
            compare_spec_utf8(CmpOp::Less, a, b)[i] || compare_spec_utf8(CmpOp::Equal, a, b)[i]),
{
    assert(compare_spec_utf8(CmpOp::Greater, a, b) =~= compare_spec_utf8(CmpOp::Less, b, a));
    assert forall|i: int| 0 <= i < a.len() implies compare_spec_utf8(CmpOp::GreaterOrEqual, a, b)[i]
        == (compare_spec_utf8(CmpOp::Greater, a, b)[i] || compare_spec_utf8(
        CmpOp::Equal,
        a,
        b,
    )[i]) by {
        lemma_str_lt_trichotomy(a[i], b[i]);
    }
    assert forall|i: int| 0 <= i < a.len() implies compare_spec_utf8(CmpOp::LessOrEqual, a, b)[i]
        == (compare_spec_utf8(CmpOp::Less, a, b)[i] || compare_spec_utf8(CmpOp::Equal, a, b)[i]) by {
        lemma_str_lt_trichotomy(b[i], a[i]);
    }
}

/// The scalar path agrees with broadcasting: the mask of a column/scalar
/// comparison equals the mask of comparing the column against a column of
/// the scalar repeated to the column's length. When every element of the
/// column is representable in the scalar's type, both `compare_scalar` and
/// `compare` against the broadcast column succeed and, by their contracts
/// and this law, return that one mask.
pub proof fn lemma_scalar_matches_broadcast(op: CmpOp, a: Seq<i64>, k: i32)
    ensures
        compare_scalar_spec(op, a, k) == compare_spec(op, a, Seq::new(a.len(), |i: int| k as i64)),
{
    assert(compare_scalar_spec(op, a, k) =~= compare_spec(
        op,
        a,
        Seq::new(a.len(), |i: int| k as i64),
    ));
}

} // verus!
