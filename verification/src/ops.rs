//! Relational predicates, the error taxonomy, and the mathematical meaning of
//! a comparison on flattened (chunk-free) element sequences.

use vstd::prelude::*;

verus! {

/// The six relational predicates a comparison can evaluate.
#[derive(Clone, Copy, PartialEq, Eq, Structural, Debug)]
pub enum CmpOp {
    Equal,
    NotEqual,
    Greater,
    GreaterOrEqual,
    Less,
    LessOrEqual,
}

/// Why a comparison was refused. No partial output accompanies an error.
#[derive(Clone, Copy, PartialEq, Eq, Structural, Debug)]
pub enum CmpError {
    /// The two operands have different total logical lengths.
    LengthMismatch,
    /// An element's native value is not representable in the scalar's type.
    DataTypeMismatch,
}

/// What `op` means on two mathematical integers.
pub open spec fn cmp_int(op: CmpOp, x: int, y: int) -> bool {
    match op {
        CmpOp::Equal => x == y,
        CmpOp::NotEqual => x != y,
        CmpOp::Greater => x > y,
        CmpOp::GreaterOrEqual => x >= y,
        CmpOp::Less => x < y,
        CmpOp::LessOrEqual => x <= y,
    }
}

/// Strict lexicographic order on character sequences: the first differing
/// character decides; a proper prefix sorts before its extensions.
pub open spec fn str_lt(a: Seq<char>, b: Seq<char>) -> bool
    decreases a.len(),
{
    if b.len() == 0 {
        false
    } else if a.len() == 0 {
        true
    } else if a[0] != b[0] {
        a[0] < b[0]
    } else {
        str_lt(a.drop_first(), b.drop_first())
    }
}

/// What `op` means on two character sequences, under lexicographic order.
pub open spec fn cmp_str(op: CmpOp, x: Seq<char>, y: Seq<char>) -> bool {
    match op {
        CmpOp::Equal => x == y,
        CmpOp::NotEqual => x != y,
        CmpOp::Greater => str_lt(y, x),
        CmpOp::GreaterOrEqual => !str_lt(x, y),
        CmpOp::Less => str_lt(x, y),
        CmpOp::LessOrEqual => !str_lt(y, x),
    }
}

/// The mask a numeric column/column comparison must produce, as a function of
/// the two flattened element sequences alone.
pub open spec fn compare_spec(op: CmpOp, a: Seq<i64>, b: Seq<i64>) -> Seq<bool> {
    Seq::new(a.len(), |i: int| cmp_int(op, a[i] as int, b[i] as int))
}

/// The mask a text column/column comparison must produce.
pub open spec fn compare_spec_utf8(op: CmpOp, a: Seq<Seq<char>>, b: Seq<Seq<char>>) -> Seq<bool> {
    Seq::new(a.len(), |i: int| cmp_str(op, a[i], b[i]))
}

/// Whether an `i64` element survives the narrowing cast to the scalar's type.
pub open spec fn in_i32_range(x: i64) -> bool {
    i32::MIN as int <= x as int && x as int <= i32::MAX as int
}

/// The mask a column/scalar comparison must produce when every element casts.
pub open spec fn compare_scalar_spec(op: CmpOp, a: Seq<i64>, rhs: i32) -> Seq<bool> {
    Seq::new(a.len(), |i: int| cmp_int(op, a[i] as int, rhs as int))
}

/// Evaluates `op` on two scalar values, the per-element step of the
/// column/scalar path.
pub fn eval_cmp_i32(op: CmpOp, x: i32, y: i32) -> (r: bool)
    ensures
        r == cmp_int(op, x as int, y as int),
{
    match op {
        CmpOp::Equal => x == y,
        CmpOp::NotEqual => x != y,
        CmpOp::Greater => x > y,
        CmpOp::GreaterOrEqual => x >= y,
        CmpOp::Less => x < y,
        CmpOp::LessOrEqual => x <= y,
    }
}

} // verus!
