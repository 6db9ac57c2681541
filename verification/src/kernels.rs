//! Trusted wrappers around the external vectorized kernel library: one
//! wrapper per relational kernel and element category. Each body only
//! converts a chunk to an arrow array, invokes one arrow comparison kernel,
//! and converts the boolean result back. The kernels reject operands of
//! differing lengths, so every wrapper requires equal lengths and in return
//! states the elementwise meaning of its kernel.
//!
//! For text, arrow compares the UTF-8 bytes of the two strings
//! lexicographically; on valid UTF-8 that order coincides with lexicographic
//! order on the code points, which is what [`str_lt`] states. The text
//! wrappers build `LargeStringArray`s (64-bit offsets) so that any chunk a
//! machine can hold fits without overflowing the array's offsets.

use vstd::prelude::*;
use crate::ops::str_lt;

verus! {

/// Relies on arrow's `cmp::eq` kernel: elementwise `==` on two equal-length
/// `Int64Array`s.
#[verifier::external_body]
pub(crate) fn kernel_eq_i64(a: &Vec<i64>, b: &Vec<i64>) -> (r: Vec<bool>)
    requires
        a@.len() == b@.len(),
    ensures
        r@.len() == a@.len(),
        forall|i: int| 0 <= i < r@.len() ==> r@[i] == (a@[i] == b@[i]),
{
    let x = arrow::array::Int64Array::from(a.clone());
    let y = arrow::array::Int64Array::from(b.clone());
    let out = arrow::compute::kernels::cmp::eq(&x, &y).expect("equal-length primitive arrays");
    (0..out.len()).map(|i| out.value(i)).collect()
}

/// Relies on arrow's `cmp::neq` kernel: elementwise `!=` on two equal-length
/// `Int64Array`s.
#[verifier::external_body]
pub(crate) fn kernel_neq_i64(a: &Vec<i64>, b: &Vec<i64>) -> (r: Vec<bool>)
    requires
        a@.len() == b@.len(),
    ensures
        r@.len() == a@.len(),
        forall|i: int| 0 <= i < r@.len() ==> r@[i] == (a@[i] != b@[i]),
{
    let x = arrow::array::Int64Array::from(a.clone());
    let y = arrow::array::Int64Array::from(b.clone());
    let out = arrow::compute::kernels::cmp::neq(&x, &y).expect("equal-length primitive arrays");
    (0..out.len()).map(|i| out.value(i)).collect()
}

/// Relies on arrow's `cmp::gt` kernel: elementwise `>` on two equal-length
/// `Int64Array`s.
#[verifier::external_body]
pub(crate) fn kernel_gt_i64(a: &Vec<i64>, b: &Vec<i64>) -> (r: Vec<bool>)
    requires
        a@.len() == b@.len(),
    ensures
        r@.len() == a@.len(),
        forall|i: int| 0 <= i < r@.len() ==> r@[i] == (a@[i] > b@[i]),
{
    let x = arrow::array::Int64Array::from(a.clone());
    let y = arrow::array::Int64Array::from(b.clone());
    let out = arrow::compute::kernels::cmp::gt(&x, &y).expect("equal-length primitive arrays");
    (0..out.len()).map(|i| out.value(i)).collect()
}

/// Relies on arrow's `cmp::gt_eq` kernel: elementwise `>=` on two
/// equal-length `Int64Array`s.
#[verifier::external_body]
pub(crate) fn kernel_gt_eq_i64(a: &Vec<i64>, b: &Vec<i64>) -> (r: Vec<bool>)
    requires
        a@.len() == b@.len(),
    ensures
        r@.len() == a@.len(),
        forall|i: int| 0 <= i < r@.len() ==> r@[i] == (a@[i] >= b@[i]),
{
    let x = arrow::array::Int64Array::from(a.clone());
    let y = arrow::array::Int64Array::from(b.clone());
    let out = arrow::compute::kernels::cmp::gt_eq(&x, &y).expect("equal-length primitive arrays");
    (0..out.len()).map(|i| out.value(i)).collect()
}

/// Relies on arrow's `cmp::lt` kernel: elementwise `<` on two equal-length
/// `Int64Array`s.
#[verifier::external_body]
pub(crate) fn kernel_lt_i64(a: &Vec<i64>, b: &Vec<i64>) -> (r: Vec<bool>)
    requires
        a@.len() == b@.len(),
    ensures
        r@.len() == a@.len(),
        forall|i: int| 0 <= i < r@.len() ==> r@[i] == (a@[i] < b@[i]),
{
    let x = arrow::array::Int64Array::from(a.clone());
    let y = arrow::array::Int64Array::from(b.clone());
    let out = arrow::compute::kernels::cmp::lt(&x, &y).expect("equal-length primitive arrays");
    (0..out.len()).map(|i| out.value(i)).collect()
}

/// Relies on arrow's `cmp::lt_eq` kernel: elementwise `<=` on two
/// equal-length `Int64Array`s.
#[verifier::external_body]
pub(crate) fn kernel_lt_eq_i64(a: &Vec<i64>, b: &Vec<i64>) -> (r: Vec<bool>)
    requires
        a@.len() == b@.len(),
    ensures
        r@.len() == a@.len(),
        forall|i: int| 0 <= i < r@.len() ==> r@[i] == (a@[i] <= b@[i]),
{
    let x = arrow::array::Int64Array::from(a.clone());
    let y = arrow::array::Int64Array::from(b.clone());
    let out = arrow::compute::kernels::cmp::lt_eq(&x, &y).expect("equal-length primitive arrays");
    (0..out.len()).map(|i| out.value(i)).collect()
}

/// Relies on arrow's `cmp::eq` kernel on `LargeStringArray`s: elementwise
/// equality of the strings' bytes, i.e. equality of their characters.
#[verifier::external_body]
pub(crate) fn kernel_eq_utf8(a: &Vec<String>, b: &Vec<String>) -> (r: Vec<bool>)
    requires
        a@.len() == b@.len(),
    ensures
        r@.len() == a@.len(),
        forall|i: int| 0 <= i < r@.len() ==> r@[i] == (a.deep_view()[i] == b.deep_view()[i]),
{
    let x = arrow::array::LargeStringArray::from(a.clone());
    let y = arrow::array::LargeStringArray::from(b.clone());
    let out = arrow::compute::kernels::cmp::eq(&x, &y).expect("equal-length string arrays");
    (0..out.len()).map(|i| out.value(i)).collect()
}

/// Relies on arrow's `cmp::neq` kernel on `LargeStringArray`s: elementwise
/// inequality of the strings' bytes.
#[verifier::external_body]
pub(crate) fn kernel_neq_utf8(a: &Vec<String>, b: &Vec<String>) -> (r: Vec<bool>)
    requires
        a@.len() == b@.len(),
    ensures
        r@.len() == a@.len(),
        forall|i: int| 0 <= i < r@.len() ==> r@[i] == (a.deep_view()[i] != b.deep_view()[i]),
{
    let x = arrow::array::LargeStringArray::from(a.clone());
    let y = arrow::array::LargeStringArray::from(b.clone());
    let out = arrow::compute::kernels::cmp::neq(&x, &y).expect("equal-length string arrays");
    (0..out.len()).map(|i| out.value(i)).collect()
}

/// Relies on arrow's `cmp::gt` kernel on `LargeStringArray`s: elementwise strict
/// bytewise lexicographic order, with the right operand below the left.
#[verifier::external_body]
pub(crate) fn kernel_gt_utf8(a: &Vec<String>, b: &Vec<String>) -> (r: Vec<bool>)
    requires
        a@.len() == b@.len(),
    ensures
        r@.len() == a@.len(),
        forall|i: int| 0 <= i < r@.len() ==> r@[i] == str_lt(b.deep_view()[i], a.deep_view()[i]),
{
    let x = arrow::array::LargeStringArray::from(a.clone());
    let y = arrow::array::LargeStringArray::from(b.clone());
    let out = arrow::compute::kernels::cmp::gt(&x, &y).expect("equal-length string arrays");
    (0..out.len()).map(|i| out.value(i)).collect()
}

/// Relies on arrow's `cmp::gt_eq` kernel on `LargeStringArray`s: the complement
/// of strict bytewise lexicographic order of left below right.
#[verifier::external_body]
pub(crate) fn kernel_gt_eq_utf8(a: &Vec<String>, b: &Vec<String>) -> (r: Vec<bool>)
    requires
        a@.len() == b@.len(),
    ensures
        r@.len() == a@.len(),
        forall|i: int| 0 <= i < r@.len() ==> r@[i] == !str_lt(a.deep_view()[i], b.deep_view()[i]),
{
    let x = arrow::array::LargeStringArray::from(a.clone());
    let y = arrow::array::LargeStringArray::from(b.clone());
    let out = arrow::compute::kernels::cmp::gt_eq(&x, &y).expect("equal-length string arrays");
    (0..out.len()).map(|i| out.value(i)).collect()
}

/// Relies on arrow's `cmp::lt` kernel on `LargeStringArray`s: elementwise strict
/// bytewise lexicographic order.
#[verifier::external_body]
pub(crate) fn kernel_lt_utf8(a: &Vec<String>, b: &Vec<String>) -> (r: Vec<bool>)
    requires
        a@.len() == b@.len(),
    ensures
        r@.len() == a@.len(),
        forall|i: int| 0 <= i < r@.len() ==> r@[i] == str_lt(a.deep_view()[i], b.deep_view()[i]),
{
    let x = arrow::array::LargeStringArray::from(a.clone());
    let y = arrow::array::LargeStringArray::from(b.clone());
    let out = arrow::compute::kernels::cmp::lt(&x, &y).expect("equal-length string arrays");
    (0..out.len()).map(|i| out.value(i)).collect()
}

/// Relies on arrow's `cmp::lt_eq` kernel on `LargeStringArray`s: the complement
/// of strict bytewise lexicographic order of right below left.
#[verifier::external_body]
pub(crate) fn kernel_lt_eq_utf8(a: &Vec<String>, b: &Vec<String>) -> (r: Vec<bool>)
    requires
        a@.len() == b@.len(),
    ensures
        r@.len() == a@.len(),
        forall|i: int| 0 <= i < r@.len() ==> r@[i] == !str_lt(b.deep_view()[i], a.deep_view()[i]),
{
    let x = arrow::array::LargeStringArray::from(a.clone());
    let y = arrow::array::LargeStringArray::from(b.clone());
    let out = arrow::compute::kernels::cmp::lt_eq(&x, &y).expect("equal-length string arrays");
    (0..out.len()).map(|i| out.value(i)).collect()
}

} // verus!
