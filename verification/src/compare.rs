//! The comparison dispatchers: column against column for the numeric and
//! text categories, and column against scalar for the numeric category. Each
//! aligns or walks the operands' chunks, invokes the category's kernel, and
//! assembles the per-chunk boolean buffers into a new boolean column whose
//! flattened content is pinned down elementwise by the contract.

use vstd::prelude::*;
use crate::column::{
    BooleanChunked, Int64Chunked, Utf8Chunked, lemma_deep_view_push, lemma_flatten_index,
    lemma_flatten_take_len, lemma_flatten_take_succ,
};
use crate::kernels::{
    kernel_eq_i64, kernel_eq_utf8, kernel_gt_eq_i64, kernel_gt_eq_utf8, kernel_gt_i64,
    kernel_gt_utf8, kernel_lt_eq_i64, kernel_lt_eq_utf8, kernel_lt_i64, kernel_lt_utf8,
    kernel_neq_i64, kernel_neq_utf8,
};
use crate::ops::{
    CmpError, CmpOp, cmp_int, compare_scalar_spec, compare_spec, compare_spec_utf8,
    eval_cmp_i32, in_i32_range,
};

verus! {

/// Selects and applies the numeric kernel for `op` on one aligned chunk pair.
fn apply_kernel_i64(op: CmpOp, a: &Vec<i64>, b: &Vec<i64>) -> (r: Vec<bool>)
    requires
        a@.len() == b@.len(),
    ensures
        r@ == compare_spec(op, a@, b@),
{
    let r = match op {
        CmpOp::Equal => kernel_eq_i64(a, b),
        CmpOp::NotEqual => kernel_neq_i64(a, b),
        CmpOp::Greater => kernel_gt_i64(a, b),
        CmpOp::GreaterOrEqual => kernel_gt_eq_i64(a, b),
        CmpOp::Less => kernel_lt_i64(a, b),
        CmpOp::LessOrEqual => kernel_lt_eq_i64(a, b),
    };
    proof {
        assert(r@ =~= compare_spec(op, a@, b@));
    }
    r
}

/// Selects and applies the text kernel for `op` on one aligned chunk pair.
fn apply_kernel_utf8(op: CmpOp, a: &Vec<String>, b: &Vec<String>) -> (r: Vec<bool>)
    requires
        a@.len() == b@.len(),
    ensures
        r@ == compare_spec_utf8(op, a.deep_view(), b.deep_view()),
{
    let r = match op {
        CmpOp::Equal => kernel_eq_utf8(a, b),
        CmpOp::NotEqual => kernel_neq_utf8(a, b),
        CmpOp::Greater => kernel_gt_utf8(a, b),
        CmpOp::GreaterOrEqual => kernel_gt_eq_utf8(a, b),
        CmpOp::Less => kernel_lt_utf8(a, b),
        CmpOp::LessOrEqual => kernel_lt_eq_utf8(a, b),
    };
    proof {
        assert(r@ =~= compare_spec_utf8(op, a.deep_view(), b.deep_view()));
    }
    r
}

/// A comparison of two concatenations, piecewise equal in length, is the
/// concatenation of the two comparisons.
proof fn lemma_compare_spec_concat(op: CmpOp, a1: Seq<i64>, b1: Seq<i64>, a2: Seq<i64>, b2: Seq<i64>)
    requires
        a1.len() == b1.len(),
        a2.len() == b2.len(),
    ensures
        compare_spec(op, a1 + a2, b1 + b2) == compare_spec(op, a1, b1) + compare_spec(op, a2, b2),
{
    assert forall|i: int| 0 <= i < a1.len() + a2.len() implies compare_spec(op, a1 + a2, b1 + b2)[i]
        == (compare_spec(op, a1, b1) + compare_spec(op, a2, b2))[i] by {
        if i < a1.len() {
            assert((a1 + a2)[i] == a1[i]);
            assert((b1 + b2)[i] == b1[i]);
        } else {
            assert((a1 + a2)[i] == a2[i - a1.len()]);
            assert((b1 + b2)[i] == b2[i - a1.len()]);
        }
    }
    assert(compare_spec(op, a1 + a2, b1 + b2) =~= compare_spec(op, a1, b1) + compare_spec(
        op,
        a2,
        b2,
    ));
}

/// The text counterpart of [`lemma_compare_spec_concat`].
proof fn lemma_compare_spec_utf8_concat(
    op: CmpOp,
    a1: Seq<Seq<char>>,
    b1: Seq<Seq<char>>,
    a2: Seq<Seq<char>>,
    b2: Seq<Seq<char>>,
)
    requires
        a1.len() == b1.len(),
        a2.len() == b2.len(),
    ensures
        compare_spec_utf8(op, a1 + a2, b1 + b2) == compare_spec_utf8(op, a1, b1)
            + compare_spec_utf8(op, a2, b2),
{
    assert forall|i: int| 0 <= i < a1.len() + a2.len() implies compare_spec_utf8(
        op,
        a1 + a2,
        b1 + b2,
    )[i] == (compare_spec_utf8(op, a1, b1) + compare_spec_utf8(op, a2, b2))[i] by {
        if i < a1.len() {
            assert((a1 + a2)[i] == a1[i]);
            assert((b1 + b2)[i] == b1[i]);
        } else {
            assert((a1 + a2)[i] == a2[i - a1.len()]);
            assert((b1 + b2)[i] == b2[i - a1.len()]);
        }
    }
    assert(compare_spec_utf8(op, a1 + a2, b1 + b2) =~= compare_spec_utf8(op, a1, b1)
        + compare_spec_utf8(op, a2, b2));
}

/// Column/column comparison of numeric columns: aligns the chunk boundaries,
/// applies the kernel for `op` to each aligned chunk pair, and assembles the
/// boolean buffers, in order, into a new column carrying the empty name.
/// Succeeds exactly when the operands have one total logical length, and then
/// produces the elementwise mask of `op` over the flattened operands; fails
/// with `LengthMismatch`, producing nothing, otherwise.
pub fn compare(op: CmpOp, left: &Int64Chunked, right: &Int64Chunked) -> (r: Result<
    BooleanChunked,
    CmpError,
>)
    requires
        left.wf(),
        right.wf(),
    ensures
        (match r {
            Ok(mask) => left.flat().len() == right.flat().len() && mask.wf() && mask.flat()
                == compare_spec(op, left.flat(), right.flat()) && mask.name@.len() == 0,
            Err(e) => e == CmpError::LengthMismatch && left.flat().len() != right.flat().len(),
        }),
{
    let aligned_opt = match left.align(right) {
        Ok(o) => o,
        Err(e) => {
            return Err(e);
        },
    };
    let l: &Int64Chunked = match &aligned_opt {
        Some(a) => a,
        None => left,
    };
    let ghost lv = l.chunk_views();
    let ghost rv = right.chunk_views();
    proof {
        assert(l.flat() == left.flat());
        assert(l.layout() == right.layout());
        assert(l.layout().len() == lv.len());
        assert(right.layout().len() == rv.len());
        assert(lv.len() == rv.len());
        assert forall|k: int| 0 <= k < lv.len() implies lv[k].len() == rv[k].len() by {
            assert(l.layout()[k] == lv[k].len());
            assert(right.layout()[k] == rv[k].len());
        }
    }
    let mut out: Vec<Vec<bool>> = Vec::new();
    let mut j: usize = 0;
    proof {
        assert(out.deep_view() =~= Seq::<Seq<bool>>::empty());
        assert(out.deep_view().flatten() =~= compare_spec(
            op,
            lv.take(0).flatten(),
            rv.take(0).flatten(),
        ));
    }
    while j < l.chunks.len()
        invariant
            j <= l.chunks.len(),
            lv == l.chunk_views(),
            rv == right.chunk_views(),
            lv.len() == l.chunks.len(),
            rv.len() == right.chunks.len(),
            lv.len() == rv.len(),
            forall|k: int| 0 <= k < lv.len() ==> lv[k].len() == rv[k].len(),
            lv.take(j as int).flatten().len() == rv.take(j as int).flatten().len(),
            out.deep_view().flatten() == compare_spec(
                op,
                lv.take(j as int).flatten(),
                rv.take(j as int).flatten(),
            ),
        decreases l.chunks.len() - j,
    {
        proof {
            assert(lv[j as int] == l.chunks@[j as int]@);
            assert(rv[j as int] == right.chunks@[j as int]@);
        }
        let cr = apply_kernel_i64(op, &l.chunks[j], &right.chunks[j]);
        let ghost crs = cr@;
        let ghost oprev = out;
        out.push(cr);
        proof {
            lemma_deep_view_push(oprev, out);
            assert(out@[oprev@.len() as int].deep_view() == crs);
            oprev.deep_view().lemma_flatten_push(crs);
            lemma_flatten_take_succ(lv, j as int);
            lemma_flatten_take_succ(rv, j as int);
            lemma_compare_spec_concat(
                op,
                lv.take(j as int).flatten(),
                rv.take(j as int).flatten(),
                lv[j as int],
                rv[j as int],
            );
        }
        j = j + 1;
    }
    proof {
        assert(lv.take(lv.len() as int) =~= lv);
        assert(rv.take(rv.len() as int) =~= rv);
        assert(compare_spec(op, l.flat(), right.flat()).len() == l.flat().len());
    }
    let mask = BooleanChunked::new_from_chunks("", out);
    proof {
        reveal_strlit("");
    }
    Ok(mask)
}

/// Column/column comparison of text columns: the same control flow as
/// [`compare`], with the disjoint text kernel family; succeeds exactly when
/// the operands have one total logical length.
pub fn compare_utf8(op: CmpOp, left: &Utf8Chunked, right: &Utf8Chunked) -> (r: Result<
    BooleanChunked,
    CmpError,
>)
    requires
        left.wf(),
        right.wf(),
    ensures
        (match r {
            Ok(mask) => left.flat().len() == right.flat().len() && mask.wf() && mask.flat()
                == compare_spec_utf8(op, left.flat(), right.flat()) && mask.name@.len() == 0,
            Err(e) => e == CmpError::LengthMismatch && left.flat().len() != right.flat().len(),
        }),
{
    let aligned_opt = match left.align(right) {
        Ok(o) => o,
        Err(e) => {
            return Err(e);
        },
    };
    let l: &Utf8Chunked = match &aligned_opt {
        Some(a) => a,
        None => left,
    };
    let ghost lv = l.chunk_views();
    let ghost rv = right.chunk_views();
    proof {
        assert(l.flat() == left.flat());
        assert(l.layout() == right.layout());
        assert(l.layout().len() == lv.len());
        assert(right.layout().len() == rv.len());
        assert(lv.len() == rv.len());
        assert forall|k: int| 0 <= k < lv.len() implies lv[k].len() == rv[k].len() by {
            assert(l.layout()[k] == lv[k].len());
            assert(right.layout()[k] == rv[k].len());
        }
    }
    let mut out: Vec<Vec<bool>> = Vec::new();
    let mut j: usize = 0;
    proof {
        assert(out.deep_view() =~= Seq::<Seq<bool>>::empty());
        assert(out.deep_view().flatten() =~= compare_spec_utf8(
            op,
            lv.take(0).flatten(),
            rv.take(0).flatten(),
        ));
    }
    while j < l.chunks.len()
        invariant
            j <= l.chunks.len(),
            lv == l.chunk_views(),
            rv == right.chunk_views(),
            lv.len() == l.chunks.len(),
            rv.len() == right.chunks.len(),
            lv.len() == rv.len(),
            forall|k: int| 0 <= k < lv.len() ==> lv[k].len() == rv[k].len(),
            lv.take(j as int).flatten().len() == rv.take(j as int).flatten().len(),
            out.deep_view().flatten() == compare_spec_utf8(
                op,
                lv.take(j as int).flatten(),
                rv.take(j as int).flatten(),
            ),
        decreases l.chunks.len() - j,
    {
        proof {
            assert(lv[j as int] == l.chunks@[j as int].deep_view());
            assert(rv[j as int] == right.chunks@[j as int].deep_view());
        }
        let cr = apply_kernel_utf8(op, &l.chunks[j], &right.chunks[j]);
        let ghost crs = cr@;
        let ghost oprev = out;
        out.push(cr);
        proof {
            lemma_deep_view_push(oprev, out);
            assert(out@[oprev@.len() as int].deep_view() == crs);
            oprev.deep_view().lemma_flatten_push(crs);
            lemma_flatten_take_succ(lv, j as int);
            lemma_flatten_take_succ(rv, j as int);
            lemma_compare_spec_utf8_concat(
                op,
                lv.take(j as int).flatten(),
                rv.take(j as int).flatten(),
                lv[j as int],
                rv[j as int],
            );
        }
        j = j + 1;
    }
    proof {
        assert(lv.take(lv.len() as int) =~= lv);
        assert(rv.take(rv.len() as int) =~= rv);
        assert(compare_spec_utf8(op, l.flat(), right.flat()).len() == l.flat().len());
    }
    let mask = BooleanChunked::new_from_chunks("", out);
    proof {
        reveal_strlit("");
    }
    Ok(mask)
}

/// Column/scalar comparison for numeric columns: per chunk, per element in
/// logical order, the element's native value is cast to the scalar's type and
/// `op` is evaluated against `rhs`. Succeeds exactly when every element is
/// representable in the scalar's type, and then produces the elementwise
/// mask; an unrepresentable element aborts the whole call with
/// `DataTypeMismatch` and no output.
pub fn compare_scalar(op: CmpOp, left: &Int64Chunked, rhs: i32) -> (r: Result<
    BooleanChunked,
    CmpError,
>)
    requires
        left.wf(),
    ensures
        (match r {
            Ok(mask) => (forall|i: int|
                0 <= i < left.flat().len() ==> in_i32_range(#[trigger] left.flat()[i])) && mask.wf()
                && mask.flat() == compare_scalar_spec(op, left.flat(), rhs) && mask.name@.len()
                == 0,
            Err(e) => e == CmpError::DataTypeMismatch && (exists|i: int|
                0 <= i < left.flat().len() && !in_i32_range(#[trigger] left.flat()[i])),
        }),
{
    let ghost cv = left.chunk_views();
    let ghost fl = left.flat();
    let ghost mask_spec = compare_scalar_spec(op, fl, rhs);
    let mut out: Vec<Vec<bool>> = Vec::new();
    let ghost mut pos: int = 0;
    let mut j: usize = 0;
    proof {
        assert(out.deep_view() =~= Seq::<Seq<bool>>::empty());
        assert(out.deep_view().flatten() =~= mask_spec.take(0));
        assert(cv.take(0).flatten() =~= Seq::<i64>::empty());
    }
    while j < left.chunks.len()
        invariant
            j <= left.chunks.len(),
            cv == left.chunk_views(),
            fl == left.flat(),
            mask_spec == compare_scalar_spec(op, fl, rhs),
            cv.len() == left.chunks.len(),
            left.wf(),
            pos == cv.take(j as int).flatten().len(),
            0 <= pos <= fl.len(),
            forall|k: int| 0 <= k < pos ==> in_i32_range(#[trigger] fl[k]),
            out.deep_view().flatten() == mask_spec.take(pos),
        decreases left.chunks.len() - j,
    {
        let chunk = &left.chunks[j];
        let clen = chunk.len();
        proof {
            assert(cv[j as int] == chunk@);
            lemma_flatten_take_succ(cv, j as int);
            lemma_flatten_take_len(cv, j as int + 1);
        }
        let mut cr: Vec<bool> = Vec::new();
        let mut i: usize = 0;
        while i < clen
            invariant
                i <= clen,
                cv == left.chunk_views(),
                fl == left.flat(),
                mask_spec == compare_scalar_spec(op, fl, rhs),
                cv.len() == left.chunks.len(),
                0 <= j < cv.len(),
                chunk@ == cv[j as int],
                clen == chunk@.len(),
                pos == cv.take(j as int).flatten().len(),
                pos + clen <= fl.len(),
                fl.len() <= usize::MAX,
                forall|k: int| 0 <= k < pos ==> in_i32_range(#[trigger] fl[k]),
                forall|k: int| 0 <= k < i ==> in_i32_range(#[trigger] fl[pos + k]),
                cr@.len() == i,
                forall|k: int| 0 <= k < i ==> cr@[k] == cmp_int(op, fl[pos + k] as int, rhs as int),
            decreases clen - i,
        {
            proof {
                lemma_flatten_index(cv, j as int, i as int);
            }
            let val = chunk[i];
            if val < i32::MIN as i64 || val > i32::MAX as i64 {
                proof {
                    assert(!in_i32_range(fl[pos + i as int]));
                }
                return Err(CmpError::DataTypeMismatch);
            }
            let c = val as i32;
            let b = eval_cmp_i32(op, c, rhs);
            cr.push(b);
            i = i + 1;
        }
        let ghost oprev = out;
        let ghost crs = cr@;
        out.push(cr);
        proof {
            lemma_deep_view_push(oprev, out);
            assert(out@[oprev@.len() as int].deep_view() == crs);
            oprev.deep_view().lemma_flatten_push(crs);
            assert forall|k: int| 0 <= k < pos + clen implies (mask_spec.take(pos) + crs)[k]
                == mask_spec.take(pos + clen)[k] by {
                if pos <= k {
                    assert(crs[k - pos] == cmp_int(op, fl[k] as int, rhs as int));
                }
            }
            assert(mask_spec.take(pos) + crs =~= mask_spec.take(pos + clen));
            assert forall|k: int| 0 <= k < pos + clen implies in_i32_range(#[trigger] fl[k]) by {
                if pos <= k {
                    assert(in_i32_range(fl[pos + (k - pos)]));
                }
            }
            pos = pos + clen;
        }
        j = j + 1;
    }
    proof {
        assert(cv.take(cv.len() as int) =~= cv);
        assert(mask_spec.take(pos) =~= mask_spec);
    }
    let mask = BooleanChunked::new_from_chunks("", out);
    proof {
        reveal_strlit("");
    }
    Ok(mask)
}

/// Builds the single-chunk numeric column that a scalar stands for: `n`
/// copies of `k`, under the empty name.
pub fn broadcast(k: i32, n: usize) -> (r: Int64Chunked)
    ensures
        r.wf(),
        r.flat() == Seq::new(n as nat, |i: int| k as i64),
        r.name@.len() == 0,
{
    let mut chunk: Vec<i64> = Vec::new();
    let mut i: usize = 0;
    proof {
        assert(chunk@ =~= Seq::new(0, |t: int| k as i64));
    }
    while i < n
        invariant
            i <= n,
            chunk@ == Seq::new(i as nat, |t: int| k as i64),
        decreases n - i,
    {
        chunk.push(k as i64);
        i = i + 1;
        proof {
            assert(chunk@ =~= Seq::new(i as nat, |t: int| k as i64));
        }
    }
    let chunks = vec![chunk];
    proof {
        assert(chunks@[0].deep_view() =~= chunks@[0]@);
        assert(chunks.deep_view() =~= seq![chunks@[0]@]);
        chunks.deep_view().lemma_flatten_one_element();
    }
    let r = Int64Chunked::new_from_chunks("", chunks);
    proof {
        reveal_strlit("");
    }
    r
}

/// The six relational entry points, shared by every operand pairing: a
/// column against a like-typed column, or a numeric column against a scalar.
/// Each implementation fixes, in spec, when the comparison is accepted, the
/// error it fails with, and the exact mask it produces.
pub trait CmpOps<Rhs> {
    /// What the operands must satisfy before a comparison is asked for.
    spec fn cmp_wf(&self, rhs: Rhs) -> bool;

    /// Whether the comparison succeeds on these operands.
    spec fn cmp_ok(&self, rhs: Rhs) -> bool;

    /// The error the comparison fails with when it does not succeed.
    spec fn cmp_err(&self, rhs: Rhs) -> CmpError;

    /// The mask the comparison produces under `op` when it succeeds.
    spec fn cmp_mask(&self, op: CmpOp, rhs: Rhs) -> Seq<bool>;

    /// Elementwise `==` mask.
    fn eq(&self, rhs: Rhs) -> (r: Result<BooleanChunked, CmpError>)
        requires
            self.cmp_wf(rhs),
        ensures
            (match r {
                Ok(mask) => self.cmp_ok(rhs) && mask.wf() && mask.flat() == self.cmp_mask(
                    CmpOp::Equal,
                    rhs,
                ),
                Err(e) => !self.cmp_ok(rhs) && e == self.cmp_err(rhs),
            }),
    ;

    /// Elementwise `!=` mask.
    fn neq(&self, rhs: Rhs) -> (r: Result<BooleanChunked, CmpError>)
        requires
            self.cmp_wf(rhs),
        ensures
            (match r {
                Ok(mask) => self.cmp_ok(rhs) && mask.wf() && mask.flat() == self.cmp_mask(
                    CmpOp::NotEqual,
                    rhs,
                ),
                Err(e) => !self.cmp_ok(rhs) && e == self.cmp_err(rhs),
            }),
    ;

    /// Elementwise `>` mask.
    fn gt(&self, rhs: Rhs) -> (r: Result<BooleanChunked, CmpError>)
        requires
            self.cmp_wf(rhs),
        ensures
            (match r {
                Ok(mask) => self.cmp_ok(rhs) && mask.wf() && mask.flat() == self.cmp_mask(
                    CmpOp::Greater,
                    rhs,
                ),
                Err(e) => !self.cmp_ok(rhs) && e == self.cmp_err(rhs),
            }),
    ;

    /// Elementwise `>=` mask.
    fn gt_eq(&self, rhs: Rhs) -> (r: Result<BooleanChunked, CmpError>)
        requires
            self.cmp_wf(rhs),
        ensures
            (match r {
                Ok(mask) => self.cmp_ok(rhs) && mask.wf() && mask.flat() == self.cmp_mask(
                    CmpOp::GreaterOrEqual,
                    rhs,
                ),
                Err(e) => !self.cmp_ok(rhs) && e == self.cmp_err(rhs),
            }),
    ;

    /// Elementwise `<` mask.
    fn lt(&self, rhs: Rhs) -> (r: Result<BooleanChunked, CmpError>)
        requires
            self.cmp_wf(rhs),
        ensures
            (match r {
                Ok(mask) => self.cmp_ok(rhs) && mask.wf() && mask.flat() == self.cmp_mask(
                    CmpOp::Less,
                    rhs,
                ),
                Err(e) => !self.cmp_ok(rhs) && e == self.cmp_err(rhs),
            }),
    ;

    /// Elementwise `<=` mask.
    fn lt_eq(&self, rhs: Rhs) -> (r: Result<BooleanChunked, CmpError>)
        requires
            self.cmp_wf(rhs),
        ensures
            (match r {
                Ok(mask) => self.cmp_ok(rhs) && mask.wf() && mask.flat() == self.cmp_mask(
                    CmpOp::LessOrEqual,
                    rhs,
                ),
                Err(e) => !self.cmp_ok(rhs) && e == self.cmp_err(rhs),
            }),
    ;
}

impl<'a> CmpOps<&'a Int64Chunked> for Int64Chunked {
    open spec fn cmp_wf(&self, rhs: &'a Int64Chunked) -> bool {
        self.wf() && rhs.wf()
    }

    open spec fn cmp_ok(&self, rhs: &'a Int64Chunked) -> bool {
        self.flat().len() == rhs.flat().len()
    }

    open spec fn cmp_err(&self, rhs: &'a Int64Chunked) -> CmpError {
        CmpError::LengthMismatch
    }

    open spec fn cmp_mask(&self, op: CmpOp, rhs: &'a Int64Chunked) -> Seq<bool> {
        compare_spec(op, self.flat(), rhs.flat())
    }

    fn eq(&self, rhs: &'a Int64Chunked) -> (r: Result<BooleanChunked, CmpError>) {
        compare(CmpOp::Equal, self, rhs)
    }

    fn neq(&self, rhs: &'a Int64Chunked) -> (r: Result<BooleanChunked, CmpError>) {
        compare(CmpOp::NotEqual, self, rhs)
    }

    fn gt(&self, rhs: &'a Int64Chunked) -> (r: Result<BooleanChunked, CmpError>) {
        compare(CmpOp::Greater, self, rhs)
    }

    fn gt_eq(&self, rhs: &'a Int64Chunked) -> (r: Result<BooleanChunked, CmpError>) {
        compare(CmpOp::GreaterOrEqual, self, rhs)
    }

    fn lt(&self, rhs: &'a Int64Chunked) -> (r: Result<BooleanChunked, CmpError>) {
        compare(CmpOp::Less, self, rhs)
    }

    fn lt_eq(&self, rhs: &'a Int64Chunked) -> (r: Result<BooleanChunked, CmpError>) {
        compare(CmpOp::LessOrEqual, self, rhs)
    }
}

impl CmpOps<i32> for Int64Chunked {
    open spec fn cmp_wf(&self, rhs: i32) -> bool {
        self.wf()
    }

    open spec fn cmp_ok(&self, rhs: i32) -> bool {
        forall|i: int| 0 <= i < self.flat().len() ==> in_i32_range(#[trigger] self.flat()[i])
    }

    open spec fn cmp_err(&self, rhs: i32) -> CmpError {
        CmpError::DataTypeMismatch
    }

    open spec fn cmp_mask(&self, op: CmpOp, rhs: i32) -> Seq<bool> {
        compare_scalar_spec(op, self.flat(), rhs)
    }

    fn eq(&self, rhs: i32) -> (r: Result<BooleanChunked, CmpError>) {
        compare_scalar(CmpOp::Equal, self, rhs)
    }

    fn neq(&self, rhs: i32) -> (r: Result<BooleanChunked, CmpError>) {
        compare_scalar(CmpOp::NotEqual, self, rhs)
    }

    fn gt(&self, rhs: i32) -> (r: Result<BooleanChunked, CmpError>) {
        compare_scalar(CmpOp::Greater, self, rhs)
    }

    fn gt_eq(&self, rhs: i32) -> (r: Result<BooleanChunked, CmpError>) {
        compare_scalar(CmpOp::GreaterOrEqual, self, rhs)
    }

    fn lt(&self, rhs: i32) -> (r: Result<BooleanChunked, CmpError>) {
        compare_scalar(CmpOp::Less, self, rhs)
    }

    fn lt_eq(&self, rhs: i32) -> (r: Result<BooleanChunked, CmpError>) {
        compare_scalar(CmpOp::LessOrEqual, self, rhs)
    }
}

/// Auxiliary trait for `CmpOps`: the right-hand operands a text column
/// accepts, each standing for a text column of its own.
pub trait BoundedToUtf8 {
    /// The text column the operand stands for.
    spec fn utf8_col(&self) -> Utf8Chunked;

    /// Borrows that column.
    fn as_utf8(&self) -> (r: &Utf8Chunked)
        ensures
            *r == self.utf8_col(),
    ;
}

impl BoundedToUtf8 for Utf8Chunked {
    open spec fn utf8_col(&self) -> Utf8Chunked {
        *self
    }

    fn as_utf8(&self) -> (r: &Utf8Chunked) {
        self
    }
}

impl<'a, R: BoundedToUtf8> CmpOps<&'a R> for Utf8Chunked {
    open spec fn cmp_wf(&self, rhs: &'a R) -> bool {
        self.wf() && rhs.utf8_col().wf()
    }

    open spec fn cmp_ok(&self, rhs: &'a R) -> bool {
        self.flat().len() == rhs.utf8_col().flat().len()
    }

    open spec fn cmp_err(&self, rhs: &'a R) -> CmpError {
        CmpError::LengthMismatch
    }

    open spec fn cmp_mask(&self, op: CmpOp, rhs: &'a R) -> Seq<bool> {
        compare_spec_utf8(op, self.flat(), rhs.utf8_col().flat())
    }

    fn eq(&self, rhs: &'a R) -> (r: Result<BooleanChunked, CmpError>) {
        compare_utf8(CmpOp::Equal, self, rhs.as_utf8())
    }

    fn neq(&self, rhs: &'a R) -> (r: Result<BooleanChunked, CmpError>) {
        compare_utf8(CmpOp::NotEqual, self, rhs.as_utf8())
    }

    fn gt(&self, rhs: &'a R) -> (r: Result<BooleanChunked, CmpError>) {
        compare_utf8(CmpOp::Greater, self, rhs.as_utf8())
    }

    fn gt_eq(&self, rhs: &'a R) -> (r: Result<BooleanChunked, CmpError>) {
        compare_utf8(CmpOp::GreaterOrEqual, self, rhs.as_utf8())
    }

    fn lt(&self, rhs: &'a R) -> (r: Result<BooleanChunked, CmpError>) {
        compare_utf8(CmpOp::Less, self, rhs.as_utf8())
    }

    fn lt_eq(&self, rhs: &'a R) -> (r: Result<BooleanChunked, CmpError>) {
        compare_utf8(CmpOp::LessOrEqual, self, rhs.as_utf8())
    }
}

} // verus!
