//! Chunked columns: an ordered sequence of immutable, contiguous chunks of
//! one element type, seen in specifications as the flattened sequence of all
//! elements, and the aligner that makes two columns share chunk boundaries.

use vstd::prelude::*;
use vstd::seq_lib::lemma_flatten_concat;
use crate::ops::CmpError;

verus! {

/// One logical column of elements of type `T`, stored as ordered chunks.
/// The column a value represents is the concatenation of its chunks; chunk
/// boundaries are a storage artifact and carry no meaning of their own.
#[derive(Debug)]
pub struct ChunkedArray<T> {
    /// The column's name. Comparison results carry the empty name.
    pub name: String,
    /// The ordered chunks. Their concatenation is the logical column.
    pub chunks: Vec<Vec<T>>,
}

/// A column of booleans: the sole output type of a comparison.
pub type BooleanChunked = ChunkedArray<bool>;

/// A column of text elements.
pub type Utf8Chunked = ChunkedArray<String>;

/// A column of 64-bit integer elements.
pub type Int64Chunked = ChunkedArray<i64>;

impl<T: DeepView> ChunkedArray<T> {
    /// The chunks, each as a mathematical sequence of element values.
    pub open spec fn chunk_views(&self) -> Seq<Seq<T::V>> {
        self.chunks.deep_view()
    }

    /// The logical column: all chunks concatenated in order.
    pub open spec fn flat(&self) -> Seq<T::V> {
        self.chunk_views().flatten()
    }

    /// The chunk boundary layout: the length of each chunk, in order.
    pub open spec fn layout(&self) -> Seq<nat> {
        self.chunk_views().map_values(|c: Seq<T::V>| c.len())
    }

    /// The total logical length fits the machine.
    pub open spec fn wf(&self) -> bool {
        self.flat().len() <= usize::MAX
    }

    /// Packages chunks into a column; pure construction, no further checks.
    pub fn new_from_chunks(name: &str, chunks: Vec<Vec<T>>) -> (r: Self)
        requires
            chunks.deep_view().flatten().len() <= usize::MAX,
        ensures
            r.chunk_views() == chunks.deep_view(),
            r.name@ == name@,
            r.wf(),
    {
        ChunkedArray { name: name.to_owned(), chunks }
    }

    /// The total logical length: the sum of the chunk lengths.
    pub fn len(&self) -> (n: usize)
        requires
            self.wf(),
        ensures
            n == self.flat().len(),
    {
        let ghost cv = self.chunk_views();
        let mut n: usize = 0;
        let mut j: usize = 0;
        while j < self.chunks.len()
            invariant
                j <= self.chunks.len(),
                cv == self.chunk_views(),
                cv.len() == self.chunks.len(),
                self.wf(),
                n == cv.take(j as int).flatten().len(),
            decreases self.chunks.len() - j,
        {
            proof {
                lemma_flatten_take_succ(cv, j as int);
                lemma_flatten_take_len(cv, j as int + 1);
                assert(cv[j as int] == self.chunks@[j as int].deep_view());
            }
            n = n + self.chunks[j].len();
            j = j + 1;
        }
        proof {
            assert(cv.take(cv.len() as int) =~= cv);
        }
        n
    }

    /// Whether this column's chunk boundaries already match `rhs`'s.
    fn same_layout(&self, rhs: &Self) -> (b: bool)
        ensures
            b == (self.layout() == rhs.layout()),
    {
        if self.chunks.len() != rhs.chunks.len() {
            proof {
                assert(self.layout().len() != rhs.layout().len());
            }
            return false;
        }
        let mut j: usize = 0;
        while j < self.chunks.len()
            invariant
                j <= self.chunks.len(),
                self.chunks.len() == rhs.chunks.len(),
                forall|k: int| 0 <= k < j ==> self.layout()[k] == rhs.layout()[k],
            decreases self.chunks.len() - j,
        {
            if self.chunks[j].len() != rhs.chunks[j].len() {
                proof {
                    assert(self.layout()[j as int] != rhs.layout()[j as int]);
                }
                return false;
            }
            j = j + 1;
        }
        proof {
            assert(self.layout() =~= rhs.layout());
        }
        true
    }
}

impl ChunkedArray<i64> {
    /// Copies the column's elements into one contiguous buffer, in order.
    fn flatten_elems(&self) -> (v: Vec<i64>)
        requires
            self.wf(),
        ensures
            v@ == self.flat(),
    {
        let ghost cv = self.chunk_views();
        let mut v: Vec<i64> = Vec::new();
        let mut j: usize = 0;
        while j < self.chunks.len()
            invariant
                j <= self.chunks.len(),
                cv == self.chunk_views(),
                cv.len() == self.chunks.len(),
                self.wf(),
                v@ == cv.take(j as int).flatten(),
            decreases self.chunks.len() - j,
        {
            let ghost vpre = v@;
            let chunk = &self.chunks[j];
            proof {
                assert(chunk.deep_view() =~= chunk@);
                assert(cv[j as int] == chunk@);
            }
            let mut i: usize = 0;
            while i < chunk.len()
                invariant
                    i <= chunk.len(),
                    v@ == vpre + chunk@.take(i as int),
                decreases chunk.len() - i,
            {
                v.push(chunk[i]);
                i = i + 1;
                proof {
                    assert(v@ =~= vpre + chunk@.take(i as int));
                }
            }
            proof {
                lemma_flatten_take_succ(cv, j as int);
                assert(chunk@.take(chunk@.len() as int) =~= chunk@);
            }
            j = j + 1;
        }
        proof {
            assert(cv.take(cv.len() as int) =~= cv);
        }
        v
    }

    /// Re-materializes the column into chunks matching `bounds`'s boundaries.
    fn rechunk_like(&self, bounds: &Self) -> (r: Self)
        requires
            self.wf(),
            bounds.wf(),
            self.flat().len() == bounds.flat().len(),
        ensures
            r.wf(),
            r.flat() == self.flat(),
            r.layout() == bounds.layout(),
            r.name@ == self.name@,
    {
        let flat_v = self.flatten_elems();
        let ghost bv = bounds.chunk_views();
        let mut out: Vec<Vec<i64>> = Vec::new();
        let mut pos: usize = 0;
        let mut j: usize = 0;
        while j < bounds.chunks.len()
            invariant
                j <= bounds.chunks.len(),
                bv == bounds.chunk_views(),
                bv.len() == bounds.chunks.len(),
                bounds.wf(),
                flat_v@ == self.flat(),
                flat_v@.len() == bv.flatten().len(),
                pos == bv.take(j as int).flatten().len(),
                pos <= flat_v@.len(),
                out.deep_view().len() == j,
                forall|k: int| 0 <= k < j ==> (#[trigger] out.deep_view()[k]).len() == bv[k].len(),
                out.deep_view().flatten() == flat_v@.take(pos as int),
            decreases bounds.chunks.len() - j,
        {
            let clen = bounds.chunks[j].len();
            proof {
                assert(bounds.chunks[j as int].deep_view() =~= bounds.chunks@[j as int]@);
                assert(bv[j as int].len() == clen);
                lemma_flatten_take_succ(bv, j as int);
                lemma_flatten_take_len(bv, j as int + 1);
            }
            let mut chunk: Vec<i64> = Vec::new();
            let mut i: usize = 0;
            while i < clen
                invariant
                    i <= clen,
                    pos + clen <= flat_v@.len(),
                    flat_v@.len() <= usize::MAX,
                    chunk@ == flat_v@.subrange(pos as int, pos as int + i as int),
                decreases clen - i,
            {
                chunk.push(flat_v[pos + i]);
                i = i + 1;
                proof {
                    assert(chunk@ =~= flat_v@.subrange(pos as int, pos as int + i as int));
                }
            }
            let ghost odv = out.deep_view();
            let ghost cs = chunk@;
            proof {
                assert(chunk.deep_view() =~= cs);
            }
            out.push(chunk);
            proof {
                assert(out.deep_view() =~= odv.push(cs));
                odv.lemma_flatten_push(cs);
                assert(odv.flatten() + cs =~= flat_v@.take(pos as int + clen as int));
            }
            pos = pos + clen;
            j = j + 1;
        }
        proof {
            assert(bv.take(bv.len() as int) =~= bv);
            assert(flat_v@.take(pos as int) =~= flat_v@);
        }
        let r = ChunkedArray { name: self.name.clone(), chunks: out };
        proof {
            assert(r.layout() =~= bounds.layout());
        }
        r
    }

    /// The chunk aligner: checks that the two operands have one logical
    /// length, then makes this column share `rhs`'s chunk boundaries.
    /// Returns `Ok(None)` when the boundaries already match (nothing copied),
    /// `Ok(Some(l))` with this column re-materialized to `rhs`'s layout
    /// otherwise, and `Err(LengthMismatch)` exactly when the total lengths
    /// differ. Never mutates its inputs.
    pub fn align(&self, rhs: &Self) -> (r: Result<Option<Self>, CmpError>)
        requires
            self.wf(),
            rhs.wf(),
        ensures
            (match r {
                Ok(opt) => self.flat().len() == rhs.flat().len() && match opt {
                    None => self.layout() == rhs.layout(),
                    Some(l) => self.layout() != rhs.layout() && l.wf() && l.flat() == self.flat()
                        && l.layout() == rhs.layout() && l.name@ == self.name@,
                },
                Err(e) => e == CmpError::LengthMismatch && self.flat().len() != rhs.flat().len(),
            }),
    {
        if self.len() != rhs.len() {
            return Err(CmpError::LengthMismatch);
        }
        if self.same_layout(rhs) {
            Ok(None)
        } else {
            Ok(Some(self.rechunk_like(rhs)))
        }
    }
}

impl ChunkedArray<String> {
    /// Builds a single-chunk text column from borrowed string slices.
    pub fn new_utf8_from_slice(name: &str, values: &Vec<&str>) -> (r: Self)
        ensures
            r.wf(),
            r.flat() == values.deep_view(),
            r.name@ == name@,
    {
        let mut chunk: Vec<String> = Vec::new();
        let mut i: usize = 0;
        while i < values.len()
            invariant
                i <= values.len(),
                chunk@.len() == i,
                forall|k: int| 0 <= k < i ==> (#[trigger] chunk@[k])@ == values@[k]@,
            decreases values.len() - i,
        {
            chunk.push(values[i].to_owned());
            i = i + 1;
        }
        proof {
            assert(chunk.deep_view() =~= values.deep_view());
        }
        let chunks = vec![chunk];
        let r = ChunkedArray { name: name.to_owned(), chunks };
        proof {
            assert(r.chunk_views() =~= seq![values.deep_view()]);
            r.chunk_views().lemma_flatten_one_element();
        }
        r
    }

    /// Copies the column's elements into one contiguous buffer, in order.
    fn flatten_elems(&self) -> (v: Vec<String>)
        requires
            self.wf(),
        ensures
            v.deep_view() == self.flat(),
    {
        let ghost cv = self.chunk_views();
        let mut v: Vec<String> = Vec::new();
        let mut j: usize = 0;
        proof {
            assert(v.deep_view() =~= cv.take(0).flatten());
        }
        while j < self.chunks.len()
            invariant
                j <= self.chunks.len(),
                cv == self.chunk_views(),
                cv.len() == self.chunks.len(),
                self.wf(),
                v.deep_view() == cv.take(j as int).flatten(),
            decreases self.chunks.len() - j,
        {
            let ghost vpre = v.deep_view();
            let chunk = &self.chunks[j];
            proof {
                assert(cv[j as int] == chunk.deep_view());
                assert(vpre + cv[j as int].take(0) =~= vpre);
            }
            let mut i: usize = 0;
            while i < chunk.len()
                invariant
                    i <= chunk.len(),
                    cv[j as int] == chunk.deep_view(),
                    chunk@.len() == cv[j as int].len(),
                    v.deep_view() == vpre + cv[j as int].take(i as int),
                decreases chunk.len() - i,
            {
                let ghost vprev = v;
                let s = (&chunk[i]).clone();
                v.push(s);
                i = i + 1;
                proof {
                    lemma_deep_view_push(vprev, v);
                    assert(vprev.deep_view().push(chunk@[i - 1]@) =~= vpre + cv[j as int].take(
                        i as int,
                    ));
                }
            }
            proof {
                lemma_flatten_take_succ(cv, j as int);
                assert(cv[j as int].take(chunk@.len() as int) =~= cv[j as int]);
            }
            j = j + 1;
        }
        proof {
            assert(cv.take(cv.len() as int) =~= cv);
        }
        v
    }

    /// Re-materializes the column into chunks matching `bounds`'s boundaries.
    fn rechunk_like(&self, bounds: &Self) -> (r: Self)
        requires
            self.wf(),
            bounds.wf(),
            self.flat().len() == bounds.flat().len(),
        ensures
            r.wf(),
            r.flat() == self.flat(),
            r.layout() == bounds.layout(),
            r.name@ == self.name@,
    {
        let flat_v = self.flatten_elems();
        let ghost bv = bounds.chunk_views();
        let mut out: Vec<Vec<String>> = Vec::new();
        let mut pos: usize = 0;
        let mut j: usize = 0;
        while j < bounds.chunks.len()
            invariant
                j <= bounds.chunks.len(),
                bv == bounds.chunk_views(),
                bv.len() == bounds.chunks.len(),
                bounds.wf(),
                flat_v.deep_view() == self.flat(),
                flat_v@.len() == bv.flatten().len(),
                pos == bv.take(j as int).flatten().len(),
                pos <= flat_v@.len(),
                out.deep_view().len() == j,
                forall|k: int| 0 <= k < j ==> (#[trigger] out.deep_view()[k]).len() == bv[k].len(),
                out.deep_view().flatten() == flat_v.deep_view().take(pos as int),
            decreases bounds.chunks.len() - j,
        {
            let clen = bounds.chunks[j].len();
            proof {
                assert(bv[j as int] == bounds.chunks@[j as int].deep_view());
                assert(bv[j as int].len() == clen);
                lemma_flatten_take_succ(bv, j as int);
                lemma_flatten_take_len(bv, j as int + 1);
            }
            let mut chunk: Vec<String> = Vec::new();
            let mut i: usize = 0;
            proof {
                assert(chunk.deep_view() =~= flat_v.deep_view().subrange(
                    pos as int,
                    pos as int,
                ));
            }
            while i < clen
                invariant
                    i <= clen,
                    pos + clen <= flat_v@.len(),
                    flat_v@.len() <= usize::MAX,
                    flat_v@.len() == flat_v.deep_view().len(),
                    chunk.deep_view() == flat_v.deep_view().subrange(
                        pos as int,
                        pos as int + i as int,
                    ),
                decreases clen - i,
            {
                let ghost cprev = chunk;
                let s = (&flat_v[pos + i]).clone();
                chunk.push(s);
                i = i + 1;
                proof {
                    lemma_deep_view_push(cprev, chunk);
                    assert(cprev.deep_view().push(flat_v@[pos + i - 1]@)
                        =~= flat_v.deep_view().subrange(pos as int, pos as int + i as int));
                }
            }
            let ghost oprev = out;
            let ghost cs = chunk.deep_view();
            out.push(chunk);
            proof {
                lemma_deep_view_push(oprev, out);
                assert(out.deep_view() == oprev.deep_view().push(cs));
                oprev.deep_view().lemma_flatten_push(cs);
                assert(oprev.deep_view().flatten() + cs =~= flat_v.deep_view().take(
                    pos as int + clen as int,
                ));
            }
            pos = pos + clen;
            j = j + 1;
        }
        proof {
            assert(bv.take(bv.len() as int) =~= bv);
            assert(flat_v.deep_view().take(pos as int) =~= flat_v.deep_view());
        }
        let r = ChunkedArray { name: self.name.clone(), chunks: out };
        proof {
            assert(r.layout() =~= bounds.layout());
        }
        r
    }

    /// The chunk aligner for text columns; see [`ChunkedArray::<i64>::align`].
    /// `Ok(None)` when the boundaries already match, `Ok(Some(l))` with this
    /// column re-materialized to `rhs`'s layout otherwise, and
    /// `Err(LengthMismatch)` exactly when the total lengths differ.
    pub fn align(&self, rhs: &Self) -> (r: Result<Option<Self>, CmpError>)
        requires
            self.wf(),
            rhs.wf(),
        ensures
            (match r {
                Ok(opt) => self.flat().len() == rhs.flat().len() && match opt {
                    None => self.layout() == rhs.layout(),
                    Some(l) => self.layout() != rhs.layout() && l.wf() && l.flat() == self.flat()
                        && l.layout() == rhs.layout() && l.name@ == self.name@,
                },
                Err(e) => e == CmpError::LengthMismatch && self.flat().len() != rhs.flat().len(),
            }),
    {
        if self.len() != rhs.len() {
            return Err(CmpError::LengthMismatch);
        }
        if self.same_layout(rhs) {
            Ok(None)
        } else {
            Ok(Some(self.rechunk_like(rhs)))
        }
    }
}

impl ChunkedArray<bool> {
    /// Copies the boolean mask into one contiguous buffer, in logical order.
    pub fn to_vec(&self) -> (v: Vec<bool>)
        requires
            self.wf(),
        ensures
            v@ == self.flat(),
    {
        let ghost cv = self.chunk_views();
        let mut v: Vec<bool> = Vec::new();
        let mut j: usize = 0;
        while j < self.chunks.len()
            invariant
                j <= self.chunks.len(),
                cv == self.chunk_views(),
                cv.len() == self.chunks.len(),
                self.wf(),
                v@ == cv.take(j as int).flatten(),
            decreases self.chunks.len() - j,
        {
            let ghost vpre = v@;
            let chunk = &self.chunks[j];
            proof {
                assert(chunk.deep_view() =~= chunk@);
                assert(cv[j as int] == chunk@);
            }
            let mut i: usize = 0;
            while i < chunk.len()
                invariant
                    i <= chunk.len(),
                    v@ == vpre + chunk@.take(i as int),
                decreases chunk.len() - i,
            {
                v.push(chunk[i]);
                i = i + 1;
                proof {
                    assert(v@ =~= vpre + chunk@.take(i as int));
                }
            }
            proof {
                lemma_flatten_take_succ(cv, j as int);
                assert(chunk@.take(chunk@.len() as int) =~= chunk@);
            }
            j = j + 1;
        }
        proof {
            assert(cv.take(cv.len() as int) =~= cv);
        }
        v
    }
}

/// Pushing one element extends a vector's deep view by that element's view.
pub proof fn lemma_deep_view_push<T: DeepView>(v1: Vec<T>, v2: Vec<T>)
    requires
        v2@.len() == v1@.len() + 1,
        v2@ == v1@.push(v2@[v1@.len() as int]),
    ensures
        v2.deep_view() == v1.deep_view().push(v2@[v1@.len() as int].deep_view()),
{
    assert forall|k: int| 0 <= k < v2@.len() implies v2.deep_view()[k] == v1.deep_view().push(
        v2@[v1@.len() as int].deep_view(),
    )[k] by {
        if k < v1@.len() {
            assert(v2@[k] == v1@[k]);
        }
    }
    assert(v2.deep_view() =~= v1.deep_view().push(v2@[v1@.len() as int].deep_view()));
}

/// A sequence of sequences splits, at any point, into the flattening of its
/// two halves.
pub proof fn lemma_flatten_split<A>(s: Seq<Seq<A>>, j: int)
    requires
        0 <= j <= s.len(),
    ensures
        s.flatten() == s.take(j).flatten() + s.skip(j).flatten(),
{
    lemma_flatten_concat(s.take(j), s.skip(j));
    assert(s.take(j) + s.skip(j) =~= s);
}

/// Flattening one more chunk appends that chunk to the flattening so far.
pub proof fn lemma_flatten_take_succ<A>(s: Seq<Seq<A>>, j: int)
    requires
        0 <= j < s.len(),
    ensures
        s.take(j + 1).flatten() == s.take(j).flatten() + s[j],
{
    assert(s.take(j + 1) =~= s.take(j).push(s[j]));
    s.take(j).lemma_flatten_push(s[j]);
}

/// A prefix of the chunks flattens to no more elements than the whole.
pub proof fn lemma_flatten_take_len<A>(s: Seq<Seq<A>>, j: int)
    requires
        0 <= j <= s.len(),
    ensures
        s.take(j).flatten().len() <= s.flatten().len(),
{
    lemma_flatten_split(s, j);
}

/// Where element `i` of chunk `j` lands in the flattened column.
pub proof fn lemma_flatten_index<A>(s: Seq<Seq<A>>, j: int, i: int)
    requires
        0 <= j < s.len(),
        0 <= i < s[j].len(),
    ensures
        s.take(j).flatten().len() + i < s.flatten().len(),
        s.flatten()[s.take(j).flatten().len() + i] == s[j][i],
{
    lemma_flatten_split(s, j);
    let rest = s.skip(j);
    assert(rest[0] == s[j]);
    assert(rest.flatten() == rest.first() + rest.drop_first().flatten());
    assert(rest.flatten()[i] == s[j][i]);
}

} // verus!
