//! The bookkeeping of a dense-vector index: document IDs and their vectors
//! kept in step, and the dimension. The element type is left open; the
//! similarity search over it is the caller's.
use vstd::prelude::*;

use crate::loader::document::strings_view;
use crate::text::str_eq;

verus! {

/// Vectors keyed by document ID, in insertion order.
pub struct VectorIndex<E> {
    doc_ids: Vec<String>,
    vectors: Vec<Vec<E>>,
    dimension: usize,
}

/// The first position at or after `from` whose ID is `id`; the length when
/// there is none.
pub open spec fn first_with<E>(p: Seq<(Seq<char>, Seq<E>)>, id: Seq<char>, from: int) -> int
    decreases p.len() - from,
{
    if from < 0 || from >= p.len() {
        p.len() as int
    } else if p[from].0 == id {
        from
    } else {
        first_with(p, id, from + 1)
    }
}

/// `p` without its first entry for `id`, if any.
pub open spec fn without<E>(p: Seq<(Seq<char>, Seq<E>)>, id: Seq<char>) -> Seq<(Seq<char>, Seq<E>)> {
    let i = first_with(p, id, 0);
    if i < p.len() {
        p.remove(i)
    } else {
        p
    }
}

/// `p` after removing, in turn, the first entry of each of `ids`.
pub open spec fn without_all<E>(p: Seq<(Seq<char>, Seq<E>)>, ids: Seq<Seq<char>>) -> Seq<(Seq<char>, Seq<E>)>
    decreases ids.len(),
{
    if ids.len() == 0 {
        p
    } else {
        without(without_all(p, ids.drop_last()), ids.last())
    }
}

impl<E> VectorIndex<E> {
    /// The entries: each ID with its vector.
    pub closed spec fn entries(&self) -> Seq<(Seq<char>, Seq<E>)> {
        Seq::new(self.doc_ids@.len(), |i: int| (self.doc_ids@[i]@, self.vectors@[i]@))
    }

    /// The dimension; 0 while no vector has fixed it.
    pub closed spec fn dim(&self) -> usize {
        self.dimension
    }

    /// IDs and vectors are in step.
    pub closed spec fn wf(&self) -> bool {
        self.doc_ids@.len() == self.vectors@.len()
    }

    /// An empty index of this dimension (0: taken from the first vector).
    pub fn new(dimension: usize) -> (r: Self)
        ensures
            r.wf(),
            r.entries() == Seq::<(Seq<char>, Seq<E>)>::empty(),
            r.dim() == dimension,
    {
        let r = VectorIndex { doc_ids: Vec::new(), vectors: Vec::new(), dimension };
        assert(r.entries() =~= Seq::<(Seq<char>, Seq<E>)>::empty());
        r
    }

    /// Appends `vector` for `doc_id`; an index without a dimension takes the
    /// vector's length as its dimension.
    pub fn add(&mut self, doc_id: String, vector: Vec<E>)
        requires
            old(self).wf(),
        ensures
            final(self).wf(),
            final(self).entries() == old(self).entries().push((doc_id@, vector@)),
            final(self).dim() == if old(self).dim() == 0 {
                vector@.len() as usize
            } else {
                old(self).dim()
            },
    {
        if self.dimension == 0 {
            self.dimension = vector.len();
        }
        let ghost e = (doc_id@, vector@);
        self.doc_ids.push(doc_id);
        self.vectors.push(vector);
        assert(self.entries() =~= old(self).entries().push(e));
    }

    /// Removes the first entry of `doc_id`, its ID and vector together; no
    /// effect when there is none.
    pub fn remove(&mut self, doc_id: &str)
        requires
            old(self).wf(),
        ensures
            final(self).wf(),
            final(self).entries() == without(old(self).entries(), doc_id@),
            final(self).dim() == old(self).dim(),
    {
        let ghost p = self.entries();
        let mut i: usize = 0;
        while i < self.doc_ids.len()
            invariant
                self.wf(),
                *self == *old(self),
                p == self.entries(),
                i <= self.doc_ids@.len(),
                first_with(p, doc_id@, 0) == first_with(p, doc_id@, i as int),
            decreases self.doc_ids@.len() - i,
        {
            if str_eq(self.doc_ids[i].as_str(), doc_id) {
                self.doc_ids.remove(i);
                self.vectors.remove(i);
                assert(self.entries() =~= p.remove(i as int));
                return;
            }
            i = i + 1;
        }
    }

    /// Removes, in turn, the first entry of each of `doc_ids`.
    pub fn remove_batch(&mut self, doc_ids: &[String])
        requires
            old(self).wf(),
        ensures
            final(self).wf(),
            final(self).entries() == without_all(old(self).entries(), strings_view(doc_ids@)),
            final(self).dim() == old(self).dim(),
    {
        let ghost ids = strings_view(doc_ids@);
        let mut k: usize = 0;
        while k < doc_ids.len()
            invariant
                self.wf(),
                k <= doc_ids@.len(),
                ids == strings_view(doc_ids@),
                self.dim() == old(self).dim(),
                self.entries() == without_all(old(self).entries(), ids.take(k as int)),
            decreases doc_ids@.len() - k,
        {
            assert(ids.take(k + 1).drop_last() =~= ids.take(k as int));
            assert(ids.take(k + 1).last() == doc_ids@[k as int]@);
            self.remove(doc_ids[k].as_str());
            k = k + 1;
        }
        assert(ids.take(doc_ids@.len() as int) =~= ids);
    }

    /// Number of entries.
    pub fn len(&self) -> (r: usize)
        requires
            self.wf(),
        ensures
            r == self.entries().len(),
    {
        self.doc_ids.len()
    }

    /// Whether the index holds no entry.
    pub fn is_empty(&self) -> (r: bool)
        requires
            self.wf(),
        ensures
            r == (self.entries().len() == 0),
    {
        self.doc_ids.len() == 0
    }

    /// The dimension.
    pub fn dimension(&self) -> (r: usize)
        ensures
            r == self.dim(),
    {
        self.dimension
    }

    /// The IDs, in order.
    pub fn doc_ids(&self) -> (r: &Vec<String>)
        requires
            self.wf(),
        ensures
            r@.len() == self.entries().len(),
            forall|i: int| 0 <= i < r@.len() ==> (#[trigger] r@[i])@ == self.entries()[i].0,
    {
        &self.doc_ids
    }

    /// The vectors, in order.
    pub fn vectors(&self) -> (r: &Vec<Vec<E>>)
        requires
            self.wf(),
        ensures
            r@.len() == self.entries().len(),
            forall|i: int| 0 <= i < r@.len() ==> (#[trigger] r@[i])@ == self.entries()[i].1,
    {
        &self.vectors
    }
}

} // verus!
