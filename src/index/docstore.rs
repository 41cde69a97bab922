//! The document store: every document of the corpus, keyed by ID.
use vstd::prelude::*;

use crate::loader::document::{documents_view, lemma_has_tag_view, strings_view, Document, DocumentView};
use crate::text::{chars_lt, chars_of, lemma_chars_lt_total, lemma_chars_lt_trans, less_chars, str_eq};

verus! {

/// The IDs of a sequence of documents.
pub open spec fn doc_ids_of(docs: Seq<DocumentView>) -> Seq<Seq<char>> {
    docs.map_values(|d: DocumentView| d.id)
}

/// Some document of `docs` carries `tag`.
pub open spec fn some_doc_tagged(docs: Seq<DocumentView>, tag: Seq<char>) -> bool {
    exists|x: int| 0 <= x < docs.len() && #[trigger] docs[x].tags.contains(tag)
}

/// `d` carries `tag`.
pub open spec fn tagged(tag: Seq<char>) -> spec_fn(DocumentView) -> bool {
    |d: DocumentView| d.tags.contains(tag)
}

/// The documents of a store, in the order they were first added; IDs are
/// distinct.
pub struct Docstore {
    documents: Vec<Document>,
}

impl Docstore {
    /// The documents.
    pub closed spec fn docs(&self) -> Seq<DocumentView> {
        documents_view(self.documents@)
    }

    /// No two documents share an ID.
    pub closed spec fn wf(&self) -> bool {
        doc_ids_of(self.docs()).no_duplicates()
    }

    /// A stored document is the only one with its ID.
    pub proof fn lemma_unique_id(&self, a: DocumentView, x: int)
        requires
            self.wf(),
            self.docs().contains(a),
            0 <= x < self.docs().len(),
            self.docs()[x].id == a.id,
        ensures
            self.docs()[x] == a,
    {
        let y = choose|y: int| 0 <= y < self.docs().len() && self.docs()[y] == a;
        assert(doc_ids_of(self.docs())[x] == doc_ids_of(self.docs())[y]);
    }

    /// An empty store.
    pub fn new() -> (r: Self)
        ensures
            r.wf(),
            r.docs() == Seq::<DocumentView>::empty(),
    {
        let r = Docstore { documents: Vec::new() };
        assert(r.docs() =~= Seq::<DocumentView>::empty());
        r
    }

    fn find(&self, id: &str) -> (r: Option<usize>)
        ensures
            match r {
                Some(i) => i < self.docs().len() && self.docs()[i as int].id == id@
                    && doc_ids_of(self.docs()).contains(id@),
                None => !doc_ids_of(self.docs()).contains(id@),
            },
    {
        let mut i: usize = 0;
        while i < self.documents.len()
            invariant
                i <= self.documents@.len(),
                forall|j: int| 0 <= j < i ==> self.docs()[j].id != id@,
            decreases self.documents@.len() - i,
        {
            if str_eq(self.documents[i].id.as_str(), id) {
                assert(doc_ids_of(self.docs())[i as int] == id@);
                return Some(i);
            }
            i = i + 1;
        }
        proof {
            if doc_ids_of(self.docs()).contains(id@) {
                let j = choose|j: int| 0 <= j < self.docs().len() && doc_ids_of(self.docs())[j] == id@;
                assert(self.docs()[j].id == id@);
            }
        }
        None
    }

    /// Adds `doc`, replacing the document of the same ID if there is one.
    pub fn add(&mut self, doc: Document)
        requires
            old(self).wf(),
        ensures
            final(self).wf(),
            doc_ids_of(old(self).docs()).contains(doc.id@) ==> exists|i: int|
                0 <= i < old(self).docs().len() && old(self).docs()[i].id == doc.id@ && final(self).docs() == old(self).docs().update(i, doc@),
            !doc_ids_of(old(self).docs()).contains(doc.id@) ==> final(self).docs() == old(self).docs().push(doc@),
    {
        let ghost d = doc@;
        match self.find(doc.id.as_str()) {
            Some(i) => {
                self.documents.set(i, doc);
                proof {
                    assert(self.docs() =~= old(self).docs().update(i as int, d));
                    assert(doc_ids_of(self.docs()) =~= doc_ids_of(old(self).docs()));
                }
            },
            None => {
                self.documents.push(doc);
                proof {
                    assert(self.docs() =~= old(self).docs().push(d));
                    assert(doc_ids_of(self.docs()) =~= doc_ids_of(old(self).docs()).push(d.id));
                }
            },
        }
    }

    /// The document with ID `doc_id`, if any.
    pub fn get(&self, doc_id: &str) -> (r: Option<&Document>)
        ensures
            match r {
                Some(d) => self.docs().contains(d@) && d@.id == doc_id@,
                None => !doc_ids_of(self.docs()).contains(doc_id@),
            },
    {
        match self.find(doc_id) {
            Some(i) => {
                assert(self.docs()[i as int] == self.documents@[i as int]@);
                Some(&self.documents[i])
            },
            None => None,
        }
    }

    /// Whether a document has ID `doc_id`.
    pub fn contains(&self, doc_id: &str) -> (r: bool)
        ensures
            r == doc_ids_of(self.docs()).contains(doc_id@),
    {
        self.find(doc_id).is_some()
    }

    /// The IDs of all documents.
    pub fn doc_ids(&self) -> (r: Vec<&String>)
        ensures
            r@.len() == self.docs().len(),
            forall|i: int| 0 <= i < r@.len() ==> r@[i]@ == #[trigger] self.docs()[i].id,
    {
        let mut r: Vec<&String> = Vec::new();
        let mut i: usize = 0;
        while i < self.documents.len()
            invariant
                i <= self.documents@.len(),
                r@.len() == i,
                forall|j: int| 0 <= j < i ==> r@[j]@ == #[trigger] self.docs()[j].id,
            decreases self.documents@.len() - i,
        {
            assert(doc_ids_of(self.docs())[i as int] == self.documents@[i as int].id@);
            r.push(&self.documents[i].id);
            i = i + 1;
        }
        r
    }

    /// All documents.
    pub fn documents(&self) -> (r: &Vec<Document>)
        ensures
            documents_view(r@) == self.docs(),
    {
        &self.documents
    }

    /// The documents that carry `tag`, in store order.
    pub fn get_by_tag(&self, tag: &str) -> (r: Vec<&Document>)
        ensures
            r@.map_values(|d: &Document| d@) == self.docs().filter(tagged(tag@)),
    {
        let ghost ds = self.docs();
        let mut r: Vec<&Document> = Vec::new();
        let mut i: usize = 0;
        while i < self.documents.len()
            invariant
                i <= self.documents@.len(),
                ds == self.docs(),
                r@.map_values(|d: &Document| d@) == ds.take(i as int).filter(tagged(tag@)),
            decreases self.documents@.len() - i,
        {
            let d = &self.documents[i];
            let ghost before = r@;
            proof {
                reveal(Seq::filter);
                assert(ds.take(i + 1).drop_last() =~= ds.take(i as int));
                assert(ds.take(i + 1).last() == d@);
                lemma_has_tag_view(d.metadata.tags@, tag@);
            }
            if d.has_tag(tag) {
                r.push(d);
                assert(r@.map_values(|d: &Document| d@) =~= before.map_values(|d: &Document| d@).push(ds[i as int]));
            }
            i = i + 1;
        }
        assert(ds.take(i as int) =~= ds);
        r
    }

    /// Removes the document with ID `doc_id`; no effect when there is none.
    pub fn remove(&mut self, doc_id: &str)
        requires
            old(self).wf(),
        ensures
            final(self).wf(),
            doc_ids_of(old(self).docs()).contains(doc_id@) ==> exists|i: int|
                0 <= i < old(self).docs().len() && old(self).docs()[i].id == doc_id@ && final(self).docs() == old(self).docs().remove(i),
            !doc_ids_of(old(self).docs()).contains(doc_id@) ==> final(self).docs() == old(self).docs(),
    {
        match self.find(doc_id) {
            Some(i) => {
                self.documents.remove(i);
                proof {
                    let o = doc_ids_of(old(self).docs());
                    assert(self.docs() =~= old(self).docs().remove(i as int));
                    assert(doc_ids_of(self.docs()) =~= o.remove(i as int));
                    assert forall|a: int, b: int| 0 <= a < b < o.len() - 1 implies o.remove(i as int)[a] != o.remove(i as int)[b] by {
                        let oa = if a < i { a } else { a + 1 };
                        let ob = if b < i { b } else { b + 1 };
                        assert(o[oa] != o[ob]);
                    }
                }
            },
            None => {},
        }
    }

    /// Removes every document whose ID is in `doc_ids`.
    pub fn remove_batch(&mut self, doc_ids: &[String])
        requires
            old(self).wf(),
        ensures
            final(self).wf(),
            forall|d: DocumentView| #[trigger] final(self).docs().contains(d) <==> (old(self).docs().contains(d)
                && !strings_view(doc_ids@).contains(d.id)),
    {
        let ghost ids = strings_view(doc_ids@);
        let mut k: usize = 0;
        while k < doc_ids.len()
            invariant
                k <= doc_ids@.len(),
                ids == strings_view(doc_ids@),
                self.wf(),
                forall|d: DocumentView| #[trigger] self.docs().contains(d) <==> (old(self).docs().contains(d)
                    && !ids.take(k as int).contains(d.id)),
            decreases doc_ids@.len() - k,
        {
            let ghost before = self.docs();
            self.remove(doc_ids[k].as_str());
            proof {
                let id = ids[k as int];
                assert(ids.take(k + 1) =~= ids.take(k as int).push(id));
                assert forall|d: DocumentView| #[trigger] self.docs().contains(d) <==> (old(self).docs().contains(d)
                    && !ids.take(k + 1).contains(d.id)) by {
                    assert(ids.take(k + 1).contains(d.id) <==> (ids.take(k as int).contains(d.id) || d.id == id)) by {
                        if ids.take(k + 1).contains(d.id) {
                            let z = choose|z: int| 0 <= z < k + 1 && #[trigger] ids.take(k + 1)[z] == d.id;
                            if z < k {
                                assert(ids.take(k as int)[z] == d.id);
                            }
                        }
                        if ids.take(k as int).contains(d.id) {
                            let z = choose|z: int| 0 <= z < k && #[trigger] ids.take(k as int)[z] == d.id;
                            assert(ids.take(k + 1)[z] == d.id);
                        }
                        if d.id == id {
                            assert(ids.take(k + 1)[k as int] == d.id);
                        }
                    }
                    if doc_ids_of(before).contains(id) {
                        let i = choose|i: int| 0 <= i < before.len() && before[i].id == id && self.docs() == before.remove(i);
                        if self.docs().contains(d) {
                            let x = choose|x: int| 0 <= x < self.docs().len() && self.docs()[x] == d;
                            let y = if x < i { x } else { x + 1 };
                            assert(before[y] == d);
                            assert(doc_ids_of(before)[y] != doc_ids_of(before)[i]);
                        }
                        if before.contains(d) && d.id != id {
                            let y = choose|y: int| 0 <= y < before.len() && before[y] == d;
                            assert(y != i);
                            let x = if y < i { y } else { y - 1 };
                            assert(self.docs()[x] == d);
                        }
                    } else {
                        if before.contains(d) && d.id == id {
                            let y = choose|y: int| 0 <= y < before.len() && before[y] == d;
                            assert(doc_ids_of(before)[y] == id);
                        }
                    }
                }
            }
            k = k + 1;
        }
        assert(ids.take(doc_ids@.len() as int) =~= ids);
    }

    /// The positions of the documents, latest date first; documents of equal
    /// date keep store order.
    fn order_by_date(&self) -> (r: Vec<usize>)
        ensures
            r@.len() == self.docs().len(),
            r@.no_duplicates(),
            forall|i: int| 0 <= i < r@.len() ==> r@[i] < self.docs().len(),
            forall|x: usize| x < self.docs().len() ==> #[trigger] r@.contains(x),
            forall|a: int, b: int|
                0 <= a < b < r@.len() ==> self.docs()[r@[a] as int].date.millis >= self.docs()[r@[b] as int].date.millis,
    {
        let ghost ds = self.docs();
        let n = self.documents.len();
        let mut out: Vec<usize> = Vec::new();
        let mut i: usize = 0;
        while i < n
            invariant
                n == ds.len(),
                ds == self.docs(),
                i <= n,
                out@.len() == i,
                out@.no_duplicates(),
                forall|x: int| 0 <= x < out@.len() ==> out@[x] < i,
                forall|x: usize| x < i ==> #[trigger] out@.contains(x),
                forall|a: int, b: int|
                    0 <= a < b < out@.len() ==> ds[out@[a] as int].date.millis >= ds[out@[b] as int].date.millis,
            decreases n - i,
        {
            let key = self.documents[i].metadata.date.millis;
            assert(key == ds[i as int].date.millis);
            let mut p: usize = 0;
            while p < out.len() && self.documents[out[p]].metadata.date.millis >= key
                invariant
                    p <= out@.len(),
                    n == ds.len(),
                    ds == self.docs(),
                    forall|x: int| 0 <= x < out@.len() ==> out@[x] < i,
                    i < n,
                    key == ds[i as int].date.millis,
                    forall|q: int| 0 <= q < p ==> ds[out@[q] as int].date.millis >= key,
                decreases out@.len() - p,
            {
                assert(self.documents@[out@[p as int] as int]@ == ds[out@[p as int] as int]);
                p = p + 1;
            }
            proof {
                if p < out@.len() {
                    assert(self.documents@[out@[p as int] as int]@ == ds[out@[p as int] as int]);
                }
            }
            let ghost old_out = out@;
            out.insert(p, i);
            proof {
                let o = out@;
                assert(o == old_out.insert(p as int, i));
                assert forall|a: int, b: int| 0 <= a < b < o.len() implies ds[o[a] as int].date.millis >= ds[o[b] as int].date.millis by {
                    if b < p {
                        assert(o[a] == old_out[a] && o[b] == old_out[b]);
                    } else if b == p {
                        assert(o[a] == old_out[a]);
                    } else if a == p {
                        assert(o[b] == old_out[b - 1]);
                        assert(ds[old_out[p as int] as int].date.millis < key);
                        if b - 1 > p {
                            assert(ds[old_out[p as int] as int].date.millis >= ds[old_out[b - 1] as int].date.millis);
                        }
                    } else if a < p {
                        assert(o[a] == old_out[a] && o[b] == old_out[b - 1]);
                    } else {
                        assert(o[a] == old_out[a - 1] && o[b] == old_out[b - 1]);
                    }
                }
                assert forall|x: int| 0 <= x < o.len() implies o[x] < i + 1 by {
                    if x < p {
                        assert(o[x] == old_out[x]);
                    } else if x > p {
                        assert(o[x] == old_out[x - 1]);
                    }
                }
                assert forall|x: usize| x < i + 1 implies #[trigger] o.contains(x) by {
                    if x == i {
                        assert(o[p as int] == i);
                    } else {
                        assert(old_out.contains(x));
                        let y = choose|y: int| 0 <= y < old_out.len() && old_out[y] == x;
                        if y < p {
                            assert(o[y] == x);
                        } else {
                            assert(o[y + 1] == x);
                        }
                    }
                }
                assert forall|a: int, b: int| 0 <= a < b < o.len() implies o[a] != o[b] by {
                    if a != p && b != p {
                        let ya = if a < p { a } else { a - 1 };
                        let yb = if b < p { b } else { b - 1 };
                        assert(o[a] == old_out[ya] && o[b] == old_out[yb]);
                    } else {
                        let x = if a == p { b } else { a };
                        let y = if x < p { x } else { x - 1 };
                        assert(o[x] == old_out[y]);
                    }
                }
            }
            i = i + 1;
        }
        out
    }

    /// The `limit` latest documents (all of them when there are fewer),
    /// latest first: every document left out is no later than every one
    /// returned.
    pub fn get_recent(&self, limit: usize) -> (r: Vec<&Document>)
        requires
            self.wf(),
        ensures
            r@.len() == if limit < self.docs().len() {
                limit as int
            } else {
                self.docs().len() as int
            },
            forall|i: int| 0 <= i < r@.len() ==> self.docs().contains(#[trigger] r@[i]@),
            forall|a: int, b: int| 0 <= a < b < r@.len() ==> (#[trigger] r@[a]@).id != (#[trigger] r@[b]@).id,
            forall|a: int, b: int|
                0 <= a < b < r@.len() ==> (#[trigger] r@[a]@).date.millis >= (#[trigger] r@[b]@).date.millis,
            forall|x: int, i: int|
                0 <= x < self.docs().len() && 0 <= i < r@.len() && !(exists|j: int| 0 <= j < r@.len() && r@[j]@ == self.docs()[x])
                    ==> (#[trigger] self.docs()[x]).date.millis <= (#[trigger] r@[i]@).date.millis,
    {
        let order = self.order_by_date();
        let ghost ds = self.docs();
        let n = order.len();
        let k = if limit < n {
            limit
        } else {
            n
        };
        let mut r: Vec<&Document> = Vec::new();
        let mut j: usize = 0;
        while j < k
            invariant
                k <= n,
                n == order@.len(),
                n == ds.len(),
                ds == self.docs(),
                j <= k,
                r@.len() == j,
                forall|x: int| 0 <= x < order@.len() ==> order@[x] < ds.len(),
                forall|x: int| 0 <= x < j ==> (#[trigger] r@[x])@ == ds[order@[x] as int],
            decreases k - j,
        {
            let idx = order[j];
            assert(self.documents@[idx as int]@ == ds[idx as int]);
            r.push(&self.documents[idx]);
            j = j + 1;
        }
        proof {
            assert forall|i: int| 0 <= i < r@.len() implies ds.contains(#[trigger] r@[i]@) by {
                assert(ds[order@[i] as int] == r@[i]@);
            }
            assert forall|a: int, b: int| 0 <= a < b < r@.len() implies (#[trigger] r@[a]@).id != (#[trigger] r@[b]@).id by {
                assert(order@[a] != order@[b]);
                assert(doc_ids_of(ds)[order@[a] as int] != doc_ids_of(ds)[order@[b] as int]);
            }
            assert forall|x: int, i: int|
                0 <= x < ds.len() && 0 <= i < r@.len() && !(exists|j: int| 0 <= j < r@.len() && r@[j]@ == ds[x])
                    implies (#[trigger] ds[x]).date.millis <= (#[trigger] r@[i]@).date.millis by {
                assert(order@.contains(x as usize));
                let p = choose|p: int| 0 <= p < order@.len() && order@[p] == x as usize;
                if p < k {
                    assert(r@[p]@ == ds[x]);
                } else {
                    assert(ds[order@[i] as int].date.millis >= ds[order@[p] as int].date.millis);
                }
            }
        }
        r
    }

    /// Every tag of every document, once each, in lexicographic order.
    pub fn get_all_tags(&self) -> (r: Vec<String>)
        ensures
            forall|a: int, b: int| 0 <= a < b < r@.len() ==> chars_lt(#[trigger] r@[a]@, #[trigger] r@[b]@),
            forall|k: int| 0 <= k < r@.len() ==> some_doc_tagged(self.docs(), (#[trigger] r@[k])@),
            forall|x: int, t: Seq<char>| 0 <= x < self.docs().len() && #[trigger] self.docs()[x].tags.contains(t) ==> strings_view(r@).contains(t),
    {
        let ghost ds = self.docs();
        let mut out: Vec<String> = Vec::new();
        let mut x: usize = 0;
        while x < self.documents.len()
            invariant
                x <= ds.len(),
                ds == self.docs(),
                forall|a: int, b: int| 0 <= a < b < out@.len() ==> chars_lt(#[trigger] out@[a]@, #[trigger] out@[b]@),
                forall|k: int| 0 <= k < out@.len() ==> some_doc_tagged(ds, (#[trigger] out@[k])@),
                forall|z: int, t: Seq<char>| 0 <= z < x && #[trigger] ds[z].tags.contains(t) ==> strings_view(out@).contains(t),
            decreases ds.len() - x,
        {
            let tags = &self.documents[x].metadata.tags;
            assert(ds[x as int].tags == strings_view(tags@));
            let mut y: usize = 0;
            while y < tags.len()
                invariant
                    x < ds.len(),
                    ds == self.docs(),
                    y <= tags@.len(),
                    ds[x as int].tags == strings_view(tags@),
                    forall|a: int, b: int| 0 <= a < b < out@.len() ==> chars_lt(#[trigger] out@[a]@, #[trigger] out@[b]@),
                    forall|k: int| 0 <= k < out@.len() ==> some_doc_tagged(ds, (#[trigger] out@[k])@),
                    forall|z: int, t: Seq<char>| 0 <= z < x && #[trigger] ds[z].tags.contains(t) ==> strings_view(out@).contains(t),
                    forall|w: int| 0 <= w < y ==> strings_view(out@).contains(#[trigger] strings_view(tags@)[w]),
                decreases tags@.len() - y,
            {
                assert(ds[x as int].tags[y as int] == tags@[y as int]@);
                insert_sorted(&mut out, &tags[y]);
                proof {
                    assert(ds[x as int].tags.contains(tags@[y as int]@));
                    assert(some_doc_tagged(ds, tags@[y as int]@));
                }
                y = y + 1;
            }
            proof {
                assert forall|z: int, t: Seq<char>| 0 <= z < x + 1 && #[trigger] ds[z].tags.contains(t) implies strings_view(out@).contains(t) by {
                    if z == x {
                        let w = choose|w: int| 0 <= w < ds[z].tags.len() && ds[z].tags[w] == t;
                        assert(strings_view(tags@)[w] == t);
                    }
                }
            }
            x = x + 1;
        }
        out
    }

    /// Number of documents.
    pub fn len(&self) -> (r: usize)
        ensures
            r == self.docs().len(),
    {
        self.documents.len()
    }

    /// Whether the store is empty.
    pub fn is_empty(&self) -> (r: bool)
        ensures
            r == (self.docs().len() == 0),
    {
        self.documents.len() == 0
    }
}

/// Inserts `t` into the strictly ascending list `out`, unless it is there.
fn insert_sorted(out: &mut Vec<String>, t: &String)
    requires
        forall|a: int, b: int| 0 <= a < b < old(out)@.len() ==> chars_lt(#[trigger] old(out)@[a]@, #[trigger] old(out)@[b]@),
    ensures
        forall|a: int, b: int| 0 <= a < b < final(out)@.len() ==> chars_lt(#[trigger] final(out)@[a]@, #[trigger] final(out)@[b]@),
        forall|s: Seq<char>| strings_view(final(out)@).contains(s) <==> (strings_view(old(out)@).contains(s) || s == t@),
        forall|k: int| 0 <= k < final(out)@.len() ==> (#[trigger] final(out)@[k])@ == t@ || strings_view(old(out)@).contains(final(out)@[k]@),
{
    let tc = chars_of(t.as_str());
    let mut p: usize = 0;
    while p < out.len() && less_chars(&chars_of(out[p].as_str()), &tc)
        invariant
            p <= out@.len(),
            tc@ == t@,
            forall|q: int| 0 <= q < p ==> chars_lt(#[trigger] out@[q]@, t@),
        decreases out@.len() - p,
    {
        p = p + 1;
    }
    let ghost o = out@;
    proof {
        assert forall|q: int| 0 <= q < p implies o[q]@ != t@ by {
            lemma_chars_lt_total(o[q]@, o[q]@);
        }
    }
    if p < out.len() && str_eq(out[p].as_str(), t.as_str()) {
        proof {
            assert forall|s: Seq<char>| strings_view(out@).contains(s) <==> (strings_view(o).contains(s) || s == t@) by {
                if s == t@ {
                    assert(strings_view(o)[p as int] == s);
                }
            }
            assert forall|k: int| 0 <= k < out@.len() implies (#[trigger] out@[k])@ == t@ || strings_view(o).contains(out@[k]@) by {
                assert(strings_view(o)[k] == out@[k]@);
            }
        }
        return;
    }
    proof {
        if p < o.len() {
            lemma_chars_lt_total(t@, o[p as int]@);
        }
    }
    out.insert(p, t.clone());
    proof {
        let n = out@;
        assert(n == o.insert(p as int, *t));
        assert forall|a: int, b: int| 0 <= a < b < n.len() implies chars_lt(#[trigger] n[a]@, #[trigger] n[b]@) by {
            if b < p {
                assert(n[a] == o[a] && n[b] == o[b]);
            } else if b == p {
                assert(n[a] == o[a]);
            } else if a == p {
                assert(n[b] == o[b - 1]);
                if b - 1 > p {
                    lemma_chars_lt_trans(t@, o[p as int]@, o[b - 1]@);
                }
            } else if a < p {
                assert(n[a] == o[a] && n[b] == o[b - 1]);
                if a < p {
                    if b - 1 == p {
                        lemma_chars_lt_trans(o[a]@, t@, o[p as int]@);
                    } else {
                        lemma_chars_lt_trans(o[a]@, t@, o[p as int]@);
                        lemma_chars_lt_trans(o[a]@, o[p as int]@, o[b - 1]@);
                    }
                }
            } else {
                assert(n[a] == o[a - 1] && n[b] == o[b - 1]);
            }
        }
        assert forall|s: Seq<char>| strings_view(n).contains(s) <==> (strings_view(o).contains(s) || s == t@) by {
            if strings_view(n).contains(s) {
                let k = choose|k: int| 0 <= k < n.len() && strings_view(n)[k] == s;
                if k < p {
                    assert(strings_view(o)[k] == s);
                } else if k > p {
                    assert(strings_view(o)[k - 1] == s);
                }
            }
            if strings_view(o).contains(s) {
                let k = choose|k: int| 0 <= k < o.len() && strings_view(o)[k] == s;
                if k < p {
                    assert(strings_view(n)[k] == s);
                } else {
                    assert(strings_view(n)[k + 1] == s);
                }
            }
            if s == t@ {
                assert(strings_view(n)[p as int] == s);
            }
        }
        assert forall|k: int| 0 <= k < n.len() implies (#[trigger] n[k])@ == t@ || strings_view(o).contains(n[k]@) by {
            if k < p {
                assert(strings_view(o)[k] == n[k]@);
            } else if k > p {
                assert(strings_view(o)[k - 1] == n[k]@);
            }
        }
    }
}

} // verus!
