//! The incremental diff: which documents of a new batch are added, modified,
//! unchanged, and which indexed documents are gone.
use vstd::prelude::*;

use crate::loader::document::{content_hash_of, documents_view, strings_view, Document, DocumentView};
use crate::index::metadata::DocHashes;
use crate::text::str_eq;

verus! {

/// The IDs of a sequence of documents.
pub open spec fn ids_of(docs: Seq<DocumentView>) -> Seq<Seq<char>> {
    docs.map_values(|d: DocumentView| d.id)
}

/// A document whose ID has no recorded hash.
pub open spec fn is_added(existing: Map<Seq<char>, Seq<char>>) -> spec_fn(DocumentView) -> bool {
    |d: DocumentView| !existing.contains_key(d.id)
}

/// A document whose ID has a recorded hash that differs from its content hash.
pub open spec fn is_modified(existing: Map<Seq<char>, Seq<char>>) -> spec_fn(DocumentView) -> bool {
    |d: DocumentView|
        existing.contains_key(d.id) && existing[d.id] != content_hash_of(d.title, d.text)
}

/// A document whose ID has a recorded hash equal to its content hash.
pub open spec fn is_unchanged(existing: Map<Seq<char>, Seq<char>>) -> spec_fn(DocumentView) -> bool {
    |d: DocumentView|
        existing.contains_key(d.id) && existing[d.id] == content_hash_of(d.title, d.text)
}

/// A recorded ID that none of `docs` carries.
pub open spec fn is_removed(docs: Seq<DocumentView>) -> spec_fn(Seq<char>) -> bool {
    |k: Seq<char>| !ids_of(docs).contains(k)
}

/// The classification of a batch of documents against recorded content hashes.
pub struct IncrementalDiff {
    /// Documents whose ID has no recorded hash.
    pub added: Vec<Document>,
    /// Documents whose content hash differs from the recorded one.
    pub modified: Vec<Document>,
    /// Recorded IDs that no new document carries.
    pub removed: Vec<String>,
    /// IDs whose content hash equals the recorded one.
    pub unchanged: Vec<String>,
}

/// Whether some document of `docs` has the ID `id`.
fn has_id(docs: &Vec<Document>, id: &str) -> (r: bool)
    ensures
        r == ids_of(documents_view(docs@)).contains(id@),
{
    let ghost ids = ids_of(documents_view(docs@));
    let mut i: usize = 0;
    while i < docs.len()
        invariant
            i <= docs@.len(),
            ids == ids_of(documents_view(docs@)),
            ids.len() == docs@.len(),
            forall|j: int| 0 <= j < i ==> ids[j] != id@,
        decreases docs@.len() - i,
    {
        assert(ids[i as int] == docs@[i as int].id@);
        if str_eq(docs[i].id.as_str(), id) {
            assert(ids[i as int] == id@);
            return true;
        }
        i = i + 1;
    }
    false
}

impl IncrementalDiff {
    /// Classifies `new_docs` against `existing_hashes` (document ID to content
    /// hash): added when the ID has no hash, unchanged when the hash equals the
    /// document's content hash, modified otherwise; every recorded ID that no
    /// new document carries is removed. Each list keeps the input order.
    pub fn compute(new_docs: Vec<Document>, existing_hashes: &DocHashes) -> (r: Self)
        requires
            existing_hashes.wf(),
        ensures
            ({
                let docs = documents_view(new_docs@);
                let ex = existing_hashes@;
                &&& documents_view(r.added@) == docs.filter(is_added(ex))
                &&& documents_view(r.modified@) == docs.filter(is_modified(ex))
                &&& strings_view(r.unchanged@) == ids_of(docs.filter(is_unchanged(ex)))
                &&& strings_view(r.removed@) == existing_hashes.keys().filter(is_removed(docs))
            }),
    {
        let ghost docs = documents_view(new_docs@);
        let ghost ex = existing_hashes@;
        let mut added: Vec<Document> = Vec::new();
        let mut modified: Vec<Document> = Vec::new();
        let mut unchanged: Vec<String> = Vec::new();
        let mut i: usize = 0;
        while i < new_docs.len()
            invariant
                i <= new_docs@.len(),
                existing_hashes.wf(),
                docs == documents_view(new_docs@),
                ex == existing_hashes@,
                documents_view(added@) == docs.take(i as int).filter(is_added(ex)),
                documents_view(modified@) == docs.take(i as int).filter(is_modified(ex)),
                strings_view(unchanged@) == ids_of(docs.take(i as int).filter(is_unchanged(ex))),
            decreases new_docs@.len() - i,
        {
            let doc = &new_docs[i];
            let ghost d = docs[i as int];
            assert(d == doc@);
            assert(docs.take(i + 1).drop_last() =~= docs.take(i as int));
            assert(docs.take(i + 1).last() == d);
            reveal(Seq::filter);
            let ghost t0 = docs.take(i as int);
            let ghost t1 = docs.take(i + 1);
            assert(t1.filter(is_added(ex)) == if is_added(ex)(d) {
                t0.filter(is_added(ex)).push(d)
            } else {
                t0.filter(is_added(ex))
            });
            assert(t1.filter(is_modified(ex)) == if is_modified(ex)(d) {
                t0.filter(is_modified(ex)).push(d)
            } else {
                t0.filter(is_modified(ex))
            });
            assert(t1.filter(is_unchanged(ex)) == if is_unchanged(ex)(d) {
                t0.filter(is_unchanged(ex)).push(d)
            } else {
                t0.filter(is_unchanged(ex))
            });
            match existing_hashes.get(doc.id.as_str()) {
                Some(existing_hash) => {
                    let current = doc.content_hash();
                    if current == *existing_hash {
                        let ghost before = unchanged@;
                        unchanged.push(doc.id.clone());
                        assert(strings_view(unchanged@) =~= strings_view(before).push(d.id));
                        assert(ids_of(docs.take(i + 1).filter(is_unchanged(ex))) =~= ids_of(
                            docs.take(i as int).filter(is_unchanged(ex)),
                        ).push(d.id));
                    } else {
                        let ghost before = modified@;
                        modified.push(doc.duplicate());
                        assert(documents_view(modified@) =~= documents_view(before).push(d));
                    }
                },
                None => {
                    let ghost before = added@;
                    added.push(doc.duplicate());
                    assert(documents_view(added@) =~= documents_view(before).push(d));
                },
            }
            i = i + 1;
        }
        assert(docs.take(new_docs@.len() as int) =~= docs);
        let ghost keys = existing_hashes.keys();
        let mut removed: Vec<String> = Vec::new();
        let n = existing_hashes.len();
        let mut j: usize = 0;
        while j < n
            invariant
                j <= n,
                n == keys.len(),
                existing_hashes.wf(),
                keys == existing_hashes.keys(),
                docs == documents_view(new_docs@),
                strings_view(removed@) == keys.take(j as int).filter(is_removed(docs)),
            decreases n - j,
        {
            let key = existing_hashes.key_at(j);
            assert(keys.take(j + 1).drop_last() =~= keys.take(j as int));
            assert(keys.take(j + 1).last() == key@);
            reveal(Seq::filter);
            assert(keys.take(j + 1).filter(is_removed(docs)) == if is_removed(docs)(key@) {
                keys.take(j as int).filter(is_removed(docs)).push(key@)
            } else {
                keys.take(j as int).filter(is_removed(docs))
            });
            if !has_id(&new_docs, key.as_str()) {
                let ghost before = removed@;
                removed.push(key.clone());
                assert(strings_view(removed@) =~= strings_view(before).push(key@));
            }
            j = j + 1;
        }
        assert(keys.take(n as int) =~= keys);
        IncrementalDiff { added, modified, removed, unchanged }
    }

    /// Number of added documents.
    pub fn added_count(&self) -> (r: usize)
        ensures
            r == self.added@.len(),
    {
        self.added.len()
    }

    /// Number of modified documents.
    pub fn modified_count(&self) -> (r: usize)
        ensures
            r == self.modified@.len(),
    {
        self.modified.len()
    }

    /// Number of removed documents.
    pub fn removed_count(&self) -> (r: usize)
        ensures
            r == self.removed@.len(),
    {
        self.removed.len()
    }

    /// Number of unchanged documents.
    pub fn unchanged_count(&self) -> (r: usize)
        ensures
            r == self.unchanged@.len(),
    {
        self.unchanged.len()
    }

    /// Number of documents that need a new embedding: the added and the modified.
    pub fn embeddings_needed(&self) -> (r: usize)
        requires
            self.added@.len() + self.modified@.len() <= usize::MAX,
        ensures
            r == self.added@.len() + self.modified@.len(),
    {
        self.added.len() + self.modified.len()
    }

    /// The documents that need a new embedding: the added, then the modified.
    pub fn needs_embedding(&self) -> (r: Vec<&Document>)
        ensures
            r@.len() == self.added@.len() + self.modified@.len(),
            forall|i: int| 0 <= i < self.added@.len() ==> *r@[i] == self.added@[i],
            forall|i: int|
                0 <= i < self.modified@.len() ==> *r@[self.added@.len() + i] == self.modified@[i],
    {
        let mut r: Vec<&Document> = Vec::new();
        let mut i: usize = 0;
        while i < self.added.len()
            invariant
                i <= self.added@.len(),
                r@.len() == i,
                forall|j: int| 0 <= j < i ==> *r@[j] == self.added@[j],
            decreases self.added@.len() - i,
        {
            r.push(&self.added[i]);
            i = i + 1;
        }
        let mut k: usize = 0;
        while k < self.modified.len()
            invariant
                k <= self.modified@.len(),
                r@.len() == self.added@.len() + k,
                forall|j: int| 0 <= j < self.added@.len() ==> *r@[j] == self.added@[j],
                forall|j: int| 0 <= j < k ==> *r@[self.added@.len() + j] == self.modified@[j],
            decreases self.modified@.len() - k,
        {
            r.push(&self.modified[k]);
            k = k + 1;
        }
        r
    }

    /// Whether anything was added, modified or removed.
    pub fn has_changes(&self) -> (r: bool)
        ensures
            r == (self.added@.len() > 0 || self.modified@.len() > 0 || self.removed@.len() > 0),
    {
        !self.added.is_empty() || !self.modified.is_empty() || !self.removed.is_empty()
    }
}

/// An ID is among the IDs of the documents of `docs` that satisfy `p` exactly
/// when some document of `docs` with that ID satisfies `p`.
pub proof fn lemma_ids_of_filter(docs: Seq<DocumentView>, p: spec_fn(DocumentView) -> bool, id: Seq<char>)
    ensures
        ids_of(docs.filter(p)).contains(id) <==> exists|i: int|
            0 <= i < docs.len() && docs[i].id == id && p(docs[i]),
{
    let f = docs.filter(p);
    if ids_of(f).contains(id) {
        let j = choose|j: int| 0 <= j < ids_of(f).len() && ids_of(f)[j] == id;
        docs.lemma_filter_pred(p, j);
        assert(f.contains(f[j]));
        docs.lemma_filter_contains_rev(p, f[j]);
        let i = choose|i: int| 0 <= i < docs.len() && docs[i] == f[j];
        assert(docs[i].id == id && p(docs[i]));
    }
    if exists|i: int| 0 <= i < docs.len() && docs[i].id == id && p(docs[i]) {
        let i = choose|i: int| 0 <= i < docs.len() && docs[i].id == id && p(docs[i]);
        docs.lemma_filter_contains(p, i);
        let j = choose|j: int| 0 <= j < f.len() && f[j] == docs[i];
        assert(ids_of(f)[j] == id);
    }
}

/// Every ID carried by a new document or recorded in `existing` lands in
/// exactly one of the added, modified, unchanged and removed lists, provided
/// the new documents carry distinct IDs.
pub proof fn lemma_diff_partition(docs: Seq<DocumentView>, existing: DocHashes, id: Seq<char>)
    requires
        existing.wf(),
        ids_of(docs).no_duplicates(),
        ids_of(docs).contains(id) || existing@.contains_key(id),
    ensures
        ({
            let ex = existing@;
            let a = ids_of(docs.filter(is_added(ex))).contains(id);
            let m = ids_of(docs.filter(is_modified(ex))).contains(id);
            let u = ids_of(docs.filter(is_unchanged(ex))).contains(id);
            let r = existing.keys().filter(is_removed(docs)).contains(id);
            &&& a || m || u || r
            &&& !(a && m) && !(a && u) && !(a && r)
            &&& !(m && u) && !(m && r) && !(u && r)
        }),
{
    let ex = existing@;
    existing.lemma_keys();
    lemma_ids_of_filter(docs, is_added(ex), id);
    lemma_ids_of_filter(docs, is_modified(ex), id);
    lemma_ids_of_filter(docs, is_unchanged(ex), id);
    let keys = existing.keys();
    let q = is_removed(docs);
    if keys.filter(q).contains(id) {
        let j = choose|j: int| 0 <= j < keys.filter(q).len() && keys.filter(q)[j] == id;
        keys.lemma_filter_pred(q, j);
    }
    if ids_of(docs).contains(id) {
        let i = choose|i: int| 0 <= i < ids_of(docs).len() && ids_of(docs)[i] == id;
        assert forall|k: int| 0 <= k < docs.len() && docs[k].id == id implies k == i by {
            assert(ids_of(docs)[k] == id);
        }
    } else {
        assert(keys.contains(id));
        let j = choose|j: int| 0 <= j < keys.len() && keys[j] == id;
        keys.lemma_filter_contains(q, j);
        assert forall|k: int| 0 <= k < docs.len() implies docs[k].id != id by {
            assert(ids_of(docs)[k] == docs[k].id);
        }
    }
}

proof fn lemma_filter_keeps_distinct_ids(docs: Seq<DocumentView>, p: spec_fn(DocumentView) -> bool)
    requires
        ids_of(docs).no_duplicates(),
    ensures
        ids_of(docs.filter(p)).no_duplicates(),
    decreases docs.len(),
{
    reveal(Seq::filter);
    if docs.len() > 0 {
        let prev = docs.drop_last();
        let last = docs.last();
        assert(ids_of(prev) =~= ids_of(docs).drop_last());
        lemma_filter_keeps_distinct_ids(prev, p);
        if p(last) {
            let f = prev.filter(p);
            assert(docs.filter(p) == f.push(last));
            assert(ids_of(f.push(last)) =~= ids_of(f).push(last.id));
            if ids_of(f).contains(last.id) {
                lemma_ids_of_filter(prev, p, last.id);
                let i = choose|i: int| 0 <= i < prev.len() && prev[i].id == last.id && p(prev[i]);
                assert(ids_of(docs)[i] == ids_of(docs)[docs.len() - 1]);
            }
        }
    }
}

proof fn lemma_filter_keeps_distinct(s: Seq<Seq<char>>, p: spec_fn(Seq<char>) -> bool)
    requires
        s.no_duplicates(),
    ensures
        s.filter(p).no_duplicates(),
        forall|x: Seq<char>| s.filter(p).contains(x) ==> s.contains(x),
    decreases s.len(),
{
    reveal(Seq::filter);
    if s.len() > 0 {
        let prev = s.drop_last();
        lemma_filter_keeps_distinct(prev, p);
        assert forall|x: Seq<char>| prev.contains(x) implies s.contains(x) by {
            let j = choose|j: int| 0 <= j < prev.len() && prev[j] == x;
            assert(s[j] == x);
        }
        if p(s.last()) {
            let f = prev.filter(p);
            if f.contains(s.last()) {
                assert(prev.contains(s.last()));
                let j = choose|j: int| 0 <= j < prev.len() && prev[j] == s.last();
                assert(s[j] == s[s.len() - 1]);
            }
            assert forall|x: Seq<char>| f.push(s.last()).contains(x) implies s.contains(x) by {
                let j = choose|j: int| 0 <= j < f.push(s.last()).len() && f.push(s.last())[j] == x;
                if j == f.len() {
                    assert(s[s.len() - 1] == x);
                }
            }
        }
    }
}

/// With distinct IDs among the new documents, each of the four lists names
/// every ID at most once, and names only IDs of the new documents (added,
/// modified, unchanged) or of the recorded hashes (removed).
pub proof fn lemma_diff_lists_distinct(docs: Seq<DocumentView>, existing: DocHashes)
    requires
        existing.wf(),
        ids_of(docs).no_duplicates(),
    ensures
        ({
            let ex = existing@;
            &&& ids_of(docs.filter(is_added(ex))).no_duplicates()
            &&& ids_of(docs.filter(is_modified(ex))).no_duplicates()
            &&& ids_of(docs.filter(is_unchanged(ex))).no_duplicates()
            &&& existing.keys().filter(is_removed(docs)).no_duplicates()
            &&& forall|x: Seq<char>| #[trigger] ids_of(docs.filter(is_added(ex))).contains(x) ==> ids_of(docs).contains(x)
            &&& forall|x: Seq<char>| #[trigger] ids_of(docs.filter(is_modified(ex))).contains(x) ==> ids_of(docs).contains(x)
            &&& forall|x: Seq<char>| #[trigger] ids_of(docs.filter(is_unchanged(ex))).contains(x) ==> ids_of(docs).contains(x)
            &&& forall|x: Seq<char>| #[trigger] existing.keys().filter(is_removed(docs)).contains(x) ==> ex.contains_key(x)
        }),
{
    let ex = existing@;
    existing.lemma_keys();
    lemma_filter_keeps_distinct_ids(docs, is_added(ex));
    lemma_filter_keeps_distinct_ids(docs, is_modified(ex));
    lemma_filter_keeps_distinct_ids(docs, is_unchanged(ex));
    lemma_filter_keeps_distinct(existing.keys(), is_removed(docs));
    assert forall|x: Seq<char>| #[trigger] ids_of(docs.filter(is_added(ex))).contains(x) implies ids_of(docs).contains(x) by {
        lemma_ids_of_filter(docs, is_added(ex), x);
        let i = choose|i: int| 0 <= i < docs.len() && docs[i].id == x && is_added(ex)(docs[i]);
        assert(ids_of(docs)[i] == x);
    }
    assert forall|x: Seq<char>| #[trigger] ids_of(docs.filter(is_modified(ex))).contains(x) implies ids_of(docs).contains(x) by {
        lemma_ids_of_filter(docs, is_modified(ex), x);
        let i = choose|i: int| 0 <= i < docs.len() && docs[i].id == x && is_modified(ex)(docs[i]);
        assert(ids_of(docs)[i] == x);
    }
    assert forall|x: Seq<char>| #[trigger] ids_of(docs.filter(is_unchanged(ex))).contains(x) implies ids_of(docs).contains(x) by {
        lemma_ids_of_filter(docs, is_unchanged(ex), x);
        let i = choose|i: int| 0 <= i < docs.len() && docs[i].id == x && is_unchanged(ex)(docs[i]);
        assert(ids_of(docs)[i] == x);
    }
}

} // verus!
