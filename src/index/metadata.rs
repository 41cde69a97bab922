//! Index metadata: schema version, counts and the ledger of content hashes
//! that incremental builds compare against.
use vstd::prelude::*;

use crate::index::version::{version_trusted, version_trusted_exec};
use crate::text::str_eq;

verus! {

/// The schema version written by this library; from it on, the hash ledger
/// can be trusted for incremental builds.
pub const CURRENT_SCHEMA_VERSION: &'static str = "2.0";

/// Relies on `chrono::Utc::now` and `DateTime::to_rfc3339`: the current time as
/// an RFC 3339 string. Nothing is assumed of the value.
#[verifier::external_body]
fn now_rfc3339() -> (r: String) {
    chrono::Utc::now().to_rfc3339()
}

/// A map from document ID to content hash, keeping insertion order.
pub struct DocHashes {
    entries: Vec<(String, String)>,
    model: Ghost<Map<Seq<char>, Seq<char>>>,
}

impl View for DocHashes {
    type V = Map<Seq<char>, Seq<char>>;

    closed spec fn view(&self) -> Map<Seq<char>, Seq<char>> {
        self.model@
    }
}

impl DocHashes {
    /// The entries hold distinct keys and agree with the map they stand for.
    pub closed spec fn wf(&self) -> bool {
        &&& forall|i: int, j: int|
            0 <= i < j < self.entries@.len() ==> self.entries@[i].0@ != self.entries@[j].0@
        &&& forall|i: int|
            0 <= i < self.entries@.len() ==> #[trigger] self.model@.contains_key(
                self.entries@[i].0@,
            ) && self.model@[self.entries@[i].0@] == self.entries@[i].1@
        &&& forall|k: Seq<char>|
            #[trigger] self.model@.contains_key(k) ==> exists|i: int|
                0 <= i < self.entries@.len() && self.entries@[i].0@ == k
        &&& self.model@.dom().finite()
        &&& self.model@.dom().len() == self.entries@.len()
    }

    /// The keys, in insertion order.
    pub closed spec fn keys(&self) -> Seq<Seq<char>> {
        self.entries@.map_values(|e: (String, String)| e.0@)
    }

    /// The keys are distinct and are exactly the keys of the map.
    pub proof fn lemma_keys(&self)
        requires
            self.wf(),
        ensures
            self.keys().no_duplicates(),
            forall|k: Seq<char>| #[trigger] self@.contains_key(k) <==> self.keys().contains(k),
    {
        assert forall|k: Seq<char>| #[trigger] self@.contains_key(k) implies self.keys().contains(
            k,
        ) by {
            let i = choose|i: int| 0 <= i < self.entries@.len() && self.entries@[i].0@ == k;
            assert(self.keys()[i] == k);
        }
        assert forall|k: Seq<char>| self.keys().contains(k) implies #[trigger] self@.contains_key(
            k,
        ) by {
            let i = choose|i: int| 0 <= i < self.keys().len() && self.keys()[i] == k;
            assert(self.model@.contains_key(self.entries@[i].0@));
        }
    }

    /// The key at position `i` of the insertion order.
    pub fn key_at(&self, i: usize) -> (r: &String)
        requires
            i < self.keys().len(),
        ensures
            r@ == self.keys()[i as int],
    {
        &self.entries[i].0
    }

    /// An empty map.
    pub fn new() -> (r: Self)
        ensures
            r.wf(),
            r@ == Map::<Seq<char>, Seq<char>>::empty(),
    {
        DocHashes { entries: Vec::new(), model: Ghost(Map::empty()) }
    }

    fn position(&self, key: &str) -> (r: Option<usize>)
        requires
            self.wf(),
        ensures
            match r {
                Some(i) => i < self.entries@.len() && self.entries@[i as int].0@ == key@,
                None => !self@.contains_key(key@),
            },
    {
        let mut i: usize = 0;
        while i < self.entries.len()
            invariant
                i <= self.entries@.len(),
                forall|j: int| 0 <= j < i ==> self.entries@[j].0@ != key@,
            decreases self.entries@.len() - i,
        {
            if str_eq(self.entries[i].0.as_str(), key) {
                return Some(i);
            }
            i = i + 1;
        }
        None
    }

    /// Number of documents in the map.
    pub fn len(&self) -> (r: usize)
        requires
            self.wf(),
        ensures
            r == self@.dom().len(),
            r == self.keys().len(),
    {
        self.entries.len()
    }

    /// Whether the map holds no document.
    pub fn is_empty(&self) -> (r: bool)
        requires
            self.wf(),
        ensures
            r == (self@.dom().len() == 0),
    {
        self.len() == 0
    }

    /// Whether `key` has a hash.
    pub fn contains_key(&self, key: &str) -> (r: bool)
        requires
            self.wf(),
        ensures
            r == self@.contains_key(key@),
    {
        self.position(key).is_some()
    }

    /// The hash stored for `key`, if any.
    pub fn get(&self, key: &str) -> (r: Option<&String>)
        requires
            self.wf(),
        ensures
            match r {
                Some(h) => self@.contains_key(key@) && h@ == self@[key@],
                None => !self@.contains_key(key@),
            },
    {
        match self.position(key) {
            Some(i) => {
                assert(self.model@.contains_key(self.entries@[i as int].0@));
                Some(&self.entries[i].1)
            },
            None => None,
        }
    }

    /// Sets the hash of `key`, replacing any earlier one.
    pub fn insert(&mut self, key: String, value: String)
        requires
            old(self).wf(),
        ensures
            final(self).wf(),
            final(self)@ == old(self)@.insert(key@, value@),
    {
        match self.position(key.as_str()) {
            Some(i) => {
                let ghost m = self.model@.insert(key@, value@);
                let ghost old_entries = self.entries@;
                let k = self.entries[i].0.clone();
                self.entries.set(i, (k, value));
                self.model = Ghost(m);
                proof {
                    assert(m.dom() =~= old(self).model@.dom());
                    assert forall|a: int| 0 <= a < self.entries@.len() implies self.entries@[a].0@
                        == old_entries[a].0@ by {}
                    assert forall|a: int| 0 <= a < self.entries@.len() implies #[trigger] m.contains_key(
                        self.entries@[a].0@,
                    ) && m[self.entries@[a].0@] == self.entries@[a].1@ by {
                        assert(old(self).model@.contains_key(old_entries[a].0@));
                    }
                    assert forall|k2: Seq<char>| #[trigger] m.contains_key(k2) implies exists|j: int|
                        0 <= j < self.entries@.len() && self.entries@[j].0@ == k2 by {
                        let j = choose|j: int|
                            0 <= j < old_entries.len() && old_entries[j].0@ == k2;
                        assert(self.entries@[j].0@ == k2);
                    }
                }
            },
            None => {
                let ghost m = self.model@.insert(key@, value@);
                let ghost old_entries = self.entries@;
                self.entries.push((key, value));
                self.model = Ghost(m);
                proof {
                    let n = old_entries.len() as int;
                    assert(self.entries@[n].0@ == key@);
                    assert(m.dom() =~= old(self).model@.dom().insert(key@));
                    assert forall|a: int| 0 <= a < n implies old_entries[a].0@ != key@ by {
                        assert(old(self).model@.contains_key(old_entries[a].0@));
                    }
                    assert forall|a: int, b: int|
                        0 <= a < b < self.entries@.len() implies self.entries@[a].0@
                        != self.entries@[b].0@ by {
                        assert(self.entries@[a] == old_entries[a]);
                        if b < n {
                            assert(self.entries@[b] == old_entries[b]);
                        }
                    }
                    assert forall|a: int| 0 <= a < self.entries@.len() implies #[trigger] m.contains_key(
                        self.entries@[a].0@,
                    ) && m[self.entries@[a].0@] == self.entries@[a].1@ by {
                        if a < n {
                            assert(self.entries@[a] == old_entries[a]);
                            assert(old(self).model@.contains_key(old_entries[a].0@));
                        }
                    }
                    assert forall|k2: Seq<char>| #[trigger] m.contains_key(k2) implies exists|j: int|
                        0 <= j < self.entries@.len() && self.entries@[j].0@ == k2 by {
                        if k2 != key@ {
                            let j = choose|j: int|
                                0 <= j < old_entries.len() && old_entries[j].0@ == k2;
                            assert(self.entries@[j].0@ == k2);
                        }
                    }
                }
            },
        }
    }

    /// Drops the hash of `key`; no effect when there is none.
    pub fn remove(&mut self, key: &str)
        requires
            old(self).wf(),
        ensures
            final(self).wf(),
            final(self)@ == old(self)@.remove(key@),
    {
        match self.position(key) {
            Some(i) => {
                let ghost m = self.model@.remove(key@);
                let ghost old_entries = self.entries@;
                self.entries.remove(i);
                self.model = Ghost(m);
                proof {
                    assert forall|k2: Seq<char>| #[trigger] m.contains_key(k2) implies exists|j: int|
                        0 <= j < self.entries@.len() && self.entries@[j].0@ == k2 by {
                        let j = choose|j: int|
                            0 <= j < old_entries.len() && old_entries[j].0@ == k2;
                        if j < i {
                            assert(self.entries@[j].0@ == k2);
                        } else {
                            assert(self.entries@[j - 1].0@ == k2);
                        }
                    }
                    assert forall|a: int, b: int|
                        0 <= a < b < self.entries@.len() implies self.entries@[a].0@
                        != self.entries@[b].0@ by {
                        let oa = if a < i { a } else { a + 1 };
                        let ob = if b < i { b } else { b + 1 };
                        assert(self.entries@[a] == old_entries[oa]);
                        assert(self.entries@[b] == old_entries[ob]);
                    }
                    assert forall|a: int| 0 <= a < self.entries@.len() implies #[trigger] m.contains_key(
                        self.entries@[a].0@,
                    ) && m[self.entries@[a].0@] == self.entries@[a].1@ by {
                        let oa = if a < i { a } else { a + 1 };
                        assert(self.entries@[a] == old_entries[oa]);
                        assert(old(self).model@.contains_key(old_entries[oa].0@));
                        assert(old_entries[oa].0@ != old_entries[i as int].0@);
                    }
                }
            },
            None => {
                proof {
                    assert(self.model@.remove(key@) =~= self.model@);
                }
            },
        }
    }
}

/// Index metadata, persisted beside the index files.
pub struct IndexMetadata {
    /// Number of documents.
    pub doc_count: usize,
    /// When the index was created (RFC 3339).
    pub created_at: String,
    /// Model used for embeddings.
    pub embedding_model: Option<String>,
    /// Schema version, for compatibility checks.
    pub schema_version: String,
    /// Content hash of each document, for incremental builds.
    pub doc_hashes: DocHashes,
}

impl IndexMetadata {
    /// The hash ledger is well formed.
    pub open spec fn wf(&self) -> bool {
        self.doc_hashes.wf()
    }

    /// New metadata at the current schema version, stamped with the current
    /// time, with an empty hash ledger.
    pub fn new(doc_count: usize, embedding_model: Option<String>) -> (r: Self)
        ensures
            r.wf(),
            r.doc_count == doc_count,
            r.embedding_model == embedding_model,
            r.schema_version@ == CURRENT_SCHEMA_VERSION@,
            r.doc_hashes@ == Map::<Seq<char>, Seq<char>>::empty(),
    {
        IndexMetadata {
            doc_count,
            created_at: now_rfc3339(),
            embedding_model,
            schema_version: CURRENT_SCHEMA_VERSION.to_owned(),
            doc_hashes: DocHashes::new(),
        }
    }

    /// Whether the hash ledger cannot be trusted and the index must be rebuilt
    /// whole: the schema version is empty, reads as no number, or reads as a
    /// number below 2.
    pub fn needs_full_rebuild(&self) -> (r: bool)
        ensures
            r == !version_trusted(self.schema_version@),
    {
        !version_trusted_exec(self.schema_version.as_str())
    }

    /// Records `hash` as the content hash of `doc_id`.
    pub fn update_doc_hash(&mut self, doc_id: String, hash: String)
        requires
            old(self).wf(),
        ensures
            final(self).wf(),
            final(self).doc_hashes@ == old(self).doc_hashes@.insert(doc_id@, hash@),
            final(self).doc_count == old(self).doc_count,
            final(self).created_at == old(self).created_at,
            final(self).embedding_model == old(self).embedding_model,
            final(self).schema_version == old(self).schema_version,
    {
        self.doc_hashes.insert(doc_id, hash);
    }

    /// Drops the content hash of `doc_id`, if any.
    pub fn remove_doc_hash(&mut self, doc_id: &str)
        requires
            old(self).wf(),
        ensures
            final(self).wf(),
            final(self).doc_hashes@ == old(self).doc_hashes@.remove(doc_id@),
            final(self).doc_count == old(self).doc_count,
            final(self).created_at == old(self).created_at,
            final(self).embedding_model == old(self).embedding_model,
            final(self).schema_version == old(self).schema_version,
    {
        self.doc_hashes.remove(doc_id);
    }

    /// The content hash recorded for `doc_id`, if any.
    pub fn get_doc_hash(&self, doc_id: &str) -> (r: Option<&String>)
        requires
            self.wf(),
        ensures
            match r {
                Some(h) => self.doc_hashes@.contains_key(doc_id@) && h@
                    == self.doc_hashes@[doc_id@],
                None => !self.doc_hashes@.contains_key(doc_id@),
            },
    {
        self.doc_hashes.get(doc_id)
    }
}

} // verus!
