//! BM25 keyword ranking over tokenized documents.
//!
//! With `k1 = 6/5` and `b = 3/4`, a query token `t` contributes to the score of
//! document `d`
//!
//! ```text
//! ln((N + 1) / (df + 1/2)) * tf * (k1 + 1) / (tf + k1 * (1 - b + b * |d| / avgdl))
//! ```
//!
//! where `N` is the number of documents, `df` the number of documents that
//! hold `t`, `tf` how often `d` holds it, and `avgdl = L / N` for `L` tokens in
//! all. Both the argument of the logarithm and the term-frequency factor are
//! fractions of integers, computed here exactly; a caller with floating point
//! takes the logarithm and sums. Documents that hold no query token score
//! nothing and are not candidates.
use vstd::prelude::*;

use crate::loader::document::strings_view;
use crate::text::str_eq;

verus! {

/// The token lists of a corpus, as character sequences.
pub open spec fn corpus_view(c: Seq<Vec<String>>) -> Seq<Seq<Seq<char>>> {
    c.map_values(|v: Vec<String>| strings_view(v@))
}

/// How often `t` occurs in `tokens`.
pub open spec fn count_of(tokens: Seq<Seq<char>>, t: Seq<char>) -> nat
    decreases tokens.len(),
{
    if tokens.len() == 0 {
        0
    } else {
        count_of(tokens.drop_last(), t) + if tokens.last() == t {
            1nat
        } else {
            0nat
        }
    }
}

/// In how many documents of `corpus` `t` occurs.
pub open spec fn df_of(corpus: Seq<Seq<Seq<char>>>, t: Seq<char>) -> nat
    decreases corpus.len(),
{
    if corpus.len() == 0 {
        0
    } else {
        df_of(corpus.drop_last(), t) + if count_of(corpus.last(), t) > 0 {
            1nat
        } else {
            0nat
        }
    }
}

/// The total number of tokens of `corpus`.
pub open spec fn total_of(corpus: Seq<Seq<Seq<char>>>) -> nat
    decreases corpus.len(),
{
    if corpus.len() == 0 {
        0
    } else {
        total_of(corpus.drop_last()) + corpus.last().len()
    }
}

/// What one query token contributes to a document's score, as two exact
/// fractions: the argument of the logarithm, `(2N + 2) / (2 df + 1)`, and the
/// term-frequency factor, `44 tf L / (20 tf L + 6 L + 18 |d| N)`.
#[derive(Clone, Copy, Debug, PartialEq, Eq, Structural)]
pub struct Bm25Term {
    pub idf_num: u128,
    pub idf_den: u128,
    pub tf_num: u128,
    pub tf_den: u128,
}

/// The contribution of a token that occurs `tf` times in a document of
/// `doc_len` tokens and in `df` of the `n` documents, `total` tokens in all.
pub open spec fn term_of(tf: nat, df: nat, doc_len: nat, total: nat, n: nat) -> Bm25Term {
    Bm25Term {
        idf_num: (2 * n + 2) as u128,
        idf_den: (2 * df + 1) as u128,
        tf_num: (44 * tf * total) as u128,
        tf_den: (20 * tf * total + 6 * total + 18 * doc_len * n) as u128,
    }
}

/// Computes `term_of`.
pub fn bm25_term(tf: usize, df: usize, doc_len: usize, total: usize, n: usize) -> (r: Bm25Term)
    requires
        tf <= u32::MAX,
        df <= u32::MAX,
        doc_len <= u32::MAX,
        total <= u32::MAX,
        n <= u32::MAX,
    ensures
        r == term_of(tf as nat, df as nat, doc_len as nat, total as nat, n as nat),
{
    let tf = tf as u128;
    let total = total as u128;
    let doc_len = doc_len as u128;
    let n = n as u128;
    assert(tf * total <= 0xffff_ffff * 0xffff_ffff) by (nonlinear_arith)
        requires tf <= 0xffff_ffff, total <= 0xffff_ffff;
    assert(doc_len * n <= 0xffff_ffff * 0xffff_ffff) by (nonlinear_arith)
        requires doc_len <= 0xffff_ffff, n <= 0xffff_ffff;
    assert(44 * tf * total == 44 * (tf * total)) by (nonlinear_arith);
    assert(20 * tf * total == 20 * (tf * total)) by (nonlinear_arith);
    assert(18 * doc_len * n == 18 * (doc_len * n)) by (nonlinear_arith);
    Bm25Term {
        idf_num: 2 * n + 2,
        idf_den: 2 * (df as u128) + 1,
        tf_num: 44 * (tf * total),
        tf_den: 20 * (tf * total) + 6 * total + 18 * (doc_len * n),
    }
}

/// For a fixed document and token, a larger term frequency never gives a
/// smaller term-frequency factor, and the logarithm's argument exceeds 1 when
/// the token occurs in at most all documents, so the contribution never
/// decreases as the term frequency grows.
pub proof fn lemma_tf_monotone(tf1: nat, tf2: nat, df: nat, doc_len: nat, total: nat, n: nat)
    requires
        0 < tf1 <= tf2 <= u32::MAX,
        df <= n <= u32::MAX,
        0 < total <= u32::MAX,
        doc_len <= u32::MAX,
    ensures
        ({
            let a = term_of(tf1, df, doc_len, total, n);
            let b = term_of(tf2, df, doc_len, total, n);
            &&& a.tf_num * b.tf_den <= b.tf_num * a.tf_den
            &&& a.idf_num > a.idf_den
            &&& a.idf_num == b.idf_num && a.idf_den == b.idf_den
        }),
{
    let c = 6 * total + 18 * doc_len * n;
    assert(c >= 0) by (nonlinear_arith)
        requires total > 0;
    assert(tf1 * total <= 0xffff_ffff * 0xffff_ffff) by (nonlinear_arith)
        requires tf1 <= 0xffff_ffff, total <= 0xffff_ffff;
    assert(tf2 * total <= 0xffff_ffff * 0xffff_ffff) by (nonlinear_arith)
        requires tf2 <= 0xffff_ffff, total <= 0xffff_ffff;
    assert(doc_len * n <= 0xffff_ffff * 0xffff_ffff) by (nonlinear_arith)
        requires doc_len <= 0xffff_ffff, n <= 0xffff_ffff;
    assert(44 * tf1 * total == 44 * (tf1 * total)) by (nonlinear_arith);
    assert(44 * tf2 * total == 44 * (tf2 * total)) by (nonlinear_arith);
    assert(20 * tf1 * total == 20 * (tf1 * total)) by (nonlinear_arith);
    assert(20 * tf2 * total == 20 * (tf2 * total)) by (nonlinear_arith);
    assert(18 * doc_len * n == 18 * (doc_len * n)) by (nonlinear_arith);
    assert((44 * tf1 * total) * (20 * tf2 * total + c) <= (44 * tf2 * total) * (20 * tf1 * total
        + c)) by (nonlinear_arith)
        requires 0 < tf1 <= tf2, total > 0, c >= 0;
}

/// A document that holds at least one query token: its position in the index
/// and, for each query token it holds (in query order), the contribution.
pub struct Candidate {
    pub doc_index: usize,
    pub terms: Vec<Bm25Term>,
}

/// The BM25 index of a fixed list of tokenized documents.
pub struct Bm25Index {
    doc_ids: Vec<String>,
    doc_tokens: Vec<Vec<String>>,
    total_length: usize,
}

/// The query tokens that occur in `tokens`.
pub open spec fn holds(tokens: Seq<Seq<char>>) -> spec_fn(Seq<char>) -> bool {
    |t: Seq<char>| count_of(tokens, t) > 0
}

/// Document `d` of `corpus` holds `t`.
pub open spec fn holds_token(corpus: Seq<Seq<Seq<char>>>, t: Seq<char>) -> spec_fn(int) -> bool {
    |d: int| count_of(corpus[d], t) > 0
}

/// The document positions of a posting list.
pub open spec fn posting_docs(p: Seq<(usize, usize)>) -> Seq<int> {
    p.map_values(|e: (usize, usize)| e.0 as int)
}

/// Document `d` of `corpus` holds a token of `query`.
pub open spec fn matches_query(corpus: Seq<Seq<Seq<char>>>, query: Seq<Seq<char>>) -> spec_fn(int) -> bool {
    |d: int| exists|j: int| 0 <= j < query.len() && count_of(corpus[d], #[trigger] query[j]) > 0
}

impl Bm25Index {
    /// The IDs of the documents, in index order.
    pub closed spec fn ids(&self) -> Seq<Seq<char>> {
        strings_view(self.doc_ids@)
    }

    /// The token lists of the documents, in index order.
    pub closed spec fn corpus(&self) -> Seq<Seq<Seq<char>>> {
        corpus_view(self.doc_tokens@)
    }

    /// One token list per ID, and the total length fits the index's arithmetic.
    pub closed spec fn wf(&self) -> bool {
        &&& self.doc_ids@.len() == self.doc_tokens@.len()
        &&& self.doc_ids@.len() <= u32::MAX
        &&& self.total_length == total_of(self.corpus())
        &&& self.total_length <= u32::MAX
    }

    /// The contribution of `t` to document `d`.
    pub open spec fn term(&self, d: int, t: Seq<char>) -> Bm25Term {
        term_of(
            count_of(self.corpus()[d], t),
            df_of(self.corpus(), t),
            self.corpus()[d].len(),
            total_of(self.corpus()),
            self.corpus().len(),
        )
    }

    /// One token list per ID, within the index's limits.
    pub proof fn lemma_sizes(&self)
        requires
            self.wf(),
        ensures
            self.ids().len() == self.corpus().len(),
            self.ids().len() <= u32::MAX,
            total_of(self.corpus()) <= u32::MAX,
    {
    }

    /// An empty index.
    pub fn new() -> (r: Self)
        ensures
            r.wf(),
            r.ids() == Seq::<Seq<char>>::empty(),
            r.corpus() == Seq::<Seq<Seq<char>>>::empty(),
    {
        let r = Bm25Index { doc_ids: Vec::new(), doc_tokens: Vec::new(), total_length: 0 };
        assert(r.ids() =~= Seq::<Seq<char>>::empty());
        assert(r.corpus() =~= Seq::<Seq<Seq<char>>>::empty());
        r
    }

    /// The index of documents `doc_ids` whose token lists are `corpus`; `None`
    /// when the two lists differ in length or the corpus exceeds
    /// `u32::MAX` documents or tokens.
    pub fn from_corpus(doc_ids: Vec<String>, corpus: Vec<Vec<String>>) -> (r: Option<Self>)
        ensures
            match r {
                Some(idx) => idx.wf() && idx.ids() == strings_view(doc_ids@) && idx.corpus()
                    == corpus_view(corpus@),
                None => doc_ids@.len() != corpus@.len() || doc_ids@.len() > u32::MAX || total_of(
                    corpus_view(corpus@),
                ) > u32::MAX,
            },
    {
        if doc_ids.len() != corpus.len() || doc_ids.len() > 0xffff_ffff {
            return None;
        }
        let ghost cv = corpus_view(corpus@);
        let mut total: usize = 0;
        let mut i: usize = 0;
        while i < corpus.len()
            invariant
                i <= corpus@.len(),
                cv == corpus_view(corpus@),
                total == total_of(cv.take(i as int)),
                total <= u32::MAX,
            decreases corpus@.len() - i,
        {
            assert(cv.take(i + 1).drop_last() =~= cv.take(i as int));
            assert(cv[i as int].len() == corpus@[i as int]@.len());
            let len = corpus[i].len();
            if len > 0xffff_ffff - total {
                proof {
                    lemma_total_prefix(cv, i + 1);
                }
                return None;
            }
            total = total + len;
            i = i + 1;
        }
        assert(cv.take(corpus@.len() as int) =~= cv);
        Some(Bm25Index { doc_ids, doc_tokens: corpus, total_length: total })
    }

    /// Number of documents.
    pub fn len(&self) -> (r: usize)
        requires
            self.wf(),
        ensures
            r == self.ids().len(),
    {
        self.doc_ids.len()
    }

    /// Whether the index holds no document.
    pub fn is_empty(&self) -> (r: bool)
        requires
            self.wf(),
        ensures
            r == (self.ids().len() == 0),
    {
        self.doc_ids.len() == 0
    }

    /// Total number of tokens.
    pub fn total_length(&self) -> (r: usize)
        requires
            self.wf(),
        ensures
            r == total_of(self.corpus()),
    {
        self.total_length
    }

    /// The ID of document `d`.
    pub fn doc_id(&self, d: usize) -> (r: &String)
        requires
            self.wf(),
            d < self.ids().len(),
        ensures
            r@ == self.ids()[d as int],
    {
        &self.doc_ids[d]
    }

    /// The IDs, in index order.
    pub fn doc_ids(&self) -> (r: &Vec<String>)
        ensures
            strings_view(r@) == self.ids(),
    {
        &self.doc_ids
    }

    /// The token lists, in index order.
    pub fn doc_tokens(&self) -> (r: &Vec<Vec<String>>)
        ensures
            corpus_view(r@) == self.corpus(),
    {
        &self.doc_tokens
    }

    /// How often `t` occurs in document `d`.
    pub fn term_frequency(&self, d: usize, t: &str) -> (r: usize)
        requires
            self.wf(),
            d < self.ids().len(),
        ensures
            r == count_of(self.corpus()[d as int], t@),
    {
        let toks = &self.doc_tokens[d];
        let ghost tv = strings_view(toks@);
        assert(tv == self.corpus()[d as int]);
        let mut n: usize = 0;
        let mut i: usize = 0;
        while i < toks.len()
            invariant
                i <= toks@.len(),
                tv == strings_view(toks@),
                n == count_of(tv.take(i as int), t@),
                n <= i,
            decreases toks@.len() - i,
        {
            assert(tv.take(i + 1).drop_last() =~= tv.take(i as int));
            if str_eq(toks[i].as_str(), t) {
                n = n + 1;
            }
            i = i + 1;
        }
        assert(tv.take(toks@.len() as int) =~= tv);
        n
    }

    /// In how many documents `t` occurs.
    pub fn document_frequency(&self, t: &str) -> (r: usize)
        requires
            self.wf(),
        ensures
            r == df_of(self.corpus(), t@),
    {
        let ghost cv = self.corpus();
        let mut n: usize = 0;
        let mut d: usize = 0;
        while d < self.doc_tokens.len()
            invariant
                self.wf(),
                d <= cv.len(),
                cv == self.corpus(),
                n == df_of(cv.take(d as int), t@),
                n <= d,
            decreases cv.len() - d,
        {
            assert(cv.take(d + 1).drop_last() =~= cv.take(d as int));
            if self.term_frequency(d, t) > 0 {
                n = n + 1;
            }
            d = d + 1;
        }
        assert(cv.take(cv.len() as int) =~= cv);
        n
    }

    /// The posting list of `t`: each document that holds it, in index order,
    /// with how often it does.
    pub fn postings(&self, t: &str) -> (r: Vec<(usize, usize)>)
        requires
            self.wf(),
        ensures
            posting_docs(r@) == Seq::new(self.corpus().len(), |i: int| i).filter(holds_token(self.corpus(), t@)),
            forall|i: int| 0 <= i < r@.len() ==> (#[trigger] r@[i]).1 == count_of(self.corpus()[r@[i].0 as int], t@),
    {
        let ghost cv = self.corpus();
        let ghost all = Seq::new(cv.len(), |i: int| i);
        let n = self.doc_tokens.len();
        let mut r: Vec<(usize, usize)> = Vec::new();
        let mut d: usize = 0;
        while d < n
            invariant
                self.wf(),
                n == cv.len(),
                d <= n,
                cv == self.corpus(),
                all == Seq::new(cv.len(), |i: int| i),
                posting_docs(r@) == all.take(d as int).filter(holds_token(cv, t@)),
                forall|i: int| 0 <= i < r@.len() ==> (#[trigger] r@[i]).1 == count_of(cv[r@[i].0 as int], t@),
            decreases n - d,
        {
            let tf = self.term_frequency(d, t);
            proof {
                reveal(Seq::filter);
                assert(all.take(d + 1).drop_last() =~= all.take(d as int));
                assert(all.take(d + 1).last() == d as int);
            }
            if tf > 0 {
                let ghost before = r@;
                r.push((d, tf));
                assert(posting_docs(r@) =~= posting_docs(before).push(d as int));
            }
            d = d + 1;
        }
        assert(all.take(n as int) =~= all);
        r
    }

    /// The candidates for `query`: every document that holds at least one of
    /// its tokens, in index order, with the contribution of each query token it
    /// holds. No query tokens, or no documents, give no candidates.
    pub fn candidates(&self, query: &Vec<String>) -> (r: Vec<Candidate>)
        requires
            self.wf(),
        ensures
            ({
                let q = strings_view(query@);
                let docs = Seq::new(self.corpus().len(), |i: int| i).filter(
                    matches_query(self.corpus(), q),
                );
                &&& r@.len() == docs.len()
                &&& forall|i: int|
                    0 <= i < r@.len() ==> {
                        let d = docs[i];
                        &&& (#[trigger] r@[i]).doc_index == d
                        &&& r@[i].terms@ == q.filter(holds(self.corpus()[d])).map_values(
                            |t: Seq<char>| self.term(d, t),
                        )
                    }
            }),
            query@.len() == 0 ==> r@.len() == 0,
            self.ids().len() == 0 ==> r@.len() == 0,
    {
        let ghost q = strings_view(query@);
        let ghost cv = self.corpus();
        let ghost all = Seq::new(cv.len(), |i: int| i);
        let n = self.doc_tokens.len();
        let mut r: Vec<Candidate> = Vec::new();
        let mut d: usize = 0;
        while d < n
            invariant
                self.wf(),
                n == cv.len(),
                d <= n,
                q == strings_view(query@),
                cv == self.corpus(),
                all == Seq::new(cv.len(), |i: int| i),
                r@.len() == all.take(d as int).filter(matches_query(cv, q)).len(),
                forall|i: int|
                    0 <= i < r@.len() ==> {
                        let dd = all.take(d as int).filter(matches_query(cv, q))[i];
                        &&& (#[trigger] r@[i]).doc_index == dd
                        &&& r@[i].terms@ == q.filter(holds(cv[dd])).map_values(
                            |t: Seq<char>| self.term(dd, t),
                        )
                    },
            decreases n - d,
        {
            let terms = self.doc_terms(d, query);
            let ghost prev = all.take(d as int).filter(matches_query(cv, q));
            proof {
                reveal(Seq::filter);
                assert(all.take(d + 1).drop_last() =~= all.take(d as int));
                assert(all.take(d + 1).last() == d as int);
                lemma_filter_empty_iff(q, holds(cv[d as int]));
                assert((terms@.len() > 0) == matches_query(cv, q)(d as int)) by {
                    if matches_query(cv, q)(d as int) {
                        let j = choose|j: int| 0 <= j < q.len() && count_of(cv[d as int], #[trigger] q[j]) > 0;
                        assert(holds(cv[d as int])(q[j]));
                    }
                }
            }
            if terms.len() > 0 {
                let ghost before = r@;
                r.push(Candidate { doc_index: d, terms });
                proof {
                    let now = all.take(d + 1).filter(matches_query(cv, q));
                    assert(now == prev.push(d as int));
                    assert forall|i: int| 0 <= i < r@.len() implies {
                        let dd = now[i];
                        &&& (#[trigger] r@[i]).doc_index == dd
                        &&& r@[i].terms@ == q.filter(holds(cv[dd])).map_values(
                            |t: Seq<char>| self.term(dd, t),
                        )
                    } by {
                        if i < before.len() {
                            assert(r@[i] == before[i]);
                            assert(now[i] == prev[i]);
                        }
                    }
                }
            }
            d = d + 1;
        }
        proof {
            assert(all.take(n as int) =~= all);
            if query@.len() == 0 || n == 0 {
                assert forall|i: int| 0 <= i < all.len() implies !matches_query(cv, q)(all[i]) by {}
                lemma_filter_none(all, matches_query(cv, q));
            }
        }
        r
    }

    /// The contributions of the query tokens that document `d` holds.
    fn doc_terms(&self, d: usize, query: &Vec<String>) -> (r: Vec<Bm25Term>)
        requires
            self.wf(),
            d < self.ids().len(),
        ensures
            r@ == strings_view(query@).filter(holds(self.corpus()[d as int])).map_values(
                |t: Seq<char>| self.term(d as int, t),
            ),
    {
        let ghost q = strings_view(query@);
        let ghost toks = self.corpus()[d as int];
        let ghost f = |t: Seq<char>| self.term(d as int, t);
        let n = self.doc_tokens.len();
        let total = self.total_length;
        let doc_len = self.doc_tokens[d].len();
        proof {
            lemma_doc_len_le_total(self.corpus(), d as int);
        }
        let mut r: Vec<Bm25Term> = Vec::new();
        let mut j: usize = 0;
        while j < query.len()
            invariant
                self.wf(),
                d < self.ids().len(),
                j <= query@.len(),
                q == strings_view(query@),
                toks == self.corpus()[d as int],
                n == self.corpus().len(),
                total == total_of(self.corpus()),
                doc_len == toks.len(),
                doc_len <= total,
                forall|t: Seq<char>| #[trigger] f(t) == self.term(d as int, t),
                r@ == q.take(j as int).filter(holds(toks)).map_values(f),
            decreases query@.len() - j,
        {
            let t = query[j].as_str();
            let tf = self.term_frequency(d, t);
            proof {
                reveal(Seq::filter);
                assert(q.take(j + 1).drop_last() =~= q.take(j as int));
                assert(q.take(j + 1).last() == t@);
                lemma_count_le_len(toks, t@);
            }
            if tf > 0 {
                let df = self.document_frequency(t);
                proof {
                    lemma_df_le_len(self.corpus(), t@);
                }
                let w = bm25_term(tf, df, doc_len, total, n);
                let ghost before = r@;
                r.push(w);
                proof {
                    let fl = q.take(j as int).filter(holds(toks));
                    assert(q.take(j + 1).filter(holds(toks)) == fl.push(t@));
                    assert(w == self.term(d as int, t@));
                    assert(w == f(t@));
                    assert(fl.push(t@).map_values(f) =~= fl.map_values(f).push(f(t@)));
                    assert(r@ =~= q.take(j + 1).filter(holds(toks)).map_values(f));
                }
            } else {
                proof {
                    assert(q.take(j + 1).filter(holds(toks)) == q.take(j as int).filter(holds(toks)));
                }
            }
            j = j + 1;
        }
        assert(q.take(query@.len() as int) =~= q);
        r
    }
}

/// The IDs and token lists that an index hands out rebuild it: `from_corpus`
/// cannot fail on them, and the index it gives holds the same documents, so
/// every query has the same candidates.
pub proof fn lemma_round_trip(idx: &Bm25Index, ids: Seq<String>, corpus: Seq<Vec<String>>)
    requires
        idx.wf(),
        strings_view(ids) == idx.ids(),
        corpus_view(corpus) == idx.corpus(),
    ensures
        !(ids.len() != corpus.len() || ids.len() > u32::MAX || total_of(corpus_view(corpus))
            > u32::MAX),
{
    assert(ids.len() == strings_view(ids).len());
    assert(corpus.len() == corpus_view(corpus).len());
    idx.lemma_sizes();
}

proof fn lemma_total_prefix(c: Seq<Seq<Seq<char>>>, i: int)
    requires
        0 <= i <= c.len(),
    ensures
        total_of(c.take(i)) <= total_of(c),
    decreases c.len(),
{
    if i < c.len() {
        assert(c.drop_last().take(i) =~= c.take(i));
        lemma_total_prefix(c.drop_last(), i);
    } else {
        assert(c.take(i) =~= c);
    }
}

proof fn lemma_doc_len_le_total(c: Seq<Seq<Seq<char>>>, d: int)
    requires
        0 <= d < c.len(),
    ensures
        c[d].len() <= total_of(c),
    decreases c.len(),
{
    if d < c.len() - 1 {
        lemma_doc_len_le_total(c.drop_last(), d);
    }
}

proof fn lemma_count_le_len(tokens: Seq<Seq<char>>, t: Seq<char>)
    ensures
        count_of(tokens, t) <= tokens.len(),
    decreases tokens.len(),
{
    if tokens.len() > 0 {
        lemma_count_le_len(tokens.drop_last(), t);
    }
}

proof fn lemma_df_le_len(c: Seq<Seq<Seq<char>>>, t: Seq<char>)
    ensures
        df_of(c, t) <= c.len(),
    decreases c.len(),
{
    if c.len() > 0 {
        lemma_df_le_len(c.drop_last(), t);
    }
}

/// A filter is empty exactly when no element passes.
proof fn lemma_filter_empty_iff<A>(s: Seq<A>, p: spec_fn(A) -> bool)
    ensures
        (s.filter(p).len() > 0) == (exists|i: int| 0 <= i < s.len() && p(s[i])),
{
    if exists|i: int| 0 <= i < s.len() && p(s[i]) {
        let i = choose|i: int| 0 <= i < s.len() && p(s[i]);
        s.lemma_filter_contains(p, i);
    }
    if s.filter(p).len() > 0 {
        s.lemma_filter_pred(p, 0);
        assert(s.filter(p).contains(s.filter(p)[0]));
        s.lemma_filter_contains_rev(p, s.filter(p)[0]);
    }
}

proof fn lemma_filter_none<A>(s: Seq<A>, p: spec_fn(A) -> bool)
    requires
        forall|i: int| 0 <= i < s.len() ==> !p(s[i]),
    ensures
        s.filter(p).len() == 0,
{
    lemma_filter_empty_iff(s, p);
}

} // verus!
