//! The decisions of a search that do not depend on scores: how deep each
//! ranking is fetched for fusion, and the tag post-filter.
use vstd::prelude::*;

use crate::index::docstore::{doc_ids_of, Docstore};
use crate::loader::document::{lemma_has_tag_view, strings_view, DocumentView};

verus! {

/// How many results each ranking contributes to a hybrid search of `top_k`
/// results: twice as many, so that fusion has candidates to reorder.
pub fn hybrid_depth(top_k: usize) -> (r: usize)
    ensures
        r == if top_k <= usize::MAX / 2 {
            2 * top_k
        } else {
            usize::MAX as int
        },
{
    if top_k <= usize::MAX / 2 {
        2 * top_k
    } else {
        usize::MAX
    }
}

/// The store holds a document with ID `id` that carries `tag`.
pub open spec fn has_tagged_doc(docs: Seq<DocumentView>, id: Seq<char>, tag: Seq<char>) -> bool {
    exists|x: int| 0 <= x < docs.len() && (#[trigger] docs[x]).id == id && docs[x].tags.contains(tag)
}

/// Position `i` of `ranked` names a stored document that carries `tag`.
pub open spec fn keeps(docs: Seq<DocumentView>, ranked: Seq<Seq<char>>, tag: Seq<char>) -> spec_fn(int) -> bool {
    |i: int| has_tagged_doc(docs, ranked[i], tag)
}

/// The tag post-filter: the positions, in rank order, of the results of
/// `ranked_ids` whose document carries `tag`, at most `top_k` of them.
/// Results further down are not fetched to make up for those dropped.
pub fn tag_filter(docstore: &Docstore, ranked_ids: &[String], tag: &str, top_k: usize) -> (r: Vec<usize>)
    requires
        docstore.wf(),
    ensures
        ({
            let kept = Seq::new(ranked_ids@.len(), |i: int| i).filter(
                keeps(docstore.docs(), strings_view(ranked_ids@), tag@),
            );
            r@.map_values(|i: usize| i as int) == kept.take(
                if top_k < kept.len() {
                    top_k as int
                } else {
                    kept.len() as int
                },
            )
        }),
{
    let ghost ds = docstore.docs();
    let ghost rk = strings_view(ranked_ids@);
    let ghost all = Seq::new(ranked_ids@.len(), |i: int| i);
    let ghost p = keeps(ds, rk, tag@);
    let n = ranked_ids.len();
    let mut r: Vec<usize> = Vec::new();
    let mut i: usize = 0;
    while i < n && r.len() < top_k
        invariant
            docstore.wf(),
            n == ranked_ids@.len(),
            i <= n,
            ds == docstore.docs(),
            rk == strings_view(ranked_ids@),
            all == Seq::new(ranked_ids@.len(), |i: int| i),
            p == keeps(ds, rk, tag@),
            r@.map_values(|i: usize| i as int) == all.take(i as int).filter(p),
            r@.len() <= top_k,
        decreases n - i,
    {
        let found = docstore.get(ranked_ids[i].as_str());
        let keep = match found {
            Some(d) => d.has_tag(tag),
            None => false,
        };
        proof {
            reveal(Seq::filter);
            assert(all.take(i + 1).drop_last() =~= all.take(i as int));
            assert(all.take(i + 1).last() == i as int);
            assert(rk[i as int] == ranked_ids@[i as int]@);
            let id = rk[i as int];
            match found {
                Some(d) => {
                    lemma_has_tag_view(d.metadata.tags@, tag@);
                    if has_tagged_doc(ds, id, tag@) {
                        let x = choose|x: int| 0 <= x < ds.len() && (#[trigger] ds[x]).id == id && ds[x].tags.contains(tag@);
                        docstore.lemma_unique_id(d@, x);
                    }
                    if keep {
                        let y = choose|y: int| 0 <= y < ds.len() && ds[y] == d@;
                        assert(ds[y].id == id && ds[y].tags.contains(tag@));
                    }
                },
                None => {
                    if has_tagged_doc(ds, id, tag@) {
                        let x = choose|x: int| 0 <= x < ds.len() && (#[trigger] ds[x]).id == id && ds[x].tags.contains(tag@);
                        assert(doc_ids_of(ds)[x] == id);
                    }
                },
            }
            assert(keep == p(i as int));
        }
        let ghost before = r@;
        if keep {
            r.push(i);
            assert(r@.map_values(|i: usize| i as int) =~= before.map_values(|i: usize| i as int).push(i as int));
        }
        i = i + 1;
    }
    proof {
        let kept = all.filter(p);
        let pre = all.take(i as int).filter(p);
        assert(all =~= all.take(i as int) + all.skip(i as int));
        Seq::filter_distributes_over_add(all.take(i as int), all.skip(i as int), p);
        assert(kept == pre + all.skip(i as int).filter(p));
        if i == n {
            assert(all.skip(i as int) =~= Seq::<int>::empty());
            assert(all.skip(i as int).filter(p) =~= Seq::<int>::empty()) by {
                reveal(Seq::filter);
            }
            assert(kept =~= pre);
            assert(pre.take(pre.len() as int) =~= pre);
            if top_k < kept.len() {
                assert(false);
            }
        } else {
            assert(pre.len() == top_k);
            assert(kept.take(top_k as int) =~= pre);
        }
    }
    r
}

} // verus!
