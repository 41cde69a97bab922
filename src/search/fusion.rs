//! Reciprocal rank fusion of two ranked lists of document IDs.
//!
//! A document at 1-based rank `r` of a list earns `1 / (k + r)` from it; its
//! fused score is the sum over both lists. Scores are compared exactly, as
//! fractions.
use vstd::prelude::*;

use crate::loader::document::strings_view;
use crate::text::str_eq;
use crate::tokenizer::dedup;

verus! {

/// The constant `k` used when none is given.
pub const RRF_K: u32 = 60;

/// Reciprocal rank fusion with constant `k`.
pub struct ReciprocalRankFusion {
    pub k: u32,
}

/// A document of the fused list, with its 1-based rank in each input list.
pub struct FusedHit {
    pub doc_id: String,
    pub first_rank: Option<usize>,
    pub second_rank: Option<usize>,
}

/// The numerator of what one list contributes: 1 if ranked there, else 0.
pub open spec fn part_num(rank: Option<usize>) -> int {
    match rank {
        Some(_) => 1,
        None => 0,
    }
}

/// The denominator of what one list contributes: `k + rank`, or 1 if unranked.
pub open spec fn part_den(k: int, rank: Option<usize>) -> int {
    match rank {
        Some(r) => k + r,
        None => 1,
    }
}

/// Numerator of the fused score `1/(k + r1) + 1/(k + r2)`.
pub open spec fn score_num(k: int, h: FusedHit) -> int {
    part_num(h.first_rank) * part_den(k, h.second_rank) + part_num(h.second_rank) * part_den(
        k,
        h.first_rank,
    )
}

/// Denominator of the fused score.
pub open spec fn score_den(k: int, h: FusedHit) -> int {
    part_den(k, h.first_rank) * part_den(k, h.second_rank)
}

/// Whether `a` has a strictly higher fused score than `b`.
pub open spec fn outranks(k: int, a: FusedHit, b: FusedHit) -> bool {
    score_num(k, a) * score_den(k, b) > score_num(k, b) * score_den(k, a)
}

/// The fused list is ordered by non-increasing score.
pub open spec fn sorted_by_score(k: int, s: Seq<FusedHit>) -> bool {
    forall|i: int, j: int| 0 <= i < j < s.len() ==> !outranks(k, #[trigger] s[j], #[trigger] s[i])
}

/// `rank` is the 1-based position of `id` in `list`, or `None` when absent.
pub open spec fn rank_in(list: Seq<Seq<char>>, id: Seq<char>, rank: Option<usize>) -> bool {
    match rank {
        Some(r) => 1 <= r <= list.len() && list[r - 1] == id,
        None => !list.contains(id),
    }
}

/// The IDs of the fused hits.
pub open spec fn hit_ids(s: Seq<FusedHit>) -> Seq<Seq<char>> {
    s.map_values(|h: FusedHit| h.doc_id@)
}

/// The fractions that `fuse` compares stay far below `u128::MAX`.
pub open spec fn rank_fits(h: FusedHit) -> bool {
    &&& (h.first_rank matches Some(r) ==> 1 <= r <= u32::MAX)
    &&& (h.second_rank matches Some(r) ==> 1 <= r <= u32::MAX)
}

fn part_den_exec(k: u32, rank: Option<usize>) -> (r: u128)
    requires
        rank matches Some(x) ==> 1 <= x <= u32::MAX,
    ensures
        r == part_den(k as int, rank),
        1 <= r <= 0x2_0000_0000,
{
    match rank {
        Some(x) => k as u128 + x as u128,
        None => 1,
    }
}

/// Whether `a` outranks `b`.
fn outranks_exec(k: u32, a: &FusedHit, b: &FusedHit) -> (r: bool)
    requires
        rank_fits(*a),
        rank_fits(*b),
    ensures
        r == outranks(k as int, *a, *b),
{
    let a1 = part_den_exec(k, a.first_rank);
    let a2 = part_den_exec(k, a.second_rank);
    let b1 = part_den_exec(k, b.first_rank);
    let b2 = part_den_exec(k, b.second_rank);
    let an1: u128 = if a.first_rank.is_some() { 1 } else { 0 };
    let an2: u128 = if a.second_rank.is_some() { 1 } else { 0 };
    let bn1: u128 = if b.first_rank.is_some() { 1 } else { 0 };
    let bn2: u128 = if b.second_rank.is_some() { 1 } else { 0 };
    assert(a1 * a2 <= 0x4_0000_0000_0000_0000) by (nonlinear_arith)
        requires 1 <= a1 <= 0x2_0000_0000, 1 <= a2 <= 0x2_0000_0000;
    assert(b1 * b2 <= 0x4_0000_0000_0000_0000) by (nonlinear_arith)
        requires 1 <= b1 <= 0x2_0000_0000, 1 <= b2 <= 0x2_0000_0000;
    let an = an1 * a2 + an2 * a1;
    let bn = bn1 * b2 + bn2 * b1;
    let ad = a1 * a2;
    let bd = b1 * b2;
    assert(an * bd <= 0x4_0000_0000 * 0x4_0000_0000_0000_0000) by (nonlinear_arith)
        requires an <= 0x4_0000_0000, bd <= 0x4_0000_0000_0000_0000;
    assert(bn * ad <= 0x4_0000_0000 * 0x4_0000_0000_0000_0000) by (nonlinear_arith)
        requires bn <= 0x4_0000_0000, ad <= 0x4_0000_0000_0000_0000;
    an * bd > bn * ad
}

/// If `x <= y` and `y < z` as fractions with positive denominators, then `x < z`.
proof fn lemma_fraction_le_lt(n1: int, d1: int, n2: int, d2: int, n3: int, d3: int)
    requires
        d1 > 0,
        d2 > 0,
        d3 > 0,
        n1 * d2 <= n2 * d1,
        n2 * d3 < n3 * d2,
    ensures
        n1 * d3 < n3 * d1,
{
    assert(n1 * d2 * d3 <= n2 * d1 * d3) by (nonlinear_arith)
        requires n1 * d2 <= n2 * d1, d3 > 0;
    assert(n2 * d3 * d1 < n3 * d2 * d1) by (nonlinear_arith)
        requires n2 * d3 < n3 * d2, d1 > 0;
    assert(n1 * d3 * d2 < n3 * d1 * d2) by (nonlinear_arith)
        requires n1 * d2 * d3 <= n2 * d1 * d3, n2 * d3 * d1 < n3 * d2 * d1;
    assert(n1 * d3 < n3 * d1) by (nonlinear_arith)
        requires n1 * d3 * d2 < n3 * d1 * d2, d2 > 0;
}

proof fn lemma_score_den_pos(k: int, h: FusedHit)
    requires
        k >= 0,
        rank_fits(h),
    ensures
        score_den(k, h) > 0,
{
    assert(part_den(k, h.first_rank) > 0);
    assert(part_den(k, h.second_rank) > 0);
    assert(part_den(k, h.first_rank) * part_den(k, h.second_rank) > 0) by (nonlinear_arith)
        requires part_den(k, h.first_rank) > 0, part_den(k, h.second_rank) > 0;
}

/// If `a` does not outrank `b` and `c` outranks `b`, then `a` does not outrank `c`.
proof fn lemma_outranks_trans(k: int, a: FusedHit, b: FusedHit, c: FusedHit)
    requires
        k >= 0,
        rank_fits(a),
        rank_fits(b),
        rank_fits(c),
        !outranks(k, a, b),
        outranks(k, c, b),
    ensures
        !outranks(k, a, c),
        outranks(k, c, a),
{
    lemma_score_den_pos(k, a);
    lemma_score_den_pos(k, b);
    lemma_score_den_pos(k, c);
    lemma_fraction_le_lt(
        score_num(k, a),
        score_den(k, a),
        score_num(k, b),
        score_den(k, b),
        score_num(k, c),
        score_den(k, c),
    );
}

/// A copy of a hit.
fn copy_hit(h: &FusedHit) -> (r: FusedHit)
    ensures
        r == *h,
{
    FusedHit { doc_id: h.doc_id.clone(), first_rank: h.first_rank, second_rank: h.second_rank }
}

/// Sorts hits by non-increasing fused score; hits of equal score keep their
/// order, so a list that is already sorted comes back as it was.
#[verifier::rlimit(60)]
fn sort_by_score(k: u32, entries: &Vec<FusedHit>) -> (r: Vec<FusedHit>)
    requires
        forall|i: int| 0 <= i < entries@.len() ==> rank_fits(#[trigger] entries@[i]),
    ensures
        r@.len() == entries@.len(),
        forall|i: int| 0 <= i < r@.len() ==> entries@.contains(#[trigger] r@[i]),
        forall|i: int| 0 <= i < entries@.len() ==> r@.contains(#[trigger] entries@[i]),
        sorted_by_score(k as int, r@),
        sorted_by_score(k as int, entries@) ==> r@ == entries@,
        hit_ids(entries@).no_duplicates() ==> hit_ids(r@).no_duplicates(),
{
    let ghost es = entries@;
    let ghost kk = k as int;
    let mut out: Vec<FusedHit> = Vec::new();
    let mut i: usize = 0;
    while i < entries.len()
        invariant
            i <= es.len(),
            es == entries@,
            kk == k as int,
            forall|x: int| 0 <= x < es.len() ==> rank_fits(#[trigger] es[x]),
            out@.len() == i,
            forall|x: int| 0 <= x < out@.len() ==> rank_fits(#[trigger] out@[x]),
            forall|x: int| 0 <= x < out@.len() ==> es.take(i as int).contains(#[trigger] out@[x]),
            forall|x: int| 0 <= x < i ==> out@.contains(#[trigger] es[x]),
            sorted_by_score(kk, out@),
            sorted_by_score(kk, es) ==> out@ == es.take(i as int),
            hit_ids(es).no_duplicates() ==> hit_ids(out@).no_duplicates(),
        decreases es.len() - i,
    {
        let e = copy_hit(&entries[i]);
        let mut p: usize = 0;
        while p < out.len() && !outranks_exec(k, &e, &out[p])
            invariant
                p <= out@.len(),
                e == es[i as int],
                rank_fits(e),
                i < es.len(),
                forall|x: int| 0 <= x < out@.len() ==> rank_fits(#[trigger] out@[x]),
                forall|x: int| 0 <= x < out@.len() ==> es.take(i as int).contains(#[trigger] out@[x]),
                forall|x: int| 0 <= x < es.len() ==> rank_fits(#[trigger] es[x]),
                forall|x: int| 0 <= x < p ==> !outranks(kk, e, #[trigger] out@[x]),
                kk == k as int,
            decreases out@.len() - p,
        {
            proof {
                assert(es.take(i as int).contains(out@[p as int]));
            }
            p = p + 1;
        }
        let ghost old_out = out@;
        proof {
            if sorted_by_score(kk, es) {
                assert forall|x: int| 0 <= x < old_out.len() implies !outranks(kk, e, #[trigger] old_out[x]) by {
                    assert(old_out[x] == es[x]);
                }
            }
        }
        out.insert(p, e);
        proof {
            let n = out@;
            assert(n == old_out.insert(p as int, e));
            assert forall|a: int, b: int| 0 <= a < b < n.len() implies !outranks(kk, #[trigger] n[b], #[trigger] n[a]) by {
                if b < p {
                    assert(n[a] == old_out[a] && n[b] == old_out[b]);
                } else if b == p {
                    assert(n[a] == old_out[a]);
                } else if a == p {
                    assert(n[b] == old_out[b - 1]);
                    assert(outranks(kk, e, old_out[p as int]));
                    if b - 1 > p {
                        assert(!outranks(kk, old_out[b - 1], old_out[p as int]));
                    }
                    lemma_outranks_trans(kk, old_out[b - 1], old_out[p as int], e);
                } else if a < p {
                    assert(n[a] == old_out[a] && n[b] == old_out[b - 1]);
                } else {
                    assert(n[a] == old_out[a - 1] && n[b] == old_out[b - 1]);
                }
            }
            assert forall|x: int| 0 <= x < n.len() implies es.take(i + 1).contains(#[trigger] n[x]) by {
                if x == p {
                    assert(es.take(i + 1)[i as int] == e);
                } else {
                    let y = if x < p { x } else { x - 1 };
                    assert(n[x] == old_out[y]);
                    assert(es.take(i as int).contains(old_out[y]));
                    let z = choose|z: int| 0 <= z < i && es.take(i as int)[z] == old_out[y];
                    assert(es.take(i + 1)[z] == old_out[y]);
                }
            }
            assert forall|x: int| 0 <= x < i + 1 implies n.contains(#[trigger] es[x]) by {
                if x == i {
                    assert(n[p as int] == e);
                } else {
                    assert(old_out.contains(es[x]));
                    let y = choose|y: int| 0 <= y < old_out.len() && old_out[y] == es[x];
                    if y < p {
                        assert(n[y] == es[x]);
                    } else {
                        assert(n[y + 1] == es[x]);
                    }
                }
            }
            if sorted_by_score(kk, es) {
                assert(p == old_out.len());
                assert(n =~= es.take(i + 1));
            }
            if hit_ids(es).no_duplicates() {
                assert forall|a: int, b: int| 0 <= a < b < n.len() implies hit_ids(n)[a] != hit_ids(n)[b] by {
                    assert(hit_ids(n)[a] == n[a].doc_id@ && hit_ids(n)[b] == n[b].doc_id@);
                    if a != p && b != p {
                        let ya = if a < p { a } else { a - 1 };
                        let yb = if b < p { b } else { b - 1 };
                        assert(n[a] == old_out[ya] && n[b] == old_out[yb]);
                        assert(hit_ids(old_out)[ya] != hit_ids(old_out)[yb]);
                    } else {
                        let x = if a == p { b } else { a };
                        let y = if x < p { x } else { x - 1 };
                        assert(n[x] == old_out[y]);
                        assert(es.take(i as int).contains(old_out[y]));
                        let z = choose|z: int| 0 <= z < i && es.take(i as int)[z] == old_out[y];
                        assert(es[z] == old_out[y]);
                        assert(hit_ids(es)[z] != hit_ids(es)[i as int]);
                    }
                }
            }
        }
        i = i + 1;
    }
    proof {
        assert(es.take(es.len() as int) =~= es);
    }
    out
}

/// The fused score of a document ranked `r1` in the first list and `r2` in
/// the second is the sum of the two contributions `1/(k + r1)` and
/// `1/(k + r2)`; one ranked in a single list scores that list's contribution.
pub proof fn lemma_rrf_additive(k: int, r1: Option<usize>, r2: Option<usize>, doc_id: String)
    requires
        k >= 0,
    ensures
        ({
            let h = FusedHit { doc_id, first_rank: r1, second_rank: r2 };
            &&& (r1 is Some && r2 is Some) ==> score_num(k, h) * ((k + r1->0) * (k + r2->0))
                == score_den(k, h) * ((k + r2->0) + (k + r1->0))
            &&& (r1 is Some && r2 is None) ==> score_num(k, h) == 1 && score_den(k, h) == k + r1->0
            &&& (r1 is None && r2 is Some) ==> score_num(k, h) == 1 && score_den(k, h) == k + r2->0
            &&& (r1 is None && r2 is None) ==> score_num(k, h) == 0
        }),
{
    let h = FusedHit { doc_id, first_rank: r1, second_rank: r2 };
    if r1 is Some && r2 is Some {
        let a = k + r1->0;
        let b = k + r2->0;
        assert(score_num(k, h) == b + a);
        assert(score_den(k, h) == a * b);
        assert((b + a) * (a * b) == (a * b) * (b + a)) by (nonlinear_arith);
    }
}

/// Position of the hit with ID `id`, if any.
fn find_hit(hits: &Vec<FusedHit>, id: &str) -> (r: Option<usize>)
    ensures
        match r {
            Some(p) => p < hits@.len() && hits@[p as int].doc_id@ == id@,
            None => !hit_ids(hits@).contains(id@),
        },
{
    let mut p: usize = 0;
    while p < hits.len()
        invariant
            p <= hits@.len(),
            forall|x: int| 0 <= x < p ==> hits@[x].doc_id@ != id@,
        decreases hits@.len() - p,
    {
        if str_eq(hits[p].doc_id.as_str(), id) {
            return Some(p);
        }
        p = p + 1;
    }
    proof {
        if hit_ids(hits@).contains(id@) {
            let x = choose|x: int| 0 <= x < hit_ids(hits@).len() && hit_ids(hits@)[x] == id@;
            assert(hits@[x].doc_id@ == id@);
        }
    }
    None
}

impl ReciprocalRankFusion {
    /// Fusion with the usual constant, 60.
    pub fn new() -> (r: Self)
        ensures
            r.k == RRF_K,
    {
        ReciprocalRankFusion { k: RRF_K }
    }

    /// Fusion with constant `k`.
    pub fn with_k(k: u32) -> (r: Self)
        ensures
            r.k == k,
    {
        ReciprocalRankFusion { k }
    }

    /// Fuses two rankings of distinct document IDs. The result holds each ID
    /// of either list once, with its 1-based rank in each list, ordered by
    /// non-increasing fused score `1/(k + r1) + 1/(k + r2)` (an absent rank
    /// adds nothing); hits of equal score keep the order in which they were
    /// first met, the first list before the second.
    pub fn fuse(&self, first: &[String], second: &[String]) -> (r: Vec<FusedHit>)
        requires
            strings_view(first@).no_duplicates(),
            strings_view(second@).no_duplicates(),
            first@.len() <= u32::MAX,
            second@.len() <= u32::MAX,
        ensures
            hit_ids(r@).no_duplicates(),
            forall|id: Seq<char>|
                hit_ids(r@).contains(id) <==> (strings_view(first@).contains(id) || strings_view(
                    second@,
                ).contains(id)),
            forall|i: int|
                0 <= i < r@.len() ==> rank_in(strings_view(first@), r@[i].doc_id@, r@[i].first_rank)
                    && rank_in(strings_view(second@), r@[i].doc_id@, r@[i].second_rank),
            sorted_by_score(self.k as int, r@),
            second@.len() == 0 ==> hit_ids(r@) == strings_view(first@),
    {
        let ghost f = strings_view(first@);
        let ghost sv = strings_view(second@);
        let mut entries: Vec<FusedHit> = Vec::new();
        let mut i: usize = 0;
        while i < first.len()
            invariant
                i <= first@.len(),
                first@.len() <= u32::MAX,
                f == strings_view(first@),
                f.no_duplicates(),
                entries@.len() == i,
                forall|x: int|
                    0 <= x < i ==> (#[trigger] entries@[x]).doc_id@ == f[x]
                        && entries@[x].first_rank == Some((x + 1) as usize)
                        && entries@[x].second_rank is None,
            decreases first@.len() - i,
        {
            entries.push(FusedHit { doc_id: first[i].clone(), first_rank: Some(i + 1), second_rank: None });
            i = i + 1;
        }
        proof {
            assert forall|id: Seq<char>| hit_ids(entries@).contains(id) <==> f.contains(id) by {
                if hit_ids(entries@).contains(id) {
                    let x = choose|x: int| 0 <= x < hit_ids(entries@).len() && hit_ids(entries@)[x] == id;
                    assert(f[x] == id);
                }
                if f.contains(id) {
                    let x = choose|x: int| 0 <= x < f.len() && f[x] == id;
                    assert(hit_ids(entries@)[x] == id);
                }
            }
            assert forall|a: int, b: int| 0 <= a < b < entries@.len() implies hit_ids(entries@)[a] != hit_ids(entries@)[b] by {
                assert(hit_ids(entries@)[a] == f[a] && hit_ids(entries@)[b] == f[b]);
            }
            assert forall|x: int| 0 <= x < entries@.len() implies rank_in(f, entries@[x].doc_id@, entries@[x].first_rank) by {
                assert(f[x] == entries@[x].doc_id@);
            }
        }
        let mut j: usize = 0;
        while j < second.len()
            invariant
                j <= second@.len(),
                first@.len() <= u32::MAX,
                second@.len() <= u32::MAX,
                f == strings_view(first@),
                sv == strings_view(second@),
                f.no_duplicates(),
                sv.no_duplicates(),
                hit_ids(entries@).no_duplicates(),
                forall|id: Seq<char>|
                    hit_ids(entries@).contains(id) <==> (f.contains(id) || sv.take(j as int).contains(id)),
                forall|x: int|
                    0 <= x < entries@.len() ==> rank_in(f, (#[trigger] entries@[x]).doc_id@, entries@[x].first_rank)
                        && rank_in(sv.take(j as int), entries@[x].doc_id@, entries@[x].second_rank)
                        && rank_fits(entries@[x]),
                j == 0 ==> entries@.len() == f.len() && forall|x: int|
                    0 <= x < entries@.len() ==> (#[trigger] entries@[x]).doc_id@ == f[x]
                        && entries@[x].first_rank == Some((x + 1) as usize)
                        && entries@[x].second_rank is None,
            decreases second@.len() - j,
        {
            let ghost old_e = entries@;
            let ghost id = sv[j as int];
            let ghost t0 = sv.take(j as int);
            let ghost t1 = sv.take(j + 1);
            assert(t1 =~= t0.push(id));
            assert forall|x: Seq<char>| t1.contains(x) <==> (t0.contains(x) || x == id) by {
                if t1.contains(x) {
                    let z = choose|z: int| 0 <= z < t1.len() && t1[z] == x;
                    if z < j {
                        assert(t0[z] == x);
                    }
                }
                if t0.contains(x) {
                    let z = choose|z: int| 0 <= z < t0.len() && t0[z] == x;
                    assert(t1[z] == x);
                }
                if x == id {
                    assert(t1[j as int] == x);
                }
            }
            assert(!t0.contains(id)) by {
                if t0.contains(id) {
                    let z = choose|z: int| 0 <= z < t0.len() && t0[z] == id;
                    assert(sv[z] == sv[j as int]);
                }
            }
            assert(second@[j as int]@ == id);
            match find_hit(&entries, second[j].as_str()) {
                Some(p) => {
                    let fr = entries[p].first_rank;
                    let h = FusedHit { doc_id: second[j].clone(), first_rank: fr, second_rank: Some(j + 1) };
                    entries.set(p, h);
                    proof {
                        assert(old_e[p as int].second_rank is None);
                        assert forall|x: int| 0 <= x < entries@.len() implies rank_in(f, (#[trigger] entries@[x]).doc_id@, entries@[x].first_rank)
                            && rank_in(t1, entries@[x].doc_id@, entries@[x].second_rank)
                            && rank_fits(entries@[x]) by {
                            if x != p {
                                assert(entries@[x] == old_e[x]);
                                assert(hit_ids(old_e)[x] != hit_ids(old_e)[p as int]);
                                if let Some(r) = entries@[x].second_rank {
                                    assert(t1[r - 1] == t0[r - 1]);
                                }
                            } else {
                                assert(t1[j as int] == id);
                            }
                        }
                        assert(hit_ids(entries@) =~= hit_ids(old_e));
                        assert(hit_ids(old_e)[p as int] == id);
                        assert forall|x: Seq<char>| hit_ids(entries@).contains(x) <==> (f.contains(x) || t1.contains(x)) by {
                            assert(hit_ids(old_e).contains(x) <==> (f.contains(x) || t0.contains(x)));
                        }
                    }
                },
                None => {
                    proof {
                        assert(!f.contains(id));
                    }
                    entries.push(FusedHit { doc_id: second[j].clone(), first_rank: None, second_rank: Some(j + 1) });
                    proof {
                        let n = old_e.len() as int;
                        assert(hit_ids(entries@) =~= hit_ids(old_e).push(id));
                        assert forall|x: Seq<char>| hit_ids(entries@).contains(x) <==> (hit_ids(old_e).contains(x) || x == id) by {
                            if hit_ids(entries@).contains(x) {
                                let z = choose|z: int| 0 <= z < hit_ids(entries@).len() && hit_ids(entries@)[z] == x;
                                if z < n {
                                    assert(hit_ids(old_e)[z] == x);
                                }
                            }
                            if hit_ids(old_e).contains(x) {
                                let z = choose|z: int| 0 <= z < hit_ids(old_e).len() && hit_ids(old_e)[z] == x;
                                assert(hit_ids(entries@)[z] == x);
                            }
                            if x == id {
                                assert(hit_ids(entries@)[n] == x);
                            }
                        }
                        assert forall|x: Seq<char>| hit_ids(entries@).contains(x) <==> (f.contains(x) || t1.contains(x)) by {
                            assert(hit_ids(old_e).contains(x) <==> (f.contains(x) || t0.contains(x)));
                        }
                        assert forall|x: int| 0 <= x < entries@.len() implies rank_in(f, (#[trigger] entries@[x]).doc_id@, entries@[x].first_rank)
                            && rank_in(t1, entries@[x].doc_id@, entries@[x].second_rank)
                            && rank_fits(entries@[x]) by {
                            if x < n {
                                assert(entries@[x] == old_e[x]);
                                assert(hit_ids(old_e)[x] == old_e[x].doc_id@);
                                assert(old_e[x].doc_id@ != id);
                                if let Some(r) = entries@[x].second_rank {
                                    assert(t1[r - 1] == t0[r - 1]);
                                }
                            } else {
                                assert(t1[j as int] == id);
                            }
                        }
                        assert forall|a: int, b: int| 0 <= a < b < entries@.len() implies hit_ids(entries@)[a] != hit_ids(entries@)[b] by {
                            if b == n {
                                assert(hit_ids(old_e).contains(hit_ids(old_e)[a]));
                            }
                        }
                    }
                },
            }
            j = j + 1;
        }
        assert(sv.take(second@.len() as int) =~= sv);
        assert forall|id: Seq<char>|
            hit_ids(entries@).contains(id) <==> (f.contains(id) || sv.contains(id)) by {
            assert(hit_ids(entries@).contains(id) <==> (f.contains(id) || sv.take(j as int).contains(id)));
        }
        let r = sort_by_score(self.k, &entries);
        proof {
            let k = self.k as int;
            if second@.len() == 0 {
                assert forall|a: int, b: int| 0 <= a < b < entries@.len() implies !outranks(k, #[trigger] entries@[b], #[trigger] entries@[a]) by {
                    assert(score_num(k, entries@[a]) == 1 && score_den(k, entries@[a]) == k + a + 1);
                    assert(score_num(k, entries@[b]) == 1 && score_den(k, entries@[b]) == k + b + 1);
                }
                assert(hit_ids(r@) =~= f);
            }
            assert forall|i: int| 0 <= i < r@.len() implies rank_in(f, r@[i].doc_id@, r@[i].first_rank)
                && rank_in(sv, r@[i].doc_id@, r@[i].second_rank) by {
                assert(entries@.contains(r@[i]));
            }
            assert forall|id: Seq<char>| hit_ids(r@).contains(id) <==> hit_ids(entries@).contains(id) by {
                if hit_ids(r@).contains(id) {
                    let x = choose|x: int| 0 <= x < hit_ids(r@).len() && hit_ids(r@)[x] == id;
                    assert(entries@.contains(r@[x]));
                    let y = choose|y: int| 0 <= y < entries@.len() && entries@[y] == r@[x];
                    assert(hit_ids(entries@)[y] == id);
                }
                if hit_ids(entries@).contains(id) {
                    let x = choose|x: int| 0 <= x < hit_ids(entries@).len() && hit_ids(entries@)[x] == id;
                    assert(r@.contains(entries@[x]));
                    let y = choose|y: int| 0 <= y < r@.len() && r@[y] == entries@[x];
                    assert(hit_ids(r@)[y] == id);
                }
            }
        }
        r
    }
}

/// A document of either ranking with every 1-based rank it holds in each:
/// a list may name a document more than once.
pub struct RankedDoc {
    pub doc_id: String,
    pub first_ranks: Vec<usize>,
    pub second_ranks: Vec<usize>,
}

/// The 1-based positions of `id` in `list`, in order.
pub open spec fn ranks_of(list: Seq<Seq<char>>, id: Seq<char>) -> Seq<usize>
    decreases list.len(),
{
    if list.len() == 0 {
        Seq::empty()
    } else if list.last() == id {
        ranks_of(list.drop_last(), id).push(list.len() as usize)
    } else {
        ranks_of(list.drop_last(), id)
    }
}

/// The IDs of ranked documents.
pub open spec fn ranked_ids(s: Seq<RankedDoc>) -> Seq<Seq<char>> {
    s.map_values(|h: RankedDoc| h.doc_id@)
}

proof fn lemma_ranks_absent(list: Seq<Seq<char>>, id: Seq<char>)
    requires
        !list.contains(id),
    ensures
        ranks_of(list, id) == Seq::<usize>::empty(),
    decreases list.len(),
{
    if list.len() > 0 {
        assert(!list.drop_last().contains(id)) by {
            if list.drop_last().contains(id) {
                let j = choose|j: int| 0 <= j < list.drop_last().len() && list.drop_last()[j] == id;
                assert(list[j] == id);
            }
        }
        assert(list.last() != id) by {
            assert(list[list.len() - 1] == list.last());
        }
        lemma_ranks_absent(list.drop_last(), id);
    }
}

/// Grouping keeps exactly the IDs of the two lists: an ID in neither list
/// is not in the result, and every ID of either list is.
pub proof fn lemma_dedup_contains(s: Seq<Seq<char>>, x: Seq<char>)
    ensures
        dedup(s).contains(x) <==> s.contains(x),
    decreases s.len(),
{
    if s.len() > 0 {
        let p = s.drop_last();
        lemma_dedup_contains(p, x);
        assert(p.contains(x) ==> s.contains(x)) by {
            if p.contains(x) {
                let j = choose|j: int| 0 <= j < p.len() && p[j] == x;
                assert(s[j] == x);
            }
        }
        assert(s.contains(x) ==> p.contains(x) || s.last() == x) by {
            if s.contains(x) {
                let j = choose|j: int| 0 <= j < s.len() && s[j] == x;
                if j < s.len() - 1 {
                    assert(p[j] == x);
                }
            }
        }
        if s.last() == x {
            assert(s[s.len() - 1] == x);
            if !dedup(p).contains(s.last()) {
                assert(dedup(s)[dedup(s).len() - 1] == x);
            }
        }
        if dedup(p).contains(x) && !dedup(p).contains(s.last()) {
            let j = choose|j: int| 0 <= j < dedup(p).len() && dedup(p)[j] == x;
            assert(dedup(s)[j] == x);
        }
        if dedup(s).contains(x) && !dedup(p).contains(s.last()) {
            let j = choose|j: int| 0 <= j < dedup(s).len() && dedup(s)[j] == x;
            if j < dedup(p).len() {
                assert(dedup(p)[j] == x);
            }
        }
    }
}

fn copy_ranks(v: &Vec<usize>) -> (r: Vec<usize>)
    ensures
        r@ == v@,
{
    let mut r: Vec<usize> = Vec::new();
    let mut i: usize = 0;
    while i < v.len()
        invariant
            i <= v@.len(),
            r@ == v@.take(i as int),
        decreases v@.len() - i,
    {
        r.push(v[i]);
        i = i + 1;
        assert(r@ =~= v@.take(i as int));
    }
    assert(v@.take(v@.len() as int) =~= v@);
    r
}

/// Position of the ranked document with ID `id`, if any.
fn find_ranked(hits: &Vec<RankedDoc>, id: &str) -> (r: Option<usize>)
    ensures
        match r {
            Some(p) => p < hits@.len() && hits@[p as int].doc_id@ == id@,
            None => !ranked_ids(hits@).contains(id@),
        },
{
    let mut p: usize = 0;
    while p < hits.len()
        invariant
            p <= hits@.len(),
            forall|x: int| 0 <= x < p ==> hits@[x].doc_id@ != id@,
        decreases hits@.len() - p,
    {
        if str_eq(hits[p].doc_id.as_str(), id) {
            return Some(p);
        }
        p = p + 1;
    }
    proof {
        if ranked_ids(hits@).contains(id@) {
            let x = choose|x: int| 0 <= x < ranked_ids(hits@).len() && ranked_ids(hits@)[x] == id@;
            assert(hits@[x].doc_id@ == id@);
        }
    }
    None
}

/// Groups two rankings by document, for lists that may name a document
/// more than once: each document once, in order of first appearance (the
/// first list before the second), with all its ranks in each list. Its
/// fused score is the sum of `1/(k + r)` over all those ranks.
pub fn group_ranks(first: &[String], second: &[String]) -> (r: Vec<RankedDoc>)
    requires
        first@.len() + second@.len() <= usize::MAX,
    ensures
        ranked_ids(r@) == dedup(strings_view(first@) + strings_view(second@)),
        forall|i: int|
            0 <= i < r@.len() ==> (#[trigger] r@[i]).first_ranks@ == ranks_of(strings_view(first@), r@[i].doc_id@)
                && r@[i].second_ranks@ == ranks_of(strings_view(second@), r@[i].doc_id@),
{
    let ghost f = strings_view(first@);
    let ghost sv = strings_view(second@);
    let ghost all = f + sv;
    let nf = first.len();
    let ns = second.len();
    let mut hits: Vec<RankedDoc> = Vec::new();
    let mut t: usize = 0;
    while t < nf || t - nf < ns
        invariant
            f == strings_view(first@),
            sv == strings_view(second@),
            all == f + sv,
            nf == f.len(),
            ns == sv.len(),
            nf + ns <= usize::MAX,
            t <= nf + ns,
            ranked_ids(hits@) == dedup(all.take(t as int)),
            ranked_ids(hits@).no_duplicates(),
            forall|i: int|
                0 <= i < hits@.len() ==> (#[trigger] hits@[i]).first_ranks@ == ranks_of(
                    f.take(if t < nf { t as int } else { nf as int }),
                    hits@[i].doc_id@,
                ) && hits@[i].second_ranks@ == ranks_of(
                    sv.take(if t < nf { 0int } else { t - nf }),
                    hits@[i].doc_id@,
                ),
        decreases nf + ns - t,
    {
        let in_first = t < nf;
        let id: &String = if in_first {
            &first[t]
        } else {
            &second[t - nf]
        };
        let ghost x = all[t as int];
        let ghost old_hits = hits@;
        let ghost fa = if t < nf { t as int } else { nf as int };
        let ghost sa = if t < nf { 0int } else { t - nf };
        let ghost fb = if t + 1 < nf { t + 1 } else { nf as int };
        let ghost sb = if t + 1 < nf { 0int } else { t + 1 - nf };
        proof {
            assert(id@ == x);
            assert(all.take(t + 1).drop_last() =~= all.take(t as int));
            assert(all.take(t + 1).last() == x);
            if in_first {
                assert(f.take(fb) =~= f.take(fa).push(x));
                assert(f.take(fb).drop_last() =~= f.take(fa));
                assert(sv.take(sb) =~= sv.take(sa));
            } else {
                assert(sv.take(sb) =~= sv.take(sa).push(x));
                assert(sv.take(sb).drop_last() =~= sv.take(sa));
                assert(f.take(fb) =~= f.take(fa));
            }
        }
        let rank: usize = if in_first {
            t + 1
        } else {
            t - nf + 1
        };
        match find_ranked(&hits, id.as_str()) {
            Some(p) => {
                let mut fr = copy_ranks(&hits[p].first_ranks);
                let mut sr = copy_ranks(&hits[p].second_ranks);
                if in_first {
                    fr.push(rank);
                } else {
                    sr.push(rank);
                }
                let h = RankedDoc { doc_id: id.clone(), first_ranks: fr, second_ranks: sr };
                hits.set(p, h);
                proof {
                    assert(ranked_ids(old_hits)[p as int] == x);
                    assert(ranked_ids(hits@) =~= ranked_ids(old_hits));
                    assert(dedup(all.take(t as int)).contains(x));
                    assert forall|i: int| 0 <= i < hits@.len() implies (#[trigger] hits@[i]).first_ranks@ == ranks_of(
                        f.take(fb),
                        hits@[i].doc_id@,
                    ) && hits@[i].second_ranks@ == ranks_of(sv.take(sb), hits@[i].doc_id@) by {
                        if i != p {
                            assert(hits@[i] == old_hits[i]);
                            assert(ranked_ids(old_hits)[i] != ranked_ids(old_hits)[p as int]);
                        }
                    }
                }
            },
            None => {
                let mut fr: Vec<usize> = Vec::new();
                let mut sr: Vec<usize> = Vec::new();
                if in_first {
                    fr.push(rank);
                } else {
                    sr.push(rank);
                }
                proof {
                    lemma_dedup_contains(all.take(t as int), x);
                    assert(!all.take(t as int).contains(x));
                    assert(!f.take(fa).contains(x)) by {
                        if f.take(fa).contains(x) {
                            let j = choose|j: int| 0 <= j < fa && f.take(fa)[j] == x;
                            assert(all.take(t as int)[j] == x);
                        }
                    }
                    assert(!sv.take(sa).contains(x)) by {
                        if sv.take(sa).contains(x) {
                            let j = choose|j: int| 0 <= j < sa && sv.take(sa)[j] == x;
                            assert(all.take(t as int)[nf + j] == x);
                        }
                    }
                    lemma_ranks_absent(f.take(fa), x);
                    lemma_ranks_absent(sv.take(sa), x);
                }
                hits.push(RankedDoc { doc_id: id.clone(), first_ranks: fr, second_ranks: sr });
                proof {
                    let n = old_hits.len() as int;
                    assert(ranked_ids(hits@) =~= ranked_ids(old_hits).push(x));
                    assert forall|a: int, b: int| 0 <= a < b < ranked_ids(hits@).len() implies ranked_ids(hits@)[a] != ranked_ids(hits@)[b] by {
                        if b == n {
                            assert(ranked_ids(old_hits).contains(ranked_ids(old_hits)[a]));
                        }
                    }
                    assert forall|i: int| 0 <= i < hits@.len() implies (#[trigger] hits@[i]).first_ranks@ == ranks_of(
                        f.take(fb),
                        hits@[i].doc_id@,
                    ) && hits@[i].second_ranks@ == ranks_of(sv.take(sb), hits@[i].doc_id@) by {
                        if i < n {
                            assert(hits@[i] == old_hits[i]);
                            assert(ranked_ids(old_hits)[i] == old_hits[i].doc_id@);
                            assert(old_hits[i].doc_id@ != x);
                        } else {
                            assert(fr@ =~= ranks_of(f.take(fb), x));
                            assert(sr@ =~= ranks_of(sv.take(sb), x));
                        }
                    }
                }
            },
        }
        t = t + 1;
    }
    proof {
        assert(all.take(t as int) =~= all);
        assert(f.take(nf as int) =~= f);
        assert(sv.take(ns as int) =~= sv);
    }
    hits
}

} // verus!
