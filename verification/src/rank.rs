//! Ranking: which documents match a query, their scores, and the total
//! order on results — descending score, ties broken by ascending position
//! in commit order, so that equal queries against an unchanged corpus
//! always rank identically.

use vstd::prelude::*;
use vstd::relations::{sorted_by, total_ordering};
use vstd::seq_lib::{lemma_multiset_commutative, lemma_sorted_unique};
use crate::index::{entries_complete, entries_wf, find_entry, key, lemma_no_entry, lemma_postings_len_df, posting_tf, postings_spec, pviews, TermEntry};
use crate::model::{df, tf, DocView};
use crate::score::{doc_score, sat_add64, sat_mul64, term_score, weight_x};
use crate::text::views;

verus! {

/// The ranking order on `(position, score)` candidates: higher scores come
/// first, equal scores in commit order.
pub open spec fn rank_le_at(a: (usize, u64), b: (usize, u64)) -> bool {
    a.1 > b.1 || (a.1 == b.1 && a.0 <= b.0)
}

/// The ranking order as a relation value, for sorting.
pub open spec fn rank_le() -> spec_fn((usize, u64), (usize, u64)) -> bool {
    |a: (usize, u64), b: (usize, u64)| rank_le_at(a, b)
}

/// The ranking order is total: every two candidates are comparable, and
/// mutually comparable candidates are equal.
pub proof fn lemma_rank_le_total()
    ensures
        total_ordering(rank_le()),
{
    let r = rank_le();
    assert forall|x: (usize, u64)| #[trigger] r(x, x) by {
        assert(rank_le_at(x, x));
    }
    assert forall|x: (usize, u64), y: (usize, u64)| #[trigger] r(x, y) && #[trigger] r(y, x)
        implies x == y by {
        assert(x.0 == y.0 && x.1 == y.1);
    }
    assert forall|x: (usize, u64), y: (usize, u64), z: (usize, u64)|
        #[trigger] r(x, y) && #[trigger] r(y, z) implies r(x, z) by {
        assert(rank_le_at(x, y) && rank_le_at(y, z));
        assert(rank_le_at(x, z));
    }
    assert forall|x: (usize, u64), y: (usize, u64)| #[trigger] r(x, y) || #[trigger] r(y, x) by {
        assert(rank_le_at(x, y) || rank_le_at(y, x));
    }
}

/// Compares two candidates in the ranking order.
pub fn rank_le_x(a: (usize, u64), b: (usize, u64)) -> (r: bool)
    ensures
        r == rank_le_at(a, b),
{
    a.1 > b.1 || (a.1 == b.1 && a.0 <= b.0)
}

/// The match candidates among the first `n` documents: each position whose
/// document scores above zero, with its score, in commit order.
pub open spec fn cand_upto(docs: Seq<DocView>, terms: Seq<Seq<char>>, n: int) -> Seq<(usize, u64)>
    decreases n,
{
    if n <= 0 {
        Seq::empty()
    } else {
        let pre = cand_upto(docs, terms, n - 1);
        if doc_score(docs, docs[n - 1], terms) > 0 {
            pre.push(((n - 1) as usize, doc_score(docs, docs[n - 1], terms)))
        } else {
            pre
        }
    }
}

/// All match candidates of a query against a corpus.
pub open spec fn candidates(docs: Seq<DocView>, terms: Seq<Seq<char>>) -> Seq<(usize, u64)> {
    cand_upto(docs, terms, docs.len() as int)
}

/// The candidates in ranking order.
pub open spec fn ranked(docs: Seq<DocView>, terms: Seq<Seq<char>>) -> Seq<(usize, u64)> {
    candidates(docs, terms).sort_by(rank_le())
}

/// The ranked list, cut down to the top `limit`.
pub open spec fn top_ranked(docs: Seq<DocView>, terms: Seq<Seq<char>>, limit: int) -> Seq<
    (usize, u64),
> {
    let all = ranked(docs, terms);
    if all.len() <= limit {
        all
    } else {
        all.take(limit)
    }
}

/// The ranked list is sorted in the ranking order and holds exactly the
/// match candidates — as many as there are matches.
pub proof fn lemma_ranked_ensures(docs: Seq<DocView>, terms: Seq<Seq<char>>)
    ensures
        sorted_by(ranked(docs, terms), rank_le()),
        ranked(docs, terms).to_multiset() == candidates(docs, terms).to_multiset(),
        ranked(docs, terms).len() == candidates(docs, terms).len(),
{
    broadcast use vstd::seq_lib::group_to_multiset_ensures;

    lemma_rank_le_total();
    candidates(docs, terms).lemma_sort_by_ensures(rank_le());
    assert(ranked(docs, terms).len() == ranked(docs, terms).to_multiset().len());
    assert(candidates(docs, terms).len() == candidates(docs, terms).to_multiset().len());
}

/// The cut really is the top: everything it keeps ranks at least as high
/// as everything it drops.
pub proof fn lemma_top_ranked_dominates(docs: Seq<DocView>, terms: Seq<Seq<char>>, limit: int)
    requires
        0 <= limit,
    ensures
        forall|i: int, j: int|
            0 <= i < top_ranked(docs, terms, limit).len() && limit <= j < ranked(
                docs,
                terms,
            ).len() ==> rank_le_at(
                #[trigger] top_ranked(docs, terms, limit)[i],
                #[trigger] ranked(docs, terms)[j],
            ),
{
    lemma_ranked_ensures(docs, terms);
    let all = ranked(docs, terms);
    let top = top_ranked(docs, terms, limit);
    let r = rank_le();
    assert forall|i: int, j: int|
        0 <= i < top.len() && limit <= j < all.len() implies rank_le_at(
        #[trigger] top[i],
        #[trigger] all[j],
    ) by {
        assert(top[i] == all[i]);
        assert(i < j);
        assert(r(all[i], all[j]));
    }
}

/// Inserting anywhere adds one occurrence, as a push does.
pub proof fn lemma_insert_to_multiset<A>(s: Seq<A>, p: int, x: A)
    requires
        0 <= p <= s.len(),
    ensures
        s.insert(p, x).to_multiset() == s.to_multiset().insert(x),
{
    broadcast use vstd::seq_lib::group_to_multiset_ensures;
    broadcast use vstd::multiset::group_multiset_axioms;

    let a = s.subrange(0, p);
    let b = s.subrange(p, s.len() as int);
    assert(s =~= a + b);
    assert(s.insert(p, x) == a.push(x) + b);
    lemma_multiset_commutative(a.push(x), b);
    lemma_multiset_commutative(a, b);
    assert(s.insert(p, x).to_multiset() =~= s.to_multiset().insert(x));
}

/// Computes one document's score for the query terms, off the index.
pub fn score_doc(
    index: &Vec<TermEntry>,
    qterms: &Vec<Vec<char>>,
    id: usize,
    n: usize,
    Ghost(docs): Ghost<Seq<DocView>>,
) -> (r: u64)
    requires
        entries_wf(index@, docs),
        entries_complete(index@, docs),
        (id as int) < docs.len(),
        n as int == docs.len(),
    ensures
        r == doc_score(docs, docs[id as int], views(qterms@)),
{
    let ghost qs = views(qterms@);
    let mut score: u64 = 0;
    let mut j: usize = 0;
    while j < qterms.len()
        invariant
            j <= qterms@.len(),
            entries_wf(index@, docs),
            entries_complete(index@, docs),
            (id as int) < docs.len(),
            n as int == docs.len(),
            qs == views(qterms@),
            score == doc_score(docs, docs[id as int], qs.take(j as int)),
        decreases qterms@.len() - j,
    {
        let ghost tj = qs[j as int];
        proof {
            assert(qs.take(j + 1 as int).drop_last() =~= qs.take(j as int));
            assert(qs.take(j + 1 as int).last() == tj);
            assert(tj == qterms@[j as int]@);
        }
        let tfv: u64;
        let dfv: u64;
        match find_entry(index, &qterms[j]) {
            Some(i) => {
                proof {
                    assert(key(index@, i as int) == tj);
                    assert(pviews(index@[i as int].postings@) == postings_spec(docs, tj));
                    lemma_postings_len_df(docs, tj);
                }
                dfv = index[i].postings.len() as u64;
                tfv = posting_tf(&index[i].postings, id, Ghost(docs), Ghost(tj));
            },
            None => {
                proof {
                    lemma_no_entry(index@, docs, tj);
                }
                dfv = 0;
                tfv = 0;
            },
        }
        proof {
            assert(dfv as nat == df(docs, tj));
            assert(tfv as nat == tf(docs[id as int], tj));
        }
        let w = weight_x(n, dfv);
        let tscore = sat_mul64(tfv, w);
        proof {
            assert(tscore == term_score(tf(docs[id as int], tj), docs.len(), df(docs, tj)));
        }
        score = sat_add64(score, tscore);
        j = j + 1;
    }
    proof {
        assert(qs.take(qs.len() as int) =~= qs);
    }
    score
}

/// Collects the match candidates of a query, in commit order.
pub fn build_candidates(
    index: &Vec<TermEntry>,
    qterms: &Vec<Vec<char>>,
    n: usize,
    Ghost(docs): Ghost<Seq<DocView>>,
) -> (r: Vec<(usize, u64)>)
    requires
        entries_wf(index@, docs),
        entries_complete(index@, docs),
        n as int == docs.len(),
    ensures
        r@ == candidates(docs, views(qterms@)),
{
    let mut out: Vec<(usize, u64)> = Vec::new();
    let mut id: usize = 0;
    while id < n
        invariant
            id <= n,
            entries_wf(index@, docs),
            entries_complete(index@, docs),
            n as int == docs.len(),
            out@ == cand_upto(docs, views(qterms@), id as int),
        decreases n - id,
    {
        let s = score_doc(index, qterms, id, n, Ghost(docs));
        if s > 0 {
            out.push((id, s));
        }
        id = id + 1;
    }
    out
}

/// Sorts the candidates into the ranking order.
pub fn sort_candidates(v: &Vec<(usize, u64)>) -> (r: Vec<(usize, u64)>)
    ensures
        r@ == v@.sort_by(rank_le()),
{
    proof {
        lemma_rank_le_total();
    }
    let mut out: Vec<(usize, u64)> = Vec::new();
    let mut i: usize = 0;
    proof {
        assert(out@ =~= v@.take(0int));
    }
    while i < v.len()
        invariant
            i <= v@.len(),
            sorted_by(out@, rank_le()),
            out@.to_multiset() == v@.take(i as int).to_multiset(),
        decreases v@.len() - i,
    {
        let x = v[i];
        let mut p: usize = 0;
        while p < out.len() && rank_le_x(out[p], x)
            invariant
                p <= out@.len(),
                forall|k: int| 0 <= k < p ==> rank_le_at(#[trigger] out@[k], x),
            decreases out@.len() - p,
        {
            p = p + 1;
        }
        let ghost out0 = out@;
        out.insert(p, x);
        proof {
            broadcast use vstd::seq_lib::group_to_multiset_ensures;

            lemma_insert_to_multiset(out0, p as int, x);
            assert(v@.take(i + 1 as int).drop_last() =~= v@.take(i as int));
            assert(v@.take(i + 1 as int) =~= v@.take(i as int).push(x));
            out0.insert_ensures(p as int, x);
            let r = rank_le();
            if (p as int) < out0.len() {
                assert(!rank_le_at(out0[p as int], x));
                assert(rank_le_at(x, out0[p as int]));
            }
            assert forall|a: int, b: int| 0 <= a < b < out@.len() implies #[trigger] r(
                out@[a],
                out@[b],
            ) by {
                if b < p {
                    assert(out@[a] == out0[a] && out@[b] == out0[b]);
                    assert(r(out0[a], out0[b]));
                } else if b == p {
                    assert(out@[a] == out0[a]);
                    assert(rank_le_at(out0[a], x));
                } else if a < p {
                    assert(out@[a] == out0[a] && out@[b] == out0[b - 1]);
                    if a == b - 1 {
                        assert(rank_le_at(out0[a], x));
                        assert(rank_le_at(x, out0[a]));
                        assert(rank_le_at(out0[a], out0[b - 1]));
                    } else {
                        assert(r(out0[a], out0[b - 1]));
                    }
                } else if a == p {
                    assert(out@[a] == x && out@[b] == out0[b - 1]);
                    assert(rank_le_at(x, out0[p as int]));
                    if b - 1 == p {
                    } else {
                        assert(r(out0[p as int], out0[b - 1]));
                        assert(rank_le_at(x, out0[b - 1]));
                    }
                } else {
                    assert(out@[a] == out0[a - 1] && out@[b] == out0[b - 1]);
                    assert(r(out0[a - 1], out0[b - 1]));
                }
            }
        }
        i = i + 1;
    }
    proof {
        assert(v@.take(v@.len() as int) =~= v@);
        lemma_rank_le_total();
        v@.lemma_sort_by_ensures(rank_le());
        lemma_sorted_unique(out@, v@.sort_by(rank_le()), rank_le());
    }
    out
}

} // verus!
