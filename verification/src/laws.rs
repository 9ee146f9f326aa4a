//! The engine's cross-cutting guarantees, stated and proved over the
//! corpus model that the public contracts speak of.

use vstd::prelude::*;
use crate::engine::{clear_model, committed_doc, paged_results, project_all, search_results};
use crate::model::{has_term, tf, doc_terms, DocView};
use crate::parser::{body_of, parse_ok};
use crate::project::SearchDocView;
use crate::rank::{candidates, cand_upto, rank_le, ranked, top_ranked};
use crate::score::{doc_score, lemma_score_pos_iff_match};
use crate::text::{lemma_count_occ_concat, tokens};
use vstd::arithmetic::mul::lemma_mul_inequality;
use vstd::relations::sorted_by;
use vstd::seq_lib::lemma_sorted_unique;

verus! {

/// Indexing a document that parses grows the corpus by exactly one: the
/// committed model is the old corpus with the parsed document appended.
pub proof fn lemma_index_adds_one(docs: Seq<DocView>, raw: Seq<char>, path: Seq<char>)
    requires
        parse_ok(raw),
    ensures
        docs.push(committed_doc(raw, path)).len() == docs.len() + 1,
{
}

/// Clearing empties the corpus, and clearing an already empty corpus
/// leaves it empty: the operation is idempotent.
pub proof fn lemma_clear_idempotent(docs: Seq<DocView>)
    ensures
        clear_model(docs).len() == 0,
        clear_model(clear_model(docs)) == clear_model(docs),
{
}

/// Ranking is deterministic: what a search returns is a function of the
/// corpus, the query and the limit alone, so the same query against an
/// unchanged corpus returns the same results in the same order.
pub proof fn lemma_ranking_deterministic(
    docs: Seq<DocView>,
    q: Seq<char>,
    limit: int,
    r1: Seq<SearchDocView>,
    r2: Seq<SearchDocView>,
)
    requires
        r1 == search_results(docs, q, limit),
        r2 == search_results(docs, q, limit),
    ensures
        r1 == r2,
{
}

/// A corpus prefix in which every document scores zero contributes no
/// candidates.
proof fn lemma_cand_upto_empty(docs: Seq<DocView>, terms: Seq<Seq<char>>, m: int)
    requires
        m <= docs.len(),
        forall|i: int| 0 <= i < m ==> doc_score(docs, #[trigger] docs[i], terms) == 0,
    ensures
        cand_upto(docs, terms, m) == Seq::<(usize, u64)>::empty(),
    decreases m,
{
    if m > 0 {
        lemma_cand_upto_empty(docs, terms, m - 1);
    }
}

/// The round trip: a document whose body holds a term that no committed
/// document contains is, once indexed, the one and only result of
/// searching for that term.
pub proof fn lemma_body_term_round_trip(
    docs: Seq<DocView>,
    raw: Seq<char>,
    path: Seq<char>,
    q: Seq<char>,
)
    requires
        parse_ok(raw),
        tokens(q).len() == 1,
        tf(committed_doc(raw, path), tokens(q)[0]) > 0,
        forall|i: int| 0 <= i < docs.len() ==> !has_term(#[trigger] docs[i], tokens(q)[0]),
        docs.len() <= usize::MAX - 1,
    ensures
        search_results(docs.push(committed_doc(raw, path)), q, 10) == seq![
            crate::project::project_spec(committed_doc(raw, path)),
        ],
{
    let d = committed_doc(raw, path);
    let docs2 = docs.push(d);
    let t = tokens(q)[0];
    let terms = tokens(q);
    let n = docs.len() as int;
    assert forall|i: int| 0 <= i < n implies doc_score(docs2, #[trigger] docs2[i], terms)
        == 0 by {
        assert(docs2[i] == docs[i]);
        lemma_score_pos_iff_match(docs2, docs[i], terms);
        assert forall|j: int| 0 <= j < terms.len() implies !has_term(docs[i], terms[j]) by {
            assert(terms[j] == t);
        }
    }
    lemma_cand_upto_empty(docs2, terms, n);
    assert(docs2[n] == d);
    lemma_score_pos_iff_match(docs2, d, terms);
    assert(has_term(d, terms[0]));
    let s = doc_score(docs2, d, terms);
    assert(s > 0);
    let cand = candidates(docs2, terms);
    assert(cand == cand_upto(docs2, terms, n + 1));
    assert(cand =~= seq![(n as usize, s)]);
    crate::rank::lemma_rank_le_total();
    cand.lemma_sort_by_ensures(rank_le());
    assert(sorted_by(cand, rank_le()));
    lemma_sorted_unique(ranked(docs2, terms), cand, rank_le());
    assert(ranked(docs2, terms) == cand);
    assert(top_ranked(docs2, terms, 10) == cand);
    assert(project_all(docs2, cand) =~= seq![crate::project::project_spec(d)]);
}

/// Pagination slices the full ranking: with the cut at `page * size`, page
/// `page` of size `size` holds exactly the window starting at
/// `(page - 1) * size`, and a page starting beyond the ranking is empty
/// rather than an error.
pub proof fn lemma_pagination_window(docs: Seq<DocView>, q: Seq<char>, page: int, size: int)
    requires
        1 <= page,
        1 <= size,
        page * size <= usize::MAX,
    ensures
        ranked(docs, tokens(q)).len() >= page * size ==> paged_results(docs, q, page, size)
            == project_all(
            docs,
            ranked(docs, tokens(q)).subrange((page - 1) * size, page * size),
        ),
        (page - 1) * size >= ranked(docs, tokens(q)).len() ==> paged_results(docs, q, page, size)
            == Seq::<SearchDocView>::empty(),
{
    let all = ranked(docs, tokens(q));
    let lim = page * size;
    let skip = (page - 1) * size;
    lemma_mul_inequality(page - 1, page, size);
    assert(skip <= lim);
    let top = top_ranked(docs, tokens(q), lim);
    if all.len() >= lim {
        assert(top == all.take(lim));
        assert((page - 1) * size + size == page * size) by (nonlinear_arith);
        assert(skip + size == lim);
        if skip >= top.len() {
            assert(lim <= skip);
            assert(size <= 0);
        }
        assert(top.subrange(skip, lim) =~= all.subrange(skip, lim));
        assert(paged_results(docs, q, page, size) == project_all(docs, all.subrange(skip, lim)));
    }
    if skip >= all.len() {
        assert(top.len() <= all.len());
        assert(paged_results(docs, q, page, size) =~= Seq::<SearchDocView>::empty());
    }
}

/// Every term of a document's body is a term of the document.
pub proof fn lemma_body_term_is_doc_term(d: DocView, t: Seq<char>)
    ensures
        tf(d, t) >= crate::text::count_occ(tokens(d.content), t),
{
    lemma_count_occ_concat(tokens(d.title), tokens(d.content), t);
    assert(doc_terms(d) == tokens(d.title) + tokens(d.content));
}

/// The committed document's body is the raw text after the closing marker,
/// so a term found only in the body is found in the committed document.
pub proof fn lemma_committed_body(raw: Seq<char>, path: Seq<char>, t: Seq<char>)
    requires
        crate::text::count_occ(tokens(body_of(raw)), t) > 0,
    ensures
        has_term(committed_doc(raw, path), t),
{
    lemma_body_term_is_doc_term(committed_doc(raw, path), t);
}

} // verus!
