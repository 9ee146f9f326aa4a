//! Relevance scoring.  A term's weight falls as its document frequency
//! rises; a document's score for a query is the saturating sum, over the
//! query terms, of term frequency times term weight.  All arithmetic
//! saturates at `u64::MAX`, which keeps the score total, monotonic in term
//! frequency and antitonic in document frequency.

use vstd::prelude::*;
use vstd::arithmetic::div_mod::{lemma_div_by_self, lemma_div_is_ordered, lemma_div_is_ordered_by_denominator};
use vstd::arithmetic::mul::{lemma_mul_inequality, lemma_mul_strictly_positive};
use crate::model::{df, tf, has_term, DocView, lemma_df_le_len};

verus! {

/// Fixed point scale of term weights.
pub const SCORE_SCALE: u64 = 1000;

/// Clamps a mathematical integer into the `u64` range.
pub open spec fn clamp64(x: int) -> u64 {
    if x > u64::MAX {
        u64::MAX
    } else if x < 0 {
        0
    } else {
        x as u64
    }
}

/// The weight of a term in a corpus of `n_docs` documents, `dfv` of which
/// contain the term: the scaled inverse document frequency.
pub open spec fn weight(n_docs: nat, dfv: nat) -> u64 {
    clamp64((SCORE_SCALE * (n_docs + 1)) as int / (dfv + 1) as int)
}

/// What one term contributes to a document's score.
pub open spec fn term_score(tfv: nat, n_docs: nat, dfv: nat) -> u64 {
    clamp64(tfv * weight(n_docs, dfv))
}

/// A document's score for a sequence of query terms, against the corpus
/// `docs` (which fixes each term's document frequency).
pub open spec fn doc_score(docs: Seq<DocView>, d: DocView, terms: Seq<Seq<char>>) -> u64
    decreases terms.len(),
{
    if terms.len() == 0 {
        0u64
    } else {
        clamp64(
            doc_score(docs, d, terms.drop_last()) + term_score(
                tf(d, terms.last()),
                docs.len(),
                df(docs, terms.last()),
            ),
        )
    }
}

/// Saturating addition on `u64`.
pub fn sat_add64(a: u64, b: u64) -> (r: u64)
    ensures
        r == clamp64(a + b),
{
    a.saturating_add(b)
}

/// Saturating multiplication on `u64`.
pub fn sat_mul64(a: u64, b: u64) -> (r: u64)
    ensures
        r == clamp64(a * b),
{
    match a.checked_mul(b) {
        Some(x) => x,
        None => u64::MAX,
    }
}

/// Computes the weight of a term.
pub fn weight_x(n_docs: usize, dfv: u64) -> (r: u64)
    ensures
        r == weight(n_docs as nat, dfv as nat),
{
    proof {
        lemma_mul_inequality(
            n_docs as int + 1,
            0x1_0000_0000_0000_0000,
            SCORE_SCALE as int,
        );
    }
    let num: u128 = (n_docs as u128 + 1) * (SCORE_SCALE as u128);
    let q: u128 = num / (dfv as u128 + 1);
    if q > u64::MAX as u128 {
        u64::MAX
    } else {
        q as u64
    }
}

/// A term that occurs in no more documents than the corpus holds has a
/// weight of at least one.
pub proof fn lemma_weight_pos(n_docs: nat, dfv: nat)
    requires
        dfv <= n_docs,
    ensures
        weight(n_docs, dfv) >= 1,
{
    let num = SCORE_SCALE * (n_docs + 1);
    assert(num >= n_docs + 1) by {
        lemma_mul_inequality(1, SCORE_SCALE as int, n_docs as int + 1);
    }
    lemma_div_by_self(dfv as int + 1);
    lemma_div_is_ordered(dfv as int + 1, num as int, dfv as int + 1);
}

/// A term contributes to a document's score exactly when the document
/// contains it.
pub proof fn lemma_term_score_pos(d: DocView, n_docs: nat, dfv: nat, t: Seq<char>)
    requires
        dfv <= n_docs,
    ensures
        term_score(tf(d, t), n_docs, dfv) > 0 <==> has_term(d, t),
{
    lemma_weight_pos(n_docs, dfv);
    let tfv = tf(d, t);
    let w = weight(n_docs, dfv);
    if tfv > 0 {
        lemma_mul_strictly_positive(tfv as int, w as int);
        assert(tfv * w > 0);
        assert(term_score(tfv, n_docs, dfv) == clamp64((tfv * w) as int));
        assert(clamp64((tfv * w) as int) > 0);
    } else {
        assert(tfv * w == 0) by (nonlinear_arith)
            requires
                tfv == 0,
        ;
    }
}

/// A document scores above zero for a query exactly when it contains at
/// least one of the query's terms.
pub proof fn lemma_score_pos_iff_match(docs: Seq<DocView>, d: DocView, terms: Seq<Seq<char>>)
    ensures
        doc_score(docs, d, terms) > 0 <==> exists|j: int|
            0 <= j < terms.len() && has_term(d, terms[j]),
    decreases terms.len(),
{
    if terms.len() > 0 {
        let t = terms.last();
        lemma_score_pos_iff_match(docs, d, terms.drop_last());
        lemma_df_le_len(docs, t);
        lemma_term_score_pos(d, docs.len(), df(docs, t), t);
        if has_term(d, t) {
            assert(has_term(d, terms[terms.len() - 1]));
        } else if doc_score(docs, d, terms) > 0 {
            if doc_score(docs, d, terms.drop_last()) > 0 {
                let j = choose|j: int|
                    0 <= j < terms.drop_last().len() && has_term(d, terms.drop_last()[j]);
                assert(has_term(d, terms[j]));
            }
        } else {
            assert forall|j: int| 0 <= j < terms.len() implies !has_term(d, terms[j]) by {
                if 0 <= j < terms.len() - 1 {
                    assert(terms.drop_last()[j] == terms[j]);
                }
            }
        }
    }
}

/// The score is monotonic in term frequency: raising the frequency of one
/// query term (all else equal) never lowers that term's contribution.
pub proof fn lemma_term_score_monotone_tf(tf1: nat, tf2: nat, n_docs: nat, dfv: nat)
    requires
        tf1 <= tf2,
    ensures
        term_score(tf1, n_docs, dfv) <= term_score(tf2, n_docs, dfv),
{
    lemma_mul_inequality(tf1 as int, tf2 as int, weight(n_docs, dfv) as int);
}

/// The weight is antitonic in document frequency: a term found in more
/// documents never weighs more.
pub proof fn lemma_weight_antitone_df(n_docs: nat, df1: nat, df2: nat)
    requires
        df1 <= df2,
    ensures
        weight(n_docs, df2) <= weight(n_docs, df1),
{
    lemma_div_is_ordered_by_denominator(
        (SCORE_SCALE * (n_docs + 1)) as int,
        df1 as int + 1,
        df2 as int + 1,
    );
}

} // verus!
