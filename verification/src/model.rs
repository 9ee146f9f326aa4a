//! The mathematical model of the corpus: a committed document is four
//! character sequences, and the index is the sequence of committed documents
//! in commit order.  Term frequency and document frequency are defined here.

use vstd::prelude::*;
use crate::text::{tokens, count_occ};

verus! {

/// The model of one committed document.
pub struct DocView {
    /// Title text, indexed and stored.
    pub title: Seq<char>,
    /// Body text, indexed.
    pub content: Seq<char>,
    /// Source path, stored only.
    pub path: Seq<char>,
    /// Comma-joined tag list, stored only.
    pub tags: Seq<char>,
}

/// All index terms of a document: the terms of its title followed by the
/// terms of its content.
pub open spec fn doc_terms(d: DocView) -> Seq<Seq<char>> {
    tokens(d.title) + tokens(d.content)
}

/// Term frequency: how often a term occurs in a document.
pub open spec fn tf(d: DocView, t: Seq<char>) -> nat {
    count_occ(doc_terms(d), t)
}

/// Whether a document contains a term.
pub open spec fn has_term(d: DocView, t: Seq<char>) -> bool {
    tf(d, t) > 0
}

/// Document frequency: in how many documents of the corpus a term occurs.
pub open spec fn df(docs: Seq<DocView>, t: Seq<char>) -> nat
    decreases docs.len(),
{
    if docs.len() == 0 {
        0
    } else {
        df(docs.drop_last(), t) + (if has_term(docs.last(), t) {
            1nat
        } else {
            0nat
        })
    }
}

/// A term occurs in at most as many documents as the corpus holds.
pub proof fn lemma_df_le_len(docs: Seq<DocView>, t: Seq<char>)
    ensures
        df(docs, t) <= docs.len(),
    decreases docs.len(),
{
    if docs.len() > 0 {
        lemma_df_le_len(docs.drop_last(), t);
    }
}

/// Appending a document raises the document frequency of a term by one
/// exactly when the new document contains the term.
pub proof fn lemma_df_push(docs: Seq<DocView>, d: DocView, t: Seq<char>)
    ensures
        df(docs.push(d), t) == df(docs, t) + (if has_term(d, t) {
            1nat
        } else {
            0nat
        }),
{
    assert(docs.push(d).drop_last() =~= docs);
}

/// A term occurs somewhere in the corpus if and only if its document
/// frequency is positive.
pub proof fn lemma_df_pos(docs: Seq<DocView>, t: Seq<char>)
    ensures
        df(docs, t) > 0 <==> exists|i: int| 0 <= i < docs.len() && has_term(docs[i], t),
    decreases docs.len(),
{
    if docs.len() > 0 {
        lemma_df_pos(docs.drop_last(), t);
        if has_term(docs.last(), t) {
            assert(has_term(docs[docs.len() - 1], t));
        } else if df(docs, t) > 0 {
            let i = choose|i: int|
                0 <= i < docs.drop_last().len() && has_term(docs.drop_last()[i], t);
            assert(has_term(docs[i], t));
        } else {
            assert forall|i: int| 0 <= i < docs.len() implies !has_term(docs[i], t) by {
                if 0 <= i < docs.len() - 1 {
                    assert(docs.drop_last()[i] == docs[i]);
                }
            }
        }
    }
}

} // verus!
