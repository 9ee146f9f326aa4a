//! The inverted index: for every term that occurs in a committed document,
//! one entry holding the postings list — which documents contain the term,
//! and how often.  The invariants tie every entry exactly to the committed
//! documents, so the query engine can read frequencies off the postings.

use vstd::prelude::*;
use crate::chars::{clone_chars, eq_chars, str_to_chars};
use crate::model::{df, doc_terms, has_term, tf, DocView, lemma_df_pos};
use crate::text::{count_occ, lemma_count_occ_pos, tokenize, views, count_token};

verus! {

/// One stored document: the four stored field values.
pub struct StoredDoc {
    /// Title text, indexed and stored.
    pub title: String,
    /// Body text, indexed and stored for excerpts.
    pub content: String,
    /// Source path, stored only.
    pub path: String,
    /// Comma-joined tag list, stored only.
    pub tags: String,
}

impl View for StoredDoc {
    type V = DocView;

    open spec fn view(&self) -> DocView {
        DocView { title: self.title@, content: self.content@, path: self.path@, tags: self.tags@ }
    }
}

/// The models of a sequence of stored documents.
pub open spec fn docs_view(docs: Seq<StoredDoc>) -> Seq<DocView> {
    docs.map_values(|d: StoredDoc| d@)
}

/// One posting: a document that contains the entry's term, with the term's
/// frequency in it.
pub struct Posting {
    /// Position of the document in commit order.
    pub doc: usize,
    /// How often the term occurs in that document.
    pub tf: u64,
}

/// The model of a posting.
pub struct PostingView {
    /// Position of the document in commit order.
    pub doc: int,
    /// How often the term occurs in that document.
    pub tf: nat,
}

impl View for Posting {
    type V = PostingView;

    open spec fn view(&self) -> PostingView {
        PostingView { doc: self.doc as int, tf: self.tf as nat }
    }
}

/// The models of a postings list.
pub open spec fn pviews(ps: Seq<Posting>) -> Seq<PostingView> {
    ps.map_values(|p: Posting| p@)
}

/// One entry of the inverted index.
pub struct TermEntry {
    /// The term.
    pub term: Vec<char>,
    /// Its postings, in commit order.
    pub postings: Vec<Posting>,
}

/// The term of entry `i`.
pub open spec fn key(terms: Seq<TermEntry>, i: int) -> Seq<char> {
    terms[i].term@
}

/// The postings list a term must carry over a corpus: one posting per
/// document that contains the term, in commit order, with the exact term
/// frequency.
pub open spec fn postings_spec(docs: Seq<DocView>, t: Seq<char>) -> Seq<PostingView>
    decreases docs.len(),
{
    if docs.len() == 0 {
        Seq::empty()
    } else {
        let pre = postings_spec(docs.drop_last(), t);
        if has_term(docs.last(), t) {
            pre.push(PostingView { doc: docs.len() - 1, tf: tf(docs.last(), t) })
        } else {
            pre
        }
    }
}

/// Appending a document appends one posting to the lists of exactly the
/// terms the document contains.
pub proof fn lemma_postings_spec_push(docs: Seq<DocView>, d: DocView, t: Seq<char>)
    ensures
        postings_spec(docs.push(d), t) == if has_term(d, t) {
            postings_spec(docs, t).push(PostingView { doc: docs.len() as int, tf: tf(d, t) })
        } else {
            postings_spec(docs, t)
        },
{
    assert(docs.push(d).drop_last() =~= docs);
    assert(docs.push(d).last() == d);
}

/// A term's postings list is as long as its document frequency.
pub proof fn lemma_postings_len_df(docs: Seq<DocView>, t: Seq<char>)
    ensures
        postings_spec(docs, t).len() == df(docs, t),
    decreases docs.len(),
{
    if docs.len() > 0 {
        lemma_postings_len_df(docs.drop_last(), t);
    }
}

/// Every posting of a term names a document that contains the term, with
/// the exact frequency.
pub proof fn lemma_postings_items(docs: Seq<DocView>, t: Seq<char>)
    ensures
        forall|k: int| 0 <= k < postings_spec(docs, t).len() ==> {
            let p = #[trigger] postings_spec(docs, t)[k];
            0 <= p.doc < docs.len() && p.tf == tf(docs[p.doc], t) && p.tf > 0
        },
    decreases docs.len(),
{
    if docs.len() > 0 {
        lemma_postings_items(docs.drop_last(), t);
        let pre = postings_spec(docs.drop_last(), t);
        assert forall|k: int| 0 <= k < postings_spec(docs, t).len() implies {
            let p = #[trigger] postings_spec(docs, t)[k];
            0 <= p.doc < docs.len() && p.tf == tf(docs[p.doc], t) && p.tf > 0
        } by {
            if k < pre.len() {
                assert(postings_spec(docs, t)[k] == pre[k]);
                assert(docs.drop_last()[pre[k].doc] == docs[pre[k].doc]);
            } else {
                assert(docs.last() == docs[docs.len() - 1]);
            }
        }
    }
}

/// Every document that contains a term stands in the term's postings list.
pub proof fn lemma_postings_complete(docs: Seq<DocView>, t: Seq<char>)
    ensures
        forall|id: int| 0 <= id < docs.len() && has_term(docs[id], t) ==> exists|k: int|
            0 <= k < postings_spec(docs, t).len() && (#[trigger] postings_spec(docs, t)[k]).doc
                == id,
    decreases docs.len(),
{
    if docs.len() > 0 {
        lemma_postings_complete(docs.drop_last(), t);
        let pre = postings_spec(docs.drop_last(), t);
        let cur = postings_spec(docs, t);
        assert forall|id: int| 0 <= id < docs.len() && has_term(docs[id], t) implies exists|k: int|
            0 <= k < cur.len() && (#[trigger] cur[k]).doc == id by {
            if id < docs.len() - 1 {
                assert(docs.drop_last()[id] == docs[id]);
                let k = choose|k: int| 0 <= k < pre.len() && (#[trigger] pre[k]).doc == id;
                assert(cur[k].doc == id);
            } else {
                assert(docs.last() == docs[id]);
                assert(cur[cur.len() - 1].doc == id);
            }
        }
    }
}

/// The index is well formed over a corpus: entry terms are distinct, and
/// every entry carries exactly the postings list its term must carry.
pub open spec fn entries_wf(terms: Seq<TermEntry>, docs: Seq<DocView>) -> bool {
    &&& forall|i: int, j: int| 0 <= i < j < terms.len() ==> #[trigger] key(terms, i)
        != #[trigger] key(terms, j)
    &&& forall|i: int| 0 <= i < terms.len() ==> pviews(terms[i].postings@) == postings_spec(
        docs,
        #[trigger] key(terms, i),
    )
}

/// Whether the index has an entry for a term.
pub open spec fn has_entry(terms: Seq<TermEntry>, t: Seq<char>) -> bool {
    exists|i: int| 0 <= i < terms.len() && #[trigger] key(terms, i) == t
}

/// Every term of every committed document has an entry.
pub open spec fn entries_complete(terms: Seq<TermEntry>, docs: Seq<DocView>) -> bool {
    forall|id: int, k: int|
        0 <= id < docs.len() && 0 <= k < doc_terms(docs[id]).len() ==> has_entry(
            terms,
            #[trigger] doc_terms(docs[id])[k],
        )
}

/// A term without an entry occurs in no committed document.
pub proof fn lemma_no_entry(terms: Seq<TermEntry>, docs: Seq<DocView>, t: Seq<char>)
    requires
        entries_complete(terms, docs),
        !has_entry(terms, t),
    ensures
        forall|i: int| 0 <= i < docs.len() ==> !has_term(#[trigger] docs[i], t),
        df(docs, t) == 0,
{
    assert forall|i: int| 0 <= i < docs.len() implies !has_term(#[trigger] docs[i], t) by {
        if has_term(docs[i], t) {
            lemma_count_occ_pos(doc_terms(docs[i]), t);
            let k = choose|k: int| 0 <= k < doc_terms(docs[i]).len() && doc_terms(docs[i])[k] == t;
            assert(has_entry(terms, doc_terms(docs[i])[k]));
        }
    }
    lemma_df_pos(docs, t);
}

/// Finds the entry of a term, if the index has one.
pub fn find_entry(terms: &Vec<TermEntry>, t: &Vec<char>) -> (r: Option<usize>)
    ensures
        r matches Some(i) ==> (i as int) < terms@.len() && key(terms@, i as int) == t@,
        r is None ==> !has_entry(terms@, t@),
{
    let mut i: usize = 0;
    while i < terms.len()
        invariant
            i <= terms@.len(),
            forall|k: int| 0 <= k < i ==> #[trigger] key(terms@, k) != t@,
        decreases terms@.len() - i,
    {
        if eq_chars(&terms[i].term, t) {
            return Some(i);
        }
        i = i + 1;
    }
    None
}

/// The key of entry `i` of a counts list.
pub open spec fn ckey(cs: Seq<(Vec<char>, u64)>, i: int) -> Seq<char> {
    cs[i].0@
}

/// Whether one of the first `upto` counted terms is `t`.
pub open spec fn processed(cs: Seq<(Vec<char>, u64)>, upto: int, t: Seq<char>) -> bool {
    exists|j: int| 0 <= j < upto && #[trigger] ckey(cs, j) == t
}

/// Scans a counts list for a term.
fn find_count(cs: &Vec<(Vec<char>, u64)>, t: &Vec<char>) -> (r: bool)
    ensures
        r == processed(cs@, cs@.len() as int, t@),
{
    let mut i: usize = 0;
    while i < cs.len()
        invariant
            i <= cs@.len(),
            forall|k: int| 0 <= k < i ==> #[trigger] ckey(cs@, k) != t@,
        decreases cs@.len() - i,
    {
        if eq_chars(&cs[i].0, t) {
            proof {
                assert(ckey(cs@, i as int) == t@);
            }
            return true;
        }
        i = i + 1;
    }
    false
}

/// Reduces a token list to its distinct terms, each with its exact count.
pub fn distinct_counts(toks: &Vec<Vec<char>>) -> (r: Vec<(Vec<char>, u64)>)
    ensures
        forall|i: int, j: int| 0 <= i < j < r@.len() ==> #[trigger] ckey(r@, i) != #[trigger] ckey(
            r@,
            j,
        ),
        forall|i: int| 0 <= i < r@.len() ==> (#[trigger] r@[i].1) as nat == count_occ(
            views(toks@),
            ckey(r@, i),
        ) && r@[i].1 > 0,
        forall|k: int| 0 <= k < views(toks@).len() ==> processed(
            r@,
            r@.len() as int,
            #[trigger] views(toks@)[k],
        ),
{
    let mut out: Vec<(Vec<char>, u64)> = Vec::new();
    let mut k: usize = 0;
    while k < toks.len()
        invariant
            k <= toks@.len(),
            forall|i: int, j: int| 0 <= i < j < out@.len() ==> #[trigger] ckey(out@, i)
                != #[trigger] ckey(out@, j),
            forall|i: int| 0 <= i < out@.len() ==> (#[trigger] out@[i].1) as nat == count_occ(
                views(toks@),
                ckey(out@, i),
            ) && out@[i].1 > 0,
            forall|m: int| 0 <= m < k ==> processed(
                out@,
                out@.len() as int,
                #[trigger] views(toks@)[m],
            ),
        decreases toks@.len() - k,
    {
        let ghost out0 = out@;
        let present = find_count(&out, &toks[k]);
        if !present {
            let c = count_token(toks, &toks[k]);
            proof {
                lemma_count_occ_pos(views(toks@), toks@[k as int]@);
                assert(views(toks@)[k as int] == toks@[k as int]@);
            }
            let tkey = clone_chars(&toks[k]);
            out.push((tkey, c));
            proof {
                assert(ckey(out@, out@.len() - 1) == toks@[k as int]@);
                assert(forall|i: int| 0 <= i < out0.len() ==> #[trigger] ckey(out@, i) == ckey(
                    out0,
                    i,
                ));
                assert(forall|i: int| 0 <= i < out0.len() ==> out@[i] == out0[i]);
            }
        }
        proof {
            assert(views(toks@)[k as int] == toks@[k as int]@);
            assert(processed(out@, out@.len() as int, toks@[k as int]@)) by {
                if !present {
                    assert(ckey(out@, out@.len() - 1) == toks@[k as int]@);
                }
            }
            assert forall|m: int| 0 <= m < k + 1 implies processed(
                out@,
                out@.len() as int,
                #[trigger] views(toks@)[m],
            ) by {
                if m < k {
                    let j = choose|j: int|
                        0 <= j < out0.len() && #[trigger] ckey(out0, j) == views(toks@)[m];
                    assert(ckey(out@, j) == views(toks@)[m]);
                }
            }
        }
        k = k + 1;
    }
    out
}

/// Commits one parsed document: appends it to the corpus and folds each of
/// its terms into the inverted index, keeping the index exactly in step
/// with the corpus.
pub fn commit_doc(terms: &mut Vec<TermEntry>, docs: &mut Vec<StoredDoc>, d: StoredDoc)
    requires
        entries_wf(old(terms)@, docs_view(old(docs)@)),
        entries_complete(old(terms)@, docs_view(old(docs)@)),
    ensures
        final(docs)@ == old(docs)@.push(d),
        entries_wf(final(terms)@, docs_view(final(docs)@)),
        entries_complete(final(terms)@, docs_view(final(docs)@)),
{
    let ghost odocs = docs_view(docs@);
    let ghost dv = d@;
    let ghost terms0 = terms@;
    let n = docs.len();
    let tcs = str_to_chars(d.title.as_str());
    let ccs = str_to_chars(d.content.as_str());
    let mut toks = tokenize(&tcs);
    let ghost title_toks = toks@;
    let mut ctoks = tokenize(&ccs);
    let ghost content_toks = ctoks@;
    toks.append(&mut ctoks);
    proof {
        assert(toks@ == title_toks + content_toks);
        assert(views(toks@) =~= views(title_toks) + views(content_toks));
        assert(views(toks@) =~= doc_terms(dv));
    }
    let counts = distinct_counts(&toks);
    docs.push(d);
    let ghost ndocs = docs_view(docs@);
    proof {
        assert(ndocs =~= odocs.push(dv));
    }
    let mut idx: usize = 0;
    while idx < counts.len()
        invariant
            idx <= counts@.len(),
            n as int == odocs.len(),
            ndocs == odocs.push(dv),
            docs_view(docs@) == ndocs,
            entries_complete(terms0, odocs),
            views(toks@) == doc_terms(dv),
            forall|i: int, j: int| 0 <= i < j < counts@.len() ==> #[trigger] ckey(counts@, i)
                != #[trigger] ckey(counts@, j),
            forall|i: int| 0 <= i < counts@.len() ==> (#[trigger] counts@[i].1) as nat == tf(
                dv,
                ckey(counts@, i),
            ) && counts@[i].1 > 0,
            forall|m: int| 0 <= m < doc_terms(dv).len() ==> processed(
                counts@,
                counts@.len() as int,
                #[trigger] doc_terms(dv)[m],
            ),
            forall|i: int, j: int| 0 <= i < j < terms@.len() ==> #[trigger] key(terms@, i)
                != #[trigger] key(terms@, j),
            forall|i: int| 0 <= i < terms@.len() && processed(
                counts@,
                idx as int,
                #[trigger] key(terms@, i),
            ) ==> pviews(terms@[i].postings@) == postings_spec(ndocs, key(terms@, i)),
            forall|i: int| 0 <= i < terms@.len() && !processed(
                counts@,
                idx as int,
                #[trigger] key(terms@, i),
            ) ==> pviews(terms@[i].postings@) == postings_spec(odocs, key(terms@, i)),
            forall|t: Seq<char>| #[trigger] has_entry(terms0, t) ==> has_entry(terms@, t),
            forall|j: int| 0 <= j < idx ==> has_entry(terms@, #[trigger] ckey(counts@, j)),
        decreases counts@.len() - idx,
    {
        let ghost t_spec = ckey(counts@, idx as int);
        let c = counts[idx].1;
        proof {
            assert(counts@[idx as int].1 as nat == tf(dv, t_spec));
            assert(has_term(dv, t_spec));
            lemma_postings_spec_push(odocs, dv, t_spec);
        }
        let r = find_entry(terms, &counts[idx].0);
        match r {
            Some(i) => {
                let ghost terms_before = terms@;
                proof {
                    // this entry has not been touched yet: the counted terms
                    // are distinct
                    assert(!processed(counts@, idx as int, key(terms@, i as int)));
                    assert(pviews(terms@[i as int].postings@) == postings_spec(odocs, t_spec));
                }
                terms[i].postings.push(Posting { doc: n, tf: c });
                proof {
                    assert(terms@[i as int].term@ == terms_before[i as int].term@);
                    assert(terms@[i as int].postings@ == terms_before[i as int].postings@.push(
                        Posting { doc: n, tf: c },
                    ));
                    assert(pviews(terms@[i as int].postings@) =~= pviews(
                        terms_before[i as int].postings@,
                    ).push(PostingView { doc: n as int, tf: c as nat }));
                    assert(pviews(terms@[i as int].postings@) == postings_spec(ndocs, t_spec));
                    assert(forall|m: int| 0 <= m < terms@.len() && m != i ==> terms@[m]
                        == terms_before[m]);
                    assert(forall|m: int| 0 <= m < terms@.len() ==> #[trigger] key(terms@, m)
                        == key(terms_before, m));
                    assert forall|m: int|
                        0 <= m < terms@.len() && processed(
                            counts@,
                            idx + 1 as int,
                            #[trigger] key(terms@, m),
                        ) implies pviews(terms@[m].postings@) == postings_spec(
                        ndocs,
                        key(terms@, m),
                    ) by {
                        if m != i {
                            if !processed(counts@, idx as int, key(terms@, m)) {
                                let j = choose|j: int|
                                    0 <= j < idx + 1 && #[trigger] ckey(counts@, j) == key(
                                        terms@,
                                        m,
                                    );
                                assert(j == idx);
                                assert(key(terms@, m) == t_spec);
                                assert(key(terms@, i as int) == t_spec);
                                assert(false);
                            }
                        }
                    }
                    assert forall|m: int|
                        0 <= m < terms@.len() && !processed(
                            counts@,
                            idx + 1 as int,
                            #[trigger] key(terms@, m),
                        ) implies pviews(terms@[m].postings@) == postings_spec(
                        odocs,
                        key(terms@, m),
                    ) by {
                        assert(m != i);
                        assert(!processed(counts@, idx as int, key(terms@, m)));
                    }
                    assert forall|t: Seq<char>| #[trigger] has_entry(terms0, t) implies has_entry(
                        terms@,
                        t,
                    ) by {
                        assert(has_entry(terms_before, t));
                        let j = choose|j: int|
                            0 <= j < terms_before.len() && #[trigger] key(terms_before, j) == t;
                        assert(key(terms@, j) == t);
                    }
                    assert forall|j: int| 0 <= j < idx + 1 implies has_entry(
                        terms@,
                        #[trigger] ckey(counts@, j),
                    ) by {
                        if j < idx {
                            let m = choose|m: int|
                                0 <= m < terms_before.len() && #[trigger] key(terms_before, m)
                                    == ckey(counts@, j);
                            assert(key(terms@, m) == ckey(counts@, j));
                        } else {
                            assert(key(terms@, i as int) == ckey(counts@, j));
                        }
                    }
                }
            },
            None => {
                let ghost terms_before = terms@;
                proof {
                    assert(!has_entry(terms0, t_spec));
                    lemma_no_entry(terms0, odocs, t_spec);
                    lemma_postings_len_df(odocs, t_spec);
                    assert(postings_spec(odocs, t_spec) =~= Seq::<PostingView>::empty());
                }
                let mut ps: Vec<Posting> = Vec::new();
                ps.push(Posting { doc: n, tf: c });
                let tkey = clone_chars(&counts[idx].0);
                terms.push(TermEntry { term: tkey, postings: ps });
                proof {
                    let li = terms@.len() - 1;
                    assert(terms@[li].term@ == t_spec);
                    assert(key(terms@, li) == t_spec);
                    assert(pviews(terms@[li].postings@) =~= Seq::<PostingView>::empty().push(
                        PostingView { doc: n as int, tf: c as nat },
                    ));
                    assert(pviews(terms@[li].postings@) == postings_spec(ndocs, t_spec));
                    assert(forall|m: int| 0 <= m < terms_before.len() ==> terms@[m]
                        == terms_before[m]);
                    assert(forall|m: int| 0 <= m < terms_before.len() ==> #[trigger] key(terms@, m)
                        == key(terms_before, m));
                    assert forall|i: int, j: int| 0 <= i < j < terms@.len() implies #[trigger] key(
                        terms@,
                        i,
                    ) != #[trigger] key(terms@, j) by {
                        if j == li {
                            assert(!has_entry(terms_before, t_spec));
                            assert(key(terms@, i) == key(terms_before, i));
                        }
                    }
                    assert forall|m: int|
                        0 <= m < terms@.len() && processed(
                            counts@,
                            idx + 1 as int,
                            #[trigger] key(terms@, m),
                        ) implies pviews(terms@[m].postings@) == postings_spec(
                        ndocs,
                        key(terms@, m),
                    ) by {
                        if m < li {
                            if !processed(counts@, idx as int, key(terms@, m)) {
                                let j = choose|j: int|
                                    0 <= j < idx + 1 && #[trigger] ckey(counts@, j) == key(
                                        terms@,
                                        m,
                                    );
                                assert(j == idx);
                                assert(has_entry(terms_before, t_spec)) by {
                                    assert(key(terms_before, m) == t_spec);
                                }
                                assert(false);
                            }
                        }
                    }
                    assert forall|m: int|
                        0 <= m < terms@.len() && !processed(
                            counts@,
                            idx + 1 as int,
                            #[trigger] key(terms@, m),
                        ) implies pviews(terms@[m].postings@) == postings_spec(
                        odocs,
                        key(terms@, m),
                    ) by {
                        assert(m != li) by {
                            assert(ckey(counts@, idx as int) == key(terms@, li));
                        }
                        assert(!processed(counts@, idx as int, key(terms@, m)));
                    }
                    assert forall|t: Seq<char>| #[trigger] has_entry(terms0, t) implies has_entry(
                        terms@,
                        t,
                    ) by {
                        assert(has_entry(terms_before, t));
                        let j = choose|j: int|
                            0 <= j < terms_before.len() && #[trigger] key(terms_before, j) == t;
                        assert(key(terms@, j) == t);
                    }
                    assert forall|j: int| 0 <= j < idx + 1 implies has_entry(
                        terms@,
                        #[trigger] ckey(counts@, j),
                    ) by {
                        if j < idx {
                            let m = choose|m: int|
                                0 <= m < terms_before.len() && #[trigger] key(terms_before, m)
                                    == ckey(counts@, j);
                            assert(key(terms@, m) == ckey(counts@, j));
                        } else {
                            assert(key(terms@, li) == ckey(counts@, j));
                        }
                    }
                }
            },
        }
        idx = idx + 1;
    }
    proof {
        assert forall|i: int| 0 <= i < terms@.len() implies pviews(terms@[i].postings@)
            == postings_spec(ndocs, #[trigger] key(terms@, i)) by {
            if !processed(counts@, counts@.len() as int, key(terms@, i)) {
                // the term occurs nowhere in the new document
                lemma_count_occ_pos(doc_terms(dv), key(terms@, i));
                if has_term(dv, key(terms@, i)) {
                    let k = choose|k: int|
                        0 <= k < doc_terms(dv).len() && doc_terms(dv)[k] == key(terms@, i);
                    assert(processed(counts@, counts@.len() as int, doc_terms(dv)[k]));
                    assert(false);
                }
                lemma_postings_spec_push(odocs, dv, key(terms@, i));
            }
        }
        assert forall|id: int, k: int|
            0 <= id < ndocs.len() && 0 <= k < doc_terms(ndocs[id]).len() implies has_entry(
            terms@,
            #[trigger] doc_terms(ndocs[id])[k],
        ) by {
            if id < ndocs.len() - 1 {
                assert(ndocs[id] == odocs[id]);
                assert(has_entry(terms0, doc_terms(odocs[id])[k]));
            } else {
                assert(ndocs[id] == dv);
                assert(processed(counts@, counts@.len() as int, doc_terms(dv)[k]));
                let j = choose|j: int|
                    0 <= j < counts@.len() && #[trigger] ckey(counts@, j) == doc_terms(dv)[k];
                assert(has_entry(terms@, ckey(counts@, j)));
            }
        }
    }
}

/// Reads a term's frequency in one document off the term's postings list.
pub fn posting_tf(
    ps: &Vec<Posting>,
    id: usize,
    Ghost(docs): Ghost<Seq<DocView>>,
    Ghost(t): Ghost<Seq<char>>,
) -> (r: u64)
    requires
        pviews(ps@) == postings_spec(docs, t),
        (id as int) < docs.len(),
    ensures
        r as nat == tf(docs[id as int], t),
{
    proof {
        lemma_postings_items(docs, t);
        lemma_postings_complete(docs, t);
    }
    let mut k: usize = 0;
    while k < ps.len()
        invariant
            k <= ps@.len(),
            pviews(ps@) == postings_spec(docs, t),
            (id as int) < docs.len(),
            forall|m: int| 0 <= m < k ==> (#[trigger] postings_spec(docs, t)[m]).doc != id as int,
        decreases ps@.len() - k,
    {
        proof {
            lemma_postings_items(docs, t);
            assert(postings_spec(docs, t)[k as int] == ps@[k as int]@);
        }
        if ps[k].doc == id {
            return ps[k].tf;
        }
        k = k + 1;
    }
    proof {
        if has_term(docs[id as int], t) {
            let m = choose|m: int|
                0 <= m < postings_spec(docs, t).len() && (#[trigger] postings_spec(docs, t)[m]).doc
                    == id as int;
            assert(false);
        }
    }
    0
}

} // verus!
