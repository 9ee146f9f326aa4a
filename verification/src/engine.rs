//! The engine facade: open, index, search, paginate, clear, count.
//!
//! The engine keeps the committed documents in commit order together with
//! the inverted index over them; its model is the sequence of committed
//! document models.  Search parses the query into terms, ranks every
//! matching document by descending score with ties in commit order, cuts
//! the list to the requested window and projects it.

use vstd::prelude::*;
use vstd::string::StringExecFns;
use crate::errors::SearchError;
use crate::index::{commit_doc, docs_view, entries_complete, entries_wf, StoredDoc, TermEntry};
use crate::model::DocView;
use crate::parser::{body_of, has_close_marker, has_open_marker, meta_of, parse, parse_ok, parsed_tags, parsed_title};
use crate::project::{project, project_spec, SearchDoc, SearchDocView};
use crate::rank::{build_candidates, candidates, cand_upto, rank_le, sort_candidates, top_ranked};
use crate::meta::{toml_parses, toml_title};
use crate::text::{tokenize, tokens, views};
use crate::chars::str_to_chars;

verus! {

/// The number of results the plain search returns.
pub const DEFAULT_SEARCH_LIMIT: usize = 10;

/// The number of fields of the fixed schema: title, content, path, tags.
pub const FIELD_COUNT: u64 = 4;

/// How often a character occurs in a text.
pub open spec fn count_char(s: Seq<char>, c: char) -> nat
    decreases s.len(),
{
    if s.len() == 0 {
        0
    } else {
        count_char(s.drop_last(), c) + (if s.last() == c {
            1nat
        } else {
            0nat
        })
    }
}

/// A query is well-formed when its double quotes are balanced.
pub open spec fn quotes_balanced(q: Seq<char>) -> bool {
    count_char(q, '"') % 2 == 0
}

/// What clearing leaves of a corpus: nothing, whatever was committed.
pub open spec fn clear_model(docs: Seq<DocView>) -> Seq<DocView> {
    Seq::empty()
}

/// The document that indexing a raw text under a path commits.
pub open spec fn committed_doc(raw: Seq<char>, path: Seq<char>) -> DocView {
    DocView { title: parsed_title(raw), content: body_of(raw), path, tags: parsed_tags(raw) }
}

/// The projections of a candidate list against a corpus.
pub open spec fn project_all(docs: Seq<DocView>, cs: Seq<(usize, u64)>) -> Seq<SearchDocView> {
    cs.map_values(|c: (usize, u64)| project_spec(docs[c.0 as int]))
}

/// One page out of an ordered list: skip, then take at most `size`.
pub open spec fn page_of(s: Seq<(usize, u64)>, skip: int, size: int) -> Seq<(usize, u64)> {
    if skip >= s.len() {
        Seq::empty()
    } else if skip + size > s.len() {
        s.subrange(skip, s.len() as int)
    } else {
        s.subrange(skip, skip + size)
    }
}

/// A mathematical integer clamped into the `usize` range.
pub open spec fn cap_usize(x: int) -> int {
    if x > usize::MAX {
        usize::MAX as int
    } else {
        x
    }
}

/// What a search returns: the top `limit` ranked matches, projected.
pub open spec fn search_results(docs: Seq<DocView>, q: Seq<char>, limit: int) -> Seq<
    SearchDocView,
> {
    project_all(docs, top_ranked(docs, tokens(q), limit))
}

/// What a paginated search returns: the ranked list is cut at `page * size`
/// first, and the page window is sliced out of that cut — so a page beyond
/// the cut is empty rather than an error.
pub open spec fn paged_results(docs: Seq<DocView>, q: Seq<char>, page: int, size: int) -> Seq<
    SearchDocView,
> {
    let all = top_ranked(docs, tokens(q), cap_usize(page * size));
    project_all(docs, page_of(all, cap_usize((page - 1) * size), size))
}

/// Index statistics: how many documents are committed, over how many
/// schema fields.
#[derive(Debug)]
pub struct IndexStats {
    /// Number of committed documents.
    pub doc_count: u64,
    /// Number of fields of the fixed schema.
    pub field_count: u64,
}

/// The search engine: the committed documents and the inverted index over
/// them, rooted at a configured index directory.
pub struct SearchEngine {
    index_path: String,
    docs: Vec<StoredDoc>,
    terms: Vec<TermEntry>,
}

impl View for SearchEngine {
    type V = Seq<DocView>;

    closed spec fn view(&self) -> Seq<DocView> {
        docs_view(self.docs@)
    }
}

impl SearchEngine {
    /// The engine's internal invariant: the inverted index is exactly in
    /// step with the committed documents.
    pub closed spec fn wf(&self) -> bool {
        &&& entries_wf(self.terms@, self@)
        &&& entries_complete(self.terms@, self@)
    }

    /// The index directory this engine was opened on.
    pub closed spec fn path_spec(&self) -> Seq<char> {
        self.index_path@
    }

    /// Opens an engine rooted at the given index directory.  The in-memory
    /// index starts empty; the surrounding process re-indexes its corpus at
    /// startup and persists under the configured directory.
    pub fn new(index_path: &str) -> (r: Result<SearchEngine, SearchError>)
        ensures
            r matches Ok(e) && e@ == Seq::<DocView>::empty() && e.wf() && e.path_spec()
                == index_path@,
    {
        let e = SearchEngine {
            index_path: String::from_str(index_path),
            docs: Vec::new(),
            terms: Vec::new(),
        };
        proof {
            assert(e@ =~= Seq::<DocView>::empty());
        }
        Ok(e)
    }

    /// Parses a raw document and commits it: one add plus commit.  On
    /// success the corpus grows by exactly the parsed document; on any
    /// parse failure the engine is left untouched and the failure says
    /// which stage refused the document.
    pub fn index_document(&mut self, content: &str, file_path: &str) -> (r: Result<
        (),
        SearchError,
    >)
        requires
            old(self).wf(),
        ensures
            final(self).wf(),
            r is Ok <==> parse_ok(content@),
            parse_ok(content@) ==> final(self)@ == old(self)@.push(
                committed_doc(content@, file_path@),
            ),
            !parse_ok(content@) ==> final(self)@ == old(self)@,
            !(has_open_marker(content@) && has_close_marker(content@)) ==> (r matches Err(e)
                && e is InvalidDocument),
            has_open_marker(content@) && has_close_marker(content@) && !toml_parses(
                meta_of(content@),
            ) ==> (r matches Err(e) && e is MetadataParseError),
            has_open_marker(content@) && has_close_marker(content@) && toml_parses(
                meta_of(content@),
            ) && toml_title(meta_of(content@)) is None ==> (r matches Err(e) && e matches
                SearchError::FieldNotFound(f) && f@ == "title"@),
    {
        match parse(content) {
            Err(e) => Err(e),
            Ok(pd) => {
                let doc = StoredDoc {
                    title: pd.title,
                    content: pd.content,
                    path: String::from_str(file_path),
                    tags: pd.tags,
                };
                proof {
                    assert(doc@ == committed_doc(content@, file_path@));
                }
                let ghost docs0 = self.docs@;
                commit_doc(&mut self.terms, &mut self.docs, doc);
                proof {
                    assert(docs_view(self.docs@) =~= docs_view(docs0).push(
                        committed_doc(content@, file_path@),
                    ));
                }
                Ok(())
            },
        }
    }

    /// The top `limit` ranked candidates for the given query terms.
    fn top_docs(&self, qterms: &Vec<Vec<char>>, limit: usize) -> (r: Vec<(usize, u64)>)
        requires
            self.wf(),
        ensures
            r@ == top_ranked(self@, views(qterms@), limit as int),
            forall|i: int| 0 <= i < r@.len() ==> (#[trigger] r@[i]).0 < self@.len(),
    {
        let cands = build_candidates(&self.terms, qterms, self.docs.len(), Ghost(self@));
        let mut sorted = sort_candidates(&cands);
        proof {
            crate::rank::lemma_rank_le_total();
            cands@.lemma_sort_by_ensures(rank_le());
            assert(self@.len() == self.docs@.len());
            lemma_cand_ids(self@, views(qterms@), self@.len() as int);
            broadcast use vstd::seq_lib::group_to_multiset_ensures;

            assert forall|i: int| 0 <= i < sorted@.len() implies (#[trigger] sorted@[i]).0
                < self@.len() by {
                assert(sorted@.to_multiset().count(sorted@[i]) > 0);
                assert(cands@.contains(sorted@[i]));
                let k = choose|k: int| 0 <= k < cands@.len() && cands@[k] == sorted@[i];
                assert(cand_upto(self@, views(qterms@), self@.len() as int)[k] == sorted@[i]);
            }
        }
        let ghost whole = sorted@;
        if sorted.len() > limit {
            sorted.truncate(limit);
            proof {
                assert(sorted@ =~= whole.take(limit as int));
                assert(forall|i: int| 0 <= i < sorted@.len() ==> #[trigger] sorted@[i]
                    == whole[i]);
            }
        }
        sorted
    }

    /// Runs a query against the current corpus and returns the top ten
    /// results in ranking order.  The query is split into terms and a
    /// document matches when it contains any of them; matches are ranked by
    /// descending score, ties in commit order.  An empty query is answered
    /// with an empty list at once; a query with unbalanced double quotes is
    /// refused as a syntax error.
    pub fn search(&self, query: &str) -> (r: Result<Vec<SearchDoc>, SearchError>)
        requires
            self.wf(),
        ensures
            r is Ok <==> (query@.len() == 0 || quotes_balanced(query@)),
            query@.len() == 0 ==> (r matches Ok(v) && v@.len() == 0),
            query@.len() > 0 && !quotes_balanced(query@) ==> (r matches Err(e)
                && e is QuerySyntaxError),
            query@.len() > 0 && quotes_balanced(query@) ==> (r matches Ok(v) && v.deep_view()
                == search_results(self@, query@, DEFAULT_SEARCH_LIMIT as int)),
    {
        if query.is_empty() {
            return Ok(Vec::new());
        }
        let qcs = str_to_chars(query);
        if !quotes_balanced_x(&qcs) {
            return Err(SearchError::QuerySyntaxError);
        }
        let qterms = tokenize(&qcs);
        let tops = self.top_docs(&qterms, DEFAULT_SEARCH_LIMIT);
        let out = self.project_list(&tops);
        Ok(out)
    }

    /// Runs a query and returns one page of results: the ranked list is
    /// cut at `page * size`, then the window `[(page-1)*size ..)` of at
    /// most `size` results is returned.  A page beyond the cut comes back
    /// empty, not as an error.
    pub fn search_paged(&self, query: &str, page: usize, size: usize) -> (r: Result<
        Vec<SearchDoc>,
        SearchError,
    >)
        requires
            self.wf(),
            page >= 1,
            size >= 1,
        ensures
            r is Ok <==> (query@.len() == 0 || quotes_balanced(query@)),
            query@.len() == 0 ==> (r matches Ok(v) && v@.len() == 0),
            query@.len() > 0 && !quotes_balanced(query@) ==> (r matches Err(e)
                && e is QuerySyntaxError),
            query@.len() > 0 && quotes_balanced(query@) ==> (r matches Ok(v) && v.deep_view()
                == paged_results(self@, query@, page as int, size as int)),
    {
        if query.is_empty() {
            return Ok(Vec::new());
        }
        let qcs = str_to_chars(query);
        if !quotes_balanced_x(&qcs) {
            return Err(SearchError::QuerySyntaxError);
        }
        let qterms = tokenize(&qcs);
        let limit = match page.checked_mul(size) {
            Some(l) => l,
            None => usize::MAX,
        };
        let skip = match (page - 1).checked_mul(size) {
            Some(s) => s,
            None => usize::MAX,
        };
        let tops = self.top_docs(&qterms, limit);
        let window = slice_page(&tops, skip, size);
        proof {
            assert(limit as int == cap_usize(page as int * size as int));
            assert(skip as int == cap_usize((page as int - 1) * size as int));
            assert forall|i: int| 0 <= i < window@.len() implies (#[trigger] window@[i]).0
                < self@.len() by {
                assert(window@[i] == tops@[skip + i]);
                assert(tops@[skip + i].0 < self@.len());
            }
        }
        let out = self.project_list(&window);
        Ok(out)
    }

    /// Projects a candidate list, in order.
    fn project_list(&self, items: &Vec<(usize, u64)>) -> (r: Vec<SearchDoc>)
        requires
            self.wf(),
            forall|i: int| 0 <= i < items@.len() ==> (#[trigger] items@[i]).0 < self@.len(),
        ensures
            r.deep_view() == project_all(self@, items@),
    {
        let mut out: Vec<SearchDoc> = Vec::new();
        let mut i: usize = 0;
        while i < items.len()
            invariant
                i <= items@.len(),
                self.wf(),
                forall|k: int| 0 <= k < items@.len() ==> (#[trigger] items@[k]).0 < self@.len(),
                out.deep_view() == project_all(self@, items@.take(i as int)),
            decreases items@.len() - i,
        {
            let id = items[i].0;
            proof {
                assert(docs_view(self.docs@)[id as int] == self.docs@[id as int]@);
            }
            let doc = project(&self.docs[id]);
            let ghost out0 = out@;
            proof {
                assert(out.deep_view().len() == out0.len());
                assert(project_all(self@, items@.take(i as int)).len() == i);
                assert(out0.len() == i);
            }
            out.push(doc);
            proof {
                let goal = project_all(self@, items@.take(i + 1 as int));
                assert forall|k: int| 0 <= k < out@.len() implies out.deep_view()[k] == goal[k] by {
                    assert(items@.take(i + 1 as int)[k] == items@[k]);
                    if k < i {
                        assert(out@[k] == out0[k]);
                        assert(out.deep_view()[k] == out0[k].deep_view());
                        assert(project_all(self@, items@.take(i as int))[k] == out0[k].deep_view());
                        assert(items@.take(i as int)[k] == items@[k]);
                    } else {
                        assert(out@[k] == doc);
                        assert(out.deep_view()[k] == doc.deep_view());
                    }
                }
                assert(out.deep_view() =~= goal);
            }
            i = i + 1;
        }
        proof {
            assert(items@.take(items@.len() as int) =~= items@);
        }
        out
    }

    /// Removes every committed document; the operation cannot fail, and a
    /// second call finds the corpus already empty and leaves it so.
    pub fn clear(&mut self) -> (r: Result<(), SearchError>)
        ensures
            r is Ok,
            final(self).wf(),
            final(self)@ == clear_model(old(self)@),
            final(self)@.len() == 0,
    {
        self.docs.clear();
        self.terms.clear();
        proof {
            assert(self@ =~= Seq::<DocView>::empty());
        }
        Ok(())
    }

    /// How many documents are committed.
    pub fn doc_count(&self) -> (r: Result<u64, SearchError>)
        ensures
            r matches Ok(c) && c as nat == self@.len(),
    {
        Ok(self.docs.len() as u64)
    }

    /// Whether the index is open and readable.
    pub fn index_exists(&self) -> (r: bool)
        ensures
            r,
    {
        true
    }

    /// The document count and the fixed schema's field count.
    pub fn stats(&self) -> (r: Result<IndexStats, SearchError>)
        ensures
            r matches Ok(s) && s.doc_count as nat == self@.len() && s.field_count == FIELD_COUNT,
    {
        Ok(IndexStats { doc_count: self.docs.len() as u64, field_count: FIELD_COUNT })
    }
}

/// Every candidate position points into the corpus.
pub proof fn lemma_cand_ids(docs: Seq<DocView>, terms: Seq<Seq<char>>, n: int)
    requires
        n <= docs.len(),
        docs.len() <= usize::MAX,
    ensures
        forall|i: int| 0 <= i < cand_upto(docs, terms, n).len() ==> (#[trigger] cand_upto(
            docs,
            terms,
            n,
        )[i]).0 < docs.len(),
    decreases n,
{
    if n > 0 {
        lemma_cand_ids(docs, terms, n - 1);
        let pre = cand_upto(docs, terms, n - 1);
        let cur = cand_upto(docs, terms, n);
        assert forall|i: int| 0 <= i < cur.len() implies (#[trigger] cur[i]).0 < docs.len() by {
            if i < pre.len() {
                assert(cur[i] == pre[i]);
            } else {
                assert(cur[i].0 == (n - 1) as usize);
            }
        }
    }
}

/// Checks that a query's double quotes are balanced.
fn quotes_balanced_x(q: &Vec<char>) -> (r: bool)
    ensures
        r == quotes_balanced(q@),
{
    let mut count: usize = 0;
    let mut i: usize = 0;
    while i < q.len()
        invariant
            i <= q@.len(),
            count as nat == count_char(q@.take(i as int), '"'),
            count <= i,
        decreases q@.len() - i,
    {
        proof {
            assert(q@.take(i + 1 as int).drop_last() =~= q@.take(i as int));
            assert(q@.take(i + 1 as int).last() == q@[i as int]);
            lemma_count_char_le(q@.take(i as int), '"');
        }
        if q[i] == '"' {
            count = count + 1;
        }
        i = i + 1;
    }
    proof {
        assert(q@.take(q@.len() as int) =~= q@);
    }
    count % 2 == 0
}

/// A character occurs at most as often as the text is long.
proof fn lemma_count_char_le(s: Seq<char>, c: char)
    ensures
        count_char(s, c) <= s.len(),
    decreases s.len(),
{
    if s.len() > 0 {
        lemma_count_char_le(s.drop_last(), c);
    }
}

/// Slices one page out of an ordered candidate list.
fn slice_page(v: &Vec<(usize, u64)>, skip: usize, size: usize) -> (r: Vec<(usize, u64)>)
    ensures
        r@ == page_of(v@, skip as int, size as int),
        forall|i: int| 0 <= i < r@.len() ==> skip + i < v@.len() && #[trigger] r@[i] == v@[skip
            + i],
{
    let mut out: Vec<(usize, u64)> = Vec::new();
    if skip >= v.len() {
        proof {
            assert(out@ =~= page_of(v@, skip as int, size as int));
        }
        return out;
    }
    let end = if size > v.len() - skip {
        v.len()
    } else {
        skip + size
    };
    let mut i: usize = skip;
    while i < end
        invariant
            skip <= i <= end <= v@.len(),
            out@ == v@.subrange(skip as int, i as int),
        decreases end - i,
    {
        out.push(v[i]);
        proof {
            assert(v@.subrange(skip as int, i + 1 as int) =~= v@.subrange(
                skip as int,
                i as int,
            ).push(v@[i as int]));
        }
        i = i + 1;
    }
    proof {
        assert(out@ =~= page_of(v@, skip as int, size as int));
        assert(forall|i: int| 0 <= i < out@.len() ==> skip + i < v@.len() && #[trigger] out@[i]
            == v@[skip + i]);
    }
    out
}

} // verus!
