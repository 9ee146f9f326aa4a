//! The result projector: turns a stored document into the public result
//! shape — title, path, a generated excerpt, and the split tag list.

use vstd::prelude::*;
use vstd::string::StringExecFns;
use crate::chars::{chars_to_string, push_char, str_to_chars};
use crate::index::StoredDoc;
use crate::model::DocView;
use crate::tags::{split_tags_x, tag_list_of};
use crate::text::{split_words, views, words};

verus! {

/// How many words an excerpt keeps.
pub const EXCERPT_WORDS: usize = 50;

/// One search result, as handed to callers.
#[derive(Debug, PartialEq, Eq)]
pub struct SearchDoc {
    /// The document's title.
    pub title: String,
    /// The document's source path.
    pub path: String,
    /// The generated excerpt of the body.
    pub excerpt: String,
    /// The document's tags.
    pub tags: Vec<String>,
}

/// The model of one search result.
pub struct SearchDocView {
    /// The document's title.
    pub title: Seq<char>,
    /// The document's source path.
    pub path: Seq<char>,
    /// The generated excerpt of the body.
    pub excerpt: Seq<char>,
    /// The document's tags.
    pub tags: Seq<Seq<char>>,
}

impl View for SearchDoc {
    type V = SearchDocView;

    open spec fn view(&self) -> SearchDocView {
        SearchDocView {
            title: self.title@,
            path: self.path@,
            excerpt: self.excerpt@,
            tags: self.tags.deep_view(),
        }
    }
}

impl DeepView for SearchDoc {
    type V = SearchDocView;

    open spec fn deep_view(&self) -> SearchDocView {
        self.view()
    }
}

/// The space-join of a list of words.
pub open spec fn join_spaces(ws: Seq<Seq<char>>) -> Seq<char>
    decreases ws.len(),
{
    if ws.len() == 0 {
        Seq::empty()
    } else if ws.len() == 1 {
        ws[0]
    } else {
        join_spaces(ws.drop_last()) + seq![' '] + ws.last()
    }
}

/// The excerpt of a body text: its first fifty whitespace-separated words
/// joined by single spaces, with a truncation marker exactly when words
/// were dropped.
pub open spec fn excerpt_of(content: Seq<char>) -> Seq<char> {
    let ws = words(content);
    if ws.len() > EXCERPT_WORDS {
        join_spaces(ws.take(EXCERPT_WORDS as int)) + "..."@
    } else {
        join_spaces(ws)
    }
}

/// A text of at most fifty words is excerpted whole, with no marker; a
/// longer one yields its first fifty words and the marker.
pub proof fn lemma_excerpt_truncation(content: Seq<char>)
    ensures
        words(content).len() > EXCERPT_WORDS ==> excerpt_of(content) == join_spaces(
            words(content).take(EXCERPT_WORDS as int),
        ) + "..."@,
        words(content).len() <= EXCERPT_WORDS ==> excerpt_of(content) == join_spaces(
            words(content),
        ),
{
}

/// Builds the excerpt of a body text.
pub fn make_excerpt(content: &String) -> (r: String)
    ensures
        r@ == excerpt_of(content@),
{
    let cs = str_to_chars(content.as_str());
    let ws = split_words(&cs);
    let truncated = ws.len() > EXCERPT_WORDS;
    let limit: usize = if truncated {
        EXCERPT_WORDS
    } else {
        ws.len()
    };
    let ghost kept = if truncated {
        views(ws@).take(EXCERPT_WORDS as int)
    } else {
        views(ws@)
    };
    let mut out = String::new();
    let mut i: usize = 0;
    while i < limit
        invariant
            i <= limit,
            limit <= ws@.len(),
            kept == if limit < ws@.len() {
                views(ws@).take(limit as int)
            } else {
                views(ws@)
            },
            kept.len() == limit,
            views(ws@) == words(cs@),
            out@ == join_spaces(kept.take(i as int)),
        decreases limit - i,
    {
        proof {
            assert(kept.take(i + 1 as int).drop_last() =~= kept.take(i as int));
            assert(kept.take(i + 1 as int).last() == kept[i as int]);
            assert(kept[i as int] == views(ws@)[i as int]);
            assert(views(ws@)[i as int] == ws@[i as int]@);
        }
        if i > 0 {
            push_char(&mut out, ' ');
        }
        let w = chars_to_string(&ws[i]);
        out.append(w.as_str());
        proof {
            if i == 0 {
                assert(out@ =~= join_spaces(kept.take(1int)));
            } else {
                assert(out@ =~= join_spaces(kept.take(i as int)) + seq![' '] + kept[i as int]);
            }
        }
        i = i + 1;
    }
    proof {
        assert(kept.take(limit as int) =~= kept);
    }
    if truncated {
        out.append("...");
        proof {
            assert(kept =~= words(content@).take(EXCERPT_WORDS as int));
        }
    } else {
        proof {
            assert(kept =~= words(content@));
        }
    }
    out
}

/// The projection of a stored document into the result shape.
pub open spec fn project_spec(d: DocView) -> SearchDocView {
    SearchDocView {
        title: d.title,
        path: d.path,
        excerpt: excerpt_of(d.content),
        tags: tag_list_of(d.tags),
    }
}

/// Projects a stored document into the result shape.
pub fn project(d: &StoredDoc) -> (r: SearchDoc)
    ensures
        r@ == project_spec(d@),
{
    let r = SearchDoc {
        title: d.title.clone(),
        path: d.path.clone(),
        excerpt: make_excerpt(&d.content),
        tags: split_tags_x(&d.tags),
    };
    r
}

} // verus!
