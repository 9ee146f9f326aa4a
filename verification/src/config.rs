//! What the serving layer around the engine needs: request defaults, the
//! content directory convention, and the error shape of the request
//! handlers.

use vstd::prelude::*;
use vstd::string::StringExecFns;
use crate::chars::{chars_to_string, str_to_chars};
use crate::errors::{error_text, SearchError};

verus! {

/// The default page of a paginated request.
pub fn default_page() -> (r: usize)
    ensures
        r == 1,
{
    1
}

/// The default page size of a paginated request.
pub fn default_size() -> (r: usize)
    ensures
        r == 10,
{
    10
}

/// The directory part of a path: everything before the last slash, and
/// empty when there is none.
pub open spec fn parent_dir(s: Seq<char>) -> Seq<char>
    decreases s.len(),
{
    if s.len() == 0 {
        s
    } else if s.last() == '/' {
        s.drop_last()
    } else {
        parent_dir(s.drop_last())
    }
}

/// A path whose last slash stands at `p` has everything before `p` as its
/// directory part.
proof fn lemma_parent_dir_at(s: Seq<char>, p: int)
    requires
        0 <= p < s.len(),
        s[p] == '/',
        forall|k: int| p < k < s.len() ==> s[k] != '/',
    ensures
        parent_dir(s) == s.take(p),
    decreases s.len(),
{
    if p == s.len() - 1 {
        assert(s.last() == '/');
        assert(s.drop_last() =~= s.take(p));
    } else {
        assert(s.last() != '/');
        assert(s.drop_last()[p] == s[p]);
        assert(forall|k: int| p < k < s.drop_last().len() ==> #[trigger] s.drop_last()[k] != '/');
        lemma_parent_dir_at(s.drop_last(), p);
        assert(s.drop_last().take(p) =~= s.take(p));
    }
}

/// A path without a slash has an empty directory part.
proof fn lemma_parent_dir_none(s: Seq<char>)
    requires
        forall|k: int| 0 <= k < s.len() ==> s[k] != '/',
    ensures
        parent_dir(s) == Seq::<char>::empty(),
    decreases s.len(),
{
    if s.len() > 0 {
        assert(s.last() == s[s.len() - 1]);
        assert(forall|k: int| 0 <= k < s.drop_last().len() ==> #[trigger] s.drop_last()[k]
            != '/');
        lemma_parent_dir_none(s.drop_last());
    }
}

/// The blog content directory that belongs to a manifest directory: the
/// manifest directory's parent, with `content/blog` underneath.
pub fn get_content_path(manifest_dir: &str) -> (r: String)
    ensures
        r@ == parent_dir(manifest_dir@) + "/content/blog"@,
{
    let cs = str_to_chars(manifest_dir);
    let mut cut: usize = 0;
    let mut found = false;
    let mut i: usize = 0;
    while i < cs.len()
        invariant
            i <= cs@.len(),
            cs@ == manifest_dir@,
            found ==> (cut as int) < i && cs@[cut as int] == '/' && forall|k: int|
                cut < k < i ==> cs@[k] != '/',
            !found ==> cut == 0 && forall|k: int| 0 <= k < i ==> cs@[k] != '/',
        decreases cs@.len() - i,
    {
        if cs[i] == '/' {
            cut = i;
            found = true;
        }
        i = i + 1;
    }
    let mut head: Vec<char> = Vec::new();
    i = 0;
    while i < cut
        invariant
            i <= cut,
            cut <= cs@.len(),
            cs@ == manifest_dir@,
            head@ == cs@.take(i as int),
        decreases cut - i,
    {
        head.push(cs[i]);
        proof {
            assert(cs@.take(i + 1 as int) =~= cs@.take(i as int).push(cs@[i as int]));
        }
        i = i + 1;
    }
    proof {
        if found {
            lemma_parent_dir_at(cs@, cut as int);
        } else {
            lemma_parent_dir_none(cs@);
            assert(cs@.take(0int) =~= Seq::<char>::empty());
        }
        assert(head@ == parent_dir(manifest_dir@));
    }
    let mut out = chars_to_string(&head);
    out.append("/content/blog");
    out
}

/// Everything a request handler can fail with.
#[derive(Debug)]
pub enum AppError {
    /// The engine refused the request.
    SearchEngine(SearchError),
    /// The request itself was malformed.
    InvalidRequest(String),
}

/// The text that describes a handler error.
pub open spec fn app_error_text(e: AppError) -> Seq<char> {
    match e {
        AppError::SearchEngine(inner) => "search engine error: "@ + error_text(inner),
        AppError::InvalidRequest(m) => "invalid request: "@ + m@,
    }
}

impl AppError {
    /// The HTTP status an error maps to: engine failures are server errors,
    /// malformed requests are client errors.
    pub fn status_code(&self) -> (r: u16)
        ensures
            self is SearchEngine ==> r == 500,
            self is InvalidRequest ==> r == 400,
    {
        match self {
            AppError::SearchEngine(_) => 500,
            AppError::InvalidRequest(_) => 400,
        }
    }

    /// The message an error maps to.
    pub fn message(&self) -> (r: String)
        ensures
            r@ == app_error_text(*self),
    {
        match self {
            AppError::SearchEngine(inner) => {
                let d = inner.describe();
                String::from_str("search engine error: ").concat(d.as_str())
            },
            AppError::InvalidRequest(m) => String::from_str("invalid request: ").concat(
                m.as_str(),
            ),
        }
    }
}

} // verus!
