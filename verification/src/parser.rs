//! The document parser.  A source document must open with the marker `+++`,
//! carry a metadata block up to the next `+++`, and everything after that
//! closing marker is the body.  The metadata block must be well-formed TOML
//! with a string field `title`; the optional `taxonomies.tags` array becomes
//! the stored comma-joined tag string.

use vstd::prelude::*;
use vstd::string::StrSliceExecFns;
use vstd::string::StringExecFns;
use crate::chars::str_to_chars;
use crate::errors::SearchError;
use crate::meta::{read_metadata, toml_parses, toml_tag_list, toml_title};
use crate::tags::{join_tags, join_tags_x};

verus! {

/// Whether the marker `+++` stands at position `j` of the text.
pub open spec fn marker_at(s: Seq<char>, j: int) -> bool {
    j + 3 <= s.len() && s[j] == '+' && s[j + 1] == '+' && s[j + 2] == '+'
}

/// The position of the first marker at or after position `j`, if any.
pub open spec fn find_marker(s: Seq<char>, j: int) -> Option<int>
    decreases s.len() - j,
{
    if j < 0 || j + 3 > s.len() {
        None
    } else if marker_at(s, j) {
        Some(j)
    } else {
        find_marker(s, j + 1)
    }
}

/// What `find_marker` returns is the first marker position.
pub proof fn lemma_find_marker(s: Seq<char>, j: int)
    requires
        0 <= j,
    ensures
        find_marker(s, j) matches Some(p) ==> j <= p && marker_at(s, p) && forall|k: int|
            j <= k < p ==> !marker_at(s, k),
        find_marker(s, j) is None ==> forall|k: int| j <= k ==> !marker_at(s, k),
    decreases s.len() - j,
{
    if j + 3 > s.len() {
    } else if !marker_at(s, j) {
        lemma_find_marker(s, j + 1);
    }
}

/// Whether the document opens with the marker.
pub open spec fn has_open_marker(s: Seq<char>) -> bool {
    marker_at(s, 0)
}

/// Whether the opening marker is matched by a closing one.
pub open spec fn has_close_marker(s: Seq<char>) -> bool {
    find_marker(s, 3) is Some
}

/// The metadata block: the text between the two markers.
pub open spec fn meta_of(s: Seq<char>) -> Seq<char> {
    s.subrange(3, find_marker(s, 3).unwrap())
}

/// The body: the text after the closing marker.
pub open spec fn body_of(s: Seq<char>) -> Seq<char> {
    s.subrange(find_marker(s, 3).unwrap() + 3, s.len() as int)
}

/// Whether a raw document parses: delimiters in place, metadata block
/// well-formed, and a string `title` present.
pub open spec fn parse_ok(s: Seq<char>) -> bool {
    &&& has_open_marker(s)
    &&& has_close_marker(s)
    &&& toml_parses(meta_of(s))
    &&& toml_title(meta_of(s)) is Some
}

/// The title of a document that parses.
pub open spec fn parsed_title(s: Seq<char>) -> Seq<char> {
    toml_title(meta_of(s)).unwrap()
}

/// The stored comma-joined tag string of a document that parses: the join
/// of `taxonomies.tags` if present, and empty otherwise.
pub open spec fn parsed_tags(s: Seq<char>) -> Seq<char> {
    match toml_tag_list(meta_of(s)) {
        Some(l) => join_tags(l),
        None => Seq::empty(),
    }
}

/// A successfully parsed document, ready for the index writer.
pub struct ParsedDoc {
    /// The required metadata title.
    pub title: String,
    /// The body text after the closing marker, verbatim.
    pub content: String,
    /// The comma-joined tag list.
    pub tags: String,
}

/// Finds the first marker at or after `start`.
fn find_marker_x(cs: &Vec<char>, start: usize) -> (r: Option<usize>)
    ensures
        r matches Some(p) ==> find_marker(cs@, start as int) == Some(p as int),
        r is None ==> find_marker(cs@, start as int) is None,
{
    if cs.len() < 3 || start > cs.len() - 3 {
        return None;
    }
    let mut j: usize = start;
    while j <= cs.len() - 3
        invariant
            start <= j,
            cs.len() >= 3,
            j <= cs.len() - 2,
            find_marker(cs@, start as int) == find_marker(cs@, j as int),
        decreases cs.len() - j,
    {
        if cs[j] == '+' && cs[j + 1] == '+' && cs[j + 2] == '+' {
            return Some(j);
        }
        j = j + 1;
    }
    None
}

/// Parses a raw source document into title, body and stored tag string.
///
/// The parse succeeds exactly on the documents that `parse_ok` admits; each
/// failure reports the stage that refused the document, and nothing else is
/// touched.
pub fn parse(raw: &str) -> (r: Result<ParsedDoc, SearchError>)
    ensures
        r is Ok <==> parse_ok(raw@),
        r matches Ok(d) ==> d.title@ == parsed_title(raw@) && d.content@ == body_of(raw@)
            && d.tags@ == parsed_tags(raw@),
        !(has_open_marker(raw@) && has_close_marker(raw@)) ==> (r matches Err(e)
            && e is InvalidDocument),
        has_open_marker(raw@) && has_close_marker(raw@) && !toml_parses(meta_of(raw@)) ==> (
        r matches Err(e) && e is MetadataParseError),
        has_open_marker(raw@) && has_close_marker(raw@) && toml_parses(meta_of(raw@))
            && toml_title(meta_of(raw@)) is None ==> (r matches Err(e) && e matches
            SearchError::FieldNotFound(f) && f@ == "title"@),
{
    let cs = str_to_chars(raw);
    if cs.len() < 3 || !(cs[0] == '+' && cs[1] == '+' && cs[2] == '+') {
        return Err(SearchError::InvalidDocument);
    }
    match find_marker_x(&cs, 3) {
        None => Err(SearchError::InvalidDocument),
        Some(j) => {
            proof {
                lemma_find_marker(cs@, 3);
            }
            let meta_str = raw.substring_char(3, j);
            let n = raw.unicode_len();
            let body_str = raw.substring_char(j + 3, n);
            proof {
                assert(meta_str@ == meta_of(raw@));
                assert(body_str@ == body_of(raw@));
            }
            match read_metadata(meta_str) {
                Err(m) => Err(SearchError::MetadataParseError(m)),
                Ok(meta) => {
                    match meta.title {
                        None => Err(SearchError::FieldNotFound(String::from_str("title"))),
                        Some(title) => {
                            let tags = match &meta.tags {
                                Some(list) => join_tags_x(list),
                                None => String::new(),
                            };
                            let content = String::from_str(body_str);
                            Ok(ParsedDoc { title, content, tags })
                        },
                    }
                },
            }
        },
    }
}

} // verus!
