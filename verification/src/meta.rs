//! The structured-metadata reader.  The block between the document's
//! delimiters is a TOML document; the engine reads exactly two things out of
//! it: the string field `title` and the string-array field
//! `taxonomies.tags`.  The TOML grammar itself is delegated to the `toml`
//! crate behind one trusted wrapper; its results are pure functions of the
//! block's text and are named by the three uninterpreted functions below.

use vstd::prelude::*;

verus! {

/// Whether a text is a well-formed TOML document, as `toml::from_str`
/// decides it.
pub uninterp spec fn toml_parses(s: Seq<char>) -> bool;

/// The top-level string field `title` of a TOML document: its text if the
/// field exists and is a string, and nothing otherwise.
pub uninterp spec fn toml_title(s: Seq<char>) -> Option<Seq<char>>;

/// The string elements of the array field `tags` of the table `taxonomies`
/// of a TOML document, in order, if that field exists and is an array;
/// elements of other types are passed over.
pub uninterp spec fn toml_tag_list(s: Seq<char>) -> Option<Seq<Seq<char>>>;

/// What the engine reads out of a metadata block.
pub struct RawMeta {
    /// The `title` field, if present as a string.
    pub title: Option<String>,
    /// The string elements of `taxonomies.tags`, if present as an array.
    pub tags: Option<Vec<String>>,
}

/// Relies on `toml::from_str::<toml::Value>` to parse the block, and on
/// `toml::Value::get`, `as_str` and `as_array` to read the `title` and
/// `taxonomies.tags` fields out of the parsed table; all are pure functions
/// of the text.  On failure, `toml::de::Error::message` supplies the text
/// of the error.
#[verifier::external_body]
pub fn read_metadata(s: &str) -> (r: Result<RawMeta, String>)
    ensures
        r is Ok <==> toml_parses(s@),
        r matches Ok(m) ==> m.title.deep_view() == toml_title(s@) && m.tags.deep_view()
            == toml_tag_list(s@),
{
    match toml::from_str::<toml::Value>(s) {
        Ok(v) => {
            let title = v.get("title").and_then(|t| t.as_str()).map(|t| t.to_string());
            let tags = v
                .get("taxonomies")
                .and_then(|t| t.get("tags"))
                .and_then(|t| t.as_array())
                .map(|arr| arr.iter().filter_map(|e| e.as_str().map(|x| x.to_string())).collect());
            Ok(RawMeta { title, tags })
        },
        Err(e) => Err(e.message().to_string()),
    }
}

} // verus!
