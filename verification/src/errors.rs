//! The error taxonomy of the engine.

use vstd::prelude::*;
use vstd::string::StringExecFns;

verus! {

/// Everything that can go wrong while indexing or searching.
#[derive(Debug)]
pub enum SearchError {
    /// The document does not carry a well-delimited metadata block.
    InvalidDocument,
    /// The metadata block is not well-formed; the payload is the underlying
    /// parser's message.
    MetadataParseError(String),
    /// A required metadata field is absent; the payload names the field.
    FieldNotFound(String),
    /// The query string cannot be parsed.
    QuerySyntaxError,
    /// A storage failure reported by the surrounding process.
    IndexError(String),
    /// A filesystem failure reported by the surrounding process.
    IoError(String),
    /// An existing index directory carries a different field schema.
    SchemaMismatch,
}

/// The text that describes an error.
pub open spec fn error_text(e: SearchError) -> Seq<char> {
    match e {
        SearchError::InvalidDocument => "invalid document format"@,
        SearchError::MetadataParseError(m) => "metadata parse error: "@ + m@,
        SearchError::FieldNotFound(f) => "field not found: "@ + f@,
        SearchError::QuerySyntaxError => "query syntax error"@,
        SearchError::IndexError(m) => "index error: "@ + m@,
        SearchError::IoError(m) => "io error: "@ + m@,
        SearchError::SchemaMismatch => "schema mismatch"@,
    }
}

impl SearchError {
    /// A short human-readable account of the error.
    pub fn describe(&self) -> (r: String)
        ensures
            r@ == error_text(*self),
    {
        match self {
            SearchError::InvalidDocument => String::from_str("invalid document format"),
            SearchError::MetadataParseError(m) => String::from_str(
                "metadata parse error: ",
            ).concat(m.as_str()),
            SearchError::FieldNotFound(f) => String::from_str("field not found: ").concat(
                f.as_str(),
            ),
            SearchError::QuerySyntaxError => String::from_str("query syntax error"),
            SearchError::IndexError(m) => String::from_str("index error: ").concat(m.as_str()),
            SearchError::IoError(m) => String::from_str("io error: ").concat(m.as_str()),
            SearchError::SchemaMismatch => String::from_str("schema mismatch"),
        }
    }
}

} // verus!
