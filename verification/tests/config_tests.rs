use blog_search_service::{default_page, default_size, get_content_path, AppError, SearchError};

#[test]
fn test_get_content_path() {
    let path = get_content_path("/home/user/blog/service");
    assert!(path.ends_with("content/blog"));
}

#[test]
fn test_get_content_path_exact() {
    assert_eq!(get_content_path("/a/b/c"), "/a/b/content/blog");
    assert_eq!(get_content_path("noslash"), "/content/blog");
}

#[test]
fn test_request_defaults() {
    assert_eq!(default_page(), 1);
    assert_eq!(default_size(), 10);
}

#[test]
fn test_error_descriptions() {
    assert_eq!(
        SearchError::InvalidDocument.describe(),
        "invalid document format"
    );
    assert_eq!(
        SearchError::FieldNotFound("title".to_string()).describe(),
        "field not found: title"
    );
    assert_eq!(SearchError::QuerySyntaxError.describe(), "query syntax error");
    assert_eq!(
        SearchError::MetadataParseError("boom".to_string()).describe(),
        "metadata parse error: boom"
    );
    assert_eq!(SearchError::SchemaMismatch.describe(), "schema mismatch");
    assert_eq!(
        SearchError::IoError("disk".to_string()).describe(),
        "io error: disk"
    );
    assert_eq!(
        SearchError::IndexError("seg".to_string()).describe(),
        "index error: seg"
    );
}

#[test]
fn test_app_error_mapping() {
    let engine_err = AppError::SearchEngine(SearchError::InvalidDocument);
    assert_eq!(engine_err.status_code(), 500);
    assert_eq!(engine_err.message(), "search engine error: invalid document format");

    let bad_req = AppError::InvalidRequest("page must be positive".to_string());
    assert_eq!(bad_req.status_code(), 400);
    assert_eq!(bad_req.message(), "invalid request: page must be positive");
}
