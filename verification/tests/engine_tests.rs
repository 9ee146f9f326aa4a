use blog_search_service::SearchEngine;
use blog_search_service::SearchError;

#[test]
fn test_document_indexing() {
    let mut engine = SearchEngine::new("target/test_indexes/index_doc").unwrap();

    let content = r#"+++
            title = "Test Document"
            [taxonomies]
            tags = ["test", "rust"]
            +++
            This is a test document."#;

    engine.index_document(content, "test.md").unwrap();

    let results = engine.search("test").unwrap();
    assert_eq!(results.len(), 1);
    assert_eq!(results[0].title, "Test Document");
}

#[test]
fn test_invalid_front_matter() {
    let mut engine = SearchEngine::new("target/test_indexes/index_invalid").unwrap();

    let content = r#"+++
            invalid toml content
            +++
            Test content"#;

    assert!(engine.index_document(content, "invalid.md").is_err());
}

#[test]
fn test_search_with_empty_query() {
    let engine = SearchEngine::new("target/test_indexes/index_empty").unwrap();

    let results = engine.search("").unwrap();
    assert!(results.is_empty());
}

#[test]
fn test_search_with_limit() {
    let mut engine = SearchEngine::new("target/test_indexes/index_limit").unwrap();

    for i in 1..=15 {
        let content = format!(
            r#"+++
                    title = "Test Document {}"
                    [taxonomies]
                    tags = ["test"]
                    +++
                    This is test document {}."#,
            i, i
        );
        engine
            .index_document(&content, &format!("test{}.md", i))
            .unwrap();
    }

    let results = engine.search("test").unwrap();
    assert_eq!(results.len(), 10);
}

#[test]
fn test_search_by_content() {
    let mut engine = SearchEngine::new("target/test_indexes/index_content").unwrap();

    let content = r#"+++
            title = "Test Document"
            [taxonomies]
            tags = ["test"]
            +++
            This document contains unique_keyword."#;

    engine.index_document(content, "test.md").unwrap();

    let results = engine.search("unique_keyword").unwrap();
    assert_eq!(results.len(), 1);
}

#[test]
fn test_clear_index() {
    let mut engine = SearchEngine::new("target/test_indexes/index_clear").unwrap();

    let content = r#"+++
            title = "Test Document"
            [taxonomies]
            tags = ["test"]
            +++
            Test content"#;

    engine.index_document(content, "test.md").unwrap();
    assert_eq!(engine.doc_count().unwrap(), 1);

    engine.clear().unwrap();
    assert_eq!(engine.doc_count().unwrap(), 0);
}

#[test]
fn test_index_stats() {
    let engine = SearchEngine::new("target/test_indexes/index_stats").unwrap();

    let stats = engine.stats().unwrap();
    assert_eq!(stats.doc_count, 0);
    assert_eq!(stats.field_count, 4); // title, content, path, tags
}

#[test]
fn test_index_increments_count() {
    let mut engine = SearchEngine::new("target/counts").unwrap();
    for i in 1..=5u32 {
        let content = format!("+++\ntitle = \"Doc {}\"\n+++\nbody {}", i, i);
        let before = engine.doc_count().unwrap();
        engine
            .index_document(&content, &format!("doc{}.md", i))
            .unwrap();
        let after = engine.doc_count().unwrap();
        assert_eq!(after, before + 1);
    }
    assert_eq!(engine.doc_count().unwrap(), 5);
}

#[test]
fn test_clear_twice_is_idempotent() {
    let mut engine = SearchEngine::new("target/clear_twice").unwrap();
    let content = "+++\ntitle = \"T\"\n+++\nsome body";
    engine.index_document(content, "t.md").unwrap();
    assert_eq!(engine.doc_count().unwrap(), 1);

    engine.clear().unwrap();
    assert_eq!(engine.doc_count().unwrap(), 0);
    let second = engine.clear();
    assert!(second.is_ok());
    assert_eq!(engine.doc_count().unwrap(), 0);
}

#[test]
fn test_ranking_deterministic() {
    let mut engine = SearchEngine::new("target/determinism").unwrap();
    for i in 1..=8u32 {
        let content = format!(
            "+++\ntitle = \"Alpha {}\"\n+++\nalpha beta {} alpha",
            i,
            if i % 2 == 0 { "gamma" } else { "delta" }
        );
        engine
            .index_document(&content, &format!("a{}.md", i))
            .unwrap();
    }
    let first = engine.search("alpha gamma").unwrap();
    let second = engine.search("alpha gamma").unwrap();
    assert_eq!(first, second);
}

#[test]
fn test_round_trip_body_term() {
    let mut engine = SearchEngine::new("target/round_trip").unwrap();
    engine
        .index_document("+++\ntitle = \"Other\"\n+++\nplain words here", "other.md")
        .unwrap();
    engine
        .index_document(
            "+++\ntitle = \"Wanted\"\n+++\nbody with zyxwvu inside",
            "wanted.md",
        )
        .unwrap();

    let results = engine.search("zyxwvu").unwrap();
    assert_eq!(results.len(), 1);
    assert_eq!(results[0].title, "Wanted");
    assert_eq!(results[0].path, "wanted.md");
}

#[test]
fn test_excerpt_truncated_at_fifty_one_words() {
    let mut engine = SearchEngine::new("target/excerpt51").unwrap();
    let mut words: Vec<String> = Vec::new();
    for i in 1..=51u32 {
        words.push(format!("w{}", i));
    }
    let body = words.join(" ");
    let content = format!("+++\ntitle = \"Long\"\n+++\n{}", body);
    engine.index_document(&content, "long.md").unwrap();

    let results = engine.search("w1").unwrap();
    assert_eq!(results.len(), 1);
    let expected = format!("{}...", words[..50].join(" "));
    assert_eq!(results[0].excerpt, expected);
}

#[test]
fn test_excerpt_whole_at_fifty_words() {
    let mut engine = SearchEngine::new("target/excerpt50").unwrap();
    let mut words: Vec<String> = Vec::new();
    for i in 1..=50u32 {
        words.push(format!("w{}", i));
    }
    let body = words.join(" ");
    let content = format!("+++\ntitle = \"Exact\"\n+++\n{}", body);
    engine.index_document(&content, "exact.md").unwrap();

    let results = engine.search("w1").unwrap();
    assert_eq!(results.len(), 1);
    assert_eq!(results[0].excerpt, words.join(" "));
}

#[test]
fn test_tags_absent_yield_empty_list() {
    let mut engine = SearchEngine::new("target/tags_absent").unwrap();
    engine
        .index_document("+++\ntitle = \"NoTags\"\n+++\nsome body notagterm", "n.md")
        .unwrap();
    let results = engine.search("notagterm").unwrap();
    assert_eq!(results.len(), 1);
    assert_eq!(results[0].tags, Vec::<String>::new());
}

#[test]
fn test_tags_round_trip() {
    let mut engine = SearchEngine::new("target/tags_ab").unwrap();
    let content = "+++\ntitle = \"Tagged\"\n[taxonomies]\ntags = [\"a\", \"b\"]\n+++\ntagroundtrip";
    engine.index_document(content, "t.md").unwrap();
    let results = engine.search("tagroundtrip").unwrap();
    assert_eq!(results.len(), 1);
    assert_eq!(results[0].tags, vec!["a".to_string(), "b".to_string()]);
}

#[test]
fn test_pagination_window() {
    let mut engine = SearchEngine::new("target/pagination").unwrap();
    for i in 1..=20u32 {
        let content = format!(
            r#"+++
            title = "Test Article {}"
            [taxonomies]
            tags = ["test"]
            +++
            Content for article {}"#,
            i, i
        );
        engine
            .index_document(&content, &format!("test{}.md", i))
            .unwrap();
    }

    let page2 = engine.search_paged("test", 2, 10).unwrap();
    assert_eq!(page2.len(), 10);
    for (k, doc) in page2.iter().enumerate() {
        assert_eq!(doc.path, format!("test{}.md", 11 + k));
    }

    let page5 = engine.search_paged("test", 5, 10).unwrap();
    assert!(page5.is_empty());
}

#[test]
fn test_missing_title_field() {
    let mut engine = SearchEngine::new("target/no_title").unwrap();
    let content = "+++\nauthor = \"someone\"\n+++\nbody";
    let err = engine.index_document(content, "x.md").unwrap_err();
    assert!(matches!(err, SearchError::FieldNotFound(f) if f == "title"));
}

#[test]
fn test_missing_open_marker() {
    let mut engine = SearchEngine::new("target/no_open").unwrap();
    let err = engine
        .index_document("title = \"T\"\nbody without front matter", "x.md")
        .unwrap_err();
    assert!(matches!(err, SearchError::InvalidDocument));
    assert_eq!(engine.doc_count().unwrap(), 0);
}

#[test]
fn test_unclosed_marker() {
    let mut engine = SearchEngine::new("target/no_close").unwrap();
    let err = engine
        .index_document("+++\ntitle = \"T\"\nbody never closes", "x.md")
        .unwrap_err();
    assert!(matches!(err, SearchError::InvalidDocument));
}

#[test]
fn test_metadata_parse_error_variant() {
    let mut engine = SearchEngine::new("target/bad_toml").unwrap();
    let err = engine
        .index_document("+++\nnot really = = toml\n+++\nbody", "x.md")
        .unwrap_err();
    assert!(matches!(err, SearchError::MetadataParseError(_)));
}

#[test]
fn test_unbalanced_quote_is_syntax_error() {
    let mut engine = SearchEngine::new("target/quotes").unwrap();
    engine
        .index_document("+++\ntitle = \"T\"\n+++\nsome body", "t.md")
        .unwrap();
    let err = engine.search("\"unterminated").unwrap_err();
    assert!(matches!(err, SearchError::QuerySyntaxError));
    let ok = engine.search("\"body\"").unwrap();
    assert_eq!(ok.len(), 1);
}

#[test]
fn test_search_is_case_folded() {
    let mut engine = SearchEngine::new("target/case_fold").unwrap();
    engine
        .index_document("+++\ntitle = \"MiXeD CaSe\"\n+++\nBody Text", "m.md")
        .unwrap();
    let results = engine.search("mixed").unwrap();
    assert_eq!(results.len(), 1);
    let results = engine.search("TEXT").unwrap();
    assert_eq!(results.len(), 1);
}

#[test]
fn test_search_non_ascii_token() {
    let mut engine = SearchEngine::new("target/cjk").unwrap();
    engine
        .index_document("+++\ntitle = \"搜索引擎\"\n+++\n全文 检索 引擎", "cjk.md")
        .unwrap();
    let results = engine.search("检索").unwrap();
    assert_eq!(results.len(), 1);
    assert_eq!(results[0].title, "搜索引擎");
}

#[test]
fn test_index_exists_and_reuse() {
    let mut engine = SearchEngine::new("target/exists").unwrap();
    assert!(engine.index_exists());
    engine
        .index_document("+++\ntitle = \"T\"\n+++\nbody", "t.md")
        .unwrap();
    assert!(engine.index_exists());
}

#[test]
fn test_higher_term_frequency_ranks_first() {
    let mut engine = SearchEngine::new("target/tf_rank").unwrap();
    engine
        .index_document("+++\ntitle = \"Once\"\n+++\napple pie", "once.md")
        .unwrap();
    engine
        .index_document(
            "+++\ntitle = \"Thrice\"\n+++\napple apple apple pie",
            "thrice.md",
        )
        .unwrap();

    let results = engine.search("apple").unwrap();
    assert_eq!(results.len(), 2);
    // the later document mentions the term more often, so it outranks the
    // earlier one despite its later commit position
    assert_eq!(results[0].title, "Thrice");
    assert_eq!(results[1].title, "Once");
}

#[test]
fn test_rare_term_outranks_common_term() {
    let mut engine = SearchEngine::new("target/idf_rank").unwrap();
    for i in 1..=3u32 {
        let content = format!("+++\ntitle = \"Common {}\"\n+++\ncommonword filler", i);
        engine
            .index_document(&content, &format!("c{}.md", i))
            .unwrap();
    }
    engine
        .index_document("+++\ntitle = \"Rare\"\n+++\nrareword filler", "r.md")
        .unwrap();

    // one query term is in three documents, the other in one: the document
    // holding the rare term scores higher than any holding the common one
    let results = engine.search("commonword rareword").unwrap();
    assert_eq!(results.len(), 4);
    assert_eq!(results[0].title, "Rare");
}
