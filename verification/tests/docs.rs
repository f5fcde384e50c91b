use snarf::docs::{
    check_backend, check_key, context7_status, docs_query, docs_results, first_library,
    limit_docs_results, CodeSnippet, InfoSnippet,
};
use snarf::types::DocsResult;

#[test]
fn docs_limit_applies_after_direct_library_fetch() {
    let results = limit_docs_results(
        vec![
            DocsResult {
                title: "first".to_string(),
                ..DocsResult::default()
            },
            DocsResult {
                title: "second".to_string(),
                ..DocsResult::default()
            },
        ],
        1,
    );

    assert_eq!(results.len(), 1);
    assert_eq!(results[0].title, "first");
}

#[test]
fn docs_backends_are_checked() {
    assert!(check_backend("context7", "key").is_ok());
    let missing =
        "context7: API key not set (get one then: snarf config set context7_api_key <key>)";
    assert_eq!(check_backend("context7", "").unwrap_err().message(), missing);
    assert_eq!(check_key("").unwrap_err().message(), missing);
    assert!(check_key("k").is_ok());
    assert_eq!(
        check_backend("local", "key").unwrap_err().message(),
        "local fts5 backend not yet implemented"
    );
    assert_eq!(
        check_backend("other", "key").unwrap_err().message(),
        "unknown docs backend: other"
    );
}

#[test]
fn the_first_library_is_taken() {
    let ids = vec!["/a/b".to_string(), "/c/d".to_string()];
    assert_eq!(first_library(&ids, "q").unwrap(), "/a/b");
    assert_eq!(
        first_library(&Vec::new(), "say \"hi\"\n").unwrap_err().message(),
        "context7: no library found for \"say \\\"hi\\\"\\n\""
    );
}

#[test]
fn docs_statuses_are_told() {
    assert!(context7_status("docs", 200).is_ok());
    assert_eq!(
        context7_status("docs", 401).unwrap_err().message(),
        "context7: invalid API key (set via: snarf config set context7_api_key <key>)"
    );
    assert_eq!(
        context7_status("resolve", 500).unwrap_err().message(),
        "context7 resolve returned status 500"
    );
}

#[test]
fn docs_are_asked_for_with_a_budget() {
    let pairs = docs_query("/a/b", "routing", 4000);
    let pairs: Vec<(&str, &str)> = pairs
        .iter()
        .map(|(name, value)| (name.as_str(), value.as_str()))
        .collect();
    assert_eq!(
        pairs,
        vec![
            ("libraryId", "/a/b"),
            ("query", "routing"),
            ("type", "json"),
            ("tokens", "4000"),
        ]
    );
}

#[test]
fn snippets_become_results() {
    let code = vec![CodeSnippet {
        code_title: "Title".to_string(),
        code_id: "id".to_string(),
        code_list: vec!["let x;".to_string(), "other".to_string()],
    }];
    let info = vec![InfoSnippet {
        page_id: "page".to_string(),
        breadcrumb: "A > B".to_string(),
        content: "text".to_string(),
    }];
    let results = docs_results("/a/b", &code, &info);
    assert_eq!(results.len(), 2);
    assert_eq!(results[0].title, "Title");
    assert_eq!(results[0].snippet, "let x;");
    assert_eq!(results[0].url, "id");
    assert_eq!(results[0].breadcrumb, "");
    assert_eq!(results[1].title, "A > B");
    assert_eq!(results[1].breadcrumb, "A > B");
    assert_eq!(results[1].snippet, "text");
    assert_eq!(results[1].library, "/a/b");
    assert_eq!(results[1].source, "context7");
}
