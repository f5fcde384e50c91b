use snarf::cli::CliError;
use snarf::error::AppError;
use snarf::html::Inner;
use snarf::search::{
    brave_query, brave_results, brave_status, ddg_redirect, ddg_results, ddg_step, exa_endpoint,
    exa_request_body, exa_results, extract_ddg_url, extract_sse_payload, known_exa_prefix,
    ok_status, parse_ddg_results, parse_exa_content, searxng_endpoint, searxng_query,
    searxng_results, sse_data, BraveResponse, BraveResult, BraveWeb, DdgStep, ExaContent,
    SearxngResponse, SearxngResult,
};

fn field(value: &serde_json::Value, name: &str) -> String {
    value[name].as_str().unwrap_or_default().to_string()
}

fn brave_response(text: &str) -> BraveResponse {
    let value: serde_json::Value = serde_json::from_str(text).expect("brave response parses");
    BraveResponse {
        web: value.get("web").map(|web| BraveWeb {
            results: web["results"]
                .as_array()
                .expect("results are a list")
                .iter()
                .map(|item| BraveResult {
                    title: field(item, "title"),
                    url: field(item, "url"),
                    description: field(item, "description"),
                })
                .collect(),
        }),
    }
}

fn searxng_response(text: &str) -> SearxngResponse {
    let value: serde_json::Value = serde_json::from_str(text).expect("searxng response parses");
    SearxngResponse {
        results: value["results"]
            .as_array()
            .expect("results are a list")
            .iter()
            .map(|item| SearxngResult {
                title: field(item, "title"),
                url: field(item, "url"),
                content: field(item, "content"),
            })
            .collect(),
    }
}

#[test]
fn parses_brave_results() {
    let body = brave_response(
        r#"{
                "web": {
                    "results": [
                        {"title": "Go Docs", "url": "https://golang.org/doc/", "description": "Go documentation"},
                        {"title": "Go Blog", "url": "https://blog.golang.org/", "description": "The Go Blog"},
                        {"title": "Go Playground", "url": "https://play.golang.org/", "description": "Run Go online"}
                    ]
                }
            }"#,
    );

    let results = brave_results(body, 3);

    assert_eq!(results.len(), 3);
    assert_eq!(results[0].title, "Go Docs");
    assert_eq!(results[0].url, "https://golang.org/doc/");
    assert_eq!(results[0].description, "Go documentation");
}

#[test]
fn respects_brave_result_limit_and_empty_results() {
    let body = brave_response(
        r#"{
                "web": {
                    "results": [
                        {"title": "A", "url": "https://a.com", "description": "a"},
                        {"title": "B", "url": "https://b.com", "description": "b"},
                        {"title": "C", "url": "https://c.com", "description": "c"}
                    ]
                }
            }"#,
    );
    let empty_body = brave_response(r#"{"web": {"results": []}}"#);

    assert_eq!(brave_results(body, 2).len(), 2);
    assert!(brave_results(empty_body, 5).is_empty());
}

#[test]
fn parses_searxng_results() {
    let body = searxng_response(
        r#"{
                "results": [
                    {"title": "SearX Result 1", "url": "https://example.com/1", "content": "First result content"},
                    {"title": "SearX Result 2", "url": "https://example.com/2", "content": "Second result content"}
                ]
            }"#,
    );

    let results = searxng_results(body, 10);

    assert_eq!(results.len(), 2);
    assert_eq!(results[0].title, "SearX Result 1");
    assert_eq!(results[0].url, "https://example.com/1");
    assert_eq!(results[0].description, "First result content");
}

#[test]
fn respects_searxng_result_limit_and_empty_results() {
    let body = searxng_response(
        r#"{
                "results": [
                    {"title": "A", "url": "https://a.com", "content": "a"},
                    {"title": "B", "url": "https://b.com", "content": "b"},
                    {"title": "C", "url": "https://c.com", "content": "c"}
                ]
            }"#,
    );
    let empty_body = searxng_response(r#"{"results": []}"#);

    assert_eq!(searxng_results(body, 2).len(), 2);
    assert!(searxng_results(empty_body, 5).is_empty());
}

#[test]
fn builds_exa_request_body() {
    let body: serde_json::Value =
        serde_json::from_str(&exa_request_body("rust release date", 5)).expect("body is JSON");

    assert_eq!(body["method"], "tools/call");
    assert_eq!(body["params"]["name"], "web_search_exa");
    assert_eq!(body["params"]["arguments"]["query"], "rust release date");
    assert_eq!(body["params"]["arguments"]["numResults"], 5);
    assert_eq!(body["params"]["arguments"]["livecrawl"], "fallback");
    assert_eq!(body["params"]["arguments"]["contextMaxCharacters"], 3000);
}

#[test]
fn builds_exa_endpoint_with_trimmed_api_key() {
    let endpoint =
        exa_endpoint("https://mcp.exa.ai/mcp", " test-key ").expect("exa endpoint builds");
    let endpoint = url::Url::parse(&endpoint).expect("exa endpoint is a URL");
    let api_key = endpoint
        .query_pairs()
        .find(|(key, _)| key == "exaApiKey")
        .map(|(_, value)| value.into_owned());
    let without_key =
        exa_endpoint("https://mcp.exa.ai/mcp", "   ").expect("exa endpoint builds");
    let without_key = url::Url::parse(&without_key).expect("exa endpoint is a URL");

    assert_eq!(api_key.as_deref(), Some("test-key"));
    assert_eq!(without_key.query(), None);
}

#[test]
fn extracts_last_exa_sse_payload() {
    let raw = r#"event: message
data: {"ignored":true}
data: {"result":{"content":[]}}
"#;

    assert_eq!(
        extract_sse_payload(raw).expect("sse payload exists"),
        r#"{"result":{"content":[]}}"#
    );
    assert!(extract_sse_payload("event: ping\n").is_err());
}

#[test]
fn parses_exa_results_and_respects_limit() {
    let results = parse_exa_content(
        "Title: Rust Programming Language\nURL: https://www.rust-lang.org/\nHighlights:\nRust is a programming language.\n\n---\n\nTitle: Rust Releases\nURL: https://blog.rust-lang.org/\nHighlights:\nRelease notes for Rust.",
        1,
    );

    assert_eq!(results.len(), 1);
    assert_eq!(results[0].title, "Rust Programming Language");
    assert_eq!(results[0].url, "https://www.rust-lang.org/");
    assert_eq!(results[0].description, "Rust is a programming language.");
    assert!(
        results[0]
            .content
            .contains("Rust is a programming language.")
    );
    assert!(parse_exa_content("", 5).is_empty());
}

#[test]
fn parses_ddg_results() {
    let body = r#"<html><body>
            <div class="result">
                <h2 class="result__title"><a class="result__a" href="https://golang.org/">Go Language</a></h2>
                <div class="result__snippet">The Go programming language</div>
            </div>
            <div class="result">
                <h2 class="result__title"><a class="result__a" href="https://go.dev/">Go Dev</a></h2>
                <div class="result__snippet">Go developer portal</div>
            </div>
        </body></html>"#;

    let results = parse_ddg_results(body, 10);

    assert_eq!(results.len(), 2);
    assert_eq!(results[0].title, "Go Language");
    assert_eq!(results[0].url, "https://golang.org/");
    assert_eq!(results[0].description, "The Go programming language");
    assert_eq!(results[1].title, "Go Dev");
    assert_eq!(results[1].url, "https://go.dev/");
    assert_eq!(results[1].description, "Go developer portal");
}

#[test]
fn parses_ddg_protocol_relative_redirects_from_html() {
    let body = r#"<html><body>
            <div class="result">
                <h2 class="result__title">
                    <a class="result__a" href="//duckduckgo.com/l/?uddg=https%3A%2F%2Fexample.com%2Fpath%3Fq%3Drust&amp;rut=abc">Example</a>
                </h2>
                <div class="result__snippet">Example snippet</div>
            </div>
        </body></html>"#;

    let results = parse_ddg_results(body, 10);

    assert_eq!(results.len(), 1);
    assert_eq!(results[0].url, "https://example.com/path?q=rust");
}

#[test]
fn respects_ddg_result_limit() {
    let body = r#"<html><body>
            <div class="result"><h2 class="result__title"><a class="result__a" href="https://a.com">A</a></h2><div class="result__snippet">a</div></div>
            <div class="result"><h2 class="result__title"><a class="result__a" href="https://b.com">B</a></h2><div class="result__snippet">b</div></div>
            <div class="result"><h2 class="result__title"><a class="result__a" href="https://c.com">C</a></h2><div class="result__snippet">c</div></div>
        </body></html>"#;

    let results = parse_ddg_results(body, 1);

    assert_eq!(results.len(), 1);
    assert_eq!(results[0].title, "A");
    assert_eq!(results[0].url, "https://a.com");
}

#[test]
fn skips_ddg_results_without_title_or_href() {
    let body = r#"<html><body>
            <div class="result">
                <h2 class="result__title"><a class="result__a" href="">No href</a></h2>
                <div class="result__snippet">skip me</div>
            </div>
            <div class="result">
                <h2 class="result__title"><a class="result__a" href="https://empty-title.example"></a></h2>
                <div class="result__snippet">skip me too</div>
            </div>
            <div class="result">
                <h2 class="result__title"><a class="result__a" href="https://ok.example">OK</a></h2>
                <div class="result__snippet">keep me</div>
            </div>
        </body></html>"#;

    let results = parse_ddg_results(body, 10);

    assert_eq!(results.len(), 1);
    assert_eq!(results[0].title, "OK");
    assert_eq!(results[0].url, "https://ok.example");
}

#[test]
fn extracts_ddg_redirect_targets() {
    let cases = [
        (
            "https://duckduckgo.com/l/?uddg=https%3A%2F%2Fexample.com",
            "https://example.com",
        ),
        (
            "//duckduckgo.com/l/?uddg=https%3A%2F%2Fexample.com",
            "https://example.com",
        ),
        (
            "/l/?uddg=https%3A%2F%2Fexample.com%2Fa%3Fb%3D1%26c%3Dtwo",
            "https://example.com/a?b=1&c=two",
        ),
        (
            "//duckduckgo.com/l/?rut=abc&uddg=https%3A%2F%2Fexample.com%2Fwith-rut",
            "https://example.com/with-rut",
        ),
    ];

    for (href, expected) in cases {
        assert_eq!(extract_ddg_url(href), expected);
    }
}

#[test]
fn preserves_non_ddg_and_empty_ddg_urls() {
    let direct_url = "https://example.com/search?q=rust";
    let empty_ddg = "//duckduckgo.com/l/?uddg=&rut=abc";

    assert_eq!(extract_ddg_url(direct_url), direct_url);
    assert_eq!(extract_ddg_url(empty_ddg), empty_ddg);
}

#[test]
fn parses_exa_blocks() {
    let results = parse_exa_content(
        "Title: Example\nURL: https://example.com\nHighlights:\nA useful result",
        5,
    );
    assert_eq!(results[0].title, "Example");
    assert_eq!(results[0].description, "A useful result");
}

#[test]
fn rejects_brave_non_ok_success_status() {
    let err = brave_status(201).expect_err("brave rejects non-200 success status");
    assert!(err.message().contains("201"));
    assert_eq!(
        brave_status(401).unwrap_err().message(),
        "brave: invalid API key (set via: snarf config set brave_api_key <key>)"
    );
    assert_eq!(brave_status(429).unwrap_err().message(), "brave: rate limited");
    assert!(brave_status(200).is_ok());
}

#[test]
fn rejects_searxng_non_ok_success_status() {
    let err = ok_status("searxng", 201).expect_err("searxng rejects non-200 success status");
    assert!(err.message().contains("201"));
    assert!(ok_status("searxng", 200).is_ok());
}

#[test]
fn retries_ddg_accepted_responses() {
    assert!(matches!(ddg_step(202, 1), DdgStep::Retry));
    assert!(matches!(ddg_step(202, 2), DdgStep::Retry));
    assert!(matches!(ddg_step(200, 3), DdgStep::Read));
    let DdgStep::Fail(error) = ddg_step(202, 3) else {
        panic!("expected a failure");
    };
    assert_eq!(error.message(), "ddg rate limited after retries");
    let DdgStep::Fail(error) = ddg_step(500, 1) else {
        panic!("expected a failure");
    };
    assert_eq!(error.message(), "ddg returned status 500");
}

#[test]
fn search_brave_without_api_key_exits_precondition() {
    let err = brave_query("anything", 5, "").unwrap_err();
    assert!(matches!(&err, AppError::Precondition(_)));
    assert!(err.message().contains("brave: API key not set"));
    assert_eq!(CliError::from_error(err).code, 5);
    let pairs = brave_query("rust", 5, "key").unwrap();
    assert_eq!(pairs[0], ("q".to_string(), "rust".to_string()));
    assert_eq!(pairs[1], ("count".to_string(), "5".to_string()));
    assert_eq!(pairs.len(), 4);
}

#[test]
fn searxng_is_asked_for_json() {
    assert_eq!(searxng_endpoint("http://s//"), "http://s/search");
    let pairs = searxng_query("a b");
    assert_eq!(pairs[0], ("q".to_string(), "a b".to_string()));
    assert_eq!(pairs[1], ("format".to_string(), "json".to_string()));
    assert_eq!(pairs[2], ("pageno".to_string(), "1".to_string()));
}

#[test]
fn brave_answers_without_web_results_are_empty() {
    assert!(brave_results(BraveResponse { web: None }, 5).is_empty());
}

#[test]
fn redirects_lead_to_the_first_target() {
    let pairs = vec![
        ("rut".to_string(), "x".to_string()),
        ("uddg".to_string(), "https://t".to_string()),
        ("uddg".to_string(), "https://u".to_string()),
    ];
    assert_eq!(ddg_redirect("h", &pairs), "https://t");
    assert_eq!(ddg_redirect("h", &Vec::new()), "h");
    assert_eq!(extract_ddg_url("/l/?uddg=a%20b+c#frag"), "a b c");
}

#[test]
fn ddg_results_need_a_title_and_a_link() {
    let link = |href: Option<&str>, text: &str| {
        vec![Inner {
            href: href.map(|href| href.to_string()),
            text: vec![text.to_string()],
        }]
    };
    let titles = vec![
        link(None, "a"),
        link(Some("https://b"), " "),
        Vec::new(),
        link(Some("https://c"), " C \n c "),
    ];
    let snippets = vec![Vec::new(), Vec::new(), Vec::new(), link(None, " s  t ")];
    let results = ddg_results(&titles, &snippets, 9);
    assert_eq!(results.len(), 1);
    assert_eq!(results[0].title, "C c");
    assert_eq!(results[0].url, "https://c");
    assert_eq!(results[0].description, "s t");
}

#[test]
fn streams_give_their_data() {
    assert_eq!(
        sse_data(" data: a \ndata:\nevent: x\ndata:b"),
        vec!["a".to_string(), "b".to_string()]
    );
}

#[test]
fn exa_parts_share_the_limit() {
    let part = |kind: &str, text: &str| ExaContent {
        kind: kind.to_string(),
        text: text.to_string(),
    };
    let one = "Title: A\nURL: https://a\nHighlights:\none\n\n---\n\nTitle: B\nURL: https://b\nHighlights:\ntwo";
    let parts = vec![part("text", one), part("image", one), part("text", one)];
    let results = exa_results(&parts, 3);
    assert_eq!(results.len(), 3);
    assert_eq!(results[2].title, "A");
    assert!(exa_results(&parts, 0).is_empty());
    assert!(known_exa_prefix("Title: x"));
    assert!(!known_exa_prefix("Other: x"));
    assert!(exa_endpoint("not a url", "k").is_err());
}
