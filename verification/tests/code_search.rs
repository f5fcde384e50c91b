use snarf::code_search::{
    are_snippets_fitting, capitalize, check_github, extract_grep_snippet, extract_matched_line,
    find_backend, format_seconds_duration, github_node_ids, github_page_size, github_query,
    github_rate_limit_error_at, github_results, github_status, grep_request_body, grep_results,
    grep_texts, is_match_fitting, normalize_grep_lang, parse_grep_block, parse_snippet_line,
    rate_limit_message, sourcegraph_data, sourcegraph_endpoint, sourcegraph_query,
    sourcegraph_results, stars_request_body, success_status, with_stars, CodeQuery, GithubItem,
    GithubMatchRange, GithubTextMatch, GraphqlNode, GrepMcpContent, GrepMcpError,
    GrepMcpResponse, GrepMcpResult, SourcegraphLineMatch, SourcegraphMatch,
};
use snarf::config::{parse_duration, CodeBackend};
use snarf::duration::Duration;
use snarf::error::AppError;
use snarf::system::Timestamp;

fn texts(list: &[&str]) -> Vec<String> {
    list.iter().map(|text| text.to_string()).collect()
}

fn query(term: &str, lang: &str, limit: usize, regexp: bool) -> CodeQuery {
    CodeQuery {
        term: term.to_string(),
        lang: lang.to_string(),
        limit,
        regexp,
    }
}

#[test]
fn parses_snippet_line() {
    assert_eq!(parse_snippet_line("--- Snippet 1 (Line 42) ---"), 42);
}

#[test]
fn snippet_lines_without_a_number_are_zero() {
    assert_eq!(parse_snippet_line("--- Snippet 1 ---"), 0);
    assert_eq!(parse_snippet_line("(Line x)"), 0);
    assert_eq!(parse_snippet_line("(Line  7 ) (Line 8)"), 7);
    assert_eq!(parse_snippet_line("(Line 99999999999999999999999)"), 0);
}

#[test]
fn extracts_matching_grep_line() {
    let lines = texts(&["alpha", "needle here", "omega"]);
    assert_eq!(
        extract_grep_snippet(&lines, 0, 10, "needle"),
        ("needle here".to_string(), 11)
    );
}

#[test]
fn the_first_line_stands_in_where_nothing_matches() {
    let lines = texts(&["", "  first ", "second", "--- Snippet 2", "NEEDLE"]);
    assert_eq!(
        extract_grep_snippet(&lines, 0, 5, "needle"),
        ("first".to_string(), 6)
    );
    assert_eq!(
        extract_grep_snippet(&lines, 4, 5, "Needle"),
        ("NEEDLE".to_string(), 5)
    );
    assert_eq!(
        extract_grep_snippet(&texts(&[]), 0, 5, "x"),
        (String::new(), 0)
    );
}

#[test]
fn grep_blocks_become_results() {
    let block = "Repository: owner/repo\nPath: src/a.rs\nURL: https://github.com/x\nLicense: MIT\n--- Snippet 1 (Line 3) ---\nfn a() {}\nfn Needle() {}\n--- Snippet 2 (Line 9) ---\nneedle";
    let result = parse_grep_block(block, "needle", "rust").unwrap();
    assert_eq!(result.repo, "owner/repo");
    assert_eq!(result.path, "src/a.rs");
    assert_eq!(result.url, "https://github.com/x");
    assert_eq!(result.snippet, "fn Needle() {}");
    assert_eq!(result.line, 4);
    assert_eq!(result.language, "rust");
    assert_eq!(result.source, "grepapp");
    assert!(parse_grep_block("Path: x", "needle", "").is_none());

    let blocks = texts(&[block, "nothing", block, block]);
    assert_eq!(grep_results(&blocks, &query("needle", "", 2, false)).len(), 2);
    assert_eq!(grep_results(&blocks, &query("needle", "", 9, false)).len(), 3);
}

fn message(content: Vec<GrepMcpContent>, is_error: bool) -> Option<GrepMcpResponse> {
    Some(GrepMcpResponse {
        result: Some(GrepMcpResult { content, is_error }),
        error: None,
    })
}

fn part(kind: &str, text: &str) -> GrepMcpContent {
    GrepMcpContent {
        kind: kind.to_string(),
        text: text.to_string(),
    }
}

#[test]
fn grep_messages_give_their_texts() {
    let empty = Some(GrepMcpResponse {
        result: None,
        error: None,
    });
    let found = message(
        vec![part("text", "a"), part("image", "b"), part("text", ""), part("text", "c")],
        false,
    );
    assert_eq!(
        grep_texts(&vec![None, empty, found]).unwrap(),
        texts(&["a", "c"])
    );
    assert_eq!(grep_texts(&vec![None]).unwrap(), texts(&[]));
}

#[test]
fn grep_errors_are_told() {
    let error = Some(GrepMcpResponse {
        result: None,
        error: Some(GrepMcpError {
            message: "boom".to_string(),
        }),
    });
    assert_eq!(
        grep_texts(&vec![error]).unwrap_err().message(),
        "grep.app error: boom"
    );
    assert_eq!(
        grep_texts(&vec![message(Vec::new(), true)]).unwrap_err().message(),
        "grep.app search failed"
    );
}

#[test]
fn normalizes_grep_language_aliases() {
    assert_eq!(normalize_grep_lang("rs"), vec!["Rust".to_string()]);
}

#[test]
fn other_languages_get_a_capital() {
    assert_eq!(normalize_grep_lang("zig"), texts(&["Zig"]));
    assert_eq!(normalize_grep_lang("BASH"), texts(&["Shell"]));
    assert_eq!(normalize_grep_lang("c++"), texts(&["C++"]));
    assert!(normalize_grep_lang("").is_empty());
    assert_eq!(capitalize("\u{00DF}eta"), "SSeta");
    assert_eq!(capitalize(""), "");
}

#[test]
fn the_grep_request_is_json() {
    let body = grep_request_body(&query("a \"b\"\n", "rs", 5, true));
    let value: serde_json::Value = serde_json::from_str(&body).unwrap();
    assert_eq!(value["jsonrpc"], "2.0");
    assert_eq!(value["id"], 1);
    assert_eq!(value["method"], "tools/call");
    assert_eq!(value["params"]["name"], "searchGitHub");
    assert_eq!(value["params"]["arguments"]["query"], "a \"b\"\n");
    assert_eq!(value["params"]["arguments"]["language"][0], "Rust");
    assert_eq!(value["params"]["arguments"]["useRegexp"], true);
    let body = grep_request_body(&query("x", "", 5, false));
    let value: serde_json::Value = serde_json::from_str(&body).unwrap();
    assert_eq!(
        value["params"]["arguments"]["language"].as_array().unwrap().len(),
        0
    );
    assert_eq!(value["params"]["arguments"]["useRegexp"], false);
}

#[test]
fn sourcegraph_queries_leave_out_archives_and_forks() {
    assert_eq!(
        sourcegraph_query(&query("foo", "go", 5, true)),
        "foo lang:go archived:no fork:no patterntype:regexp"
    );
    assert_eq!(
        sourcegraph_query(&query("foo archived:yes fork:yes", "", 5, false)),
        "foo archived:yes fork:yes"
    );
    assert_eq!(
        sourcegraph_endpoint("https://sourcegraph.com//"),
        "https://sourcegraph.com/.api/search/stream"
    );
}

#[test]
fn sourcegraph_streams_are_read() {
    let raw = "event: progress\ndata: {}\n\nevent: matches\ndata: [1]\nother\ndata:  [2] \n\nevent: done\ndata: {}\n";
    assert_eq!(sourcegraph_data(raw), texts(&["[1]", "[2]"]));
}

fn sourcegraph_match(kind: &str, lines: Vec<(&str, usize)>) -> SourcegraphMatch {
    SourcegraphMatch {
        kind: kind.to_string(),
        repository: "github.com/o/r".to_string(),
        path: "a/b.go".to_string(),
        language: "Go".to_string(),
        repo_stars: 12,
        line_matches: lines
            .into_iter()
            .map(|(line, line_number)| SourcegraphLineMatch {
                line: line.to_string(),
                line_number,
            })
            .collect(),
    }
}

#[test]
fn sourcegraph_matches_become_results() {
    let items = vec![
        sourcegraph_match("path", vec![("x", 1)]),
        sourcegraph_match("content", vec![]),
        sourcegraph_match("content", vec![("first", 7), ("second", 8)]),
        sourcegraph_match("content", vec![("third", 9)]),
    ];
    let results = sourcegraph_results(&items, "https://sg.example/", 1);
    assert_eq!(results.len(), 1);
    assert_eq!(results[0].snippet, "first");
    assert_eq!(results[0].line, 7);
    assert_eq!(results[0].stars, 12);
    assert_eq!(
        results[0].url,
        "https://sg.example/github.com/o/r/-/blob/a/b.go#L7"
    );
    assert_eq!(sourcegraph_results(&items, "https://sg.example", 9).len(), 2);
}

#[test]
fn github_needs_a_token_and_no_regular_expression() {
    assert!(check_github(&query("x", "", 5, false), "t").is_ok());
    assert_eq!(
        check_github(&query("x", "", 5, true), "").unwrap_err().message(),
        "github: token required"
    );
    assert!(matches!(
        check_github(&query("x", "", 5, true), "t"),
        Err(AppError::RegexUnsupported)
    ));
}

#[test]
fn github_queries_name_the_language() {
    assert_eq!(github_query(&query("foo", "rust", 5, false)), "foo language:rust");
    assert_eq!(
        github_query(&query("foo language:go", "rust", 5, false)),
        "foo language:go"
    );
    assert_eq!(github_query(&query("foo", "", 5, false)), "foo");
    assert_eq!(github_page_size(0), 30);
    assert_eq!(github_page_size(100), 100);
    assert_eq!(github_page_size(101), 30);
}

#[test]
fn formats_github_rate_limit_reset_header() {
    let now = Timestamp {
        secs: 1_700_000_000,
        nanos: 0,
    };

    let error = github_rate_limit_error_at(403, &Some("1700000065".to_string()), &now);

    assert_eq!(
        error,
        "github: rate limited (30 req/min on code search). Resets in 1m5s at 22:14:25"
    );
}

#[test]
fn formats_github_rate_limit_without_reset_header() {
    let now = Timestamp {
        secs: 1_700_000_000,
        nanos: 0,
    };

    let error = github_rate_limit_error_at(429, &None, &now);

    assert_eq!(error, "github: rate limited (status 429)");
}

#[test]
fn reset_times_that_have_no_date_are_not_shown() {
    let now = Timestamp {
        secs: 1_700_000_000,
        nanos: 0,
    };
    for reset in ["soon", "99999999999999999", ""] {
        assert_eq!(
            github_rate_limit_error_at(403, &Some(reset.to_string()), &now),
            "github: rate limited (status 403)"
        );
    }
}

#[test]
fn formats_seconds_as_go_style_duration() {
    assert_eq!(format_seconds_duration(5), "5s");
    assert_eq!(format_seconds_duration(65), "1m5s");
    assert_eq!(format_seconds_duration(3665), "1h1m5s");
}

#[test]
fn durations_keep_their_zeros_behind_hours() {
    assert_eq!(format_seconds_duration(0), "0s");
    assert_eq!(format_seconds_duration(60), "1m0s");
    assert_eq!(format_seconds_duration(3600), "1h0m0s");
    assert_eq!(format_seconds_duration(i64::MAX), "2562047788015215h30m7s");
}

#[test]
fn github_statuses_are_told() {
    assert!(github_status(200, "", String::new()).is_ok());
    assert_eq!(
        github_status(401, "", String::new()).unwrap_err().message(),
        "github: invalid token (token must have 'repo' scope; check: gh auth status)"
    );
    assert_eq!(
        github_status(403, "", "slow down".to_string()).unwrap_err().message(),
        "slow down"
    );
    assert_eq!(
        github_status(500, " oops \n", String::new()).unwrap_err().message(),
        "github returned status 500: oops"
    );
    assert_eq!(
        success_status("grep.app", 503).unwrap_err().message(),
        "grep.app returned status 503"
    );
    assert!(success_status("grep.app", 204).is_ok());
}

fn ranges(indices: &[usize]) -> Vec<GithubMatchRange> {
    vec![GithubMatchRange {
        indices: indices.to_vec(),
    }]
}

#[test]
fn the_line_of_a_match_is_found_by_its_bytes() {
    let fragment = "  \u{00E4}lpha\nbeta needle \ngamma";
    // The first line has nine bytes with its line feed.
    assert_eq!(extract_matched_line(fragment, &ranges(&[14, 20])), "beta needle");
    assert_eq!(extract_matched_line(fragment, &ranges(&[0])), "\u{00E4}lpha");
    assert_eq!(extract_matched_line(fragment, &ranges(&[100])), "\u{00E4}lpha");
    assert_eq!(extract_matched_line(fragment, &Vec::new()), "\u{00E4}lpha");
    assert_eq!(extract_matched_line("  \n \n", &ranges(&[])), "");
    assert!(is_match_fitting(fragment, &ranges(&[2])));
    assert!(!is_match_fitting(fragment, &ranges(&[3])));
}

fn item(name: &str, node: &str, fragment: &str, indices: &[usize]) -> GithubItem {
    GithubItem {
        path: "src/x.rs".to_string(),
        html_url: format!("https://github.com/{name}"),
        full_name: name.to_string(),
        node_id: node.to_string(),
        text_matches: if fragment.is_empty() {
            Vec::new()
        } else {
            vec![GithubTextMatch {
                fragment: fragment.to_string(),
                matches: ranges(indices),
            }]
        },
    }
}

#[test]
fn github_items_become_results_with_stars() {
    let items = vec![
        item("a/a", "n1", "one\ntwo", &[4]),
        item("b/b", "", "", &[]),
        item("c/c", "n3", "x", &[0]),
    ];
    assert!(are_snippets_fitting(&items, items.len()));
    let results = github_results(&items, 2);
    assert_eq!(results.len(), 2);
    assert_eq!(results[0].repo, "a/a");
    assert_eq!(results[0].snippet, "two");
    assert_eq!(results[0].source, "github");
    assert_eq!(results[1].snippet, "");
    assert_eq!(github_node_ids(&items, 2), texts(&["n1"]));
    assert_eq!(github_node_ids(&items, 3), texts(&["n1", "n3"]));

    let nodes = vec![
        GraphqlNode {
            id: "n1".to_string(),
            stargazer_count: 5,
        },
        GraphqlNode {
            id: "n1".to_string(),
            stargazer_count: 6,
        },
        GraphqlNode {
            id: String::new(),
            stargazer_count: 9,
        },
    ];
    let starred = with_stars(&results, &items, &nodes);
    assert_eq!(starred[0].stars, 6);
    assert_eq!(starred[1].stars, 0);
    let broken = vec![item("a/a", "", "x", &[0]), item("d", "", "\u{00E4}", &[1])];
    assert!(!are_snippets_fitting(&broken, 2));
    assert!(are_snippets_fitting(&broken, 1));
    assert_eq!(github_results(&broken, 1).len(), 1);
}

#[test]
fn the_request_for_stars_is_json() {
    let body = stars_request_body(&texts(&["a", "b\"c"]));
    let value: serde_json::Value = serde_json::from_str(&body).unwrap();
    assert_eq!(
        value["query"],
        "query($ids: [ID!]!) { nodes(ids: $ids) { ... on Repository { id stargazerCount } } }"
    );
    assert_eq!(value["variables"]["ids"][0], "a");
    assert_eq!(value["variables"]["ids"][1], "b\"c");
    assert_eq!(value["variables"]["ids"].as_array().unwrap().len(), 2);
}

#[test]
fn code_backends_are_found_by_name() {
    assert_eq!(find_backend("sourcegraph").unwrap(), CodeBackend::Sourcegraph);
    assert_eq!(
        find_backend("bing").unwrap_err().message(),
        "unknown code backend: bing"
    );
}

#[test]
fn the_time_left_is_counted_from_now() {
    let now = Timestamp {
        secs: 1_000,
        nanos: 500_000_000,
    };
    let clock = Some("00:18:20".to_string());
    assert_eq!(
        rate_limit_message(403, Some(1_100), &clock, &now),
        "github: rate limited (30 req/min on code search). Resets in 1m39s at 00:18:20"
    );
    assert_eq!(
        rate_limit_message(403, Some(900), &clock, &now),
        "github: rate limited (30 req/min on code search). Resets in 0s at 00:18:20"
    );
    assert_eq!(
        rate_limit_message(403, Some(1_100), &None, &now),
        "github: rate limited (status 403)"
    );
}

#[test]
fn durations_are_read_as_they_are_written() {
    for n in [0, 5, 59, 60, 65, 3599, 3600, 3665, 86_400, 1_000_000_007] {
        let text = format_seconds_duration(n);
        assert_eq!(parse_duration(&text).unwrap(), Duration::from_secs(n as u64), "{text}");
    }
}

#[test]
fn dates_end_in_the_year_262142() {
    let now = Timestamp {
        secs: 8_210_266_876_700,
        nanos: 0,
    };
    let said = |reset: &str| github_rate_limit_error_at(403, &Some(reset.to_string()), &now);
    assert!(said("8210266876799").ends_with("Resets in 1m39s at 23:59:59"));
    assert_eq!(said("8210266876800"), "github: rate limited (status 403)");
    assert!(said("-8334601228800").ends_with("Resets in 0s at 00:00:00"));
    assert_eq!(said("-8334601228801"), "github: rate limited (status 403)");
}
