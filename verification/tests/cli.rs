use snarf::cli::{
    apply_config_set, bypasses_cache, check_github_token, check_init, code_search_failure,
    command_name, config_info, crawl_seed, fetches_library, file_urls, first_line,
    handles_shutdown_signal_in_command, new_scraper, page_ttl, read_lines,
    should_skip_passive_update_notice, stdin_urls, url_source, urls_of_list,
    validate_at_least_one, CliError, Command, UrlSource, EXIT_CANCELLED, EXIT_NOT_FOUND,
    EXIT_PRECONDITION, EXIT_UPSTREAM, EXIT_VALIDATION,
};
use snarf::config::AppConfig;
use snarf::duration::Duration;
use snarf::error::AppError;
use snarf::urlrewrite::Rule;

/// The rules that a JSON text denotes, each an object with `match` and `replace`.
fn decode_rules(text: &str) -> Result<Vec<Rule>, String> {
    let value: serde_json::Value = serde_json::from_str(text).map_err(|err| err.to_string())?;
    let items = value.as_array().ok_or("expected a sequence")?;
    items
        .iter()
        .map(|item| {
            let field = |name: &str| {
                item.get(name)
                    .and_then(|value| value.as_str())
                    .map(|value| value.to_string())
                    .ok_or(format!("missing field `{name}`"))
            };
            Ok(Rule {
                pattern: field("match")?,
                replace: field("replace")?,
            })
        })
        .collect()
}

fn set(config: &mut AppConfig, key: &str, value: &str) -> Result<(), CliError> {
    apply_config_set(config, key, value, decode_rules(value))
}

#[test]
fn config_set_accepts_url_rewrites_json() {
    let mut config = AppConfig::default();
    set(
        &mut config,
        "url_rewrites",
        r#"[{"match":"^https?://www\\.reddit\\.com/(.*)$","replace":"https://old.reddit.com/$1"}]"#,
    )
    .unwrap();

    assert_eq!(config.url_rewrites.len(), 1);
    assert_eq!(config.url_rewrites[0].replace, "https://old.reddit.com/$1");
}

#[test]
fn config_set_rejects_invalid_url_rewrites_json() {
    let mut config = AppConfig::default();
    let error = set(&mut config, "url_rewrites", "not json").unwrap_err();

    assert!(error.message.to_ascii_lowercase().contains("json"));
}

#[test]
fn config_set_rejects_invalid_url_rewrite_regex() {
    let mut config = AppConfig::default();
    assert!(set(
        &mut config,
        "url_rewrites",
        r#"[{"match":"[","replace":"x"}]"#,
    )
    .is_err());
}

#[test]
fn config_set_empty_url_rewrites_clears_rules() {
    let mut config = AppConfig::default();
    set(
        &mut config,
        "url_rewrites",
        r#"[{"match":"^x$","replace":"y"}]"#,
    )
    .unwrap();
    assert_eq!(config.url_rewrites.len(), 1);

    set(&mut config, "url_rewrites", "[]").unwrap();
    assert!(config.url_rewrites.is_empty());
}

#[test]
fn config_set_accepts_combined_go_style_cache_ttl() {
    let mut config = AppConfig::default();

    set(&mut config, "cache_ttl", "1h30m").unwrap();

    assert_eq!(config.cache_ttl, "1h30m");
}

#[test]
fn config_set_rejects_invalid_backends() {
    let mut config = AppConfig::default();

    for key in ["backend", "code_backend", "docs_backend"] {
        let error = set(&mut config, key, "missing").unwrap_err();

        assert!(
            error.message.contains("invalid value"),
            "{key} error was {:?}",
            error.message
        );
    }
}

#[test]
fn config_set_rejects_unknown_keys() {
    let mut config = AppConfig::default();
    assert!(set(&mut config, "no_such_key", "x").is_err());
}

#[test]
fn every_key_can_be_set() {
    let mut config = AppConfig::default();
    for (key, value) in [
        ("backend", "brave"),
        ("searxng_url", "http://s"),
        ("brave_api_key", "b"),
        ("exa_api_key", "e"),
        ("limit", "+12"),
        ("browser", "chrome"),
        ("code_backend", "grepapp"),
        ("docs_backend", "local"),
        ("context7_api_key", "c"),
        ("sourcegraph_url", "http://g"),
        ("github_token", "t"),
    ] {
        set(&mut config, key, value).unwrap();
    }
    assert_eq!(config.backend, "brave");
    assert_eq!(config.searxng_url, "http://s");
    assert_eq!(config.brave_api_key, "b");
    assert_eq!(config.exa_api_key, "e");
    assert_eq!(config.limit, 12);
    assert_eq!(config.browser, "chrome");
    assert_eq!(config.code_backend, "grepapp");
    assert_eq!(config.docs_backend, "local");
    assert_eq!(config.context7_api_key, "c");
    assert_eq!(config.sourcegraph_url, "http://g");
    assert_eq!(config.github_token, "t");
}

#[test]
fn refused_values_are_told_and_change_nothing() {
    let mut config = AppConfig::default();
    let cases = [
        ("limit", "", "limit must be an integer: "),
        ("limit", "1x", "limit must be an integer: "),
        ("limit", "-1", "limit must be an integer: "),
        (
            "limit",
            "99999999999999999999999",
            "limit must be an integer: ",
        ),
    ];
    for (key, value, prefix) in cases {
        let error = set(&mut config, key, value).unwrap_err();
        let expected = value.parse::<usize>().unwrap_err();
        assert_eq!(error.code, EXIT_VALIDATION);
        assert_eq!(error.message, format!("{prefix}{expected}"));
        assert_eq!(config.limit, 5);
    }
    let error = set(&mut config, "cache_ttl", "soon").unwrap_err();
    assert!(error
        .message
        .starts_with("cache_ttl must be a duration (e.g. 1h, 30m): "));
    assert_eq!(config.cache_ttl, "72h");
    let error = set(&mut config, "color", "x").unwrap_err();
    assert!(error.message.starts_with("unknown key: color (valid: backend, "));
    let error = set(
        &mut config,
        "url_rewrites",
        r#"[{"match":"a","replace":"x"},{"match":"(","replace":"x"}]"#,
    )
    .unwrap_err();
    assert!(error.message.starts_with("url_rewrites[1]: "));
    assert!(config.url_rewrites.is_empty());
}

#[test]
fn errors_have_exit_codes() {
    let code = |error: AppError| CliError::from_error(error).code;
    assert_eq!(code(AppError::Validation("m".to_string())), 2);
    assert_eq!(code(AppError::NotFound("m".to_string())), 3);
    assert_eq!(code(AppError::Upstream("m".to_string())), 4);
    assert_eq!(code(AppError::Precondition("m".to_string())), 5);
    assert_eq!(code(AppError::RegexUnsupported), 5);
    assert_eq!(CliError::cancelled("SIGTERM").code, EXIT_CANCELLED);
    assert_eq!(CliError::cancelled("SIGTERM").message, "cancelled by SIGTERM");
    assert_eq!(
        CliError::from_error(AppError::RegexUnsupported).message,
        "backend does not support --regex"
    );
    assert_eq!(CliError::validation("a".to_string()).code, EXIT_VALIDATION);
    assert_eq!(CliError::not_found("a".to_string()).code, EXIT_NOT_FOUND);
    assert_eq!(CliError::upstream("a".to_string()).code, EXIT_UPSTREAM);
    assert_eq!(
        CliError::precondition("a".to_string()).code,
        EXIT_PRECONDITION
    );
}

#[test]
fn context_reaches_failures_of_services_only() {
    let error = CliError::in_context(AppError::upstream("boom".to_string()), "search failed");
    assert_eq!(error.message, "search failed: boom");
    let error = CliError::in_context(AppError::precondition("key".to_string()), "search failed");
    assert_eq!(error.message, "key");
    let error = code_search_failure(AppError::RegexUnsupported, "github");
    assert_eq!(error.code, EXIT_PRECONDITION);
    assert_eq!(
        error.message,
        "backend github does not support --regex (try -b grepapp or -b sourcegraph)"
    );
    let error = code_search_failure(AppError::upstream("boom".to_string()), "github");
    assert_eq!(error.message, "code search failed: boom");
}

#[test]
fn notices_are_skipped_where_nobody_reads_them() {
    let skip = should_skip_passive_update_notice;
    assert!(!skip(false, false, true, Command::Search, ""));
    assert!(!skip(false, false, true, Command::Search, "0"));
    assert!(skip(true, false, true, Command::Search, ""));
    assert!(skip(false, true, true, Command::Search, ""));
    assert!(skip(false, false, false, Command::Search, ""));
    assert!(skip(false, false, true, Command::Version, ""));
    assert!(skip(false, false, true, Command::Root, " TRUE "));
    assert!(skip(false, false, true, Command::Root, "1"));
    assert_eq!(command_name(Command::Root), "root");
    assert_eq!(command_name(Command::Version), "version");
}

#[test]
fn only_crawls_take_care_of_signals() {
    let handles = handles_shutdown_signal_in_command;
    assert!(handles(true, Command::Search, false, false));
    assert!(handles(false, Command::Crawl, false, false));
    assert!(!handles(false, Command::Crawl, true, false));
    assert!(!handles(false, Command::Crawl, false, true));
    assert!(!handles(false, Command::Search, false, false));
}

#[test]
fn zero_is_not_at_least_one() {
    assert!(validate_at_least_one("concurrency", 1).is_ok());
    let error = validate_at_least_one("concurrency", 0).unwrap_err();
    assert_eq!(error.code, EXIT_VALIDATION);
    assert_eq!(error.message, "concurrency must be at least 1");
    assert_eq!(crawl_seed(Some("u".to_string())).unwrap(), "u");
    assert_eq!(
        crawl_seed(None).unwrap_err().message,
        "provide a URL for crawl"
    );
}

#[test]
fn arguments_name_urls_in_several_ways() {
    let args = |list: &[&str]| list.iter().map(|text| text.to_string()).collect::<Vec<_>>();
    assert!(matches!(url_source(&args(&[])), Ok(UrlSource::Stdin)));
    let Ok(UrlSource::Given(urls)) = url_source(&args(&["a", "b"])) else {
        panic!("expected urls");
    };
    assert_eq!(urls, args(&["a", "b"]));
    let Ok(UrlSource::Given(urls)) = url_source(&args(&[" [\"x\", \"y\"]"])) else {
        panic!("expected a list");
    };
    assert_eq!(urls, args(&["x", "y"]));
    let Ok(UrlSource::File(name)) = url_source(&args(&["list.txt"])) else {
        panic!("expected a file");
    };
    assert_eq!(name, "list.txt");
    let error = url_source(&args(&["[]"])).unwrap_err();
    assert_eq!(error.message, "JSON array is empty");
    let error = url_source(&args(&["[1]"])).unwrap_err();
    assert_eq!(error.code, EXIT_VALIDATION);
    assert!(error.message.starts_with("failed to parse JSON array: "));
    assert_eq!(
        urls_of_list(Err("bad".to_string())).unwrap_err().message,
        "failed to parse JSON array: bad"
    );
}

#[test]
fn scrape_file_input_ignores_blank_and_comment_lines() {
    let text = "\n# comment\n  https://a.example  \r\n\t\n#x\nhttps://b.example".to_string();
    let expected = vec!["https://a.example".to_string(), "https://b.example".to_string()];
    assert_eq!(read_lines(&text), expected);
    assert_eq!(file_urls("f", Some(Ok(text.clone()))).unwrap(), expected);
    assert_eq!(stdin_urls(Some(Ok(text))).unwrap(), expected);
}

#[test]
fn files_without_urls_are_refused() {
    assert_eq!(file_urls("https://x", None).unwrap(), vec!["https://x".to_string()]);
    let error = file_urls("f\"", Some(Ok("# only\n".to_string()))).unwrap_err();
    assert_eq!(error.message, "file \"f\\\"\" contains no URLs");
    let error = file_urls("dir", Some(Err("is a directory".to_string()))).unwrap_err();
    assert_eq!(error.message, "failed to open dir: is a directory");
    let nothing = "provide a URL, file path, JSON array, or pipe URLs via stdin";
    assert_eq!(stdin_urls(None).unwrap_err().message, nothing);
    assert_eq!(
        stdin_urls(Some(Ok(" \n".to_string()))).unwrap_err().message,
        nothing
    );
    assert_eq!(
        stdin_urls(Some(Err("closed".to_string()))).unwrap_err().message,
        "failed to read stdin: closed"
    );
}

#[test]
fn the_first_line_is_trimmed() {
    assert_eq!(first_line("\n  \n  one \ntwo"), "one");
    assert_eq!(first_line(" \n"), "");
}

#[test]
fn pages_are_fresh_for_an_hour_by_default() {
    assert_eq!(page_ttl("2m"), Duration::from_secs(120));
    assert_eq!(page_ttl("later"), Duration::from_secs(3600));
    assert!(bypasses_cache(true, false, ""));
    assert!(bypasses_cache(false, true, ""));
    assert!(bypasses_cache(false, false, "p"));
    assert!(!bypasses_cache(false, false, ""));
}

#[test]
fn broken_rules_are_told_of_the_configuration() {
    let mut config = AppConfig::default();
    config.browser = "chrome".to_string();
    let scraper = new_scraper(&config).unwrap();
    assert!(scraper.has_browser());
    assert_eq!(scraper.rewrite("http://a/x"), "http://a/x");
    config.url_rewrites = vec![Rule {
        pattern: "^http://a/".to_string(),
        replace: "http://b/".to_string(),
    }];
    assert_eq!(new_scraper(&config).unwrap().rewrite("http://a/x"), "http://b/x");
    config.url_rewrites[0].pattern = "(".to_string();
    let error = new_scraper(&config).unwrap_err();
    assert_eq!(error.code, EXIT_PRECONDITION);
    assert!(error.message.starts_with("invalid url_rewrites: url_rewrites[0]: "));
}

#[test]
fn a_search_on_github_needs_a_token() {
    assert!(check_github_token("t").is_ok());
    let error = check_github_token("").unwrap_err();
    assert_eq!(error.code, EXIT_PRECONDITION);
    assert!(error.message.contains("gh auth login"));
    assert!(fetches_library("/a/b", "context7"));
    assert!(!fetches_library("/a/b", "local"));
    assert!(!fetches_library("", "context7"));
}

#[test]
fn the_configuration_is_shown_without_secrets() {
    let mut config = AppConfig::default();
    config.github_token = "hidden".to_string();
    config.brave_api_key = "hidden".to_string();
    let info = config_info(&config, "/p".to_string(), "config".to_string());
    assert_eq!(info.config_path, "/p");
    assert_eq!(info.github_token_source, "config");
    assert_eq!(info.limit, 5);
    assert!(!format!("{info:?}").contains("hidden"));
    assert!(check_init("/p", false).is_ok());
    let error = check_init("/p", true).unwrap_err();
    assert_eq!(error.code, EXIT_PRECONDITION);
    assert_eq!(error.message, "config already exists: /p");
}
