use snarf::config::{
    available_backends, available_code_backends, available_doc_backends, cache_dir, config_path,
    gh_step, github_token_from_gh, merge_config_value, parse_duration, AppConfig, CodeBackend,
    DocsBackend, Field, GhState, GhStep, SearchBackend,
};
use snarf::duration::Duration;
use snarf::urlrewrite::Rule;

#[test]
fn parses_go_style_durations_used_by_scrape() {
    assert_eq!(parse_duration("30m").unwrap(), Duration::from_secs(1800));
    assert_eq!(parse_duration("72h").unwrap(), Duration::from_secs(259200));
    assert_eq!(parse_duration("10s").unwrap(), Duration::from_secs(10));
    assert_eq!(parse_duration("1h30m").unwrap(), Duration::from_secs(5400));
    assert_eq!(parse_duration("1.5h").unwrap(), Duration::from_secs(5400));
    assert_eq!(parse_duration("500ms").unwrap(), Duration::from_millis(500));
    assert_eq!(
        parse_duration("1m500ms").unwrap(),
        Duration::from_millis(60_500)
    );
    assert_eq!(parse_duration("1us").unwrap(), Duration::from_micros(1));
    assert_eq!(
        parse_duration("1\u{00B5}s").unwrap(),
        Duration::from_micros(1)
    );
    assert_eq!(
        parse_duration("1\u{03BC}s").unwrap(),
        Duration::from_micros(1)
    );
}

#[test]
fn rejects_non_go_style_durations() {
    assert!(parse_duration("10").is_err());
    assert!(parse_duration("1d").is_err());
    assert!(parse_duration("1h nope").is_err());
}

#[test]
fn durations_add_up_their_parts() {
    assert_eq!(parse_duration(" 1h ").unwrap(), Duration::from_secs(3600));
    assert_eq!(parse_duration("7ns").unwrap(), Duration::from_nanos(7));
    assert_eq!(parse_duration(".5s").unwrap(), Duration::from_millis(500));
    assert_eq!(
        parse_duration("1h1m1s1ms1us1ns").unwrap().as_nanos(),
        3_661_001_001_001
    );
    for text in ["", "h", "1.h2", "1..5h", "-1h", "1e3s"] {
        assert!(parse_duration(text).is_err(), "{text:?}");
    }
    assert!(!parse_duration("").unwrap_err().message().is_empty());
}

#[test]
fn gh_token_fallback_returns_trimmed_stdout() {
    let (token, source) = github_token_from_gh(Some("  gh-token\n".to_string()));

    assert_eq!(token, "gh-token");
    assert_eq!(source, "gh-cli");
    assert_eq!(
        github_token_from_gh(Some(" \n".to_string())),
        (String::new(), "none".to_string())
    );
    assert_eq!(
        github_token_from_gh(None),
        (String::new(), "none".to_string())
    );
}

#[test]
fn defaults_to_ddg_search() {
    assert_eq!(AppConfig::default().backend, "ddg");
}

#[test]
fn defaults_to_empty_url_rewrites() {
    assert!(AppConfig::default().url_rewrites.is_empty());
}

#[test]
fn the_documented_defaults_hold() {
    let config = AppConfig::default();
    assert_eq!(config.code_backend, "github");
    assert_eq!(config.limit, 5);
    assert_eq!(config.cache_ttl, "72h");
    assert_eq!(config.docs_backend, "context7");
    assert_eq!(config.searxng_url, "http://localhost:8081");
    assert_eq!(config.sourcegraph_url, "https://sourcegraph.com");
}

#[test]
fn backends_are_known_by_their_names() {
    for name in available_backends() {
        assert_eq!(SearchBackend::parse(name).unwrap().as_str(), name);
    }
    for name in available_code_backends() {
        assert_eq!(CodeBackend::parse(name).unwrap().as_str(), name);
    }
    for name in available_doc_backends() {
        assert_eq!(DocsBackend::parse(name).unwrap().as_str(), name);
    }
    assert_eq!(available_backends(), ["brave", "ddg", "searxng", "exa"]);
    assert_eq!(
        SearchBackend::parse("bing").unwrap_err(),
        "invalid value 'bing' (possible values: brave, ddg, searxng, exa)"
    );
    assert!(CodeBackend::parse("").is_err());
    assert!(DocsBackend::parse("LOCAL").is_err());
}

#[test]
fn files_change_the_defaults() {
    let data = r#"{"backend":"exa","limit":9,"browser":7,"unknown":"x","cache_ttl":"1h"}"#;
    let config = AppConfig::load(data, None);
    assert_eq!(config.backend, "exa");
    assert_eq!(config.limit, 9);
    assert_eq!(config.browser, "");
    assert_eq!(config.cache_ttl, "1h");
    assert_eq!(config.code_backend, "github");
    for broken in ["", "not json", "[1]", "7"] {
        assert_eq!(AppConfig::load(broken, None).backend, "ddg");
    }
}

#[test]
fn files_may_hold_rules() {
    let rules = vec![Rule {
        pattern: "a".to_string(),
        replace: "b".to_string(),
    }];
    let config = AppConfig::load("{}", Some(rules));
    assert_eq!(config.url_rewrites.len(), 1);
    assert_eq!(config.url_rewrites[0].replace, "b");
}

#[test]
fn values_of_the_wrong_type_are_passed_over() {
    let fields = vec![
        ("backend".to_string(), Field::Other),
        ("searxng_url".to_string(), Field::Text("http://s".to_string())),
        ("limit".to_string(), Field::Number(None)),
        ("github_token".to_string(), Field::Number(Some(3))),
    ];
    let config = merge_config_value(AppConfig::default(), &fields, None);
    assert_eq!(config.backend, "ddg");
    assert_eq!(config.searxng_url, "http://s");
    assert_eq!(config.limit, 5);
    assert_eq!(config.github_token, "");
}

#[test]
fn tokens_come_from_the_configuration_first() {
    let mut config = AppConfig::default();
    let env = |text: &str| Some(text.to_string());
    assert!(config.resolve_github_token(None, None).is_none());
    assert!(config.resolve_github_token(env(""), env("")).is_none());
    assert_eq!(
        config.resolve_github_token(env(""), env("gh")).unwrap(),
        ("gh".to_string(), "env".to_string())
    );
    assert_eq!(
        config.resolve_github_token(env("g"), env("gh")).unwrap().0,
        "g"
    );
    config.github_token = "c".to_string();
    assert_eq!(
        config.resolve_github_token(env("g"), None).unwrap(),
        ("c".to_string(), "config".to_string())
    );
}

#[test]
fn directories_come_from_the_environment_first() {
    let named = Some("/x".to_string());
    let system = Some("/home/u/.config".to_string());
    assert_eq!(config_path(&named, &system).unwrap(), "/x/snarf/config.json");
    assert_eq!(
        config_path(&None, &system).unwrap(),
        "/home/u/.config/snarf/config.json"
    );
    assert_eq!(
        config_path(&None, &None).unwrap_err().message(),
        "cannot locate config dir"
    );
    assert_eq!(cache_dir(&named, &None).unwrap(), "/x/snarf");
    assert_eq!(
        cache_dir(&None, &None).unwrap_err().message(),
        "cannot locate cache dir"
    );
}

#[test]
fn gh_token_fallback_times_out() {
    let timeout = Duration::from_millis(50);
    let step = |state: GhState, millis: u64| gh_step(state, &Duration::from_millis(millis), &timeout);
    assert_eq!(step(GhState::Running, 49), GhStep::Wait);
    assert_eq!(step(GhState::Running, 50), GhStep::Kill);
    assert_eq!(step(GhState::Failed, 0), GhStep::GiveUp);
    assert_eq!(step(GhState::Succeeded, 60), GhStep::Read);
}

/// The JSON text that a configuration is saved as.
fn saved(config: &AppConfig) -> String {
    let (fields, has_rules) = config.fields();
    let mut map = serde_json::Map::new();
    for (key, field) in fields {
        let value = match field {
            Field::Text(text) => serde_json::Value::from(text),
            Field::Number(number) => serde_json::Value::from(number),
            Field::Other => serde_json::Value::Null,
        };
        map.insert(key, value);
    }
    if has_rules {
        let rules: Vec<serde_json::Value> = config
            .url_rewrites
            .iter()
            .map(|rule| {
                let mut item = serde_json::Map::new();
                item.insert("match".to_string(), rule.pattern.clone().into());
                item.insert("replace".to_string(), rule.replace.clone().into());
                serde_json::Value::Object(item)
            })
            .collect();
        map.insert("url_rewrites".to_string(), rules.into());
    }
    serde_json::Value::Object(map).to_string()
}

/// The configuration that a JSON text is loaded as.
fn loaded(data: &str) -> AppConfig {
    let value: serde_json::Value = serde_json::from_str(data).unwrap();
    let rules = value["url_rewrites"].as_array().map(|items| {
        items
            .iter()
            .map(|item| Rule {
                pattern: item["match"].as_str().unwrap().to_string(),
                replace: item["replace"].as_str().unwrap().to_string(),
            })
            .collect()
    });
    AppConfig::load(data, rules)
}

#[test]
fn config_json_round_trips_url_rewrites() {
    let config = AppConfig {
        url_rewrites: vec![Rule {
            pattern: r"^https?://www\.reddit\.com/(.*)$".to_string(),
            replace: "https://old.reddit.com/$1".to_string(),
        }],
        ..AppConfig::default()
    };
    let decoded = loaded(&saved(&config));
    assert_eq!(decoded.url_rewrites.len(), 1);
    assert_eq!(decoded.url_rewrites[0].pattern, config.url_rewrites[0].pattern);
    assert_eq!(decoded.url_rewrites[0].replace, config.url_rewrites[0].replace);
}

#[test]
fn config_json_omits_empty_url_rewrites() {
    let data = saved(&AppConfig::default());
    assert!(!data.contains("url_rewrites"));
}

#[test]
fn saved_configurations_are_loaded_as_they_were() {
    let config = AppConfig {
        backend: "exa".to_string(),
        exa_api_key: "key \"1\"".to_string(),
        limit: 17,
        browser: "chrome".to_string(),
        cache_ttl: String::new(),
        ..AppConfig::default()
    };
    let data = saved(&config);
    assert!(!data.contains("brave_api_key"));
    let decoded = loaded(&data);
    assert_eq!(decoded.backend, "exa");
    assert_eq!(decoded.exa_api_key, "key \"1\"");
    assert_eq!(decoded.limit, 17);
    assert_eq!(decoded.browser, "chrome");
    assert_eq!(decoded.cache_ttl, "");
    assert_eq!(decoded.brave_api_key, "");
    assert_eq!(decoded.code_backend, config.code_backend);
    assert_eq!(decoded.sourcegraph_url, config.sourcegraph_url);
}
