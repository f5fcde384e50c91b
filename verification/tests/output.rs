use snarf::config::AppConfig;
use snarf::crawl::CrawlResult;
use snarf::output::{
    browser_help, browser_report, code_result_header, column_line, join_with_default,
    render_cache, render_code, render_crawl_page, render_crawl_summary, render_crawl_warning,
    render_docs, render_page, render_page_line, render_pages, render_search, render_status,
    render_status_list, render_time, render_version, root_text, word_count, Build,
};
use snarf::status::{CrawlStatus, Tally};
use snarf::system::Timestamp;
use snarf::types::{CodeResult, DocsResult, Page, SearchResult};
use snarf::updatecheck::UpdateStatus;

#[test]
fn code_result_header_matches_upstream_star_format() {
    let result = CodeResult {
        repo: "owner/repo".to_string(),
        path: "src/lib.rs".to_string(),
        line: 42,
        stars: 123,
        ..CodeResult::default()
    };

    assert_eq!(
        code_result_header(&result),
        "owner/repo  src/lib.rs  (line 42)  \u{2605} 123"
    );
}

#[test]
fn headers_leave_out_what_is_not_known() {
    let result = CodeResult {
        repo: "r".to_string(),
        path: "p".to_string(),
        ..CodeResult::default()
    };
    assert_eq!(code_result_header(&result), "r  p");
}

#[test]
fn root_summary_lists_version_command() {
    let text = root_text(&AppConfig::default());
    assert!(text.starts_with(
        "snarf - web search, code search, docs, and scrape in one binary.\n\nCommands:\n"
    ));
    assert!(text.contains("  version     Print snarf version information\n"));
    assert!(text.contains("\n  search      brave, ddg (default), searxng, exa\n"));
    assert!(text.contains("\n  code        grepapp, sourcegraph, github (default)\n"));
    assert!(text.ends_with("\nRun 'snarf <command> --help' for flags and examples.\n"));
    assert_eq!(join_with_default(&["a", "b"], "b"), "a, b (default)");
    assert_eq!(join_with_default(&["a", "b"], "c"), "a, b");
}

#[test]
fn browser_namespace_prints_help_without_error() {
    let stdout = browser_help();
    assert!(stdout.contains("Usage: snarf browser <COMMAND>"));
    assert!(stdout.contains("Manage browser for JS-rendered page support"));
    assert!(stdout.contains("  install  Download Chromium for headless rendering"));
    assert!(stdout.contains("  status   Check browser configuration and availability"));
}

fn search_result(title: &str, description: &str) -> SearchResult {
    SearchResult {
        title: title.to_string(),
        url: "http://u".to_string(),
        description: description.to_string(),
        ..SearchResult::default()
    }
}

#[test]
fn search_results_are_written_in_two_ways() {
    let results = vec![search_result("A", "about a"), search_result("B", "")];
    assert_eq!(
        render_search("q", "ddg", &results, true),
        "http://u\tA\tabout a\nhttp://u\tB\t\n"
    );
    assert_eq!(
        render_search("q", "ddg", &results, false),
        "---\nquery: q\nbackend: ddg\nresult_count: 2\n---\nA\n  http://u\n  about a\n\nB\n  http://u\n\n"
    );
    assert_eq!(column_line("a", "b", "c"), "a\tb\tc\n");
}

#[test]
fn code_results_are_written_in_two_ways() {
    let result = CodeResult {
        repo: "r".to_string(),
        path: "p".to_string(),
        snippet: "\n one\ntwo".to_string(),
        url: "http://u".to_string(),
        ..CodeResult::default()
    };
    let results = vec![result];
    assert_eq!(
        render_code("q", "rust", "github", &results, true),
        "http://u\tr\tone\n"
    );
    assert_eq!(
        render_code("q", "rust", "github", &results, false),
        "---\nquery: q\nlang: rust\nbackend: github\nresult_count: 1\n---\nr  p\n  \n one\ntwo\n  http://u\n\n"
    );
    assert_eq!(
        render_code("q", "", "github", &Vec::new(), false),
        "---\nquery: q\nbackend: github\nresult_count: 0\n---\n"
    );
}

#[test]
fn docs_results_are_written_in_two_ways() {
    let result = |breadcrumb: &str| DocsResult {
        library: "/a/b".to_string(),
        title: "T".to_string(),
        breadcrumb: breadcrumb.to_string(),
        snippet: "s".to_string(),
        url: "u".to_string(),
        source: "context7".to_string(),
    };
    let results = vec![result(""), result("X > Y")];
    assert_eq!(
        render_docs("q", "context7", "", &results, true),
        "u\t/a/b\ts\nu\t/a/b\ts\n"
    );
    assert_eq!(
        render_docs("q", "context7", "", &results, false),
        "---\nquery: q\nbackend: context7\nlibrary: /a/b\nresult_count: 2\n---\n[T]\n  s\n  source: u\n\n[X > Y]\n  s\n  source: u\n\n"
    );
    assert_eq!(
        render_docs("q", "context7", "/c/d", &Vec::new(), false),
        "---\nquery: q\nbackend: context7\nlibrary: /c/d\nresult_count: 0\n---\n"
    );
    assert_eq!(
        render_docs("q", "context7", "", &Vec::new(), false),
        "---\nquery: q\nbackend: context7\nresult_count: 0\n---\n"
    );
}

fn page(fetched_url: &str) -> Page {
    Page {
        url: "http://u".to_string(),
        fetched_url: fetched_url.to_string(),
        title: "T".to_string(),
        markdown: "one two\n three".to_string(),
        ..Page::default()
    }
}

#[test]
fn pages_are_written_with_their_words() {
    let plain = "---\nurl: http://u\ntitle: T\nwords: 3\n---\none two\n three\n";
    assert_eq!(render_page(&page("")), plain);
    assert_eq!(
        render_page(&page("http://f")),
        "---\nurl: http://u\nfetched_url: http://f\ntitle: T\nwords: 3\n---\none two\n three\n"
    );
    assert_eq!(
        render_pages(&vec![page(""), page("")]),
        format!("{plain}\n{plain}")
    );
    assert_eq!(render_pages(&Vec::new()), "");
    assert_eq!(render_page_line("http://x", &page("")), "http://x\tT\tone two\n");
    assert_eq!(word_count(" a\tb\u{2003}c\n"), 3);
}

fn crawl_result() -> CrawlResult {
    CrawlResult {
        page: None,
        depth: 0,
        status: "new".to_string(),
        source: "seed".to_string(),
        error: "boom".to_string(),
        url: "http://u".to_string(),
    }
}

#[test]
fn crawls_are_written_page_by_page() {
    assert_eq!(
        render_crawl_page(&crawl_result(), &page("")),
        "---\nurl: http://u\ntitle: T\nwords: 3\nstatus: new\nsource: seed\n---\none two\n three\n"
    );
    assert_eq!(render_crawl_warning(&crawl_result()), "warn: http://u: boom");
    let mut tally = Tally::new();
    tally.record(&crawl_result());
    assert_eq!(
        render_crawl_summary("http://s", &tally, "1.5"),
        "\n---\nseed: http://s\npages: 0\nnew: 0\nchanged: 0\nunchanged: 0\nerrors: 1\nduration: 1.5s\n---\n"
    );
}

#[test]
fn states_are_written_with_their_times() {
    let now = Timestamp {
        secs: 1_700_000_000,
        nanos: 0,
    };
    assert_eq!(render_time(&now), "2023-11-14T22:13:20+00:00");
    let far = Timestamp {
        secs: i64::MAX,
        nanos: 0,
    };
    assert_eq!(render_time(&far), "");
    let mut status =
        CrawlStatus::running("c_1".to_string(), 3, "http://s".to_string(), now);
    status.error = "bad".to_string();
    assert_eq!(
        render_status(&status),
        "---\nid: c_1\nseed: http://s\nstatus: running\npages: 0\nnew: 0\nchanged: 0\nunchanged: 0\nerrors: 0\nstarted_at: 2023-11-14T22:13:20+00:00\nupdated_at: 2023-11-14T22:13:20+00:00\nerror: bad\n---\n"
    );
    let line = format!(
        "{}  {:<9}  {:<40}  pages={:<5}  {}\n",
        "c_1", "running", "http://s", 0, "2023-11-14T22:13:20+00:00"
    );
    assert_eq!(render_status_list(&vec![status]), line);
}

#[test]
fn the_browser_is_reported() {
    let report = browser_report("", Err("unused".to_string()));
    assert_eq!(report.text(), "browser_config: (not set)\nstatus: disabled\n");
    assert_eq!(report.fields()[1].1, "disabled");
    let report = browser_report("chrome", Ok("/usr/bin/chrome".to_string()));
    assert_eq!(
        report.text(),
        "browser_config: chrome\nbrowser_path: /usr/bin/chrome\nstatus: ok\n"
    );
    assert_eq!(report.fields().len(), 3);
    let report = browser_report("chrome", Err("nowhere".to_string()));
    assert_eq!(
        report.text(),
        "browser_config: chrome\nstatus: error (nowhere)\n"
    );
    assert_eq!(report.fields()[2], ("error".to_string(), "nowhere".to_string()));
}

#[test]
fn the_cache_is_reported() {
    assert_eq!(
        render_cache("/c/cache.json", 2, "1.0 KB", "72h"),
        "---\npath: /c/cache.json\nentries: 2\nsize: 1.0 KB\nttl: 72h\n---\n"
    );
}

#[test]
fn version_prints_rust_toolchain() {
    let mut build = Build {
        version: "0.2.1".to_string(),
        commit: String::new(),
        date: String::new(),
        rust: "rustc 1.90.0".to_string(),
        os: "linux".to_string(),
        arch: "x86_64".to_string(),
    };
    let mut update = UpdateStatus::default();
    assert_eq!(
        render_version(&build, &update),
        "snarf 0.2.1\n  rust:   rustc 1.90.0 linux/x86_64\n"
    );
    build.commit = "abc".to_string();
    build.date = "today".to_string();
    update.available = true;
    update.latest_version = "9.0.0".to_string();
    update.release_url = "http://r".to_string();
    assert_eq!(
        render_version(&build, &update),
        "snarf 0.2.1\n  commit: abc\n  built:  today\n  rust:   rustc 1.90.0 linux/x86_64\n\nUpdate available: 9.0.0\n  command: http://r\n"
    );
    update.command = "do it".to_string();
    assert!(render_version(&build, &update).ends_with("  command: do it\n"));
}
