use snarf::cli::CliError;
use snarf::extract::Extracted;
use snarf::scrape::{
    browser_arguments, browser_candidates, browser_dir, browser_dom, browser_page,
    cache_stale_for_browser, check_status, chrome_for_testing_platform, conditional_answer,
    conditional_headers, conditional_page, content_hash, finish_browser, finish_conditional,
    finish_scrape, installed_browser, is_browser_binary, is_front_page, is_llms_txt, is_path,
    llms_txt_url, not_modified, pick_download, render, rendering, resolve_browser_bin,
    scraped_page, Answer, Body, Channel, Download, Rendering, Scraper, MAX_BODY_BYTES,
};
use snarf::urlrewrite::{Rewriter, Rule};

#[test]
fn rewrite_without_rewriter_is_identity() {
    let scraper = Scraper::new(String::new(), None);
    assert_eq!(
        scraper.rewrite("https://example.com/x"),
        "https://example.com/x"
    );
}

#[test]
fn rewrite_applies_matching_rule() {
    let rewriter = Rewriter::new(&[Rule {
        pattern: r"^https?://www\.reddit\.com/(.*)$".to_string(),
        replace: "https://old.reddit.com/$1".to_string(),
    }])
    .unwrap();
    let scraper = Scraper::new(String::new(), rewriter);

    assert_eq!(
        scraper.rewrite("https://www.reddit.com/r/rust"),
        "https://old.reddit.com/r/rust"
    );
}

#[test]
fn rewrite_no_match_returns_original() {
    let rewriter = Rewriter::new(&[Rule {
        pattern: r"^https?://foo\.com/.*$".to_string(),
        replace: "https://bar.com/x".to_string(),
    }])
    .unwrap();
    let scraper = Scraper::new(String::new(), rewriter);

    assert_eq!(
        scraper.rewrite("https://example.com/x"),
        "https://example.com/x"
    );
}

fn extracted() -> Extracted {
    Extracted {
        title: "Old".to_string(),
        markdown: "hello world from old".to_string(),
    }
}

#[test]
fn scrape_applies_rewrite_and_sets_fetched_url() {
    let page = scraped_page("http://s/new", "http://s/old".to_string(), extracted());
    assert_eq!(page.url, "http://s/new");
    assert_eq!(page.fetched_url, "http://s/old");
    assert_eq!(page.title, "Old");
    assert_eq!(page.markdown, "hello world from old");
}

#[test]
fn scrape_leaves_fetched_url_empty_without_rewrite() {
    let page = scraped_page("http://s/foo", "http://s/foo".to_string(), extracted());
    assert_eq!(page.url, "http://s/foo");
    assert!(page.fetched_url.is_empty());
}

#[test]
fn scrape_conditional_applies_rewrite_and_sets_fetched_url() {
    let rendered = render(
        Rendering::Keep,
        "http://s/src",
        "<p>hi</p>".to_string(),
        Ok(String::new()),
    );
    let result = conditional_page(
        "http://s/src",
        "http://s/dst".to_string(),
        "tag".to_string(),
        "date".to_string(),
        "ambiguous",
        rendered,
        extracted(),
    );
    assert_eq!(result.page.url, "http://s/src");
    assert_eq!(result.page.fetched_url, "http://s/dst");
    assert_eq!(result.page.etag, "tag");
    assert_eq!(result.page.last_modified, "date");
    assert_eq!(result.page.content_hash, content_hash("hello world from old"));
    assert_eq!(result.raw_html, "<p>hi</p>");
    assert_eq!(result.js_detection, "ambiguous");
    assert_eq!(result.source, "http");
    assert!(!result.not_modified);
    assert!(not_modified().not_modified);
}

#[test]
fn response_body_limit_is_enforced_while_reading() {
    let mut body = Body::new(8);
    let error = body
        .push(b"0123456789")
        .expect_err("response over limit is rejected");
    assert_eq!(error.message(), "response body exceeded 8 bytes");

    let mut body = Body::new(8);
    body.push(b"0123").unwrap();
    body.push(b"4567").unwrap();
    assert_eq!(body.text(), "01234567");
    assert!(body.push(b"8").is_err());
    assert!(body.push(b"").is_ok());
    assert_eq!(MAX_BODY_BYTES, 20 * 1024 * 1024);
}

#[test]
fn bytes_that_are_no_text_are_replaced() {
    let mut body = Body::new(100);
    body.push(&[0x61, 0xff, 0xc3]).unwrap();
    body.push(&[0xa4]).unwrap();
    assert_eq!(body.text(), "a\u{FFFD}\u{00E4}");
}

#[test]
fn fetch_llms_txt_preserves_server_port() {
    assert_eq!(
        llms_txt_url("http://127.0.0.1:8080"),
        Some("http://127.0.0.1:8080/llms.txt".to_string())
    );
    assert_eq!(llms_txt_url("http://127.0.0.1:8080/docs"), None);
    assert_eq!(
        llms_txt_url("https://e.com/?a=1#top"),
        Some("https://e.com/llms.txt".to_string())
    );
    assert_eq!(llms_txt_url("nonsense"), None);
    assert!(is_llms_txt(200, "text/plain; charset=utf-8"));
    assert!(!is_llms_txt(404, "text/plain"));
    assert!(!is_llms_txt(200, "text/html"));
}

#[test]
fn scrape_http_errors_exit_upstream() {
    let err = check_status(500, "http://127.0.0.1:8080/").unwrap_err();
    assert!(err.message().contains("HTTP 500"));
    assert_eq!(CliError::from_error(err).code, 4);
    assert!(check_status(204, "u").is_ok());
    assert_eq!(
        check_status(404, "http://x/").unwrap_err().message(),
        "HTTP 404 for http://x/"
    );
    assert_eq!(conditional_answer(304, "u").unwrap(), Answer::NotModified);
    assert_eq!(conditional_answer(200, "u").unwrap(), Answer::Page);
    assert_eq!(
        conditional_answer(302, "u").unwrap_err().message(),
        "HTTP 302 for u"
    );
}

#[test]
fn conditions_are_sent_where_they_are_known() {
    let names = |etag: &str, date: &str| -> Vec<String> {
        conditional_headers(etag, date)
            .into_iter()
            .map(|(name, _)| name)
            .collect()
    };
    assert_eq!(names("", ""), vec!["User-Agent", "Accept"]);
    assert_eq!(
        names("e", "d"),
        vec!["User-Agent", "Accept", "If-None-Match", "If-Modified-Since"]
    );
    assert_eq!(names("", "d").last().unwrap(), "If-Modified-Since");
}

#[test]
fn shells_are_rendered_by_the_browser() {
    assert_eq!(rendering("static", true), Rendering::Keep);
    assert_eq!(rendering("likely_shell", true), Rendering::Browser);
    assert_eq!(rendering("likely_shell", false), Rendering::Warn);

    let rendered = render(
        Rendering::Browser,
        "u",
        "shell".to_string(),
        Ok("dom".to_string()),
    );
    assert_eq!(rendered.html, "dom");
    assert_eq!(rendered.source, "browser");
    assert!(rendered.warning.is_none());

    let rendered = render(
        Rendering::Browser,
        "u",
        "shell".to_string(),
        Err("no display".to_string()),
    );
    assert_eq!(rendered.html, "shell");
    assert!(rendered.warning.unwrap().contains("no display"));

    let rendered = render(
        Rendering::Warn,
        "http://u",
        "shell".to_string(),
        Ok(String::new()),
    );
    assert_eq!(rendered.source, "http_shell");
    assert_eq!(
        rendered.warning.unwrap(),
        "warn: http://u appears JS-rendered; configure browser for full content"
    );
    assert!(cache_stale_for_browser("http_shell", false));
    assert!(cache_stale_for_browser("", true));
    assert!(!cache_stale_for_browser("", false));
    assert!(!cache_stale_for_browser("http", true));
}

#[test]
fn pages_of_the_browser_are_marked() {
    let result = browser_page(
        "http://a",
        "http://b".to_string(),
        "<p>".to_string(),
        extracted(),
    );
    assert_eq!(result.source, "browser");
    assert_eq!(result.page.fetched_url, "http://b");
    assert_eq!(result.js_detection, "");
    assert_eq!(result.page.content_hash.len(), 16);
}

#[test]
fn browsers_are_looked_for_in_order() {
    assert_eq!(browser_candidates("chrome", '/').len(), 5);
    assert_eq!(
        browser_candidates("chromium", '/'),
        vec!["chromium", "chromium-browser"]
    );
    assert_eq!(browser_candidates("/opt/x", '/'), vec!["/opt/x"]);
    assert_eq!(browser_candidates("brave", '/'), vec!["brave"]);
    let found = vec![None, Some("/b".to_string()), Some("/c".to_string())];
    assert_eq!(resolve_browser_bin("chrome", '/', &found).unwrap(), "/b");
    assert_eq!(
        resolve_browser_bin("brave", '/', &vec![None]).unwrap_err().message(),
        "browser executable not found for brave"
    );
    assert_eq!(
        resolve_browser_bin("/x/y", '/', &vec![None]).unwrap_err().message(),
        "browser path does not exist: /x/y"
    );
    assert!(is_path("a\\b", '\\'));
    assert!(!is_path("ab", '\\'));
}

#[test]
fn browsers_write_out_pages() {
    assert_eq!(
        browser_arguments("http://u"),
        vec!["--headless=new", "--disable-gpu", "--dump-dom", "http://u"]
    );
    assert_eq!(
        browser_dom(true, "0", &b"<p>x".to_vec(), &Vec::new()).unwrap(),
        "<p>x"
    );
    assert_eq!(
        browser_dom(true, "0", &b" \n".to_vec(), &Vec::new()).unwrap_err().message(),
        "browser returned empty DOM"
    );
    assert_eq!(
        browser_dom(false, "exit status: 1", &b"x".to_vec(), &b" bad \n".to_vec())
            .unwrap_err()
            .message(),
        "browser exited with status exit status: 1: bad"
    );
}

#[test]
fn browsers_are_offered_for_platforms() {
    assert_eq!(chrome_for_testing_platform("linux", "x86_64").unwrap(), "linux64");
    assert_eq!(chrome_for_testing_platform("macos", "aarch64").unwrap(), "mac-arm64");
    assert_eq!(chrome_for_testing_platform("windows", "x86").unwrap(), "win32");
    assert_eq!(
        chrome_for_testing_platform("linux", "arm").unwrap_err().message(),
        "unsupported browser install platform: linux/arm"
    );
    let stable = Some(Channel {
        version: "1".to_string(),
        downloads: vec![Download {
            platform: "linux64".to_string(),
            url: "http://d".to_string(),
        }],
    });
    assert_eq!(pick_download(&stable, "linux64").unwrap(), "http://d");
    assert_eq!(
        pick_download(&stable, "win32").unwrap_err().message(),
        "Chrome for Testing has no chrome download for win32"
    );
    assert_eq!(
        pick_download(&None, "win32").unwrap_err().message(),
        "Chrome for Testing metadata did not include Stable"
    );
    assert!(is_browser_binary("chrome"));
    assert!(is_browser_binary("Google Chrome for Testing"));
    assert!(!is_browser_binary("chromedriver"));
}

#[test]
fn browsers_are_installed_by_version() {
    assert_eq!(browser_dir("/c", "1.2", "linux64"), "/c/browser/1.2/linux64");
    assert_eq!(installed_browser(Some("/p".to_string())).unwrap(), "/p");
    assert_eq!(
        installed_browser(None).unwrap_err().message(),
        "downloaded Chrome for Testing archive did not contain a browser executable"
    );
    let scraper = Scraper::new(String::new(), None);
    assert_eq!(
        scraper.check_browser().unwrap_err().message(),
        "browser is not configured"
    );
    assert!(Scraper::new("chrome".to_string(), None).check_browser().is_ok());
}

#[test]
fn the_front_page_is_at_the_root() {
    assert!(is_front_page("/"));
    assert!(is_front_page(""));
    assert!(!is_front_page("/docs"));
}

#[test]
fn the_content_is_that_of_the_rendered_page() {
    let shell = "<body><p>shell</p></body>".to_string();
    let page = "<title>T</title><body><p>rendered</p></body>".to_string();
    let rendered = render(Rendering::Browser, "u", shell, Ok(page.clone()));
    let scraped = finish_scrape("u", "v".to_string(), &rendered).unwrap();
    assert_eq!((scraped.title.as_str(), scraped.markdown.as_str()), ("T", "rendered"));
    assert_eq!((scraped.url.as_str(), scraped.fetched_url.as_str()), ("u", "v"));
    let fetch = finish_conditional(
        "u",
        "u".to_string(),
        "e".to_string(),
        "d".to_string(),
        "likely_shell",
        rendered,
    )
    .unwrap();
    assert_eq!(fetch.page.markdown, "rendered");
    assert_eq!(fetch.page.content_hash, content_hash("rendered"));
    assert_eq!((fetch.page.etag.as_str(), fetch.page.last_modified.as_str()), ("e", "d"));
    assert_eq!(fetch.raw_html, page);
    assert_eq!(fetch.source, "browser");
    let fetch = finish_browser("u", "u".to_string(), page).unwrap();
    assert_eq!((fetch.page.title.as_str(), fetch.page.markdown.as_str()), ("T", "rendered"));
    let broken = "<b>text<li>a</li></b>".to_string();
    assert_eq!(
        finish_browser("u", "u".to_string(), broken).unwrap_err().message(),
        "page cannot be written as markdown"
    );
}
