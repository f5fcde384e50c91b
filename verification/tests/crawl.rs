use std::collections::HashMap;

use snarf::cache::{CachedPage, PageCache};
use snarf::crawl::{
    admits, choose_host, compile_deny, crawl_status, extract_links, finish_item, is_skipped,
    keep_web_page, link_targets, normalize_url, page_with_crawl_urls, pages_have_same_content,
    passes_filters, plan_item, significant_pairs, Crawl, CrawlOptions, CrawlResult, HostStats,
    Pattern, Plan, QueueItem,
};
use snarf::duration::Duration;
use snarf::extract::{detect_js_shell, try_extract};
use snarf::html::Element;
use snarf::scrape::{
    conditional_page, not_modified, render, rendering, FetchResult, Scraper, SOURCE_HTTP,
};
use snarf::types::Page;
use snarf::urlrewrite::{Rewriter, Rule};

fn options(depth: usize) -> CrawlOptions {
    CrawlOptions {
        depth,
        concurrency: 1,
        allow: Vec::new(),
        deny: Vec::new(),
    }
}

/// What fetching the page at `fetch_url` with the content `html` gives.
fn fetched(raw_url: &str, fetch_url: &str, html: &str) -> FetchResult {
    let detection = detect_js_shell(html);
    let rendered = render(
        rendering(detection, false),
        raw_url,
        html.to_string(),
        Ok(String::new()),
    );
    let extracted = try_extract(&rendered.html).expect("content extracts");
    conditional_page(
        raw_url,
        fetch_url.to_string(),
        String::new(),
        String::new(),
        detection,
        rendered,
        extracted,
    )
}

/// Crawls a site whose pages are `routes`.
fn crawl_site(
    seed: &str,
    scraper: &Scraper,
    depth: usize,
    cache: &mut Option<PageCache>,
    routes: &HashMap<String, String>,
) -> Vec<CrawlResult> {
    let mut crawl = Crawl::start(seed, scraper, options(depth)).unwrap();
    crawl.enqueue(seed, 0, "seed");
    let mut results = Vec::new();
    loop {
        let wave = crawl.take_wave();
        if wave.is_empty() {
            return results;
        }
        for item in wave {
            let cached = cache.as_ref().and_then(|cache| cache.get_any(&item.fetch_url));
            let processed = match plan_item(&item, &cached, false, false) {
                Plan::Done(processed) => processed,
                Plan::Browser => panic!("there is no browser"),
                Plan::Fetch { .. } => {
                    let outcome = match routes.get(&item.fetch_url) {
                        Some(html) => Ok(fetched(&item.url, &item.fetch_url, html)),
                        None => Err("not found".to_string()),
                    };
                    let (processed, kept) = finish_item(&item, cached, outcome, depth);
                    if let (Some(cache), Some((page, source))) = (cache.as_mut(), kept) {
                        cache.put(&item.fetch_url, &page, &source);
                    }
                    processed
                }
            };
            crawl.add_links(processed.depth, &processed.links);
            results.extend(processed.result);
        }
    }
}

#[test]
fn normalizes_urls() {
    for (input, expected) in [
        (
            "https://example.com/page#section",
            "https://example.com/page",
        ),
        (
            "https://example.com/page?utm_source=twitter&id=1",
            "https://example.com/page?id=1",
        ),
        (
            "https://example.com/?utm_medium=email",
            "https://example.com",
        ),
        (
            "https://example.com/p?utm_source=a&utm_medium=b&utm_campaign=c&keep=1",
            "https://example.com/p?keep=1",
        ),
        ("https://example.com/page/", "https://example.com/page"),
        ("https://example.com/page/#top", "https://example.com/page"),
        (
            "https://example.com/search?q=test&page=2",
            "https://example.com/search?page=2&q=test",
        ),
        ("", ""),
    ] {
        assert_eq!(normalize_url(input), expected, "input: {input:?}");
    }
}

#[test]
fn filters_same_host_allow_and_deny() {
    let deny = vec![
        Pattern::new("/admin").unwrap(),
        Pattern::new(r"\.pdf$").unwrap(),
    ];
    assert!(passes_filters(
        "https://example.com/docs",
        "example.com",
        &vec!["/docs".to_string()],
        &deny
    ));
    assert!(!passes_filters(
        "https://example.com/admin",
        "example.com",
        &vec![],
        &deny
    ));
    assert!(!passes_filters(
        "https://other.com/docs",
        "example.com",
        &vec![],
        &vec![]
    ));
    assert!(!passes_filters(
        "https://sub.example.com/docs",
        "example.com",
        &vec![],
        &vec![]
    ));
    assert!(passes_filters(
        "https://example.com/api/v1/users",
        "example.com",
        &vec!["/docs".to_string(), "/api".to_string()],
        &vec![]
    ));
    assert!(!passes_filters(
        "https://example.com/blog/post",
        "example.com",
        &vec!["/docs".to_string(), "/api".to_string()],
        &vec![]
    ));
    assert!(!passes_filters(
        "https://example.com/doc.pdf",
        "example.com",
        &vec![],
        &deny
    ));
}

#[test]
fn compiles_deny_patterns() {
    assert_eq!(
        compile_deny(&vec!["/admin".to_string(), r"\.pdf$".to_string()])
            .unwrap()
            .len(),
        2
    );
    assert!(compile_deny(&vec!["[invalid".to_string()]).is_err());
}

#[test]
fn extracts_resolved_links() {
    let links = extract_links(
        "https://example.com/docs/page",
        r##"
            <a href="/about">About</a>
            <a href="https://example.com/contact">Contact</a>
            <a href="../other">Other</a>
            <a href="javascript:void(0)">JS</a>
            <a href="mailto:a@b">Email</a>
            <a href="tel:+1234567890">Phone</a>
            <a href="#section">Anchor</a>
            <a href="https://external.com/page">External</a>
            "##,
    );
    assert!(links.contains(&"https://example.com/about".to_string()));
    assert!(links.contains(&"https://example.com/contact".to_string()));
    assert!(links.contains(&"https://example.com/other".to_string()));
    assert!(links.contains(&"https://external.com/page".to_string()));
    assert_eq!(links.len(), 4);
}

#[test]
fn forces_browser_for_shell_heavy_hosts_after_enough_samples() {
    let mut stats = HostStats::new();
    for _ in 0..9 {
        stats.record_js_detection("https://example.com/page", "likely_shell");
    }
    stats.record_js_detection("https://example.com/other", "static");

    assert!(stats.should_force_browser("https://example.com/new"));
    assert!(!stats.should_force_browser("https://other.example/new"));
}

#[test]
fn does_not_force_browser_before_threshold_or_at_exact_eighty_percent() {
    let mut under_sampled = HostStats::new();
    for _ in 0..9 {
        under_sampled.record_js_detection("https://example.com/page", "likely_shell");
    }
    assert!(!under_sampled.should_force_browser("https://example.com/new"));

    let mut exact_threshold = HostStats::new();
    for _ in 0..8 {
        exact_threshold.record_js_detection("https://example.com/page", "likely_shell");
    }
    for _ in 0..2 {
        exact_threshold.record_js_detection("https://example.com/page", "static");
    }
    assert!(!exact_threshold.should_force_browser("https://example.com/new"));
}

#[test]
fn crawl_scheduler_visits_each_page_once() {
    let pages = ["/", "/a", "/b", "/c", "/d"];
    let url = "http://127.0.0.1:8080";
    let mut routes = HashMap::new();
    for path in pages {
        let mut body = String::from("<!doctype html><html><body><main><article><h1>Page</h1><p>");
        body.push_str(&"content ".repeat(40));
        body.push_str("</p>");
        for link in pages {
            body.push_str(&format!(r#"<a href="{link}">link</a>"#));
        }
        body.push_str("</article></main></body></html>");
        routes.insert(format!("{url}{path}").trim_end_matches('/').to_string(), body);
    }
    let scraper = Scraper::new(String::new(), None);

    let results = crawl_site(url, &scraper, 5, &mut None, &routes);

    let mut seen = HashMap::new();
    for result in results {
        assert!(result.error.is_empty(), "{}", result.error);
        *seen.entry(result.url).or_insert(0usize) += 1;
    }
    assert_eq!(seen.len(), pages.len());
    assert!(seen.contains_key(url));
    for count in seen.values() {
        assert_eq!(*count, 1);
    }
}

#[test]
fn crawl_host_rewrite_preserves_original_url_and_records_fetched_url() {
    let fetched = "http://127.0.0.1:8080/start".to_string();
    let routes = HashMap::from([(
        fetched.clone(),
        format!(
            "<!doctype html><html><head><title>Rewritten</title></head><body><main><p>{}</p></main></body></html>",
            "rewritten content ".repeat(30)
        ),
    )]);
    let original = "http://seed.test/start";
    let rewriter = Rewriter::new(&[Rule {
        pattern: "^http://seed\\.test/start$".to_string(),
        replace: fetched.clone(),
    }])
    .unwrap();
    let scraper = Scraper::new(String::new(), rewriter);

    let results = crawl_site(original, &scraper, 0, &mut None, &routes);

    assert_eq!(results.len(), 1);
    assert_eq!(results[0].url, original);
    let page = results[0].page.as_ref().expect("rewritten crawl has page");
    assert_eq!(page.url, original);
    assert_eq!(page.fetched_url, fetched);
    assert_eq!(page.title, "Rewritten");
}

#[test]
fn stale_cache_refetch_reports_changed_content() {
    let url = "http://127.0.0.1:8080".to_string();
    let routes = HashMap::from([(
        url.clone(),
        "<!doctype html><html><head><title>New</title></head><body><main><p>new crawled content with enough words for extraction to keep this page body</p></main></body></html>".to_string(),
    )]);
    let mut cache = PageCache::new(Duration::from_nanos(1));
    cache.put_at(
        &url,
        &Page {
            url: url.clone(),
            title: "Old".to_string(),
            markdown: "old cached content".to_string(),
            ..Page::default()
        },
        SOURCE_HTTP,
        1_000_000_000,
    );

    let scraper = Scraper::new(String::new(), None);
    let results = crawl_site(&url, &scraper, 0, &mut Some(cache), &routes);

    assert_eq!(results.len(), 1);
    assert_eq!(results[0].status, "changed");
    let page = results[0].page.as_ref().expect("changed result has page");
    assert_eq!(page.title, "New");
    assert!(page.markdown.contains("new crawled content"));
}

#[test]
fn pages_that_cannot_be_had_are_told_of() {
    let scraper = Scraper::new(String::new(), None);
    let results = crawl_site("http://x.test/", &scraper, 1, &mut None, &HashMap::new());
    assert_eq!(results.len(), 1);
    assert_eq!(results[0].error, "not found");
    assert_eq!(results[0].status, "");
    assert!(results[0].page.is_none());
}

#[test]
fn crawls_do_not_go_deeper_than_asked() {
    let page = |link: &str| {
        format!(
            "<body><main><p>{}</p><a href=\"{link}\">next</a></main></body>",
            "some text ".repeat(30)
        )
    };
    let routes = HashMap::from([
        ("http://x.test".to_string(), page("/1")),
        ("http://x.test/1".to_string(), page("/2")),
        ("http://x.test/2".to_string(), page("/3")),
    ]);
    let scraper = Scraper::new(String::new(), None);
    for depth in 0..3 {
        let results = crawl_site("http://x.test", &scraper, depth, &mut None, &routes);
        assert_eq!(results.len(), depth + 1);
        assert_eq!(results[depth].depth, depth);
    }
}

#[test]
fn crawls_that_cannot_start_are_refused() {
    let scraper = Scraper::new(String::new(), None);
    let Err(error) = Crawl::start("not a url", &scraper, options(1)) else {
        panic!("expected an error");
    };
    assert!(error.message().starts_with("invalid seed URL: "));
    let mut broken = options(1);
    broken.deny = vec!["[".to_string()];
    let Err(error) = Crawl::start("http://x.test", &scraper, broken) else {
        panic!("expected an error");
    };
    assert!(error.message().starts_with("invalid deny pattern \"[\": "));
}

#[test]
fn seeds_of_a_sitemap_are_filtered() {
    let scraper = Scraper::new(String::new(), None);
    let mut limits = options(3);
    limits.allow = vec!["/docs".to_string()];
    limits.deny = vec!["old".to_string()];
    let mut crawl = Crawl::start("http://x.test/sitemap.xml", &scraper, limits).unwrap();
    let urls: Vec<String> = [
        "http://x.test/docs/a",
        "http://x.test/docs/a#part",
        "http://x.test/blog",
        "http://x.test/docs/old",
        "http://y.test/docs/b",
        "nonsense",
        "http://x.test/docs/b/",
    ]
    .iter()
    .map(|url| url.to_string())
    .collect();
    crawl.add_seeds(&urls, "sitemap");
    let wave = crawl.take_wave();
    let found: Vec<&str> = wave.iter().map(|item| item.url.as_str()).collect();
    assert_eq!(found, vec!["http://x.test/docs/a", "http://x.test/docs/b"]);
    assert_eq!(wave[0].source, "sitemap");
    assert!(crawl.take_wave().is_empty());
}

fn item() -> QueueItem {
    QueueItem {
        url: "http://x.test/a".to_string(),
        fetch_url: "http://y.test/a".to_string(),
        depth: 1,
        source: "link".to_string(),
    }
}

fn cached(source: &str, expired: bool) -> CachedPage {
    CachedPage {
        page: Page {
            title: "T".to_string(),
            markdown: "m".to_string(),
            etag: "e".to_string(),
            last_modified: "l".to_string(),
            content_hash: "h".to_string(),
            ..Page::default()
        },
        source: source.to_string(),
        expired,
    }
}

#[test]
fn fresh_pages_of_the_cache_are_unchanged() {
    let Plan::Done(processed) = plan_item(&item(), &Some(cached("http", false)), false, true)
    else {
        panic!("expected the page of the cache");
    };
    let result = processed.result.unwrap();
    assert_eq!(result.status, "unchanged");
    let page = result.page.unwrap();
    assert_eq!(page.url, "http://x.test/a");
    assert_eq!(page.fetched_url, "http://y.test/a");
    // A shell is fetched again, with the browser where the host calls for it.
    let plan = plan_item(&item(), &Some(cached("http_shell", false)), true, true);
    assert!(matches!(plan, Plan::Browser));
    let Plan::Fetch { etag, .. } = plan_item(&item(), &Some(cached("http_shell", false)), true, false)
    else {
        panic!("expected a request");
    };
    assert_eq!(etag, "");
    let Plan::Fetch { etag, last_modified } =
        plan_item(&item(), &Some(cached("http", true)), false, true)
    else {
        panic!("expected a conditional request");
    };
    assert_eq!((etag.as_str(), last_modified.as_str()), ("e", "l"));
    assert!(matches!(plan_item(&item(), &None, true, true), Plan::Browser));
}

#[test]
fn pages_that_were_not_modified_are_stored_again() {
    let (processed, kept) =
        finish_item(&item(), Some(cached("http", true)), Ok(not_modified()), 3);
    assert_eq!(processed.result.unwrap().status, "unchanged");
    let (page, source) = kept.unwrap();
    assert_eq!(page.title, "T");
    assert_eq!(source, "http");
    let (processed, kept) = finish_item(&item(), None, Ok(not_modified()), 3);
    assert!(processed.result.is_none());
    assert!(kept.is_none());
}

#[test]
fn contents_are_compared_by_their_hashes_first() {
    let mut a = Page {
        title: "t".to_string(),
        markdown: "m".to_string(),
        ..Page::default()
    };
    let mut b = a.clone();
    assert!(pages_have_same_content(&a, &b));
    a.content_hash = "1".to_string();
    b.content_hash = "2".to_string();
    assert!(!pages_have_same_content(&a, &b));
    b.content_hash = "1".to_string();
    b.markdown = "other".to_string();
    assert!(pages_have_same_content(&a, &b));
    b.content_hash = String::new();
    assert!(!pages_have_same_content(&a, &b));
    assert_eq!(crawl_status(&None, &a), "new");
    let page = page_with_crawl_urls(a, "u", "u");
    assert_eq!(page.fetched_url, "");
}

#[test]
fn pairs_are_sorted_without_tracking() {
    let pair = |name: &str, value: &str| (name.to_string(), value.to_string());
    assert_eq!(
        significant_pairs(&vec![
            pair("b", "2"),
            pair("utm_x", "1"),
            pair("a", "2"),
            pair("a", "1"),
            pair("\u{00E4}", ""),
        ]),
        vec![
            pair("a", "1"),
            pair("a", "2"),
            pair("b", "2"),
            pair("\u{00E4}", ""),
        ]
    );
    assert_eq!(
        normalize_url("https://example.com/?q=a%20b&c=%C3%A4"),
        "https://example.com/?c=%C3%A4&q=a+b"
    );
    assert_eq!(normalize_url("mailto:x@y?b=1&a=2"), "mailto:x@y?a=2&b=1");
}

#[test]
fn links_of_other_kinds_are_left_out() {
    let link = |href: Option<&str>| Element {
        name: "a".to_string(),
        id: None,
        class: None,
        role: None,
        itemprop: None,
        href: href.map(|href| href.to_string()),
        text: Vec::new(),
    };
    let links = vec![
        link(None),
        link(Some("")),
        link(Some("#x")),
        link(Some("ftp://f.test/")),
        link(Some("b?c")),
    ];
    assert_eq!(
        link_targets("http://x.test/a/", &links),
        vec!["http://x.test/a/b?c".to_string()]
    );
    assert!(extract_links("nonsense", "<a href='x'>").is_empty());
    assert!(Pattern::new("a+b").unwrap().is_match("xaab"));
    assert!(!Pattern::new("^a").unwrap().is_match("ba"));
}

#[test]
fn pages_of_the_site_are_admitted() {
    let host = Some("e.com".to_string());
    let allow = vec!["/docs".to_string()];
    assert!(admits(&host, "/docs/a", false, "e.com", &allow));
    assert!(!admits(&host, "/blog", false, "e.com", &allow));
    assert!(admits(&host, "/blog", false, "e.com", &vec![]));
    assert!(!admits(&host, "/docs/a", true, "e.com", &allow));
    assert!(!admits(&host, "/docs/a", false, "f.com", &allow));
    assert!(admits(&None, "/x", false, "", &vec![]));
}

#[test]
fn links_to_other_things_than_pages_are_skipped() {
    for href in ["", "javascript:void(0)", "mailto:a@e.com", "tel:1", "#top"] {
        assert!(is_skipped(href), "{href}");
    }
    assert!(!is_skipped("/a#top"));
    let resolved = |url: &str, scheme: &str| Some((url.to_string(), scheme.to_string()));
    assert_eq!(
        keep_web_page(resolved("https://e.com/a", "https")),
        Some("https://e.com/a".to_string())
    );
    assert_eq!(keep_web_page(resolved("ftp://e.com/a", "ftp")), None);
    assert_eq!(keep_web_page(None), None);
}

#[test]
fn the_host_is_that_of_the_fetched_url() {
    let host = |text: &str| Some(text.to_string());
    assert_eq!(choose_host(host("a.com"), host("b.com")), "a.com");
    assert_eq!(choose_host(None, host("b.com")), "b.com");
    assert_eq!(choose_host(None, None), "");
}

#[test]
fn nine_shells_in_ten_pages_call_for_the_browser() {
    let mut stats = HostStats::new();
    stats.record_host("e.com".to_string(), "static");
    for _ in 0..8 {
        stats.record_host("e.com".to_string(), "likely_shell");
    }
    assert!(!stats.is_host_forced("e.com"));
    stats.record_host("e.com".to_string(), "likely_shell");
    assert!(stats.is_host_forced("e.com"));
    assert!(!stats.is_host_forced("f.com"));
}

#[test]
fn urls_of_one_page_are_known_as_one() {
    let known = "https://e.com/p?a=1&b=%26&b=2";
    for url in [
        "https://e.com/p?a=1&b=2&b=%26",
        "https://e.com/p/../p?b=%26&b=2&a=1#top",
        "https://e.com/p?utm_source=x&b=2&a=1&b=%26&utm_campaign=y",
        "https://E.com:443/p?b=2&b=%26&a=1#?a=2",
    ] {
        assert_eq!(normalize_url(url), known, "{url}");
    }
    assert_eq!(normalize_url(known), known);
    for url in [
        "http://u:p@e.com:8080//",
        "https://e.com/a%20b//?",
        "http://[::1]/x/./y/?utm_a=1#z",
        "https://b\u{00FC}cher.example/\u{00E4}?q=\u{00F6} +&q=",
        "https://e.com/?a=/",
    ] {
        let once = normalize_url(url);
        assert!(!once.is_empty());
        assert_eq!(normalize_url(&once), once, "{url}");
    }
    assert_eq!(normalize_url("https://e.com//"), "https://e.com");
    assert_eq!(normalize_url("mailto:a@e.com?utm_x=1&b=2#c"), "mailto:a@e.com?b=2");
}
