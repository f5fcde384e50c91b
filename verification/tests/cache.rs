use std::time::Duration as StdDuration;

use snarf::cache::{
    cache_key, db_path, entry_expired, format_bytes, path_in, seconds_of, unix_now, CacheEntry,
    PageCache,
};
use snarf::duration::Duration;
use snarf::scrape::{SOURCE_BROWSER, SOURCE_HTTP};
use snarf::types::Page;

fn page(url: &str, title: &str, markdown: &str) -> Page {
    Page {
        url: url.to_string(),
        title: title.to_string(),
        markdown: markdown.to_string(),
        ..Page::default()
    }
}

#[test]
fn puts_then_gets_pages() {
    let mut cache = PageCache::new(Duration::from_secs(60 * 60));
    let page = page("https://example.com/test", "Test Page", "# Hello\n\nWorld");

    cache.put("https://example.com/test", &page, SOURCE_HTTP);

    let (got, source) = cache
        .get("https://example.com/test")
        .expect("page is cached");
    assert_eq!(source, SOURCE_HTTP);
    assert_eq!(got.url, "https://example.com/test");
    assert_eq!(got.title, "Test Page");
    assert_eq!(got.markdown, "# Hello\n\nWorld");
}

#[test]
fn round_trips_fetch_source() {
    let mut cache = PageCache::new(Duration::from_secs(60 * 60));
    let page = page("https://example.com/browser", "Rendered", "");

    cache.put("https://example.com/browser", &page, SOURCE_BROWSER);

    let (_, source) = cache
        .get("https://example.com/browser")
        .expect("page is cached");
    assert_eq!(source, SOURCE_BROWSER);
}

#[test]
fn expires_entries_by_ttl() {
    let mut cache = PageCache::new(Duration::from_nanos(1));
    let page = page("https://example.com/expired", "Old", "");

    cache.put("https://example.com/expired", &page, SOURCE_HTTP);
    let start = std::time::Instant::now();
    while start.elapsed() < StdDuration::from_millis(10) {}

    assert!(cache.get("https://example.com/expired").is_none());
    let stale = cache
        .get_any("https://example.com/expired")
        .expect("expired entry is still inspectable");
    assert!(stale.expired);
    assert_eq!(stale.page.title, "Old");
    assert_eq!(stale.source, SOURCE_HTTP);
}

#[test]
fn keeps_entries_within_ttl() {
    let mut cache = PageCache::new(Duration::from_secs(24 * 60 * 60));
    let page = page("https://example.com/valid", "Fresh", "");

    cache.put("https://example.com/valid", &page, SOURCE_HTTP);

    let (got, _) = cache
        .get("https://example.com/valid")
        .expect("page is cached");
    assert_eq!(got.title, "Fresh");
}

#[test]
fn reports_stats_and_clears_entries() {
    let mut cache = PageCache::new(Duration::from_secs(60 * 60));
    assert_eq!(cache.stats(0).0, 0);

    cache.put(
        "https://example.com/a",
        &page("https://example.com/a", "A", ""),
        SOURCE_HTTP,
    );
    cache.put(
        "https://example.com/b",
        &page("https://example.com/b", "B", ""),
        SOURCE_HTTP,
    );

    let (entries, bytes) = cache.stats(321);
    assert_eq!(entries, 2);
    assert!(bytes > 0);

    cache.clear();
    assert_eq!(cache.stats(2).0, 0);
    assert!(cache.get("https://example.com/a").is_none());
}

#[test]
fn keys_different_urls_separately() {
    let mut cache = PageCache::new(Duration::from_secs(60 * 60));
    cache.put(
        "https://example.com/page1",
        &page("https://example.com/page1", "Page 1", "Content 1"),
        SOURCE_HTTP,
    );
    cache.put(
        "https://example.com/page2",
        &page("https://example.com/page2", "Page 2", "Content 2"),
        SOURCE_HTTP,
    );

    assert_eq!(
        cache
            .get("https://example.com/page1")
            .expect("page1 is cached")
            .0
            .title,
        "Page 1"
    );
    assert_eq!(
        cache
            .get("https://example.com/page2")
            .expect("page2 is cached")
            .0
            .title,
        "Page 2"
    );
    assert!(cache.get("https://example.com/nonexistent").is_none());
}

#[test]
fn a_later_put_replaces_the_earlier_one() {
    let mut cache = PageCache::new(Duration::from_secs(10));
    cache.put_at("https://a.example", &page("u", "first", ""), "http", 100);
    cache.put_at("https://b.example", &page("u", "other", ""), "http", 100);
    cache.put_at("https://a.example", &page("u", "second", ""), "browser", 105);

    let now: u128 = 106_000_000_000;
    let (found, source) = cache.get_at("https://a.example", now).unwrap();
    assert_eq!(found.title, "second");
    assert_eq!(source, "browser");
    assert_eq!(
        cache.get_at("https://b.example", now).unwrap().0.title,
        "other"
    );
    assert_eq!(cache.len(), 2);
}

#[test]
fn entries_expire_just_after_the_time_to_live() {
    let mut cache = PageCache::new(Duration::from_secs(10));
    cache.put_at("u", &page("u", "t", ""), "http", 100);
    assert!(cache.get_at("u", 110_000_000_000).is_some());
    assert!(cache.get_at("u", 110_000_000_001).is_none());
    assert!(cache.get_any_at("u", 110_000_000_001).unwrap().expired);
    // One from the future is fresh, one from before 1970 is not.
    assert!(cache.get_at("u", 5).is_some());
    let old = CacheEntry {
        t: -1,
        s: String::new(),
        p: Page::default(),
    };
    assert!(entry_expired(&old, &Duration::from_secs(1_000_000), 0));
}

#[test]
fn entries_are_listed_with_their_keys() {
    let mut cache = PageCache::new(Duration::from_secs(10));
    cache.put_at("https://example.com/", &page("u", "t", "m"), "http", 7);
    let (key, entry) = cache.entry(0);
    assert_eq!(key, &cache_key("https://example.com/"));
    assert_eq!(entry.t, 7);
    assert_eq!(entry.p.markdown, "m");
    let entry = CacheEntry {
        t: 8,
        s: "browser".to_string(),
        p: page("v", "w", "x"),
    };
    cache.insert(cache_key("https://example.com/other"), entry);
    assert_eq!(cache.len(), 2);
    assert_eq!(
        cache.get_at("https://example.com/other", 9_000_000_000).unwrap().1,
        "browser"
    );
}

#[test]
fn keys_are_the_first_eight_bytes_of_the_digest() {
    // The SHA-256 digest of "abc" begins with ba7816bf 8f01cfea.
    assert_eq!(cache_key("abc"), "ba7816bf8f01cfea");
    assert_eq!(cache_key(""), "e3b0c44298fc1c14");
}

#[test]
fn the_clock_is_past_the_year_2020() {
    assert!(unix_now() > 1_577_836_800);
}

#[test]
fn readings_of_the_clock_are_cut_to_seconds() {
    assert_eq!(seconds_of(0), 0);
    assert_eq!(seconds_of(999_999_999), 0);
    assert_eq!(seconds_of(1_700_000_000_500_000_000), 1_700_000_000);
    assert_eq!(seconds_of(u128::MAX), i64::MAX);
}

#[test]
fn sizes_are_written_with_one_decimal() {
    assert_eq!(format_bytes(0), "0 B");
    assert_eq!(format_bytes(1023), "1023 B");
    assert_eq!(format_bytes(1024), "1.0 KB");
    assert_eq!(format_bytes(1536), "1.5 KB");
    assert_eq!(format_bytes(1_048_576), "1.0 MB");
    let mut samples: Vec<u64> = (0..4000).map(|i| i * 37 + 1000).collect();
    samples.extend((0..2000).map(|i| 1_048_000 + i * 52_429));
    samples.extend([
        1075,
        1076,
        1177,
        1_048_575,
        1_100_000_000_000,
        (1 << 53) + 1,
        u64::MAX,
        u64::MAX / 3,
    ]);
    for bytes in samples {
        let expected = if bytes >= 1 << 20 {
            format!("{:.1} MB", bytes as f64 / (1 << 20) as f64)
        } else if bytes >= 1 << 10 {
            format!("{:.1} KB", bytes as f64 / (1 << 10) as f64)
        } else {
            format!("{bytes} B")
        };
        assert_eq!(format_bytes(bytes), expected, "{bytes}");
    }
}

#[test]
fn paths_are_joined() {
    assert_eq!(db_path("/tmp/snarf"), "/tmp/snarf/cache.json");
    assert_eq!(db_path("/tmp/snarf/"), "/tmp/snarf/cache.json");
    assert_eq!(path_in("/tmp", "/etc/x"), "/etc/x");
    assert_eq!(path_in("", "x"), "x");
}

#[test]
fn a_put_of_a_new_page_is_counted_once() {
    let mut cache = PageCache::new(Duration::from_secs(60));
    let urls: Vec<String> = (0..12).map(|n| format!("https://e.com/{n}")).collect();
    for (n, url) in urls.iter().enumerate() {
        cache.put_at(url, &page(url, "t", "m"), SOURCE_HTTP, 5);
        assert_eq!(cache.stats(0).0, n + 1);
        cache.put_at(url, &page(url, "t", "again"), SOURCE_HTTP, 6);
        assert_eq!(cache.stats(0).0, n + 1);
    }
    for url in &urls {
        assert_eq!(cache.get_any_at(url, 6_000_000_000).unwrap().page.markdown, "again");
    }
}
