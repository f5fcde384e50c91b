use snarf::sitemap::{
    add_child, classify_sitemap, clean_locations, first_xml_element, parse_robots_sitemaps,
    push_unique, robots_url, sitemap_candidates, sitemap_failure, sitemap_kind, sitemap_places,
    sitemap_step, Child, SitemapKind, SitemapStep,
};

#[test]
fn fetches_urlset_sitemaps() {
    let xml = r#"
            <urlset>
                <url><loc>https://example.com/page1</loc></url>
                <url><loc>https://example.com/page2</loc></url>
                <url><loc>https://example.com/page3</loc></url>
            </urlset>
            "#;
    assert_eq!(classify_sitemap(xml).unwrap(), SitemapKind::Pages);
    let locations = vec![
        " https://example.com/page1\n".to_string(),
        "  ".to_string(),
        "https://example.com/page2".to_string(),
    ];
    assert_eq!(
        clean_locations(&locations),
        vec!["https://example.com/page1", "https://example.com/page2"]
    );
    let pages: Vec<String> = ["https://example.com/page1", "https://example.com/page2", "https://example.com/page3"]
        .iter()
        .map(|page| page.to_string())
        .collect();
    match sitemap_step(
        "https://example.com/sitemap.xml",
        &vec!["https://example.com/sitemap.xml".to_string()],
        &mut Vec::new(),
        Some(Ok(clean_locations(&pages))),
    ) {
        SitemapStep::Found(urls) => assert_eq!(urls, pages),
        other => panic!("{other:?}"),
    }
}

#[test]
fn fetches_sitemap_indexes() {
    let xml = r#"<?xml version="1.0"?><!-- index --><sitemapindex><sitemap><loc>SERVER/sitemap-pages.xml</loc></sitemap></sitemapindex>"#;
    assert_eq!(classify_sitemap(xml).unwrap(), SitemapKind::Index);
    let pages = r#"<urlset><url><loc>https://example.com/from-index</loc></url></urlset>"#;
    assert_eq!(classify_sitemap(pages).unwrap(), SitemapKind::Pages);
    let mut urls = Vec::new();
    let listed = clean_locations(&vec!["https://example.com/from-index".to_string()]);
    assert!(add_child(&mut urls, Child::Urls(listed)).is_ok());
    assert_eq!(urls, vec!["https://example.com/from-index"]);
}

#[test]
fn fetches_default_sitemap_from_site_root() {
    let url = "http://127.0.0.1:8080";
    assert_eq!(
        robots_url(url),
        Some("http://127.0.0.1:8080/robots.txt".to_string())
    );
    assert_eq!(
        sitemap_candidates(url, &Vec::new()).unwrap(),
        vec![
            "http://127.0.0.1:8080/sitemap.xml",
            "http://127.0.0.1:8080/sitemap-index.xml",
            "http://127.0.0.1:8080/sitemap_index.xml",
            "http://127.0.0.1:8080/",
        ]
    );
}

#[test]
fn fetches_robots_sitemap_locations() {
    let robots = parse_robots_sitemaps(
        "User-agent: *\nSitemap: http://s/custom-sitemap.xml # primary sitemap\n SITEMAP :http://s/b\nsitemap:\n# sitemap: no\n",
    );
    assert_eq!(robots, vec!["http://s/custom-sitemap.xml", "http://s/b"]);
    let candidates = sitemap_candidates("http://s/map.xml", &robots).unwrap();
    assert_eq!(candidates[0], "http://s/map.xml");
    assert_eq!(candidates[1], "http://s/custom-sitemap.xml");
    assert_eq!(candidates.len(), 6);
}

#[test]
fn no_candidate_comes_twice() {
    let robots = vec![
        "http://s/sitemap.xml".to_string(),
        "http://s/sitemap.xml".to_string(),
    ];
    let candidates = sitemap_candidates("http://s/sitemap.xml", &robots).unwrap();
    assert_eq!(
        candidates,
        vec![
            "http://s/sitemap.xml",
            "http://s/sitemap-index.xml",
            "http://s/sitemap_index.xml"
        ]
    );
    let mut list = vec!["a".to_string()];
    push_unique(&mut list, "a".to_string());
    push_unique(&mut list, "b".to_string());
    assert_eq!(list, vec!["a", "b"]);
    assert!(sitemap_candidates("nonsense", &Vec::new())
        .unwrap_err()
        .message()
        .starts_with("invalid sitemap URL: "));
}

#[test]
fn reports_html_documents_as_non_sitemaps() {
    let html = r#"<!doctype html><html><head><style>@media(min-width:32.5rem){.rail[data-astro-cid-rff6ndou]}</style></head><body></body></html>"#;
    let err = classify_sitemap(html).unwrap_err().message();
    assert!(err.contains("expected sitemap XML root <urlset> or <sitemapindex>"));
    assert!(err.contains("found <html>"));
}

#[test]
fn documents_without_elements_are_refused() {
    assert_eq!(
        classify_sitemap("  ").unwrap_err().message(),
        "empty sitemap XML document"
    );
    assert!(first_xml_element("<!-- never closed")
        .unwrap_err()
        .message()
        .starts_with("failed to parse sitemap XML: "));
    assert_eq!(first_xml_element("<a/>").unwrap(), Some("a".to_string()));
    assert_eq!(first_xml_element("text <b>").unwrap(), Some("b".to_string()));
    assert!(sitemap_kind(&None).is_err());
}

#[test]
fn the_last_failure_is_told() {
    let candidates = vec!["a".to_string(), "b".to_string()];
    assert_eq!(
        sitemap_failure("u", &candidates, &vec!["x".to_string(), "y".to_string()]).message(),
        "failed to find a sitemap for u; tried a, b; last error: y"
    );
    assert_eq!(
        sitemap_failure("u", &candidates, &Vec::new()).message(),
        "failed to find a sitemap for u; tried a, b"
    );
}

#[test]
fn places_are_looked_at_in_order() {
    let some = |text: &str| Some(text.to_string());
    let robots = vec!["https://e.com/r.xml".to_string()];
    assert_eq!(
        sitemap_places(
            "https://e.com/map.xml".to_string(),
            "/map.xml",
            &robots,
            (some("https://e.com/sitemap.xml"), None, some("https://e.com/r.xml"))
        ),
        vec!["https://e.com/map.xml", "https://e.com/r.xml", "https://e.com/sitemap.xml"]
    );
    assert_eq!(
        sitemap_places("https://e.com/".to_string(), "/", &robots, (None, None, None)),
        vec!["https://e.com/r.xml", "https://e.com/"]
    );
}

fn fetched(step: SitemapStep) -> String {
    match step {
        SitemapStep::Fetch(candidate) => candidate,
        other => panic!("{other:?}"),
    }
}

#[test]
fn the_first_sitemap_that_works_is_taken() {
    let candidates = vec!["a".to_string(), "b".to_string(), "c".to_string()];
    let mut failures = Vec::new();
    assert_eq!(fetched(sitemap_step("u", &candidates, &mut failures, None)), "a");
    let refused = Some(Err("status 404".to_string()));
    assert_eq!(fetched(sitemap_step("u", &candidates, &mut failures, refused)), "b");
    assert_eq!(failures, vec!["a: status 404"]);
    let pages = vec!["https://e.com/1".to_string()];
    match sitemap_step("u", &candidates, &mut failures, Some(Ok(pages.clone()))) {
        SitemapStep::Found(urls) => assert_eq!(urls, pages),
        other => panic!("{other:?}"),
    }
    assert_eq!(failures.len(), 1);
}

#[test]
fn the_search_for_a_sitemap_ends_with_the_candidates() {
    let candidates = vec!["a".to_string(), "b".to_string()];
    let mut failures = Vec::new();
    sitemap_step("u", &candidates, &mut failures, None);
    sitemap_step("u", &candidates, &mut failures, Some(Err("x".to_string())));
    match sitemap_step("u", &candidates, &mut failures, Some(Err("y".to_string()))) {
        SitemapStep::Failed(err) => assert_eq!(
            err.message(),
            "failed to find a sitemap for u; tried a, b; last error: b: y"
        ),
        other => panic!("{other:?}"),
    }
}

#[test]
fn listed_sitemaps_are_added_or_passed_over() {
    let mut urls = vec!["1".to_string()];
    for child in [Child::NotSent, Child::Unreadable, Child::NoSitemap] {
        assert!(add_child(&mut urls, child).is_ok());
        assert_eq!(urls, vec!["1"]);
    }
    assert!(add_child(&mut urls, Child::Urls(vec!["2".to_string(), "1".to_string()])).is_ok());
    assert_eq!(urls, vec!["1", "2", "1"]);
    let err = add_child(&mut urls, Child::Refused("status 500".to_string())).unwrap_err();
    assert_eq!(err.message(), "status 500");
    assert_eq!(urls.len(), 3);
}
