use snarf::error::AppError;
use snarf::pages::{
    cached_page, collect_pages, content_parts, finish_page, llms_page, page_for_request,
    scrape_plan, scrape_warning, selected_page, source_page, source_parts, with_content,
    ScrapeOutputOptions, ScrapePlan,
};
use snarf::types::{Page, SearchResult};

fn options(raw: bool, select: &str, no_llms_txt: bool) -> ScrapeOutputOptions {
    ScrapeOutputOptions {
        raw,
        trim: false,
        max_chars: 0,
        select: select.to_string(),
        no_llms_txt,
    }
}

const HTML: &str = "<title>T</title><body><p class='a'>one</p><p>two</p></body>";

#[test]
fn options_decide_how_a_page_is_had() {
    assert_eq!(scrape_plan(&options(true, "", false)), ScrapePlan::Source);
    assert_eq!(
        scrape_plan(&options(true, "p", false)),
        ScrapePlan::SourceParts
    );
    assert_eq!(scrape_plan(&options(false, "p", true)), ScrapePlan::Parts);
    assert_eq!(
        scrape_plan(&options(false, "", false)),
        ScrapePlan::TextForPrograms
    );
    assert_eq!(scrape_plan(&options(false, "", true)), ScrapePlan::Content);
}

#[test]
fn raw_select_outputs_selected_html() {
    let page = source_parts("http://a", "http://a", HTML, "p.a").unwrap();
    assert_eq!(page.markdown, "<p class=\"a\">one</p>");
    assert_eq!(page.title, "T");
    assert_eq!(page.fetched_url, "");
    let page = source_page("http://a", "http://b", HTML);
    assert_eq!(page.markdown, HTML);
    assert_eq!(page.url, "http://a");
    assert_eq!(page.fetched_url, "http://b");
}

#[test]
fn select_without_matches_exits_not_found() {
    for error in [
        source_parts("u", "u", HTML, "h1").unwrap_err(),
        content_parts("u", "u", HTML, "h1").unwrap_err(),
        selected_page("u", "u", HTML, "h1", String::new()).unwrap_err(),
    ] {
        assert!(matches!(&error, AppError::NotFound(_)));
        assert_eq!(error.message(), "no elements matched selector \"h1\"");
    }
    let page = content_parts("u", "u", HTML, "p").unwrap();
    assert_eq!(page.markdown, "one\n\ntwo");
}

#[test]
fn invalid_selectors_exit_validation() {
    for error in [
        source_parts("u", "u", HTML, "[").unwrap_err(),
        content_parts("u", "u", HTML, "[").unwrap_err(),
    ] {
        assert!(matches!(&error, AppError::Validation(_)));
        assert_eq!(error.message(), "invalid selector: [");
    }
}

#[test]
fn texts_for_programs_become_pages() {
    let page = llms_page("http://a", "# Test llms\n".to_string());
    assert_eq!(page.title, "llms.txt");
    assert_eq!(page.markdown, "# Test llms\n");
    assert_eq!(page.url, "http://a");
    assert_eq!(page.fetched_url, "");
    let page = finish_page(page, true, 4);
    assert_eq!(page.markdown, "Test\n\n[truncated]");
}

#[test]
fn cached_rewrite_aliases_are_relabelled_for_current_request() {
    let stored = Page {
        url: "http://old-alias".to_string(),
        fetched_url: "http://x".to_string(),
        title: "T".to_string(),
        ..Page::default()
    };
    let found = |source: &str| Some((stored.clone(), source.to_string()));
    let page = cached_page(found("http"), false, "http://alias", "http://key").unwrap();
    assert_eq!(page.url, "http://alias");
    assert_eq!(page.fetched_url, "http://key");
    assert_eq!(page.title, "T");
    let page = cached_page(found("http"), false, "http://key", "http://key").unwrap();
    assert_eq!(page.fetched_url, "");
    assert!(cached_page(found("http_shell"), false, "u", "u").is_none());
    assert!(cached_page(found(""), true, "u", "u").is_none());
    assert!(cached_page(None, true, "u", "u").is_none());
    assert_eq!(page_for_request(page, "a", "b").fetched_url, "b");
}

#[test]
fn pages_come_in_their_order_with_warnings() {
    let page = |title: &str| {
        Ok(Page {
            title: title.to_string(),
            ..Page::default()
        })
    };
    let (pages, warnings) = collect_pages(vec![
        page("a"),
        Err(AppError::upstream("boom".to_string())),
        page("b"),
        Err(AppError::RegexUnsupported),
    ]);
    assert_eq!(pages.len(), 2);
    assert_eq!(pages[0].title, "a");
    assert_eq!(pages[1].title, "b");
    assert_eq!(warnings, vec!["warn: boom", "warn: regex unsupported"]);
    assert_eq!(
        scrape_warning("u", &AppError::upstream("boom".to_string())),
        "warn: failed to scrape u: boom"
    );
}

#[test]
fn results_get_the_content_of_their_pages() {
    let result = SearchResult {
        title: "T".to_string(),
        url: "u".to_string(),
        ..SearchResult::default()
    };
    let page = Page {
        fetched_url: "f".to_string(),
        markdown: "**bold** text".to_string(),
        ..Page::default()
    };
    let result = with_content(result, &page, true, 4);
    assert_eq!(result.title, "T");
    assert_eq!(result.fetched_url, "f");
    assert_eq!(result.content, "bold\n\n[truncated]");
}
