use snarf::extract::{
    best_candidate, best_markdown, candidate_identity, detect_js_shell, extract,
    extract_selector, extract_selector_html, has_corroborator, has_low_text_app_shell_marker,
    has_spa_shell_marker, is_js_loading_page, join_parts, kind_by_text, post_process,
    requires_javascript, scan_visible, score_content_candidate, strip_around_blocks,
    strip_markdown, title, title_among, try_extract, try_extract_selector,
};
use snarf::html::{is_convertible, Element, Inner};

#[test]
fn strips_markdown_without_mangling_lists() {
    for (input, expected) in [
        ("**bold**", "bold"),
        ("__bold__", "bold"),
        ("*italic*", "italic"),
        ("_italic_", "italic"),
        ("`code`", "code"),
        ("[text](https://example.com)", "text"),
        ("![alt](img.png)", ""),
        ("# Heading", "Heading"),
        ("### Sub", "Sub"),
        ("* item one\n* item two", "* item one\n* item two"),
        ("* see *this* now", "* see this now"),
        ("```\nfoo()\n```", "```\nfoo()\n```"),
        (
            "**bold** and *italic* with [link](url)",
            "bold and italic with link",
        ),
        ("***both***", "both"),
    ] {
        assert_eq!(strip_markdown(input), expected, "input: {input:?}");
    }
}

#[test]
fn extract_allows_empty_valid_html() {
    let extracted = extract("https://example.com/empty", "<html><body></body></html>")
        .expect("empty valid HTML still extracts");

    assert_eq!(extracted.title, "");
    assert_eq!(extracted.markdown, "");
}

#[test]
fn extract_prefers_largest_article_candidate() {
    let html = r#"
            <html>
                <head><title>Example</title></head>
                <body>
                    <article><p>Short related item.</p></article>
                    <article>
                        <h1>Main Story</h1>
                        <p>This is the full article body with enough content to clearly beat a short related item teaser.</p>
                        <p>The second paragraph keeps the selected candidate focused on the main story.</p>
                    </article>
                </body>
            </html>
        "#;

    let extracted = extract("https://example.com/story", html).expect("article extracts");

    assert_eq!(extracted.title, "Example");
    assert!(extracted.markdown.contains("Main Story"));
    assert!(extracted.markdown.contains("full article body"));
    assert!(!extracted.markdown.contains("Short related item"));
}

#[test]
fn extract_prefers_content_div_over_navigation_noise() {
    let html = r#"
            <html>
                <head><title>Article Page</title></head>
                <body>
                    <div class="site-nav">
                        <a href="/">Home</a>
                        <a href="/pricing">Pricing</a>
                        <a href="/login">Log in</a>
                    </div>
                    <div class="article-content">
                        <h1>Rust extraction notes</h1>
                        <p>This paragraph is the real page body with enough text to be recognized as the useful content.</p>
                        <p>A second paragraph gives the extractor a stable content block to score.</p>
                    </div>
                    <div class="footer-links">
                        <a href="/privacy">Privacy</a>
                        <a href="/terms">Terms</a>
                    </div>
                </body>
            </html>
        "#;

    let extracted = extract("https://example.com/post", html).expect("page extracts");

    assert!(extracted.markdown.contains("Rust extraction notes"));
    assert!(extracted.markdown.contains("real page body"));
    assert!(!extracted.markdown.contains("Pricing"));
    assert!(!extracted.markdown.contains("Privacy"));
}

#[test]
fn extract_falls_back_to_body_for_simple_pages() {
    let html = r#"
            <html>
                <head><title>Simple Page</title></head>
                <body>
                    <h1>Simple Body</h1>
                    <p>A small page without article, main, section, or div wrappers still extracts.</p>
                </body>
            </html>
        "#;

    let extracted = extract("https://example.com/simple", html).expect("page extracts");

    assert_eq!(extracted.title, "Simple Page");
    assert!(extracted.markdown.contains("Simple Body"));
    assert!(extracted.markdown.contains("without article"));
}

#[test]
fn detects_obvious_js_shell() {
    assert_eq!(
        detect_js_shell(
            "<html><body><div id=\"__next\"></div><noscript>Enable JavaScript</noscript></body></html>"
        ),
        "likely_shell"
    );
}

#[test]
fn detects_js_shell_cases() {
    for (name, html, expected) in [
        (
            "minimal real content is static",
            r#"
                <!doctype html>
                <html>
                    <head><title>Article</title></head>
                    <body>
                        <main>
                            <article>
                                <h1>Shipping Notes</h1>
                                <p>This page has actual content for extraction and is meant to look like a conventional server-rendered article rather than a JavaScript bootstrap shell with placeholders.</p>
                                <p>The second paragraph adds enough visible text to exceed the threshold, which should cause the detector to classify the document as static even if the markup is otherwise minimal.</p>
                            </article>
                        </main>
                    </body>
                </html>
                "#,
            "static",
        ),
        (
            "salesforce shell is likely shell",
            r#"
                <!doctype html>
                <html>
                    <head>
                        <title>Lightning</title>
                        <script>window.__BOOTSTRAP__ = {"routes":["a","b","c"],"payload":"xxxxxxxxxxxxxxxxxxxxxxxxxxxxxxxxxxxxxxxxxxxxxxxxxxxxxxxxxxxxxxxxxxxxxxxxxxxxxxxx"};</script>
                        <script src="/assets/app.js"></script>
                    </head>
                    <body>
                        <div id="app">Loading</div>
                        <noscript>This app requires JavaScript and redirects when JavaScript is disabled.</noscript>
                    </body>
                </html>
                "#,
            "likely_shell",
        ),
        (
            "react spa shell is likely shell",
            r#"
                <!doctype html>
                <html>
                    <head>
                        <title>App</title>
                        <script id="__NEXT_DATA__" type="application/json">
                            {"buildId":"dev","page":"/","props":{"chunks":["aaaaaaaaaaaaaaaaaaaaaaaaaaaaaaaaaaaaaaaaaaaaaaaaaaaaaaaaaaaaaaaaaaaaaaaa"]}}
                        </script>
                    </head>
                    <body>
                        <div id="root"></div>
                    </body>
                </html>
                "#,
            "likely_shell",
        ),
        (
            "short real page is ambiguous",
            r#"
                <!doctype html>
                <html>
                    <head><title>Not Found</title></head>
                    <body>
                        <main>
                            <h1>Not Found</h1>
                            <p>The page you requested could not be located.</p>
                        </main>
                    </body>
                </html>
                "#,
            "ambiguous",
        ),
        (
            "js loading page with fallback description is likely shell",
            r#"
                <!doctype html>
                <html>
                    <head><title>Flowchart Maker</title></head>
                    <body>
                        <div id="geInfo">
                            <h1>Flowchart Maker and Online Diagram Software</h1>
                            <p>draw.io is free online diagram software. You can use it as a flowchart maker, network diagram software, to create UML online, as an ER diagram tool, to design database schema, and more.</p>
                            <h2>Loading... <img src="spin.gif"/></h2>
                            <p>Please ensure JavaScript is enabled.</p>
                        </div>
                        <script src="js/main.js"></script>
                    </body>
                </html>
                "#,
            "likely_shell",
        ),
        (
            "ssr next page with real content is static",
            r#"
                <!doctype html>
                <html>
                    <head>
                        <title>SSR Next</title>
                        <script id="__NEXT_DATA__" type="application/json">
                            {"page":"/docs","props":{"pageProps":{"title":"SSR"}}}
                        </script>
                    </head>
                    <body>
                        <div id="__next">
                            <main>
                                <article>
                                    <h1>Rendered Content</h1>
                                    <p>The initial HTML already includes the full article body, so the detector should treat the document as static even though the page carries the standard Next.js bootstrap data.</p>
                                    <p>This extra paragraph ensures there is comfortably more than two hundred characters of visible text in the extraction selectors and prevents a false positive.</p>
                                </article>
                            </main>
                        </div>
                    </body>
                </html>
                "#,
            "static",
        ),
    ] {
        assert_eq!(detect_js_shell(html), expected, "{name}");
    }
}

#[test]
fn marks_truncated_content() {
    assert_eq!(post_process("abcdef", false, 3), "abc\n\n[truncated]");
}

#[test]
fn short_content_is_not_marked() {
    assert_eq!(post_process("abc", false, 3), "abc");
    assert_eq!(post_process("abcdef", false, 0), "abcdef");
    assert_eq!(post_process("**abcdef**", true, 4), "abcd\n\n[truncated]");
    assert_eq!(post_process("\u{00E4}\u{00F6}\u{00FC}", false, 2), "\u{00E4}\u{00F6}\n\n[truncated]");
}

#[test]
fn fenced_blocks_stay_as_they_are() {
    assert_eq!(
        strip_markdown("**a**\n```\n**b**\n```\n*c*"),
        "a\n```\n**b**\n```\nc"
    );
    let parts = vec!["**a** ".to_string(), " `b`".to_string()];
    let blocks = vec!["```**x**```".to_string()];
    assert_eq!(strip_around_blocks(&parts, &blocks), "a ```**x**``` b");
}

#[test]
fn titles_are_read() {
    assert_eq!(title("<title> A\n  B </title>"), "A B");
    assert_eq!(title("<p>none</p>"), "");
}

#[test]
fn selected_parts_are_extracted() {
    let html = "<p>one</p><div>x</div><p>two</p>";
    assert_eq!(
        extract_selector_html(html, "p").unwrap(),
        "<p>one</p>\n\n<p>two</p>"
    );
    assert_eq!(extract_selector_html(html, "h1").unwrap(), "");
    assert_eq!(
        extract_selector_html(html, "p[").unwrap_err().message(),
        "invalid selector: p["
    );
    let markdown = try_extract_selector(html, "p").unwrap().unwrap();
    assert_eq!(markdown, "one\n\ntwo");
    assert_eq!(extract_selector(html, "p").unwrap(), "one\n\ntwo");
    assert_eq!(extract_selector(html, "h1").unwrap(), "");
    assert!(extract_selector(html, "::x(").is_err());
}

#[test]
fn list_items_outside_of_lists_are_not_converted() {
    assert!(is_convertible("<ul><li>a <b>b</b></li></ul>"));
    assert!(is_convertible("<a href='x'><ul><li>a</li></ul></a>"));
    assert!(is_convertible("<li>a</li>"));
    assert!(!is_convertible("<b><li>a</li></b>"));
    assert!(!is_convertible("<blockquote><p><li>a</li></p></blockquote>"));
    let cell = |inside: &str| format!("<table><tr><td>{inside}</td></tr></table>");
    assert!(!is_convertible(&format!("<ul><li>{}</li></ul>", cell("<b>c<li>a</li></b>"))));
    assert!(is_convertible(&cell("<b><ul><li>a</li></ul></b>")));
    let outside = format!("<b>{}</b>", cell("\n <li>a</li>"));
    assert!(is_convertible(&outside));
    assert!(try_extract(&outside).unwrap().markdown.contains('a'));
    assert!(!is_convertible("<div></div><svg><a><td><desc><li>x"));
    assert!(try_extract("<body><b>hello there, this is a long enough text for a page<li>a</li></b></body>").is_none());
}

fn element(name: &str, class: &str, text: &str) -> Element {
    Element {
        name: name.to_string(),
        id: Some("Top".to_string()),
        class: Some(class.to_string()),
        role: None,
        itemprop: None,
        href: None,
        text: vec![text.to_string()],
    }
}

#[test]
fn candidates_are_scored() {
    let text = "word ".repeat(20);
    let content = element("div", "Post", &text);
    assert_eq!(candidate_identity(&content), "top post");
    // 99 characters, two blocks and a class that speaks of content.
    assert_eq!(
        score_content_candidate(&content, &Vec::new(), 2),
        Some(99 + 80 + 300)
    );
    let plain = element("div", "x", &text);
    assert_eq!(score_content_candidate(&plain, &Vec::new(), 0), Some(99));
    let nav = element("div", "nav", &text);
    assert_eq!(score_content_candidate(&nav, &Vec::new(), 0), None);
    let short = element("div", "x", "short");
    assert_eq!(score_content_candidate(&short, &Vec::new(), 9), None);
    let links = vec![Inner {
        href: None,
        text: vec!["word ".repeat(10)],
    }];
    assert_eq!(score_content_candidate(&plain, &links, 0), None);
    assert_eq!(
        score_content_candidate(&content, &links, 0),
        Some(99 + 300 - 2 * 49)
    );
}

#[test]
fn the_best_candidate_wins() {
    let htmls: Vec<String> = ["<p>a</p>", "<p>b</p>", "<p>c</p>", "<p></p>"]
        .iter()
        .map(|html| html.to_string())
        .collect();
    let scores = vec![Some(1), Some(5), Some(5), Some(9)];
    assert_eq!(best_markdown(&scores, &htmls), Some(Some("b".to_string())));
    assert_eq!(
        best_markdown(&vec![None, None, None, None], &htmls),
        Some(None)
    );
}

#[test]
fn marks_of_programs_are_found() {
    assert!(requires_javascript("please enable javascript"));
    assert!(!requires_javascript("javascript"));
    assert!(has_spa_shell_marker("<div id=\"__next\">"));
    assert!(!has_spa_shell_marker("<div id=\"next\">"));
    assert!(has_low_text_app_shell_marker("<div id='app'>"));
    assert!(is_js_loading_page("Loading... JavaScript is required"));
    assert!(!is_js_loading_page("JavaScript is required"));
}

#[test]
fn the_first_of_the_best_markdowns_is_taken() {
    let some = |text: &str| Some(text.to_string());
    assert_eq!(
        best_candidate(
            &vec![Some(2), Some(7), None, Some(7), Some(9)],
            &vec![some("a"), some("b"), None, some("c"), some("")]
        ),
        Some(some("b"))
    );
    assert_eq!(best_candidate(&vec![Some(1)], &vec![None]), None);
    assert_eq!(best_candidate(&vec![None], &vec![None]), Some(None));
}

#[test]
fn the_first_title_is_taken() {
    let found = vec![element("title", "", " First \n title "), element("title", "", "Second")];
    assert_eq!(title_among(&found), "First title");
    assert_eq!(title_among(&vec![]), "");
}

#[test]
fn parts_are_a_blank_line_apart() {
    let parts = vec!["<p>a</p>".to_string(), "<p>b</p>".to_string()];
    assert_eq!(join_parts(&parts), "<p>a</p>\n\n<p>b</p>");
    assert_eq!(join_parts(&vec![]), "");
}

#[test]
fn elements_are_scanned_for_text() {
    let found = vec![
        element("p", "", "Twenty-one characters"),
        element("section", "", "Twenty-one characters"),
        element("li", "", "short"),
        element("p", "", "  "),
    ];
    assert_eq!(
        scan_visible(&found),
        ("Twenty-one characters Twenty-one characters short".to_string(), 1)
    );
}

#[test]
fn the_visible_text_tells_the_kind() {
    assert_eq!(kind_by_text(&"x".repeat(200), 0), Some("static"));
    assert_eq!(
        kind_by_text(&format!("Loading, javascript is required {}", "x".repeat(200)), 0),
        Some("likely_shell")
    );
    assert_eq!(kind_by_text("short", 3), Some("ambiguous"));
    assert_eq!(kind_by_text("short", 2), None);
}

#[test]
fn other_parts_speak_for_a_shell() {
    let none: Vec<Element> = vec![];
    let noscript = vec![element("noscript", "", "This needs JavaScript")];
    let body = vec![element("body", "", "Please enable JavaScript")];
    let script = |bytes: usize| vec![element("script", "", &"s".repeat(bytes))];
    assert!(!has_corroborator("<p>", "text", &none, &none, &none));
    assert!(has_corroborator("<p>", "text", &noscript, &none, &none));
    assert!(has_corroborator("<p>", "text", &none, &body, &none));
    assert!(has_corroborator("<APP-ROOT>", "text", &none, &none, &none));
    assert!(!has_corroborator("<p>", "text", &none, &none, &script(12)));
    assert!(has_corroborator("<p>", "text", &none, &none, &script(13)));
    assert!(has_corroborator("<p>", "", &none, &none, &script(4)));
}

#[test]
fn elements_may_be_nested_five_hundred_levels_deep() {
    let nested = |levels: usize| {
        format!("<body>{}text{}</body>", "<span>".repeat(levels), "</span>".repeat(levels))
    };
    let html = nested(510);
    assert!(is_convertible(&html));
    assert_eq!(try_extract(&html).unwrap().markdown, "text");
    assert!(!is_convertible(&nested(511)));
    assert!(!is_convertible(&nested(5_000)));
    assert!(try_extract(&nested(600)).is_none());
}

#[test]
fn tables_may_be_nested_eight_levels_deep() {
    let nested = |levels: usize| {
        format!(
            "{}text{}",
            "<table><tr><td>".repeat(levels),
            "</td></tr></table>".repeat(levels)
        )
    };
    assert!(!is_convertible(&nested(9)));
    assert!(is_convertible(&nested(8)));
    assert!(try_extract(&nested(8)).unwrap().markdown.contains("text"));
    assert!(try_extract(&nested(200)).is_none());
}

#[test]
fn pages_that_cannot_be_written_are_refused() {
    let html = "<b>text<li>a</li></b>";
    let message = "page cannot be written as markdown";
    assert_eq!(extract("https://e.com", html).unwrap_err().message(), message);
    assert_eq!(extract_selector(html, "b").unwrap_err().message(), message);
    assert_eq!(extract_selector(html, "li").unwrap(), "a");
}

#[test]
fn long_selectors_are_refused() {
    let html = "<p>x</p>".repeat(1_000);
    let siblings = |steps: usize| format!("*{}", "+*".repeat(steps));
    let found = extract_selector_html(&html, &siblings(649)).unwrap();
    assert_eq!(found.matches("<p>").count(), 1_000 - 649);
    let long = siblings(650);
    assert_eq!(
        extract_selector_html(&html, &long).unwrap_err().message(),
        format!("invalid selector: {long}")
    );
    assert!(extract_selector(&html, &long).is_err());
    let inner = format!("{}{}{}", ":is(".repeat(70), siblings(474), ")".repeat(70));
    let found = extract_selector_html(&html, &inner).unwrap();
    assert_eq!(found.matches("<p>").count(), 1_000 - 474);
}
