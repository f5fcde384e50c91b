//! Fetching pages: what is asked for, what the answers mean, and the pages that
//! come of them.

use vstd::prelude::*;

use crate::cache::{in_dir, path_in};
use crate::error::{AppError, AppResult, ErrorView};
use crate::extract::{
    extract, extraction, title_of, unwritable_page, Extracted, ExtractedView,
};
use crate::system::{digest, from_utf8_lossy, lossy_of, short_digest};
use crate::text::{
    char_count, contains, decimal, find_char, index_of, occurs, same, show_size, texts, trim,
    trimmed,
};
use crate::types::{Page, PageView};
use crate::urlrewrite::{applied, Rewriter};
use crate::web::{
    drop_fragment, drop_query, maybe, pairs_of, parse_url, set_path, url_of, url_with_path,
    url_without_fragment, url_without_query, MAX_URL_CHARS,
};

verus! {

/// The largest body that is read.
pub const MAX_BODY_BYTES: usize = 20_971_520;

/// The source of a page that was fetched as it is.
pub const SOURCE_HTTP: &'static str = "http";

/// The source of a page that looks like a shell and was not rendered.
pub const SOURCE_HTTP_SHELL: &'static str = "http_shell";

/// The source of a page that a browser rendered.
pub const SOURCE_BROWSER: &'static str = "browser";

/// A page with what was learnt when it was fetched.
#[derive(Debug)]
pub struct FetchResult {
    pub page: Page,
    pub raw_html: String,
    pub not_modified: bool,
    pub js_detection: String,
    pub source: String,
}

/// What a [`FetchResult`] holds.
#[verifier::ext_equal]
pub struct FetchView {
    pub page: PageView,
    pub raw_html: Seq<char>,
    pub not_modified: bool,
    pub js_detection: Seq<char>,
    pub source: Seq<char>,
}

impl View for FetchResult {
    type V = FetchView;

    open spec fn view(&self) -> FetchView {
        FetchView {
            page: self.page@,
            raw_html: self.raw_html@,
            not_modified: self.not_modified,
            js_detection: self.js_detection@,
            source: self.source@,
        }
    }
}

impl FetchView {
    /// Nothing fetched.
    pub open spec fn empty() -> FetchView {
        FetchView {
            page: PageView::empty(),
            raw_html: seq![],
            not_modified: false,
            js_detection: seq![],
            source: seq![],
        }
    }
}

impl Default for FetchResult {
    fn default() -> (r: Self)
        ensures
            r@ == FetchView::empty(),
    {
        FetchResult {
            page: Page::default(),
            raw_html: String::new(),
            not_modified: false,
            js_detection: String::new(),
            source: String::new(),
        }
    }
}

/// How pages are fetched: with which browser, if any, and under which URLs.
#[derive(Debug)]
pub struct Scraper {
    browser: String,
    rewriter: Option<Rewriter>,
}

impl Clone for Scraper {
    fn clone(&self) -> (r: Self)
        ensures
            r.browser_name() == self.browser_name(),
            forall|url: Seq<char>| r.target(url) == self.target(url),
    {
        Scraper {
            browser: self.browser.clone(),
            rewriter: match &self.rewriter {
                Some(rewriter) => Some(rewriter.clone()),
                None => None,
            },
        }
    }
}

impl Scraper {
    /// The configured browser; none where this is empty.
    pub closed spec fn browser_name(self) -> Seq<char> {
        self.browser@
    }

    /// The URL at which the page at `url` is fetched.
    pub closed spec fn target(self, url: Seq<char>) -> Seq<char> {
        applied(self.rewriter, url)
    }

    pub fn new(browser: String, rewriter: Option<Rewriter>) -> (r: Self)
        ensures
            r.browser_name() == browser@,
            forall|url: Seq<char>| r.target(url) == applied(rewriter, url),
    {
        Scraper { browser: browser, rewriter: rewriter }
    }

    /// Whether a browser is configured.
    pub fn has_browser(&self) -> (r: bool)
        ensures
            r == (self.browser_name().len() > 0),
    {
        char_count(self.browser.as_str()) > 0
    }

    /// Whether the browser can be asked for a page.
    pub fn check_browser(&self) -> (r: AppResult<()>)
        ensures
            match r {
                Ok(_) => self.browser_name().len() > 0,
                Err(e) => self.browser_name().len() == 0 && e@ == ErrorView::Upstream(
                    "browser is not configured"@,
                ),
            },
    {
        if !self.has_browser() {
            return Err(AppError::upstream("browser is not configured".to_owned()));
        }
        Ok(())
    }

    /// The configured browser.
    pub fn browser(&self) -> (r: &str)
        ensures
            r@ == self.browser_name(),
    {
        self.browser.as_str()
    }

    /// The URL at which the page at `raw_url` is fetched.
    pub fn rewrite(&self, raw_url: &str) -> (r: String)
        ensures
            r@ == self.target(raw_url@),
    {
        crate::urlrewrite::apply(&self.rewriter, raw_url)
    }
}

/// Whether a page from the cache should be fetched again: one that looked like a
/// shell, or one of unknown source now that there is a browser.
pub open spec fn stale(source: Seq<char>, has_browser: bool) -> bool {
    source == SOURCE_HTTP_SHELL@ || (source.len() == 0 && has_browser)
}

/// Whether a page from the cache should be fetched again.
pub fn cache_stale_for_browser(source: &str, has_browser: bool) -> (r: bool)
    ensures
        r == stale(source@, has_browser),
{
    same(source, SOURCE_HTTP_SHELL) || (char_count(source) == 0 && has_browser)
}

/// What tells two contents apart.
pub fn content_hash(content: &str) -> (r: String)
    ensures
        r@ == short_digest(content@),
        r@.len() == 16,
{
    digest(content)
}

/// Whether a status code is one of success.
pub open spec fn success(status: int) -> bool {
    200 <= status < 300
}

/// The error for a page that was answered with another status.
pub open spec fn status_error(status: int, url: Seq<char>) -> ErrorView {
    ErrorView::Upstream("HTTP "@ + decimal(status) + " for "@ + url)
}

fn http_error(status: u16, url: &str) -> (r: AppError)
    ensures
        r@ == status_error(status as int, url@),
{
    let mut message = "HTTP ".to_owned();
    message.append(show_size(status as usize).as_str());
    message.append(" for ");
    message.append(url);
    AppError::upstream(message)
}

/// Whether the answer to a request for the page at `url` holds the page.
pub fn check_status(status: u16, url: &str) -> (r: AppResult<()>)
    ensures
        match r {
            Ok(_) => success(status as int),
            Err(e) => !success(status as int) && e@ == status_error(status as int, url@),
        },
{
    if 200 <= status && status < 300 {
        Ok(())
    } else {
        Err(http_error(status, url))
    }
}

/// What the answer to a conditional request means.
#[derive(Debug, Clone, Copy, PartialEq, Eq, Structural)]
pub enum Answer {
    /// The page is still what it was.
    NotModified,
    /// The page comes with the answer.
    Page,
}

/// What the answer to a conditional request means; nothing where it is an error.
pub open spec fn answer_of(status: int) -> Option<Answer> {
    if status == 304 {
        Some(Answer::NotModified)
    } else if success(status) {
        Some(Answer::Page)
    } else {
        None
    }
}

/// What the answer to a conditional request for the page at `url` means.
pub fn conditional_answer(status: u16, url: &str) -> (r: AppResult<Answer>)
    ensures
        match answer_of(status as int) {
            Some(answer) => r matches Ok(given) && given == answer,
            None => r matches Err(e) && e@ == status_error(status as int, url@),
        },
        match r {
            Ok(answer) => (status == 304 && answer == Answer::NotModified) || (success(
                status as int,
            ) && answer == Answer::Page),
            Err(e) => status != 304 && !success(status as int) && e@ == status_error(
                status as int,
                url@,
            ),
        },
{
    if status == 304 {
        return Ok(Answer::NotModified);
    }
    match check_status(status, url) {
        Ok(_) => Ok(Answer::Page),
        Err(e) => Err(e),
    }
}

/// The headers of every request for a page.
pub open spec fn page_headers() -> Seq<(Seq<char>, Seq<char>)> {
    seq![
        ("User-Agent"@, "Mozilla/5.0 (compatible; snarf/1.0)"@),
        ("Accept"@, "text/html,application/xhtml+xml"@),
    ]
}

/// The headers of a request for a page that is known with the marks `etag` and
/// `last_modified`, as far as they are known.
pub open spec fn request_headers(etag: Seq<char>, last_modified: Seq<char>) -> Seq<
    (Seq<char>, Seq<char>),
> {
    page_headers() + (if etag.len() > 0 {
        seq![("If-None-Match"@, etag)]
    } else {
        seq![]
    }) + (if last_modified.len() > 0 {
        seq![("If-Modified-Since"@, last_modified)]
    } else {
        seq![]
    })
}

fn push_header(headers: &mut Vec<(String, String)>, name: &str, value: &str)
    ensures
        pairs_of(final(headers)@) == pairs_of(old(headers)@) + seq![(name@, value@)],
{
    let ghost before = pairs_of(headers@);
    headers.push((name.to_owned(), value.to_owned()));
    assert(pairs_of(headers@) =~= before + seq![(name@, value@)]);
}

/// The headers of a conditional request.
pub fn conditional_headers(etag: &str, last_modified: &str) -> (r: Vec<(String, String)>)
    ensures
        pairs_of(r@) == request_headers(etag@, last_modified@),
{
    let mut headers: Vec<(String, String)> = Vec::new();
    push_header(&mut headers, "User-Agent", "Mozilla/5.0 (compatible; snarf/1.0)");
    push_header(&mut headers, "Accept", "text/html,application/xhtml+xml");
    assert(pairs_of(headers@) =~= page_headers());
    let ghost h0 = pairs_of(headers@);
    if char_count(etag) > 0 {
        push_header(&mut headers, "If-None-Match", etag);
    }
    let ghost h1 = pairs_of(headers@);
    assert(h1 =~= h0 + (if etag@.len() > 0 {
        seq![("If-None-Match"@, etag@)]
    } else {
        seq![]
    }));
    if char_count(last_modified) > 0 {
        push_header(&mut headers, "If-Modified-Since", last_modified);
    }
    assert(pairs_of(headers@) =~= h1 + (if last_modified@.len() > 0 {
        seq![("If-Modified-Since"@, last_modified@)]
    } else {
        seq![]
    }));
    headers
}

/// What to do with a page before its content is extracted.
#[derive(Debug, Clone, Copy, PartialEq, Eq, Structural)]
pub enum Rendering {
    /// Take it as it is.
    Keep,
    /// Have the browser render it.
    Browser,
    /// Take it as it is, with a warning that a browser is missing.
    Warn,
}

/// What to do with a page of a kind.
pub open spec fn rendering_of(detection: Seq<char>, has_browser: bool) -> Rendering {
    if detection != "likely_shell"@ {
        Rendering::Keep
    } else if has_browser {
        Rendering::Browser
    } else {
        Rendering::Warn
    }
}

/// What to do with a page that was found to be of the kind `detection`.
pub fn rendering(detection: &str, has_browser: bool) -> (r: Rendering)
    ensures
        r == rendering_of(detection@, has_browser),
        r == (if detection@ != "likely_shell"@ {
            Rendering::Keep
        } else if has_browser {
            Rendering::Browser
        } else {
            Rendering::Warn
        }),
{
    if !same(detection, "likely_shell") {
        Rendering::Keep
    } else if has_browser {
        Rendering::Browser
    } else {
        Rendering::Warn
    }
}

/// A page as it goes on to extraction, and what the user is told.
#[derive(Debug)]
pub struct Rendered {
    pub html: String,
    pub source: String,
    pub warning: Option<String>,
}

/// What a [`Rendered`] holds.
#[verifier::ext_equal]
pub struct RenderedView {
    pub html: Seq<char>,
    pub source: Seq<char>,
    pub warning: Option<Seq<char>>,
}

impl View for Rendered {
    type V = RenderedView;

    open spec fn view(&self) -> RenderedView {
        RenderedView { html: self.html@, source: self.source@, warning: maybe(self.warning) }
    }
}

/// The page at `url` after the step `step`, where the browser, if it was asked,
/// gave `outcome`: the page itself, the rendered page, or the page itself as a
/// shell with a warning.
pub open spec fn after_rendering(
    step: Rendering,
    url: Seq<char>,
    html: Seq<char>,
    outcome: Result<Seq<char>, Seq<char>>,
) -> RenderedView {
    match step {
        Rendering::Keep => RenderedView { html: html, source: SOURCE_HTTP@, warning: None },
        Rendering::Browser => match outcome {
            Ok(rendered) => RenderedView {
                html: rendered,
                source: SOURCE_BROWSER@,
                warning: None,
            },
            Err(message) => RenderedView {
                html: html,
                source: SOURCE_HTTP_SHELL@,
                warning: Some("warn: browser fallback failed for "@ + url + ": "@ + message),
            },
        },
        Rendering::Warn => RenderedView {
            html: html,
            source: SOURCE_HTTP_SHELL@,
            warning: Some(
                "warn: "@ + url + " appears JS-rendered; configure browser for full content"@,
            ),
        },
    }
}

/// The texts of a result of strings.
pub open spec fn outcome_of(outcome: Result<String, String>) -> Result<Seq<char>, Seq<char>> {
    match outcome {
        Ok(text) => Ok(text@),
        Err(message) => Err(message@),
    }
}

/// The page at `url` after the step `step`; `outcome` is what the browser gave,
/// which counts only where it was asked.
pub fn render(step: Rendering, url: &str, html: String, outcome: Result<String, String>) -> (r:
    Rendered)
    ensures
        r@ == after_rendering(step, url@, html@, outcome_of(outcome)),
{
    match step {
        Rendering::Keep => Rendered {
            html: html,
            source: SOURCE_HTTP.to_owned(),
            warning: None,
        },
        Rendering::Browser => match outcome {
            Ok(rendered) => Rendered {
                html: rendered,
                source: SOURCE_BROWSER.to_owned(),
                warning: None,
            },
            Err(message) => {
                let mut warning = "warn: browser fallback failed for ".to_owned();
                warning.append(url);
                warning.append(": ");
                warning.append(message.as_str());
                Rendered {
                    html: html,
                    source: SOURCE_HTTP_SHELL.to_owned(),
                    warning: Some(warning),
                }
            },
        },
        Rendering::Warn => {
            let mut warning = "warn: ".to_owned();
            warning.append(url);
            warning.append(" appears JS-rendered; configure browser for full content");
            Rendered { html: html, source: SOURCE_HTTP_SHELL.to_owned(), warning: Some(warning) }
        },
    }
}

/// A page with a title and a content, as the answer to a request for `url` that
/// was fetched at `fetched`.
pub open spec fn page_of(url: Seq<char>, fetched: Seq<char>, content: ExtractedView) -> PageView {
    (PageView { title: content.title, markdown: content.markdown, ..PageView::empty() }).requested(
        url,
        fetched,
    )
}

/// The page that `scrape` gives for `raw_url`.
pub fn scraped_page(raw_url: &str, fetch_url: String, extracted: Extracted) -> (r: Page)
    ensures
        r@ == page_of(raw_url@, fetch_url@, extracted@),
{
    let mut page = Page::default();
    page.url = raw_url.to_owned();
    page.title = extracted.title;
    page.markdown = extracted.markdown;
    if !same(fetch_url.as_str(), raw_url) {
        page.fetched_url = fetch_url;
    }
    page
}

/// What is extracted of a page, or why nothing is.
pub open spec fn content_of(html: Seq<char>) -> Result<ExtractedView, ErrorView> {
    match extraction(html) {
        Some(markdown) => Ok(ExtractedView { title: title_of(html), markdown: markdown }),
        None => Err(unwritable_page()),
    }
}

/// The page that `scrape` gives for `raw_url`, where `rendered` is what was fetched at
/// `fetch_url` and rendered.
pub fn finish_scrape(raw_url: &str, fetch_url: String, rendered: &Rendered) -> (r: AppResult<Page>)
    ensures
        match content_of(rendered@.html) {
            Ok(content) => r matches Ok(page) && page@ == page_of(raw_url@, fetch_url@, content),
            Err(error) => r matches Err(e) && e@ == error,
        },
{
    match extract(raw_url, rendered.html.as_str()) {
        Ok(extracted) => Ok(scraped_page(raw_url, fetch_url, extracted)),
        Err(e) => Err(e),
    }
}

/// The result of a conditional request that was answered with a page.
pub open spec fn conditional_result(
    url: Seq<char>,
    fetched: Seq<char>,
    etag: Seq<char>,
    last_modified: Seq<char>,
    detection: Seq<char>,
    rendered: RenderedView,
    content: ExtractedView,
) -> FetchView {
    FetchView {
        page: PageView {
            etag: etag,
            last_modified: last_modified,
            content_hash: short_digest(content.markdown),
            ..page_of(url, fetched, content)
        },
        raw_html: rendered.html,
        not_modified: false,
        js_detection: detection,
        source: rendered.source,
    }
}

/// The result of a conditional request for `raw_url`: with the marks that came
/// with the answer, the kind that the page was found to be of, what was rendered
/// and what was extracted of it.
pub fn conditional_page(
    raw_url: &str,
    fetch_url: String,
    etag: String,
    last_modified: String,
    detection: &str,
    rendered: Rendered,
    extracted: Extracted,
) -> (r: FetchResult)
    ensures
        r@ == conditional_result(
            raw_url@,
            fetch_url@,
            etag@,
            last_modified@,
            detection@,
            rendered@,
            extracted@,
        ),
{
    let hash = content_hash(extracted.markdown.as_str());
    let mut page = scraped_page(raw_url, fetch_url, extracted);
    page.etag = etag;
    page.last_modified = last_modified;
    page.content_hash = hash;
    FetchResult {
        page: page,
        raw_html: rendered.html,
        not_modified: false,
        js_detection: detection.to_owned(),
        source: rendered.source,
    }
}

/// The result of a conditional request for `raw_url`: with the marks that came with the
/// answer, the kind that the page was found to be of and what was rendered.
pub fn finish_conditional(
    raw_url: &str,
    fetch_url: String,
    etag: String,
    last_modified: String,
    detection: &str,
    rendered: Rendered,
) -> (r: AppResult<FetchResult>)
    ensures
        match content_of(rendered@.html) {
            Ok(content) => r matches Ok(fetch) && fetch@ == conditional_result(
                raw_url@,
                fetch_url@,
                etag@,
                last_modified@,
                detection@,
                rendered@,
                content,
            ),
            Err(error) => r matches Err(e) && e@ == error,
        },
{
    match extract(raw_url, rendered.html.as_str()) {
        Ok(extracted) => Ok(
            conditional_page(
                raw_url,
                fetch_url,
                etag,
                last_modified,
                detection,
                rendered,
                extracted,
            ),
        ),
        Err(e) => Err(e),
    }
}

/// The result of a conditional request for a page that is still what it was.
pub fn not_modified() -> (r: FetchResult)
    ensures
        r@ == (FetchView { not_modified: true, ..FetchView::empty() }),
{
    let mut result = FetchResult::default();
    result.not_modified = true;
    result
}

/// The result for a page that the browser fetched.
pub open spec fn browser_result(
    url: Seq<char>,
    fetched: Seq<char>,
    html: Seq<char>,
    content: ExtractedView,
) -> FetchView {
    FetchView {
        page: PageView {
            content_hash: short_digest(content.markdown),
            ..page_of(url, fetched, content)
        },
        raw_html: html,
        not_modified: false,
        js_detection: seq![],
        source: SOURCE_BROWSER@,
    }
}

/// The result for a page that the browser fetched.
pub fn browser_page(raw_url: &str, fetch_url: String, html: String, extracted: Extracted) -> (r:
    FetchResult)
    ensures
        r@ == browser_result(raw_url@, fetch_url@, html@, extracted@),
{
    let hash = content_hash(extracted.markdown.as_str());
    let mut page = scraped_page(raw_url, fetch_url, extracted);
    page.content_hash = hash;
    FetchResult {
        page: page,
        raw_html: html,
        not_modified: false,
        js_detection: String::new(),
        source: SOURCE_BROWSER.to_owned(),
    }
}

/// The result for a page that the browser fetched as `html`.
pub fn finish_browser(raw_url: &str, fetch_url: String, html: String) -> (r: AppResult<FetchResult>)
    ensures
        match content_of(html@) {
            Ok(content) => r matches Ok(fetch) && fetch@ == browser_result(
                raw_url@,
                fetch_url@,
                html@,
                content,
            ),
            Err(error) => r matches Err(e) && e@ == error,
        },
{
    match extract(raw_url, html.as_str()) {
        Ok(extracted) => Ok(browser_page(raw_url, fetch_url, html, extracted)),
        Err(e) => Err(e),
    }
}

/// A rewritten page keeps the URL it was asked for under, and notes where it was
/// fetched exactly if that is another one.
pub proof fn law_pages_keep_their_url(url: Seq<char>, fetched: Seq<char>, content: ExtractedView)
    ensures
        page_of(url, fetched, content).url == url,
        fetched == url ==> page_of(url, fetched, content).fetched_url.len() == 0,
        fetched != url ==> page_of(url, fetched, content).fetched_url == fetched,
{
}

/// The body of an answer, read piece by piece up to a limit.
#[derive(Debug)]
pub struct Body {
    bytes: Vec<u8>,
    limit: usize,
}

impl View for Body {
    type V = Seq<u8>;

    closed spec fn view(&self) -> Seq<u8> {
        self.bytes@
    }
}

impl Body {
    /// The number of bytes that may be read.
    pub closed spec fn limit(self) -> int {
        self.limit as int
    }

    /// Whether no more was read than may be.
    pub open spec fn valid(self) -> bool {
        self@.len() <= self.limit()
    }

    /// An empty body that may grow to `limit` bytes.
    pub fn new(limit: usize) -> (r: Self)
        ensures
            r.valid(),
            r@ == Seq::<u8>::empty(),
            r.limit() == limit,
    {
        Body { bytes: Vec::new(), limit: limit }
    }

    /// Adds a piece, or fails where the body would grow over its limit.
    pub fn push(&mut self, chunk: &[u8]) -> (r: AppResult<()>)
        requires
            old(self).valid(),
        ensures
            final(self).valid(),
            final(self).limit() == old(self).limit(),
            match r {
                Ok(_) => final(self)@ == old(self)@ + chunk@,
                Err(e) => old(self)@.len() + chunk@.len() > old(self).limit() && final(self)@
                    == old(self)@ && e@ == ErrorView::Upstream(
                    "response body exceeded "@ + decimal(old(self).limit()) + " bytes"@,
                ),
            },
    {
        if chunk.len() > self.limit - self.bytes.len() {
            let mut message = "response body exceeded ".to_owned();
            message.append(show_size(self.limit).as_str());
            message.append(" bytes");
            return Err(AppError::upstream(message));
        }
        let ghost before = self.bytes@;
        let ghost limit = self.limit;
        let mut i: usize = 0;
        while i < chunk.len()
            invariant
                i <= chunk@.len(),
                self.bytes@ == before + chunk@.take(i as int),
                self.limit == limit,
            decreases chunk@.len() - i,
        {
            self.bytes.push(chunk[i]);
            i += 1;
            assert(chunk@.take(i as int) =~= chunk@.take(i - 1).push(chunk@[i - 1]));
            assert(self.bytes@ =~= before + chunk@.take(i as int));
        }
        assert(chunk@.take(i as int) =~= chunk@);
        Ok(())
    }

    /// The body as text.
    pub fn text(&self) -> (r: String)
        ensures
            r@ == lossy_of(self@),
    {
        from_utf8_lossy(&self.bytes)
    }
}

/// A body of more bytes than the limit is refused, however it comes in pieces, and
/// one within the limit is not.
pub proof fn law_body_limit_does_not_depend_on_the_pieces(
    limit: int,
    read: Seq<u8>,
    first: Seq<u8>,
    second: Seq<u8>,
)
    ensures
        (read + (first + second)).len() <= limit <==> (read + first).len() <= limit && ((read
            + first) + second).len() <= limit,
        read + (first + second) == (read + first) + second,
{
    assert(read + (first + second) =~= (read + first) + second);
}

/// Whether a path is that of the front page of a site.
pub open spec fn front_path(path: Seq<char>) -> bool {
    path == "/"@ || path.len() == 0
}

/// Whether `path` is that of the front page of a site.
pub fn is_front_page(path: &str) -> (r: bool)
    ensures
        r == front_path(path@),
{
    same(path, "/") || char_count(path) == 0
}

/// Where the guide for language models of the site at `raw` is, if `raw` is the
/// front page of a site: at its own path, without query and fragment.
pub open spec fn guide_url(raw: Seq<char>) -> Option<Seq<char>> {
    match url_of(raw) {
        Ok(url) => if front_path(url.path) {
            match url_with_path(raw, "/llms.txt"@) {
                Some(found) => match url_without_query(found) {
                    Some(plain) => url_without_fragment(plain),
                    None => None,
                },
                None => None,
            }
        } else {
            None
        },
        Err(_) => None,
    }
}

/// Where the `llms.txt` of a site is, if `base_url` is its front page.
pub fn llms_txt_url(base_url: &str) -> (r: Option<String>)
    requires
        base_url@.len() + 9 <= MAX_URL_CHARS,
    ensures
        maybe(r) == guide_url(base_url@),
        r matches Some(url) ==> !url@.contains('#'),
{
    proof {
        reveal_strlit("/llms.txt");
    }
    match parse_url(base_url) {
        Ok(url) => if is_front_page(url.path.as_str()) {
            match set_path(base_url, "/llms.txt") {
                Some(found) => match drop_query(found.as_str()) {
                    Some(plain) => drop_fragment(plain.as_str()),
                    None => None,
                },
                None => None,
            }
        } else {
            None
        },
        Err(_) => None,
    }
}

/// Whether an answer of this type holds an `llms.txt`.
pub open spec fn holds_guide(status: int, content_type: Seq<char>) -> bool {
    success(status) && occurs(content_type, "text/plain"@)
}

/// Whether an answer holds an `llms.txt`: one of success, in plain text.
pub fn is_llms_txt(status: u16, content_type: &str) -> (r: bool)
    ensures
        r == holds_guide(status as int, content_type@),
        r == (success(status as int) && occurs(content_type@, "text/plain"@)),
{
    200 <= status && status < 300 && contains(content_type, "text/plain")
}

/// Where to look for the browser that is configured as `config`, in this order.
pub open spec fn browser_names(config: Seq<char>, separator: char) -> Seq<Seq<char>> {
    if index_of(config, separator, 0) < config.len() {
        seq![config]
    } else if config == "chrome"@ {
        seq![
            "google-chrome"@,
            "google-chrome-stable"@,
            "chromium"@,
            "chromium-browser"@,
            "/Applications/Google Chrome.app/Contents/MacOS/Google Chrome"@,
        ]
    } else if config == "chromium"@ {
        seq!["chromium"@, "chromium-browser"@]
    } else {
        seq![config]
    }
}

/// Whether `text` is a path: it has a `separator` in it.
pub fn is_path(text: &str, separator: char) -> (r: bool)
    ensures
        r == (index_of(text@, separator, 0) < text@.len()),
{
    let chars = crate::text::chars_of(text);
    find_char(&chars, separator, 0) < chars.len()
}

/// Where to look for the browser that is configured as `config_value`: paths as
/// they are, other names among the programs of the system.
pub fn browser_candidates(config_value: &str, separator: char) -> (r: Vec<String>)
    ensures
        texts(r@) == browser_names(config_value@, separator),
{
    let mut names: Vec<String> = Vec::new();
    if is_path(config_value, separator) {
        names.push(config_value.to_owned());
    } else if same(config_value, "chrome") {
        names.push("google-chrome".to_owned());
        names.push("google-chrome-stable".to_owned());
        names.push("chromium".to_owned());
        names.push("chromium-browser".to_owned());
        names.push("/Applications/Google Chrome.app/Contents/MacOS/Google Chrome".to_owned());
    } else if same(config_value, "chromium") {
        names.push("chromium".to_owned());
        names.push("chromium-browser".to_owned());
    } else {
        names.push(config_value.to_owned());
    }
    assert(texts(names@) =~= browser_names(config_value@, separator));
    names
}

/// The first of the places from `i` on where something was found.
pub open spec fn first_found(found: Seq<Option<Seq<char>>>, i: int) -> Option<Seq<char>>
    decreases found.len() - i,
{
    if i < 0 || i >= found.len() {
        None
    } else if found[i] is Some {
        found[i]
    } else {
        first_found(found, i + 1)
    }
}

/// What was found at each place.
pub open spec fn finds(found: Seq<Option<String>>) -> Seq<Option<Seq<char>>> {
    Seq::new(found.len(), |i: int| maybe(found[i]))
}

/// The browser that is configured as `config_value`, where looking at its
/// candidates gave `found`: the first that was found.
pub fn resolve_browser_bin(config_value: &str, separator: char, found: &Vec<Option<String>>) -> (r:
    AppResult<String>)
    ensures
        match r {
            Ok(path) => first_found(finds(found@), 0) == Some(path@),
            Err(e) => first_found(finds(found@), 0) is None && e@ == ErrorView::Upstream(
                if index_of(config_value@, separator, 0) < config_value@.len() {
                    "browser path does not exist: "@ + config_value@
                } else {
                    "browser executable not found for "@ + config_value@
                },
            ),
        },
{
    let ghost all = finds(found@);
    let mut i: usize = 0;
    while i < found.len()
        invariant
            all == finds(found@),
            i <= found@.len(),
            first_found(all, 0) == first_found(all, i as int),
        decreases found@.len() - i,
    {
        if let Some(path) = &found[i] {
            return Ok(path.clone());
        }
        i += 1;
    }
    let mut message = if is_path(config_value, separator) {
        "browser path does not exist: ".to_owned()
    } else {
        "browser executable not found for ".to_owned()
    };
    message.append(config_value);
    Err(AppError::upstream(message))
}

/// The arguments with which a browser writes out a page.
pub open spec fn arguments_for(url: Seq<char>) -> Seq<Seq<char>> {
    seq!["--headless=new"@, "--disable-gpu"@, "--dump-dom"@, url]
}

/// The arguments with which a browser writes out the page at `url`.
pub fn browser_arguments(url: &str) -> (r: Vec<String>)
    ensures
        texts(r@) == arguments_for(url@),
        texts(r@) == seq!["--headless=new"@, "--disable-gpu"@, "--dump-dom"@, url@],
{
    let mut out: Vec<String> = Vec::new();
    out.push("--headless=new".to_owned());
    out.push("--disable-gpu".to_owned());
    out.push("--dump-dom".to_owned());
    out.push(url.to_owned());
    assert(texts(out@) =~= seq!["--headless=new"@, "--disable-gpu"@, "--dump-dom"@, url@]);
    out
}

/// The page that a browser wrote out, or why there is none.
pub fn browser_dom(succeeded: bool, status: &str, stdout: &Vec<u8>, stderr: &Vec<u8>) -> (r:
    AppResult<String>)
    ensures
        match r {
            Ok(html) => succeeded && html@ == lossy_of(stdout@) && trimmed(html@).len() > 0,
            Err(e) => e@ == ErrorView::Upstream(
                if !succeeded {
                    "browser exited with status "@ + status@ + ": "@ + trimmed(lossy_of(stderr@))
                } else {
                    "browser returned empty DOM"@
                },
            ) && (!succeeded || trimmed(lossy_of(stdout@)).len() == 0),
        },
{
    if !succeeded {
        let mut message = "browser exited with status ".to_owned();
        message.append(status);
        message.append(": ");
        message.append(trim(from_utf8_lossy(stderr).as_str()).as_str());
        return Err(AppError::upstream(message));
    }
    let html = from_utf8_lossy(stdout);
    if char_count(trim(html.as_str()).as_str()) == 0 {
        return Err(AppError::upstream("browser returned empty DOM".to_owned()));
    }
    Ok(html)
}

/// The name of a system for which browsers are offered.
pub open spec fn platform_of(os: Seq<char>, arch: Seq<char>) -> Option<Seq<char>> {
    if os == "linux"@ && arch == "x86_64"@ {
        Some("linux64"@)
    } else if os == "macos"@ && arch == "x86_64"@ {
        Some("mac-x64"@)
    } else if os == "macos"@ && arch == "aarch64"@ {
        Some("mac-arm64"@)
    } else if os == "windows"@ && arch == "x86"@ {
        Some("win32"@)
    } else if os == "windows"@ && (arch == "x86_64"@ || arch == "aarch64"@) {
        Some("win64"@)
    } else {
        None
    }
}

/// The name under which browsers are offered for a system.
pub fn chrome_for_testing_platform(os: &str, arch: &str) -> (r: AppResult<&'static str>)
    ensures
        match r {
            Ok(name) => platform_of(os@, arch@) == Some(name@),
            Err(e) => platform_of(os@, arch@) is None && e@ == ErrorView::Upstream(
                "unsupported browser install platform: "@ + os@ + "/"@ + arch@,
            ),
        },
{
    if same(os, "linux") && same(arch, "x86_64") {
        Ok("linux64")
    } else if same(os, "macos") && same(arch, "x86_64") {
        Ok("mac-x64")
    } else if same(os, "macos") && same(arch, "aarch64") {
        Ok("mac-arm64")
    } else if same(os, "windows") && same(arch, "x86") {
        Ok("win32")
    } else if same(os, "windows") && (same(arch, "x86_64") || same(arch, "aarch64")) {
        Ok("win64")
    } else {
        let mut message = "unsupported browser install platform: ".to_owned();
        message.append(os);
        message.append("/");
        message.append(arch);
        Err(AppError::upstream(message))
    }
}

/// A browser that is offered for a platform.
#[derive(Debug)]
pub struct Download {
    pub platform: String,
    pub url: String,
}

/// A version of the browser, with what is offered of it.
#[derive(Debug)]
pub struct Channel {
    pub version: String,
    pub downloads: Vec<Download>,
}

/// The number of the first download from `i` on for `platform`, or how many there
/// are.
pub open spec fn download_for(downloads: Seq<Download>, platform: Seq<char>, i: int) -> int
    decreases downloads.len() - i,
{
    if i < 0 || i >= downloads.len() || downloads[i].platform@ == platform {
        i
    } else {
        download_for(downloads, platform, i + 1)
    }
}

/// Where to download the stable browser for `platform`.
pub fn pick_download(stable: &Option<Channel>, platform: &str) -> (r: AppResult<String>)
    ensures
        match r {
            Ok(url) => stable matches Some(channel) && {
                let k = download_for(channel.downloads@, platform@, 0);
                k < channel.downloads@.len() && url@ == channel.downloads@[k].url@
            },
            Err(e) => match stable {
                None => e@ == ErrorView::Upstream(
                    "Chrome for Testing metadata did not include Stable"@,
                ),
                Some(channel) => download_for(channel.downloads@, platform@, 0)
                    >= channel.downloads@.len() && e@ == ErrorView::Upstream(
                    "Chrome for Testing has no chrome download for "@ + platform@,
                ),
            },
        },
{
    let channel = match stable {
        Some(channel) => channel,
        None => {
            return Err(
                AppError::upstream("Chrome for Testing metadata did not include Stable".to_owned()),
            );
        },
    };
    let mut i: usize = 0;
    while i < channel.downloads.len()
        invariant
            i <= channel.downloads@.len(),
            download_for(channel.downloads@, platform@, 0) == download_for(
                channel.downloads@,
                platform@,
                i as int,
            ),
            *stable == Some(*channel),
        decreases channel.downloads@.len() - i,
    {
        if same(channel.downloads[i].platform.as_str(), platform) {
            return Ok(channel.downloads[i].url.clone());
        }
        i += 1;
    }
    let mut message = "Chrome for Testing has no chrome download for ".to_owned();
    message.append(platform);
    Err(AppError::upstream(message))
}

/// Where a version of the browser is installed.
pub fn browser_dir(cache_dir: &str, version: &str, platform: &str) -> (r: String)
    ensures
        r@ == in_dir(in_dir(in_dir(cache_dir@, "browser"@), version@), platform@),
{
    let versions = path_in(cache_dir, "browser");
    path_in(path_in(versions.as_str(), version).as_str(), platform)
}

/// The browser that was `found` in what was downloaded.
pub fn installed_browser(found: Option<String>) -> (r: AppResult<String>)
    ensures
        match r {
            Ok(path) => found matches Some(place) && path@ == place@,
            Err(e) => found is None && e@ == ErrorView::Upstream(
                "downloaded Chrome for Testing archive did not contain a browser executable"@,
            ),
        },
{
    match found {
        Some(path) => Ok(path),
        None => Err(
            AppError::upstream(
                "downloaded Chrome for Testing archive did not contain a browser executable".to_owned(),
            ),
        ),
    }
}

/// Whether a file with this name is the browser itself.
pub fn is_browser_binary(name: &str) -> (r: bool)
    ensures
        r == (name@ == "chrome"@ || name@ == "chrome.exe"@ || name@
            == "Google Chrome for Testing"@),
{
    same(name, "chrome") || same(name, "chrome.exe") || same(name, "Google Chrome for Testing")
}

/// A page from the cache is fetched again exactly if it was a shell that was not rendered, or
/// if nothing is known of how it was fetched and there is a browser now. Pages that were
/// rendered, or fetched as they are, are not.
pub proof fn law_which_cached_pages_are_stale(source: Seq<char>, has_browser: bool)
    ensures
        stale("http_shell"@, has_browser),
        source.len() == 0 ==> stale(source, has_browser) == has_browser,
        source.len() > 0 && source != "http_shell"@ ==> !stale(source, has_browser),
        !stale("http"@, has_browser),
        !stale("browser"@, has_browser),
{
    reveal_strlit("http_shell");
    reveal_strlit("http");
    reveal_strlit("browser");
    assert("http_shell"@.len() == 10 && "http"@.len() == 4 && "browser"@.len() == 7);
}

/// The status codes from 200 to 299 are those of success.
pub proof fn law_which_codes_mean_success(status: int)
    ensures
        success(status) <==> status / 100 == 2,
{
}

/// A conditional request has the marks of the copy that is known, as far as there are any,
/// besides the headers of every request.
pub proof fn law_the_headers_of_a_request(etag: Seq<char>, last_modified: Seq<char>)
    ensures
        ({
            let headers = request_headers(etag, last_modified);
            &&& headers[0] == ("User-Agent"@, "Mozilla/5.0 (compatible; snarf/1.0)"@)
            &&& headers[1] == ("Accept"@, "text/html,application/xhtml+xml"@)
            &&& headers.len() == 2 + (if etag.len() > 0 {
                1int
            } else {
                0
            }) + (if last_modified.len() > 0 {
                1int
            } else {
                0
            })
            &&& etag.len() > 0 ==> headers[2] == ("If-None-Match"@, etag)
            &&& last_modified.len() > 0 ==> headers.last() == ("If-Modified-Since"@, last_modified)
        }),
{
}

/// A page that is no shell is taken as it is; a shell is taken as the browser renders it.
/// Where there is no browser, or it fails, the page is taken as it is, marked as a shell, with
/// a warning that names it.
pub proof fn law_what_is_rendered(
    url: Seq<char>,
    html: Seq<char>,
    rendered: Seq<char>,
    message: Seq<char>,
    outcome: Result<Seq<char>, Seq<char>>,
)
    ensures
        after_rendering(Rendering::Keep, url, html, outcome).html == html,
        after_rendering(Rendering::Keep, url, html, outcome).source == "http"@,
        after_rendering(Rendering::Keep, url, html, outcome).warning is None,
        after_rendering(Rendering::Browser, url, html, Ok(rendered)).html == rendered,
        after_rendering(Rendering::Browser, url, html, Ok(rendered)).source == "browser"@,
        after_rendering(Rendering::Browser, url, html, Ok(rendered)).warning is None,
        after_rendering(Rendering::Browser, url, html, Err(message)).html == html,
        after_rendering(Rendering::Browser, url, html, Err(message)).source == "http_shell"@,
        after_rendering(Rendering::Browser, url, html, Err(message)).warning == Some(
            "warn: browser fallback failed for "@ + url + ": "@ + message,
        ),
        after_rendering(Rendering::Warn, url, html, outcome).html == html,
        after_rendering(Rendering::Warn, url, html, outcome).source == "http_shell"@,
        after_rendering(Rendering::Warn, url, html, outcome).warning == Some(
            "warn: "@ + url + " appears JS-rendered; configure browser for full content"@,
        ),
{
}

/// A scraped page has the title and the content of the page that was rendered.
pub proof fn law_scraped_pages_have_the_content(
    url: Seq<char>,
    fetched: Seq<char>,
    html: Seq<char>,
    markdown: Seq<char>,
)
    requires
        extraction(html) == Some(markdown),
    ensures
        content_of(html) matches Ok(content) && content.title == title_of(html) && content.markdown
            == markdown && page_of(url, fetched, content).title == title_of(html) && page_of(
            url,
            fetched,
            content,
        ).markdown == markdown,
{
}

/// A page that cannot be written as markdown is an error, and no other is.
pub proof fn law_when_scraping_fails(html: Seq<char>)
    ensures
        content_of(html) is Err <==> extraction(html) is None,
        content_of(html) matches Err(e) ==> e == ErrorView::Upstream(
            "page cannot be written as markdown"@,
        ),
{
}

/// What a conditional request gives has the content of the page, the marks that came with it,
/// the hash of the content and the source that it was rendered from.
pub proof fn law_what_a_conditional_request_gives(
    url: Seq<char>,
    fetched: Seq<char>,
    etag: Seq<char>,
    last_modified: Seq<char>,
    detection: Seq<char>,
    rendered: RenderedView,
    content: ExtractedView,
)
    ensures
        ({
            let result = conditional_result(
                url,
                fetched,
                etag,
                last_modified,
                detection,
                rendered,
                content,
            );
            &&& result.page.url == url
            &&& result.page.title == content.title
            &&& result.page.markdown == content.markdown
            &&& result.page.etag == etag
            &&& result.page.last_modified == last_modified
            &&& result.page.content_hash == short_digest(content.markdown)
            &&& fetched != url ==> result.page.fetched_url == fetched
            &&& fetched == url ==> result.page.fetched_url.len() == 0
            &&& result.raw_html == rendered.html
            &&& result.source == rendered.source
            &&& result.js_detection == detection
            &&& !result.not_modified
        }),
{
}

/// What the browser fetches has the content of the page and its hash, and is known to come
/// from the browser.
pub proof fn law_what_the_browser_gives(
    url: Seq<char>,
    fetched: Seq<char>,
    html: Seq<char>,
    content: ExtractedView,
)
    ensures
        ({
            let result = browser_result(url, fetched, html, content);
            &&& result.page.url == url
            &&& result.page.title == content.title
            &&& result.page.markdown == content.markdown
            &&& result.page.content_hash == short_digest(content.markdown)
            &&& result.page.etag.len() == 0
            &&& result.page.last_modified.len() == 0
            &&& fetched != url ==> result.page.fetched_url == fetched
            &&& fetched == url ==> result.page.fetched_url.len() == 0
            &&& result.raw_html == html
            &&& result.source == "browser"@
            &&& result.js_detection.len() == 0
            &&& !result.not_modified
        }),
{
}

/// The guide of a site is looked for exactly from its front page, at `/llms.txt` without query
/// and fragment.
pub proof fn law_where_the_guide_is(
    raw: Seq<char>,
    placed: Seq<char>,
    bare: Seq<char>,
    guide: Seq<char>,
)
    requires
        url_with_path(raw, "/llms.txt"@) == Some(placed),
        url_without_query(placed) == Some(bare),
        url_without_fragment(bare) == Some(guide),
    ensures
        url_of(raw) matches Ok(url) ==> (url.path.len() == 0 || url.path == seq!['/'])
            ==> guide_url(raw) == Some(guide),
        url_of(raw) matches Ok(url) ==> url.path.len() > 0 && url.path != seq!['/'] ==> guide_url(
            raw,
        ) is None,
        url_of(raw) is Err ==> guide_url(raw) is None,
{
    reveal_strlit("/");
    assert("/"@ =~= seq!['/']);
}

/// A browser that is configured by a path is looked for there alone, and so is one that is no
/// common name. The two common names stand for the names under which the browser is known.
pub proof fn law_where_a_browser_is_looked_for(config: Seq<char>, separator: char)
    ensures
        config.contains(separator) ==> browser_names(config, separator) == seq![config],
        config != "chrome"@ && config != "chromium"@ ==> browser_names(config, separator) == seq![
            config,
        ],
        !"chrome"@.contains(separator) ==> browser_names("chrome"@, separator) == seq![
            "google-chrome"@,
            "google-chrome-stable"@,
            "chromium"@,
            "chromium-browser"@,
            "/Applications/Google Chrome.app/Contents/MacOS/Google Chrome"@,
        ],
        !"chromium"@.contains(separator) ==> browser_names("chromium"@, separator) == seq![
            "chromium"@,
            "chromium-browser"@,
        ],
{
    reveal_strlit("chrome");
    reveal_strlit("chromium");
    crate::text::lemma_skip_while(config, crate::text::but(separator), 0);
    if config.contains(separator) {
        let k = choose|k: int| 0 <= k < config.len() && config[k] == separator;
        let n = index_of(config, separator, 0);
        if n >= config.len() {
            assert(crate::text::but(separator)(config[k]));
        }
    }
    lemma_no_separator("chrome"@, separator);
    lemma_no_separator("chromium"@, separator);
}

proof fn lemma_no_separator(s: Seq<char>, separator: char)
    ensures
        !s.contains(separator) ==> index_of(s, separator, 0) >= s.len(),
{
    crate::text::lemma_skip_while(s, crate::text::but(separator), 0);
    let n = index_of(s, separator, 0);
    if n < s.len() {
        assert(s[n] == separator);
        assert(s.contains(s[n]));
    }
}

proof fn lemma_first_found(found: Seq<Option<Seq<char>>>, i: int, k: int)
    requires
        0 <= i <= k <= found.len(),
        forall|j: int| i <= j < k ==> (#[trigger] found[j]) is None,
        k < found.len() ==> found[k] is Some,
    ensures
        first_found(found, i) == (if k < found.len() {
            found[k]
        } else {
            None
        }),
    decreases k - i,
{
    if i < k {
        assert(found[i] is None);
        lemma_first_found(found, i + 1, k);
    }
}

/// The first place at which a browser was found counts.
pub proof fn law_the_first_browser_found_is_taken(found: Seq<Option<Seq<char>>>, k: int)
    requires
        0 <= k <= found.len(),
        forall|j: int| 0 <= j < k ==> (#[trigger] found[j]) is None,
        k < found.len() ==> found[k] is Some,
    ensures
        k < found.len() ==> first_found(found, 0) == found[k],
        k == found.len() ==> first_found(found, 0) is None,
{
    lemma_first_found(found, 0, k);
}

/// The systems for which browsers are offered.
pub proof fn law_the_systems_with_browsers(os: Seq<char>, arch: Seq<char>)
    ensures
        platform_of("linux"@, "x86_64"@) == Some("linux64"@),
        platform_of("macos"@, "x86_64"@) == Some("mac-x64"@),
        platform_of("macos"@, "aarch64"@) == Some("mac-arm64"@),
        platform_of("windows"@, "x86"@) == Some("win32"@),
        platform_of("windows"@, "x86_64"@) == Some("win64"@),
        platform_of("windows"@, "aarch64"@) == Some("win64"@),
        platform_of(os, arch) is Some ==> os == "windows"@ || (os == "macos"@ && (arch
            == "x86_64"@ || arch == "aarch64"@)) || (os == "linux"@ && arch == "x86_64"@),
{
    reveal_strlit("linux");
    reveal_strlit("macos");
    reveal_strlit("windows");
    reveal_strlit("x86_64");
    reveal_strlit("aarch64");
    reveal_strlit("x86");
    assert("linux"@[0] == 'l' && "macos"@[0] == 'm' && "windows"@[0] == 'w');
    assert("x86_64"@.len() == 6 && "aarch64"@.len() == 7 && "x86"@.len() == 3);
}

proof fn lemma_download_for(downloads: Seq<Download>, platform: Seq<char>, i: int, k: int)
    requires
        0 <= i <= k <= downloads.len(),
        forall|j: int| i <= j < k ==> (#[trigger] downloads[j]).platform@ != platform,
        k < downloads.len() ==> downloads[k].platform@ == platform,
    ensures
        download_for(downloads, platform, i) == k,
    decreases k - i,
{
    if i < k {
        assert(downloads[i].platform@ != platform);
        lemma_download_for(downloads, platform, i + 1, k);
    }
}

/// The download that is taken is the first for the platform; where there is none, none is.
pub proof fn law_the_download_is_for_the_platform(
    downloads: Seq<Download>,
    platform: Seq<char>,
    k: int,
)
    requires
        0 <= k <= downloads.len(),
        forall|j: int| 0 <= j < k ==> (#[trigger] downloads[j]).platform@ != platform,
        k < downloads.len() ==> downloads[k].platform@ == platform,
    ensures
        download_for(downloads, platform, 0) == k,
{
    lemma_download_for(downloads, platform, 0, k);
}

/// What was fetched is seen as its fields are.
pub proof fn law_what_a_fetch_holds(record: FetchResult)
    ensures
        record@.page == record.page@,
        record@.raw_html == record.raw_html@,
        record@.js_detection == record.js_detection@,
        record@.source == record.source@,
        record@.not_modified == record.not_modified,
{
}

/// A rendered page is seen as its fields are.
pub proof fn law_what_a_rendered_page_holds(record: Rendered)
    ensures
        record@.html == record.html@,
        record@.source == record.source@,
        record.warning matches Some(value) ==> record@.warning == Some(value@),
        record.warning is None ==> record@.warning is None,
{
}

/// The error for a page names the status and the page.
pub proof fn law_the_error_of_a_status(status: int, url: Seq<char>)
    ensures
        status_error(status, url) == ErrorView::Upstream(
            "HTTP "@ + decimal(status) + " for "@ + url,
        ),
{
}

/// Only pages that are likely shells are rendered; where there is no browser, they are kept with
/// a warning.
pub proof fn law_which_pages_are_rendered(detection: Seq<char>, has_browser: bool)
    ensures
        rendering_of("likely_shell"@, true) == Rendering::Browser,
        rendering_of("likely_shell"@, false) == Rendering::Warn,
        detection != "likely_shell"@ ==> rendering_of(detection, has_browser) == Rendering::Keep,
{
}

/// A page that is still what it was is answered with 304; a page comes with an answer of
/// success; any other answer is an error.
pub proof fn law_what_an_answer_means(status: int)
    ensures
        answer_of(status) == Some(Answer::NotModified) <==> status == 304,
        answer_of(status) == Some(Answer::Page) <==> 200 <= status < 300,
        answer_of(status) is None <==> status != 304 && !(200 <= status < 300),
{
}

/// A guide comes as plain text with an answer of success.
pub proof fn law_what_holds_a_guide(status: int, before: Seq<char>, after: Seq<char>)
    ensures
        holds_guide(status, before + "text/plain"@ + after) <==> 200 <= status < 300,
        !occurs(before, "text/plain"@) ==> !holds_guide(status, before),
{
    crate::text::law_what_occurs(before, "text/plain"@, after);
}

/// A browser writes out the page that is asked for, without showing it.
pub proof fn law_what_a_browser_is_asked(url: Seq<char>)
    ensures
        arguments_for(url).len() == 4,
        arguments_for(url)[0] == "--headless=new"@,
        arguments_for(url)[1] == "--disable-gpu"@,
        arguments_for(url)[2] == "--dump-dom"@,
        arguments_for(url)[3] == url,
{
}

/// Twenty megabytes are read of a page at most.
pub proof fn law_how_much_is_read()
    ensures
        MAX_BODY_BYTES == 20 * 1024 * 1024,
{
}

} // verus!
