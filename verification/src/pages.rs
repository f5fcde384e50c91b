//! Scraping pages: how each is to be had, what becomes of its content, and how the
//! pages of a search are put together.

use vstd::prelude::*;

use crate::crawl::page_with_crawl_urls;
use crate::error::{AppError, AppResult, ErrorView};
use crate::extract::{
    extract_selector, extract_selector_html, plain, post_process, selected_markdown, selection,
    shortened, title, title_of, unwritable_page,
};
use crate::scrape::{cache_stale_for_browser, stale};
use crate::system::{quoted, quoted_of};
use crate::text::{char_count, texts};
use crate::types::{Page, PageView, SearchResult, SearchView};

verus! {

/// How pages are handed out.
#[derive(Debug)]
pub struct ScrapeOutputOptions {
    /// The source of the page, in place of its content.
    pub raw: bool,
    /// The content as plain text.
    pub trim: bool,
    /// The most characters of the content, zero for all.
    pub max_chars: usize,
    /// A selector for the parts of the page, if only parts are asked for.
    pub select: String,
    /// Whether the site is not asked for a text for programs.
    pub no_llms_txt: bool,
}

/// How a page is to be had.
#[derive(Debug, Clone, Copy, PartialEq, Eq, Structural)]
pub enum ScrapePlan {
    /// Its source, as it is.
    Source,
    /// The parts of its source.
    SourceParts,
    /// The parts of its content.
    Parts,
    /// The text for programs of its site, or else its content.
    TextForPrograms,
    /// Its content.
    Content,
}

/// How a page is to be had.
pub open spec fn plan_for(raw: bool, select: Seq<char>, no_llms_txt: bool) -> ScrapePlan {
    if raw && select.len() == 0 {
        ScrapePlan::Source
    } else if raw {
        ScrapePlan::SourceParts
    } else if select.len() > 0 {
        ScrapePlan::Parts
    } else if !no_llms_txt {
        ScrapePlan::TextForPrograms
    } else {
        ScrapePlan::Content
    }
}

/// How a page is to be had.
pub fn scrape_plan(options: &ScrapeOutputOptions) -> (r: ScrapePlan)
    ensures
        r == plan_for(options.raw, options.select@, options.no_llms_txt),
        r == (if options.raw && options.select@.len() == 0 {
            ScrapePlan::Source
        } else if options.raw {
            ScrapePlan::SourceParts
        } else if options.select@.len() > 0 {
            ScrapePlan::Parts
        } else if !options.no_llms_txt {
            ScrapePlan::TextForPrograms
        } else {
            ScrapePlan::Content
        }),
{
    let whole = char_count(options.select.as_str()) == 0;
    if options.raw {
        if whole {
            ScrapePlan::Source
        } else {
            ScrapePlan::SourceParts
        }
    } else if !whole {
        ScrapePlan::Parts
    } else if !options.no_llms_txt {
        ScrapePlan::TextForPrograms
    } else {
        ScrapePlan::Content
    }
}

/// A page with a title and a text, asked for as `url` and fetched at `fetched`.
pub open spec fn titled_page(
    url: Seq<char>,
    fetched: Seq<char>,
    title: Seq<char>,
    text: Seq<char>,
) -> PageView {
    PageView { title: title, markdown: text, ..PageView::empty() }.requested(url, fetched)
}

fn new_page(url: &str, fetched_url: &str, title: String, markdown: String) -> (r: Page)
    ensures
        r@ == titled_page(url@, fetched_url@, title@, markdown@),
{
    let mut page = Page::default();
    page.title = title;
    page.markdown = markdown;
    page_with_crawl_urls(page, url, fetched_url)
}

/// The source of a page as a page.
pub fn source_page(raw_url: &str, fetched_url: &str, html: &str) -> (r: Page)
    ensures
        r@ == titled_page(raw_url@, fetched_url@, title_of(html@), html@),
{
    new_page(raw_url, fetched_url, title(html), html.to_owned())
}

/// The text for programs of a site as a page.
pub fn llms_page(raw_url: &str, content: String) -> (r: Page)
    ensures
        r@ == titled_page(raw_url@, raw_url@, "llms.txt"@, content@),
{
    new_page(raw_url, raw_url, "llms.txt".to_owned(), content)
}

/// The error where a selector matches nothing.
pub open spec fn nothing_selected(selector: Seq<char>) -> ErrorView {
    ErrorView::NotFound("no elements matched selector "@ + quoted_of(selector))
}

/// The page with the parts `selected` of the page `html`, which `selector` matches.
pub fn selected_page(
    raw_url: &str,
    fetched_url: &str,
    html: &str,
    selector: &str,
    selected: String,
) -> (r: AppResult<Page>)
    ensures
        match r {
            Ok(page) => selected@.len() > 0 && page@ == titled_page(
                raw_url@,
                fetched_url@,
                title_of(html@),
                selected@,
            ),
            Err(e) => selected@.len() == 0 && e@ == nothing_selected(selector@),
        },
{
    if char_count(selected.as_str()) == 0 {
        let mut message = "no elements matched selector ".to_owned();
        message.append(quoted(selector).as_str());
        return Err(AppError::not_found(message));
    }
    Ok(new_page(raw_url, fetched_url, title(html), selected))
}

/// The page with the parts of the source `html` that `selector` matches.
pub fn source_parts(raw_url: &str, fetched_url: &str, html: &str, selector: &str) -> (r: AppResult<
    Page,
>)
    ensures
        match selection(html@, selector@) {
            None => r matches Err(e) && e@ == ErrorView::Validation(
                "invalid selector: "@ + selector@,
            ),
            Some(parts) => if parts.len() == 0 {
                r matches Err(e) && e@ == nothing_selected(selector@)
            } else {
                r matches Ok(page) && page@ == titled_page(
                    raw_url@,
                    fetched_url@,
                    title_of(html@),
                    parts,
                )
            },
        },
{
    match extract_selector_html(html, selector) {
        Ok(parts) => selected_page(raw_url, fetched_url, html, selector, parts),
        Err(e) => Err(e),
    }
}

/// The page with the parts of the content of `html` that `selector` matches.
pub fn content_parts(raw_url: &str, fetched_url: &str, html: &str, selector: &str) -> (r: AppResult<
    Page,
>)
    ensures
        match selection(html@, selector@) {
            None => r matches Err(e) && e@ == ErrorView::Validation(
                "invalid selector: "@ + selector@,
            ),
            Some(parts) => match selected_markdown(parts) {
                None => r matches Err(e) && e@ == unwritable_page(),
                Some(markdown) => if markdown.len() == 0 {
                    r matches Err(e) && e@ == nothing_selected(selector@)
                } else {
                    r matches Ok(page) && page@ == titled_page(
                        raw_url@,
                        fetched_url@,
                        title_of(html@),
                        markdown,
                    )
                },
            },
        },
{
    match extract_selector(html, selector) {
        Ok(markdown) => selected_page(raw_url, fetched_url, html, selector, markdown),
        Err(e) => Err(e),
    }
}

/// Markdown as it is handed out.
pub open spec fn processed(markdown: Seq<char>, trim: bool, max: int) -> Seq<char> {
    shortened(
        if trim {
            plain(markdown)
        } else {
            markdown
        },
        max,
    )
}

/// A page as it is handed out.
pub open spec fn handed_out(page: PageView, trim: bool, max: int) -> PageView {
    PageView { markdown: processed(page.markdown, trim, max), ..page }
}

/// A result of a search with the content of its page.
pub open spec fn filled(result: SearchView, page: PageView, trim: bool, max: int) -> SearchView {
    SearchView {
        fetched_url: page.fetched_url,
        content: processed(page.markdown, trim, max),
        ..result
    }
}

/// A page as it is handed out.
pub fn finish_page(page: Page, trim: bool, max_chars: usize) -> (r: Page)
    ensures
        r@ == handed_out(page@, trim, max_chars as int),
        r@ == (PageView {
            markdown: processed(page@.markdown, trim, max_chars as int),
            ..page@
        }),
{
    let mut page = page;
    page.markdown = post_process(page.markdown.as_str(), trim, max_chars);
    page
}

/// A page from the cache, if it can be used: relabelled for the request.
pub open spec fn usable(
    cached: Option<(PageView, Seq<char>)>,
    has_browser: bool,
    url: Seq<char>,
    key: Seq<char>,
) -> Option<PageView> {
    match cached {
        Some(found) => if stale(found.1, has_browser) {
            None
        } else {
            Some(found.0.requested(url, key))
        },
        None => None,
    }
}

/// The page `cached`, which the cache holds for `key`, for a request of `raw_url`;
/// nothing where it has to be fetched.
pub fn cached_page(cached: Option<(Page, String)>, has_browser: bool, raw_url: &str, key: &str) -> (r:
    Option<Page>)
    ensures
        ({
            let found = match cached {
                Some(found) => Some((found.0@, found.1@)),
                None => None,
            };
            match usable(found, has_browser, raw_url@, key@) {
                Some(page) => r is Some && r->0@ == page,
                None => r is None,
            }
        }),
{
    match cached {
        Some((page, source)) => {
            if cache_stale_for_browser(source.as_str(), has_browser) {
                None
            } else {
                Some(page_for_request(page, raw_url, key))
            }
        },
        None => None,
    }
}

/// A page as one that was asked for as `raw_url` and fetched at `fetched_url`.
pub fn page_for_request(page: Page, raw_url: &str, fetched_url: &str) -> (r: Page)
    ensures
        r@ == page@.requested(raw_url@, fetched_url@),
{
    page_with_crawl_urls(page, raw_url, fetched_url)
}

/// Whatever the cache holds, a page that is taken from it shows the URL that was asked
/// for, with the content as it was stored.
pub proof fn law_cached_pages_show_the_request(
    cached: Option<(PageView, Seq<char>)>,
    has_browser: bool,
    url: Seq<char>,
    key: Seq<char>,
)
    ensures
        match (usable(cached, has_browser, url, key), cached) {
            (Some(page), Some(found)) => {
                &&& page.url == url
                &&& key == url ==> page.fetched_url.len() == 0
                &&& key != url ==> page.fetched_url == key
                &&& page.title == found.0.title
                &&& page.markdown == found.0.markdown
            },
            (Some(_), None) => false,
            (None, _) => true,
        },
{
}

/// The pages among the results from `i` on.
pub open spec fn pages_from(results: Seq<AppResult<Page>>, i: int) -> Seq<PageView>
    decreases results.len() - i,
{
    if i < 0 || i >= results.len() {
        seq![]
    } else {
        match results[i] {
            Ok(page) => seq![page@] + pages_from(results, i + 1),
            Err(_) => pages_from(results, i + 1),
        }
    }
}

/// The warnings of the results from `i` on.
pub open spec fn warnings_from(results: Seq<AppResult<Page>>, i: int) -> Seq<Seq<char>>
    decreases results.len() - i,
{
    if i < 0 || i >= results.len() {
        seq![]
    } else {
        match results[i] {
            Ok(_) => warnings_from(results, i + 1),
            Err(e) => seq!["warn: "@ + e@.text()] + warnings_from(results, i + 1),
        }
    }
}

/// What a list of pages holds.
pub open spec fn pages_of(pages: Seq<Page>) -> Seq<PageView> {
    Seq::new(pages.len(), |i: int| pages[i]@)
}

/// The pages among `results`, in their order, and a warning for each that failed.
pub fn collect_pages(results: Vec<AppResult<Page>>) -> (r: (Vec<Page>, Vec<String>))
    ensures
        pages_of(r.0@) == pages_from(results@, 0),
        texts(r.1@) == warnings_from(results@, 0),
{
    let mut pages: Vec<Page> = Vec::new();
    let mut warnings: Vec<String> = Vec::new();
    let mut i: usize = 0;
    assert(pages_of(pages@) + pages_from(results@, 0) =~= pages_from(results@, 0));
    assert(texts(warnings@) + warnings_from(results@, 0) =~= warnings_from(results@, 0));
    while i < results.len()
        invariant
            i <= results@.len(),
            pages_of(pages@) + pages_from(results@, i as int) == pages_from(results@, 0),
            texts(warnings@) + warnings_from(results@, i as int) == warnings_from(results@, 0),
        decreases results@.len() - i,
    {
        let ghost before = pages_of(pages@);
        let ghost told = texts(warnings@);
        match &results[i] {
            Ok(page) => {
                let copy = page.clone();
                let ghost view = copy@;
                pages.push(copy);
                assert(pages_of(pages@) =~= before.push(view));
                assert(pages_of(pages@) + pages_from(results@, i + 1) =~= before + (seq![view]
                    + pages_from(results@, i + 1)));
            },
            Err(e) => {
                let mut warning = "warn: ".to_owned();
                warning.append(e.message().as_str());
                let ghost view = warning@;
                warnings.push(warning);
                assert(texts(warnings@) =~= told.push(view));
                assert(texts(warnings@) + warnings_from(results@, i + 1) =~= told + (seq![view]
                    + warnings_from(results@, i + 1)));
            },
        }
        i += 1;
    }
    assert(pages_of(pages@) + pages_from(results@, i as int) =~= pages_of(pages@));
    assert(texts(warnings@) + warnings_from(results@, i as int) =~= texts(warnings@));
    (pages, warnings)
}

/// Every result is either a page or a warning.
pub proof fn law_every_result_is_told_of(results: Seq<AppResult<Page>>, i: int)
    requires
        0 <= i <= results.len(),
    ensures
        pages_from(results, i).len() + warnings_from(results, i).len() == results.len() - i,
    decreases results.len() - i,
{
    if i < results.len() {
        law_every_result_is_told_of(results, i + 1);
    }
}

/// The warning for a result of a search whose page could not be had.
pub fn scrape_warning(url: &str, error: &AppError) -> (r: String)
    ensures
        r@ == "warn: failed to scrape "@ + url@ + ": "@ + error@.text(),
{
    let mut message = "warn: failed to scrape ".to_owned();
    message.append(url);
    message.append(": ");
    message.append(error.message().as_str());
    message
}

/// A result of a search with the content of its page.
pub fn with_content(result: SearchResult, page: &Page, trim: bool, max_chars: usize) -> (r:
    SearchResult)
    ensures
        r@ == filled(result@, page@, trim, max_chars as int),
        r@ == (SearchView {
            fetched_url: page@.fetched_url,
            content: processed(page@.markdown, trim, max_chars as int),
            ..result@
        }),
{
    let mut result = result;
    result.fetched_url = page.fetched_url.clone();
    result.content = post_process(page.markdown.as_str(), trim, max_chars);
    result
}

/// A page with a title and a text shows both, and the URL it was asked for under.
pub proof fn law_what_a_titled_page_shows(
    url: Seq<char>,
    fetched: Seq<char>,
    title: Seq<char>,
    text: Seq<char>,
)
    ensures
        titled_page(url, fetched, title, text).url == url,
        titled_page(url, fetched, title, text).title == title,
        titled_page(url, fetched, title, text).markdown == text,
        fetched == url ==> titled_page(url, fetched, title, text).fetched_url.len() == 0,
        fetched != url ==> titled_page(url, fetched, title, text).fetched_url == fetched,
{
}

/// What is handed out is the markdown as it is where neither plain text nor a limit is asked
/// for, and plain text is made before it is cut.
pub proof fn law_what_is_handed_out(markdown: Seq<char>, max: int)
    requires
        max >= 0,
    ensures
        processed(markdown, false, 0) == markdown,
        markdown.len() <= max ==> processed(markdown, false, max) == markdown,
        0 < max < markdown.len() ==> processed(markdown, false, max) == markdown.take(max)
            + "\n\n[truncated]"@,
        processed(markdown, true, 0) == plain(markdown),
        plain(markdown).len() <= max ==> processed(markdown, true, max) == plain(markdown),
        0 < max < plain(markdown).len() ==> processed(markdown, true, max) == plain(markdown).take(
            max,
        ) + "\n\n[truncated]"@,
{
}

/// What is known of a page is used unless it is stale.
pub proof fn law_when_a_cached_page_is_used(
    page: PageView,
    source: Seq<char>,
    has_browser: bool,
    url: Seq<char>,
    key: Seq<char>,
)
    ensures
        usable(None, has_browser, url, key) is None,
        usable(Some((page, source)), has_browser, url, key) is Some <==> source != "http_shell"@ && (
        source.len() > 0 || !has_browser),
{
    reveal_strlit("http_shell");
}

proof fn lemma_pages_from(results: Seq<AppResult<Page>>, result: AppResult<Page>, i: int)
    requires
        0 <= i <= results.len(),
    ensures
        pages_from(results.push(result), i) == pages_from(results, i) + (match result {
            Ok(page) => seq![page@],
            Err(_) => seq![],
        }),
        warnings_from(results.push(result), i) == warnings_from(results, i) + (match result {
            Ok(_) => seq![],
            Err(e) => seq!["warn: "@ + e@.text()],
        }),
    decreases results.len() - i,
{
    reveal_with_fuel(pages_from, 2);
    reveal_with_fuel(warnings_from, 2);
    let more = results.push(result);
    if i < results.len() {
        assert(more[i] == results[i]);
        lemma_pages_from(results, result, i + 1);
    } else {
        assert(more[i] == result);
    }
    assert(pages_from(more, i) =~= pages_from(results, i) + (match result {
        Ok(page) => seq![page@],
        Err(_) => seq![],
    }));
    assert(warnings_from(more, i) =~= warnings_from(results, i) + (match result {
        Ok(_) => seq![],
        Err(e) => seq!["warn: "@ + e@.text()],
    }));
}

/// The pages come in the order of the results, as they are; each result that failed has a
/// warning with its error, in this order too.
pub proof fn law_pages_and_warnings_keep_their_order(
    results: Seq<AppResult<Page>>,
    result: AppResult<Page>,
)
    ensures
        pages_from(seq![], 0) == Seq::<PageView>::empty(),
        warnings_from(seq![], 0) == Seq::<Seq<char>>::empty(),
        match result {
            Ok(page) => pages_from(results.push(result), 0) == pages_from(results, 0).push(page@)
                && warnings_from(results.push(result), 0) == warnings_from(results, 0),
            Err(e) => pages_from(results.push(result), 0) == pages_from(results, 0)
                && warnings_from(results.push(result), 0) == warnings_from(results, 0).push(
                "warn: "@ + e@.text(),
            ),
        },
{
    lemma_pages_from(results, result, 0);
    match result {
        Ok(page) => {
            assert(pages_from(results, 0) + seq![page@] =~= pages_from(results, 0).push(page@));
            assert(warnings_from(results, 0) + seq![] =~= warnings_from(results, 0));
        },
        Err(e) => {
            assert(pages_from(results, 0) + seq![] =~= pages_from(results, 0));
            let told = "warn: "@ + e@.text();
            assert(warnings_from(results, 0) + seq![told] =~= warnings_from(results, 0).push(told));
        },
    }
}

/// A list of pages is seen as its pages are, in their order.
pub proof fn law_what_a_list_of_pages_holds(pages: Seq<Page>)
    ensures
        pages_of(pages).len() == pages.len(),
        forall|i: int| 0 <= i < pages.len() ==> #[trigger] pages_of(pages)[i] == pages[i]@,
{
}

/// Where a selector matches nothing, the error names it.
pub proof fn law_what_is_said_where_nothing_is_selected(selector: Seq<char>)
    ensures
        nothing_selected(selector) == ErrorView::NotFound(
            "no elements matched selector "@ + quoted_of(selector),
        ),
{
}

/// The source is given where it is asked for, parts where a selector is given, and else the text
/// for programs, unless that is not wanted.
pub proof fn law_how_a_page_is_to_be_had(select: Seq<char>, no_llms_txt: bool)
    requires
        select.len() > 0,
    ensures
        plan_for(true, seq![], no_llms_txt) == ScrapePlan::Source,
        plan_for(true, select, no_llms_txt) == ScrapePlan::SourceParts,
        plan_for(false, select, no_llms_txt) == ScrapePlan::Parts,
        plan_for(false, seq![], false) == ScrapePlan::TextForPrograms,
        plan_for(false, seq![], true) == ScrapePlan::Content,
{
}

/// Only the markdown of a page is changed when it is handed out.
pub proof fn law_handing_out_keeps_the_page(page: PageView, trim: bool, max: int)
    ensures
        handed_out(page, trim, max).markdown == processed(page.markdown, trim, max),
        handed_out(page, trim, max).url == page.url,
        handed_out(page, trim, max).fetched_url == page.fetched_url,
        handed_out(page, trim, max).title == page.title,
        handed_out(page, false, 0) == page,
{
}

/// A result of a search keeps its title, its URL and its description when it gets the content of
/// its page.
pub proof fn law_results_get_the_content_of_their_page(
    result: SearchView,
    page: PageView,
    trim: bool,
    max: int,
)
    ensures
        filled(result, page, trim, max).content == processed(page.markdown, trim, max),
        filled(result, page, trim, max).fetched_url == page.fetched_url,
        filled(result, page, trim, max).title == result.title,
        filled(result, page, trim, max).url == result.url,
        filled(result, page, trim, max).description == result.description,
{
}

} // verus!
