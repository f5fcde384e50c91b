//! What the commands write out as text.

use vstd::prelude::*;

use crate::cli::{first_line, first_line_of};
use crate::code_search::codes_of;
use crate::config::{
    available_backends, available_code_backends, available_doc_backends, AppConfig, ConfigView,
};
use crate::crawl::CrawlResult;
use crate::docs::docs_of;
use crate::pages::pages_of;
use crate::search::results_of;
use crate::status::{crawls_of, Counts, CrawlStatus, CrawlView, Tally};
use crate::system::{rfc3339, rfc3339_of, Timestamp};
use crate::text::{
    char_count, decimal, join, joined, pad_right, padded, same, show_size, slices, texts, words,
    words_of,
};
use crate::types::{
    CodeResult, CodeView, DocsResult, DocsView, Page, PageView, SearchResult, SearchView,
};
use crate::updatecheck::{StatusView, UpdateStatus};
use crate::web::or_empty;

verus! {

/// A name, marked where it is the active one.
pub open spec fn marked(name: Seq<char>, active: Seq<char>) -> Seq<char> {
    if name == active {
        name + " (default)"@
    } else {
        name
    }
}

/// A list of names in which the active one is marked.
pub open spec fn named(names: Seq<Seq<char>>, active: Seq<char>) -> Seq<char> {
    joined(Seq::new(names.len(), |i: int| marked(names[i], active)), ", "@)
}

/// The names `backends`, with a mark behind the active one.
pub fn join_with_default(backends: &[&'static str], active: &str) -> (r: String)
    ensures
        r@ == named(slices(backends@), active@),
{
    let ghost names = slices(backends@);
    let mut parts: Vec<String> = Vec::new();
    let mut i: usize = 0;
    while i < backends.len()
        invariant
            names == slices(backends@),
            i <= backends@.len(),
            parts@.len() == i,
            forall|k: int| 0 <= k < i ==> (#[trigger] parts@[k])@ == marked(names[k], active@),
        decreases backends@.len() - i,
    {
        let mut part = backends[i].to_owned();
        if same(backends[i], active) {
            part.append(" (default)");
        }
        parts.push(part);
        i += 1;
    }
    assert(texts(parts@) =~= Seq::new(names.len(), |i: int| marked(names[i], active@)));
    join(&parts, ", ")
}

/// What is written where no command is given.
pub open spec fn root_page(config: ConfigView) -> Seq<char> {
    "snarf - web search, code search, docs, and scrape in one binary.\n\nCommands:\n  search      Search the web and return results\n  code        Search code across open-source repositories\n  docs        Search library documentation\n  scrape      Scrape URLs and extract clean markdown\n  crawl       Crawl a site and extract pages\n  browser     Manage browser for JS-rendered page support\n  cache       Show cache stats\n  config      Show or manage configuration\n  version     Print snarf version information\n\nBackends:\n  search      "@
        + named(seq!["brave"@, "ddg"@, "searxng"@, "exa"@], config.backend)
        + "\n  code        "@ + named(seq!["grepapp"@, "sourcegraph"@, "github"@], config.code_backend)
        + "\n  docs        "@ + named(seq!["context7"@, "local"@], config.docs_backend)
        + "\n\nRun 'snarf <command> --help' for flags and examples.\n"@
}

/// What is written where no command is given: the commands, and the services with the
/// configured ones marked.
pub fn root_text(config: &AppConfig) -> (r: String)
    ensures
        r@ == root_page(config@),
{
    let mut out =
        "snarf - web search, code search, docs, and scrape in one binary.\n\nCommands:\n  search      Search the web and return results\n  code        Search code across open-source repositories\n  docs        Search library documentation\n  scrape      Scrape URLs and extract clean markdown\n  crawl       Crawl a site and extract pages\n  browser     Manage browser for JS-rendered page support\n  cache       Show cache stats\n  config      Show or manage configuration\n  version     Print snarf version information\n\nBackends:\n  search      ".to_owned();
    let search = available_backends();
    out.append(join_with_default(search.as_slice(), config.backend.as_str()).as_str());
    out.append("\n  code        ");
    let code = available_code_backends();
    out.append(join_with_default(code.as_slice(), config.code_backend.as_str()).as_str());
    out.append("\n  docs        ");
    let docs = available_doc_backends();
    out.append(join_with_default(docs.as_slice(), config.docs_backend.as_str()).as_str());
    out.append("\n\nRun 'snarf <command> --help' for flags and examples.\n");
    out
}

/// What is written for the browser command alone.
pub fn browser_help() -> (r: &'static str)
    ensures
        r@
            == "Manage browser for JS-rendered page support\n\nUsage: snarf browser <COMMAND>\n\nCommands:\n  install  Download Chromium for headless rendering\n  status   Check browser configuration and availability\n\nRun 'snarf browser <command> --help' for flags and examples.\n"@,
{
    "Manage browser for JS-rendered page support\n\nUsage: snarf browser <COMMAND>\n\nCommands:\n  install  Download Chromium for headless rendering\n  status   Check browser configuration and availability\n\nRun 'snarf browser <command> --help' for flags and examples.\n"
}

/// Three columns, as one line.
pub open spec fn columns(a: Seq<char>, b: Seq<char>, c: Seq<char>) -> Seq<char> {
    a + "\t"@ + b + "\t"@ + c + "\n"@
}

/// Three columns, as one line.
pub fn column_line(a: &str, b: &str, c: &str) -> (r: String)
    ensures
        r@ == columns(a@, b@, c@),
{
    let mut out = a.to_owned();
    out.append("\t");
    out.append(b);
    out.append("\t");
    out.append(c);
    out.append("\n");
    out
}

/// A search result over several lines.
pub open spec fn search_item(result: SearchView) -> Seq<char> {
    let head = result.title + "\n  "@ + result.url + "\n"@;
    if result.description.len() > 0 {
        head + "  "@ + result.description + "\n"@ + "\n"@
    } else {
        head + "\n"@
    }
}

/// The search results from `i` on, behind `text`.
pub open spec fn search_from(
    results: Seq<SearchView>,
    minimal: bool,
    i: int,
    text: Seq<char>,
) -> Seq<char>
    decreases results.len() - i,
{
    if i < 0 || i >= results.len() {
        text
    } else if minimal {
        search_from(
            results,
            minimal,
            i + 1,
            text + columns(results[i].url, results[i].title, results[i].description),
        )
    } else {
        search_from(results, minimal, i + 1, text + search_item(results[i]))
    }
}

/// What stands before search results.
pub open spec fn search_head(query: Seq<char>, backend: Seq<char>, count: int) -> Seq<char> {
    "---\nquery: "@ + query + "\nbackend: "@ + backend + "\nresult_count: "@ + decimal(count)
        + "\n---\n"@
}

/// Search results as text: one line for each where `minimal` is set.
pub fn render_search(query: &str, backend: &str, results: &Vec<SearchResult>, minimal: bool) -> (r:
    String)
    ensures
        r@ == search_from(
            results_of(results@),
            minimal,
            0,
            if minimal {
                seq![]
            } else {
                search_head(query@, backend@, results@.len() as int)
            },
        ),
{
    let ghost view = results_of(results@);
    let mut out = String::new();
    if !minimal {
        out = "---\nquery: ".to_owned();
        out.append(query);
        out.append("\nbackend: ");
        out.append(backend);
        out.append("\nresult_count: ");
        out.append(show_size(results.len()).as_str());
        out.append("\n---\n");
    }
    let ghost start = out@;
    let mut i: usize = 0;
    while i < results.len()
        invariant
            view == results_of(results@),
            i <= results@.len(),
            search_from(view, minimal, 0, start) == search_from(view, minimal, i as int, out@),
        decreases results@.len() - i,
    {
        let result = &results[i];
        assert(view[i as int] == result@);
        if minimal {
            out.append(
                column_line(
                    result.url.as_str(),
                    result.title.as_str(),
                    result.description.as_str(),
                ).as_str(),
            );
        } else {
            let mut item = result.title.clone();
            item.append("\n  ");
            item.append(result.url.as_str());
            item.append("\n");
            if char_count(result.description.as_str()) > 0 {
                item.append("  ");
                item.append(result.description.as_str());
                item.append("\n");
            }
            item.append("\n");
            out.append(item.as_str());
        }
        i += 1;
    }
    out
}

/// The first line of a code search result.
pub open spec fn code_head(result: CodeView) -> Seq<char> {
    let place = result.repo + "  "@ + result.path;
    let line = if result.line > 0 {
        place + "  (line "@ + decimal(result.line as int) + ")"@
    } else {
        place
    };
    if result.stars > 0 {
        line + "  \u{2605} "@ + decimal(result.stars as int)
    } else {
        line
    }
}

/// The first line of a code search result: where it is, and how many stars its
/// repository has.
pub fn code_result_header(result: &CodeResult) -> (r: String)
    ensures
        r@ == code_head(result@),
{
    let mut header = result.repo.clone();
    header.append("  ");
    header.append(result.path.as_str());
    if result.line > 0 {
        header.append("  (line ");
        header.append(show_size(result.line).as_str());
        header.append(")");
    }
    if result.stars > 0 {
        header.append("  \u{2605} ");
        header.append(show_size(result.stars).as_str());
    }
    header
}

/// A code search result over several lines.
pub open spec fn code_item(result: CodeView) -> Seq<char> {
    let head = code_head(result) + "\n"@;
    if result.snippet.len() > 0 {
        head + "  "@ + result.snippet + "\n"@ + "  "@ + result.url + "\n\n"@
    } else {
        head + "  "@ + result.url + "\n\n"@
    }
}

/// The code search results from `i` on, behind `text`.
pub open spec fn code_from(
    results: Seq<CodeView>,
    minimal: bool,
    i: int,
    text: Seq<char>,
) -> Seq<char>
    decreases results.len() - i,
{
    if i < 0 || i >= results.len() {
        text
    } else if minimal {
        code_from(
            results,
            minimal,
            i + 1,
            text + columns(results[i].url, results[i].repo, first_line_of(results[i].snippet)),
        )
    } else {
        code_from(results, minimal, i + 1, text + code_item(results[i]))
    }
}

/// What stands before code search results.
pub open spec fn code_preamble(
    query: Seq<char>,
    lang: Seq<char>,
    backend: Seq<char>,
    count: int,
) -> Seq<char> {
    let asked = "---\nquery: "@ + query + "\n"@;
    let asked = if lang.len() > 0 {
        asked + "lang: "@ + lang + "\n"@
    } else {
        asked
    };
    asked + "backend: "@ + backend + "\nresult_count: "@ + decimal(count) + "\n---\n"@
}

/// Code search results as text: one line for each where `minimal` is set.
pub fn render_code(
    query: &str,
    lang: &str,
    backend: &str,
    results: &Vec<CodeResult>,
    minimal: bool,
) -> (r: String)
    ensures
        r@ == code_from(
            codes_of(results@),
            minimal,
            0,
            if minimal {
                seq![]
            } else {
                code_preamble(query@, lang@, backend@, results@.len() as int)
            },
        ),
{
    let ghost view = codes_of(results@);
    let mut out = String::new();
    if !minimal {
        out = "---\nquery: ".to_owned();
        out.append(query);
        out.append("\n");
        if char_count(lang) > 0 {
            out.append("lang: ");
            out.append(lang);
            out.append("\n");
        }
        out.append("backend: ");
        out.append(backend);
        out.append("\nresult_count: ");
        out.append(show_size(results.len()).as_str());
        out.append("\n---\n");
    }
    let ghost start = out@;
    let mut i: usize = 0;
    while i < results.len()
        invariant
            view == codes_of(results@),
            i <= results@.len(),
            code_from(view, minimal, 0, start) == code_from(view, minimal, i as int, out@),
        decreases results@.len() - i,
    {
        let result = &results[i];
        assert(view[i as int] == result@);
        if minimal {
            out.append(
                column_line(
                    result.url.as_str(),
                    result.repo.as_str(),
                    first_line(result.snippet.as_str()).as_str(),
                ).as_str(),
            );
        } else {
            let mut item = code_result_header(result);
            item.append("\n");
            if char_count(result.snippet.as_str()) > 0 {
                item.append("  ");
                item.append(result.snippet.as_str());
                item.append("\n");
            }
            item.append("  ");
            item.append(result.url.as_str());
            item.append("\n\n");
            out.append(item.as_str());
        }
        i += 1;
    }
    out
}

/// A documentation result over several lines.
pub open spec fn docs_item(result: DocsView) -> Seq<char> {
    "["@ + (if result.breadcrumb.len() == 0 {
        result.title
    } else {
        result.breadcrumb
    }) + "]\n  "@ + result.snippet + "\n  source: "@ + result.url + "\n\n"@
}

/// The documentation results from `i` on, behind `text`.
pub open spec fn docs_from(
    results: Seq<DocsView>,
    minimal: bool,
    i: int,
    text: Seq<char>,
) -> Seq<char>
    decreases results.len() - i,
{
    if i < 0 || i >= results.len() {
        text
    } else if minimal {
        docs_from(
            results,
            minimal,
            i + 1,
            text + columns(results[i].url, results[i].library, first_line_of(results[i].snippet)),
        )
    } else {
        docs_from(results, minimal, i + 1, text + docs_item(results[i]))
    }
}

/// The library that results are from: the one that was asked for, or else that of the
/// first result.
pub open spec fn library_of(library: Seq<char>, results: Seq<DocsView>) -> Seq<char> {
    if library.len() > 0 || results.len() == 0 {
        library
    } else {
        results[0].library
    }
}

/// What stands before documentation results.
pub open spec fn docs_preamble(
    query: Seq<char>,
    backend: Seq<char>,
    library: Seq<char>,
    count: int,
) -> Seq<char> {
    let asked = "---\nquery: "@ + query + "\nbackend: "@ + backend + "\n"@;
    let asked = if library.len() > 0 {
        asked + "library: "@ + library + "\n"@
    } else {
        asked
    };
    asked + "result_count: "@ + decimal(count) + "\n---\n"@
}

/// Documentation results as text: one line for each where `minimal` is set.
pub fn render_docs(
    query: &str,
    backend: &str,
    library: &str,
    results: &Vec<DocsResult>,
    minimal: bool,
) -> (r: String)
    ensures
        r@ == docs_from(
            docs_of(results@),
            minimal,
            0,
            if minimal {
                seq![]
            } else {
                docs_preamble(
                    query@,
                    backend@,
                    library_of(library@, docs_of(results@)),
                    results@.len() as int,
                )
            },
        ),
{
    let ghost view = docs_of(results@);
    let mut out = String::new();
    if !minimal {
        out = "---\nquery: ".to_owned();
        out.append(query);
        out.append("\nbackend: ");
        out.append(backend);
        out.append("\n");
        let from = if char_count(library) > 0 || results.len() == 0 {
            library.to_owned()
        } else {
            results[0].library.clone()
        };
        if char_count(from.as_str()) > 0 {
            out.append("library: ");
            out.append(from.as_str());
            out.append("\n");
        }
        out.append("result_count: ");
        out.append(show_size(results.len()).as_str());
        out.append("\n---\n");
    }
    let ghost start = out@;
    let mut i: usize = 0;
    while i < results.len()
        invariant
            view == docs_of(results@),
            i <= results@.len(),
            docs_from(view, minimal, 0, start) == docs_from(view, minimal, i as int, out@),
        decreases results@.len() - i,
    {
        let result = &results[i];
        assert(view[i as int] == result@);
        if minimal {
            out.append(
                column_line(
                    result.url.as_str(),
                    result.library.as_str(),
                    first_line(result.snippet.as_str()).as_str(),
                ).as_str(),
            );
        } else {
            let mut item = "[".to_owned();
            if char_count(result.breadcrumb.as_str()) == 0 {
                item.append(result.title.as_str());
            } else {
                item.append(result.breadcrumb.as_str());
            }
            item.append("]\n  ");
            item.append(result.snippet.as_str());
            item.append("\n  source: ");
            item.append(result.url.as_str());
            item.append("\n\n");
            out.append(item.as_str());
        }
        i += 1;
    }
    out
}

/// How many words a text has.
pub fn word_count(text: &str) -> (r: usize)
    ensures
        r == words_of(text@).len(),
{
    let all = words(text);
    assert(texts(all@).len() == all@.len());
    all.len()
}

/// What stands before the content of a page, but for its end.
pub open spec fn page_head(page: PageView) -> Seq<char> {
    let head = "---\nurl: "@ + page.url + "\n"@;
    let head = if page.fetched_url.len() > 0 {
        head + "fetched_url: "@ + page.fetched_url + "\n"@
    } else {
        head
    };
    head + "title: "@ + page.title + "\nwords: "@ + decimal(words_of(page.markdown).len() as int)
        + "\n"@
}

fn head_of(page: &Page) -> (r: String)
    ensures
        r@ == page_head(page@),
{
    let mut out = "---\nurl: ".to_owned();
    out.append(page.url.as_str());
    out.append("\n");
    if char_count(page.fetched_url.as_str()) > 0 {
        out.append("fetched_url: ");
        out.append(page.fetched_url.as_str());
        out.append("\n");
    }
    out.append("title: ");
    out.append(page.title.as_str());
    out.append("\nwords: ");
    out.append(show_size(word_count(page.markdown.as_str())).as_str());
    out.append("\n");
    out
}

/// A page as text.
pub open spec fn page_text(page: PageView) -> Seq<char> {
    page_head(page) + "---\n"@ + page.markdown + "\n"@
}

/// A page as text.
pub fn render_page(page: &Page) -> (r: String)
    ensures
        r@ == page_text(page@),
{
    let mut out = head_of(page);
    out.append("---\n");
    out.append(page.markdown.as_str());
    out.append("\n");
    out
}

/// The pages from `i` on, a blank line between two, behind `text`.
pub open spec fn pages_text_from(pages: Seq<PageView>, i: int, text: Seq<char>) -> Seq<char>
    decreases pages.len() - i,
{
    if i < 0 || i >= pages.len() {
        text
    } else if i == 0 {
        pages_text_from(pages, 1, text + page_text(pages[0]))
    } else {
        pages_text_from(pages, i + 1, text + "\n"@ + page_text(pages[i]))
    }
}

/// Pages as text, a blank line between two.
pub fn render_pages(pages: &Vec<Page>) -> (r: String)
    ensures
        r@ == pages_text_from(pages_of(pages@), 0, seq![]),
{
    let ghost view = pages_of(pages@);
    let mut out = String::new();
    let mut i: usize = 0;
    while i < pages.len()
        invariant
            view == pages_of(pages@),
            i <= pages@.len(),
            pages_text_from(view, 0, seq![]) == pages_text_from(view, i as int, out@),
        decreases pages@.len() - i,
    {
        assert(view[i as int] == pages@[i as int]@);
        if i > 0 {
            out.append("\n");
        }
        out.append(render_page(&pages[i]).as_str());
        i += 1;
    }
    out
}

/// A page of a search as one line.
pub fn render_page_line(url: &str, page: &Page) -> (r: String)
    ensures
        r@ == columns(url@, page@.title, first_line_of(page@.markdown)),
{
    column_line(url, page.title.as_str(), first_line(page.markdown.as_str()).as_str())
}

/// A page of a crawl as text.
pub fn render_crawl_page(result: &CrawlResult, page: &Page) -> (r: String)
    ensures
        r@ == page_head(page@) + "status: "@ + result@.status + "\nsource: "@ + result@.source
            + "\n---\n"@ + page@.markdown + "\n"@,
{
    let mut out = head_of(page);
    out.append("status: ");
    out.append(result.status.as_str());
    out.append("\nsource: ");
    out.append(result.source.as_str());
    out.append("\n---\n");
    out.append(page.markdown.as_str());
    out.append("\n");
    out
}

/// What is written where a page of a crawl could not be had.
pub fn render_crawl_warning(result: &CrawlResult) -> (r: String)
    ensures
        r@ == "warn: "@ + result@.url + ": "@ + result@.error,
{
    let mut out = "warn: ".to_owned();
    out.append(result.url.as_str());
    out.append(": ");
    out.append(result.error.as_str());
    out
}

/// The summary of a crawl.
pub open spec fn summary(seed: Seq<char>, counts: Counts, seconds: Seq<char>) -> Seq<char> {
    "\n---\nseed: "@ + seed + "\npages: "@ + decimal(counts.pages - counts.errors) + "\nnew: "@
        + decimal(counts.new) + "\nchanged: "@ + decimal(counts.changed) + "\nunchanged: "@
        + decimal(counts.unchanged) + "\nerrors: "@ + decimal(counts.errors) + "\nduration: "@
        + seconds + "s\n---\n"@
}

/// The summary of a crawl of `seed` that took `seconds`.
pub fn render_crawl_summary(seed: &str, tally: &Tally, seconds: &str) -> (r: String)
    requires
        tally@.valid(),
    ensures
        r@ == summary(seed@, tally@, seconds@),
{
    let mut out = "\n---\nseed: ".to_owned();
    out.append(seed);
    out.append("\npages: ");
    out.append(show_size(tally.pages()).as_str());
    out.append("\nnew: ");
    out.append(show_size(tally.new).as_str());
    out.append("\nchanged: ");
    out.append(show_size(tally.changed).as_str());
    out.append("\nunchanged: ");
    out.append(show_size(tally.unchanged).as_str());
    out.append("\nerrors: ");
    out.append(show_size(tally.errors).as_str());
    out.append("\nduration: ");
    out.append(seconds);
    out.append("s\n---\n");
    out
}

/// A point in time as text.
pub open spec fn time_text(time: Timestamp) -> Seq<char> {
    or_empty(rfc3339_of(time.secs as int, time.nanos as int))
}

/// A point in time as text, empty where there is no date for it.
pub fn render_time(time: &Timestamp) -> (r: String)
    ensures
        r@ == time_text(*time),
{
    match rfc3339(time.secs, time.nanos) {
        Some(text) => text,
        None => String::new(),
    }
}

/// The state of a crawl as text.
pub open spec fn crawl_text(crawl: CrawlView) -> Seq<char> {
    let text = "---\nid: "@ + crawl.id + "\nseed: "@ + crawl.seed + "\nstatus: "@ + crawl.status
        + "\npages: "@ + decimal(crawl.counts.pages) + "\nnew: "@ + decimal(crawl.counts.new)
        + "\nchanged: "@ + decimal(crawl.counts.changed) + "\nunchanged: "@ + decimal(
        crawl.counts.unchanged,
    ) + "\nerrors: "@ + decimal(crawl.counts.errors) + "\nstarted_at: "@ + time_text(
        crawl.started_at,
    ) + "\nupdated_at: "@ + time_text(crawl.updated_at) + "\n"@;
    if crawl.error.len() > 0 {
        text + "error: "@ + crawl.error + "\n"@ + "---\n"@
    } else {
        text + "---\n"@
    }
}

/// The state of a crawl as text.
pub fn render_status(status: &CrawlStatus) -> (r: String)
    ensures
        r@ == crawl_text(status@),
{
    let mut out = "---\nid: ".to_owned();
    out.append(status.id.as_str());
    out.append("\nseed: ");
    out.append(status.seed.as_str());
    out.append("\nstatus: ");
    out.append(status.status.as_str());
    out.append("\npages: ");
    out.append(show_size(status.pages).as_str());
    out.append("\nnew: ");
    out.append(show_size(status.new).as_str());
    out.append("\nchanged: ");
    out.append(show_size(status.changed).as_str());
    out.append("\nunchanged: ");
    out.append(show_size(status.unchanged).as_str());
    out.append("\nerrors: ");
    out.append(show_size(status.errors).as_str());
    out.append("\nstarted_at: ");
    out.append(render_time(&status.started_at).as_str());
    out.append("\nupdated_at: ");
    out.append(render_time(&status.updated_at).as_str());
    out.append("\n");
    if char_count(status.error.as_str()) > 0 {
        out.append("error: ");
        out.append(status.error.as_str());
        out.append("\n");
    }
    out.append("---\n");
    out
}

/// The state of a crawl as one line.
pub open spec fn crawl_line(crawl: CrawlView) -> Seq<char> {
    crawl.id + "  "@ + padded(crawl.status, 9) + "  "@ + padded(crawl.seed, 40) + "  pages="@
        + padded(decimal(crawl.counts.pages), 5) + "  "@ + time_text(crawl.updated_at) + "\n"@
}

/// The states of the crawls from `i` on, one line for each, behind `text`.
pub open spec fn crawl_lines_from(crawls: Seq<CrawlView>, i: int, text: Seq<char>) -> Seq<char>
    decreases crawls.len() - i,
{
    if i < 0 || i >= crawls.len() {
        text
    } else {
        crawl_lines_from(crawls, i + 1, text + crawl_line(crawls[i]))
    }
}

/// The states of crawls, one line for each.
pub fn render_status_list(statuses: &Vec<CrawlStatus>) -> (r: String)
    ensures
        r@ == crawl_lines_from(crawls_of(statuses@), 0, seq![]),
{
    let ghost view = crawls_of(statuses@);
    let mut out = String::new();
    let mut i: usize = 0;
    while i < statuses.len()
        invariant
            view == crawls_of(statuses@),
            i <= statuses@.len(),
            crawl_lines_from(view, 0, seq![]) == crawl_lines_from(view, i as int, out@),
        decreases statuses@.len() - i,
    {
        let status = &statuses[i];
        assert(view[i as int] == status@);
        let mut line = status.id.clone();
        line.append("  ");
        line.append(pad_right(status.status.as_str(), 9).as_str());
        line.append("  ");
        line.append(pad_right(status.seed.as_str(), 40).as_str());
        line.append("  pages=");
        line.append(pad_right(show_size(status.pages).as_str(), 5).as_str());
        line.append("  ");
        line.append(render_time(&status.updated_at).as_str());
        line.append("\n");
        out.append(line.as_str());
        i += 1;
    }
    out
}

/// What is known of the browser.
#[derive(Debug)]
pub enum BrowserReport {
    /// None is configured.
    Disabled,
    /// The configured one is at a path.
    Found(String, String),
    /// The configured one was not found, and why.
    Missing(String, String),
}

/// What is known of the browser `config`, where `resolved` is what the search for it
/// gave.
pub fn browser_report(config: &str, resolved: Result<String, String>) -> (r: BrowserReport)
    ensures
        config@.len() == 0 ==> r is Disabled,
        config@.len() > 0 ==> match resolved {
            Ok(path) => r matches BrowserReport::Found(name, found) && name@ == config@ && found@
                == path@,
            Err(error) => r matches BrowserReport::Missing(name, why) && name@ == config@ && why@
                == error@,
        },
{
    if char_count(config) == 0 {
        return BrowserReport::Disabled;
    }
    match resolved {
        Ok(path) => BrowserReport::Found(config.to_owned(), path),
        Err(error) => BrowserReport::Missing(config.to_owned(), error),
    }
}

impl BrowserReport {
    /// The report as text.
    pub fn text(&self) -> (r: String)
        ensures
            r@ == (match self {
                BrowserReport::Disabled => "browser_config: (not set)\nstatus: disabled\n"@,
                BrowserReport::Found(config, path) => "browser_config: "@ + config@
                    + "\nbrowser_path: "@ + path@ + "\nstatus: ok\n"@,
                BrowserReport::Missing(config, error) => "browser_config: "@ + config@
                    + "\nstatus: error ("@ + error@ + ")\n"@,
            }),
    {
        match self {
            BrowserReport::Disabled => {
                "browser_config: (not set)\nstatus: disabled\n".to_owned()
            },
            BrowserReport::Found(config, path) => {
                let mut out = "browser_config: ".to_owned();
                out.append(config.as_str());
                out.append("\nbrowser_path: ");
                out.append(path.as_str());
                out.append("\nstatus: ok\n");
                out
            },
            BrowserReport::Missing(config, error) => {
                let mut out = "browser_config: ".to_owned();
                out.append(config.as_str());
                out.append("\nstatus: error (");
                out.append(error.as_str());
                out.append(")\n");
                out
            },
        }
    }

    /// The report as the fields of a record.
    pub fn fields(&self) -> (r: Vec<(String, String)>)
        ensures
            crate::web::pairs_of(r@) == (match self {
                BrowserReport::Disabled => seq![
                    ("browser_config"@, Seq::<char>::empty()),
                    ("status"@, "disabled"@),
                ],
                BrowserReport::Found(config, path) => seq![
                    ("browser_config"@, config@),
                    ("browser_path"@, path@),
                    ("status"@, "ok"@),
                ],
                BrowserReport::Missing(config, error) => seq![
                    ("browser_config"@, config@),
                    ("status"@, "error"@),
                    ("error"@, error@),
                ],
            }),
    {
        let mut fields: Vec<(String, String)> = Vec::new();
        match self {
            BrowserReport::Disabled => {
                fields.push(("browser_config".to_owned(), String::new()));
                fields.push(("status".to_owned(), "disabled".to_owned()));
                assert(crate::web::pairs_of(fields@) =~= seq![
                    ("browser_config"@, Seq::<char>::empty()),
                    ("status"@, "disabled"@),
                ]);
            },
            BrowserReport::Found(config, path) => {
                fields.push(("browser_config".to_owned(), config.clone()));
                fields.push(("browser_path".to_owned(), path.clone()));
                fields.push(("status".to_owned(), "ok".to_owned()));
                assert(crate::web::pairs_of(fields@) =~= seq![
                    ("browser_config"@, config@),
                    ("browser_path"@, path@),
                    ("status"@, "ok"@),
                ]);
            },
            BrowserReport::Missing(config, error) => {
                fields.push(("browser_config".to_owned(), config.clone()));
                fields.push(("status".to_owned(), "error".to_owned()));
                fields.push(("error".to_owned(), error.clone()));
                assert(crate::web::pairs_of(fields@) =~= seq![
                    ("browser_config"@, config@),
                    ("status"@, "error"@),
                    ("error"@, error@),
                ]);
            },
        }
        fields
    }
}

/// The state of the cache as text.
pub fn render_cache(path: &str, entries: usize, size: &str, ttl: &str) -> (r: String)
    ensures
        r@ == "---\npath: "@ + path@ + "\nentries: "@ + decimal(entries as int) + "\nsize: "@
            + size@ + "\nttl: "@ + ttl@ + "\n---\n"@,
{
    let mut out = "---\npath: ".to_owned();
    out.append(path);
    out.append("\nentries: ");
    out.append(show_size(entries).as_str());
    out.append("\nsize: ");
    out.append(size);
    out.append("\nttl: ");
    out.append(ttl);
    out.append("\n---\n");
    out
}

/// How the program was built.
#[derive(Debug)]
pub struct Build {
    pub version: String,
    pub commit: String,
    pub date: String,
    pub rust: String,
    pub os: String,
    pub arch: String,
}

/// What is known of the program and of a newer release.
pub open spec fn version_page(build: Build, update: StatusView) -> Seq<char> {
    let text = "snarf "@ + build.version@ + "\n"@;
    let text = if build.commit@.len() > 0 {
        text + "  commit: "@ + build.commit@ + "\n"@
    } else {
        text
    };
    let text = if build.date@.len() > 0 {
        text + "  built:  "@ + build.date@ + "\n"@
    } else {
        text
    };
    let text = text + "  rust:   "@ + build.rust@ + " "@ + build.os@ + "/"@ + build.arch@ + "\n"@;
    if update.available {
        let text = text + "\nUpdate available: "@ + update.latest_version + "\n"@;
        if update.command.len() > 0 {
            text + "  command: "@ + update.command + "\n"@
        } else if update.release_url.len() > 0 {
            text + "  command: "@ + update.release_url + "\n"@
        } else {
            text
        }
    } else {
        text
    }
}

/// What is known of the program and of a newer release, as text.
pub fn render_version(build: &Build, update: &UpdateStatus) -> (r: String)
    ensures
        r@ == version_page(*build, update@),
{
    let mut out = "snarf ".to_owned();
    out.append(build.version.as_str());
    out.append("\n");
    if char_count(build.commit.as_str()) > 0 {
        out.append("  commit: ");
        out.append(build.commit.as_str());
        out.append("\n");
    }
    if char_count(build.date.as_str()) > 0 {
        out.append("  built:  ");
        out.append(build.date.as_str());
        out.append("\n");
    }
    out.append("  rust:   ");
    out.append(build.rust.as_str());
    out.append(" ");
    out.append(build.os.as_str());
    out.append("/");
    out.append(build.arch.as_str());
    out.append("\n");
    if update.available {
        out.append("\nUpdate available: ");
        out.append(update.latest_version.as_str());
        out.append("\n");
        if char_count(update.command.as_str()) > 0 {
            out.append("  command: ");
            out.append(update.command.as_str());
            out.append("\n");
        } else if char_count(update.release_url.as_str()) > 0 {
            out.append("  command: ");
            out.append(update.release_url.as_str());
            out.append("\n");
        }
    }
    out
}

proof fn lemma_search_from(
    results: Seq<SearchView>,
    result: SearchView,
    minimal: bool,
    i: int,
    text: Seq<char>,
)
    requires
        0 <= i <= results.len(),
    ensures
        search_from(results.push(result), minimal, i, text) == search_from(
            results,
            minimal,
            i,
            text,
        ) + (if minimal {
            columns(result.url, result.title, result.description)
        } else {
            search_item(result)
        }),
    decreases results.len() - i,
{
    reveal_with_fuel(search_from, 2);
    let more = results.push(result);
    if i < results.len() {
        assert(more[i] == results[i]);
        lemma_search_from(
            results,
            result,
            minimal,
            i + 1,
            text + (if minimal {
                columns(results[i].url, results[i].title, results[i].description)
            } else {
                search_item(results[i])
            }),
        );
    } else {
        assert(more[i] == result);
    }
}

/// Every search result is written, in their order: on one line its URL, its title and its
/// description with tabs between them, or over several lines its title, its URL and its
/// description, if it has one.
pub proof fn law_every_search_result_is_written(
    results: Seq<SearchView>,
    result: SearchView,
    text: Seq<char>,
)
    ensures
        search_from(seq![], true, 0, text) == text,
        search_from(seq![], false, 0, text) == text,
        search_from(results.push(result), true, 0, text) == search_from(results, true, 0, text) + (
        result.url + "\t"@ + result.title + "\t"@ + result.description + "\n"@),
        result.description.len() > 0 ==> search_from(results.push(result), false, 0, text)
            == search_from(results, false, 0, text) + (result.title + "\n  "@ + result.url + "\n"@
            + "  "@ + result.description + "\n"@ + "\n"@),
        result.description.len() == 0 ==> search_from(results.push(result), false, 0, text)
            == search_from(results, false, 0, text) + (result.title + "\n  "@ + result.url + "\n"@
            + "\n"@),
{
    lemma_search_from(results, result, true, 0, text);
    lemma_search_from(results, result, false, 0, text);
}

/// Before the search results stand the query, the service and the number of results.
pub proof fn law_what_stands_before_search_results(
    query: Seq<char>,
    backend: Seq<char>,
    count: int,
)
    ensures
        search_head(query, backend, count) == "---\nquery: "@ + query + "\nbackend: "@ + backend
            + "\nresult_count: "@ + decimal(count) + "\n---\n"@,
{
}

proof fn lemma_code_from(
    results: Seq<CodeView>,
    result: CodeView,
    minimal: bool,
    i: int,
    text: Seq<char>,
)
    requires
        0 <= i <= results.len(),
    ensures
        code_from(results.push(result), minimal, i, text) == code_from(results, minimal, i, text)
            + (if minimal {
            columns(result.url, result.repo, first_line_of(result.snippet))
        } else {
            code_item(result)
        }),
    decreases results.len() - i,
{
    reveal_with_fuel(code_from, 2);
    let more = results.push(result);
    if i < results.len() {
        assert(more[i] == results[i]);
        lemma_code_from(
            results,
            result,
            minimal,
            i + 1,
            text + (if minimal {
                columns(results[i].url, results[i].repo, first_line_of(results[i].snippet))
            } else {
                code_item(results[i])
            }),
        );
    } else {
        assert(more[i] == result);
    }
}

/// Every code search result is written, in their order: on one line its URL, its repository
/// and the first line of its snippet with tabs between them, or over several lines its
/// header, its snippet, if it has one, and its URL.
pub proof fn law_every_code_result_is_written(
    results: Seq<CodeView>,
    result: CodeView,
    text: Seq<char>,
)
    ensures
        code_from(seq![], true, 0, text) == text,
        code_from(seq![], false, 0, text) == text,
        code_from(results.push(result), true, 0, text) == code_from(results, true, 0, text) + (
        result.url + "\t"@ + result.repo + "\t"@ + first_line_of(result.snippet) + "\n"@),
        result.snippet.len() > 0 ==> code_from(results.push(result), false, 0, text) == code_from(
            results,
            false,
            0,
            text,
        ) + (code_head(result) + "\n"@ + "  "@ + result.snippet + "\n"@ + "  "@ + result.url
            + "\n\n"@),
        result.snippet.len() == 0 ==> code_from(results.push(result), false, 0, text) == code_from(
            results,
            false,
            0,
            text,
        ) + (code_head(result) + "\n"@ + "  "@ + result.url + "\n\n"@),
{
    lemma_code_from(results, result, true, 0, text);
    lemma_code_from(results, result, false, 0, text);
}

/// The header of a code search result has its repository and its path, its line where that is
/// known, and the stars of the repository where there are any.
pub proof fn law_the_header_of_a_code_result(result: CodeView)
    ensures
        result.line == 0 && result.stars == 0 ==> code_head(result) == result.repo + "  "@
            + result.path,
        result.line > 0 && result.stars == 0 ==> code_head(result) == result.repo + "  "@
            + result.path + "  (line "@ + decimal(result.line as int) + ")"@,
        result.line == 0 && result.stars > 0 ==> code_head(result) == result.repo + "  "@
            + result.path + "  \u{2605} "@ + decimal(result.stars as int),
        result.line > 0 && result.stars > 0 ==> code_head(result) == result.repo + "  "@
            + result.path + "  (line "@ + decimal(result.line as int) + ")"@ + "  \u{2605} "@
            + decimal(result.stars as int),
{
}

/// Before the code search results stand the query, the language where one was asked for, the
/// service and the number of results.
pub proof fn law_what_stands_before_code_results(
    query: Seq<char>,
    lang: Seq<char>,
    backend: Seq<char>,
    count: int,
)
    ensures
        lang.len() == 0 ==> code_preamble(query, lang, backend, count) == "---\nquery: "@ + query
            + "\n"@ + "backend: "@ + backend + "\nresult_count: "@ + decimal(count) + "\n---\n"@,
        lang.len() > 0 ==> code_preamble(query, lang, backend, count) == "---\nquery: "@ + query
            + "\n"@ + "lang: "@ + lang + "\n"@ + "backend: "@ + backend + "\nresult_count: "@
            + decimal(count) + "\n---\n"@,
{
}

proof fn lemma_docs_from(
    results: Seq<DocsView>,
    result: DocsView,
    minimal: bool,
    i: int,
    text: Seq<char>,
)
    requires
        0 <= i <= results.len(),
    ensures
        docs_from(results.push(result), minimal, i, text) == docs_from(results, minimal, i, text)
            + (if minimal {
            columns(result.url, result.library, first_line_of(result.snippet))
        } else {
            docs_item(result)
        }),
    decreases results.len() - i,
{
    reveal_with_fuel(docs_from, 2);
    let more = results.push(result);
    if i < results.len() {
        assert(more[i] == results[i]);
        lemma_docs_from(
            results,
            result,
            minimal,
            i + 1,
            text + (if minimal {
                columns(results[i].url, results[i].library, first_line_of(results[i].snippet))
            } else {
                docs_item(results[i])
            }),
        );
    } else {
        assert(more[i] == result);
    }
}

/// Every documentation result is written, in their order: on one line its URL, its library and
/// the first line of its snippet with tabs between them, or over several lines where it
/// stands, or else its title, its snippet and its URL.
pub proof fn law_every_docs_result_is_written(
    results: Seq<DocsView>,
    result: DocsView,
    text: Seq<char>,
)
    ensures
        docs_from(seq![], true, 0, text) == text,
        docs_from(seq![], false, 0, text) == text,
        docs_from(results.push(result), true, 0, text) == docs_from(results, true, 0, text) + (
        result.url + "\t"@ + result.library + "\t"@ + first_line_of(result.snippet) + "\n"@),
        result.breadcrumb.len() > 0 ==> docs_from(results.push(result), false, 0, text)
            == docs_from(results, false, 0, text) + ("["@ + result.breadcrumb + "]\n  "@
            + result.snippet + "\n  source: "@ + result.url + "\n\n"@),
        result.breadcrumb.len() == 0 ==> docs_from(results.push(result), false, 0, text)
            == docs_from(results, false, 0, text) + ("["@ + result.title + "]\n  "@
            + result.snippet + "\n  source: "@ + result.url + "\n\n"@),
{
    lemma_docs_from(results, result, true, 0, text);
    lemma_docs_from(results, result, false, 0, text);
}

/// Before the documentation results stand the query, the service, the library where one is
/// known, and the number of results. The library is the one that was asked for, or else that
/// of the first result.
pub proof fn law_what_stands_before_docs_results(
    query: Seq<char>,
    backend: Seq<char>,
    library: Seq<char>,
    results: Seq<DocsView>,
    count: int,
)
    ensures
        library.len() > 0 ==> docs_preamble(query, backend, library, count) == "---\nquery: "@
            + query + "\nbackend: "@ + backend + "\n"@ + "library: "@ + library + "\n"@
            + "result_count: "@ + decimal(count) + "\n---\n"@,
        library.len() == 0 ==> docs_preamble(query, backend, library, count) == "---\nquery: "@
            + query + "\nbackend: "@ + backend + "\n"@ + "result_count: "@ + decimal(count)
            + "\n---\n"@,
        library.len() > 0 ==> library_of(library, results) == library,
        library.len() == 0 && results.len() > 0 ==> library_of(library, results)
            == results[0].library,
        library.len() == 0 && results.len() == 0 ==> library_of(library, results).len() == 0,
{
}

/// A page is written with its URL, where it was fetched if that is elsewhere, its title, the
/// number of its words and all of its content.
pub proof fn law_how_a_page_is_written(page: PageView)
    ensures
        page.fetched_url.len() == 0 ==> page_text(page) == "---\nurl: "@ + page.url + "\n"@
            + "title: "@ + page.title + "\nwords: "@ + decimal(words_of(page.markdown).len() as int)
            + "\n"@ + "---\n"@ + page.markdown + "\n"@,
        page.fetched_url.len() > 0 ==> page_text(page) == "---\nurl: "@ + page.url + "\n"@
            + "fetched_url: "@ + page.fetched_url + "\n"@ + "title: "@ + page.title + "\nwords: "@
            + decimal(words_of(page.markdown).len() as int) + "\n"@ + "---\n"@ + page.markdown
            + "\n"@,
        page_text(page) == page_head(page) + "---\n"@ + page.markdown + "\n"@,
{
}

proof fn lemma_pages_text(pages: Seq<PageView>, page: PageView, i: int, text: Seq<char>)
    requires
        0 <= i <= pages.len(),
    ensures
        pages_text_from(pages.push(page), i, text) == pages_text_from(pages, i, text) + (
        if pages.len() > 0 {
            "\n"@
        } else {
            seq![]
        }) + page_text(page),
    decreases pages.len() - i,
{
    reveal_with_fuel(pages_text_from, 3);
    let more = pages.push(page);
    if i < pages.len() {
        assert(more[i] == pages[i]);
        lemma_pages_text(
            pages,
            page,
            i + 1,
            if i == 0 {
                text + page_text(pages[0])
            } else {
                text + "\n"@ + page_text(pages[i])
            },
        );
    } else {
        assert(more[i] == page);
        assert(pages_text_from(more, i, text) =~= pages_text_from(pages, i, text) + (
        if pages.len() > 0 {
            "\n"@
        } else {
            seq![]
        }) + page_text(page));
    }
}

/// Every page is written, in their order, with a blank line between two.
pub proof fn law_every_page_is_written(pages: Seq<PageView>, page: PageView)
    ensures
        pages_text_from(seq![], 0, seq![]) == Seq::<char>::empty(),
        pages_text_from(seq![page], 0, seq![]) == page_text(page),
        pages.len() > 0 ==> pages_text_from(pages.push(page), 0, seq![]) == pages_text_from(
            pages,
            0,
            seq![],
        ) + "\n"@ + page_text(page),
{
    reveal_with_fuel(pages_text_from, 2);
    lemma_pages_text(pages, page, 0, seq![]);
    assert(Seq::<char>::empty() + page_text(page) =~= page_text(page));
}

/// The summary of a crawl has its seed, the pages without those that failed, the new, the
/// changed, the unchanged and the failed ones, and how long it took.
pub proof fn law_what_a_summary_tells(seed: Seq<char>, counts: Counts, seconds: Seq<char>)
    ensures
        summary(seed, counts, seconds) == "\n---\nseed: "@ + seed + "\npages: "@ + decimal(
            counts.pages - counts.errors,
        ) + "\nnew: "@ + decimal(counts.new) + "\nchanged: "@ + decimal(counts.changed)
            + "\nunchanged: "@ + decimal(counts.unchanged) + "\nerrors: "@ + decimal(counts.errors)
            + "\nduration: "@ + seconds + "s\n---\n"@,
{
}

/// The state of a crawl is written with its name, its seed, its status, its counts, when it
/// began and when it was updated, and its error where it has one.
pub proof fn law_what_a_state_tells(crawl: CrawlView, start: Seq<char>)
    requires
        start == "---\nid: "@ + crawl.id + "\nseed: "@ + crawl.seed + "\nstatus: "@ + crawl.status
            + "\npages: "@ + decimal(crawl.counts.pages) + "\nnew: "@ + decimal(crawl.counts.new)
            + "\nchanged: "@ + decimal(crawl.counts.changed) + "\nunchanged: "@ + decimal(
            crawl.counts.unchanged,
        ) + "\nerrors: "@ + decimal(crawl.counts.errors) + "\nstarted_at: "@ + time_text(
            crawl.started_at,
        ) + "\nupdated_at: "@ + time_text(crawl.updated_at) + "\n"@,
    ensures
        crawl.error.len() == 0 ==> crawl_text(crawl) == start + "---\n"@,
        crawl.error.len() > 0 ==> crawl_text(crawl) == start + "error: "@ + crawl.error + "\n"@
            + "---\n"@,
{
}

proof fn lemma_crawl_lines(crawls: Seq<CrawlView>, crawl: CrawlView, i: int, text: Seq<char>)
    requires
        0 <= i <= crawls.len(),
    ensures
        crawl_lines_from(crawls.push(crawl), i, text) == crawl_lines_from(crawls, i, text)
            + crawl_line(crawl),
    decreases crawls.len() - i,
{
    reveal_with_fuel(crawl_lines_from, 2);
    let more = crawls.push(crawl);
    if i < crawls.len() {
        assert(more[i] == crawls[i]);
        lemma_crawl_lines(crawls, crawl, i + 1, text + crawl_line(crawls[i]));
    } else {
        assert(more[i] == crawl);
    }
}

/// Every crawl has a line, in their order: its name, its status, its seed, its pages and when
/// it was updated.
pub proof fn law_every_crawl_has_a_line(crawls: Seq<CrawlView>, crawl: CrawlView)
    ensures
        crawl_lines_from(seq![], 0, seq![]) == Seq::<char>::empty(),
        crawl_lines_from(crawls.push(crawl), 0, seq![]) == crawl_lines_from(crawls, 0, seq![]) + (
        crawl.id + "  "@ + padded(crawl.status, 9) + "  "@ + padded(crawl.seed, 40) + "  pages="@
            + padded(decimal(crawl.counts.pages), 5) + "  "@ + time_text(crawl.updated_at) + "\n"@),
{
    lemma_crawl_lines(crawls, crawl, 0, seq![]);
}

/// A point in time is written in the notation of RFC 3339 where there is a date for it.
pub proof fn law_how_times_are_written(time: Timestamp, text: Seq<char>)
    ensures
        rfc3339_of(time.secs as int, time.nanos as int) == Some(text) ==> time_text(time) == text,
        rfc3339_of(time.secs as int, time.nanos as int) is None ==> time_text(time).len() == 0,
{
}

/// In a list of services the configured one is marked, and no other is.
pub proof fn law_the_configured_service_is_marked(
    names: Seq<Seq<char>>,
    name: Seq<char>,
    active: Seq<char>,
)
    ensures
        marked(active, active) == active + " (default)"@,
        name != active ==> marked(name, active) == name,
        named(seq![name], active) == marked(name, active),
        names.len() > 0 ==> named(names.push(name), active) == named(names, active) + ", "@
            + marked(name, active),
{
    let some = Seq::new(names.len(), |i: int| marked(names[i], active));
    let more = names.push(name);
    let all = Seq::new(more.len(), |i: int| marked(more[i], active));
    assert(all =~= some.push(marked(name, active)));
    assert(some.push(marked(name, active)).drop_last() =~= some);
    let one = Seq::new(seq![name].len(), |i: int| marked(seq![name][i], active));
    assert(one =~= seq![marked(name, active)]);
}

/// The page of the version tells of the build and, where a newer release is available, of its
/// version and how to get it: by its command, or else at its page.
pub proof fn law_what_the_version_page_tells(
    build: Build,
    update: StatusView,
    head: Seq<char>,
)
    requires
        head == "snarf "@ + build.version@ + "\n"@ + "  commit: "@ + build.commit@ + "\n"@
            + "  built:  "@ + build.date@ + "\n"@ + "  rust:   "@ + build.rust@ + " "@ + build.os@
            + "/"@ + build.arch@ + "\n"@,
        build.commit@.len() > 0,
        build.date@.len() > 0,
    ensures
        !update.available ==> version_page(build, update) == head,
        update.available && update.command.len() > 0 ==> version_page(build, update) == head
            + "\nUpdate available: "@ + update.latest_version + "\n"@ + "  command: "@
            + update.command + "\n"@,
        update.available && update.command.len() == 0 && update.release_url.len() > 0
            ==> version_page(build, update) == head + "\nUpdate available: "@
            + update.latest_version + "\n"@ + "  command: "@ + update.release_url + "\n"@,
        update.available && update.command.len() == 0 && update.release_url.len() == 0
            ==> version_page(build, update) == head + "\nUpdate available: "@
            + update.latest_version + "\n"@,
{
}

/// What is not known of the build is left out.
pub proof fn law_what_is_not_known_of_the_build(build: Build, update: StatusView, tail: Seq<char>)
    requires
        !update.available,
        tail == "  rust:   "@ + build.rust@ + " "@ + build.os@ + "/"@ + build.arch@ + "\n"@,
    ensures
        build.commit@.len() == 0 && build.date@.len() == 0 ==> version_page(build, update)
            == "snarf "@ + build.version@ + "\n"@ + tail,
        build.commit@.len() > 0 && build.date@.len() == 0 ==> version_page(build, update)
            == "snarf "@ + build.version@ + "\n"@ + "  commit: "@ + build.commit@ + "\n"@ + tail,
        build.commit@.len() == 0 && build.date@.len() > 0 ==> version_page(build, update)
            == "snarf "@ + build.version@ + "\n"@ + "  built:  "@ + build.date@ + "\n"@ + tail,
{
    let head = "snarf "@ + build.version@ + "\n"@;
    let rust = "  rust:   "@;
    let mid = if build.commit@.len() > 0 {
        head + "  commit: "@ + build.commit@ + "\n"@
    } else {
        head
    };
    let all = if build.date@.len() > 0 {
        mid + "  built:  "@ + build.date@ + "\n"@
    } else {
        mid
    };
    assert(version_page(build, update) =~= all + tail);
}

/// Where no command is given, all services are listed with the configured ones marked, behind
/// the commands.
pub proof fn law_what_is_written_without_a_command(config: ConfigView)
    ensures
        root_page(config)
            == "snarf - web search, code search, docs, and scrape in one binary.\n\nCommands:\n  search      Search the web and return results\n  code        Search code across open-source repositories\n  docs        Search library documentation\n  scrape      Scrape URLs and extract clean markdown\n  crawl       Crawl a site and extract pages\n  browser     Manage browser for JS-rendered page support\n  cache       Show cache stats\n  config      Show or manage configuration\n  version     Print snarf version information\n\nBackends:\n  search      "@
            + named(seq!["brave"@, "ddg"@, "searxng"@, "exa"@], config.backend)
            + "\n  code        "@ + named(
            seq!["grepapp"@, "sourcegraph"@, "github"@],
            config.code_backend,
        ) + "\n  docs        "@ + named(seq!["context7"@, "local"@], config.docs_backend)
            + "\n\nRun 'snarf <command> --help' for flags and examples.\n"@,
{
}

} // verus!
