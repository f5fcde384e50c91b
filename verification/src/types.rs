//! The records that the commands hand out.

use vstd::prelude::*;

verus! {

/// One result of a web search.
#[derive(Debug)]
pub struct SearchResult {
    pub title: String,
    pub url: String,
    /// Where the content was fetched, if not at `url`.
    pub fetched_url: String,
    pub description: String,
    pub content: String,
}

/// What a [`SearchResult`] holds.
#[verifier::ext_equal]
pub struct SearchView {
    pub title: Seq<char>,
    pub url: Seq<char>,
    pub fetched_url: Seq<char>,
    pub description: Seq<char>,
    pub content: Seq<char>,
}

impl View for SearchResult {
    type V = SearchView;

    open spec fn view(&self) -> SearchView {
        SearchView {
            title: self.title@,
            url: self.url@,
            fetched_url: self.fetched_url@,
            description: self.description@,
            content: self.content@,
        }
    }
}

impl SearchView {
    /// All texts empty, all numbers zero.
    pub open spec fn empty() -> SearchView {
        SearchView {
            title: seq![],
            url: seq![],
            fetched_url: seq![],
            description: seq![],
            content: seq![],
        }
    }
}

impl Default for SearchResult {
    fn default() -> (r: Self)
        ensures
            r@ == SearchView::empty(),
    {
        SearchResult {
            title: String::new(),
            url: String::new(),
            fetched_url: String::new(),
            description: String::new(),
            content: String::new(),
        }
    }
}

impl Clone for SearchResult {
    fn clone(&self) -> (r: Self)
        ensures
            r@ == self@,
    {
        SearchResult {
            title: self.title.clone(),
            url: self.url.clone(),
            fetched_url: self.fetched_url.clone(),
            description: self.description.clone(),
            content: self.content.clone(),
        }
    }
}

/// One result of a code search.
#[derive(Debug)]
pub struct CodeResult {
    pub repo: String,
    pub path: String,
    /// The line number, or zero where it is not known.
    pub line: usize,
    pub snippet: String,
    pub language: String,
    /// The stars of the repository, or zero where they are not known.
    pub stars: usize,
    pub url: String,
    pub source: String,
}

/// What a [`CodeResult`] holds.
#[verifier::ext_equal]
pub struct CodeView {
    pub repo: Seq<char>,
    pub path: Seq<char>,
    pub line: usize,
    pub snippet: Seq<char>,
    pub language: Seq<char>,
    pub stars: usize,
    pub url: Seq<char>,
    pub source: Seq<char>,
}

impl View for CodeResult {
    type V = CodeView;

    open spec fn view(&self) -> CodeView {
        CodeView {
            repo: self.repo@,
            path: self.path@,
            line: self.line,
            snippet: self.snippet@,
            language: self.language@,
            stars: self.stars,
            url: self.url@,
            source: self.source@,
        }
    }
}

impl CodeView {
    /// All texts empty, all numbers zero.
    pub open spec fn empty() -> CodeView {
        CodeView {
            repo: seq![],
            path: seq![],
            line: 0,
            snippet: seq![],
            language: seq![],
            stars: 0,
            url: seq![],
            source: seq![],
        }
    }
}

impl Default for CodeResult {
    fn default() -> (r: Self)
        ensures
            r@ == CodeView::empty(),
    {
        CodeResult {
            repo: String::new(),
            path: String::new(),
            line: 0,
            snippet: String::new(),
            language: String::new(),
            stars: 0,
            url: String::new(),
            source: String::new(),
        }
    }
}

impl Clone for CodeResult {
    fn clone(&self) -> (r: Self)
        ensures
            r@ == self@,
    {
        CodeResult {
            repo: self.repo.clone(),
            path: self.path.clone(),
            line: self.line,
            snippet: self.snippet.clone(),
            language: self.language.clone(),
            stars: self.stars,
            url: self.url.clone(),
            source: self.source.clone(),
        }
    }
}

/// One result of a documentation search.
#[derive(Debug)]
pub struct DocsResult {
    pub library: String,
    pub title: String,
    pub breadcrumb: String,
    pub snippet: String,
    pub url: String,
    pub source: String,
}

/// What a [`DocsResult`] holds.
#[verifier::ext_equal]
pub struct DocsView {
    pub library: Seq<char>,
    pub title: Seq<char>,
    pub breadcrumb: Seq<char>,
    pub snippet: Seq<char>,
    pub url: Seq<char>,
    pub source: Seq<char>,
}

impl View for DocsResult {
    type V = DocsView;

    open spec fn view(&self) -> DocsView {
        DocsView {
            library: self.library@,
            title: self.title@,
            breadcrumb: self.breadcrumb@,
            snippet: self.snippet@,
            url: self.url@,
            source: self.source@,
        }
    }
}

impl DocsView {
    /// All texts empty, all numbers zero.
    pub open spec fn empty() -> DocsView {
        DocsView {
            library: seq![],
            title: seq![],
            breadcrumb: seq![],
            snippet: seq![],
            url: seq![],
            source: seq![],
        }
    }
}

impl Default for DocsResult {
    fn default() -> (r: Self)
        ensures
            r@ == DocsView::empty(),
    {
        DocsResult {
            library: String::new(),
            title: String::new(),
            breadcrumb: String::new(),
            snippet: String::new(),
            url: String::new(),
            source: String::new(),
        }
    }
}

impl Clone for DocsResult {
    fn clone(&self) -> (r: Self)
        ensures
            r@ == self@,
    {
        DocsResult {
            library: self.library.clone(),
            title: self.title.clone(),
            breadcrumb: self.breadcrumb.clone(),
            snippet: self.snippet.clone(),
            url: self.url.clone(),
            source: self.source.clone(),
        }
    }
}

/// A page as markdown.
#[derive(Debug)]
pub struct Page {
    pub url: String,
    /// Where the page was fetched, if not at `url`.
    pub fetched_url: String,
    pub title: String,
    pub markdown: String,
    pub etag: String,
    pub last_modified: String,
    pub content_hash: String,
}

/// What a [`Page`] holds.
#[verifier::ext_equal]
pub struct PageView {
    pub url: Seq<char>,
    pub fetched_url: Seq<char>,
    pub title: Seq<char>,
    pub markdown: Seq<char>,
    pub etag: Seq<char>,
    pub last_modified: Seq<char>,
    pub content_hash: Seq<char>,
}

impl View for Page {
    type V = PageView;

    open spec fn view(&self) -> PageView {
        PageView {
            url: self.url@,
            fetched_url: self.fetched_url@,
            title: self.title@,
            markdown: self.markdown@,
            etag: self.etag@,
            last_modified: self.last_modified@,
            content_hash: self.content_hash@,
        }
    }
}

impl PageView {
    /// All texts empty, all numbers zero.
    pub open spec fn empty() -> PageView {
        PageView {
            url: seq![],
            fetched_url: seq![],
            title: seq![],
            markdown: seq![],
            etag: seq![],
            last_modified: seq![],
            content_hash: seq![],
        }
    }
}

impl Default for Page {
    fn default() -> (r: Self)
        ensures
            r@ == PageView::empty(),
    {
        Page {
            url: String::new(),
            fetched_url: String::new(),
            title: String::new(),
            markdown: String::new(),
            etag: String::new(),
            last_modified: String::new(),
            content_hash: String::new(),
        }
    }
}

impl Clone for Page {
    fn clone(&self) -> (r: Self)
        ensures
            r@ == self@,
    {
        Page {
            url: self.url.clone(),
            fetched_url: self.fetched_url.clone(),
            title: self.title.clone(),
            markdown: self.markdown.clone(),
            etag: self.etag.clone(),
            last_modified: self.last_modified.clone(),
            content_hash: self.content_hash.clone(),
        }
    }
}

impl PageView {
    /// The page as the answer to a request for `url` that was fetched at
    /// `fetched`: the second is noted only where the two differ.
    pub open spec fn requested(self, url: Seq<char>, fetched: Seq<char>) -> PageView {
        PageView {
            url: url,
            fetched_url: if fetched == url {
                seq![]
            } else {
                fetched
            },
            ..self
        }
    }
}

/// Whether a number is left out of a record.
pub fn is_zero(n: &usize) -> (r: bool)
    ensures
        r == (*n == 0),
{
    *n == 0
}

/// A page that is asked for shows the URL it was asked for under, and where it was fetched
/// exactly if that is elsewhere. Its content stays as it is.
pub proof fn law_requested_pages(page: PageView, url: Seq<char>, fetched: Seq<char>)
    ensures
        page.requested(url, fetched).url == url,
        fetched == url ==> page.requested(url, fetched).fetched_url.len() == 0,
        fetched != url ==> page.requested(url, fetched).fetched_url == fetched,
        page.requested(url, fetched).title == page.title,
        page.requested(url, fetched).markdown == page.markdown,
        page.requested(url, fetched).etag == page.etag,
        page.requested(url, fetched).last_modified == page.last_modified,
        page.requested(url, fetched).content_hash == page.content_hash,
{
}

/// A search result is seen as its fields are.
pub proof fn law_what_a_search_result_holds(record: SearchResult)
    ensures
        record@.title == record.title@,
        record@.url == record.url@,
        record@.fetched_url == record.fetched_url@,
        record@.description == record.description@,
        record@.content == record.content@,
{
}

/// A code search result is seen as its fields are.
pub proof fn law_what_a_code_result_holds(record: CodeResult)
    ensures
        record@.repo == record.repo@,
        record@.path == record.path@,
        record@.snippet == record.snippet@,
        record@.language == record.language@,
        record@.url == record.url@,
        record@.source == record.source@,
        record@.line == record.line,
        record@.stars == record.stars,
{
}

/// A documentation result is seen as its fields are.
pub proof fn law_what_a_docs_result_holds(record: DocsResult)
    ensures
        record@.library == record.library@,
        record@.title == record.title@,
        record@.breadcrumb == record.breadcrumb@,
        record@.snippet == record.snippet@,
        record@.url == record.url@,
        record@.source == record.source@,
{
}

/// A page is seen as its fields are.
pub proof fn law_what_a_page_holds(record: Page)
    ensures
        record@.url == record.url@,
        record@.fetched_url == record.fetched_url@,
        record@.title == record.title@,
        record@.markdown == record.markdown@,
        record@.etag == record.etag@,
        record@.last_modified == record.last_modified@,
        record@.content_hash == record.content_hash@,
{
}

} // verus!
