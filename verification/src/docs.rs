//! Documentation search: what the service is asked, what its answers mean, and the
//! results that come of them.

use vstd::prelude::*;

use crate::error::{AppError, AppResult, ErrorView};
use crate::scrape::success;
use crate::system::{quoted, quoted_of};
use crate::text::{char_count, decimal, same, show_size};
use crate::types::{DocsResult, DocsView};
use crate::web::pairs_of;

verus! {

/// What a list of documentation results holds.
pub open spec fn docs_of(results: Seq<DocsResult>) -> Seq<DocsView> {
    Seq::new(results.len(), |i: int| results[i]@)
}

/// The error where there is no key.
pub open spec fn no_key() -> ErrorView {
    ErrorView::Upstream(
        "context7: API key not set (get one then: snarf config set context7_api_key <key>)"@,
    )
}

/// Whether there is a key.
pub fn check_key(api_key: &str) -> (r: AppResult<()>)
    ensures
        match r {
            Ok(_) => api_key@.len() > 0,
            Err(e) => api_key@.len() == 0 && e@ == no_key(),
        },
{
    if char_count(api_key) == 0 {
        return Err(
            AppError::upstream(
                "context7: API key not set (get one then: snarf config set context7_api_key <key>)".to_owned(),
            ),
        );
    }
    Ok(())
}

/// The error where `backend` cannot be searched, if it is one.
pub open spec fn backend_error(backend: Seq<char>, api_key: Seq<char>) -> Option<ErrorView> {
    if backend == "context7"@ {
        if api_key.len() == 0 {
            Some(no_key())
        } else {
            None
        }
    } else if backend == "local"@ {
        Some(ErrorView::Upstream("local fts5 backend not yet implemented"@))
    } else {
        Some(ErrorView::Upstream("unknown docs backend: "@ + backend))
    }
}

/// Whether `backend` can be searched.
pub fn check_backend(backend: &str, api_key: &str) -> (r: AppResult<()>)
    ensures
        match r {
            Ok(_) => backend_error(backend@, api_key@) is None,
            Err(e) => backend_error(backend@, api_key@) == Some(e@),
        },
{
    if same(backend, "context7") {
        return check_key(api_key);
    }
    if same(backend, "local") {
        return Err(AppError::upstream("local fts5 backend not yet implemented".to_owned()));
    }
    let mut message = "unknown docs backend: ".to_owned();
    message.append(backend);
    Err(AppError::upstream(message))
}

/// The library to look into: the first that was found for `query`.
pub fn first_library(ids: &Vec<String>, query: &str) -> (r: AppResult<String>)
    ensures
        match r {
            Ok(id) => ids@.len() > 0 && id@ == ids@[0]@,
            Err(e) => ids@.len() == 0 && e@ == ErrorView::Upstream(
                "context7: no library found for "@ + quoted_of(query@),
            ),
        },
{
    if ids.len() > 0 {
        return Ok(ids[0].clone());
    }
    let mut message = "context7: no library found for ".to_owned();
    message.append(quoted(query).as_str());
    Err(AppError::upstream(message))
}

/// The error for an answer of the service, if it is one; `request` is what was
/// asked.
pub open spec fn context7_error(request: Seq<char>, status: int) -> Option<ErrorView> {
    if status == 401 {
        Some(
            ErrorView::Upstream(
                "context7: invalid API key (set via: snarf config set context7_api_key <key>)"@,
            ),
        )
    } else if !success(status) {
        Some(
            ErrorView::Upstream(
                "context7 "@ + request + " returned status "@ + decimal(status),
            ),
        )
    } else {
        None
    }
}

/// Whether an answer of the service holds what was asked; `request` is `resolve` or
/// `docs`.
pub fn context7_status(request: &str, status: u16) -> (r: AppResult<()>)
    ensures
        match r {
            Ok(_) => context7_error(request@, status as int) is None,
            Err(e) => context7_error(request@, status as int) == Some(e@),
        },
{
    if status == 401 {
        return Err(
            AppError::upstream(
                "context7: invalid API key (set via: snarf config set context7_api_key <key>)".to_owned(),
            ),
        );
    }
    if 200 <= status && status < 300 {
        return Ok(());
    }
    let mut message = "context7 ".to_owned();
    message.append(request);
    message.append(" returned status ");
    message.append(show_size(status as usize).as_str());
    Err(AppError::upstream(message))
}

/// The query of a request for documentation.
pub open spec fn docs_pairs(library: Seq<char>, query: Seq<char>, tokens: int) -> Seq<
    (Seq<char>, Seq<char>),
> {
    seq![
        ("libraryId"@, library),
        ("query"@, query),
        ("type"@, "json"@),
        ("tokens"@, decimal(tokens)),
    ]
}

/// The query of a request for documentation of at most `tokens` tokens.
pub fn docs_query(library_id: &str, query: &str, tokens: usize) -> (r: Vec<(String, String)>)
    ensures
        pairs_of(r@) == docs_pairs(library_id@, query@, tokens as int),
{
    let mut pairs: Vec<(String, String)> = Vec::new();
    pairs.push(("libraryId".to_owned(), library_id.to_owned()));
    pairs.push(("query".to_owned(), query.to_owned()));
    pairs.push(("type".to_owned(), "json".to_owned()));
    pairs.push(("tokens".to_owned(), show_size(tokens)));
    assert(pairs_of(pairs@) =~= docs_pairs(library_id@, query@, tokens as int));
    pairs
}

/// A piece of code in the documentation.
#[derive(Debug)]
pub struct CodeSnippet {
    pub code_title: String,
    pub code_id: String,
    /// The code, in one language or more.
    pub code_list: Vec<String>,
}

/// A piece of text in the documentation.
#[derive(Debug)]
pub struct InfoSnippet {
    pub page_id: String,
    pub breadcrumb: String,
    pub content: String,
}

/// The result for a piece of code.
pub open spec fn code_result(library: Seq<char>, snippet: CodeSnippet) -> DocsView {
    DocsView {
        library: library,
        title: snippet.code_title@,
        snippet: if snippet.code_list@.len() > 0 {
            snippet.code_list@[0]@
        } else {
            seq![]
        },
        url: snippet.code_id@,
        source: "context7"@,
        ..DocsView::empty()
    }
}

/// The result for a piece of text.
pub open spec fn info_result(library: Seq<char>, snippet: InfoSnippet) -> DocsView {
    DocsView {
        library: library,
        title: snippet.breadcrumb@,
        breadcrumb: snippet.breadcrumb@,
        snippet: snippet.content@,
        url: snippet.page_id@,
        source: "context7"@,
    }
}

/// The results for the documentation of a library.
pub open spec fn docs_page(
    library: Seq<char>,
    codes: Seq<CodeSnippet>,
    infos: Seq<InfoSnippet>,
) -> Seq<DocsView> {
    Seq::new(codes.len(), |i: int| code_result(library, codes[i])) + Seq::new(
        infos.len(),
        |i: int| info_result(library, infos[i]),
    )
}

/// The first `limit` of some results.
pub open spec fn first_docs(results: Seq<DocsView>, limit: int) -> Seq<DocsView> {
    results.take(crate::search::at_most(results.len() as int, limit) as int)
}

/// The results for the documentation of a library: the pieces of code, then the
/// pieces of text.
pub fn docs_results(
    library_id: &str,
    code_snippets: &Vec<CodeSnippet>,
    info_snippets: &Vec<InfoSnippet>,
) -> (r: Vec<DocsResult>)
    ensures
        docs_of(r@) == docs_page(library_id@, code_snippets@, info_snippets@),
        docs_of(r@) == Seq::new(
            code_snippets@.len(),
            |i: int| code_result(library_id@, code_snippets@[i]),
        ) + Seq::new(
            info_snippets@.len(),
            |i: int| info_result(library_id@, info_snippets@[i]),
        ),
{
    let ghost codes = Seq::new(
        code_snippets@.len(),
        |i: int| code_result(library_id@, code_snippets@[i]),
    );
    let ghost infos = Seq::new(
        info_snippets@.len(),
        |i: int| info_result(library_id@, info_snippets@[i]),
    );
    let mut out: Vec<DocsResult> = Vec::new();
    let mut i: usize = 0;
    assert(docs_of(out@) =~= codes.take(0));
    while i < code_snippets.len()
        invariant
            codes == Seq::new(
                code_snippets@.len(),
                |i: int| code_result(library_id@, code_snippets@[i]),
            ),
            i <= code_snippets@.len(),
            docs_of(out@) == codes.take(i as int),
        decreases code_snippets@.len() - i,
    {
        let snippet = &code_snippets[i];
        let mut result = DocsResult::default();
        result.library = library_id.to_owned();
        result.title = snippet.code_title.clone();
        if snippet.code_list.len() > 0 {
            result.snippet = snippet.code_list[0].clone();
        }
        result.url = snippet.code_id.clone();
        result.source = "context7".to_owned();
        let ghost before = docs_of(out@);
        out.push(result);
        assert(docs_of(out@) =~= before.push(result@));
        assert(codes.take(i + 1) =~= codes.take(i as int).push(codes[i as int]));
        i += 1;
    }
    assert(codes.take(i as int) =~= codes);
    let mut k: usize = 0;
    assert(codes + infos.take(0) =~= codes);
    while k < info_snippets.len()
        invariant
            infos == Seq::new(
                info_snippets@.len(),
                |i: int| info_result(library_id@, info_snippets@[i]),
            ),
            k <= info_snippets@.len(),
            docs_of(out@) == codes + infos.take(k as int),
        decreases info_snippets@.len() - k,
    {
        let snippet = &info_snippets[k];
        let result = DocsResult {
            library: library_id.to_owned(),
            title: snippet.breadcrumb.clone(),
            breadcrumb: snippet.breadcrumb.clone(),
            snippet: snippet.content.clone(),
            url: snippet.page_id.clone(),
            source: "context7".to_owned(),
        };
        let ghost before = docs_of(out@);
        out.push(result);
        assert(docs_of(out@) =~= before.push(result@));
        assert(codes + infos.take(k + 1) =~= (codes + infos.take(k as int)).push(infos[k as int]));
        k += 1;
    }
    assert(infos.take(k as int) =~= infos);
    assert(docs_of(out@) =~= docs_page(library_id@, code_snippets@, info_snippets@));
    out
}

/// The first `limit` results.
pub fn limit_docs_results(results: Vec<DocsResult>, limit: usize) -> (r: Vec<DocsResult>)
    ensures
        docs_of(r@) == first_docs(docs_of(results@), limit as int),
        docs_of(r@) == docs_of(results@).take(
            crate::search::at_most(results@.len() as int, limit as int) as int,
        ),
{
    let mut results = results;
    let ghost before = results@;
    results.truncate(limit);
    assert(docs_of(results@) =~= docs_of(before).take(
        crate::search::at_most(before.len() as int, limit as int) as int,
    ));
    results
}

/// A piece of code is shown with its title, its identifier as the URL and its first code.
pub proof fn law_what_a_piece_of_code_shows(library: Seq<char>, snippet: CodeSnippet)
    ensures
        code_result(library, snippet).library == library,
        code_result(library, snippet).title == snippet.code_title@,
        code_result(library, snippet).url == snippet.code_id@,
        code_result(library, snippet).source == "context7"@,
        code_result(library, snippet).breadcrumb.len() == 0,
        snippet.code_list@.len() > 0 ==> code_result(library, snippet).snippet
            == snippet.code_list@[0]@,
        snippet.code_list@.len() == 0 ==> code_result(library, snippet).snippet.len() == 0,
{
}

/// A piece of text is shown with where it stands, its page as the URL and its content.
pub proof fn law_what_a_piece_of_text_shows(library: Seq<char>, snippet: InfoSnippet)
    ensures
        info_result(library, snippet).library == library,
        info_result(library, snippet).title == snippet.breadcrumb@,
        info_result(library, snippet).breadcrumb == snippet.breadcrumb@,
        info_result(library, snippet).snippet == snippet.content@,
        info_result(library, snippet).url == snippet.page_id@,
        info_result(library, snippet).source == "context7"@,
{
}

/// An answer holds what was asked exactly if its status is one of success; a key that is
/// refused has its own error.
pub proof fn law_the_errors_of_context7(request: Seq<char>, status: int)
    ensures
        context7_error(request, status) is None <==> 200 <= status < 300,
        context7_error(request, 401) == Some(
            ErrorView::Upstream(
                "context7: invalid API key (set via: snarf config set context7_api_key <key>)"@,
            ),
        ),
        !(200 <= status < 300) && status != 401 ==> context7_error(request, status) == Some(
            ErrorView::Upstream(
                "context7 "@ + request + " returned status "@ + decimal(status),
            ),
        ),
{
}

/// Context7 can be searched exactly if there is a key for it; no other service can be.
pub proof fn law_which_documentation_can_be_searched(backend: Seq<char>, api_key: Seq<char>)
    ensures
        backend_error(backend, api_key) is None <==> backend == "context7"@ && api_key.len() > 0,
        backend == "context7"@ && api_key.len() == 0 ==> backend_error(backend, api_key) == Some(
            ErrorView::Upstream(
                "context7: API key not set (get one then: snarf config set context7_api_key <key>)"@,
            ),
        ),
        backend_error("local"@, api_key) == Some(
            ErrorView::Upstream("local fts5 backend not yet implemented"@),
        ),
        backend != "context7"@ && backend != "local"@ ==> backend_error(backend, api_key) == Some(
            ErrorView::Upstream("unknown docs backend: "@ + backend),
        ),
{
    reveal_strlit("local");
    reveal_strlit("context7");
    assert("local"@.len() == 5 && "context7"@.len() == 8);
}

/// A request for documentation names the library, the query and the number of tokens.
pub proof fn law_what_documentation_is_asked_for(library: Seq<char>, query: Seq<char>, tokens: int)
    ensures
        docs_pairs(library, query, tokens).contains(("libraryId"@, library)),
        docs_pairs(library, query, tokens).contains(("query"@, query)),
        docs_pairs(library, query, tokens).contains(("type"@, "json"@)),
        docs_pairs(library, query, tokens).contains(("tokens"@, decimal(tokens))),
        docs_pairs(library, query, tokens).len() == 4,
{
    let pairs = docs_pairs(library, query, tokens);
    assert(pairs[0] == ("libraryId"@, library));
    assert(pairs[1] == ("query"@, query));
    assert(pairs[2] == ("type"@, "json"@));
    assert(pairs[3] == ("tokens"@, decimal(tokens)));
}

/// A list of results is seen as its results are, in their order.
pub proof fn law_what_a_list_of_docs_results_holds(results: Seq<DocsResult>)
    ensures
        docs_of(results).len() == results.len(),
        forall|i: int| 0 <= i < results.len() ==> #[trigger] docs_of(results)[i] == results[i]@,
{
}

/// The documentation of a library gives every piece of code and then every piece of text, in
/// their order.
pub proof fn law_every_piece_is_a_result(
    library: Seq<char>,
    codes: Seq<CodeSnippet>,
    infos: Seq<InfoSnippet>,
    i: int,
)
    ensures
        docs_page(library, codes, infos).len() == codes.len() + infos.len(),
        0 <= i < codes.len() ==> docs_page(library, codes, infos)[i] == code_result(
            library,
            codes[i],
        ),
        0 <= i < infos.len() ==> docs_page(library, codes, infos)[codes.len() + i] == info_result(
            library,
            infos[i],
        ),
{
}

/// The first results are kept, in their order: all of them where there are not more than were
/// asked for, and else as many as were asked for.
pub proof fn law_the_first_docs_are_kept(results: Seq<DocsView>, limit: int)
    requires
        limit >= 0,
    ensures
        results.len() <= limit ==> first_docs(results, limit) == results,
        results.len() > limit ==> first_docs(results, limit) == results.take(limit),
{
    assert(results.take(results.len() as int) =~= results);
}

} // verus!
