//! Web search: what the services are asked, what their answers mean, and the
//! results that come of them.

use vstd::prelude::*;

use crate::error::{AppError, AppResult, ErrorView};
use crate::extract::{flat_text, matched_inside};
use crate::html::{
    elements, inner_lists, inners, select_inside, selected_inside, Inner, InnerView,
};
use crate::text::{
    after_prefix, begins, char_count, collapsed, cut, decimal, drop_back, join, joined,
    law_cut_at_the_first, lemma_trimmed_len, lines, lines_of, normalize_whitespace, only, same,
    show_size, split, split_of, split_once, starts_with, strip_prefix, texts, trim,
    trim_end_matches, trimmed,
};
use crate::types::{SearchResult, SearchView};
use crate::web::{
    append_pair, decode_pairs, decoded_pairs, or_empty, pairs_of, parse_url, url_of, url_with_pair,
    MAX_URL_CHARS,
};

verus! {

/// What a list of search results holds.
pub open spec fn results_of(results: Seq<SearchResult>) -> Seq<SearchView> {
    Seq::new(results.len(), |i: int| results[i]@)
}

/// A text in the notation of JSON.
pub uninterp spec fn json_text(text: Seq<char>) -> Seq<char>;

/// `serde_json::to_string` of a text: the text in quotation marks, with escapes.
#[verifier::external_body]
pub(crate) fn to_json(text: &str) -> (r: String)
    ensures
        r@ == json_text(text@),
{
    serde_json::Value::from(text).to_string()
}

/// A result with a title, a URL and a description.
pub open spec fn described(title: Seq<char>, url: Seq<char>, description: Seq<char>) -> SearchView {
    SearchView { title: title, url: url, description: description, ..SearchView::empty() }
}

fn result_of(title: String, url: String, description: String) -> (r: SearchResult)
    ensures
        r@ == described(title@, url@, description@),
{
    let mut result = SearchResult::default();
    result.title = title;
    result.url = url;
    result.description = description;
    result
}

/// The error of a service that answered with another status than it should.
pub open spec fn bad_status(service: Seq<char>, status: int) -> ErrorView {
    ErrorView::Upstream(service + " returned status "@ + decimal(status))
}

/// The error of `service`, which answered with `status`.
pub fn status_failure(service: &str, status: u16) -> (r: AppError)
    ensures
        r@ == bad_status(service@, status as int),
{
    let mut message = service.to_owned();
    message.append(" returned status ");
    message.append(show_size(status as usize).as_str());
    AppError::upstream(message)
}

fn push_pair(pairs: &mut Vec<(String, String)>, name: &str, value: &str)
    ensures
        pairs_of(final(pairs)@) == pairs_of(old(pairs)@).push((name@, value@)),
{
    let ghost before = pairs_of(pairs@);
    pairs.push((name.to_owned(), value.to_owned()));
    assert(pairs_of(pairs@) =~= before.push((name@, value@)));
}

/// What Brave answers.
#[derive(Debug)]
pub struct BraveResponse {
    pub web: Option<BraveWeb>,
}

/// The web results of Brave.
#[derive(Debug)]
pub struct BraveWeb {
    pub results: Vec<BraveResult>,
}

/// A web result of Brave.
#[derive(Debug)]
pub struct BraveResult {
    pub title: String,
    pub url: String,
    pub description: String,
}

/// The query of a request to Brave.
pub open spec fn brave_pairs(query: Seq<char>, limit: int) -> Seq<(Seq<char>, Seq<char>)> {
    seq![
        ("q"@, query),
        ("count"@, decimal(limit)),
        ("text_decorations"@, "false"@),
        ("result_filter"@, "web"@),
    ]
}

/// The query of a request to Brave, which needs a key.
pub fn brave_query(query: &str, limit: usize, api_key: &str) -> (r: AppResult<Vec<(String, String)>>)
    ensures
        match r {
            Ok(pairs) => api_key@.len() > 0 && pairs_of(pairs@) == brave_pairs(
                query@,
                limit as int,
            ),
            Err(e) => api_key@.len() == 0 && e@ == ErrorView::Precondition(
                "brave: API key not set (get one free at https://brave.com/search/api/ then: snarf config set brave_api_key <key>)"@,
            ),
        },
{
    if char_count(api_key) == 0 {
        return Err(
            AppError::precondition(
                "brave: API key not set (get one free at https://brave.com/search/api/ then: snarf config set brave_api_key <key>)".to_owned(),
            ),
        );
    }
    let mut pairs: Vec<(String, String)> = Vec::new();
    push_pair(&mut pairs, "q", query);
    push_pair(&mut pairs, "count", show_size(limit).as_str());
    push_pair(&mut pairs, "text_decorations", "false");
    push_pair(&mut pairs, "result_filter", "web");
    assert(pairs_of(pairs@) =~= brave_pairs(query@, limit as int));
    Ok(pairs)
}

/// The error for a status of Brave's answer, if it is one.
pub open spec fn brave_error(status: int) -> Option<ErrorView> {
    if status == 401 {
        Some(
            ErrorView::Upstream(
                "brave: invalid API key (set via: snarf config set brave_api_key <key>)"@,
            ),
        )
    } else if status == 429 {
        Some(ErrorView::Upstream("brave: rate limited"@))
    } else if status != 200 {
        Some(bad_status("brave"@, status))
    } else {
        None
    }
}

/// Whether an answer of Brave holds results.
pub fn brave_status(status: u16) -> (r: AppResult<()>)
    ensures
        match r {
            Ok(_) => brave_error(status as int) is None,
            Err(e) => brave_error(status as int) == Some(e@),
        },
{
    if status == 401 {
        Err(
            AppError::upstream(
                "brave: invalid API key (set via: snarf config set brave_api_key <key>)".to_owned(),
            ),
        )
    } else if status == 429 {
        Err(AppError::upstream("brave: rate limited".to_owned()))
    } else if status != 200 {
        Err(status_failure("brave", status))
    } else {
        Ok(())
    }
}

/// The first `limit` of a number of things.
pub open spec fn at_most(len: int, limit: int) -> nat {
    if limit < len {
        limit as nat
    } else {
        len as nat
    }
}

/// The web results of an answer of Brave; none where there are no web results.
pub open spec fn brave_list(body: BraveResponse) -> Seq<BraveResult> {
    match body.web {
        Some(web) => web.results@,
        None => seq![],
    }
}

/// The first `limit` of the results of Brave, as they are shown.
pub open spec fn brave_page(list: Seq<BraveResult>, limit: int) -> Seq<SearchView> {
    Seq::new(
        at_most(list.len() as int, limit),
        |i: int| described(list[i].title@, list[i].url@, list[i].description@),
    )
}

/// The first `limit` results of an answer of Brave.
pub fn brave_results(body: BraveResponse, limit: usize) -> (r: Vec<SearchResult>)
    ensures
        results_of(r@) == brave_page(brave_list(body), limit as int),
        results_of(r@) == Seq::new(
            at_most(brave_list(body).len() as int, limit as int),
            |i: int|
                described(
                    brave_list(body)[i].title@,
                    brave_list(body)[i].url@,
                    brave_list(body)[i].description@,
                ),
        ),
{
    let ghost all = brave_list(body);
    let list: Vec<BraveResult> = match body.web {
        Some(web) => web.results,
        None => Vec::new(),
    };
    let mut out: Vec<SearchResult> = Vec::new();
    let mut i: usize = 0;
    while i < list.len() && i < limit
        invariant
            list@ == all,
            i <= list@.len(),
            i <= limit,
            out@.len() == i,
            forall|k: int|
                0 <= k < i ==> (#[trigger] out@[k])@ == described(
                    all[k].title@,
                    all[k].url@,
                    all[k].description@,
                ),
        decreases list@.len() - i,
    {
        let item = &list[i];
        out.push(result_of(item.title.clone(), item.url.clone(), item.description.clone()));
        i += 1;
    }
    assert(results_of(out@) =~= Seq::new(
        at_most(all.len() as int, limit as int),
        |i: int| described(all[i].title@, all[i].url@, all[i].description@),
    ));
    assert(results_of(out@) =~= brave_page(all, limit as int));
    out
}

/// What SearXNG answers.
#[derive(Debug)]
pub struct SearxngResponse {
    pub results: Vec<SearxngResult>,
}

/// A result of SearXNG.
#[derive(Debug)]
pub struct SearxngResult {
    pub title: String,
    pub url: String,
    pub content: String,
}

/// Where the SearXNG instance at a URL is asked.
pub open spec fn searxng_address(base: Seq<char>) -> Seq<char> {
    drop_back(base, only('/')) + "/search"@
}

/// The query of a request to SearXNG.
pub open spec fn searxng_pairs(query: Seq<char>) -> Seq<(Seq<char>, Seq<char>)> {
    seq![("q"@, query), ("format"@, "json"@), ("pageno"@, "1"@)]
}

/// The first `limit` of the results of SearXNG, as they are shown.
pub open spec fn searxng_page(list: Seq<SearxngResult>, limit: int) -> Seq<SearchView> {
    Seq::new(
        at_most(list.len() as int, limit),
        |i: int| described(list[i].title@, list[i].url@, list[i].content@),
    )
}

/// Where the SearXNG instance at `base_url` is asked.
pub fn searxng_endpoint(base_url: &str) -> (r: String)
    ensures
        r@ == searxng_address(base_url@),
        r@ == drop_back(base_url@, only('/')) + "/search"@,
{
    let mut url = trim_end_matches(base_url, '/');
    url.append("/search");
    url
}

/// The query of a request to SearXNG.
pub fn searxng_query(query: &str) -> (r: Vec<(String, String)>)
    ensures
        pairs_of(r@) == searxng_pairs(query@),
        pairs_of(r@) == seq![("q"@, query@), ("format"@, "json"@), ("pageno"@, "1"@)],
{
    let mut pairs: Vec<(String, String)> = Vec::new();
    push_pair(&mut pairs, "q", query);
    push_pair(&mut pairs, "format", "json");
    push_pair(&mut pairs, "pageno", "1");
    assert(pairs_of(pairs@) =~= seq![("q"@, query@), ("format"@, "json"@), ("pageno"@, "1"@)]);
    pairs
}

/// Whether an answer with `status` of a service that answers 200 is one.
pub fn ok_status(service: &str, status: u16) -> (r: AppResult<()>)
    ensures
        match r {
            Ok(_) => status == 200,
            Err(e) => status != 200 && e@ == bad_status(service@, status as int),
        },
{
    if status == 200 {
        Ok(())
    } else {
        Err(status_failure(service, status))
    }
}

/// The first `limit` results of an answer of SearXNG.
pub fn searxng_results(body: SearxngResponse, limit: usize) -> (r: Vec<SearchResult>)
    ensures
        results_of(r@) == searxng_page(body.results@, limit as int),
        results_of(r@) == Seq::new(
            at_most(body.results@.len() as int, limit as int),
            |i: int|
                described(
                    body.results@[i].title@,
                    body.results@[i].url@,
                    body.results@[i].content@,
                ),
        ),
{
    let ghost all = body.results@;
    let list = body.results;
    let mut out: Vec<SearchResult> = Vec::new();
    let mut i: usize = 0;
    while i < list.len() && i < limit
        invariant
            list@ == all,
            i <= list@.len(),
            i <= limit,
            out@.len() == i,
            forall|k: int|
                0 <= k < i ==> (#[trigger] out@[k])@ == described(
                    all[k].title@,
                    all[k].url@,
                    all[k].content@,
                ),
        decreases list@.len() - i,
    {
        let item = &list[i];
        out.push(result_of(item.title.clone(), item.url.clone(), item.content.clone()));
        i += 1;
    }
    assert(results_of(out@) =~= Seq::new(
        at_most(all.len() as int, limit as int),
        |i: int| described(all[i].title@, all[i].url@, all[i].content@),
    ));
    assert(results_of(out@) =~= searxng_page(all, limit as int));
    out
}

/// What to do after an answer of DuckDuckGo.
#[derive(Debug)]
pub enum DdgStep {
    /// Read it.
    Read,
    /// Wait and ask again.
    Retry,
    /// Give up.
    Fail(AppError),
}

/// Whether DuckDuckGo is asked again after an answer to a request with this number.
pub open spec fn ddg_retries(status: int, sent: int) -> bool {
    status == 202 && sent < 3
}

/// Whether an answer of DuckDuckGo is read.
pub open spec fn ddg_reads(status: int) -> bool {
    status == 200
}

/// What to do after the answer with `status` to the request with the number
/// `sent`, counted from one: a request that is only accepted is repeated, three
/// requests in all.
pub fn ddg_step(status: u16, sent: usize) -> (r: DdgStep)
    ensures
        r is Retry <==> ddg_retries(status as int, sent as int),
        r is Read <==> ddg_reads(status as int),
        match r {
            DdgStep::Read => status == 200,
            DdgStep::Retry => status == 202 && sent < 3,
            DdgStep::Fail(e) => (status != 200 && status != 202 && e@ == bad_status(
                "ddg"@,
                status as int,
            )) || (status == 202 && sent >= 3 && e@ == ErrorView::Upstream(
                "ddg rate limited after retries"@,
            )),
        },
{
    if status == 200 {
        DdgStep::Read
    } else if status != 202 {
        DdgStep::Fail(status_failure("ddg", status))
    } else if sent < 3 {
        DdgStep::Retry
    } else {
        DdgStep::Fail(AppError::upstream("ddg rate limited after retries".to_owned()))
    }
}

/// The query of the link of a result of DuckDuckGo.
pub open spec fn link_query(href: Seq<char>) -> Seq<char> {
    match cut(href, '?') {
        Some(parts) => match cut(parts.1, '#') {
            Some(query) => query.0,
            None => parts.1,
        },
        None => seq![],
    }
}

/// The first index from `i` on of a pair with the key `key`, or the length.
pub open spec fn key_at(pairs: Seq<(Seq<char>, Seq<char>)>, key: Seq<char>, i: int) -> int
    decreases pairs.len() - i,
{
    if i < 0 || i >= pairs.len() || pairs[i].0 == key {
        i
    } else {
        key_at(pairs, key, i + 1)
    }
}

/// Where a link leads whose query has the given pairs: to the value of the first
/// `uddg` among them, if it is not empty, else where it says.
pub open spec fn redirect_target(href: Seq<char>, pairs: Seq<(Seq<char>, Seq<char>)>) -> Seq<char> {
    let k = key_at(pairs, "uddg"@, 0);
    if k < pairs.len() && pairs[k].1.len() > 0 {
        pairs[k].1
    } else {
        href
    }
}

/// Where a link of DuckDuckGo leads.
pub open spec fn ddg_url(href: Seq<char>) -> Seq<char> {
    redirect_target(href, decoded_pairs(link_query(href)))
}

/// Where a link leads whose query has the given pairs.
pub fn ddg_redirect(href: &str, pairs: &Vec<(String, String)>) -> (r: String)
    ensures
        r@ == redirect_target(href@, pairs_of(pairs@)),
{
    let ghost all = pairs_of(pairs@);
    let mut i: usize = 0;
    while i < pairs.len() && !same(pairs[i].0.as_str(), "uddg")
        invariant
            all == pairs_of(pairs@),
            i <= pairs@.len(),
            key_at(all, "uddg"@, 0) == key_at(all, "uddg"@, i as int),
        decreases pairs@.len() - i,
    {
        i += 1;
    }
    if i < pairs.len() && char_count(pairs[i].1.as_str()) > 0 {
        pairs[i].1.clone()
    } else {
        href.to_owned()
    }
}

/// Where a link of DuckDuckGo leads.
pub fn extract_ddg_url(href: &str) -> (r: String)
    ensures
        r@ == ddg_url(href@),
{
    let query = match split_once(href, '?') {
        Some(parts) => match split_once(parts.1.as_str(), '#') {
            Some(query) => query.0,
            None => parts.1,
        },
        None => String::new(),
    };
    assert(query@ =~= link_query(href@));
    let pairs = decode_pairs(query.as_str());
    ddg_redirect(href, &pairs)
}

/// The result of DuckDuckGo with the given title links and snippets, if it has a
/// title and leads somewhere.
pub open spec fn ddg_result(titles: Seq<InnerView>, snippets: Seq<InnerView>) -> Option<SearchView> {
    if titles.len() == 0 {
        None
    } else {
        let title = flat_text(titles[0].text);
        let href = or_empty(titles[0].href);
        if title.len() == 0 || href.len() == 0 {
            None
        } else {
            Some(
                described(
                    title,
                    ddg_url(href),
                    if snippets.len() > 0 {
                        flat_text(snippets[0].text)
                    } else {
                        seq![]
                    },
                ),
            )
        }
    }
}

/// `found` and the results from `i` on, `limit` of them at most.
pub open spec fn ddg_from(
    titles: Seq<Seq<InnerView>>,
    snippets: Seq<Seq<InnerView>>,
    i: int,
    limit: int,
    found: Seq<SearchView>,
) -> Seq<SearchView>
    decreases titles.len() - i,
{
    if i < 0 || i >= titles.len() || found.len() >= limit {
        found
    } else {
        let snippet = if i < snippets.len() {
            snippets[i]
        } else {
            seq![]
        };
        match ddg_result(titles[i], snippet) {
            Some(result) => ddg_from(titles, snippets, i + 1, limit, found.push(result)),
            None => ddg_from(titles, snippets, i + 1, limit, found),
        }
    }
}

/// The results of a page of DuckDuckGo, `limit` of them at most.
pub open spec fn ddg_list(body: Seq<char>, limit: int) -> Seq<SearchView> {
    ddg_from(
        matched_inside(body, ".result"@, ".result__title .result__a"@),
        matched_inside(body, ".result"@, ".result__snippet"@),
        0,
        limit,
        seq![],
    )
}

fn flat(parts: &Vec<String>) -> (r: String)
    ensures
        r@ == flat_text(texts(parts@)),
{
    normalize_whitespace(join(parts, " ").as_str())
}

fn ddg_result_of(titles: &Vec<Inner>, snippets: Option<&Vec<Inner>>) -> (r: Option<SearchResult>)
    ensures
        match r {
            Some(result) => ddg_result(
                inners(titles@),
                match snippets {
                    Some(list) => inners(list@),
                    None => seq![],
                },
            ) == Some(result@),
            None => ddg_result(
                inners(titles@),
                match snippets {
                    Some(list) => inners(list@),
                    None => seq![],
                },
            ) is None,
        },
{
    if titles.len() == 0 {
        return None;
    }
    assert(inners(titles@)[0] == titles@[0]@);
    let title = flat(&titles[0].text);
    let href = match &titles[0].href {
        Some(href) => href.clone(),
        None => String::new(),
    };
    assert(href@ =~= or_empty(titles@[0]@.href));
    if char_count(title.as_str()) == 0 || char_count(href.as_str()) == 0 {
        return None;
    }
    let snippet = match snippets {
        Some(list) => if list.len() > 0 {
            assert(inners(list@)[0] == list@[0]@);
            flat(&list[0].text)
        } else {
            String::new()
        },
        None => String::new(),
    };
    let url = extract_ddg_url(href.as_str());
    Some(result_of(title, url, snippet))
}

/// The results among elements with the given title links and snippets, `limit` of
/// them at most.
pub fn ddg_results(titles: &Vec<Vec<Inner>>, snippets: &Vec<Vec<Inner>>, limit: usize) -> (r: Vec<
    SearchResult,
>)
    ensures
        results_of(r@) == ddg_from(
            inner_lists(titles@),
            inner_lists(snippets@),
            0,
            limit as int,
            seq![],
        ),
{
    let ghost t = inner_lists(titles@);
    let ghost s = inner_lists(snippets@);
    let mut found: Vec<SearchResult> = Vec::new();
    let mut i: usize = 0;
    assert(results_of(found@) =~= seq![]);
    while i < titles.len() && found.len() < limit
        invariant
            t == inner_lists(titles@),
            s == inner_lists(snippets@),
            i <= titles@.len(),
            ddg_from(t, s, 0, limit as int, seq![]) == ddg_from(
                t,
                s,
                i as int,
                limit as int,
                results_of(found@),
            ),
        decreases titles@.len() - i,
    {
        let ghost before = results_of(found@);
        assert(t[i as int] == inners(titles@[i as int]@));
        let snippet = if i < snippets.len() {
            assert(s[i as int] == inners(snippets@[i as int]@));
            Some(&snippets[i])
        } else {
            None
        };
        if let Some(result) = ddg_result_of(&titles[i], snippet) {
            found.push(result);
            assert(results_of(found@) =~= before.push(result@));
        }
        i += 1;
    }
    found
}

/// The results of a page of DuckDuckGo, `limit` of them at most.
pub fn parse_ddg_results(body: &str, limit: usize) -> (r: Vec<SearchResult>)
    ensures
        results_of(r@) == ddg_list(body@, limit as int),
{
    proof {
        reveal_strlit(".result");
        reveal_strlit(".result__title .result__a");
        reveal_strlit(".result__snippet");
    }
    let none: Vec<Vec<Inner>> = Vec::new();
    assert(inner_lists(none@) =~= seq![]);
    let titles = match select_inside(body, ".result", ".result__title .result__a") {
        Some(titles) => titles,
        None => {
            let empty: Vec<Vec<Inner>> = Vec::new();
            assert(inner_lists(empty@) =~= seq![]);
            empty
        },
    };
    let snippets = match select_inside(body, ".result", ".result__snippet") {
        Some(snippets) => snippets,
        None => none,
    };
    ddg_results(&titles, &snippets, limit)
}

proof fn lemma_ddg_limit(
    titles: Seq<Seq<InnerView>>,
    snippets: Seq<Seq<InnerView>>,
    i: int,
    limit: int,
    found: Seq<SearchView>,
)
    requires
        found.len() <= limit,
    ensures
        ddg_from(titles, snippets, i, limit, found).len() <= limit,
    decreases titles.len() - i,
{
    if 0 <= i < titles.len() && found.len() < limit {
        let snippet = if i < snippets.len() {
            snippets[i]
        } else {
            seq![]
        };
        match ddg_result(titles[i], snippet) {
            Some(result) => lemma_ddg_limit(titles, snippets, i + 1, limit, found.push(result)),
            None => lemma_ddg_limit(titles, snippets, i + 1, limit, found),
        }
    }
}

/// A page of DuckDuckGo never gives more results than were asked for.
pub proof fn law_ddg_results_respect_the_limit(body: Seq<char>, limit: int)
    requires
        limit >= 0,
    ensures
        ddg_list(body, limit).len() <= limit,
{
    lemma_ddg_limit(
        matched_inside(body, ".result"@, ".result__title .result__a"@),
        matched_inside(body, ".result"@, ".result__snippet"@),
        0,
        limit,
        seq![],
    );
}

/// The body of a request to Exa.
pub open spec fn exa_body(query: Seq<char>, limit: int) -> Seq<char> {
    "{\"jsonrpc\":\"2.0\",\"id\":1,\"method\":\"tools/call\",\"params\":{\"name\":\"web_search_exa\",\"arguments\":{\"query\":"@
        + json_text(query) + ",\"numResults\":"@ + decimal(limit)
        + ",\"type\":\"auto\",\"livecrawl\":\"fallback\",\"contextMaxCharacters\":3000}}}"@
}

/// The body of a request to Exa, in JSON.
pub fn exa_request_body(query: &str, limit: usize) -> (r: String)
    ensures
        r@ == exa_body(query@, limit as int),
{
    let mut body =
        "{\"jsonrpc\":\"2.0\",\"id\":1,\"method\":\"tools/call\",\"params\":{\"name\":\"web_search_exa\",\"arguments\":{\"query\":".to_owned();
    body.append(to_json(query).as_str());
    body.append(",\"numResults\":");
    body.append(show_size(limit).as_str());
    body.append(",\"type\":\"auto\",\"livecrawl\":\"fallback\",\"contextMaxCharacters\":3000}}}");
    body
}

/// Where Exa is asked: at `endpoint`, with the key in the query if there is one.
pub open spec fn exa_url(endpoint: Seq<char>, api_key: Seq<char>) -> Result<Seq<char>, Seq<char>> {
    if trimmed(api_key).len() == 0 {
        match url_of(endpoint) {
            Ok(url) => Ok(url.text),
            Err(message) => Err(message),
        }
    } else {
        url_with_pair(endpoint, "exaApiKey"@, trimmed(api_key))
    }
}

/// Where Exa is asked.
pub fn exa_endpoint(endpoint: &str, api_key: &str) -> (r: AppResult<String>)
    requires
        endpoint@.len() + 9 + api_key@.len() <= MAX_URL_CHARS,
    ensures
        match r {
            Ok(url) => exa_url(endpoint@, api_key@) == Ok::<Seq<char>, Seq<char>>(url@),
            Err(e) => exa_url(endpoint@, api_key@) matches Err(message) && e@
                == ErrorView::Upstream("invalid exa endpoint: "@ + message),
        },
{
    let key = trim(api_key);
    proof {
        reveal_strlit("exaApiKey");
        lemma_trimmed_len(api_key@);
    }
    let outcome = if char_count(key.as_str()) == 0 {
        match parse_url(endpoint) {
            Ok(url) => Ok(url.text),
            Err(message) => Err(message),
        }
    } else {
        append_pair(endpoint, "exaApiKey", key.as_str())
    };
    match outcome {
        Ok(url) => Ok(url),
        Err(message) => {
            let mut text = "invalid exa endpoint: ".to_owned();
            text.append(message.as_str());
            Err(AppError::upstream(text))
        },
    }
}

/// The data of a line of an event stream, if it has any.
pub open spec fn line_data(line: Seq<char>) -> Option<Seq<char>> {
    match after_prefix(trimmed(line), "data:"@) {
        Some(rest) => if trimmed(rest).len() > 0 {
            Some(trimmed(rest))
        } else {
            None
        },
        None => None,
    }
}

/// The data of the lines from `i` on.
pub open spec fn data_from(lines: Seq<Seq<char>>, i: int) -> Seq<Seq<char>>
    decreases lines.len() - i,
{
    if i < 0 || i >= lines.len() {
        seq![]
    } else {
        match line_data(lines[i]) {
            Some(data) => seq![data] + data_from(lines, i + 1),
            None => data_from(lines, i + 1),
        }
    }
}

/// The data of an event stream, in its order.
pub fn sse_data(raw: &str) -> (r: Vec<String>)
    ensures
        texts(r@) == data_from(lines_of(raw@), 0),
{
    let all = lines(raw);
    let ghost view = texts(all@);
    let mut out: Vec<String> = Vec::new();
    let mut i: usize = 0;
    assert(texts(out@) + data_from(view, 0) =~= data_from(view, 0));
    while i < all.len()
        invariant
            view == texts(all@),
            i <= all@.len(),
            texts(out@) + data_from(view, i as int) == data_from(view, 0),
        decreases all@.len() - i,
    {
        let ghost before = texts(out@);
        let line = trim(all[i].as_str());
        if let Some(rest) = strip_prefix(line.as_str(), "data:") {
            let data = trim(rest.as_str());
            if char_count(data.as_str()) > 0 {
                out.push(data);
                assert(texts(out@) =~= before.push(data@));
                assert(texts(out@) + data_from(view, i + 1) =~= before + (seq![data@] + data_from(
                    view,
                    i + 1,
                )));
            }
        }
        i += 1;
    }
    assert(texts(out@) + data_from(view, i as int) =~= texts(out@));
    out
}

/// The last data of an event stream.
pub fn extract_sse_payload(raw: &str) -> (r: AppResult<String>)
    ensures
        match r {
            Ok(payload) => data_from(lines_of(raw@), 0).len() > 0 && payload@ == data_from(
                lines_of(raw@),
                0,
            ).last(),
            Err(e) => data_from(lines_of(raw@), 0).len() == 0 && e@ == ErrorView::Upstream(
                "exa response contained no data payload"@,
            ),
        },
{
    let data = sse_data(raw);
    assert(texts(data@).len() == data@.len());
    if data.len() == 0 {
        return Err(AppError::upstream("exa response contained no data payload".to_owned()));
    }
    Ok(data[data.len() - 1].clone())
}

/// Whether a line of a result of Exa is one of the fields that are known.
pub open spec fn is_exa_field(line: Seq<char>) -> bool {
    begins(line, "Title:"@) || begins(line, "URL:"@) || begins(line, "Highlights:"@) || begins(
        line,
        "Published date:"@,
    ) || begins(line, "Author:"@) || begins(line, "Score:"@)
}

/// Whether `line` is one of the fields that are known.
pub fn known_exa_prefix(line: &str) -> (r: bool)
    ensures
        r == is_exa_field(line@),
{
    starts_with(line, "Title:") || starts_with(line, "URL:") || starts_with(line, "Highlights:")
        || starts_with(line, "Published date:") || starts_with(line, "Author:") || starts_with(
        line,
        "Score:",
    )
}

/// A result and its lines of content after the lines from `i` on of its block: a
/// title, a URL, or content, of which the first line is the description.
pub open spec fn exa_lines(
    lines: Seq<Seq<char>>,
    i: int,
    result: SearchView,
    content: Seq<Seq<char>>,
) -> (SearchView, Seq<Seq<char>>)
    decreases lines.len() - i,
{
    if i < 0 || i >= lines.len() {
        (result, content)
    } else {
        let line = trimmed(lines[i]);
        if after_prefix(line, "Title:"@) is Some {
            exa_lines(
                lines,
                i + 1,
                SearchView { title: trimmed(after_prefix(line, "Title:"@)->0), ..result },
                content,
            )
        } else if after_prefix(line, "URL:"@) is Some {
            exa_lines(
                lines,
                i + 1,
                SearchView { url: trimmed(after_prefix(line, "URL:"@)->0), ..result },
                content,
            )
        } else if line.len() > 0 && !is_exa_field(line) {
            exa_lines(
                lines,
                i + 1,
                SearchView {
                    description: if result.description.len() == 0 {
                        line
                    } else {
                        result.description
                    },
                    ..result
                },
                content.push(line),
            )
        } else {
            exa_lines(lines, i + 1, result, content)
        }
    }
}

/// The result that a block of Exa's answer describes.
pub open spec fn exa_result(block: Seq<char>) -> SearchView {
    let read = exa_lines(lines_of(block), 0, SearchView::empty(), seq![]);
    SearchView { content: joined(read.1, "\n"@), ..read.0 }
}

fn exa_block(block: &str) -> (r: SearchResult)
    ensures
        r@ == exa_result(block@),
{
    let all = lines(block);
    let ghost view = texts(all@);
    let mut result = SearchResult::default();
    let mut content: Vec<String> = Vec::new();
    let mut i: usize = 0;
    assert(texts(content@) =~= seq![]);
    while i < all.len()
        invariant
            view == texts(all@),
            i <= all@.len(),
            result@.content.len() == 0,
            exa_lines(view, 0, SearchView::empty(), seq![]) == exa_lines(
                view,
                i as int,
                result@,
                texts(content@),
            ),
        decreases all@.len() - i,
    {
        let line = trim(all[i].as_str());
        let ghost before = texts(content@);
        if let Some(title) = strip_prefix(line.as_str(), "Title:") {
            result.title = trim(title.as_str());
        } else if let Some(url) = strip_prefix(line.as_str(), "URL:") {
            result.url = trim(url.as_str());
        } else if char_count(line.as_str()) > 0 && !known_exa_prefix(line.as_str()) {
            if char_count(result.description.as_str()) == 0 {
                result.description = line.clone();
            }
            content.push(line);
            assert(texts(content@) =~= before.push(line@));
        }
        i += 1;
    }
    result.content = join(&content, "\n");
    result
}

/// `found` and the results of the blocks from `i` on that have a title and a URL,
/// `limit` of them at most.
pub open spec fn exa_from(
    blocks: Seq<Seq<char>>,
    i: int,
    limit: int,
    found: Seq<SearchView>,
) -> Seq<SearchView>
    decreases blocks.len() - i,
{
    if i < 0 || i >= blocks.len() || found.len() >= limit {
        found
    } else {
        let result = exa_result(blocks[i]);
        if result.title.len() > 0 && result.url.len() > 0 {
            exa_from(blocks, i + 1, limit, found.push(result))
        } else {
            exa_from(blocks, i + 1, limit, found)
        }
    }
}

/// The results that a text of Exa's answer describes, `limit` of them at most.
pub open spec fn exa_list(raw: Seq<char>, limit: int) -> Seq<SearchView> {
    exa_from(split_of(raw, "\n---\n"@), 0, limit, seq![])
}

/// The results that a text of Exa's answer describes, `limit` of them at most.
pub fn parse_exa_content(raw: &str, limit: usize) -> (r: Vec<SearchResult>)
    ensures
        results_of(r@) == exa_list(raw@, limit as int),
        r@.len() <= limit,
{
    proof {
        reveal_strlit("\n---\n");
    }
    let blocks = split(raw, "\n---\n");
    let ghost view = texts(blocks@);
    let mut found: Vec<SearchResult> = Vec::new();
    let mut i: usize = 0;
    assert(results_of(found@) =~= seq![]);
    while i < blocks.len() && found.len() < limit
        invariant
            view == texts(blocks@),
            i <= blocks@.len(),
            found@.len() <= limit,
            exa_from(view, 0, limit as int, seq![]) == exa_from(
                view,
                i as int,
                limit as int,
                results_of(found@),
            ),
        decreases blocks@.len() - i,
    {
        let ghost before = results_of(found@);
        let result = exa_block(blocks[i].as_str());
        if char_count(result.title.as_str()) > 0 && char_count(result.url.as_str()) > 0 {
            found.push(result);
            assert(results_of(found@) =~= before.push(result@));
        }
        i += 1;
    }
    found
}

/// A part of an answer of Exa.
#[derive(Debug)]
pub struct ExaContent {
    pub kind: String,
    pub text: String,
}

/// `found` and the results of the parts from `i` on that are texts, `limit` of them
/// at most.
pub open spec fn exa_parts_from(
    parts: Seq<ExaContent>,
    i: int,
    limit: int,
    found: Seq<SearchView>,
) -> Seq<SearchView>
    decreases parts.len() - i,
{
    if i < 0 || i >= parts.len() {
        found
    } else if parts[i].kind@ != "text"@ || found.len() >= limit {
        exa_parts_from(parts, i + 1, limit, found)
    } else {
        exa_parts_from(
            parts,
            i + 1,
            limit,
            found + exa_list(parts[i].text@, limit - found.len()),
        )
    }
}

/// The results of an answer of Exa, `limit` of them at most.
pub fn exa_results(parts: &Vec<ExaContent>, limit: usize) -> (r: Vec<SearchResult>)
    ensures
        results_of(r@) == exa_parts_from(parts@, 0, limit as int, seq![]),
        r@.len() <= limit,
{
    let mut found: Vec<SearchResult> = Vec::new();
    let mut i: usize = 0;
    assert(results_of(found@) =~= seq![]);
    while i < parts.len()
        invariant
            i <= parts@.len(),
            found@.len() <= limit,
            exa_parts_from(parts@, 0, limit as int, seq![]) == exa_parts_from(
                parts@,
                i as int,
                limit as int,
                results_of(found@),
            ),
        decreases parts@.len() - i,
    {
        if same(parts[i].kind.as_str(), "text") && found.len() < limit {
            let ghost before = found@;
            let remaining: usize = limit - found.len();
            let mut more = parse_exa_content(parts[i].text.as_str(), remaining);
            let ghost added = more@;
            found.append(&mut more);
            assert(results_of(found@) =~= results_of(before) + results_of(added));
        }
        i += 1;
    }
    found
}

/// The results among the first `n` elements of a page of DuckDuckGo.
pub open spec fn ddg_hits(
    titles: Seq<Seq<InnerView>>,
    snippets: Seq<Seq<InnerView>>,
    n: int,
) -> Seq<SearchView>
    decreases n,
{
    if n <= 0 {
        seq![]
    } else {
        let before = ddg_hits(titles, snippets, n - 1);
        match ddg_result(
            titles[n - 1],
            if n - 1 < snippets.len() {
                snippets[n - 1]
            } else {
                seq![]
            },
        ) {
            Some(result) => before.push(result),
            None => before,
        }
    }
}

/// How many of the first `n` elements of a page of DuckDuckGo are results.
pub open spec fn ddg_count(
    titles: Seq<Seq<InnerView>>,
    snippets: Seq<Seq<InnerView>>,
    n: int,
) -> int
    decreases n,
{
    if n <= 0 {
        0
    } else {
        ddg_count(titles, snippets, n - 1) + (if ddg_result(
            titles[n - 1],
            if n - 1 < snippets.len() {
                snippets[n - 1]
            } else {
                seq![]
            },
        ) is Some {
            1int
        } else {
            0
        })
    }
}

proof fn lemma_ddg_hits_grow(
    titles: Seq<Seq<InnerView>>,
    snippets: Seq<Seq<InnerView>>,
    i: int,
    n: int,
)
    requires
        0 <= i <= n,
    ensures
        ddg_hits(titles, snippets, i).len() <= ddg_hits(titles, snippets, n).len(),
        ddg_hits(titles, snippets, n).take(ddg_hits(titles, snippets, i).len() as int) == ddg_hits(
            titles,
            snippets,
            i,
        ),
    decreases n - i,
{
    let few = ddg_hits(titles, snippets, i);
    let all = ddg_hits(titles, snippets, n);
    if i < n {
        lemma_ddg_hits_grow(titles, snippets, i, n - 1);
        let most = ddg_hits(titles, snippets, n - 1);
        assert(all.take(few.len() as int) =~= most.take(few.len() as int));
    } else {
        assert(all.take(few.len() as int) =~= few);
    }
}

proof fn lemma_ddg_from(
    titles: Seq<Seq<InnerView>>,
    snippets: Seq<Seq<InnerView>>,
    i: int,
    limit: int,
)
    requires
        0 <= i <= titles.len(),
        0 <= limit,
        ddg_hits(titles, snippets, i).len() <= limit,
    ensures
        ddg_from(titles, snippets, i, limit, ddg_hits(titles, snippets, i)) == ({
            let all = ddg_hits(titles, snippets, titles.len() as int);
            if all.len() <= limit {
                all
            } else {
                all.take(limit)
            }
        }),
    decreases titles.len() - i,
{
    let all = ddg_hits(titles, snippets, titles.len() as int);
    let few = ddg_hits(titles, snippets, i);
    lemma_ddg_hits_grow(titles, snippets, i, titles.len() as int);
    if few.len() >= limit {
        assert(all.take(limit) =~= few);
        if all.len() <= limit {
            assert(all.take(limit) =~= all);
        }
    } else if i < titles.len() {
        lemma_ddg_from(titles, snippets, i + 1, limit);
    }
}

proof fn lemma_ddg_count(titles: Seq<Seq<InnerView>>, snippets: Seq<Seq<InnerView>>, n: int)
    requires
        0 <= n,
    ensures
        ddg_hits(titles, snippets, n).len() == ddg_count(titles, snippets, n),
    decreases n,
{
    if n > 0 {
        lemma_ddg_count(titles, snippets, n - 1);
    }
}

/// A page of DuckDuckGo gives its first results, in their order: all of them where there are
/// not more than were asked for, and else as many as were asked for.
pub proof fn law_ddg_gives_the_first_results(
    titles: Seq<Seq<InnerView>>,
    snippets: Seq<Seq<InnerView>>,
    limit: int,
)
    requires
        limit >= 0,
    ensures
        ({
            let given = ddg_from(titles, snippets, 0, limit, seq![]);
            let count = ddg_count(titles, snippets, titles.len() as int);
            &&& given.len() == (if count < limit {
                count
            } else {
                limit
            })
            &&& given == ddg_hits(titles, snippets, titles.len() as int).take(given.len() as int)
        }),
{
    lemma_ddg_from(titles, snippets, 0, limit);
    lemma_ddg_count(titles, snippets, titles.len() as int);
    let all = ddg_hits(titles, snippets, titles.len() as int);
    assert(all.take(all.len() as int) =~= all);
}

/// Every element of a page of DuckDuckGo that is a result is given, where not more results
/// stand before it than were asked for.
pub proof fn law_no_ddg_result_is_left_out(
    titles: Seq<Seq<InnerView>>,
    snippets: Seq<Seq<InnerView>>,
    limit: int,
    i: int,
)
    requires
        0 <= i < titles.len() == snippets.len(),
        ddg_result(titles[i], snippets[i]) is Some,
        0 <= ddg_count(titles, snippets, i) < limit,
    ensures
        ({
            let given = ddg_from(titles, snippets, 0, limit, seq![]);
            let k = ddg_count(titles, snippets, i);
            k < given.len() && given[k] == ddg_result(titles[i], snippets[i])->0
        }),
{
    lemma_ddg_from(titles, snippets, 0, limit);
    lemma_ddg_count(titles, snippets, i);
    lemma_ddg_hits_grow(titles, snippets, i + 1, titles.len() as int);
    let all = ddg_hits(titles, snippets, titles.len() as int);
    let few = ddg_hits(titles, snippets, i + 1);
    assert(few == ddg_hits(titles, snippets, i).push(ddg_result(titles[i], snippets[i])->0));
    assert(all.take(few.len() as int)[few.len() - 1] == all[few.len() - 1]);
}

/// The results of a page of DuckDuckGo are its elements of the class `result`; each has its
/// title link and its snippet inside it.
pub proof fn law_where_ddg_results_stand(
    body: Seq<char>,
    titles: Seq<Seq<InnerView>>,
    snippets: Seq<Seq<InnerView>>,
    limit: int,
)
    requires
        selected_inside(body, ".result"@, ".result__title .result__a"@) == Some(titles),
        selected_inside(body, ".result"@, ".result__snippet"@) == Some(snippets),
        limit >= 0,
    ensures
        ddg_list(body, limit).len() == (if ddg_count(titles, snippets, titles.len() as int)
            < limit {
            ddg_count(titles, snippets, titles.len() as int)
        } else {
            limit
        }),
        ddg_list(body, limit) == ddg_hits(titles, snippets, titles.len() as int).take(
            ddg_list(body, limit).len() as int,
        ),
{
    law_ddg_gives_the_first_results(titles, snippets, limit);
}

/// An element is a result if it has a title link with words in it that leads somewhere. Its
/// title is the words of the first such link, its description those of the first snippet.
pub proof fn law_what_a_ddg_result_is(titles: Seq<InnerView>, snippets: Seq<InnerView>)
    ensures
        ddg_result(titles, snippets) is Some <==> titles.len() > 0 && collapsed(
            joined(titles[0].text, " "@),
        ).len() > 0 && (titles[0].href matches Some(href) && href.len() > 0),
        ddg_result(titles, snippets) matches Some(result) ==> result.title == collapsed(
            joined(titles[0].text, " "@),
        ) && result.url == ddg_url(titles[0].href->0) && (snippets.len() > 0 ==> result.description
            == collapsed(joined(snippets[0].text, " "@))) && (snippets.len() == 0
            ==> result.description.len() == 0) && result.content.len() == 0,
{
}

proof fn lemma_key_at(pairs: Seq<(Seq<char>, Seq<char>)>, key: Seq<char>, i: int, k: int)
    requires
        0 <= i <= k <= pairs.len(),
        forall|j: int| i <= j < k ==> (#[trigger] pairs[j]).0 != key,
        k < pairs.len() ==> pairs[k].0 == key,
    ensures
        key_at(pairs, key, i) == k,
    decreases k - i,
{
    if i < k {
        assert(pairs[i].0 != key);
        lemma_key_at(pairs, key, i + 1, k);
    }
}

/// A link that redirects leads to what the first `uddg` in its query says; any other link
/// leads where it says itself.
pub proof fn law_redirects_are_resolved(href: Seq<char>, k: int)
    requires
        0 <= k <= decoded_pairs(link_query(href)).len(),
        forall|j: int|
            0 <= j < k ==> (#[trigger] decoded_pairs(link_query(href))[j]).0 != "uddg"@,
        k < decoded_pairs(link_query(href)).len() ==> decoded_pairs(link_query(href))[k].0
            == "uddg"@,
    ensures
        k < decoded_pairs(link_query(href)).len() && decoded_pairs(link_query(href))[k].1.len() > 0
            ==> ddg_url(href) == decoded_pairs(link_query(href))[k].1,
        k == decoded_pairs(link_query(href)).len() || decoded_pairs(link_query(href))[k].1.len()
            == 0 ==> ddg_url(href) == href,
{
    lemma_key_at(decoded_pairs(link_query(href)), "uddg"@, 0, k);
}

/// The query of a link is what stands between its first question mark and the `#` behind it.
pub proof fn law_the_query_of_a_link(base: Seq<char>, query: Seq<char>, fragment: Seq<char>)
    requires
        !base.contains('?'),
        !query.contains('#'),
    ensures
        link_query(base) == Seq::<char>::empty(),
        link_query(base + seq!['?'] + query) == query,
        link_query(base + seq!['?'] + query + seq!['#'] + fragment) == query,
{
    let some = base + seq!['?'] + query;
    let more = base + seq!['?'] + query + seq!['#'] + fragment;
    law_cut_at_the_first(base, query, '?');
    law_cut_at_the_first(base, query + seq!['#'] + fragment, '?');
    assert(more =~= base + seq!['?'] + (query + seq!['#'] + fragment));
    law_cut_at_the_first(query, fragment, '#');
}

/// An answer of Brave holds results exactly if its status is 200; a key that is refused and
/// too many requests have their own errors.
pub proof fn law_the_errors_of_brave(status: int)
    ensures
        brave_error(status) is None <==> status == 200,
        brave_error(401) == Some(
            ErrorView::Upstream(
                "brave: invalid API key (set via: snarf config set brave_api_key <key>)"@,
            ),
        ),
        brave_error(429) == Some(ErrorView::Upstream("brave: rate limited"@)),
        status != 200 && status != 401 && status != 429 ==> brave_error(status) == Some(
            ErrorView::Upstream("brave returned status "@ + decimal(status)),
        ),
{
    reveal_strlit("brave");
    reveal_strlit(" returned status ");
    reveal_strlit("brave returned status ");
    assert("brave"@ + " returned status "@ =~= "brave returned status "@);
}

/// A request to Brave asks for the words of the query and for as many results as are wanted.
pub proof fn law_brave_is_asked_for_the_query(query: Seq<char>, limit: int)
    ensures
        brave_pairs(query, limit).contains(("q"@, query)),
        brave_pairs(query, limit).contains(("count"@, decimal(limit))),
        brave_pairs(query, limit).contains(("text_decorations"@, "false"@)),
        brave_pairs(query, limit).contains(("result_filter"@, "web"@)),
        brave_pairs(query, limit).len() == 4,
{
    let pairs = brave_pairs(query, limit);
    assert(pairs[0] == ("q"@, query));
    assert(pairs[1] == ("count"@, decimal(limit)));
    assert(pairs[2] == ("text_decorations"@, "false"@));
    assert(pairs[3] == ("result_filter"@, "web"@));
}

/// A result that is described has what describes it, and nothing else.
pub proof fn law_described_results(title: Seq<char>, url: Seq<char>, description: Seq<char>)
    ensures
        described(title, url, description).title == title,
        described(title, url, description).url == url,
        described(title, url, description).description == description,
        described(title, url, description).content.len() == 0,
{
}

/// Of a number of things no more are given than are asked for, and no fewer than can be.
pub proof fn law_at_most(len: int, limit: int)
    requires
        0 <= len,
        0 <= limit,
    ensures
        at_most(len, limit) <= len,
        at_most(len, limit) <= limit,
        at_most(len, limit) == len || at_most(len, limit) == limit,
{
}

/// A request to Exa calls its search with the query and the number of results in it.
pub proof fn law_exa_is_asked_for_the_query(query: Seq<char>, limit: int)
    ensures
        exa_body(query, limit)
            == "{\"jsonrpc\":\"2.0\",\"id\":1,\"method\":\"tools/call\",\"params\":{\"name\":\"web_search_exa\",\"arguments\":{\"query\":"@
            + json_text(query) + (",\"numResults\":"@ + decimal(limit)
            + ",\"type\":\"auto\",\"livecrawl\":\"fallback\",\"contextMaxCharacters\":3000}}}"@),
{
    assert(exa_body(query, limit)
        =~= "{\"jsonrpc\":\"2.0\",\"id\":1,\"method\":\"tools/call\",\"params\":{\"name\":\"web_search_exa\",\"arguments\":{\"query\":"@
        + json_text(query) + (",\"numResults\":"@ + decimal(limit)
        + ",\"type\":\"auto\",\"livecrawl\":\"fallback\",\"contextMaxCharacters\":3000}}}"@));
}

/// Exa is asked at the endpoint itself where there is no key but white space, else with the
/// key, without white space around it, in the query.
pub proof fn law_where_exa_is_asked(endpoint: Seq<char>, api_key: Seq<char>)
    ensures
        trimmed(api_key).len() > 0 ==> exa_url(endpoint, api_key) == url_with_pair(
            endpoint,
            "exaApiKey"@,
            trimmed(api_key),
        ),
        trimmed(api_key).len() == 0 ==> (url_of(endpoint) matches Ok(url) ==> exa_url(
            endpoint,
            api_key,
        ) == Ok::<Seq<char>, Seq<char>>(url.text)),
        trimmed(api_key).len() == 0 ==> (url_of(endpoint) matches Err(message) ==> exa_url(
            endpoint,
            api_key,
        ) == Err::<Seq<char>, Seq<char>>(message)),
{
}

proof fn lemma_data_from(lines: Seq<Seq<char>>, line: Seq<char>, i: int)
    requires
        0 <= i <= lines.len(),
    ensures
        data_from(lines.push(line), i) == data_from(lines, i) + (match line_data(line) {
            Some(data) => seq![data],
            None => seq![],
        }),
    decreases lines.len() - i,
{
    reveal_with_fuel(data_from, 2);
    let more = lines.push(line);
    if i < lines.len() {
        assert(more[i] == lines[i]);
        lemma_data_from(lines, line, i + 1);
    } else {
        assert(more[i] == line);
    }
    assert(data_from(more, i) =~= data_from(lines, i) + (match line_data(line) {
        Some(data) => seq![data],
        None => seq![],
    }));
}

/// The data of an event stream is what stands behind `data:` in its lines, without white space
/// around it, in their order; lines without data do not count.
pub proof fn law_the_data_of_a_stream(lines: Seq<Seq<char>>, line: Seq<char>)
    ensures
        data_from(seq![], 0) == Seq::<Seq<char>>::empty(),
        ({
            let text = trimmed(line);
            let rest = trimmed(text.skip(5));
            data_from(lines.push(line), 0) == (if begins(text, "data:"@) && rest.len() > 0 {
                data_from(lines, 0).push(rest)
            } else {
                data_from(lines, 0)
            })
        }),
{
    reveal_strlit("data:");
    let text = trimmed(line);
    if begins(text, "data:"@) {
        assert(text.subrange(5, text.len() as int) =~= text.skip(5));
    }
    lemma_data_from(lines, line, 0);
    assert(data_from(lines, 0) + seq![] =~= data_from(lines, 0));
    if let Some(data) = line_data(line) {
        assert(data_from(lines, 0) + seq![data] =~= data_from(lines, 0).push(data));
    }
}

proof fn lemma_exa_lines(
    lines: Seq<Seq<char>>,
    line: Seq<char>,
    i: int,
    result: SearchView,
    content: Seq<Seq<char>>,
)
    requires
        0 <= i <= lines.len(),
    ensures
        exa_lines(lines.push(line), i, result, content) == ({
            let before = exa_lines(lines, i, result, content);
            exa_lines(seq![line], 0, before.0, before.1)
        }),
    decreases lines.len() - i,
{
    reveal_with_fuel(exa_lines, 2);
    let more = lines.push(line);
    if i < lines.len() {
        assert(more[i] == lines[i]);
        let text = trimmed(lines[i]);
        if after_prefix(text, "Title:"@) is Some {
            lemma_exa_lines(
                lines,
                line,
                i + 1,
                SearchView { title: trimmed(after_prefix(text, "Title:"@)->0), ..result },
                content,
            );
        } else if after_prefix(text, "URL:"@) is Some {
            lemma_exa_lines(
                lines,
                line,
                i + 1,
                SearchView { url: trimmed(after_prefix(text, "URL:"@)->0), ..result },
                content,
            );
        } else if text.len() > 0 && !is_exa_field(text) {
            lemma_exa_lines(
                lines,
                line,
                i + 1,
                SearchView {
                    description: if result.description.len() == 0 {
                        text
                    } else {
                        result.description
                    },
                    ..result
                },
                content.push(text),
            );
        } else {
            lemma_exa_lines(lines, line, i + 1, result, content);
        }
    } else {
        assert(more[i] == line);
    }
}

/// A block of Exa's answer is read line by line: the last title and the last URL count, lines
/// of other fields and empty ones do not, and what is left is the content, of which the first
/// line is the description.
pub proof fn law_how_an_exa_block_is_read(lines: Seq<Seq<char>>, line: Seq<char>)
    ensures
        exa_lines(seq![], 0, SearchView::empty(), seq![]) == (
            SearchView::empty(),
            Seq::<Seq<char>>::empty(),
        ),
        ({
            let before = exa_lines(lines, 0, SearchView::empty(), seq![]);
            let after = exa_lines(lines.push(line), 0, SearchView::empty(), seq![]);
            let text = trimmed(line);
            if begins(text, "Title:"@) {
                after.0.title == trimmed(text.skip(6)) && after.0.url == before.0.url
                    && after.0.description == before.0.description && after.1 == before.1
            } else if begins(text, "URL:"@) {
                after.0.url == trimmed(text.skip(4)) && after.0.title == before.0.title
                    && after.0.description == before.0.description && after.1 == before.1
            } else if text.len() == 0 || begins(text, "Highlights:"@) || begins(
                text,
                "Published date:"@,
            ) || begins(text, "Author:"@) || begins(text, "Score:"@) {
                after == before
            } else {
                after.0.title == before.0.title && after.0.url == before.0.url && after.1
                    == before.1.push(text) && after.0.description == (
                if before.0.description.len() == 0 {
                    text
                } else {
                    before.0.description
                })
            }
        }),
{
    reveal_with_fuel(exa_lines, 2);
    reveal_strlit("Title:");
    reveal_strlit("URL:");
    lemma_exa_lines(lines, line, 0, SearchView::empty(), seq![]);
    let text = trimmed(line);
    if begins(text, "Title:"@) {
        assert(text.subrange(6, text.len() as int) =~= text.skip(6));
    }
    if begins(text, "URL:"@) {
        assert(text.subrange(4, text.len() as int) =~= text.skip(4));
    }
}

/// The result that a block of Exa's answer describes has the title, the URL and the
/// description that were read, and the content, one line below the other.
pub proof fn law_what_an_exa_block_describes(block: Seq<char>)
    ensures
        ({
            let read = exa_lines(lines_of(block), 0, SearchView::empty(), seq![]);
            let result = exa_result(block);
            result.title == read.0.title && result.url == read.0.url && result.description
                == read.0.description && result.content == joined(read.1, seq!['\n'])
        }),
{
    reveal_strlit("\n");
    assert("\n"@ =~= seq!['\n']);
}

/// The results among the first `n` blocks of Exa's answer.
pub open spec fn exa_hits(blocks: Seq<Seq<char>>, n: int) -> Seq<SearchView>
    decreases n,
{
    if n <= 0 {
        seq![]
    } else {
        let result = exa_result(blocks[n - 1]);
        if result.title.len() > 0 && result.url.len() > 0 {
            exa_hits(blocks, n - 1).push(result)
        } else {
            exa_hits(blocks, n - 1)
        }
    }
}

proof fn lemma_exa_hits_grow(blocks: Seq<Seq<char>>, i: int, n: int)
    requires
        0 <= i <= n,
    ensures
        exa_hits(blocks, i).len() <= exa_hits(blocks, n).len(),
        exa_hits(blocks, n).take(exa_hits(blocks, i).len() as int) == exa_hits(blocks, i),
    decreases n - i,
{
    let few = exa_hits(blocks, i);
    let all = exa_hits(blocks, n);
    if i < n {
        lemma_exa_hits_grow(blocks, i, n - 1);
        let most = exa_hits(blocks, n - 1);
        assert(all.take(few.len() as int) =~= most.take(few.len() as int));
    } else {
        assert(all.take(few.len() as int) =~= few);
    }
}

proof fn lemma_exa_from(blocks: Seq<Seq<char>>, i: int, limit: int)
    requires
        0 <= i <= blocks.len(),
        0 <= limit,
        exa_hits(blocks, i).len() <= limit,
    ensures
        exa_from(blocks, i, limit, exa_hits(blocks, i)) == ({
            let all = exa_hits(blocks, blocks.len() as int);
            if all.len() <= limit {
                all
            } else {
                all.take(limit)
            }
        }),
    decreases blocks.len() - i,
{
    let all = exa_hits(blocks, blocks.len() as int);
    let few = exa_hits(blocks, i);
    lemma_exa_hits_grow(blocks, i, blocks.len() as int);
    if few.len() >= limit {
        assert(all.take(limit) =~= few);
        if all.len() <= limit {
            assert(all.take(limit) =~= all);
        }
    } else if i < blocks.len() {
        lemma_exa_from(blocks, i + 1, limit);
    }
}

/// A text of Exa's answer gives the first results of its blocks, in their order: all of them
/// where there are not more than were asked for, and else as many as were asked for. Blocks
/// have a line of three dashes between them; one without title or URL is no result.
pub proof fn law_exa_gives_the_first_results(raw: Seq<char>, limit: int)
    requires
        limit >= 0,
    ensures
        ({
            let blocks = split_of(raw, seq!['\n', '-', '-', '-', '\n']);
            let all = exa_hits(blocks, blocks.len() as int);
            exa_list(raw, limit) == (if all.len() <= limit {
                all
            } else {
                all.take(limit)
            })
        }),
{
    reveal_strlit("\n---\n");
    assert("\n---\n"@ =~= seq!['\n', '-', '-', '-', '\n']);
    lemma_exa_from(split_of(raw, "\n---\n"@), 0, limit);
}

proof fn lemma_exa_parts(
    parts: Seq<ExaContent>,
    part: ExaContent,
    i: int,
    limit: int,
    found: Seq<SearchView>,
)
    requires
        0 <= i <= parts.len(),
    ensures
        exa_parts_from(parts.push(part), i, limit, found) == exa_parts_from(
            seq![part],
            0,
            limit,
            exa_parts_from(parts, i, limit, found),
        ),
    decreases parts.len() - i,
{
    reveal_with_fuel(exa_parts_from, 2);
    let more = parts.push(part);
    if i < parts.len() {
        assert(more[i] == parts[i]);
        if parts[i].kind@ != "text"@ || found.len() >= limit {
            lemma_exa_parts(parts, part, i + 1, limit, found);
        } else {
            lemma_exa_parts(
                parts,
                part,
                i + 1,
                limit,
                found + exa_list(parts[i].text@, limit - found.len()),
            );
        }
    } else {
        assert(more[i] == part);
    }
}

/// The texts of an answer of Exa give their results one after the other, until there are as
/// many as were asked for; other parts give none.
pub proof fn law_the_parts_of_an_exa_answer(
    parts: Seq<ExaContent>,
    part: ExaContent,
    limit: int,
)
    ensures
        exa_parts_from(seq![], 0, limit, seq![]) == Seq::<SearchView>::empty(),
        ({
            let before = exa_parts_from(parts, 0, limit, seq![]);
            let after = exa_parts_from(parts.push(part), 0, limit, seq![]);
            if part.kind@ == "text"@ && before.len() < limit {
                after == before + exa_list(part.text@, limit - before.len())
            } else {
                after == before
            }
        }),
{
    reveal_with_fuel(exa_parts_from, 2);
    lemma_exa_parts(parts, part, 0, limit, seq![]);
}

/// The error of a service names it and the status of its answer.
pub proof fn law_the_error_of_a_service(service: Seq<char>, status: int)
    ensures
        bad_status(service, status) == ErrorView::Upstream(
            service + " returned status "@ + decimal(status),
        ),
{
}

/// A list of results is seen as its results are, in their order.
pub proof fn law_what_a_list_of_results_holds(results: Seq<SearchResult>)
    ensures
        results_of(results).len() == results.len(),
        forall|i: int| 0 <= i < results.len() ==> #[trigger] results_of(results)[i] == results[i]@,
{
}

/// The results of Brave are those for the web; there are none without them.
pub proof fn law_the_results_of_brave(body: BraveResponse)
    ensures
        body.web matches Some(web) ==> brave_list(body) == web.results@,
        body.web is None ==> brave_list(body).len() == 0,
{
}

/// Brave gives its first results, in their order: all of them where there are not more than were
/// asked for, and else as many as were asked for.
pub proof fn law_brave_gives_the_first_results(list: Seq<BraveResult>, limit: int, i: int)
    requires
        limit >= 0,
    ensures
        list.len() <= limit ==> brave_page(list, limit).len() == list.len(),
        list.len() > limit ==> brave_page(list, limit).len() == limit,
        0 <= i < brave_page(list, limit).len() ==> brave_page(list, limit)[i].title
            == list[i].title@ && brave_page(list, limit)[i].url == list[i].url@ && brave_page(
            list,
            limit,
        )[i].description == list[i].description@,
{
}

/// SearXNG gives its first results, in their order: all of them where there are not more than
/// were asked for, and else as many as were asked for. Their content is the description.
pub proof fn law_searxng_gives_the_first_results(list: Seq<SearxngResult>, limit: int, i: int)
    requires
        limit >= 0,
    ensures
        list.len() <= limit ==> searxng_page(list, limit).len() == list.len(),
        list.len() > limit ==> searxng_page(list, limit).len() == limit,
        0 <= i < searxng_page(list, limit).len() ==> searxng_page(list, limit)[i].title
            == list[i].title@ && searxng_page(list, limit)[i].url == list[i].url@ && searxng_page(
            list,
            limit,
        )[i].description == list[i].content@,
{
}

/// SearXNG is asked at `/search` of the instance, with or without a slash at its end, for the
/// first page of the query in JSON.
pub proof fn law_what_searxng_is_asked(base: Seq<char>, slashes: Seq<char>, query: Seq<char>)
    requires
        base.len() > 0,
        base[0] != '/',
        base.last() != '/',
        forall|i: int| 0 <= i < slashes.len() ==> #[trigger] slashes[i] == '/',
    ensures
        searxng_address(base + slashes) == base + "/search"@,
        searxng_pairs(query).len() == 3,
        searxng_pairs(query)[0] == ("q"@, query),
        searxng_pairs(query)[1] == ("format"@, "json"@),
        searxng_pairs(query)[2] == ("pageno"@, "1"@),
{
    crate::text::law_dropping_one_character(seq![], base, slashes, '/');
}

/// An answer of DuckDuckGo is read if its status is 200; a request that is only accepted is
/// repeated, so that three are sent at most.
pub proof fn law_how_often_ddg_is_asked(status: int, sent: int)
    ensures
        ddg_reads(status) <==> status == 200,
        ddg_retries(202, 1),
        ddg_retries(202, 2),
        sent >= 3 ==> !ddg_retries(status, sent),
        status != 202 ==> !ddg_retries(status, sent),
{
}

} // verus!
