//! URLs and query strings, as the `url` crate reads and writes them.

use vstd::prelude::*;

use crate::text::{drop_back, only, split_of};

verus! {

/// The parts of a URL.
#[derive(Debug)]
pub struct UrlParts {
    /// The whole URL as it is written out.
    pub text: String,
    pub scheme: String,
    pub host: Option<String>,
    pub path: String,
    /// The decoded pairs of the query, in their order.
    pub pairs: Vec<(String, String)>,
}

/// What a [`UrlParts`] holds.
pub struct UrlView {
    pub text: Seq<char>,
    pub scheme: Seq<char>,
    pub host: Option<Seq<char>>,
    pub path: Seq<char>,
    pub pairs: Seq<(Seq<char>, Seq<char>)>,
}

/// The texts of a sequence of pairs.
pub open spec fn pairs_of(v: Seq<(String, String)>) -> Seq<(Seq<char>, Seq<char>)> {
    Seq::new(v.len(), |i: int| (v[i].0@, v[i].1@))
}

/// The text of an optional string.
pub open spec fn maybe(v: Option<String>) -> Option<Seq<char>> {
    match v {
        Some(s) => Some(s@),
        None => None,
    }
}

/// The text of an optional string, empty where there is none.
pub open spec fn or_empty(v: Option<Seq<char>>) -> Seq<char> {
    match v {
        Some(s) => s,
        None => seq![],
    }
}

impl View for UrlParts {
    type V = UrlView;

    open spec fn view(&self) -> UrlView {
        UrlView {
            text: self.text@,
            scheme: self.scheme@,
            host: maybe(self.host),
            path: self.path@,
            pairs: pairs_of(self.pairs@),
        }
    }
}

/// What `url::Url::parse` reads in a text: the parts of the URL, or the error
/// in words.
pub uninterp spec fn url_of(raw: Seq<char>) -> Result<UrlView, Seq<char>>;

/// `url::Url::parse`, with what the getters of the `Url` return. It reads the
/// same parts in the same text every time, or fails with the same message.
#[verifier::external_body]
pub(crate) fn parse_url(raw: &str) -> (r: Result<UrlParts, String>)
    ensures
        match r {
            Ok(url) => url_of(raw@) == Ok::<UrlView, Seq<char>>(url@),
            Err(message) => url_of(raw@) == Err::<UrlView, Seq<char>>(message@),
        },
{
    let url = url::Url::parse(raw).map_err(|error| error.to_string())?;
    Ok(UrlParts {
        text: url.to_string(),
        scheme: url.scheme().to_string(),
        host: url.host_str().map(str::to_string),
        path: url.path().to_string(),
        pairs: url.query_pairs().map(|(k, v)| (k.into_owned(), v.into_owned())).collect(),
    })
}

/// Whether a URL with this scheme is one of the web.
pub open spec fn is_web(scheme: Seq<char>) -> bool {
    scheme == "http"@ || scheme == "https"@
}

/// Whether a URL is one of the web whose host `url` reads again as it has written it: it
/// refuses to decode a part between dots of more than two thousand characters.
pub open spec fn is_steady(url: UrlView) -> bool {
    is_web(url.scheme) && match url.host {
        Some(host) => forall|i: int|
            0 <= i < split_of(host, "."@).len() ==> (#[trigger] split_of(host, "."@)[i]).len()
                <= 2000,
        None => false,
    }
}

/// Whether `text` is what is written of a URL like `url`, and is read as that.
pub open spec fn writes(text: Seq<char>, url: UrlView) -> bool {
    url_of(text) == Ok::<UrlView, Seq<char>>(UrlView { text: text, ..url })
}

/// Whether a text is read as the URL of the web that is written `plain` without its
/// fragment, with these pairs in its query.
pub open spec fn reads_as(
    text: Seq<char>,
    plain: Seq<char>,
    pairs: Seq<(Seq<char>, Seq<char>)>,
) -> bool {
    &&& url_of(text) is Ok
    &&& url_without_fragment(text) == Some(plain)
    &&& url_of(plain) matches Ok(url) && is_web(url.scheme) && url.pairs == pairs
}

/// A URL without its fragment.
pub uninterp spec fn url_without_fragment(raw: Seq<char>) -> Option<Seq<char>>;

/// `url::Url::set_fragment(None)` on the URL that `raw` denotes; nothing where it denotes
/// none. The `#` stands before a fragment and nowhere else in a URL. `url` reads what it
/// has written of a URL of the web as the same URL, so nothing but the fragment changes.
#[verifier::external_body]
pub(crate) fn drop_fragment(raw: &str) -> (r: Option<String>)
    ensures
        maybe(r) == url_without_fragment(raw@),
        r is Some <==> url_of(raw@) is Ok,
        r matches Some(text) ==> !text@.contains('#'),
        r matches Some(text) ==> is_steady(url_of(raw@)->Ok_0) ==> writes(
            text@,
            url_of(raw@)->Ok_0,
        ),
{
    let mut url = url::Url::parse(raw).ok()?;
    url.set_fragment(None);
    Some(url.to_string())
}

/// Whether `text` is read as a URL of the web without query, which is written as `text`
/// but for slashes at its end.
pub open spec fn unslashed_again(text: Seq<char>) -> bool {
    let written = url_of(text)->Ok_0.text;
    &&& reads_as(text, written, seq![])
    &&& url_without_query(written) == Some(written)
    &&& drop_back(written, only('/')) == text
}

/// A URL without its query.
pub uninterp spec fn url_without_query(raw: Seq<char>) -> Option<Seq<char>>;

/// `url::Url::set_query(None)` on the URL that `raw` denotes; nothing where it denotes
/// none. It gives a URL no fragment that it does not have. A URL of the web that has none
/// ends in its path then; without the slashes at its end it is read as the same page or as
/// the one without them, and what is written of that differs in such slashes at most.
#[verifier::external_body]
pub(crate) fn drop_query(raw: &str) -> (r: Option<String>)
    ensures
        maybe(r) == url_without_query(raw@),
        r is Some <==> url_of(raw@) is Ok,
        r matches Some(text) ==> !raw@.contains('#') ==> !text@.contains('#'),
        r matches Some(text) ==> !raw@.contains('#') && is_steady(url_of(raw@)->Ok_0)
            ==> unslashed_again(drop_back(text@, only('/'))),
{
    let mut url = url::Url::parse(raw).ok()?;
    url.set_query(None);
    Some(url.to_string())
}

/// The characters of an encoded query.
pub open spec fn form_char(c: char) -> bool {
    ||| '0' <= c <= '9'
    ||| 'A' <= c <= 'Z'
    ||| 'a' <= c <= 'z'
    ||| c == '*'
    ||| c == '-'
    ||| c == '.'
    ||| c == '_'
    ||| c == '+'
    ||| c == '%'
    ||| c == '='
    ||| c == '&'
}

/// A URL with another query.
pub uninterp spec fn url_with_query(raw: Seq<char>, query: Seq<char>) -> Option<Seq<char>>;

/// `url::Url::set_query` with a query, on the URL that `raw` denotes. A URL of the web is
/// then what it is without its query, a question mark and the new query, as far as this is
/// encoded already, and is read again as it is written. The method panics where the query would begin, or a fragment behind
/// it, at more than four gigabytes: so `raw` has a query before and no fragment.
#[verifier::external_body]
pub(crate) fn set_query(raw: &str, query: &str) -> (r: Option<String>)
    requires
        !raw@.contains('#'),
        url_of(raw@) matches Ok(url) && url.pairs.len() > 0,
    ensures
        maybe(r) == url_with_query(raw@, query@),
        r is Some,
        r matches Some(text) ==> !text@.contains('#'),
        is_web(url_of(raw@)->Ok_0.scheme) && (forall|i: int|
            0 <= i < query@.len() ==> form_char(#[trigger] query@[i])) ==> maybe(r) == Some(
            or_empty(url_without_query(raw@)) + "?"@ + query@,
        ),
        r matches Some(text) ==> is_steady(url_of(raw@)->Ok_0) && (forall|i: int|
            0 <= i < query@.len() ==> form_char(#[trigger] query@[i])) ==> reads_as(
            text@,
            text@,
            decoded_pairs(query@),
        ),
        r matches Some(text) ==> is_steady(url_of(raw@)->Ok_0) && (forall|i: int|
            0 <= i < query@.len() ==> form_char(#[trigger] query@[i])) ==> url_without_query(text@)
            == url_without_query(raw@),
{
    let mut url = url::Url::parse(raw).ok()?;
    url.set_query(Some(query));
    Some(url.to_string())
}

/// What `url::Url::join` makes of a reference: the URL and its scheme.
pub uninterp spec fn url_joined(base: Seq<char>, reference: Seq<char>) -> Option<(
    Seq<char>,
    Seq<char>,
)>;

/// `url::Url::join`: the URL that `reference` denotes on the page at `base`, and
/// its scheme. Nothing where either is not a URL.
#[verifier::external_body]
pub(crate) fn join_url(base: &str, reference: &str) -> (r: Option<(String, String)>)
    ensures
        match r {
            Some(url) => url_joined(base@, reference@) == Some((url.0@, url.1@)),
            None => url_joined(base@, reference@) is None,
        },
{
    let url = url::Url::parse(base).ok()?.join(reference).ok()?;
    Some((url.to_string(), url.scheme().to_string()))
}

/// What appending a pair to the query of a URL gives, or the error in words.
pub uninterp spec fn url_with_pair(raw: Seq<char>, key: Seq<char>, value: Seq<char>) -> Result<
    Seq<char>,
    Seq<char>,
>;

/// How many characters a URL and what it gets may have together. A character takes far
/// less than a hundred bytes in a URL, and `url` counts up to four gigabytes.
pub const MAX_URL_CHARS: usize = 0x200_0000;

/// `query_pairs_mut().append_pair` on the URL that `raw` denotes. The method
/// panics where the URL gets longer than four gigabytes.
#[verifier::external_body]
pub(crate) fn append_pair(raw: &str, key: &str, value: &str) -> (r: Result<String, String>)
    requires
        raw@.len() + key@.len() + value@.len() <= MAX_URL_CHARS,
    ensures
        match r {
            Ok(text) => url_with_pair(raw@, key@, value@) == Ok::<Seq<char>, Seq<char>>(text@),
            Err(message) => url_with_pair(raw@, key@, value@) == Err::<Seq<char>, Seq<char>>(
                message@,
            ),
        },
{
    let mut url = url::Url::parse(raw).map_err(|error| error.to_string())?;
    url.query_pairs_mut().append_pair(key, value);
    Ok(url.to_string())
}

/// What a URL becomes with another path.
pub uninterp spec fn url_with_path(raw: Seq<char>, path: Seq<char>) -> Option<Seq<char>>;

/// `url::Url::set_path` on the URL that `raw` denotes; nothing where it denotes none. The
/// method panics where the URL gets longer than four gigabytes.
#[verifier::external_body]
pub(crate) fn set_path(raw: &str, path: &str) -> (r: Option<String>)
    requires
        raw@.len() + path@.len() <= MAX_URL_CHARS,
    ensures
        maybe(r) == url_with_path(raw@, path@),
        r is Some <==> url_of(raw@) is Ok,
{
    let mut url = url::Url::parse(raw).ok()?;
    url.set_path(path);
    Some(url.to_string())
}

/// What `url::form_urlencoded::Serializer` writes for a list of pairs.
pub uninterp spec fn encoded_pairs(pairs: Seq<(Seq<char>, Seq<char>)>) -> Seq<char>;

/// `url::form_urlencoded::Serializer::extend_pairs`: the pairs as a query string, in which
/// few characters occur and in which `url::form_urlencoded::parse` reads the same pairs.
#[verifier::external_body]
pub(crate) fn encode_pairs(pairs: &Vec<(String, String)>) -> (r: String)
    ensures
        r@ == encoded_pairs(pairs_of(pairs@)),
        forall|i: int| 0 <= i < r@.len() ==> form_char(#[trigger] r@[i]),
        decoded_pairs(r@) == pairs_of(pairs@),
{
    url::form_urlencoded::Serializer::new(String::new()).extend_pairs(pairs).finish()
}

/// The pairs that `url::form_urlencoded::parse` reads in a query string.
pub uninterp spec fn decoded_pairs(query: Seq<char>) -> Seq<(Seq<char>, Seq<char>)>;

/// `url::form_urlencoded::parse`: the pairs of a query string, decoded.
#[verifier::external_body]
pub(crate) fn decode_pairs(query: &str) -> (r: Vec<(String, String)>)
    ensures
        pairs_of(r@) == decoded_pairs(query@),
{
    url::form_urlencoded::parse(query.as_bytes())
        .map(|(key, value)| (key.into_owned(), value.into_owned()))
        .collect()
}

/// The parts of a URL are seen as its fields are.
pub proof fn law_what_the_parts_of_a_url_hold(record: UrlParts)
    ensures
        record@.text == record.text@,
        record@.scheme == record.scheme@,
        record@.path == record.path@,
        record.host matches Some(value) ==> record@.host == Some(value@),
        record.host is None ==> record@.host is None,
        record@.pairs.len() == record.pairs@.len(),
        forall|i: int|
            0 <= i < record.pairs@.len() ==> #[trigger] record@.pairs[i] == (
                record.pairs@[i].0@,
                record.pairs@[i].1@,
            ),
{
}

/// The URLs of the web are those of `http` and `https`.
pub proof fn law_which_urls_are_of_the_web(scheme: Seq<char>)
    ensures
        is_web(scheme) <==> scheme == "http"@ || scheme == "https"@,
{
}

/// What there is not is empty, and what there is stays.
pub proof fn law_what_there_is_not_is_empty(text: Seq<char>)
    ensures
        or_empty(Some(text)) == text,
        or_empty(None).len() == 0,
{
}

} // verus!
