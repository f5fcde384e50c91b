//! Crawling a site: which pages are visited, and what becomes of each.

use vstd::hash_map::StringHashMap;
use vstd::hash_set::StringHashSet;
use vstd::prelude::*;

use crate::cache::{maybe_cached, CachedPage, CachedView};
use crate::error::{AppError, AppResult, ErrorView};
use crate::extract::matched;
use crate::html::{elements, select, selected, Element, ElementView};
use crate::pattern::{check_pattern, is_match, pattern_error, pattern_matches};
use crate::scrape::{cache_stale_for_browser, stale, FetchResult, FetchView, Scraper};
use crate::system::{quoted, quoted_of};
use crate::text::{
    begins, char_count, comes_before, contains, drop_back, lemma_back_while, lemma_less_total,
    lemma_less_transitive, less, occurs, only, same, starts_with, texts, trim_end_matches,
};
use crate::types::{Page, PageView};
use crate::web::{
    drop_fragment, drop_query, encode_pairs, encoded_pairs, form_char, is_steady, is_web, join_url,
    maybe, or_empty, pairs_of, parse_url, reads_as, set_query, url_joined, url_of, url_with_query,
    url_without_fragment, url_without_query, UrlView,
};

pub use crate::status::{generate_crawl_id, list_statuses, status_dir, status_path, CrawlStatus};

verus! {

/// How far a crawl goes, and past what.
#[derive(Debug)]
pub struct CrawlOptions {
    /// How many links away from the start pages may be.
    pub depth: usize,
    /// How many pages are fetched at a time.
    pub concurrency: usize,
    /// Parts of paths of which a page has to have one, if there are any.
    pub allow: Vec<String>,
    /// Patterns of the URLs that are left out.
    pub deny: Vec<String>,
}

/// A pair of texts.
pub type Pair = (Seq<char>, Seq<char>);

/// Whether a pair comes before another one: by the first text, then by the second.
pub open spec fn pair_less(a: Pair, b: Pair) -> bool {
    less(a.0, b.0) || (a.0 == b.0 && less(a.1, b.1))
}

/// Whether the key of a pair marks a campaign and not a page.
pub open spec fn is_tracking(pair: Pair) -> bool {
    begins(pair.0, "utm_"@)
}

/// The first index from `i` on of a pair that comes behind `x`, or the length.
pub open spec fn slot(pairs: Seq<Pair>, x: Pair, i: int) -> int
    decreases pairs.len() - i,
{
    if i < 0 || i >= pairs.len() || pair_less(x, pairs[i]) {
        i
    } else {
        slot(pairs, x, i + 1)
    }
}

/// `kept` with the pairs from `i` on that mark no campaign sorted in.
pub open spec fn sorted_from(pairs: Seq<Pair>, i: int, kept: Seq<Pair>) -> Seq<Pair>
    decreases pairs.len() - i,
{
    if i < 0 || i >= pairs.len() {
        kept
    } else if is_tracking(pairs[i]) {
        sorted_from(pairs, i + 1, kept)
    } else {
        sorted_from(pairs, i + 1, kept.insert(slot(kept, pairs[i], 0), pairs[i]))
    }
}

/// The pairs of a query that tell pages apart, in order.
pub open spec fn significant(pairs: Seq<Pair>) -> Seq<Pair> {
    sorted_from(pairs, 0, seq![])
}

/// Whether pairs are in order.
pub open spec fn in_order(pairs: Seq<Pair>) -> bool {
    forall|i: int, j: int|
        0 <= i < j < pairs.len() ==> !pair_less(#[trigger] pairs[j], #[trigger] pairs[i])
}

proof fn lemma_pair_less(a: Pair, b: Pair, c: Pair)
    ensures
        pair_less(a, b) || pair_less(b, a) || a == b,
        !(pair_less(a, b) && pair_less(b, a)),
        pair_less(a, b) && pair_less(b, c) ==> pair_less(a, c),
        !pair_less(b, a) && !pair_less(c, b) ==> !pair_less(c, a),
{
    lemma_less_total(a.0, b.0);
    lemma_less_total(a.1, b.1);
    lemma_less_total(b.0, c.0);
    lemma_less_total(b.1, c.1);
    lemma_less_total(a.0, c.0);
    lemma_less_total(a.1, c.1);
    if less(a.0, b.0) && less(b.0, c.0) {
        lemma_less_transitive(a.0, b.0, c.0);
    }
    if less(a.1, b.1) && less(b.1, c.1) {
        lemma_less_transitive(a.1, b.1, c.1);
    }
    if less(c.0, a.0) && less(a.0, b.0) {
        lemma_less_transitive(c.0, a.0, b.0);
    }
    if less(c.1, a.1) && less(a.1, b.1) {
        lemma_less_transitive(c.1, a.1, b.1);
    }
}

proof fn lemma_slot(pairs: Seq<Pair>, x: Pair, i: int)
    requires
        0 <= i <= pairs.len(),
    ensures
        i <= slot(pairs, x, i) <= pairs.len(),
        slot(pairs, x, i) < pairs.len() ==> pair_less(x, pairs[slot(pairs, x, i)]),
        forall|k: int| i <= k < slot(pairs, x, i) ==> !pair_less(x, #[trigger] pairs[k]),
    decreases pairs.len() - i,
{
    if i < pairs.len() && !pair_less(x, pairs[i]) {
        lemma_slot(pairs, x, i + 1);
    }
}

proof fn lemma_insert_in_order(pairs: Seq<Pair>, x: Pair)
    requires
        in_order(pairs),
    ensures
        in_order(pairs.insert(slot(pairs, x, 0), x)),
{
    let k = slot(pairs, x, 0);
    lemma_slot(pairs, x, 0);
    let after = pairs.insert(k, x);
    assert forall|i: int, j: int| 0 <= i < j < after.len() implies !pair_less(
        #[trigger] after[j],
        #[trigger] after[i],
    ) by {
        if j < k {
            assert(after[i] == pairs[i] && after[j] == pairs[j]);
        } else if j == k {
            assert(after[i] == pairs[i]);
        } else if i < k {
            assert(after[i] == pairs[i] && after[j] == pairs[j - 1]);
        } else if i == k {
            // x comes before pairs[k], which does not come behind pairs[j - 1].
            assert(after[j] == pairs[j - 1]);
            lemma_pair_less(x, pairs[k], pairs[j - 1]);
            if j - 1 > k {
                assert(!pair_less(pairs[j - 1], pairs[k]));
            } else {
                lemma_pair_less(x, pairs[k], x);
            }
        } else {
            assert(after[i] == pairs[i - 1] && after[j] == pairs[j - 1]);
        }
    }
}

proof fn lemma_sorted_from(pairs: Seq<Pair>, i: int, kept: Seq<Pair>)
    requires
        0 <= i,
        in_order(kept),
        forall|k: int| 0 <= k < kept.len() ==> !is_tracking(#[trigger] kept[k]),
    ensures
        in_order(sorted_from(pairs, i, kept)),
        forall|k: int|
            0 <= k < sorted_from(pairs, i, kept).len() ==> !is_tracking(
                #[trigger] sorted_from(pairs, i, kept)[k],
            ),
        sorted_from(pairs, i, kept).to_multiset() == kept.to_multiset().add(
            pairs.skip(i).filter(|p: Pair| !is_tracking(p)).to_multiset(),
        ) || i > pairs.len(),
    decreases pairs.len() - i,
{
    broadcast use vstd::seq_lib::group_to_multiset_ensures;

    let keep = |p: Pair| !is_tracking(p);
    if i > pairs.len() {
    } else if i == pairs.len() {
        assert(pairs.skip(i) =~= Seq::<Pair>::empty());
        assert(pairs.skip(i).filter(keep) =~= Seq::<Pair>::empty()) by {
            reveal(Seq::filter);
        }
        assert(kept.to_multiset().add(Seq::<Pair>::empty().to_multiset()) =~= kept.to_multiset());
    } else {
        let rest = pairs.skip(i + 1);
        assert(pairs.skip(i) =~= seq![pairs[i]] + rest);
        Seq::filter_distributes_over_add(seq![pairs[i]], rest, keep);
        let one = seq![pairs[i]];
        assert(one.filter(keep) =~= if keep(pairs[i]) {
            one
        } else {
            Seq::<Pair>::empty()
        }) by {
            reveal(Seq::filter);
            assert(one.drop_last() =~= Seq::<Pair>::empty());
            assert(one.drop_last().filter(keep) =~= Seq::<Pair>::empty());
            assert(Seq::<Pair>::empty().push(pairs[i]) =~= one);
        }
        if is_tracking(pairs[i]) {
            lemma_sorted_from(pairs, i + 1, kept);
            assert(pairs.skip(i).filter(keep) =~= rest.filter(keep));
        } else {
            let k = slot(kept, pairs[i], 0);
            lemma_slot(kept, pairs[i], 0);
            lemma_insert_in_order(kept, pairs[i]);
            let next = kept.insert(k, pairs[i]);
            assert forall|m: int| 0 <= m < next.len() implies !is_tracking(#[trigger] next[m]) by {
                if m < k {
                    assert(next[m] == kept[m]);
                } else if m > k {
                    assert(next[m] == kept[m - 1]);
                }
            }
            lemma_sorted_from(pairs, i + 1, next);
            vstd::seq_lib::to_multiset_insert(kept, k, pairs[i]);
            vstd::seq_lib::lemma_multiset_commutative(one, rest.filter(keep));
            assert(pairs.skip(i).filter(keep) =~= one + rest.filter(keep));
            assert(one.to_multiset() =~= vstd::multiset::Multiset::empty().insert(pairs[i])) by {
                assert(one =~= Seq::<Pair>::empty().push(pairs[i]));
            }
            assert(next.to_multiset().add(rest.filter(keep).to_multiset())
                =~= kept.to_multiset().add((one + rest.filter(keep)).to_multiset()));
        }
    }
}

/// The query of a normalised URL holds exactly the pairs of the query that mark no
/// campaign, as often as they occur, in order.
pub proof fn law_significant_pairs(pairs: Seq<Pair>)
    ensures
        in_order(significant(pairs)),
        significant(pairs).to_multiset() == pairs.filter(
            |p: Pair| !is_tracking(p),
        ).to_multiset(),
{
    lemma_sorted_from(pairs, 0, seq![]);
    assert(pairs.skip(0) =~= pairs);
    let keep = |p: Pair| !is_tracking(p);
    broadcast use vstd::seq_lib::group_to_multiset_ensures;

    assert(Seq::<Pair>::empty().to_multiset().add(pairs.filter(keep).to_multiset())
        =~= pairs.filter(keep).to_multiset());
}

fn pair_comes_before(a: &(String, String), b: &(String, String)) -> (r: bool)
    ensures
        r == pair_less((a.0@, a.1@), (b.0@, b.1@)),
{
    comes_before(a.0.as_str(), b.0.as_str()) || (same(a.0.as_str(), b.0.as_str()) && comes_before(
        a.1.as_str(),
        b.1.as_str(),
    ))
}

/// The pairs of a query that tell pages apart, in order.
pub fn significant_pairs(pairs: &Vec<(String, String)>) -> (r: Vec<(String, String)>)
    ensures
        pairs_of(r@) == significant(pairs_of(pairs@)),
{
    let ghost all = pairs_of(pairs@);
    let mut kept: Vec<(String, String)> = Vec::new();
    let mut i: usize = 0;
    assert(pairs_of(kept@) =~= seq![]);
    while i < pairs.len()
        invariant
            all == pairs_of(pairs@),
            i <= pairs@.len(),
            significant(all) == sorted_from(all, i as int, pairs_of(kept@)),
        decreases pairs@.len() - i,
    {
        if !starts_with(pairs[i].0.as_str(), "utm_") {
            let ghost before = pairs_of(kept@);
            let mut k: usize = 0;
            while k < kept.len() && !pair_comes_before(&pairs[i], &kept[k])
                invariant
                    i < pairs@.len(),
                    all == pairs_of(pairs@),
                    before == pairs_of(kept@),
                    k <= kept@.len(),
                    slot(before, all[i as int], 0) == slot(before, all[i as int], k as int),
                decreases kept@.len() - k,
            {
                k += 1;
            }
            kept.insert(k, (pairs[i].0.clone(), pairs[i].1.clone()));
            assert(pairs_of(kept@) =~= before.insert(k as int, all[i as int]));
        }
        i += 1;
    }
    kept
}

/// The URL `base` with the pairs `pairs` as its query, without slashes at its end.
pub open spec fn normal_form(base: Seq<char>, pairs: Seq<Pair>) -> Seq<char> {
    drop_back(
        if pairs.len() > 0 {
            base + "?"@ + encoded_pairs(pairs)
        } else {
            base
        },
        only('/'),
    )
}

/// A URL by which a page is known: without its fragment, with the pairs of its
/// query that tell pages apart, in order, and without slashes at its end. Empty
/// where `raw` is not a URL.
pub open spec fn normalized(raw: Seq<char>) -> Seq<char> {
    let plain = or_empty(url_without_fragment(raw));
    match (url_of(raw), url_of(plain)) {
        (Ok(_), Ok(url)) => {
            let pairs = significant(url.pairs);
            if is_web(url.scheme) || pairs.len() == 0 {
                normal_form(or_empty(url_without_query(plain)), pairs)
            } else {
                drop_back(or_empty(url_with_query(plain, encoded_pairs(pairs))), only('/'))
            }
        },
        _ => seq![],
    }
}

proof fn lemma_significant_len(pairs: Seq<Pair>)
    requires
        significant(pairs).len() > 0,
    ensures
        pairs.len() > 0,
{
}

proof fn lemma_nothing_to_drop()
    ensures
        drop_back(seq![], only('/')) == Seq::<char>::empty(),
{
    assert(drop_back(seq![], only('/')) =~= seq![]);
}

proof fn lemma_filter_all(pairs: Seq<Pair>)
    requires
        forall|i: int| 0 <= i < pairs.len() ==> !is_tracking(#[trigger] pairs[i]),
    ensures
        pairs.filter(|p: Pair| !is_tracking(p)) == pairs,
    decreases pairs.len(),
{
    reveal(Seq::filter);
    if pairs.len() > 0 {
        let front = pairs.drop_last();
        assert forall|i: int| 0 <= i < front.len() implies !is_tracking(#[trigger] front[i]) by {
            assert(front[i] == pairs[i]);
        }
        lemma_filter_all(front);
        assert(!is_tracking(pairs[pairs.len() - 1]));
        assert(front.push(pairs.last()) =~= pairs);
    } else {
        assert(pairs.filter(|p: Pair| !is_tracking(p)) =~= pairs);
    }
}

/// Picking out the pairs that tell pages apart a second time changes nothing.
pub proof fn law_significant_pairs_stay(pairs: Seq<Pair>)
    ensures
        significant(significant(pairs)) == significant(pairs),
{
    lemma_sorted_from(pairs, 0, seq![]);
    lemma_filter_all(significant(pairs));
    law_significant_pairs(pairs);
    lemma_significant_unique(significant(pairs), pairs);
}

proof fn lemma_normal_again(plain: Seq<char>, pairs: Seq<Pair>, text: Seq<char>)
    requires
        significant(pairs).len() > 0,
        forall|i: int|
            0 <= i < encoded_pairs(significant(pairs)).len() ==> form_char(
                #[trigger] encoded_pairs(significant(pairs))[i],
            ),
        text == or_empty(url_without_query(plain)) + "?"@ + encoded_pairs(significant(pairs)),
        reads_as(text, text, significant(pairs)),
        url_without_query(text) == url_without_query(plain),
    ensures
        drop_back(text, only('/')) == text,
        normalized(text) == text,
{
    law_significant_pairs_stay(pairs);
    reveal_strlit("?");
    let query = encoded_pairs(significant(pairs));
    assert(text.last() != '/') by {
        if query.len() > 0 {
            assert(form_char(query[query.len() - 1]));
            assert(text.last() == query[query.len() - 1]);
        } else {
            assert(text.last() == "?"@[0]);
        }
    }
    assert(drop_back(text, only('/')) =~= text);
}

/// The URL by which the page at `raw` is known.
pub fn normalize_url(raw: &str) -> (r: String)
    ensures
        r@ == normalized(raw@),
        !r@.contains('#'),
        url_of(raw@) matches Ok(url) && is_steady(url) ==> normalized(r@) == r@,
{
    let plain = match drop_fragment(raw) {
        Some(plain) => plain,
        None => {
            return String::new();
        },
    };
    let url = match parse_url(plain.as_str()) {
        Ok(url) => url,
        Err(_) => {
            return String::new();
        },
    };
    let pairs = significant_pairs(&url.pairs);
    let text = if pairs.len() > 0 {
        proof {
            lemma_significant_len(url@.pairs);
        }
        set_query(plain.as_str(), encode_pairs(&pairs).as_str())
    } else {
        drop_query(plain.as_str())
    };
    match text {
        Some(text) => {
            proof {
                lemma_drop_back(text@, '/');
                if is_steady(url@) && pairs@.len() > 0 {
                    lemma_normal_again(plain@, url@.pairs, text@);
                }
                assert(significant(seq![]) =~= seq![]);
            }
            trim_end_matches(text.as_str(), '/')
        },
        None => {
            proof {
                lemma_nothing_to_drop();
            }
            String::new()
        },
    }
}

/// No URL by which a page is known ends in a slash.
pub proof fn law_no_slash_at_the_end(raw: Seq<char>)
    ensures
        normalized(raw).len() > 0 ==> normalized(raw).last() != '/',
{
    let plain = or_empty(url_without_fragment(raw));
    match (url_of(raw), url_of(plain)) {
        (Ok(_), Ok(url)) => {
            let pairs = significant(url.pairs);
            let base = or_empty(url_without_query(plain));
            lemma_drop_back(base, '/');
            lemma_drop_back(base + "?"@ + encoded_pairs(pairs), '/');
            lemma_drop_back(or_empty(url_with_query(plain, encoded_pairs(pairs))), '/');
        },
        _ => {},
    }
}

proof fn lemma_drop_back(s: Seq<char>, c: char)
    ensures
        drop_back(s, only(c)).len() > 0 ==> drop_back(s, only(c)).last() != c,
        forall|x: char| !s.contains(x) ==> !#[trigger] drop_back(s, only(c)).contains(x),
{
    lemma_back_while(s, only(c), s.len() as int);
    let kept = drop_back(s, only(c));
    assert forall|x: char| !s.contains(x) implies !#[trigger] kept.contains(x) by {
        if kept.contains(x) {
            let i = choose|i: int| 0 <= i < kept.len() && kept[i] == x;
            assert(s[i] == x);
        }
    }
}

proof fn lemma_significant_unique(a: Seq<Pair>, b: Seq<Pair>)
    requires
        a.filter(|p: Pair| !is_tracking(p)).to_multiset() == b.filter(
            |p: Pair| !is_tracking(p),
        ).to_multiset(),
    ensures
        significant(a) == significant(b),
{
    law_significant_pairs(a);
    law_significant_pairs(b);
    let leq = |x: Pair, y: Pair| !pair_less(y, x);
    assert(vstd::relations::total_ordering(leq)) by {
        assert forall|x: Pair, y: Pair, z: Pair| #[trigger] leq(x, y) && #[trigger] leq(
            y,
            z,
        ) implies leq(x, z) by {
            lemma_pair_less(x, y, z);
        }
        assert forall|x: Pair, y: Pair| #[trigger] leq(x, y) && #[trigger] leq(y, x) implies x
            == y by {
            lemma_pair_less(x, y, x);
        }
        assert forall|x: Pair, y: Pair| #[trigger] leq(x, y) || #[trigger] leq(y, x) by {
            lemma_pair_less(x, y, x);
        }
        assert forall|x: Pair| #[trigger] leq(x, x) by {
            lemma_pair_less(x, x, x);
        }
    }
    vstd::seq_lib::lemma_sorted_unique(significant(a), significant(b), leq);
}

/// Two URLs of the web that differ only in their fragments, in pairs that mark a campaign
/// and in the order of the pairs are known as one.
pub proof fn law_equivalent_urls_are_known_as_one(a: Seq<char>, b: Seq<char>)
    requires
        url_of(a) is Ok,
        url_of(b) is Ok,
        url_of(or_empty(url_without_fragment(a))) matches Ok(url) && is_web(url.scheme),
        url_of(or_empty(url_without_fragment(b))) matches Ok(url) && is_web(url.scheme),
        url_without_query(or_empty(url_without_fragment(a))) == url_without_query(
            or_empty(url_without_fragment(b)),
        ),
        url_of(or_empty(url_without_fragment(a)))->Ok_0.pairs.filter(
            |p: Pair| !is_tracking(p),
        ).to_multiset() == url_of(or_empty(url_without_fragment(b)))->Ok_0.pairs.filter(
            |p: Pair| !is_tracking(p),
        ).to_multiset(),
    ensures
        normalized(a) == normalized(b),
{
    lemma_significant_unique(
        url_of(or_empty(url_without_fragment(a)))->Ok_0.pairs,
        url_of(or_empty(url_without_fragment(b)))->Ok_0.pairs,
    );
}

/// A regular expression.
#[derive(Debug)]
pub struct Pattern {
    text: String,
}

impl View for Pattern {
    type V = Seq<char>;

    closed spec fn view(&self) -> Seq<char> {
        self.text@
    }
}

impl Pattern {
    /// The pattern `text`, or why it is none.
    pub fn new(text: &str) -> (r: Result<Self, String>)
        ensures
            match r {
                Ok(pattern) => pattern@ == text@ && pattern_error(text@) is None,
                Err(message) => pattern_error(text@) == Some(message@),
            },
    {
        match check_pattern(text) {
            Some(message) => Err(message),
            None => Ok(Pattern { text: text.to_owned() }),
        }
    }

    /// Whether the pattern matches somewhere in `text`.
    pub fn is_match(&self, text: &str) -> (r: bool)
        ensures
            r == pattern_matches(self@, text@),
    {
        is_match(self.text.as_str(), text)
    }
}

/// The texts of a list of patterns.
pub open spec fn patterns_of(patterns: Seq<Pattern>) -> Seq<Seq<char>> {
    Seq::new(patterns.len(), |i: int| patterns[i]@)
}

/// The index from `i` on of the first text that is not a pattern, or the length.
pub open spec fn broken_pattern(patterns: Seq<Seq<char>>, i: int) -> int
    decreases patterns.len() - i,
{
    if i < 0 || i >= patterns.len() || pattern_error(patterns[i]) is Some {
        i
    } else {
        broken_pattern(patterns, i + 1)
    }
}

/// The error for the first text that is not a pattern, if there is one.
pub open spec fn deny_error(patterns: Seq<Seq<char>>) -> Option<ErrorView> {
    let k = broken_pattern(patterns, 0);
    if k < patterns.len() {
        Some(
            ErrorView::Upstream(
                "invalid deny pattern "@ + quoted_of(patterns[k]) + ": "@ + or_empty(
                    pattern_error(patterns[k]),
                ),
            ),
        )
    } else {
        None
    }
}

/// The patterns of a list of texts. The first that is none is an error.
pub fn compile_deny(patterns: &Vec<String>) -> (r: AppResult<Vec<Pattern>>)
    ensures
        match r {
            Ok(compiled) => deny_error(texts(patterns@)) is None && patterns_of(compiled@) == texts(
                patterns@,
            ),
            Err(e) => deny_error(texts(patterns@)) == Some(e@),
        },
{
    let ghost all = texts(patterns@);
    let mut out: Vec<Pattern> = Vec::new();
    let mut i: usize = 0;
    while i < patterns.len()
        invariant
            all == texts(patterns@),
            i <= patterns@.len(),
            broken_pattern(all, 0) == broken_pattern(all, i as int),
            out@.len() == i,
            forall|k: int| 0 <= k < i ==> (#[trigger] out@[k])@ == all[k],
        decreases patterns@.len() - i,
    {
        match Pattern::new(patterns[i].as_str()) {
            Ok(pattern) => {
                out.push(pattern);
            },
            Err(message) => {
                let mut text = "invalid deny pattern ".to_owned();
                text.append(quoted(patterns[i].as_str()).as_str());
                text.append(": ");
                text.append(message.as_str());
                return Err(AppError::upstream(text));
            },
        }
        i += 1;
    }
    assert(patterns_of(out@) =~= all);
    Ok(out)
}

/// Whether a pattern of `deny` matches a URL.
pub open spec fn denies(deny: Seq<Seq<char>>, raw: Seq<char>) -> bool {
    exists|i: int| 0 <= i < deny.len() && pattern_matches(#[trigger] deny[i], raw)
}

/// Whether a page is let through that is at `path` of a host: one of the site at
/// `seed_host` that is not denied, and whose path has a part that is in `allow`, unless
/// that is empty.
pub open spec fn admitted(
    host: Option<Seq<char>>,
    path: Seq<char>,
    denied: bool,
    seed_host: Seq<char>,
    allow: Seq<Seq<char>>,
) -> bool {
    &&& or_empty(host) == seed_host
    &&& !denied
    &&& allow.len() == 0 || exists|i: int|
        0 <= i < allow.len() && occurs(path, #[trigger] allow[i])
}

/// Whether a page is one of the site at `host` that the filters let through.
pub open spec fn passes(
    raw: Seq<char>,
    host: Seq<char>,
    allow: Seq<Seq<char>>,
    deny: Seq<Seq<char>>,
) -> bool {
    match url_of(raw) {
        Err(_) => false,
        Ok(url) => admitted(url.host, url.path, denies(deny, raw), host, allow),
    }
}

/// Whether a page at `path` of `host` is let through, where `denied` says whether a
/// pattern denies it.
pub fn admits(
    host: &Option<String>,
    path: &str,
    denied: bool,
    seed_host: &str,
    allow: &Vec<String>,
) -> (r: bool)
    ensures
        r == admitted(maybe(*host), path@, denied, seed_host@, texts(allow@)),
{
    let same_host = match host {
        Some(host) => same(host.as_str(), seed_host),
        None => char_count(seed_host) == 0,
    };
    assert(same_host == (or_empty(maybe(*host)) == seed_host@)) by {
        assert(seed_host@.len() == 0 ==> seed_host@ =~= seq![]);
    }
    if !same_host || denied {
        return false;
    }
    if allow.len() == 0 {
        return true;
    }
    let ghost parts = texts(allow@);
    let mut k: usize = 0;
    while k < allow.len()
        invariant
            or_empty(maybe(*host)) == seed_host@,
            !denied,
            parts == texts(allow@),
            k <= allow@.len(),
            forall|j: int| 0 <= j < k ==> !occurs(path@, #[trigger] parts[j]),
        decreases allow@.len() - k,
    {
        if contains(path, allow[k].as_str()) {
            assert(occurs(path@, parts[k as int]));
            return true;
        }
        k += 1;
    }
    false
}

fn is_denied(raw_url: &str, deny: &Vec<Pattern>) -> (r: bool)
    ensures
        r == denies(patterns_of(deny@), raw_url@),
{
    let ghost patterns = patterns_of(deny@);
    let mut i: usize = 0;
    while i < deny.len()
        invariant
            patterns == patterns_of(deny@),
            i <= deny@.len(),
            forall|k: int| 0 <= k < i ==> !pattern_matches(#[trigger] patterns[k], raw_url@),
        decreases deny@.len() - i,
    {
        if deny[i].is_match(raw_url) {
            assert(pattern_matches(patterns[i as int], raw_url@));
            return true;
        }
        i += 1;
    }
    false
}

/// Whether the filters let the page at `raw_url` through.
pub fn passes_filters(raw_url: &str, seed_host: &str, allow: &Vec<String>, deny: &Vec<Pattern>) -> (r:
    bool)
    ensures
        r == passes(raw_url@, seed_host@, texts(allow@), patterns_of(deny@)),
{
    match parse_url(raw_url) {
        Ok(url) => admits(
            &url.host,
            url.path.as_str(),
            is_denied(raw_url, deny),
            seed_host,
            allow,
        ),
        Err(_) => false,
    }
}

/// Whether a reference leads to no page.
pub open spec fn leads_nowhere(href: Seq<char>) -> bool {
    href.len() == 0 || begins(href, "javascript:"@) || begins(href, "mailto:"@) || begins(
        href,
        "tel:"@,
    ) || begins(href, "#"@)
}

/// The URL that a reference resolved to, with its scheme, where it is one of the web.
pub open spec fn web_page(resolved: Option<(Seq<char>, Seq<char>)>) -> Option<Seq<char>> {
    match resolved {
        Some(url) => if url.1 == "http"@ || url.1 == "https"@ {
            Some(url.0)
        } else {
            None
        },
        None => None,
    }
}

/// The page that a link on the page at `base` leads to.
pub open spec fn link_target(base: Seq<char>, link: ElementView) -> Option<Seq<char>> {
    match link.href {
        None => None,
        Some(href) => if leads_nowhere(href) {
            None
        } else {
            web_page(url_joined(base, href))
        },
    }
}

/// Whether `href` leads to no other page.
pub fn is_skipped(href: &str) -> (r: bool)
    ensures
        r == leads_nowhere(href@),
{
    char_count(href) == 0 || starts_with(href, "javascript:") || starts_with(href, "mailto:")
        || starts_with(href, "tel:") || starts_with(href, "#")
}

/// The URL of `resolved`, which holds a URL and its scheme, where it is one of the web.
pub fn keep_web_page(resolved: Option<(String, String)>) -> (r: Option<String>)
    ensures
        maybe(r) == web_page(
            match resolved {
                Some(url) => Some((url.0@, url.1@)),
                None => None,
            },
        ),
{
    match resolved {
        Some(url) => if same(url.1.as_str(), "http") || same(url.1.as_str(), "https") {
            Some(url.0)
        } else {
            None
        },
        None => None,
    }
}

/// The pages that the links from `i` on lead to.
pub open spec fn targets_from(base: Seq<char>, links: Seq<ElementView>, i: int) -> Seq<Seq<char>>
    decreases links.len() - i,
{
    if i < 0 || i >= links.len() {
        seq![]
    } else {
        match link_target(base, links[i]) {
            Some(url) => seq![url] + targets_from(base, links, i + 1),
            None => targets_from(base, links, i + 1),
        }
    }
}

/// The pages that the links of the document `html` at `page_url` lead to.
pub open spec fn links_of(page_url: Seq<char>, html: Seq<char>) -> Seq<Seq<char>> {
    match url_of(page_url) {
        Ok(_) => targets_from(page_url, matched(html, "a[href]"@), 0),
        Err(_) => seq![],
    }
}

fn target_of(base: &str, link: &Element) -> (r: Option<String>)
    ensures
        maybe(r) == link_target(base@, link@),
{
    match &link.href {
        None => None,
        Some(href) => if is_skipped(href.as_str()) {
            None
        } else {
            keep_web_page(join_url(base, href.as_str()))
        },
    }
}

/// The pages that links on the page at `base` lead to.
pub fn link_targets(base: &str, links: &Vec<Element>) -> (r: Vec<String>)
    ensures
        texts(r@) == targets_from(base@, elements(links@), 0),
{
    let ghost view = elements(links@);
    let mut out: Vec<String> = Vec::new();
    let mut i: usize = 0;
    assert(texts(out@) + targets_from(base@, view, 0) =~= targets_from(base@, view, 0));
    while i < links.len()
        invariant
            view == elements(links@),
            i <= links@.len(),
            texts(out@) + targets_from(base@, view, i as int) == targets_from(base@, view, 0),
        decreases links@.len() - i,
    {
        let ghost before = texts(out@);
        assert(view[i as int] == links@[i as int]@);
        if let Some(url) = target_of(base, &links[i]) {
            out.push(url);
            assert(texts(out@) =~= before.push(url@));
            assert(texts(out@) + targets_from(base@, view, i + 1) =~= before + (seq![url@]
                + targets_from(base@, view, i + 1)));
        }
        i += 1;
    }
    assert(texts(out@) + targets_from(base@, view, i as int) =~= texts(out@));
    out
}

/// The pages that the links of the document `html` at `page_url` lead to.
pub fn extract_links(page_url: &str, html: &str) -> (r: Vec<String>)
    ensures
        texts(r@) == links_of(page_url@, html@),
{
    let mut none: Vec<String> = Vec::new();
    assert(texts(none@) =~= seq![]);
    if parse_url(page_url).is_err() {
        return none;
    }
    proof {
        reveal_strlit("a[href]");
    }
    match select(html, "a[href]") {
        Some(links) => link_targets(page_url, &links),
        None => none,
    }
}

/// A page that waits to be visited.
#[derive(Debug)]
pub struct QueueItem {
    /// The URL under which it is known.
    pub url: String,
    /// The URL at which it is fetched.
    pub fetch_url: String,
    /// How many links away from the start it is.
    pub depth: usize,
    /// How it was come upon.
    pub source: String,
}

/// What a [`QueueItem`] holds.
#[verifier::ext_equal]
pub struct ItemView {
    pub url: Seq<char>,
    pub fetch_url: Seq<char>,
    pub depth: int,
    pub source: Seq<char>,
}

impl View for QueueItem {
    type V = ItemView;

    open spec fn view(&self) -> ItemView {
        ItemView {
            url: self.url@,
            fetch_url: self.fetch_url@,
            depth: self.depth as int,
            source: self.source@,
        }
    }
}

/// What a list of waiting pages holds.
pub open spec fn items_of(items: Seq<QueueItem>) -> Seq<ItemView> {
    Seq::new(items.len(), |i: int| items[i]@)
}

/// What every step of a crawl looks at: the site, its filters and the depth.
pub struct Bounds {
    pub host: Seq<char>,
    pub allow: Seq<Seq<char>>,
    pub deny: Seq<Seq<char>>,
    pub depth: int,
}

/// The page that comes to wait when `raw` is come upon, if any: one that was not
/// yet come upon and that the filters let through. `target` is the URL at which
/// `raw` is fetched.
pub open spec fn queued(
    bounds: Bounds,
    visited: Set<Seq<char>>,
    raw: Seq<char>,
    target: Seq<char>,
    depth: int,
    source: Seq<char>,
) -> Option<ItemView> {
    let fetch = normalized(target);
    let shown = normalized(raw);
    if fetch.len() == 0 || visited.contains(fetch) || !passes(
        fetch,
        bounds.host,
        bounds.allow,
        bounds.deny,
    ) {
        None
    } else {
        Some(
            ItemView {
                url: if shown.len() == 0 {
                    fetch
                } else {
                    shown
                },
                fetch_url: fetch,
                depth: depth,
                source: source,
            },
        )
    }
}

/// The host of a site: that of the URL it is fetched at, or else that of its own URL, or
/// else none.
pub open spec fn chosen_host(fetched: Option<Seq<char>>, own: Option<Seq<char>>) -> Seq<char> {
    match fetched {
        Some(host) => host,
        None => or_empty(own),
    }
}

/// The host of a site: `fetched`, or else `own`, or else none.
pub fn choose_host(fetched: Option<String>, own: Option<String>) -> (r: String)
    ensures
        r@ == chosen_host(maybe(fetched), maybe(own)),
{
    match fetched {
        Some(host) => host,
        None => match own {
            Some(host) => host,
            None => {
                let none = String::new();
                assert(none@ =~= seq![]);
                none
            },
        },
    }
}

/// The host of the site of a crawl that starts at `seed`, which is fetched at
/// `target`.
pub open spec fn seed_host(seed: UrlView, target: Seq<char>) -> Seq<char> {
    chosen_host(
        if normalized(target).len() == 0 {
            None
        } else {
            host_of(normalized(target))
        },
        seed.host,
    )
}

/// A crawl of one site: what was come upon and what waits to be visited.
pub struct Crawl {
    scraper: Scraper,
    host: String,
    allow: Vec<String>,
    deny: Vec<Pattern>,
    max_depth: usize,
    visited: StringHashSet,
    waiting: Vec<QueueItem>,
    history: Ghost<Seq<ItemView>>,
}

impl Crawl {
    /// The site of the crawl and its filters.
    pub closed spec fn bounds(self) -> Bounds {
        Bounds {
            host: self.host@,
            allow: texts(self.allow@),
            deny: patterns_of(self.deny@),
            depth: self.max_depth as int,
        }
    }

    /// The URL at which the page at `url` is fetched.
    pub closed spec fn target(self, url: Seq<char>) -> Seq<char> {
        self.scraper.target(url)
    }

    /// The pages that were ever put to wait, in this order.
    pub closed spec fn history(self) -> Seq<ItemView> {
        self.history@
    }

    /// The pages that wait to be visited.
    pub closed spec fn waiting(self) -> Seq<ItemView> {
        items_of(self.waiting@)
    }

    /// The URLs at which pages were come upon.
    pub closed spec fn visited(self) -> Set<Seq<char>> {
        self.visited@
    }

    /// Of each page that was put to wait the URL is remembered; no page was put to
    /// wait twice, none that the filters hold back, and none too many links away
    /// from the start; what waits was put to wait last.
    pub open spec fn valid(self) -> bool {
        let past = self.history();
        &&& forall|i: int|
            0 <= i < past.len() ==> self.visited().contains((#[trigger] past[i]).fetch_url)
        &&& forall|i: int, j: int|
            0 <= i < j < past.len() ==> (#[trigger] past[i]).fetch_url != (
            #[trigger] past[j]).fetch_url
        &&& forall|i: int|
            0 <= i < past.len() ==> passes(
                (#[trigger] past[i]).fetch_url,
                self.bounds().host,
                self.bounds().allow,
                self.bounds().deny,
            ) && 0 <= past[i].depth <= self.bounds().depth
        &&& self.waiting().len() <= past.len()
        &&& self.waiting() == past.skip(past.len() - self.waiting().len())
    }

    /// Whether nothing changed but what was come upon.
    pub open spec fn same_site(self, before: Crawl) -> bool {
        &&& self.bounds() == before.bounds()
        &&& forall|url: Seq<char>| self.target(url) == before.target(url)
    }

    /// A crawl of the site at `seed`.
    pub fn start(seed: &str, scraper: &Scraper, options: CrawlOptions) -> (r: AppResult<Self>)
        ensures
            match r {
                Ok(crawl) => {
                    &&& url_of(seed@) is Ok
                    &&& crawl.valid()
                    &&& crawl.history() == Seq::<ItemView>::empty()
                    &&& crawl.visited() == Set::<Seq<char>>::empty()
                    &&& crawl.bounds().host == seed_host(
                        url_of(seed@)->Ok_0,
                        scraper.target(seed@),
                    )
                    &&& crawl.bounds().allow == texts(options.allow@)
                    &&& crawl.bounds().deny == texts(options.deny@)
                    &&& crawl.bounds().depth == options.depth
                    &&& forall|url: Seq<char>| crawl.target(url) == scraper.target(url)
                    &&& deny_error(texts(options.deny@)) is None
                },
                Err(e) => match url_of(seed@) {
                    Err(message) => e@ == ErrorView::Upstream("invalid seed URL: "@ + message),
                    Ok(_) => deny_error(texts(options.deny@)) == Some(e@),
                },
            },
    {
        let seed_url = match parse_url(seed) {
            Ok(url) => url,
            Err(message) => {
                let mut text = "invalid seed URL: ".to_owned();
                text.append(message.as_str());
                return Err(AppError::upstream(text));
            },
        };
        let fetch_url = normalize_url(scraper.rewrite(seed).as_str());
        let found = if char_count(fetch_url.as_str()) == 0 {
            None
        } else {
            read_host(fetch_url.as_str())
        };
        let host = choose_host(found, seed_url.host);
        let deny = compile_deny(&options.deny)?;
        let crawl = Crawl {
            scraper: scraper.clone(),
            host: host,
            allow: options.allow,
            deny: deny,
            max_depth: options.depth,
            visited: StringHashSet::new(),
            waiting: Vec::new(),
            history: Ghost(Seq::empty()),
        };
        assert(crawl.waiting() =~= crawl.history().skip(0));
        Ok(crawl)
    }

    /// Comes upon the page at `raw_url`, `depth` links away from the start.
    pub fn enqueue(&mut self, raw_url: &str, depth: usize, source: &str)
        requires
            old(self).valid(),
            depth <= old(self).bounds().depth,
        ensures
            final(self).valid(),
            final(self).same_site(*old(self)),
            match queued(
                old(self).bounds(),
                old(self).visited(),
                raw_url@,
                old(self).target(raw_url@),
                depth as int,
                source@,
            ) {
                None => final(self).history() == old(self).history() && final(self).waiting()
                    == old(self).waiting() && final(self).visited() == old(self).visited(),
                Some(item) => {
                    &&& final(self).history() == old(self).history().push(item)
                    &&& final(self).waiting() == old(self).waiting().push(item)
                    &&& final(self).visited() == old(self).visited().insert(item.fetch_url)
                },
            },
    {
        let ghost past = self.history@;
        let ghost waited = items_of(self.waiting@);
        let ghost seen = self.visited@;
        let target = self.scraper.rewrite(raw_url);
        let fetch_url = normalize_url(target.as_str());
        if char_count(fetch_url.as_str()) == 0 || self.visited.contains(fetch_url.as_str()) {
            return;
        }
        if !passes_filters(fetch_url.as_str(), self.host.as_str(), &self.allow, &self.deny) {
            return;
        }
        let shown = normalize_url(raw_url);
        let url = if char_count(shown.as_str()) == 0 {
            fetch_url.clone()
        } else {
            shown
        };
        self.visited.insert(fetch_url.clone());
        let item = QueueItem {
            url: url,
            fetch_url: fetch_url,
            depth: depth,
            source: source.to_owned(),
        };
        let ghost view = item@;
        self.waiting.push(item);
        self.history = Ghost(past.push(view));
        assert(items_of(self.waiting@) =~= waited.push(view));
        assert(self.waiting() =~= self.history().skip(
            self.history().len() - self.waiting().len(),
        )) by {
            assert(waited == past.skip(past.len() - waited.len()));
        }
        assert forall|i: int, j: int| 0 <= i < j < self.history().len() implies (
        #[trigger] self.history()[i]).fetch_url != (#[trigger] self.history()[j]).fetch_url by {
            assert(self.history()[i] == past[i]);
            if j == past.len() {
                assert(seen.contains(past[i].fetch_url));
            } else {
                assert(self.history()[j] == past[j]);
            }
        }
    }

    /// Comes upon the pages at `links` on a page `depth` links away from the start.
    pub fn add_links(&mut self, depth: usize, links: &Vec<String>)
        requires
            old(self).valid(),
            links@.len() > 0 ==> depth < old(self).bounds().depth,
        ensures
            final(self).valid(),
            final(self).same_site(*old(self)),
            final(self).history().len() >= old(self).history().len(),
            final(self).history().take(old(self).history().len() as int) == old(self).history(),
            final(self).waiting() == old(self).waiting() + final(self).history().skip(
                old(self).history().len() as int,
            ),
            (final(self).history(), final(self).visited()) == with_links(
                *old(self),
                old(self).history(),
                old(self).visited(),
                texts(links@),
                depth + 1,
                0,
            ),
    {
        let ghost start = *self;
        let ghost all = texts(links@);
        let mut i: usize = 0;
        assert(self.history().take(self.history().len() as int) =~= self.history());
        assert(self.waiting() + self.history().skip(self.history().len() as int)
            =~= self.waiting());
        while i < links.len()
            invariant
                i <= links@.len(),
                all == texts(links@),
                links@.len() > 0 ==> depth < start.bounds().depth,
                start == *old(self),
                self.valid(),
                self.same_site(start),
                self.history().len() >= start.history().len(),
                self.history().take(start.history().len() as int) == start.history(),
                self.waiting() == start.waiting() + self.history().skip(
                    start.history().len() as int,
                ),
                with_links(start, start.history(), start.visited(), all, depth + 1, 0)
                    == with_links(
                    start,
                    self.history(),
                    self.visited(),
                    all,
                    depth + 1,
                    i as int,
                ),
            decreases links@.len() - i,
        {
            let ghost before = self.history();
            self.enqueue(links[i].as_str(), depth + 1, "link");
            assert(self.history().take(start.history().len() as int) =~= before.take(
                start.history().len() as int,
            ));
            assert(self.waiting() =~= start.waiting() + self.history().skip(
                start.history().len() as int,
            ));
            i += 1;
        }
    }

    /// Comes upon the pages at `urls` as the first pages of the crawl.
    pub fn add_seeds(&mut self, urls: &Vec<String>, source: &str)
        requires
            old(self).valid(),
        ensures
            final(self).valid(),
            final(self).same_site(*old(self)),
            final(self).history().len() >= old(self).history().len(),
            final(self).history().take(old(self).history().len() as int) == old(self).history(),
            final(self).waiting() == old(self).waiting() + final(self).history().skip(
                old(self).history().len() as int,
            ),
            (final(self).history(), final(self).visited()) == with_seeds(
                *old(self),
                old(self).history(),
                old(self).visited(),
                texts(urls@),
                source@,
                0,
            ),
    {
        let ghost start = *self;
        let ghost all = texts(urls@);
        let mut i: usize = 0;
        assert(self.history().take(self.history().len() as int) =~= self.history());
        assert(self.waiting() + self.history().skip(self.history().len() as int)
            =~= self.waiting());
        while i < urls.len()
            invariant
                i <= urls@.len(),
                all == texts(urls@),
                start == *old(self),
                self.valid(),
                self.same_site(start),
                self.history().len() >= start.history().len(),
                self.history().take(start.history().len() as int) == start.history(),
                self.waiting() == start.waiting() + self.history().skip(
                    start.history().len() as int,
                ),
                with_seeds(start, start.history(), start.visited(), all, source@, 0)
                    == with_seeds(
                    start,
                    self.history(),
                    self.visited(),
                    all,
                    source@,
                    i as int,
                ),
            decreases urls@.len() - i,
        {
            let ghost before = self.history();
            self.enqueue(urls[i].as_str(), 0, source);
            assert(self.history().take(start.history().len() as int) =~= before.take(
                start.history().len() as int,
            ));
            assert(self.waiting() =~= start.waiting() + self.history().skip(
                start.history().len() as int,
            ));
            i += 1;
        }
    }

    /// Hands out what waits to be visited.
    pub fn take_wave(&mut self) -> (r: Vec<QueueItem>)
        requires
            old(self).valid(),
        ensures
            final(self).valid(),
            final(self).same_site(*old(self)),
            final(self).history() == old(self).history(),
            final(self).visited() == old(self).visited(),
            final(self).waiting() == Seq::<ItemView>::empty(),
            items_of(r@) == old(self).waiting(),
    {
        let mut wave: Vec<QueueItem> = Vec::new();
        std::mem::swap(&mut wave, &mut self.waiting);
        assert(self.waiting() =~= self.history().skip(self.history().len() as int));
        wave
    }
}

/// The history and the URLs come upon after the links from `i` on of a page were
/// come upon too.
pub open spec fn with_links(
    crawl: Crawl,
    history: Seq<ItemView>,
    visited: Set<Seq<char>>,
    links: Seq<Seq<char>>,
    depth: int,
    i: int,
) -> (Seq<ItemView>, Set<Seq<char>>)
    decreases links.len() - i,
{
    if i < 0 || i >= links.len() {
        (history, visited)
    } else {
        match queued(crawl.bounds(), visited, links[i], crawl.target(links[i]), depth, "link"@) {
            None => with_links(crawl, history, visited, links, depth, i + 1),
            Some(item) => with_links(
                crawl,
                history.push(item),
                visited.insert(item.fetch_url),
                links,
                depth,
                i + 1,
            ),
        }
    }
}

/// The history and the URLs come upon after the first pages from `i` on were come
/// upon too.
pub open spec fn with_seeds(
    crawl: Crawl,
    history: Seq<ItemView>,
    visited: Set<Seq<char>>,
    urls: Seq<Seq<char>>,
    source: Seq<char>,
    i: int,
) -> (Seq<ItemView>, Set<Seq<char>>)
    decreases urls.len() - i,
{
    if i < 0 || i >= urls.len() {
        (history, visited)
    } else {
        match queued(crawl.bounds(), visited, urls[i], crawl.target(urls[i]), 0, source) {
            None => with_seeds(crawl, history, visited, urls, source, i + 1),
            Some(item) => with_seeds(
                crawl,
                history.push(item),
                visited.insert(item.fetch_url),
                urls,
                source,
                i + 1,
            ),
        }
    }
}

/// A crawl visits each page once: no two of the pages that ever waited are fetched
/// at the same URL.
pub proof fn law_each_page_is_visited_once(crawl: Crawl, i: int, j: int)
    requires
        crawl.valid(),
        0 <= i < crawl.history().len(),
        0 <= j < crawl.history().len(),
        crawl.history()[i].fetch_url == crawl.history()[j].fetch_url,
    ensures
        i == j,
{
    if i < j {
        assert(crawl.history()[i].fetch_url != crawl.history()[j].fetch_url);
    } else if j < i {
        assert(crawl.history()[j].fetch_url != crawl.history()[i].fetch_url);
    }
}

/// A crawl stays on its site: every page that ever waited has the host of the
/// site, is matched by no pattern to deny, has a part that is allowed in its path, unless
/// everything is, and is no further from the start than the crawl may go.
pub proof fn law_a_crawl_stays_within_its_bounds(crawl: Crawl, i: int)
    requires
        crawl.valid(),
        0 <= i < crawl.history().len(),
    ensures
        url_of(crawl.history()[i].fetch_url) matches Ok(url) && or_empty(url.host)
            == crawl.bounds().host,
        forall|k: int|
            0 <= k < crawl.bounds().deny.len() ==> !pattern_matches(
                #[trigger] crawl.bounds().deny[k],
                crawl.history()[i].fetch_url,
            ),
        crawl.bounds().allow.len() > 0 ==> exists|k: int|
            0 <= k < crawl.bounds().allow.len() && occurs(
                url_of(crawl.history()[i].fetch_url)->Ok_0.path,
                #[trigger] crawl.bounds().allow[k],
            ),
        crawl.history()[i].depth <= crawl.bounds().depth,
{
    let item = crawl.history()[i];
    assert(passes(
        item.fetch_url,
        crawl.bounds().host,
        crawl.bounds().allow,
        crawl.bounds().deny,
    ));
}

/// Coming upon a page a second time changes nothing.
pub proof fn law_known_pages_do_not_wait_again(
    bounds: Bounds,
    visited: Set<Seq<char>>,
    raw: Seq<char>,
    target: Seq<char>,
    depth: int,
    source: Seq<char>,
    again: int,
    other: Seq<char>,
)
    requires
        queued(bounds, visited, raw, target, depth, source) is Some,
    ensures
        ({
            let item = queued(bounds, visited, raw, target, depth, source)->0;
            queued(bounds, visited.insert(item.fetch_url), raw, target, again, other) is None
        }),
{
}

/// What became of a page of a crawl.
#[derive(Debug)]
pub struct CrawlResult {
    /// The page, where it could be had.
    pub page: Option<Page>,
    pub depth: usize,
    /// Whether it is `new`, `changed` or `unchanged`.
    pub status: String,
    pub source: String,
    /// Why it could not be had.
    pub error: String,
    pub url: String,
}

/// What a [`CrawlResult`] holds.
#[verifier::ext_equal]
pub struct ResultView {
    pub page: Option<PageView>,
    pub depth: int,
    pub status: Seq<char>,
    pub source: Seq<char>,
    pub error: Seq<char>,
    pub url: Seq<char>,
}

impl View for CrawlResult {
    type V = ResultView;

    open spec fn view(&self) -> ResultView {
        ResultView {
            page: match self.page {
                Some(page) => Some(page@),
                None => None,
            },
            depth: self.depth as int,
            status: self.status@,
            source: self.source@,
            error: self.error@,
            url: self.url@,
        }
    }
}

/// What a page of a crawl led to: its result, if it has one, and the pages it
/// links to.
#[derive(Debug)]
pub struct ProcessedItem {
    pub depth: usize,
    pub links: Vec<String>,
    pub result: Option<CrawlResult>,
}

/// What a [`ProcessedItem`] holds.
#[verifier::ext_equal]
pub struct ProcessedView {
    pub depth: int,
    pub links: Seq<Seq<char>>,
    pub result: Option<ResultView>,
}

impl View for ProcessedItem {
    type V = ProcessedView;

    open spec fn view(&self) -> ProcessedView {
        ProcessedView {
            depth: self.depth as int,
            links: texts(self.links@),
            result: match self.result {
                Some(result) => Some(result@),
                None => None,
            },
        }
    }
}

/// A page as that of a crawl: known under `url` and fetched at `fetch_url`.
pub fn page_with_crawl_urls(page: Page, url: &str, fetch_url: &str) -> (r: Page)
    ensures
        r@ == page@.requested(url@, fetch_url@),
{
    let mut page = page;
    page.url = url.to_owned();
    page.fetched_url = if same(fetch_url, url) {
        String::new()
    } else {
        fetch_url.to_owned()
    };
    page
}

/// Whether two pages have the same content: by their hashes, where both have one,
/// else by their titles and their markdown.
pub open spec fn same_content(left: PageView, right: PageView) -> bool {
    if left.content_hash.len() > 0 && right.content_hash.len() > 0 {
        left.content_hash == right.content_hash
    } else {
        left.title == right.title && left.markdown == right.markdown
    }
}

/// Whether two pages have the same content.
pub fn pages_have_same_content(left: &Page, right: &Page) -> (r: bool)
    ensures
        r == same_content(left@, right@),
{
    if char_count(left.content_hash.as_str()) > 0 && char_count(right.content_hash.as_str()) > 0 {
        return left.content_hash == right.content_hash;
    }
    left.title == right.title && left.markdown == right.markdown
}

/// The status of a page beside what the cache had of it.
pub open spec fn status_of(cached: Option<CachedView>, fetched: PageView) -> Seq<char> {
    match cached {
        None => "new"@,
        Some(cached) => if same_content(cached.page, fetched) {
            "unchanged"@
        } else {
            "changed"@
        },
    }
}

/// The status of a page beside what the cache had of it.
pub fn crawl_status(cached: &Option<CachedPage>, fetched: &Page) -> (r: &'static str)
    ensures
        r@ == status_of(maybe_cached(*cached), fetched@),
{
    match cached {
        None => "new",
        Some(cached) => if pages_have_same_content(&cached.page, fetched) {
            "unchanged"
        } else {
            "changed"
        },
    }
}

/// What to do about a page of a crawl.
#[derive(Debug)]
pub enum Plan {
    /// Nothing more: the cache has it.
    Done(ProcessedItem),
    /// Have the browser fetch it.
    Browser,
    /// Fetch it, unless it is still what these marks stand for.
    Fetch { etag: String, last_modified: String },
}

/// What a [`Plan`] holds.
pub enum PlanView {
    Done(ProcessedView),
    Browser,
    Fetch(Seq<char>, Seq<char>),
}

impl View for Plan {
    type V = PlanView;

    open spec fn view(&self) -> PlanView {
        match self {
            Plan::Done(processed) => PlanView::Done(processed@),
            Plan::Browser => PlanView::Browser,
            Plan::Fetch { etag, last_modified } => PlanView::Fetch(etag@, last_modified@),
        }
    }
}

/// The result for a page that is what the cache has.
pub open spec fn unchanged(item: ItemView, page: PageView) -> ProcessedView {
    ProcessedView {
        depth: item.depth,
        links: seq![],
        result: Some(
            ResultView {
                page: Some(page.requested(item.url, item.fetch_url)),
                depth: item.depth,
                status: "unchanged"@,
                source: item.source,
                error: seq![],
                url: item.url,
            },
        ),
    }
}

/// What to do about a page: nothing where the cache has a fresh copy that is not
/// stale; have the browser fetch it where the pages of the host call for it and
/// there is one; else fetch it, on the condition that an expired copy changed.
pub open spec fn plan_of(
    item: ItemView,
    cached: Option<CachedView>,
    has_browser: bool,
    force_browser: bool,
) -> PlanView {
    match cached {
        Some(found) => if !found.expired && !stale(found.source, has_browser) {
            PlanView::Done(unchanged(item, found.page))
        } else if force_browser && has_browser {
            PlanView::Browser
        } else if found.expired {
            PlanView::Fetch(found.page.etag, found.page.last_modified)
        } else {
            PlanView::Fetch(seq![], seq![])
        },
        None => if force_browser && has_browser {
            PlanView::Browser
        } else {
            PlanView::Fetch(seq![], seq![])
        },
    }
}

fn unchanged_item(item: &QueueItem, page: Page) -> (r: ProcessedItem)
    ensures
        r@ == unchanged(item@, page@),
{
    let page = page_with_crawl_urls(page, item.url.as_str(), item.fetch_url.as_str());
    let links: Vec<String> = Vec::new();
    assert(texts(links@) =~= seq![]);
    ProcessedItem {
        depth: item.depth,
        links: links,
        result: Some(
            CrawlResult {
                page: Some(page),
                depth: item.depth,
                status: "unchanged".to_owned(),
                source: item.source.clone(),
                error: String::new(),
                url: item.url.clone(),
            },
        ),
    }
}

/// What to do about a page of a crawl, where the cache has `cached` of it.
pub fn plan_item(
    item: &QueueItem,
    cached: &Option<CachedPage>,
    has_browser: bool,
    force_browser: bool,
) -> (r: Plan)
    ensures
        r@ == plan_of(item@, maybe_cached(*cached), has_browser, force_browser),
{
    match cached {
        Some(found) => {
            if !found.expired && !cache_stale_for_browser(found.source.as_str(), has_browser) {
                return Plan::Done(unchanged_item(item, found.page.clone()));
            }
            if force_browser && has_browser {
                return Plan::Browser;
            }
            if found.expired {
                return Plan::Fetch {
                    etag: found.page.etag.clone(),
                    last_modified: found.page.last_modified.clone(),
                };
            }
            Plan::Fetch { etag: String::new(), last_modified: String::new() }
        },
        None => {
            if force_browser && has_browser {
                return Plan::Browser;
            }
            Plan::Fetch { etag: String::new(), last_modified: String::new() }
        },
    }
}

/// A page and how it was fetched, as the cache should have it from now on.
pub open spec fn stored_page(page: PageView, source: Seq<char>) -> Option<(PageView, Seq<char>)> {
    Some((page, source))
}

/// What a fetched page leads to: its result and what the cache should have from
/// now on.
pub open spec fn finished(
    item: ItemView,
    cached: Option<CachedView>,
    outcome: Result<FetchView, Seq<char>>,
    max_depth: int,
) -> (ProcessedView, Option<(PageView, Seq<char>)>) {
    match outcome {
        Err(message) => (
            ProcessedView {
                depth: item.depth,
                links: seq![],
                result: Some(
                    ResultView {
                        page: None,
                        depth: item.depth,
                        status: seq![],
                        source: item.source,
                        error: message,
                        url: item.url,
                    },
                ),
            },
            None,
        ),
        Ok(fetch) => if fetch.not_modified {
            match cached {
                Some(found) => (
                    unchanged(item, found.page),
                    stored_page(found.page, found.source),
                ),
                None => (ProcessedView { depth: item.depth, links: seq![], result: None }, None),
            }
        } else {
            let page = fetch.page.requested(item.url, item.fetch_url);
            (
                ProcessedView {
                    depth: item.depth,
                    links: if item.depth < max_depth {
                        links_of(item.fetch_url, fetch.raw_html)
                    } else {
                        seq![]
                    },
                    result: Some(
                        ResultView {
                            page: Some(page),
                            depth: item.depth,
                            status: status_of(cached, page),
                            source: item.source,
                            error: seq![],
                            url: item.url,
                        },
                    ),
                },
                stored_page(page, fetch.source),
            )
        },
    }
}

/// What a fetch gave.
pub open spec fn fetch_outcome(outcome: Result<FetchResult, String>) -> Result<
    FetchView,
    Seq<char>,
> {
    match outcome {
        Ok(fetch) => Ok(fetch@),
        Err(message) => Err(message@),
    }
}

/// What is to be kept in the cache.
pub open spec fn kept_page(kept: Option<(Page, String)>) -> Option<(PageView, Seq<char>)> {
    match kept {
        Some(kept) => Some((kept.0@, kept.1@)),
        None => None,
    }
}

/// What a page of a crawl leads to, where fetching it gave `outcome` and the cache
/// had `cached` of it: its result, and what the cache should have of it from now
/// on.
pub fn finish_item(
    item: &QueueItem,
    cached: Option<CachedPage>,
    outcome: Result<FetchResult, String>,
    max_depth: usize,
) -> (r: (ProcessedItem, Option<(Page, String)>))
    ensures
        (r.0@, kept_page(r.1)) == finished(
            item@,
            maybe_cached(cached),
            fetch_outcome(outcome),
            max_depth as int,
        ),
        r.0@.links.len() > 0 ==> item.depth < max_depth,
{
    let none: Vec<String> = Vec::new();
    assert(texts(none@) =~= seq![]);
    let fetch = match outcome {
        Ok(fetch) => fetch,
        Err(message) => {
            let result = CrawlResult {
                page: None,
                depth: item.depth,
                status: String::new(),
                source: item.source.clone(),
                error: message,
                url: item.url.clone(),
            };
            return (ProcessedItem { depth: item.depth, links: none, result: Some(result) }, None);
        },
    };
    if fetch.not_modified {
        return match cached {
            Some(found) => (
                unchanged_item(item, found.page.clone()),
                Some((found.page, found.source)),
            ),
            None => (ProcessedItem { depth: item.depth, links: none, result: None }, None),
        };
    }
    let page = page_with_crawl_urls(fetch.page, item.url.as_str(), item.fetch_url.as_str());
    let links = if item.depth < max_depth {
        extract_links(item.fetch_url.as_str(), fetch.raw_html.as_str())
    } else {
        none
    };
    let status = crawl_status(&cached, &page);
    let kept = page.clone();
    let result = CrawlResult {
        page: Some(page),
        depth: item.depth,
        status: status.to_owned(),
        source: item.source.clone(),
        error: String::new(),
        url: item.url.clone(),
    };
    (
        ProcessedItem { depth: item.depth, links: links, result: Some(result) },
        Some((kept, fetch.source)),
    )
}

/// A page that is fetched for the first time is new; one whose hash is that of the
/// copy in the cache is unchanged, one with another hash has changed.
pub proof fn law_status_compares_with_the_cache(
    item: ItemView,
    cached: CachedView,
    fetch: FetchView,
    max_depth: int,
)
    requires
        !fetch.not_modified,
        cached.page.content_hash.len() > 0,
        fetch.page.content_hash.len() > 0,
    ensures
        finished(item, None, Ok(fetch), max_depth).0.result matches Some(result) && result.status
            == "new"@,
        finished(item, Some(cached), Ok(fetch), max_depth).0.result matches Some(result)
            && result.status == (if cached.page.content_hash == fetch.page.content_hash {
            "unchanged"@
        } else {
            "changed"@
        }),
{
}

/// The results of a crawl keep the URL a page is known under; where it was
/// fetched is noted exactly if that is another one.
pub proof fn law_crawled_pages_keep_their_url(
    item: ItemView,
    cached: Option<CachedView>,
    fetch: FetchView,
    max_depth: int,
)
    requires
        !fetch.not_modified,
    ensures
        finished(item, cached, Ok(fetch), max_depth).0.result matches Some(result) && (result.url
            == item.url && (result.page matches Some(page) && page.url == item.url
            && page.fetched_url == (if item.fetch_url == item.url {
            seq![]
        } else {
            item.fetch_url
        }))),
{
}

/// How many pages of a host were looked at, and how many of them look like shells.
#[derive(Debug, Clone, Copy)]
pub struct HostJsStats {
    pub total: usize,
    pub shells: usize,
}

/// The pages that were looked at, by their hosts.
pub struct HostStats {
    hosts: StringHashMap<HostJsStats>,
}

impl View for HostStats {
    type V = Map<Seq<char>, HostJsStats>;

    closed spec fn view(&self) -> Map<Seq<char>, HostJsStats> {
        self.hosts@
    }
}

/// The host of a URL, if it has one.
pub open spec fn host_of(raw: Seq<char>) -> Option<Seq<char>> {
    match url_of(raw) {
        Ok(url) => url.host,
        Err(_) => None,
    }
}

fn read_host(raw_url: &str) -> (r: Option<String>)
    ensures
        maybe(r) == host_of(raw_url@),
{
    match parse_url(raw_url) {
        Ok(url) => url.host,
        Err(_) => None,
    }
}

/// One more, as far as a counter goes.
pub open spec fn counted(n: usize, more: bool) -> usize {
    if more && n < usize::MAX {
        (n + 1) as usize
    } else {
        n
    }
}

/// What is known of a host after another of its pages was looked at.
pub open spec fn with_page(stats: HostJsStats, shell: bool) -> HostJsStats {
    HostJsStats { total: counted(stats.total, true), shells: counted(stats.shells, shell) }
}

/// What is known of the hosts after a page of `host` was found to be of the kind
/// `detection`.
pub open spec fn host_recorded(
    stats: Map<Seq<char>, HostJsStats>,
    host: Seq<char>,
    detection: Seq<char>,
) -> Map<Seq<char>, HostJsStats> {
    let known = if stats.contains_key(host) {
        stats[host]
    } else {
        HostJsStats { total: 0, shells: 0 }
    };
    stats.insert(host, with_page(known, detection == "likely_shell"@))
}

/// What is known of the hosts after the page at `raw` was found to be of the kind
/// `detection`.
pub open spec fn recorded(
    stats: Map<Seq<char>, HostJsStats>,
    raw: Seq<char>,
    detection: Seq<char>,
) -> Map<Seq<char>, HostJsStats> {
    match host_of(raw) {
        None => stats,
        Some(host) => host_recorded(stats, host, detection),
    }
}

/// Whether the pages of a host call for the browser: there are ten at least, and
/// more than eight in ten of them look like shells.
pub open spec fn mostly_shells(stats: HostJsStats) -> bool {
    stats.total >= 10 && stats.shells * 5 > stats.total * 4
}

/// Whether the pages of `host` call for the browser.
pub open spec fn host_forced(stats: Map<Seq<char>, HostJsStats>, host: Seq<char>) -> bool {
    stats.contains_key(host) && mostly_shells(stats[host])
}

/// Whether the pages of the host of `raw` call for the browser.
pub open spec fn forced(stats: Map<Seq<char>, HostJsStats>, raw: Seq<char>) -> bool {
    match host_of(raw) {
        None => false,
        Some(host) => host_forced(stats, host),
    }
}

impl HostStats {
    /// No pages looked at yet.
    pub fn new() -> (r: Self)
        ensures
            r@ == Map::<Seq<char>, HostJsStats>::empty(),
    {
        HostStats { hosts: StringHashMap::new() }
    }

    /// Remembers that a page of `host` was found to be of the kind `detection`.
    pub fn record_host(&mut self, host: String, detection: &str)
        ensures
            final(self)@ == host_recorded(old(self)@, host@, detection@),
    {
        let mut stats = match self.hosts.get(host.as_str()) {
            Some(stats) => *stats,
            None => HostJsStats { total: 0, shells: 0 },
        };
        if stats.total < usize::MAX {
            stats.total = stats.total + 1;
        }
        if same(detection, "likely_shell") && stats.shells < usize::MAX {
            stats.shells = stats.shells + 1;
        }
        self.hosts.insert(host, stats);
    }

    /// Remembers that the page at `raw_url` was found to be of the kind `detection`.
    pub fn record_js_detection(&mut self, raw_url: &str, detection: &str)
        ensures
            final(self)@ == recorded(old(self)@, raw_url@, detection@),
    {
        if let Some(host) = read_host(raw_url) {
            self.record_host(host, detection);
        }
    }

    /// Whether the pages of `host` call for the browser.
    pub fn is_host_forced(&self, host: &str) -> (r: bool)
        ensures
            r == host_forced(self@, host@),
    {
        match self.hosts.get(host) {
            Some(stats) => stats.total >= 10 && stats.shells as u128 * 5 > stats.total as u128 * 4,
            None => false,
        }
    }

    /// Whether the pages of the host of `raw_url` call for the browser.
    pub fn should_force_browser(&self, raw_url: &str) -> (r: bool)
        ensures
            r == forced(self@, raw_url@),
    {
        match read_host(raw_url) {
            Some(host) => self.is_host_forced(host.as_str()),
            None => false,
        }
    }
}

/// Fewer than ten pages never call for the browser, and exactly eight shells in
/// ten pages do not either.
pub proof fn law_the_browser_threshold(stats: HostJsStats)
    ensures
        stats.total < 10 ==> !mostly_shells(stats),
        stats.shells * 10 == stats.total * 8 ==> !mostly_shells(stats),
        stats.total >= 10 && stats.shells == stats.total ==> mostly_shells(stats),
{
}

/// Looking at pages of one host says nothing about another.
pub proof fn law_hosts_are_counted_apart(
    stats: Map<Seq<char>, HostJsStats>,
    raw: Seq<char>,
    other: Seq<char>,
    detection: Seq<char>,
)
    requires
        host_of(raw) != host_of(other),
    ensures
        forced(recorded(stats, raw, detection), other) == forced(stats, other),
{
}

/// The filters let exactly the pages of the site through that no pattern denies and in whose
/// path something stands that is allowed, unless everything is. Nothing else about a URL
/// counts, such as its query.
pub proof fn law_the_filters_look_at_nothing_else(
    raw: Seq<char>,
    host: Seq<char>,
    allow: Seq<Seq<char>>,
    deny: Seq<Seq<char>>,
)
    ensures
        passes(raw, host, allow, deny) <==> (url_of(raw) matches Ok(url) && (url.host == Some(host)
            || (url.host is None && host.len() == 0)) && (forall|k: int|
            0 <= k < deny.len() ==> !pattern_matches(#[trigger] deny[k], raw)) && (allow.len() == 0
            || exists|k: int, at: int|
            0 <= k < allow.len() && 0 <= at <= url.path.len() - allow[k].len()
                && #[trigger] url.path.subrange(at, at + allow[k].len()) == allow[k])),
{
    assert(host.len() == 0 ==> host =~= seq![]);
    if let Ok(url) = url_of(raw) {
        if exists|k: int| 0 <= k < allow.len() && occurs(url.path, #[trigger] allow[k]) {
            let k = choose|k: int| 0 <= k < allow.len() && occurs(url.path, #[trigger] allow[k]);
            let at = choose|at: int| crate::text::matches_at(url.path, allow[k], at);
            assert(url.path.subrange(at, at + allow[k].len()) == allow[k]);
        }
        if exists|k: int, at: int|
            0 <= k < allow.len() && 0 <= at <= url.path.len() - allow[k].len()
                && #[trigger] url.path.subrange(at, at + allow[k].len()) == allow[k] {
            let (k, at) = choose|k: int, at: int|
                0 <= k < allow.len() && 0 <= at <= url.path.len() - allow[k].len()
                    && #[trigger] url.path.subrange(at, at + allow[k].len()) == allow[k];
            assert(crate::text::matches_at(url.path, allow[k], at));
            assert(occurs(url.path, allow[k]));
        }
        if denies(deny, raw) {
            let k = choose|k: int| 0 <= k < deny.len() && pattern_matches(#[trigger] deny[k], raw);
            assert(pattern_matches(deny[k], raw));
        }
    }
}

/// A list of patterns is refused exactly if a text in it is no pattern; the error is that of
/// the first such text, and names it.
pub proof fn law_the_first_broken_pattern_is_told_of(patterns: Seq<Seq<char>>, k: int)
    requires
        0 <= k <= patterns.len(),
        forall|i: int| 0 <= i < k ==> pattern_error(#[trigger] patterns[i]) is None,
        k < patterns.len() ==> pattern_error(patterns[k]) is Some,
    ensures
        k == patterns.len() ==> deny_error(patterns) is None,
        k < patterns.len() ==> deny_error(patterns) == Some(
            ErrorView::Upstream(
                "invalid deny pattern "@ + quoted_of(patterns[k]) + ": "@ + pattern_error(
                    patterns[k],
                )->0,
            ),
        ),
{
    lemma_broken_pattern(patterns, 0, k);
}

proof fn lemma_broken_pattern(patterns: Seq<Seq<char>>, i: int, k: int)
    requires
        0 <= i <= k <= patterns.len(),
        forall|j: int| 0 <= j < k ==> pattern_error(#[trigger] patterns[j]) is None,
        k < patterns.len() ==> pattern_error(patterns[k]) is Some,
    ensures
        broken_pattern(patterns, i) == k,
    decreases k - i,
{
    if i < k {
        assert(pattern_error(patterns[i]) is None);
        lemma_broken_pattern(patterns, i + 1, k);
    }
}

proof fn lemma_targets_from(base: Seq<char>, links: Seq<ElementView>, link: ElementView, i: int)
    requires
        0 <= i <= links.len(),
    ensures
        targets_from(base, links.push(link), i) == targets_from(base, links, i) + targets_from(
            base,
            seq![link],
            0,
        ),
    decreases links.len() - i,
{
    let more = links.push(link);
    reveal_with_fuel(targets_from, 2);
    if i < links.len() {
        lemma_targets_from(base, links, link, i + 1);
        assert(more[i] == links[i]);
        assert(targets_from(base, more, i) =~= targets_from(base, links, i) + targets_from(
            base,
            seq![link],
            0,
        ));
    } else {
        assert(targets_from(base, more, i) =~= targets_from(base, links, i) + targets_from(
            base,
            seq![link],
            0,
        ));
    }
}

/// The links of a page lead where their references resolve to, in their order: each link
/// whose reference is not empty, does not begin with `#`, `javascript:`, `mailto:` or `tel:`
/// and resolves to a URL of the web counts, and no other does.
pub proof fn law_links_lead_where_they_resolve_to(
    base: Seq<char>,
    links: Seq<ElementView>,
    link: ElementView,
)
    ensures
        targets_from(base, seq![], 0) == Seq::<Seq<char>>::empty(),
        targets_from(base, links.push(link), 0) == (match link.href {
            Some(href) if href.len() > 0 && !begins(href, "#"@) && !begins(href, "javascript:"@)
                && !begins(href, "mailto:"@) && !begins(href, "tel:"@) => match url_joined(
                base,
                href,
            ) {
                Some((url, scheme)) if scheme == "http"@ || scheme == "https"@ => targets_from(
                    base,
                    links,
                    0,
                ).push(url),
                _ => targets_from(base, links, 0),
            },
            _ => targets_from(base, links, 0),
        }),
{
    reveal_with_fuel(targets_from, 2);
    lemma_targets_from(base, links, link, 0);
    assert(targets_from(base, links, 0) + seq![] =~= targets_from(base, links, 0));
    match link_target(base, link) {
        Some(url) => {
            assert(targets_from(base, seq![link], 0) =~= seq![url]);
            assert(targets_from(base, links, 0) + seq![url] =~= targets_from(base, links, 0).push(
                url,
            ));
        },
        None => {
            assert(targets_from(base, seq![link], 0) =~= seq![]);
        },
    }
}

/// The links of a document are those of its `a` elements with a reference; a page whose URL
/// is none has no links.
pub proof fn law_every_reference_of_a_page_is_a_link(
    page_url: Seq<char>,
    html: Seq<char>,
    links: Seq<ElementView>,
)
    requires
        selected(html, "a[href]"@) == Some(links),
    ensures
        url_of(page_url) is Ok ==> links_of(page_url, html) == targets_from(page_url, links, 0),
        url_of(page_url) is Err ==> links_of(page_url, html).len() == 0,
{
}

/// A page that is come upon waits exactly if it was not come upon before and the filters let
/// it through. It waits under the URL by which it is known, and is fetched at the one that
/// its rewritten URL is known by.
pub proof fn law_what_comes_to_wait(
    bounds: Bounds,
    visited: Set<Seq<char>>,
    raw: Seq<char>,
    target: Seq<char>,
    depth: int,
    source: Seq<char>,
)
    ensures
        queued(bounds, visited, raw, target, depth, source) is Some <==> (normalized(target).len()
            > 0 && !visited.contains(normalized(target)) && passes(
            normalized(target),
            bounds.host,
            bounds.allow,
            bounds.deny,
        )),
        queued(bounds, visited, raw, target, depth, source) matches Some(item) ==> item.fetch_url
            == normalized(target) && item.depth == depth && item.source == source && (normalized(
            raw,
        ).len() > 0 ==> item.url == normalized(raw)) && (normalized(raw).len() == 0 ==> item.url
            == normalized(target)),
{
}

proof fn lemma_with_links(
    crawl: Crawl,
    history: Seq<ItemView>,
    visited: Set<Seq<char>>,
    links: Seq<Seq<char>>,
    raw: Seq<char>,
    depth: int,
    i: int,
)
    requires
        0 <= i <= links.len(),
    ensures
        with_links(crawl, history, visited, links.push(raw), depth, i) == ({
            let so_far = with_links(crawl, history, visited, links, depth, i);
            match queued(crawl.bounds(), so_far.1, raw, crawl.target(raw), depth, "link"@) {
                Some(item) => (so_far.0.push(item), so_far.1.insert(item.fetch_url)),
                None => so_far,
            }
        }),
    decreases links.len() - i,
{
    let more = links.push(raw);
    reveal_with_fuel(with_links, 2);
    if i < links.len() {
        assert(more[i] == links[i]);
        match queued(crawl.bounds(), visited, links[i], crawl.target(links[i]), depth, "link"@) {
            None => lemma_with_links(crawl, history, visited, links, raw, depth, i + 1),
            Some(item) => lemma_with_links(
                crawl,
                history.push(item),
                visited.insert(item.fetch_url),
                links,
                raw,
                depth,
                i + 1,
            ),
        }
    } else {
        assert(more[i] == raw);
    }
}

/// The links of a page are come upon in their order, and none is passed over: after a page
/// with one more link, that link waits behind all others, one step further from the start
/// than the page, if the filters let it through and no link before it led to the same page.
pub proof fn law_no_link_is_passed_over(
    crawl: Crawl,
    history: Seq<ItemView>,
    visited: Set<Seq<char>>,
    links: Seq<Seq<char>>,
    raw: Seq<char>,
    depth: int,
)
    ensures
        with_links(crawl, history, visited, seq![], depth, 0) == (history, visited),
        ({
            let before = with_links(crawl, history, visited, links, depth, 0);
            let after = with_links(crawl, history, visited, links.push(raw), depth, 0);
            let fetch = normalized(crawl.target(raw));
            if fetch.len() > 0 && !before.1.contains(fetch) && passes(
                fetch,
                crawl.bounds().host,
                crawl.bounds().allow,
                crawl.bounds().deny,
            ) {
                after.0.len() == before.0.len() + 1 && after.0.drop_last() == before.0
                    && after.0.last().fetch_url == fetch && after.0.last().depth == depth
                    && after.0.last().source == "link"@ && after.1 == before.1.insert(fetch)
                    && after.0.last().url == (if normalized(raw).len() > 0 {
                    normalized(raw)
                } else {
                    fetch
                })
            } else {
                after == before
            }
        }),
{
    lemma_with_links(crawl, history, visited, links, raw, depth, 0);
    let before = with_links(crawl, history, visited, links, depth, 0);
    let after = with_links(crawl, history, visited, links.push(raw), depth, 0);
    if after.0.len() > before.0.len() {
        assert(after.0.drop_last() =~= before.0);
    }
}

proof fn lemma_with_seeds(
    crawl: Crawl,
    history: Seq<ItemView>,
    visited: Set<Seq<char>>,
    urls: Seq<Seq<char>>,
    raw: Seq<char>,
    source: Seq<char>,
    i: int,
)
    requires
        0 <= i <= urls.len(),
    ensures
        with_seeds(crawl, history, visited, urls.push(raw), source, i) == ({
            let so_far = with_seeds(crawl, history, visited, urls, source, i);
            match queued(crawl.bounds(), so_far.1, raw, crawl.target(raw), 0, source) {
                Some(item) => (so_far.0.push(item), so_far.1.insert(item.fetch_url)),
                None => so_far,
            }
        }),
    decreases urls.len() - i,
{
    let more = urls.push(raw);
    reveal_with_fuel(with_seeds, 2);
    if i < urls.len() {
        assert(more[i] == urls[i]);
        match queued(crawl.bounds(), visited, urls[i], crawl.target(urls[i]), 0, source) {
            None => lemma_with_seeds(crawl, history, visited, urls, raw, source, i + 1),
            Some(item) => lemma_with_seeds(
                crawl,
                history.push(item),
                visited.insert(item.fetch_url),
                urls,
                raw,
                source,
                i + 1,
            ),
        }
    } else {
        assert(more[i] == raw);
    }
}

/// The first pages of a crawl are come upon in their order, at no distance from the start,
/// and none is passed over.
pub proof fn law_no_first_page_is_passed_over(
    crawl: Crawl,
    history: Seq<ItemView>,
    visited: Set<Seq<char>>,
    urls: Seq<Seq<char>>,
    raw: Seq<char>,
    source: Seq<char>,
)
    ensures
        with_seeds(crawl, history, visited, seq![], source, 0) == (history, visited),
        ({
            let before = with_seeds(crawl, history, visited, urls, source, 0);
            let after = with_seeds(crawl, history, visited, urls.push(raw), source, 0);
            let fetch = normalized(crawl.target(raw));
            if fetch.len() > 0 && !before.1.contains(fetch) && passes(
                fetch,
                crawl.bounds().host,
                crawl.bounds().allow,
                crawl.bounds().deny,
            ) {
                after.0.len() == before.0.len() + 1 && after.0.drop_last() == before.0
                    && after.0.last().fetch_url == fetch && after.0.last().depth == 0
                    && after.0.last().source == source && after.1 == before.1.insert(fetch)
                    && after.0.last().url == (if normalized(raw).len() > 0 {
                    normalized(raw)
                } else {
                    fetch
                })
            } else {
                after == before
            }
        }),
{
    lemma_with_seeds(crawl, history, visited, urls, raw, source, 0);
    let before = with_seeds(crawl, history, visited, urls, source, 0);
    let after = with_seeds(crawl, history, visited, urls.push(raw), source, 0);
    if after.0.len() > before.0.len() {
        assert(after.0.drop_last() =~= before.0);
    }
}

/// The site of a crawl is that of the URL at which the start is fetched, or else that of the
/// start itself.
pub proof fn law_the_site_is_that_of_the_start(seed: UrlView, target: Seq<char>)
    ensures
        normalized(target).len() > 0 ==> (url_of(normalized(target)) matches Ok(url) ==> (
        url.host matches Some(host) ==> seed_host(seed, target) == host)),
        normalized(target).len() == 0 ==> (seed.host matches Some(host) ==> seed_host(seed, target)
            == host),
        normalized(target).len() > 0 ==> url_of(normalized(target)) is Err ==> (
        seed.host matches Some(host) ==> seed_host(seed, target) == host),
        normalized(target).len() > 0 ==> (url_of(normalized(target)) matches Ok(url)
            && url.host is None) ==> (seed.host matches Some(host) ==> seed_host(seed, target)
            == host),
        seed.host is None ==> normalized(target).len() == 0 ==> seed_host(seed, target).len() == 0,
{
}

/// A URL of the web is known by what it is without fragment and query, a question mark and
/// the pairs that tell pages apart, if it has any, but for slashes at the end.
pub proof fn law_what_a_page_is_known_by(raw: Seq<char>, plain: Seq<char>, base: Seq<char>)
    requires
        url_of(raw) is Ok,
        url_without_fragment(raw) == Some(plain),
        url_of(plain) matches Ok(url) && is_web(url.scheme),
        url_without_query(plain) == Some(base),
    ensures
        ({
            let pairs = significant(url_of(plain)->Ok_0.pairs);
            let whole = if pairs.len() > 0 {
                base + seq!['?'] + encoded_pairs(pairs)
            } else {
                base
            };
            let known = normalized(raw);
            &&& known.len() <= whole.len()
            &&& known == whole.take(known.len() as int)
            &&& forall|i: int| known.len() <= i < whole.len() ==> whole[i] == '/'
            &&& known.len() > 0 ==> known.last() != '/'
        }),
{
    reveal_strlit("?");
    assert("?"@ =~= seq!['?']);
    let pairs = significant(url_of(plain)->Ok_0.pairs);
    let whole = if pairs.len() > 0 {
        base + seq!['?'] + encoded_pairs(pairs)
    } else {
        base
    };
    lemma_back_while(whole, only('/'), whole.len() as int);
    assert(normalized(raw) =~= whole.take(normalized(raw).len() as int));
}

/// What is not a URL is known by nothing.
pub proof fn law_what_is_no_url_is_not_known(raw: Seq<char>)
    requires
        url_of(raw) is Err,
    ensures
        normalized(raw).len() == 0,
{
}

/// Without hashes on both sides, two copies of a page are the same exactly if their titles
/// and their markdown are; with hashes on both sides, exactly if these are.
pub proof fn law_the_same_content(left: PageView, right: PageView)
    ensures
        left.content_hash.len() == 0 || right.content_hash.len() == 0 ==> (same_content(left, right)
            <==> left.title == right.title && left.markdown == right.markdown),
        left.content_hash.len() > 0 && right.content_hash.len() > 0 ==> (same_content(left, right)
            <==> left.content_hash == right.content_hash),
        same_content(left, left),
        same_content(left, right) == same_content(right, left),
{
}

/// A page without a copy in the cache is new; one with a copy of the same content is
/// unchanged, one with another copy has changed, whether the copy is expired or not.
pub proof fn law_what_is_new_changed_or_unchanged(cached: CachedView, fetched: PageView)
    ensures
        status_of(None, fetched) == "new"@,
        same_content(cached.page, fetched) ==> status_of(Some(cached), fetched) == "unchanged"@,
        !same_content(cached.page, fetched) ==> status_of(Some(cached), fetched) == "changed"@,
{
}

/// A page is fetched unless the cache has a copy of it that is neither expired nor made
/// without the browser that there is. It is fetched with the browser exactly if there is one
/// and the pages of the host call for it, and on the condition that it changed where an
/// expired copy is at hand.
pub proof fn law_when_a_page_is_fetched(
    item: ItemView,
    found: CachedView,
    has_browser: bool,
    force_browser: bool,
)
    ensures
        plan_of(item, None, has_browser, force_browser) == (if has_browser && force_browser {
            PlanView::Browser
        } else {
            PlanView::Fetch(seq![], seq![])
        }),
        plan_of(item, Some(found), has_browser, force_browser) is Done <==> !found.expired
            && !stale(found.source, has_browser),
        plan_of(item, Some(found), has_browser, force_browser) is Browser <==> (found.expired
            || stale(found.source, has_browser)) && has_browser && force_browser,
        found.expired && !(has_browser && force_browser) ==> plan_of(
            item,
            Some(found),
            has_browser,
            force_browser,
        ) == PlanView::Fetch(found.page.etag, found.page.last_modified),
        !found.expired && stale(found.source, has_browser) && !force_browser ==> plan_of(
            item,
            Some(found),
            has_browser,
            force_browser,
        ) == PlanView::Fetch(seq![], seq![]),
        plan_of(item, Some(found), has_browser, force_browser) matches PlanView::Done(done) ==> (
        done.links.len() == 0 && done.depth == item.depth && (done.result matches Some(result)
            && result.status == "unchanged"@ && result.url == item.url && result.error.len() == 0
            && result.depth == item.depth && result.source == item.source && (
        result.page matches Some(page) && page.url == item.url && page.title == found.page.title
            && page.markdown == found.page.markdown && page.content_hash
            == found.page.content_hash))),
{
}

/// A page that could not be fetched is told of with the reason, leads nowhere and leaves the
/// cache as it is.
pub proof fn law_failed_pages_are_told_of(
    item: ItemView,
    cached: Option<CachedView>,
    message: Seq<char>,
    max_depth: int,
)
    ensures
        ({
            let (done, kept) = finished(item, cached, Err(message), max_depth);
            &&& kept is None
            &&& done.links.len() == 0
            &&& done.depth == item.depth
            &&& done.result matches Some(result) && result.page is None && result.error == message
                && result.url == item.url && result.depth == item.depth && result.source
                == item.source && result.status.len() == 0
        }),
{
}

/// A page that was not modified is the copy in the cache, which stays there as it is.
pub proof fn law_unmodified_pages_are_the_cached_ones(
    item: ItemView,
    cached: CachedView,
    fetch: FetchView,
    max_depth: int,
)
    requires
        fetch.not_modified,
    ensures
        ({
            let (done, kept) = finished(item, Some(cached), Ok(fetch), max_depth);
            &&& kept == Some((cached.page, cached.source))
            &&& done.links.len() == 0
            &&& done.result matches Some(result) && result.status == "unchanged"@ && result.url
                == item.url && result.error.len() == 0 && result.source == item.source
                && result.depth == item.depth && (result.page matches Some(page) && page.url
                == item.url && page.title == cached.page.title && page.markdown
                == cached.page.markdown)
        }),
        finished(item, None, Ok(fetch), max_depth).0.result is None,
        finished(item, None, Ok(fetch), max_depth).1 is None,
{
}

/// A page that was fetched is told of with what was fetched and goes to the cache so. Its
/// links count unless it is as far from the start as the crawl may go.
pub proof fn law_fetched_pages_are_told_of(
    item: ItemView,
    cached: Option<CachedView>,
    fetch: FetchView,
    max_depth: int,
)
    requires
        !fetch.not_modified,
    ensures
        ({
            let (done, kept) = finished(item, cached, Ok(fetch), max_depth);
            &&& done.depth == item.depth
            &&& item.depth < max_depth ==> done.links == links_of(item.fetch_url, fetch.raw_html)
            &&& item.depth >= max_depth ==> done.links.len() == 0
            &&& done.result matches Some(result) && result.error.len() == 0 && result.depth
                == item.depth && result.source == item.source && (result.page matches Some(page)
                && kept == Some((page, fetch.source)) && page.title == fetch.page.title
                && page.markdown == fetch.page.markdown && page.content_hash
                == fetch.page.content_hash && page.etag == fetch.page.etag && page.last_modified
                == fetch.page.last_modified)
        }),
{
}

/// Each page that is looked at counts once for its host, and once more among the shells
/// exactly if it was found to be one.
pub proof fn law_each_page_counts_once(
    stats: Map<Seq<char>, HostJsStats>,
    raw: Seq<char>,
    host: Seq<char>,
    detection: Seq<char>,
)
    requires
        url_of(raw) matches Ok(url) && url.host == Some(host),
        stats.contains_key(host) ==> stats[host].total < usize::MAX && stats[host].shells
            < usize::MAX,
    ensures
        ({
            let after = recorded(stats, raw, detection);
            let total: int = if stats.contains_key(host) {
                stats[host].total as int
            } else {
                0
            };
            let shells: int = if stats.contains_key(host) {
                stats[host].shells as int
            } else {
                0
            };
            &&& after.contains_key(host)
            &&& after[host].total == total + 1
            &&& detection == "likely_shell"@ ==> after[host].shells == shells + 1
            &&& detection != "likely_shell"@ ==> after[host].shells == shells
            &&& forall|other: Seq<char>| other != host ==> (after.contains_key(other)
                == stats.contains_key(other) && after[other] == stats[other])
        }),
{
}

/// The pages of a host call for the browser exactly if ten were looked at, at least, and more
/// than eight in ten of them are shells.
pub proof fn law_when_the_browser_is_called_for(
    stats: Map<Seq<char>, HostJsStats>,
    raw: Seq<char>,
    host: Seq<char>,
)
    requires
        url_of(raw) matches Ok(url) && url.host == Some(host),
    ensures
        forced(stats, raw) <==> stats.contains_key(host) && stats[host].total >= 10
            && stats[host].shells * 10 > stats[host].total * 8,
{
}

/// A pair marks a campaign exactly if its key begins with `utm_`.
pub proof fn law_what_marks_a_campaign(pair: Pair)
    ensures
        is_tracking(pair) <==> pair.0.len() >= 4 && pair.0[0] == 'u' && pair.0[1] == 't'
            && pair.0[2] == 'm' && pair.0[3] == '_',
{
    reveal_strlit("utm_");
    if pair.0.len() >= 4 {
        let start = pair.0.subrange(0, 4);
        if start == "utm_"@ {
            assert(start[0] == 'u' && start[1] == 't' && start[2] == 'm' && start[3] == '_');
        } else if pair.0[0] == 'u' && pair.0[1] == 't' && pair.0[2] == 'm' && pair.0[3] == '_' {
            assert(start =~= "utm_"@);
        }
    }
}

/// A waiting page is seen as its fields are.
pub proof fn law_what_a_waiting_page_holds(record: QueueItem)
    ensures
        record@.url == record.url@,
        record@.fetch_url == record.fetch_url@,
        record@.source == record.source@,
        record@.depth == record.depth,
{
}

/// A result of a crawl is seen as its fields are.
pub proof fn law_what_a_result_of_a_crawl_holds(record: CrawlResult)
    ensures
        record@.status == record.status@,
        record@.source == record.source@,
        record@.error == record.error@,
        record@.url == record.url@,
        record@.depth == record.depth,
        record.page matches Some(value) ==> record@.page == Some(value@),
        record.page is None ==> record@.page is None,
{
}

/// What a page led to is seen as its fields are.
pub proof fn law_what_a_processed_page_holds(record: ProcessedItem)
    ensures
        record@.depth == record.depth,
        record.result matches Some(value) ==> record@.result == Some(value@),
        record.result is None ==> record@.result is None,
        record@.links == texts(record.links@),
{
}

/// Nothing is counted for a URL without a host, and none calls for the browser.
pub proof fn law_urls_without_a_host_do_not_count(
    stats: Map<Seq<char>, HostJsStats>,
    raw: Seq<char>,
    detection: Seq<char>,
)
    requires
        url_of(raw) matches Ok(url) ==> url.host is None,
    ensures
        recorded(stats, raw, detection) == stats,
        !forced(stats, raw),
{
}

/// A URL that is not of the web is known by what it is without fragment and with the pairs that
/// tell pages apart as its query, if it has any, but for slashes at the end.
pub proof fn law_what_another_page_is_known_by(
    raw: Seq<char>,
    plain: Seq<char>,
    whole: Seq<char>,
)
    requires
        url_of(raw) is Ok,
        url_without_fragment(raw) == Some(plain),
        url_of(plain) matches Ok(url) && !is_web(url.scheme) && (if significant(url.pairs).len()
            > 0 {
            url_with_query(plain, encoded_pairs(significant(url.pairs))) == Some(whole)
        } else {
            url_without_query(plain) == Some(whole)
        }),
    ensures
        normalized(raw) == drop_back(whole, only('/')),
{
}

/// Whatever is come upon, a crawl keeps its site, its filters, its depth and its rules.
pub proof fn law_a_crawl_keeps_its_site(crawl: Crawl, before: Crawl, url: Seq<char>)
    requires
        crawl.same_site(before),
    ensures
        crawl.bounds().host == before.bounds().host,
        crawl.bounds().allow == before.bounds().allow,
        crawl.bounds().deny == before.bounds().deny,
        crawl.bounds().depth == before.bounds().depth,
        crawl.target(url) == before.target(url),
{
}

/// What waits was put to wait last, in this order: nothing that was put to wait is left out
/// behind it.
pub proof fn law_what_waits_was_put_to_wait_last(crawl: Crawl, i: int)
    requires
        crawl.valid(),
        0 <= i < crawl.waiting().len(),
    ensures
        crawl.waiting().len() <= crawl.history().len(),
        crawl.waiting()[i] == crawl.history()[crawl.history().len() - crawl.waiting().len() + i],
        crawl.visited().contains(crawl.waiting()[i].fetch_url),
{
    let from = crawl.history().len() - crawl.waiting().len();
    assert(crawl.history().skip(from)[i] == crawl.history()[from + i]);
}

} // verus!
