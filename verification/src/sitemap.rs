//! Sitemaps: where they may be, what kind they are and which pages they list.

use vstd::prelude::*;

use crate::error::{AppError, AppResult, ErrorView};
use crate::html::{next_event, pending, xml_events, xml_reader, XmlEvent, XmlView};
use crate::text::{
    char_count, cut, join, joined, law_cut_at_the_first, lemma_trimmed_already, lines, lines_of,
    lowered, same, split_once, texts, to_ascii_lowercase, trim, trimmed,
};
use crate::web::{join_url, maybe, parse_url, url_joined, url_of};

verus! {

/// What a line of a `robots.txt` says of a sitemap.
pub open spec fn robots_line(line: Seq<char>) -> Option<Seq<char>> {
    let body = trimmed(
        match cut(line, '#') {
            Some(parts) => parts.0,
            None => line,
        },
    );
    match cut(body, ':') {
        Some(field) => if lowered(trimmed(field.0)) == "sitemap"@ && trimmed(field.1).len() > 0 {
            Some(trimmed(field.1))
        } else {
            None
        },
        None => None,
    }
}

/// The sitemaps that the lines from `i` on name.
pub open spec fn robots_from(lines: Seq<Seq<char>>, i: int) -> Seq<Seq<char>>
    decreases lines.len() - i,
{
    if i < 0 || i >= lines.len() {
        seq![]
    } else {
        match robots_line(lines[i]) {
            Some(url) => seq![url] + robots_from(lines, i + 1),
            None => robots_from(lines, i + 1),
        }
    }
}

fn sitemap_of_line(line: &str) -> (r: Option<String>)
    ensures
        maybe(r) == robots_line(line@),
{
    let body = match split_once(line, '#') {
        Some(parts) => trim(parts.0.as_str()),
        None => trim(line),
    };
    match split_once(body.as_str(), ':') {
        Some(field) => {
            let name = to_ascii_lowercase(trim(field.0.as_str()).as_str());
            let value = trim(field.1.as_str());
            if same(name.as_str(), "sitemap") && char_count(value.as_str()) > 0 {
                Some(value)
            } else {
                None
            }
        },
        None => None,
    }
}

/// The sitemaps that a `robots.txt` names, in its order.
pub fn parse_robots_sitemaps(robots: &str) -> (r: Vec<String>)
    ensures
        texts(r@) == robots_from(lines_of(robots@), 0),
{
    let all = lines(robots);
    let ghost view = texts(all@);
    let mut out: Vec<String> = Vec::new();
    let mut i: usize = 0;
    assert(texts(out@) + robots_from(view, 0) =~= robots_from(view, 0));
    while i < all.len()
        invariant
            view == texts(all@),
            i <= all@.len(),
            texts(out@) + robots_from(view, i as int) == robots_from(view, 0),
        decreases all@.len() - i,
    {
        let ghost before = texts(out@);
        if let Some(url) = sitemap_of_line(all[i].as_str()) {
            out.push(url);
            assert(texts(out@) =~= before.push(url@));
            assert(texts(out@) + robots_from(view, i + 1) =~= before + (seq![url@] + robots_from(
                view,
                i + 1,
            )));
        }
        i += 1;
    }
    assert(texts(out@) + robots_from(view, i as int) =~= texts(out@));
    out
}

/// A list with a value behind it, if it is not yet in the list.
pub open spec fn with_unique(values: Seq<Seq<char>>, value: Seq<char>) -> Seq<Seq<char>> {
    if values.contains(value) {
        values
    } else {
        values.push(value)
    }
}

/// Adds `value`, if it is not yet there.
pub fn push_unique(values: &mut Vec<String>, value: String)
    ensures
        texts(final(values)@) == with_unique(texts(old(values)@), value@),
{
    let ghost before = texts(values@);
    let mut i: usize = 0;
    while i < values.len()
        invariant
            before == texts(values@),
            i <= values@.len(),
            forall|k: int| 0 <= k < i ==> before[k] != value@,
        decreases values@.len() - i,
    {
        if values[i] == value {
            assert(before[i as int] == value@);
            return;
        }
        i += 1;
    }
    values.push(value);
    assert(texts(values@) =~= before.push(value@));
}

/// A list with the values from `i` on added that are not yet in it.
pub open spec fn with_all_unique(values: Seq<Seq<char>>, more: Seq<Seq<char>>, i: int) -> Seq<
    Seq<char>,
>
    decreases more.len() - i,
{
    if i < 0 || i >= more.len() {
        values
    } else {
        with_all_unique(with_unique(values, more[i]), more, i + 1)
    }
}

/// A list with a URL added, if there is one.
pub open spec fn with_place(values: Seq<Seq<char>>, place: Option<Seq<char>>) -> Seq<Seq<char>> {
    match place {
        Some(url) => with_unique(values, url),
        None => values,
    }
}

/// Where to look for a sitemap, in this order: at the URL itself where it is not
/// the front page of a site, where the `robots.txt` says, at the three usual places of
/// the site as far as it has them, and last at the URL itself.
pub open spec fn places_of(
    url: Seq<char>,
    path: Seq<char>,
    robots: Seq<Seq<char>>,
    usual: (Option<Seq<char>>, Option<Seq<char>>, Option<Seq<char>>),
) -> Seq<Seq<char>> {
    let own: Seq<Seq<char>> = if path != "/"@ {
        seq![url]
    } else {
        seq![]
    };
    let named = with_all_unique(own, robots, 0);
    with_unique(with_place(with_place(with_place(named, usual.0), usual.1), usual.2), url)
}

/// The URL of `path` on the site at `base`.
pub open spec fn on_site(base: Seq<char>, path: Seq<char>) -> Option<Seq<char>> {
    match url_joined(base, path) {
        Some(url) => Some(url.0),
        None => None,
    }
}

/// Where to look for a sitemap of the site at `raw`, or why that is no URL.
pub open spec fn candidates_of(raw: Seq<char>, robots: Seq<Seq<char>>) -> Result<
    Seq<Seq<char>>,
    Seq<char>,
> {
    match url_of(raw) {
        Err(message) => Err(message),
        Ok(url) => Ok(
            places_of(
                url.text,
                url.path,
                robots,
                (
                    on_site(raw, "/sitemap.xml"@),
                    on_site(raw, "/sitemap-index.xml"@),
                    on_site(raw, "/sitemap_index.xml"@),
                ),
            ),
        ),
    }
}

fn push_place(values: &mut Vec<String>, place: Option<String>)
    ensures
        texts(final(values)@) == with_place(texts(old(values)@), maybe(place)),
{
    if let Some(url) = place {
        push_unique(values, url);
    }
}

/// Where to look for a sitemap at `url`, whose path is `path`, where the `robots.txt`
/// names `robots` and the usual places are `usual`.
pub fn sitemap_places(
    url: String,
    path: &str,
    robots: &Vec<String>,
    usual: (Option<String>, Option<String>, Option<String>),
) -> (r: Vec<String>)
    ensures
        texts(r@) == places_of(
            url@,
            path@,
            texts(robots@),
            (maybe(usual.0), maybe(usual.1), maybe(usual.2)),
        ),
{
    let mut list: Vec<String> = Vec::new();
    if !same(path, "/") {
        list.push(url.clone());
        assert(texts(list@) =~= seq![url@]);
    } else {
        assert(texts(list@) =~= seq![]);
    }
    let ghost own = texts(list@);
    let mut i: usize = 0;
    while i < robots.len()
        invariant
            i <= robots@.len(),
            with_all_unique(own, texts(robots@), 0) == with_all_unique(
                texts(list@),
                texts(robots@),
                i as int,
            ),
        decreases robots@.len() - i,
    {
        push_unique(&mut list, robots[i].clone());
        i += 1;
    }
    push_place(&mut list, usual.0);
    push_place(&mut list, usual.1);
    push_place(&mut list, usual.2);
    push_unique(&mut list, url);
    list
}

fn place_on_site(base: &str, path: &str) -> (r: Option<String>)
    ensures
        maybe(r) == on_site(base@, path@),
{
    match join_url(base, path) {
        Some(url) => Some(url.0),
        None => None,
    }
}

/// Where the `robots.txt` of the site at `seed` is.
pub fn robots_url(seed: &str) -> (r: Option<String>)
    ensures
        maybe(r) == on_site(seed@, "/robots.txt"@),
{
    place_on_site(seed, "/robots.txt")
}

/// Where to look for a sitemap, where the `robots.txt` names `robots`.
pub fn sitemap_candidates(sitemap_url: &str, robots: &Vec<String>) -> (r: AppResult<Vec<String>>)
    ensures
        match r {
            Ok(list) => candidates_of(sitemap_url@, texts(robots@)) == Ok::<
                Seq<Seq<char>>,
                Seq<char>,
            >(texts(list@)),
            Err(e) => candidates_of(sitemap_url@, texts(robots@)) matches Err(message) && e@
                == ErrorView::Upstream("invalid sitemap URL: "@ + message),
        },
{
    match parse_url(sitemap_url) {
        Ok(url) => {
            let usual = (
                place_on_site(sitemap_url, "/sitemap.xml"),
                place_on_site(sitemap_url, "/sitemap-index.xml"),
                place_on_site(sitemap_url, "/sitemap_index.xml"),
            );
            Ok(sitemap_places(url.text, url.path.as_str(), robots, usual))
        },
        Err(message) => {
            let mut text = "invalid sitemap URL: ".to_owned();
            text.append(message.as_str());
            Err(AppError::upstream(text))
        },
    }
}

proof fn lemma_with_unique(values: Seq<Seq<char>>, value: Seq<char>)
    requires
        values.no_duplicates(),
    ensures
        with_unique(values, value).no_duplicates(),
        with_unique(values, value).contains(value),
        forall|v: Seq<char>| values.contains(v) ==> with_unique(values, value).contains(v),
{
    let after = with_unique(values, value);
    if !values.contains(value) {
        assert(after[values.len() as int] == value);
        assert forall|v: Seq<char>| values.contains(v) implies after.contains(v) by {
            let k = choose|k: int| 0 <= k < values.len() && values[k] == v;
            assert(after[k] == v);
        }
    }
}

proof fn lemma_with_all_unique(values: Seq<Seq<char>>, more: Seq<Seq<char>>, i: int)
    requires
        values.no_duplicates(),
    ensures
        with_all_unique(values, more, i).no_duplicates(),
    decreases more.len() - i,
{
    if 0 <= i < more.len() {
        lemma_with_unique(values, more[i]);
        lemma_with_all_unique(with_unique(values, more[i]), more, i + 1);
    }
}

proof fn lemma_with_place(values: Seq<Seq<char>>, place: Option<Seq<char>>)
    requires
        values.no_duplicates(),
    ensures
        with_place(values, place).no_duplicates(),
{
    match place {
        Some(url) => lemma_with_unique(values, url),
        None => {},
    }
}

/// No place is looked at twice, and the URL itself is looked at.
pub proof fn law_candidates_are_distinct(
    url: Seq<char>,
    path: Seq<char>,
    robots: Seq<Seq<char>>,
    usual: (Option<Seq<char>>, Option<Seq<char>>, Option<Seq<char>>),
)
    ensures
        places_of(url, path, robots, usual).no_duplicates(),
        places_of(url, path, robots, usual).contains(url),
{
    let own: Seq<Seq<char>> = if path != "/"@ {
        seq![url]
    } else {
        seq![]
    };
    let named = with_all_unique(own, robots, 0);
    lemma_with_all_unique(own, robots, 0);
    lemma_with_place(named, usual.0);
    let first = with_place(named, usual.0);
    lemma_with_place(first, usual.1);
    let second = with_place(first, usual.1);
    lemma_with_place(second, usual.2);
    lemma_with_unique(with_place(second, usual.2), url);
}

/// What is said where no sitemap was found.
pub open spec fn failure_text(
    url: Seq<char>,
    candidates: Seq<Seq<char>>,
    failures: Seq<Seq<char>>,
) -> Seq<char> {
    let tried = "failed to find a sitemap for "@ + url + "; tried "@ + joined(candidates, ", "@);
    if failures.len() > 0 {
        tried + "; last error: "@ + failures.last()
    } else {
        tried
    }
}

/// The error where no sitemap was found for `sitemap_url` at the `candidates`;
/// `failures` says why, the last reason last.
pub fn sitemap_failure(sitemap_url: &str, candidates: &Vec<String>, failures: &Vec<String>) -> (r:
    AppError)
    ensures
        r@ == ErrorView::Upstream(failure_text(sitemap_url@, texts(candidates@), texts(failures@))),
{
    let mut message = "failed to find a sitemap for ".to_owned();
    message.append(sitemap_url);
    message.append("; tried ");
    message.append(join(candidates, ", ").as_str());
    if failures.len() > 0 {
        message.append("; last error: ");
        message.append(failures[failures.len() - 1].as_str());
    }
    AppError::upstream(message)
}

/// What is done next in the search for a sitemap.
#[derive(Debug)]
pub enum SitemapStep {
    /// The sitemap at this URL is fetched.
    Fetch(String),
    /// These are the pages of the first sitemap that could be had.
    Found(Vec<String>),
    /// There is no sitemap.
    Failed(AppError),
}

/// What is noted of a place where there is no sitemap.
pub open spec fn failure_note(candidate: Seq<char>, message: Seq<char>) -> Seq<char> {
    candidate + ": "@ + message
}

/// What is done next in the search for a sitemap of `url` at the `candidates`, one after
/// the other: `outcome` is what became of the place that was looked at last, if there is
/// one, and `failures` holds what is noted of those before it.
pub fn sitemap_step(
    url: &str,
    candidates: &Vec<String>,
    failures: &mut Vec<String>,
    outcome: Option<Result<Vec<String>, String>>,
) -> (r: SitemapStep)
    requires
        old(failures)@.len() <= candidates@.len(),
        outcome is Some ==> old(failures)@.len() < candidates@.len(),
    ensures
        outcome matches Some(Ok(urls)) ==> (r matches SitemapStep::Found(found) && texts(found@)
            == texts(urls@) && final(failures)@ == old(failures)@),
        outcome matches Some(Err(message)) ==> texts(final(failures)@) == texts(
            old(failures)@,
        ).push(failure_note(candidates@[old(failures)@.len() as int]@, message@)),
        outcome is None ==> final(failures)@ == old(failures)@,
        !(outcome matches Some(Ok(_))) ==> if final(failures)@.len() < candidates@.len() {
            r matches SitemapStep::Fetch(candidate) && candidate@
                == candidates@[final(failures)@.len() as int]@
        } else {
            r matches SitemapStep::Failed(e) && e@ == ErrorView::Upstream(
                failure_text(url@, texts(candidates@), texts(final(failures)@)),
            )
        },
{
    match outcome {
        Some(Ok(urls)) => {
            return SitemapStep::Found(urls);
        },
        Some(Err(message)) => {
            let ghost before = texts(failures@);
            let mut note = candidates[failures.len()].clone();
            note.append(": ");
            note.append(message.as_str());
            failures.push(note);
            assert(texts(failures@) =~= before.push(note@));
        },
        None => {},
    }
    if failures.len() < candidates.len() {
        SitemapStep::Fetch(candidates[failures.len()].clone())
    } else {
        SitemapStep::Failed(sitemap_failure(url, candidates, failures))
    }
}

/// What became of a sitemap that another one lists.
#[derive(Debug)]
pub enum Child {
    /// The question for it could not be sent.
    NotSent,
    /// It was refused, for this reason.
    Refused(String),
    /// The answer could not be read.
    Unreadable,
    /// The answer is no sitemap.
    NoSitemap,
    /// It lists these pages.
    Urls(Vec<String>),
}

/// Adds to `urls` what `child` lists. One that was refused is an error; others that could
/// not be had are passed over.
pub fn add_child(urls: &mut Vec<String>, child: Child) -> (r: AppResult<()>)
    ensures
        match child {
            Child::Urls(more) => r is Ok && texts(final(urls)@) == texts(old(urls)@) + texts(more@),
            Child::Refused(message) => r matches Err(e) && e@ == ErrorView::Upstream(message@)
                && final(urls)@ == old(urls)@,
            _ => r is Ok && final(urls)@ == old(urls)@,
        },
{
    match child {
        Child::Urls(more) => {
            let ghost before = urls@;
            let mut more = more;
            let ghost added = more@;
            urls.append(&mut more);
            assert(texts(urls@) =~= texts(before) + texts(added));
            Ok(())
        },
        Child::Refused(message) => Err(AppError::upstream(message)),
        _ => Ok(()),
    }
}

/// The name of the first element among the events from `i` on; nothing where the
/// document ends before, and an error where it is not well formed there.
pub open spec fn first_element(events: Seq<XmlView>, i: int) -> Result<Option<Seq<char>>, Seq<char>>
    decreases events.len() - i,
{
    if i < 0 || i >= events.len() {
        Ok(None)
    } else {
        match events[i] {
            XmlView::Element(name) => Ok(Some(name)),
            XmlView::End => Ok(None),
            XmlView::Broken(message) => Err(message),
            XmlView::Other => first_element(events, i + 1),
        }
    }
}

/// The name of the first element of an XML document.
pub fn first_xml_element(xml: &str) -> (r: AppResult<Option<String>>)
    ensures
        match r {
            Ok(name) => first_element(xml_events(xml@), 0) == Ok::<Option<Seq<char>>, Seq<char>>(
                maybe(name),
            ),
            Err(e) => first_element(xml_events(xml@), 0) matches Err(message) && e@
                == ErrorView::Upstream("failed to parse sitemap XML: "@ + message),
        },
{
    let mut reader = xml_reader(xml);
    let ghost all = xml_events(xml@);
    let ghost mut at: int = 0;
    assert(all.skip(0) =~= all);
    loop
        invariant
            all == xml_events(xml@),
            0 <= at <= all.len(),
            pending(reader) == all.skip(at),
            first_element(all, 0) == first_element(all, at),
        decreases pending(reader).len(),
    {
        let event = next_event(&mut reader);
        proof {
            if at < all.len() {
                assert(all.skip(at)[0] == all[at]);
                assert(all.skip(at).drop_first() =~= all.skip(at + 1));
            }
        }
        match event {
            XmlEvent::Element(name) => {
                return Ok(Some(name));
            },
            XmlEvent::End => {
                return Ok(None);
            },
            XmlEvent::Broken(message) => {
                let mut text = "failed to parse sitemap XML: ".to_owned();
                text.append(message.as_str());
                return Err(AppError::upstream(text));
            },
            XmlEvent::Other => {
                proof {
                    at = at + 1;
                }
            },
        }
    }
}

/// What a sitemap lists.
#[derive(Debug, Clone, Copy, PartialEq, Eq, Structural)]
pub enum SitemapKind {
    /// Other sitemaps.
    Index,
    /// Pages.
    Pages,
}

/// What a sitemap whose first element is `root` lists.
pub fn sitemap_kind(root: &Option<String>) -> (r: AppResult<SitemapKind>)
    ensures
        match r {
            Ok(kind) => root matches Some(name) && ((name@ == "sitemapindex"@ && kind
                == SitemapKind::Index) || (name@ != "sitemapindex"@ && name@ == "urlset"@ && kind
                == SitemapKind::Pages)),
            Err(e) => match root {
                Some(name) => name@ != "sitemapindex"@ && name@ != "urlset"@ && e@
                    == ErrorView::Upstream(
                    "expected sitemap XML root <urlset> or <sitemapindex>, found <"@ + name@ + ">"@,
                ),
                None => e@ == ErrorView::Upstream("empty sitemap XML document"@),
            },
        },
{
    match root {
        Some(name) => if same(name.as_str(), "sitemapindex") {
            Ok(SitemapKind::Index)
        } else if same(name.as_str(), "urlset") {
            Ok(SitemapKind::Pages)
        } else {
            let mut message =
                "expected sitemap XML root <urlset> or <sitemapindex>, found <".to_owned();
            message.append(name.as_str());
            message.append(">");
            Err(AppError::upstream(message))
        },
        None => Err(AppError::upstream("empty sitemap XML document".to_owned())),
    }
}

/// What kind of sitemap an XML document is.
pub fn classify_sitemap(xml: &str) -> (r: AppResult<SitemapKind>)
    ensures
        match first_element(xml_events(xml@), 0) {
            Err(message) => r matches Err(e) && e@ == ErrorView::Upstream(
                "failed to parse sitemap XML: "@ + message,
            ),
            Ok(None) => r matches Err(e) && e@ == ErrorView::Upstream(
                "empty sitemap XML document"@,
            ),
            Ok(Some(name)) => if name == "sitemapindex"@ {
                r matches Ok(kind) && kind == SitemapKind::Index
            } else if name == "urlset"@ {
                r matches Ok(kind) && kind == SitemapKind::Pages
            } else {
                r matches Err(e) && e@ == ErrorView::Upstream(
                    "expected sitemap XML root <urlset> or <sitemapindex>, found <"@ + name + ">"@,
                )
            },
        },
{
    match first_xml_element(xml) {
        Ok(root) => sitemap_kind(&root),
        Err(e) => Err(e),
    }
}

/// The trimmed texts from `i` on that are not empty.
pub open spec fn trimmed_from(values: Seq<Seq<char>>, i: int) -> Seq<Seq<char>>
    decreases values.len() - i,
{
    if i < 0 || i >= values.len() {
        seq![]
    } else if trimmed(values[i]).len() == 0 {
        trimmed_from(values, i + 1)
    } else {
        seq![trimmed(values[i])] + trimmed_from(values, i + 1)
    }
}

/// The locations of the pages of a sitemap, without white space around them and
/// without empty ones.
pub fn clean_locations(locations: &Vec<String>) -> (r: Vec<String>)
    ensures
        texts(r@) == trimmed_from(texts(locations@), 0),
{
    let ghost view = texts(locations@);
    let mut out: Vec<String> = Vec::new();
    let mut i: usize = 0;
    assert(texts(out@) + trimmed_from(view, 0) =~= trimmed_from(view, 0));
    while i < locations.len()
        invariant
            view == texts(locations@),
            i <= locations@.len(),
            texts(out@) + trimmed_from(view, i as int) == trimmed_from(view, 0),
        decreases locations@.len() - i,
    {
        let ghost before = texts(out@);
        let location = trim(locations[i].as_str());
        if char_count(location.as_str()) > 0 {
            out.push(location);
            assert(texts(out@) =~= before.push(location@));
            assert(texts(out@) + trimmed_from(view, i + 1) =~= before + (seq![location@]
                + trimmed_from(view, i + 1)));
        }
        i += 1;
    }
    assert(texts(out@) + trimmed_from(view, i as int) =~= texts(out@));
    out
}

/// A line of a `robots.txt` names a sitemap by the field `Sitemap`, in capitals or small
/// letters; what stands behind a `#` does not count.
pub proof fn law_a_line_that_names_a_sitemap(
    name: Seq<char>,
    value: Seq<char>,
    comment: Seq<char>,
    line: Seq<char>,
)
    requires
        !name.contains('#'),
        !name.contains(':'),
        !value.contains('#'),
        name.len() > 0,
        !crate::text::is_white(name[0]),
        value.len() > 0,
        !crate::text::is_white(value.last()),
        line == name + seq![':'] + value,
    ensures
        lowered(trimmed(name)) == "sitemap"@ && trimmed(value).len() > 0 ==> robots_line(line)
            == Some(trimmed(value)),
        lowered(trimmed(name)) != "sitemap"@ ==> robots_line(line) is None,
        robots_line(line + seq!['#'] + comment) == robots_line(line),
{
    assert(!line.contains('#')) by {
        if line.contains('#') {
            let i = choose|i: int| 0 <= i < line.len() && line[i] == '#';
            if i < name.len() {
                assert(name.contains(name[i]));
            } else if i > name.len() {
                assert(value.contains(value[i - name.len() - 1]));
            }
        }
    }
    law_cut_at_the_first(line, comment, '#');
    assert(line[0] == name[0] && line.last() == value.last());
    lemma_trimmed_already(line);
    law_cut_at_the_first(name, value, ':');
}

/// A line without a colon names no sitemap.
pub proof fn law_a_line_without_a_field(line: Seq<char>)
    requires
        !line.contains('#'),
        !line.contains(':'),
    ensures
        robots_line(line) is None,
{
    law_cut_at_the_first(line, seq![], '#');
    let body = trimmed(line);
    assert(!body.contains(':')) by {
        if body.contains(':') {
            let i = choose|i: int| 0 <= i < body.len() && body[i] == ':';
            let front = crate::text::drop_front(line, crate::text::white());
            crate::text::lemma_skip_while(line, crate::text::white(), 0);
            crate::text::lemma_back_while(front, crate::text::white(), front.len() as int);
            assert(front[i] == ':');
            let k = crate::text::skip_while(line, crate::text::white(), 0);
            assert(line[k + i] == ':');
        }
    }
    law_cut_at_the_first(body, seq![], ':');
}

proof fn lemma_robots_from(lines: Seq<Seq<char>>, line: Seq<char>, i: int)
    requires
        0 <= i <= lines.len(),
    ensures
        robots_from(lines.push(line), i) == robots_from(lines, i) + (match robots_line(line) {
            Some(url) => seq![url],
            None => seq![],
        }),
    decreases lines.len() - i,
{
    reveal_with_fuel(robots_from, 2);
    let more = lines.push(line);
    if i < lines.len() {
        assert(more[i] == lines[i]);
        lemma_robots_from(lines, line, i + 1);
    } else {
        assert(more[i] == line);
    }
    assert(robots_from(more, i) =~= robots_from(lines, i) + (match robots_line(line) {
        Some(url) => seq![url],
        None => seq![],
    }));
}

/// The sitemaps of a `robots.txt` are all that its lines name, in their order.
pub proof fn law_all_named_sitemaps_count(lines: Seq<Seq<char>>, line: Seq<char>)
    ensures
        robots_from(seq![], 0) == Seq::<Seq<char>>::empty(),
        robots_from(lines.push(line), 0) == (match robots_line(line) {
            Some(url) => robots_from(lines, 0).push(url),
            None => robots_from(lines, 0),
        }),
{
    lemma_robots_from(lines, line, 0);
    let before = robots_from(lines, 0);
    assert(before + seq![] =~= before);
    if let Some(url) = robots_line(line) {
        assert(before + seq![url] =~= before.push(url));
    }
}

proof fn lemma_one_more_place(
    values: Seq<Seq<char>>,
    more: Seq<Seq<char>>,
    value: Seq<char>,
    i: int,
)
    requires
        0 <= i <= more.len(),
    ensures
        with_all_unique(values, more.push(value), i) == with_unique(
            with_all_unique(values, more, i),
            value,
        ),
    decreases more.len() - i,
{
    reveal_with_fuel(with_all_unique, 2);
    let all = more.push(value);
    if i < more.len() {
        assert(all[i] == more[i]);
        lemma_one_more_place(with_unique(values, more[i]), more, value, i + 1);
    } else {
        assert(all[i] == value);
    }
}

/// Values are added behind the others, in their order, each unless it is there already.
pub proof fn law_values_are_added_once(
    values: Seq<Seq<char>>,
    more: Seq<Seq<char>>,
    value: Seq<char>,
)
    ensures
        with_all_unique(values, seq![], 0) == values,
        ({
            let before = with_all_unique(values, more, 0);
            with_all_unique(values, more.push(value), 0) == (if exists|k: int|
                0 <= k < before.len() && #[trigger] before[k] == value {
                before
            } else {
                before.push(value)
            })
        }),
{
    lemma_one_more_place(values, more, value, 0);
}

/// A sitemap is looked for at the URL itself first, unless that is the front page of a site,
/// then where the `robots.txt` says, then at the usual places in their order, and last at the
/// URL itself, each place once.
pub proof fn law_where_a_sitemap_is_looked_for(
    url: Seq<char>,
    path: Seq<char>,
    robots: Seq<Seq<char>>,
    a: Seq<char>,
    b: Seq<char>,
    c: Seq<char>,
)
    ensures
        places_of(url, path, robots, (Some(a), Some(b), Some(c))) == with_all_unique(
            if path == seq!['/'] {
                seq![]
            } else {
                seq![url]
            },
            robots.push(a).push(b).push(c).push(url),
            0,
        ),
        places_of(url, path, robots, (None, None, None)) == with_all_unique(
            if path == seq!['/'] {
                seq![]
            } else {
                seq![url]
            },
            robots.push(url),
            0,
        ),
{
    reveal_strlit("/");
    assert("/"@ =~= seq!['/']);
    let own: Seq<Seq<char>> = if path == seq!['/'] {
        seq![]
    } else {
        seq![url]
    };
    lemma_one_more_place(own, robots, a, 0);
    lemma_one_more_place(own, robots.push(a), b, 0);
    lemma_one_more_place(own, robots.push(a).push(b), c, 0);
    lemma_one_more_place(own, robots.push(a).push(b).push(c), url, 0);
    lemma_one_more_place(own, robots, url, 0);
}

/// The usual places are `/sitemap.xml`, `/sitemap-index.xml` and `/sitemap_index.xml`.
pub proof fn law_the_usual_places(
    raw: Seq<char>,
    robots: Seq<Seq<char>>,
    a: (Seq<char>, Seq<char>),
    b: (Seq<char>, Seq<char>),
    c: (Seq<char>, Seq<char>),
)
    requires
        url_joined(raw, "/sitemap.xml"@) == Some(a),
        url_joined(raw, "/sitemap-index.xml"@) == Some(b),
        url_joined(raw, "/sitemap_index.xml"@) == Some(c),
    ensures
        url_of(raw) matches Ok(url) ==> candidates_of(raw, robots) == Ok::<
            Seq<Seq<char>>,
            Seq<char>,
        >(places_of(url.text, url.path, robots, (Some(a.0), Some(b.0), Some(c.0)))),
        url_of(raw) matches Err(message) ==> candidates_of(raw, robots) == Err::<
            Seq<Seq<char>>,
            Seq<char>,
        >(message),
{
}

/// Where no sitemap is found, all places are named that were looked at, and the last reason.
pub proof fn law_what_is_said_without_a_sitemap(
    url: Seq<char>,
    candidates: Seq<Seq<char>>,
    failures: Seq<Seq<char>>,
    last: Seq<char>,
)
    ensures
        failure_text(url, candidates, seq![]) == "failed to find a sitemap for "@ + url
            + "; tried "@ + joined(candidates, ", "@),
        failure_text(url, candidates, failures.push(last)) == "failed to find a sitemap for "@ + url
            + "; tried "@ + joined(candidates, ", "@) + "; last error: "@ + last,
{
}

proof fn lemma_first_element(events: Seq<XmlView>, i: int, k: int)
    requires
        0 <= i <= k <= events.len(),
        forall|j: int| i <= j < k ==> (#[trigger] events[j]) is Other,
    ensures
        first_element(events, i) == first_element(events, k),
    decreases k - i,
{
    if i < k {
        assert(events[i] is Other);
        lemma_first_element(events, i + 1, k);
    }
}

/// The kind of a sitemap is told by its first element: what stands before it, such as
/// comments, does not count, and a document that breaks off there is an error.
pub proof fn law_the_first_element_tells_the_kind(events: Seq<XmlView>, k: int)
    requires
        0 <= k <= events.len(),
        forall|j: int| 0 <= j < k ==> (#[trigger] events[j]) is Other,
    ensures
        k == events.len() ==> first_element(events, 0) == Ok::<Option<Seq<char>>, Seq<char>>(None),
        k < events.len() ==> (events[k] matches XmlView::Element(name) ==> first_element(events, 0)
            == Ok::<Option<Seq<char>>, Seq<char>>(Some(name))),
        k < events.len() ==> (events[k] matches XmlView::Broken(message) ==> first_element(
            events,
            0,
        ) == Err::<Option<Seq<char>>, Seq<char>>(message)),
        k < events.len() && events[k] is End ==> first_element(events, 0) == Ok::<
            Option<Seq<char>>,
            Seq<char>,
        >(None),
{
    lemma_first_element(events, 0, k);
}

proof fn lemma_trimmed_from(values: Seq<Seq<char>>, value: Seq<char>, i: int)
    requires
        0 <= i <= values.len(),
    ensures
        trimmed_from(values.push(value), i) == trimmed_from(values, i) + (if trimmed(value).len()
            > 0 {
            seq![trimmed(value)]
        } else {
            seq![]
        }),
    decreases values.len() - i,
{
    reveal_with_fuel(trimmed_from, 2);
    let more = values.push(value);
    if i < values.len() {
        assert(more[i] == values[i]);
        lemma_trimmed_from(values, value, i + 1);
    } else {
        assert(more[i] == value);
    }
    assert(trimmed_from(more, i) =~= trimmed_from(values, i) + (if trimmed(value).len() > 0 {
        seq![trimmed(value)]
    } else {
        seq![]
    }));
}

/// The pages of a sitemap are all that it lists, in their order and without white space around
/// them; only blank ones are left out.
pub proof fn law_all_listed_pages_count(values: Seq<Seq<char>>, value: Seq<char>)
    ensures
        trimmed_from(seq![], 0) == Seq::<Seq<char>>::empty(),
        trimmed_from(values.push(value), 0) == (if trimmed(value).len() > 0 {
            trimmed_from(values, 0).push(trimmed(value))
        } else {
            trimmed_from(values, 0)
        }),
{
    lemma_trimmed_from(values, value, 0);
    let before = trimmed_from(values, 0);
    assert(before + seq![] =~= before);
    assert(before + seq![trimmed(value)] =~= before.push(trimmed(value)));
}

/// A field without a value names no sitemap.
pub proof fn law_a_field_without_a_value(name: Seq<char>)
    requires
        !name.contains('#'),
        !name.contains(':'),
        name.len() > 0,
        !crate::text::is_white(name[0]),
    ensures
        robots_line(name + seq![':']) is None,
{
    let line = name + seq![':'];
    let empty = Seq::<char>::empty();
    assert(!line.contains('#')) by {
        if line.contains('#') {
            let i = choose|i: int| 0 <= i < line.len() && line[i] == '#';
            assert(name.contains(name[i]));
        }
    }
    law_cut_at_the_first(line, empty, '#');
    lemma_trimmed_already(line);
    assert(line =~= name + seq![':'] + empty);
    law_cut_at_the_first(name, empty, ':');
    crate::text::lemma_trimmed_len(empty);
}

/// What is noted of a place where there is no sitemap is the place and the reason.
pub proof fn law_what_is_noted_of_a_place(candidate: Seq<char>, message: Seq<char>)
    ensures
        failure_note(candidate, message) == candidate + ": "@ + message,
{
}

/// A place on a site is what its path resolves to there.
pub proof fn law_a_place_on_a_site(base: Seq<char>, path: Seq<char>, url: Seq<char>, scheme: Seq<char>)
    ensures
        url_joined(base, path) == Some((url, scheme)) ==> on_site(base, path) == Some(url),
        url_joined(base, path) is None ==> on_site(base, path) is None,
{
}

} // verus!
