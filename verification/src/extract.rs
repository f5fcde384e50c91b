//! What is worth reading of a page: its title, its content as markdown, and
//! whether it is but the shell of a program that would render it.

use vstd::prelude::*;

use crate::error::{AppError, ErrorView};
use crate::html::{
    convertible, elements, inner_lists, inners, is_convertible, markdown_of, select, select_html,
    select_inside, selected, selected_html, selected_inside, to_markdown, Element, ElementView,
    Inner, InnerView, MAX_SELECTOR_CHARS,
};
use crate::pattern::{
    find_all, pattern_found, pattern_matches, pattern_replaced, pattern_split, replace_all,
    split_all,
};
use crate::text::{
    byte_len, bytes_of, char_count, collapsed, contains, decimal, find_from, is_digit, join,
    joined, lemma_decimal, lemma_decimal_value, lemma_find_from, lowered, matches_at,
    normalize_whitespace, occurs, replace, replaced, same, show_size, split_from, split_of, take_chars, texts,
    to_ascii_lowercase, trim, trimmed, words, words_of,
};

verus! {

/// The title of a page and its content as markdown.
#[derive(Debug)]
pub struct Extracted {
    pub title: String,
    pub markdown: String,
}

/// What an [`Extracted`] holds.
#[verifier::ext_equal]
pub struct ExtractedView {
    pub title: Seq<char>,
    pub markdown: Seq<char>,
}

impl View for Extracted {
    type V = ExtractedView;

    open spec fn view(&self) -> ExtractedView {
        ExtractedView { title: self.title@, markdown: self.markdown@ }
    }
}

impl Clone for Extracted {
    fn clone(&self) -> (r: Self)
        ensures
            r@ == self@,
    {
        Extracted { title: self.title.clone(), markdown: self.markdown.clone() }
    }
}

impl Default for Extracted {
    fn default() -> (r: Self)
        ensures
            r@ == (ExtractedView { title: seq![], markdown: seq![] }),
    {
        Extracted { title: String::new(), markdown: String::new() }
    }
}

/// The elements that a selector matches; none where it is not valid.
pub open spec fn matched(html: Seq<char>, selector: Seq<char>) -> Seq<ElementView> {
    match selected(html, selector) {
        Some(found) => found,
        None => seq![],
    }
}

/// The elements that a selector matches, as HTML.
pub open spec fn matched_html(html: Seq<char>, selector: Seq<char>) -> Seq<Seq<char>> {
    match selected_html(html, selector) {
        Some(found) => found,
        None => seq![],
    }
}

/// What a second selector matches inside each of them.
pub open spec fn matched_inside(
    html: Seq<char>,
    selector: Seq<char>,
    inner: Seq<char>,
) -> Seq<Seq<InnerView>> {
    match selected_inside(html, selector, inner) {
        Some(found) => found,
        None => seq![],
    }
}

fn find(html: &str, selector: &str) -> (r: Vec<Element>)
    requires
        selector@.len() <= MAX_SELECTOR_CHARS,
    ensures
        elements(r@) == matched(html@, selector@),
{
    match select(html, selector) {
        Some(found) => found,
        None => {
            let none: Vec<Element> = Vec::new();
            assert(elements(none@) =~= seq![]);
            none
        },
    }
}

fn find_html(html: &str, selector: &str) -> (r: Vec<String>)
    requires
        selector@.len() <= MAX_SELECTOR_CHARS,
    ensures
        texts(r@) == matched_html(html@, selector@),
        r@.len() == matched(html@, selector@).len(),
{
    match select_html(html, selector) {
        Some(found) => found,
        None => {
            let none: Vec<String> = Vec::new();
            assert(texts(none@) =~= seq![]);
            none
        },
    }
}

fn find_inside(html: &str, selector: &str, inner: &str) -> (r: Vec<Vec<Inner>>)
    requires
        selector@.len() <= MAX_SELECTOR_CHARS,
        inner@.len() <= MAX_SELECTOR_CHARS,
    ensures
        inner_lists(r@) == matched_inside(html@, selector@, inner@),
{
    match select_inside(html, selector, inner) {
        Some(found) => found,
        None => {
            let none: Vec<Vec<Inner>> = Vec::new();
            assert(inner_lists(none@) =~= seq![]);
            none
        },
    }
}

/// The texts of an element, one blank apart.
pub open spec fn inner_text(parts: Seq<Seq<char>>) -> Seq<char> {
    joined(parts, " "@)
}

/// The words of an element, one blank apart.
pub open spec fn flat_text(parts: Seq<Seq<char>>) -> Seq<char> {
    collapsed(inner_text(parts))
}

fn inner_text_of(parts: &Vec<String>) -> (r: String)
    ensures
        r@ == inner_text(texts(parts@)),
{
    join(parts, " ")
}

fn flat_text_of(parts: &Vec<String>) -> (r: String)
    ensures
        r@ == flat_text(texts(parts@)),
{
    normalize_whitespace(inner_text_of(parts).as_str())
}

/// The words of the first of some elements; none where there is no element.
pub open spec fn first_words(found: Seq<ElementView>) -> Seq<char> {
    if found.len() > 0 {
        flat_text(found[0].text)
    } else {
        seq![]
    }
}

/// The title of a document: the words of its first `title` element.
pub open spec fn title_of(html: Seq<char>) -> Seq<char> {
    first_words(matched(html, "title"@))
}

/// The title of a document whose `title` elements are `found`.
pub fn title_among(found: &Vec<Element>) -> (r: String)
    ensures
        r@ == first_words(elements(found@)),
{
    if found.len() > 0 {
        assert(elements(found@)[0] == found@[0]@);
        flat_text_of(&found[0].text)
    } else {
        String::new()
    }
}

/// The title of a document.
pub fn title(raw_html: &str) -> (r: String)
    ensures
        r@ == title_of(raw_html@),
{
    proof {
        reveal_strlit("title");
    }
    title_among(&find(raw_html, "title"))
}

/// A document as markdown without white space around it. Nothing where it cannot be
/// written as markdown.
pub open spec fn converted(html: Seq<char>) -> Option<Seq<char>> {
    if convertible(html) {
        Some(trimmed(markdown_of(html)))
    } else {
        None
    }
}

fn convert(html: &str) -> (r: Option<String>)
    ensures
        crate::web::maybe(r) == converted(html@),
{
    if is_convertible(html) {
        Some(trim(to_markdown(html).as_str()))
    } else {
        None
    }
}

/// The best of the candidates from `i` on and of `best`: the first of those with
/// the highest score that are not empty as markdown. Candidates without a score do not
/// count. Nothing where another one cannot be written as markdown.
pub open spec fn best_from(
    scores: Seq<Option<int>>,
    markdowns: Seq<Option<Seq<char>>>,
    i: int,
    best: Option<(int, Seq<char>)>,
) -> Option<Option<(int, Seq<char>)>>
    decreases scores.len() - i,
{
    if i < 0 || i >= scores.len() {
        Some(best)
    } else {
        match scores[i] {
            None => best_from(scores, markdowns, i + 1, best),
            Some(score) => match markdowns[i] {
                None => None,
                Some(markdown) => {
                    let better = match best {
                        Some(held) => score > held.0,
                        None => true,
                    };
                    if markdown.len() > 0 && better {
                        best_from(scores, markdowns, i + 1, Some((score, markdown)))
                    } else {
                        best_from(scores, markdowns, i + 1, best)
                    }
                },
            },
        }
    }
}

/// The markdown of the best candidate.
pub open spec fn best_of(scores: Seq<Option<int>>, markdowns: Seq<Option<Seq<char>>>) -> Option<
    Option<Seq<char>>,
> {
    match best_from(scores, markdowns, 0, None) {
        None => None,
        Some(None) => Some(None),
        Some(Some(best)) => Some(Some(best.1)),
    }
}

/// The scores that are held by `scores`.
pub open spec fn scores_of(scores: Seq<Option<i128>>) -> Seq<Option<int>> {
    Seq::new(
        scores.len(),
        |i: int|
            match scores[i] {
                Some(score) => Some(score as int),
                None => None,
            },
    )
}

/// The texts that are held by `texts`.
pub open spec fn maybe_texts(texts: Seq<Option<String>>) -> Seq<Option<Seq<char>>> {
    Seq::new(texts.len(), |i: int| crate::web::maybe(texts[i]))
}

/// What there is twice over of a text.
pub open spec fn maybe_twice(value: Option<Option<String>>) -> Option<Option<Seq<char>>> {
    match value {
        Some(value) => Some(crate::web::maybe(value)),
        None => None,
    }
}

/// The best of the candidates with the scores `scores`, which are `markdowns` as
/// markdown.
pub fn best_candidate(scores: &Vec<Option<i128>>, markdowns: &Vec<Option<String>>) -> (r: Option<
    Option<String>,
>)
    requires
        scores@.len() == markdowns@.len(),
    ensures
        maybe_twice(r) == best_of(scores_of(scores@), maybe_texts(markdowns@)),
{
    let ghost all = scores_of(scores@);
    let ghost pages = maybe_texts(markdowns@);
    let mut best: Option<(i128, String)> = None;
    let mut i: usize = 0;
    while i < scores.len()
        invariant
            scores@.len() == markdowns@.len(),
            all == scores_of(scores@),
            pages == maybe_texts(markdowns@),
            i <= scores@.len(),
            best_from(all, pages, 0, None) == best_from(
                all,
                pages,
                i as int,
                match best {
                    Some(held) => Some((held.0 as int, held.1@)),
                    None => None,
                },
            ),
        decreases scores@.len() - i,
    {
        if let Some(score) = scores[i] {
            match &markdowns[i] {
                Some(markdown) => {
                    let better: bool = match &best {
                        Some(held) => score > held.0,
                        None => true,
                    };
                    if char_count(markdown.as_str()) > 0 && better {
                        best = Some((score, markdown.clone()));
                    }
                },
                None => {
                    return None;
                },
            }
        }
        i += 1;
    }
    match best {
        Some(held) => Some(Some(held.1)),
        None => Some(None),
    }
}

/// The candidates `htmls` as markdown.
pub open spec fn all_converted(htmls: Seq<Seq<char>>) -> Seq<Option<Seq<char>>> {
    Seq::new(htmls.len(), |i: int| converted(htmls[i]))
}

proof fn lemma_best_from(
    scores: Seq<Option<int>>,
    a: Seq<Option<Seq<char>>>,
    b: Seq<Option<Seq<char>>>,
    i: int,
    best: Option<(int, Seq<char>)>,
)
    requires
        0 <= i,
        forall|k: int| 0 <= k < scores.len() && scores[k] is Some ==> a[k] == b[k],
    ensures
        best_from(scores, a, i, best) == best_from(scores, b, i, best),
    decreases scores.len() - i,
{
    if i < scores.len() {
        match scores[i] {
            None => lemma_best_from(scores, a, b, i + 1, best),
            Some(score) => match a[i] {
                None => {},
                Some(markdown) => {
                    lemma_best_from(scores, a, b, i + 1, Some((score, markdown)));
                    lemma_best_from(scores, a, b, i + 1, best);
                },
            },
        }
    }
}

/// The markdown of the best of the candidates `htmls` with the scores `scores`.
pub fn best_markdown(scores: &Vec<Option<i128>>, htmls: &Vec<String>) -> (r: Option<Option<String>>)
    requires
        scores@.len() == htmls@.len(),
    ensures
        maybe_twice(r) == best_of(scores_of(scores@), all_converted(texts(htmls@))),
{
    let ghost view = all_converted(texts(htmls@));
    let mut markdowns: Vec<Option<String>> = Vec::new();
    let mut i: usize = 0;
    while i < scores.len()
        invariant
            scores@.len() == htmls@.len(),
            view == all_converted(texts(htmls@)),
            i <= scores@.len(),
            markdowns@.len() == i,
            forall|k: int|
                0 <= k < i && scores_of(scores@)[k] is Some ==> #[trigger] maybe_texts(
                    markdowns@,
                )[k] == view[k],
        decreases scores@.len() - i,
    {
        let ghost before = markdowns@;
        let markdown = if scores[i].is_some() {
            convert(htmls[i].as_str())
        } else {
            None
        };
        assert(view[i as int] == converted(htmls@[i as int]@));
        markdowns.push(markdown);
        assert forall|k: int| 0 <= k < i + 1 && scores_of(scores@)[k] is Some implies
            #[trigger] maybe_texts(markdowns@)[k] == view[k] by {
            if k < i {
                assert(maybe_texts(before)[k] == view[k]);
                assert(markdowns@[k] == before[k]);
            }
        }
        i += 1;
    }
    proof {
        lemma_best_from(scores_of(scores@), maybe_texts(markdowns@), view, 0, None);
    }
    best_candidate(scores, &markdowns)
}

/// The scores of elements by the length of their words.
pub open spec fn length_scores(found: Seq<ElementView>) -> Seq<Option<int>> {
    Seq::new(found.len(), |i: int| Some(flat_text(found[i].text).len() as int))
}

/// The markdown of the longest element that a selector matches.
pub open spec fn best_by_selector(html: Seq<char>, selector: Seq<char>) -> Option<
    Option<Seq<char>>,
> {
    best_of(length_scores(matched(html, selector)), all_converted(matched_html(html, selector)))
}

fn best_markdown_for_selector(html: &str, selector: &str) -> (r: Option<Option<String>>)
    requires
        selector@.len() <= MAX_SELECTOR_CHARS,
    ensures
        maybe_twice(r) == best_by_selector(html@, selector@),
{
    let found = find(html, selector);
    let htmls = find_html(html, selector);
    let ghost view = elements(found@);
    let mut scores: Vec<Option<i128>> = Vec::new();
    let mut i: usize = 0;
    while i < found.len()
        invariant
            view == elements(found@),
            i <= found@.len(),
            scores@.len() == i,
            forall|k: int|
                0 <= k < i ==> scores_of(scores@)[k] == #[trigger] length_scores(view)[k],
        decreases found@.len() - i,
    {
        let text = flat_text_of(&found[i].text);
        let n: usize = char_count(text.as_str());
        let ghost before = scores@;
        scores.push(Some(n as i128));
        assert(view[i as int] == found@[i as int]@);
        assert forall|k: int| 0 <= k < i + 1 implies scores_of(scores@)[k]
            == #[trigger] length_scores(view)[k] by {
            if k < i {
                assert(scores_of(before)[k] == length_scores(view)[k]);
                assert(scores@[k] == before[k]);
            }
        }
        i += 1;
    }
    assert(elements(found@).len() == found@.len());
    assert(scores_of(scores@) =~= length_scores(view));
    best_markdown(&scores, &htmls)
}

/// The `id`, `class`, `role` and `itemprop` of an element that has them, one
/// blank apart, in small letters.
pub open spec fn identity_of(e: ElementView) -> Seq<char> {
    lowered(
        joined(present(e.id) + present(e.class) + present(e.role) + present(e.itemprop), " "@),
    )
}

/// The value of an attribute that is there.
pub open spec fn present(value: Option<Seq<char>>) -> Seq<Seq<char>> {
    match value {
        Some(value) => seq![value],
        None => seq![],
    }
}

fn push_present(values: &mut Vec<String>, value: &Option<String>)
    ensures
        texts(final(values)@) == texts(old(values)@) + present(crate::web::maybe(*value)),
{
    let ghost before = texts(values@);
    if let Some(value) = value {
        values.push(value.clone());
        assert(texts(values@) =~= before + seq![value@]);
    } else {
        assert(before + seq![] =~= before);
    }
}

/// The identity of an element.
pub fn candidate_identity(e: &Element) -> (r: String)
    ensures
        r@ == identity_of(e@),
{
    let mut values: Vec<String> = Vec::new();
    assert(texts(values@) + present(e@.id) =~= present(e@.id));
    push_present(&mut values, &e.id);
    push_present(&mut values, &e.class);
    push_present(&mut values, &e.role);
    push_present(&mut values, &e.itemprop);
    to_ascii_lowercase(join(&values, " ").as_str())
}

/// Whether an identity speaks of content.
pub open spec fn positive(identity: Seq<char>) -> bool {
    occurs(identity, "article"@) || occurs(identity, "body"@) || occurs(identity, "content"@) || occurs(
        identity,
        "doc"@,
    ) || occurs(identity, "documentation"@) || occurs(identity, "entry"@) || occurs(identity, "main"@)
        || occurs(identity, "markdown"@) || occurs(identity, "post"@) || occurs(identity, "prose"@) || occurs(
        identity,
        "story"@,
    )
}

/// Whether an identity speaks of what surrounds the content.
pub open spec fn negative(identity: Seq<char>) -> bool {
    occurs(identity, "ad-"@) || occurs(identity, "ads"@) || occurs(identity, "advert"@) || occurs(
        identity,
        "aside"@,
    ) || occurs(identity, "banner"@) || occurs(identity, "breadcrumb"@) || occurs(identity, "comment"@)
        || occurs(identity, "cookie"@) || occurs(identity, "footer"@) || occurs(identity, "header"@) || occurs(
        identity,
        "menu"@,
    ) || occurs(identity, "modal"@) || occurs(identity, "nav"@) || occurs(identity, "pagination"@) || occurs(
        identity,
        "promo"@,
    ) || occurs(identity, "related"@) || occurs(identity, "share"@) || occurs(identity, "sidebar"@) || occurs(
        identity,
        "social"@,
    )
}

fn has_positive_hint(s: &str) -> (r: bool)
    ensures
        r == positive(s@),
{
    contains(s, "article") || contains(s, "body") || contains(s, "content") || contains(s, "doc")
        || contains(s, "documentation") || contains(s, "entry") || contains(s, "main") || contains(
        s,
        "markdown",
    ) || contains(s, "post") || contains(s, "prose") || contains(s, "story")
}

fn has_negative_hint(s: &str) -> (r: bool)
    ensures
        r == negative(s@),
{
    contains(s, "ad-") || contains(s, "ads") || contains(s, "advert") || contains(s, "aside")
        || contains(s, "banner") || contains(s, "breadcrumb") || contains(s, "comment") || contains(
        s,
        "cookie",
    ) || contains(s, "footer") || contains(s, "header") || contains(s, "menu") || contains(
        s,
        "modal",
    ) || contains(s, "nav") || contains(s, "pagination") || contains(s, "promo") || contains(
        s,
        "related",
    ) || contains(s, "share") || contains(s, "sidebar") || contains(s, "social")
}

/// The number of characters of the words of the links from `i` on.
pub open spec fn link_chars(links: Seq<InnerView>, i: int) -> int
    decreases links.len() - i,
{
    if i < 0 || i >= links.len() {
        0
    } else {
        flat_text(links[i].text).len() + link_chars(links, i + 1)
    }
}

/// How much an element looks like the content of a page. It does not at all if it
/// is short, if it speaks of what surrounds the content, or if more than 45 in a
/// hundred of its characters are links and it does not speak of content.
pub open spec fn score_of(e: ElementView, links: Seq<InnerView>, blocks: int) -> Option<int> {
    let text = flat_text(e.text);
    let chars = text.len() as int;
    let good = positive(identity_of(e));
    let bad = negative(identity_of(e));
    let linked = link_chars(links, 0);
    let score = chars + blocks * 40 + (if good {
        300int
    } else {
        0
    }) - (if bad {
        250int
    } else {
        0
    }) - linked * 2;
    if chars < 40 && words_of(text).len() < 8 {
        None
    } else if bad && !good {
        None
    } else if chars > 0 && linked * 20 > chars * 9 && !good {
        None
    } else if score > 0 {
        Some(score)
    } else {
        None
    }
}

fn count_link_chars(links: &Vec<Inner>) -> (r: u128)
    ensures
        r == link_chars(inners(links@), 0),
{
    let ghost view = inners(links@);
    let mut sum: u128 = 0;
    let mut i: usize = 0;
    while i < links.len()
        invariant
            view == inners(links@),
            i <= links@.len(),
            sum + link_chars(view, i as int) == link_chars(view, 0),
            sum <= i * 0xffff_ffff_ffff_ffff,
        decreases links@.len() - i,
    {
        let text = flat_text_of(&links[i].text);
        assert(view[i as int] == links@[i as int]@);
        let n: usize = char_count(text.as_str());
        assert(i * 0xffff_ffff_ffff_ffff + 0xffff_ffff_ffff_ffff <= 0xffff_ffff_ffff_ffff
            * 0xffff_ffff_ffff_ffff) by (nonlinear_arith)
            requires
                i < 0xffff_ffff_ffff_ffff,
        ;
        sum = sum + n as u128;
        i += 1;
    }
    sum
}

/// How much an element looks like the content of a page.
pub fn score_content_candidate(e: &Element, links: &Vec<Inner>, blocks: usize) -> (r: Option<i128>)
    ensures
        match r {
            Some(score) => score_of(e@, inners(links@), blocks as int) == Some(score as int),
            None => score_of(e@, inners(links@), blocks as int) is None,
        },
{
    let text = flat_text_of(&e.text);
    let chars: usize = char_count(text.as_str());
    let word_list = words(text.as_str());
    assert(word_list@.len() == texts(word_list@).len());
    if chars < 40 && word_list.len() < 8 {
        return None;
    }
    let identity = candidate_identity(e);
    let good = has_positive_hint(identity.as_str());
    let bad = has_negative_hint(identity.as_str());
    if bad && !good {
        return None;
    }
    let linked = count_link_chars(links);
    if linked > 0x1_0000_0000_0000_0000_0000 {
        return None;
    }
    if chars > 0 && linked * 20 > chars as u128 * 9 && !good {
        return None;
    }
    let mut score: i128 = chars as i128 + blocks as i128 * 40;
    if good {
        score = score + 300;
    }
    if bad {
        score = score - 250;
    }
    score = score - linked as i128 * 2;
    if score > 0 {
        Some(score)
    } else {
        None
    }
}

/// The scores of the candidates for the content of a page.
pub open spec fn candidate_scores(
    found: Seq<ElementView>,
    links: Seq<Seq<InnerView>>,
    blocks: Seq<Seq<InnerView>>,
) -> Seq<Option<int>> {
    Seq::new(
        found.len(),
        |i: int|
            if i < links.len() && i < blocks.len() {
                score_of(found[i], links[i], blocks[i].len() as int)
            } else {
                None
            },
    )
}

/// The markdown of the section that looks most like the content of a page.
pub open spec fn best_section(html: Seq<char>) -> Option<Option<Seq<char>>> {
    best_of(
        candidate_scores(
            matched(html, "section, div"@),
            matched_inside(html, "section, div"@, "a[href]"@),
            matched_inside(html, "section, div"@, "p, pre, blockquote, table, ul, ol"@),
        ),
        all_converted(matched_html(html, "section, div"@)),
    )
}

fn best_content_candidate_markdown(html: &str) -> (r: Option<Option<String>>)
    ensures
        maybe_twice(r) == best_section(html@),
{
    proof {
        reveal_strlit("section, div");
        reveal_strlit("a[href]");
        reveal_strlit("p, pre, blockquote, table, ul, ol");
    }
    let found = find(html, "section, div");
    let htmls = find_html(html, "section, div");
    let links = find_inside(html, "section, div", "a[href]");
    let blocks = find_inside(html, "section, div", "p, pre, blockquote, table, ul, ol");
    let ghost view = elements(found@);
    let ghost all = candidate_scores(view, inner_lists(links@), inner_lists(blocks@));
    let mut scores: Vec<Option<i128>> = Vec::new();
    let mut i: usize = 0;
    while i < found.len()
        invariant
            view == elements(found@),
            all == candidate_scores(view, inner_lists(links@), inner_lists(blocks@)),
            i <= found@.len(),
            scores@.len() == i,
            forall|k: int| 0 <= k < i ==> scores_of(scores@)[k] == #[trigger] all[k],
        decreases found@.len() - i,
    {
        let ghost before = scores@;
        assert(view[i as int] == found@[i as int]@);
        if i < links.len() && i < blocks.len() {
            assert(inner_lists(links@)[i as int] == inners(links@[i as int]@));
            assert(inner_lists(blocks@)[i as int].len() == blocks@[i as int]@.len());
            let score = score_content_candidate(&found[i], &links[i], blocks[i].len());
            scores.push(score);
        } else {
            scores.push(None);
        }
        assert forall|k: int| 0 <= k < i + 1 implies scores_of(scores@)[k] == #[trigger] all[k] by {
            if k < i {
                assert(scores_of(before)[k] == all[k]);
                assert(scores@[k] == before[k]);
            }
        }
        i += 1;
    }
    assert(elements(found@).len() == found@.len());
    assert(scores_of(scores@) =~= all);
    best_markdown(&scores, &htmls)
}

/// The first of the parts from `i` on that has content. Nothing where there is none, or
/// where a part before it cannot be written as markdown.
pub open spec fn first_content(parts: Seq<Option<Option<Seq<char>>>>, i: int) -> Option<Seq<char>>
    decreases parts.len() - i,
{
    if i < 0 || i >= parts.len() {
        None
    } else {
        match parts[i] {
            None => None,
            Some(None) => first_content(parts, i + 1),
            Some(Some(markdown)) => Some(markdown),
        }
    }
}

/// What is worth reading of a document: its longest article, main element or
/// element in the main role, in this order, then the section that looks most like
/// content, then its body, then all of it. Nothing where a part that has to be
/// looked at cannot be written as markdown.
pub open spec fn extraction(html: Seq<char>) -> Option<Seq<char>> {
    first_content(
        seq![
            best_by_selector(html, "article"@),
            best_by_selector(html, "main"@),
            best_by_selector(html, "[role=main]"@),
            best_section(html),
            best_by_selector(html, "body"@),
            match converted(html) {
                Some(markdown) => Some(Some(markdown)),
                None => None,
            },
        ],
        0,
    )
}

fn content_of(html: &str) -> (r: Option<String>)
    ensures
        crate::web::maybe(r) == extraction(html@),
{
    proof {
        reveal_with_fuel(first_content, 7);
        reveal_strlit("article");
        reveal_strlit("main");
        reveal_strlit("[role=main]");
        reveal_strlit("body");
    }
    let article = best_markdown_for_selector(html, "article");
    if let Some(None) = article {
    } else {
        return article?;
    }
    let main = best_markdown_for_selector(html, "main");
    if let Some(None) = main {
    } else {
        return main?;
    }
    let role = best_markdown_for_selector(html, "[role=main]");
    if let Some(None) = role {
    } else {
        return role?;
    }
    let section = best_content_candidate_markdown(html);
    if let Some(None) = section {
    } else {
        return section?;
    }
    let body = best_markdown_for_selector(html, "body");
    if let Some(None) = body {
    } else {
        return body?;
    }
    convert(html)
}

/// The title and the content of a page. Nothing where its content cannot be
/// written as markdown.
pub fn try_extract(raw_html: &str) -> (r: Option<Extracted>)
    ensures
        match r {
            Some(extracted) => extraction(raw_html@) == Some(extracted@.markdown)
                && extracted@.title == title_of(raw_html@),
            None => extraction(raw_html@) is None,
        },
{
    match content_of(raw_html) {
        Some(markdown) => Some(Extracted { title: title(raw_html), markdown: markdown }),
        None => None,
    }
}

/// What is said of a page whose content cannot be written as markdown.
pub open spec fn unwritable_page() -> ErrorView {
    ErrorView::Upstream("page cannot be written as markdown"@)
}

fn unwritable_error() -> (r: AppError)
    ensures
        r@ == unwritable_page(),
{
    AppError::upstream("page cannot be written as markdown".to_owned())
}

/// The title and the content of a page.
pub fn extract(_page_url: &str, raw_html: &str) -> (r: Result<Extracted, AppError>)
    ensures
        match extraction(raw_html@) {
            Some(markdown) => r matches Ok(extracted) && extracted@.markdown == markdown
                && extracted@.title == title_of(raw_html@),
            None => r matches Err(e) && e@ == unwritable_page(),
        },
{
    match try_extract(raw_html) {
        Some(extracted) => Ok(extracted),
        None => Err(unwritable_error()),
    }
}

/// `text` and the texts from `i` on, one blank line apart, with no blank line
/// before the first text.
pub open spec fn paragraphs_from(parts: Seq<Seq<char>>, i: int, text: Seq<char>) -> Seq<char>
    decreases parts.len() - i,
{
    if i < 0 || i >= parts.len() {
        text
    } else if text.len() > 0 {
        paragraphs_from(parts, i + 1, text + "\n\n"@ + parts[i])
    } else {
        paragraphs_from(parts, i + 1, text + parts[i])
    }
}

/// The elements that a selector matches as HTML, one blank line apart, or nothing
/// where it is not valid or too long.
pub open spec fn selection(html: Seq<char>, selector: Seq<char>) -> Option<Seq<char>> {
    if selector.len() > MAX_SELECTOR_CHARS {
        None
    } else {
        match selected_html(html, selector) {
            Some(parts) => Some(trimmed(paragraphs_from(parts, 0, seq![]))),
            None => None,
        }
    }
}

/// Texts, one blank line apart.
pub fn join_parts(parts: &Vec<String>) -> (r: String)
    ensures
        r@ == trimmed(paragraphs_from(texts(parts@), 0, seq![])),
{
    let ghost all = texts(parts@);
    let mut html = String::new();
    let mut i: usize = 0;
    while i < parts.len()
        invariant
            all == texts(parts@),
            i <= parts@.len(),
            paragraphs_from(all, 0, seq![]) == paragraphs_from(all, i as int, html@),
        decreases parts@.len() - i,
    {
        if char_count(html.as_str()) > 0 {
            html.append("\n\n");
        }
        html.append(parts[i].as_str());
        i += 1;
    }
    trim(html.as_str())
}

/// The elements of a page that `selector` matches, as HTML.
pub fn extract_selector_html(raw_html: &str, selector: &str) -> (r: Result<String, AppError>)
    ensures
        match r {
            Ok(text) => selection(raw_html@, selector@) == Some(text@),
            Err(e) => selection(raw_html@, selector@) is None && e@ == ErrorView::Validation(
                "invalid selector: "@ + selector@,
            ),
        },
{
    if char_count(selector) <= MAX_SELECTOR_CHARS {
        if let Some(parts) = select_html(raw_html, selector) {
            return Ok(join_parts(&parts));
        }
    }
    let mut message = "invalid selector: ".to_owned();
    message.append(selector);
    Err(AppError::validation(message))
}

/// The elements that a selector matches as markdown: the markdown, or nothing
/// where they cannot be written as markdown.
pub open spec fn selected_markdown(html: Seq<char>) -> Option<Seq<char>> {
    if html.len() == 0 {
        Some(seq![])
    } else {
        converted(html)
    }
}

/// The elements of a page that `selector` matches, as markdown. Nothing where they
/// cannot be written as markdown.
pub fn try_extract_selector(raw_html: &str, selector: &str) -> (r: Option<Result<String, AppError>>)
    ensures
        match r {
            Some(Ok(markdown)) => selection(raw_html@, selector@) matches Some(html)
                && selected_markdown(html) == Some(markdown@),
            Some(Err(e)) => selection(raw_html@, selector@) is None && e@ == ErrorView::Validation(
                "invalid selector: "@ + selector@,
            ),
            None => selection(raw_html@, selector@) matches Some(html) && selected_markdown(
                html,
            ) is None,
        },
{
    let html = match extract_selector_html(raw_html, selector) {
        Ok(html) => html,
        Err(e) => {
            return Some(Err(e));
        },
    };
    if char_count(html.as_str()) == 0 {
        return Some(Ok(String::new()));
    }
    match convert(html.as_str()) {
        Some(markdown) => Some(Ok(markdown)),
        None => None,
    }
}

/// The elements of a page that `selector` matches, as markdown.
pub fn extract_selector(raw_html: &str, selector: &str) -> (r: Result<String, AppError>)
    ensures
        match selection(raw_html@, selector@) {
            None => r matches Err(e) && e@ == ErrorView::Validation(
                "invalid selector: "@ + selector@,
            ),
            Some(html) => match selected_markdown(html) {
                Some(markdown) => r matches Ok(text) && text@ == markdown,
                None => r matches Err(e) && e@ == unwritable_page(),
            },
        },
{
    match try_extract_selector(raw_html, selector) {
        Some(r) => r,
        None => Err(unwritable_error()),
    }
}

/// The selector of the elements whose text is visible.
pub const VISIBLE: &'static str =
    "p, article, main, section, h1, h2, h3, h4, h5, h6, li, td, th, dd, dt, blockquote";

/// The words of the elements from `i` on that have any.
pub open spec fn visible_from(found: Seq<ElementView>, i: int) -> Seq<Seq<char>>
    decreases found.len() - i,
{
    if i < 0 || i >= found.len() {
        seq![]
    } else if flat_text(found[i].text).len() == 0 {
        visible_from(found, i + 1)
    } else {
        seq![flat_text(found[i].text)] + visible_from(found, i + 1)
    }
}

/// Whether an element is a block of text of more than twenty bytes.
pub open spec fn is_block(e: ElementView) -> bool {
    let n = e.name;
    (n == "p"@ || n == "li"@ || n == "h1"@ || n == "h2"@ || n == "h3"@ || n == "h4"@ || n == "h5"@
        || n == "h6"@ || n == "td"@ || n == "blockquote"@ || n == "dd"@) && byte_len(
        flat_text(e.text),
    ) > 20
}

/// How many of the elements from `i` on are blocks of text.
pub open spec fn blocks_from(found: Seq<ElementView>, i: int) -> int
    decreases found.len() - i,
{
    if i < 0 || i >= found.len() {
        0
    } else {
        blocks_from(found, i + 1) + (if is_block(found[i]) {
            1int
        } else {
            0
        })
    }
}

/// The visible text of elements.
pub open spec fn visible_text(found: Seq<ElementView>) -> Seq<char> {
    joined(visible_from(found, 0), " "@)
}

/// Whether a text in small letters says that JavaScript is needed.
pub open spec fn needs_javascript(lower: Seq<char>) -> bool {
    occurs(lower, "enable javascript"@) || occurs(lower, "requires javascript"@) || occurs(
        lower,
        "ensure javascript"@,
    ) || occurs(lower, "javascript is required"@) || occurs(lower, "javascript is disabled"@)
}

/// Whether a document in small letters has the marks of a program that renders the
/// page.
pub open spec fn has_shell_marker(lower: Seq<char>) -> bool {
    occurs(lower, "id=\"__next\""@) || occurs(lower, "id='__next'"@) || occurs(lower, "id=\"__nuxt\""@)
        || occurs(lower, "id='__nuxt'"@) || occurs(lower, "data-reactroot"@) || occurs(lower, "ng-version="@)
        || occurs(lower, "<app-root"@) || occurs(lower, "id=\"___gatsby\""@) || occurs(
        lower,
        "id='___gatsby'"@,
    ) || occurs(lower, "__next_data__"@) || occurs(lower, "__nuxt__"@)
}

/// Whether a document in small letters has the mark of an application.
pub open spec fn has_app_marker(lower: Seq<char>) -> bool {
    occurs(lower, "id=\"app\""@) || occurs(lower, "id='app'"@)
}

/// Whether a text says that it is loading and that JavaScript is needed.
pub open spec fn is_loading(text: Seq<char>) -> bool {
    occurs(lowered(text), "loading"@) && needs_javascript(lowered(text))
}

/// Whether the text for readers without JavaScript, in the elements `found`, mentions
/// it.
pub open spec fn noscript_warns(found: Seq<ElementView>) -> bool {
    exists|i: int|
        0 <= i < found.len() && occurs(
            lowered(inner_text(#[trigger] found[i].text)),
            "javascript"@,
        )
}

/// Whether the body, the first of the elements `found`, says that JavaScript is
/// needed.
pub open spec fn body_warns(found: Seq<ElementView>) -> bool {
    needs_javascript(
        lowered(
            if found.len() > 0 {
                inner_text(found[0].text)
            } else {
                seq![]
            },
        ),
    )
}

/// The bytes of the elements from `i` on.
pub open spec fn bytes_from(found: Seq<ElementView>, i: int) -> int
    decreases found.len() - i,
{
    if i < 0 || i >= found.len() {
        0
    } else {
        byte_len(inner_text(found[i].text)) + bytes_from(found, i + 1)
    }
}

/// Whether the scripts `found` have more than three times as many bytes as the
/// visible text.
pub open spec fn mostly_script(found: Seq<ElementView>, visible: Seq<char>) -> bool {
    let bytes = if byte_len(visible) > 1 {
        byte_len(visible) as int
    } else {
        1
    };
    bytes_from(found, 0) > bytes * 3
}

/// Whether something else than the visible text of a document speaks for a shell: the
/// text for readers without JavaScript, the body, the source or the scripts.
pub open spec fn corroborated(
    html: Seq<char>,
    visible: Seq<char>,
    noscripts: Seq<ElementView>,
    bodies: Seq<ElementView>,
    scripts: Seq<ElementView>,
) -> bool {
    noscript_warns(noscripts) || body_warns(bodies) || has_shell_marker(lowered(html))
        || has_app_marker(lowered(html)) || mostly_script(scripts, visible)
}

/// What a document with this visible text is: static where it has 200 bytes that do not
/// speak of loading, the likely shell of a program where they do, ambiguous where it has
/// less in more than two blocks. Nothing where the text does not tell.
pub open spec fn kind_of_text(visible: Seq<char>, blocks: int) -> Option<Seq<char>> {
    if byte_len(visible) >= 200 {
        if is_loading(visible) {
            Some("likely_shell"@)
        } else {
            Some("static"@)
        }
    } else if blocks > 2 {
        Some("ambiguous"@)
    } else {
        None
    }
}

/// What a document is: what its visible text tells, or else the likely shell of a
/// program where something else speaks for one, and ambiguous where nothing does.
pub open spec fn shell_kind(html: Seq<char>) -> Seq<char> {
    let found = matched(html, VISIBLE@);
    match kind_of_text(visible_text(found), blocks_from(found, 0)) {
        Some(kind) => kind,
        None => if corroborated(
            html,
            visible_text(found),
            matched(html, "noscript"@),
            matched(html, "body"@),
            matched(html, "script"@),
        ) {
            "likely_shell"@
        } else {
            "ambiguous"@
        },
    }
}

/// Whether `lower` says that JavaScript is needed.
pub fn requires_javascript(lower: &str) -> (r: bool)
    ensures
        r == needs_javascript(lower@),
{
    contains(lower, "enable javascript") || contains(lower, "requires javascript") || contains(
        lower,
        "ensure javascript",
    ) || contains(lower, "javascript is required") || contains(lower, "javascript is disabled")
}

/// Whether `lower_html` has the marks of a program that renders the page.
pub fn has_spa_shell_marker(lower_html: &str) -> (r: bool)
    ensures
        r == has_shell_marker(lower_html@),
{
    contains(lower_html, "id=\"__next\"") || contains(lower_html, "id='__next'") || contains(
        lower_html,
        "id=\"__nuxt\"",
    ) || contains(lower_html, "id='__nuxt'") || contains(lower_html, "data-reactroot") || contains(
        lower_html,
        "ng-version=",
    ) || contains(lower_html, "<app-root") || contains(lower_html, "id=\"___gatsby\"") || contains(
        lower_html,
        "id='___gatsby'",
    ) || contains(lower_html, "__next_data__") || contains(lower_html, "__nuxt__")
}

/// Whether `lower_html` has the mark of an application.
pub fn has_low_text_app_shell_marker(lower_html: &str) -> (r: bool)
    ensures
        r == has_app_marker(lower_html@),
{
    contains(lower_html, "id=\"app\"") || contains(lower_html, "id='app'")
}

/// Whether `visible_text` says that it is loading and that JavaScript is needed.
pub fn is_js_loading_page(visible_text: &str) -> (r: bool)
    ensures
        r == is_loading(visible_text@),
{
    let lower = to_ascii_lowercase(visible_text);
    contains(lower.as_str(), "loading") && requires_javascript(lower.as_str())
}

fn is_text_block(e: &Element, text: &String) -> (r: bool)
    requires
        text@ == flat_text(e@.text),
    ensures
        r == is_block(e@),
{
    let n = e.name.as_str();
    (same(n, "p") || same(n, "li") || same(n, "h1") || same(n, "h2") || same(n, "h3") || same(
        n,
        "h4",
    ) || same(n, "h5") || same(n, "h6") || same(n, "td") || same(n, "blockquote") || same(n, "dd"))
        && bytes_of(text.as_str()) > 20
}

/// The visible text of elements and how many blocks of text are among them.
pub fn scan_visible(found: &Vec<Element>) -> (r: (String, usize))
    ensures
        r.0@ == visible_text(elements(found@)),
        r.1 == blocks_from(elements(found@), 0),
{
    let ghost view = elements(found@);
    let mut visible: Vec<String> = Vec::new();
    let mut blocks: usize = 0;
    let mut i: usize = 0;
    assert(texts(visible@) + visible_from(view, 0) =~= visible_from(view, 0));
    while i < found.len()
        invariant
            view == elements(found@),
            i <= found@.len(),
            blocks <= i,
            texts(visible@) + visible_from(view, i as int) == visible_from(view, 0),
            blocks + blocks_from(view, i as int) == blocks_from(view, 0),
        decreases found@.len() - i,
    {
        assert(view[i as int] == found@[i as int]@);
        let text = flat_text_of(&found[i].text);
        let ghost before = texts(visible@);
        if is_text_block(&found[i], &text) {
            blocks += 1;
        }
        if char_count(text.as_str()) > 0 {
            visible.push(text);
            assert(texts(visible@) =~= before.push(text@));
            assert(texts(visible@) + visible_from(view, i + 1) =~= before + (seq![text@]
                + visible_from(view, i + 1)));
        }
        i += 1;
    }
    assert(texts(visible@) + visible_from(view, i as int) =~= texts(visible@));
    (join(&visible, " "), blocks)
}

fn noscript_mentions_js(found: &Vec<Element>) -> (r: bool)
    ensures
        r == noscript_warns(elements(found@)),
{
    let ghost view = elements(found@);
    let mut i: usize = 0;
    while i < found.len()
        invariant
            view == elements(found@),
            i <= found@.len(),
            forall|k: int|
                0 <= k < i ==> !occurs(
                    lowered(inner_text(#[trigger] view[k].text)),
                    "javascript"@,
                ),
        decreases found@.len() - i,
    {
        assert(view[i as int] == found@[i as int]@);
        let lower = to_ascii_lowercase(inner_text_of(&found[i].text).as_str());
        if contains(lower.as_str(), "javascript") {
            assert(occurs(lowered(inner_text(view[i as int].text)), "javascript"@));
            return true;
        }
        i += 1;
    }
    false
}

fn body_requires_javascript(found: &Vec<Element>) -> (r: bool)
    ensures
        r == body_warns(elements(found@)),
{
    assert(elements(found@).len() == found@.len());
    let text = if found.len() > 0 {
        assert(elements(found@)[0] == found@[0]@);
        inner_text_of(&found[0].text)
    } else {
        String::new()
    };
    requires_javascript(to_ascii_lowercase(text.as_str()).as_str())
}

proof fn lemma_bytes_nonnegative(found: Seq<ElementView>, i: int)
    ensures
        bytes_from(found, i) >= 0,
    decreases found.len() - i,
{
    if 0 <= i < found.len() {
        lemma_bytes_nonnegative(found, i + 1);
    }
}

fn high_script_to_text_ratio(found: &Vec<Element>, visible: &str) -> (r: bool)
    ensures
        r == mostly_script(elements(found@), visible@),
{
    let ghost view = elements(found@);
    let bytes = bytes_of(visible);
    let limit: u128 = if bytes > 1 {
        bytes * 3
    } else {
        3
    };
    let mut sum: u128 = 0;
    let mut i: usize = 0;
    while i < found.len()
        invariant
            view == elements(found@),
            i <= found@.len(),
            sum + bytes_from(view, i as int) == bytes_from(view, 0),
            sum <= limit,
            limit == (if byte_len(visible@) > 1 {
                byte_len(visible@) as int
            } else {
                1
            }) * 3,
            limit <= 0xffff_ffff_ffff_ffff * 12,
        decreases found@.len() - i,
    {
        assert(view[i as int] == found@[i as int]@);
        let text = inner_text_of(&found[i].text);
        sum = sum + bytes_of(text.as_str());
        i += 1;
        if sum > limit {
            proof {
                lemma_bytes_nonnegative(view, i as int);
            }
            return true;
        }
    }
    false
}

/// Whether something else than the visible text of the document `html` speaks for a
/// shell; its elements for readers without JavaScript, its bodies and its scripts are
/// given.
pub fn has_corroborator(
    html: &str,
    visible: &str,
    noscripts: &Vec<Element>,
    bodies: &Vec<Element>,
    scripts: &Vec<Element>,
) -> (r: bool)
    ensures
        r == corroborated(
            html@,
            visible@,
            elements(noscripts@),
            elements(bodies@),
            elements(scripts@),
        ),
{
    if noscript_mentions_js(noscripts) || body_requires_javascript(bodies) {
        return true;
    }
    let lower_html = to_ascii_lowercase(html);
    has_spa_shell_marker(lower_html.as_str()) || has_low_text_app_shell_marker(lower_html.as_str())
        || high_script_to_text_ratio(scripts, visible)
}

/// What the visible text of a document, in `blocks` blocks, tells of its kind.
pub fn kind_by_text(visible: &str, blocks: usize) -> (r: Option<&'static str>)
    ensures
        match r {
            Some(kind) => kind_of_text(visible@, blocks as int) == Some(kind@),
            None => kind_of_text(visible@, blocks as int) is None,
        },
{
    if bytes_of(visible) >= 200 {
        if is_js_loading_page(visible) {
            Some("likely_shell")
        } else {
            Some("static")
        }
    } else if blocks > 2 {
        Some("ambiguous")
    } else {
        None
    }
}

/// Whether a document is static, the likely shell of a program, or ambiguous.
pub fn detect_js_shell(raw_html: &str) -> (r: &'static str)
    ensures
        r@ == shell_kind(raw_html@),
{
    proof {
        reveal_strlit(
            "p, article, main, section, h1, h2, h3, h4, h5, h6, li, td, th, dd, dt, blockquote",
        );
        reveal_strlit("noscript");
        reveal_strlit("body");
        reveal_strlit("script");
    }
    let (text, blocks) = scan_visible(&find(raw_html, VISIBLE));
    match kind_by_text(text.as_str(), blocks) {
        Some(kind) => kind,
        None => if has_corroborator(
            raw_html,
            text.as_str(),
            &find(raw_html, "noscript"),
            &find(raw_html, "body"),
            &find(raw_html, "script"),
        ) {
            "likely_shell"
        } else {
            "ambiguous"
        },
    }
}

/// The mark that stands for the code block with the number `n`.
pub open spec fn mark(n: int) -> Seq<char> {
    seq!['\0', 'F', 'C'] + decimal(n) + seq!['\0']
}

/// The texts from `i` on, each but the first with a mark before it.
pub open spec fn marked_from(parts: Seq<Seq<char>>, i: int, text: Seq<char>) -> Seq<char>
    decreases parts.len() - i,
{
    if i < 0 || i >= parts.len() {
        text
    } else if i == 0 {
        marked_from(parts, 1, text + parts[0])
    } else {
        marked_from(parts, i + 1, text + mark(i - 1) + parts[i])
    }
}

/// `text` with the blocks from `i` on in the places of their marks.
pub open spec fn unmarked_from(blocks: Seq<Seq<char>>, i: int, text: Seq<char>) -> Seq<char>
    decreases blocks.len() - i,
{
    if i < 0 || i >= blocks.len() {
        text
    } else {
        unmarked_from(blocks, i + 1, replaced(text, mark(i), blocks[i]))
    }
}

/// A text without the marks of bold and slanted type, images, links, headings and
/// code.
pub open spec fn undecorated(text: Seq<char>) -> Seq<char> {
    let t1 = pattern_replaced(RE_BOLD@, text, "$1"@);
    let t2 = pattern_replaced(RE_BOLD_ALT@, t1, "$1"@);
    let t3 = pattern_replaced(RE_ITALIC@, t2, "$1"@);
    let t4 = pattern_replaced(RE_ITALIC_ALT@, t3, "$1"@);
    let t5 = pattern_replaced(RE_IMAGE@, t4, ""@);
    let t6 = pattern_replaced(RE_LINK@, t5, "$1"@);
    let t7 = pattern_replaced(RE_HEADING@, t6, "$1"@);
    pattern_replaced(RE_CODE@, t7, "$1"@)
}

/// Markdown as plain text. The blocks of code, which `blocks` holds, are left as
/// they are; `parts` holds what stands around them.
pub open spec fn stripped(parts: Seq<Seq<char>>, blocks: Seq<Seq<char>>) -> Seq<char> {
    unmarked_from(blocks, 0, undecorated(marked_from(parts, 0, seq![])))
}

/// Markdown as plain text.
pub open spec fn plain(markdown: Seq<char>) -> Seq<char> {
    stripped(pattern_split(RE_FENCED@, markdown), pattern_found(RE_FENCED@, markdown))
}

/// A block of code between fences.
pub const RE_FENCED: &'static str = "(?s)```.*?```";

/// Bold type.
pub const RE_BOLD: &'static str = "\\*\\*(.+?)\\*\\*";

/// Bold type in the other notation.
pub const RE_BOLD_ALT: &'static str = "__(.+?)__";

/// Slanted type.
pub const RE_ITALIC: &'static str = "\\*([^\\s*\\n][^*\\n]*?)\\*";

/// Slanted type in the other notation.
pub const RE_ITALIC_ALT: &'static str = "_([^_\\n]+?)_";

/// An image.
pub const RE_IMAGE: &'static str = "!\\[[^\\]]*\\]\\([^)]*\\)";

/// A link.
pub const RE_LINK: &'static str = "\\[([^\\]]+)\\]\\([^)]*\\)";

/// A heading.
pub const RE_HEADING: &'static str = "(?m)^#{1,6}\\s+(.+)$";

/// Code inside a line.
pub const RE_CODE: &'static str = "`([^`]+)`";

fn mark_of(n: usize) -> (r: String)
    ensures
        r@ == mark(n as int),
{
    let mut out = String::new();
    out.push('\0');
    out.push('F');
    out.push('C');
    assert(out@ =~= seq!['\0', 'F', 'C']);
    out.append(show_size(n).as_str());
    out.push('\0');
    assert(out@ =~= mark(n as int));
    out
}

/// Whether nothing in a text is bold, slanted, an image, a link, a heading or code.
pub open spec fn is_plain(text: Seq<char>) -> bool {
    !pattern_matches(RE_BOLD@, text) && !pattern_matches(RE_BOLD_ALT@, text) && !pattern_matches(
        RE_ITALIC@,
        text,
    ) && !pattern_matches(RE_ITALIC_ALT@, text) && !pattern_matches(RE_IMAGE@, text)
        && !pattern_matches(RE_LINK@, text) && !pattern_matches(RE_HEADING@, text)
        && !pattern_matches(RE_CODE@, text)
}

fn undecorate(text: &str) -> (r: String)
    ensures
        r@ == undecorated(text@),
        is_plain(text@) ==> r@ == text@,
{
    let t1 = replace_all(RE_BOLD, text, "$1");
    let t2 = replace_all(RE_BOLD_ALT, t1.as_str(), "$1");
    let t3 = replace_all(RE_ITALIC, t2.as_str(), "$1");
    let t4 = replace_all(RE_ITALIC_ALT, t3.as_str(), "$1");
    let t5 = replace_all(RE_IMAGE, t4.as_str(), "");
    let t6 = replace_all(RE_LINK, t5.as_str(), "$1");
    let t7 = replace_all(RE_HEADING, t6.as_str(), "$1");
    replace_all(RE_CODE, t7.as_str(), "$1")
}

/// Markdown as plain text, given its blocks of code and what stands around them. Where
/// there are no decorations, this puts the blocks back between the parts.
pub fn strip_around_blocks(parts: &Vec<String>, blocks: &Vec<String>) -> (r: String)
    ensures
        r@ == stripped(texts(parts@), texts(blocks@)),
        parts@.len() == blocks@.len() + 1 && is_plain(
            woven(texts(parts@), marks(parts@.len() as int), 0),
        ) && (forall|j: int|
            0 <= j < parts@.len() ==> !(#[trigger] texts(parts@)[j]).contains('\0')) && (forall|j: int|
            0 <= j < blocks@.len() ==> !(#[trigger] texts(blocks@)[j]).contains('\0')) && (forall|
            j: int,
            n: int,
        |
            0 <= n && n + 1 < j < parts@.len() - 1 ==> #[trigger] texts(parts@)[j] != seq!['F', 'C']
                + #[trigger] decimal(n)) ==> r@ == woven(texts(parts@), texts(blocks@), 0),
{
    let ghost all = texts(parts@);
    let ghost code = texts(blocks@);
    let mut text = String::new();
    let mut i: usize = 0;
    while i < parts.len()
        invariant
            all == texts(parts@),
            i <= parts@.len(),
            marked_from(all, 0, seq![]) == marked_from(all, i as int, text@),
        decreases parts@.len() - i,
    {
        if i > 0 {
            text.append(mark_of(i - 1).as_str());
        }
        text.append(parts[i].as_str());
        i += 1;
    }
    let mut output = undecorate(text.as_str());
    let ghost start = output@;
    proof {
        if parts@.len() == blocks@.len() + 1 && is_plain(woven(all, marks(parts@.len() as int), 0))
            && (forall|j: int| 0 <= j < parts@.len() ==> !(#[trigger] all[j]).contains('\0')) && (
        forall|j: int| 0 <= j < blocks@.len() ==> !(#[trigger] code[j]).contains('\0')) && (forall|
            j: int,
            n: int,
        |
            0 <= n && n + 1 < j < parts@.len() - 1 ==> #[trigger] all[j] != seq!['F', 'C']
                + #[trigger] decimal(n)) {
            lemma_all_marked(all);
            law_every_block_keeps_its_place(all, all, code);
        }
    }
    let mut k: usize = 0;
    while k < blocks.len()
        invariant
            code == texts(blocks@),
            k <= blocks@.len(),
            unmarked_from(code, 0, start) == unmarked_from(code, k as int, output@),
        decreases blocks@.len() - k,
    {
        let place = mark_of(k);
        output = replace(output.as_str(), place.as_str(), blocks[k].as_str());
        k += 1;
    }
    output
}

/// Markdown as plain text.
pub fn strip_markdown(input: &str) -> (r: String)
    ensures
        r@ == plain(input@),
{
    let blocks = find_all(RE_FENCED, input);
    let parts = split_all(RE_FENCED, input);
    strip_around_blocks(&parts, &blocks)
}

/// A text cut to `max` characters, with a note where something was cut off; no
/// text is cut where `max` is zero.
pub open spec fn shortened(text: Seq<char>, max: int) -> Seq<char> {
    if max > 0 && text.len() > max {
        text.take(max) + "\n\n[truncated]"@
    } else {
        text
    }
}

/// Markdown as it is handed out: as plain text where `trim` is set, and cut to
/// `max_chars` characters.
pub fn post_process(markdown: &str, trim: bool, max_chars: usize) -> (r: String)
    ensures
        r@ == shortened(
            if trim {
                plain(markdown@)
            } else {
                markdown@
            },
            max_chars as int,
        ),
{
    let output = if trim {
        strip_markdown(markdown)
    } else {
        markdown.to_owned()
    };
    if max_chars > 0 && char_count(output.as_str()) > max_chars {
        let mut cut = take_chars(output.as_str(), max_chars);
        cut.append("\n\n[truncated]");
        return cut;
    }
    output
}

/// A text is never cut below the limit, and never longer than the limit and the
/// note behind it.
pub proof fn law_shortening_keeps_the_start(text: Seq<char>, max: int)
    requires
        max > 0,
    ensures
        text.len() <= max ==> shortened(text, max) == text,
        text.len() > max ==> shortened(text, max).take(max) == text.take(max) && shortened(
            text,
            max,
        ).len() == max + "\n\n[truncated]"@.len(),
{
    if text.len() > max {
        assert(shortened(text, max).take(max) =~= text.take(max));
    }
}

/// What is read of a page is its article; without one its main element; without that its
/// element in the main role; without that the section that looks most like content; without
/// that its body; without that all of it. A part that has to be looked at and cannot be
/// written as markdown leaves nothing.
pub proof fn law_the_main_content_comes_first(html: Seq<char>)
    ensures
        ({
            let article = best_by_selector(html, "article"@);
            let main = best_by_selector(html, "main"@);
            let role = best_by_selector(html, "[role=main]"@);
            let body = best_by_selector(html, "body"@);
            &&& article matches Some(Some(m)) ==> extraction(html) == Some(m)
            &&& article is None ==> extraction(html) is None
            &&& article == Some(None::<Seq<char>>) ==> {
                &&& main matches Some(Some(m)) ==> extraction(html) == Some(m)
                &&& main is None ==> extraction(html) is None
                &&& main == Some(None::<Seq<char>>) ==> {
                    &&& role matches Some(Some(m)) ==> extraction(html) == Some(m)
                    &&& role is None ==> extraction(html) is None
                    &&& role == Some(None::<Seq<char>>) ==> {
                        &&& best_section(html) matches Some(Some(m)) ==> extraction(html) == Some(m)
                        &&& best_section(html) is None ==> extraction(html) is None
                        &&& best_section(html) == Some(None::<Seq<char>>) ==> {
                            &&& body matches Some(Some(m)) ==> extraction(html) == Some(m)
                            &&& body is None ==> extraction(html) is None
                            &&& body == Some(None::<Seq<char>>) ==> extraction(html) == (
                            if convertible(html) {
                                Some(trimmed(markdown_of(html)))
                            } else {
                                None
                            })
                        }
                    }
                }
            }
        }),
{
    reveal_with_fuel(first_content, 7);
}

/// Whether the `k`-th candidate beats all others: it counts, has content, and none that counts
/// and has content has a higher score, or the same score and stands before it.
pub open spec fn is_best(scores: Seq<Option<int>>, markdowns: Seq<Option<Seq<char>>>, k: int) -> bool {
    &&& 0 <= k < scores.len()
    &&& scores[k] is Some
    &&& markdowns[k] matches Some(markdown) && markdown.len() > 0
    &&& forall|j: int|
        0 <= j < scores.len() && (#[trigger] scores[j]) is Some && markdowns[j]->0.len() > 0 && j
            != k ==> scores[j]->0 < scores[k]->0 || (scores[j]->0 == scores[k]->0 && k < j)
}

proof fn lemma_best_is_found(
    scores: Seq<Option<int>>,
    markdowns: Seq<Option<Seq<char>>>,
    i: int,
    held: Option<int>,
)
    requires
        0 <= i <= scores.len(),
        scores.len() == markdowns.len(),
        forall|j: int|
            0 <= j < scores.len() && (#[trigger] scores[j]) is Some ==> markdowns[j] is Some,
        match held {
            Some(k) => {
                &&& 0 <= k < i
                &&& scores[k] is Some
                &&& markdowns[k]->0.len() > 0
                &&& forall|j: int|
                    0 <= j < i && (#[trigger] scores[j]) is Some && markdowns[j]->0.len() > 0 && j
                        != k ==> scores[j]->0 < scores[k]->0 || (scores[j]->0 == scores[k]->0 && k
                        < j)
            },
            None => forall|j: int|
                0 <= j < i && (#[trigger] scores[j]) is Some ==> markdowns[j]->0.len() == 0,
        },
    ensures
        ({
            let start = match held {
                Some(k) => Some((scores[k]->0, markdowns[k]->0)),
                None => None,
            };
            match best_from(scores, markdowns, i, start) {
                Some(Some(best)) => exists|k: int| #[trigger]
                    is_best(scores, markdowns, k) && markdowns[k] == Some(best.1),
                Some(None) => forall|j: int|
                    0 <= j < scores.len() && (#[trigger] scores[j]) is Some ==> markdowns[j]->0.len()
                        == 0,
                None => false,
            }
        }),
    decreases scores.len() - i,
{
    if i < scores.len() {
        let better = scores[i] is Some && markdowns[i]->0.len() > 0 && match held {
            Some(k) => scores[i]->0 > scores[k]->0,
            None => true,
        };
        lemma_best_is_found(
            scores,
            markdowns,
            i + 1,
            if better {
                Some(i)
            } else {
                held
            },
        );
    } else {
        if let Some(k) = held {
            assert(is_best(scores, markdowns, k));
        }
    }
}

/// The best candidate is the first of those with the highest score that have content; there
/// is none exactly if no candidate that counts has content.
pub proof fn law_the_best_candidate_is_chosen(
    scores: Seq<Option<int>>,
    markdowns: Seq<Option<Seq<char>>>,
    k: int,
)
    requires
        scores.len() == markdowns.len(),
        forall|j: int|
            0 <= j < scores.len() && (#[trigger] scores[j]) is Some ==> markdowns[j] is Some,
    ensures
        is_best(scores, markdowns, k) ==> best_of(scores, markdowns) == Some(markdowns[k]),
        best_of(scores, markdowns) == Some(None::<Seq<char>>) <==> (forall|j: int|
            0 <= j < scores.len() && (#[trigger] scores[j]) is Some ==> markdowns[j]->0.len() == 0),
        best_of(scores, markdowns) is Some,
{
    lemma_best_is_found(scores, markdowns, 0, None);
    if is_best(scores, markdowns, k) {
        assert(scores[k] is Some);
        if let Some(Some(best)) = best_from(scores, markdowns, 0, None) {
            let m = choose|m: int| #[trigger]
                is_best(scores, markdowns, m) && markdowns[m] == Some(best.1);
            assert(scores[m] is Some);
            assert(m == k);
        }
    }
    if let Some(Some(best)) = best_from(scores, markdowns, 0, None) {
        let m = choose|m: int| #[trigger]
            is_best(scores, markdowns, m) && markdowns[m] == Some(best.1);
        assert(scores[m] is Some && markdowns[m]->0.len() > 0);
    }
}

/// Of the elements that a selector matches the one with the most characters is read, the
/// first where there are several, as markdown without white space around it. Elements that
/// are empty as markdown do not count.
pub proof fn law_the_longest_element_is_read(
    html: Seq<char>,
    selector: Seq<char>,
    found: Seq<ElementView>,
    htmls: Seq<Seq<char>>,
    k: int,
)
    requires
        selected(html, selector) == Some(found),
        selected_html(html, selector) == Some(htmls),
        found.len() == htmls.len(),
        forall|j: int| 0 <= j < htmls.len() ==> convertible(#[trigger] htmls[j]),
    ensures
        0 <= k < found.len() && trimmed(markdown_of(htmls[k])).len() > 0 && (forall|j: int|
            0 <= j < found.len() && j != k && trimmed(markdown_of(#[trigger] htmls[j])).len() > 0
                ==> collapsed(joined(found[j].text, " "@)).len() < collapsed(
                joined(found[k].text, " "@),
            ).len() || (collapsed(joined(found[j].text, " "@)).len() == collapsed(
                joined(found[k].text, " "@),
            ).len() && k < j)) ==> best_by_selector(html, selector) == Some(
            Some(trimmed(markdown_of(htmls[k]))),
        ),
        (forall|j: int|
            0 <= j < htmls.len() ==> trimmed(markdown_of(#[trigger] htmls[j])).len() == 0)
            ==> best_by_selector(html, selector) == Some(None::<Seq<char>>),
{
    let scores = length_scores(found);
    let markdowns = all_converted(htmls);
    assert forall|j: int| 0 <= j < scores.len() implies markdowns[j] == Some(
        trimmed(markdown_of(#[trigger] htmls[j])),
    ) by {
        assert(convertible(htmls[j]));
    }
    assert forall|j: int|
        0 <= j < scores.len() && (#[trigger] scores[j]) is Some implies markdowns[j] is Some by {
        assert(convertible(htmls[j]));
    }
    law_the_best_candidate_is_chosen(scores, markdowns, k);
    if 0 <= k < found.len() && trimmed(markdown_of(htmls[k])).len() > 0 && (forall|j: int|
        0 <= j < found.len() && j != k && trimmed(markdown_of(#[trigger] htmls[j])).len() > 0
            ==> collapsed(joined(found[j].text, " "@)).len() < collapsed(
            joined(found[k].text, " "@),
        ).len() || (collapsed(joined(found[j].text, " "@)).len() == collapsed(
            joined(found[k].text, " "@),
        ).len() && k < j)) {
        assert forall|j: int|
            0 <= j < scores.len() && (#[trigger] scores[j]) is Some && markdowns[j]->0.len() > 0
                && j != k implies scores[j]->0 < scores[k]->0 || (scores[j]->0 == scores[k]->0 && k
            < j) by {
            assert(markdowns[j] == Some(trimmed(markdown_of(htmls[j]))));
        }
        assert(is_best(scores, markdowns, k));
    }
    if forall|j: int| 0 <= j < htmls.len() ==> trimmed(markdown_of(#[trigger] htmls[j])).len() == 0 {
        assert forall|j: int| 0 <= j < scores.len() && (#[trigger] scores[j]) is Some implies
            markdowns[j]->0.len() == 0 by {
            assert(trimmed(markdown_of(htmls[j])).len() == 0);
        }
    }
}

/// Where a document has no element that a selector matches, there is nothing to read of them.
pub proof fn law_no_element_no_content(html: Seq<char>, selector: Seq<char>)
    requires
        selected(html, selector) == Some(Seq::<ElementView>::empty()),
    ensures
        best_by_selector(html, selector) == Some(None::<Seq<char>>),
{
}

/// The title of a page is the text of its first `title` element, with one blank between its
/// words; a page without such an element has none.
pub proof fn law_the_title_is_that_of_the_first_element(html: Seq<char>, found: Seq<ElementView>)
    requires
        selected(html, "title"@) == Some(found),
    ensures
        found.len() > 0 ==> title_of(html) == joined(
            words_of(joined(found[0].text, seq![' '])),
            seq![' '],
        ),
        found.len() == 0 ==> title_of(html).len() == 0,
{
    reveal_strlit(" ");
    assert(" "@ =~= seq![' ']);
}

/// Each of these words in the identity of an element speaks of content.
pub proof fn law_what_speaks_of_content(identity: Seq<char>, hint: Seq<char>)
    requires
        occurs(identity, hint),
        seq![
            "article"@,
            "body"@,
            "content"@,
            "doc"@,
            "documentation"@,
            "entry"@,
            "main"@,
            "markdown"@,
            "post"@,
            "prose"@,
            "story"@,
        ].contains(hint),
    ensures
        positive(identity),
{
}

/// Each of these words in the identity of an element speaks of what surrounds the content.
pub proof fn law_what_speaks_of_surroundings(identity: Seq<char>, hint: Seq<char>)
    requires
        occurs(identity, hint),
        seq![
            "ad-"@,
            "ads"@,
            "advert"@,
            "aside"@,
            "banner"@,
            "breadcrumb"@,
            "comment"@,
            "cookie"@,
            "footer"@,
            "header"@,
            "menu"@,
            "modal"@,
            "nav"@,
            "pagination"@,
            "promo"@,
            "related"@,
            "share"@,
            "sidebar"@,
            "social"@,
        ].contains(hint),
    ensures
        negative(identity),
{
}

/// An identity without any of these words speaks of nothing.
pub proof fn law_other_words_say_nothing(identity: Seq<char>)
    ensures
        positive(identity) ==> exists|hint: Seq<char>| #[trigger]
            occurs(identity, hint) && seq![
                "article"@,
                "body"@,
                "content"@,
                "doc"@,
                "documentation"@,
                "entry"@,
                "main"@,
                "markdown"@,
                "post"@,
                "prose"@,
                "story"@,
            ].contains(hint),
        negative(identity) ==> exists|hint: Seq<char>| #[trigger]
            occurs(identity, hint) && seq![
                "ad-"@,
                "ads"@,
                "advert"@,
                "aside"@,
                "banner"@,
                "breadcrumb"@,
                "comment"@,
                "cookie"@,
                "footer"@,
                "header"@,
                "menu"@,
                "modal"@,
                "nav"@,
                "pagination"@,
                "promo"@,
                "related"@,
                "share"@,
                "sidebar"@,
                "social"@,
            ].contains(hint),
{
    let good = seq![
        "article"@,
        "body"@,
        "content"@,
        "doc"@,
        "documentation"@,
        "entry"@,
        "main"@,
        "markdown"@,
        "post"@,
        "prose"@,
        "story"@,
    ];
    let bad = seq![
        "ad-"@,
        "ads"@,
        "advert"@,
        "aside"@,
        "banner"@,
        "breadcrumb"@,
        "comment"@,
        "cookie"@,
        "footer"@,
        "header"@,
        "menu"@,
        "modal"@,
        "nav"@,
        "pagination"@,
        "promo"@,
        "related"@,
        "share"@,
        "sidebar"@,
        "social"@,
    ];
    assert forall|i: int| 0 <= i < good.len() implies good.contains(#[trigger] good[i]) by {}
    assert forall|i: int| 0 <= i < bad.len() implies bad.contains(#[trigger] bad[i]) by {}
    assert(good[0] == "article"@ && good[1] == "body"@ && good[2] == "content"@ && good[3] == "doc"@
        && good[4] == "documentation"@ && good[5] == "entry"@ && good[6] == "main"@ && good[7]
        == "markdown"@ && good[8] == "post"@ && good[9] == "prose"@ && good[10] == "story"@);
    assert(bad[0] == "ad-"@ && bad[1] == "ads"@ && bad[2] == "advert"@ && bad[3] == "aside"@
        && bad[4] == "banner"@ && bad[5] == "breadcrumb"@ && bad[6] == "comment"@ && bad[7]
        == "cookie"@ && bad[8] == "footer"@ && bad[9] == "header"@ && bad[10] == "menu"@ && bad[11]
        == "modal"@ && bad[12] == "nav"@ && bad[13] == "pagination"@ && bad[14] == "promo"@
        && bad[15] == "related"@ && bad[16] == "share"@ && bad[17] == "sidebar"@ && bad[18]
        == "social"@);
}

/// The links of an element have as many characters as each of them has in its words, all
/// together.
pub proof fn law_the_characters_of_links_add_up(links: Seq<InnerView>, link: InnerView)
    ensures
        link_chars(seq![], 0) == 0,
        link_chars(links.push(link), 0) == link_chars(links, 0) + collapsed(
            joined(link.text, " "@),
        ).len(),
{
    lemma_link_chars(links, link, 0);
}

proof fn lemma_link_chars(links: Seq<InnerView>, link: InnerView, i: int)
    requires
        0 <= i <= links.len(),
    ensures
        link_chars(links.push(link), i) == link_chars(links, i) + flat_text(link.text).len(),
    decreases links.len() - i,
{
    reveal_with_fuel(link_chars, 2);
    assert(links.push(link)[i] == if i < links.len() { links[i] } else { link });
    if i < links.len() {
        lemma_link_chars(links, link, i + 1);
    }
}

/// A section counts for each character of its words, forty for each block in it, three
/// hundred if it speaks of content and two hundred and fifty less if it speaks of what
/// surrounds it, and two less for each character in links. It counts not at all if it is
/// short both in characters and in words, if it speaks only of what surrounds the content, if
/// more than 45 in a hundred of its characters are links and it does not speak of content, or
/// if nothing is left to count.
pub proof fn law_what_a_section_counts(e: ElementView, links: Seq<InnerView>, blocks: int)
    ensures
        ({
            let text = collapsed(joined(e.text, " "@));
            let good = positive(identity_of(e));
            let bad = negative(identity_of(e));
            let linked = link_chars(links, 0);
            let bonus: int = (if good {
                300int
            } else {
                0
            }) - (if bad {
                250int
            } else {
                0
            });
            let score = text.len() + 40 * blocks + bonus - 2 * linked;
            &&& score_of(e, links, blocks) is Some <==> (text.len() >= 40 || words_of(text).len()
                >= 8) && (good || !bad) && (good || text.len() == 0 || 100 * linked <= 45
                * text.len()) && score > 0
            &&& score_of(e, links, blocks) matches Some(n) ==> n == score
        }),
{
}

/// The section that is read is the one that counts most, the first where there are several;
/// links and blocks are looked for inside each section.
pub proof fn law_the_best_section_is_read(
    html: Seq<char>,
    found: Seq<ElementView>,
    htmls: Seq<Seq<char>>,
    links: Seq<Seq<InnerView>>,
    blocks: Seq<Seq<InnerView>>,
    k: int,
)
    requires
        selected(html, "section, div"@) == Some(found),
        selected_html(html, "section, div"@) == Some(htmls),
        selected_inside(html, "section, div"@, "a[href]"@) == Some(links),
        selected_inside(html, "section, div"@, "p, pre, blockquote, table, ul, ol"@) == Some(
            blocks,
        ),
        found.len() == htmls.len() == links.len() == blocks.len(),
        forall|j: int| 0 <= j < htmls.len() ==> convertible(#[trigger] htmls[j]),
    ensures
        0 <= k < found.len() && trimmed(markdown_of(htmls[k])).len() > 0 && score_of(
            found[k],
            links[k],
            blocks[k].len() as int,
        ) is Some && (forall|j: int|
            0 <= j < found.len() && j != k && trimmed(markdown_of(#[trigger] htmls[j])).len() > 0
                && score_of(found[j], links[j], blocks[j].len() as int) is Some ==> score_of(
                found[j],
                links[j],
                blocks[j].len() as int,
            )->0 < score_of(found[k], links[k], blocks[k].len() as int)->0 || (score_of(
                found[j],
                links[j],
                blocks[j].len() as int,
            )->0 == score_of(found[k], links[k], blocks[k].len() as int)->0 && k < j))
            ==> best_section(html) == Some(Some(trimmed(markdown_of(htmls[k])))),
        (forall|j: int|
            0 <= j < found.len() ==> score_of(
                #[trigger] found[j],
                links[j],
                blocks[j].len() as int,
            ) is None) ==> best_section(html) == Some(None::<Seq<char>>),
{
    let scores = candidate_scores(found, links, blocks);
    let markdowns = all_converted(htmls);
    assert forall|j: int| 0 <= j < scores.len() implies markdowns[j] == Some(
        trimmed(markdown_of(#[trigger] htmls[j])),
    ) by {
        assert(convertible(htmls[j]));
    }
    assert forall|j: int|
        0 <= j < scores.len() && (#[trigger] scores[j]) is Some implies markdowns[j] is Some by {
        assert(convertible(htmls[j]));
    }
    law_the_best_candidate_is_chosen(scores, markdowns, k);
    if 0 <= k < found.len() && trimmed(markdown_of(htmls[k])).len() > 0 && scores[k] is Some && (
    forall|j: int|
        0 <= j < found.len() && j != k && trimmed(markdown_of(#[trigger] htmls[j])).len() > 0
            && scores[j] is Some ==> scores[j]->0 < scores[k]->0 || (scores[j]->0 == scores[k]->0
            && k < j)) {
        assert forall|j: int|
            0 <= j < scores.len() && (#[trigger] scores[j]) is Some && markdowns[j]->0.len() > 0
                && j != k implies scores[j]->0 < scores[k]->0 || (scores[j]->0 == scores[k]->0 && k
            < j) by {
            assert(markdowns[j] == Some(trimmed(markdown_of(htmls[j]))));
        }
        assert(is_best(scores, markdowns, k));
    }
    if forall|j: int|
        0 <= j < found.len() ==> score_of(
            #[trigger] found[j],
            links[j],
            blocks[j].len() as int,
        ) is None {
        assert forall|j: int| 0 <= j < scores.len() && (#[trigger] scores[j]) is Some implies
            markdowns[j]->0.len() == 0 by {
            assert(score_of(found[j], links[j], blocks[j].len() as int) is None);
        }
    }
}

/// The identity of an element is made of those of its `id`, `class`, `role` and `itemprop`
/// that it has, in this order, one blank apart, in small letters. Other attributes do not
/// count.
pub proof fn law_what_identifies_an_element(e: ElementView, other: ElementView)
    ensures
        e.id == other.id && e.class == other.class && e.role == other.role && e.itemprop
            == other.itemprop ==> identity_of(e) == identity_of(other),
        e.id is Some && e.class is Some && e.role is Some && e.itemprop is Some ==> identity_of(e)
            == lowered(e.id->0 + " "@ + e.class->0 + " "@ + e.role->0 + " "@ + e.itemprop->0),
        e.id is Some && e.class is None && e.role is None && e.itemprop is None ==> identity_of(e)
            == lowered(e.id->0),
        e.id is None && e.class is Some && e.role is None && e.itemprop is None ==> identity_of(e)
            == lowered(e.class->0),
        e.id is None && e.class is None && e.role is Some && e.itemprop is None ==> identity_of(e)
            == lowered(e.role->0),
        e.id is None && e.class is None && e.role is None && e.itemprop is Some ==> identity_of(e)
            == lowered(e.itemprop->0),
        e.id is None && e.class is None && e.role is None && e.itemprop is None ==> identity_of(
            e,
        ).len() == 0,
{
    reveal_with_fuel(joined, 5);
    let parts = present(e.id) + present(e.class) + present(e.role) + present(e.itemprop);
    if e.id is Some && e.class is Some && e.role is Some && e.itemprop is Some {
        let all = seq![e.id->0, e.class->0, e.role->0, e.itemprop->0];
        assert(parts =~= all);
        assert(all.drop_last() =~= seq![e.id->0, e.class->0, e.role->0]);
        assert(seq![e.id->0, e.class->0, e.role->0].drop_last() =~= seq![e.id->0, e.class->0]);
        assert(seq![e.id->0, e.class->0].drop_last() =~= seq![e.id->0]);
    } else if e.id is Some && e.class is None && e.role is None && e.itemprop is None {
        assert(parts =~= seq![e.id->0]);
    } else if e.id is None && e.class is Some && e.role is None && e.itemprop is None {
        assert(parts =~= seq![e.class->0]);
    } else if e.id is None && e.class is None && e.role is Some && e.itemprop is None {
        assert(parts =~= seq![e.role->0]);
    } else if e.id is None && e.class is None && e.role is None && e.itemprop is Some {
        assert(parts =~= seq![e.itemprop->0]);
    } else if e.id is None && e.class is None && e.role is None && e.itemprop is None {
        assert(parts =~= seq![]);
    }
}

proof fn lemma_paragraphs_from(
    parts: Seq<Seq<char>>,
    part: Seq<char>,
    i: int,
    text: Seq<char>,
)
    requires
        0 <= i <= parts.len(),
    ensures
        paragraphs_from(parts.push(part), i, text) == ({
            let before = paragraphs_from(parts, i, text);
            if before.len() > 0 {
                before + "\n\n"@ + part
            } else {
                before + part
            }
        }),
    decreases parts.len() - i,
{
    reveal_with_fuel(paragraphs_from, 2);
    let more = parts.push(part);
    if i < parts.len() {
        assert(more[i] == parts[i]);
        lemma_paragraphs_from(
            parts,
            part,
            i + 1,
            if text.len() > 0 {
                text + "\n\n"@ + parts[i]
            } else {
                text + parts[i]
            },
        );
    } else {
        assert(more[i] == part);
    }
}

/// All elements that a selector matches are given, in their order, one blank line apart and
/// without white space around them.
pub proof fn law_all_selected_elements_are_given(
    html: Seq<char>,
    selector: Seq<char>,
    parts: Seq<Seq<char>>,
)
    requires
        selector.len() <= MAX_SELECTOR_CHARS,
        selected_html(html, selector) == Some(parts),
        forall|i: int| 0 <= i < parts.len() ==> (#[trigger] parts[i]).len() > 0,
    ensures
        selection(html, selector) == Some(trimmed(joined(parts, seq!['\n', '\n']))),
{
    reveal_strlit("\n\n");
    assert("\n\n"@ =~= seq!['\n', '\n']);
    lemma_paragraphs_are_joined(parts);
}

proof fn lemma_paragraphs_are_joined(parts: Seq<Seq<char>>)
    requires
        forall|i: int| 0 <= i < parts.len() ==> (#[trigger] parts[i]).len() > 0,
    ensures
        paragraphs_from(parts, 0, seq![]) == joined(parts, "\n\n"@),
        parts.len() > 0 ==> joined(parts, "\n\n"@).len() > 0,
    decreases parts.len(),
{
    if parts.len() > 0 {
        let front = parts.drop_last();
        assert forall|i: int| 0 <= i < front.len() implies (#[trigger] front[i]).len() > 0 by {
            assert(front[i] == parts[i]);
        }
        lemma_paragraphs_are_joined(front);
        lemma_paragraphs_from(front, parts.last(), 0, seq![]);
        assert(front.push(parts.last()) =~= parts);
        assert(parts[parts.len() - 1].len() > 0);
        if parts.len() == 1 {
            assert(front =~= seq![]);
            assert(Seq::<char>::empty() + parts[0] =~= parts[0]);
        } else {
            assert(front.len() > 0);
        }
    }
}

/// What a selector matches is given as the markdown of just that, without white space around
/// it; nothing is given where it matches nothing.
pub proof fn law_selected_elements_as_markdown(html: Seq<char>)
    ensures
        html.len() == 0 ==> selected_markdown(html) == Some(Seq::<char>::empty()),
        html.len() > 0 && convertible(html) ==> selected_markdown(html) == Some(
            trimmed(markdown_of(html)),
        ),
        html.len() > 0 && !convertible(html) ==> selected_markdown(html) is None,
{
}

/// The text with `parts` in it and the text of `blocks` with the same index behind each part
/// but the last.
pub open spec fn woven(parts: Seq<Seq<char>>, blocks: Seq<Seq<char>>, i: int) -> Seq<char>
    decreases parts.len() - i,
{
    if i < 0 || i >= parts.len() {
        seq![]
    } else if i + 1 == parts.len() {
        parts[i]
    } else {
        parts[i] + blocks[i] + woven(parts, blocks, i + 1)
    }
}

/// The marks of the code blocks of a text with so many parts.
pub open spec fn marks(n: int) -> Seq<Seq<char>> {
    Seq::new(
        if n > 0 {
            n as nat
        } else {
            0
        },
        |i: int| mark(i),
    )
}

proof fn lemma_marked(parts: Seq<Seq<char>>, i: int, text: Seq<char>)
    requires
        0 < i <= parts.len(),
    ensures
        marked_from(parts, i, text) == text + (if i < parts.len() {
            mark(i - 1) + woven(parts, marks(parts.len() as int), i)
        } else {
            seq![]
        }),
    decreases parts.len() - i,
{
    let all = marks(parts.len() as int);
    if i < parts.len() {
        let next = text + mark(i - 1) + parts[i];
        lemma_marked(parts, i + 1, next);
        if i + 1 < parts.len() {
            assert(all[i] == mark(i));
            assert(marked_from(parts, i, text) =~= text + (mark(i - 1) + (parts[i] + mark(i)
                + woven(parts, all, i + 1))));
        } else {
            assert(marked_from(parts, i, text) =~= text + (mark(i - 1) + parts[i]));
        }
    } else {
        assert(marked_from(parts, i, text) =~= text + seq![]);
    }
}

proof fn lemma_all_marked(parts: Seq<Seq<char>>)
    requires
        parts.len() > 0,
    ensures
        marked_from(parts, 0, seq![]) == woven(parts, marks(parts.len() as int), 0),
{
    let all = marks(parts.len() as int);
    assert(Seq::<char>::empty() + parts[0] =~= parts[0]);
    lemma_marked(parts, 1, parts[0]);
    if parts.len() > 1 {
        assert(all[0] == mark(0));
        assert(parts[0] + (mark(0) + woven(parts, all, 1)) =~= parts[0] + mark(0) + woven(
            parts,
            all,
            1,
        ));
    } else {
        assert(parts[0] + seq![] =~= parts[0]);
    }
}

/// A mark has a NUL at either end and none between them.
proof fn lemma_mark(n: int)
    requires
        0 <= n,
    ensures
        mark(n).len() == decimal(n).len() + 4,
        mark(n).len() >= 5,
        mark(n)[0] == '\0',
        mark(n)[1] == 'F',
        mark(n)[2] == 'C',
        mark(n).last() == '\0',
        mark(n).subrange(1, mark(n).len() - 1) == seq!['F', 'C'] + decimal(n),
        forall|k: int| 0 < k < mark(n).len() - 1 ==> #[trigger] mark(n)[k] != '\0',
        forall|k: int| 0 <= k < decimal(n).len() ==> #[trigger] decimal(n)[k] == mark(n)[k + 3],
{
    lemma_decimal(n);
    assert forall|k: int| 0 < k < mark(n).len() - 1 implies #[trigger] mark(n)[k] != '\0' by {
        if k >= 3 {
            assert(is_digit(decimal(n)[k - 3]));
        }
    }
    assert(mark(n).subrange(1, mark(n).len() - 1) =~= seq!['F', 'C'] + decimal(n));
}

/// Where two marks begin at the same place they are the same.
proof fn lemma_marks_differ(s: Seq<char>, at: int, a: int, b: int)
    requires
        0 <= a,
        0 <= b,
        matches_at(s, mark(a), at),
        matches_at(s, mark(b), at),
    ensures
        a == b,
{
    lemma_mark(a);
    lemma_mark(b);
    let here = s.subrange(at, at + mark(a).len());
    let there = s.subrange(at, at + mark(b).len());
    assert forall|k: int| 0 <= k < mark(a).len() && k < mark(b).len() implies mark(a)[k] == mark(
        b,
    )[k] by {
        assert(here[k] == s[at + k]);
        assert(there[k] == s[at + k]);
    }
    if mark(a).len() < mark(b).len() {
        assert(mark(b)[mark(a).len() - 1] != '\0');
    } else if mark(b).len() < mark(a).len() {
        assert(mark(a)[mark(b).len() - 1] != '\0');
    }
    assert(decimal(a) =~= decimal(b)) by {
        assert forall|k: int| 0 <= k < decimal(a).len() implies decimal(a)[k] == decimal(b)[k] by {
            assert(decimal(a)[k] == mark(a)[k + 3]);
            assert(decimal(b)[k] == mark(b)[k + 3]);
        }
    }
    lemma_decimal_value(a);
    lemma_decimal_value(b);
}

/// Behind the place of a block its mark does not stand again, where no part between two
/// others could be taken for a mark.
proof fn lemma_mark_is_gone(parts: Seq<Seq<char>>, i: int, k: int, at: int)
    requires
        0 <= k < i < parts.len(),
        forall|j: int| 0 <= j < parts.len() ==> !(#[trigger] parts[j]).contains('\0'),
        forall|j: int|
            k + 1 < j < parts.len() - 1 ==> #[trigger] parts[j] != seq!['F', 'C'] + decimal(k),
    ensures
        !matches_at(woven(parts, marks(parts.len() as int), i), mark(k), at),
    decreases parts.len() - i,
{
    let all = marks(parts.len() as int);
    let s = woven(parts, all, i);
    let part = parts[i];
    let n = part.len() as int;
    assert(!parts[i].contains('\0'));
    lemma_mark(k);
    if matches_at(s, mark(k), at) {
        let here = s.subrange(at, at + mark(k).len());
        assert forall|j: int| 0 <= j < mark(k).len() implies s[at + j] == #[trigger] mark(k)[j] by {
            assert(here[j] == s[at + j]);
        }
        assert(s[at] == mark(k)[0]);
        if i + 1 == parts.len() {
            assert(part.contains(s[at]));
        } else {
            lemma_mark(i);
            let m = mark(i);
            let rest = woven(parts, all, i + 1);
            assert(all[i] == m);
            assert(s == part + m + rest);
            let end = n + m.len() - 1;
            if at < n {
                assert(s[at] == part[at]);
                assert(part.contains(s[at]));
            } else if at == n {
                assert(s.subrange(at, at + m.len()) =~= m);
                lemma_marks_differ(s, at, k, i);
            } else if at < end {
                assert(s[at] == m[at - n]);
            } else if at == end {
                let next = parts[i + 1];
                assert(!parts[i + 1].contains('\0'));
                let inside = mark(k).len() - 2;
                assert forall|j: int| 0 <= j < next.len() implies #[trigger] rest[j] == next[j] by {
                }
                assert(s[at + inside + 1] == mark(k)[inside + 1]);
                assert(rest[inside] == '\0');
                if inside < next.len() {
                    assert(next.contains(rest[inside]));
                }
                assert(i + 2 < parts.len());
                lemma_mark(i + 1);
                assert(all[i + 1] == mark(i + 1));
                assert(rest[next.len() as int] == '\0');
                if next.len() < inside {
                    assert(s[at + next.len() + 1] == mark(k)[next.len() as int + 1]);
                }
                assert(next.len() == inside);
                assert(next =~= seq!['F', 'C'] + decimal(k)) by {
                    assert forall|j: int| 0 <= j < next.len() implies next[j] == (seq!['F', 'C']
                        + decimal(k))[j] by {
                        assert(s[at + j + 1] == mark(k)[j + 1]);
                        assert(rest[j] == next[j]);
                        assert(mark(k).subrange(1, mark(k).len() - 1)[j] == mark(k)[j + 1]);
                    }
                }
            } else {
                assert(rest.subrange(at - end - 1, at - end - 1 + mark(k).len()) =~= here);
                lemma_mark_is_gone(parts, i + 1, k, at - end - 1);
            }
        }
    }
}

/// A text that occurs once is replaced once.
proof fn lemma_replaced_once(a: Seq<char>, pat: Seq<char>, b: Seq<char>, with: Seq<char>)
    requires
        pat.len() > 0,
        forall|i: int| 0 <= i < a.len() ==> #[trigger] a[i] != pat[0],
        forall|i: int| !matches_at(b, pat, i),
    ensures
        replaced(a + pat + b, pat, with) == a + with + b,
{
    let s = a + pat + b;
    let k = a.len() as int;
    let end = k + pat.len();
    assert(s.subrange(k, end) =~= pat);
    lemma_find_from(s, pat, 0);
    lemma_find_from(s, pat, end);
    assert(matches_at(s, pat, k));
    let found = find_from(s, pat, 0)->0;
    assert(found == k) by {
        if found < k {
            assert(s.subrange(found, found + pat.len())[0] == s[found]);
            assert(s[found] == a[found]);
        }
    }
    if let Some(again) = find_from(s, pat, end) {
        assert(b.subrange(again - end, again - end + pat.len()) =~= s.subrange(
            again,
            again + pat.len(),
        ));
        assert(matches_at(b, pat, again - end));
    }
    assert(s.subrange(0, k) =~= a);
    assert(s.subrange(end, s.len() as int) =~= b);
    reveal_with_fuel(split_from, 2);
    assert(split_of(s, pat) =~= seq![a, b]);
    reveal_with_fuel(joined, 3);
    assert(seq![a, b].drop_last() =~= seq![a]);
}

proof fn lemma_unmarked(
    parts: Seq<Seq<char>>,
    blocks: Seq<Seq<char>>,
    k: int,
    done: Seq<char>,
)
    requires
        parts.len() == blocks.len() + 1,
        0 <= k < parts.len(),
        !done.contains('\0'),
        forall|j: int| 0 <= j < parts.len() ==> !(#[trigger] parts[j]).contains('\0'),
        forall|j: int| 0 <= j < blocks.len() ==> !(#[trigger] blocks[j]).contains('\0'),
        forall|j: int, n: int|
            0 <= n && n + 1 < j < parts.len() - 1 ==> #[trigger] parts[j] != seq!['F', 'C']
                + #[trigger] decimal(n),
    ensures
        unmarked_from(blocks, k, done + woven(parts, marks(parts.len() as int), k)) == done + woven(
            parts,
            blocks,
            k,
        ),
    decreases blocks.len() - k,
{
    let all = marks(parts.len() as int);
    if k < blocks.len() {
        let a = done + parts[k];
        let b = woven(parts, all, k + 1);
        let text = done + woven(parts, all, k);
        assert(all[k] == mark(k));
        assert(text =~= a + mark(k) + b);
        lemma_mark(k);
        assert(!parts[k].contains('\0'));
        assert(!blocks[k].contains('\0'));
        assert forall|i: int| 0 <= i < a.len() implies #[trigger] a[i] != mark(k)[0] by {
            if i < done.len() {
                assert(done.contains(done[i]));
            } else {
                assert(parts[k].contains(parts[k][i - done.len()]));
            }
        }
        assert forall|i: int| !matches_at(b, mark(k), i) by {
            lemma_mark_is_gone(parts, k + 1, k, i);
        }
        lemma_replaced_once(a, mark(k), b, blocks[k]);
        let next = a + blocks[k];
        assert(!next.contains('\0')) by {
            if next.contains('\0') {
                let i = choose|i: int| 0 <= i < next.len() && next[i] == '\0';
                if i < a.len() {
                    assert(a[i] != mark(k)[0]);
                } else {
                    assert(blocks[k].contains(blocks[k][i - a.len()]));
                }
            }
        }
        lemma_unmarked(parts, blocks, k + 1, next);
        assert(next + woven(parts, blocks, k + 1) =~= done + woven(parts, blocks, k));
    }
}

/// Every block of code comes back in its own place, as it was. `plain` is what is left of the
/// parts around the blocks without their decorations; that is `parts` itself where they have
/// none. A part that looks like what stands between the NULs of a mark could be taken for one
/// of a block before it.
pub proof fn law_every_block_keeps_its_place(
    parts: Seq<Seq<char>>,
    plain: Seq<Seq<char>>,
    blocks: Seq<Seq<char>>,
)
    requires
        parts.len() == blocks.len() + 1,
        plain.len() == parts.len(),
        undecorated(woven(parts, marks(parts.len() as int), 0)) == woven(
            plain,
            marks(parts.len() as int),
            0,
        ),
        forall|j: int| 0 <= j < plain.len() ==> !(#[trigger] plain[j]).contains('\0'),
        forall|j: int| 0 <= j < blocks.len() ==> !(#[trigger] blocks[j]).contains('\0'),
        forall|j: int, n: int|
            0 <= n && n + 1 < j < plain.len() - 1 ==> #[trigger] plain[j] != seq!['F', 'C']
                + #[trigger] decimal(n),
    ensures
        stripped(parts, blocks) == woven(plain, blocks, 0),
{
    lemma_all_marked(parts);
    lemma_unmarked(plain, blocks, 0, seq![]);
    assert(Seq::<char>::empty() + woven(plain, marks(plain.len() as int), 0) =~= woven(
        plain,
        marks(plain.len() as int),
        0,
    ));
    assert(Seq::<char>::empty() + woven(plain, blocks, 0) =~= woven(plain, blocks, 0));
}

/// Bold and slanted type, links, headings and code lose their marks and keep their text;
/// images go.
pub proof fn law_which_marks_are_stripped(
    text: Seq<char>,
    t1: Seq<char>,
    t2: Seq<char>,
    t3: Seq<char>,
    t4: Seq<char>,
    t5: Seq<char>,
    t6: Seq<char>,
    t7: Seq<char>,
)
    requires
        t1 == pattern_replaced("\\*\\*(.+?)\\*\\*"@, text, "$1"@),
        t2 == pattern_replaced("__(.+?)__"@, t1, "$1"@),
        t3 == pattern_replaced("\\*([^\\s*\\n][^*\\n]*?)\\*"@, t2, "$1"@),
        t4 == pattern_replaced("_([^_\\n]+?)_"@, t3, "$1"@),
        t5 == pattern_replaced("!\\[[^\\]]*\\]\\([^)]*\\)"@, t4, ""@),
        t6 == pattern_replaced("\\[([^\\]]+)\\]\\([^)]*\\)"@, t5, "$1"@),
        t7 == pattern_replaced("(?m)^#{1,6}\\s+(.+)$"@, t6, "$1"@),
    ensures
        undecorated(text) == pattern_replaced("`([^`]+)`"@, t7, "$1"@),
{
}

/// What stands between the fences of a block of code is no part of the text around it.
pub proof fn law_blocks_are_what_fences_enclose(
    markdown: Seq<char>,
    parts: Seq<Seq<char>>,
    blocks: Seq<Seq<char>>,
)
    requires
        parts == pattern_split("(?s)```.*?```"@, markdown),
        blocks == pattern_found("(?s)```.*?```"@, markdown),
    ensures
        plain(markdown) == stripped(parts, blocks),
{
}

/// A text that is too long is cut to as many characters as are asked for, with a note behind
/// them; where no number is asked for, it stays whole.
pub proof fn law_what_is_cut_off(text: Seq<char>, max: int)
    ensures
        max == 0 ==> shortened(text, max) == text,
        text.len() <= max ==> shortened(text, max) == text,
        0 < max < text.len() ==> shortened(text, max) == text.subrange(0, max)
            + "\n\n[truncated]"@,
{
}

/// The visible text of a page is made of the words of its elements that have any, in their
/// order and one blank apart; each element with a block of text counts once.
pub proof fn law_what_is_visible(found: Seq<ElementView>, e: ElementView)
    ensures
        visible_text(seq![]).len() == 0,
        blocks_from(seq![], 0) == 0,
        ({
            let words = collapsed(joined(e.text, " "@));
            let before = visible_text(found);
            let after = visible_text(found.push(e));
            &&& words.len() == 0 ==> after == before
            &&& words.len() > 0 && before.len() == 0 ==> after == words
            &&& words.len() > 0 && before.len() > 0 ==> after == before + seq![' '] + words
        }),
        blocks_from(found.push(e), 0) == blocks_from(found, 0) + (if is_block(e) {
            1int
        } else {
            0
        }),
{
    reveal_strlit(" ");
    assert(" "@ =~= seq![' ']);
    lemma_visible_from(found, e, 0);
    lemma_blocks_from(found, e, 0);
    lemma_visible_parts(found, 0);
    let parts = visible_from(found, 0);
    let words = flat_text(e.text);
    if words.len() > 0 {
        let more = parts + seq![words];
        assert(more.drop_last() =~= parts);
        assert(more.last() == words);
        if parts.len() == 0 {
            assert(more =~= seq![words]);
        } else {
            lemma_joined_is_not_empty(parts, " "@);
        }
    } else {
        assert(parts + seq![] =~= parts);
    }
}

proof fn lemma_visible_from(found: Seq<ElementView>, e: ElementView, i: int)
    requires
        0 <= i <= found.len(),
    ensures
        visible_from(found.push(e), i) == visible_from(found, i) + (if flat_text(e.text).len() > 0 {
            seq![flat_text(e.text)]
        } else {
            seq![]
        }),
    decreases found.len() - i,
{
    reveal_with_fuel(visible_from, 2);
    let more = found.push(e);
    if i < found.len() {
        assert(more[i] == found[i]);
        lemma_visible_from(found, e, i + 1);
    } else {
        assert(more[i] == e);
    }
    assert(visible_from(more, i) =~= visible_from(found, i) + (if flat_text(e.text).len() > 0 {
        seq![flat_text(e.text)]
    } else {
        seq![]
    }));
}

proof fn lemma_visible_parts(found: Seq<ElementView>, i: int)
    requires
        0 <= i <= found.len(),
    ensures
        forall|k: int|
            0 <= k < visible_from(found, i).len() ==> (#[trigger] visible_from(found, i)[k]).len()
                > 0,
    decreases found.len() - i,
{
    if i < found.len() {
        lemma_visible_parts(found, i + 1);
        assert forall|k: int| 0 <= k < visible_from(found, i).len() implies (
        #[trigger] visible_from(found, i)[k]).len() > 0 by {
            if flat_text(found[i].text).len() > 0 && k > 0 {
                assert(visible_from(found, i)[k] == visible_from(found, i + 1)[k - 1]);
            }
        }
    }
}

proof fn lemma_joined_is_not_empty(parts: Seq<Seq<char>>, sep: Seq<char>)
    requires
        parts.len() > 0,
        parts.last().len() > 0,
    ensures
        joined(parts, sep).len() > 0,
{
}

proof fn lemma_blocks_from(found: Seq<ElementView>, e: ElementView, i: int)
    requires
        0 <= i <= found.len(),
    ensures
        blocks_from(found.push(e), i) == blocks_from(found, i) + (if is_block(e) {
            1int
        } else {
            0
        }),
    decreases found.len() - i,
{
    reveal_with_fuel(blocks_from, 2);
    let more = found.push(e);
    if i < found.len() {
        assert(more[i] == found[i]);
        lemma_blocks_from(found, e, i + 1);
    } else {
        assert(more[i] == e);
    }
}

/// A block of text is an element of one of these names with more than twenty bytes in its
/// words.
pub proof fn law_what_a_block_of_text_is(e: ElementView)
    ensures
        is_block(e) <==> byte_len(collapsed(joined(e.text, " "@))) > 20 && seq![
            "p"@,
            "li"@,
            "h1"@,
            "h2"@,
            "h3"@,
            "h4"@,
            "h5"@,
            "h6"@,
            "td"@,
            "blockquote"@,
            "dd"@,
        ].contains(e.name),
{
    let names = seq![
        "p"@,
        "li"@,
        "h1"@,
        "h2"@,
        "h3"@,
        "h4"@,
        "h5"@,
        "h6"@,
        "td"@,
        "blockquote"@,
        "dd"@,
    ];
    assert forall|i: int| 0 <= i < names.len() implies names.contains(#[trigger] names[i]) by {}
    assert(names[0] == "p"@ && names[1] == "li"@ && names[2] == "h1"@ && names[3] == "h2"@
        && names[4] == "h3"@ && names[5] == "h4"@ && names[6] == "h5"@ && names[7] == "h6"@
        && names[8] == "td"@ && names[9] == "blockquote"@ && names[10] == "dd"@);
}

/// A page with two hundred bytes of visible text is static, unless they say that it is
/// loading and needs JavaScript: then it is the likely shell of a program.
pub proof fn law_pages_with_text_are_static(html: Seq<char>, found: Seq<ElementView>)
    requires
        selected(
            html,
            "p, article, main, section, h1, h2, h3, h4, h5, h6, li, td, th, dd, dt, blockquote"@,
        ) == Some(found),
        byte_len(visible_text(found)) >= 200,
    ensures
        shell_kind(html) == (if occurs(lowered(visible_text(found)), "loading"@)
            && needs_javascript(lowered(visible_text(found))) {
            "likely_shell"@
        } else {
            "static"@
        }),
{
}

/// A page with less visible text is ambiguous if it has more than two blocks of text, or if
/// nothing speaks for a shell. Else it is the likely shell of a program: a note for readers
/// without JavaScript that speaks of it, a body that says that it is needed, the marks of a
/// program in the source, or more than three times as many bytes of scripts as of text.
pub proof fn law_pages_without_text_may_be_shells(
    html: Seq<char>,
    found: Seq<ElementView>,
    noscripts: Seq<ElementView>,
    bodies: Seq<ElementView>,
    scripts: Seq<ElementView>,
)
    requires
        selected(
            html,
            "p, article, main, section, h1, h2, h3, h4, h5, h6, li, td, th, dd, dt, blockquote"@,
        ) == Some(found),
        selected(html, "noscript"@) == Some(noscripts),
        selected(html, "body"@) == Some(bodies),
        selected(html, "script"@) == Some(scripts),
        byte_len(visible_text(found)) < 200,
    ensures
        blocks_from(found, 0) > 2 ==> shell_kind(html) == "ambiguous"@,
        blocks_from(found, 0) <= 2 ==> ({
            let text = byte_len(visible_text(found)) as int;
            shell_kind(html) == (if (exists|i: int|
                0 <= i < noscripts.len() && occurs(
                    lowered(joined((#[trigger] noscripts[i]).text, " "@)),
                    "javascript"@,
                )) || (bodies.len() > 0 && needs_javascript(lowered(joined(bodies[0].text, " "@))))
                || has_shell_marker(lowered(html)) || has_app_marker(lowered(html)) || bytes_from(
                scripts,
                0,
            ) > 3 * (if text > 0 {
                text
            } else {
                1
            }) {
                "likely_shell"@
            } else {
                "ambiguous"@
            })
        }),
{
    if bodies.len() == 0 {
        lemma_nothing_is_needed();
    }
    if noscript_warns(noscripts) {
        let i = choose|i: int|
            0 <= i < noscripts.len() && occurs(
                lowered(inner_text(#[trigger] noscripts[i].text)),
                "javascript"@,
            );
        assert(occurs(lowered(joined((noscripts[i]).text, " "@)), "javascript"@));
    }
    if exists|i: int|
        0 <= i < noscripts.len() && occurs(
            lowered(joined((#[trigger] noscripts[i]).text, " "@)),
            "javascript"@,
        ) {
        let i = choose|i: int|
            0 <= i < noscripts.len() && occurs(
                lowered(joined((#[trigger] noscripts[i]).text, " "@)),
                "javascript"@,
            );
        assert(occurs(lowered(inner_text(noscripts[i].text)), "javascript"@));
    }
}

proof fn lemma_nothing_is_needed()
    ensures
        !needs_javascript(lowered(seq![])),
{
    reveal_strlit("enable javascript");
    reveal_strlit("requires javascript");
    reveal_strlit("ensure javascript");
    reveal_strlit("javascript is required");
    reveal_strlit("javascript is disabled");
}

/// The bytes of scripts add up.
pub proof fn law_the_bytes_of_scripts_add_up(found: Seq<ElementView>, e: ElementView)
    ensures
        bytes_from(seq![], 0) == 0,
        bytes_from(found.push(e), 0) == bytes_from(found, 0) + byte_len(joined(e.text, " "@)),
{
    lemma_bytes_from(found, e, 0);
}

proof fn lemma_bytes_from(found: Seq<ElementView>, e: ElementView, i: int)
    requires
        0 <= i <= found.len(),
    ensures
        bytes_from(found.push(e), i) == bytes_from(found, i) + byte_len(inner_text(e.text)),
    decreases found.len() - i,
{
    reveal_with_fuel(bytes_from, 2);
    let more = found.push(e);
    if i < found.len() {
        assert(more[i] == found[i]);
        lemma_bytes_from(found, e, i + 1);
    } else {
        assert(more[i] == e);
    }
}

/// A text says that JavaScript is needed exactly if one of these phrases stands in it.
pub proof fn law_what_says_that_javascript_is_needed(lower: Seq<char>)
    ensures
        needs_javascript(lower) <==> exists|phrase: Seq<char>| #[trigger]
            occurs(lower, phrase) && seq![
                "enable javascript"@,
                "requires javascript"@,
                "ensure javascript"@,
                "javascript is required"@,
                "javascript is disabled"@,
            ].contains(phrase),
{
    let all = seq![
        "enable javascript"@,
        "requires javascript"@,
        "ensure javascript"@,
        "javascript is required"@,
        "javascript is disabled"@,
    ];
    assert forall|i: int| 0 <= i < all.len() implies all.contains(#[trigger] all[i]) by {}
    assert(all[0] == "enable javascript"@ && all[1] == "requires javascript"@ && all[2]
        == "ensure javascript"@ && all[3] == "javascript is required"@ && all[4]
        == "javascript is disabled"@);
}

/// A source has the marks of a program that renders the page exactly if one of these stands
/// in it.
pub proof fn law_the_marks_of_a_program(lower: Seq<char>)
    ensures
        has_shell_marker(lower) || has_app_marker(lower) <==> exists|marker: Seq<char>| #[trigger]
            occurs(lower, marker) && seq![
                "id=\"__next\""@,
                "id='__next'"@,
                "id=\"__nuxt\""@,
                "id='__nuxt'"@,
                "data-reactroot"@,
                "ng-version="@,
                "<app-root"@,
                "id=\"___gatsby\""@,
                "id='___gatsby'"@,
                "__next_data__"@,
                "__nuxt__"@,
                "id=\"app\""@,
                "id='app'"@,
            ].contains(marker),
{
    let all = seq![
        "id=\"__next\""@,
        "id='__next'"@,
        "id=\"__nuxt\""@,
        "id='__nuxt'"@,
        "data-reactroot"@,
        "ng-version="@,
        "<app-root"@,
        "id=\"___gatsby\""@,
        "id='___gatsby'"@,
        "__next_data__"@,
        "__nuxt__"@,
        "id=\"app\""@,
        "id='app'"@,
    ];
    assert forall|i: int| 0 <= i < all.len() implies all.contains(#[trigger] all[i]) by {}
    assert(all[0] == "id=\"__next\""@ && all[1] == "id='__next'"@ && all[2] == "id=\"__nuxt\""@
        && all[3] == "id='__nuxt'"@ && all[4] == "data-reactroot"@ && all[5] == "ng-version="@
        && all[6] == "<app-root"@ && all[7] == "id=\"___gatsby\""@ && all[8] == "id='___gatsby'"@
        && all[9] == "__next_data__"@ && all[10] == "__nuxt__"@ && all[11] == "id=\"app\""@
        && all[12] == "id='app'"@);
}

/// What is extracted is seen as its fields are.
pub proof fn law_what_is_extracted(record: Extracted)
    ensures
        record@.title == record.title@,
        record@.markdown == record.markdown@,
{
}

/// Where a document has no elements that a valid selector matches, or the selector is not
/// valid, none are found.
pub proof fn law_what_a_selector_matches(
    html: Seq<char>,
    selector: Seq<char>,
    found: Seq<ElementView>,
)
    ensures
        selected(html, selector) == Some(found) ==> matched(html, selector) == found,
        selected(html, selector) is None ==> matched(html, selector).len() == 0,
        selected_html(html, selector) is None ==> matched_html(html, selector).len() == 0,
{
}

/// A selector that is not valid, or too long, selects nothing; one that matches nothing selects
/// an empty text.
pub proof fn law_which_selectors_are_refused(html: Seq<char>, selector: Seq<char>)
    ensures
        selector.len() > MAX_SELECTOR_CHARS || selected_html(html, selector) is None <==> selection(
            html,
            selector,
        ) is None,
{
}

/// A text is plain exactly if nothing in it is marked as bold, slanted, an image, a link, a
/// heading or code.
pub proof fn law_what_a_plain_text_is(text: Seq<char>)
    ensures
        is_plain(text) <==> (forall|pattern: Seq<char>|
            (pattern == "\\*\\*(.+?)\\*\\*"@ || pattern == "__(.+?)__"@ || pattern
                == "\\*([^\\s*\\n][^*\\n]*?)\\*"@ || pattern == "_([^_\\n]+?)_"@ || pattern
                == "!\\[[^\\]]*\\]\\([^)]*\\)"@ || pattern == "\\[([^\\]]+)\\]\\([^)]*\\)"@
                || pattern == "(?m)^#{1,6}\\s+(.+)$"@ || pattern == "`([^`]+)`"@)
                ==> !#[trigger] pattern_matches(pattern, text)),
{
    if !is_plain(text) {
        assert(pattern_matches(RE_BOLD@, text) || pattern_matches(RE_BOLD_ALT@, text)
            || pattern_matches(RE_ITALIC@, text) || pattern_matches(RE_ITALIC_ALT@, text)
            || pattern_matches(RE_IMAGE@, text) || pattern_matches(RE_LINK@, text)
            || pattern_matches(RE_HEADING@, text) || pattern_matches(RE_CODE@, text));
    }
}

} // verus!
