//! HTML and XML documents, as the `scraper`, `html2md` and `quick_xml` crates
//! read them.

use vstd::prelude::*;

use quick_xml::events::Event;

use crate::text::texts;
use crate::web::maybe;

verus! {

/// An element of a document, with the attributes that are looked at.
#[derive(Debug)]
pub struct Element {
    /// The name of its tag.
    pub name: String,
    pub id: Option<String>,
    pub class: Option<String>,
    pub role: Option<String>,
    pub itemprop: Option<String>,
    pub href: Option<String>,
    /// The texts inside it, in document order.
    pub text: Vec<String>,
}

/// What an [`Element`] holds.
pub struct ElementView {
    pub name: Seq<char>,
    pub id: Option<Seq<char>>,
    pub class: Option<Seq<char>>,
    pub role: Option<Seq<char>>,
    pub itemprop: Option<Seq<char>>,
    pub href: Option<Seq<char>>,
    pub text: Seq<Seq<char>>,
}

impl View for Element {
    type V = ElementView;

    open spec fn view(&self) -> ElementView {
        ElementView {
            name: self.name@,
            id: maybe(self.id),
            class: maybe(self.class),
            role: maybe(self.role),
            itemprop: maybe(self.itemprop),
            href: maybe(self.href),
            text: texts(self.text@),
        }
    }
}

/// What a list of elements holds.
pub open spec fn elements(v: Seq<Element>) -> Seq<ElementView> {
    Seq::new(v.len(), |i: int| v[i]@)
}

/// An element inside another one: its texts and where it links to.
#[derive(Debug)]
pub struct Inner {
    pub href: Option<String>,
    pub text: Vec<String>,
}

/// What an [`Inner`] holds.
pub struct InnerView {
    pub href: Option<Seq<char>>,
    pub text: Seq<Seq<char>>,
}

impl View for Inner {
    type V = InnerView;

    open spec fn view(&self) -> InnerView {
        InnerView { href: maybe(self.href), text: texts(self.text@) }
    }
}

/// What a list of inner elements holds.
pub open spec fn inners(v: Seq<Inner>) -> Seq<InnerView> {
    Seq::new(v.len(), |i: int| v[i]@)
}

/// What lists of inner elements hold.
pub open spec fn inner_lists(v: Seq<Vec<Inner>>) -> Seq<Seq<InnerView>> {
    Seq::new(v.len(), |i: int| inners(v[i]@))
}

/// How many characters a selector may have. `scraper` calls itself once for each step of
/// a selector that it matches, so that the stack does not hold every selector.
pub const MAX_SELECTOR_CHARS: usize = 1300;

/// The elements of a document that a CSS selector matches, in document order, or
/// nothing where the selector is not valid.
pub uninterp spec fn selected(html: Seq<char>, selector: Seq<char>) -> Option<Seq<ElementView>>;

/// `scraper::Html::select` on the document that `scraper::Html::parse_document`
/// reads, with the names, attributes and texts of the elements. The same
/// document and selector give the same elements every time.
#[verifier::external_body]
pub(crate) fn select(html: &str, selector: &str) -> (r: Option<Vec<Element>>)
    requires
        selector@.len() <= MAX_SELECTOR_CHARS,
    ensures
        match r {
            Some(found) => selected(html@, selector@) == Some(elements(found@)),
            None => selected(html@, selector@) is None,
        },
{
    let css = scraper::Selector::parse(selector).ok()?;
    let found = scraper::Html::parse_document(html).select(&css).map(|e| Element {
        name: e.value().name().to_string(),
        id: e.attr("id").map(str::to_string),
        class: e.attr("class").map(str::to_string),
        role: e.attr("role").map(str::to_string),
        itemprop: e.attr("itemprop").map(str::to_string),
        href: e.attr("href").map(str::to_string),
        text: e.text().map(str::to_string).collect(),
    }).collect();
    Some(found)
}

/// The selected elements as HTML.
pub uninterp spec fn selected_html(html: Seq<char>, selector: Seq<char>) -> Option<Seq<Seq<char>>>;

/// `scraper::ElementRef::html` of the elements that [`select`] finds: one text
/// for each of them, in the same order.
#[verifier::external_body]
pub(crate) fn select_html(html: &str, selector: &str) -> (r: Option<Vec<String>>)
    requires
        selector@.len() <= MAX_SELECTOR_CHARS,
    ensures
        match r {
            Some(found) => selected_html(html@, selector@) == Some(texts(found@)) && selected(
                html@,
                selector@,
            ) is Some && found@.len() == selected(html@, selector@)->0.len(),
            None => selected_html(html@, selector@) is None && selected(html@, selector@) is None,
        },
{
    let css = scraper::Selector::parse(selector).ok()?;
    Some(scraper::Html::parse_document(html).select(&css).map(|e| e.html()).collect())
}

/// What a second selector matches inside each of the selected elements.
pub uninterp spec fn selected_inside(
    html: Seq<char>,
    selector: Seq<char>,
    inner: Seq<char>,
) -> Option<Seq<Seq<InnerView>>>;

/// `scraper::ElementRef::select` with `inner` on each of the elements that
/// [`select`] finds: one list for each of them, in the same order.
#[verifier::external_body]
pub(crate) fn select_inside(html: &str, selector: &str, inner: &str) -> (r: Option<Vec<Vec<Inner>>>)
    requires
        selector@.len() <= MAX_SELECTOR_CHARS,
        inner@.len() <= MAX_SELECTOR_CHARS,
    ensures
        match r {
            Some(found) => selected_inside(html@, selector@, inner@) == Some(inner_lists(found@))
                && selected(html@, selector@) is Some && found@.len() == selected(
                html@,
                selector@,
            )->0.len(),
            None => selected_inside(html@, selector@, inner@) is None,
        },
{
    let (css, sub) = (scraper::Selector::parse(selector).ok()?, scraper::Selector::parse(inner).ok()?);
    let found = scraper::Html::parse_document(html).select(&css).map(|outer| {
        outer.select(&sub).map(|e| Inner {
            href: e.attr("href").map(str::to_string),
            text: e.text().map(str::to_string).collect(),
        }).collect()
    }).collect();
    Some(found)
}

/// The list items that stand in no list but inside a link, a quotation or an
/// emphasised text. In a table, whose cells are written by themselves, they are the
/// items that no list directly holds.
pub const STRAY_ITEMS: &'static str =
    ":is(a, q, cite, blockquote, b, i, s, strong, em, del) li:not(:is(ul, ol, menu, table) li), table :is(a, q, cite, blockquote, b, i, s, strong, em, del) li:not(:is(ul, ol, menu) > li)";

/// How deep elements may be nested.
pub const MAX_NESTING: usize = 512;

/// How deep tables may be nested.
pub const MAX_TABLES: usize = 8;

/// A text with another one behind it `n` times.
pub open spec fn chained(first: Seq<char>, link: Seq<char>, n: nat) -> Seq<char>
    decreases n,
{
    if n == 0 {
        first
    } else {
        chained(first, link, (n - 1) as nat) + link
    }
}

fn chain(first: &str, link: &str, n: usize) -> (r: String)
    ensures
        r@ == chained(first@, link@, n as nat),
{
    let mut out = first.to_owned();
    let mut i: usize = 0;
    while i < n
        invariant
            i <= n,
            out@ == chained(first@, link@, i as nat),
        decreases n - i,
    {
        out.append(link);
        i += 1;
    }
    out
}

/// The selector of what cannot be written as markdown: stray list items, and elements
/// and tables that are nested too deep.
pub open spec fn unwritable() -> Seq<char> {
    STRAY_ITEMS@ + ", "@ + chained(":root"@, ">*"@, MAX_NESTING as nat) + ", "@ + chained(
        "table"@,
        " table"@,
        MAX_TABLES as nat,
    )
}

proof fn lemma_chained_len(first: Seq<char>, link: Seq<char>, n: nat)
    ensures
        chained(first, link, n).len() == first.len() + n * link.len(),
    decreases n,
{
    if n > 0 {
        lemma_chained_len(first, link, (n - 1) as nat);
        let m = (n - 1) as nat;
        assert(m * link.len() + link.len() == n * link.len()) by (nonlinear_arith)
            requires
                m == n - 1,
        ;
    } else {
        assert(n * link.len() == 0) by (nonlinear_arith)
            requires
                n == 0,
        ;
    }
}

fn unwritable_selector() -> (r: String)
    ensures
        r@ == unwritable(),
        r@.len() <= MAX_SELECTOR_CHARS,
{
    proof {
        reveal_strlit(
            ":is(a, q, cite, blockquote, b, i, s, strong, em, del) li:not(:is(ul, ol, menu, table) li), table :is(a, q, cite, blockquote, b, i, s, strong, em, del) li:not(:is(ul, ol, menu) > li)",
        );
        reveal_strlit(", ");
        reveal_strlit(":root");
        reveal_strlit(">*");
        reveal_strlit("table");
        reveal_strlit(" table");
        lemma_chained_len(":root"@, ">*"@, MAX_NESTING as nat);
        lemma_chained_len("table"@, " table"@, MAX_TABLES as nat);
    }
    let mut selector = STRAY_ITEMS.to_owned();
    selector.append(", ");
    selector.append(chain(":root", ">*", MAX_NESTING).as_str());
    selector.append(", ");
    selector.append(chain("table", " table", MAX_TABLES).as_str());
    selector
}

/// Whether a document can be written as markdown. `html2md` forgets where the text
/// around a stray list item began, and may panic there. It calls itself once for each
/// level of nesting, so that the stack does not hold every document. And it writes the rows
/// of a table again for each table around it, padded to the widest cell, so that tables in
/// tables soon fill the memory.
pub open spec fn convertible(html: Seq<char>) -> bool {
    match selected(html, unwritable()) {
        Some(found) => found.len() == 0,
        None => false,
    }
}

/// Whether `html` can be written as markdown.
pub fn is_convertible(html: &str) -> (r: bool)
    ensures
        r == convertible(html@),
{
    match select(html, unwritable_selector().as_str()) {
        Some(found) => found.len() == 0,
        None => false,
    }
}

/// A document as markdown.
pub uninterp spec fn markdown_of(html: Seq<char>) -> Seq<char>;

/// `html2md::parse_html`: the document as markdown, the same text every time.
#[verifier::external_body]
pub(crate) fn to_markdown(html: &str) -> (r: String)
    requires
        convertible(html@),
    ensures
        r@ == markdown_of(html@),
{
    html2md::parse_html(html)
}

/// What an XML reader comes upon.
#[derive(Debug)]
pub enum XmlEvent {
    /// An element begins; it has this name.
    Element(String),
    /// The document ends.
    End,
    /// The document is not well formed, for this reason.
    Broken(String),
    /// Anything else: text, a comment, the end of an element.
    Other,
}

/// What an [`XmlEvent`] holds.
pub enum XmlView {
    Element(Seq<char>),
    End,
    Broken(Seq<char>),
    Other,
}

impl View for XmlEvent {
    type V = XmlView;

    open spec fn view(&self) -> XmlView {
        match self {
            XmlEvent::Element(name) => XmlView::Element(name@),
            XmlEvent::End => XmlView::End,
            XmlEvent::Broken(message) => XmlView::Broken(message@),
            XmlEvent::Other => XmlView::Other,
        }
    }
}

/// The reader of `quick_xml`.
#[verifier::external_type_specification]
#[verifier::external_body]
#[verifier::reject_recursive_types(R)]
pub struct ExReader<R>(quick_xml::Reader<R>);

/// The events that a reader has still to come upon before the document ends.
pub uninterp spec fn pending(reader: quick_xml::Reader<&[u8]>) -> Seq<XmlView>;

/// The events of an XML document before its end.
pub uninterp spec fn xml_events(xml: Seq<char>) -> Seq<XmlView>;

/// `quick_xml::Reader::from_str`, set to trim the texts.
#[verifier::external_body]
pub(crate) fn xml_reader(xml: &str) -> (r: quick_xml::Reader<&[u8]>)
    ensures
        pending(r) == xml_events(xml@),
{
    let mut reader = quick_xml::Reader::from_str(xml);
    reader.config_mut().trim_text(true);
    reader
}

/// `quick_xml::Reader::read_event`: the next event, and the end of the document
/// from then on that there is no other.
#[verifier::external_body]
pub(crate) fn next_event(reader: &mut quick_xml::Reader<&[u8]>) -> (r: XmlEvent)
    ensures
        pending(*old(reader)).len() == 0 ==> r@ == XmlView::End && pending(*final(reader))
            == pending(*old(reader)),
        pending(*old(reader)).len() > 0 ==> r@ == pending(*old(reader))[0] && pending(
            *final(reader),
        ) == pending(*old(reader)).drop_first(),
{
    match reader.read_event() {
        Ok(Event::Start(e)) | Ok(Event::Empty(e)) => {
            XmlEvent::Element(e.name().as_ref().to_string())
        },
        Ok(Event::Eof) => XmlEvent::End,
        Ok(_) => XmlEvent::Other,
        Err(error) => XmlEvent::Broken(error.to_string()),
    }
}

/// A text is repeated behind another one as often as is asked for.
pub proof fn law_repeating(first: Seq<char>, link: Seq<char>, n: nat)
    ensures
        chained(first, link, 0) == first,
        chained(first, link, n + 1) == chained(first, link, n) + link,
{
}

/// A document can be written as markdown exactly if nothing in it stands in the way.
pub proof fn law_what_can_be_written(html: Seq<char>, found: Seq<ElementView>)
    requires
        selected(html, unwritable()) == Some(found),
    ensures
        convertible(html) <==> found.len() == 0,
{
}

/// An element is seen as its fields are.
pub proof fn law_what_an_element_holds(record: Element)
    ensures
        record@.name == record.name@,
        record.id matches Some(value) ==> record@.id == Some(value@),
        record.id is None ==> record@.id is None,
        record.class matches Some(value) ==> record@.class == Some(value@),
        record.class is None ==> record@.class is None,
        record.role matches Some(value) ==> record@.role == Some(value@),
        record.role is None ==> record@.role is None,
        record.itemprop matches Some(value) ==> record@.itemprop == Some(value@),
        record.itemprop is None ==> record@.itemprop is None,
        record.href matches Some(value) ==> record@.href == Some(value@),
        record.href is None ==> record@.href is None,
        record@.text.len() == record.text@.len(),
        forall|i: int|
            0 <= i < record.text@.len() ==> #[trigger] record@.text[i] == record.text@[i]@,
{
}

/// An element inside another one is seen as its fields are.
pub proof fn law_what_an_inner_element_holds(record: Inner)
    ensures
        record.href matches Some(value) ==> record@.href == Some(value@),
        record.href is None ==> record@.href is None,
        record@.text.len() == record.text@.len(),
        forall|i: int|
            0 <= i < record.text@.len() ==> #[trigger] record@.text[i] == record.text@[i]@,
{
}

/// What cannot be written as markdown: list items that stand in no list but inside a link, a
/// quotation or an emphasised text, elements that are nested 512 deep, and tables that are nested
/// in eight others.
pub proof fn law_what_cannot_be_written()
    ensures
        unwritable()
            == ":is(a, q, cite, blockquote, b, i, s, strong, em, del) li:not(:is(ul, ol, menu, table) li), table :is(a, q, cite, blockquote, b, i, s, strong, em, del) li:not(:is(ul, ol, menu) > li)"@
            + ", "@ + chained(":root"@, ">*"@, 512) + ", "@ + chained("table"@, " table"@, 8),
{
}

} // verus!
