use vstd::prelude::*;

use scraper::{ElementRef, Html, Selector};

use crate::samples::{pair_samples, pairs_view, parts_view, sample_pairs, PagePart, PartView};

verus! {

#[verifier::external_type_specification]
#[verifier::external_body]
pub struct ExHtml(scraper::Html);

#[verifier::external_type_specification]
#[verifier::external_body]
pub struct ExSelector(scraper::Selector);

#[verifier::external_type_specification]
#[verifier::external_body]
pub struct ExElementRef<'a>(scraper::ElementRef<'a>);

/// Where an element stands in a document: from the root, each step is a
/// selector and the index of the match taken among the previous element's
/// matches: from the document, in the order `Html::select` yields them; below
/// an element, in document order.
pub type Address = Seq<(Seq<char>, int)>;

/// Whether the text is a CSS selector that scraper accepts.
pub uninterp spec fn selector_ok(sel: Seq<char>) -> bool;

/// How many elements of the HTML document `doc` the selector matches.
pub uninterp spec fn match_count(doc: Seq<char>, sel: Seq<char>) -> nat;

/// Whether some descendant of the element at `at` in `doc` matches `sel`.
pub uninterp spec fn has_match(doc: Seq<char>, at: Address, sel: Seq<char>) -> bool;

/// The text of the element at `at` in `doc`: its text nodes, joined.
pub uninterp spec fn text_of(doc: Seq<char>, at: Address) -> Seq<char>;

pub open spec fn part_selector() -> Seq<char> {
    "div[class=\"part\"]"@
}

pub open spec fn section_selector() -> Seq<char> {
    "section"@
}

pub open spec fn heading_selector() -> Seq<char> {
    "h3"@
}

pub open spec fn block_selector() -> Seq<char> {
    "pre"@
}

/// The text of the first `inner` element in the first `section` below the
/// element at `at`, if both exist.
pub open spec fn section_text(doc: Seq<char>, at: Address, inner: Seq<char>) -> Option<
    Seq<char>,
> {
    if has_match(doc, at, section_selector()) {
        let sec = at.push((section_selector(), 0));
        if has_match(doc, sec, inner) {
            Some(text_of(doc, sec.push((inner, 0))))
        } else {
            None
        }
    } else {
        None
    }
}

/// The parts of the page with HTML text `doc`: for each `div` of class
/// `part`, in the order `Html::select` yields them, the heading and block texts of its first
/// `section`. None when one of the four selectors is refused.
pub open spec fn page_parts_of(doc: Seq<char>) -> Seq<PartView> {
    if selector_ok(part_selector()) && selector_ok(section_selector()) && selector_ok(
        heading_selector(),
    ) && selector_ok(block_selector()) {
        Seq::new(
            match_count(doc, part_selector()),
            |i: int|
                {
                    let at = seq![(part_selector(), i)];
                    (section_text(doc, at, heading_selector()), section_text(
                        doc,
                        at,
                        block_selector(),
                    ))
                },
        )
    } else {
        Seq::empty()
    }
}

/// A parsed HTML document, with the text it was parsed from.
pub struct Page {
    html: Html,
    source: Ghost<Seq<char>>,
}

/// A compiled selector, with its text.
struct Query {
    sel: Selector,
    text: Ghost<Seq<char>>,
}

/// An element of a page, with the page's text and the element's address.
struct Node<'a> {
    el: ElementRef<'a>,
    source: Ghost<Seq<char>>,
    at: Ghost<Address>,
}

/// Relies on `scraper::Html::parse_document`: builds the tree of an HTML
/// document; it accepts any text.
#[verifier::external_body]
fn parse_document(body: &str) -> (r: Page)
    ensures
        r.source() == body@,
{
    Page { html: Html::parse_document(body), source: Ghost(body@) }
}

/// Relies on `scraper::Selector::parse`: compiles a CSS selector, or fails,
/// depending on the text alone.
#[verifier::external_body]
fn parse_selector(s: &str) -> (r: Option<Query>)
    ensures
        r.is_some() == selector_ok(s@),
        r matches Some(q) ==> q.text@ == s@,
{
    match Selector::parse(s) {
        Ok(sel) => Some(Query { sel, text: Ghost(s@) }),
        Err(_) => None,
    }
}

/// Relies on `scraper::Html::select`: the elements of the document that the
/// selector matches, in the order `Html::select` yields them; the `i`-th is
/// the element at address `[(selector, i)]`.
#[verifier::external_body]
fn select_all<'a>(page: &'a Page, q: &Query) -> (r: Vec<Node<'a>>)
    ensures
        r@.len() == match_count(page.source(), q.text@),
        forall|i: int|
            0 <= i < r@.len() ==> (#[trigger] r@[i]).source@ == page.source() && r@[i].at@ == seq![
                (q.text@, i),
            ],
{
    let mut r: Vec<Node<'a>> = Vec::new();
    for (i, el) in page.html.select(&q.sel).enumerate() {
        r.push(Node { el, source: Ghost(page.source@), at: Ghost(seq![(q.text@, i as int)]) });
    }
    r
}

/// Relies on `scraper::ElementRef::select`: the first descendant of the
/// element that the selector matches, in document order; it stands at the
/// element's address extended by `(selector, 0)`.
#[verifier::external_body]
fn select_first<'a>(node: &Node<'a>, q: &Query) -> (r: Option<Node<'a>>)
    ensures
        r.is_some() == has_match(node.source@, node.at@, q.text@),
        r matches Some(n) ==> n.source@ == node.source@ && n.at@ == node.at@.push((q.text@, 0)),
{
    match node.el.select(&q.sel).next() {
        Some(el) => Some(
            Node { el, source: Ghost(node.source@), at: Ghost(node.at@.push((q.text@, 0))) },
        ),
        None => None,
    }
}

/// Relies on `scraper::ElementRef::text`: the element's text nodes, joined.
#[verifier::external_body]
fn element_text(node: &Node) -> (r: String)
    ensures
        r@ == text_of(node.source@, node.at@),
{
    node.el.text().collect()
}

impl Page {
    /// The HTML text that the page was parsed from.
    pub closed spec fn source(&self) -> Seq<char> {
        self.source@
    }

    /// Parses the HTML text of a page.
    pub fn parse(body: &str) -> (r: Page)
        ensures
            r.source() == body@,
    {
        parse_document(body)
    }
}

/// The text of the first `inner` element in the first `section` below `node`.
fn nested_text(node: &Node, section: &Query, inner: &Query) -> (r: Option<String>)
    requires
        section.text@ == section_selector(),
    ensures
        crate::samples::text_view(r) == section_text(node.source@, node.at@, inner.text@),
{
    match select_first(node, section) {
        Some(sec) => match select_first(&sec, inner) {
            Some(leaf) => Some(element_text(&leaf)),
            None => None,
        },
        None => None,
    }
}

/// The parts of a problem page: for each `div` of class `part`, the text of
/// the first `h3` and of the first `pre` in its first `section`.
pub fn page_parts(page: &Page) -> (r: Vec<PagePart>)
    ensures
        parts_view(r@) == page_parts_of(page.source()),
{
    let mut parts: Vec<PagePart> = Vec::new();
    let part_q = parse_selector("div[class=\"part\"]");
    let section_q = parse_selector("section");
    let heading_q = parse_selector("h3");
    let block_q = parse_selector("pre");
    match (part_q, section_q, heading_q, block_q) {
        (Some(part_q), Some(section_q), Some(heading_q), Some(block_q)) => {
            let elements = select_all(page, &part_q);
            let ghost doc = page.source();
            let mut i: usize = 0;
            while i < elements.len()
                invariant
                    i <= elements@.len(),
                    doc == page.source(),
                    elements@.len() == match_count(doc, part_selector()),
                    forall|j: int|
                        0 <= j < elements@.len() ==> (#[trigger] elements@[j]).source@ == doc
                            && elements@[j].at@ == seq![(part_selector(), j)],
                    part_q.text@ == part_selector(),
                    section_q.text@ == section_selector(),
                    heading_q.text@ == heading_selector(),
                    block_q.text@ == block_selector(),
                    selector_ok(part_selector()) && selector_ok(section_selector())
                        && selector_ok(heading_selector()) && selector_ok(block_selector()),
                    parts@.len() == i,
                    forall|j: int|
                        0 <= j < i ==> #[trigger] parts@[j]@ == page_parts_of(doc)[j],
                decreases elements@.len() - i,
            {
                let node = &elements[i];
                let heading = nested_text(node, &section_q, &heading_q);
                let block = nested_text(node, &section_q, &block_q);
                parts.push(PagePart { heading, block });
                i = i + 1;
            }
            assert(parts_view(parts@) =~= page_parts_of(doc));
        },
        _ => {
            assert(parts_view(parts@) =~= page_parts_of(page.source()));
        },
    }
    parts
}

/// The sample (input, output) pairs of a parsed problem page.
pub fn extract_input_output(page: &Page) -> (r: Vec<(String, String)>)
    ensures
        pairs_view(r@, sample_pairs(page_parts_of(page.source()))),
{
    let parts = page_parts(page);
    pair_samples(&parts)
}

/// The sample (input, output) pairs of a problem page given as HTML text.
pub fn extract_from_markup(body: &str) -> (r: Vec<(String, String)>)
    ensures
        pairs_view(r@, sample_pairs(page_parts_of(body@))),
{
    let page = Page::parse(body);
    extract_input_output(&page)
}

} // verus!
