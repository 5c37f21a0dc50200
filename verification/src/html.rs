//! What the site readers take from an HTML page: for the elements that a CSS
//! selector picks, their text, their first text node, their inner HTML and
//! their `href` and `src` attributes, as plain values. The page is parsed and
//! the selectors matched by the `scraper` crate.
use vstd::prelude::*;

verus! {

/// The parts of one HTML element that the readers use.
#[derive(Debug, PartialEq, Eq)]
pub struct ElementData {
    /// All descendant text, concatenated (`element.text().collect()`).
    pub text: String,
    /// The first descendant text node (`element.text().next()`).
    pub first_text: Option<String>,
    /// The element's inner HTML (`element.inner_html()`).
    pub inner_html: String,
    /// The `href` attribute.
    pub href: Option<String>,
    /// The `src` attribute.
    pub src: Option<String>,
}

/// The characters of an optional string.
pub open spec fn opt_view(o: Option<String>) -> Option<Seq<char>> {
    match o {
        Some(s) => Some(s@),
        None => None,
    }
}

/// An element by its characters.
pub struct ElementView {
    pub text: Seq<char>,
    pub first_text: Option<Seq<char>>,
    pub inner_html: Seq<char>,
    pub href: Option<Seq<char>>,
    pub src: Option<Seq<char>>,
}

impl View for ElementData {
    type V = ElementView;

    open spec fn view(&self) -> ElementView {
        ElementView {
            text: self.text@,
            first_text: opt_view(self.first_text),
            inner_html: self.inner_html@,
            href: opt_view(self.href),
            src: opt_view(self.src),
        }
    }
}

/// The views of a sequence of elements.
pub open spec fn element_views(v: Seq<ElementData>) -> Seq<ElementView> {
    v.map_values(|e: ElementData| e@)
}

/// The views of a sequence of optional elements.
pub open spec fn opt_element_views(v: Seq<Option<ElementData>>) -> Seq<Option<ElementView>> {
    v.map_values(
        |e: Option<ElementData>|
            match e {
                Some(x) => Some(x@),
                None => None,
            },
    )
}

/// `scraper::Selector::parse(selector)` succeeds.
pub uninterp spec fn selector_parses(selector: Seq<char>) -> bool;

/// The elements of the document `html` that `selector` picks, in the order
/// of the parsed tree's nodes (the order in which the parser created them).
pub uninterp spec fn matches_of(html: Seq<char>, selector: Seq<char>) -> Seq<ElementView>;

/// For each element that `outer` picks in `html`, the first element under it
/// that `inner` picks, if any.
pub uninterp spec fn first_within(html: Seq<char>, outer: Seq<char>, inner: Seq<char>) -> Seq<
    Option<ElementView>,
>;

/// Parses `html` as a document (`scraper::Html::parse_document`) and returns
/// the elements that `selector` picks (`Html::select`), each as plain values;
/// `None` when `Selector::parse` refuses the selector. The contract names the
/// list `matches_of(html, selector)` and says nothing of how HTML is parsed
/// or matched.
#[verifier::external_body]
pub(crate) fn select_all(html: &str, selector: &str) -> (r: Option<Vec<ElementData>>)
    ensures
        r is Some <==> selector_parses(selector@),
        r matches Some(v) ==> element_views(v@) == matches_of(html@, selector@),
{
    let doc = scraper::Html::parse_document(html);
    let sel = scraper::Selector::parse(selector).ok()?;
    Some(doc.select(&sel).map(|e| ElementData {
        text: e.text().collect(),
        first_text: e.text().next().map(String::from),
        inner_html: e.inner_html(),
        href: e.attr("href").map(String::from),
        src: e.attr("src").map(String::from),
    }).collect())
}

/// For each element that `outer` picks in the document `html`, the first
/// element under it that `inner` picks (`ElementRef::select(..).next()`), as
/// plain values; `None` when either selector is refused. The list has one
/// entry per element that `outer` picks; the contract names it
/// `first_within(html, outer, inner)`.
#[verifier::external_body]
pub(crate) fn select_first_within(html: &str, outer: &str, inner: &str) -> (r: Option<
    Vec<Option<ElementData>>,
>)
    ensures
        r is Some <==> (selector_parses(outer@) && selector_parses(inner@)),
        r matches Some(v) ==> opt_element_views(v@) == first_within(html@, outer@, inner@),
        r matches Some(v) ==> v@.len() == matches_of(html@, outer@).len(),
{
    let doc = scraper::Html::parse_document(html);
    let o = scraper::Selector::parse(outer).ok()?;
    let i = scraper::Selector::parse(inner).ok()?;
    Some(doc.select(&o).map(|e| e.select(&i).next().map(|t| ElementData {
        text: t.text().collect(),
        first_text: t.text().next().map(String::from),
        inner_html: t.inner_html(),
        href: t.attr("href").map(String::from),
        src: t.attr("src").map(String::from),
    })).collect())
}

} // verus!
