//! Calls into `scraper` (HTML parsing and CSS selection). What the HTML
//! parser and selector engine compute is named, not spelled out.
use vstd::prelude::*;

verus! {

/// Whether `scraper::Selector::parse(selector)` succeeds.
pub uninterp spec fn css_selector_parses(selector: Seq<char>) -> bool;

/// For `fragment` parsed with `scraper::Html::parse_fragment`, the elements
/// under its root that `selector` matches, in document order: each as its
/// local tag name, its attributes (name, value) in the element's order, and
/// its serialized HTML (`ElementRef::html`).
pub uninterp spec fn html_select_parts(fragment: Seq<char>, selector: Seq<char>) -> Seq<
    (Seq<char>, Seq<(Seq<char>, Seq<char>)>, Seq<char>),
>;

/// The text of the parsed fragment's root element (`ElementRef::text`, joined).
pub uninterp spec fn html_text(fragment: Seq<char>) -> Seq<char>;

/// The children of the parsed fragment's root element: the text of each text
/// node, `None` for every other node.
pub uninterp spec fn html_child_texts(fragment: Seq<char>) -> Seq<Option<Seq<char>>>;

/// The inner HTML of the parsed fragment's root element.
pub uninterp spec fn html_inner(fragment: Seq<char>) -> Seq<char>;

/// For `document` parsed with `scraper::Html::parse_document`, `None` when
/// `outer` or `inner` does not parse as a selector; else, for each element
/// `outer` selects in document order, the elements `inner` selects within
/// it: each as its attributes (name, value) in the element's order and its
/// text (`ElementRef::text`, joined).
pub uninterp spec fn html_select_nested(document: Seq<char>, outer: Seq<char>, inner: Seq<char>) -> Option<
    Seq<Seq<(Seq<(Seq<char>, Seq<char>)>, Seq<char>)>>,
>;

/// Trusted: parses `fragment` (`Html::parse_fragment`) and `selector`
/// (`Selector::parse`, `None` when it fails), and returns, for each element
/// `root_element().select(..)` yields, its tag name, attributes and `html()`.
#[verifier::external_body]
pub(crate) fn select_parts(fragment: &str, selector: &str) -> (r: Option<
    Vec<(String, Vec<(String, String)>, String)>,
>)
    ensures
        r is Some <==> css_selector_parses(selector@),
        r matches Some(v) ==> v.deep_view() == html_select_parts(fragment@, selector@),
{
    let sel = scraper::Selector::parse(selector).ok()?;
    let doc = scraper::Html::parse_fragment(fragment);
    Some(doc.root_element().select(&sel).map(|e| (
        e.value().name.local.to_string(),
        e.value().attrs().map(|(k, v)| (k.to_string(), v.to_string())).collect(),
        e.html(),
    )).collect())
}

/// Trusted: `Html::parse_fragment(fragment).root_element().text()`, joined.
#[verifier::external_body]
pub(crate) fn fragment_text(fragment: &str) -> (r: String)
    ensures
        r@ == html_text(fragment@),
{
    scraper::Html::parse_fragment(fragment).root_element().text().collect()
}

/// Trusted: the children of `Html::parse_fragment(fragment).root_element()`,
/// a text node as its text and any other node as `None`.
#[verifier::external_body]
pub(crate) fn fragment_child_texts(fragment: &str) -> (r: Vec<Option<String>>)
    ensures
        r.deep_view() == html_child_texts(fragment@),
{
    let doc = scraper::Html::parse_fragment(fragment);
    doc.root_element().children().map(|child| match child.value() {
        scraper::node::Node::Text(t) => Some(t.text.to_string()),
        _ => None,
    }).collect()
}

/// Trusted: `Html::parse_fragment(fragment).root_element().inner_html()`.
#[verifier::external_body]
pub(crate) fn fragment_inner_html(fragment: &str) -> (r: String)
    ensures
        r@ == html_inner(fragment@),
{
    scraper::Html::parse_fragment(fragment).root_element().inner_html()
}

/// Trusted: parses `outer` and `inner` (`Selector::parse`, `None` when
/// either fails) and `document` (`Html::parse_document`), and returns, for
/// each element `root_element().select(outer)` yields, the attributes and
/// joined `text()` of each element its own `select(inner)` yields.
#[verifier::external_body]
pub(crate) fn select_nested(document: &str, outer: &str, inner: &str) -> (r: Option<
    Vec<Vec<(Vec<(String, String)>, String)>>,
>)
    ensures
        r.deep_view() == html_select_nested(document@, outer@, inner@),
{
    let o = scraper::Selector::parse(outer).ok()?;
    let i = scraper::Selector::parse(inner).ok()?;
    let doc = scraper::Html::parse_document(document);
    Some(doc.root_element().select(&o).map(|e| e.select(&i).map(|x| (
        x.value().attrs().map(|(k, v)| (k.to_string(), v.to_string())).collect(),
        x.text().collect(),
    )).collect()).collect())
}

} // verus!
