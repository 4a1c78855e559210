//! scraper's parse of an HTML text, tied to that text: only
//! [`parse_document`] makes an [`HtmlDoc`], and only [`select_first`] and
//! [`root_element`] make an [`HtmlElem`] of it.

use vstd::prelude::*;
use ego_tree::iter::Edge;
use crate::parsers::html::{html_evs_view, html_has, html_subtree, HtmlEv};

verus! {

/// A parsed HTML document and the text it was parsed from.
pub struct HtmlDoc {
    doc: scraper::Html,
    src: Ghost<Seq<char>>,
}

/// An element of a parsed document: the one a selector picked first, or
/// the root.
pub struct HtmlElem<'a> {
    el: scraper::ElementRef<'a>,
    src: Ghost<Seq<char>>,
    sel: Ghost<Option<Seq<char>>>,
}

impl HtmlDoc {
    /// The text parsed.
    pub closed spec fn src(&self) -> Seq<char> {
        self.src@
    }
}

impl<'a> HtmlElem<'a> {
    /// The text of the document the element belongs to.
    pub closed spec fn src(&self) -> Seq<char> {
        self.src@
    }

    /// The selector that picked the element (`None`: the root element).
    pub closed spec fn sel(&self) -> Option<Seq<char>> {
        self.sel@
    }
}

/// `scraper::Html::parse_document`.
/// Its source does not show that it returns on every malformed input; the
/// contract speaks only of calls that return.
#[verifier::external_body]
pub fn parse_document(src: &str) -> (r: HtmlDoc)
    ensures
        r.src() == src@,
{
    HtmlDoc { doc: scraper::Html::parse_document(src), src: Ghost(src@) }
}

/// The first element that `Selector::parse(sel)` selects.
#[verifier::external_body]
pub fn select_first<'a>(d: &'a HtmlDoc, sel: &str) -> (r: Option<HtmlElem<'a>>)
    ensures
        r is Some == html_has(d.src(), sel@),
        r matches Some(e) ==> e.src() == d.src() && e.sel() == Some(sel@),
{
    let s = match scraper::Selector::parse(sel) {
        Ok(s) => s,
        Err(_) => return None,
    };
    match d.doc.select(&s).next() {
        Some(el) => Some(HtmlElem { el, src: Ghost(d.src@), sel: Ghost(Some(sel@)) }),
        None => None,
    }
}

/// `Html::root_element`.
#[verifier::external_body]
pub fn root_element<'a>(d: &'a HtmlDoc) -> (r: HtmlElem<'a>)
    ensures
        r.src() == d.src(),
        r.sel() is None,
{
    HtmlElem { el: d.doc.root_element(), src: Ghost(d.src@), sel: Ghost(None) }
}

/// `traverse` of the element: elements with their name and the four
/// attributes read, text nodes with their text.
#[verifier::external_body]
pub fn traverse(e: &HtmlElem) -> (r: Vec<HtmlEv>)
    ensures
        html_evs_view(r@) == html_subtree(e.src(), e.sel()),
{
    let mut out = Vec::new();
    for edge in e.el.traverse() {
        out.push(match edge {
            Edge::Close(_) => HtmlEv::Close,
            Edge::Open(n) => match n.value() {
                scraper::Node::Text(t) => HtmlEv::Text(t.to_string()),
                scraper::Node::Element(x) => HtmlEv::Element(x.name().to_owned(), [
                    x.attr("href"), x.attr("src"), x.attr("alt"), x.attr("class")].map(|a| a.map(str::to_owned))),
                _ => HtmlEv::Other,
            },
        });
    }
    out
}

} // verus!
