//! Access to `scraper`'s HTML parser and CSS selector engine.
//!
//! Documents, selectors and elements are held opaque, each tagged with what
//! identifies it as plain values: a document with its source text (and
//! whether it was parsed as a fragment), a selector with its text, an
//! element with its document and an abstract node number. What the engine
//! finds is named as a function of those values.

use vstd::prelude::*;

verus! {

#[verifier::external_type_specification]
#[verifier::external_body]
pub struct ExHtml(scraper::Html);

#[verifier::external_type_specification]
#[verifier::external_body]
pub struct ExSelector(scraper::Selector);

#[verifier::external_type_specification]
#[verifier::external_body]
pub struct ExElementRef<'a>(scraper::ElementRef<'a>);

/// A parsed HTML document, with its source text and whether it was parsed
/// as a fragment.
pub struct Document {
    doc: scraper::Html,
    src: Ghost<(Seq<char>, bool)>,
}

impl Document {
    pub closed spec fn source(&self) -> (Seq<char>, bool) {
        self.src@
    }
}

/// A parsed CSS selector, with its text.
pub struct Sel {
    sel: scraper::Selector,
    text: Ghost<Seq<char>>,
}

impl Sel {
    pub closed spec fn text(&self) -> Seq<char> {
        self.text@
    }
}

/// An element of a document, with that document's source and the node it is.
pub struct Element<'a> {
    el: scraper::ElementRef<'a>,
    doc: Ghost<(Seq<char>, bool)>,
    node: Ghost<nat>,
}

impl<'a> Element<'a> {
    pub closed spec fn doc(&self) -> (Seq<char>, bool) {
        self.doc@
    }

    pub closed spec fn node(&self) -> nat {
        self.node@
    }
}

/// Whether `scraper` accepts `selector` as a CSS selector.
pub uninterp spec fn selector_valid(selector: Seq<char>) -> bool;

/// The nodes `selector` matches in the document parsed from `html`, in
/// document order (`scraper::Html::select`).
pub uninterp spec fn doc_select(html: Seq<char>, fragment: bool, selector: Seq<char>) -> Seq<nat>;

/// The nodes `selector` matches below `node` (`scraper::ElementRef::select`).
pub uninterp spec fn el_select(html: Seq<char>, fragment: bool, node: nat, selector: Seq<char>) -> Seq<nat>;

/// The value of attribute `name` of `node` (`scraper::ElementRef::attr`).
pub uninterp spec fn node_attr(html: Seq<char>, fragment: bool, node: nat, name: Seq<char>) -> Option<Seq<char>>;

/// The text below `node`, concatenated (`scraper::ElementRef::text`).
pub uninterp spec fn node_text(html: Seq<char>, fragment: bool, node: nat) -> Seq<char>;

/// `scraper::Html::parse_document`. Claimed: the document is tagged with its source.
#[verifier::external_body]
pub(crate) fn parse_document(html: &str) -> (r: Document)
    ensures
        r.source() == (html@, false),
{
    Document { doc: scraper::Html::parse_document(html), src: Ghost((html@, false)) }
}

/// `scraper::Html::parse_fragment`. Claimed: the document is tagged with its source.
#[verifier::external_body]
pub(crate) fn parse_fragment(html: &str) -> (r: Document)
    ensures
        r.source() == (html@, true),
{
    Document { doc: scraper::Html::parse_fragment(html), src: Ghost((html@, true)) }
}

/// `scraper::Selector::parse`; `None` where it reports a syntax error.
/// Claimed: whether it succeeds is a function of the selector text alone
/// (`selector_valid`), and the selector is tagged with its text.
#[verifier::external_body]
pub(crate) fn parse_selector(selector: &str) -> (r: Option<Sel>)
    ensures
        r is Some <==> selector_valid(selector@),
        r matches Some(s) ==> s.text() == selector@,
{
    match scraper::Selector::parse(selector) {
        Ok(sel) => Some(Sel { sel, text: Ghost(selector@) }),
        Err(_) => None,
    }
}

/// `scraper::Html::select`, collected in document order. Claimed: the
/// elements are the nodes `doc_select` names.
#[verifier::external_body]
pub(crate) fn select_in_document<'a>(doc: &'a Document, selector: &Sel) -> (r: Vec<Element<'a>>)
    ensures
        r@.len() == doc_select(doc.source().0, doc.source().1, selector.text()).len(),
        forall|i: int|
            0 <= i < r@.len() ==> (#[trigger] r@[i]).doc() == doc.source() && r@[i].node()
                == doc_select(doc.source().0, doc.source().1, selector.text())[i],
{
    doc.doc.select(&selector.sel).map(|el| Element { el, doc: Ghost(doc.src@), node: Ghost(arbitrary()) }).collect()
}

/// `scraper::ElementRef::select` (descendants of `el`), collected in
/// document order. Claimed: the elements are the nodes `el_select` names.
#[verifier::external_body]
pub(crate) fn select_in_element<'a>(el: &Element<'a>, selector: &Sel) -> (r: Vec<Element<'a>>)
    ensures
        r@.len() == el_select(el.doc().0, el.doc().1, el.node(), selector.text()).len(),
        forall|i: int|
            0 <= i < r@.len() ==> (#[trigger] r@[i]).doc() == el.doc() && r@[i].node()
                == el_select(el.doc().0, el.doc().1, el.node(), selector.text())[i],
{
    el.el.select(&selector.sel).map(|e| Element { el: e, doc: Ghost(el.doc@), node: Ghost(arbitrary()) }).collect()
}

/// `scraper::ElementRef::attr`, copied into a `String`. Claimed: it is
/// `node_attr` of the element's node.
#[verifier::external_body]
pub(crate) fn element_attr(el: &Element, name: &str) -> (r: Option<String>)
    ensures
        crate::textutil::opt_view(r) == node_attr(el.doc().0, el.doc().1, el.node(), name@),
{
    match el.el.attr(name) {
        Some(v) => Some(v.to_string()),
        None => None,
    }
}

/// `scraper::ElementRef::text`, concatenated. Claimed: it is `node_text`
/// of the element's node.
#[verifier::external_body]
pub(crate) fn element_text(el: &Element) -> (r: String)
    ensures
        r@ == node_text(el.doc().0, el.doc().1, el.node()),
{
    el.el.text().collect()
}

} // verus!
