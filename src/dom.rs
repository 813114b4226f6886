//! The document tree, read through the `scraper` crate, and the plain values
//! that the extractors take from it.
//!
//! Parsing and selection depend on nothing but the markup and the patterns, so an
//! element is known by the markup of its document and its path: the pattern and
//! match index of each selection that led to it, from the document down.

use vstd::prelude::*;
use crate::text::str_views;
use scraper::node::Node;
use scraper::{ElementRef, Html, Selector};

verus! {

/// `scraper::Html`, a parsed document, held opaque.
#[verifier::external_type_specification]
#[verifier::external_body]
pub struct ExHtml(Html);

/// `scraper::Selector`, a compiled pattern, held opaque.
#[verifier::external_type_specification]
#[verifier::external_body]
pub struct ExSelector(Selector);

/// `scraper::ElementRef`, an element of a parsed document, held opaque.
#[verifier::external_type_specification]
#[verifier::external_body]
pub struct ExElementRef<'a>(ElementRef<'a>);

/// One node of a run of siblings, as the extractors see it.
pub enum Sibling {
    /// An element: its tag name and the text pieces below it, in document order.
    Element { name: String, texts: Vec<String> },
    /// A text node.
    Text { text: String },
    /// A comment or any other node.
    Other,
}

/// A node as mathematical values.
pub enum NodeView {
    Element { name: Seq<char>, texts: Seq<Seq<char>> },
    Text { text: Seq<char> },
    Other,
}

impl View for Sibling {
    type V = NodeView;

    open spec fn view(&self) -> NodeView {
        match self {
            Sibling::Element { name, texts } => NodeView::Element {
                name: name@,
                texts: str_views(texts@),
            },
            Sibling::Text { text } => NodeView::Text { text: text@ },
            Sibling::Other => NodeView::Other,
        }
    }
}

pub open spec fn sib_views(s: Seq<Sibling>) -> Seq<NodeView> {
    s.map_values(|x: Sibling| x@)
}

/// Whether `scraper` accepts the pattern.
pub uninterp spec fn selector_ok(p: Seq<char>) -> bool;

/// How many elements of the document with markup `m` the pattern `p` matches.
pub uninterp spec fn doc_matches(m: Seq<char>, p: Seq<char>) -> nat;

/// How many descendants of the element at `path` the pattern `p` matches.
pub uninterp spec fn elem_matches(m: Seq<char>, path: Seq<(Seq<char>, nat)>, p: Seq<char>) -> nat;

/// The text pieces below the element at `path`, in document order.
pub uninterp spec fn elem_texts(m: Seq<char>, path: Seq<(Seq<char>, nat)>) -> Seq<Seq<char>>;

/// The value of attribute `name` of the element at `path`.
pub uninterp spec fn elem_attr(m: Seq<char>, path: Seq<(Seq<char>, nat)>, name: Seq<char>) -> Option<
    Seq<char>,
>;

/// The nodes after the element at `path` under the same parent, in document order.
pub uninterp spec fn elem_next_siblings(m: Seq<char>, path: Seq<(Seq<char>, nat)>) -> Seq<NodeView>;

/// The nodes directly below the element at `path`, in document order.
pub uninterp spec fn elem_children(m: Seq<char>, path: Seq<(Seq<char>, nat)>) -> Seq<NodeView>;

/// A malformed extraction pattern.
#[derive(PartialEq, Eq, Debug)]
pub struct PatternError {
    pub pattern: String,
}

/// A parsed document together with its markup.
pub struct Document {
    markup: String,
    html: Html,
}

/// A compiled pattern together with its text.
pub struct Pattern {
    text: String,
    sel: Selector,
}

/// An element of a document, with the markup of the document and its path.
pub struct Elem<'a> {
    er: ElementRef<'a>,
    markup: &'a str,
    path: Vec<(String, usize)>,
}

impl Document {
    pub closed spec fn markup(&self) -> Seq<char> {
        self.markup@
    }

    /// Parses a whole document.
    pub fn parse(markup: &str) -> (r: Document)
        ensures
            r.markup() == markup@,
    {
        Document { markup: markup.to_owned(), html: Html::parse_document(markup) }
    }

    /// The elements of the document that `pattern` matches, in document order.
    pub fn select_all(&self, pattern: &str) -> (r: Result<Vec<Elem<'_>>, PatternError>)
        ensures
            r is Ok <==> selector_ok(pattern@),
            r matches Ok(v) ==> v@.len() == doc_matches(self.markup(), pattern@),
    {
        match get_selector(pattern) {
            Ok(p) => Ok(select_in_document(self, &p)),
            Err(e) => Err(e),
        }
    }
}

impl Pattern {
    pub closed spec fn text(&self) -> Seq<char> {
        self.text@
    }
}

impl<'a> Elem<'a> {
    pub closed spec fn markup(&self) -> Seq<char> {
        self.markup@
    }

    pub closed spec fn path(&self) -> Seq<(Seq<char>, nat)> {
        self.path@.map_values(|x: (String, usize)| (x.0@, x.1 as nat))
    }
}

/// Relies on `scraper::Html::parse_document`: builds the tree of a whole document.
pub assume_specification[ Html::parse_document ](document: &str) -> Html;

/// Relies on `scraper::Selector::parse`: `None` where the pattern does not parse.
#[verifier::external_body]
fn parse_selector(pattern: &str) -> (r: Option<Selector>)
    ensures
        r is Some <==> selector_ok(pattern@),
{
    Selector::parse(pattern).ok()
}

/// The compiled pattern, or the error that names it.
pub fn get_selector(pattern: &str) -> (r: Result<Pattern, PatternError>)
    ensures
        r is Ok <==> selector_ok(pattern@),
        r matches Ok(p) ==> p.text() == pattern@,
        r matches Err(e) ==> e.pattern@ == pattern@,
{
    match parse_selector(pattern) {
        Some(s) => Ok(Pattern { text: pattern.to_owned(), sel: s }),
        None => Err(PatternError { pattern: pattern.to_owned() }),
    }
}

/// Relies on `scraper::Html::select`: the matching elements in document order.
#[verifier::external_body]
pub(crate) fn select_in_document<'a>(doc: &'a Document, p: &Pattern) -> (r: Vec<Elem<'a>>)
    ensures
        r@.len() == doc_matches(doc.markup(), p.text()),
        forall|i: int|
            0 <= i < r@.len() ==> (#[trigger] r@[i]).markup() == doc.markup() && r@[i].path()
                == seq![(p.text(), i as nat)],
{
    doc.html.select(&p.sel).enumerate().map(|(i, er)| Elem {
        er,
        markup: doc.markup.as_str(),
        path: vec![(p.text.clone(), i)],
    }).collect()
}

/// Relies on `scraper::ElementRef::select`: the matching descendants in document order.
#[verifier::external_body]
pub(crate) fn select_in<'a>(e: &Elem<'a>, p: &Pattern) -> (r: Vec<Elem<'a>>)
    ensures
        r@.len() == elem_matches(e.markup(), e.path(), p.text()),
        forall|i: int|
            0 <= i < r@.len() ==> (#[trigger] r@[i]).markup() == e.markup() && r@[i].path()
                == e.path().push((p.text(), i as nat)),
{
    e.er.select(&p.sel).enumerate().map(|(i, er)| {
        let mut path = e.path.clone();
        path.push((p.text.clone(), i));
        Elem { er, markup: e.markup, path }
    }).collect()
}

/// Relies on `scraper::ElementRef::text`: the text pieces below the element.
#[verifier::external_body]
pub(crate) fn texts_of(e: &Elem) -> (r: Vec<String>)
    ensures
        str_views(r@) == elem_texts(e.markup(), e.path()),
{
    e.er.text().map(|t| t.to_owned()).collect()
}

/// Relies on `scraper::node::Element::attr`: the value of one attribute.
#[verifier::external_body]
pub(crate) fn attr_of(e: &Elem, name: &str) -> (r: Option<String>)
    ensures
        match r {
            Some(v) => elem_attr(e.markup(), e.path(), name@) == Some(v@),
            None => elem_attr(e.markup(), e.path(), name@) is None,
        },
{
    e.er.value().attr(name).map(|v| v.to_owned())
}

/// Relies on `ego_tree::NodeRef::next_siblings`: the nodes after the element
/// under the same parent, in document order; on `scraper::node::Element::name`
/// and `scraper::ElementRef::text` for what each element holds.
#[verifier::external_body]
pub(crate) fn next_siblings_of(e: &Elem) -> (r: Vec<Sibling>)
    ensures
        sib_views(r@) == elem_next_siblings(e.markup(), e.path()),
{
    e.er.next_siblings().map(|n| match n.value() {
        Node::Element(el) => Sibling::Element {
            name: el.name().to_owned(),
            texts: ElementRef::wrap(n).map(|x| x.text().map(|t| t.to_owned()).collect()).unwrap_or_default(),
        },
        Node::Text(t) => Sibling::Text { text: t.to_string() },
        _ => Sibling::Other,
    }).collect()
}

/// Relies on `ego_tree::NodeRef::children`: the nodes directly below the element,
/// in document order; on `scraper::node::Element::name` and
/// `scraper::ElementRef::text` for what each element holds.
#[verifier::external_body]
pub(crate) fn children_of(e: &Elem) -> (r: Vec<Sibling>)
    ensures
        sib_views(r@) == elem_children(e.markup(), e.path()),
{
    e.er.children().map(|n| match n.value() {
        Node::Element(el) => Sibling::Element {
            name: el.name().to_owned(),
            texts: ElementRef::wrap(n).map(|x| x.text().map(|t| t.to_owned()).collect()).unwrap_or_default(),
        },
        Node::Text(t) => Sibling::Text { text: t.to_string() },
        _ => Sibling::Other,
    }).collect()
}

} // verus!
