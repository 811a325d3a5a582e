//! HTML documents read through scraper.
//!
//! A document is parsed once with `scraper::Html::parse_document`; its nodes
//! are then named by their index in the document's node arena (the order of
//! `Tree::nodes`). Each accessor below makes one scraper call; its result is
//! named by an uninterpreted function of the document's source text, which
//! determines the parsed tree.

use vstd::prelude::*;

verus! {

#[verifier::external_type_specification]
#[verifier::external_body]
pub struct ExHtml(scraper::Html);

#[verifier::external_type_specification]
#[verifier::external_body]
pub struct ExSelector(scraper::Selector);

/// Whether `Selector::parse` accepts the selector text `sel`.
pub uninterp spec fn css_parses(sel: Seq<char>) -> bool;

/// The nodes that `Html::select` yields for selector `sel`, in document order.
pub uninterp spec fn html_select(html: Seq<char>, sel: Seq<char>) -> Seq<usize>;

/// The nodes that `ElementRef::select` yields for selector `sel` below element `node`.
pub uninterp spec fn html_select_in(html: Seq<char>, node: usize, sel: Seq<char>) -> Seq<usize>;

/// The concatenation of the descendant text nodes of element `node` (`ElementRef::text`).
pub uninterp spec fn html_text(html: Seq<char>, node: usize) -> Seq<char>;

/// The value of attribute `name` of element `node` (`Element::attr`).
pub uninterp spec fn html_attr(html: Seq<char>, node: usize, name: Seq<char>) -> Option<Seq<char>>;

/// The classes of element `node` (`Element::classes`).
pub uninterp spec fn html_classes(html: Seq<char>, node: usize) -> Seq<Seq<char>>;

/// The child nodes of `node` (`NodeRef::children`).
pub uninterp spec fn html_children(html: Seq<char>, node: usize) -> Seq<usize>;

/// The text of `node` when it is a text node (`Node::as_text`).
pub uninterp spec fn html_text_node(html: Seq<char>, node: usize) -> Option<Seq<char>>;

/// Whether `node` is an element (`ElementRef::wrap` succeeds).
pub uninterp spec fn html_is_element(html: Seq<char>, node: usize) -> bool;

/// The preceding siblings of `node`, nearest first (`NodeRef::prev_siblings`).
pub uninterp spec fn html_prev_siblings(html: Seq<char>, node: usize) -> Seq<usize>;

/// `node` followed by its descendants in document order (`NodeRef::descendants`).
pub uninterp spec fn html_descendants(html: Seq<char>, node: usize) -> Seq<usize>;

/// A parsed HTML document; its view is the source text it was parsed from.
pub struct HtmlDoc {
    html: scraper::Html,
    source: Ghost<Seq<char>>,
}

impl View for HtmlDoc {
    type V = Seq<char>;

    closed spec fn view(&self) -> Seq<char> {
        self.source@
    }
}

/// A parsed CSS selector; its view is the selector text.
pub struct Css {
    selector: scraper::Selector,
    source: Ghost<Seq<char>>,
}

impl View for Css {
    type V = Seq<char>;

    closed spec fn view(&self) -> Seq<char> {
        self.source@
    }
}

/// `scraper::Selector::parse`; `None` where it reports an error.
#[verifier::external_body]
pub(crate) fn parse_css(sel: &str) -> (r: Option<Css>)
    ensures
        r is Some <==> css_parses(sel@),
        r matches Some(c) ==> c@ == sel@,
{
    scraper::Selector::parse(sel).ok().map(|selector| Css { selector, source: Ghost(arbitrary()) })
}

/// `scraper::Html::parse_document`.
#[verifier::external_body]
pub(crate) fn parse_html(text: &str) -> (r: HtmlDoc)
    ensures
        r@ == text@,
{
    HtmlDoc { html: scraper::Html::parse_document(text), source: Ghost(arbitrary()) }
}

/// The nodes matching `sel` in document order, or none where `sel` is not a selector.
pub open spec fn select_spec(html: Seq<char>, sel: Seq<char>) -> Seq<usize> {
    if css_parses(sel) { html_select(html, sel) } else { Seq::empty() }
}

/// The nodes below `node` matching `sel`, or none where `sel` is not a selector.
pub open spec fn select_in_spec(html: Seq<char>, node: usize, sel: Seq<char>) -> Seq<usize> {
    if css_parses(sel) { html_select_in(html, node, sel) } else { Seq::empty() }
}

impl HtmlDoc {
    /// `Html::select` with a parsed selector.
    #[verifier::external_body]
    pub(crate) fn select_css(&self, css: &Css) -> (r: Vec<usize>)
        ensures
            r@ == html_select(self@, css@),
    {
        let nodes = || self.html.tree.nodes();
        self.html.select(&css.selector).map(|e| nodes().position(|n| n.id() == e.id()).unwrap_or(usize::MAX)).collect()
    }

    /// The nodes matching the selector text `sel` (none where it does not parse).
    pub fn select(&self, sel: &str) -> (r: Vec<usize>)
        ensures
            r@ == select_spec(self@, sel@),
    {
        match parse_css(sel) {
            Some(css) => self.select_css(&css),
            None => Vec::new(),
        }
    }

    /// `ElementRef::select` on element `node` with a parsed selector.
    #[verifier::external_body]
    pub(crate) fn select_in_css(&self, node: usize, css: &Css) -> (r: Vec<usize>)
        ensures
            r@ == html_select_in(self@, node, css@),
    {
        let nodes = || self.html.tree.nodes();
        match nodes().nth(node).and_then(scraper::ElementRef::wrap) {
            Some(el) => el.select(&css.selector).map(|e| nodes().position(|n| n.id() == e.id()).unwrap_or(usize::MAX)).collect(),
            None => Vec::new(),
        }
    }

    /// The nodes below `node` matching the selector text `sel`.
    pub fn select_in(&self, node: usize, sel: &str) -> (r: Vec<usize>)
        ensures
            r@ == select_in_spec(self@, node, sel@),
    {
        match parse_css(sel) {
            Some(css) => self.select_in_css(node, &css),
            None => Vec::new(),
        }
    }

    /// `ElementRef::text` of element `node`, concatenated.
    #[verifier::external_body]
    pub(crate) fn text(&self, node: usize) -> (r: String)
        ensures
            r@ == html_text(self@, node),
    {
        match self.html.tree.nodes().nth(node).and_then(scraper::ElementRef::wrap) {
            Some(el) => el.text().collect::<Vec<_>>().join(""),
            None => String::new(),
        }
    }

    /// `Element::attr` of element `node`.
    #[verifier::external_body]
    pub(crate) fn attr(&self, node: usize, name: &str) -> (r: Option<String>)
        ensures
            match html_attr(self@, node, name@) {
                Some(v) => r matches Some(s) && s@ == v,
                None => r is None,
            },
    {
        match self.html.tree.nodes().nth(node).and_then(scraper::ElementRef::wrap) {
            Some(el) => el.value().attr(name).map(str::to_string),
            None => None,
        }
    }

    /// `Element::classes` of element `node`.
    #[verifier::external_body]
    pub(crate) fn classes(&self, node: usize) -> (r: Vec<String>)
        ensures
            r@.map_values(|s: String| s@) == html_classes(self@, node),
    {
        match self.html.tree.nodes().nth(node).and_then(scraper::ElementRef::wrap) {
            Some(el) => el.value().classes().map(str::to_string).collect(),
            None => Vec::new(),
        }
    }

    /// `NodeRef::children` of `node`.
    #[verifier::external_body]
    pub(crate) fn children(&self, node: usize) -> (r: Vec<usize>)
        ensures
            r@ == html_children(self@, node),
    {
        let nodes = || self.html.tree.nodes();
        match nodes().nth(node) {
            Some(n) => n.children().map(|c| nodes().position(|m| m.id() == c.id()).unwrap_or(usize::MAX)).collect(),
            None => Vec::new(),
        }
    }

    /// `Node::as_text` of `node`.
    #[verifier::external_body]
    pub(crate) fn text_node(&self, node: usize) -> (r: Option<String>)
        ensures
            match html_text_node(self@, node) {
                Some(v) => r matches Some(s) && s@ == v,
                None => r is None,
            },
    {
        match self.html.tree.nodes().nth(node) {
            Some(n) => n.value().as_text().map(|t| t.to_string()),
            None => None,
        }
    }

    /// Whether `ElementRef::wrap` accepts `node`.
    #[verifier::external_body]
    pub(crate) fn is_element(&self, node: usize) -> (r: bool)
        ensures
            r == html_is_element(self@, node),
    {
        match self.html.tree.nodes().nth(node) {
            Some(n) => scraper::ElementRef::wrap(n).is_some(),
            None => false,
        }
    }

    /// `NodeRef::prev_siblings` of `node`, nearest first.
    #[verifier::external_body]
    pub(crate) fn prev_siblings(&self, node: usize) -> (r: Vec<usize>)
        ensures
            r@ == html_prev_siblings(self@, node),
    {
        let nodes = || self.html.tree.nodes();
        match nodes().nth(node) {
            Some(n) => n.prev_siblings().map(|c| nodes().position(|m| m.id() == c.id()).unwrap_or(usize::MAX)).collect(),
            None => Vec::new(),
        }
    }

    /// `NodeRef::descendants` of `node` (the node itself first).
    #[verifier::external_body]
    pub(crate) fn descendants(&self, node: usize) -> (r: Vec<usize>)
        ensures
            r@ == html_descendants(self@, node),
    {
        let nodes = || self.html.tree.nodes();
        match nodes().nth(node) {
            Some(n) => n.descendants().map(|c| nodes().position(|m| m.id() == c.id()).unwrap_or(usize::MAX)).collect(),
            None => Vec::new(),
        }
    }
}

} // verus!
