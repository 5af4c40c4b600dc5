//! HTML documents as the `scraper` crate parses them, and the plain model of
//! them that extraction reads: an element subtree is the sequence of events
//! of its depth-first traversal, each event opening or closing one node.
//! A parsed document is a function of its source text, and a parsed selector
//! of its CSS text, so every result below is named as a function of those
//! texts.
use ego_tree::iter::Edge;
use scraper::Node;
use vstd::prelude::*;

verus! {

#[verifier::external_type_specification]
#[verifier::external_body]
pub struct ExHtml(scraper::Html);

#[verifier::external_type_specification]
#[verifier::external_body]
pub struct ExSelector(scraper::Selector);

/// One step of a depth-first traversal of an element's subtree. Entering a
/// node gives `Element`, `Text` or `Other`; leaving any node gives `Close`.
pub enum DomEvent {
    /// Entering an element: its local name and attributes (local name, value).
    Element(String, Vec<(String, String)>),
    /// Entering a text node.
    Text(String),
    /// Entering any other node (comment, doctype, processing instruction).
    Other,
    /// Leaving the node entered last and not yet left.
    Close,
}

/// The plain value of a `DomEvent`.
pub enum EventView {
    Element(Seq<char>, Seq<(Seq<char>, Seq<char>)>),
    Text(Seq<char>),
    Other,
    Close,
}

/// The views of attribute pairs.
pub open spec fn attrs_view(a: Seq<(String, String)>) -> Seq<(Seq<char>, Seq<char>)> {
    a.map_values(|p: (String, String)| (p.0@, p.1@))
}

/// The plain value of a traversal event.
pub open spec fn event_view(e: DomEvent) -> EventView {
    match e {
        DomEvent::Element(name, attrs) => EventView::Element(name@, attrs_view(attrs@)),
        DomEvent::Text(t) => EventView::Text(t@),
        DomEvent::Other => EventView::Other,
        DomEvent::Close => EventView::Close,
    }
}

/// The plain values of a sequence of events.
pub open spec fn events_view(v: Seq<DomEvent>) -> Seq<EventView> {
    v.map_values(|e: DomEvent| event_view(e))
}

/// The plain values of several event sequences.
pub open spec fn subtrees_view(v: Seq<Vec<DomEvent>>) -> Seq<Seq<EventView>> {
    v.map_values(|t: Vec<DomEvent>| events_view(t@))
}

/// A document parsed by `scraper`, with the source text it was parsed from.
pub struct HtmlDocument {
    doc: scraper::Html,
    source: String,
}

impl View for HtmlDocument {
    type V = Seq<char>;

    /// The source text of the document.
    closed spec fn view(&self) -> Seq<char> {
        self.source@
    }
}

/// A CSS selector parsed by `scraper`, with its text.
pub struct CssSelector {
    sel: scraper::Selector,
    source: String,
}

impl View for CssSelector {
    type V = Seq<char>;

    /// The CSS text of the selector.
    closed spec fn view(&self) -> Seq<char> {
        self.source@
    }
}

/// Whether `Selector::parse` accepts a CSS text.
pub uninterp spec fn selector_accepted(css: Seq<char>) -> bool;

/// For a document source and a selector text: the elements that
/// `Html::select` yields, in the order it yields them, each as the traversal events of
/// its subtree (the element itself first and last).
pub uninterp spec fn selected_subtrees(source: Seq<char>, css: Seq<char>) -> Seq<Seq<EventView>>;

/// `Html::parse_document`. Claims only that the document keeps the source
/// text it was parsed from.
#[verifier::external_body]
pub(crate) fn parse_html(source: &str) -> (d: HtmlDocument)
    ensures
        d@ == source@,
{
    HtmlDocument { doc: scraper::Html::parse_document(source), source: source.to_string() }
}

/// `Selector::parse`. Claims that it succeeds exactly when
/// `selector_accepted` holds of the CSS text, and that the selector keeps
/// that text.
#[verifier::external_body]
pub(crate) fn parse_selector(css: &str) -> (s: Option<CssSelector>)
    ensures
        s is Some <==> selector_accepted(css@),
        s matches Some(sel) ==> sel@ == css@,
{
    scraper::Selector::parse(css).ok().map(|sel| CssSelector { sel, source: css.to_string() })
}

/// `Html::select`, each matched element converted to the events of
/// `traverse()` over it. Claims that the result is `selected_subtrees` of
/// the document source and the selector text.
#[verifier::external_body]
pub(crate) fn select_subtrees(doc: &HtmlDocument, sel: &CssSelector) -> (v: Vec<Vec<DomEvent>>)
    ensures
        subtrees_view(v@) == selected_subtrees(doc@, sel@),
{
    doc.doc.select(&sel.sel).map(|el| el.traverse().map(|edge| match edge {
        Edge::Close(_) => DomEvent::Close,
        Edge::Open(n) => match n.value() {
            Node::Element(e) => DomEvent::Element(e.name().into(), e.attrs().map(|(k, v)| (k.into(), v.into())).collect()),
            Node::Text(t) => DomEvent::Text(t.to_string()),
            Node::Document | Node::Fragment | Node::Doctype(_) => DomEvent::Other,
            Node::Comment(_) | Node::ProcessingInstruction(_) => DomEvent::Other,
        },
    }).collect()).collect()
}

} // verus!
