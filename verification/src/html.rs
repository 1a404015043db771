//! HTML documents, parsed by `scraper` (html5ever). A query hands back, for
//! each element that a CSS selector matches, the plain facts that page
//! analysis reads.

use vstd::prelude::*;

verus! {

#[verifier::external_type_specification]
#[verifier::external_body]
pub struct ExHtml(scraper::Html);

/// A parsed HTML document and the text it was parsed from.
pub struct Document {
    doc: scraper::Html,
    source: Ghost<Seq<char>>,
}

/// A text node below a selected element, with the tag names of all its
/// ancestors, nearest first (`None` for a node that is not an element).
pub struct TextPiece {
    pub text: String,
    pub ancestors: Vec<Option<String>>,
}

/// A selected element: the values of the requested attributes, in the order
/// asked for; its descendant nodes in document order (`None` for a node that
/// is not text); and its number of ancestors.
pub struct ElementFacts {
    pub attrs: Vec<Option<String>>,
    pub nodes: Vec<Option<TextPiece>>,
    pub depth: usize,
}

/// Plain view of an element's facts.
pub type FactsView = (Seq<Option<Seq<char>>>, Seq<Option<(Seq<char>, Seq<Option<Seq<char>>>)>>, nat);

pub open spec fn opt_view(o: Option<String>) -> Option<Seq<char>> {
    match o {
        Some(s) => Some(s@),
        None => None,
    }
}

pub open spec fn piece_view(p: Option<TextPiece>) -> Option<(Seq<char>, Seq<Option<Seq<char>>>)> {
    match p {
        Some(t) => Some((t.text@, t.ancestors@.map_values(|a: Option<String>| opt_view(a)))),
        None => None,
    }
}

pub open spec fn facts_view(f: ElementFacts) -> FactsView {
    (
        f.attrs@.map_values(|a: Option<String>| opt_view(a)),
        f.nodes@.map_values(|p: Option<TextPiece>| piece_view(p)),
        f.depth as nat,
    )
}

/// The facts of every element that `selector` matches in the document parsed
/// from `source`, in the order `scraper::Html::select` yields them, with the
/// attributes named in `attrs`. Empty when the selector does not parse.
pub uninterp spec fn html_select(
    source: Seq<char>,
    selector: Seq<char>,
    attrs: Seq<Seq<char>>,
) -> Seq<FactsView>;

impl Document {
    /// The text the document was parsed from.
    pub closed spec fn source(&self) -> Seq<char> {
        self.source@
    }
}

/// Parses an HTML document. Trusted: `scraper::Html::parse_document`, which
/// never fails; the contract records the text it was given.
#[verifier::external_body]
pub(crate) fn parse_document(body: &str) -> (d: Document)
    ensures
        d.source() == body@,
{
    Document { doc: scraper::Html::parse_document(body), source: Ghost(body@) }
}

/// The facts of the elements that `selector` matches. Trusted:
/// `scraper::Selector::parse` and `scraper::Html::select`, each match turned
/// into plain values with `ElementRef::attr`, `descendants` and `ancestors`;
/// the contract only names the result.
#[verifier::external_body]
pub(crate) fn select(doc: &Document, selector: &str, attrs: &Vec<String>) -> (r: Vec<ElementFacts>)
    ensures
        r@.map_values(|f: ElementFacts| facts_view(f)) == html_select(
            doc.source(),
            selector@,
            attrs@.map_values(|a: String| a@),
        ),
{
    let Ok(sel) = scraper::Selector::parse(selector) else { return Vec::new() };
    doc.doc.select(&sel).map(|e| ElementFacts {
        attrs: attrs.iter().map(|a| e.attr(a).map(Into::into)).collect(),
        nodes: e.descendants().map(|n| n.value().as_text().map(|t| TextPiece {
            text: t.to_string(),
            ancestors: n.ancestors().map(|a| a.value().as_element().map(|x| x.name().into())).collect(),
        })).collect(),
        depth: e.ancestors().count(),
    }).collect()
}

} // verus!
