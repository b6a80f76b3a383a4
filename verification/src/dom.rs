//! Trusted bridge to the `scraper` crate: selector validation and element
//! queries against a parsed HTML document. Everything the extractor and the
//! cleaner learn about a document comes through the two query functions
//! here, as a function of the document source and the selector strings.

use vstd::prelude::*;

verus! {

/// A CSS selector string that `scraper::Selector::parse` accepts.
pub uninterp spec fn sel_ok(sel: Seq<char>) -> bool;

/// The serialized HTML of each element of the document parsed from `doc`
/// that matches the selector `sel`, in document order.
pub uninterp spec fn doc_matches(doc: Seq<char>, sel: Seq<char>) -> Seq<Seq<char>>;

/// The facts about one matched element that the extractor reads.
pub struct ElemFacts {
    /// The element's serialized HTML.
    pub html: String,
    /// The concatenation of the element's visible text nodes.
    pub text: String,
    /// The element's `class` attribute, if present.
    pub class_attr: Option<String>,
    /// The element's `id` attribute, if present.
    pub id_attr: Option<String>,
    /// How many descendant elements match the paragraph sub-selector.
    pub para_count: usize,
    /// The visible text of each descendant matching the anchor
    /// sub-selector, in document order.
    pub anchor_texts: Vec<String>,
}

/// Specification-level image of [`ElemFacts`].
pub struct ElemFactsV {
    pub html: Seq<char>,
    pub text: Seq<char>,
    pub class_attr: Option<Seq<char>>,
    pub id_attr: Option<Seq<char>>,
    pub para_count: int,
    pub anchor_texts: Seq<Seq<char>>,
}

impl DeepView for ElemFacts {
    type V = ElemFactsV;

    open spec fn deep_view(&self) -> ElemFactsV {
        ElemFactsV {
            html: self.html@,
            text: self.text@,
            class_attr: self.class_attr.deep_view(),
            id_attr: self.id_attr.deep_view(),
            para_count: self.para_count as int,
            anchor_texts: self.anchor_texts.deep_view(),
        }
    }
}

/// The facts for every element of `doc` matching `sel`, in document order;
/// `psel` and `asel` are the sub-selectors behind the paragraph count and
/// the anchor texts.
pub uninterp spec fn elem_facts(
    doc: Seq<char>,
    sel: Seq<char>,
    psel: Seq<char>,
    asel: Seq<char>,
) -> Seq<ElemFactsV>;

/// Relies on `scraper::Selector::parse`: whether a selector string is
/// syntactically valid, a property of the string alone.
#[verifier::external_body]
pub(crate) fn selector_is_valid(sel: &str) -> (r: bool)
    ensures
        r == sel_ok(sel@),
{
    scraper::Selector::parse(sel).is_ok()
}

/// Relies on `scraper::Html::parse_document`, `scraper::Selector::parse`,
/// `scraper::Html::select` and `scraper::ElementRef::html`.
#[verifier::external_body]
pub(crate) fn select_html(doc: &str, sel: &str) -> (r: Vec<String>)
    requires
        sel_ok(sel@),
    ensures
        r.deep_view() == doc_matches(doc@, sel@),
{
    let parsed = scraper::Html::parse_document(doc);
    let selector = scraper::Selector::parse(sel).unwrap();
    parsed.select(&selector).map(|e| e.html()).collect()
}

/// Relies on `scraper::Html::parse_document`, `scraper::Selector::parse`,
/// `scraper::Html::select`, `scraper::ElementRef::{html, text, attr,
/// select}`: per matched element, its serialization, visible text,
/// `class` and `id` attributes, paragraph count and anchor texts.
#[verifier::external_body]
pub(crate) fn select_facts(doc: &str, sel: &str, psel: &str, asel: &str) -> (r: Vec<ElemFacts>)
    requires
        sel_ok(sel@),
        sel_ok(psel@),
        sel_ok(asel@),
    ensures
        r.deep_view() == elem_facts(doc@, sel@, psel@, asel@),
{
    let parsed = scraper::Html::parse_document(doc);
    let selector = scraper::Selector::parse(sel).unwrap();
    let pselector = scraper::Selector::parse(psel).unwrap();
    let aselector = scraper::Selector::parse(asel).unwrap();
    parsed.select(&selector).map(|e| ElemFacts {
        html: e.html(),
        text: e.text().collect(),
        class_attr: e.attr("class").map(|v| v.to_string()),
        id_attr: e.attr("id").map(|v| v.to_string()),
        para_count: e.select(&pselector).count(),
        anchor_texts: e.select(&aselector).map(|a| a.text().collect()).collect(),
    }).collect()
}

} // verus!
