//! The parts of `scraper` that the search page reader calls.
//!
//! A parsed page is known by the text it was parsed from. An element of the
//! page is known by its path: the first step names a selector and the index
//! of the element among that selector's matches in the document (in the order
//! `scraper::Html::select` yields them); each further step names a selector and
//! an index among its matches below the previous element (in the order
//! `scraper::ElementRef::select` yields them). What `scraper` answers for a page
//! and a path depends on the page text, the path and the query alone; those
//! answers are named below and are not spelt out, since they follow the HTML
//! parsing and CSS matching rules that `scraper` implements.

use vstd::prelude::*;

use crate::text::texts_of;

verus! {

/// The CSS selector type of `scraper`.
#[verifier::external_type_specification]
#[verifier::external_body]
pub struct ExSelector(scraper::Selector);

/// The HTML document type of `scraper`.
#[verifier::external_type_specification]
#[verifier::external_body]
pub struct ExHtml(scraper::Html);

/// A reference to an element of a `scraper` document.
#[verifier::external_type_specification]
#[verifier::external_body]
pub struct ExElementRef<'a>(scraper::ElementRef<'a>);

/// Where an element stands in a page: pairs of a selector and a match index.
pub type ElementPath = Seq<(Seq<char>, nat)>;

/// Whether `scraper::Selector::parse` accepts a selector group.
pub uninterp spec fn css_selector_parses(selector: Seq<char>) -> bool;

/// How many elements `scraper::Html::select` yields for a selector on the
/// document parsed from `source`.
pub uninterp spec fn html_document_select(source: Seq<char>, selector: Seq<char>) -> nat;

/// How many elements `scraper::ElementRef::select` yields for a selector below
/// the element at `path`.
pub uninterp spec fn html_element_select(
    source: Seq<char>,
    path: ElementPath,
    selector: Seq<char>,
) -> nat;

/// The classes that `scraper::node::Element::classes` yields for the element at `path`.
pub uninterp spec fn html_element_classes(source: Seq<char>, path: ElementPath) -> Seq<Seq<char>>;

/// What `scraper::ElementRef::attr` gives for an attribute of the element at `path`.
pub uninterp spec fn html_element_attr(
    source: Seq<char>,
    path: ElementPath,
    name: Seq<char>,
) -> Option<Seq<char>>;

/// The concatenated text nodes that `scraper::ElementRef::text` yields for the
/// element at `path`.
pub uninterp spec fn html_element_text(source: Seq<char>, path: ElementPath) -> Seq<char>;

/// A parsed CSS selector group, with the text it was parsed from.
pub struct CssSelector {
    selector: scraper::Selector,
    text: Ghost<Seq<char>>,
}

impl CssSelector {
    /// The text this selector was parsed from.
    pub closed spec fn text(&self) -> Seq<char> {
        self.text@
    }

    /// `scraper::Selector::parse`: a selector when `text` is a valid selector
    /// group, nothing otherwise.
    #[verifier::external_body]
    pub fn parse(text: &str) -> (parsed: Option<CssSelector>)
        ensures
            parsed is Some <==> css_selector_parses(text@),
            parsed matches Some(selector) ==> selector.text() == text@,
    {
        scraper::Selector::parse(text).ok().map(|selector| CssSelector { selector, text: Ghost(text@) })
    }
}

/// An HTML document, with the text it was parsed from.
pub struct HtmlPage {
    doc: scraper::Html,
    source: Ghost<Seq<char>>,
}

impl HtmlPage {
    /// The text this document was parsed from.
    pub closed spec fn source(&self) -> Seq<char> {
        self.source@
    }

    /// `scraper::Html::parse_document`.
    #[verifier::external_body]
    pub fn parse(html: &str) -> (page: HtmlPage)
        ensures
            page.source() == html@,
    {
        HtmlPage { doc: scraper::Html::parse_document(html), source: Ghost(html@) }
    }

    /// `scraper::Html::select`: the matching elements of the document, in the
    /// order the iterator yields them.
    #[verifier::external_body]
    pub fn select<'a>(&'a self, selector: &CssSelector) -> (found: Vec<PageElement<'a>>)
        ensures
            found.len() == html_document_select(self.source(), selector.text()),
            forall|i: int|
                0 <= i < found.len() ==> (#[trigger] found[i]).source() == self.source()
                    && found[i].path() == seq![(selector.text(), i as nat)],
    {
        let source = self.source;
        self.doc.select(&selector.selector).enumerate().map(
            |(i, element)| PageElement {
                element,
                source,
                path: Ghost(seq![(selector.text@, i as nat)]),
            },
        ).collect()
    }
}

/// An element of a parsed document, with its page text and its path.
pub struct PageElement<'a> {
    element: scraper::ElementRef<'a>,
    source: Ghost<Seq<char>>,
    path: Ghost<ElementPath>,
}

impl<'a> PageElement<'a> {
    /// The text of the page this element belongs to.
    pub closed spec fn source(&self) -> Seq<char> {
        self.source@
    }

    /// Where this element stands in its page.
    pub closed spec fn path(&self) -> ElementPath {
        self.path@
    }

    /// The first element that `scraper::ElementRef::select` yields below this one.
    #[verifier::external_body]
    pub fn first_match(&self, selector: &CssSelector) -> (found: Option<PageElement<'a>>)
        ensures
            found is Some <==> html_element_select(self.source(), self.path(), selector.text()) > 0,
            found matches Some(element) ==> element.source() == self.source() && element.path()
                == self.path().push((selector.text(), 0nat)),
    {
        let source = self.source;
        let path = self.path;
        self.element.select(&selector.selector).next().map(
            |element| PageElement {
                element,
                source,
                path: Ghost(path@.push((selector.text@, 0nat))),
            },
        )
    }

    /// `scraper::node::Element::classes` of this element.
    #[verifier::external_body]
    pub fn classes(&self) -> (classes: Vec<String>)
        ensures
            texts_of(classes@) == html_element_classes(
                self.source(),
                self.path(),
            ),
    {
        self.element.value().classes().map(|class| class.to_string()).collect()
    }

    /// `scraper::ElementRef::attr`.
    #[verifier::external_body]
    pub fn attr(&self, name: &str) -> (value: Option<String>)
        ensures
            value is Some <==> html_element_attr(self.source(), self.path(), name@) is Some,
            value matches Some(v) ==> v@ == html_element_attr(
                self.source(),
                self.path(),
                name@,
            )->Some_0,
    {
        self.element.attr(name).map(|value| value.to_string())
    }

    /// `scraper::ElementRef::text`, concatenated.
    #[verifier::external_body]
    pub fn text(&self) -> (text: String)
        ensures
            text@ == html_element_text(self.source(), self.path()),
    {
        self.element.text().collect()
    }
}

} // verus!
