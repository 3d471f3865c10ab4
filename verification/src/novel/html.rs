//! Access to parsed HTML through `scraper`.
//!
//! `scraper`'s documents, selectors and element references show nothing of
//! what they hold to a specification, so each value that this module hands
//! out carries, as ghost data,
//! where it comes from: a document the text it was parsed from, a selector
//! its text, and an element the document and the steps that reached it from
//! the document (see [`Step`]). Parsing and matching are functions of these
//! alone, so what `scraper` computes is named below by spec functions over
//! them, and the wrappers state their results through those names.
use vstd::prelude::*;

verus! {

#[verifier::external_type_specification]
#[verifier::external_body]
pub struct ExHtml(scraper::Html);

#[verifier::external_type_specification]
#[verifier::external_body]
pub struct ExSelector(scraper::Selector);

#[verifier::external_type_specification]
#[verifier::external_body]
pub struct ExElementRef<'a>(scraper::ElementRef<'a>);

#[verifier::external_type_specification]
#[verifier::external_body]
pub struct ExElement(scraper::node::Element);

/// One step from a document or an element to another element: a kind, a
/// selector's text and a position, counted from zero. Kind `SELECT` is the
/// `index`-th match of the selector (among the document's elements when it
/// is the first step, among the element's descendants otherwise), kind
/// `CHILD` the `index`-th child element and kind `DESCENDANT` the
/// `index`-th of the element and its descendants; the last two carry an
/// empty selector.
pub type Step = (u8, Seq<char>, nat);

/// The kind of step that takes the matches of a selector.
pub const SELECT: u8 = 0;

/// The kind of step that takes a child element.
pub const CHILD: u8 = 1;

/// The kind of step that takes a descendant element.
pub const DESCENDANT: u8 = 2;

/// Whether `scraper::Selector::parse` accepts `text`.
pub uninterp spec fn selector_parses(text: Seq<char>) -> bool;

/// How many elements of the document parsed from `page` (as a fragment
/// when `fragment` holds) `scraper::Html::select` yields for `selector`.
pub uninterp spec fn document_matches(page: Seq<char>, fragment: bool, selector: Seq<char>) -> nat;

/// How many elements `scraper::ElementRef::select` yields for `selector`
/// below the element that `path` reaches in that document.
pub uninterp spec fn element_matches(
    page: Seq<char>,
    fragment: bool,
    path: Seq<Step>,
    selector: Seq<char>,
) -> nat;

/// How many child elements `scraper::ElementRef::child_elements` yields for
/// the element that `path` reaches.
pub uninterp spec fn child_count(page: Seq<char>, fragment: bool, path: Seq<Step>) -> nat;

/// How many elements `scraper::ElementRef::descendent_elements` yields for
/// the element that `path` reaches.
pub uninterp spec fn descendant_count(page: Seq<char>, fragment: bool, path: Seq<Step>) -> nat;

/// The value of attribute `name` of the element that `path` reaches, as
/// `scraper::ElementRef::attr` gives it.
pub uninterp spec fn attribute(
    page: Seq<char>,
    fragment: bool,
    path: Seq<Step>,
    name: Seq<char>,
) -> Option<Seq<char>>;

/// The HTML inside the element that `path` reaches, as
/// `scraper::ElementRef::inner_html` gives it.
pub uninterp spec fn inner_html(page: Seq<char>, fragment: bool, path: Seq<Step>) -> Seq<char>;

/// The text nodes below the element that `path` reaches, in the order of
/// `scraper`'s tree traversal,
/// as `scraper::ElementRef::text` yields them.
pub uninterp spec fn text_nodes(page: Seq<char>, fragment: bool, path: Seq<Step>) -> Seq<
    Seq<char>,
>;

/// The tag name of the element that `path` reaches, as
/// `scraper::node::Element::name` gives it.
pub uninterp spec fn tag_name(page: Seq<char>, fragment: bool, path: Seq<Step>) -> Seq<char>;

/// A parsed HTML document, with the text it was parsed from.
pub struct Document {
    html: scraper::Html,
    page: Ghost<Seq<char>>,
    fragment: Ghost<bool>,
}

impl Document {
    /// The text the document was parsed from.
    pub closed spec fn spec_page(&self) -> Seq<char> {
        self.page@
    }

    /// Whether it was parsed as a fragment.
    pub closed spec fn spec_fragment(&self) -> bool {
        self.fragment@
    }
}

/// A parsed CSS selector, with its text.
pub struct CssSelector {
    inner: scraper::Selector,
    text: Ghost<Seq<char>>,
}

impl CssSelector {
    /// The text the selector was parsed from.
    pub closed spec fn spec_text(&self) -> Seq<char> {
        self.text@
    }
}

/// An element of a parsed document, with the way it was reached.
pub struct PageElement<'a> {
    inner: scraper::ElementRef<'a>,
    page: Ghost<Seq<char>>,
    fragment: Ghost<bool>,
    path: Ghost<Seq<Step>>,
}

impl<'a> PageElement<'a> {
    /// The text of its document.
    pub closed spec fn spec_page(&self) -> Seq<char> {
        self.page@
    }

    /// Whether its document was parsed as a fragment.
    pub closed spec fn spec_fragment(&self) -> bool {
        self.fragment@
    }

    /// The steps that reached it from its document.
    pub closed spec fn spec_path(&self) -> Seq<Step> {
        self.path@
    }
}

/// The element node of an element, with the way the element was reached.
pub struct NodeValue<'a> {
    inner: &'a scraper::node::Element,
    page: Ghost<Seq<char>>,
    fragment: Ghost<bool>,
    path: Ghost<Seq<Step>>,
}

impl<'a> NodeValue<'a> {
    /// The text of the element's document.
    pub closed spec fn spec_page(&self) -> Seq<char> {
        self.page@
    }

    /// Whether the element's document was parsed as a fragment.
    pub closed spec fn spec_fragment(&self) -> bool {
        self.fragment@
    }

    /// The steps that reached the element from its document.
    pub closed spec fn spec_path(&self) -> Seq<Step> {
        self.path@
    }
}

/// Whether the elements `r` are those that the step of kind `kind` with
/// `selector` yields from `path` in `page`, `count` of them in order.
pub open spec fn reached<'a>(
    r: Seq<PageElement<'a>>,
    page: Seq<char>,
    fragment: bool,
    path: Seq<Step>,
    kind: u8,
    selector: Seq<char>,
    count: nat,
) -> bool {
    &&& r.len() == count
    &&& forall|i: int|
        0 <= i < r.len() ==> {
            &&& (#[trigger] r[i]).spec_page() == page
            &&& r[i].spec_fragment() == fragment
            &&& r[i].spec_path() == path.push((kind, selector, i as nat))
        }
}

/// The text of a selector that parsed; `None` for one that did not.
pub open spec fn selector_text(selector: Option<CssSelector>) -> Option<Seq<char>> {
    match selector {
        Some(s) => Some(s.spec_text()),
        None => None,
    }
}

/// What parsing `text` as a selector leaves: the text, when it parses.
pub open spec fn parsed_selector(text: Seq<char>) -> Option<Seq<char>> {
    if selector_parses(text) {
        Some(text)
    } else {
        None
    }
}

/// The HTML inside the first element of the document parsed from `page`
/// that `selector` matches; `None` when the selector does not parse or
/// matches nothing.
pub open spec fn first_match_html(page: Seq<char>, fragment: bool, selector: Seq<char>) -> Option<
    Seq<char>,
> {
    if selector_parses(selector) && document_matches(page, fragment, selector) > 0 {
        Some(inner_html(page, fragment, seq![(SELECT, selector, 0nat)]))
    } else {
        None
    }
}

/// Parses a whole HTML document through `scraper::Html::parse_document`.
#[verifier::external_body]
pub(crate) fn parse_document(text: &str) -> (r: Document)
    ensures
        r.spec_page() == text@,
        !r.spec_fragment(),
{
    Document { html: scraper::Html::parse_document(text), page: Ghost(text@), fragment: Ghost(false) }
}

/// Parses an HTML fragment through `scraper::Html::parse_fragment`.
#[verifier::external_body]
pub(crate) fn parse_fragment(text: &str) -> (r: Document)
    ensures
        r.spec_page() == text@,
        r.spec_fragment(),
{
    Document { html: scraper::Html::parse_fragment(text), page: Ghost(text@), fragment: Ghost(true) }
}

/// Parses a CSS selector through `scraper::Selector::parse`; `None` when
/// the selector is invalid.
#[verifier::external_body]
pub(crate) fn parse_selector(text: &str) -> (r: Option<CssSelector>)
    ensures
        r is Some <==> selector_parses(text@),
        r matches Some(s) ==> s.spec_text() == text@,
{
    match scraper::Selector::parse(text) {
        Ok(inner) => Some(CssSelector { inner, text: Ghost(text@) }),
        Err(_) => None,
    }
}

/// The elements of a document that match `selector`, in the order of
/// `scraper`'s tree traversal,
/// through `scraper::Html::select`.
#[verifier::external_body]
pub(crate) fn select_in_document<'a>(document: &'a Document, selector: &CssSelector) -> (r: Vec<
    PageElement<'a>,
>)
    ensures
        reached(
            r@,
            document.spec_page(),
            document.spec_fragment(),
            Seq::empty(),
            SELECT,
            selector.spec_text(),
            document_matches(document.spec_page(), document.spec_fragment(), selector.spec_text()),
        ),
{
    let mut r = Vec::new();
    for (i, inner) in document.html.select(&selector.inner).enumerate() {
        r.push(PageElement { inner, page: document.page, fragment: document.fragment, path: Ghost(seq![(SELECT, selector.text@, i as nat)]) });
    }
    r
}

/// The descendants of `element` that match `selector`, in the order of
/// `scraper`'s tree traversal,
/// through `scraper::ElementRef::select`.
#[verifier::external_body]
pub(crate) fn select_in_element<'a>(element: &PageElement<'a>, selector: &CssSelector) -> (r: Vec<
    PageElement<'a>,
>)
    ensures
        reached(
            r@,
            element.spec_page(),
            element.spec_fragment(),
            element.spec_path(),
            SELECT,
            selector.spec_text(),
            element_matches(element.spec_page(), element.spec_fragment(), element.spec_path(), selector.spec_text()),
        ),
{
    let mut r = Vec::new();
    for (i, inner) in element.inner.select(&selector.inner).enumerate() {
        r.push(PageElement { inner, page: element.page, fragment: element.fragment, path: Ghost(element.path@.push((SELECT, selector.text@, i as nat))) });
    }
    r
}

/// The child elements of `element`, through
/// `scraper::ElementRef::child_elements`.
#[verifier::external_body]
pub(crate) fn element_children<'a>(element: &PageElement<'a>) -> (r: Vec<PageElement<'a>>)
    ensures
        reached(
            r@,
            element.spec_page(),
            element.spec_fragment(),
            element.spec_path(),
            CHILD,
            Seq::empty(),
            child_count(element.spec_page(), element.spec_fragment(), element.spec_path()),
        ),
{
    let mut r = Vec::new();
    for (i, inner) in element.inner.child_elements().enumerate() {
        r.push(PageElement { inner, page: element.page, fragment: element.fragment, path: Ghost(element.path@.push((CHILD, Seq::empty(), i as nat))) });
    }
    r
}

/// `element` and the elements below it, in the order of `scraper`'s tree
/// traversal, through
/// `scraper::ElementRef::descendent_elements`: its traversal opens at
/// `element` itself, so there is at least one.
#[verifier::external_body]
pub(crate) fn element_descendants<'a>(element: &PageElement<'a>) -> (r: Vec<PageElement<'a>>)
    ensures
        reached(
            r@,
            element.spec_page(),
            element.spec_fragment(),
            element.spec_path(),
            DESCENDANT,
            Seq::empty(),
            descendant_count(element.spec_page(), element.spec_fragment(), element.spec_path()),
        ),
        r@.len() >= 1,
{
    let mut r = Vec::new();
    for (i, inner) in element.inner.descendent_elements().enumerate() {
        r.push(PageElement { inner, page: element.page, fragment: element.fragment, path: Ghost(element.path@.push((DESCENDANT, Seq::empty(), i as nat))) });
    }
    r
}

/// The value of attribute `name` of `element`, through
/// `scraper::ElementRef::attr`.
#[verifier::external_body]
pub(crate) fn element_attr<'a>(element: &PageElement<'a>, name: &str) -> (r: Option<&'a str>)
    ensures
        match r {
            Some(v) => attribute(element.spec_page(), element.spec_fragment(), element.spec_path(), name@) == Some(v@),
            None => attribute(element.spec_page(), element.spec_fragment(), element.spec_path(), name@) is None,
        },
{
    element.inner.attr(name)
}

/// The HTML inside `element`, through `scraper::ElementRef::inner_html`.
#[verifier::external_body]
pub(crate) fn element_inner_html(element: &PageElement) -> (r: String)
    ensures
        r@ == inner_html(element.spec_page(), element.spec_fragment(), element.spec_path()),
{
    element.inner.inner_html()
}

/// The text nodes below `element`, in the order of `scraper`'s tree
/// traversal, through
/// `scraper::ElementRef::text`.
#[verifier::external_body]
pub(crate) fn element_texts<'a>(element: &PageElement<'a>) -> (r: Vec<&'a str>)
    ensures
        r@.map_values(|t: &str| t@) == text_nodes(element.spec_page(), element.spec_fragment(), element.spec_path()),
{
    element.inner.text().collect()
}

/// The element node of `element`, through `scraper::ElementRef::value`.
#[verifier::external_body]
pub(crate) fn element_value<'a>(element: &PageElement<'a>) -> (r: NodeValue<'a>)
    ensures
        r.spec_page() == element.spec_page(),
        r.spec_fragment() == element.spec_fragment(),
        r.spec_path() == element.spec_path(),
{
    NodeValue { inner: element.inner.value(), page: element.page, fragment: element.fragment, path: element.path }
}

/// The tag name of an element, through `scraper::node::Element::name`.
#[verifier::external_body]
pub(crate) fn element_name<'a>(value: &NodeValue<'a>) -> (r: &'a str)
    ensures
        r@ == tag_name(value.spec_page(), value.spec_fragment(), value.spec_path()),
{
    value.inner.name()
}

/// The elements of `document` that `selector` matches; none without a
/// selector.
pub(crate) fn select_all<'a>(document: &'a Document, selector: &Option<CssSelector>) -> (r: Vec<PageElement<'a>>)
    ensures
        match selector {
            Some(s) => reached(
                r@,
                document.spec_page(),
                document.spec_fragment(),
                Seq::empty(),
                SELECT,
                s.spec_text(),
                document_matches(document.spec_page(), document.spec_fragment(), s.spec_text()),
            ),
            None => r@.len() == 0,
        },
{
    match selector {
        Some(s) => select_in_document(document, s),
        None => Vec::new(),
    }
}

} // verus!
