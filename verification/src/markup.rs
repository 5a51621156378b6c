//! The elements of a bookmark export that the importer looks at, as plain
//! values, and the two readers that obtain them from the `scraper` crate.

use vstd::prelude::*;

verus! {

/// A link element: its destination attribute, if it has one, and its
/// visible text.
#[derive(Debug, Clone, PartialEq, Eq)]
pub struct Anchor {
    pub href: Option<String>,
    pub text: String,
}

/// What a contract sees of an [`Anchor`].
pub struct AnchorView {
    pub href: Option<Seq<char>>,
    pub text: Seq<char>,
}

impl DeepView for Anchor {
    type V = AnchorView;

    open spec fn deep_view(&self) -> AnchorView {
        AnchorView { href: self.href.deep_view(), text: self.text@ }
    }
}

/// An element that stands before a block: its tag name and its text.
#[derive(Debug, Clone, PartialEq, Eq)]
pub struct Element {
    pub name: String,
    pub text: String,
}

/// What a contract sees of an [`Element`].
pub struct ElementView {
    pub name: Seq<char>,
    pub text: Seq<char>,
}

impl DeepView for Element {
    type V = ElementView;

    open spec fn deep_view(&self) -> ElementView {
        ElementView { name: self.name@, text: self.text@ }
    }
}

/// A folder-content block: the nodes that precede it under the same
/// parent, nearest first (`None` for a node that is no element), and the
/// links that it contains, in document order.
#[derive(Debug, Clone, PartialEq, Eq)]
pub struct Block {
    pub before: Vec<Option<Element>>,
    pub links: Vec<Anchor>,
}

/// What a contract sees of a [`Block`].
pub struct BlockView {
    pub before: Seq<Option<ElementView>>,
    pub links: Seq<AnchorView>,
}

impl DeepView for Block {
    type V = BlockView;

    open spec fn deep_view(&self) -> BlockView {
        BlockView { before: self.before.deep_view(), links: self.links.deep_view() }
    }
}

/// The links that `scraper` finds in the document `html` with the selector
/// `link_css`, each with its attribute `attr`; `None` where `link_css` is no
/// selector.
pub uninterp spec fn markup_links(html: Seq<char>, link_css: Seq<char>, attr: Seq<char>) -> Option<
    Seq<AnchorView>,
>;

/// The blocks that `scraper` finds in the document `html` with the selector
/// `block_css`, each with the links that `link_css` selects below it; `None`
/// where one of the two is no selector.
pub uninterp spec fn markup_blocks(
    html: Seq<char>,
    block_css: Seq<char>,
    link_css: Seq<char>,
    attr: Seq<char>,
) -> Option<Seq<BlockView>>;

/// Parses `html` with `scraper::Html::parse_document` and selects with
/// `scraper::Html::select` the elements that match `link_css`, reading from
/// each the attribute `attr` (`scraper::ElementRef::attr`) and its text
/// (`scraper::ElementRef::text`). The parser and the selection are
/// deterministic, so the contract only gives the result its name; that the
/// result is `None` exactly when `scraper::Selector::parse` refuses
/// `link_css` is part of what the name means.
#[verifier::external_body]
pub(crate) fn read_links(html: &str, link_css: &str, attr: &str) -> (found: Option<Vec<Anchor>>)
    ensures
        found.deep_view() == markup_links(html@, link_css@, attr@),
{
    let links = scraper::Selector::parse(link_css).ok()?;
    let doc = scraper::Html::parse_document(html);
    Some(
        doc.select(&links).map(
            |a| Anchor { href: a.attr(attr).map(String::from), text: a.text().collect() },
        ).collect(),
    )
}

/// Parses `html` with `scraper::Html::parse_document` and selects with
/// `scraper::Html::select` the elements that match `block_css`. Of each it
/// reads the preceding siblings (`prev_siblings` of `ego_tree::NodeRef`,
/// nearest first), keeping of those that `scraper::ElementRef::wrap` accepts
/// the tag name and the text, and the links that
/// `scraper::ElementRef::select` finds below it with `link_css`. The
/// contract only gives the result its name.
#[verifier::external_body]
pub(crate) fn read_blocks(html: &str, block_css: &str, link_css: &str, attr: &str) -> (found: Option<
    Vec<Block>,
>)
    ensures
        found.deep_view() == markup_blocks(html@, block_css@, link_css@, attr@),
{
    let blocks = scraper::Selector::parse(block_css).ok()?;
    let links = scraper::Selector::parse(link_css).ok()?;
    let doc = scraper::Html::parse_document(html);
    let element = |e: scraper::ElementRef| Element { name: e.value().name().into(), text: e.text().collect() };
    Some(
        doc.select(&blocks).map(
            |b| Block {
                before: b.prev_siblings().map(|n| scraper::ElementRef::wrap(n).map(element)).collect(),
                links: b.select(&links).map(
                    |a| Anchor { href: a.attr(attr).map(String::from), text: a.text().collect() },
                ).collect(),
            },
        ).collect(),
    )
}

} // verus!
