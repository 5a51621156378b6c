//! From the elements of a bookmark export to an ordered list of bookmark
//! records, each with the name of the folder that it was found in.

use crate::markup::{read_blocks, read_links, markup_blocks, markup_links};
use crate::markup::{Anchor, AnchorView, Block, BlockView, Element, ElementView};
use vstd::prelude::*;

verus! {

/// A bookmark found in an export, before it is stored.
#[derive(Debug, Clone, PartialEq, Eq)]
pub struct ParsedBookmark {
    pub title: String,
    pub url: String,
    pub folder: Option<String>,
}

/// What a contract sees of a [`ParsedBookmark`].
pub struct ParsedBookmarkView {
    pub title: Seq<char>,
    pub url: Seq<char>,
    pub folder: Option<Seq<char>>,
}

impl DeepView for ParsedBookmark {
    type V = ParsedBookmarkView;

    open spec fn deep_view(&self) -> ParsedBookmarkView {
        ParsedBookmarkView { title: self.title@, url: self.url@, folder: self.folder.deep_view() }
    }
}

/// The prefix that marks an absolute web link.
pub open spec fn http_marker() -> Seq<char> {
    "http"@
}

/// The tag of the heading that names a folder.
pub open spec fn heading_tag() -> Seq<char> {
    "h3"@
}

/// Whether a URL is kept: it starts with the marker.
pub open spec fn qualifies(url: Seq<char>) -> bool {
    http_marker().is_prefix_of(url)
}

/// The URL of a link: its destination, or the empty text where it has none.
pub open spec fn link_url(a: AnchorView) -> Seq<char> {
    match a.href {
        Some(h) => h,
        None => Seq::empty(),
    }
}

/// The title of a link: its visible text, or its URL where the text is empty.
pub open spec fn link_title(a: AnchorView) -> Seq<char> {
    if a.text.len() == 0 {
        link_url(a)
    } else {
        a.text
    }
}

/// The record that a link gives in a folder.
pub open spec fn bookmark_of(a: AnchorView, folder: Option<Seq<char>>) -> ParsedBookmarkView {
    ParsedBookmarkView { title: link_title(a), url: link_url(a), folder }
}

/// The folder that a block belongs to: the text of the nearest heading among
/// the nodes before it, `None` where there is no heading among them.
pub open spec fn folder_name(before: Seq<Option<ElementView>>) -> Option<Seq<char>>
    decreases before.len(),
{
    if before.len() == 0 {
        None
    } else {
        match before[0] {
            Some(e) if e.name == heading_tag() => Some(e.text),
            _ => folder_name(before.drop_first()),
        }
    }
}

/// The records of the qualifying links among `links`, in order, all in `folder`.
pub open spec fn block_bookmarks(links: Seq<AnchorView>, folder: Option<Seq<char>>) -> Seq<
    ParsedBookmarkView,
>
    decreases links.len(),
{
    if links.len() == 0 {
        Seq::empty()
    } else {
        let before = block_bookmarks(links.drop_last(), folder);
        if qualifies(link_url(links.last())) {
            before.push(bookmark_of(links.last(), folder))
        } else {
            before
        }
    }
}

/// The records of all blocks, block after block.
pub open spec fn foldered(blocks: Seq<BlockView>) -> Seq<ParsedBookmarkView>
    decreases blocks.len(),
{
    if blocks.len() == 0 {
        Seq::empty()
    } else {
        foldered(blocks.drop_last()) + block_bookmarks(
            blocks.last().links,
            folder_name(blocks.last().before),
        )
    }
}

/// Whether some record of `found` has the URL `url`.
pub open spec fn has_url(found: Seq<ParsedBookmarkView>, url: Seq<char>) -> bool {
    exists|i: int| 0 <= i < found.len() && (#[trigger] found[i]).url == url
}

/// `found`, followed by a folder-less record for each qualifying link of
/// `links` whose URL no record before it has.
pub open spec fn with_unfiled(found: Seq<ParsedBookmarkView>, links: Seq<AnchorView>) -> Seq<
    ParsedBookmarkView,
>
    decreases links.len(),
{
    if links.len() == 0 {
        found
    } else {
        let before = with_unfiled(found, links.drop_last());
        let url = link_url(links.last());
        if qualifies(url) && !has_url(before, url) {
            before.push(bookmark_of(links.last(), None))
        } else {
            before
        }
    }
}

/// The records of a document with the given blocks and links: those of the
/// blocks first, then the unfiled ones.
pub open spec fn bookmarks_of(blocks: Seq<BlockView>, links: Seq<AnchorView>) -> Seq<
    ParsedBookmarkView,
> {
    with_unfiled(foldered(blocks), links)
}

/// Tests a URL for the marker.
pub fn has_http_prefix(url: &str) -> (kept: bool)
    ensures
        kept == qualifies(url@),
{
    proof {
        reveal_strlit("http");
    }
    let mut rest = url.chars();
    let c0 = rest.next();
    let c1 = rest.next();
    let c2 = rest.next();
    let c3 = rest.next();
    proof {
        let m = http_marker();
        assert(m.len() == 4 && m[0] == 'h' && m[1] == 't' && m[2] == 't' && m[3] == 'p');
        if m.is_prefix_of(url@) {
            let head = url@.subrange(0, 4);
            assert(head[0] == m[0] && head[1] == m[1] && head[2] == m[2] && head[3] == m[3]);
        }
    }
    match (c0, c1, c2, c3) {
        (Some(a), Some(b), Some(c), Some(d)) => {
            let kept = a == 'h' && b == 't' && c == 't' && d == 'p';
            assert(kept ==> url@.subrange(0, 4) =~= http_marker());
            kept
        },
        _ => {
            assert(url@.len() < 4);
            false
        },
    }
}

/// The folder that a block belongs to.
pub fn block_folder(before: &Vec<Option<Element>>) -> (folder: Option<String>)
    ensures
        folder.deep_view() == folder_name(before.deep_view()),
{
    let heading = "h3".to_owned();
    let mut i: usize = 0;
    assert(before.deep_view().skip(0) =~= before.deep_view());
    while i < before.len()
        invariant
            i <= before.len(),
            heading@ == heading_tag(),
            folder_name(before.deep_view()) == folder_name(before.deep_view().skip(i as int)),
        decreases before.len() - i,
    {
        let ghost rest = before.deep_view().skip(i as int);
        assert(rest[0] == before[i as int].deep_view());
        assert(rest.drop_first() =~= before.deep_view().skip(i + 1));
        match &before[i] {
            Some(e) => {
                if e.name == heading {
                    return Some(e.text.clone());
                }
            },
            None => {},
        }
        i += 1;
    }
    None
}

/// The URL of a link.
fn url_of(a: &Anchor) -> (url: String)
    ensures
        url@ == link_url(a.deep_view()),
{
    match &a.href {
        Some(h) => h.clone(),
        None => String::new(),
    }
}

/// A copy of a folder name.
fn same_folder(folder: &Option<String>) -> (copy: Option<String>)
    ensures
        copy.deep_view() == folder.deep_view(),
{
    match folder {
        Some(name) => Some(name.clone()),
        None => None,
    }
}

/// The record of a link with the URL `url`, in `folder`.
fn record_of(a: &Anchor, url: String, folder: Option<String>) -> (record: ParsedBookmark)
    requires
        url@ == link_url(a.deep_view()),
    ensures
        record.deep_view() == bookmark_of(a.deep_view(), folder.deep_view()),
{
    let title = if a.text.as_str().is_empty() {
        url.clone()
    } else {
        a.text.clone()
    };
    ParsedBookmark { title, url, folder }
}

/// Whether a record of `found` has the URL `url`.
fn contains_url(found: &Vec<ParsedBookmark>, url: &String) -> (present: bool)
    ensures
        present == has_url(found.deep_view(), url@),
{
    let mut i: usize = 0;
    while i < found.len()
        invariant
            i <= found.len(),
            forall|k: int| 0 <= k < i ==> (#[trigger] found.deep_view()[k]).url != url@,
        decreases found.len() - i,
    {
        if found[i].url == *url {
            assert(found.deep_view()[i as int].url == url@);
            return true;
        }
        i += 1;
    }
    false
}

/// Turns the blocks and the links of a document into records: for each
/// block, in order, one record for each qualifying link in it, in the
/// block's folder; then one folder-less record for each qualifying link of
/// the document whose URL no earlier record has.
pub fn collect_bookmarks(blocks: &Vec<Block>, links: &Vec<Anchor>) -> (found: Vec<ParsedBookmark>)
    ensures
        found.deep_view() == bookmarks_of(blocks.deep_view(), links.deep_view()),
{
    let mut found: Vec<ParsedBookmark> = Vec::new();
    let mut i: usize = 0;
    assert(found.deep_view() =~= foldered(blocks.deep_view().take(0)));
    while i < blocks.len()
        invariant
            i <= blocks.len(),
            found.deep_view() == foldered(blocks.deep_view().take(i as int)),
        decreases blocks.len() - i,
    {
        let block = &blocks[i];
        let folder = block_folder(&block.before);
        let ghost done = found.deep_view();
        let ghost upto = blocks.deep_view().take(i + 1);
        assert(upto.drop_last() =~= blocks.deep_view().take(i as int));
        assert(upto.last() == block.deep_view());
        let mut j: usize = 0;
        assert(found.deep_view() =~= done + block_bookmarks(
            block.links.deep_view().take(0),
            folder.deep_view(),
        ));
        while j < block.links.len()
            invariant
                j <= block.links.len(),
                found.deep_view() == done + block_bookmarks(
                    block.links.deep_view().take(j as int),
                    folder.deep_view(),
                ),
            decreases block.links.len() - j,
        {
            let a = &block.links[j];
            let ghost next = block.links.deep_view().take(j + 1);
            assert(next.drop_last() =~= block.links.deep_view().take(j as int));
            assert(next.last() == a.deep_view());
            let url = url_of(a);
            if has_http_prefix(url.as_str()) {
                let ghost before = found.deep_view();
                let record = record_of(a, url, same_folder(&folder));
                found.push(record);
                assert(found.deep_view() =~= before.push(record.deep_view()));
                assert(found.deep_view() =~= done + block_bookmarks(next, folder.deep_view()));
            }
            j += 1;
        }
        assert(block.links.deep_view().take(j as int) =~= block.links.deep_view());
        i += 1;
    }
    assert(blocks.deep_view().take(i as int) =~= blocks.deep_view());
    let ghost first = found.deep_view();
    let mut k: usize = 0;
    assert(links.deep_view().take(0).len() == 0);
    while k < links.len()
        invariant
            k <= links.len(),
            first == foldered(blocks.deep_view()),
            found.deep_view() == with_unfiled(first, links.deep_view().take(k as int)),
        decreases links.len() - k,
    {
        let a = &links[k];
        let ghost next = links.deep_view().take(k + 1);
        assert(next.drop_last() =~= links.deep_view().take(k as int));
        assert(next.last() == a.deep_view());
        let url = url_of(a);
        if has_http_prefix(url.as_str()) && !contains_url(&found, &url) {
            let ghost before = found.deep_view();
            let record = record_of(a, url, None);
            found.push(record);
            assert(found.deep_view() =~= before.push(record.deep_view()));
        }
        k += 1;
    }
    assert(links.deep_view().take(k as int) =~= links.deep_view());
    found
}

/// The blocks of a reading, none where the reading failed.
pub open spec fn blocks_or_none(read: Option<Seq<BlockView>>) -> Seq<BlockView> {
    match read {
        Some(blocks) => blocks,
        None => Seq::empty(),
    }
}

/// The links of a reading, none where the reading failed.
pub open spec fn links_or_none(read: Option<Seq<AnchorView>>) -> Seq<AnchorView> {
    match read {
        Some(links) => links,
        None => Seq::empty(),
    }
}

/// The records of the document `html`: its blocks are its `dl` elements,
/// its links its `a` elements, and a link's destination is its `href`. An
/// empty document has none.
pub open spec fn document_bookmarks(html: Seq<char>) -> Seq<ParsedBookmarkView> {
    if html.len() == 0 {
        Seq::empty()
    } else {
        bookmarks_of(
            blocks_or_none(markup_blocks(html, "dl"@, "a"@, "href"@)),
            links_or_none(markup_links(html, "a"@, "href"@)),
        )
    }
}

/// Reads a bookmark export. Markup that the reader cannot make sense of
/// gives fewer records, never a failure.
pub fn parse_bookmarks_html(html: &str) -> (found: Vec<ParsedBookmark>)
    ensures
        found.deep_view() == document_bookmarks(html@),
{
    if html.is_empty() {
        let none: Vec<ParsedBookmark> = Vec::new();
        assert(none.deep_view() =~= Seq::empty());
        return none;
    }
    let blocks = match read_blocks(html, "dl", "a", "href") {
        Some(blocks) => blocks,
        None => Vec::new(),
    };
    let links = match read_links(html, "a", "href") {
        Some(links) => links,
        None => Vec::new(),
    };
    assert(blocks.deep_view() =~= blocks_or_none(markup_blocks(html@, "dl"@, "a"@, "href"@)));
    assert(links.deep_view() =~= links_or_none(markup_links(html@, "a"@, "href"@)));
    collect_bookmarks(&blocks, &links)
}

/// Every record of a block has a qualifying URL, a title that is not
/// empty, and the block's folder.
pub proof fn lemma_block_records(links: Seq<AnchorView>, folder: Option<Seq<char>>)
    ensures
        forall|i: int|
            0 <= i < block_bookmarks(links, folder).len() ==> {
                let r = #[trigger] block_bookmarks(links, folder)[i];
                qualifies(r.url) && r.title.len() > 0 && r.folder == folder
            },
    decreases links.len(),
{
    reveal_strlit("http");
    if links.len() > 0 {
        lemma_block_records(links.drop_last(), folder);
    }
}

/// Every record that comes from a block has a qualifying URL and a title
/// that is not empty.
pub proof fn lemma_foldered_records(blocks: Seq<BlockView>)
    ensures
        forall|i: int|
            0 <= i < foldered(blocks).len() ==> {
                let r = #[trigger] foldered(blocks)[i];
                qualifies(r.url) && r.title.len() > 0
            },
    decreases blocks.len(),
{
    if blocks.len() > 0 {
        lemma_foldered_records(blocks.drop_last());
        lemma_block_records(blocks.last().links, folder_name(blocks.last().before));
    }
}

/// The second pass keeps what the first found, in place, and what it adds
/// is folder-less, qualifies, and has a URL that no record before it has.
pub proof fn lemma_unfiled_records(found: Seq<ParsedBookmarkView>, links: Seq<AnchorView>)
    ensures
        found.len() <= with_unfiled(found, links).len() <= found.len() + links.len(),
        with_unfiled(found, links).take(found.len() as int) == found,
        forall|i: int|
            found.len() <= i < with_unfiled(found, links).len() ==> {
                let r = #[trigger] with_unfiled(found, links)[i];
                &&& qualifies(r.url)
                &&& r.title.len() > 0
                &&& r.folder is None
                &&& !has_url(with_unfiled(found, links).take(i), r.url)
            },
    decreases links.len(),
{
    reveal_strlit("http");
    let out = with_unfiled(found, links);
    if links.len() == 0 {
        assert(out.take(found.len() as int) =~= found);
    } else {
        let before = with_unfiled(found, links.drop_last());
        lemma_unfiled_records(found, links.drop_last());
        assert(out.take(found.len() as int) =~= before.take(found.len() as int));
        assert forall|i: int| found.len() <= i < out.len() implies {
            let r = #[trigger] out[i];
            &&& qualifies(r.url)
            &&& r.title.len() > 0
            &&& r.folder is None
            &&& !has_url(out.take(i), r.url)
        } by {
            if i < before.len() {
                assert(out[i] == before[i]);
                assert(out.take(i) =~= before.take(i));
            } else {
                assert(out.take(i) =~= before);
            }
        }
    }
}

/// Every record of a document has a URL that starts with the marker, and
/// a title that is not empty: a link with another scheme, a relative path
/// or no destination gives no record, and a link without visible text has
/// its URL for a title.
pub proof fn lemma_records_qualify(blocks: Seq<BlockView>, links: Seq<AnchorView>)
    ensures
        forall|i: int|
            0 <= i < bookmarks_of(blocks, links).len() ==> {
                let r = #[trigger] bookmarks_of(blocks, links)[i];
                qualifies(r.url) && r.title.len() > 0
            },
{
    let first = foldered(blocks);
    let out = bookmarks_of(blocks, links);
    lemma_foldered_records(blocks);
    lemma_unfiled_records(first, links);
    assert forall|i: int| 0 <= i < out.len() implies {
        let r = #[trigger] out[i];
        qualifies(r.url) && r.title.len() > 0
    } by {
        if i < first.len() {
            assert(out[i] == out.take(first.len() as int)[i]);
        }
    }
}

/// The records of the blocks come first and unchanged, and a record that
/// the second pass adds has a URL that occurs nowhere before it: a link
/// that stands in a block and is met again in the scan of the whole
/// document is recorded once.
pub proof fn lemma_unfiled_once(blocks: Seq<BlockView>, links: Seq<AnchorView>)
    ensures
        foldered(blocks).len() <= bookmarks_of(blocks, links).len(),
        bookmarks_of(blocks, links).take(foldered(blocks).len() as int) == foldered(blocks),
        forall|i: int, j: int|
            foldered(blocks).len() <= i < bookmarks_of(blocks, links).len() && 0 <= j < i ==> {
                &&& (#[trigger] bookmarks_of(blocks, links)[i]).folder is None
                &&& bookmarks_of(blocks, links)[i].url != (#[trigger] bookmarks_of(
                    blocks,
                    links,
                )[j]).url
            },
{
    let first = foldered(blocks);
    let out = bookmarks_of(blocks, links);
    lemma_unfiled_records(first, links);
    assert forall|i: int, j: int| first.len() <= i < out.len() && 0 <= j < i implies {
        &&& (#[trigger] out[i]).folder is None
        &&& out[i].url != (#[trigger] out[j]).url
    } by {
        assert(out.take(i)[j] == out[j]);
    }
}

/// A document none of whose links qualifies has no records.
pub proof fn lemma_nothing_qualifies(blocks: Seq<BlockView>, links: Seq<AnchorView>)
    requires
        forall|b: int, i: int|
            0 <= b < blocks.len() && 0 <= i < blocks[b].links.len() ==> !qualifies(
                link_url(#[trigger] blocks[b].links[i]),
            ),
        forall|i: int| 0 <= i < links.len() ==> !qualifies(link_url(#[trigger] links[i])),
    ensures
        bookmarks_of(blocks, links).len() == 0,
    decreases blocks.len() + links.len(),
{
    if links.len() > 0 {
        lemma_nothing_qualifies(blocks, links.drop_last());
    } else if blocks.len() > 0 {
        lemma_nothing_qualifies(blocks.drop_last(), links);
        lemma_block_empty(blocks.last().links, folder_name(blocks.last().before));
    }
}

/// A block none of whose links qualifies has no records.
pub proof fn lemma_block_empty(links: Seq<AnchorView>, folder: Option<Seq<char>>)
    requires
        forall|i: int| 0 <= i < links.len() ==> !qualifies(link_url(#[trigger] links[i])),
    ensures
        block_bookmarks(links, folder).len() == 0,
    decreases links.len(),
{
    if links.len() > 0 {
        lemma_block_empty(links.drop_last(), folder);
    }
}

/// Every qualifying link of a block has its record among the block's
/// records.
pub proof fn lemma_block_link_recorded(links: Seq<AnchorView>, folder: Option<Seq<char>>, i: int)
    requires
        0 <= i < links.len(),
        qualifies(link_url(links[i])),
    ensures
        exists|k: int|
            0 <= k < block_bookmarks(links, folder).len() && #[trigger] block_bookmarks(
                links,
                folder,
            )[k] == bookmark_of(links[i], folder),
    decreases links.len(),
{
    let out = block_bookmarks(links, folder);
    let before = block_bookmarks(links.drop_last(), folder);
    if i == links.len() - 1 {
        assert(out[before.len() as int] == bookmark_of(links[i], folder));
    } else {
        lemma_block_link_recorded(links.drop_last(), folder, i);
        let k = choose|k: int|
            0 <= k < before.len() && #[trigger] before[k] == bookmark_of(
                links.drop_last()[i],
                folder,
            );
        assert(out[k] == before[k]);
    }
}

/// Every qualifying link of every block has its record, in the block's
/// folder, among the records of the blocks.
pub proof fn lemma_foldered_link_recorded(blocks: Seq<BlockView>, b: int, i: int)
    requires
        0 <= b < blocks.len(),
        0 <= i < blocks[b].links.len(),
        qualifies(link_url(blocks[b].links[i])),
    ensures
        exists|k: int|
            0 <= k < foldered(blocks).len() && #[trigger] foldered(blocks)[k] == bookmark_of(
                blocks[b].links[i],
                folder_name(blocks[b].before),
            ),
    decreases blocks.len(),
{
    let out = foldered(blocks);
    let before = foldered(blocks.drop_last());
    let folder = folder_name(blocks.last().before);
    let own = block_bookmarks(blocks.last().links, folder);
    if b == blocks.len() - 1 {
        lemma_block_link_recorded(blocks.last().links, folder, i);
        let k = choose|k: int|
            0 <= k < own.len() && #[trigger] own[k] == bookmark_of(blocks.last().links[i], folder);
        assert(out[before.len() + k] == own[k]);
    } else {
        lemma_foldered_link_recorded(blocks.drop_last(), b, i);
        let k = choose|k: int|
            0 <= k < before.len() && #[trigger] before[k] == bookmark_of(
                blocks.drop_last()[b].links[i],
                folder_name(blocks.drop_last()[b].before),
            );
        assert(out[k] == before[k]);
    }
}

/// The URL of every qualifying link of the document is the URL of a record.
pub proof fn lemma_unfiled_link_recorded(
    found: Seq<ParsedBookmarkView>,
    links: Seq<AnchorView>,
    i: int,
)
    requires
        0 <= i < links.len(),
        qualifies(link_url(links[i])),
    ensures
        has_url(with_unfiled(found, links), link_url(links[i])),
    decreases links.len(),
{
    let out = with_unfiled(found, links);
    let before = with_unfiled(found, links.drop_last());
    let url = link_url(links[i]);
    if i < links.len() - 1 {
        lemma_unfiled_link_recorded(found, links.drop_last(), i);
    }
    if has_url(before, url) {
        let k = choose|k: int| 0 <= k < before.len() && (#[trigger] before[k]).url == url;
        assert(out[k] == before[k]);
    } else {
        assert(out[before.len() as int].url == url);
    }
}

/// No link that qualifies is lost: each qualifying link of a block has its
/// record in the block's folder, and the URL of each qualifying link of
/// the document is the URL of some record.
pub proof fn lemma_links_recorded(blocks: Seq<BlockView>, links: Seq<AnchorView>)
    ensures
        forall|b: int, i: int|
            0 <= b < blocks.len() && 0 <= i < blocks[b].links.len() && qualifies(
                link_url(#[trigger] blocks[b].links[i]),
            ) ==> bookmarks_of(blocks, links).contains(
                bookmark_of(blocks[b].links[i], folder_name(blocks[b].before)),
            ),
        forall|i: int|
            0 <= i < links.len() && qualifies(link_url(#[trigger] links[i])) ==> has_url(
                bookmarks_of(blocks, links),
                link_url(links[i]),
            ),
{
    let first = foldered(blocks);
    let out = bookmarks_of(blocks, links);
    lemma_unfiled_records(first, links);
    assert forall|b: int, i: int|
        0 <= b < blocks.len() && 0 <= i < blocks[b].links.len() && qualifies(
            link_url(#[trigger] blocks[b].links[i]),
        ) implies out.contains(
        bookmark_of(blocks[b].links[i], folder_name(blocks[b].before)),
    ) by {
        lemma_foldered_link_recorded(blocks, b, i);
        let k = choose|k: int|
            0 <= k < first.len() && #[trigger] first[k] == bookmark_of(
                blocks[b].links[i],
                folder_name(blocks[b].before),
            );
        assert(out.take(first.len() as int)[k] == out[k]);
    }
    assert forall|i: int| 0 <= i < links.len() && qualifies(link_url(#[trigger] links[i])) implies has_url(
        out,
        link_url(links[i]),
    ) by {
        lemma_unfiled_link_recorded(first, links, i);
    }
}

} // verus!
