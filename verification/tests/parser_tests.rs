use bookmark_import::markup::{Anchor, Block, Element};
use bookmark_import::parser::{
    block_folder, collect_bookmarks, has_http_prefix, parse_bookmarks_html, ParsedBookmark,
};

fn anchor(href: Option<&str>, text: &str) -> Anchor {
    Anchor { href: href.map(String::from), text: text.to_string() }
}

fn heading(name: &str, text: &str) -> Option<Element> {
    Some(Element { name: name.to_string(), text: text.to_string() })
}

fn record(title: &str, url: &str, folder: Option<&str>) -> ParsedBookmark {
    ParsedBookmark {
        title: title.to_string(),
        url: url.to_string(),
        folder: folder.map(String::from),
    }
}

const READING: &str = "<h3>Reading</h3><dl><a href=\"http://a.com\">A</a><a href=\"http://b.com\">B</a></dl><a href=\"http://c.com\">C</a>";

#[test]
fn folder_links_then_unfiled_link() {
    let found = parse_bookmarks_html(READING);
    assert_eq!(
        found,
        vec![
            record("A", "http://a.com", Some("Reading")),
            record("B", "http://b.com", Some("Reading")),
            record("C", "http://c.com", None),
        ]
    );
}

#[test]
fn link_in_block_and_again_at_top_level_is_recorded_once() {
    let html = "<h3>Work</h3><dl><a href=\"https://x.org/\">X</a></dl><a href=\"https://x.org/\">X again</a>";
    let found = parse_bookmarks_html(html);
    assert_eq!(found, vec![record("X", "https://x.org/", Some("Work"))]);
}

#[test]
fn two_top_level_links_with_one_url_are_recorded_once() {
    let html = "<a href=\"http://same.com\">first</a><a href=\"http://same.com\">second</a>";
    let found = parse_bookmarks_html(html);
    assert_eq!(found, vec![record("first", "http://same.com", None)]);
}

#[test]
fn javascript_link_is_never_parsed() {
    let html = "<dl><a href=\"javascript:void(0)\">run</a></dl><a href=\"javascript:void(0)\">run</a>";
    assert_eq!(parse_bookmarks_html(html), vec![]);
}

#[test]
fn empty_text_takes_the_url_for_title() {
    let html = "<a href=\"https://example.com\"></a>";
    let found = parse_bookmarks_html(html);
    assert_eq!(found, vec![record("https://example.com", "https://example.com", None)]);
}

#[test]
fn other_schemes_and_relative_paths_are_dropped() {
    let html = "<dl><a href=\"mailto:a@b.c\">mail</a><a href=\"/local\">local</a><a>none</a>\
                <a href=\"ftp://f.org\">ftp</a><a href=\"http://kept.org\">kept</a></dl>";
    let found = parse_bookmarks_html(html);
    assert_eq!(found, vec![record("kept", "http://kept.org", None)]);
}

#[test]
fn empty_document_has_no_records() {
    assert_eq!(parse_bookmarks_html(""), vec![]);
}

#[test]
fn malformed_markup_does_not_fail() {
    let html = "<dl><h3>Open<dl><a href=\"http://a.com\">A</dl></h3></a><<<>";
    let found = parse_bookmarks_html(html);
    assert!(found.iter().all(|b| b.url.starts_with("http")));
    assert!(found.iter().any(|b| b.url == "http://a.com"));
}

#[test]
fn block_without_heading_is_folder_less() {
    let html = "<p>intro</p><dl><a href=\"http://a.com\">A</a></dl>";
    assert_eq!(parse_bookmarks_html(html), vec![record("A", "http://a.com", None)]);
}

#[test]
fn later_block_without_heading_does_not_inherit_a_folder() {
    let html = "<div><h3>One</h3><dl><a href=\"http://a.com\">A</a></dl></div>\
                <div><dl><a href=\"http://b.com\">B</a></dl></div>";
    assert_eq!(
        parse_bookmarks_html(html),
        vec![record("A", "http://a.com", Some("One")), record("B", "http://b.com", None)]
    );
}

#[test]
fn folder_names_are_taken_verbatim() {
    let html = "<div><h3>Work</h3><dl><a href=\"http://a.com\">A</a></dl></div>\
                <div><h3>Work </h3><dl><a href=\"http://b.com\">B</a></dl></div>\
                <div><h3>work</h3><dl><a href=\"http://c.com\">C</a></dl></div>";
    assert_eq!(
        parse_bookmarks_html(html),
        vec![
            record("A", "http://a.com", Some("Work")),
            record("B", "http://b.com", Some("Work ")),
            record("C", "http://c.com", Some("work")),
        ]
    );
}

#[test]
fn netscape_export_lists_the_outer_list_first() {
    let html = "<!DOCTYPE NETSCAPE-Bookmark-file-1>\n<TITLE>Bookmarks</TITLE>\n<H1>Bookmarks</H1>\n\
                <DL><p>\n<DT><H3>Reading</H3>\n<DL><p>\n<DT><A HREF=\"http://a.com\">A</A>\n\
                <DT><A HREF=\"http://b.com\">B</A>\n</DL><p>\n<DT><A HREF=\"http://c.com\">C</A>\n</DL><p>\n";
    assert_eq!(
        parse_bookmarks_html(html),
        vec![
            record("A", "http://a.com", None),
            record("B", "http://b.com", None),
            record("C", "http://c.com", None),
            record("A", "http://a.com", Some("Reading")),
            record("B", "http://b.com", Some("Reading")),
        ]
    );
}

#[test]
fn nested_markup_text_is_the_title() {
    let html = "<a href=\"http://a.com\">An <b>bold</b> title</a>";
    assert_eq!(parse_bookmarks_html(html), vec![record("An bold title", "http://a.com", None)]);
}

#[test]
fn prefix_test_accepts_http_and_https_only_by_prefix() {
    assert!(has_http_prefix("http://a.com"));
    assert!(has_http_prefix("https://a.com"));
    assert!(has_http_prefix("http"));
    assert!(has_http_prefix("httpfoo"));
    assert!(!has_http_prefix("htt"));
    assert!(!has_http_prefix(""));
    assert!(!has_http_prefix("HTTP://a.com"));
    assert!(!has_http_prefix(" http://a.com"));
    assert!(!has_http_prefix("javascript:void(0)"));
    assert!(!has_http_prefix("\u{e9}ttp://a.com"));
}

#[test]
fn folder_is_the_nearest_heading_before_the_block() {
    let before = vec![None, heading("p", "skip"), heading("h3", "Near"), heading("h3", "Far")];
    assert_eq!(block_folder(&before), Some("Near".to_string()));
}

#[test]
fn folder_is_none_without_a_heading() {
    assert_eq!(block_folder(&vec![]), None);
    assert_eq!(block_folder(&vec![None, heading("h1", "Bookmarks"), heading("H3", "upper")]), None);
}

#[test]
fn collect_keeps_block_order_then_unfiled() {
    let blocks = vec![
        Block {
            before: vec![heading("h3", "First")],
            links: vec![anchor(Some("http://1.com"), "one"), anchor(Some("nope"), "x")],
        },
        Block { before: vec![], links: vec![] },
        Block {
            before: vec![None, heading("h3", "Second")],
            links: vec![anchor(Some("http://2.com"), ""), anchor(Some("http://1.com"), "one again")],
        },
    ];
    let links = vec![
        anchor(Some("http://2.com"), "two"),
        anchor(Some("http://3.com"), "three"),
        anchor(None, "no destination"),
        anchor(Some("http://3.com"), "three again"),
    ];
    assert_eq!(
        collect_bookmarks(&blocks, &links),
        vec![
            record("one", "http://1.com", Some("First")),
            record("http://2.com", "http://2.com", Some("Second")),
            record("one again", "http://1.com", Some("Second")),
            record("three", "http://3.com", None),
        ]
    );
}

#[test]
fn collect_from_nothing_is_empty() {
    assert_eq!(collect_bookmarks(&vec![], &vec![]), vec![]);
}

#[test]
fn every_record_has_a_qualifying_url_and_a_title() {
    let html = "<h3>F</h3><dl><a href=\"http://a.com\"></a><a href=\"x\">x</a></dl><a href=\"https://b.com\">B</a><a href=\"\">e</a>";
    let found = parse_bookmarks_html(html);
    assert_eq!(found.len(), 2);
    for b in &found {
        assert!(b.url.starts_with("http"));
        assert!(!b.title.is_empty());
    }
}
