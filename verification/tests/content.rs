use wikilite::dom::parse_document;
use wikilite::entity::page::PageEntity;
use wikilite::error::ServerError;
use wikilite::helpers::{
    assign_heading_ids, generate_toc, generate_toc_with_links, html_to_text, sanitize_html,
    stringify_doc, transform_page, transform_page_with, trim_preview, trim_preview_text, Patterns,
    PREVIEW_LENGTH,
};
use wikilite::markup::{Attribute, Document, Node, NodeData, QualifiedName};

fn page(body: &str) -> String {
    format!("<html><head></head><body>{}</body></html>", body)
}

fn markup_of(html: &str) -> String {
    stringify_doc(&transform_page(html).unwrap().0).unwrap()
}

fn element(depth: usize, local: &str, attributes: Vec<Attribute>) -> Node {
    Node {
        depth,
        data: NodeData::Element {
            name: QualifiedName {
                namespace: "http://www.w3.org/1999/xhtml".to_owned(),
                prefix: None,
                local: local.to_owned(),
            },
            attributes,
        },
    }
}

fn attribute(local: &str, value: &str) -> Attribute {
    Attribute {
        namespace: String::new(),
        local: local.to_owned(),
        prefix: None,
        value: value.to_owned(),
    }
}

fn text(depth: usize, content: &str) -> Node {
    Node { depth, data: NodeData::Text(content.to_owned()) }
}

#[test]
fn duplicate_headings_get_numbered_slugs() {
    let (document, toc) = transform_page("<h1>Intro</h1><h2>Intro</h2><h1>Intro</h1>").unwrap();
    assert_eq!(
        stringify_doc(&document).unwrap(),
        page("<h1 id=\"intro\">Intro</h1><h2 id=\"intro-2\">Intro</h2><h1 id=\"intro-3\">Intro</h1>")
    );
    assert_eq!(
        toc,
        Some(
            "<ul><li><a href=\"#intro\">Intro</a><ul><li><a href=\"#intro-2\">Intro</a></li></ul></li><li><a href=\"#intro-3\">Intro</a></li></ul>"
                .to_owned()
        )
    );
}

#[test]
fn tenth_duplicate_is_numbered_in_decimal() {
    let html = "<h1>A</h1>".repeat(12);
    let markup = markup_of(&html);
    assert!(markup.contains("<h1 id=\"a-10\">A</h1>"));
    assert!(markup.contains("<h1 id=\"a-12\">A</h1>"));
    assert!(!markup.contains("a-13"));
}

#[test]
fn slug_is_lowercase_hyphenated_and_filtered() {
    let markup = markup_of("<h2>  Hello, Wide   World! </h2>");
    assert!(markup.contains("<h2 id=\"hello-wide-world\">"));
    let markup = markup_of("<h3>-- Ärger & Co --</h3>");
    assert!(markup.contains("<h3 id=\"rger--co\">"));
}

#[test]
fn existing_identifier_is_replaced() {
    let markup = markup_of("<h1 id=\"old\" class=\"x\">New Name</h1>");
    assert_eq!(markup, page("<h1 class=\"x\" id=\"new-name\">New Name</h1>"));
}

#[test]
fn heading_without_text_gets_no_identifier() {
    let (document, toc) = transform_page("<h1>   </h1><p>text</p>").unwrap();
    assert_eq!(toc, None);
    assert_eq!(stringify_doc(&document).unwrap(), page("<h1>   </h1><p>text</p>"));
}

#[test]
fn no_headings_no_toc() {
    assert_eq!(transform_page("<p>plain</p>").unwrap().1, None);
    assert_eq!(transform_page("").unwrap().1, None);
}

#[test]
fn shallower_heading_after_deeper_first() {
    let toc = transform_page("<h2>Two</h2><h1>One</h1>").unwrap().1;
    assert_eq!(
        toc,
        Some(
            "<ul><li><a href=\"#two\">Two</a></li></ul></li><li><a href=\"#one\">One</a></li></ul>"
                .to_owned()
        )
    );
}

#[test]
fn toc_without_links_shows_bare_text() {
    let document = parse_document("<h1>One</h1><h3>Deep</h3><h2>Back</h2>");
    assert_eq!(
        generate_toc(&document),
        Some("<ul><li>One<ul><li>Deep</li></ul></li><li>Back</li></ul>".to_owned())
    );
}

#[test]
fn toc_links_only_headings_that_have_a_slug() {
    let document = parse_document("<h1>One</h1><h1>Two</h1>");
    let slugs = vec![Some("first".to_owned())];
    assert_eq!(
        generate_toc_with_links(&document, Some(&slugs)),
        Some("<ul><li><a href=\"#first\">One</a></li><li>Two</li></ul>".to_owned())
    );
    let slugs = vec![None, Some("second".to_owned()), Some("spare".to_owned())];
    assert_eq!(
        generate_toc_with_links(&document, Some(&slugs)),
        Some("<ul><li>One</li><li><a href=\"#second\">Two</a></li></ul>".to_owned())
    );
    assert_eq!(
        generate_toc_with_links(&document, None),
        Some("<ul><li>One</li><li>Two</li></ul>".to_owned())
    );
}

#[test]
fn heading_text_spans_nested_elements() {
    let toc = transform_page("<h1> A <em>big</em> deal </h1>").unwrap().1;
    assert_eq!(toc, Some("<ul><li><a href=\"#a-big-deal\">A big deal</a></li></ul>".to_owned()));
}

#[test]
fn assign_heading_ids_sets_attributes() {
    let patterns = Patterns::compile().unwrap();
    let mut document = parse_document("<h4>Same</h4><h4>Same</h4>");
    assign_heading_ids(&patterns.unwanted, &mut document);
    assert_eq!(
        stringify_doc(&document).unwrap(),
        page("<h4 id=\"same\">Same</h4><h4 id=\"same-2\">Same</h4>")
    );
}

#[test]
fn wiki_word_becomes_link_in_place() {
    assert_eq!(
        markup_of("<p>See WikiPage now</p>"),
        page("<p><html><head></head><body>See <a href=\"/wiki/WikiPage\">WikiPage</a> now</body></html></p>")
    );
}

#[test]
fn every_text_node_is_rewritten_once() {
    let markup = markup_of("<p>FirstPage</p><p>plain</p><p>SecondPage and ThirdPage</p>");
    assert_eq!(markup.matches("<a href=\"/wiki/FirstPage\">FirstPage</a>").count(), 1);
    assert_eq!(markup.matches("<a href=\"/wiki/SecondPage\">SecondPage</a>").count(), 1);
    assert_eq!(markup.matches("<a href=\"/wiki/ThirdPage\">ThirdPage</a>").count(), 1);
    assert_eq!(markup.matches("<a ").count(), 3);
    assert!(markup.contains("<p>plain</p>"));
}

#[test]
fn capital_alone_is_no_segment() {
    assert_eq!(markup_of("<p>See WikiP now</p>"), page("<p>See WikiP now</p>"));
    assert_eq!(markup_of("<p>V8B and ABc</p>"), page("<p>V8B and ABc</p>"));
    assert!(markup_of("<p>WikiPageX</p>").contains("<a href=\"/wiki/WikiPage\">WikiPage</a>X"));
}

#[test]
fn escaped_wiki_word_keeps_its_mark() {
    assert_eq!(markup_of("<p>An !EscapedWord stays</p>"), page("<p>An !EscapedWord stays</p>"));
}

#[test]
fn text_without_wiki_words_is_untouched() {
    assert_eq!(
        markup_of("<p>iPhone and HTML &amp; caf\u{e9}</p>"),
        page("<p>iPhone and HTML &amp; caf\u{e9}</p>")
    );
}

#[test]
fn wiki_word_after_multibyte_text() {
    let markup = markup_of("<p>caf\u{e9} \u{2022} WikiPage</p>");
    assert!(markup.contains("caf\u{e9} \u{2022} <a href=\"/wiki/WikiPage\">WikiPage</a>"));
}

#[test]
fn text_deep_inside_anchor_is_left_alone() {
    let html = "<p><a href=\"/x\"><b>InnerPage</b></a> OuterPage</p>";
    let markup = markup_of(html);
    assert!(markup.contains("<a href=\"/x\"><b>InnerPage</b></a>"));
    assert!(!markup.contains("/wiki/InnerPage"));
    assert!(markup.contains("<a href=\"/wiki/OuterPage\">OuterPage</a>"));
}

#[test]
fn anchor_ends_where_its_element_ends() {
    let markup = markup_of("<div><a href=\"/x\">In</a><span>AfterPage</span></div>");
    assert!(markup.contains("<a href=\"/wiki/AfterPage\">AfterPage</a>"));
}

#[test]
fn transform_with_compiled_patterns_agrees() {
    let patterns = Patterns::compile().unwrap();
    let html = "<h1>One</h1><p>WikiPage</p>";
    let (with, toc_with) = transform_page_with(&patterns, html).unwrap();
    let (plain, toc_plain) = transform_page(html).unwrap();
    assert_eq!(stringify_doc(&with).unwrap(), stringify_doc(&plain).unwrap());
    assert_eq!(toc_with, toc_plain);
}

#[test]
fn transformed_tree_is_one_tree() {
    let (document, _) =
        transform_page("<h1>A</h1><p>WikiPage <b>and</b> OtherPage</p><h1>A</h1>").unwrap();
    assert!(document.is_well_formed());
    assert!(stringify_doc(&document).is_ok());
    assert!(parse_document("").is_well_formed());
    assert!(parse_document("<table><tr><td>x<template><p>t</p></template>").is_well_formed());
}

#[test]
fn round_trip_keeps_markup() {
    let html = page("<p class=\"a\">x &amp; y<br>z</p><!--c--><ul><li>one</li></ul>");
    assert_eq!(stringify_doc(&parse_document(&html)).unwrap(), html);
    let with_doctype = "<!DOCTYPE html><html><head><title>t</title></head><body></body></html>";
    assert_eq!(stringify_doc(&parse_document(with_doctype)).unwrap(), with_doctype);
}

#[test]
fn parser_accepts_malformed_markup() {
    let document = parse_document("<p>unclosed <b>bold<p>next</i>");
    assert!(document.is_well_formed());
    assert_eq!(
        stringify_doc(&document).unwrap(),
        page("<p>unclosed <b>bold</b></p><p><b>next</b></p>")
    );
}

#[test]
fn parsed_nodes_are_listed_in_document_order() {
    let document = parse_document("<p>a<b>c</b></p>");
    let depths: Vec<usize> = document.nodes.iter().map(|n| n.depth).collect();
    assert_eq!(depths, vec![0, 1, 2, 2, 3, 4, 4, 5]);
    assert!(matches!(document.nodes[0].data, NodeData::Document));
    assert!(matches!(&document.nodes[5].data, NodeData::Text(t) if t == "a"));
    assert!(matches!(&document.nodes[6].data, NodeData::Element { name, .. } if name.local == "b"));
    assert_eq!(document.subtree_end(4), 8);
    assert_eq!(document.subtree_end(5), 6);
    assert_eq!(document.subtree_end(2), 3);
}

#[test]
fn hand_made_tree_is_written() {
    let document = Document {
        nodes: vec![
            element(0, "div", vec![attribute("title", "a\"b"), attribute("class", "c")]),
            text(1, "x < y"),
            element(1, "br", vec![]),
            Node { depth: 1, data: NodeData::Comment("note".to_owned()) },
        ],
    };
    assert_eq!(
        stringify_doc(&document).unwrap(),
        "<div class=\"c\" title=\"a&quot;b\">x &lt; y<br><!--note--></div>"
    );
}

#[test]
fn malformed_trees_are_refused() {
    let empty = Document { nodes: vec![] };
    assert_eq!(stringify_doc(&empty), Err(ServerError::Malformed));
    let deep_root = Document { nodes: vec![text(1, "x")] };
    assert_eq!(stringify_doc(&deep_root), Err(ServerError::Malformed));
    let jump = Document { nodes: vec![element(0, "p", vec![]), text(2, "x")] };
    assert_eq!(stringify_doc(&jump), Err(ServerError::Malformed));
    let two_roots = Document { nodes: vec![element(0, "p", vec![]), element(0, "p", vec![])] };
    assert_eq!(stringify_doc(&two_roots), Err(ServerError::Malformed));
    let twice = Document {
        nodes: vec![element(0, "p", vec![attribute("id", "a"), attribute("id", "b")])],
    };
    assert!(!twice.is_well_formed());
    assert_eq!(stringify_doc(&twice), Err(ServerError::Malformed));
}

#[test]
fn text_is_laid_out_by_blocks() {
    let document = parse_document(
        "<h1>Title</h1><p>First  <b>bold</b> line<br>second</p><ul><li>one</li><li>two</li></ul><ol><li>three</li></ol><div>tail</div>",
    );
    assert_eq!(
        html_to_text(&document),
        "Title\n\nFirst  bold line\nsecond\n\n\u{2022} one\n\u{2022} two\n\n\u{2022} three\n\ntail"
    );
}

#[test]
fn text_lines_lose_trailing_whitespace() {
    let document = parse_document("<p>  padded \t </p><p>\u{a0}next\u{3000}</p>");
    assert_eq!(html_to_text(&document), "padded\n\n\u{a0}next");
    assert_eq!(html_to_text(&parse_document("")), "");
    assert_eq!(html_to_text(&parse_document("<p> </p>")), "");
}

#[test]
fn text_of_break_ignores_what_it_holds() {
    let document = Document {
        nodes: vec![element(0, "p", vec![]), text(1, "a"), element(1, "br", vec![]), text(2, "hidden"), text(1, "b")],
    };
    assert_eq!(html_to_text(&document), "a\nb");
}

#[test]
fn text_keeps_carriage_returns_inside_lines() {
    let document = Document { nodes: vec![text(0, "a\r\nb\rc \r\n\r\nd")] };
    assert_eq!(html_to_text(&document), "a\nb\rc\n\nd");
}

#[test]
fn text_follows_transformed_tree() {
    let (document, _) = transform_page("<h2>Head</h2><p>Go to WikiPage.</p>").unwrap();
    assert_eq!(html_to_text(&document), "Head\n\nGo to WikiPage.");
}

#[test]
fn preview_of_short_text_is_the_text() {
    assert_eq!(trim_preview_text("short"), "short");
    assert_eq!(trim_preview_text(""), "");
    let just_under = "x".repeat(PREVIEW_LENGTH - 1);
    assert_eq!(trim_preview_text(&just_under), just_under);
}

#[test]
fn preview_of_long_text_is_its_first_characters() {
    let exact = "y".repeat(PREVIEW_LENGTH);
    assert_eq!(trim_preview_text(&exact), exact);
    let long = "\u{e9}".repeat(300);
    let preview = trim_preview_text(&long);
    assert_eq!(preview.chars().count(), 256);
    assert_eq!(preview, "\u{e9}".repeat(256));
    let mixed = format!("{}\u{1f600}tail", "a".repeat(255));
    assert_eq!(trim_preview_text(&mixed), format!("{}\u{1f600}", "a".repeat(255)));
}

#[test]
fn preview_with_other_limits() {
    assert_eq!(trim_preview("h\u{e9}llo", 2), "h\u{e9}");
    assert_eq!(trim_preview("hello", 0), "");
    assert_eq!(trim_preview("hello", 6), "hello");
    assert_eq!(trim_preview("hello", 5), "hello");
}

#[test]
fn sanitizer_removes_what_is_not_allowed() {
    assert_eq!(sanitize_html("<p onclick=\"x()\">hi<script>alert(1)</script></p>"), "<p>hi</p>");
    assert_eq!(sanitize_html("<form><b>kept</b></form>"), "<b>kept</b>");
    assert_eq!(sanitize_html("<a href=\"javascript:x\">l</a>"), "<a rel=\"noopener noreferrer\">l</a>");
    assert_eq!(sanitize_html(""), "");
}

#[test]
fn sanitizer_allows_the_extras() {
    assert_eq!(
        sanitize_html("<video class=\"v\" id=\"m\"><source></video>"),
        "<video class=\"v\" id=\"m\"><source></video>"
    );
    assert_eq!(
        sanitize_html("<a href=\"mailto:a@b.c\" rel=\"x\">m</a>"),
        "<a href=\"mailto:a@b.c\" rel=\"noopener noreferrer\">m</a>"
    );
    assert_eq!(
        sanitize_html("<a href=\"../up\">r</a>"),
        "<a href=\"../up\" rel=\"noopener noreferrer\">r</a>"
    );
}

#[test]
fn sanitizer_twice_is_sanitizer_once() {
    let dirty = "<div class=\"c\"><a href=\"/p\" onclick=\"x\">l</a><img src=\"http://e/x.png\"><style>p{}</style>text &amp; more</div>";
    let once = sanitize_html(dirty);
    assert_eq!(sanitize_html(&once), once);
}

#[test]
fn rendered_page_holds_three_outputs() {
    let rendered = PageEntity::render(
        "<h1 onclick=\"x\">Start Here</h1><p>See WikiPage.<script>bad()</script></p>",
    )
    .unwrap();
    assert_eq!(
        rendered.content,
        page("<h1 id=\"start-here\">Start Here</h1><p><html><head></head><body>See <a href=\"/wiki/WikiPage\">WikiPage</a>.</body></html></p>")
    );
    assert_eq!(rendered.text, "Start Here\n\nSee WikiPage.");
    assert_eq!(
        rendered.toc,
        Some("<ul><li><a href=\"#start-here\">Start Here</a></li></ul>".to_owned())
    );
}

#[test]
fn large_input_is_handled() {
    let mut html = String::new();
    for i in 0..300 {
        html.push_str(&format!("<h2>Part</h2><p>Item{} links to SomePage and <a href=\"/x\">KnownPage</a>.</p>", i));
    }
    let (document, toc) = transform_page(&html).unwrap();
    let markup = stringify_doc(&document).unwrap();
    assert_eq!(markup.matches("<a href=\"/wiki/SomePage\">").count(), 300);
    assert!(markup.contains("<h2 id=\"part-300\">"));
    assert!(toc.unwrap().ends_with("<a href=\"#part-300\">Part</a></li></ul>"));
    assert!(html_to_text(&document).starts_with("Part\n\nItem0 links to SomePage and KnownPage."));
}

#[test]
fn oversized_markup_is_refused() {
    let huge = "a".repeat(wikilite::dom::MAX_MARKUP_BYTES + 1);
    assert!(!wikilite::dom::fits(&huge));
    assert!(matches!(transform_page(&huge), Err(ServerError::TooLarge)));
    assert!(matches!(PageEntity::render(&huge), Err(ServerError::TooLarge)));
    assert!(wikilite::dom::fits(&huge[1..]));
}
