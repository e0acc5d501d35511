use wikilite::error::ServerError;
use wikilite::helpers::{stringify_doc, transform_page};

fn rendered(html: &str) -> Result<String, ServerError> {
    stringify_doc(&transform_page(html)?.0)
}

#[test]
fn html_wiki_links() {
    let html = r#"<p>This is a WikiPage with SomeOtherPage inside a paragraph.</p>"#;
    let html = rendered(html).unwrap();
    assert!(html.contains(r#"<a href="/wiki/WikiPage">WikiPage</a>"#));
    assert!(html.contains(r#"<a href="/wiki/SomeOtherPage">SomeOtherPage</a>"#));
}

#[test]
fn ignores_wiki_links_in_anchors() {
    let html = r#"<p>This <a href="/existing">WikiPage and AnotherPage</a> should not be converted.</p>"#;
    let html = rendered(html).unwrap();
    assert!(!html.contains(r#"<a href="/wiki/WikiPage">"#));
    assert!(!html.contains(r#"<a href="/wiki/AnotherPage">"#));
    assert!(html.contains(r#"<a href="/existing">WikiPage and AnotherPage</a>"#));
}

#[test]
fn ignores_prefixed_wiki_links() {
    let html = r#"<p>This !WikiPage should not be converted, but ThisPage should be.</p>"#;
    let html = rendered(html).unwrap();
    assert!(!html.contains(r#"<a href="/wiki/WikiPage">"#));
    assert!(html.contains("!WikiPage"));
    assert!(html.contains(r#"<a href="/wiki/ThisPage">ThisPage</a>"#));
}

#[test]
fn handles_multiple_wiki_words() {
    let html = r#"<p>Check out WikiPage and also SomeOtherPage for more info.</p>"#;
    let html = rendered(html).unwrap();
    assert!(html.contains(r#"<a href="/wiki/WikiPage">WikiPage</a>"#));
    assert!(html.contains(r#"<a href="/wiki/SomeOtherPage">SomeOtherPage</a>"#));
}

#[test]
fn preserves_non_wiki_words() {
    let html = r#"<p>This iPhone and HTML are not WikiWords.</p>"#;
    let html = rendered(html).unwrap();
    assert!(!html.contains(r#"<a href="/wiki/iPhone">"#));
    assert!(!html.contains(r#"<a href="/wiki/HTML">"#));
    assert!(html.contains("iPhone"));
    assert!(html.contains("HTML"));
}

#[test]
fn helpers_single_level() {
    let html = "<h1>One</h1><h1>Two</h1>";
    let toc = transform_page(html).unwrap().1;
    assert_eq!(
        toc,
        Some("<ul><li><a href=\"#one\">One</a></li><li><a href=\"#two\">Two</a></li></ul>".to_owned())
    );
}

#[test]
fn helpers_nested_levels() {
    let html = "<h1>One</h1><h2>Sub</h2><h1>Two</h1>";
    let toc = transform_page(html).unwrap().1;
    assert_eq!(
        toc,
        Some("<ul><li><a href=\"#one\">One</a><ul><li><a href=\"#sub\">Sub</a></li></ul></li><li><a href=\"#two\">Two</a></li></ul>".to_owned())
    );
}

#[test]
fn helpers_deeper_nesting() {
    let html = "<h1>One</h1><h2>A</h2><h3>B</h3><h2>C</h2><h1>Two</h1>";
    let toc = transform_page(html).unwrap().1;
    assert_eq!(
        toc,
        Some(
            "<ul><li><a href=\"#one\">One</a><ul><li><a href=\"#a\">A</a><ul><li><a href=\"#b\">B</a></li></ul></li><li><a href=\"#c\">C</a></li></ul></li><li><a href=\"#two\">Two</a></li></ul>"
                .to_owned()
        )
    );
}

#[test]
fn helpers_nonsequential_levels() {
    let html = "<h1>One</h1><h3>Deep</h3><h2>Back</h2>";
    let toc = transform_page(html).unwrap().1;
    assert_eq!(
        toc,
        Some(
            "<ul><li><a href=\"#one\">One</a><ul><li><a href=\"#deep\">Deep</a></li></ul></li><li><a href=\"#back\">Back</a></li></ul>"
                .to_owned()
        )
    );
}
