use wikilite::toc::generate_toc;

#[test]
fn toc_single_level() {
    let html = "<h1>One</h1><h1>Two</h1>";
    let toc = generate_toc(html);
    assert_eq!(toc, "<ul><li>One</li><li>Two</li></ul>");
}

#[test]
fn toc_nested_levels() {
    let html = "<h1>One</h1><h2>Sub</h2><h1>Two</h1>";
    let toc = generate_toc(html);
    assert_eq!(toc, "<ul><li>One<ul><li>Sub</li></ul></li><li>Two</li></ul>");
}

#[test]
fn toc_deeper_nesting() {
    let html = "<h1>One</h1><h2>A</h2><h3>B</h3><h2>C</h2><h1>Two</h1>";
    let toc = generate_toc(html);
    assert_eq!(
        toc,
        "<ul><li>One<ul><li>A<ul><li>B</li></ul></li><li>C</li></ul></li><li>Two</li></ul>"
    );
}

#[test]
fn toc_nonsequential_levels() {
    let html = "<h1>One</h1><h3>Deep</h3><h2>Back</h2>";
    let toc = generate_toc(html);
    assert_eq!(
        toc,
        "<ul><li>One<ul><li>Deep</li></ul></li><li>Back</li></ul>"
    );
}

#[test]
fn toc_without_headings_is_empty() {
    assert_eq!(generate_toc("<p>no headings</p>"), "");
    assert_eq!(generate_toc(""), "");
}
