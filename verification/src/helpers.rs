//! The content pipeline: from submitted markup to the stored page.

use vstd::prelude::*;
use vstd::string::{StrSliceExecFns, StringExecFns};
use crate::chars::{tidied, tidy};
use crate::dom::{fits, fits_parser, parse_document, parsed_nodes, write_document, written_as};
use crate::error::ServerError;
use crate::extract::{raw_text, walk_forest};
use crate::headings::{
    assign_ids, collect_headings, headings_of, headings_view, texts_view, unique_slugs, with_ids,
    Heading, HeadingView,
};
use crate::links::{oversized, with_wiki_links};
use crate::markup::{text_view, well_formed, Document, NodeView};
use crate::outline::{build_collapsed, collapsed_toc, items_view, TocItem, TocItemView};
use crate::pattern::{pattern_accepted, Matcher};
pub use crate::headings::{generate_unique_slugs, slugify};
pub use crate::links::rewrite_wiki_links;
pub use crate::sanitizer::sanitize_html;

verus! {

/// How many characters a preview holds at most.
pub const PREVIEW_LENGTH: usize = 256;

/// The pattern of a wiki word: two or more joined segments, each a capital
/// letter with one or more small letters or digits behind it.
pub open spec fn wiki_word_pattern() -> Seq<char> {
    "([A-Z][a-z0-9]+(?:[A-Z][a-z0-9]+)+)"@
}

/// The pattern of what a slug does not keep: runs of characters other than
/// small letters, digits and hyphens.
pub open spec fn unwanted_pattern() -> Seq<char> {
    "[^a-z0-9\\-]+"@
}

/// The two fixed patterns, compiled.
pub struct Patterns {
    pub wiki_word: Matcher,
    pub unwanted: Matcher,
}

impl Patterns {
    /// The matchers were compiled from the fixed patterns.
    pub open spec fn fixed(&self) -> bool {
        &&& self.wiki_word.source() == wiki_word_pattern()
        &&& self.unwanted.source() == unwanted_pattern()
    }

    /// Compiles the fixed patterns. This fails only where the pattern
    /// compiler refuses one of them.
    pub fn compile() -> (made: Result<Patterns, ServerError>)
        ensures
            match made {
                Ok(patterns) => patterns.fixed() && pattern_accepted(wiki_word_pattern())
                    && pattern_accepted(unwanted_pattern()),
                Err(error) => error == ServerError::Pattern && !(pattern_accepted(
                    wiki_word_pattern(),
                ) && pattern_accepted(unwanted_pattern())),
            },
    {
        let wiki_word = match Matcher::new("([A-Z][a-z0-9]+(?:[A-Z][a-z0-9]+)+)") {
            Ok(matcher) => matcher,
            Err(error) => {
                return Err(error);
            },
        };
        let unwanted = match Matcher::new("[^a-z0-9\\-]+") {
            Ok(matcher) => matcher,
            Err(error) => {
                return Err(error);
            },
        };
        Ok(Patterns { wiki_word, unwanted })
    }
}

/// The plain text of a document: the text of its nodes laid out by
/// blocks, then tidied.
pub open spec fn plain_text(nodes: Seq<NodeView>) -> Seq<char> {
    tidied(raw_text(nodes))
}

/// Extracts the plain text of a document.
pub fn html_to_text(document: &Document) -> (text: String)
    ensures
        text@ == plain_text(document@),
{
    let mut raw = String::new();
    assert(document@.len() == document.nodes@.len());
    walk_forest(document, 0, document.nodes.len(), &mut raw);
    assert(raw@ =~= raw_text(document@));
    tidy(raw.as_str())
}

/// The first `limit` characters of a text, or all of it where it has
/// fewer.
pub open spec fn preview_of(text: Seq<char>, limit: nat) -> Seq<char> {
    if text.len() < limit {
        text
    } else {
        text.take(limit as int)
    }
}

/// Bounds `input` to `limit` characters. The cut falls between
/// characters, never inside one.
pub fn trim_preview(input: &str, limit: usize) -> (preview: &str)
    ensures
        preview@ == preview_of(input@, limit as nat),
{
    if input.unicode_len() < limit {
        input
    } else {
        let cut = input.substring_char(0, limit);
        assert(input@.subrange(0, limit as int) =~= input@.take(limit as int));
        cut
    }
}

/// Bounds a text to the length of a preview.
pub fn trim_preview_text(input: &str) -> (preview: &str)
    ensures
        preview@ == preview_of(input@, PREVIEW_LENGTH as nat),
{
    trim_preview(input, PREVIEW_LENGTH)
}

/// The link to a heading that has the identifier `slug`.
pub open spec fn heading_link(slug: Seq<char>, text: Seq<char>) -> Seq<char> {
    "<a href=\"#"@ + slug + "\">"@ + text + "</a>"@
}

/// What a table of contents shows for a heading: a link to it where it
/// has a slug, else its bare text.
pub open spec fn entry(text: Seq<char>, slug: Option<Seq<char>>) -> Seq<char> {
    match slug {
        Some(slug) => heading_link(slug, text),
        None => text,
    }
}

/// The slug of heading `k`, where slugs are given, reach that far, and
/// hold one for it.
pub open spec fn slug_at(slugs: Option<Seq<Option<Seq<char>>>>, k: int) -> Option<Seq<char>> {
    match slugs {
        Some(slugs) => if 0 <= k < slugs.len() {
            slugs[k]
        } else {
            None
        },
        None => None,
    }
}

/// The entries of a table of contents, one for each heading.
pub open spec fn toc_items(headings: Seq<HeadingView>, slugs: Option<Seq<Option<Seq<char>>>>) -> Seq<
    TocItemView,
> {
    Seq::new(
        headings.len(),
        |k: int| TocItemView { level: headings[k].level, content: entry(headings[k].text, slug_at(slugs, k)) },
    )
}

pub open spec fn options_view(slugs: Seq<Option<String>>) -> Seq<Option<Seq<char>>> {
    slugs.map_values(|slug: Option<String>| text_view(slug))
}

pub open spec fn slugs_view(slugs: Option<&Vec<Option<String>>>) -> Option<Seq<Option<Seq<char>>>> {
    match slugs {
        Some(slugs) => Some(options_view(slugs@)),
        None => None,
    }
}

/// Every heading has the slug that stands at its place.
pub open spec fn all_linked(slugs: Seq<Seq<char>>) -> Seq<Option<Seq<char>>> {
    slugs.map_values(|slug: Seq<char>| Some(slug))
}

/// The entries for `headings`, each linked to the slug at its place where
/// there is one.
pub fn make_items(headings: &Vec<Heading>, slugs: Option<&Vec<Option<String>>>) -> (items: Vec<
    TocItem,
>)
    ensures
        items_view(items@) == toc_items(headings_view(headings@), slugs_view(slugs)),
{
    let mut items: Vec<TocItem> = Vec::new();
    let mut k: usize = 0;
    let ghost wanted = toc_items(headings_view(headings@), slugs_view(slugs));
    while k < headings.len()
        invariant
            k <= headings.len(),
            items@.len() == k,
            wanted == toc_items(headings_view(headings@), slugs_view(slugs)),
            forall|j: int| 0 <= j < k ==> (#[trigger] items@[j])@ == wanted[j],
        decreases headings.len() - k,
    {
        assert(headings_view(headings@)[k as int] == headings@[k as int]@);
        let mut content = String::new();
        let mut linked = false;
        if let Some(list) = slugs {
            if k < list.len() {
                assert(options_view(list@)[k as int] == text_view(list@[k as int]));
                if let Some(slug) = &list[k] {
                    content.append("<a href=\"#");
                    content.append(slug.as_str());
                    content.append("\">");
                    content.append(headings[k].text.as_str());
                    content.append("</a>");
                    linked = true;
                    assert(content@ =~= heading_link(slug@, headings@[k as int]@.text));
                }
            }
        }
        if !linked {
            content.append(headings[k].text.as_str());
            assert(content@ =~= headings@[k as int]@.text);
        }
        items.push(TocItem { level: headings[k].level, content });
        k += 1;
    }
    assert(items_view(items@) =~= wanted);
    items
}

/// One option for each slug, each holding its slug.
pub fn link_all(slugs: &Vec<String>) -> (linked: Vec<Option<String>>)
    ensures
        options_view(linked@) == all_linked(texts_view(slugs@)),
{
    let mut linked: Vec<Option<String>> = Vec::new();
    let mut k: usize = 0;
    while k < slugs.len()
        invariant
            k <= slugs.len(),
            linked@.len() == k,
            forall|j: int| 0 <= j < k ==> text_view(#[trigger] linked@[j]) == Some(slugs@[j]@),
        decreases slugs.len() - k,
    {
        linked.push(Some(slugs[k].clone()));
        k += 1;
    }
    assert(options_view(linked@) =~= all_linked(texts_view(slugs@)));
    linked
}

/// The table of contents of a document whose headings link to `slugs`,
/// heading by heading; none where the document has no heading with text.
pub open spec fn toc_of(nodes: Seq<NodeView>, slugs: Option<Seq<Option<Seq<char>>>>) -> Option<
    Seq<char>,
> {
    collapsed_toc(toc_items(headings_of(nodes), slugs))
}

/// Builds the table of contents of a document. The `k`-th heading links
/// to the slug at the `k`-th place; a heading without a slug there shows
/// its bare text.
pub fn generate_toc_with_links(document: &Document, slugs: Option<&Vec<Option<String>>>) -> (toc:
    Option<String>)
    ensures
        text_view(toc) == toc_of(document@, slugs_view(slugs)),
{
    let headings = collect_headings(document);
    let items = make_items(&headings, slugs);
    build_collapsed(&items)
}

/// Builds the table of contents of a document, without links.
pub fn generate_toc(document: &Document) -> (toc: Option<String>)
    ensures
        text_view(toc) == toc_of(document@, None),
{
    generate_toc_with_links(document, None)
}

/// The slugs of a document's headings, in document order.
pub open spec fn slugs_of(nodes: Seq<NodeView>, unwanted: Seq<char>) -> Seq<Seq<char>> {
    unique_slugs(headings_of(nodes), unwanted)
}

/// A document whose headings carry their slugs as identifiers.
pub open spec fn with_heading_ids(nodes: Seq<NodeView>, unwanted: Seq<char>) -> Seq<NodeView> {
    with_ids(nodes, headings_of(nodes), slugs_of(nodes, unwanted))
}

/// Gives every heading with text its slug as identifier.
pub fn assign_heading_ids(unwanted: &Matcher, document: &mut Document)
    ensures
        final(document)@ == with_heading_ids(old(document)@, unwanted.source()),
        well_formed(old(document)@) ==> well_formed(final(document)@),
{
    let headings = collect_headings(document);
    let slugs = generate_unique_slugs(unwanted, &headings);
    assign_ids(document, &headings, &slugs);
}

/// Gives every heading with text its slug as identifier and builds the
/// table of contents whose entries link to those identifiers.
pub fn assign_ids_and_generate_toc(unwanted: &Matcher, document: &mut Document) -> (toc: Option<
    String,
>)
    ensures
        final(document)@ == with_heading_ids(old(document)@, unwanted.source()),
        well_formed(old(document)@) ==> well_formed(final(document)@),
        text_view(toc) == toc_of(
            old(document)@,
            Some(all_linked(slugs_of(old(document)@, unwanted.source()))),
        ),
{
    let headings = collect_headings(document);
    let slugs = generate_unique_slugs(unwanted, &headings);
    assign_ids(document, &headings, &slugs);
    let linked = link_all(&slugs);
    let items = make_items(&headings, Some(&linked));
    build_collapsed(&items)
}

/// The document that `input` becomes: parsed, wiki words linked.
pub open spec fn linked_page(input: Seq<char>, wiki_word: Seq<char>) -> Seq<NodeView> {
    with_wiki_links(parsed_nodes(input), wiki_word)
}

/// The document that `input` becomes: parsed, wiki words linked, headings
/// identified.
pub open spec fn page_of(input: Seq<char>, wiki_word: Seq<char>, unwanted: Seq<char>) -> Seq<
    NodeView,
> {
    with_heading_ids(linked_page(input, wiki_word), unwanted)
}

/// The table of contents that belongs to `page_of`.
pub open spec fn page_toc(input: Seq<char>, wiki_word: Seq<char>, unwanted: Seq<char>) -> Option<
    Seq<char>,
> {
    let linked = linked_page(input, wiki_word);
    toc_of(linked, Some(all_linked(slugs_of(linked, unwanted))))
}

/// The parser does not take `input`, or not the text of one of its text
/// nodes once the links are written in.
pub open spec fn too_large(input: Seq<char>, wiki_word: Seq<char>) -> bool {
    !fits_parser(input) || oversized(parsed_nodes(input), wiki_word)
}

/// What transforming `input` gives: the document, which is one tree, and
/// its table of contents, exactly where nothing is too large for the
/// parser.
pub open spec fn transformed(
    page: Result<(Document, Option<String>), ServerError>,
    input: Seq<char>,
    wiki_word: Seq<char>,
    unwanted: Seq<char>,
) -> bool {
    match page {
        Ok(page) => {
            &&& !too_large(input, wiki_word)
            &&& well_formed(page.0@)
            &&& page.0@ == page_of(input, wiki_word, unwanted)
            &&& text_view(page.1) == page_toc(input, wiki_word, unwanted)
        },
        Err(error) => error == ServerError::TooLarge && too_large(input, wiki_word),
    }
}

/// Transforms markup with patterns that are compiled already. Any markup
/// is accepted that the parser takes; `ServerError::TooLarge` refuses the
/// rest.
pub fn transform_page_with(patterns: &Patterns, input: &str) -> (page: Result<
    (Document, Option<String>),
    ServerError,
>)
    ensures
        transformed(page, input@, patterns.wiki_word.source(), patterns.unwanted.source()),
{
    if !fits(input) {
        return Err(ServerError::TooLarge);
    }
    let mut document = parse_document(input);
    match rewrite_wiki_links(&patterns.wiki_word, &mut document) {
        Ok(_) => {},
        Err(error) => {
            return Err(error);
        },
    }
    let toc = assign_ids_and_generate_toc(&patterns.unwanted, &mut document);
    Ok((document, toc))
}

/// The fixed patterns are accepted by the pattern compiler.
pub open spec fn patterns_accepted() -> bool {
    pattern_accepted(wiki_word_pattern()) && pattern_accepted(unwanted_pattern())
}

/// Transforms markup into the document to store and its table of
/// contents. A fixed pattern that the pattern compiler refuses gives
/// `ServerError::Pattern`; markup that is too large for the parser gives
/// `ServerError::TooLarge`; all other markup is transformed.
pub fn transform_page(input: &str) -> (page: Result<(Document, Option<String>), ServerError>)
    ensures
        match page {
            Err(ServerError::Pattern) => !patterns_accepted(),
            _ => patterns_accepted() && transformed(
                page,
                input@,
                wiki_word_pattern(),
                unwanted_pattern(),
            ),
        },
{
    match Patterns::compile() {
        Ok(patterns) => transform_page_with(&patterns, input),
        Err(error) => Err(error),
    }
}

/// Writes a document as markup.
///
/// A list that does not describe one tree gives `ServerError::Malformed`;
/// bytes of the serialiser that are no valid UTF-8 give
/// `ServerError::Encoding`; every other document is written.
pub fn stringify_doc(document: &Document) -> (markup: Result<String, ServerError>)
    ensures
        written_as(markup, document@),
{
    write_document(document)
}

} // verus!
