//! A table of contents straight from markup.

use vstd::prelude::*;
use crate::dom::{fits_parser, parse_document, parsed_nodes};
use crate::helpers::{generate_toc_with_links, toc_of};

verus! {

/// The table of contents of the document parsed from `html`: the
/// headings' bare texts, nested by level, a jump over levels opening one
/// nested list; empty where the document has no heading with text.
pub open spec fn toc_of_markup(html: Seq<char>) -> Seq<char> {
    match toc_of(parsed_nodes(html), None) {
        Some(toc) => toc,
        None => Seq::empty(),
    }
}

/// Builds the table of contents of `html`. The parser takes no text of
/// more than `MAX_MARKUP_BYTES` bytes.
pub fn generate_toc(html: &str) -> (toc: String)
    requires
        fits_parser(html@),
    ensures
        toc@ == toc_of_markup(html@),
{
    let document = parse_document(html);
    match generate_toc_with_links(&document, None) {
        Some(toc) => toc,
        None => String::new(),
    }
}

} // verus!
