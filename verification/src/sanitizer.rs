//! Cleaning of submitted markup against a fixed list of what is allowed.

use vstd::prelude::*;
use vstd::string::StringExecFns;
use crate::dom::fits_parser;
use crate::headings::texts_view;

verus! {

/// What becomes of a URL that is relative.
pub enum RelativeUrls {
    /// It is removed.
    Deny,
    /// It stays as it is.
    PassThrough,
}

/// What the sanitiser makes of `dirty` when, beyond what it allows by
/// itself, it allows the tags `tags`, on every element the attributes
/// `attributes`, and in URLs the schemes `schemes`; lets relative URLs
/// pass or not; and gives every link the `rel` attribute `link_rel`.
pub uninterp spec fn cleaned(
    tags: Seq<Seq<char>>,
    attributes: Seq<Seq<char>>,
    schemes: Seq<Seq<char>>,
    relative_pass: bool,
    link_rel: Option<Seq<char>>,
    dirty: Seq<char>,
) -> Seq<char>;

pub open spec fn passes(relative: RelativeUrls) -> bool {
    relative is PassThrough
}

pub open spec fn rel_view(link_rel: Option<&str>) -> Option<Seq<char>> {
    match link_rel {
        Some(rel) => Some(rel@),
        None => None,
    }
}

/// `ammonia::Builder`: the default builder with tags, generic attributes
/// and URL schemes added, the treatment of relative URLs and the `rel` of
/// links set, and `clean` run on `dirty`. The result is a function of
/// what is handed in. The builder refuses, by a panic, the tags `script`
/// and `style`, whose content it removes, and the attribute `rel` beside a
/// `rel` that it sets itself; its parser refuses, by a panic, a text that
/// outgrows its buffers, which one of no more than `MAX_MARKUP_BYTES`
/// bytes does not: those are kept out.
#[verifier::external_body]
fn clean(
    tags: &Vec<String>,
    attributes: &Vec<String>,
    schemes: &Vec<String>,
    relative: RelativeUrls,
    link_rel: Option<&str>,
    dirty: &str,
) -> (clean: String)
    requires
        fits_parser(dirty@),
        !texts_view(tags@).contains("script"@),
        !texts_view(tags@).contains("style"@),
        link_rel is Some ==> !texts_view(attributes@).contains("rel"@),
    ensures
        clean@ == cleaned(
            texts_view(tags@),
            texts_view(attributes@),
            texts_view(schemes@),
            passes(relative),
            rel_view(link_rel),
            dirty@,
        ),
{
    let mut builder = ammonia::Builder::default();
    builder.add_tags(tags.iter().map(String::as_str));
    builder.add_generic_attributes(attributes.iter().map(String::as_str));
    builder.add_url_schemes(schemes.iter().map(String::as_str));
    builder.url_relative(match relative {
        RelativeUrls::Deny => ammonia::UrlRelative::Deny,
        RelativeUrls::PassThrough => ammonia::UrlRelative::PassThrough,
    });
    builder.link_rel(link_rel);
    builder.clean(dirty).to_string()
}

/// The tags allowed beyond the sanitiser's own.
pub open spec fn extra_tags() -> Seq<Seq<char>> {
    seq!["video"@, "source"@]
}

/// The attributes allowed on every element beyond the sanitiser's own.
pub open spec fn extra_attributes() -> Seq<Seq<char>> {
    seq!["class"@, "id"@]
}

/// The URL schemes allowed beyond the sanitiser's own.
pub open spec fn extra_schemes() -> Seq<Seq<char>> {
    seq!["mailto"@]
}

/// The `rel` attribute that every link receives.
pub open spec fn forced_rel() -> Seq<char> {
    "noopener noreferrer"@
}

/// Submitted markup as the fixed policy cleans it.
pub open spec fn sanitized(dirty: Seq<char>) -> Seq<char> {
    cleaned(extra_tags(), extra_attributes(), extra_schemes(), true, Some(forced_rel()), dirty)
}

/// Cleans submitted markup. What is not allowed is removed; nothing makes
/// the cleaning fail. The sanitiser takes no text of more than
/// `MAX_MARKUP_BYTES` bytes.
pub fn sanitize_html(dirty_html: &str) -> (clean_html: String)
    requires
        fits_parser(dirty_html@),
    ensures
        clean_html@ == sanitized(dirty_html@),
{
    let mut tags: Vec<String> = Vec::new();
    tags.push(String::from_str("video"));
    tags.push(String::from_str("source"));
    let mut attributes: Vec<String> = Vec::new();
    attributes.push(String::from_str("class"));
    attributes.push(String::from_str("id"));
    let mut schemes: Vec<String> = Vec::new();
    schemes.push(String::from_str("mailto"));
    proof {
        reveal_strlit("video");
        reveal_strlit("source");
        reveal_strlit("script");
        reveal_strlit("style");
        reveal_strlit("class");
        reveal_strlit("id");
        reveal_strlit("rel");
        assert(texts_view(tags@) =~= extra_tags());
        assert(texts_view(attributes@) =~= extra_attributes());
        assert(texts_view(schemes@) =~= extra_schemes());
        assert("video"@.len() == 5 && "source"@.len() == 6 && "script"@.len() == 6 && "style"@.len() == 5);
        assert("source"@[1] != "script"@[1]);
        assert("video"@[0] != "style"@[0]);
        assert("class"@.len() == 5 && "id"@.len() == 2 && "rel"@.len() == 3);
    }
    clean(
        &tags,
        &attributes,
        &schemes,
        RelativeUrls::PassThrough,
        Some("noopener noreferrer"),
        dirty_html,
    )
}

} // verus!
