//! Pages: what is stored of them, what is handed out, and how submitted
//! content becomes what is stored.

use vstd::prelude::*;
use vstd::std_specs::convert::FromSpec;
use vstd::utf8::{decode_utf8, valid_utf8};
use uuid::Uuid;
use crate::dom::{fits, fits_parser, serialized};
use crate::entity::file::{FileEntity, FileResponse};
use crate::error::ServerError;
use crate::helpers::{
    html_to_text, page_of, page_toc, patterns_accepted, plain_text, preview_of, stringify_doc,
    too_large, transform_page_with, trim_preview_text, unwanted_pattern, wiki_word_pattern,
    Patterns, PREVIEW_LENGTH,
};
use crate::markup::{text_view, well_formed, NodeView};
use crate::sanitizer::{sanitize_html, sanitized};

verus! {

/// A page as the database holds it.
pub struct PageEntity {
    pub page_id: i32,
    pub created_at: String,
    pub updated_at: String,
    pub page_uuid: Uuid,
    pub page_name: String,
    pub page_content: String,
    pub page_text: String,
    pub page_toc: Option<String>,
    pub page_files: Vec<FileEntity>,
}

/// A page as it is handed out.
pub struct PageResponse {
    pub page_uuid: Uuid,
    pub page_name: String,
    pub page_content: String,
    pub updated_at: String,
    pub page_files: Vec<FileResponse>,
    pub page_toc: Option<String>,
}

/// A page as a list of pages shows it.
pub struct PagePreview {
    pub page_uuid: Uuid,
    pub page_name: String,
    pub updated_at: String,
    pub preview_text: String,
}

/// What a reader of a page asks for beside the page.
#[derive(Debug, Default)]
pub struct PageSelectOptions {
    pub include_files: bool,
}

/// The three things stored of a page's content.
pub struct RenderedPage {
    pub content: String,
    pub text: String,
    pub toc: Option<String>,
}

/// The files of a page as they are handed out, one for one.
pub open spec fn responses(files: Seq<FileEntity>) -> Seq<FileResponse> {
    files.map_values(|file: FileEntity| FileResponse::from_spec(file))
}

impl PageResponse {
    /// What is handed out of a stored page: its fields as they are, its
    /// files each as a file is handed out.
    pub fn from(value: PageEntity) -> (response: PageResponse)
        ensures
            response.page_uuid == value.page_uuid,
            response.page_name == value.page_name,
            response.page_content == value.page_content,
            response.page_toc == value.page_toc,
            response.updated_at == value.updated_at,
            response.page_files@ == responses(value.page_files@),
    {
        let ghost files = value.page_files@;
        let mut page_files: Vec<FileResponse> = Vec::new();
        let mut rest = value.page_files;
        let mut reversed: Vec<FileResponse> = Vec::new();
        while rest.len() > 0
            invariant
                rest@.len() <= files.len(),
                rest@ == files.take(rest@.len() as int),
                reversed@.len() == files.len() - rest@.len(),
                forall|k: int|
                    0 <= k < reversed@.len() ==> #[trigger] reversed@[k] == FileResponse::from_spec(
                        files[files.len() - 1 - k],
                    ),
            decreases rest.len(),
        {
            let ghost before = rest@;
            let file = rest.pop().unwrap();
            assert(rest@ =~= files.take(rest@.len() as int));
            reversed.push(FileResponse::from(file));
        }
        while reversed.len() > 0
            invariant
                reversed@.len() + page_files@.len() == files.len(),
                forall|k: int|
                    0 <= k < reversed@.len() ==> #[trigger] reversed@[k] == FileResponse::from_spec(
                        files[files.len() - 1 - k],
                    ),
                forall|k: int|
                    0 <= k < page_files@.len() ==> #[trigger] page_files@[k]
                        == FileResponse::from_spec(files[k]),
            decreases reversed.len(),
        {
            let response = reversed.pop().unwrap();
            page_files.push(response);
        }
        assert(page_files@ =~= responses(files));
        PageResponse {
            page_uuid: value.page_uuid,
            page_name: value.page_name,
            page_content: value.page_content,
            page_toc: value.page_toc,
            updated_at: value.updated_at,
            page_files,
        }
    }
}

impl PagePreview {
    /// What a list shows of a stored page: its text bounded to the length
    /// of a preview.
    pub fn from(value: PageEntity) -> (preview: PagePreview)
        ensures
            preview.page_uuid == value.page_uuid,
            preview.page_name == value.page_name,
            preview.updated_at == value.updated_at,
            preview.preview_text@ == preview_of(value.page_text@, PREVIEW_LENGTH as nat),
    {
        let preview_text = trim_preview_text(value.page_text.as_str()).to_owned();
        PagePreview {
            page_uuid: value.page_uuid,
            page_name: value.page_name,
            updated_at: value.updated_at,
            preview_text,
        }
    }
}

/// The document stored for submitted content: cleaned, parsed, wiki words
/// linked, headings identified.
pub open spec fn stored_page(raw: Seq<char>, wiki_word: Seq<char>, unwanted: Seq<char>) -> Seq<
    NodeView,
> {
    page_of(sanitized(raw), wiki_word, unwanted)
}

/// The content is too large: the sanitiser does not take it, or the
/// parser does not take what the sanitiser made of it.
pub open spec fn content_too_large(raw: Seq<char>, wiki_word: Seq<char>) -> bool {
    !fits_parser(raw) || too_large(sanitized(raw), wiki_word)
}

/// What rendering gives: the three outputs of the stored document, which
/// is one tree, exactly where the content is not too large and the
/// document's bytes are valid UTF-8; else the reason.
pub open spec fn rendering(
    rendered: Result<RenderedPage, ServerError>,
    raw: Seq<char>,
    wiki_word: Seq<char>,
    unwanted: Seq<char>,
) -> bool {
    let stored = stored_page(raw, wiki_word, unwanted);
    match rendered {
        Ok(page) => {
            &&& !content_too_large(raw, wiki_word)
            &&& well_formed(stored)
            &&& valid_utf8(serialized(stored))
            &&& page.content@ == decode_utf8(serialized(stored))
            &&& page.text@ == plain_text(stored)
            &&& text_view(page.toc) == page_toc(sanitized(raw), wiki_word, unwanted)
        },
        Err(ServerError::TooLarge) => content_too_large(raw, wiki_word),
        Err(ServerError::Encoding) => !content_too_large(raw, wiki_word) && !valid_utf8(
            serialized(stored),
        ),
        Err(_) => false,
    }
}

impl PageEntity {
    /// Turns submitted content into what is stored of it, with patterns
    /// that are compiled already: the markup of the transformed document,
    /// its plain text, its table of contents. All three come from one run
    /// over one input.
    pub fn render_with(patterns: &Patterns, page_content: &str) -> (rendered: Result<
        RenderedPage,
        ServerError,
    >)
        ensures
            rendering(
                rendered,
                page_content@,
                patterns.wiki_word.source(),
                patterns.unwanted.source(),
            ),
    {
        if !fits(page_content) {
            return Err(ServerError::TooLarge);
        }
        let clean = sanitize_html(page_content);
        let (document, toc) = match transform_page_with(patterns, clean.as_str()) {
            Ok(page) => page,
            Err(error) => {
                return Err(error);
            },
        };
        let text = html_to_text(&document);
        match stringify_doc(&document) {
            Ok(content) => Ok(RenderedPage { content, text, toc }),
            Err(error) => Err(error),
        }
    }

    /// Turns submitted content into what is stored of it. The fixed
    /// patterns are compiled first; where the pattern compiler refuses one
    /// of them, that is the error.
    pub fn render(page_content: &str) -> (rendered: Result<RenderedPage, ServerError>)
        ensures
            match rendered {
                Err(ServerError::Pattern) => !patterns_accepted(),
                _ => patterns_accepted() && rendering(
                    rendered,
                    page_content@,
                    wiki_word_pattern(),
                    unwanted_pattern(),
                ),
            },
    {
        match Patterns::compile() {
            Ok(patterns) => PageEntity::render_with(&patterns, page_content),
            Err(error) => Err(error),
        }
    }
}

} // verus!
