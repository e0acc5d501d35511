use wikilite::chars::{chars_of, tidy, trim};
use wikilite::config::{Database, Logs};
use wikilite::entity::file::{FileEntity, FileResponse};
use wikilite::entity::page::{PageEntity, PagePreview, PageResponse, PageSelectOptions};
use wikilite::entity::search::{sanitize_token, split_words, SearchEntity, SearchRecord};
use wikilite::error::ServerError;
use wikilite::headings::{hyphenate, push_decimal, slug_from_lowered, slugify, trim_hyphens};
use wikilite::links::link_wiki_words;
use wikilite::outline::{build_collapsed, TocItem};
use wikilite::pattern::{rewrite_spans, Matcher, Rewrite};
use wikilite::routes::{asset_path, negotiate, Representation};

fn item(level: usize, content: &str) -> TocItem {
    TocItem { level, content: content.to_owned() }
}

fn file(id: i32, name: &str) -> FileEntity {
    FileEntity {
        file_id: id,
        created_at: "c".to_owned(),
        updated_at: "u".to_owned(),
        file_uuid: uuid::Uuid::from_u128(id as u128),
        file_name: name.to_owned(),
        file_size: 7,
        content_type: "text/plain".to_owned(),
    }
}

fn stored(text: &str, files: Vec<FileEntity>) -> PageEntity {
    PageEntity {
        page_id: 1,
        created_at: "2024-01-01T00:00:00Z".to_owned(),
        updated_at: "2024-01-02T00:00:00Z".to_owned(),
        page_uuid: uuid::Uuid::from_u128(9),
        page_name: "Home".to_owned(),
        page_content: "<p>x</p>".to_owned(),
        page_text: text.to_owned(),
        page_toc: Some("<ul></ul>".to_owned()),
        page_files: files,
    }
}

#[test]
fn match_expression_joins_words() {
    assert_eq!(SearchEntity::build_fts_match("rust  wiki\tpages", 20), Some("rust OR wiki OR pages".to_owned()));
    assert_eq!(SearchEntity::build_fts_match(" one ", 20), Some("one".to_owned()));
}

#[test]
fn match_expression_of_nothing_is_none() {
    assert_eq!(SearchEntity::build_fts_match("", 20), None);
    assert_eq!(SearchEntity::build_fts_match(" \t\n ", 20), None);
    assert_eq!(SearchEntity::build_fts_match("words here", 0), None);
}

#[test]
fn match_expression_is_bounded() {
    assert_eq!(SearchEntity::build_fts_match("a b c d", 2), Some("a OR b".to_owned()));
    assert_eq!(SearchEntity::build_fts_match("a b", 2), Some("a OR b".to_owned()));
    assert_eq!(SearchEntity::build_fts_match("a\u{a0}b c", 1), Some("a".to_owned()));
}

#[test]
fn match_expression_doubles_quotes() {
    assert_eq!(SearchEntity::build_fts_match("it's o'clock", 20), Some("it''s OR o''clock".to_owned()));
    assert_eq!(sanitize_token("'"), "''");
    assert_eq!(sanitize_token("plain"), "plain");
    assert_eq!(sanitize_token(""), "");
}

#[test]
fn words_are_split_at_whitespace() {
    assert_eq!(split_words("  a  bc\nd ", 10), vec!["a".to_owned(), "bc".to_owned(), "d".to_owned()]);
    assert_eq!(split_words("a b c", 2), vec!["a".to_owned(), "b".to_owned()]);
    assert!(split_words("", 3).is_empty());
}

#[test]
fn search_record_takes_all_fields() {
    let record = SearchRecord::from(SearchEntity { row_id: 4, title: "t".to_owned(), body: "b".to_owned() });
    assert_eq!(record.row_id, 4);
    assert_eq!(record.title, "t");
    assert_eq!(record.body, "b");
}

#[test]
fn file_response_takes_its_fields() {
    let response = FileResponse::from(file(3, "a.txt"));
    assert_eq!(response.file_uuid, uuid::Uuid::from_u128(3));
    assert_eq!(response.file_name, "a.txt");
    assert_eq!(response.file_size, 7);
    assert_eq!(response.content_type, "text/plain");
    assert_eq!(response.updated_at, "u");
}

#[test]
fn page_response_keeps_files_in_order() {
    let response = PageResponse::from(stored("text", vec![file(1, "one"), file(2, "two"), file(3, "three")]));
    assert_eq!(response.page_uuid, uuid::Uuid::from_u128(9));
    assert_eq!(response.page_name, "Home");
    assert_eq!(response.page_content, "<p>x</p>");
    assert_eq!(response.updated_at, "2024-01-02T00:00:00Z");
    assert_eq!(response.page_toc, Some("<ul></ul>".to_owned()));
    let names: Vec<&str> = response.page_files.iter().map(|f| f.file_name.as_str()).collect();
    assert_eq!(names, vec!["one", "two", "three"]);
    assert!(PageResponse::from(stored("text", vec![])).page_files.is_empty());
}

#[test]
fn page_preview_bounds_the_text() {
    let preview = PagePreview::from(stored(&"z".repeat(400), vec![]));
    assert_eq!(preview.preview_text, "z".repeat(256));
    assert_eq!(preview.page_name, "Home");
    assert_eq!(preview.updated_at, "2024-01-02T00:00:00Z");
    assert_eq!(preview.page_uuid, uuid::Uuid::from_u128(9));
    assert_eq!(PagePreview::from(stored("brief", vec![])).preview_text, "brief");
}

#[test]
fn select_options_default_to_no_files() {
    assert!(!PageSelectOptions::default().include_files);
}

#[test]
fn settings_have_defaults() {
    assert_eq!(Database::default().path, "wikilite.sqlite3");
    let logs = Logs::default();
    assert_eq!(logs.log_level, None);
    assert_eq!(logs.logs_dir, std::path::PathBuf::from("logs"));
    assert_eq!(logs.log_file_name, "wikilite.log");
}

#[test]
fn errors_map_to_statuses() {
    assert_eq!(ServerError::NotFound.status_code(), 404);
    assert_eq!(ServerError::Conflict.status_code(), 409);
    assert_eq!(ServerError::TokenRequestFailed.status_code(), 500);
    assert_eq!(ServerError::AuthUrlCreationFailed.status_code(), 500);
    assert_eq!(ServerError::NoGeneratedOauthUrl.status_code(), 500);
    assert_eq!(ServerError::GenerateOauthUrl.status_code(), 500);
    assert_eq!(ServerError::Pattern.status_code(), 500);
    assert_eq!(ServerError::Malformed.status_code(), 500);
    assert_eq!(ServerError::Write.status_code(), 500);
    assert_eq!(ServerError::Encoding.status_code(), 500);
    assert_eq!(ServerError::TooLarge.status_code(), 500);
}

#[test]
fn errors_have_messages() {
    assert_eq!(ServerError::TokenRequestFailed.message(), "token request failed");
    assert_eq!(ServerError::AuthUrlCreationFailed.message(), "oauth url creation failed");
    assert_eq!(ServerError::NoGeneratedOauthUrl.message(), "no generated oauth url");
    assert_eq!(ServerError::GenerateOauthUrl.message(), "failed to generate oauth url");
    assert_eq!(ServerError::NotFound.message(), "not found");
    assert_eq!(ServerError::Conflict.message(), "conflict");
    assert_eq!(ServerError::Pattern.message(), "invalid pattern");
    assert_eq!(ServerError::Malformed.message(), "malformed document");
    assert_eq!(ServerError::Write.message(), "serialization failed");
    assert_eq!(ServerError::Encoding.message(), "invalid encoding");
    assert_eq!(ServerError::TooLarge.message(), "content too large");
}

#[test]
fn refused_pattern_is_an_error() {
    assert!(matches!(Matcher::new("(unclosed"), Err(ServerError::Pattern)));
    assert!(Matcher::new("[a-z]+").is_ok());
}

#[test]
fn matcher_reports_byte_spans() {
    let matcher = Matcher::new("[0-9]+").unwrap();
    assert_eq!(matcher.spans("a12\u{e9}345 6"), vec![(1, 3), (5, 8), (9, 10)]);
    assert!(matcher.spans("none").is_empty());
}

#[test]
fn wiki_words_need_two_segments() {
    let wiki_word = Matcher::new("([A-Z][a-z0-9]+(?:[A-Z][a-z0-9]+)+)").unwrap();
    assert_eq!(link_wiki_words(&wiki_word, "WikiPage"), "<a href=\"/wiki/WikiPage\">WikiPage</a>");
    assert_eq!(link_wiki_words(&wiki_word, "Wiki HTML iPhone A1 Ab"), "Wiki HTML iPhone A1 Ab");
    assert_eq!(link_wiki_words(&wiki_word, "!WikiPage"), "!WikiPage");
    assert_eq!(
        link_wiki_words(&wiki_word, "x!WikiPage!!TwoPage"),
        "x!WikiPage!!TwoPage"
    );
    assert_eq!(
        link_wiki_words(&wiki_word, "\u{e9}!AbCd \u{4e2d}XyZz\u{e9}"),
        "\u{e9}!AbCd \u{4e2d}<a href=\"/wiki/XyZz\">XyZz</a>\u{e9}"
    );
    assert_eq!(
        link_wiki_words(&wiki_word, "Page2Go, V8B, WikiP, A1B2"),
        "<a href=\"/wiki/Page2Go\">Page2Go</a>, V8B, WikiP, <a href=\"/wiki/A1B2\">A1B2</a>"
    );
}

#[test]
fn slugs_are_made_of_small_letters_digits_and_hyphens() {
    let unwanted = Matcher::new("[^a-z0-9\\-]+").unwrap();
    assert_eq!(slugify(&unwanted, "One"), "one");
    assert_eq!(slugify(&unwanted, "Hello World"), "hello-world");
    assert_eq!(slugify(&unwanted, "a  b"), "a-b");
    assert_eq!(slugify(&unwanted, "A \t\n B\u{3000}\u{a0}C"), "a-b-c");
    assert_eq!(slugify(&unwanted, "a - b"), "a---b");
    assert_eq!(slug_from_lowered(&unwanted, "Kept As  Is"), "ept-s-s");
    assert_eq!(hyphenate("  a \t b  "), "-a-b-");
    assert_eq!(hyphenate(""), "");
    assert_eq!(hyphenate("\u{2003}"), "-");
    assert_eq!(slugify(&unwanted, " -A_b- "), "ab");
    assert_eq!(slugify(&unwanted, "Tab\tand\u{a0}space"), "tab-and-space");
    assert_eq!(slugify(&unwanted, "100% \u{4e2d}\u{6587}"), "100");
    assert_eq!(slugify(&unwanted, "!!!"), "");
    assert_eq!(slugify(&unwanted, "\u{212a}elvin"), "kelvin");
    assert_eq!(trim_hyphens("--a-b--"), "a-b");
    assert_eq!(trim_hyphens("---"), "");
}

#[test]
fn numbers_are_written_in_decimal() {
    let mut text = "n=".to_owned();
    push_decimal(&mut text, 0);
    push_decimal(&mut text, 7);
    push_decimal(&mut text, 10);
    push_decimal(&mut text, 4096);
    assert_eq!(text, "n=07104096");
    let mut most = String::new();
    push_decimal(&mut most, usize::MAX);
    assert_eq!(most, usize::MAX.to_string());
}

#[test]
fn characters_go_to_strings_and_back() {
    assert_eq!(chars_of("h\u{e9}!"), vec!['h', '\u{e9}', '!']);
    assert_eq!(trim(" \u{2003}x y\n"), "x y");
    assert_eq!(trim("   "), "");
    assert_eq!(tidy("a  \nb\t\r\n\n  c  "), "a\nb\n\n  c");
    assert_eq!(tidy("\n\nx\n\n"), "x");
}

#[test]
fn collapsing_table_opens_one_list_per_jump() {
    assert_eq!(build_collapsed(&vec![]), None);
    assert_eq!(build_collapsed(&vec![item(3, "a")]), Some("<ul><li>a</li></ul>".to_owned()));
    assert_eq!(
        build_collapsed(&vec![item(1, "a"), item(4, "b"), item(2, "c"), item(2, "d")]),
        Some("<ul><li>a<ul><li>b</li></ul></li><li>c</li><li>d</li></ul>".to_owned())
    );
    assert_eq!(
        build_collapsed(&vec![item(1, "a"), item(2, "b"), item(3, "c"), item(1, "d")]),
        Some("<ul><li>a<ul><li>b<ul><li>c</li></ul></li></ul></li><li>d</li></ul>".to_owned())
    );
}

#[test]
fn spans_are_removed_or_linked() {
    let text = "!Ab1 x\u{e9}Cd2";
    let spans = vec![(1, 4), (8, 11)];
    assert_eq!(rewrite_spans(Rewrite::Remove, text, &spans), "! x\u{e9}");
    assert_eq!(
        rewrite_spans(Rewrite::Link, text, &spans),
        "!Ab1 x\u{e9}<a href=\"/wiki/Cd2\">Cd2</a>"
    );
    assert_eq!(rewrite_spans(Rewrite::Link, text, &vec![]), text);
    assert_eq!(rewrite_spans(Rewrite::Link, "Ab", &vec![(0, 2)]), "<a href=\"/wiki/Ab\">Ab</a>");
    assert_eq!(rewrite_spans(Rewrite::Remove, "Ab", &vec![(0, 0), (0, 2), (2, 2)]), "");
}

#[test]
fn markup_length_is_tested() {
    assert!(wikilite::dom::fits(""));
    assert!(wikilite::dom::fits("<p>short</p>"));
    assert_eq!(wikilite::dom::MAX_MARKUP_BYTES, (u32::MAX / 3) as usize);
}

#[test]
fn serializer_outcomes_become_results() {
    assert_eq!(wikilite::dom::finish_markup(None), Err(ServerError::Write));
    assert_eq!(wikilite::dom::finish_markup(Some(vec![0x66, 0xff, 0x6f])), Err(ServerError::Encoding));
    assert_eq!(wikilite::dom::finish_markup(Some(vec![0xc3])), Err(ServerError::Encoding));
    assert_eq!(
        wikilite::dom::finish_markup(Some(vec![0x68, 0xc3, 0xa9])),
        Ok("h\u{e9}".to_owned())
    );
    assert_eq!(wikilite::dom::finish_markup(Some(vec![])), Ok(String::new()));
}

#[test]
fn accept_header_decides_the_form() {
    assert_eq!(negotiate(Some("application/json")), Representation::Json);
    assert_eq!(negotiate(Some("text/html")), Representation::Html);
    assert_eq!(negotiate(Some("text/plain")), Representation::Unsupported);
    assert_eq!(negotiate(Some("text/html, application/json")), Representation::Unsupported);
    assert_eq!(negotiate(Some("")), Representation::Unsupported);
    assert_eq!(negotiate(None), Representation::NotAcceptable);
}

#[test]
fn request_path_names_an_asset() {
    assert_eq!(asset_path("/index.html"), "index.html");
    assert_eq!(asset_path("//css/site.css"), "css/site.css");
    assert_eq!(asset_path("/wiki/"), "wiki/index.html");
    assert_eq!(asset_path("/"), "");
    assert_eq!(asset_path(""), "");
    assert_eq!(asset_path("plain"), "plain");
}

#[test]
fn search_terms_join_all_words() {
    assert_eq!(SearchEntity::search_terms("it's  all here"), Some("it's OR all OR here".to_owned()));
    assert_eq!(SearchEntity::search_terms("one"), Some("one".to_owned()));
    assert_eq!(SearchEntity::search_terms(" \n"), None);
    assert_eq!(SearchEntity::search_terms(""), None);
    let many = "w ".repeat(30);
    assert_eq!(SearchEntity::search_terms(&many).unwrap().matches(" OR ").count(), 29);
    assert_eq!(SearchEntity::build_fts_match(&many, 20).unwrap().matches(" OR ").count(), 19);
}
