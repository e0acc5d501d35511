//! Wiki content pipeline: sanitising submitted markup, cross-linking wiki
//! words, anchoring headings, building a table of contents and extracting
//! plain text, with the rules stated as contracts and proved.

pub mod chars;
pub mod config;
pub mod dom;
pub mod entity;
pub mod error;
pub mod extract;
pub mod headings;
pub mod helpers;
pub mod laws;
pub mod links;
pub mod markup;
pub mod outline;
pub mod pattern;
pub mod routes;
pub mod sanitizer;
pub mod toc;
