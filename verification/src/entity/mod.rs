//! What the wiki stores and hands out.

pub mod file;
pub mod page;
pub mod search;
