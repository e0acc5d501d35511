//! Settings of the server and their defaults.

use vstd::prelude::*;
use vstd::string::StringExecFns;
use std::path::PathBuf;

verus! {

/// `PathBuf` of std, carried as it is.
#[verifier::external_type_specification]
#[verifier::external_body]
pub struct ExPathBuf(PathBuf);

/// The text that a path was made from.
pub uninterp spec fn path_text(path: PathBuf) -> Seq<char>;

/// `PathBuf::from` of std: the path that `text` spells.
#[verifier::external_body]
fn path_of(text: &str) -> (path: PathBuf)
    ensures
        path_text(path) == text@,
{
    PathBuf::from(text)
}

/// Where the database lives.
#[derive(Debug)]
pub struct Database {
    pub path: String,
}

impl Default for Database {
    fn default() -> (database: Database)
        ensures
            database.path@ == "wikilite.sqlite3"@,
    {
        Database { path: String::from_str("wikilite.sqlite3") }
    }
}

/// How and where the server logs.
#[derive(Debug)]
pub struct Logs {
    pub log_level: Option<String>,
    pub logs_dir: PathBuf,
    pub log_file_name: String,
}

impl Default for Logs {
    fn default() -> (logs: Logs)
        ensures
            logs.log_level is None,
            path_text(logs.logs_dir) == "logs"@,
            logs.log_file_name@ == "wikilite.log"@,
    {
        Logs {
            log_level: None,
            logs_dir: path_of("logs"),
            log_file_name: String::from_str("wikilite.log"),
        }
    }
}

} // verus!
