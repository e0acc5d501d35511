//! What a request is answered with, as far as text decides it.

use vstd::prelude::*;
use vstd::string::StringExecFns;
use crate::chars::{chars_of, leading, lemma_leading_is, same_text, sub_string};

verus! {

/// The form in which a page is handed out.
#[derive(Debug, Clone, Copy, PartialEq, Eq, Structural)]
pub enum Representation {
    /// The page as a record.
    Json,
    /// The markup of the page.
    Html,
    /// The request names a form that is not offered.
    Unsupported,
    /// The request names no form.
    NotAcceptable,
}

/// The form that an `Accept` header asks for.
pub open spec fn representation_of(accept: Option<Seq<char>>) -> Representation {
    match accept {
        None => Representation::NotAcceptable,
        Some(value) => if value == "application/json"@ {
            Representation::Json
        } else if value == "text/html"@ {
            Representation::Html
        } else {
            Representation::Unsupported
        },
    }
}

pub open spec fn header_view(accept: Option<&str>) -> Option<Seq<char>> {
    match accept {
        Some(value) => Some(value@),
        None => None,
    }
}

/// Decides in which form a page is handed out.
pub fn negotiate(accept: Option<&str>) -> (form: Representation)
    ensures
        form == representation_of(header_view(accept)),
{
    match accept {
        None => Representation::NotAcceptable,
        Some(value) => if same_text(value, "application/json") {
            Representation::Json
        } else if same_text(value, "text/html") {
            Representation::Html
        } else {
            Representation::Unsupported
        },
    }
}

pub open spec fn is_slash() -> spec_fn(char) -> bool {
    |c: char| c == '/'
}

/// The name of the asset that a request path asks for: the path without
/// the slashes it begins with, and with `index.html` behind it where it
/// ends in a slash.
pub open spec fn asset_of(path: Seq<char>) -> Seq<char> {
    let name = path.skip(leading(path, is_slash()) as int);
    if name.len() > 0 && name.last() == '/' {
        name + "index.html"@
    } else {
        name
    }
}

/// The name of the asset that a request path asks for.
pub fn asset_path(path: &str) -> (asset: String)
    ensures
        asset@ == asset_of(path@),
{
    let chars = chars_of(path);
    let mut start: usize = 0;
    while start < chars.len() && chars[start] == '/'
        invariant
            start <= chars.len(),
            forall|k: int| 0 <= k < start ==> #[trigger] chars@[k] == '/',
        decreases chars.len() - start,
    {
        start += 1;
    }
    proof {
        lemma_leading_is(chars@, is_slash(), start as int);
        assert(chars@.subrange(start as int, chars.len() as int) =~= chars@.skip(start as int));
    }
    let mut asset = sub_string(&chars, start, chars.len());
    if chars.len() > start && chars[chars.len() - 1] == '/' {
        asset.append("index.html");
    }
    asset
}

} // verus!
