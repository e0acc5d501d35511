//! Pattern matching on text, and rewriting a text at the places matched.
//!
//! Matching is the work of the regex crate, which reports each match as a
//! span of byte offsets. What is written in place of a span is decided here.

use vstd::prelude::*;
use vstd::string::{StringExecFns, StringSliceAdditionalSpecFns};
use vstd::utf8::{
    decode_utf8, encode_utf8_decode_utf8, encode_utf8_valid_utf8, is_char_boundary,
    is_char_boundary_iff_not_is_continuation_byte, is_char_boundary_start_end_of_seq, valid_utf8,
    valid_utf8_split,
};
use crate::error::ServerError;

verus! {

/// `regex::Regex`, a compiled pattern, carried as it is.
#[verifier::external_type_specification]
#[verifier::external_body]
pub struct ExRegex(regex::Regex);

/// `regex::Error`, the compiler's report on a refused pattern, carried as
/// it is.
#[verifier::external_type_specification]
#[verifier::external_body]
pub struct ExRegexError(regex::Error);

/// The pattern that a matcher was compiled from.
pub uninterp spec fn pattern_source(matcher: regex::Regex) -> Seq<char>;

/// Whether the pattern compiler accepts `pattern`.
pub uninterp spec fn pattern_accepted(pattern: Seq<char>) -> bool;

/// The matches of `pattern` in `text`, in order, each as the byte offsets
/// of its first byte and of the byte after its last.
pub uninterp spec fn pattern_spans(pattern: Seq<char>, text: Seq<char>) -> Seq<(usize, usize)>;

/// A span lies within `bytes` and cuts no character in two.
pub open spec fn span_fits(span: (usize, usize), bytes: Seq<u8>) -> bool {
    &&& span.0 <= span.1 <= bytes.len()
    &&& is_char_boundary(bytes, span.0 as int)
    &&& is_char_boundary(bytes, span.1 as int)
}

/// Every span fits, and each ends before the next begins.
pub open spec fn spans_fit(spans: Seq<(usize, usize)>, bytes: Seq<u8>) -> bool {
    &&& forall|i: int| 0 <= i < spans.len() ==> span_fits(#[trigger] spans[i], bytes)
    &&& forall|i: int, j: int|
        0 <= i < j < spans.len() ==> (#[trigger] spans[i]).1 <= (#[trigger] spans[j]).0
}

/// `Regex::new`: compiles a pattern, or reports why it is refused. Whether
/// a pattern is accepted depends on the pattern alone.
#[verifier::external_body]
fn compile(pattern: &str) -> (compiled: Result<regex::Regex, regex::Error>)
    ensures
        compiled is Ok <==> pattern_accepted(pattern@),
        compiled matches Ok(matcher) ==> pattern_source(matcher) == pattern@,
{
    regex::Regex::new(pattern)
}

/// `Regex::find_iter`: the successive matches that do not overlap, as byte
/// offsets into `text`. Each match begins and ends at a character boundary,
/// begins no later than it ends, and begins no earlier than the one before
/// it ends.
#[verifier::external_body]
fn find_spans(matcher: &regex::Regex, text: &str) -> (spans: Vec<(usize, usize)>)
    ensures
        spans@ == pattern_spans(pattern_source(*matcher), text@),
        spans_fit(spans@, text.spec_bytes()),
{
    matcher.find_iter(text).map(|m| (m.start(), m.end())).collect()
}

/// A compiled pattern.
pub struct Matcher {
    compiled: regex::Regex,
}

impl Matcher {
    /// The pattern this matcher was compiled from.
    pub closed spec fn source(&self) -> Seq<char> {
        pattern_source(self.compiled)
    }

    /// Compiles `pattern`. A pattern that the compiler refuses gives
    /// `ServerError::Pattern`.
    pub fn new(pattern: &str) -> (made: Result<Matcher, ServerError>)
        ensures
            match made {
                Ok(matcher) => pattern_accepted(pattern@) && matcher.source() == pattern@,
                Err(error) => !pattern_accepted(pattern@) && error == ServerError::Pattern,
            },
    {
        match compile(pattern) {
            Ok(compiled) => Ok(Matcher { compiled }),
            Err(_) => Err(ServerError::Pattern),
        }
    }

    /// The matches in `text`, in order.
    pub fn spans(&self, text: &str) -> (spans: Vec<(usize, usize)>)
        ensures
            spans@ == pattern_spans(self.source(), text@),
            spans_fit(spans@, text.spec_bytes()),
    {
        find_spans(&self.compiled, text)
    }
}

/// The characters that the bytes from `from` up to `to` encode.
pub open spec fn piece(bytes: Seq<u8>, from: int, to: int) -> Seq<char> {
    decode_utf8(bytes.subrange(from, to))
}

/// Where the text before span `k` begins: at the end of the span before
/// it, or at the start of the text.
pub open spec fn gap_start(spans: Seq<(usize, usize)>, k: int) -> int {
    if k <= 0 {
        0
    } else {
        spans[k - 1].1 as int
    }
}

/// A match is escaped when an exclamation mark stands just before it.
pub open spec fn escaped(bytes: Seq<u8>, start: int) -> bool {
    start > 0 && bytes[start - 1] == 0x21
}

/// The link that a wiki word becomes.
pub open spec fn anchor_to(word: Seq<char>) -> Seq<char> {
    "<a href=\"/wiki/"@ + word + "\">"@ + word + "</a>"@
}

/// How matches are rewritten.
pub enum Rewrite {
    /// A match becomes a link to the page it names, unless it is escaped.
    Link,
    /// A match is left out.
    Remove,
}

/// What stands in place of the match from `start` up to `end`.
pub open spec fn replacement(rewrite: Rewrite, bytes: Seq<u8>, start: int, end: int) -> Seq<char> {
    match rewrite {
        Rewrite::Remove => Seq::empty(),
        Rewrite::Link => if escaped(bytes, start) {
            piece(bytes, start, end)
        } else {
            anchor_to(piece(bytes, start, end))
        },
    }
}

/// The rewritten text up to the end of span `k - 1`.
pub open spec fn rewritten_upto(
    rewrite: Rewrite,
    bytes: Seq<u8>,
    spans: Seq<(usize, usize)>,
    k: int,
) -> Seq<char>
    decreases k,
{
    if k <= 0 {
        Seq::empty()
    } else {
        let span = spans[k - 1];
        rewritten_upto(rewrite, bytes, spans, k - 1) + piece(
            bytes,
            gap_start(spans, k - 1),
            span.0 as int,
        ) + replacement(rewrite, bytes, span.0 as int, span.1 as int)
    }
}

/// The text with every span rewritten and all else kept.
pub open spec fn rewritten(rewrite: Rewrite, bytes: Seq<u8>, spans: Seq<(usize, usize)>) -> Seq<
    char,
> {
    rewritten_upto(rewrite, bytes, spans, spans.len() as int) + piece(
        bytes,
        gap_start(spans, spans.len() as int),
        bytes.len() as int,
    )
}

/// A character boundary of a text is one of its tail from an earlier
/// boundary on.
proof fn lemma_boundary_in_tail(bytes: Seq<u8>, from: int, to: int)
    requires
        valid_utf8(bytes),
        0 <= from <= to <= bytes.len(),
        is_char_boundary(bytes, from),
        is_char_boundary(bytes, to),
    ensures
        valid_utf8(bytes.subrange(from, bytes.len() as int)),
        is_char_boundary(bytes.subrange(from, bytes.len() as int), to - from),
{
    let tail = bytes.subrange(from, bytes.len() as int);
    valid_utf8_split(bytes, from);
    if to == bytes.len() {
        is_char_boundary_start_end_of_seq(tail);
    } else if to == from {
        is_char_boundary_start_end_of_seq(tail);
    } else {
        is_char_boundary_iff_not_is_continuation_byte(bytes, to);
        is_char_boundary_iff_not_is_continuation_byte(tail, to - from);
        assert(tail[to - from] == bytes[to]);
    }
}

/// The part of `text` between two character boundaries.
pub(crate) fn slice<'a>(text: &'a str, from: usize, to: usize) -> (part: &'a str)
    requires
        from <= to <= text.spec_bytes().len(),
        is_char_boundary(text.spec_bytes(), from as int),
        is_char_boundary(text.spec_bytes(), to as int),
    ensures
        part@ == piece(text.spec_bytes(), from as int, to as int),
{
    let ghost bytes = text.spec_bytes();
    proof {
        encode_utf8_valid_utf8(text@);
        lemma_boundary_in_tail(bytes, from as int, to as int);
    }
    let (_, tail) = text.split_at(from);
    assert(tail.spec_bytes() == bytes.subrange(from as int, bytes.len() as int));
    let (part, _) = tail.split_at(to - from);
    proof {
        assert(part.spec_bytes() =~= bytes.subrange(from as int, to as int));
        encode_utf8_decode_utf8(part@);
    }
    part
}

/// Rewrites `text` at `spans`.
pub fn rewrite_spans(rewrite: Rewrite, text: &str, spans: &Vec<(usize, usize)>) -> (out: String)
    requires
        spans_fit(spans@, text.spec_bytes()),
    ensures
        out@ == rewritten(rewrite, text.spec_bytes(), spans@),
{
    let ghost bytes = text.spec_bytes();
    let raw = text.as_bytes();
    let length = raw.len();
    let mut out = String::new();
    let mut cursor: usize = 0;
    let mut k: usize = 0;
    proof {
        encode_utf8_valid_utf8(text@);
        is_char_boundary_start_end_of_seq(bytes);
    }
    while k < spans.len()
        invariant
            k <= spans.len(),
            bytes == text.spec_bytes(),
            raw@ == bytes,
            length == bytes.len(),
            valid_utf8(bytes),
            spans_fit(spans@, bytes),
            cursor == gap_start(spans@, k as int),
            cursor <= length,
            is_char_boundary(bytes, cursor as int),
            out@ == rewritten_upto(rewrite, bytes, spans@, k as int),
        decreases spans.len() - k,
    {
        let span = spans[k];
        proof {
            assert(span_fits(spans@[k as int], bytes));
            if k > 0 {
                assert(spans@[k - 1].1 <= spans@[k as int].0);
            }
        }
        let ghost before = out@;
        out.append(slice(text, cursor, span.0));
        match rewrite {
            Rewrite::Remove => {},
            Rewrite::Link => {
                let word = slice(text, span.0, span.1);
                if span.0 > 0 && raw[span.0 - 1] == 0x21u8 {
                    out.append(word);
                } else {
                    out.append("<a href=\"/wiki/");
                    out.append(word);
                    out.append("\">");
                    out.append(word);
                    out.append("</a>");
                }
            },
        }
        assert(out@ =~= before + piece(bytes, cursor as int, span.0 as int) + replacement(
            rewrite,
            bytes,
            span.0 as int,
            span.1 as int,
        ));
        cursor = span.1;
        k += 1;
    }
    out.append(slice(text, cursor, length));
    out
}

} // verus!
