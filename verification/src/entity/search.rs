//! Full-text search: from the words a user typed to a match expression.

use vstd::prelude::*;
use vstd::string::{StrSliceExecFns, StringExecFns};
use crate::chars::{chars_of, is_whitespace, join, push_char, sub_string, white_space};
use crate::headings::texts_view;

verus! {

/// What a user searches for.
pub struct SearchQuery {
    pub keywords: String,
}

/// A search result as it is handed out.
pub struct SearchRecord {
    pub row_id: i32,
    pub title: String,
    pub body: String,
}

/// A search result as the index holds it.
pub struct SearchEntity {
    pub row_id: i32,
    pub title: String,
    pub body: String,
}

impl From<SearchEntity> for SearchRecord {
    fn from(value: SearchEntity) -> (record: SearchRecord) {
        SearchRecord { row_id: value.row_id, title: value.title, body: value.body }
    }
}

impl vstd::std_specs::convert::FromSpecImpl<SearchEntity> for SearchRecord {
    open spec fn obeys_from_spec() -> bool {
        true
    }

    open spec fn from_spec(value: SearchEntity) -> SearchRecord {
        SearchRecord { row_id: value.row_id, title: value.title, body: value.body }
    }
}

/// A text with every single quote written twice.
pub open spec fn quoted(text: Seq<char>) -> Seq<char>
    decreases text.len(),
{
    if text.len() == 0 {
        Seq::empty()
    } else if text.last() == '\'' {
        quoted(text.drop_last()) + seq!['\'', '\'']
    } else {
        quoted(text.drop_last()).push(text.last())
    }
}

/// Where the word that holds position `i` ends: at the next whitespace or
/// at the end of the text.
pub open spec fn word_end(text: Seq<char>, i: int) -> int
    decreases text.len() - i,
{
    if 0 <= i < text.len() && !white_space(text[i]) {
        word_end(text, i + 1)
    } else {
        i
    }
}

pub proof fn lemma_word_end(text: Seq<char>, i: int)
    requires
        0 <= i <= text.len(),
    ensures
        i <= word_end(text, i) <= text.len(),
        forall|k: int| i <= k < word_end(text, i) ==> !white_space(#[trigger] text[k]),
        word_end(text, i) < text.len() ==> white_space(text[word_end(text, i)]),
    decreases text.len() - i,
{
    if i < text.len() && !white_space(text[i]) {
        lemma_word_end(text, i + 1);
    }
}

/// The words of a text from position `i` on: the runs of characters
/// between whitespace. No word is empty.
pub open spec fn words_from(text: Seq<char>, i: int) -> Seq<Seq<char>>
    decreases text.len() - i,
{
    if i < 0 || i >= text.len() {
        Seq::empty()
    } else if white_space(text[i]) {
        words_from(text, i + 1)
    } else {
        let end = word_end(text, i + 1);
        if i < end <= text.len() {
            seq![text.subrange(i, end)] + words_from(text, end)
        } else {
            Seq::empty()
        }
    }
}

/// The words of a text.
pub open spec fn words(text: Seq<char>) -> Seq<Seq<char>> {
    words_from(text, 0)
}

/// The first `limit` of `items`, or all of them where there are fewer.
pub open spec fn at_most(items: Seq<Seq<char>>, limit: nat) -> Seq<Seq<char>> {
    if items.len() <= limit {
        items
    } else {
        items.take(limit as int)
    }
}

pub open spec fn or_word() -> Seq<char> {
    " OR "@
}

/// The match expression for what a user typed: its first `max_tokens`
/// words, single quotes doubled, joined by ` OR `; none where there is no
/// word.
pub open spec fn fts_match(input: Seq<char>, max_tokens: nat) -> Option<Seq<char>> {
    let tokens = at_most(words(input), max_tokens).map_values(|word: Seq<char>| quoted(word));
    if tokens.len() == 0 {
        None
    } else {
        Some(join(tokens, or_word()))
    }
}

/// Writes every single quote of a token twice.
pub fn sanitize_token(t: &str) -> (token: String)
    ensures
        token@ == quoted(t@),
{
    let chars = chars_of(t);
    let mut token = String::new();
    let mut i: usize = 0;
    while i < chars.len()
        invariant
            i <= chars.len(),
            token@ == quoted(chars@.take(i as int)),
        decreases chars.len() - i,
    {
        assert(chars@.take(i + 1).drop_last() =~= chars@.take(i as int));
        if chars[i] == '\'' {
            push_char(&mut token, '\'');
            push_char(&mut token, '\'');
            assert(token@ =~= quoted(chars@.take(i as int)) + seq!['\'', '\'']);
        } else {
            push_char(&mut token, chars[i]);
        }
        i += 1;
    }
    assert(chars@.take(i as int) =~= chars@);
    token
}

/// The first `limit` words of `text`.
pub fn split_words(text: &str, limit: usize) -> (found: Vec<String>)
    ensures
        texts_view(found@) == at_most(words(text@), limit as nat),
{
    let chars = chars_of(text);
    let n = chars.len();
    let mut found: Vec<String> = Vec::new();
    let mut i: usize = 0;
    assert(texts_view(found@) + words_from(chars@, 0) =~= words(chars@));
    while i < n && found.len() < limit
        invariant
            i <= n == chars.len(),
            found@.len() <= limit,
            texts_view(found@) + words_from(chars@, i as int) == words(chars@),
        decreases n - i,
    {
        if is_whitespace(chars[i]) {
            i += 1;
        } else {
            let mut end: usize = i + 1;
            proof {
                lemma_word_end(chars@, i + 1);
            }
            while end < n && !is_whitespace(chars[end])
                invariant
                    i < end <= n == chars.len(),
                    word_end(chars@, end as int) == word_end(chars@, i + 1),
                decreases n - end,
            {
                end += 1;
            }
            let ghost before = texts_view(found@);
            let word = sub_string(&chars, i, end);
            found.push(word);
            proof {
                assert(texts_view(found@) =~= before.push(chars@.subrange(i as int, end as int)));
                assert(before + words_from(chars@, i as int) =~= texts_view(found@) + words_from(
                    chars@,
                    end as int,
                ));
            }
            i = end;
        }
    }
    proof {
        let all = words(chars@);
        let have = texts_view(found@);
        if i >= n {
            assert(have + words_from(chars@, i as int) =~= have);
        } else {
            assert(have.len() == limit);
            assert(all.take(limit as int) =~= have);
        }
    }
    found
}

/// What the index is asked for: all words of a query joined by ` OR `;
/// none where the query has no word.
pub open spec fn search_terms_of(keywords: Seq<char>) -> Option<Seq<char>> {
    if words(keywords).len() == 0 {
        None
    } else {
        Some(join(words(keywords), or_word()))
    }
}

/// A text has no more words than characters.
pub proof fn lemma_words_len(text: Seq<char>, i: int)
    requires
        0 <= i <= text.len(),
    ensures
        words_from(text, i).len() <= text.len() - i,
    decreases text.len() - i,
{
    if i < text.len() {
        if white_space(text[i]) {
            lemma_words_len(text, i + 1);
        } else {
            lemma_word_end(text, i + 1);
            lemma_words_len(text, word_end(text, i + 1));
        }
    }
}

impl SearchEntity {
    /// Decides what the index is asked for. A query without words asks
    /// for nothing.
    pub fn search_terms(keywords: &str) -> (terms: Option<String>)
        ensures
            crate::markup::text_view(terms) == search_terms_of(keywords@),
    {
        let length = keywords.unicode_len();
        let found = split_words(keywords, length);
        proof {
            lemma_words_len(keywords@, 0);
        }
        if found.len() == 0 {
            return None;
        }
        let ghost all = texts_view(found@);
        let mut terms = found[0].clone();
        let mut k: usize = 1;
        assert(all.take(1) =~= seq![all[0]]);
        while k < found.len()
            invariant
                1 <= k <= found.len(),
                all == texts_view(found@),
                terms@ == join(all.take(k as int), or_word()),
            decreases found.len() - k,
        {
            terms.append(" OR ");
            terms.append(found[k].as_str());
            assert(all.take(k + 1).drop_last() =~= all.take(k as int));
            k += 1;
        }
        assert(all.take(k as int) =~= all);
        Some(terms)
    }

    /// Builds the match expression for what a user typed.
    pub fn build_fts_match(input: &str, max_tokens: usize) -> (expression: Option<String>)
        ensures
            crate::markup::text_view(expression) == fts_match(input@, max_tokens as nat),
    {
        let found = split_words(input, max_tokens);
        if found.len() == 0 {
            return None;
        }
        let ghost tokens = texts_view(found@).map_values(|word: Seq<char>| quoted(word));
        let mut expression = sanitize_token(found[0].as_str());
        let mut k: usize = 1;
        assert(tokens.take(1) =~= seq![tokens[0]]);
        while k < found.len()
            invariant
                1 <= k <= found.len(),
                tokens == texts_view(found@).map_values(|word: Seq<char>| quoted(word)),
                expression@ == join(tokens.take(k as int), or_word()),
            decreases found.len() - k,
        {
            let token = sanitize_token(found[k].as_str());
            expression.append(" OR ");
            expression.append(token.as_str());
            assert(tokens.take(k + 1).drop_last() =~= tokens.take(k as int));
            k += 1;
        }
        assert(tokens.take(k as int) =~= tokens);
        Some(expression)
    }
}

} // verus!
