//! What holds of the pipeline whatever the input.

use vstd::prelude::*;
use vstd::utf8::{
    decode_utf8, decode_utf8_split, encode_utf8, encode_utf8_decode_utf8, encode_utf8_valid_utf8,
    is_char_boundary, is_char_boundary_iff_not_is_continuation_byte,
    is_char_boundary_start_end_of_seq, valid_utf8, valid_utf8_split,
};
use crate::headings::{
    base_slug, base_slugs, count_of, decimal, first_key, heading_text, headings_of, headings_upto,
    id_attribute, is_heading, lemma_first_key, lemma_first_key_is, lemma_headings,
    lemma_ids_keep_tree, lemma_with_ids_len, level_at,
    numbered, unique_slug, unique_slugs, with_attribute, with_id, with_ids, with_ids_upto,
    HeadingView,
};
use crate::helpers::{all_linked, heading_link, slugs_of, toc_items, with_heading_ids};
use crate::links::{fragment_for, inside_anchor, linked_text, rewrite_from};
use crate::markup::{
    distinct_attributes, distinct_keys, follows, well_formed, AttributeView, NodeDataView, NodeView,
};
use crate::outline::{close_one, collapse_fold, collapse_step, unwind, TocItemView, TocState};
use crate::pattern::{
    escaped, gap_start, piece, replacement, rewritten, rewritten_upto, span_fits, spans_fit,
    Rewrite,
};

verus! {

/// Among slugs that are all alike, as many as `n` of the first `n` are
/// like the one looked for.
proof fn lemma_count_alike(bases: Seq<Seq<char>>, n: int)
    requires
        0 <= n <= bases.len(),
        forall|k: int| 0 <= k < bases.len() ==> #[trigger] bases[k] == bases[0],
    ensures
        count_of(bases, bases[0], n) == n,
    decreases n,
{
    if n > 0 {
        lemma_count_alike(bases, n - 1);
    }
}

/// Headings that all have the same text receive the slug of that text
/// numbered in document order: the first as it is, the second with `-2`
/// behind it, the third with `-3`, and so on.
pub proof fn law_duplicate_headings_are_numbered(headings: Seq<HeadingView>, unwanted: Seq<char>)
    requires
        forall|k: int| 0 <= k < headings.len() ==> (#[trigger] headings[k]).text == headings[0].text,
    ensures
        unique_slugs(headings, unwanted).len() == headings.len(),
        forall|k: int|
            0 <= k < headings.len() ==> #[trigger] unique_slugs(headings, unwanted)[k] == numbered(
                base_slug(headings[0].text, unwanted),
                (k + 1) as nat,
            ),
{
    let bases = base_slugs(headings, unwanted);
    assert forall|k: int| 0 <= k < headings.len() implies #[trigger] unique_slugs(
        headings,
        unwanted,
    )[k] == numbered(base_slug(headings[0].text, unwanted), (k + 1) as nat) by {
        assert forall|j: int| 0 <= j < bases.len() implies #[trigger] bases[j] == bases[0] by {
            assert(headings[j].text == headings[0].text);
        }
        lemma_count_alike(bases, k);
        assert(bases[k] == bases[0]);
    }
}

/// The value of a node's `id` attribute, where it is an element that has
/// one.
pub open spec fn identifier(node: NodeView) -> Option<Seq<char>> {
    match node.data {
        NodeDataView::Element { name, attributes } => {
            let k = first_key(attributes, Seq::empty(), "id"@) as int;
            if k < attributes.len() {
                Some(attributes[k].value)
            } else {
                None
            }
        },
        _ => None,
    }
}

/// An element that was given a slug as identifier has that identifier.
pub proof fn law_identifier_is_set(node: NodeView, slug: Seq<char>)
    requires
        node.data is Element,
    ensures
        identifier(with_id(node, slug)) == Some(slug),
{
    match node.data {
        NodeDataView::Element { name, attributes } => {
            let entry = id_attribute(slug);
            lemma_first_key(attributes, Seq::empty(), "id"@);
            let k = first_key(attributes, Seq::empty(), "id"@) as int;
            let changed = with_attribute(attributes, entry);
            assert forall|j: int| 0 <= j < k implies !((#[trigger] changed[j]).namespace
                == Seq::<char>::empty() && changed[j].local == "id"@) by {
                assert(changed[j] == attributes[j]);
            }
            lemma_first_key_is(changed, Seq::empty(), "id"@, k);
        },
        _ => {},
    }
}

/// After the first `k` headings received their identifiers, each of them
/// stands changed at its place, and the places of later headings are as
/// they were.
proof fn lemma_ids_placed(nodes: Seq<NodeView>, slugs: Seq<Seq<char>>, k: int)
    requires
        0 <= k <= headings_of(nodes).len(),
        slugs.len() == headings_of(nodes).len(),
    ensures
        with_ids_upto(nodes, headings_of(nodes), slugs, k).len() == nodes.len(),
        forall|j: int|
            0 <= j < k ==> with_ids_upto(nodes, headings_of(nodes), slugs, k)[(
            #[trigger] headings_of(nodes)[j]).node as int] == with_id(
                nodes[headings_of(nodes)[j].node as int],
                slugs[j],
            ),
        forall|j: int|
            k <= j < headings_of(nodes).len() ==> with_ids_upto(nodes, headings_of(nodes), slugs, k)[(
            #[trigger] headings_of(nodes)[j]).node as int] == nodes[headings_of(nodes)[j].node as int],
    decreases k,
{
    let hs = headings_of(nodes);
    lemma_headings(nodes, nodes.len() as int);
    lemma_with_ids_len(nodes, hs, slugs, k);
    if k > 0 {
        lemma_ids_placed(nodes, slugs, k - 1);
        lemma_with_ids_len(nodes, hs, slugs, k - 1);
        let before = with_ids_upto(nodes, hs, slugs, k - 1);
        let place = hs[k - 1].node as int;
        assert(place < nodes.len());
        assert forall|j: int| 0 <= j < k implies with_ids_upto(nodes, hs, slugs, k)[(#[trigger] hs[j]).node as int]
            == with_id(nodes[hs[j].node as int], slugs[j]) by {
            if j < k - 1 {
                assert(hs[j].node < hs[k - 1].node);
            }
        }
        assert forall|j: int| k <= j < hs.len() implies with_ids_upto(nodes, hs, slugs, k)[(#[trigger] hs[j]).node as int]
            == nodes[hs[j].node as int] by {
            assert(hs[k - 1].node < hs[j].node);
        }
    }
}

/// Every heading of a document carries, once identifiers are assigned,
/// its own slug as identifier, and its entry in the table of contents
/// links to that same slug: no link of the table dangles.
pub proof fn law_toc_links_meet_identifiers(nodes: Seq<NodeView>, unwanted: Seq<char>)
    ensures
        slugs_of(nodes, unwanted).len() == headings_of(nodes).len(),
        with_heading_ids(nodes, unwanted).len() == nodes.len(),
        forall|k: int|
            0 <= k < headings_of(nodes).len() ==> {
                let heading = #[trigger] headings_of(nodes)[k];
                let slug = slugs_of(nodes, unwanted)[k];
                &&& heading.node < nodes.len()
                &&& identifier(with_heading_ids(nodes, unwanted)[heading.node as int]) == Some(slug)
                &&& toc_items(headings_of(nodes), Some(all_linked(slugs_of(nodes, unwanted))))[k].content
                    == heading_link(slug, heading.text)
            },
{
    let hs = headings_of(nodes);
    let slugs = slugs_of(nodes, unwanted);
    lemma_headings(nodes, nodes.len() as int);
    lemma_ids_placed(nodes, slugs, hs.len() as int);
    assert forall|k: int| 0 <= k < hs.len() implies {
        let heading = #[trigger] hs[k];
        let slug = slugs[k];
        &&& heading.node < nodes.len()
        &&& identifier(with_heading_ids(nodes, unwanted)[heading.node as int]) == Some(slug)
        &&& toc_items(hs, Some(all_linked(slugs)))[k].content == heading_link(slug, heading.text)
    } by {
        let place = hs[k].node as int;
        assert(is_heading(nodes, place));
        assert(nodes[place].data is Element);
        law_identifier_is_set(nodes[place], slugs[k]);
    }
}

/// Text inside an anchor is never replaced.
pub proof fn law_anchors_are_left_alone(nodes: Seq<NodeView>, wiki_word: Seq<char>, i: int)
    requires
        0 <= i < nodes.len(),
        inside_anchor(nodes, i),
    ensures
        fragment_for(nodes, wiki_word, i) is None,
{
}

/// A character boundary of a text is one of its head up to a later
/// boundary.
proof fn lemma_boundary_in_head(bytes: Seq<u8>, from: int, to: int)
    requires
        valid_utf8(bytes),
        0 <= from <= to <= bytes.len(),
        is_char_boundary(bytes, from),
        is_char_boundary(bytes, to),
    ensures
        valid_utf8(bytes.subrange(0, to)),
        is_char_boundary(bytes.subrange(0, to), from),
{
    let head = bytes.subrange(0, to);
    valid_utf8_split(bytes, to);
    if from == to {
        is_char_boundary_start_end_of_seq(head);
    } else {
        is_char_boundary_iff_not_is_continuation_byte(bytes, from);
        is_char_boundary_iff_not_is_continuation_byte(head, from);
        assert(head[from] == bytes[from]);
    }
}

/// Two neighbouring pieces of a text make one piece.
proof fn lemma_pieces_join(bytes: Seq<u8>, from: int, to: int)
    requires
        valid_utf8(bytes),
        0 <= from <= to <= bytes.len(),
        is_char_boundary(bytes, from),
        is_char_boundary(bytes, to),
    ensures
        piece(bytes, 0, from) + piece(bytes, from, to) == piece(bytes, 0, to),
{
    let head = bytes.subrange(0, to);
    lemma_boundary_in_head(bytes, from, to);
    decode_utf8_split(head, from);
    assert(head.subrange(0, from) =~= bytes.subrange(0, from));
    assert(head.subrange(from, head.len() as int) =~= bytes.subrange(from, to));
}

proof fn lemma_escaped_upto(bytes: Seq<u8>, spans: Seq<(usize, usize)>, k: int)
    requires
        valid_utf8(bytes),
        spans_fit(spans, bytes),
        0 <= k <= spans.len(),
        forall|i: int| 0 <= i < spans.len() ==> escaped(bytes, (#[trigger] spans[i]).0 as int),
    ensures
        0 <= gap_start(spans, k) <= bytes.len(),
        is_char_boundary(bytes, gap_start(spans, k)),
        rewritten_upto(Rewrite::Link, bytes, spans, k) == piece(bytes, 0, gap_start(spans, k)),
    decreases k,
{
    if k <= 0 {
        is_char_boundary_start_end_of_seq(bytes);
        assert(bytes.subrange(0, 0) =~= Seq::<u8>::empty());
        assert(decode_utf8(Seq::<u8>::empty()) =~= Seq::<char>::empty());
    } else {
        lemma_escaped_upto(bytes, spans, k - 1);
        let span = spans[k - 1];
        assert(span_fits(span, bytes));
        if k - 1 > 0 {
            assert(spans[k - 2].1 <= spans[k - 1].0);
        }
        assert(escaped(bytes, span.0 as int));
        lemma_pieces_join(bytes, gap_start(spans, k - 1), span.0 as int);
        lemma_pieces_join(bytes, span.0 as int, span.1 as int);
    }
}

/// A text whose wiki words are all escaped by an exclamation mark stays
/// as it is, mark and word alike; so does a text without wiki words.
pub proof fn law_escaped_words_are_kept(text: Seq<char>, spans: Seq<(usize, usize)>)
    requires
        spans_fit(spans, encode_utf8(text)),
        forall|i: int|
            0 <= i < spans.len() ==> escaped(encode_utf8(text), (#[trigger] spans[i]).0 as int),
    ensures
        rewritten(Rewrite::Link, encode_utf8(text), spans) == text,
{
    let bytes = encode_utf8(text);
    encode_utf8_valid_utf8(text);
    encode_utf8_decode_utf8(text);
    is_char_boundary_start_end_of_seq(bytes);
    lemma_escaped_upto(bytes, spans, spans.len() as int);
    lemma_pieces_join(bytes, gap_start(spans, spans.len() as int), bytes.len() as int);
    assert(bytes.subrange(0, bytes.len() as int) =~= bytes);
}

/// Levels rise strictly from the outermost open list to the innermost.
pub open spec fn rising(stack: Seq<nat>) -> bool {
    forall|a: int, b: int| 0 <= a < b < stack.len() ==> #[trigger] stack[a] < #[trigger] stack[b]
}

proof fn lemma_unwind(state: TocState, level: nat)
    requires
        rising(state.stack),
    ensures
        rising(unwind(state, level).stack),
        unwind(state, level).stack.len() <= state.stack.len(),
        unwind(state, level).stack.len() > 0 ==> unwind(state, level).stack.last() <= level,
    decreases state.stack.len(),
{
    if state.stack.len() > 0 && state.stack.last() > level {
        let closed = close_one(state);
        assert forall|a: int, b: int| 0 <= a < b < closed.stack.len() implies #[trigger] closed.stack[a]
            < #[trigger] closed.stack[b] by {
            assert(closed.stack[a] == state.stack[a]);
            assert(closed.stack[b] == state.stack[b]);
        }
        lemma_unwind(closed, level);
    }
}

/// While a table of contents is built, the levels of the open lists rise
/// strictly from the outermost to the innermost, and the innermost is the
/// level of the heading added last.
pub proof fn law_open_lists_rise(items: Seq<TocItemView>)
    ensures
        rising(collapse_fold(items).stack),
        items.len() > 0 ==> collapse_fold(items).stack.len() > 0 && collapse_fold(
            items,
        ).stack.last() == items.last().level,
    decreases items.len(),
{
    if items.len() > 0 {
        let before = collapse_fold(items.drop_last());
        let item = items.last();
        law_open_lists_rise(items.drop_last());
        let after = collapse_step(before, item);
        if before.stack.len() == 0 || item.level > before.stack.last() {
            assert forall|a: int, b: int| 0 <= a < b < after.stack.len() implies #[trigger] after.stack[a]
                < #[trigger] after.stack[b] by {
                if b == before.stack.len() {
                    if a < before.stack.len() - 1 {
                        assert(before.stack[a] < before.stack[before.stack.len() - 1]);
                    }
                }
            }
        } else if item.level == before.stack.last() {
        } else {
            lemma_unwind(before, item.level);
            let closed = unwind(before, item.level);
            assert forall|a: int, b: int| 0 <= a < b < after.stack.len() implies #[trigger] after.stack[a]
                < #[trigger] after.stack[b] by {
                if b == after.stack.len() - 1 {
                    assert(closed.stack[a] < closed.stack[closed.stack.len() - 1]);
                }
            }
        }
    }
}

/// What a digit counts for; anything else counts for nothing.
pub open spec fn digit_value(c: char) -> nat {
    if c == '1' {
        1
    } else if c == '2' {
        2
    } else if c == '3' {
        3
    } else if c == '4' {
        4
    } else if c == '5' {
        5
    } else if c == '6' {
        6
    } else if c == '7' {
        7
    } else if c == '8' {
        8
    } else if c == '9' {
        9
    } else {
        0
    }
}

/// The number that decimal digits spell.
pub open spec fn number_of(digits: Seq<char>) -> nat
    decreases digits.len(),
{
    if digits.len() == 0 {
        0
    } else {
        number_of(digits.drop_last()) * 10 + digit_value(digits.last())
    }
}

/// A number written in decimal spells that number.
pub proof fn law_decimal_spells_number(n: nat)
    ensures
        number_of(decimal(n)) == n,
        decimal(n).len() > 0,
    decreases n,
{
    if n < 10 {
        assert(decimal(n).drop_last() =~= Seq::<char>::empty());
        assert(number_of(decimal(n).drop_last()) == 0);
    } else {
        law_decimal_spells_number(n / 10);
        assert(decimal(n).drop_last() =~= decimal(n / 10));
    }
}

proof fn lemma_count_grows(bases: Seq<Seq<char>>, slug: Seq<char>, i: int, j: int)
    requires
        0 <= i <= j <= bases.len(),
    ensures
        count_of(bases, slug, i) <= count_of(bases, slug, j),
    decreases j - i,
{
    if i < j {
        lemma_count_grows(bases, slug, i, j - 1);
    }
}

/// Two headings with the same base slug never receive the same slug.
pub proof fn law_same_base_slugs_differ(bases: Seq<Seq<char>>, i: int, j: int)
    requires
        0 <= i < j < bases.len(),
        bases[i] == bases[j],
    ensures
        unique_slug(bases, i) != unique_slug(bases, j),
{
    let base = bases[i];
    let first = count_of(bases, base, i) + 1;
    let second = count_of(bases, base, j) + 1;
    lemma_count_grows(bases, base, i + 1, j);
    assert(count_of(bases, base, i + 1) == count_of(bases, base, i) + 1);
    assert(first < second);
    law_decimal_spells_number(first as nat);
    law_decimal_spells_number(second as nat);
    reveal_strlit("-");
    let tail = "-"@ + decimal(second as nat);
    assert(numbered(base, second as nat) =~= base + tail);
    assert((base + tail).len() == base.len() + tail.len());
    if first <= 1 {
        assert(numbered(base, first as nat) == base);
    } else {
        let head = "-"@ + decimal(first as nat);
        assert(numbered(base, first as nat) =~= base + head);
        if base + head == base + tail {
            assert((base + head).len() == base.len() + head.len());
            assert(head.len() == tail.len());
            assert forall|k: int| 0 <= k < head.len() implies head[k] == tail[k] by {
                assert((base + head)[base.len() + k] == head[k]);
                assert((base + tail)[base.len() + k] == tail[k]);
            }
            assert(head =~= tail);
            assert(decimal(first as nat) =~= head.skip(1));
            assert(decimal(second as nat) =~= tail.skip(1));
        }
    }
}

/// A tree stays a tree, with every node at its depth, when its headings
/// receive identifiers.
pub proof fn law_identifiers_keep_the_tree(nodes: Seq<NodeView>, unwanted: Seq<char>)
    requires
        well_formed(nodes),
    ensures
        well_formed(with_heading_ids(nodes, unwanted)),
{
    lemma_ids_keep_tree(
        nodes,
        headings_of(nodes),
        slugs_of(nodes, unwanted),
        headings_of(nodes).len() as int,
    );
}

} // verus!
