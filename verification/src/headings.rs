//! Headings of a document: their records, their slugs, their identifiers.

use vstd::prelude::*;
use vstd::string::{StringExecFns, StringSliceAdditionalSpecFns};
use vstd::utf8::encode_utf8;
use crate::chars::{
    chars_of, is_hyphen, is_whitespace, lemma_leading_is, lemma_trailing_is, lowercase, push_char,
    strip, strip_end, sub_string, to_lowercase, trim, trimmed, white_space,
};
use crate::markup::{
    attributes_view, clone_attributes, distinct_attributes, distinct_keys, follows, local_name,
    subtree_end, well_formed, Attribute, AttributeView, Document, Node, NodeData, NodeDataView,
    NodeView,
};
use crate::pattern::{pattern_spans, rewrite_spans, rewritten, Matcher, Rewrite};

verus! {

/// A heading: the place of its element in the document, its level, and the
/// text it holds, trimmed.
pub struct Heading {
    pub node: usize,
    pub level: usize,
    pub text: String,
}

pub struct HeadingView {
    pub node: nat,
    pub level: nat,
    pub text: Seq<char>,
}

impl View for Heading {
    type V = HeadingView;

    open spec fn view(&self) -> HeadingView {
        HeadingView { node: self.node as nat, level: self.level as nat, text: self.text@ }
    }
}

pub open spec fn headings_view(headings: Seq<Heading>) -> Seq<HeadingView> {
    headings.map_values(|h: Heading| h@)
}

/// The level that the digit of a heading's name stands for.
pub open spec fn digit_level(digit: char) -> Option<nat> {
    if digit == '1' {
        Some(1)
    } else if digit == '2' {
        Some(2)
    } else if digit == '3' {
        Some(3)
    } else if digit == '4' {
        Some(4)
    } else if digit == '5' {
        Some(5)
    } else if digit == '6' {
        Some(6)
    } else {
        None
    }
}

/// The level of the heading elements `h1` to `h6`; none for another name.
pub open spec fn heading_level(local: Seq<char>) -> Option<nat> {
    if local.len() == 2 && local[0] == 'h' {
        digit_level(local[1])
    } else {
        None
    }
}

/// The level of node `i` where it is a heading element.
pub open spec fn level_at(nodes: Seq<NodeView>, i: int) -> Option<nat> {
    match local_name(nodes[i]) {
        Some(local) => heading_level(local),
        None => None,
    }
}

/// The text that a node holds itself: that of a text node, and nothing
/// for any other.
pub open spec fn own_text(node: NodeView) -> Seq<char> {
    match node.data {
        NodeDataView::Text(text) => text,
        _ => Seq::empty(),
    }
}

/// The texts of the text nodes from `from` up to `to`, joined.
pub open spec fn texts(nodes: Seq<NodeView>, from: int, to: int) -> Seq<char>
    decreases to - from,
{
    if from >= to {
        Seq::empty()
    } else {
        texts(nodes, from, to - 1) + own_text(nodes[to - 1])
    }
}

/// The text of all text nodes below node `i`, trimmed.
pub open spec fn heading_text(nodes: Seq<NodeView>, i: int) -> Seq<char> {
    trimmed(texts(nodes, i + 1, subtree_end(nodes, i)))
}

/// Node `i` is a heading with text.
pub open spec fn is_heading(nodes: Seq<NodeView>, i: int) -> bool {
    level_at(nodes, i) is Some && heading_text(nodes, i).len() > 0
}

/// The headings among the first `n` nodes, in document order.
pub open spec fn headings_upto(nodes: Seq<NodeView>, n: int) -> Seq<HeadingView>
    decreases n,
{
    if n <= 0 {
        Seq::empty()
    } else if is_heading(nodes, n - 1) {
        headings_upto(nodes, n - 1).push(
            HeadingView {
                node: (n - 1) as nat,
                level: level_at(nodes, n - 1)->0,
                text: heading_text(nodes, n - 1),
            },
        )
    } else {
        headings_upto(nodes, n - 1)
    }
}

/// The headings of a document, in document order.
pub open spec fn headings_of(nodes: Seq<NodeView>) -> Seq<HeadingView> {
    headings_upto(nodes, nodes.len() as int)
}

/// Headings stand at places of the document, in rising order, and each is
/// a heading there.
pub proof fn lemma_headings(nodes: Seq<NodeView>, n: int)
    requires
        0 <= n <= nodes.len(),
    ensures
        forall|k: int|
            0 <= k < headings_upto(nodes, n).len() ==> {
                let h = #[trigger] headings_upto(nodes, n)[k];
                h.node < n && is_heading(nodes, h.node as int) && level_at(nodes, h.node as int)
                    == Some(h.level) && h.text == heading_text(nodes, h.node as int)
            },
        forall|a: int, b: int|
            0 <= a < b < headings_upto(nodes, n).len() ==> (#[trigger] headings_upto(nodes, n)[a]).node
                < (#[trigger] headings_upto(nodes, n)[b]).node,
    decreases n,
{
    if n > 0 {
        lemma_headings(nodes, n - 1);
    }
}

/// The level that an element's local name gives it as a heading.
pub fn level_of(local: &str) -> (level: Option<usize>)
    ensures
        match level {
            Some(l) => heading_level(local@) == Some(l as nat),
            None => heading_level(local@) is None,
        },
{
    let chars = chars_of(local);
    if chars.len() != 2 || chars[0] != 'h' {
        return None;
    }
    let digit = chars[1];
    if digit == '1' {
        Some(1)
    } else if digit == '2' {
        Some(2)
    } else if digit == '3' {
        Some(3)
    } else if digit == '4' {
        Some(4)
    } else if digit == '5' {
        Some(5)
    } else if digit == '6' {
        Some(6)
    } else {
        None
    }
}

/// The text of all text nodes below node `i`, trimmed.
pub(crate) fn text_below(document: &Document, i: usize) -> (text: String)
    requires
        i < document@.len(),
    ensures
        text@ == heading_text(document@, i as int),
{
    let end = document.subtree_end(i);
    let mut all = String::new();
    let mut k: usize = i + 1;
    while k < end
        invariant
            i < k <= end <= document@.len(),
            document@.len() == document.nodes@.len(),
            all@ == texts(document@, i + 1, k as int),
        decreases end - k,
    {
        assert(document@[k as int] == document.nodes@[k as int]@);
        match &document.nodes[k].data {
            NodeData::Text(text) => {
                all.append(text.as_str());
            },
            _ => {
                assert(all@ + own_text(document@[k as int]) =~= all@);
            },
        }
        k += 1;
    }
    trim(all.as_str())
}

/// The headings of `document`, in document order.
pub fn collect_headings(document: &Document) -> (headings: Vec<Heading>)
    ensures
        headings_view(headings@) == headings_of(document@),
{
    let count = document.nodes.len();
    assert(document@.len() == count);
    let mut headings: Vec<Heading> = Vec::new();
    let mut i: usize = 0;
    assert(headings_view(headings@) =~= headings_upto(document@, 0));
    while i < count
        invariant
            i <= count == document.nodes.len(),
            document@.len() == count,
            headings_view(headings@) == headings_upto(document@, i as int),
        decreases count - i,
    {
        assert(document@[i as int] == document.nodes@[i as int]@);
        let ghost before = headings_view(headings@);
        let level = match &document.nodes[i].data {
            NodeData::Element { name, attributes } => level_of(name.local.as_str()),
            _ => None,
        };
        if let Some(level) = level {
            let text = text_below(document, i);
            if text.as_str().unicode_len() > 0 {
                let heading = Heading { node: i, level, text };
                let ghost view = heading@;
                headings.push(heading);
                assert(headings_view(headings@) =~= before.push(view));
            }
        }
        i += 1;
    }
    headings
}

/// Every run of whitespace turned into one hyphen; all else kept.
pub open spec fn hyphenated(text: Seq<char>) -> Seq<char>
    decreases text.len(),
{
    if text.len() == 0 {
        Seq::empty()
    } else if !white_space(text.last()) {
        hyphenated(text.drop_last()).push(text.last())
    } else if text.len() >= 2 && white_space(text[text.len() - 2]) {
        hyphenated(text.drop_last())
    } else {
        hyphenated(text.drop_last()).push('-')
    }
}

/// The slug of a text that is in lowercase already: runs of whitespace
/// turned into single hyphens, every match of `unwanted` left out, no
/// hyphen at either end.
pub open spec fn slug_of_lowered(lowered: Seq<char>, unwanted: Seq<char>) -> Seq<char> {
    let dashed = hyphenated(lowered);
    strip(rewritten(Rewrite::Remove, encode_utf8(dashed), pattern_spans(unwanted, dashed)), is_hyphen())
}

/// The slug of a heading's text: lowercase, runs of whitespace turned into
/// single hyphens, every match of `unwanted` left out, no hyphen at either
/// end.
pub open spec fn base_slug(text: Seq<char>, unwanted: Seq<char>) -> Seq<char> {
    slug_of_lowered(lowercase(text), unwanted)
}

/// `text` without hyphens at either end.
pub fn trim_hyphens(text: &str) -> (kept: String)
    ensures
        kept@ == strip(text@, is_hyphen()),
{
    let chars = chars_of(text);
    let mut end: usize = chars.len();
    while end > 0 && chars[end - 1] == '-'
        invariant
            end <= chars.len(),
            forall|k: int| end <= k < chars.len() ==> #[trigger] chars@[k] == '-',
        decreases end,
    {
        end -= 1;
    }
    let mut start: usize = 0;
    while start < end && chars[start] == '-'
        invariant
            start <= end <= chars.len(),
            forall|k: int| 0 <= k < start ==> #[trigger] chars@[k] == '-',
        decreases end - start,
    {
        start += 1;
    }
    proof {
        lemma_trailing_is(chars@, is_hyphen(), chars.len() - end);
        let kept = strip_end(chars@, is_hyphen());
        assert(kept =~= chars@.take(end as int));
        lemma_leading_is(kept, is_hyphen(), start as int);
        assert(chars@.subrange(start as int, end as int) =~= kept.skip(start as int));
    }
    sub_string(&chars, start, end)
}

/// `text` with every run of whitespace turned into one hyphen.
pub fn hyphenate(text: &str) -> (dashed: String)
    ensures
        dashed@ == hyphenated(text@),
{
    let chars = chars_of(text);
    let mut dashed = String::new();
    let mut in_run = false;
    let mut i: usize = 0;
    while i < chars.len()
        invariant
            i <= chars.len(),
            dashed@ == hyphenated(chars@.take(i as int)),
            in_run <==> (i > 0 && white_space(chars@[i - 1])),
        decreases chars.len() - i,
    {
        let c = chars[i];
        let space = is_whitespace(c);
        proof {
            let upto = chars@.take(i + 1);
            assert(upto.drop_last() =~= chars@.take(i as int));
            assert(upto.last() == c);
            if i > 0 {
                assert(upto[upto.len() - 2] == chars@[i - 1]);
            }
        }
        if !space {
            push_char(&mut dashed, c);
        } else if !in_run {
            push_char(&mut dashed, '-');
        }
        in_run = space;
        i += 1;
    }
    assert(chars@.take(i as int) =~= chars@);
    dashed
}

/// The slug of a text that is in lowercase already.
pub fn slug_from_lowered(unwanted: &Matcher, lowered: &str) -> (slug: String)
    ensures
        slug@ == slug_of_lowered(lowered@, unwanted.source()),
{
    let dashed = hyphenate(lowered);
    let spans = unwanted.spans(dashed.as_str());
    let kept = rewrite_spans(Rewrite::Remove, dashed.as_str(), &spans);
    trim_hyphens(kept.as_str())
}

/// The slug of `text`.
pub fn slugify(unwanted: &Matcher, text: &str) -> (slug: String)
    ensures
        slug@ == base_slug(text@, unwanted.source()),
{
    let lower = to_lowercase(text);
    slug_from_lowered(unwanted, lower.as_str())
}

/// The decimal digit for a number below ten.
pub open spec fn digit(n: nat) -> char {
    if n == 0 {
        '0'
    } else if n == 1 {
        '1'
    } else if n == 2 {
        '2'
    } else if n == 3 {
        '3'
    } else if n == 4 {
        '4'
    } else if n == 5 {
        '5'
    } else if n == 6 {
        '6'
    } else if n == 7 {
        '7'
    } else if n == 8 {
        '8'
    } else {
        '9'
    }
}

/// A number written in decimal.
pub open spec fn decimal(n: nat) -> Seq<char>
    decreases n,
{
    if n < 10 {
        seq![digit(n)]
    } else {
        decimal(n / 10).push(digit(n % 10))
    }
}

fn digit_char(n: usize) -> (c: char)
    requires
        n < 10,
    ensures
        c == digit(n as nat),
{
    if n == 0 {
        '0'
    } else if n == 1 {
        '1'
    } else if n == 2 {
        '2'
    } else if n == 3 {
        '3'
    } else if n == 4 {
        '4'
    } else if n == 5 {
        '5'
    } else if n == 6 {
        '6'
    } else if n == 7 {
        '7'
    } else if n == 8 {
        '8'
    } else {
        '9'
    }
}

/// Appends `n` in decimal.
pub fn push_decimal(text: &mut String, n: usize)
    ensures
        final(text)@ == old(text)@ + decimal(n as nat),
    decreases n,
{
    if n < 10 {
        push_char(text, digit_char(n));
        assert(text@ =~= old(text)@ + decimal(n as nat));
    } else {
        push_decimal(text, n / 10);
        push_char(text, digit_char(n % 10));
        assert(text@ =~= old(text)@ + decimal(n as nat));
    }
}

/// How many of the first `n` slugs equal `slug`.
pub open spec fn count_of(slugs: Seq<Seq<char>>, slug: Seq<char>, n: int) -> nat
    decreases n,
{
    if n <= 0 {
        0
    } else if slugs[n - 1] == slug {
        count_of(slugs, slug, n - 1) + 1
    } else {
        count_of(slugs, slug, n - 1)
    }
}

/// A slug as its `n`-th occurrence carries it: the first as it is, a later
/// one with a hyphen and its number behind it.
pub open spec fn numbered(slug: Seq<char>, n: nat) -> Seq<char> {
    if n <= 1 {
        slug
    } else {
        slug + "-"@ + decimal(n)
    }
}

/// The slugs of the headings' texts, before they are told apart.
pub open spec fn base_slugs(headings: Seq<HeadingView>, unwanted: Seq<char>) -> Seq<Seq<char>> {
    headings.map_values(|h: HeadingView| base_slug(h.text, unwanted))
}

/// The slug that heading `k` receives: its base slug, numbered by how many
/// headings up to it have that base slug.
pub open spec fn unique_slug(bases: Seq<Seq<char>>, k: int) -> Seq<char> {
    numbered(bases[k], count_of(bases, bases[k], k) + 1)
}

/// The slugs of all headings, in their order.
pub open spec fn unique_slugs(headings: Seq<HeadingView>, unwanted: Seq<char>) -> Seq<Seq<char>> {
    Seq::new(headings.len(), |k: int| unique_slug(base_slugs(headings, unwanted), k))
}

pub open spec fn texts_view(texts: Seq<String>) -> Seq<Seq<char>> {
    texts.map_values(|t: String| t@)
}

/// One slug for each heading, in the headings' order.
pub fn generate_unique_slugs(unwanted: &Matcher, headings: &Vec<Heading>) -> (slugs: Vec<String>)
    ensures
        texts_view(slugs@) == unique_slugs(headings_view(headings@), unwanted.source()),
{
    let ghost wanted = base_slugs(headings_view(headings@), unwanted.source());
    let mut bases: Vec<String> = Vec::new();
    let mut i: usize = 0;
    while i < headings.len()
        invariant
            i <= headings.len(),
            bases@.len() == i,
            wanted == base_slugs(headings_view(headings@), unwanted.source()),
            forall|k: int| 0 <= k < i ==> (#[trigger] bases@[k])@ == wanted[k],
        decreases headings.len() - i,
    {
        bases.push(slugify(unwanted, headings[i].text.as_str()));
        i += 1;
    }
    let mut slugs: Vec<String> = Vec::new();
    let mut k: usize = 0;
    while k < bases.len()
        invariant
            k <= bases.len() == headings.len(),
            wanted.len() == bases.len(),
            slugs@.len() == k,
            forall|j: int| 0 <= j < bases.len() ==> (#[trigger] bases@[j])@ == wanted[j],
            forall|j: int| 0 <= j < k ==> (#[trigger] slugs@[j])@ == unique_slug(wanted, j),
        decreases bases.len() - k,
    {
        let mut seen: usize = 0;
        let mut j: usize = 0;
        while j < k
            invariant
                j <= k < bases.len(),
                wanted.len() == bases.len(),
                seen == count_of(wanted, wanted[k as int], j as int),
                seen <= j,
                forall|m: int| 0 <= m < bases.len() ==> (#[trigger] bases@[m])@ == wanted[m],
            decreases k - j,
        {
            if bases[j] == bases[k] {
                seen += 1;
            }
            j += 1;
        }
        let mut slug = bases[k].clone();
        if seen > 0 {
            slug.append("-");
            push_decimal(&mut slug, seen + 1);
        }
        assert(slug@ =~= unique_slug(wanted, k as int));
        slugs.push(slug);
        k += 1;
    }
    assert(texts_view(slugs@) =~= unique_slugs(headings_view(headings@), unwanted.source()));
    slugs
}

/// The place of the first attribute with the given namespace and local
/// name, or the number of attributes where none has them.
pub open spec fn first_key(attributes: Seq<AttributeView>, namespace: Seq<char>, local: Seq<char>) -> nat
    decreases attributes.len(),
{
    if attributes.len() == 0 || (attributes[0].namespace == namespace && attributes[0].local
        == local) {
        0
    } else {
        1 + first_key(attributes.drop_first(), namespace, local)
    }
}

pub proof fn lemma_first_key_is(
    attributes: Seq<AttributeView>,
    namespace: Seq<char>,
    local: Seq<char>,
    n: int,
)
    requires
        0 <= n <= attributes.len(),
        forall|k: int|
            0 <= k < n ==> !((#[trigger] attributes[k]).namespace == namespace && attributes[k].local
                == local),
        n < attributes.len() ==> attributes[n].namespace == namespace && attributes[n].local == local,
    ensures
        first_key(attributes, namespace, local) == n,
    decreases attributes.len(),
{
    if n > 0 {
        let rest = attributes.drop_first();
        assert(!(attributes[0].namespace == namespace && attributes[0].local == local));
        assert forall|k: int| 0 <= k < n - 1 implies !((#[trigger] rest[k]).namespace == namespace
            && rest[k].local == local) by {
            assert(rest[k] == attributes[k + 1]);
        }
        if n < attributes.len() {
            assert(rest[n - 1] == attributes[n]);
        }
        lemma_first_key_is(rest, namespace, local, n - 1);
    }
}

/// The attributes with `entry` in place of the one that has its key, or
/// behind them all where none has it.
pub open spec fn with_attribute(attributes: Seq<AttributeView>, entry: AttributeView) -> Seq<
    AttributeView,
> {
    let k = first_key(attributes, entry.namespace, entry.local) as int;
    if k < attributes.len() {
        attributes.update(k, entry)
    } else {
        attributes.push(entry)
    }
}

/// The attribute `id` with `slug` for its value: no namespace, no prefix.
pub open spec fn id_attribute(slug: Seq<char>) -> AttributeView {
    AttributeView { namespace: Seq::empty(), local: "id"@, prefix: None, value: slug }
}

/// An element with `slug` for its identifier; any other node as it is.
pub open spec fn with_id(node: NodeView, slug: Seq<char>) -> NodeView {
    match node.data {
        NodeDataView::Element { name, attributes } => NodeView {
            depth: node.depth,
            data: NodeDataView::Element {
                name,
                attributes: with_attribute(attributes, id_attribute(slug)),
            },
        },
        _ => node,
    }
}

/// A copy of `node` that has `slug` for its identifier.
pub fn set_id(node: &Node, slug: &String) -> (changed: Node)
    ensures
        changed@ == with_id(node@, slug@),
{
    match &node.data {
        NodeData::Element { name, attributes } => {
            let mut list = clone_attributes(attributes);
            let ghost views = attributes_view(attributes@);
            assert(attributes_view(list@).len() == list@.len());
            let entry = Attribute {
                namespace: String::new(),
                local: String::from_str("id"),
                prefix: None,
                value: slug.clone(),
            };
            assert(entry@ == id_attribute(slug@));
            let id = String::from_str("id");
            let mut k: usize = 0;
            while k < list.len() && !(list[k].namespace.as_str().unicode_len() == 0 && list[k].local
                == id)
                invariant
                    k <= list.len(),
                    id@ == "id"@,
                    views == attributes_view(list@),
                    forall|j: int|
                        0 <= j < k ==> !((#[trigger] views[j]).namespace == Seq::<char>::empty()
                            && views[j].local == "id"@),
                decreases list.len() - k,
            {
                assert(views[k as int] == list@[k as int]@);
                assert(views[k as int].namespace.len() == 0 ==> views[k as int].namespace
                    =~= Seq::<char>::empty());
                k += 1;
            }
            proof {
                if k < list.len() {
                    assert(views[k as int] == list@[k as int]@);
                    assert(views[k as int].namespace =~= Seq::<char>::empty());
                }
                lemma_first_key_is(views, Seq::empty(), "id"@, k as int);
            }
            if k < list.len() {
                list.set(k, entry);
                assert(attributes_view(list@) =~= views.update(k as int, id_attribute(slug@)));
            } else {
                list.push(entry);
                assert(attributes_view(list@) =~= views.push(id_attribute(slug@)));
            }
            Node { depth: node.depth, data: NodeData::Element { name: name.clone(), attributes: list } }
        },
        _ => node.clone(),
    }
}

/// The nodes after the first `k` headings received their slugs as
/// identifiers. A heading without a slug, or one that names no place of
/// the document, changes nothing.
pub open spec fn with_ids_upto(
    nodes: Seq<NodeView>,
    headings: Seq<HeadingView>,
    slugs: Seq<Seq<char>>,
    k: int,
) -> Seq<NodeView>
    decreases k,
{
    if k <= 0 {
        nodes
    } else {
        let before = with_ids_upto(nodes, headings, slugs, k - 1);
        let place = headings[k - 1].node as int;
        if k - 1 < slugs.len() && place < nodes.len() {
            before.update(place, with_id(before[place], slugs[k - 1]))
        } else {
            before
        }
    }
}

/// The nodes after every heading received its slug as identifier.
pub open spec fn with_ids(nodes: Seq<NodeView>, headings: Seq<HeadingView>, slugs: Seq<Seq<char>>) -> Seq<
    NodeView,
> {
    with_ids_upto(nodes, headings, slugs, headings.len() as int)
}

pub proof fn lemma_with_ids_len(
    nodes: Seq<NodeView>,
    headings: Seq<HeadingView>,
    slugs: Seq<Seq<char>>,
    k: int,
)
    ensures
        with_ids_upto(nodes, headings, slugs, k).len() == nodes.len(),
    decreases k,
{
    if k > 0 {
        lemma_with_ids_len(nodes, headings, slugs, k - 1);
    }
}

/// Before the first attribute with a key none has it, and that one has
/// it.
pub proof fn lemma_first_key(attributes: Seq<AttributeView>, namespace: Seq<char>, local: Seq<char>)
    ensures
        first_key(attributes, namespace, local) <= attributes.len(),
        forall|k: int|
            0 <= k < first_key(attributes, namespace, local) ==> !((#[trigger] attributes[k]).namespace
                == namespace && attributes[k].local == local),
        first_key(attributes, namespace, local) < attributes.len() ==> {
            let found = attributes[first_key(attributes, namespace, local) as int];
            found.namespace == namespace && found.local == local
        },
    decreases attributes.len(),
{
    if !(attributes.len() == 0 || (attributes[0].namespace == namespace && attributes[0].local
        == local)) {
        let rest = attributes.drop_first();
        lemma_first_key(rest, namespace, local);
        let n = first_key(attributes, namespace, local) as int;
        assert forall|k: int| 0 <= k < n implies !((#[trigger] attributes[k]).namespace == namespace
            && attributes[k].local == local) by {
            if k > 0 {
                assert(attributes[k] == rest[k - 1]);
            }
        }
        if n < attributes.len() {
            assert(attributes[n] == rest[n - 1]);
        }
    }
}

/// Setting an attribute leaves no key twice.
pub proof fn lemma_attribute_keeps_keys(attributes: Seq<AttributeView>, entry: AttributeView)
    requires
        distinct_keys(attributes),
    ensures
        distinct_keys(with_attribute(attributes, entry)),
{
    lemma_first_key(attributes, entry.namespace, entry.local);
    let k = first_key(attributes, entry.namespace, entry.local) as int;
    let changed = with_attribute(attributes, entry);
    assert forall|i: int, j: int| 0 <= i < j < changed.len() implies !((#[trigger] changed[i]).namespace
        == (#[trigger] changed[j]).namespace && changed[i].local == changed[j].local) by {
        if k < attributes.len() {
            if i == k {
                assert(changed[j] == attributes[j]);
                assert(!(attributes[k].namespace == attributes[j].namespace && attributes[k].local
                    == attributes[j].local));
            } else if j == k {
                assert(changed[i] == attributes[i]);
            } else {
                assert(changed[i] == attributes[i] && changed[j] == attributes[j]);
            }
        } else {
            if j == attributes.len() {
                assert(changed[i] == attributes[i]);
            } else {
                assert(changed[i] == attributes[i] && changed[j] == attributes[j]);
            }
        }
    }
}

/// A tree stays a tree, with every node at its depth, while headings
/// receive identifiers.
pub proof fn lemma_ids_keep_tree(
    nodes: Seq<NodeView>,
    headings: Seq<HeadingView>,
    slugs: Seq<Seq<char>>,
    k: int,
)
    requires
        well_formed(nodes),
        0 <= k,
    ensures
        well_formed(with_ids_upto(nodes, headings, slugs, k)),
        with_ids_upto(nodes, headings, slugs, k).len() == nodes.len(),
        forall|i: int|
            0 <= i < nodes.len() ==> (#[trigger] with_ids_upto(nodes, headings, slugs, k)[i]).depth
                == nodes[i].depth,
    decreases k,
{
    if k > 0 {
        lemma_ids_keep_tree(nodes, headings, slugs, k - 1);
        let before = with_ids_upto(nodes, headings, slugs, k - 1);
        let after = with_ids_upto(nodes, headings, slugs, k);
        let place = headings[k - 1].node as int;
        if k - 1 < slugs.len() && place < nodes.len() {
            assert(distinct_attributes(before[place]));
            match before[place].data {
                NodeDataView::Element { name, attributes } => {
                    lemma_attribute_keeps_keys(attributes, id_attribute(slugs[k - 1]));
                },
                _ => {},
            }
            assert forall|i: int| 1 <= i < after.len() implies #[trigger] follows(after, i) by {
                assert(follows(before, i));
            }
            assert forall|i: int| 0 <= i < after.len() implies distinct_attributes(
                #[trigger] after[i],
            ) by {
                if i != place {
                    assert(distinct_attributes(before[i]));
                }
            }
        }
    }
}

/// Gives each heading its slug as identifier.
pub fn assign_ids(document: &mut Document, headings: &Vec<Heading>, slugs: &Vec<String>)
    ensures
        final(document)@ == with_ids(
            old(document)@,
            headings_view(headings@),
            texts_view(slugs@),
        ),
        well_formed(old(document)@) ==> well_formed(final(document)@),
{
    proof {
        if well_formed(document@) {
            lemma_ids_keep_tree(
                document@,
                headings_view(headings@),
                texts_view(slugs@),
                headings@.len() as int,
            );
        }
    }
    let ghost nodes = document@;
    let ghost hs = headings_view(headings@);
    let ghost ss = texts_view(slugs@);
    let count = document.nodes.len();
    assert(nodes.len() == count);
    let mut k: usize = 0;
    while k < headings.len()
        invariant
            k <= headings.len(),
            count == document.nodes.len(),
            nodes.len() == count,
            hs == headings_view(headings@),
            ss == texts_view(slugs@),
            document@ == with_ids_upto(nodes, hs, ss, k as int),
        decreases headings.len() - k,
    {
        let place = headings[k].node;
        assert(hs[k as int] == headings@[k as int]@);
        if k < slugs.len() && place < count {
            assert(ss[k as int] == slugs@[k as int]@);
            assert(document@[place as int] == document.nodes@[place as int]@);
            let ghost before = document@;
            let changed = set_id(&document.nodes[place], &slugs[k]);
            let ghost view = changed@;
            document.nodes.set(place, changed);
            assert(document@ =~= before.update(place as int, view));
        }
        k += 1;
    }
}

} // verus!
