//! Wiki words in running text become links to the pages they name.

use vstd::prelude::*;
use vstd::string::StringSliceAdditionalSpecFns;
use vstd::utf8::encode_utf8;
use crate::chars::same_text;
use crate::dom::{fits, fits_parser, parse_document, parsed_nodes};
use crate::error::ServerError;
use crate::markup::{
    covers, distinct_attributes, follows, lemma_scan_end, lemma_subtree_end, local_name, nodes_view,
    subtree_end, well_formed, Document, Node, NodeData, NodeDataView, NodeView,
};
use crate::pattern::{pattern_spans, rewrite_spans, rewritten, Matcher, Rewrite};

verus! {

/// An anchor element, the element of links.
pub open spec fn is_anchor(node: NodeView) -> bool {
    local_name(node) == Some("a"@)
}

/// Node `i` has an anchor among its ancestors.
pub open spec fn inside_anchor(nodes: Seq<NodeView>, i: int) -> bool {
    exists|j: int| 0 <= j < i && is_anchor(#[trigger] nodes[j]) && covers(nodes, j, i)
}

/// `text` with every wiki word that is not escaped turned into a link.
pub open spec fn linked_text(text: Seq<char>, wiki_word: Seq<char>) -> Seq<char> {
    rewritten(Rewrite::Link, encode_utf8(text), pattern_spans(wiki_word, text))
}

/// A depth as a machine integer can hold it.
pub open spec fn capped(depth: nat) -> nat {
    if depth > usize::MAX {
        usize::MAX as nat
    } else {
        depth
    }
}

/// The same nodes, `base` levels further down.
pub open spec fn lowered(nodes: Seq<NodeView>, base: nat) -> Seq<NodeView> {
    nodes.map_values(|n: NodeView| NodeView { depth: capped(n.depth + base), data: n.data })
}

/// What takes the place of node `i`, if anything does: for a text node
/// outside every anchor whose text changes when its wiki words are linked,
/// the document parsed from the changed text, placed at the depth of the
/// text node.
pub open spec fn fragment_for(nodes: Seq<NodeView>, wiki_word: Seq<char>, i: int) -> Option<
    Seq<NodeView>,
> {
    match nodes[i].data {
        NodeDataView::Text(text) => if !inside_anchor(nodes, i) && linked_text(text, wiki_word)
            != text {
            Some(lowered(parsed_nodes(linked_text(text, wiki_word)), nodes[i].depth))
        } else {
            None
        },
        _ => None,
    }
}

/// Where the rewriting goes on after node `i` was replaced: past its
/// subtree.
pub open spec fn past(nodes: Seq<NodeView>, i: int) -> int {
    if i < subtree_end(nodes, i) <= nodes.len() {
        subtree_end(nodes, i)
    } else {
        i + 1
    }
}

/// The nodes from `i` on after rewriting. A replaced text node goes with
/// its subtree; every other node stays as it is. Nodes of a replacement
/// are not looked at again.
pub open spec fn rewrite_from(nodes: Seq<NodeView>, wiki_word: Seq<char>, i: int) -> Seq<NodeView>
    decreases nodes.len() - i,
{
    if i < 0 || i >= nodes.len() {
        Seq::empty()
    } else {
        match fragment_for(nodes, wiki_word, i) {
            Some(fragment) => fragment + rewrite_from(nodes, wiki_word, past(nodes, i)),
            None => seq![nodes[i]] + rewrite_from(nodes, wiki_word, i + 1),
        }
    }
}

/// Node `i` is to be replaced, but the text with its links written in is
/// longer than the parser takes.
pub open spec fn outgrows(nodes: Seq<NodeView>, wiki_word: Seq<char>, i: int) -> bool {
    &&& fragment_for(nodes, wiki_word, i) is Some
    &&& nodes[i].data matches NodeDataView::Text(text)
    &&& !fits_parser(linked_text(text, wiki_word))
}

/// From node `i` on, some text that is to be replaced outgrows the parser.
pub open spec fn oversized_from(nodes: Seq<NodeView>, wiki_word: Seq<char>, i: int) -> bool
    decreases nodes.len() - i,
{
    if i < 0 || i >= nodes.len() {
        false
    } else if fragment_for(nodes, wiki_word, i) is Some {
        outgrows(nodes, wiki_word, i) || oversized_from(nodes, wiki_word, past(nodes, i))
    } else {
        oversized_from(nodes, wiki_word, i + 1)
    }
}

/// Some text of the document that is to be replaced outgrows the parser.
pub open spec fn oversized(nodes: Seq<NodeView>, wiki_word: Seq<char>) -> bool {
    oversized_from(nodes, wiki_word, 0)
}

/// A whole document with its wiki words linked.
pub open spec fn with_wiki_links(nodes: Seq<NodeView>, wiki_word: Seq<char>) -> Seq<NodeView> {
    rewrite_from(nodes, wiki_word, 0)
}

/// `out` begins a tree, and node `next` of `nodes` may stand behind it:
/// nothing is written before the first node is reached, what is written
/// starts with a root, every later node follows the one before it, no
/// element names an attribute twice, and node `next` lies at most one
/// level below the last node written.
pub open spec fn grows(out: Seq<NodeView>, nodes: Seq<NodeView>, next: int) -> bool {
    &&& out.len() == 0 <==> next == 0
    &&& out.len() > 0 ==> out[0].depth == 0
    &&& forall|k: int| 1 <= k < out.len() ==> #[trigger] follows(out, k)
    &&& forall|k: int| 0 <= k < out.len() ==> distinct_attributes(#[trigger] out[k])
    &&& out.len() > 0 && next < nodes.len() ==> nodes[next].depth <= out.last().depth + 1
}

/// A node that is kept lets the tree grow.
proof fn lemma_keep(out: Seq<NodeView>, nodes: Seq<NodeView>, i: int)
    requires
        well_formed(nodes),
        0 <= i < nodes.len(),
        grows(out, nodes, i),
    ensures
        grows(out.push(nodes[i]), nodes, i + 1),
{
    let grown = out.push(nodes[i]);
    if i > 0 {
        assert(follows(nodes, i));
    }
    assert forall|k: int| 1 <= k < grown.len() implies #[trigger] follows(grown, k) by {
        if k < out.len() {
            assert(follows(out, k));
        }
    }
    assert forall|k: int| 0 <= k < grown.len() implies distinct_attributes(#[trigger] grown[k]) by {
        if k < out.len() {
            assert(distinct_attributes(out[k]));
        } else {
            assert(distinct_attributes(nodes[i]));
        }
    }
    if i + 1 < nodes.len() {
        assert(follows(nodes, i + 1));
    }
}

/// A parsed document in place of a node and its subtree lets the tree
/// grow.
proof fn lemma_replace(out: Seq<NodeView>, nodes: Seq<NodeView>, i: int, parsed: Seq<NodeView>)
    requires
        well_formed(nodes),
        well_formed(parsed),
        0 <= i < nodes.len(),
        nodes[i].depth <= usize::MAX,
        grows(out, nodes, i),
    ensures
        grows(out + lowered(parsed, nodes[i].depth), nodes, past(nodes, i)),
{
    let base = nodes[i].depth;
    let fragment = lowered(parsed, base);
    let grown = out + fragment;
    if i > 0 {
        assert(follows(nodes, i));
    }
    assert(fragment[0].depth == base);
    assert forall|k: int| 1 <= k < fragment.len() implies #[trigger] follows(fragment, k) by {
        assert(follows(parsed, k));
    }
    assert forall|k: int| 0 <= k < fragment.len() implies (#[trigger] fragment[k]).depth >= base by {
        if k > 0 {
            assert(follows(parsed, k));
        }
    }
    assert forall|k: int| 1 <= k < grown.len() implies #[trigger] follows(grown, k) by {
        if k < out.len() {
            assert(follows(out, k));
        } else if k > out.len() {
            assert(follows(fragment, k - out.len()));
            assert(grown[k] == fragment[k - out.len()]);
            assert(grown[k - 1] == fragment[k - out.len() - 1]);
        } else {
            assert(grown[k] == fragment[0]);
            assert(grown[k - 1] == out.last());
        }
    }
    assert forall|k: int| 0 <= k < grown.len() implies distinct_attributes(#[trigger] grown[k]) by {
        if k < out.len() {
            assert(distinct_attributes(out[k]));
        } else {
            assert(distinct_attributes(parsed[k - out.len()]));
            assert(grown[k] == fragment[k - out.len()]);
        }
    }
    lemma_scan_end(nodes, base, i + 1);
    assert(grown.last() == fragment.last());
    if out.len() == 0 {
        assert(grown[0] == fragment[0]);
    } else {
        assert(grown[0] == out[0]);
    }
}

/// What has grown over all nodes of a tree is a tree.
proof fn lemma_grown(out: Seq<NodeView>, nodes: Seq<NodeView>)
    requires
        well_formed(nodes),
        grows(out, nodes, nodes.len() as int),
    ensures
        well_formed(out),
{
}

/// What the walk knows of anchors when it reaches node `i`: the outermost
/// anchor that covers the node before `i`, or that there is none.
pub open spec fn tracks(nodes: Seq<NodeView>, open: Option<usize>, i: int) -> bool {
    match open {
        Some(a) => {
            &&& a < i
            &&& is_anchor(nodes[a as int])
            &&& covers(nodes, a as int, i - 1)
            &&& forall|j: int| 0 <= j < a && is_anchor(#[trigger] nodes[j]) ==> !covers(nodes, j, a as int)
        },
        None => forall|j: int| 0 <= j < i && is_anchor(#[trigger] nodes[j]) ==> !covers(nodes, j, i - 1),
    }
}

/// After node `i` was looked at against the open anchor, either the anchor
/// covers it or no anchor does.
proof fn lemma_track_close(nodes: Seq<NodeView>, open: Option<usize>, i: int)
    requires
        0 <= i < nodes.len(),
        tracks(nodes, open, i),
    ensures
        match open {
            Some(a) => if nodes[i].depth > nodes[a as int].depth {
                covers(nodes, a as int, i) && inside_anchor(nodes, i)
            } else {
                !inside_anchor(nodes, i)
            },
            None => !inside_anchor(nodes, i),
        },
{
    match open {
        Some(a) => {
            let a = a as int;
            if nodes[i].depth > nodes[a].depth {
                assert(covers(nodes, a, i));
            } else {
                assert forall|j: int| 0 <= j < i && is_anchor(#[trigger] nodes[j]) implies !covers(
                    nodes,
                    j,
                    i,
                ) by {
                    if j < a {
                        if covers(nodes, j, i) {
                            assert(covers(nodes, j, a));
                        }
                    } else if j > a {
                        assert(nodes[j].depth > nodes[a].depth);
                        assert(nodes[i].depth <= nodes[j].depth);
                    }
                }
            }
        },
        None => {
            assert forall|j: int| 0 <= j < i && is_anchor(#[trigger] nodes[j]) implies !covers(
                nodes,
                j,
                i,
            ) by {
                if covers(nodes, j, i) {
                    assert(covers(nodes, j, i - 1));
                }
            }
        },
    }
}

/// Whether a node is an anchor element.
pub fn anchor(node: &Node) -> (found: bool)
    ensures
        found == is_anchor(node@),
{
    match &node.data {
        NodeData::Element { name, attributes } => same_text(name.local.as_str(), "a"),
        _ => false,
    }
}

/// `text` with its wiki words linked.
pub fn link_wiki_words(wiki_word: &Matcher, text: &str) -> (linked: String)
    ensures
        linked@ == linked_text(text@, wiki_word.source()),
{
    let spans = wiki_word.spans(text);
    rewrite_spans(Rewrite::Link, text, &spans)
}

/// A depth `base` levels further down, as far as a machine integer goes.
fn lower(depth: usize, base: usize) -> (sum: usize)
    ensures
        sum == capped((depth + base) as nat),
{
    if depth > usize::MAX - base {
        usize::MAX
    } else {
        depth + base
    }
}

/// Appends the nodes of `fragment`, `base` levels further down.
fn push_lowered(out: &mut Vec<Node>, fragment: Document, base: usize)
    ensures
        nodes_view(final(out)@) == nodes_view(old(out)@) + lowered(
            fragment@,
            base as nat,
        ),
{
    let mut k: usize = 0;
    let ghost start = nodes_view(out@);
    assert(fragment@.len() == fragment.nodes@.len());
    assert(start + lowered(fragment@, base as nat).take(0) =~= start);
    while k < fragment.nodes.len()
        invariant
            k <= fragment.nodes.len(),
            fragment@.len() == fragment.nodes@.len(),
            nodes_view(out@) == start + lowered(fragment@, base as nat).take(k as int),
        decreases fragment.nodes.len() - k,
    {
        assert(fragment@[k as int] == fragment.nodes@[k as int]@);
        let node = Node {
            depth: lower(fragment.nodes[k].depth, base),
            data: fragment.nodes[k].data.clone(),
        };
        let ghost before = nodes_view(out@);
        let ghost all = lowered(fragment@, base as nat);
        assert(node@ == all[k as int]);
        out.push(node);
        assert(nodes_view(out@) =~= before.push(all[k as int]));
        assert(all.take(k + 1) =~= all.take(k as int).push(all[k as int]));
        k += 1;
    }
    assert(lowered(fragment@, base as nat).take(k as int) =~= lowered(fragment@, base as nat));
}

/// Links the wiki words of a document.
///
/// Every text node of the document as it was is looked at once, in
/// document order. One that stands outside every anchor and holds a wiki
/// word that is not escaped is replaced, with its subtree, by the document
/// parsed from its text with the links written in. Where such a text
/// outgrows the parser, nothing is changed and `ServerError::TooLarge`
/// says so.
pub fn rewrite_wiki_links(wiki_word: &Matcher, document: &mut Document) -> (done: Result<
    (),
    ServerError,
>)
    ensures
        done is Ok && well_formed(old(document)@) ==> well_formed(final(document)@),
        match done {
            Ok(_) => !oversized(old(document)@, wiki_word.source()) && final(document)@
                == with_wiki_links(old(document)@, wiki_word.source()),
            Err(error) => error == ServerError::TooLarge && oversized(
                old(document)@,
                wiki_word.source(),
            ) && final(document)@ == old(document)@,
        },
{
    let ghost nodes = document@;
    let ghost pattern = wiki_word.source();
    let count = document.nodes.len();
    assert(nodes.len() == count);
    let mut out: Vec<Node> = Vec::new();
    let mut open: Option<usize> = None;
    let mut resume: usize = 0;
    let mut i: usize = 0;
    assert(nodes_view(out@) + rewrite_from(nodes, pattern, 0) =~= rewrite_from(
        nodes,
        pattern,
        0,
    ));
    while i < count
        invariant
            i <= count == document.nodes.len(),
            nodes == document@,
            nodes.len() == count,
            pattern == wiki_word.source(),
            resume <= count,
            well_formed(nodes) ==> grows(
                nodes_view(out@),
                nodes,
                if resume > i {
                    resume as int
                } else {
                    i as int
                },
            ),
            tracks(nodes, open, i as int),
            oversized_from(
                nodes,
                pattern,
                if resume > i {
                    resume as int
                } else {
                    i as int
                },
            ) == oversized_from(nodes, pattern, 0),
            nodes_view(out@) + rewrite_from(
                nodes,
                pattern,
                if resume > i {
                    resume as int
                } else {
                    i as int
                },
            ) == rewrite_from(nodes, pattern, 0),
        decreases count - i,
    {
        assert(nodes[i as int] == document.nodes@[i as int]@);
        proof {
            lemma_track_close(nodes, open, i as int);
        }
        let depth = document.nodes[i].depth;
        let mut inside = false;
        if let Some(a) = open {
            assert(nodes[a as int] == document.nodes@[a as int]@);
            if depth > document.nodes[a].depth {
                inside = true;
            } else {
                open = None;
            }
        }
        let is_link = anchor(&document.nodes[i]);
        if !inside && is_link {
            open = Some(i);
        }
        assert(tracks(nodes, open, i + 1)) by {
            match open {
                Some(a) => {
                    if a == i {
                        assert(covers(nodes, i as int, i as int));
                    }
                },
                None => {
                    assert forall|j: int| 0 <= j < i + 1 && is_anchor(#[trigger] nodes[j]) implies !covers(
                        nodes,
                        j,
                        i as int,
                    ) by {
                        if j < i {
                            assert(!inside_anchor(nodes, i as int));
                        }
                    }
                },
            }
        }
        if i >= resume {
            let ghost before = nodes_view(out@);
            let mut replaced = false;
            match &document.nodes[i].data {
                NodeData::Text(text) => {
                    if !inside {
                        let linked = link_wiki_words(wiki_word, text.as_str());
                        if linked != *text {
                            if !fits(linked.as_str()) {
                                assert(outgrows(nodes, pattern, i as int));
                                return Err(ServerError::TooLarge);
                            }
                            let fragment = parse_document(linked.as_str());
                            push_lowered(&mut out, fragment, depth);
                            replaced = true;
                        }
                    }
                },
                _ => {},
            }
            if replaced {
                resume = document.subtree_end(i);
                proof {
                    lemma_subtree_end(nodes, i as int);
                    if well_formed(nodes) {
                        let text = nodes[i as int].data->Text_0;
                        lemma_replace(
                            before,
                            nodes,
                            i as int,
                            parsed_nodes(linked_text(text, pattern)),
                        );
                    }
                    assert(fragment_for(nodes, pattern, i as int) is Some);
                    assert(before + rewrite_from(nodes, pattern, i as int) =~= nodes_view(
                        out@,
                    ) + rewrite_from(nodes, pattern, resume as int));
                }
            } else {
                out.push(document.nodes[i].clone());
                proof {
                    if well_formed(nodes) {
                        lemma_keep(before, nodes, i as int);
                    }
                    assert(fragment_for(nodes, pattern, i as int) is None);
                    assert(nodes_view(out@) =~= before + seq![nodes[i as int]]);
                    assert(nodes_view(out@) =~= before.push(nodes[i as int]));
                    assert(before + rewrite_from(nodes, pattern, i as int) =~= nodes_view(
                        out@,
                    ) + rewrite_from(nodes, pattern, i + 1));
                }
            }
        }
        i += 1;
    }
    assert(nodes_view(out@) + rewrite_from(nodes, pattern, count as int)
        =~= nodes_view(out@));
    proof {
        if well_formed(nodes) {
            lemma_grown(nodes_view(out@), nodes);
        }
    }
    document.nodes = out;
    Ok(())
}

} // verus!
