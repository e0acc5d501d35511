//! Plain text of a document tree, laid out by blocks.

use vstd::prelude::*;
use vstd::string::StringExecFns;
use crate::chars::same_text;
use crate::markup::{subtree_end, Document, NodeData, NodeDataView, NodeView};

verus! {

/// How an element shapes the text around its content.
pub enum Layout {
    /// Paragraphs and headings: content, then a blank line.
    Block,
    /// A line break: a line feed, and nothing of what it may hold.
    Break,
    /// A list item: a bullet, content, a line feed.
    Item,
    /// A list: content, then a line feed.
    List,
    /// Anything else: content alone.
    Inline,
}

pub open spec fn layout_of(local: Seq<char>) -> Layout {
    if local == "p"@ || local == "h1"@ || local == "h2"@ || local == "h3"@ || local == "h4"@
        || local == "h5"@ || local == "h6"@ {
        Layout::Block
    } else if local == "br"@ {
        Layout::Break
    } else if local == "li"@ {
        Layout::Item
    } else if local == "ul"@ || local == "ol"@ {
        Layout::List
    } else {
        Layout::Inline
    }
}

pub open spec fn blank_line() -> Seq<char> {
    "\n\n"@
}

pub open spec fn new_line() -> Seq<char> {
    "\n"@
}

pub open spec fn bullet() -> Seq<char> {
    "• "@
}

/// Where the walk goes on after node `from` inside a range that ends at
/// `to`: past the subtree of `from`, but not past `to`.
pub open spec fn step_end(nodes: Seq<NodeView>, from: int, to: int) -> int {
    let end = subtree_end(nodes, from);
    if end <= from {
        from + 1
    } else if end > to {
        to
    } else {
        end
    }
}

/// The text of the nodes from `from` up to `to`, each with its subtree.
pub open spec fn forest_text(nodes: Seq<NodeView>, from: int, to: int) -> Seq<char>
    decreases to - from, 1int,
{
    if from < 0 || from >= to {
        Seq::empty()
    } else {
        let end = step_end(nodes, from, to);
        node_text(nodes, from, end) + forest_text(nodes, end, to)
    }
}

/// The text of node `i`, whose subtree ends at `end`.
pub open spec fn node_text(nodes: Seq<NodeView>, i: int, end: int) -> Seq<char>
    decreases end - i, 0int,
{
    if end <= i {
        Seq::empty()
    } else {
        match nodes[i].data {
            NodeDataView::Text(text) => text,
            NodeDataView::Element { name, attributes } => match layout_of(name.local) {
                Layout::Block => forest_text(nodes, i + 1, end) + blank_line(),
                Layout::Break => new_line(),
                Layout::Item => bullet() + forest_text(nodes, i + 1, end) + new_line(),
                Layout::List => forest_text(nodes, i + 1, end) + new_line(),
                Layout::Inline => forest_text(nodes, i + 1, end),
            },
            _ => forest_text(nodes, i + 1, end),
        }
    }
}

/// The text of a whole document before it is tidied.
pub open spec fn raw_text(nodes: Seq<NodeView>) -> Seq<char> {
    forest_text(nodes, 0, nodes.len() as int)
}

/// The layout that belongs to an element's local name.
pub fn layout(local: &str) -> (layout: Layout)
    ensures
        layout == layout_of(local@),
{
    if same_text(local, "p") || same_text(local, "h1") || same_text(local, "h2") || same_text(
        local,
        "h3",
    ) || same_text(local, "h4") || same_text(local, "h5") || same_text(local, "h6") {
        Layout::Block
    } else if same_text(local, "br") {
        Layout::Break
    } else if same_text(local, "li") {
        Layout::Item
    } else if same_text(local, "ul") || same_text(local, "ol") {
        Layout::List
    } else {
        Layout::Inline
    }
}

/// Appends the text of the nodes from `from` up to `to`.
pub(crate) fn walk_forest(document: &Document, from: usize, to: usize, out: &mut String)
    requires
        from <= to <= document@.len(),
    ensures
        final(out)@ == old(out)@ + forest_text(document@, from as int, to as int),
    decreases to - from, 1int,
{
    let mut i: usize = from;
    assert(out@ + forest_text(document@, from as int, to as int) == old(out)@ + forest_text(
        document@,
        from as int,
        to as int,
    ));
    while i < to
        invariant
            from <= i <= to <= document@.len(),
            out@ + forest_text(document@, i as int, to as int) == old(out)@ + forest_text(
                document@,
                from as int,
                to as int,
            ),
        decreases to - i,
    {
        let ghost before = out@;
        let whole = document.subtree_end(i);
        let end = if whole > to {
            to
        } else {
            whole
        };
        assert(end == step_end(document@, i as int, to as int));
        walk_node(document, i, end, out);
        assert(before + forest_text(document@, i as int, to as int) =~= out@ + forest_text(
            document@,
            end as int,
            to as int,
        ));
        i = end;
    }
    assert(out@ + forest_text(document@, i as int, to as int) =~= out@);
}

/// Appends the text of node `i`, whose subtree ends at `end`.
pub(crate) fn walk_node(document: &Document, i: usize, end: usize, out: &mut String)
    requires
        i < end <= document@.len(),
    ensures
        final(out)@ == old(out)@ + node_text(document@, i as int, end as int),
    decreases end - i, 0int,
{
    assert(document@[i as int] == document.nodes@[i as int]@);
    match &document.nodes[i].data {
        NodeData::Text(text) => {
            out.append(text.as_str());
        },
        NodeData::Element { name, attributes } => {
            match layout(name.local.as_str()) {
                Layout::Block => {
                    walk_forest(document, i + 1, end, out);
                    out.append("\n\n");
                },
                Layout::Break => {
                    out.append("\n");
                },
                Layout::Item => {
                    out.append("• ");
                    walk_forest(document, i + 1, end, out);
                    out.append("\n");
                    assert(out@ =~= old(out)@ + (bullet() + forest_text(
                        document@,
                        i + 1,
                        end as int,
                    ) + new_line()));
                },
                Layout::List => {
                    walk_forest(document, i + 1, end, out);
                    out.append("\n");
                },
                Layout::Inline => {
                    walk_forest(document, i + 1, end, out);
                },
            }
            assert(out@ =~= old(out)@ + node_text(document@, i as int, end as int));
        },
        _ => {
            walk_forest(document, i + 1, end, out);
        },
    }
}

} // verus!
