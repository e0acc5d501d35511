//! The document tree that the pipeline works on.
//!
//! A tree is held as the list of its nodes in document order, each with its
//! depth below the root. A node's descendants are the nodes that follow it
//! with a greater depth, up to the first node that is not deeper than it.

use vstd::prelude::*;

verus! {

/// The name of an element: namespace URL, optional prefix, local name.
pub struct QualifiedName {
    pub namespace: String,
    pub prefix: Option<String>,
    pub local: String,
}

/// One attribute of an element. Namespace and local name identify it.
pub struct Attribute {
    pub namespace: String,
    pub local: String,
    pub prefix: Option<String>,
    pub value: String,
}

/// What a node is, with the payload of its kind.
pub enum NodeData {
    Element { name: QualifiedName, attributes: Vec<Attribute> },
    Text(String),
    Comment(String),
    ProcessingInstruction { target: String, data: String },
    Doctype { doctype: String, public_id: String, system_id: String },
    Document,
    DocumentFragment,
}

/// A node and its depth below the root of its tree.
pub struct Node {
    pub depth: usize,
    pub data: NodeData,
}

/// A document tree: its nodes in document order.
pub struct Document {
    pub nodes: Vec<Node>,
}

pub struct QualifiedNameView {
    pub namespace: Seq<char>,
    pub prefix: Option<Seq<char>>,
    pub local: Seq<char>,
}

pub struct AttributeView {
    pub namespace: Seq<char>,
    pub local: Seq<char>,
    pub prefix: Option<Seq<char>>,
    pub value: Seq<char>,
}

pub enum NodeDataView {
    Element { name: QualifiedNameView, attributes: Seq<AttributeView> },
    Text(Seq<char>),
    Comment(Seq<char>),
    ProcessingInstruction { target: Seq<char>, data: Seq<char> },
    Doctype { doctype: Seq<char>, public_id: Seq<char>, system_id: Seq<char> },
    Document,
    DocumentFragment,
}

pub struct NodeView {
    pub depth: nat,
    pub data: NodeDataView,
}

pub open spec fn text_view(text: Option<String>) -> Option<Seq<char>> {
    match text {
        Some(t) => Some(t@),
        None => None,
    }
}

impl View for QualifiedName {
    type V = QualifiedNameView;

    open spec fn view(&self) -> QualifiedNameView {
        QualifiedNameView {
            namespace: self.namespace@,
            prefix: text_view(self.prefix),
            local: self.local@,
        }
    }
}

impl View for Attribute {
    type V = AttributeView;

    open spec fn view(&self) -> AttributeView {
        AttributeView {
            namespace: self.namespace@,
            local: self.local@,
            prefix: text_view(self.prefix),
            value: self.value@,
        }
    }
}

pub open spec fn attributes_view(attributes: Seq<Attribute>) -> Seq<AttributeView> {
    attributes.map_values(|a: Attribute| a@)
}

impl View for NodeData {
    type V = NodeDataView;

    open spec fn view(&self) -> NodeDataView {
        match self {
            NodeData::Element { name, attributes } => NodeDataView::Element {
                name: name@,
                attributes: attributes_view(attributes@),
            },
            NodeData::Text(text) => NodeDataView::Text(text@),
            NodeData::Comment(text) => NodeDataView::Comment(text@),
            NodeData::ProcessingInstruction { target, data } => NodeDataView::ProcessingInstruction {
                target: target@,
                data: data@,
            },
            NodeData::Doctype { doctype, public_id, system_id } => NodeDataView::Doctype {
                doctype: doctype@,
                public_id: public_id@,
                system_id: system_id@,
            },
            NodeData::Document => NodeDataView::Document,
            NodeData::DocumentFragment => NodeDataView::DocumentFragment,
        }
    }
}

impl View for Node {
    type V = NodeView;

    open spec fn view(&self) -> NodeView {
        NodeView { depth: self.depth as nat, data: self.data@ }
    }
}

pub open spec fn nodes_view(nodes: Seq<Node>) -> Seq<NodeView> {
    nodes.map_values(|n: Node| n@)
}

impl View for Document {
    type V = Seq<NodeView>;

    open spec fn view(&self) -> Seq<NodeView> {
        nodes_view(self.nodes@)
    }
}

/// The local name of an element; `None` for any other node.
pub open spec fn local_name(node: NodeView) -> Option<Seq<char>> {
    match node.data {
        NodeDataView::Element { name, attributes } => Some(name.local),
        _ => None,
    }
}

/// The first index after `from` whose node is not deeper than `depth`, or
/// the length of the list.
pub open spec fn scan_end(nodes: Seq<NodeView>, depth: nat, from: int) -> int
    decreases nodes.len() - from,
{
    if from < 0 || from >= nodes.len() {
        nodes.len() as int
    } else if nodes[from].depth <= depth {
        from
    } else {
        scan_end(nodes, depth, from + 1)
    }
}

/// The index just past the subtree of node `i`.
pub open spec fn subtree_end(nodes: Seq<NodeView>, i: int) -> int {
    scan_end(nodes, nodes[i].depth, i + 1)
}

/// Node `j` lies in the subtree of node `i` (or is it): every node after `i`
/// up to `j` is deeper than `i`.
pub open spec fn covers(nodes: Seq<NodeView>, i: int, j: int) -> bool {
    &&& 0 <= i <= j < nodes.len()
    &&& forall|k: int| i < k <= j ==> (#[trigger] nodes[k]).depth > nodes[i].depth
}

pub proof fn lemma_scan_end(nodes: Seq<NodeView>, depth: nat, from: int)
    requires
        0 <= from <= nodes.len(),
    ensures
        from <= scan_end(nodes, depth, from) <= nodes.len(),
        forall|k: int| from <= k < scan_end(nodes, depth, from) ==> (#[trigger] nodes[k]).depth > depth,
        scan_end(nodes, depth, from) < nodes.len() ==> nodes[scan_end(nodes, depth, from)].depth <= depth,
    decreases nodes.len() - from,
{
    if from < nodes.len() && nodes[from].depth > depth {
        lemma_scan_end(nodes, depth, from + 1);
    }
}

/// The subtree of node `i` ends after `i`, within the list, and holds
/// exactly the nodes that `i` covers.
pub proof fn lemma_subtree_end(nodes: Seq<NodeView>, i: int)
    requires
        0 <= i < nodes.len(),
    ensures
        i < subtree_end(nodes, i) <= nodes.len(),
        forall|j: int| i <= j < nodes.len() ==> (covers(nodes, i, j) <==> j < subtree_end(nodes, i)),
{
    lemma_scan_end(nodes, nodes[i].depth, i + 1);
    let e = subtree_end(nodes, i);
    assert forall|j: int| i <= j < nodes.len() implies (covers(nodes, i, j) <==> j < e) by {
        if j < e {
            assert(covers(nodes, i, j));
        } else {
            assert(nodes[e].depth <= nodes[i].depth);
            assert(!covers(nodes, i, j));
        }
    }
}

/// Skipping nodes that are deeper than `depth` does not move the end.
pub proof fn lemma_scan_skip(nodes: Seq<NodeView>, depth: nat, from: int, to: int)
    requires
        0 <= from <= to <= nodes.len(),
        forall|k: int| from <= k < to ==> (#[trigger] nodes[k]).depth > depth,
    ensures
        scan_end(nodes, depth, from) == scan_end(nodes, depth, to),
    decreases to - from,
{
    if from < to {
        lemma_scan_skip(nodes, depth, from + 1, to);
    }
}

/// No two attributes share namespace and local name.
pub open spec fn distinct_keys(attributes: Seq<AttributeView>) -> bool {
    forall|i: int, j: int|
        0 <= i < j < attributes.len() ==> !((#[trigger] attributes[i]).namespace
            == (#[trigger] attributes[j]).namespace && attributes[i].local == attributes[j].local)
}

/// The attributes of an element are distinct; other nodes have none.
pub open spec fn distinct_attributes(node: NodeView) -> bool {
    node.data matches NodeDataView::Element { name, attributes } ==> distinct_keys(attributes)
}

/// Node `i` lies below the root and at most one level below the node
/// before it.
pub open spec fn follows(nodes: Seq<NodeView>, i: int) -> bool {
    1 <= nodes[i].depth <= nodes[i - 1].depth + 1
}

/// The list describes one tree: it starts with a root at depth 0, every
/// later node follows the one before it, and no element names an attribute
/// twice.
pub open spec fn well_formed(nodes: Seq<NodeView>) -> bool {
    &&& nodes.len() > 0
    &&& nodes[0].depth == 0
    &&& forall|i: int| 1 <= i < nodes.len() ==> #[trigger] follows(nodes, i)
    &&& forall|i: int| 0 <= i < nodes.len() ==> distinct_attributes(#[trigger] nodes[i])
}

/// In a well-formed list the subtree of the root is the whole list.
pub proof fn lemma_root_spans(nodes: Seq<NodeView>)
    requires
        well_formed(nodes),
    ensures
        subtree_end(nodes, 0) == nodes.len(),
{
    lemma_scan_end(nodes, 0, 1);
    let e = subtree_end(nodes, 0);
    if e < nodes.len() {
        assert(follows(nodes, e));
    }
}

impl QualifiedName {
    pub fn clone(&self) -> (copy: QualifiedName)
        ensures
            copy@ == self@,
    {
        QualifiedName {
            namespace: self.namespace.clone(),
            prefix: clone_text(&self.prefix),
            local: self.local.clone(),
        }
    }
}

pub fn clone_text(text: &Option<String>) -> (copy: Option<String>)
    ensures
        text_view(copy) == text_view(*text),
{
    match text {
        Some(t) => Some(t.clone()),
        None => None,
    }
}

impl Attribute {
    pub fn clone(&self) -> (copy: Attribute)
        ensures
            copy@ == self@,
    {
        Attribute {
            namespace: self.namespace.clone(),
            local: self.local.clone(),
            prefix: clone_text(&self.prefix),
            value: self.value.clone(),
        }
    }
}

pub fn clone_attributes(attributes: &Vec<Attribute>) -> (copy: Vec<Attribute>)
    ensures
        attributes_view(copy@) == attributes_view(attributes@),
{
    let mut copy: Vec<Attribute> = Vec::new();
    let mut i: usize = 0;
    while i < attributes.len()
        invariant
            i <= attributes.len(),
            copy@.len() == i,
            forall|k: int| 0 <= k < i ==> (#[trigger] copy@[k])@ == attributes@[k]@,
        decreases attributes.len() - i,
    {
        copy.push(attributes[i].clone());
        i += 1;
    }
    assert(attributes_view(copy@) =~= attributes_view(attributes@));
    copy
}

impl NodeData {
    pub fn clone(&self) -> (copy: NodeData)
        ensures
            copy@ == self@,
    {
        match self {
            NodeData::Element { name, attributes } => NodeData::Element {
                name: name.clone(),
                attributes: clone_attributes(attributes),
            },
            NodeData::Text(text) => NodeData::Text(text.clone()),
            NodeData::Comment(text) => NodeData::Comment(text.clone()),
            NodeData::ProcessingInstruction { target, data } => NodeData::ProcessingInstruction {
                target: target.clone(),
                data: data.clone(),
            },
            NodeData::Doctype { doctype, public_id, system_id } => NodeData::Doctype {
                doctype: doctype.clone(),
                public_id: public_id.clone(),
                system_id: system_id.clone(),
            },
            NodeData::Document => NodeData::Document,
            NodeData::DocumentFragment => NodeData::DocumentFragment,
        }
    }
}

impl Node {
    pub fn clone(&self) -> (copy: Node)
        ensures
            copy@ == self@,
    {
        Node { depth: self.depth, data: self.data.clone() }
    }
}

/// Whether `attributes` names no attribute twice.
pub fn has_distinct_keys(attributes: &Vec<Attribute>) -> (distinct: bool)
    ensures
        distinct == distinct_keys(attributes_view(attributes@)),
{
    let ghost views = attributes_view(attributes@);
    let mut j: usize = 0;
    while j < attributes.len()
        invariant
            j <= attributes.len(),
            views == attributes_view(attributes@),
            forall|a: int, b: int|
                0 <= a < b < j ==> !((#[trigger] views[a]).namespace == (#[trigger] views[b]).namespace
                    && views[a].local == views[b].local),
        decreases attributes.len() - j,
    {
        let mut i: usize = 0;
        while i < j
            invariant
                i <= j < attributes.len(),
                views == attributes_view(attributes@),
                forall|a: int|
                    0 <= a < i ==> !((#[trigger] views[a]).namespace == views[j as int].namespace
                        && views[a].local == views[j as int].local),
            decreases j - i,
        {
            if attributes[i].namespace == attributes[j].namespace && attributes[i].local
                == attributes[j].local {
                assert(views[i as int].namespace == views[j as int].namespace && views[i as int].local
                    == views[j as int].local);
                return false;
            }
            i += 1;
        }
        j += 1;
    }
    true
}

impl Document {
    /// Whether the list describes one tree.
    pub fn is_well_formed(&self) -> (well: bool)
        ensures
            well == well_formed(self@),
    {
        let count = self.nodes.len();
        assert(self@.len() == count);
        if count == 0 || self.nodes[0].depth != 0 {
            return false;
        }
        let mut i: usize = 0;
        while i < count
            invariant
                i <= count == self.nodes.len(),
                self@.len() == count,
                forall|k: int| 1 <= k < i ==> #[trigger] follows(self@, k),
                forall|k: int| 0 <= k < i ==> distinct_attributes(#[trigger] self@[k]),
            decreases count - i,
        {
            assert(self@[i as int] == self.nodes@[i as int]@);
            if i > 0 {
                assert(self@[i - 1] == self.nodes@[i - 1]@);
                let depth = self.nodes[i].depth;
                let above = self.nodes[i - 1].depth;
                if depth < 1 || depth - 1 > above {
                    assert(!follows(self@, i as int));
                    return false;
                }
            }
            match &self.nodes[i].data {
                NodeData::Element { name, attributes } => {
                    if !has_distinct_keys(attributes) {
                        assert(!distinct_attributes(self@[i as int]));
                        return false;
                    }
                },
                _ => {},
            }
            i += 1;
        }
        true
    }

    /// The index just past the subtree of node `i`.
    pub fn subtree_end(&self, i: usize) -> (end: usize)
        requires
            i < self@.len(),
        ensures
            end == subtree_end(self@, i as int),
            i < end <= self@.len(),
    {
        let count = self.nodes.len();
        assert(self@.len() == count);
        let depth = self.nodes[i].depth;
        let mut j: usize = i + 1;
        proof {
            lemma_scan_end(self@, depth as nat, i + 1);
        }
        while j < self.nodes.len() && self.nodes[j].depth > depth
            invariant
                i < j <= self.nodes.len(),
                self@.len() == self.nodes.len(),
                depth == self@[i as int].depth,
                scan_end(self@, depth as nat, j as int) == subtree_end(self@, i as int),
            decreases self.nodes.len() - j,
        {
            j += 1;
        }
        j
    }
}

} // verus!
