//! Reading markup into a document tree and writing a tree back as markup.
//!
//! Parsing and serialising are the work of kuchiki. This module walks the
//! parsed nodes into the tree of `markup`, and assembles kuchiki nodes from
//! a tree when it is to be written.

use vstd::prelude::*;
use kuchiki::traits::TendrilSink;
use vstd::string::StringSliceAdditionalSpecFns;
use vstd::utf8::{decode_utf8, encode_utf8, valid_utf8};
use crate::error::ServerError;
use crate::markup::{
    attributes_view, distinct_keys, follows, lemma_root_spans, lemma_scan_end, lemma_scan_skip, scan_end,
    subtree_end, well_formed, Attribute, Document, Node, NodeData, NodeDataView, NodeView,
    QualifiedName,
};

verus! {

/// `kuchiki::NodeRef`, a node of kuchiki's tree, carried as it is.
#[verifier::external_type_specification]
#[verifier::external_body]
pub struct ExNodeRef(kuchiki::NodeRef);

/// The most bytes that the parser takes in one text: a third of the
/// largest 32-bit number. The parser keeps text in buffers whose length is
/// a 32-bit number, and may write up to three bytes for one that it reads.
pub const MAX_MARKUP_BYTES: usize = 0x5555_5555;

/// A text is short enough for the parser: its UTF-8 form has no more than
/// `MAX_MARKUP_BYTES` bytes.
pub open spec fn fits_parser(text: Seq<char>) -> bool {
    encode_utf8(text).len() <= MAX_MARKUP_BYTES
}

/// Whether a text is short enough for the parser.
pub fn fits(text: &str) -> (short: bool)
    ensures
        short == fits_parser(text@),
{
    text.as_bytes().len() <= MAX_MARKUP_BYTES
}

/// What the parsed nodes hold, one record for each.
pub open spec fn records(handles: Seq<kuchiki::NodeRef>) -> Seq<NodeView> {
    handles.map_values(|handle: kuchiki::NodeRef| node_record(handle))
}

/// The nodes of the document that kuchiki parses from `html`, in document
/// order, each with the number of its ancestors.
pub uninterp spec fn parsed_nodes(html: Seq<char>) -> Seq<NodeView>;

/// What a parsed node holds, and the number of its ancestors.
pub uninterp spec fn node_record(node: kuchiki::NodeRef) -> NodeView;

/// `parse_html().one(..)` followed by `inclusive_descendants()`: parses a
/// document and hands out its nodes in document order, the root first.
/// Parsing never fails on a text of no more than `MAX_MARKUP_BYTES` bytes;
/// a text that outgrows the parser's buffers is refused by a panic and
/// kept out. The nodes are a
/// function of the text. They are one tree listed parent before child:
/// the root has no ancestor, every other node has at least one and at
/// most one more than the node before it, and an element holds its
/// attributes in a map, so none twice.
#[verifier::external_body]
fn parse_nodes(html: &str) -> (handles: Vec<kuchiki::NodeRef>)
    requires
        fits_parser(html@),
    ensures
        records(handles@) == parsed_nodes(html@),
        well_formed(records(handles@)),
{
    kuchiki::parse_html().one(html).inclusive_descendants().collect()
}

/// `ancestors()`: counts the ancestors of a node.
#[verifier::external_body]
fn node_depth(node: &kuchiki::NodeRef) -> (depth: usize)
    ensures
        depth == node_record(*node).depth,
{
    node.ancestors().count()
}

/// `as_element()`: the name of an element, and nothing for another node.
#[verifier::external_body]
fn element_name(node: &kuchiki::NodeRef) -> (found: Option<QualifiedName>)
    ensures
        match found {
            Some(n) => node_record(*node).data matches NodeDataView::Element { name, attributes }
                && name == n@,
            None => !(node_record(*node).data is Element),
        },
{
    node.as_element().map(|e| QualifiedName {
        namespace: e.name.ns.to_string(),
        prefix: e.name.prefix.as_ref().map(|p| p.to_string()),
        local: e.name.local.to_string(),
    })
}

/// `as_element()`: the attributes of an element in the order in which the
/// element holds them; none for another node.
#[verifier::external_body]
fn element_attributes(node: &kuchiki::NodeRef) -> (found: Vec<Attribute>)
    ensures
        node_record(*node).data matches NodeDataView::Element { name, attributes }
            ==> attributes == attributes_view(found@),
{
    node.as_element().map(|e| e.attributes.borrow().map.iter().map(|(k, v)| Attribute {
        namespace: k.ns.to_string(),
        local: k.local.to_string(),
        prefix: v.prefix.as_ref().map(|p| p.to_string()),
        value: v.value.clone(),
    }).collect()).unwrap_or_default()
}

/// `as_text()`: the content of a text node, and nothing for another node.
#[verifier::external_body]
fn text_content(node: &kuchiki::NodeRef) -> (found: Option<String>)
    ensures
        match found {
            Some(t) => node_record(*node).data == NodeDataView::Text(t@),
            None => !(node_record(*node).data is Text),
        },
{
    node.as_text().map(|t| t.borrow().clone())
}

/// `as_comment()`: the content of a comment, and nothing for another node.
#[verifier::external_body]
fn comment_content(node: &kuchiki::NodeRef) -> (found: Option<String>)
    ensures
        match found {
            Some(t) => node_record(*node).data == NodeDataView::Comment(t@),
            None => !(node_record(*node).data is Comment),
        },
{
    node.as_comment().map(|t| t.borrow().clone())
}

/// `data()`: target and data of a processing instruction, and nothing for
/// another node.
#[verifier::external_body]
fn instruction_content(node: &kuchiki::NodeRef) -> (found: Option<(String, String)>)
    ensures
        match found {
            Some(p) => node_record(*node).data == (NodeDataView::ProcessingInstruction {
                target: p.0@,
                data: p.1@,
            }),
            None => !(node_record(*node).data is ProcessingInstruction),
        },
{
    match node.data() {
        kuchiki::NodeData::ProcessingInstruction(p) => Some(p.borrow().clone()),
        _ => None,
    }
}

/// `as_doctype()`: name, public id and system id of a doctype, and nothing
/// for another node.
#[verifier::external_body]
fn doctype_content(node: &kuchiki::NodeRef) -> (found: Option<(String, String, String)>)
    ensures
        match found {
            Some(d) => node_record(*node).data == (NodeDataView::Doctype {
                doctype: d.0@,
                public_id: d.1@,
                system_id: d.2@,
            }),
            None => !(node_record(*node).data is Doctype),
        },
{
    node.as_doctype().map(|d| (d.name.clone(), d.public_id.clone(), d.system_id.clone()))
}

/// `as_document()`: whether a node is a document node.
#[verifier::external_body]
fn is_document(node: &kuchiki::NodeRef) -> (found: bool)
    ensures
        found == (node_record(*node).data is Document),
{
    node.as_document().is_some()
}

/// Reads what a parsed node holds.
fn read_data(node: &kuchiki::NodeRef) -> (data: NodeData)
    ensures
        data@ == node_record(*node).data,
{
    if let Some(name) = element_name(node) {
        let attributes = element_attributes(node);
        return NodeData::Element { name, attributes };
    }
    if let Some(text) = text_content(node) {
        return NodeData::Text(text);
    }
    if let Some(text) = comment_content(node) {
        return NodeData::Comment(text);
    }
    if let Some(pair) = instruction_content(node) {
        return NodeData::ProcessingInstruction { target: pair.0, data: pair.1 };
    }
    if let Some(triple) = doctype_content(node) {
        return NodeData::Doctype { doctype: triple.0, public_id: triple.1, system_id: triple.2 };
    }
    if is_document(node) {
        NodeData::Document
    } else {
        NodeData::DocumentFragment
    }
}

/// Parses `html` into a document tree. Any text that is short enough for
/// the parser is accepted, and what comes out is one tree.
pub fn parse_document(html: &str) -> (document: Document)
    requires
        fits_parser(html@),
    ensures
        document@ == parsed_nodes(html@),
        well_formed(document@),
{
    let handles = parse_nodes(html);
    let mut nodes: Vec<Node> = Vec::new();
    let mut i: usize = 0;
    while i < handles.len()
        invariant
            i <= handles.len(),
            nodes@.len() == i,
            records(handles@) == parsed_nodes(html@),
            forall|k: int| 0 <= k < i ==> (#[trigger] nodes@[k])@ == parsed_nodes(html@)[k],
        decreases handles.len() - i,
    {
        assert(records(handles@)[i as int] == node_record(handles@[i as int]));
        let depth = node_depth(&handles[i]);
        let data = read_data(&handles[i]);
        nodes.push(Node { depth, data });
        i += 1;
    }
    let document = Document { nodes };
    assert(document@ =~= parsed_nodes(html@));
    document
}

/// The nodes of an assembled tree in document order, each with its depth
/// below the tree's root. An element is listed with its attributes in the
/// order in which they were handed over; the element itself holds them by
/// key.
pub uninterp spec fn tree_nodes(root: kuchiki::NodeRef) -> Seq<NodeView>;

/// The bytes that kuchiki's serialiser writes for a tree with these nodes.
pub uninterp spec fn serialized(nodes: Seq<NodeView>) -> Seq<u8>;

/// A tree of one node.
pub open spec fn single(data: NodeDataView) -> Seq<NodeView> {
    seq![NodeView { depth: 0, data }]
}

/// The same nodes, one level further down.
pub open spec fn deepened(nodes: Seq<NodeView>) -> Seq<NodeView> {
    nodes.map_values(|n: NodeView| NodeView { depth: n.depth + 1, data: n.data })
}

/// The same nodes with depths counted from `base`.
pub open spec fn rebased(nodes: Seq<NodeView>, base: nat) -> Seq<NodeView> {
    nodes.map_values(|n: NodeView| NodeView { depth: (n.depth - base) as nat, data: n.data })
}

/// `NodeRef::new_element`: a lone element with the given name and
/// attributes. The attributes must differ in their keys, since the element
/// keeps one value for each key.
#[verifier::external_body]
fn new_element(name: &QualifiedName, attributes: &Vec<Attribute>) -> (node: kuchiki::NodeRef)
    requires
        distinct_keys(attributes_view(attributes@)),
    ensures
        tree_nodes(node) == single(
            NodeDataView::Element { name: name@, attributes: attributes_view(attributes@) },
        ),
{
    kuchiki::NodeRef::new_element(
        html5ever::QualName::new(
            name.prefix.as_deref().map(Into::into),
            name.namespace.as_str().into(),
            name.local.as_str().into(),
        ),
        attributes.iter().map(|a| (
            kuchiki::ExpandedName::new(a.namespace.as_str(), a.local.as_str()),
            kuchiki::Attribute { prefix: a.prefix.as_deref().map(Into::into), value: a.value.clone() },
        )),
    )
}

/// `NodeRef::new_text`: a lone text node.
#[verifier::external_body]
fn new_text(text: &String) -> (node: kuchiki::NodeRef)
    ensures
        tree_nodes(node) == single(NodeDataView::Text(text@)),
{
    kuchiki::NodeRef::new_text(text.clone())
}

/// `NodeRef::new_comment`: a lone comment.
#[verifier::external_body]
fn new_comment(text: &String) -> (node: kuchiki::NodeRef)
    ensures
        tree_nodes(node) == single(NodeDataView::Comment(text@)),
{
    kuchiki::NodeRef::new_comment(text.clone())
}

/// `NodeRef::new_processing_instruction`: a lone processing instruction.
#[verifier::external_body]
fn new_instruction(target: &String, data: &String) -> (node: kuchiki::NodeRef)
    ensures
        tree_nodes(node) == single(
            NodeDataView::ProcessingInstruction { target: target@, data: data@ },
        ),
{
    kuchiki::NodeRef::new_processing_instruction(target.clone(), data.clone())
}

/// `NodeRef::new_doctype`: a lone doctype.
#[verifier::external_body]
fn new_doctype(doctype: &String, public_id: &String, system_id: &String) -> (node:
    kuchiki::NodeRef)
    ensures
        tree_nodes(node) == single(
            NodeDataView::Doctype {
                doctype: doctype@,
                public_id: public_id@,
                system_id: system_id@,
            },
        ),
{
    kuchiki::NodeRef::new_doctype(doctype.clone(), public_id.clone(), system_id.clone())
}

/// `NodeRef::new_document`: a lone document node.
#[verifier::external_body]
fn new_document() -> (node: kuchiki::NodeRef)
    ensures
        tree_nodes(node) == single(NodeDataView::Document),
{
    kuchiki::NodeRef::new_document()
}

/// `NodeRef::new`: a lone document fragment node.
#[verifier::external_body]
fn new_fragment() -> (node: kuchiki::NodeRef)
    ensures
        tree_nodes(node) == single(NodeDataView::DocumentFragment),
{
    kuchiki::NodeRef::new(kuchiki::NodeData::DocumentFragment)
}

/// `NodeRef::append`: `child`, a tree of its own, becomes the last child of
/// `parent`; its nodes follow those of `parent`, one level further down.
#[verifier::external_body]
fn append_child(parent: &mut kuchiki::NodeRef, child: kuchiki::NodeRef)
    ensures
        tree_nodes(*final(parent)) == tree_nodes(*old(parent)) + deepened(tree_nodes(child)),
{
    parent.append(child)
}

/// `NodeRef::serialize` into a vector of bytes: the bytes written for the
/// tree. The serialiser fails only where its writer does, and a vector
/// takes every write, so the bytes are always there.
#[verifier::external_body]
fn serialize_tree(root: &kuchiki::NodeRef) -> (written: Option<Vec<u8>>)
    ensures
        written is Some,
        written matches Some(bytes) ==> bytes@ == serialized(tree_nodes(*root)),
{
    let mut bytes = Vec::new();
    root.serialize(&mut bytes).ok().map(|_| bytes)
}

/// `String::from_utf8` of std: the text that `bytes` encode, where they are
/// valid UTF-8, and nothing where they are not.
#[verifier::external_body]
fn text_from_utf8(bytes: Vec<u8>) -> (text: Option<String>)
    ensures
        text is Some <==> valid_utf8(bytes@),
        text matches Some(t) ==> t@ == decode_utf8(bytes@),
{
    String::from_utf8(bytes).ok()
}

/// A lone kuchiki node that holds `data`.
fn new_node(data: &NodeData) -> (node: kuchiki::NodeRef)
    requires
        data@ matches NodeDataView::Element { name, attributes } ==> distinct_keys(attributes),
    ensures
        tree_nodes(node) == single(data@),
{
    match data {
        NodeData::Element { name, attributes } => new_element(name, attributes),
        NodeData::Text(text) => new_text(text),
        NodeData::Comment(text) => new_comment(text),
        NodeData::ProcessingInstruction { target, data } => new_instruction(target, data),
        NodeData::Doctype { doctype, public_id, system_id } => new_doctype(
            doctype,
            public_id,
            system_id,
        ),
        NodeData::Document => new_document(),
        NodeData::DocumentFragment => new_fragment(),
    }
}

/// Nodes counted from `base`, followed by deeper nodes counted from
/// `base + 1` and moved one level down, are one run counted from `base`.
proof fn lemma_grow(nodes: Seq<NodeView>, i: int, j: int, end: int, base: nat)
    requires
        0 <= i <= j <= end <= nodes.len(),
        forall|k: int| j <= k < end ==> (#[trigger] nodes[k]).depth > base,
    ensures
        rebased(nodes.subrange(i, j), base) + deepened(rebased(nodes.subrange(j, end), base + 1))
            == rebased(nodes.subrange(i, end), base),
{
    let whole = rebased(nodes.subrange(i, end), base);
    let grown = rebased(nodes.subrange(i, j), base) + deepened(
        rebased(nodes.subrange(j, end), base + 1),
    );
    assert(grown.len() == whole.len());
    assert forall|k: int| 0 <= k < whole.len() implies grown[k] == whole[k] by {
        if k >= j - i {
            assert(nodes.subrange(j, end)[k - (j - i)] == nodes[i + k]);
            assert(nodes[i + k].depth > base);
        }
    }
    assert(grown =~= whole);
}

/// What follows the subtree of a child of node `i` is again at most one
/// level below `i`, and the subtree of `i` ends where it did.
proof fn lemma_child_end(nodes: Seq<NodeView>, i: int, j: int)
    requires
        0 <= i < j < nodes.len(),
        nodes[j].depth == nodes[i].depth + 1,
        scan_end(nodes, nodes[i].depth, j) == subtree_end(nodes, i),
    ensures
        j < subtree_end(nodes, j) <= nodes.len(),
        scan_end(nodes, nodes[i].depth, subtree_end(nodes, j)) == subtree_end(nodes, i),
        forall|k: int| j <= k < subtree_end(nodes, j) ==> (#[trigger] nodes[k]).depth > nodes[i].depth,
        subtree_end(nodes, j) < nodes.len() ==> nodes[subtree_end(nodes, j)].depth <= nodes[i].depth
            + 1,
{
    lemma_scan_end(nodes, nodes[j].depth, j + 1);
    lemma_scan_skip(nodes, nodes[i].depth, j, subtree_end(nodes, j));
}

/// Assembles the subtree of node `i` and reports where it ends.
fn build_subtree(document: &Document, i: usize) -> (built: (kuchiki::NodeRef, usize))
    requires
        well_formed(document@),
        i < document@.len(),
    ensures
        built.1 == subtree_end(document@, i as int),
        i < built.1 <= document@.len(),
        tree_nodes(built.0) == rebased(
            document@.subrange(i as int, built.1 as int),
            document@[i as int].depth,
        ),
    decreases document@.len() - i,
{
    let count = document.nodes.len();
    let ghost nodes = document@;
    assert(nodes.len() == count);
    assert(nodes[i as int] == document.nodes@[i as int]@);
    let depth = document.nodes[i].depth;
    let mut node = new_node(&document.nodes[i].data);
    let mut j: usize = i + 1;
    proof {
        lemma_scan_end(nodes, depth as nat, i + 1);
        assert(tree_nodes(node) =~= rebased(nodes.subrange(i as int, j as int), depth as nat));
        if j < count {
            assert(follows(nodes, j as int));
        }
    }
    while j < count && document.nodes[j].depth > depth
        invariant
            i < j <= count == document.nodes.len(),
            nodes == document@,
            nodes.len() == count,
            well_formed(nodes),
            depth == nodes[i as int].depth,
            j < count ==> nodes[j as int].depth <= depth + 1,
            scan_end(nodes, depth as nat, j as int) == subtree_end(nodes, i as int),
            tree_nodes(node) == rebased(nodes.subrange(i as int, j as int), depth as nat),
        decreases count - j,
    {
        assert(nodes[j as int] == document.nodes@[j as int]@);
        let (child, end) = build_subtree(document, j);
        append_child(&mut node, child);
        proof {
            lemma_child_end(nodes, i as int, j as int);
            lemma_grow(nodes, i as int, j as int, end as int, depth as nat);
        }
        j = end;
    }
    (node, j)
}

/// Turns what the serialiser wrote into text.
pub fn finish_markup(written: Option<Vec<u8>>) -> (markup: Result<String, ServerError>)
    ensures
        match written {
            None => markup == Err::<String, ServerError>(ServerError::Write),
            Some(bytes) => if valid_utf8(bytes@) {
                markup matches Ok(text) && text@ == decode_utf8(bytes@)
            } else {
                markup == Err::<String, ServerError>(ServerError::Encoding)
            },
        },
{
    match written {
        None => Err(ServerError::Write),
        Some(bytes) => match text_from_utf8(bytes) {
            Some(text) => Ok(text),
            None => Err(ServerError::Encoding),
        },
    }
}

/// What writing a document gives: the text that the serialiser's bytes
/// decode to, exactly where the list is one tree and the bytes are valid
/// UTF-8; else the reason.
pub open spec fn written_as(markup: Result<String, ServerError>, nodes: Seq<NodeView>) -> bool {
    match markup {
        Ok(text) => well_formed(nodes) && valid_utf8(serialized(nodes)) && text@ == decode_utf8(
            serialized(nodes),
        ),
        Err(ServerError::Malformed) => !well_formed(nodes),
        Err(ServerError::Encoding) => well_formed(nodes) && !valid_utf8(serialized(nodes)),
        Err(_) => false,
    }
}

/// Writes a document tree as markup.
///
/// A list that does not describe one tree is refused. Otherwise the tree is
/// handed to the serialiser, and the text is what its bytes decode to.
pub fn write_document(document: &Document) -> (markup: Result<String, ServerError>)
    ensures
        written_as(markup, document@),
{
    if !document.is_well_formed() {
        return Err(ServerError::Malformed);
    }
    let (root, end) = build_subtree(document, 0);
    proof {
        lemma_root_spans(document@);
        assert(document@.subrange(0, end as int) =~= document@);
        assert(rebased(document@, 0) =~= document@);
    }
    finish_markup(serialize_tree(&root))
}

} // verus!
