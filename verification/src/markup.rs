//! Parsing and rendering, through html5ever.
//!
//! The parser and the serializer are the two outside calls of the library.
//! Both are deterministic, so each result carries a name: `dom_of` for the
//! tree that parsing a text yields, `render_of` for the bytes that rendering
//! a tree yields.  Everything between the two calls — locating the body and
//! merging attributes — works on the arena and is verified against those
//! names.

use vstd::prelude::*;
use std::cell::RefCell;
use html5ever::parse_document;
use html5ever::serialize::{serialize, SerializeOpts};
use html5ever::tendril::{StrTendril, TendrilSink};
use html5ever::{Attribute, LocalName, Namespace, ParseOpts, QualName};
use markup5ever_rcdom::{Handle, Node, NodeData, RcDom, SerializableHandle};
use crate::attrs::distinct_names;
use crate::dom::{no_nested_document, HtmlAttr, HtmlDoc, HtmlNode, NodeKind, NodeView};
use crate::locate::is_body_elem;

verus! {

/// A parsed-tree node of markup5ever_rcdom, opaque to the library; it only
/// passes through the trusted conversion helpers below.
#[verifier::external_type_specification]
#[verifier::external_body]
pub struct ExNode(Node);

/// The payload of a parsed-tree node, opaque to the library.
#[verifier::external_type_specification]
#[verifier::external_body]
pub struct ExNodeData(NodeData);

/// An attribute of a parsed-tree element, opaque to the library.
#[verifier::external_type_specification]
#[verifier::external_body]
pub struct ExAttribute(Attribute);

/// A qualified name of html5ever, opaque to the library.
#[verifier::external_type_specification]
#[verifier::external_body]
pub struct ExQualName(QualName);

/// The document tree that parsing a text yields, repaired per the HTML
/// standard, as an arena in preorder.  Parsing is deterministic, so the tree
/// is a function of the text alone.
pub uninterp spec fn dom_of(s: Seq<char>) -> Seq<NodeView>;

/// The bytes that rendering a document tree yields.  Serialization is
/// deterministic, so the bytes are a function of the tree alone.
pub uninterp spec fn render_of(d: Seq<NodeView>) -> Seq<u8>;

/// An arena node without namespace, attributes or children.
fn arena_node(kind: NodeKind, name: String, text: String) -> (n: HtmlNode)
    ensures
        n@ == (NodeView {
            kind,
            ns: Seq::empty(),
            name: name@,
            text: text@,
            attrs: Seq::empty(),
            children: Seq::empty(),
        }),
{
    let n = HtmlNode {
        kind,
        ns: String::new(),
        name,
        text,
        attrs: Vec::new(),
        children: Vec::new(),
    };
    proof {
        assert(n@.attrs =~= Seq::<crate::dom::AttrView>::empty());
        assert(n@.children =~= Seq::<int>::empty());
    }
    n
}

/// An arena element node: the tag's namespace and local name, and each
/// attribute's namespace, local name and value.
#[verifier::external_body]
fn element_node(name: &QualName, attrs: &[Attribute]) -> HtmlNode {
    let attrs = attrs.iter().map(
        |a| HtmlAttr {
            ns: a.name.ns.to_string(),
            name: a.name.local.to_string(),
            value: a.value.to_string(),
        },
    ).collect();
    HtmlNode {
        kind: NodeKind::Element,
        ns: name.ns.to_string(),
        name: name.local.to_string(),
        text: String::new(),
        attrs,
        children: Vec::new(),
    }
}

/// Converts one parsed node's payload into an arena node, childless for now.
/// A doctype keeps its name; a processing instruction, which the HTML parser
/// itself never produces, is kept as a comment.
#[verifier::external_body]
fn convert_data(h: &Handle) -> HtmlNode {
    match &h.data {
        NodeData::Document => arena_node(NodeKind::Document, String::new(), String::new()),
        NodeData::Doctype { name, .. } => arena_node(NodeKind::Doctype, name.to_string(), String::new()),
        NodeData::Text { contents } => arena_node(NodeKind::Text, String::new(), contents.borrow().to_string()),
        NodeData::Comment { contents } => arena_node(NodeKind::Comment, String::new(), contents.to_string()),
        NodeData::ProcessingInstruction { contents, .. } => arena_node(NodeKind::Comment, String::new(), contents.to_string()),
        NodeData::Element { name, attrs, .. } => element_node(name, &attrs.borrow()),
    }
}

/// Converts one parsed node and its descendants into arena nodes, parent
/// before children, and returns the index of the converted node.
#[verifier::external_body]
fn push_subtree(h: &Handle, nodes: &mut Vec<HtmlNode>) -> usize {
    let i = nodes.len();
    nodes.push(convert_data(h));
    for c in h.children.borrow().iter() {
        let ci = push_subtree(c, nodes);
        nodes[i].children.push(ci);
    }
    i
}

/// Relies on html5ever::parse_document, with markup5ever_rcdom as the tree
/// sink: parses the text into a document tree, repairing structurally
/// incomplete markup as the HTML standard prescribes.  The arena is built in
/// preorder, so it is well formed, and the parser emits the document node
/// only at the root.  The tokenizer drops attributes repeating an earlier
/// written name; on a foreign-content element two written names can still
/// collapse to one local name in different namespaces (`href` beside
/// `xlink:href`), so local-name distinctness is promised only of body
/// elements, which are always HTML elements, whose attribute local names are
/// the deduplicated written names.
#[verifier::external_body]
pub(crate) fn parse_html(html: &str) -> (doc: HtmlDoc)
    ensures
        doc@ == dom_of(html@),
        doc.wf(),
        no_nested_document(doc@),
        forall|i: int|
            0 <= i < doc@.len() && is_body_elem(#[trigger] doc@[i]) ==> distinct_names(
                doc@[i].attrs,
            ),
{
    let dom = parse_document(RcDom::default(), ParseOpts::default()).one(html);
    let mut nodes: Vec<HtmlNode> = Vec::new();
    push_subtree(&dom.document, &mut nodes);
    HtmlDoc { nodes }
}

/// A qualified name with no prefix, in the given namespace.
#[verifier::external_body]
fn qual_name(ns: &str, local: &str) -> QualName {
    QualName::new(None, Namespace::from(ns), LocalName::from(local))
}

/// An element's attribute back from its arena form, in the namespace it was
/// parsed with (none for the attributes of plain HTML markup).
#[verifier::external_body]
fn attr_back(a: &HtmlAttr) -> Attribute {
    Attribute {
        name: qual_name(a.ns.as_str(), a.name.as_str()),
        value: StrTendril::from(a.value.as_str()),
    }
}

/// An element's payload back from its arena form, in the namespace it was
/// parsed with.
#[verifier::external_body]
fn element_data_back(n: &HtmlNode) -> NodeData {
    NodeData::Element {
        name: qual_name(n.ns.as_str(), n.name.as_str()),
        attrs: RefCell::new(n.attrs.iter().map(attr_back).collect()),
        template_contents: RefCell::new(None),
        mathml_annotation_xml_integration_point: false,
    }
}

/// One arena node's payload back as a parsed-tree payload.
#[verifier::external_body]
fn node_data_back(n: &HtmlNode) -> NodeData {
    match n.kind {
        NodeKind::Document => NodeData::Document,
        NodeKind::Doctype => NodeData::Doctype {
            name: StrTendril::from(n.name.as_str()),
            public_id: StrTendril::new(),
            system_id: StrTendril::new(),
        },
        NodeKind::Text => NodeData::Text { contents: RefCell::new(StrTendril::from(n.text.as_str())) },
        NodeKind::Comment => NodeData::Comment { contents: StrTendril::from(n.text.as_str()) },
        NodeKind::Element => element_data_back(n),
    }
}

/// Rebuilds one arena node and its descendants as parsed-tree nodes.
#[verifier::external_body]
fn build_subtree(doc: &HtmlDoc, i: usize) -> Handle {
    let node = Node::new(node_data_back(&doc.nodes[i]));
    for c in doc.nodes[i].children.iter() {
        let child = build_subtree(doc, *c);
        node.children.borrow_mut().push(child);
    }
    node
}

/// Relies on html5ever::serialize, with markup5ever_rcdom as the tree
/// source: renders the tree below the document root to HTML text, escaping
/// text and attribute values as the standard serialization prescribes.  The
/// serializer fails only when its writer does; the writer here is an
/// in-memory vector, which cannot, so the call succeeds, and what it writes
/// is UTF-8 text.  A document node below the root would make the serializer
/// panic, so such trees are excluded.
#[verifier::external_body]
pub(crate) fn render_doc(doc: &HtmlDoc) -> (r: Result<Vec<u8>, String>)
    requires
        doc.wf(),
        no_nested_document(doc@),
    ensures
        r is Ok,
        r->Ok_0@ == render_of(doc@),
        vstd::utf8::valid_utf8(r->Ok_0@),
{
    let root = build_subtree(doc, 0);
    let handle = SerializableHandle::from(root);
    let mut buf: Vec<u8> = Vec::new();
    match serialize(&mut buf, &handle, SerializeOpts::default()) {
        Ok(()) => Ok(buf),
        Err(e) => Err(e.to_string()),
    }
}

} // verus!
