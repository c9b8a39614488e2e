//! An arena model of a parsed HTML document.
//!
//! Nodes live in one flat vector and refer to their children by index.  The
//! tree is well formed when every child index points past its parent and into
//! the vector; building the arena in preorder guarantees this, and it gives
//! every traversal an obvious termination measure.

use vstd::prelude::*;
use vstd::string::StringExecFns;

verus! {

/// The kinds of nodes an HTML document tree may hold.
#[derive(Clone, Copy, PartialEq, Eq, Structural, Debug)]
pub enum NodeKind {
    Document,
    Doctype,
    Element,
    Text,
    Comment,
}

/// One attribute of an element: a namespace, a local name and a value.  The
/// namespace is empty for the attributes of plain HTML markup; attributes of
/// foreign content (inline SVG or MathML) keep theirs, so the serializer can
/// restore their prefixes.
#[derive(Clone, Debug)]
pub struct HtmlAttr {
    pub ns: String,
    pub name: String,
    pub value: String,
}

/// The abstract value of an attribute.
pub ghost struct AttrView {
    pub ns: Seq<char>,
    pub name: Seq<char>,
    pub value: Seq<char>,
}

impl View for HtmlAttr {
    type V = AttrView;

    open spec fn view(&self) -> AttrView {
        AttrView { ns: self.ns@, name: self.name@, value: self.value@ }
    }
}

/// The abstract value of an attribute list.
pub open spec fn attrs_view(s: Seq<HtmlAttr>) -> Seq<AttrView> {
    s.map_values(|a: HtmlAttr| a@)
}

/// One node of the arena.  `name` holds the tag name of an element or the
/// name of a doctype, and `ns` an element's namespace; `text` holds the
/// contents of a text or comment node; `attrs` and `children` are meaningful
/// for elements (and `children` for the document root).
#[derive(Clone, Debug)]
pub struct HtmlNode {
    pub kind: NodeKind,
    pub ns: String,
    pub name: String,
    pub text: String,
    pub attrs: Vec<HtmlAttr>,
    pub children: Vec<usize>,
}

/// The abstract value of a node.
pub ghost struct NodeView {
    pub kind: NodeKind,
    pub ns: Seq<char>,
    pub name: Seq<char>,
    pub text: Seq<char>,
    pub attrs: Seq<AttrView>,
    pub children: Seq<int>,
}

impl View for HtmlNode {
    type V = NodeView;

    open spec fn view(&self) -> NodeView {
        NodeView {
            kind: self.kind,
            ns: self.ns@,
            name: self.name@,
            text: self.text@,
            attrs: attrs_view(self.attrs@),
            children: self.children@.map_values(|c: usize| c as int),
        }
    }
}

/// A whole document: a flat arena of nodes, rooted at index 0.
pub struct HtmlDoc {
    pub nodes: Vec<HtmlNode>,
}

impl View for HtmlDoc {
    type V = Seq<NodeView>;

    open spec fn view(&self) -> Seq<NodeView> {
        self.nodes@.map_values(|n: HtmlNode| n@)
    }
}

/// The children of node `i` all point strictly past `i` and into the arena.
pub open spec fn node_wf(d: Seq<NodeView>, i: int) -> bool {
    forall|j: int|
        0 <= j < d[i].children.len() ==> i < #[trigger] d[i].children[j] < d.len()
}

/// A well-formed arena: nonempty, rooted at a document node, and acyclic
/// because every edge increases the node index.
pub open spec fn doc_wf(d: Seq<NodeView>) -> bool {
    &&& d.len() >= 1
    &&& d[0].kind == NodeKind::Document
    &&& forall|i: int| 0 <= i < d.len() ==> #[trigger] node_wf(d, i)
}

impl HtmlDoc {
    pub open spec fn wf(&self) -> bool {
        doc_wf(self@)
    }
}

/// Only the root is a document node.  The parser guarantees this, and the
/// serializer relies on it: a document node anywhere below the root cannot
/// be rendered.
pub open spec fn no_nested_document(d: Seq<NodeView>) -> bool {
    forall|i: int| 1 <= i < d.len() ==> (#[trigger] d[i]).kind != NodeKind::Document
}

/// The name of a node kind, for diagnostics.
pub open spec fn kind_name(k: NodeKind) -> Seq<char> {
    match k {
        NodeKind::Document => "Document"@,
        NodeKind::Doctype => "Doctype"@,
        NodeKind::Element => "Element"@,
        NodeKind::Text => "Text"@,
        NodeKind::Comment => "Comment"@,
    }
}

/// Names a node kind.
pub fn kind_name_exec(k: NodeKind) -> (r: String)
    ensures
        r@ == kind_name(k),
{
    match k {
        NodeKind::Document => String::from_str("Document"),
        NodeKind::Doctype => String::from_str("Doctype"),
        NodeKind::Element => String::from_str("Element"),
        NodeKind::Text => String::from_str("Text"),
        NodeKind::Comment => String::from_str("Comment"),
    }
}

} // verus!
