//! The body locator: a depth-first, pre-order search for the first element
//! whose tag name is `body`.

use vstd::prelude::*;
use crate::dom::{doc_wf, node_wf, HtmlDoc, NodeKind, NodeView};
use crate::text::str_eq;

verus! {

/// Whether a node is a body element.
pub open spec fn is_body_elem(n: NodeView) -> bool {
    n.kind == NodeKind::Element && n.name == "body"@
}

/// The first body element at or below node `i`, in pre-order.
pub open spec fn first_body_from(d: Seq<NodeView>, i: int) -> Option<int>
    decreases d.len() - i, 1int, 0int,
        when doc_wf(d) && 0 <= i < d.len()
{
    if is_body_elem(d[i]) {
        Some(i)
    } else {
        first_body_in_kids(d, i, 0)
    }
}

/// The first body element below one of the children `k..` of node `i`.
pub open spec fn first_body_in_kids(d: Seq<NodeView>, i: int, k: int) -> Option<int>
    decreases d.len() - i, 0int, d[i].children.len() - k,
        when doc_wf(d) && 0 <= i < d.len() && 0 <= k <= d[i].children.len()
        via first_body_in_kids_decreases
{
    if k >= d[i].children.len() {
        None
    } else {
        match first_body_from(d, d[i].children[k]) {
            Some(r) => Some(r),
            None => first_body_in_kids(d, i, k + 1),
        }
    }
}

#[via_fn]
proof fn first_body_in_kids_decreases(d: Seq<NodeView>, i: int, k: int) {
    assert(node_wf(d, i));
}

/// The node that the search returns really is a body element.
pub proof fn lemma_first_body_from_is_body(d: Seq<NodeView>, i: int)
    requires
        doc_wf(d),
        0 <= i < d.len(),
    ensures
        match first_body_from(d, i) {
            Some(b) => 0 <= b < d.len() && is_body_elem(d[b]),
            None => true,
        },
    decreases d.len() - i, 1int, 0int,
{
    if !is_body_elem(d[i]) {
        lemma_first_body_in_kids_is_body(d, i, 0);
    }
}

/// As `lemma_first_body_from_is_body`, for the search over children.
proof fn lemma_first_body_in_kids_is_body(d: Seq<NodeView>, i: int, k: int)
    requires
        doc_wf(d),
        0 <= i < d.len(),
        0 <= k <= d[i].children.len(),
    ensures
        match first_body_in_kids(d, i, k) {
            Some(b) => 0 <= b < d.len() && is_body_elem(d[b]),
            None => true,
        },
    decreases d.len() - i, 0int, d[i].children.len() - k,
{
    if k < d[i].children.len() {
        assert(node_wf(d, i));
        lemma_first_body_from_is_body(d, d[i].children[k]);
        lemma_first_body_in_kids_is_body(d, i, k + 1);
    }
}

/// Finds the first body element at or below node `i`, depth first and in
/// pre-order.
pub fn find_body_from(doc: &HtmlDoc, i: usize) -> (r: Option<usize>)
    requires
        doc.wf(),
        i < doc@.len(),
    ensures
        match r {
            Some(b) => first_body_from(doc@, i as int) == Some(b as int),
            None => first_body_from(doc@, i as int) is None,
        },
    decreases doc@.len() - i,
{
    let is_elem = match doc.nodes[i].kind {
        NodeKind::Element => true,
        _ => false,
    };
    if is_elem && str_eq(doc.nodes[i].name.as_str(), "body") {
        assert(is_body_elem(doc@[i as int]));
        return Some(i);
    }
    assert(!is_body_elem(doc@[i as int]));
    let mut k: usize = 0;
    let n_kids = doc.nodes[i].children.len();
    assert(n_kids == doc@[i as int].children.len());
    loop
        invariant
            doc.wf(),
            i < doc@.len(),
            k <= n_kids,
            n_kids == doc@[i as int].children.len(),
            !is_body_elem(doc@[i as int]),
            first_body_in_kids(doc@, i as int, 0) == first_body_in_kids(doc@, i as int, k as int),
        decreases n_kids - k,
    {
        if k == n_kids {
            return None;
        }
        assert(node_wf(doc@, i as int));
        let c = doc.nodes[i].children[k];
        assert(doc@[i as int].children[k as int] == c as int);
        assert(i < c && (c as int) < doc@.len());
        let r = find_body_from(doc, c);
        match r {
            Some(b) => {
                return Some(b);
            },
            None => {
            },
        }
        k = k + 1;
    }
}

/// Finds the first body element of the document, depth first and in
/// pre-order from the root.
pub fn find_body(doc: &HtmlDoc) -> (r: Option<usize>)
    requires
        doc.wf(),
    ensures
        match r {
            Some(b) => first_body_from(doc@, 0) == Some(b as int) && 0 <= b < doc@.len()
                && is_body_elem(doc@[b as int]),
            None => first_body_from(doc@, 0) is None,
        },
{
    proof {
        lemma_first_body_from_is_body(doc@, 0);
    }
    find_body_from(doc, 0)
}

} // verus!
