//! The schema tree: which elements may lie under which, and which terms
//! each of them admits.

use vstd::prelude::*;
use crate::metadatum::TagId;

verus! {

/// One node of the schema: an element, the terms it admits and the
/// elements that may lie under it.
pub struct SchemaNode {
    /// The kinds of element that the node stands for.
    pub self_tags: Vec<TagId>,
    /// The accessions of the terms that the element admits.
    pub accessions: Vec<String>,
    /// The elements that may lie under this one, in document order.
    pub children: Vec<SchemaNode>,
}

/// The schema of a document: its top-level elements, in document order.
pub struct SchemaTree {
    pub roots: Vec<SchemaNode>,
}

/// Whether the node stands for elements of kind `tag`.
pub open spec fn node_has_tag(node: SchemaNode, tag: TagId) -> bool {
    node.self_tags@.contains(tag)
}

/// The first of the nodes from place `i` on that stands for `tag`.
pub open spec fn first_with_tag(nodes: Seq<SchemaNode>, tag: TagId, i: int) -> Option<SchemaNode>
    decreases nodes.len() - i,
{
    if i < 0 || i >= nodes.len() {
        None
    } else if node_has_tag(nodes[i], tag) {
        Some(nodes[i])
    } else {
        first_with_tag(nodes, tag, i + 1)
    }
}

/// The first node that stands for `tag` when the tree under `node` is
/// walked from the node down, each node before the nodes under it and
/// those from first to last.
pub open spec fn find_in(node: SchemaNode, tag: TagId) -> Option<SchemaNode>
    decreases node, 1nat, 0nat,
{
    if node_has_tag(node, tag) {
        Some(node)
    } else {
        find_among(node, tag, 0)
    }
}

/// The first node that stands for `tag` in the trees under the children
/// of `parent` from place `i` on.
pub open spec fn find_among(parent: SchemaNode, tag: TagId, i: nat) -> Option<SchemaNode>
    decreases parent, 0nat, parent.children@.len() - i,
{
    if i >= parent.children@.len() {
        None
    } else {
        match find_in(parent.children@[i as int], tag) {
            Some(n) => Some(n),
            None => find_among(parent, tag, i + 1),
        }
    }
}

/// The first node that stands for `tag` in the trees under the roots from
/// place `i` on.
pub open spec fn find_in_roots(roots: Seq<SchemaNode>, tag: TagId, i: int) -> Option<SchemaNode>
    decreases roots.len() - i,
{
    if i < 0 || i >= roots.len() {
        None
    } else {
        match find_in(roots[i], tag) {
            Some(n) => Some(n),
            None => find_in_roots(roots, tag, i + 1),
        }
    }
}

/// The node of the schema that stands for `tag`: a root that stands for
/// it, else the first node found when the trees under the roots are
/// walked in order.
pub open spec fn find_in_schema(schema: SchemaTree, tag: TagId) -> Option<SchemaNode> {
    match first_with_tag(schema.roots@, tag, 0) {
        Some(n) => Some(n),
        None => find_in_roots(schema.roots@, tag, 0),
    }
}

/// Returns whether the node stands for elements of kind `tag`.
pub fn has_tag(node: &SchemaNode, tag: TagId) -> (r: bool)
    ensures
        r == node_has_tag(*node, tag),
{
    let mut i: usize = 0;
    while i < node.self_tags.len()
        invariant
            i <= node.self_tags@.len(),
            forall|j: int| 0 <= j < i ==> node.self_tags@[j] != tag,
        decreases node.self_tags@.len() - i,
    {
        if node.self_tags[i] == tag {
            return true;
        }
        i = i + 1;
    }
    false
}

/// Finds the first of the nodes that stands for `tag`.
pub fn find_first_with_tag<'a>(nodes: &'a Vec<SchemaNode>, tag: TagId) -> (r: Option<
    &'a SchemaNode,
>)
    ensures
        match r {
            Some(n) => first_with_tag(nodes@, tag, 0) == Some(*n),
            None => first_with_tag(nodes@, tag, 0) is None,
        },
{
    let mut i: usize = 0;
    while i < nodes.len()
        invariant
            i <= nodes@.len(),
            first_with_tag(nodes@, tag, 0) == first_with_tag(nodes@, tag, i as int),
        decreases nodes@.len() - i,
    {
        if has_tag(&nodes[i], tag) {
            return Some(&nodes[i]);
        }
        i = i + 1;
    }
    None
}

/// Finds the first node that stands for `tag` in the tree under `node`.
pub fn find_node_by_tag_rec<'a>(node: &'a SchemaNode, tag: TagId) -> (r: Option<&'a SchemaNode>)
    ensures
        match r {
            Some(n) => find_in(*node, tag) == Some(*n),
            None => find_in(*node, tag) is None,
        },
    decreases node,
{
    if has_tag(node, tag) {
        return Some(node);
    }
    let mut i: usize = 0;
    while i < node.children.len()
        invariant
            i <= node.children@.len(),
            !node_has_tag(*node, tag),
            find_in(*node, tag) == find_among(*node, tag, i as nat),
        decreases node.children@.len() - i,
    {
        match find_node_by_tag_rec(&node.children[i], tag) {
            Some(n) => {
                return Some(n);
            },
            None => {},
        }
        i = i + 1;
    }
    None
}

/// Finds the node of the schema that stands for `tag`.
pub fn find_node_by_tag<'a>(schema: &'a SchemaTree, tag: TagId) -> (r: Option<&'a SchemaNode>)
    ensures
        match r {
            Some(n) => find_in_schema(*schema, tag) == Some(*n),
            None => find_in_schema(*schema, tag) is None,
        },
{
    match find_first_with_tag(&schema.roots, tag) {
        Some(n) => {
            return Some(n);
        },
        None => {},
    }
    let mut i: usize = 0;
    while i < schema.roots.len()
        invariant
            i <= schema.roots@.len(),
            first_with_tag(schema.roots@, tag, 0) is None,
            find_in_roots(schema.roots@, tag, 0) == find_in_roots(schema.roots@, tag, i as int),
        decreases schema.roots@.len() - i,
    {
        match find_node_by_tag_rec(&schema.roots[i], tag) {
            Some(n) => {
                return Some(n);
            },
            None => {},
        }
        i = i + 1;
    }
    None
}

/// The child of `parent` that stands for `tag`: the first that does.
pub open spec fn child_of(parent: Option<SchemaNode>, tag: TagId) -> Option<SchemaNode> {
    match parent {
        None => None,
        Some(p) => first_with_tag(p.children@, tag, 0),
    }
}

/// The node behind an optional reference.
pub open spec fn node_value(node: Option<&SchemaNode>) -> Option<SchemaNode> {
    match node {
        Some(n) => Some(*n),
        None => None,
    }
}

/// Returns the child of `parent` that stands for `tag`.
pub fn child_node<'a>(parent: Option<&'a SchemaNode>, tag: TagId) -> (r: Option<&'a SchemaNode>)
    ensures
        match r {
            Some(n) => child_of(node_value(parent), tag) == Some(*n),
            None => child_of(node_value(parent), tag) is None,
        },
{
    match parent {
        None => None,
        Some(p) => find_first_with_tag(&p.children, tag),
    }
}

} // verus!
