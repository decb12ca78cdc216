//! A small query over the document tree: finding the first node of a
//! given element kind, in document order.

use vstd::prelude::*;
use crate::dom_node::{opt_idx, wf_nodes, ElementKind, NodeKindV, NodeV, Window};

verus! {

/// The first node at or below/after `node` (searching the node itself,
/// then its child subtree, then its following siblings) whose kind is an
/// element of the given kind carrying no attributes.
pub open spec fn find_target_s(nodes: Seq<NodeV>, node: Option<int>, kind: ElementKind) -> Option<
    int,
>
    decreases (match node {
        Some(i) => nodes.len() - i,
        None => 0,
    }),
    when (match node {
        Some(i) => 0 <= i < nodes.len() && wf_nodes(nodes),
        None => true,
    })
{
    match node {
        None => None,
        Some(i) => {
            if nodes[i].kind matches NodeKindV::Element(e) && e.kind == kind && e.attributes.len()
                == 0 {
                Some(i)
            } else {
                let r1 = find_target_s(nodes, nodes[i].first_child, kind);
                let r2 = find_target_s(nodes, nodes[i].next_sibling, kind);
                if r1 is None && r2 is None {
                    None
                } else if r1 is None {
                    r2
                } else {
                    r1
                }
            }
        },
    }
}

/// Finds the first node of the given element kind (carrying no
/// attributes), searching the node, its subtree and its following
/// siblings in document order.
pub fn get_target_element_node(
    window: &Window,
    node: Option<usize>,
    element_kind: ElementKind,
) -> (r: Option<usize>)
    requires
        wf_nodes(window@),
        (match node {
            Some(i) => i < window@.len(),
            None => true,
        }),
    ensures
        opt_idx(r) == find_target_s(window@, opt_idx(node), element_kind),
    decreases (match node {
        Some(i) => window@.len() - i,
        None => 0,
    }),
{
    match node {
        None => None,
        Some(i) => {
            let n = window.get_node(i);
            let hit: bool = match n.get_element() {
                Some(e) => {
                    let k = e.kind();
                    let attrs = e.attributes();
                    k == element_kind && attrs.len() == 0
                },
                None => false,
            };
            if hit {
                return Some(i);
            }
            proof {
                assert(wf_nodes(window@));
                assert(0 <= i < window@.len());
                assert((match window@[i as int].first_child {
                    Some(c) => i < c < window@.len(),
                    None => true,
                }));
                assert((match window@[i as int].next_sibling {
                    Some(s) => i < s < window@.len(),
                    None => true,
                }));
            }
            let result1 = get_target_element_node(window, n.first_child(), element_kind);
            let result2 = get_target_element_node(window, n.next_sibling(), element_kind);
            if result1.is_none() && result2.is_none() {
                return None;
            }
            if result1.is_none() {
                return result2;
            }
            result1
        },
    }
}

/// The found node lies inside the arena.
pub proof fn lemma_find_target_bounds(nodes: Seq<NodeV>, node: Option<int>, kind: ElementKind)
    requires
        wf_nodes(nodes),
        (match node {
            Some(i) => 0 <= i < nodes.len(),
            None => true,
        }),
    ensures
        (match find_target_s(nodes, node, kind) {
            Some(r) => 0 <= r < nodes.len(),
            None => true,
        }),
    decreases (match node {
        Some(i) => nodes.len() - i,
        None => 0,
    }),
{
    match node {
        None => {},
        Some(i) => {
            if nodes[i].kind matches NodeKindV::Element(e) && e.kind == kind && e.attributes.len()
                == 0 {
            } else {
                assert(wf_nodes(nodes));
                assert((match nodes[i].first_child {
                    Some(c) => i < c < nodes.len(),
                    None => true,
                }));
                lemma_find_target_bounds(nodes, nodes[i].first_child, kind);
                lemma_find_target_bounds(nodes, nodes[i].next_sibling, kind);
            }
        },
    }
}

} // verus!
