//! The layout tree: built from the document subtree under the `body`
//! element joined with the style rule set, then sized and positioned.
//! A node whose resolved display is none contributes no box, and neither
//! does its subtree; the builder walks on to the next sibling, so later
//! siblings stay reachable. Boxes live in an arena whose owning links
//! (first child, next sibling) always point at later boxes.

use vstd::prelude::*;
use crate::computed_style::{ComputedStyle, DisplayType, StyleV};
use crate::constants::CONTENT_AREA_WIDTH;
use crate::cssom::{decls_view, duplicate_declarations, QualifiedRuleV, StyleSheet};
use crate::dom_api::{find_target_s, get_target_element_node};
use crate::dom_node::{opt_idx, wf_nodes, ElementKind, NodeV, Window};
use crate::layout_object::{compute_size_s, create_s_obj, resolved_style_s, sat_i64, sat_add,
    LayoutObject, LayoutObjectKind, LayoutObjectV, LayoutPoint, LayoutSize};

verus! {

/// Well-formedness of the box arena: owning links point at later boxes
/// inside the arena.
pub open spec fn wf_objs(objs: Seq<LayoutObjectV>) -> bool {
    forall|i: int|
        #![trigger objs[i]]
        0 <= i < objs.len() ==> {
            &&& (match objs[i].first_child {
                Some(c) => i < c < objs.len(),
                None => true,
            })
            &&& (match objs[i].next_sibling {
                Some(s) => i < s < objs.len(),
                None => true,
            })
        }
}

/// Two box arenas that agree on everything but points and sizes.
pub open spec fn links_eq(a: Seq<LayoutObjectV>, b: Seq<LayoutObjectV>) -> bool {
    &&& a.len() == b.len()
    &&& (forall|i: int|
        #![trigger a[i]]
        0 <= i < a.len() ==> a[i] == (LayoutObjectV {
            point: a[i].point,
            size: a[i].size,
            ..b[i]
        }))
}

/// The box a node contributes, if its resolved display is not none: a
/// fresh box carrying the resolved style, appended to the arena.
pub open spec fn create_obj_s(
    nodes: Seq<NodeV>,
    objs: Seq<LayoutObjectV>,
    node: Option<int>,
    parent_obj: Option<int>,
    parent_style: Option<StyleV>,
    rules: Seq<QualifiedRuleV>,
) -> (Seq<LayoutObjectV>, Option<int>) {
    match node {
        None => (objs, None),
        Some(i) => {
            let st = resolved_style_s(nodes[i].kind, rules, parent_style);
            if st.display == Some(DisplayType::DisplayNone) {
                (objs, None)
            } else {
                (
                    objs.push(
                        create_s_obj(i, nodes[i].kind, parent_obj, st),
                    ),
                    Some(objs.len() as int),
                )
            }
        },
    }
}

/// The layout subtree built from a node and its following siblings: the
/// first node in the chain whose resolved display is not none becomes a
/// box; its children are built beneath it (inheriting its style) and its
/// following siblings beside it, under the same parent.
pub open spec fn build_s(
    nodes: Seq<NodeV>,
    objs: Seq<LayoutObjectV>,
    node: Option<int>,
    parent_obj: Option<int>,
    parent_style: Option<StyleV>,
    rules: Seq<QualifiedRuleV>,
) -> (Seq<LayoutObjectV>, Option<int>)
    decreases (match node {
        Some(i) => nodes.len() - i,
        None => 0,
    }),
    when wf_nodes(nodes) && (match node {
        Some(i) => 0 <= i < nodes.len(),
        None => true,
    })
{
    match node {
        None => (objs, None),
        Some(i) => {
            let c = create_obj_s(nodes, objs, node, parent_obj, parent_style, rules);
            match c.1 {
                None => build_s(nodes, objs, nodes[i].next_sibling, parent_obj, parent_style, rules),
                Some(id) => {
                    let st = resolved_style_s(nodes[i].kind, rules, parent_style);
                    let r1 = build_s(nodes, c.0, nodes[i].first_child, Some(id), Some(st), rules);
                    let r2 = build_s(
                        nodes,
                        r1.0,
                        nodes[i].next_sibling,
                        parent_obj,
                        parent_style,
                        rules,
                    );
                    (
                        r2.0.update(
                            id,
                            LayoutObjectV { first_child: r1.1, next_sibling: r2.1, ..r2.0[id] },
                        ),
                        Some(id),
                    )
                },
            }
        },
    }
}

/// What the builder guarantees: the arena only grows, earlier boxes are
/// untouched except the box the call hands back, the result index is a
/// fresh box, and the arena stays well formed.
pub proof fn lemma_build_props(
    nodes: Seq<NodeV>,
    objs: Seq<LayoutObjectV>,
    node: Option<int>,
    parent_obj: Option<int>,
    parent_style: Option<StyleV>,
    rules: Seq<QualifiedRuleV>,
)
    requires
        wf_nodes(nodes),
        (match node {
            Some(i) => 0 <= i < nodes.len(),
            None => true,
        }),
        wf_objs(objs),
    ensures
        ({
            let r = build_s(nodes, objs, node, parent_obj, parent_style, rules);
            &&& r.0.len() >= objs.len()
            &&& (forall|j: int| 0 <= j < objs.len() ==> #[trigger] r.0[j] == objs[j])
            &&& (match r.1 {
                Some(id) => objs.len() <= id < r.0.len(),
                None => r.0 == objs,
            })
            &&& wf_objs(r.0)
        }),
    decreases (match node {
        Some(i) => nodes.len() - i,
        None => 0,
    }),
{
    let r = build_s(nodes, objs, node, parent_obj, parent_style, rules);
    match node {
        None => {},
        Some(i) => {
            let c = create_obj_s(nodes, objs, node, parent_obj, parent_style, rules);
            match c.1 {
                None => {
                    lemma_build_props(
                        nodes,
                        objs,
                        nodes[i].next_sibling,
                        parent_obj,
                        parent_style,
                        rules,
                    );
                },
                Some(id) => {
                    let st = resolved_style_s(nodes[i].kind, rules, parent_style);
                    assert(wf_objs(c.0)) by {
                        assert forall|j: int| 0 <= j < c.0.len() implies {
                            &&& (match (#[trigger] c.0[j]).first_child {
                                Some(x) => j < x < c.0.len(),
                                None => true,
                            })
                            &&& (match c.0[j].next_sibling {
                                Some(x) => j < x < c.0.len(),
                                None => true,
                            })
                        } by {
                            if j < objs.len() {
                                assert(c.0[j] == objs[j]);
                                assert(wf_objs(objs));
                            }
                        }
                    }
                    let r1 = build_s(nodes, c.0, nodes[i].first_child, Some(id), Some(st), rules);
                    lemma_build_props(
                        nodes,
                        c.0,
                        nodes[i].first_child,
                        Some(id),
                        Some(st),
                        rules,
                    );
                    let r2 = build_s(
                        nodes,
                        r1.0,
                        nodes[i].next_sibling,
                        parent_obj,
                        parent_style,
                        rules,
                    );
                    lemma_build_props(
                        nodes,
                        r1.0,
                        nodes[i].next_sibling,
                        parent_obj,
                        parent_style,
                        rules,
                    );
                    assert forall|j: int| 0 <= j < r.0.len() implies {
                        &&& (match (#[trigger] r.0[j]).first_child {
                            Some(x) => j < x < r.0.len(),
                            None => true,
                        })
                        &&& (match r.0[j].next_sibling {
                            Some(x) => j < x < r.0.len(),
                            None => true,
                        })
                    } by {
                        if j != id {
                            assert(r.0[j] == r2.0[j]);
                            assert(wf_objs(r2.0));
                        }
                    }
                },
            }
        },
    }
}

/// A node whose resolved display is none contributes no box: building
/// from it is the same as building from its next sibling, so the siblings
/// stay reachable in the built tree.
pub proof fn lemma_display_none_skipped(
    nodes: Seq<NodeV>,
    objs: Seq<LayoutObjectV>,
    i: int,
    parent_obj: Option<int>,
    parent_style: Option<StyleV>,
    rules: Seq<QualifiedRuleV>,
)
    requires
        wf_nodes(nodes),
        0 <= i < nodes.len(),
        resolved_style_s(nodes[i].kind, rules, parent_style).display == Some(
            DisplayType::DisplayNone,
        ),
    ensures
        build_s(nodes, objs, Some(i), parent_obj, parent_style, rules) == build_s(
            nodes,
            objs,
            nodes[i].next_sibling,
            parent_obj,
            parent_style,
            rules,
        ),
{
}

/// The kinds and sizes along a sibling chain, with links read from
/// `links` and sizes from `objs`.
pub open spec fn sibling_sizes_s(
    links: Seq<LayoutObjectV>,
    objs: Seq<LayoutObjectV>,
    j: Option<int>,
) -> Seq<(LayoutObjectKind, LayoutSize)>
    decreases (match j {
        Some(x) => links.len() - x,
        None => 0,
    }),
    when wf_objs(links) && (match j {
        Some(x) => 0 <= x < links.len(),
        None => true,
    })
{
    match j {
        None => Seq::<(LayoutObjectKind, LayoutSize)>::empty(),
        Some(x) => seq![(links[x].kind, objs[x].size)] + sibling_sizes_s(
            links,
            objs,
            links[x].next_sibling,
        ),
    }
}

/// One box's size recomputed from the current sizes of its children.
pub open spec fn resize_one_s(
    links: Seq<LayoutObjectV>,
    objs: Seq<LayoutObjectV>,
    i: int,
    parent_size: LayoutSize,
) -> Seq<LayoutObjectV> {
    objs.update(
        i,
        LayoutObjectV {
            size: compute_size_s(
                links[i].kind,
                links[i].node_kind,
                links[i].style,
                parent_size,
                sibling_sizes_s(links, objs, links[i].first_child),
            ),
            ..objs[i]
        },
    )
}

/// The size pass: a block box fixes its width from its parent before its
/// children are sized; children are sized under it, siblings under the
/// same parent; afterwards the box takes its final size from its sized
/// children.
pub open spec fn size_pass_s(
    links: Seq<LayoutObjectV>,
    objs: Seq<LayoutObjectV>,
    node: Option<int>,
    parent_size: LayoutSize,
) -> Seq<LayoutObjectV>
    decreases (match node {
        Some(i) => links.len() - i,
        None => 0,
    }),
    when wf_objs(links) && (match node {
        Some(i) => 0 <= i < links.len(),
        None => true,
    })
{
    match node {
        None => objs,
        Some(i) => {
            let o1 = if links[i].kind is Block {
                resize_one_s(links, objs, i, parent_size)
            } else {
                objs
            };
            let o2 = size_pass_s(links, o1, links[i].first_child, o1[i].size);
            let o3 = size_pass_s(links, o2, links[i].next_sibling, parent_size);
            resize_one_s(links, o3, i, parent_size)
        },
    }
}

/// The position pass: a block box sits at the parent's x, below the
/// previous sibling; an inline box flows to the right of the previous
/// sibling at the same y. Children are positioned from the box's own
/// point, siblings from the parent's point and the box just placed.
pub open spec fn pos_pass_s(
    links: Seq<LayoutObjectV>,
    objs: Seq<LayoutObjectV>,
    node: Option<int>,
    parent_point: LayoutPoint,
    prev_kind: LayoutObjectKind,
    prev_point: Option<LayoutPoint>,
    prev_size: Option<LayoutSize>,
) -> Seq<LayoutObjectV>
    decreases (match node {
        Some(i) => links.len() - i,
        None => 0,
    }),
    when wf_objs(links) && (match node {
        Some(i) => 0 <= i < links.len(),
        None => true,
    })
{
    match node {
        None => objs,
        Some(i) => {
            let point = if prev_kind is Block || links[i].kind is Block {
                LayoutPoint {
                    x: parent_point.x,
                    y: (match (prev_point, prev_size) {
                        (Some(pp), Some(ps)) => sat_i64(pp.y + ps.height),
                        _ => parent_point.y,
                    }),
                }
            } else {
                match (prev_point, prev_size) {
                    (Some(pp), Some(ps)) => LayoutPoint { x: sat_i64(pp.x + ps.width), y: pp.y },
                    _ => LayoutPoint { x: parent_point.x, y: parent_point.y },
                }
            };
            let o1 = objs.update(i, LayoutObjectV { point, ..objs[i] });
            let o2 = pos_pass_s(
                links,
                o1,
                links[i].first_child,
                point,
                LayoutObjectKind::Block,
                None,
                None,
            );
            pos_pass_s(
                links,
                o2,
                links[i].next_sibling,
                parent_point,
                links[i].kind,
                Some(point),
                Some(o2[i].size),
            )
        },
    }
}

/// Links equality carries well-formedness.
pub proof fn lemma_links_eq_wf(a: Seq<LayoutObjectV>, b: Seq<LayoutObjectV>)
    requires
        links_eq(a, b),
        wf_objs(b),
    ensures
        wf_objs(a),
{
    assert forall|i: int| 0 <= i < a.len() implies {
        &&& (match (#[trigger] a[i]).first_child {
            Some(c) => i < c < a.len(),
            None => true,
        })
        &&& (match a[i].next_sibling {
            Some(s) => i < s < a.len(),
            None => true,
        })
    } by {
        assert(a[i] == (LayoutObjectV { point: a[i].point, size: a[i].size, ..b[i] }));
        assert(wf_objs(b));
    }
}

/// Sibling sizes depend on the links only through fields that points and
/// sizes do not touch.
pub proof fn lemma_sibling_sizes_links(
    l1: Seq<LayoutObjectV>,
    l2: Seq<LayoutObjectV>,
    objs: Seq<LayoutObjectV>,
    j: Option<int>,
)
    requires
        links_eq(l1, l2),
        wf_objs(l2),
        (match j {
            Some(x) => 0 <= x < l2.len(),
            None => true,
        }),
    ensures
        sibling_sizes_s(l1, objs, j) == sibling_sizes_s(l2, objs, j),
    decreases (match j {
        Some(x) => l2.len() - x,
        None => 0,
    }),
{
    lemma_links_eq_wf(l1, l2);
    match j {
        None => {},
        Some(x) => {
            assert(l1[x] == (LayoutObjectV { point: l1[x].point, size: l1[x].size, ..l2[x] }));
            assert(wf_objs(l2));
            lemma_sibling_sizes_links(l1, l2, objs, l2[x].next_sibling);
        },
    }
}

/// The size pass depends on the links only through fields that points and
/// sizes do not touch.
pub proof fn lemma_size_pass_links(
    l1: Seq<LayoutObjectV>,
    l2: Seq<LayoutObjectV>,
    objs: Seq<LayoutObjectV>,
    node: Option<int>,
    parent_size: LayoutSize,
)
    requires
        links_eq(l1, l2),
        wf_objs(l2),
        (match node {
            Some(i) => 0 <= i < l2.len(),
            None => true,
        }),
    ensures
        size_pass_s(l1, objs, node, parent_size) == size_pass_s(l2, objs, node, parent_size),
    decreases (match node {
        Some(i) => l2.len() - i,
        None => 0,
    }),
{
    lemma_links_eq_wf(l1, l2);
    match node {
        None => {},
        Some(i) => {
            assert(l1[i] == (LayoutObjectV { point: l1[i].point, size: l1[i].size, ..l2[i] }));
            assert(wf_objs(l2));
            lemma_sibling_sizes_links(l1, l2, objs, l2[i].first_child);
            let o1 = if l2[i].kind is Block {
                resize_one_s(l2, objs, i, parent_size)
            } else {
                objs
            };
            lemma_size_pass_links(l1, l2, o1, l2[i].first_child, o1[i].size);
            let o2 = size_pass_s(l2, o1, l2[i].first_child, o1[i].size);
            lemma_size_pass_links(l1, l2, o2, l2[i].next_sibling, parent_size);
            let o3 = size_pass_s(l2, o2, l2[i].next_sibling, parent_size);
            lemma_sibling_sizes_links(l1, l2, o3, l2[i].first_child);
        },
    }
}

/// The size pass changes only sizes.
pub proof fn lemma_size_pass_preserves(
    links: Seq<LayoutObjectV>,
    objs: Seq<LayoutObjectV>,
    node: Option<int>,
    parent_size: LayoutSize,
    base: Seq<LayoutObjectV>,
)
    requires
        wf_objs(links),
        (match node {
            Some(i) => 0 <= i < links.len(),
            None => true,
        }),
        links_eq(objs, base),
        objs.len() == links.len(),
    ensures
        links_eq(size_pass_s(links, objs, node, parent_size), base),
        size_pass_s(links, objs, node, parent_size).len() == objs.len(),
    decreases (match node {
        Some(i) => links.len() - i,
        None => 0,
    }),
{
    match node {
        None => {},
        Some(i) => {
            let o1 = if links[i].kind is Block {
                resize_one_s(links, objs, i, parent_size)
            } else {
                objs
            };
            assert(links_eq(o1, base)) by {
                assert forall|j: int| 0 <= j < o1.len() implies #[trigger] o1[j]
                    == (LayoutObjectV { point: o1[j].point, size: o1[j].size, ..base[j] }) by {
                    assert(objs[j] == (LayoutObjectV { point: objs[j].point, size: objs[j].size, ..base[j] }));
                }
            }
            lemma_size_pass_preserves(links, o1, links[i].first_child, o1[i].size, base);
            let o2 = size_pass_s(links, o1, links[i].first_child, o1[i].size);
            lemma_size_pass_preserves(links, o2, links[i].next_sibling, parent_size, base);
            let o3 = size_pass_s(links, o2, links[i].next_sibling, parent_size);
            let o4 = resize_one_s(links, o3, i, parent_size);
            assert(links_eq(o4, base)) by {
                assert forall|j: int| 0 <= j < o4.len() implies #[trigger] o4[j]
                    == (LayoutObjectV { point: o4[j].point, size: o4[j].size, ..base[j] }) by {
                    assert(o3[j] == (LayoutObjectV { point: o3[j].point, size: o3[j].size, ..base[j] }));
                }
            }
        },
    }
}

/// The position pass depends on the links only through fields that points
/// and sizes do not touch.
pub proof fn lemma_pos_pass_links(
    l1: Seq<LayoutObjectV>,
    l2: Seq<LayoutObjectV>,
    objs: Seq<LayoutObjectV>,
    node: Option<int>,
    parent_point: LayoutPoint,
    prev_kind: LayoutObjectKind,
    prev_point: Option<LayoutPoint>,
    prev_size: Option<LayoutSize>,
)
    requires
        links_eq(l1, l2),
        wf_objs(l2),
        (match node {
            Some(i) => 0 <= i < l2.len(),
            None => true,
        }),
    ensures
        pos_pass_s(l1, objs, node, parent_point, prev_kind, prev_point, prev_size) == pos_pass_s(
            l2,
            objs,
            node,
            parent_point,
            prev_kind,
            prev_point,
            prev_size,
        ),
    decreases (match node {
        Some(i) => l2.len() - i,
        None => 0,
    }),
{
    lemma_links_eq_wf(l1, l2);
    match node {
        None => {},
        Some(i) => {
            assert(l1[i] == (LayoutObjectV { point: l1[i].point, size: l1[i].size, ..l2[i] }));
            assert(wf_objs(l2));
            let point = if prev_kind is Block || l2[i].kind is Block {
                LayoutPoint {
                    x: parent_point.x,
                    y: (match (prev_point, prev_size) {
                        (Some(pp), Some(ps)) => sat_i64(pp.y + ps.height),
                        _ => parent_point.y,
                    }),
                }
            } else {
                match (prev_point, prev_size) {
                    (Some(pp), Some(ps)) => LayoutPoint { x: sat_i64(pp.x + ps.width), y: pp.y },
                    _ => LayoutPoint { x: parent_point.x, y: parent_point.y },
                }
            };
            let o1 = objs.update(i, LayoutObjectV { point, ..objs[i] });
            lemma_pos_pass_links(
                l1,
                l2,
                o1,
                l2[i].first_child,
                point,
                LayoutObjectKind::Block,
                None,
                None,
            );
            let o2 = pos_pass_s(
                l2,
                o1,
                l2[i].first_child,
                point,
                LayoutObjectKind::Block,
                None,
                None,
            );
            lemma_pos_pass_links(
                l1,
                l2,
                o2,
                l2[i].next_sibling,
                parent_point,
                l2[i].kind,
                Some(point),
                Some(o2[i].size),
            );
        },
    }
}

/// The position pass changes only points.
pub proof fn lemma_pos_pass_preserves(
    links: Seq<LayoutObjectV>,
    objs: Seq<LayoutObjectV>,
    node: Option<int>,
    parent_point: LayoutPoint,
    prev_kind: LayoutObjectKind,
    prev_point: Option<LayoutPoint>,
    prev_size: Option<LayoutSize>,
    base: Seq<LayoutObjectV>,
)
    requires
        wf_objs(links),
        (match node {
            Some(i) => 0 <= i < links.len(),
            None => true,
        }),
        links_eq(objs, base),
        objs.len() == links.len(),
    ensures
        links_eq(pos_pass_s(links, objs, node, parent_point, prev_kind, prev_point, prev_size), base),
        pos_pass_s(links, objs, node, parent_point, prev_kind, prev_point, prev_size).len()
            == objs.len(),
    decreases (match node {
        Some(i) => links.len() - i,
        None => 0,
    }),
{
    match node {
        None => {},
        Some(i) => {
            let point = if prev_kind is Block || links[i].kind is Block {
                LayoutPoint {
                    x: parent_point.x,
                    y: (match (prev_point, prev_size) {
                        (Some(pp), Some(ps)) => sat_i64(pp.y + ps.height),
                        _ => parent_point.y,
                    }),
                }
            } else {
                match (prev_point, prev_size) {
                    (Some(pp), Some(ps)) => LayoutPoint { x: sat_i64(pp.x + ps.width), y: pp.y },
                    _ => LayoutPoint { x: parent_point.x, y: parent_point.y },
                }
            };
            let o1 = objs.update(i, LayoutObjectV { point, ..objs[i] });
            assert(links_eq(o1, base)) by {
                assert forall|j: int| 0 <= j < o1.len() implies #[trigger] o1[j]
                    == (LayoutObjectV { point: o1[j].point, size: o1[j].size, ..base[j] }) by {
                    assert(objs[j] == (LayoutObjectV { point: objs[j].point, size: objs[j].size, ..base[j] }));
                }
            }
            lemma_pos_pass_preserves(
                links,
                o1,
                links[i].first_child,
                point,
                LayoutObjectKind::Block,
                None,
                None,
                base,
            );
            let o2 = pos_pass_s(
                links,
                o1,
                links[i].first_child,
                point,
                LayoutObjectKind::Block,
                None,
                None,
            );
            lemma_pos_pass_preserves(
                links,
                o2,
                links[i].next_sibling,
                parent_point,
                links[i].kind,
                Some(point),
                Some(o2[i].size),
                base,
            );
        },
    }
}

/// The image of a box arena.
pub open spec fn objs_view(v: Seq<LayoutObject>) -> Seq<LayoutObjectV> {
    v.map(|i: int, o: LayoutObject| o@)
}

/// Builds the box a node contributes, if any: the node's style is cascaded
/// from the matching rules and defaulted under the parent style; a node
/// whose resolved display is none contributes nothing.
pub fn create_layout_object(
    window: &Window,
    objects: &mut Vec<LayoutObject>,
    node: Option<usize>,
    parent_obj: Option<usize>,
    parent_style: Option<&ComputedStyle>,
    cssom: &StyleSheet,
) -> (r: Option<usize>)
    requires
        wf_nodes(window@),
        (match node {
            Some(i) => i < window@.len(),
            None => true,
        }),
    ensures
        ({
            let c = create_obj_s(
                window@,
                objs_view(old(objects)@),
                opt_idx(node),
                opt_idx(parent_obj),
                (match parent_style {
                    Some(p) => Some(p@),
                    None => None,
                }),
                cssom@,
            );
            objs_view(final(objects)@) == c.0 && opt_idx(r) == c.1
        }),
{
    let target = match node {
        Some(i) => i,
        None => {
            return None;
        },
    };
    let ghost psv: Option<StyleV> = match parent_style {
        Some(p) => Some(p@),
        None => None,
    };
    let nk = window.get_node(target).kind();
    let mut layout_object = LayoutObject::new(target, nk, parent_obj);
    let ghost nkv = layout_object@.node_kind;
    let ghost rv = cssom@;
    let mut j: usize = 0;
    while j < cssom.rules.len()
        invariant
            j <= cssom.rules@.len(),
            rv == cssom@,
            rv.len() == cssom.rules@.len(),
            target < window@.len(),
            nkv == window@[target as int].kind,
            crate::layout_object::cascaded_style_s(nkv, rv, 0, crate::layout_object::empty_style())
                == crate::layout_object::cascaded_style_s(nkv, rv, j as int, layout_object@.style),
            layout_object@ == (LayoutObjectV { style: layout_object@.style, ..create_s_obj0(
                target as int,
                nkv,
                opt_idx(parent_obj),
            ) }),
        decreases cssom.rules@.len() - j,
    {
        let ghost prev = layout_object@.style;
        let rule = &cssom.rules[j];
        proof {
            assert(rv[j as int] == cssom.rules@[j as int]@);
        }
        if layout_object.is_node_selected(&rule.selector) {
            let decls = duplicate_declarations(&rule.declarations);
            proof {
                assert(decls_view(decls@) =~= decls_view(rule.declarations@));
            }
            layout_object.cascading_style(decls);
        }
        proof {
            assert(crate::layout_object::cascaded_style_s(nkv, rv, j as int, prev)
                == crate::layout_object::cascaded_style_s(
                nkv,
                rv,
                j + 1 as int,
                layout_object@.style,
            ));
        }
        j = j + 1;
    }
    let parent_style_owned: Option<ComputedStyle> = match parent_style {
        Some(p) => Some(p.duplicate()),
        None => None,
    };
    layout_object.defaulting_style(parent_style_owned);
    let ghost st = resolved_style_s(window@[target as int].kind, cssom@, psv);
    proof {
        assert(layout_object@.style == st);
    }
    let display = layout_object.style().display();
    if display == DisplayType::DisplayNone {
        return None;
    }
    layout_object.update_kind();
    let id = objects.len();
    let ghost before = objs_view(objects@);
    objects.push(layout_object);
    proof {
        assert(objs_view(objects@) =~= before.push(objects@.last()@));
    }
    Some(id)
}

/// A fresh box before any style is applied.
pub open spec fn create_s_obj0(
    node: int,
    node_kind: crate::dom_node::NodeKindV,
    parent_obj: Option<int>,
) -> LayoutObjectV {
    LayoutObjectV {
        kind: LayoutObjectKind::Block,
        node,
        node_kind,
        first_child: None,
        next_sibling: None,
        parent: parent_obj,
        style: crate::layout_object::empty_style(),
        point: LayoutPoint { x: 0, y: 0 },
        size: LayoutSize { width: 0, height: 0 },
    }
}

/// Builds the layout subtree for a node and its following siblings,
/// appending boxes to the arena and handing back the subtree's root box.
pub fn build_layout_tree(
    window: &Window,
    objects: &mut Vec<LayoutObject>,
    node: Option<usize>,
    parent_obj: Option<usize>,
    parent_style: Option<&ComputedStyle>,
    cssom: &StyleSheet,
) -> (r: Option<usize>)
    requires
        wf_nodes(window@),
        (match node {
            Some(i) => i < window@.len(),
            None => true,
        }),
        wf_objs(objs_view(old(objects)@)),
    ensures
        ({
            let b = build_s(
                window@,
                objs_view(old(objects)@),
                opt_idx(node),
                opt_idx(parent_obj),
                (match parent_style {
                    Some(p) => Some(p@),
                    None => None,
                }),
                cssom@,
            );
            objs_view(final(objects)@) == b.0 && opt_idx(r) == b.1
        }),
        wf_objs(objs_view(final(objects)@)),
        final(objects)@.len() >= old(objects)@.len(),
    decreases (match node {
        Some(i) => window@.len() - i,
        None => 0int,
    }),
{
    let target = match node {
        Some(i) => i,
        None => {
            return None;
        },
    };
    let ghost psv: Option<StyleV> = match parent_style {
        Some(p) => Some(p@),
        None => None,
    };
    proof {
        lemma_build_props(
            window@,
            objs_view(objects@),
            opt_idx(node),
            opt_idx(parent_obj),
            psv,
            cssom@,
        );
        assert(wf_nodes(window@));
        assert((match window@[target as int].first_child {
            Some(c) => target < c < window@.len(),
            None => true,
        }));
        assert((match window@[target as int].next_sibling {
            Some(s) => target < s < window@.len(),
            None => true,
        }));
    }
    let obj_id = create_layout_object(window, objects, node, parent_obj, parent_style, cssom);
    match obj_id {
        None => {
            let next = window.get_node(target).next_sibling();
            build_layout_tree(window, objects, next, parent_obj, parent_style, cssom)
        },
        Some(id) => {
            proof {
                assert(objs_view(objects@)[id as int].style == resolved_style_s(
                    window@[target as int].kind,
                    cssom@,
                    psv,
                ));
                assert(wf_objs(objs_view(objects@))) by {
                    let cur = objs_view(objects@);
                    let prev = objs_view(old(objects)@);
                    assert forall|k: int| 0 <= k < cur.len() implies {
                        &&& (match (#[trigger] cur[k]).first_child {
                            Some(c) => k < c < cur.len(),
                            None => true,
                        })
                        &&& (match cur[k].next_sibling {
                            Some(x) => k < x < cur.len(),
                            None => true,
                        })
                    } by {
                        if k < prev.len() {
                            assert(cur[k] == prev[k]);
                            assert(wf_objs(prev));
                        }
                    }
                }
            }
            let st = objects[id].style();
            let fc = window.get_node(target).first_child();
            let first = build_layout_tree(window, objects, fc, Some(id), Some(&st), cssom);
            let ns = window.get_node(target).next_sibling();
            let next = build_layout_tree(window, objects, ns, parent_obj, parent_style, cssom);
            let ghost before = objs_view(objects@);
            objects[id].set_first_child(first);
            objects[id].set_next_sibling(next);
            proof {
                assert(objs_view(objects@) =~= before.update(
                    id as int,
                    LayoutObjectV {
                        first_child: opt_idx(first),
                        next_sibling: opt_idx(next),
                        ..before[id as int]
                    },
                ));
                let b = build_s(
                    window@,
                    objs_view(old(objects)@),
                    opt_idx(node),
                    opt_idx(parent_obj),
                    psv,
                    cssom@,
                );
                assert(objs_view(objects@) =~= b.0);
                lemma_build_props(
                    window@,
                    objs_view(old(objects)@),
                    opt_idx(node),
                    opt_idx(parent_obj),
                    psv,
                    cssom@,
                );
            }
            Some(id)
        },
    }
}

/// The kinds and current sizes along a sibling chain of boxes.
fn collect_sibling_sizes(objects: &Vec<LayoutObject>, j: Option<usize>) -> (r: Vec<
    (LayoutObjectKind, LayoutSize),
>)
    requires
        wf_objs(objs_view(objects@)),
        (match j {
            Some(x) => x < objects@.len(),
            None => true,
        }),
    ensures
        r@ == sibling_sizes_s(objs_view(objects@), objs_view(objects@), opt_idx(j)),
    decreases (match j {
        Some(x) => objects@.len() - x,
        None => 0int,
    }),
{
    match j {
        None => Vec::new(),
        Some(x) => {
            proof {
                assert(wf_objs(objs_view(objects@)));
                assert(objs_view(objects@)[x as int] == objects@[x as int]@);
                assert((match objs_view(objects@)[x as int].next_sibling {
                    Some(s) => x < s < objects@.len(),
                    None => true,
                }));
            }
            let kind = objects[x].kind();
            let size = objects[x].size();
            let ns = objects[x].next_sibling();
            let rest = collect_sibling_sizes(objects, ns);
            let mut r: Vec<(LayoutObjectKind, LayoutSize)> = Vec::new();
            r.push((kind, size));
            let mut i: usize = 0;
            while i < rest.len()
                invariant
                    i <= rest@.len(),
                    r@ == seq![(kind, size)] + rest@.subrange(0, i as int),
                decreases rest@.len() - i,
            {
                r.push(rest[i]);
                proof {
                    assert(r@ =~= seq![(kind, size)] + rest@.subrange(0, i + 1 as int));
                }
                i = i + 1;
            }
            proof {
                assert(r@ =~= seq![(kind, size)] + rest@);
            }
            r
        },
    }
}

/// Mathematical image of a [`LayoutView`].
pub struct LayoutViewV {
    pub objects: Seq<LayoutObjectV>,
    pub root: Option<int>,
}

/// The whole layout pipeline: the subtree under the `body` element is
/// built against the rule set, sized from the content area width, and
/// positioned from the origin.
pub open spec fn layout_view_s(nodes: Seq<NodeV>, rules: Seq<QualifiedRuleV>) -> LayoutViewV {
    let body = find_target_s(nodes, Some(0), ElementKind::Body);
    let b = build_s(nodes, Seq::<LayoutObjectV>::empty(), body, None, None, rules);
    let sized = size_pass_s(b.0, b.0, b.1, LayoutSize { width: CONTENT_AREA_WIDTH, height: 0 });
    let placed = pos_pass_s(
        b.0,
        sized,
        b.1,
        LayoutPoint { x: 0, y: 0 },
        LayoutObjectKind::Block,
        None,
        None,
    );
    LayoutViewV { objects: placed, root: b.1 }
}

/// The tree of boxes ready for painting.
#[derive(Debug, Clone, PartialEq)]
pub struct LayoutView {
    objects: Vec<LayoutObject>,
    root: Option<usize>,
}

impl View for LayoutView {
    type V = LayoutViewV;

    closed spec fn view(&self) -> LayoutViewV {
        LayoutViewV { objects: objs_view(self.objects@), root: opt_idx(self.root) }
    }
}

impl LayoutView {
    /// Builds, sizes and positions the layout tree for the document tree
    /// under the given window, joined with the rule set.
    pub fn new(window: &Window, cssom: &StyleSheet) -> (r: Self)
        requires
            wf_nodes(window@),
            window@.len() >= 1,
        ensures
            r@ == layout_view_s(window@, cssom@),
    {
        proof {
            crate::dom_api::lemma_find_target_bounds(window@, Some(0), ElementKind::Body);
        }
        let body_root = get_target_element_node(window, Some(window.document()), ElementKind::Body);
        let mut objects: Vec<LayoutObject> = Vec::new();
        proof {
            assert(objs_view(objects@) =~= Seq::<LayoutObjectV>::empty());
            assert(wf_objs(objs_view(objects@)));
        }
        let root = build_layout_tree(window, &mut objects, body_root, None, None, cssom);
        proof {
            lemma_build_props(
                window@,
                Seq::<LayoutObjectV>::empty(),
                find_target_s(window@, Some(0), ElementKind::Body),
                None,
                None,
                cssom@,
            );
        }
        let ghost b = build_s(
            window@,
            Seq::<LayoutObjectV>::empty(),
            find_target_s(window@, Some(0), ElementKind::Body),
            None,
            None,
            cssom@,
        );
        proof {
            assert(objs_view(objects@) == b.0);
            assert(opt_idx(root) == b.1);
        }
        let mut tree = Self { objects, root };
        proof {
            assert(tree@.objects == b.0);
            assert(tree@.root == b.1);
        }
        tree.update_layout();
        proof {
            let szd = size_pass_s(
                b.0,
                b.0,
                b.1,
                LayoutSize { width: CONTENT_AREA_WIDTH, height: 0 },
            );
            lemma_links_eq_refl(b.0);
            lemma_size_pass_preserves(
                b.0,
                b.0,
                b.1,
                LayoutSize { width: CONTENT_AREA_WIDTH, height: 0 },
                b.0,
            );
            lemma_links_eq_wf(szd, b.0);
            lemma_pos_pass_links(
                szd,
                b.0,
                szd,
                b.1,
                LayoutPoint { x: 0, y: 0 },
                LayoutObjectKind::Block,
                None,
                None,
            );
            assert(tree@ == layout_view_s(window@, cssom@));
        }
        tree
    }

    /// Re-runs the size and position passes over the current tree; the
    /// result depends only on the tree's links, kinds, styles and text, so
    /// running it again without a mutation changes nothing further.
    fn update_layout(&mut self)
        requires
            wf_objs(old(self)@.objects),
            (match old(self)@.root {
                Some(i) => 0 <= i < old(self)@.objects.len(),
                None => true,
            }),
        ensures
            ({
                let built = old(self)@.objects;
                let sized = size_pass_s(
                    built,
                    built,
                    old(self)@.root,
                    LayoutSize { width: CONTENT_AREA_WIDTH, height: 0 },
                );
                final(self)@.objects == pos_pass_s(
                    sized,
                    sized,
                    old(self)@.root,
                    LayoutPoint { x: 0, y: 0 },
                    LayoutObjectKind::Block,
                    None,
                    None,
                )
            }),
            final(self)@.root == old(self)@.root,
    {
        let ghost built = objs_view(self.objects@);
        let root = self.root;
        Self::calculate_node_size(
            &mut self.objects,
            root,
            LayoutSize::new(CONTENT_AREA_WIDTH, 0),
        );
        let ghost sized = objs_view(self.objects@);
        proof {
            lemma_links_eq_refl(built);
            lemma_size_pass_preserves(
                built,
                built,
                opt_idx(root),
                LayoutSize { width: CONTENT_AREA_WIDTH, height: 0 },
                built,
            );
            lemma_links_eq_wf(sized, built);
            lemma_pos_pass_links(
                sized,
                built,
                sized,
                opt_idx(root),
                LayoutPoint { x: 0, y: 0 },
                LayoutObjectKind::Block,
                None,
                None,
            );
        }
        Self::calculate_node_position(
            &mut self.objects,
            root,
            LayoutPoint::new(0, 0),
            LayoutObjectKind::Block,
            None,
            None,
        );
    }

    /// The root box, if the tree holds any box at all.
    pub fn root(&self) -> (r: Option<usize>)
        ensures
            opt_idx(r) == self@.root,
    {
        self.root
    }

    /// How many boxes the tree holds.
    pub fn object_count(&self) -> (r: usize)
        ensures
            r == self@.objects.len(),
    {
        self.objects.len()
    }

    /// The box at an arena index.
    pub fn get_object(&self, id: usize) -> (r: &LayoutObject)
        requires
            id < self@.objects.len(),
        ensures
            r@ == self@.objects[id as int],
    {
        &self.objects[id]
    }

    /// The size pass: block widths flow down before children are sized,
    /// heights and inline sizes flow back up.
    fn calculate_node_size(
        objects: &mut Vec<LayoutObject>,
        node: Option<usize>,
        parent_size: LayoutSize,
    )
        requires
            wf_objs(objs_view(old(objects)@)),
            (match node {
                Some(i) => i < old(objects)@.len(),
                None => true,
            }),
        ensures
            objs_view(final(objects)@) == size_pass_s(
                objs_view(old(objects)@),
                objs_view(old(objects)@),
                opt_idx(node),
                parent_size,
            ),
            links_eq(objs_view(final(objects)@), objs_view(old(objects)@)),
            final(objects)@.len() == old(objects)@.len(),
        decreases (match node {
            Some(i) => old(objects)@.len() - i,
            None => 0int,
        }),
    {
        let i = match node {
            Some(i) => i,
            None => {
                proof {
                    lemma_links_eq_refl(objs_view(objects@));
                }
                return ;
            },
        };
        let ghost links = objs_view(old(objects)@);
        proof {
            lemma_links_eq_refl(links);
            assert(wf_objs(links));
            assert((match links[i as int].first_child {
                Some(c) => i < c < links.len(),
                None => true,
            }));
            assert((match links[i as int].next_sibling {
                Some(s) => i < s < links.len(),
                None => true,
            }));
        }
        let is_block = match objects[i].kind() {
            LayoutObjectKind::Block => true,
            _ => false,
        };
        if is_block {
            let info = collect_sibling_sizes(objects, objects[i].first_child());
            objects[i].compute_size(parent_size, &info);
            proof {
                assert(objs_view(objects@) =~= resize_one_s(links, links, i as int, parent_size));
            }
        }
        let ghost o1 = objs_view(objects@);
        proof {
            assert(links_eq(o1, links)) by {
                assert forall|k: int| 0 <= k < o1.len() implies #[trigger] o1[k]
                    == (LayoutObjectV { point: o1[k].point, size: o1[k].size, ..links[k] }) by {
                    assert(links[k] == (LayoutObjectV {
                        point: links[k].point,
                        size: links[k].size,
                        ..links[k]
                    }));
                }
            }
            lemma_links_eq_wf(o1, links);
        }
        let fc = objects[i].first_child();
        let sz = objects[i].size();
        Self::calculate_node_size(objects, fc, sz);
        proof {
            lemma_size_pass_links(o1, links, o1, opt_idx(fc), sz);
            lemma_size_pass_preserves(links, o1, opt_idx(fc), sz, links);
        }
        let ghost o2 = objs_view(objects@);
        let ns = objects[i].next_sibling();
        proof {
            assert(opt_idx(ns) == links[i as int].next_sibling) by {
                assert(links_eq(o2, links));
                assert(o2[i as int] == (LayoutObjectV {
                    point: o2[i as int].point,
                    size: o2[i as int].size,
                    ..links[i as int]
                }));
            }
            lemma_links_eq_wf(o2, links);
        }
        Self::calculate_node_size(objects, ns, parent_size);
        proof {
            lemma_size_pass_links(o2, links, o2, opt_idx(ns), parent_size);
            lemma_size_pass_preserves(links, o2, opt_idx(ns), parent_size, links);
        }
        let ghost o3 = objs_view(objects@);
        proof {
            lemma_links_eq_wf(o3, links);
            lemma_sibling_sizes_links(o3, links, o3, links[i as int].first_child);
            assert(objs_view(objects@)[i as int].first_child == links[i as int].first_child) by {
                assert(o3[i as int] == (LayoutObjectV {
                    point: o3[i as int].point,
                    size: o3[i as int].size,
                    ..links[i as int]
                }));
            }
        }
        let fc2 = objects[i].first_child();
        let info = collect_sibling_sizes(objects, fc2);
        objects[i].compute_size(parent_size, &info);
        proof {
            assert(o3[i as int].kind == links[i as int].kind && o3[i as int].node_kind == links[
                i as int
            ].node_kind && o3[i as int].style == links[i as int].style) by {
                assert(o3[i as int] == (LayoutObjectV {
                    point: o3[i as int].point,
                    size: o3[i as int].size,
                    ..links[i as int]
                }));
            }
            assert(objs_view(objects@) =~= resize_one_s(links, o3, i as int, parent_size));
        }
    }

    /// The position pass: block boxes stack vertically at the parent's
    /// x-origin, inline boxes flow to the right of the previous sibling.
    fn calculate_node_position(
        objects: &mut Vec<LayoutObject>,
        node: Option<usize>,
        parent_point: LayoutPoint,
        previous_sibling_kind: LayoutObjectKind,
        previous_sibling_point: Option<LayoutPoint>,
        previous_sibling_size: Option<LayoutSize>,
    )
        requires
            wf_objs(objs_view(old(objects)@)),
            (match node {
                Some(i) => i < old(objects)@.len(),
                None => true,
            }),
        ensures
            objs_view(final(objects)@) == pos_pass_s(
                objs_view(old(objects)@),
                objs_view(old(objects)@),
                opt_idx(node),
                parent_point,
                previous_sibling_kind,
                previous_sibling_point,
                previous_sibling_size,
            ),
            links_eq(objs_view(final(objects)@), objs_view(old(objects)@)),
            final(objects)@.len() == old(objects)@.len(),
        decreases (match node {
            Some(i) => old(objects)@.len() - i,
            None => 0int,
        }),
    {
        let i = match node {
            Some(i) => i,
            None => {
                proof {
                    lemma_links_eq_refl(objs_view(objects@));
                }
                return ;
            },
        };
        let ghost links = objs_view(old(objects)@);
        proof {
            lemma_links_eq_refl(links);
            assert(wf_objs(links));
            assert((match links[i as int].first_child {
                Some(c) => i < c < links.len(),
                None => true,
            }));
            assert((match links[i as int].next_sibling {
                Some(s) => i < s < links.len(),
                None => true,
            }));
        }
        let is_block = match objects[i].kind() {
            LayoutObjectKind::Block => true,
            _ => false,
        };
        let prev_is_block = match previous_sibling_kind {
            LayoutObjectKind::Block => true,
            _ => false,
        };
        let mut point = LayoutPoint::new(0, 0);
        if prev_is_block || is_block {
            match (previous_sibling_point, previous_sibling_size) {
                (Some(pp), Some(ps)) => {
                    point.set_y(sat_add(pp.y(), ps.height()));
                },
                _ => {
                    point.set_y(parent_point.y());
                },
            }
            point.set_x(parent_point.x());
        } else {
            match (previous_sibling_point, previous_sibling_size) {
                (Some(pp), Some(ps)) => {
                    point.set_x(sat_add(pp.x(), ps.width()));
                    point.set_y(pp.y());
                },
                _ => {
                    point.set_x(parent_point.x());
                    point.set_y(parent_point.y());
                },
            }
        }
        objects[i].set_point(point);
        let ghost o1 = objs_view(objects@);
        proof {
            assert(o1 =~= links.update(
                i as int,
                LayoutObjectV { point, ..links[i as int] },
            ));
            assert(links_eq(o1, links)) by {
                assert forall|k: int| 0 <= k < o1.len() implies #[trigger] o1[k]
                    == (LayoutObjectV { point: o1[k].point, size: o1[k].size, ..links[k] }) by {
                    assert(links[k] == (LayoutObjectV {
                        point: links[k].point,
                        size: links[k].size,
                        ..links[k]
                    }));
                }
            }
            lemma_links_eq_wf(o1, links);
        }
        let fc = objects[i].first_child();
        Self::calculate_node_position(
            objects,
            fc,
            point,
            LayoutObjectKind::Block,
            None,
            None,
        );
        proof {
            lemma_pos_pass_links(o1, links, o1, opt_idx(fc), point, LayoutObjectKind::Block, None, None);
            lemma_pos_pass_preserves(
                links,
                o1,
                opt_idx(fc),
                point,
                LayoutObjectKind::Block,
                None,
                None,
                links,
            );
        }
        let ghost o2 = objs_view(objects@);
        let ns = objects[i].next_sibling();
        let kind = objects[i].kind();
        let size = objects[i].size();
        proof {
            assert(o2[i as int] == (LayoutObjectV {
                point: o2[i as int].point,
                size: o2[i as int].size,
                ..links[i as int]
            }));
            lemma_links_eq_wf(o2, links);
        }
        Self::calculate_node_position(
            objects,
            ns,
            parent_point,
            kind,
            Some(point),
            Some(size),
        );
        proof {
            lemma_pos_pass_links(
                o2,
                links,
                o2,
                opt_idx(ns),
                parent_point,
                links[i as int].kind,
                Some(point),
                Some(o2[i as int].size),
            );
            lemma_pos_pass_preserves(
                links,
                o2,
                opt_idx(ns),
                parent_point,
                links[i as int].kind,
                Some(point),
                Some(o2[i as int].size),
                links,
            );
        }
    }
}

/// Links equality is reflexive.
pub proof fn lemma_links_eq_refl(a: Seq<LayoutObjectV>)
    ensures
        links_eq(a, a),
{
    assert forall|i: int| 0 <= i < a.len() implies #[trigger] a[i] == (LayoutObjectV {
        point: a[i].point,
        size: a[i].size,
        ..a[i]
    }) by {}
}

} // verus!
