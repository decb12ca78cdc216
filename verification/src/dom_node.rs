//! The document node model: document, element and text nodes in a tree.
//! Nodes live in an arena owned by the [`Window`]; every relation field
//! (parent, first child, last child, previous and next sibling) is an
//! index into that arena. Owning links (first child, next sibling) always
//! point to later-created nodes, and back references (parent, previous
//! sibling, last child as a cache) point the other way, so the tree is
//! acyclic by construction.

use vstd::prelude::*;
use crate::attribute::{attrs_view, Attribute, AttrV, duplicate_attributes};
use crate::strutil::{push_char, str_eq};

verus! {

#[derive(Debug, Clone, Copy, PartialEq, Eq, Structural)]
pub enum ElementKind {
    Html,
    Head,
    Style,
    Script,
    Body,
    P,
    H1,
    H2,
    A,
}

/// The tag name that a recognized element kind is written with.
pub open spec fn elem_name(k: ElementKind) -> Seq<char> {
    match k {
        ElementKind::Html => "html"@,
        ElementKind::Head => "head"@,
        ElementKind::Style => "style"@,
        ElementKind::Script => "script"@,
        ElementKind::Body => "body"@,
        ElementKind::P => "p"@,
        ElementKind::H1 => "h1"@,
        ElementKind::H2 => "h2"@,
        ElementKind::A => "a"@,
    }
}

/// The element kind named by a tag name, if the name is recognized.
pub open spec fn elem_kind_of(s: Seq<char>) -> Option<ElementKind> {
    if s == "html"@ {
        Some(ElementKind::Html)
    } else if s == "head"@ {
        Some(ElementKind::Head)
    } else if s == "style"@ {
        Some(ElementKind::Style)
    } else if s == "script"@ {
        Some(ElementKind::Script)
    } else if s == "body"@ {
        Some(ElementKind::Body)
    } else if s == "p"@ {
        Some(ElementKind::P)
    } else if s == "h1"@ {
        Some(ElementKind::H1)
    } else if s == "h2"@ {
        Some(ElementKind::H2)
    } else if s == "a"@ {
        Some(ElementKind::A)
    } else {
        None
    }
}

impl ElementKind {
    /// The element kind named by a tag name, or `None` for a name this
    /// model does not recognize.
    pub fn from_str(s: &str) -> (r: Option<ElementKind>)
        ensures
            r == elem_kind_of(s@),
    {
        if str_eq(s, "html") {
            Some(ElementKind::Html)
        } else if str_eq(s, "head") {
            Some(ElementKind::Head)
        } else if str_eq(s, "style") {
            Some(ElementKind::Style)
        } else if str_eq(s, "script") {
            Some(ElementKind::Script)
        } else if str_eq(s, "body") {
            Some(ElementKind::Body)
        } else if str_eq(s, "p") {
            Some(ElementKind::P)
        } else if str_eq(s, "h1") {
            Some(ElementKind::H1)
        } else if str_eq(s, "h2") {
            Some(ElementKind::H2)
        } else if str_eq(s, "a") {
            Some(ElementKind::A)
        } else {
            None
        }
    }

    /// The tag name this kind is written with.
    pub fn name(&self) -> (r: String)
        ensures
            r@ == elem_name(*self),
    {
        let s = match self {
            ElementKind::Html => "html",
            ElementKind::Head => "head",
            ElementKind::Style => "style",
            ElementKind::Script => "script",
            ElementKind::Body => "body",
            ElementKind::P => "p",
            ElementKind::H1 => "h1",
            ElementKind::H2 => "h2",
            ElementKind::A => "a",
        };
        s.to_owned()
    }
}

/// A tag name names a kind exactly when it is that kind's own name.
pub proof fn lemma_elem_name(s: Seq<char>, k: ElementKind)
    ensures
        elem_kind_of(s) == Some(k) <==> s == elem_name(k),
{
    reveal_strlit("html");
    reveal_strlit("head");
    reveal_strlit("style");
    reveal_strlit("script");
    reveal_strlit("body");
    reveal_strlit("p");
    reveal_strlit("h1");
    reveal_strlit("h2");
    reveal_strlit("a");
    assert("html"@.len() == 4 && "head"@.len() == 4 && "style"@.len() == 5 && "script"@.len() == 6
        && "body"@.len() == 4 && "p"@.len() == 1 && "h1"@.len() == 2 && "h2"@.len() == 2
        && "a"@.len() == 1);
    assert("html"@[1] == 't' && "head"@[1] == 'e' && "body"@[1] == 'o');
    assert("h1"@[1] == '1' && "h2"@[1] == '2');
    assert("p"@[0] == 'p' && "a"@[0] == 'a');
    assert(elem_kind_of("html"@) == Some(ElementKind::Html));
    assert(elem_kind_of("head"@) == Some(ElementKind::Head));
    assert(elem_kind_of("style"@) == Some(ElementKind::Style));
    assert(elem_kind_of("script"@) == Some(ElementKind::Script));
    assert(elem_kind_of("body"@) == Some(ElementKind::Body));
    assert(elem_kind_of("p"@) == Some(ElementKind::P));
    assert(elem_kind_of("h1"@) == Some(ElementKind::H1));
    assert(elem_kind_of("h2"@) == Some(ElementKind::H2));
    assert(elem_kind_of("a"@) == Some(ElementKind::A));
}

#[derive(Debug, Clone, PartialEq, Eq)]
pub struct Element {
    kind: ElementKind,
    attributes: Vec<Attribute>,
}

/// Mathematical image of an [`Element`].
pub struct ElementV {
    pub kind: ElementKind,
    pub attributes: Seq<AttrV>,
}

impl View for Element {
    type V = ElementV;

    closed spec fn view(&self) -> ElementV {
        ElementV { kind: self.kind, attributes: attrs_view(self.attributes@) }
    }
}

impl Element {
    /// An element of the kind named by `element_name`, carrying the given
    /// attributes. The name must be one this model recognizes.
    pub fn new(element_name: &str, attributes: Vec<Attribute>) -> (e: Self)
        requires
            elem_kind_of(element_name@) is Some,
        ensures
            e@.kind == elem_kind_of(element_name@)->0,
            e@.attributes == attrs_view(attributes@),
    {
        let kind = match ElementKind::from_str(element_name) {
            Some(k) => k,
            None => ElementKind::Html,
        };
        Self { kind, attributes }
    }

    /// The element's kind.
    pub fn kind(&self) -> (r: ElementKind)
        ensures
            r == self@.kind,
    {
        self.kind
    }

    /// The element's attributes, in source order.
    pub fn attributes(&self) -> (r: Vec<Attribute>)
        ensures
            attrs_view(r@) == self@.attributes,
    {
        let r = duplicate_attributes(&self.attributes);
        proof {
            assert(attrs_view(r@) =~= attrs_view(self.attributes@));
        }
        r
    }

    /// A copy of this element, with its image pinned in the contract.
    pub fn duplicate(&self) -> (r: Self)
        ensures
            r@ == self@,
    {
        let r = Self { kind: self.kind, attributes: duplicate_attributes(&self.attributes) };
        proof {
            assert(attrs_view(r.attributes@) =~= attrs_view(self.attributes@));
        }
        r
    }
}

#[derive(Debug, Clone, PartialEq)]
pub enum NodeKind {
    Document,
    Element(Element),
    Text(String),
}

/// Mathematical image of a [`NodeKind`].
pub enum NodeKindV {
    Document,
    Element(ElementV),
    Text(Seq<char>),
}

impl View for NodeKind {
    type V = NodeKindV;

    open spec fn view(&self) -> NodeKindV {
        match self {
            NodeKind::Document => NodeKindV::Document,
            NodeKind::Element(e) => NodeKindV::Element(e@),
            NodeKind::Text(s) => NodeKindV::Text(s@),
        }
    }
}

/// A copy of a node kind, with its image pinned in the contract.
pub fn duplicate_node_kind(k: &NodeKind) -> (r: NodeKind)
    ensures
        r@ == k@,
{
    match k {
        NodeKind::Document => NodeKind::Document,
        NodeKind::Element(e) => NodeKind::Element(e.duplicate()),
        NodeKind::Text(s) => NodeKind::Text(s.clone()),
    }
}

/// The image of an optional arena index.
pub open spec fn opt_idx(o: Option<usize>) -> Option<int> {
    match o {
        Some(i) => Some(i as int),
        None => None,
    }
}

#[derive(Debug, Clone, PartialEq)]
pub struct Node {
    kind: NodeKind,
    window: Option<usize>,
    parent: Option<usize>,
    first_child: Option<usize>,
    last_child: Option<usize>,
    previous_sibling: Option<usize>,
    next_sibling: Option<usize>,
}

/// Mathematical image of a [`Node`]: its kind and its relation fields as
/// arena indices.
pub struct NodeV {
    pub kind: NodeKindV,
    pub window: Option<int>,
    pub parent: Option<int>,
    pub first_child: Option<int>,
    pub last_child: Option<int>,
    pub previous_sibling: Option<int>,
    pub next_sibling: Option<int>,
}

impl View for Node {
    type V = NodeV;

    closed spec fn view(&self) -> NodeV {
        NodeV {
            kind: self.kind@,
            window: opt_idx(self.window),
            parent: opt_idx(self.parent),
            first_child: opt_idx(self.first_child),
            last_child: opt_idx(self.last_child),
            previous_sibling: opt_idx(self.previous_sibling),
            next_sibling: opt_idx(self.next_sibling),
        }
    }
}

/// A node of the given kind with every relation unset.
pub open spec fn fresh_node(kind: NodeKindV) -> NodeV {
    NodeV {
        kind,
        window: None,
        parent: None,
        first_child: None,
        last_child: None,
        previous_sibling: None,
        next_sibling: None,
    }
}

impl Node {
    /// A node of the given kind with every relation unset.
    pub fn new(kind: NodeKind) -> (n: Self)
        ensures
            n@ == fresh_node(kind@),
    {
        Self {
            kind,
            window: None,
            parent: None,
            first_child: None,
            last_child: None,
            previous_sibling: None,
            next_sibling: None,
        }
    }

    pub fn set_parent(&mut self, parent: Option<usize>)
        ensures
            final(self)@ == (NodeV { parent: opt_idx(parent), ..old(self)@ }),
    {
        self.parent = parent;
    }

    pub fn parent(&self) -> (r: Option<usize>)
        ensures
            opt_idx(r) == self@.parent,
    {
        self.parent
    }

    pub fn set_first_child(&mut self, first_child: Option<usize>)
        ensures
            final(self)@ == (NodeV { first_child: opt_idx(first_child), ..old(self)@ }),
    {
        self.first_child = first_child;
    }

    pub fn first_child(&self) -> (r: Option<usize>)
        ensures
            opt_idx(r) == self@.first_child,
    {
        self.first_child
    }

    pub fn set_last_child(&mut self, last_child: Option<usize>)
        ensures
            final(self)@ == (NodeV { last_child: opt_idx(last_child), ..old(self)@ }),
    {
        self.last_child = last_child;
    }

    pub fn last_child(&self) -> (r: Option<usize>)
        ensures
            opt_idx(r) == self@.last_child,
    {
        self.last_child
    }

    pub fn set_previous_sibling(&mut self, previous_sibling: Option<usize>)
        ensures
            final(self)@ == (NodeV { previous_sibling: opt_idx(previous_sibling), ..old(self)@ }),
    {
        self.previous_sibling = previous_sibling;
    }

    pub fn previous_sibling(&self) -> (r: Option<usize>)
        ensures
            opt_idx(r) == self@.previous_sibling,
    {
        self.previous_sibling
    }

    pub fn set_next_sibling(&mut self, next_sibling: Option<usize>)
        ensures
            final(self)@ == (NodeV { next_sibling: opt_idx(next_sibling), ..old(self)@ }),
    {
        self.next_sibling = next_sibling;
    }

    pub fn next_sibling(&self) -> (r: Option<usize>)
        ensures
            opt_idx(r) == self@.next_sibling,
    {
        self.next_sibling
    }

    pub fn set_window(&mut self, window: Option<usize>)
        ensures
            final(self)@ == (NodeV { window: opt_idx(window), ..old(self)@ }),
    {
        self.window = window;
    }

    /// Whether this is a text node.
    pub fn is_text(&self) -> (r: bool)
        ensures
            r == (self@.kind is Text),
    {
        match &self.kind {
            NodeKind::Text(_) => true,
            _ => false,
        }
    }

    /// The node's kind.
    pub fn kind(&self) -> (r: NodeKind)
        ensures
            r@ == self@.kind,
    {
        duplicate_node_kind(&self.kind)
    }

    /// The element carried by an element node, `None` for document and
    /// text nodes.
    pub fn get_element(&self) -> (r: Option<Element>)
        ensures
            (match self@.kind {
                NodeKindV::Element(e) => r is Some && r->0@ == e,
                _ => r is None,
            }),
    {
        match &self.kind {
            NodeKind::Document => None,
            NodeKind::Text(_) => None,
            NodeKind::Element(e) => Some(e.duplicate()),
        }
    }

    /// The kind of the element carried by an element node, `None` for
    /// document and text nodes.
    pub fn element_kind(&self) -> (r: Option<ElementKind>)
        ensures
            r == node_element_kind(self@),
    {
        match &self.kind {
            NodeKind::Document => None,
            NodeKind::Text(_) => None,
            NodeKind::Element(e) => Some(e.kind()),
        }
    }
}

impl Node {
    /// A copy of this node, with its image pinned in the contract.
    pub fn duplicate(&self) -> (r: Self)
        ensures
            r@ == self@,
    {
        Self {
            kind: duplicate_node_kind(&self.kind),
            window: self.window,
            parent: self.parent,
            first_child: self.first_child,
            last_child: self.last_child,
            previous_sibling: self.previous_sibling,
            next_sibling: self.next_sibling,
        }
    }
}

/// The element kind of a node, `None` for document and text nodes.
pub open spec fn node_element_kind(n: NodeV) -> Option<ElementKind> {
    match n.kind {
        NodeKindV::Element(e) => Some(e.kind),
        _ => None,
    }
}

/// Well-formedness of the node arena: owning links (first child, next
/// sibling) and the last-child cache point at later nodes, back references
/// (parent, previous sibling) at earlier ones, and all stay inside the
/// arena. This makes every owning traversal terminate.
pub open spec fn wf_nodes(nodes: Seq<NodeV>) -> bool {
    forall|i: int|
        #![trigger nodes[i]]
        0 <= i < nodes.len() ==> {
            &&& (match nodes[i].parent {
                Some(p) => 0 <= p < i,
                None => true,
            })
            &&& (match nodes[i].previous_sibling {
                Some(p) => 0 <= p < i,
                None => true,
            })
            &&& (match nodes[i].first_child {
                Some(c) => i < c < nodes.len(),
                None => true,
            })
            &&& (match nodes[i].next_sibling {
                Some(s) => i < s < nodes.len(),
                None => true,
            })
            &&& (match nodes[i].last_child {
                Some(c) => i < c < nodes.len(),
                None => true,
            })
        }
}

/// The arena after a node of the given kind is appended as the last child
/// of `parent`: the new node goes at the end of the arena; it is linked
/// after the previous last child, or as the first child if there was none,
/// and the parent's last-child cache moves to it.
pub open spec fn append_child_s(nodes: Seq<NodeV>, parent: int, kind: NodeKindV) -> Seq<NodeV> {
    let id = nodes.len() as int;
    let child = NodeV {
        kind,
        window: None,
        parent: Some(parent),
        first_child: None,
        last_child: None,
        previous_sibling: nodes[parent].last_child,
        next_sibling: None,
    };
    let ns = nodes.push(child);
    let ns2 = match nodes[parent].last_child {
        Some(lc) => ns.update(lc, NodeV { next_sibling: Some(id), ..ns[lc] }),
        None => ns.update(parent, NodeV { first_child: Some(id), ..ns[parent] }),
    };
    ns2.update(parent, NodeV { last_child: Some(id), ..ns2[parent] })
}

/// Appending a child preserves the arena's well-formedness.
pub proof fn lemma_append_child_wf(nodes: Seq<NodeV>, parent: int, kind: NodeKindV)
    requires
        wf_nodes(nodes),
        0 <= parent < nodes.len(),
    ensures
        wf_nodes(append_child_s(nodes, parent, kind)),
        append_child_s(nodes, parent, kind).len() == nodes.len() + 1,
{
    let r = append_child_s(nodes, parent, kind);
    let id = nodes.len() as int;
    assert forall|i: int| 0 <= i < r.len() implies {
        &&& (match #[trigger] r[i].parent {
            Some(p) => 0 <= p < i,
            None => true,
        })
        &&& (match r[i].previous_sibling {
            Some(p) => 0 <= p < i,
            None => true,
        })
        &&& (match r[i].first_child {
            Some(c) => i < c < r.len(),
            None => true,
        })
        &&& (match r[i].next_sibling {
            Some(s) => i < s < r.len(),
            None => true,
        })
        &&& (match r[i].last_child {
            Some(c) => i < c < r.len(),
            None => true,
        })
    } by {
        assert(wf_nodes(nodes));
        if i < id {
            assert((match nodes[i].parent {
                Some(p) => 0 <= p < i,
                None => true,
            }));
        }
    }
}

/// A window: the owner of one document tree, whose root (a document node)
/// sits at index zero of the arena.
#[derive(Debug, Clone, PartialEq)]
pub struct Window {
    nodes: Vec<Node>,
}

/// The image of a node arena.
pub open spec fn nodes_view(v: Seq<Node>) -> Seq<NodeV> {
    v.map(|i: int, n: Node| n@)
}

impl View for Window {
    type V = Seq<NodeV>;

    closed spec fn view(&self) -> Seq<NodeV> {
        nodes_view(self.nodes@)
    }
}

impl Window {
    /// A window holding a single document node.
    pub fn new() -> (w: Self)
        ensures
            w@.len() == 1,
            w@[0] == (NodeV { window: Some(0), ..fresh_node(NodeKindV::Document) }),
            wf_nodes(w@),
    {
        let mut document = Node::new(NodeKind::Document);
        document.set_window(Some(0));
        let mut nodes: Vec<Node> = Vec::new();
        nodes.push(document);
        let w = Self { nodes };
        proof {
            assert(w@ =~= seq![w.nodes@[0]@]);
        }
        w
    }

    /// The arena index of the document root.
    pub fn document(&self) -> (r: usize)
        ensures
            r == 0,
    {
        0
    }

    /// How many nodes the tree holds.
    pub fn node_count(&self) -> (r: usize)
        ensures
            r == self@.len(),
    {
        self.nodes.len()
    }

    /// The node at an arena index.
    pub fn get_node(&self, id: usize) -> (r: &Node)
        requires
            id < self@.len(),
        ensures
            r@ == self@[id as int],
    {
        &self.nodes[id]
    }

    /// A copy of this window and its whole tree, with its image pinned in
    /// the contract.
    pub fn duplicate(&self) -> (r: Self)
        ensures
            r@ == self@,
    {
        let mut nodes: Vec<Node> = Vec::new();
        let mut i: usize = 0;
        proof {
            assert(nodes_view(nodes@) =~= nodes_view(self.nodes@).subrange(0, 0));
        }
        while i < self.nodes.len()
            invariant
                i <= self.nodes@.len(),
                nodes_view(nodes@) == nodes_view(self.nodes@).subrange(0, i as int),
            decreases self.nodes@.len() - i,
        {
            let ghost prev = nodes@;
            nodes.push(self.nodes[i].duplicate());
            proof {
                assert(nodes_view(nodes@) =~= nodes_view(prev).push(nodes@.last()@));
                assert(nodes_view(nodes@) =~= nodes_view(self.nodes@).subrange(0, i + 1 as int));
            }
            i = i + 1;
        }
        proof {
            assert(nodes_view(nodes@) =~= nodes_view(self.nodes@));
        }
        Self { nodes }
    }

    /// Appends a node of the given kind as the last child of `parent` and
    /// hands back its arena index.
    pub fn append_as_last_child(&mut self, parent: usize, kind: NodeKind) -> (id: usize)
        requires
            wf_nodes(old(self)@),
            parent < old(self)@.len(),
        ensures
            id == old(self)@.len(),
            final(self)@ == append_child_s(old(self)@, parent as int, kind@),
            final(self)@.len() == old(self)@.len() + 1,
            wf_nodes(final(self)@),
    {
        let ghost g0 = nodes_view(old(self).nodes@);
        let ghost kindv = kind@;
        proof {
            lemma_append_child_wf(g0, parent as int, kindv);
        }
        let id = self.nodes.len();
        let mut child = Node::new(kind);
        child.set_parent(Some(parent));
        let prev_last = self.nodes[parent].last_child();
        proof {
            assert(g0[parent as int] == self.nodes@[parent as int]@);
            assert(opt_idx(prev_last) == g0[parent as int].last_child);
        }
        child.set_previous_sibling(prev_last);
        let ghost childv = child@;
        self.nodes.push(child);
        proof {
            assert(nodes_view(self.nodes@) =~= g0.push(childv));
        }
        let ghost g1 = g0.push(childv);
        match prev_last {
            Some(lc) => {
                proof {
                    assert(wf_nodes(g0));
                    assert((match g0[parent as int].last_child {
                        Some(c) => parent < c < g0.len(),
                        None => true,
                    }));
                }
                self.nodes[lc].set_next_sibling(Some(id));
                proof {
                    assert(nodes_view(self.nodes@) =~= g1.update(
                        lc as int,
                        NodeV { next_sibling: Some(id as int), ..g1[lc as int] },
                    ));
                }
            },
            None => {
                self.nodes[parent].set_first_child(Some(id));
                proof {
                    assert(nodes_view(self.nodes@) =~= g1.update(
                        parent as int,
                        NodeV { first_child: Some(id as int), ..g1[parent as int] },
                    ));
                }
            },
        }
        let ghost g2 = nodes_view(self.nodes@);
        self.nodes[parent].set_last_child(Some(id));
        proof {
            assert(nodes_view(self.nodes@) =~= g2.update(
                parent as int,
                NodeV { last_child: Some(id as int), ..g2[parent as int] },
            ));
            assert(nodes_view(self.nodes@) =~= append_child_s(g0, parent as int, kindv));
        }
        id
    }

    /// Appends one character to the text node at `id`.
    pub fn append_char_to_text(&mut self, id: usize, c: char)
        requires
            id < old(self)@.len(),
            old(self)@[id as int].kind is Text,
        ensures
            final(self)@ == old(self)@.update(
                id as int,
                NodeV {
                    kind: NodeKindV::Text(old(self)@[id as int].kind->Text_0.push(c)),
                    ..old(self)@[id as int]
                },
            ),
            final(self)@.len() == old(self)@.len(),
    {
        let n = &mut self.nodes[id];
        match &mut n.kind {
            NodeKind::Text(s) => {
                push_char(s, c);
            },
            _ => {},
        }
        proof {
            assert(nodes_view(self.nodes@) =~= old(self)@.update(
                id as int,
                NodeV {
                    kind: NodeKindV::Text(old(self)@[id as int].kind->Text_0.push(c)),
                    ..old(self)@[id as int]
                },
            ));
        }
    }
}

/// Appending a character to a text node preserves well-formedness: no
/// relation field changes.
pub proof fn lemma_text_append_wf(nodes: Seq<NodeV>, id: int, c: char)
    requires
        wf_nodes(nodes),
        0 <= id < nodes.len(),
        nodes[id].kind is Text,
    ensures
        wf_nodes(
            nodes.update(
                id,
                NodeV { kind: NodeKindV::Text(nodes[id].kind->Text_0.push(c)), ..nodes[id] },
            ),
        ),
{
    let r = nodes.update(
        id,
        NodeV { kind: NodeKindV::Text(nodes[id].kind->Text_0.push(c)), ..nodes[id] },
    );
    assert forall|i: int| 0 <= i < r.len() implies {
        &&& (match #[trigger] r[i].parent {
            Some(p) => 0 <= p < i,
            None => true,
        })
        &&& (match r[i].previous_sibling {
            Some(p) => 0 <= p < i,
            None => true,
        })
        &&& (match r[i].first_child {
            Some(c) => i < c < r.len(),
            None => true,
        })
        &&& (match r[i].next_sibling {
            Some(s) => i < s < r.len(),
            None => true,
        })
        &&& (match r[i].last_child {
            Some(c) => i < c < r.len(),
            None => true,
        })
    } by {
        assert(wf_nodes(nodes));
        assert((match nodes[i].parent {
            Some(p) => 0 <= p < i,
            None => true,
        }));
    }
}

} // verus!
