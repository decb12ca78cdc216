//! The document tree constructor: an insertion-mode state machine that
//! drives the markup tokenizer and builds the node tree. Missing `html`,
//! `head` and `body` start tags are synthesized; a `style` or `script`
//! start tag diverts into a text mode (switching the tokenizer into
//! raw-text scanning) until the matching end tag; unmatched end tags are
//! ignored; end of input returns the window built so far.

use vstd::prelude::*;
use crate::attribute::{attrs_view, Attribute, AttrV, duplicate_attributes};
use crate::dom_node::{append_child_s, elem_kind_of, lemma_elem_name, node_element_kind, wf_nodes, Element,
    ElementKind, ElementV, Node, NodeKind, NodeKindV, NodeV, Window};
use crate::html_token::{opt_token_view, tok_m0, tok_m1, tok_mbuf, tok_next_s, tok_wf,
    lemma_tok_next_progress, HtmlToken, HtmlTokenV, HtmlTokenizer, State, TokV};
use crate::strutil::string_is;

verus! {

#[derive(Debug, Clone, Copy, PartialEq, Eq, Structural)]
pub enum InsertionMode {
    Initial,
    BeforeHtml,
    BeforeHead,
    InHead,
    AfterHead,
    InBody,
    Text,
    AfterBody,
    AfterAfterBody,
}

/// The image of a stack of arena indices.
pub open spec fn idxs_view(v: Seq<usize>) -> Seq<int> {
    v.map(|i: int, x: usize| x as int)
}

/// Mathematical image of an [`HtmlParser`]: the node arena built so far,
/// the insertion modes, the stack of open elements, and the tokenizer.
pub struct ParserV {
    pub nodes: Seq<NodeV>,
    pub mode: InsertionMode,
    pub orig: InsertionMode,
    pub stack: Seq<int>,
    pub tok: TokV,
}

/// Every stack entry is an index into an arena of `n` nodes.
pub open spec fn stack_in_bounds(stack: Seq<int>, n: int) -> bool {
    forall|j: int| 0 <= j < stack.len() ==> 0 <= #[trigger] stack[j] < n
}

/// Well-formedness of a parser state: a well-formed tokenizer and arena, a
/// document root, stack entries inside the arena, and text mode only ever
/// diverted from the in-head mode.
pub open spec fn parse_wf(p: ParserV) -> bool {
    &&& tok_wf(p.tok)
    &&& wf_nodes(p.nodes)
    &&& p.nodes.len() >= 1
    &&& stack_in_bounds(p.stack, p.nodes.len() as int)
    &&& (p.mode is Text ==> p.orig is InHead)
}

/// The arena and stack after an element is inserted: the new element
/// becomes the last child of the innermost open element (or of the
/// document when none is open) and is itself pushed as open.
pub open spec fn insert_element_s(
    nodes: Seq<NodeV>,
    stack: Seq<int>,
    kind: ElementKind,
    attrs: Seq<AttrV>,
) -> (Seq<NodeV>, Seq<int>) {
    let cur = if stack.len() > 0 {
        stack.last()
    } else {
        0
    };
    (
        append_child_s(nodes, cur, NodeKindV::Element(ElementV { kind, attributes: attrs })),
        stack.push(nodes.len() as int),
    )
}

/// The arena after a character is inserted: it extends a text node that is
/// already the last child of the insertion point; otherwise whitespace is
/// dropped and any other character opens a new text node as the last
/// child. With no open element the character is dropped.
pub open spec fn insert_char_s(nodes: Seq<NodeV>, stack: Seq<int>, c: char) -> Seq<NodeV> {
    if stack.len() == 0 {
        nodes
    } else {
        let cur = stack.last();
        let lc = nodes[cur].last_child;
        if lc is Some && nodes[lc->0].kind is Text {
            nodes.update(
                lc->0,
                NodeV { kind: NodeKindV::Text(nodes[lc->0].kind->Text_0.push(c)), ..nodes[lc->0] },
            )
        } else if c == ' ' || c == '\n' {
            nodes
        } else {
            append_child_s(nodes, cur, NodeKindV::Text(seq![c]))
        }
    }
}

/// Whether the stack's top is an open element of the given kind; if so it
/// is popped.
pub open spec fn pop_current_node_s(nodes: Seq<NodeV>, stack: Seq<int>, kind: ElementKind) -> (
    bool,
    Seq<int>,
) {
    if stack.len() == 0 {
        (false, stack)
    } else if node_element_kind(nodes[stack.last()]) == Some(kind) {
        (true, stack.drop_last())
    } else {
        (false, stack)
    }
}

/// Whether some open element has the given kind.
pub open spec fn contain_s(nodes: Seq<NodeV>, stack: Seq<int>, kind: ElementKind) -> bool {
    exists|j: int|
        0 <= j < stack.len() && node_element_kind(nodes[#[trigger] stack[j]]) == Some(kind)
}

/// The stack popped down to and including the nearest open element of the
/// given kind (the whole stack is popped when none matches).
pub open spec fn pop_until_s(nodes: Seq<NodeV>, stack: Seq<int>, kind: ElementKind) -> Seq<int>
    decreases stack.len(),
{
    if stack.len() == 0 {
        stack
    } else if node_element_kind(nodes[stack.last()]) == Some(kind) {
        stack.drop_last()
    } else {
        pop_until_s(nodes, stack.drop_last(), kind)
    }
}

/// Popping yields a prefix of the stack, so its entries stay inside the
/// arena.
pub proof fn lemma_pop_until_bounds(nodes: Seq<NodeV>, stack: Seq<int>, kind: ElementKind, n: int)
    requires
        stack_in_bounds(stack, n),
    ensures
        stack_in_bounds(pop_until_s(nodes, stack, kind), n),
    decreases stack.len(),
{
    if stack.len() == 0 {
    } else if node_element_kind(nodes[stack.last()]) == Some(kind) {
        let r = pop_until_s(nodes, stack, kind);
        assert forall|j: int| 0 <= j < r.len() implies 0 <= #[trigger] r[j] < n by {
            assert(r[j] == stack[j]);
        }
    } else {
        assert forall|j: int|
            0 <= j < stack.drop_last().len() implies 0 <= #[trigger] stack.drop_last()[j] < n by {
            assert(stack.drop_last()[j] == stack[j]);
        }
        lemma_pop_until_bounds(nodes, stack.drop_last(), kind, n);
    }
}

/// Whether a token is the `html` end tag.
pub open spec fn is_end_tag_html(t: Option<HtmlTokenV>) -> bool {
    match t {
        Some(HtmlTokenV::EndTag { tag }) => tag == "html"@,
        _ => false,
    }
}

/// One while a token is in hand, zero after exhaustion.
pub open spec fn tok_flag(t: Option<HtmlTokenV>) -> int {
    if t is Some {
        1
    } else {
        0
    }
}

/// Rank of an insertion mode under the token in hand: transitions that
/// re-interpret the same token descend this rank.
pub open spec fn mode_rank(mode: InsertionMode, token: Option<HtmlTokenV>) -> int {
    match mode {
        InsertionMode::Initial => 8,
        InsertionMode::BeforeHtml => 7,
        InsertionMode::BeforeHead => 6,
        InsertionMode::Text => 5,
        InsertionMode::InHead => 4,
        InsertionMode::AfterHead => 3,
        InsertionMode::AfterAfterBody => 3,
        InsertionMode::AfterBody => if is_end_tag_html(token) {
            1
        } else {
            2
        },
        InsertionMode::InBody => if is_end_tag_html(token) {
            2
        } else {
            1
        },
    }
}

/// The tree-construction loop: from a parser state and the token in hand,
/// the node arena when parsing finishes. Each insertion mode interprets
/// the token as the tree constructor does; end of input (or an exhausted
/// tokenizer) returns the arena built so far.
pub open spec fn parse_run(p: ParserV, token: Option<HtmlTokenV>) -> Seq<NodeV>
    decreases tok_m0(p.tok), tok_mbuf(p.tok), tok_m1(p.tok), tok_flag(token), mode_rank(p.mode, token),
    when parse_wf(p)
    via parse_run_dec
{
    match p.mode {
        InsertionMode::Initial => {
            if token matches Some(HtmlTokenV::Char(_)) {
                let r = tok_next_s(p.tok);
                parse_run(ParserV { tok: r.0, ..p }, r.1)
            } else {
                parse_run(ParserV { mode: InsertionMode::BeforeHtml, ..p }, token)
            }
        },
        InsertionMode::BeforeHtml => {
            if token is None || token matches Some(HtmlTokenV::Eof) {
                p.nodes
            } else if token matches Some(HtmlTokenV::Char(c)) && (c == ' ' || c == '\n') {
                let r = tok_next_s(p.tok);
                parse_run(ParserV { tok: r.0, ..p }, r.1)
            } else if token matches Some(HtmlTokenV::StartTag { tag, attributes, .. }) && tag
                == "html"@ {
                let ins = insert_element_s(
                    p.nodes,
                    p.stack,
                    ElementKind::Html,
                    token->Some_0->StartTag_attributes,
                );
                let r = tok_next_s(p.tok);
                parse_run(
                    ParserV {
                        nodes: ins.0,
                        stack: ins.1,
                        mode: InsertionMode::BeforeHead,
                        tok: r.0,
                        ..p
                    },
                    r.1,
                )
            } else {
                let ins = insert_element_s(p.nodes, p.stack, ElementKind::Html, Seq::<AttrV>::empty());
                parse_run(
                    ParserV { nodes: ins.0, stack: ins.1, mode: InsertionMode::BeforeHead, ..p },
                    token,
                )
            }
        },
        InsertionMode::BeforeHead => {
            if token is None || token matches Some(HtmlTokenV::Eof) {
                p.nodes
            } else if token matches Some(HtmlTokenV::Char(c)) && (c == ' ' || c == '\n') {
                let r = tok_next_s(p.tok);
                parse_run(ParserV { tok: r.0, ..p }, r.1)
            } else if token matches Some(HtmlTokenV::StartTag { tag, attributes, .. }) && tag
                == "head"@ {
                let ins = insert_element_s(
                    p.nodes,
                    p.stack,
                    ElementKind::Head,
                    token->Some_0->StartTag_attributes,
                );
                let r = tok_next_s(p.tok);
                parse_run(
                    ParserV {
                        nodes: ins.0,
                        stack: ins.1,
                        mode: InsertionMode::InHead,
                        tok: r.0,
                        ..p
                    },
                    r.1,
                )
            } else {
                let ins = insert_element_s(p.nodes, p.stack, ElementKind::Head, Seq::<AttrV>::empty());
                parse_run(
                    ParserV { nodes: ins.0, stack: ins.1, mode: InsertionMode::InHead, ..p },
                    token,
                )
            }
        },
        InsertionMode::InHead => {
            if token is None || token matches Some(HtmlTokenV::Eof) {
                p.nodes
            } else if token matches Some(HtmlTokenV::Char(c)) && (c == ' ' || c == '\n') {
                let nodes = insert_char_s(p.nodes, p.stack, token->Some_0->Char_0);
                let r = tok_next_s(p.tok);
                parse_run(ParserV { nodes, tok: r.0, ..p }, r.1)
            } else if token matches Some(HtmlTokenV::StartTag { tag, attributes, .. }) && (tag
                == "style"@ || tag == "script"@) {
                let kind = if token->Some_0->StartTag_tag == "style"@ {
                    ElementKind::Style
                } else {
                    ElementKind::Script
                };
                let ins = insert_element_s(
                    p.nodes,
                    p.stack,
                    kind,
                    token->Some_0->StartTag_attributes,
                );
                let tok2 = TokV { state: State::ScriptData, ..p.tok };
                let r = tok_next_s(tok2);
                parse_run(
                    ParserV {
                        nodes: ins.0,
                        stack: ins.1,
                        mode: InsertionMode::Text,
                        orig: p.mode,
                        tok: r.0,
                    },
                    r.1,
                )
            } else if token matches Some(HtmlTokenV::StartTag { tag, .. }) && elem_kind_of(tag)
                is Some {
                let stack = if contain_s(p.nodes, p.stack, ElementKind::Head) {
                    pop_until_s(p.nodes, p.stack, ElementKind::Head)
                } else {
                    p.stack
                };
                parse_run(ParserV { stack, mode: InsertionMode::AfterHead, ..p }, token)
            } else if token matches Some(HtmlTokenV::EndTag { tag }) && tag == "head"@ {
                let stack = if contain_s(p.nodes, p.stack, ElementKind::Head) {
                    pop_until_s(p.nodes, p.stack, ElementKind::Head)
                } else {
                    p.stack
                };
                let r = tok_next_s(p.tok);
                parse_run(
                    ParserV { stack, mode: InsertionMode::AfterHead, tok: r.0, ..p },
                    r.1,
                )
            } else {
                let r = tok_next_s(p.tok);
                parse_run(ParserV { tok: r.0, ..p }, r.1)
            }
        },
        InsertionMode::AfterHead => {
            if token is None || token matches Some(HtmlTokenV::Eof) {
                p.nodes
            } else if token matches Some(HtmlTokenV::Char(c)) && (c == ' ' || c == '\n') {
                let nodes = insert_char_s(p.nodes, p.stack, token->Some_0->Char_0);
                let r = tok_next_s(p.tok);
                parse_run(ParserV { nodes, tok: r.0, ..p }, r.1)
            } else if token matches Some(HtmlTokenV::StartTag { tag, attributes, .. }) && tag
                == "body"@ {
                let ins = insert_element_s(
                    p.nodes,
                    p.stack,
                    ElementKind::Body,
                    token->Some_0->StartTag_attributes,
                );
                let r = tok_next_s(p.tok);
                parse_run(
                    ParserV {
                        nodes: ins.0,
                        stack: ins.1,
                        mode: InsertionMode::InBody,
                        tok: r.0,
                        ..p
                    },
                    r.1,
                )
            } else {
                let ins = insert_element_s(p.nodes, p.stack, ElementKind::Body, Seq::<AttrV>::empty());
                parse_run(
                    ParserV { nodes: ins.0, stack: ins.1, mode: InsertionMode::InBody, ..p },
                    token,
                )
            }
        },
        InsertionMode::InBody => {
            if token is None || token matches Some(HtmlTokenV::Eof) {
                p.nodes
            } else if token matches Some(HtmlTokenV::Char(c)) {
                let nodes = insert_char_s(p.nodes, p.stack, token->Some_0->Char_0);
                let r = tok_next_s(p.tok);
                parse_run(ParserV { nodes, tok: r.0, ..p }, r.1)
            } else if token matches Some(HtmlTokenV::StartTag { tag, attributes, .. }) && (tag
                == "p"@ || tag == "h1"@ || tag == "h2"@ || tag == "a"@) {
                let kind = if token->Some_0->StartTag_tag == "p"@ {
                    ElementKind::P
                } else if token->Some_0->StartTag_tag == "h1"@ {
                    ElementKind::H1
                } else if token->Some_0->StartTag_tag == "h2"@ {
                    ElementKind::H2
                } else {
                    ElementKind::A
                };
                let ins = insert_element_s(
                    p.nodes,
                    p.stack,
                    kind,
                    token->Some_0->StartTag_attributes,
                );
                let r = tok_next_s(p.tok);
                parse_run(ParserV { nodes: ins.0, stack: ins.1, tok: r.0, ..p }, r.1)
            } else if token matches Some(HtmlTokenV::StartTag { .. }) {
                let r = tok_next_s(p.tok);
                parse_run(ParserV { tok: r.0, ..p }, r.1)
            } else if token matches Some(HtmlTokenV::EndTag { tag }) && tag == "body"@ {
                let stack = if contain_s(p.nodes, p.stack, ElementKind::Body) {
                    pop_until_s(p.nodes, p.stack, ElementKind::Body)
                } else {
                    p.stack
                };
                let r = tok_next_s(p.tok);
                parse_run(
                    ParserV { stack, mode: InsertionMode::AfterBody, tok: r.0, ..p },
                    r.1,
                )
            } else if token matches Some(HtmlTokenV::EndTag { tag }) && tag == "html"@ {
                if p.stack.len() >= 2 && node_element_kind(p.nodes[p.stack[p.stack.len() - 1]])
                    == Some(ElementKind::Body) && node_element_kind(
                    p.nodes[p.stack[p.stack.len() - 2]],
                ) == Some(ElementKind::Html) {
                    parse_run(
                        ParserV {
                            stack: p.stack.drop_last().drop_last(),
                            mode: InsertionMode::AfterBody,
                            ..p
                        },
                        token,
                    )
                } else {
                    let r = tok_next_s(p.tok);
                    parse_run(ParserV { tok: r.0, ..p }, r.1)
                }
            } else if token matches Some(HtmlTokenV::EndTag { tag }) && (tag == "p"@ || tag
                == "h1"@ || tag == "h2"@ || tag == "a"@) {
                let kind = if token->Some_0->EndTag_tag == "p"@ {
                    ElementKind::P
                } else if token->Some_0->EndTag_tag == "h1"@ {
                    ElementKind::H1
                } else if token->Some_0->EndTag_tag == "h2"@ {
                    ElementKind::H2
                } else {
                    ElementKind::A
                };
                let stack = if contain_s(p.nodes, p.stack, kind) {
                    pop_until_s(p.nodes, p.stack, kind)
                } else {
                    p.stack
                };
                let r = tok_next_s(p.tok);
                parse_run(ParserV { stack, tok: r.0, ..p }, r.1)
            } else {
                let r = tok_next_s(p.tok);
                parse_run(ParserV { tok: r.0, ..p }, r.1)
            }
        },
        InsertionMode::Text => {
            if token is None || token matches Some(HtmlTokenV::Eof) {
                p.nodes
            } else if token matches Some(HtmlTokenV::EndTag { tag }) && (tag == "style"@ || tag
                == "script"@) {
                let kind = if token->Some_0->EndTag_tag == "style"@ {
                    ElementKind::Style
                } else {
                    ElementKind::Script
                };
                let stack = if contain_s(p.nodes, p.stack, kind) {
                    pop_until_s(p.nodes, p.stack, kind)
                } else {
                    p.stack
                };
                let r = tok_next_s(p.tok);
                parse_run(ParserV { stack, mode: p.orig, tok: r.0, ..p }, r.1)
            } else if token matches Some(HtmlTokenV::Char(c)) {
                let nodes = insert_char_s(p.nodes, p.stack, token->Some_0->Char_0);
                let r = tok_next_s(p.tok);
                parse_run(ParserV { nodes, tok: r.0, ..p }, r.1)
            } else {
                parse_run(ParserV { mode: p.orig, ..p }, token)
            }
        },
        InsertionMode::AfterBody => {
            if token is None || token matches Some(HtmlTokenV::Eof) {
                p.nodes
            } else if token matches Some(HtmlTokenV::Char(_)) {
                let r = tok_next_s(p.tok);
                parse_run(ParserV { tok: r.0, ..p }, r.1)
            } else if token matches Some(HtmlTokenV::EndTag { tag }) && tag == "html"@ {
                let r = tok_next_s(p.tok);
                parse_run(
                    ParserV { mode: InsertionMode::AfterAfterBody, tok: r.0, ..p },
                    r.1,
                )
            } else {
                parse_run(ParserV { mode: InsertionMode::InBody, ..p }, token)
            }
        },
        InsertionMode::AfterAfterBody => {
            if token is None || token matches Some(HtmlTokenV::Eof) {
                p.nodes
            } else if token matches Some(HtmlTokenV::Char(_)) {
                let r = tok_next_s(p.tok);
                parse_run(ParserV { tok: r.0, ..p }, r.1)
            } else {
                parse_run(ParserV { mode: InsertionMode::InBody, ..p }, token)
            }
        },
    }
}

#[via_fn]
proof fn parse_run_dec(p: ParserV, token: Option<HtmlTokenV>) {
    if parse_wf(p) {
        lemma_tok_next_progress(p.tok);
        let tok2 = TokV { state: State::ScriptData, ..p.tok };
        if tok_wf(tok2) {
            lemma_tok_next_progress(tok2);
        }
    }
}

/// The whole construction: fetch the first token, then run the insertion
/// machine.
pub open spec fn construct_tree_s(p: ParserV) -> Seq<NodeV> {
    let r = tok_next_s(p.tok);
    parse_run(ParserV { tok: r.0, ..p }, r.1)
}

/// End of the token sequence: no token, or the end-of-input token.
pub open spec fn tok_is_end_s(t: Option<HtmlTokenV>) -> bool {
    t is None || t matches Some(HtmlTokenV::Eof)
}

/// The strict lexicographic order on the construction measure
/// `(tok_m0, tok_mbuf, tok_m1, tok_flag, mode_rank)`: every step of the
/// insertion machine descends it.
pub open spec fn step_measure_lt(
    p2: ParserV,
    t2: Option<HtmlTokenV>,
    p1: ParserV,
    t1: Option<HtmlTokenV>,
) -> bool {
    ||| 0 <= tok_m0(p2.tok) < tok_m0(p1.tok)
    ||| (tok_m0(p2.tok) == tok_m0(p1.tok) && 0 <= tok_mbuf(p2.tok) < tok_mbuf(p1.tok))
    ||| (tok_m0(p2.tok) == tok_m0(p1.tok) && tok_mbuf(p2.tok) == tok_mbuf(p1.tok) && 0 <= tok_m1(
        p2.tok,
    ) < tok_m1(p1.tok))
    ||| (tok_m0(p2.tok) == tok_m0(p1.tok) && tok_mbuf(p2.tok) == tok_mbuf(p1.tok) && tok_m1(p2.tok)
        == tok_m1(p1.tok) && 0 <= tok_flag(t2) < tok_flag(t1))
    ||| (tok_m0(p2.tok) == tok_m0(p1.tok) && tok_mbuf(p2.tok) == tok_mbuf(p1.tok) && tok_m1(p2.tok)
        == tok_m1(p1.tok) && tok_flag(t2) == tok_flag(t1) && 0 <= mode_rank(p2.mode, t2)
        < mode_rank(p1.mode, t1))
}

fn tok_is_end(token: &Option<HtmlToken>) -> (r: bool)
    ensures
        r == (opt_token_view(*token) is None || opt_token_view(*token) matches Some(
            HtmlTokenV::Eof,
        )),
{
    match token {
        None => true,
        Some(HtmlToken::Eof) => true,
        _ => false,
    }
}

/// A whitespace character token (space or newline).
fn tok_is_ws_char(token: &Option<HtmlToken>) -> (r: bool)
    ensures
        r == (opt_token_view(*token) matches Some(HtmlTokenV::Char(c)) && (c == ' ' || c == '\n')),
{
    match token {
        Some(HtmlToken::Char(c)) => *c == ' ' || *c == '\n',
        _ => false,
    }
}

#[derive(Debug, Clone, PartialEq)]
pub struct HtmlParser {
    window: Window,
    mode: InsertionMode,
    original_insertion_mode: InsertionMode,
    stack_of_open_elements: Vec<usize>,
    t: HtmlTokenizer,
}

impl View for HtmlParser {
    type V = ParserV;

    closed spec fn view(&self) -> ParserV {
        ParserV {
            nodes: self.window@,
            mode: self.mode,
            orig: self.original_insertion_mode,
            stack: idxs_view(self.stack_of_open_elements@),
            tok: self.t@,
        }
    }
}

impl HtmlParser {
    /// A tree constructor over the given tokenizer, in the initial mode,
    /// with a fresh window and an empty stack of open elements.
    pub fn new(t: HtmlTokenizer) -> (p: Self)
        requires
            tok_wf(t@),
        ensures
            p@.mode is Initial,
            p@.orig is Initial,
            p@.stack == Seq::<int>::empty(),
            p@.nodes.len() == 1,
            p@.nodes[0].kind is Document,
            p@.nodes[0].first_child is None,
            p@.tok == t@,
            parse_wf(p@),
    {
        let p = Self {
            window: Window::new(),
            mode: InsertionMode::Initial,
            original_insertion_mode: InsertionMode::Initial,
            stack_of_open_elements: Vec::new(),
            t,
        };
        proof {
            assert(idxs_view(p.stack_of_open_elements@) =~= Seq::<int>::empty());
        }
        p
    }

    /// The arena index new content is appended under: the innermost open
    /// element, or the document root when none is open.
    fn current_parent(&self) -> (r: usize)
        requires
            parse_wf(self@),
        ensures
            r as int == (if self@.stack.len() > 0 {
                self@.stack.last()
            } else {
                0int
            }),
            r < self@.nodes.len(),
    {
        let n = self.stack_of_open_elements.len();
        if n == 0 {
            self.window.document()
        } else {
            let r = self.stack_of_open_elements[n - 1];
            proof {
                assert(self@.stack[n - 1] == r as int);
                assert(stack_in_bounds(self@.stack, self@.nodes.len() as int));
            }
            r
        }
    }

    /// A fresh element node for the given recognized tag name.
    fn create_element(&self, tag: &str, attributes: Vec<Attribute>) -> (n: Node)
        requires
            elem_kind_of(tag@) is Some,
        ensures
            n@ == crate::dom_node::fresh_node(
                NodeKindV::Element(
                    ElementV { kind: elem_kind_of(tag@)->0, attributes: attrs_view(attributes@) },
                ),
            ),
    {
        Node::new(NodeKind::Element(Element::new(tag, attributes)))
    }

    /// A fresh text node holding one character.
    fn create_char(&self, c: char) -> (n: Node)
        ensures
            n@ == crate::dom_node::fresh_node(NodeKindV::Text(seq![c])),
    {
        let mut s = String::new();
        crate::strutil::push_char(&mut s, c);
        proof {
            assert(s@ =~= seq![c]);
        }
        Node::new(NodeKind::Text(s))
    }

    /// Inserts an element of the given recognized tag as the last child of
    /// the current insertion point and opens it on the stack.
    fn insert_element(&mut self, tag: &str, attributes: Vec<Attribute>)
        requires
            parse_wf(old(self)@),
            elem_kind_of(tag@) is Some,
        ensures
            ({
                let ins = insert_element_s(
                    old(self)@.nodes,
                    old(self)@.stack,
                    elem_kind_of(tag@)->0,
                    attrs_view(attributes@),
                );
                final(self)@ == (ParserV { nodes: ins.0, stack: ins.1, ..old(self)@ })
            }),
            parse_wf(final(self)@),
    {
        let ghost attrsv = attrs_view(attributes@);
        let current = self.current_parent();
        let node = self.create_element(tag, attributes);
        let id = self.window.append_as_last_child(current, node.kind());
        self.stack_of_open_elements.push(id);
        proof {
            assert(idxs_view(self.stack_of_open_elements@) =~= idxs_view(
                old(self).stack_of_open_elements@,
            ).push(id as int));
            assert(stack_in_bounds(self@.stack, self@.nodes.len() as int)) by {
                assert forall|j: int| 0 <= j < self@.stack.len() implies 0 <= #[trigger] self@.stack[j]
                    < self@.nodes.len() by {
                    if j < self@.stack.len() - 1 {
                        assert(self@.stack[j] == old(self)@.stack[j]);
                        assert(stack_in_bounds(old(self)@.stack, old(self)@.nodes.len() as int));
                    }
                }
            }
        }
    }

    /// Inserts one character: extends a trailing text node, drops loose
    /// whitespace, or opens a new text node as the last child.
    fn insert_char(&mut self, c: char)
        requires
            parse_wf(old(self)@),
        ensures
            final(self)@ == (ParserV {
                nodes: insert_char_s(old(self)@.nodes, old(self)@.stack, c),
                ..old(self)@
            }),
            parse_wf(final(self)@),
    {
        let n = self.stack_of_open_elements.len();
        if n == 0 {
            return ;
        }
        let current = self.stack_of_open_elements[n - 1];
        proof {
            assert(self@.stack[n - 1] == current as int);
            assert(stack_in_bounds(self@.stack, self@.nodes.len() as int));
        }
        let lc = self.window.get_node(current).last_child();
        let extend: Option<usize> = match lc {
            Some(lcid) => {
                proof {
                    assert(wf_nodes(self@.nodes));
                    assert((match self@.nodes[current as int].last_child {
                        Some(x) => current < x < self@.nodes.len(),
                        None => true,
                    }));
                }
                if self.window.get_node(lcid).is_text() {
                    Some(lcid)
                } else {
                    None
                }
            },
            None => None,
        };
        match extend {
            Some(lcid) => {
                self.window.append_char_to_text(lcid, c);
                proof {
                    crate::dom_node::lemma_text_append_wf(old(self)@.nodes, lcid as int, c);
                }
            },
            None => {
                if c == '\n' || c == ' ' {
                    return ;
                }
                let node = self.create_char(c);
                let _ = self.window.append_as_last_child(current, node.kind());
                proof {
                    assert(stack_in_bounds(self@.stack, self@.nodes.len() as int)) by {
                        assert forall|j: int|
                            0 <= j < self@.stack.len() implies 0 <= #[trigger] self@.stack[j]
                            < self@.nodes.len() by {
                            assert(stack_in_bounds(
                                old(self)@.stack,
                                old(self)@.nodes.len() as int,
                            ));
                            assert(self@.stack[j] == old(self)@.stack[j]);
                        }
                    }
                }
            },
        }
    }

    /// Pops the innermost open element when it has the given kind.
    fn pop_current_node(&mut self, element_kind: ElementKind) -> (r: bool)
        requires
            parse_wf(old(self)@),
        ensures
            ({
                let s = pop_current_node_s(old(self)@.nodes, old(self)@.stack, element_kind);
                r == s.0 && final(self)@ == (ParserV { stack: s.1, ..old(self)@ })
            }),
            parse_wf(final(self)@),
    {
        let n = self.stack_of_open_elements.len();
        if n == 0 {
            return false;
        }
        let top = self.stack_of_open_elements[n - 1];
        proof {
            assert(self@.stack[n - 1] == top as int);
            assert(self@.stack.last() == top as int);
            assert(stack_in_bounds(self@.stack, self@.nodes.len() as int));
        }
        let k = self.window.get_node(top).element_kind();
        let hit = match k {
            Some(kk) => kk == element_kind,
            None => false,
        };
        if hit {
            let _ = self.stack_of_open_elements.pop();
            proof {
                assert(idxs_view(self.stack_of_open_elements@) =~= idxs_view(
                    old(self).stack_of_open_elements@,
                ).drop_last());
            }
            true
        } else {
            false
        }
    }

    /// Whether some open element has the given kind.
    fn contain_in_stack(&self, element_kind: ElementKind) -> (r: bool)
        requires
            parse_wf(self@),
        ensures
            r == contain_s(self@.nodes, self@.stack, element_kind),
    {
        let n = self.stack_of_open_elements.len();
        let mut i: usize = 0;
        while i < n
            invariant
                parse_wf(self@),
                n == self@.stack.len(),
                i <= n,
                forall|j: int|
                    0 <= j < i ==> node_element_kind(self@.nodes[#[trigger] self@.stack[j]])
                        != Some(element_kind),
            decreases n - i,
        {
            let id = self.stack_of_open_elements[i];
            proof {
                assert(self@.stack[i as int] == id as int);
                assert(stack_in_bounds(self@.stack, self@.nodes.len() as int));
            }
            let k = self.window.get_node(id).element_kind();
            let hit = match k {
                Some(kk) => kk == element_kind,
                None => false,
            };
            if hit {
                return true;
            }
            i = i + 1;
        }
        false
    }

    /// Handles one token in the initial mode: character tokens (such as a
    /// doctype rendered as characters) are skipped; anything else moves to
    /// the before-html mode.
    fn step_initial(&mut self, token: &mut Option<HtmlToken>)
        requires
            parse_wf(old(self)@),
            old(self)@.mode is Initial,
        ensures
            parse_wf(final(self)@),
            parse_run(old(self)@, opt_token_view(*old(token))) == parse_run(
                final(self)@,
                opt_token_view(*final(token)),
            ),
            step_measure_lt(
                final(self)@,
                opt_token_view(*final(token)),
                old(self)@,
                opt_token_view(*old(token)),
            ),
    {
        let ghost pre = self@;
        let ghost pret = opt_token_view(*token);
        let is_char = match &*token {
            Some(HtmlToken::Char(_)) => true,
            _ => false,
        };
        if is_char {
            proof {
                lemma_tok_next_progress(self@.tok);
            }
            *token = self.t.next();
        } else {
            self.mode = InsertionMode::BeforeHtml;
        }
        proof {
            assert(parse_run(pre, pret) == parse_run(self@, opt_token_view(*token)));
        }
    }

    /// Handles one token before the `html` element: whitespace is skipped,
    /// an `html` start tag is inserted, and anything else synthesizes the
    /// missing `html` element before moving on.
    fn step_before_html(&mut self, token: &mut Option<HtmlToken>)
        requires
            parse_wf(old(self)@),
            old(self)@.mode is BeforeHtml,
            !tok_is_end_s(opt_token_view(*old(token))),
        ensures
            parse_wf(final(self)@),
            parse_run(old(self)@, opt_token_view(*old(token))) == parse_run(
                final(self)@,
                opt_token_view(*final(token)),
            ),
            step_measure_lt(
                final(self)@,
                opt_token_view(*final(token)),
                old(self)@,
                opt_token_view(*old(token)),
            ),
    {
        let ghost pre = self@;
        let ghost pret = opt_token_view(*token);
        if tok_is_ws_char(token) {
            proof {
                lemma_tok_next_progress(self@.tok);
            }
            *token = self.t.next();
            proof {
                assert(parse_run(pre, pret) == parse_run(self@, opt_token_view(*token)));
            }
            return ;
        }
        let matched = match &*token {
            Some(HtmlToken::StartTag { tag, self_closing: _, attributes }) => {
                if string_is(tag, "html") {
                    proof {
                        lemma_elem_name(tag@, ElementKind::Html);
                    }
                    let attrs = duplicate_attributes(attributes);
                    proof {
                        assert(attrs_view(attrs@) =~= attrs_view(attributes@));
                    }
                    self.insert_element("html", attrs);
                    true
                } else {
                    false
                }
            },
            _ => false,
        };
        if matched {
            self.mode = InsertionMode::BeforeHead;
            proof {
                lemma_tok_next_progress(self@.tok);
            }
            *token = self.t.next();
        } else {
            proof {
                lemma_elem_name("html"@, ElementKind::Html);
            }
            let empty_attrs: Vec<Attribute> = Vec::new();
            proof {
                assert(attrs_view(empty_attrs@) =~= Seq::<AttrV>::empty());
            }
            self.insert_element("html", empty_attrs);
            self.mode = InsertionMode::BeforeHead;
        }
        proof {
            assert(parse_run(pre, pret) == parse_run(self@, opt_token_view(*token)));
        }
    }

    /// Handles one token before the `head` element, synthesizing the
    /// missing `head` element when content implies it.
    fn step_before_head(&mut self, token: &mut Option<HtmlToken>)
        requires
            parse_wf(old(self)@),
            old(self)@.mode is BeforeHead,
            !tok_is_end_s(opt_token_view(*old(token))),
        ensures
            parse_wf(final(self)@),
            parse_run(old(self)@, opt_token_view(*old(token))) == parse_run(
                final(self)@,
                opt_token_view(*final(token)),
            ),
            step_measure_lt(
                final(self)@,
                opt_token_view(*final(token)),
                old(self)@,
                opt_token_view(*old(token)),
            ),
    {
        let ghost pre = self@;
        let ghost pret = opt_token_view(*token);
        if tok_is_ws_char(token) {
            proof {
                lemma_tok_next_progress(self@.tok);
            }
            *token = self.t.next();
            proof {
                assert(parse_run(pre, pret) == parse_run(self@, opt_token_view(*token)));
            }
            return ;
        }
        let matched = match &*token {
            Some(HtmlToken::StartTag { tag, self_closing: _, attributes }) => {
                if string_is(tag, "head") {
                    proof {
                        lemma_elem_name(tag@, ElementKind::Head);
                    }
                    let attrs = duplicate_attributes(attributes);
                    proof {
                        assert(attrs_view(attrs@) =~= attrs_view(attributes@));
                    }
                    self.insert_element("head", attrs);
                    true
                } else {
                    false
                }
            },
            _ => false,
        };
        if matched {
            self.mode = InsertionMode::InHead;
            proof {
                lemma_tok_next_progress(self@.tok);
            }
            *token = self.t.next();
        } else {
            proof {
                lemma_elem_name("head"@, ElementKind::Head);
            }
            let empty_attrs: Vec<Attribute> = Vec::new();
            proof {
                assert(attrs_view(empty_attrs@) =~= Seq::<AttrV>::empty());
            }
            self.insert_element("head", empty_attrs);
            self.mode = InsertionMode::InHead;
        }
        proof {
            assert(parse_run(pre, pret) == parse_run(self@, opt_token_view(*token)));
        }
    }

    /// Handles one token inside the head: whitespace accumulates as text,
    /// `style` and `script` divert into the text mode (switching the
    /// tokenizer into raw-text scanning), any other recognized start tag or
    /// `</head>` closes the head early, and unsupported tags are ignored.
    #[verifier::rlimit(50)]
    #[verifier::spinoff_prover]
    fn step_in_head(&mut self, token: &mut Option<HtmlToken>)
        requires
            parse_wf(old(self)@),
            old(self)@.mode is InHead,
            !tok_is_end_s(opt_token_view(*old(token))),
        ensures
            parse_wf(final(self)@),
            parse_run(old(self)@, opt_token_view(*old(token))) == parse_run(
                final(self)@,
                opt_token_view(*final(token)),
            ),
            step_measure_lt(
                final(self)@,
                opt_token_view(*final(token)),
                old(self)@,
                opt_token_view(*old(token)),
            ),
    {
        let ghost pre = self@;
        let ghost pret = opt_token_view(*token);
        if tok_is_ws_char(token) {
            let c = match &*token {
                Some(HtmlToken::Char(c)) => *c,
                _ => ' ',
            };
            self.insert_char(c);
            proof {
                lemma_tok_next_progress(self@.tok);
            }
            *token = self.t.next();
            proof {
                assert(parse_run(pre, pret) == parse_run(self@, opt_token_view(*token)));
            }
            return ;
        }
        // 0: ignored token; 1: style start tag; 2: script start tag;
        // 3: another recognized start tag; 4: head end tag
        let action: u8 = match &*token {
            Some(HtmlToken::StartTag { tag, self_closing: _, attributes: _ }) => {
                if string_is(tag, "style") {
                    1
                } else if string_is(tag, "script") {
                    2
                } else {
                    match ElementKind::from_str(tag.as_str()) {
                        Some(_) => 3,
                        None => 0,
                    }
                }
            },
            Some(HtmlToken::EndTag { tag }) => {
                if string_is(tag, "head") {
                    4
                } else {
                    0
                }
            },
            _ => 0,
        };
        if action == 1 || action == 2 {
            let attrs = match &*token {
                Some(HtmlToken::StartTag { tag: _, self_closing: _, attributes }) => {
                    let a = duplicate_attributes(attributes);
                    proof {
                        assert(attrs_view(a@) =~= attrs_view(attributes@));
                    }
                    a
                },
                _ => Vec::new(),
            };
            if action == 1 {
                proof {
                    lemma_elem_name(pret->Some_0->StartTag_tag, ElementKind::Style);
                }
                self.insert_element("style", attrs);
            } else {
                proof {
                    lemma_elem_name(pret->Some_0->StartTag_tag, ElementKind::Script);
                }
                self.insert_element("script", attrs);
            }
            self.original_insertion_mode = self.mode;
            self.mode = InsertionMode::Text;
            self.t.switch_to_script_data();
            proof {
                lemma_tok_next_progress(self@.tok);
                assert(tok_m0(self@.tok) == tok_m0(pre.tok));
                assert(tok_mbuf(self@.tok) <= tok_mbuf(pre.tok));
                assert(tok_m1(self@.tok) == 0);
                assert(tok_m1(pre.tok) >= 0);
            }
            *token = self.t.next();
            proof {
                assert(parse_run(pre, pret) == parse_run(self@, opt_token_view(*token)));
            }
        } else if action == 3 {
            if self.contain_in_stack(ElementKind::Head) {
                self.pop_until(ElementKind::Head);
            }
            self.mode = InsertionMode::AfterHead;
            proof {
                assert(parse_run(pre, pret) == parse_run(self@, opt_token_view(*token)));
            }
        } else if action == 4 {
            if self.contain_in_stack(ElementKind::Head) {
                self.pop_until(ElementKind::Head);
            }
            self.mode = InsertionMode::AfterHead;
            proof {
                lemma_tok_next_progress(self@.tok);
            }
            *token = self.t.next();
            proof {
                assert(parse_run(pre, pret) == parse_run(self@, opt_token_view(*token)));
            }
        } else {
            proof {
                lemma_tok_next_progress(self@.tok);
            }
            *token = self.t.next();
            proof {
                assert(parse_run(pre, pret) == parse_run(self@, opt_token_view(*token)));
            }
        }
    }

    /// Handles one token after the head, synthesizing the missing `body`
    /// element when content implies it.
    fn step_after_head(&mut self, token: &mut Option<HtmlToken>)
        requires
            parse_wf(old(self)@),
            old(self)@.mode is AfterHead,
            !tok_is_end_s(opt_token_view(*old(token))),
        ensures
            parse_wf(final(self)@),
            parse_run(old(self)@, opt_token_view(*old(token))) == parse_run(
                final(self)@,
                opt_token_view(*final(token)),
            ),
            step_measure_lt(
                final(self)@,
                opt_token_view(*final(token)),
                old(self)@,
                opt_token_view(*old(token)),
            ),
    {
        let ghost pre = self@;
        let ghost pret = opt_token_view(*token);
        if tok_is_ws_char(token) {
            let c = match &*token {
                Some(HtmlToken::Char(c)) => *c,
                _ => ' ',
            };
            self.insert_char(c);
            proof {
                lemma_tok_next_progress(self@.tok);
            }
            *token = self.t.next();
            proof {
                assert(parse_run(pre, pret) == parse_run(self@, opt_token_view(*token)));
            }
            return ;
        }
        let matched = match &*token {
            Some(HtmlToken::StartTag { tag, self_closing: _, attributes }) => {
                if string_is(tag, "body") {
                    proof {
                        lemma_elem_name(tag@, ElementKind::Body);
                    }
                    let attrs = duplicate_attributes(attributes);
                    proof {
                        assert(attrs_view(attrs@) =~= attrs_view(attributes@));
                    }
                    self.insert_element("body", attrs);
                    true
                } else {
                    false
                }
            },
            _ => false,
        };
        if matched {
            self.mode = InsertionMode::InBody;
            proof {
                lemma_tok_next_progress(self@.tok);
            }
            *token = self.t.next();
        } else {
            proof {
                lemma_elem_name("body"@, ElementKind::Body);
            }
            let empty_attrs: Vec<Attribute> = Vec::new();
            proof {
                assert(attrs_view(empty_attrs@) =~= Seq::<AttrV>::empty());
            }
            self.insert_element("body", empty_attrs);
            self.mode = InsertionMode::InBody;
        }
        proof {
            assert(parse_run(pre, pret) == parse_run(self@, opt_token_view(*token)));
        }
    }

    /// Handles one token inside the body: recognized content elements are
    /// inserted, characters accumulate as text, matching end tags pop the
    /// stack (an unmatched end tag is ignored), and `</body>`/`</html>`
    /// move towards the after-body modes.
    #[verifier::rlimit(50)]
    #[verifier::spinoff_prover]
    fn step_in_body(&mut self, token: &mut Option<HtmlToken>)
        requires
            parse_wf(old(self)@),
            old(self)@.mode is InBody,
            !tok_is_end_s(opt_token_view(*old(token))),
        ensures
            parse_wf(final(self)@),
            parse_run(old(self)@, opt_token_view(*old(token))) == parse_run(
                final(self)@,
                opt_token_view(*final(token)),
            ),
            step_measure_lt(
                final(self)@,
                opt_token_view(*final(token)),
                old(self)@,
                opt_token_view(*old(token)),
            ),
    {
        let ghost pre = self@;
        let ghost pret = opt_token_view(*token);
        // 0: ignored token; 1: character; 2: recognized content start tag;
        // 3: body end tag; 4: html end tag; 5: recognized content end tag
        let action: u8 = match &*token {
            Some(HtmlToken::Char(_)) => 1,
            Some(HtmlToken::StartTag { tag, self_closing: _, attributes: _ }) => {
                if string_is(tag, "p") || string_is(tag, "h1") || string_is(tag, "h2")
                    || string_is(tag, "a") {
                    2
                } else {
                    0
                }
            },
            Some(HtmlToken::EndTag { tag }) => {
                if string_is(tag, "body") {
                    3
                } else if string_is(tag, "html") {
                    4
                } else if string_is(tag, "p") || string_is(tag, "h1") || string_is(tag, "h2")
                    || string_is(tag, "a") {
                    5
                } else {
                    0
                }
            },
            _ => 0,
        };
        if action == 1 {
            let c = match &*token {
                Some(HtmlToken::Char(c)) => *c,
                _ => ' ',
            };
            self.insert_char(c);
            proof {
                lemma_tok_next_progress(self@.tok);
            }
            *token = self.t.next();
            proof {
                assert(parse_run(pre, pret) == parse_run(self@, opt_token_view(*token)));
            }
        } else if action == 2 {
            match &*token {
                Some(HtmlToken::StartTag { tag, self_closing: _, attributes }) => {
                    let attrs = duplicate_attributes(attributes);
                    proof {
                        assert(attrs_view(attrs@) =~= attrs_view(attributes@));
                    }
                    if string_is(tag, "p") {
                        proof {
                            lemma_elem_name(tag@, ElementKind::P);
                        }
                        self.insert_element("p", attrs);
                    } else if string_is(tag, "h1") {
                        proof {
                            lemma_elem_name(tag@, ElementKind::H1);
                        }
                        self.insert_element("h1", attrs);
                    } else if string_is(tag, "h2") {
                        proof {
                            lemma_elem_name(tag@, ElementKind::H2);
                        }
                        self.insert_element("h2", attrs);
                    } else {
                        proof {
                            lemma_elem_name(tag@, ElementKind::A);
                        }
                        self.insert_element("a", attrs);
                    }
                },
                _ => {},
            };
            proof {
                lemma_tok_next_progress(self@.tok);
            }
            *token = self.t.next();
            proof {
                assert(parse_run(pre, pret) == parse_run(self@, opt_token_view(*token)));
            }
        } else if action == 3 {
            if self.contain_in_stack(ElementKind::Body) {
                self.pop_until(ElementKind::Body);
            }
            self.mode = InsertionMode::AfterBody;
            proof {
                lemma_tok_next_progress(self@.tok);
            }
            *token = self.t.next();
            proof {
                assert(parse_run(pre, pret) == parse_run(self@, opt_token_view(*token)));
            }
        } else if action == 4 {
            let n = self.stack_of_open_elements.len();
            let both_open: bool = if n >= 2 {
                let top = self.stack_of_open_elements[n - 1];
                let below = self.stack_of_open_elements[n - 2];
                proof {
                    assert(self@.stack[n - 1] == top as int);
                    assert(self@.stack[n - 2] == below as int);
                    assert(stack_in_bounds(self@.stack, self@.nodes.len() as int));
                }
                let top_is_body = match self.window.get_node(top).element_kind() {
                    Some(ElementKind::Body) => true,
                    _ => false,
                };
                let below_is_html = match self.window.get_node(below).element_kind() {
                    Some(ElementKind::Html) => true,
                    _ => false,
                };
                top_is_body && below_is_html
            } else {
                false
            };
            if both_open {
                let ghost prevstack = self@.stack;
                let _ = self.stack_of_open_elements.pop();
                let _ = self.stack_of_open_elements.pop();
                self.mode = InsertionMode::AfterBody;
                proof {
                    assert(idxs_view(self.stack_of_open_elements@) =~= prevstack.drop_last(
                    ).drop_last());
                    assert(stack_in_bounds(self@.stack, self@.nodes.len() as int)) by {
                        assert forall|j: int|
                            0 <= j < self@.stack.len() implies 0 <= #[trigger] self@.stack[j]
                            < self@.nodes.len() by {
                            assert(self@.stack[j] == prevstack[j]);
                            assert(stack_in_bounds(prevstack, self@.nodes.len() as int));
                        }
                    }
                    assert(parse_run(pre, pret) == parse_run(self@, opt_token_view(*token)));
                }
            } else {
                proof {
                    lemma_tok_next_progress(self@.tok);
                }
                *token = self.t.next();
                proof {
                    assert(parse_run(pre, pret) == parse_run(self@, opt_token_view(*token)));
                }
            }
        } else if action == 5 {
            let kind = match &*token {
                Some(HtmlToken::EndTag { tag }) => {
                    if string_is(tag, "p") {
                        ElementKind::P
                    } else if string_is(tag, "h1") {
                        ElementKind::H1
                    } else if string_is(tag, "h2") {
                        ElementKind::H2
                    } else {
                        ElementKind::A
                    }
                },
                _ => ElementKind::A,
            };
            if self.contain_in_stack(kind) {
                self.pop_until(kind);
            }
            proof {
                lemma_tok_next_progress(self@.tok);
            }
            *token = self.t.next();
            proof {
                assert(parse_run(pre, pret) == parse_run(self@, opt_token_view(*token)));
            }
        } else {
            proof {
                lemma_tok_next_progress(self@.tok);
            }
            *token = self.t.next();
            proof {
                assert(parse_run(pre, pret) == parse_run(self@, opt_token_view(*token)));
            }
        }
    }

    /// Handles one token in the text mode: characters accumulate in the
    /// raw-text element, the matching end tag pops it and restores the
    /// prior mode, and anything else restores the prior mode on the same
    /// token.
    fn step_text(&mut self, token: &mut Option<HtmlToken>)
        requires
            parse_wf(old(self)@),
            old(self)@.mode is Text,
            !tok_is_end_s(opt_token_view(*old(token))),
        ensures
            parse_wf(final(self)@),
            parse_run(old(self)@, opt_token_view(*old(token))) == parse_run(
                final(self)@,
                opt_token_view(*final(token)),
            ),
            step_measure_lt(
                final(self)@,
                opt_token_view(*final(token)),
                old(self)@,
                opt_token_view(*old(token)),
            ),
    {
        let ghost pre = self@;
        let ghost pret = opt_token_view(*token);
        // 0: leave text mode on the same token; 1: character; 2: style end
        // tag; 3: script end tag
        let action: u8 = match &*token {
            Some(HtmlToken::Char(_)) => 1,
            Some(HtmlToken::EndTag { tag }) => {
                if string_is(tag, "style") {
                    2
                } else if string_is(tag, "script") {
                    3
                } else {
                    0
                }
            },
            _ => 0,
        };
        if action == 1 {
            let c = match &*token {
                Some(HtmlToken::Char(c)) => *c,
                _ => ' ',
            };
            self.insert_char(c);
            proof {
                lemma_tok_next_progress(self@.tok);
            }
            *token = self.t.next();
            proof {
                assert(parse_run(pre, pret) == parse_run(self@, opt_token_view(*token)));
            }
        } else if action == 2 || action == 3 {
            let kind = if action == 2 {
                ElementKind::Style
            } else {
                ElementKind::Script
            };
            if self.contain_in_stack(kind) {
                self.pop_until(kind);
            }
            self.mode = self.original_insertion_mode;
            proof {
                lemma_tok_next_progress(self@.tok);
            }
            *token = self.t.next();
            proof {
                assert(parse_run(pre, pret) == parse_run(self@, opt_token_view(*token)));
            }
        } else {
            self.mode = self.original_insertion_mode;
            proof {
                assert(parse_run(pre, pret) == parse_run(self@, opt_token_view(*token)));
            }
        }
    }

    /// Handles one token after the body: `</html>` moves on, characters are
    /// skipped, and anything else falls back to the in-body mode.
    fn step_after_body(&mut self, token: &mut Option<HtmlToken>)
        requires
            parse_wf(old(self)@),
            old(self)@.mode is AfterBody,
            !tok_is_end_s(opt_token_view(*old(token))),
        ensures
            parse_wf(final(self)@),
            parse_run(old(self)@, opt_token_view(*old(token))) == parse_run(
                final(self)@,
                opt_token_view(*final(token)),
            ),
            step_measure_lt(
                final(self)@,
                opt_token_view(*final(token)),
                old(self)@,
                opt_token_view(*old(token)),
            ),
    {
        let ghost pre = self@;
        let ghost pret = opt_token_view(*token);
        let is_char = match &*token {
            Some(HtmlToken::Char(_)) => true,
            _ => false,
        };
        let is_html_end = match &*token {
            Some(HtmlToken::EndTag { tag }) => string_is(tag, "html"),
            _ => false,
        };
        if is_char {
            proof {
                lemma_tok_next_progress(self@.tok);
            }
            *token = self.t.next();
        } else if is_html_end {
            self.mode = InsertionMode::AfterAfterBody;
            proof {
                lemma_tok_next_progress(self@.tok);
            }
            *token = self.t.next();
        } else {
            self.mode = InsertionMode::InBody;
        }
        proof {
            assert(parse_run(pre, pret) == parse_run(self@, opt_token_view(*token)));
        }
    }

    /// Handles one token after the whole document: characters are skipped
    /// and anything else is re-interpreted in the in-body mode.
    fn step_after_after_body(&mut self, token: &mut Option<HtmlToken>)
        requires
            parse_wf(old(self)@),
            old(self)@.mode is AfterAfterBody,
            !tok_is_end_s(opt_token_view(*old(token))),
        ensures
            parse_wf(final(self)@),
            parse_run(old(self)@, opt_token_view(*old(token))) == parse_run(
                final(self)@,
                opt_token_view(*final(token)),
            ),
            step_measure_lt(
                final(self)@,
                opt_token_view(*final(token)),
                old(self)@,
                opt_token_view(*old(token)),
            ),
    {
        let ghost pre = self@;
        let ghost pret = opt_token_view(*token);
        let is_char = match &*token {
            Some(HtmlToken::Char(_)) => true,
            _ => false,
        };
        if is_char {
            proof {
                lemma_tok_next_progress(self@.tok);
            }
            *token = self.t.next();
        } else {
            self.mode = InsertionMode::InBody;
        }
        proof {
            assert(parse_run(pre, pret) == parse_run(self@, opt_token_view(*token)));
        }
    }

    /// Runs the insertion-mode machine over the whole token sequence and
    /// returns the window holding the constructed tree.
    pub fn construct_tree(&mut self) -> (w: Window)
        requires
            parse_wf(old(self)@),
        ensures
            w@ == construct_tree_s(old(self)@),
            wf_nodes(w@),
            w@.len() >= 1,
            parse_wf(final(self)@),
    {
        proof {
            lemma_tok_next_progress(self@.tok);
        }
        let mut token = self.t.next();
        loop
            invariant
                parse_wf(self@),
                construct_tree_s(old(self)@) == parse_run(self@, opt_token_view(token)),
            decreases
                    tok_m0(self@.tok),
                    tok_mbuf(self@.tok),
                    tok_m1(self@.tok),
                    tok_flag(opt_token_view(token)),
                    mode_rank(self@.mode, opt_token_view(token)),
        {
            let ghost pre = self@;
            let ghost pret = opt_token_view(token);
            let at_end = tok_is_end(&token);
            match self.mode {
                InsertionMode::Initial => {
                    self.step_initial(&mut token);
                },
                InsertionMode::BeforeHtml => {
                    if at_end {
                        proof {
                            assert(parse_run(pre, pret) == pre.nodes);
                        }
                        return self.window.duplicate();
                    }
                    self.step_before_html(&mut token);
                },
                InsertionMode::BeforeHead => {
                    if at_end {
                        proof {
                            assert(parse_run(pre, pret) == pre.nodes);
                        }
                        return self.window.duplicate();
                    }
                    self.step_before_head(&mut token);
                },
                InsertionMode::InHead => {
                    if at_end {
                        proof {
                            assert(parse_run(pre, pret) == pre.nodes);
                        }
                        return self.window.duplicate();
                    }
                    self.step_in_head(&mut token);
                },
                InsertionMode::AfterHead => {
                    if at_end {
                        proof {
                            assert(parse_run(pre, pret) == pre.nodes);
                        }
                        return self.window.duplicate();
                    }
                    self.step_after_head(&mut token);
                },
                InsertionMode::InBody => {
                    if at_end {
                        proof {
                            assert(parse_run(pre, pret) == pre.nodes);
                        }
                        return self.window.duplicate();
                    }
                    self.step_in_body(&mut token);
                },
                InsertionMode::Text => {
                    if at_end {
                        proof {
                            assert(parse_run(pre, pret) == pre.nodes);
                        }
                        return self.window.duplicate();
                    }
                    self.step_text(&mut token);
                },
                InsertionMode::AfterBody => {
                    if at_end {
                        proof {
                            assert(parse_run(pre, pret) == pre.nodes);
                        }
                        return self.window.duplicate();
                    }
                    self.step_after_body(&mut token);
                },
                InsertionMode::AfterAfterBody => {
                    if at_end {
                        proof {
                            assert(parse_run(pre, pret) == pre.nodes);
                        }
                        return self.window.duplicate();
                    }
                    self.step_after_after_body(&mut token);
                },
            }
        }
    }


    /// Pops open elements down to and including the nearest one of the
    /// given kind; with none on the stack, everything is popped.
    fn pop_until(&mut self, element_kind: ElementKind)
        requires
            parse_wf(old(self)@),
        ensures
            final(self)@ == (ParserV {
                stack: pop_until_s(old(self)@.nodes, old(self)@.stack, element_kind),
                ..old(self)@
            }),
            parse_wf(final(self)@),
    {
        proof {
            lemma_pop_until_bounds(
                old(self)@.nodes,
                old(self)@.stack,
                element_kind,
                old(self)@.nodes.len() as int,
            );
        }
        loop
            invariant
                parse_wf(self@),
                self@.nodes == old(self)@.nodes,
                self@.mode == old(self)@.mode,
                self@.orig == old(self)@.orig,
                self@.tok == old(self)@.tok,
                pop_until_s(self@.nodes, old(self)@.stack, element_kind) == pop_until_s(
                    self@.nodes,
                    self@.stack,
                    element_kind,
                ),
            decreases self@.stack.len(),
        {
            let n = self.stack_of_open_elements.len();
            if n == 0 {
                return ;
            }
            let top = self.stack_of_open_elements[n - 1];
            proof {
                assert(self@.stack[n - 1] == top as int);
                assert(self@.stack.last() == top as int);
                assert(stack_in_bounds(self@.stack, self@.nodes.len() as int));
            }
            let k = self.window.get_node(top).element_kind();
            let hit = match k {
                Some(kk) => kk == element_kind,
                None => false,
            };
            let ghost prevstack = idxs_view(self.stack_of_open_elements@);
            let _ = self.stack_of_open_elements.pop();
            proof {
                assert(idxs_view(self.stack_of_open_elements@) =~= prevstack.drop_last());
                assert(stack_in_bounds(self@.stack, self@.nodes.len() as int)) by {
                    assert forall|j: int| 0 <= j < self@.stack.len() implies 0 <= #[trigger] self@.stack[j]
                        < self@.nodes.len() by {
                        assert(self@.stack[j] == prevstack[j]);
                        assert(stack_in_bounds(prevstack, self@.nodes.len() as int));
                    }
                }
            }
            if hit {
                return ;
            }
        }
    }
}

} // verus!
