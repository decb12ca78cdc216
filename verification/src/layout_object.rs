//! Layout boxes: each holds the node it renders, its resolved style, a
//! position and a size. Style is cascaded from the matching rules (later
//! rules override earlier ones per property) and then defaulted; a box's
//! kind is fixed from its resolved display, or forced to text for text
//! nodes. Sizes follow a simple block/inline model with text wrapping;
//! arithmetic saturates at the integer limits.

use vstd::prelude::*;
use crate::computed_style::{black_v, color_of_code, color_of_name, defaulted_style,
    display_type_of, white_v, Color, ComputedStyle, DisplayType, FontSize, StyleV};
use crate::constants::{CHAR_HEIGHT_WITH_PADDING, CHAR_WIDTH, CONTENT_AREA_WIDTH};
use crate::cssom::{decls_view, rules_view, Declaration, DeclarationV, QualifiedRuleV, Selector,
    SelectorV, StyleSheet};
use crate::css_token::CssTokenV;
use crate::dom_node::{elem_name, lemma_elem_name, opt_idx, ElementKind, NodeKind, NodeKindV,
    Window};
use crate::strutil::string_is;

verus! {

#[derive(Debug, Clone, Copy, PartialEq, Eq, Structural)]
pub enum LayoutObjectKind {
    Block,
    Inline,
    Text,
}

#[derive(Debug, Clone, Copy, PartialEq, Eq, Structural)]
pub struct LayoutPoint {
    pub x: i64,
    pub y: i64,
}

impl LayoutPoint {
    pub fn new(x: i64, y: i64) -> (r: Self)
        ensures
            r == (LayoutPoint { x, y }),
    {
        Self { x, y }
    }

    pub fn x(&self) -> (r: i64)
        ensures
            r == self.x,
    {
        self.x
    }

    pub fn y(&self) -> (r: i64)
        ensures
            r == self.y,
    {
        self.y
    }

    pub fn set_x(&mut self, x: i64)
        ensures
            *final(self) == (LayoutPoint { x, ..*old(self) }),
    {
        self.x = x;
    }

    pub fn set_y(&mut self, y: i64)
        ensures
            *final(self) == (LayoutPoint { y, ..*old(self) }),
    {
        self.y = y;
    }
}

#[derive(Debug, Clone, Copy, PartialEq, Eq, Structural)]
pub struct LayoutSize {
    pub width: i64,
    pub height: i64,
}

impl LayoutSize {
    pub fn new(width: i64, height: i64) -> (r: Self)
        ensures
            r == (LayoutSize { width, height }),
    {
        Self { width, height }
    }

    pub fn width(&self) -> (r: i64)
        ensures
            r == self.width,
    {
        self.width
    }

    pub fn height(&self) -> (r: i64)
        ensures
            r == self.height,
    {
        self.height
    }

    pub fn set_width(&mut self, width: i64)
        ensures
            *final(self) == (LayoutSize { width, ..*old(self) }),
    {
        self.width = width;
    }

    pub fn set_height(&mut self, height: i64)
        ensures
            *final(self) == (LayoutSize { height, ..*old(self) }),
    {
        self.height = height;
    }
}

/// An integer clamped to the representable range.
pub open spec fn sat_i64(x: int) -> i64 {
    if x > i64::MAX {
        i64::MAX
    } else if x < i64::MIN {
        i64::MIN
    } else {
        x as i64
    }
}

/// Saturating addition.
pub fn sat_add(a: i64, b: i64) -> (r: i64)
    ensures
        r == sat_i64(a + b),
{
    let s: i128 = a as i128 + b as i128;
    if s > i64::MAX as i128 {
        i64::MAX
    } else if s < i64::MIN as i128 {
        i64::MIN
    } else {
        s as i64
    }
}

/// Saturating multiplication.
pub fn sat_mul(a: i64, b: i64) -> (r: i64)
    ensures
        r == sat_i64(a * b),
{
    proof {
        assert(i64::MIN <= a <= i64::MAX && i64::MIN <= b <= i64::MAX ==> i128::MIN <= a * b
            <= i128::MAX) by (nonlinear_arith);
    }
    let s: i128 = a as i128 * b as i128;
    if s > i64::MAX as i128 {
        i64::MAX
    } else if s < i64::MIN as i128 {
        i64::MIN
    } else {
        s as i64
    }
}

/// Whether a selector picks a node: a type selector compares against the
/// element's tag name, class and id selectors against the `class`/`id`
/// attribute value, and the unknown selector never matches. Only element
/// nodes are selectable.
pub open spec fn selected_s(kind: NodeKindV, sel: SelectorV) -> bool {
    match kind {
        NodeKindV::Element(e) => match sel {
            SelectorV::TypeSelector(name) => elem_name(e.kind) == name,
            SelectorV::ClassSelector(cn) => exists|i: int|
                0 <= i < e.attributes.len() && (#[trigger] e.attributes[i]).name == "class"@
                    && e.attributes[i].value == cn,
            SelectorV::IdSelector(idn) => exists|i: int|
                0 <= i < e.attributes.len() && (#[trigger] e.attributes[i]).name == "id"@
                    && e.attributes[i].value == idn,
            SelectorV::UnknownSelector => false,
        },
        _ => false,
    }
}

/// One declaration applied to a style: `background-color` and `color`
/// accept a named color or a hash token (an invalid color falls back to
/// white and black respectively); `display` accepts a keyword (an unknown
/// keyword falls back to none); other properties are ignored.
pub open spec fn cascade_one(s: StyleV, d: DeclarationV) -> StyleV {
    if d.property == "background-color"@ {
        match d.value {
            CssTokenV::Ident(v) => StyleV {
                background_color: Some(
                    match color_of_name(v) {
                        Some(c) => c,
                        None => white_v(),
                    },
                ),
                ..s
            },
            CssTokenV::HashToken(h) => StyleV {
                background_color: Some(
                    match color_of_code(h) {
                        Some(c) => c,
                        None => white_v(),
                    },
                ),
                ..s
            },
            _ => s,
        }
    } else if d.property == "color"@ {
        match d.value {
            CssTokenV::Ident(v) => StyleV {
                color: Some(
                    match color_of_name(v) {
                        Some(c) => c,
                        None => black_v(),
                    },
                ),
                ..s
            },
            CssTokenV::HashToken(h) => StyleV {
                color: Some(
                    match color_of_code(h) {
                        Some(c) => c,
                        None => black_v(),
                    },
                ),
                ..s
            },
            _ => s,
        }
    } else if d.property == "display"@ {
        match d.value {
            CssTokenV::Ident(v) => StyleV {
                display: Some(
                    match display_type_of(v) {
                        Some(dd) => dd,
                        None => DisplayType::DisplayNone,
                    },
                ),
                ..s
            },
            _ => s,
        }
    } else {
        s
    }
}

/// The declarations from `i` on applied in order, later overriding
/// earlier.
pub open spec fn cascade_s(s: StyleV, decls: Seq<DeclarationV>, i: int) -> StyleV
    decreases decls.len() - i,
    when 0 <= i
{
    if i >= decls.len() {
        s
    } else {
        cascade_s(cascade_one(s, decls[i]), decls, i + 1)
    }
}

/// The rules from `i` on applied in sheet order: each rule whose selector
/// picks the node contributes its declarations.
pub open spec fn cascaded_style_s(
    kind: NodeKindV,
    rules: Seq<QualifiedRuleV>,
    i: int,
    s: StyleV,
) -> StyleV
    decreases rules.len() - i,
    when 0 <= i
{
    if i >= rules.len() {
        s
    } else {
        let s2 = if selected_s(kind, rules[i].selector) {
            cascade_s(s, rules[i].declarations, 0)
        } else {
            s
        };
        cascaded_style_s(kind, rules, i + 1, s2)
    }
}

/// A style with every property unset.
pub open spec fn empty_style() -> StyleV {
    StyleV { background_color: None, color: None, display: None, font_size: None }
}

/// The style a node resolves to under a rule set and an optional parent
/// style: the cascaded declarations, then defaulting.
pub open spec fn resolved_style_s(
    kind: NodeKindV,
    rules: Seq<QualifiedRuleV>,
    parent: Option<StyleV>,
) -> StyleV {
    defaulted_style(cascaded_style_s(kind, rules, 0, empty_style()), kind, parent)
}

/// The box kind fixed from a node and its resolved display: text nodes are
/// text boxes, elements are block or inline boxes. A document node is
/// treated as a block container; the builder starts beneath the `body`
/// element, so no document node ever reaches layout.
pub open spec fn update_kind_s(kind: NodeKindV, display: DisplayType) -> LayoutObjectKind {
    match kind {
        NodeKindV::Text(_) => LayoutObjectKind::Text,
        _ => match display {
            DisplayType::Inline => LayoutObjectKind::Inline,
            _ => LayoutObjectKind::Block,
        },
    }
}

/// The scale of a font size relative to the base size.
pub open spec fn ratio_of(f: FontSize) -> int {
    match f {
        FontSize::Medium => 1,
        FontSize::XLarge => 2,
        FontSize::XXLarge => 3,
    }
}

/// A block box's height: the sum of its children's heights, counting a
/// child only when it or its preceding sibling is a block (consecutive
/// inline runs contribute once).
pub open spec fn block_height_s(
    children: Seq<(LayoutObjectKind, LayoutSize)>,
    i: int,
    prev: LayoutObjectKind,
    acc: i64,
) -> i64
    decreases children.len() - i,
    when 0 <= i
{
    if i >= children.len() {
        acc
    } else {
        let acc2 = if prev is Block || children[i].0 is Block {
            sat_i64(acc + children[i].1.height)
        } else {
            acc
        };
        block_height_s(children, i + 1, children[i].0, acc2)
    }
}

/// An inline box's size: the sums of its children's widths and heights.
pub open spec fn inline_size_s(
    children: Seq<(LayoutObjectKind, LayoutSize)>,
    i: int,
    acc: LayoutSize,
) -> LayoutSize
    decreases children.len() - i,
    when 0 <= i
{
    if i >= children.len() {
        acc
    } else {
        inline_size_s(
            children,
            i + 1,
            LayoutSize {
                width: sat_i64(acc.width + children[i].1.width),
                height: sat_i64(acc.height + children[i].1.height),
            },
        )
    }
}

/// A text box's size: a fixed character width scaled by the font ratio;
/// text wider than the content area wraps to `ceil(width / content area)`
/// lines of the scaled line height.
pub open spec fn text_size_s(text: Seq<char>, f: FontSize) -> LayoutSize {
    let ratio = ratio_of(f);
    let len = if text.len() > i64::MAX {
        i64::MAX as int
    } else {
        text.len() as int
    };
    let width = sat_i64(CHAR_WIDTH * ratio * len);
    if width > CONTENT_AREA_WIDTH {
        let line_num = if width % CONTENT_AREA_WIDTH == 0 {
            width / CONTENT_AREA_WIDTH
        } else {
            width / CONTENT_AREA_WIDTH + 1
        };
        LayoutSize {
            width: CONTENT_AREA_WIDTH,
            height: sat_i64(CHAR_HEIGHT_WITH_PADDING * ratio * line_num),
        }
    } else {
        LayoutSize { width, height: sat_i64(CHAR_HEIGHT_WITH_PADDING * ratio) }
    }
}

/// The size a box computes from its parent's size and its children: a
/// block takes the parent's width and the block-collapsed child height, an
/// inline box sums its children, a text box measures its text.
pub open spec fn compute_size_s(
    kind: LayoutObjectKind,
    node_kind: NodeKindV,
    style: StyleV,
    parent_size: LayoutSize,
    children: Seq<(LayoutObjectKind, LayoutSize)>,
) -> LayoutSize {
    match kind {
        LayoutObjectKind::Block => LayoutSize {
            width: parent_size.width,
            height: block_height_s(children, 0, LayoutObjectKind::Block, 0),
        },
        LayoutObjectKind::Inline => inline_size_s(
            children,
            0,
            LayoutSize { width: 0, height: 0 },
        ),
        LayoutObjectKind::Text => match node_kind {
            NodeKindV::Text(t) => text_size_s(
                t,
                match style.font_size {
                    Some(f) => f,
                    None => FontSize::Medium,
                },
            ),
            _ => LayoutSize { width: 0, height: 0 },
        },
    }
}

/// A fresh box for a node with the given resolved style: its kind fixed
/// from the node and the resolved display, no links, at the origin with no
/// size.
pub open spec fn create_s_obj(
    node: int,
    node_kind: NodeKindV,
    parent_obj: Option<int>,
    st: StyleV,
) -> LayoutObjectV {
    LayoutObjectV {
        kind: update_kind_s(
            node_kind,
            match st.display {
                Some(d) => d,
                None => DisplayType::Block,
            },
        ),
        node,
        node_kind,
        first_child: None,
        next_sibling: None,
        parent: parent_obj,
        style: st,
        point: LayoutPoint { x: 0, y: 0 },
        size: LayoutSize { width: 0, height: 0 },
    }
}

/// Mathematical image of a [`LayoutObject`].
pub struct LayoutObjectV {
    pub kind: LayoutObjectKind,
    pub node: int,
    pub node_kind: NodeKindV,
    pub first_child: Option<int>,
    pub next_sibling: Option<int>,
    pub parent: Option<int>,
    pub style: StyleV,
    pub point: LayoutPoint,
    pub size: LayoutSize,
}

#[derive(Debug, Clone, PartialEq)]
pub struct LayoutObject {
    kind: LayoutObjectKind,
    node: usize,
    node_kind: NodeKind,
    first_child: Option<usize>,
    next_sibling: Option<usize>,
    parent: Option<usize>,
    style: ComputedStyle,
    point: LayoutPoint,
    size: LayoutSize,
}

impl View for LayoutObject {
    type V = LayoutObjectV;

    closed spec fn view(&self) -> LayoutObjectV {
        LayoutObjectV {
            kind: self.kind,
            node: self.node as int,
            node_kind: self.node_kind@,
            first_child: opt_idx(self.first_child),
            next_sibling: opt_idx(self.next_sibling),
            parent: opt_idx(self.parent),
            style: self.style@,
            point: self.point,
            size: self.size,
        }
    }
}

impl LayoutObject {
    /// A fresh block box for the given node, with an unset style, at the
    /// origin, with no size.
    pub fn new(node: usize, node_kind: NodeKind, parent_obj: Option<usize>) -> (r: Self)
        ensures
            r@ == (LayoutObjectV {
                kind: LayoutObjectKind::Block,
                node: node as int,
                node_kind: node_kind@,
                first_child: None,
                next_sibling: None,
                parent: opt_idx(parent_obj),
                style: empty_style(),
                point: LayoutPoint { x: 0, y: 0 },
                size: LayoutSize { width: 0, height: 0 },
            }),
    {
        Self {
            kind: LayoutObjectKind::Block,
            node,
            node_kind,
            first_child: None,
            next_sibling: None,
            parent: parent_obj,
            style: ComputedStyle::new(),
            point: LayoutPoint::new(0, 0),
            size: LayoutSize::new(0, 0),
        }
    }

    pub fn kind(&self) -> (r: LayoutObjectKind)
        ensures
            r == self@.kind,
    {
        self.kind
    }

    /// The kind of the document node this box renders.
    pub fn node_kind(&self) -> (r: NodeKind)
        ensures
            r@ == self@.node_kind,
    {
        crate::dom_node::duplicate_node_kind(&self.node_kind)
    }

    /// The arena index of the document node this box renders.
    pub fn node(&self) -> (r: usize)
        ensures
            r as int == self@.node,
    {
        self.node
    }

    pub fn set_first_child(&mut self, first_child: Option<usize>)
        ensures
            final(self)@ == (LayoutObjectV { first_child: opt_idx(first_child), ..old(self)@ }),
    {
        self.first_child = first_child;
    }

    pub fn first_child(&self) -> (r: Option<usize>)
        ensures
            opt_idx(r) == self@.first_child,
    {
        self.first_child
    }

    pub fn set_next_sibling(&mut self, next_sibling: Option<usize>)
        ensures
            final(self)@ == (LayoutObjectV { next_sibling: opt_idx(next_sibling), ..old(self)@ }),
    {
        self.next_sibling = next_sibling;
    }

    pub fn next_sibling(&self) -> (r: Option<usize>)
        ensures
            opt_idx(r) == self@.next_sibling,
    {
        self.next_sibling
    }

    pub fn parent(&self) -> (r: Option<usize>)
        ensures
            opt_idx(r) == self@.parent,
    {
        self.parent
    }

    /// The box's resolved style.
    pub fn style(&self) -> (r: ComputedStyle)
        ensures
            r@ == self@.style,
    {
        self.style.duplicate()
    }

    pub fn point(&self) -> (r: LayoutPoint)
        ensures
            r == self@.point,
    {
        self.point
    }

    pub fn set_point(&mut self, point: LayoutPoint)
        ensures
            final(self)@ == (LayoutObjectV { point, ..old(self)@ }),
    {
        self.point = point;
    }

    pub fn size(&self) -> (r: LayoutSize)
        ensures
            r == self@.size,
    {
        self.size
    }

    /// Whether a selector picks the node this box renders.
    pub fn is_node_selected(&self, selector: &Selector) -> (r: bool)
        ensures
            r == selected_s(self@.node_kind, selector@),
    {
        let e = match &self.node_kind {
            NodeKind::Element(e) => e,
            _ => {
                return false;
            },
        };
        match selector {
            Selector::TypeSelector(tag_name) => {
                let r = match ElementKind::from_str(tag_name.as_str()) {
                    Some(k) => k == e.kind(),
                    None => false,
                };
                proof {
                    lemma_elem_name(tag_name@, e@.kind);
                }
                r
            },
            Selector::ClassSelector(class_name) => {
                attribute_has(e, "class", class_name)
            },
            Selector::IdSelector(id_name) => {
                attribute_has(e, "id", id_name)
            },
            Selector::UnknownSelector => false,
        }
    }

    /// Applies a rule's declarations to the box's style, later overriding
    /// earlier.
    pub fn cascading_style(&mut self, declarations: Vec<Declaration>)
        ensures
            final(self)@ == (LayoutObjectV {
                style: cascade_s(old(self)@.style, decls_view(declarations@), 0),
                ..old(self)@
            }),
    {
        let ghost dv = decls_view(declarations@);
        let mut i: usize = 0;
        while i < declarations.len()
            invariant
                i <= declarations@.len(),
                dv == decls_view(declarations@),
                dv.len() == declarations@.len(),
                cascade_s(old(self)@.style, dv, 0) == cascade_s(self@.style, dv, i as int),
                self@ == (LayoutObjectV { style: self@.style, ..old(self)@ }),
            decreases declarations@.len() - i,
        {
            let ghost prev_style = self@.style;
            let d = &declarations[i];
            proof {
                assert(dv[i as int] == declarations@[i as int]@);
            }
            if string_is(&d.property, "background-color") {
                match &d.value {
                    crate::css_token::CssToken::Ident(v) => {
                        let color = match Color::from_name(v.as_str()) {
                            Ok(color) => color,
                            Err(_) => Color::white(),
                        };
                        self.style.set_background_color(color);
                    },
                    crate::css_token::CssToken::HashToken(h) => {
                        let color = match Color::from_code(h.as_str()) {
                            Ok(color) => color,
                            Err(_) => Color::white(),
                        };
                        self.style.set_background_color(color);
                    },
                    _ => {},
                }
            } else if string_is(&d.property, "color") {
                match &d.value {
                    crate::css_token::CssToken::Ident(v) => {
                        let color = match Color::from_name(v.as_str()) {
                            Ok(color) => color,
                            Err(_) => Color::black(),
                        };
                        self.style.set_color(color);
                    },
                    crate::css_token::CssToken::HashToken(h) => {
                        let color = match Color::from_code(h.as_str()) {
                            Ok(color) => color,
                            Err(_) => Color::black(),
                        };
                        self.style.set_color(color);
                    },
                    _ => {},
                }
            } else if string_is(&d.property, "display") {
                match &d.value {
                    crate::css_token::CssToken::Ident(v) => {
                        let display_type = match DisplayType::from_str(v.as_str()) {
                            Some(display_type) => display_type,
                            None => DisplayType::DisplayNone,
                        };
                        self.style.set_display(display_type);
                    },
                    _ => {},
                }
            }
            proof {
                assert(self@.style == cascade_one(prev_style, dv[i as int]));
            }
            i = i + 1;
        }
    }

    /// Applies defaulting for the box's node under an optional parent
    /// style.
    pub fn defaulting_style(&mut self, parent_style: Option<ComputedStyle>)
        ensures
            final(self)@ == (LayoutObjectV {
                style: defaulted_style(
                    old(self)@.style,
                    old(self)@.node_kind,
                    (match parent_style {
                        Some(p) => Some(p@),
                        None => None,
                    }),
                ),
                ..old(self)@
            }),
    {
        let kind = crate::dom_node::duplicate_node_kind(&self.node_kind);
        self.style.defaulting(&kind, parent_style);
    }

    /// Fixes the box's kind from its resolved display: text nodes become
    /// text boxes, elements block or inline boxes.
    pub fn update_kind(&mut self)
        requires
            old(self)@.style.display is Some,
        ensures
            final(self)@ == (LayoutObjectV {
                kind: update_kind_s(old(self)@.node_kind, old(self)@.style.display->0),
                ..old(self)@
            }),
    {
        let is_text = match &self.node_kind {
            NodeKind::Text(_) => true,
            _ => false,
        };
        if is_text {
            self.kind = LayoutObjectKind::Text;
        } else {
            let display = self.style.display();
            match display {
                DisplayType::Inline => {
                    self.kind = LayoutObjectKind::Inline;
                },
                _ => {
                    self.kind = LayoutObjectKind::Block;
                },
            }
        }
    }

    /// Computes the box's size from its parent's size and its children's
    /// kinds and sizes.
    pub fn compute_size(
        &mut self,
        parent_size: LayoutSize,
        children: &Vec<(LayoutObjectKind, LayoutSize)>,
    )
        ensures
            final(self)@ == (LayoutObjectV {
                size: compute_size_s(
                    old(self)@.kind,
                    old(self)@.node_kind,
                    old(self)@.style,
                    parent_size,
                    children@,
                ),
                ..old(self)@
            }),
    {
        let mut size = LayoutSize::new(0, 0);
        match self.kind {
            LayoutObjectKind::Block => {
                size.set_width(parent_size.width());
                let mut height: i64 = 0;
                let mut previous_child_kind = LayoutObjectKind::Block;
                let mut i: usize = 0;
                while i < children.len()
                    invariant
                        i <= children@.len(),
                        block_height_s(children@, 0, LayoutObjectKind::Block, 0) == block_height_s(
                            children@,
                            i as int,
                            previous_child_kind,
                            height,
                        ),
                    decreases children@.len() - i,
                {
                    let (ck, cs) = children[i];
                    let add = match (previous_child_kind, ck) {
                        (LayoutObjectKind::Block, _) => true,
                        (_, LayoutObjectKind::Block) => true,
                        _ => false,
                    };
                    if add {
                        height = sat_add(height, cs.height());
                    }
                    previous_child_kind = ck;
                    i = i + 1;
                }
                size.set_height(height);
            },
            LayoutObjectKind::Inline => {
                let mut width: i64 = 0;
                let mut height: i64 = 0;
                let mut i: usize = 0;
                while i < children.len()
                    invariant
                        i <= children@.len(),
                        inline_size_s(children@, 0, LayoutSize { width: 0, height: 0 })
                            == inline_size_s(
                            children@,
                            i as int,
                            LayoutSize { width, height },
                        ),
                    decreases children@.len() - i,
                {
                    let (_, cs) = children[i];
                    width = sat_add(width, cs.width());
                    height = sat_add(height, cs.height());
                    i = i + 1;
                }
                size.set_width(width);
                size.set_height(height);
            },
            LayoutObjectKind::Text => {
                match &self.node_kind {
                    NodeKind::Text(t) => {
                        let ratio: i64 = match self.style.font_size_or_medium() {
                            FontSize::Medium => 1,
                            FontSize::XLarge => 2,
                            FontSize::XXLarge => 3,
                        };
                        let n = t.as_str().unicode_len();
                        let len_i: i64 = if n as u64 > i64::MAX as u64 {
                            i64::MAX
                        } else {
                            n as i64
                        };
                        let width = sat_mul(sat_mul(CHAR_WIDTH, ratio), len_i);
                        proof {
                            assert(CHAR_WIDTH * ratio <= 24 && CHAR_WIDTH * ratio >= 8);
                            assert(sat_i64(CHAR_WIDTH as int * ratio as int) == CHAR_WIDTH * ratio);
                            assert((CHAR_WIDTH * ratio) as int * len_i as int >= 0) by (
                                nonlinear_arith
                            )
                                requires
                                    len_i >= 0,
                                    8 <= CHAR_WIDTH * ratio <= 24,
                            ;
                            assert(width >= 0);
                        }
                        if width > CONTENT_AREA_WIDTH {
                            size.set_width(CONTENT_AREA_WIDTH);
                            proof {
                                assert(width / CONTENT_AREA_WIDTH >= 0 && width
                                    / CONTENT_AREA_WIDTH < width) by (nonlinear_arith)
                                    requires
                                        CONTENT_AREA_WIDTH < width,
                                        CONTENT_AREA_WIDTH == 590,
                                ;
                            }
                            let line_num: i64 = if width % CONTENT_AREA_WIDTH == 0 {
                                width / CONTENT_AREA_WIDTH
                            } else {
                                width / CONTENT_AREA_WIDTH + 1
                            };
                            size.set_height(
                                sat_mul(sat_mul(CHAR_HEIGHT_WITH_PADDING, ratio), line_num),
                            );
                            proof {
                                assert(sat_i64(
                                    CHAR_HEIGHT_WITH_PADDING as int * ratio as int,
                                ) == CHAR_HEIGHT_WITH_PADDING * ratio);
                            }
                        } else {
                            size.set_width(width);
                            size.set_height(sat_mul(CHAR_HEIGHT_WITH_PADDING, ratio));
                        }
                    },
                    _ => {},
                }
            },
        }
        self.size = size;
    }
}

/// Text at the base font size whose unscaled width exceeds the content
/// area by up to one more content area's worth wraps to exactly two lines:
/// the box is clamped to the content area width and its height is twice
/// the line height (the ceiling is taken at non-exact boundaries).
pub proof fn lemma_text_wraps_to_two_lines(text: Seq<char>)
    requires
        CONTENT_AREA_WIDTH < CHAR_WIDTH * text.len() <= 2 * CONTENT_AREA_WIDTH,
    ensures
        text_size_s(text, FontSize::Medium).width == CONTENT_AREA_WIDTH,
        text_size_s(text, FontSize::Medium).height == 2 * CHAR_HEIGHT_WITH_PADDING,
{
    let len = text.len() as int;
    let width = CHAR_WIDTH * len;
    assert(sat_i64(CHAR_WIDTH * 1 * len) == width);
    assert(width % CONTENT_AREA_WIDTH as int == 0 ==> width == 2 * CONTENT_AREA_WIDTH
        && width / CONTENT_AREA_WIDTH as int == 2) by (nonlinear_arith)
        requires
            CONTENT_AREA_WIDTH < width <= 2 * CONTENT_AREA_WIDTH,
            width == 8 * len,
    ;
    assert(width % CONTENT_AREA_WIDTH as int != 0 ==> width / CONTENT_AREA_WIDTH as int == 1) by (
        nonlinear_arith
    )
        requires
            CONTENT_AREA_WIDTH < width <= 2 * CONTENT_AREA_WIDTH,
    ;
}

/// Whether the element carries an attribute of the given name with the
/// given value.
fn attribute_has(e: &crate::dom_node::Element, name: &str, value: &String) -> (r: bool)
    ensures
        r == exists|i: int|
            0 <= i < e@.attributes.len() && (#[trigger] e@.attributes[i]).name == name@
                && e@.attributes[i].value == value@,
{
    let attrs = e.attributes();
    let mut i: usize = 0;
    while i < attrs.len()
        invariant
            i <= attrs@.len(),
            crate::attribute::attrs_view(attrs@) == e@.attributes,
            forall|j: int|
                0 <= j < i ==> !((#[trigger] e@.attributes[j]).name == name@
                    && e@.attributes[j].value == value@),
        decreases attrs@.len() - i,
    {
        let a = &attrs[i];
        proof {
            assert(e@.attributes[i as int] == attrs@[i as int]@);
        }
        if string_is(&a.name(), name) && crate::strutil::str_eq(
            a.value().as_str(),
            value.as_str(),
        ) {
            return true;
        }
        i = i + 1;
    }
    false
}

} // verus!
