//! Resolved style values: colors, display types and font sizes, together
//! with the per-node computed style and its cascading and defaulting
//! rules. Each property defaults from the parent's computed value where
//! that value is not itself the built-in default, or from a built-in
//! default chosen by the node's kind.

use vstd::prelude::*;
use crate::dom_node::{ElementKind, NodeKindV, NodeKind};
use crate::strutil::str_eq;

verus! {

#[derive(Debug, Clone, Copy, PartialEq, Eq, Structural)]
pub enum DisplayType {
    Block,
    Inline,
    DisplayNone,
}

/// The display type named by a style keyword: `block`, `inline` or `none`;
/// any other keyword is unknown.
pub open spec fn display_type_of(s: Seq<char>) -> Option<DisplayType> {
    if s == "block"@ {
        Some(DisplayType::Block)
    } else if s == "inline"@ {
        Some(DisplayType::Inline)
    } else if s == "none"@ {
        Some(DisplayType::DisplayNone)
    } else {
        None
    }
}

impl DisplayType {
    /// The display type named by a style keyword.
    pub fn from_str(s: &str) -> (r: Option<DisplayType>)
        ensures
            r == display_type_of(s@),
    {
        if str_eq(s, "block") {
            Some(DisplayType::Block)
        } else if str_eq(s, "inline") {
            Some(DisplayType::Inline)
        } else if str_eq(s, "none") {
            Some(DisplayType::DisplayNone)
        } else {
            None
        }
    }
}

#[derive(Debug, Clone, Copy, PartialEq, Eq, Structural)]
pub enum FontSize {
    Medium,
    XLarge,
    XXLarge,
}

/// Mathematical image of a [`Color`].
pub struct ColorV {
    pub name: Option<Seq<char>>,
    pub code: Seq<char>,
}

/// A color: an optional well-known name and a `#RRGGBB` code.
#[derive(Debug, Clone, PartialEq, Eq)]
pub struct Color {
    name: Option<String>,
    code: String,
}

impl View for Color {
    type V = ColorV;

    closed spec fn view(&self) -> ColorV {
        ColorV {
            name: match &self.name {
                Some(n) => Some(n@),
                None => None,
            },
            code: self.code@,
        }
    }
}

/// The code of a named color, for the names this model knows.
pub open spec fn code_of_name(s: Seq<char>) -> Option<Seq<char>> {
    if s == "black"@ {
        Some("#000000"@)
    } else if s == "silver"@ {
        Some("#C0C0C0"@)
    } else if s == "gray"@ {
        Some("#808080"@)
    } else if s == "white"@ {
        Some("#FFFFFF"@)
    } else if s == "maroon"@ {
        Some("#800000"@)
    } else if s == "red"@ {
        Some("#FF0000"@)
    } else if s == "purple"@ {
        Some("#800080"@)
    } else if s == "fuchsia"@ {
        Some("#FF00FF"@)
    } else if s == "green"@ {
        Some("#008000"@)
    } else if s == "lime"@ {
        Some("#00FF00"@)
    } else if s == "olive"@ {
        Some("#808000"@)
    } else if s == "yellow"@ {
        Some("#FFFF00"@)
    } else if s == "navy"@ {
        Some("#000080"@)
    } else if s == "blue"@ {
        Some("#0000FF"@)
    } else if s == "teal"@ {
        Some("#008080"@)
    } else if s == "aqua"@ {
        Some("#00FFFF"@)
    } else if s == "orange"@ {
        Some("#FFA500"@)
    } else if s == "lightgray"@ {
        Some("#D3D3D3"@)
    } else {
        None
    }
}

/// The name of a known color code, for the codes this model knows.
pub open spec fn name_of_code(s: Seq<char>) -> Option<Seq<char>> {
    if s == "#000000"@ {
        Some("black"@)
    } else if s == "#C0C0C0"@ {
        Some("silver"@)
    } else if s == "#808080"@ {
        Some("gray"@)
    } else if s == "#FFFFFF"@ {
        Some("white"@)
    } else if s == "#800000"@ {
        Some("maroon"@)
    } else if s == "#FF0000"@ {
        Some("red"@)
    } else if s == "#800080"@ {
        Some("purple"@)
    } else if s == "#FF00FF"@ {
        Some("fuchsia"@)
    } else if s == "#008000"@ {
        Some("green"@)
    } else if s == "#00FF00"@ {
        Some("lime"@)
    } else if s == "#808000"@ {
        Some("olive"@)
    } else if s == "#FFFF00"@ {
        Some("yellow"@)
    } else if s == "#000080"@ {
        Some("navy"@)
    } else if s == "#0000FF"@ {
        Some("blue"@)
    } else if s == "#008080"@ {
        Some("teal"@)
    } else if s == "#00FFFF"@ {
        Some("aqua"@)
    } else if s == "#FFA500"@ {
        Some("orange"@)
    } else if s == "#D3D3D3"@ {
        Some("lightgray"@)
    } else {
        None
    }
}

/// A hexadecimal digit.
pub open spec fn is_hex_digit(c: char) -> bool {
    ||| (48 <= c as u32 && c as u32 <= 57)
    ||| (65 <= c as u32 && c as u32 <= 70)
    ||| (97 <= c as u32 && c as u32 <= 102)
}

/// A well-formed `#RRGGBB` color code.
pub open spec fn valid_code(s: Seq<char>) -> bool {
    &&& s.len() == 7
    &&& s[0] == '#'
    &&& (forall|i: int| 1 <= i < 7 ==> is_hex_digit(#[trigger] s[i]))
}

/// The color a named color resolves to.
pub open spec fn color_of_name(s: Seq<char>) -> Option<ColorV> {
    match code_of_name(s) {
        Some(code) => Some(ColorV { name: Some(s), code }),
        None => None,
    }
}

/// The color a `#RRGGBB` code resolves to: the code itself, with a name
/// when the code is a well-known one.
pub open spec fn color_of_code(s: Seq<char>) -> Option<ColorV> {
    if valid_code(s) {
        Some(ColorV { name: name_of_code(s), code: s })
    } else {
        None
    }
}

/// The default background color.
pub open spec fn white_v() -> ColorV {
    ColorV { name: Some("white"@), code: "#FFFFFF"@ }
}

/// The default text color.
pub open spec fn black_v() -> ColorV {
    ColorV { name: Some("black"@), code: "#000000"@ }
}

impl Color {
    /// The color white.
    pub fn white() -> (r: Self)
        ensures
            r@ == white_v(),
    {
        Self { name: Some("white".to_owned()), code: "#FFFFFF".to_owned() }
    }

    /// The color black.
    pub fn black() -> (r: Self)
        ensures
            r@ == black_v(),
    {
        Self { name: Some("black".to_owned()), code: "#000000".to_owned() }
    }

    /// The color named by a keyword; an unknown name is rejected and handed
    /// back.
    pub fn from_name(name: &str) -> (r: Result<Self, String>)
        ensures
            (match color_of_name(name@) {
                Some(c) => r is Ok && r->Ok_0@ == c,
                None => r is Err && r->Err_0@ == name@,
            }),
    {
        let code: &str = if str_eq(name, "black") {
            "#000000"
        } else if str_eq(name, "silver") {
            "#C0C0C0"
        } else if str_eq(name, "gray") {
            "#808080"
        } else if str_eq(name, "white") {
            "#FFFFFF"
        } else if str_eq(name, "maroon") {
            "#800000"
        } else if str_eq(name, "red") {
            "#FF0000"
        } else if str_eq(name, "purple") {
            "#800080"
        } else if str_eq(name, "fuchsia") {
            "#FF00FF"
        } else if str_eq(name, "green") {
            "#008000"
        } else if str_eq(name, "lime") {
            "#00FF00"
        } else if str_eq(name, "olive") {
            "#808000"
        } else if str_eq(name, "yellow") {
            "#FFFF00"
        } else if str_eq(name, "navy") {
            "#000080"
        } else if str_eq(name, "blue") {
            "#0000FF"
        } else if str_eq(name, "teal") {
            "#008080"
        } else if str_eq(name, "aqua") {
            "#00FFFF"
        } else if str_eq(name, "orange") {
            "#FFA500"
        } else if str_eq(name, "lightgray") {
            "#D3D3D3"
        } else {
            return Err(name.to_owned());
        };
        Ok(Self { name: Some(name.to_owned()), code: code.to_owned() })
    }

    /// The color written as a `#RRGGBB` code; anything else is rejected and
    /// handed back.
    pub fn from_code(code: &str) -> (r: Result<Self, String>)
        ensures
            (match color_of_code(code@) {
                Some(c) => r is Ok && r->Ok_0@ == c,
                None => r is Err && r->Err_0@ == code@,
            }),
    {
        let n = code.unicode_len();
        if n != 7 {
            return Err(code.to_owned());
        }
        if code.get_char(0) != '#' {
            return Err(code.to_owned());
        }
        let mut i: usize = 1;
        while i < 7
            invariant
                1 <= i <= 7,
                code@.len() == 7,
                forall|j: int| 1 <= j < i ==> is_hex_digit(#[trigger] code@[j]),
            decreases 7 - i,
        {
            let c = code.get_char(i);
            let u = c as u32;
            let hex = (48 <= u && u <= 57) || (65 <= u && u <= 70) || (97 <= u && u <= 102);
            if !hex {
                return Err(code.to_owned());
            }
            i = i + 1;
        }
        let name: Option<String> = if str_eq(code, "#000000") {
            Some("black".to_owned())
        } else if str_eq(code, "#C0C0C0") {
            Some("silver".to_owned())
        } else if str_eq(code, "#808080") {
            Some("gray".to_owned())
        } else if str_eq(code, "#FFFFFF") {
            Some("white".to_owned())
        } else if str_eq(code, "#800000") {
            Some("maroon".to_owned())
        } else if str_eq(code, "#FF0000") {
            Some("red".to_owned())
        } else if str_eq(code, "#800080") {
            Some("purple".to_owned())
        } else if str_eq(code, "#FF00FF") {
            Some("fuchsia".to_owned())
        } else if str_eq(code, "#008000") {
            Some("green".to_owned())
        } else if str_eq(code, "#00FF00") {
            Some("lime".to_owned())
        } else if str_eq(code, "#808000") {
            Some("olive".to_owned())
        } else if str_eq(code, "#FFFF00") {
            Some("yellow".to_owned())
        } else if str_eq(code, "#000080") {
            Some("navy".to_owned())
        } else if str_eq(code, "#0000FF") {
            Some("blue".to_owned())
        } else if str_eq(code, "#008080") {
            Some("teal".to_owned())
        } else if str_eq(code, "#00FFFF") {
            Some("aqua".to_owned())
        } else if str_eq(code, "#FFA500") {
            Some("orange".to_owned())
        } else if str_eq(code, "#D3D3D3") {
            Some("lightgray".to_owned())
        } else {
            None
        };
        Ok(Self { name, code: code.to_owned() })
    }

    /// The color's name, if it has a well-known one.
    pub fn name(&self) -> (r: Option<String>)
        ensures
            (match (&r, self@.name) {
                (Some(a), Some(b)) => a@ == b,
                (None, None) => true,
                _ => false,
            }),
    {
        match &self.name {
            Some(n) => Some(n.clone()),
            None => None,
        }
    }

    /// The color's `#RRGGBB` code.
    pub fn code(&self) -> (r: String)
        ensures
            r@ == self@.code,
    {
        self.code.clone()
    }

    /// A copy of this color, with its image pinned in the contract.
    pub fn duplicate(&self) -> (r: Self)
        ensures
            r@ == self@,
    {
        Self {
            name: match &self.name {
                Some(n) => Some(n.clone()),
                None => None,
            },
            code: self.code.clone(),
        }
    }

    /// Whether two colors are the same name and code.
    pub fn same_as(&self, other: &Color) -> (r: bool)
        ensures
            r == (self@ == other@),
    {
        let names_eq = match (&self.name, &other.name) {
            (Some(a), Some(b)) => str_eq(a.as_str(), b.as_str()),
            (None, None) => true,
            _ => false,
        };
        names_eq && str_eq(self.code.as_str(), other.code.as_str())
    }
}

/// Mathematical image of a [`ComputedStyle`].
pub struct StyleV {
    pub background_color: Option<ColorV>,
    pub color: Option<ColorV>,
    pub display: Option<DisplayType>,
    pub font_size: Option<FontSize>,
}

/// The style computed for one layout node; each property starts unset and
/// is filled by cascading and then by defaulting.
#[derive(Debug, Clone, PartialEq)]
pub struct ComputedStyle {
    background_color: Option<Color>,
    color: Option<Color>,
    display: Option<DisplayType>,
    font_size: Option<FontSize>,
}

impl View for ComputedStyle {
    type V = StyleV;

    closed spec fn view(&self) -> StyleV {
        StyleV {
            background_color: match &self.background_color {
                Some(c) => Some(c@),
                None => None,
            },
            color: match &self.color {
                Some(c) => Some(c@),
                None => None,
            },
            display: self.display,
            font_size: self.font_size,
        }
    }
}

/// Every property resolved (the state after defaulting).
pub open spec fn style_resolved(s: StyleV) -> bool {
    s.background_color is Some && s.color is Some && s.display is Some && s.font_size is Some
}

/// The built-in display of a node: block for the document and for block
/// elements (`body`, `p`, `h1`, `h2`), inline for other elements and for
/// text.
pub open spec fn default_display(kind: NodeKindV) -> DisplayType {
    match kind {
        NodeKindV::Document => DisplayType::Block,
        NodeKindV::Element(e) => match e.kind {
            ElementKind::Body | ElementKind::P | ElementKind::H1 | ElementKind::H2
                => DisplayType::Block,
            _ => DisplayType::Inline,
        },
        NodeKindV::Text(_) => DisplayType::Inline,
    }
}

/// The built-in font size of a node: headings are scaled up.
pub open spec fn default_font_size(kind: NodeKindV) -> FontSize {
    match kind {
        NodeKindV::Element(e) => match e.kind {
            ElementKind::H1 => FontSize::XXLarge,
            ElementKind::H2 => FontSize::XLarge,
            _ => FontSize::Medium,
        },
        _ => FontSize::Medium,
    }
}

/// The style after defaulting: an unset color or font size inherits the
/// parent's value when that value is not itself the built-in default;
/// whatever stays unset takes the built-in default for the node's kind.
/// Display does not inherit: unset display takes the node's built-in
/// display.
pub open spec fn defaulted_style(s: StyleV, kind: NodeKindV, parent: Option<StyleV>) -> StyleV {
    let bg = if s.background_color is Some {
        s.background_color
    } else if parent is Some && parent->0.background_color is Some
        && parent->0.background_color->0 != white_v() {
        parent->0.background_color
    } else {
        Some(white_v())
    };
    let col = if s.color is Some {
        s.color
    } else if parent is Some && parent->0.color is Some && parent->0.color->0 != black_v() {
        parent->0.color
    } else {
        Some(black_v())
    };
    let fs = if s.font_size is Some {
        s.font_size
    } else if parent is Some && parent->0.font_size is Some && parent->0.font_size->0
        != FontSize::Medium {
        parent->0.font_size
    } else {
        Some(default_font_size(kind))
    };
    let d = if s.display is Some {
        s.display
    } else {
        Some(default_display(kind))
    };
    StyleV { background_color: bg, color: col, display: d, font_size: fs }
}

impl ComputedStyle {
    /// A style with every property unset.
    pub fn new() -> (s: Self)
        ensures
            s@ == (StyleV { background_color: None, color: None, display: None, font_size: None }),
    {
        Self { background_color: None, color: None, display: None, font_size: None }
    }

    pub fn set_background_color(&mut self, color: Color)
        ensures
            final(self)@ == (StyleV { background_color: Some(color@), ..old(self)@ }),
    {
        self.background_color = Some(color);
    }

    /// The resolved background color.
    pub fn background_color(&self) -> (r: Color)
        requires
            self@.background_color is Some,
        ensures
            r@ == self@.background_color->0,
    {
        match &self.background_color {
            Some(c) => c.duplicate(),
            None => Color::white(),
        }
    }

    pub fn set_color(&mut self, color: Color)
        ensures
            final(self)@ == (StyleV { color: Some(color@), ..old(self)@ }),
    {
        self.color = Some(color);
    }

    /// The resolved text color.
    pub fn color(&self) -> (r: Color)
        requires
            self@.color is Some,
        ensures
            r@ == self@.color->0,
    {
        match &self.color {
            Some(c) => c.duplicate(),
            None => Color::black(),
        }
    }

    pub fn set_display(&mut self, display: DisplayType)
        ensures
            final(self)@ == (StyleV { display: Some(display), ..old(self)@ }),
    {
        self.display = Some(display);
    }

    /// The resolved display type.
    pub fn display(&self) -> (r: DisplayType)
        requires
            self@.display is Some,
        ensures
            r == self@.display->0,
    {
        match self.display {
            Some(d) => d,
            None => DisplayType::Block,
        }
    }

    pub fn set_font_size(&mut self, font_size: FontSize)
        ensures
            final(self)@ == (StyleV { font_size: Some(font_size), ..old(self)@ }),
    {
        self.font_size = Some(font_size);
    }

    /// The resolved font size.
    pub fn font_size(&self) -> (r: FontSize)
        requires
            self@.font_size is Some,
        ensures
            r == self@.font_size->0,
    {
        match self.font_size {
            Some(f) => f,
            None => FontSize::Medium,
        }
    }

    /// The resolved font size, or the base size while it is unset.
    pub fn font_size_or_medium(&self) -> (r: FontSize)
        ensures
            r == (match self@.font_size {
                Some(f) => f,
                None => FontSize::Medium,
            }),
    {
        match self.font_size {
            Some(f) => f,
            None => FontSize::Medium,
        }
    }

    /// A copy of this style, with its image pinned in the contract.
    pub fn duplicate(&self) -> (r: Self)
        ensures
            r@ == self@,
    {
        Self {
            background_color: match &self.background_color {
                Some(c) => Some(c.duplicate()),
                None => None,
            },
            color: match &self.color {
                Some(c) => Some(c.duplicate()),
                None => None,
            },
            display: self.display,
            font_size: self.font_size,
        }
    }

    /// Applies defaulting for a node of the given kind under an optional
    /// parent style.
    pub fn defaulting(&mut self, kind: &NodeKind, parent_style: Option<ComputedStyle>)
        ensures
            final(self)@ == defaulted_style(
                old(self)@,
                kind@,
                (match parent_style {
                    Some(p) => Some(p@),
                    None => None,
                }),
            ),
    {
        match &parent_style {
            Some(p) => {
                if self.background_color.is_none() {
                    match &p.background_color {
                        Some(pc) => {
                            if !pc.same_as(&Color::white()) {
                                self.background_color = Some(pc.duplicate());
                            }
                        },
                        None => {},
                    }
                }
                if self.color.is_none() {
                    match &p.color {
                        Some(pc) => {
                            if !pc.same_as(&Color::black()) {
                                self.color = Some(pc.duplicate());
                            }
                        },
                        None => {},
                    }
                }
                if self.font_size.is_none() {
                    match p.font_size {
                        Some(pf) => {
                            if pf != FontSize::Medium {
                                self.font_size = Some(pf);
                            }
                        },
                        None => {},
                    }
                }
            },
            None => {},
        }
        if self.background_color.is_none() {
            self.background_color = Some(Color::white());
        }
        if self.color.is_none() {
            self.color = Some(Color::black());
        }
        if self.font_size.is_none() {
            self.font_size = Some(default_font_size_of(kind));
        }
        if self.display.is_none() {
            self.display = Some(default_display_of(kind));
        }
    }
}

/// The built-in display of a node of the given kind.
pub fn default_display_of(kind: &NodeKind) -> (r: DisplayType)
    ensures
        r == default_display(kind@),
{
    match kind {
        NodeKind::Document => DisplayType::Block,
        NodeKind::Element(e) => {
            match e.kind() {
                ElementKind::Body | ElementKind::P | ElementKind::H1 | ElementKind::H2
                    => DisplayType::Block,
                _ => DisplayType::Inline,
            }
        },
        NodeKind::Text(_) => DisplayType::Inline,
    }
}

/// The built-in font size of a node of the given kind.
pub fn default_font_size_of(kind: &NodeKind) -> (r: FontSize)
    ensures
        r == default_font_size(kind@),
{
    match kind {
        NodeKind::Element(e) => {
            match e.kind() {
                ElementKind::H1 => FontSize::XXLarge,
                ElementKind::H2 => FontSize::XLarge,
                _ => FontSize::Medium,
            }
        },
        _ => FontSize::Medium,
    }
}

} // verus!
