//! The style rule parser: consumes the stylesheet token sequence into an
//! ordered set of qualified rules (selector plus declaration list).
//! At-rules are recognized and discarded; malformed declarations and
//! selectors are dropped and parsing continues.

use vstd::prelude::*;
use crate::css_token::{css_next_s, CssToken, CssTokenV, CssTokenizer, CssTokV};

verus! {

#[derive(Debug, Clone, PartialEq, Eq)]
pub enum Selector {
    TypeSelector(String),
    ClassSelector(String),
    IdSelector(String),
    UnknownSelector,
}

/// Mathematical image of a [`Selector`].
pub enum SelectorV {
    TypeSelector(Seq<char>),
    ClassSelector(Seq<char>),
    IdSelector(Seq<char>),
    UnknownSelector,
}

impl View for Selector {
    type V = SelectorV;

    open spec fn view(&self) -> SelectorV {
        match self {
            Selector::TypeSelector(s) => SelectorV::TypeSelector(s@),
            Selector::ClassSelector(s) => SelectorV::ClassSelector(s@),
            Selector::IdSelector(s) => SelectorV::IdSelector(s@),
            Selector::UnknownSelector => SelectorV::UnknownSelector,
        }
    }
}

/// The value of a declaration: any style token.
pub type ComponentValue = CssToken;

#[derive(Debug, Clone, PartialEq)]
pub struct Declaration {
    pub property: String,
    pub value: ComponentValue,
}

/// Mathematical image of a [`Declaration`].
pub struct DeclarationV {
    pub property: Seq<char>,
    pub value: CssTokenV,
}

impl View for Declaration {
    type V = DeclarationV;

    open spec fn view(&self) -> DeclarationV {
        DeclarationV { property: self.property@, value: self.value@ }
    }
}

impl Declaration {
    /// A declaration with an empty property and an empty identifier value.
    pub fn new() -> (d: Self)
        ensures
            d@.property == Seq::<char>::empty(),
            d@.value == CssTokenV::Ident(Seq::<char>::empty()),
    {
        Self { property: String::new(), value: CssToken::Ident(String::new()) }
    }

    pub fn set_property(&mut self, property: String)
        ensures
            final(self)@ == (DeclarationV { property: property@, ..old(self)@ }),
    {
        self.property = property;
    }

    pub fn set_value(&mut self, value: ComponentValue)
        ensures
            final(self)@ == (DeclarationV { value: value@, ..old(self)@ }),
    {
        self.value = value;
    }
}

#[derive(Debug, Clone, PartialEq)]
pub struct QualifiedRule {
    pub selector: Selector,
    pub declarations: Vec<Declaration>,
}

/// Mathematical image of a [`QualifiedRule`].
pub struct QualifiedRuleV {
    pub selector: SelectorV,
    pub declarations: Seq<DeclarationV>,
}

/// The image of a sequence of declarations.
pub open spec fn decls_view(v: Seq<Declaration>) -> Seq<DeclarationV> {
    v.map(|i: int, d: Declaration| d@)
}

impl View for QualifiedRule {
    type V = QualifiedRuleV;

    open spec fn view(&self) -> QualifiedRuleV {
        QualifiedRuleV { selector: self.selector@, declarations: decls_view(self.declarations@) }
    }
}

impl QualifiedRule {
    /// A rule with the fallback selector and no declarations.
    pub fn new() -> (r: Self)
        ensures
            r@.selector == SelectorV::UnknownSelector,
            r@.declarations == Seq::<DeclarationV>::empty(),
    {
        let r = Self { selector: Selector::UnknownSelector, declarations: Vec::new() };
        proof {
            assert(decls_view(r.declarations@) =~= Seq::<DeclarationV>::empty());
        }
        r
    }

    pub fn set_selector(&mut self, selector: Selector)
        ensures
            final(self)@ == (QualifiedRuleV { selector: selector@, ..old(self)@ }),
    {
        self.selector = selector;
    }

    pub fn set_declarations(&mut self, declarations: Vec<Declaration>)
        ensures
            final(self)@ == (QualifiedRuleV {
                declarations: decls_view(declarations@),
                ..old(self)@
            }),
    {
        self.declarations = declarations;
    }
}

#[derive(Debug, Clone, PartialEq)]
pub struct StyleSheet {
    pub rules: Vec<QualifiedRule>,
}

/// The image of a sequence of rules.
pub open spec fn rules_view(v: Seq<QualifiedRule>) -> Seq<QualifiedRuleV> {
    v.map(|i: int, r: QualifiedRule| r@)
}

impl View for StyleSheet {
    type V = Seq<QualifiedRuleV>;

    open spec fn view(&self) -> Seq<QualifiedRuleV> {
        rules_view(self.rules@)
    }
}

impl StyleSheet {
    /// An empty rule set.
    pub fn new() -> (s: Self)
        ensures
            s@ == Seq::<QualifiedRuleV>::empty(),
    {
        let s = Self { rules: Vec::new() };
        proof {
            assert(rules_view(s.rules@) =~= Seq::<QualifiedRuleV>::empty());
        }
        s
    }

    pub fn set_rules(&mut self, rules: Vec<QualifiedRule>)
        ensures
            final(self)@ == rules_view(rules@),
    {
        self.rules = rules;
    }
}

/// The whole token stream that a stylesheet tokenizer will yield.
pub open spec fn css_tokens_s(m: CssTokV) -> Seq<CssTokenV>
    decreases m.input.len() - m.pos,
    when 0 <= m.pos <= m.input.len()
    via css_tokens_s_dec
{
    let r = css_next_s(m);
    match r.1 {
        None => Seq::<CssTokenV>::empty(),
        Some(t) => seq![t] + css_tokens_s(r.0),
    }
}

#[via_fn]
proof fn css_tokens_s_dec(m: CssTokV) {
    if 0 <= m.pos && m.pos <= m.input.len() {
        crate::css_token::lemma_css_next_advances(m);
    }
}

/// One token read, `None` when the stream is exhausted; the position moves
/// past the token either way (mirroring a reader that consumes its input).
pub open spec fn next_token_s(toks: Seq<CssTokenV>, i: int) -> (Option<CssTokenV>, int) {
    if i >= toks.len() {
        (None, i)
    } else {
        (Some(toks[i]), i + 1)
    }
}

/// An identifier read from the stream; any other token is consumed and
/// yields nothing.
pub open spec fn consume_ident_s(toks: Seq<CssTokenV>, i: int) -> (Option<Seq<char>>, int) {
    if i >= toks.len() {
        (None, i)
    } else {
        match toks[i] {
            CssTokenV::Ident(s) => (Some(s), i + 1),
            _ => (None, i + 1),
        }
    }
}

/// The position of the next open brace at or after `i`, or the end of the
/// stream.
pub open spec fn skip_to_open_curly_s(toks: Seq<CssTokenV>, i: int) -> int
    decreases toks.len() - i,
    when 0 <= i
{
    if i >= toks.len() {
        i
    } else if toks[i] is OpenCurly {
        i
    } else {
        skip_to_open_curly_s(toks, i + 1)
    }
}

/// The selector read at `i` (which must be inside the stream): a hash token
/// names an id selector, a period a class selector, an identifier a type
/// selector (skipping a pseudo-class suffix up to the declaration block),
/// an at-keyword an unknown selector skipping to the block; any other token
/// is consumed together with one more token and yields the unknown selector.
/// The name of an id selector: the hash token's text without its leading
/// marker.
pub open spec fn hash_name_s(v: Seq<char>) -> Seq<char> {
    if v.len() >= 1 {
        v.subrange(1, v.len() as int)
    } else {
        v
    }
}

pub open spec fn consume_selector_s(toks: Seq<CssTokenV>, i: int) -> (SelectorV, int) {
    match toks[i] {
        CssTokenV::HashToken(v) => (SelectorV::IdSelector(hash_name_s(v)), i + 1),
        CssTokenV::Delim(d) => {
            if d == '.' {
                let r = consume_ident_s(toks, i + 1);
                match r.0 {
                    Some(name) => (SelectorV::ClassSelector(name), r.1),
                    None => (SelectorV::UnknownSelector, r.1),
                }
            } else {
                let r = next_token_s(toks, i + 1);
                (SelectorV::UnknownSelector, r.1)
            }
        },
        CssTokenV::Ident(name) => {
            if i + 1 < toks.len() && toks[i + 1] is Colon {
                (SelectorV::TypeSelector(name), skip_to_open_curly_s(toks, i + 1))
            } else {
                (SelectorV::TypeSelector(name), i + 1)
            }
        },
        CssTokenV::AtKeyword(_) => (SelectorV::UnknownSelector, skip_to_open_curly_s(toks, i + 1)),
        _ => {
            let r = next_token_s(toks, i + 1);
            (SelectorV::UnknownSelector, r.1)
        },
    }
}

/// The declaration read at `i`: `identifier : value`. A missing colon or a
/// missing value yields nothing, and the offending token is consumed.
pub open spec fn consume_declaration_s(toks: Seq<CssTokenV>, i: int) -> (
    Option<DeclarationV>,
    int,
) {
    if i >= toks.len() {
        (None, i)
    } else {
        let prop = consume_ident_s(toks, i);
        match prop.0 {
            None => (None, prop.1),
            Some(p) => {
                let colon = next_token_s(toks, prop.1);
                match colon.0 {
                    Some(CssTokenV::Colon) => {
                        let value = next_token_s(toks, colon.1);
                        match value.0 {
                            Some(v) => (
                                Some(DeclarationV { property: p, value: v }),
                                value.1,
                            ),
                            None => (None, value.1),
                        }
                    },
                    _ => (None, colon.1),
                }
            },
        }
    }
}

/// The declaration list read at `i`, up to and including the closing brace
/// (or the end of the stream). Semicolons separate declarations; tokens
/// that fit no declaration are consumed and dropped.
pub open spec fn consume_list_of_declarations_s(toks: Seq<CssTokenV>, i: int) -> (
    Seq<DeclarationV>,
    int,
)
    decreases toks.len() - i,
    when 0 <= i
{
    if i >= toks.len() {
        (Seq::<DeclarationV>::empty(), i)
    } else {
        match toks[i] {
            CssTokenV::CloseCurly => (Seq::<DeclarationV>::empty(), i + 1),
            CssTokenV::SemiColon => consume_list_of_declarations_s(toks, i + 1),
            CssTokenV::Ident(_) => {
                let d = consume_declaration_s(toks, i);
                proof {
                    lemma_declaration_advances(toks, i);
                }
                let rest = consume_list_of_declarations_s(toks, d.1);
                match d.0 {
                    Some(decl) => (seq![decl] + rest.0, rest.1),
                    None => rest,
                }
            },
            _ => consume_list_of_declarations_s(toks, i + 1),
        }
    }
}

/// The qualified rule read at `i` with the selector found so far: tokens
/// refine the selector until an open brace begins the declaration block;
/// running out of tokens yields no rule.
pub open spec fn consume_qualified_rule_s(toks: Seq<CssTokenV>, i: int, sel: SelectorV) -> (
    Option<QualifiedRuleV>,
    int,
)
    decreases toks.len() - i,
    when 0 <= i
{
    if i >= toks.len() {
        (None, i)
    } else if toks[i] is OpenCurly {
        let d = consume_list_of_declarations_s(toks, i + 1);
        (Some(QualifiedRuleV { selector: sel, declarations: d.0 }), d.1)
    } else {
        let s = consume_selector_s(toks, i);
        proof {
            lemma_selector_advances(toks, i);
        }
        consume_qualified_rule_s(toks, s.1, s.0)
    }
}

/// The rule list read at `i`: at-keyword rules are parsed and discarded;
/// a rule that cannot be completed ends the list.
pub open spec fn consume_list_of_rules_s(toks: Seq<CssTokenV>, i: int) -> Seq<QualifiedRuleV>
    decreases toks.len() - i,
    when 0 <= i
{
    if i >= toks.len() {
        Seq::<QualifiedRuleV>::empty()
    } else if toks[i] is AtKeyword {
        let r = consume_qualified_rule_s(toks, i, SelectorV::UnknownSelector);
        proof {
            lemma_qualified_rule_advances(toks, i, SelectorV::UnknownSelector);
        }
        consume_list_of_rules_s(toks, r.1)
    } else {
        let r = consume_qualified_rule_s(toks, i, SelectorV::UnknownSelector);
        proof {
            lemma_qualified_rule_advances(toks, i, SelectorV::UnknownSelector);
        }
        match r.0 {
            Some(rule) => seq![rule] + consume_list_of_rules_s(toks, r.1),
            None => Seq::<QualifiedRuleV>::empty(),
        }
    }
}

/// The rule set that parsing the given stylesheet text yields.
pub open spec fn stylesheet_of(input: Seq<char>) -> Seq<QualifiedRuleV> {
    consume_list_of_rules_s(css_tokens_s(CssTokV { pos: 0, input }), 0)
}

pub proof fn lemma_skip_bounds(toks: Seq<CssTokenV>, i: int)
    requires
        0 <= i <= toks.len(),
    ensures
        i <= skip_to_open_curly_s(toks, i) <= toks.len(),
    decreases toks.len() - i,
{
    if i >= toks.len() {
    } else if toks[i] is OpenCurly {
    } else {
        lemma_skip_bounds(toks, i + 1);
    }
}

pub proof fn lemma_selector_advances(toks: Seq<CssTokenV>, i: int)
    requires
        0 <= i < toks.len(),
    ensures
        i < consume_selector_s(toks, i).1 <= toks.len(),
{
    match toks[i] {
        CssTokenV::Ident(_) => {
            if i + 1 < toks.len() && toks[i + 1] is Colon {
                lemma_skip_bounds(toks, i + 1);
            }
        },
        CssTokenV::AtKeyword(_) => {
            lemma_skip_bounds(toks, i + 1);
        },
        _ => {},
    }
}

pub proof fn lemma_declaration_advances(toks: Seq<CssTokenV>, i: int)
    requires
        0 <= i < toks.len(),
    ensures
        i < consume_declaration_s(toks, i).1 <= toks.len(),
{
}

pub proof fn lemma_qualified_rule_advances(toks: Seq<CssTokenV>, i: int, sel: SelectorV)
    requires
        0 <= i < toks.len(),
    ensures
        i < consume_qualified_rule_s(toks, i, sel).1 <= toks.len(),
    decreases toks.len() - i,
{
    let r = consume_qualified_rule_s(toks, i, sel);
    if toks[i] is OpenCurly {
        lemma_declaration_list_bounds(toks, i + 1);
    } else {
        let s = consume_selector_s(toks, i);
        lemma_selector_advances(toks, i);
        if s.1 < toks.len() {
            lemma_qualified_rule_advances(toks, s.1, s.0);
        } else {
            assert(consume_qualified_rule_s(toks, s.1, s.0) == (
                None::<QualifiedRuleV>,
                s.1,
            ));
        }
    }
}

pub proof fn lemma_declaration_list_bounds(toks: Seq<CssTokenV>, i: int)
    requires
        0 <= i <= toks.len(),
    ensures
        i <= consume_list_of_declarations_s(toks, i).1 <= toks.len(),
    decreases toks.len() - i,
{
    if i >= toks.len() {
    } else {
        match toks[i] {
            CssTokenV::CloseCurly => {},
            CssTokenV::SemiColon => {
                lemma_declaration_list_bounds(toks, i + 1);
            },
            CssTokenV::Ident(_) => {
                let d = consume_declaration_s(toks, i);
                lemma_declaration_advances(toks, i);
                lemma_declaration_list_bounds(toks, d.1);
            },
            _ => {
                lemma_declaration_list_bounds(toks, i + 1);
            },
        }
    }
}

/// Parsing is a function of the stylesheet text alone: the same text gives
/// the same rule set on every run.
pub proof fn lemma_stylesheet_deterministic(a: Seq<char>, b: Seq<char>)
    requires
        a == b,
    ensures
        stylesheet_of(a) == stylesheet_of(b),
{
}

/// The image of a vector of style tokens.
pub open spec fn css_tokens_view(v: Seq<CssToken>) -> Seq<CssTokenV> {
    v.map(|i: int, t: CssToken| t@)
}

/// The style rule parser: reads the whole token stream of a stylesheet
/// tokenizer up front and then consumes it into qualified rules.
#[derive(Debug, Clone, PartialEq)]
pub struct CssParser {
    tokens: Vec<CssToken>,
    pos: usize,
}

/// Mathematical image of a [`CssParser`].
pub struct CssParserV {
    pub tokens: Seq<CssTokenV>,
    pub pos: int,
}

impl View for CssParser {
    type V = CssParserV;

    closed spec fn view(&self) -> CssParserV {
        CssParserV { tokens: css_tokens_view(self.tokens@), pos: self.pos as int }
    }
}

impl CssParser {
    /// A parser over the token stream of the given tokenizer.
    pub fn new(t: CssTokenizer) -> (p: Self)
        requires
            t@.pos == 0,
        ensures
            p@.tokens == css_tokens_s(t@),
            p@.pos == 0,
    {
        let ghost init = t@;
        let mut tk = t.duplicate();
        let mut tokens: Vec<CssToken> = Vec::new();
        proof {
            assert(css_tokens_view(tokens@) =~= Seq::<CssTokenV>::empty());
            assert(Seq::<CssTokenV>::empty() + css_tokens_s(init) =~= css_tokens_s(init));
        }
        loop
            invariant
                init == t@,
                0 <= init.pos <= init.input.len(),
                0 <= tk@.pos <= tk@.input.len(),
                tk@.input == init.input,
                css_tokens_s(init) == css_tokens_view(tokens@) + css_tokens_s(tk@),
            decreases tk@.input.len() - tk@.pos,
        {
            let ghost pre = tk@;
            let r = tk.next();
            match r {
                Some(tok) => {
                    tokens.push(tok);
                    proof {
                        assert(css_tokens_s(pre) == seq![tok@] + css_tokens_s(tk@));
                        assert(css_tokens_view(tokens@) =~= css_tokens_view(
                            tokens@.drop_last(),
                        ) + seq![tok@]);
                        assert(css_tokens_view(tokens@.drop_last()) + (seq![tok@] + css_tokens_s(
                            tk@,
                        )) =~= (css_tokens_view(tokens@.drop_last()) + seq![tok@]) + css_tokens_s(
                            tk@,
                        ));
                    }
                },
                None => {
                    proof {
                        assert(css_tokens_s(pre) =~= Seq::<CssTokenV>::empty());
                        assert(css_tokens_s(init) == css_tokens_view(tokens@) + css_tokens_s(pre));
                        assert(css_tokens_view(tokens@) + Seq::<CssTokenV>::empty()
                            =~= css_tokens_view(tokens@));
                        assert(css_tokens_s(init) == css_tokens_view(tokens@));
                    }
                    let p = Self { tokens, pos: 0 };
                    return p;
                },
            }
        }
    }

    /// Parses the whole stylesheet: the ordered list of qualified rules.
    pub fn parse_stylesheet(&mut self) -> (sheet: StyleSheet)
        requires
            old(self)@.pos == 0,
        ensures
            sheet@ == consume_list_of_rules_s(old(self)@.tokens, 0),
            final(self)@.tokens == old(self)@.tokens,
    {
        let mut sheet = StyleSheet::new();
        let rules = self.consume_list_of_rules();
        sheet.set_rules(rules);
        sheet
    }

    /// One token read, the cursor moving past it.
    fn next_token(&mut self) -> (r: Option<CssToken>)
        requires
            0 <= old(self)@.pos,
        ensures
            final(self)@.tokens == old(self)@.tokens,
            ({
                let s = next_token_s(old(self)@.tokens, old(self)@.pos);
                &&& final(self)@.pos == s.1
                &&& (match r {
                    Some(t) => s.0 == Some(t@),
                    None => s.0 is None,
                })
            }),
    {
        if self.pos >= self.tokens.len() {
            None
        } else {
            let t = duplicate_css_token(&self.tokens[self.pos]);
            proof {
                assert(css_tokens_view(self.tokens@)[self.pos as int] == self.tokens@[
                    self.pos as int
                ]@);
            }
            self.pos = self.pos + 1;
            Some(t)
        }
    }

    /// Whether the cursor stands on a token, without consuming it; yields
    /// its index for contracts.
    fn has_token(&self) -> (r: bool)
        ensures
            r == (self@.pos < self@.tokens.len()),
    {
        self.pos < self.tokens.len()
    }

    fn consume_ident(&mut self) -> (r: Option<String>)
        requires
            0 <= old(self)@.pos,
        ensures
            final(self)@.tokens == old(self)@.tokens,
            ({
                let s = consume_ident_s(old(self)@.tokens, old(self)@.pos);
                &&& final(self)@.pos == s.1
                &&& (match r {
                    Some(t) => s.0 == Some(t@),
                    None => s.0 is None,
                })
            }),
    {
        let t = self.next_token();
        match t {
            Some(CssToken::Ident(s)) => Some(s),
            _ => None,
        }
    }

    fn consume_component_value(&mut self) -> (r: Option<ComponentValue>)
        requires
            0 <= old(self)@.pos,
        ensures
            final(self)@.tokens == old(self)@.tokens,
            ({
                let s = next_token_s(old(self)@.tokens, old(self)@.pos);
                &&& final(self)@.pos == s.1
                &&& (match r {
                    Some(t) => s.0 == Some(t@),
                    None => s.0 is None,
                })
            }),
    {
        self.next_token()
    }

    fn consume_selector(&mut self) -> (r: Selector)
        requires
            0 <= old(self)@.pos < old(self)@.tokens.len(),
        ensures
            final(self)@.tokens == old(self)@.tokens,
            (r@, final(self)@.pos) == consume_selector_s(old(self)@.tokens, old(self)@.pos),
    {
        let ghost toks = self@.tokens;
        let ghost i = self@.pos;
        let t = self.next_token();
        // The caller guarantees a token stands at the cursor.
        let t = match t {
            Some(t) => t,
            None => {
                proof {
                    assert(false);
                }
                CssToken::Colon
            },
        };
        match t {
            CssToken::HashToken(v) => {
                let name = hash_name(&v);
                Selector::IdSelector(name)
            },
            CssToken::Delim(d) => {
                if d == '.' {
                    let id = self.consume_ident();
                    match id {
                        Some(name) => Selector::ClassSelector(name),
                        None => Selector::UnknownSelector,
                    }
                } else {
                    let _ = self.next_token();
                    Selector::UnknownSelector
                }
            },
            CssToken::Ident(name) => {
                let colon_follows = if self.has_token() {
                    match &self.tokens[self.pos] {
                        CssToken::Colon => true,
                        _ => false,
                    }
                } else {
                    false
                };
                proof {
                    assert(colon_follows == (i + 1 < toks.len() && toks[i + 1] is Colon));
                }
                if colon_follows {
                    self.skip_to_open_curly();
                }
                Selector::TypeSelector(name)
            },
            CssToken::AtKeyword(_) => {
                self.skip_to_open_curly();
                Selector::UnknownSelector
            },
            _ => {
                let _ = self.next_token();
                Selector::UnknownSelector
            },
        }
    }

    /// Advances the cursor to the next open brace, or to the end of the
    /// stream.
    fn skip_to_open_curly(&mut self)
        requires
            0 <= old(self)@.pos,
        ensures
            final(self)@.tokens == old(self)@.tokens,
            final(self)@.pos == skip_to_open_curly_s(old(self)@.tokens, old(self)@.pos),
    {
        loop
            invariant
                0 <= self@.pos,
                self@.tokens == old(self)@.tokens,
                skip_to_open_curly_s(self@.tokens, old(self)@.pos) == skip_to_open_curly_s(
                    self@.tokens,
                    self@.pos,
                ),
            decreases self@.tokens.len() - self@.pos,
        {
            if self.pos >= self.tokens.len() {
                return ;
            }
            let is_curly = match &self.tokens[self.pos] {
                CssToken::OpenCurly => true,
                _ => false,
            };
            proof {
                assert(is_curly == (self@.tokens[self@.pos] is OpenCurly));
            }
            if is_curly {
                return ;
            }
            self.pos = self.pos + 1;
        }
    }

    fn consume_declaration(&mut self) -> (r: Option<Declaration>)
        requires
            0 <= old(self)@.pos,
        ensures
            final(self)@.tokens == old(self)@.tokens,
            ({
                let s = consume_declaration_s(old(self)@.tokens, old(self)@.pos);
                &&& final(self)@.pos == s.1
                &&& (match r {
                    Some(d) => s.0 == Some(d@),
                    None => s.0 is None,
                })
            }),
    {
        if !self.has_token() {
            return None;
        }
        let mut declaration = Declaration::new();
        let prop = self.consume_ident();
        let prop = match prop {
            Some(p) => p,
            None => {
                return None;
            },
        };
        declaration.set_property(prop);
        let colon = self.next_token();
        match colon {
            Some(CssToken::Colon) => {},
            _ => {
                return None;
            },
        }
        let value = self.consume_component_value();
        match value {
            Some(v) => {
                declaration.set_value(v);
                Some(declaration)
            },
            None => None,
        }
    }

    fn consume_list_of_declarations(&mut self) -> (r: Vec<Declaration>)
        requires
            0 <= old(self)@.pos,
        ensures
            final(self)@.tokens == old(self)@.tokens,
            ({
                let s = consume_list_of_declarations_s(old(self)@.tokens, old(self)@.pos);
                &&& final(self)@.pos == s.1
                &&& decls_view(r@) == s.0
            }),
    {
        let mut declarations: Vec<Declaration> = Vec::new();
        loop
            invariant
                0 <= self@.pos,
                self@.tokens == old(self)@.tokens,
                consume_list_of_declarations_s(self@.tokens, old(self)@.pos) == {
                    let rest = consume_list_of_declarations_s(self@.tokens, self@.pos);
                    (decls_view(declarations@) + rest.0, rest.1)
                },
            decreases self@.tokens.len() - self@.pos,
        {
            if self.pos >= self.tokens.len() {
                proof {
                    assert(decls_view(declarations@) + Seq::<DeclarationV>::empty()
                        =~= decls_view(declarations@));
                }
                return declarations;
            }
            let ghost i = self@.pos;
            let kind: u8 = match &self.tokens[self.pos] {
                CssToken::CloseCurly => 0,
                CssToken::SemiColon => 1,
                CssToken::Ident(_) => 2,
                _ => 3,
            };
            if kind == 0 {
                self.pos = self.pos + 1;
                proof {
                    assert(decls_view(declarations@) + Seq::<DeclarationV>::empty()
                        =~= decls_view(declarations@));
                }
                return declarations;
            } else if kind == 1 {
                self.pos = self.pos + 1;
            } else if kind == 2 {
                let d = self.consume_declaration();
                proof {
                    lemma_declaration_advances(self@.tokens, i);
                }
                match d {
                    Some(decl) => {
                        declarations.push(decl);
                        proof {
                            let rest = consume_list_of_declarations_s(self@.tokens, self@.pos);
                            assert(decls_view(declarations@) =~= decls_view(
                                declarations@.drop_last(),
                            ) + seq![declarations@.last()@]);
                            assert(decls_view(declarations@.drop_last()) + (seq![
                                declarations@.last()@,
                            ] + rest.0) =~= decls_view(declarations@) + rest.0);
                        }
                    },
                    None => {},
                }
            } else {
                self.pos = self.pos + 1;
            }
        }
    }

    fn consume_qualified_rule(&mut self) -> (r: Option<QualifiedRule>)
        requires
            0 <= old(self)@.pos,
        ensures
            final(self)@.tokens == old(self)@.tokens,
            ({
                let s = consume_qualified_rule_s(
                    old(self)@.tokens,
                    old(self)@.pos,
                    SelectorV::UnknownSelector,
                );
                &&& final(self)@.pos == s.1
                &&& (match r {
                    Some(rule) => s.0 == Some(rule@),
                    None => s.0 is None,
                })
            }),
    {
        let mut rule = QualifiedRule::new();
        loop
            invariant
                0 <= self@.pos,
                self@.tokens == old(self)@.tokens,
                rule@.declarations == Seq::<DeclarationV>::empty(),
                consume_qualified_rule_s(
                    self@.tokens,
                    old(self)@.pos,
                    SelectorV::UnknownSelector,
                ) == consume_qualified_rule_s(self@.tokens, self@.pos, rule@.selector),
            decreases self@.tokens.len() - self@.pos,
        {
            if self.pos >= self.tokens.len() {
                return None;
            }
            let ghost i = self@.pos;
            let is_curly = match &self.tokens[self.pos] {
                CssToken::OpenCurly => true,
                _ => false,
            };
            proof {
                assert(is_curly == (self@.tokens[i] is OpenCurly));
            }
            if is_curly {
                self.pos = self.pos + 1;
                let decls = self.consume_list_of_declarations();
                rule.set_declarations(decls);
                return Some(rule);
            } else {
                let sel = self.consume_selector();
                proof {
                    lemma_selector_advances(self@.tokens, i);
                }
                rule.set_selector(sel);
            }
        }
    }

    fn consume_list_of_rules(&mut self) -> (r: Vec<QualifiedRule>)
        requires
            0 <= old(self)@.pos,
        ensures
            final(self)@.tokens == old(self)@.tokens,
            rules_view(r@) == consume_list_of_rules_s(old(self)@.tokens, old(self)@.pos),
    {
        let mut rules: Vec<QualifiedRule> = Vec::new();
        loop
            invariant
                0 <= self@.pos,
                self@.tokens == old(self)@.tokens,
                consume_list_of_rules_s(self@.tokens, old(self)@.pos) == rules_view(rules@)
                    + consume_list_of_rules_s(self@.tokens, self@.pos),
            decreases self@.tokens.len() - self@.pos,
        {
            if self.pos >= self.tokens.len() {
                proof {
                    assert(rules_view(rules@) + Seq::<QualifiedRuleV>::empty() =~= rules_view(
                        rules@,
                    ));
                }
                return rules;
            }
            let ghost i = self@.pos;
            let is_at = match &self.tokens[self.pos] {
                CssToken::AtKeyword(_) => true,
                _ => false,
            };
            proof {
                assert(is_at == (self@.tokens[i] is AtKeyword));
            }
            if is_at {
                let _rule = self.consume_qualified_rule();
                proof {
                    lemma_qualified_rule_advances(self@.tokens, i, SelectorV::UnknownSelector);
                }
            } else {
                let rule = self.consume_qualified_rule();
                proof {
                    lemma_qualified_rule_advances(self@.tokens, i, SelectorV::UnknownSelector);
                }
                match rule {
                    Some(rule) => {
                        rules.push(rule);
                        proof {
                            let rest = consume_list_of_rules_s(self@.tokens, self@.pos);
                            assert(rules_view(rules@) =~= rules_view(rules@.drop_last()) + seq![
                                rules@.last()@,
                            ]);
                            assert(rules_view(rules@.drop_last()) + (seq![rules@.last()@] + rest)
                                =~= rules_view(rules@) + rest);
                        }
                    },
                    None => {
                        proof {
                            assert(rules_view(rules@) + Seq::<QualifiedRuleV>::empty()
                                =~= rules_view(rules@));
                        }
                        return rules;
                    },
                }
            }
        }
    }
}

/// The name of an id selector, computed from the hash token's text.
fn hash_name(v: &String) -> (r: String)
    ensures
        r@ == hash_name_s(v@),
{
    let n = v.as_str().unicode_len();
    if n == 0 {
        return String::new();
    }
    let mut r = String::new();
    let mut i: usize = 1;
    while i < n
        invariant
            1 <= i <= n,
            n == v@.len(),
            r@ == v@.subrange(1, i as int),
        decreases n - i,
    {
        crate::strutil::push_char(&mut r, v.as_str().get_char(i));
        proof {
            assert(r@ =~= v@.subrange(1, i + 1 as int));
        }
        i = i + 1;
    }
    proof {
        assert(r@ =~= v@.subrange(1, v@.len() as int));
    }
    r
}

/// A copy of a declaration, with its image pinned in the contract.
pub fn duplicate_declaration(d: &Declaration) -> (r: Declaration)
    ensures
        r@ == d@,
{
    Declaration { property: d.property.clone(), value: duplicate_css_token(&d.value) }
}

/// A copy of a declaration list, with its image pinned in the contract.
pub fn duplicate_declarations(v: &Vec<Declaration>) -> (r: Vec<Declaration>)
    ensures
        decls_view(r@) == decls_view(v@),
{
    let mut r: Vec<Declaration> = Vec::new();
    let mut i: usize = 0;
    while i < v.len()
        invariant
            i <= v@.len(),
            r@.len() == i,
            forall|j: int| 0 <= j < i ==> (#[trigger] r@[j])@ == v@[j]@,
        decreases v@.len() - i,
    {
        r.push(duplicate_declaration(&v[i]));
        i = i + 1;
    }
    proof {
        assert(decls_view(r@) =~= decls_view(v@));
    }
    r
}

/// A copy of a style token, with its image pinned in the contract.
pub fn duplicate_css_token(t: &CssToken) -> (r: CssToken)
    ensures
        r@ == t@,
{
    match t {
        CssToken::HashToken(s) => CssToken::HashToken(s.clone()),
        CssToken::Delim(c) => CssToken::Delim(*c),
        CssToken::Number(n) => CssToken::Number(*n),
        CssToken::Colon => CssToken::Colon,
        CssToken::SemiColon => CssToken::SemiColon,
        CssToken::OpenParenthesis => CssToken::OpenParenthesis,
        CssToken::CloseParenthesis => CssToken::CloseParenthesis,
        CssToken::OpenCurly => CssToken::OpenCurly,
        CssToken::CloseCurly => CssToken::CloseCurly,
        CssToken::Ident(s) => CssToken::Ident(s.clone()),
        CssToken::StringToken(s) => CssToken::StringToken(s.clone()),
        CssToken::AtKeyword(s) => CssToken::AtKeyword(s.clone()),
    }
}

} // verus!
