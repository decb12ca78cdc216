//! The markup tokenizer: a character-level state machine that produces
//! start tags (with attributes and a self-closing flag), end tags, single
//! characters and one end-of-input token. Tag and attribute names are
//! lower-cased on ingestion; attribute values keep their case. A raw-text
//! mode (entered by the tree constructor after a `script` or `style` start
//! tag) emits everything as characters until a matching end tag, replaying
//! a tentative `</` and partial tag name from a temporary buffer when the
//! lookahead does not complete an end tag name.

use vstd::prelude::*;
use crate::attribute::{attr_add_char, attrs_view, Attribute, AttrV};
use crate::strutil::{char_is_alpha, char_is_upper_alpha, char_to_lower, is_alpha, is_upper_alpha,
    lower_char, chars_of, push_char};

verus! {

#[derive(Debug, Clone, PartialEq, Eq)]
pub enum HtmlToken {
    StartTag { tag: String, self_closing: bool, attributes: Vec<Attribute> },
    EndTag { tag: String },
    Char(char),
    Eof,
}

/// Mathematical image of an [`HtmlToken`].
pub enum HtmlTokenV {
    StartTag { tag: Seq<char>, self_closing: bool, attributes: Seq<AttrV> },
    EndTag { tag: Seq<char> },
    Char(char),
    Eof,
}

impl View for HtmlToken {
    type V = HtmlTokenV;

    open spec fn view(&self) -> HtmlTokenV {
        match self {
            HtmlToken::StartTag { tag, self_closing, attributes } => HtmlTokenV::StartTag {
                tag: tag@,
                self_closing: *self_closing,
                attributes: attrs_view(attributes@),
            },
            HtmlToken::EndTag { tag } => HtmlTokenV::EndTag { tag: tag@ },
            HtmlToken::Char(c) => HtmlTokenV::Char(*c),
            HtmlToken::Eof => HtmlTokenV::Eof,
        }
    }
}

/// The image of an optional markup token.
pub open spec fn opt_token_view(t: Option<HtmlToken>) -> Option<HtmlTokenV> {
    match t {
        Some(t) => Some(t@),
        None => None,
    }
}

#[derive(Debug, Clone, Copy, PartialEq, Eq, Structural)]
pub enum State {
    Data,
    TagOpen,
    EndTagOpen,
    TagName,
    BeforeAttributeName,
    AttributeName,
    AfterAttributeName,
    BeforeAttributeValue,
    AttributeValueDoubleQuoted,
    AttributeValueSingleQuoted,
    AttributeValueUnquoted,
    AfterAttributeValueQuoted,
    SelfClosingStartTag,
    ScriptData,
    ScriptDataLessThanSign,
    ScriptDataEndTagOpen,
    ScriptDataEndTagName,
    TemporaryBuffer,
}

/// Mathematical image of an [`HtmlTokenizer`].
pub struct TokV {
    pub state: State,
    pub pos: int,
    pub reconsume: bool,
    pub latest: Option<HtmlTokenV>,
    pub input: Seq<char>,
    pub buf: Seq<char>,
}

#[derive(Debug, Clone, PartialEq)]
pub struct HtmlTokenizer {
    state: State,
    pos: usize,
    reconsume: bool,
    latest_token: Option<HtmlToken>,
    input: Vec<char>,
    buf: String,
}

impl View for HtmlTokenizer {
    type V = TokV;

    closed spec fn view(&self) -> TokV {
        TokV {
            state: self.state,
            pos: self.pos as int,
            reconsume: self.reconsume,
            latest: opt_token_view(self.latest_token),
            input: self.input@,
            buf: self.buf@,
        }
    }
}

/// States in which a tag token is under construction.
pub open spec fn state_needs_latest(s: State) -> bool {
    match s {
        State::TagName
        | State::BeforeAttributeName
        | State::AttributeName
        | State::AfterAttributeName
        | State::BeforeAttributeValue
        | State::AttributeValueDoubleQuoted
        | State::AttributeValueSingleQuoted
        | State::AttributeValueUnquoted
        | State::AfterAttributeValueQuoted
        | State::SelfClosingStartTag
        | State::ScriptDataEndTagName => true,
        _ => false,
    }
}

/// Well-formedness of a tokenizer state: the cursor stays inside the input
/// (one past it at most), a reconsumed character exists, and a tag token is
/// present while one is being built.
pub open spec fn tok_wf(m: TokV) -> bool {
    &&& 0 <= m.pos <= m.input.len()
    &&& (m.reconsume ==> m.pos >= 1)
    &&& (state_needs_latest(m.state) ==> m.latest is Some)
    &&& (match m.latest {
        Some(t) => t is StartTag || t is EndTag,
        None => true,
    })
}

/// A fresh start-tag token.
pub open spec fn start_tag_empty() -> HtmlTokenV {
    HtmlTokenV::StartTag {
        tag: Seq::<char>::empty(),
        self_closing: false,
        attributes: Seq::<AttrV>::empty(),
    }
}

/// A fresh end-tag token.
pub open spec fn end_tag_empty() -> HtmlTokenV {
    HtmlTokenV::EndTag { tag: Seq::<char>::empty() }
}

/// One character appended to the name of the tag under construction.
pub open spec fn append_tag_name_s(t: HtmlTokenV, c: char) -> HtmlTokenV {
    match t {
        HtmlTokenV::StartTag { tag, self_closing, attributes } => HtmlTokenV::StartTag {
            tag: tag.push(c),
            self_closing,
            attributes,
        },
        HtmlTokenV::EndTag { tag } => HtmlTokenV::EndTag { tag: tag.push(c) },
        _ => t,
    }
}

/// A fresh attribute opened on the start tag under construction; an end
/// tag is left unchanged (attributes in end tags are dropped).
pub open spec fn start_new_attribute_s(t: HtmlTokenV) -> HtmlTokenV {
    match t {
        HtmlTokenV::StartTag { tag, self_closing, attributes } => HtmlTokenV::StartTag {
            tag,
            self_closing,
            attributes: attributes.push(
                AttrV { name: Seq::<char>::empty(), value: Seq::<char>::empty() },
            ),
        },
        _ => t,
    }
}

/// One character appended to the latest attribute's name or value; tokens
/// without an open attribute are left unchanged.
pub open spec fn append_attribute_s(t: HtmlTokenV, c: char, is_name: bool) -> HtmlTokenV {
    match t {
        HtmlTokenV::StartTag { tag, self_closing, attributes } => {
            if attributes.len() > 0 {
                HtmlTokenV::StartTag {
                    tag,
                    self_closing,
                    attributes: attributes.update(
                        attributes.len() - 1,
                        attr_add_char(attributes.last(), c, is_name),
                    ),
                }
            } else {
                t
            }
        },
        _ => t,
    }
}

/// The self-closing flag raised on the start tag under construction.
pub open spec fn set_self_closing_s(t: HtmlTokenV) -> HtmlTokenV {
    match t {
        HtmlTokenV::StartTag { tag, self_closing, attributes } => HtmlTokenV::StartTag {
            tag,
            self_closing: true,
            attributes,
        },
        _ => t,
    }
}

/// The same transformation applied under `Some`.
pub open spec fn opt_latest(t: Option<HtmlTokenV>, f: spec_fn(HtmlTokenV) -> HtmlTokenV) -> Option<
    HtmlTokenV,
> {
    match t {
        Some(t) => Some(f(t)),
        None => None,
    }
}

/// The tag token under construction emitted: the tokenizer hands it out
/// and forgets it.
pub open spec fn emit_latest(m: TokV) -> (TokV, HtmlTokenV) {
    match m.latest {
        Some(t) => (TokV { latest: None, ..m }, t),
        None => (TokV { latest: None, ..m }, HtmlTokenV::Eof),
    }
}

/// First component of the tokenizer's progress measure: characters left to
/// consume, counting a pending reconsume as half a step.
pub open spec fn tok_m0(m: TokV) -> int {
    2 * (m.input.len() - m.pos) + (if m.reconsume {
        1int
    } else {
        0int
    })
}

/// Second component: the temporary buffer drains while characters are
/// replayed without consuming input.
pub open spec fn tok_mbuf(m: TokV) -> int {
    m.buf.len() + (if m.state is TemporaryBuffer {
        1int
    } else {
        0int
    })
}

/// Rank of a state for a fixed reconsumed character: chains of transitions
/// that re-examine the same character descend this rank.
pub open spec fn tok_srank(s: State, c: char) -> int {
    match s {
        State::AfterAttributeValueQuoted => 4,
        State::BeforeAttributeName => 3,
        State::AttributeName => if c == ' ' || c == '/' || c == '>' {
            2
        } else {
            0
        },
        State::AfterAttributeName => 1,
        State::TagOpen => 1,
        State::EndTagOpen => 1,
        State::BeforeAttributeValue => 1,
        State::ScriptDataEndTagOpen => 1,
        State::ScriptDataLessThanSign => 1,
        _ => 0,
    }
}

/// Third component of the progress measure: the rank of the state under
/// the pending reconsumed character.
pub open spec fn tok_m1(m: TokV) -> int {
    if m.reconsume && m.pos >= 1 {
        tok_srank(m.state, m.input[m.pos - 1])
    } else {
        0
    }
}

/// The scanning loop of the tokenizer: from a state where input remains or
/// a character is pending, the state after the call and the token emitted.
/// Running out of input mid-construct emits the end-of-input token.
pub open spec fn tok_loop(m: TokV) -> (TokV, HtmlTokenV)
    decreases tok_m0(m), tok_mbuf(m), tok_m1(m),
    when tok_wf(m)
{
    if !m.reconsume && m.pos >= m.input.len() {
        (m, HtmlTokenV::Eof)
    } else {
        let c = if m.reconsume {
            m.input[m.pos - 1]
        } else {
            m.input[m.pos]
        };
        let m1 = if m.reconsume {
            TokV { reconsume: false, ..m }
        } else {
            TokV { pos: m.pos + 1, ..m }
        };
        match m1.state {
            State::Data => {
                if c == '<' {
                    tok_loop(TokV { state: State::TagOpen, ..m1 })
                } else {
                    (m1, HtmlTokenV::Char(c))
                }
            },
            State::TagOpen => {
                if c == '/' {
                    tok_loop(TokV { state: State::EndTagOpen, ..m1 })
                } else if is_alpha(c) {
                    tok_loop(
                        TokV {
                            state: State::TagName,
                            reconsume: true,
                            latest: Some(start_tag_empty()),
                            ..m1
                        },
                    )
                } else {
                    tok_loop(TokV { state: State::Data, reconsume: true, ..m1 })
                }
            },
            State::EndTagOpen => {
                if is_alpha(c) {
                    tok_loop(
                        TokV {
                            state: State::TagName,
                            reconsume: true,
                            latest: Some(end_tag_empty()),
                            ..m1
                        },
                    )
                } else {
                    tok_loop(m1)
                }
            },
            State::TagName => {
                if c == ' ' {
                    tok_loop(TokV { state: State::BeforeAttributeName, ..m1 })
                } else if c == '/' {
                    tok_loop(TokV { state: State::SelfClosingStartTag, ..m1 })
                } else if c == '>' {
                    emit_latest(TokV { state: State::Data, ..m1 })
                } else if is_upper_alpha(c) {
                    tok_loop(
                        TokV {
                            latest: opt_latest(
                                m1.latest,
                                |t: HtmlTokenV| append_tag_name_s(t, lower_char(c)),
                            ),
                            ..m1
                        },
                    )
                } else {
                    tok_loop(
                        TokV {
                            latest: opt_latest(m1.latest, |t: HtmlTokenV| append_tag_name_s(t, c)),
                            ..m1
                        },
                    )
                }
            },
            State::BeforeAttributeName => {
                if c == '/' || c == '>' {
                    tok_loop(TokV { state: State::AfterAttributeName, reconsume: true, ..m1 })
                } else {
                    tok_loop(
                        TokV {
                            state: State::AttributeName,
                            reconsume: true,
                            latest: opt_latest(m1.latest, |t: HtmlTokenV| start_new_attribute_s(t)),
                            ..m1
                        },
                    )
                }
            },
            State::AttributeName => {
                if c == ' ' || c == '/' || c == '>' {
                    tok_loop(TokV { state: State::AfterAttributeName, reconsume: true, ..m1 })
                } else if c == '=' {
                    tok_loop(TokV { state: State::BeforeAttributeValue, ..m1 })
                } else if is_upper_alpha(c) {
                    tok_loop(
                        TokV {
                            latest: opt_latest(
                                m1.latest,
                                |t: HtmlTokenV| append_attribute_s(t, lower_char(c), true),
                            ),
                            ..m1
                        },
                    )
                } else {
                    tok_loop(
                        TokV {
                            latest: opt_latest(
                                m1.latest,
                                |t: HtmlTokenV| append_attribute_s(t, c, true),
                            ),
                            ..m1
                        },
                    )
                }
            },
            State::AfterAttributeName => {
                if c == ' ' {
                    tok_loop(m1)
                } else if c == '/' {
                    tok_loop(TokV { state: State::SelfClosingStartTag, ..m1 })
                } else if c == '=' {
                    tok_loop(TokV { state: State::BeforeAttributeValue, ..m1 })
                } else if c == '>' {
                    emit_latest(TokV { state: State::Data, ..m1 })
                } else {
                    tok_loop(
                        TokV {
                            state: State::AttributeName,
                            reconsume: true,
                            latest: opt_latest(m1.latest, |t: HtmlTokenV| start_new_attribute_s(t)),
                            ..m1
                        },
                    )
                }
            },
            State::BeforeAttributeValue => {
                if c == ' ' {
                    tok_loop(m1)
                } else if c == '"' {
                    tok_loop(TokV { state: State::AttributeValueDoubleQuoted, ..m1 })
                } else if c == '\'' {
                    tok_loop(TokV { state: State::AttributeValueSingleQuoted, ..m1 })
                } else {
                    tok_loop(TokV { state: State::AttributeValueUnquoted, reconsume: true, ..m1 })
                }
            },
            State::AttributeValueDoubleQuoted => {
                if c == '"' {
                    tok_loop(TokV { state: State::AfterAttributeValueQuoted, ..m1 })
                } else {
                    tok_loop(
                        TokV {
                            latest: opt_latest(
                                m1.latest,
                                |t: HtmlTokenV| append_attribute_s(t, c, false),
                            ),
                            ..m1
                        },
                    )
                }
            },
            State::AttributeValueSingleQuoted => {
                if c == '\'' {
                    tok_loop(TokV { state: State::AfterAttributeValueQuoted, ..m1 })
                } else {
                    tok_loop(
                        TokV {
                            latest: opt_latest(
                                m1.latest,
                                |t: HtmlTokenV| append_attribute_s(t, c, false),
                            ),
                            ..m1
                        },
                    )
                }
            },
            State::AttributeValueUnquoted => {
                if c == ' ' {
                    tok_loop(TokV { state: State::BeforeAttributeName, ..m1 })
                } else if c == '>' {
                    emit_latest(TokV { state: State::Data, ..m1 })
                } else {
                    tok_loop(
                        TokV {
                            latest: opt_latest(
                                m1.latest,
                                |t: HtmlTokenV| append_attribute_s(t, c, false),
                            ),
                            ..m1
                        },
                    )
                }
            },
            State::AfterAttributeValueQuoted => {
                if c == ' ' {
                    tok_loop(TokV { state: State::BeforeAttributeName, ..m1 })
                } else if c == '/' {
                    tok_loop(TokV { state: State::SelfClosingStartTag, ..m1 })
                } else if c == '>' {
                    emit_latest(TokV { state: State::Data, ..m1 })
                } else {
                    tok_loop(TokV { state: State::BeforeAttributeName, reconsume: true, ..m1 })
                }
            },
            State::SelfClosingStartTag => {
                if c == '>' {
                    emit_latest(
                        TokV {
                            state: State::Data,
                            latest: opt_latest(m1.latest, |t: HtmlTokenV| set_self_closing_s(t)),
                            ..m1
                        },
                    )
                } else {
                    tok_loop(m1)
                }
            },
            State::ScriptData => {
                if c == '<' {
                    tok_loop(TokV { state: State::ScriptDataLessThanSign, ..m1 })
                } else {
                    (m1, HtmlTokenV::Char(c))
                }
            },
            State::ScriptDataLessThanSign => {
                if c == '/' {
                    tok_loop(
                        TokV {
                            state: State::ScriptDataEndTagOpen,
                            buf: Seq::<char>::empty(),
                            ..m1
                        },
                    )
                } else {
                    (
                        TokV { state: State::ScriptData, reconsume: true, ..m1 },
                        HtmlTokenV::Char('<'),
                    )
                }
            },
            State::ScriptDataEndTagOpen => {
                if is_alpha(c) {
                    tok_loop(
                        TokV {
                            state: State::ScriptDataEndTagName,
                            reconsume: true,
                            latest: Some(end_tag_empty()),
                            ..m1
                        },
                    )
                } else {
                    (
                        TokV { state: State::ScriptData, reconsume: true, ..m1 },
                        HtmlTokenV::Char('<'),
                    )
                }
            },
            State::ScriptDataEndTagName => {
                if c == '>' {
                    emit_latest(TokV { state: State::Data, ..m1 })
                } else if is_alpha(c) {
                    tok_loop(
                        TokV {
                            buf: m1.buf.push(c),
                            latest: opt_latest(
                                m1.latest,
                                |t: HtmlTokenV| append_tag_name_s(t, lower_char(c)),
                            ),
                            ..m1
                        },
                    )
                } else {
                    tok_loop(
                        TokV {
                            state: State::TemporaryBuffer,
                            buf: seq!['<', '/'] + m1.buf + seq![c],
                            ..m1
                        },
                    )
                }
            },
            State::TemporaryBuffer => {
                if m1.buf.len() == 0 {
                    (
                        TokV { state: State::ScriptData, reconsume: true, ..m1 },
                        HtmlTokenV::Char('<'),
                    )
                } else {
                    (
                        TokV { buf: m1.buf.drop_first(), reconsume: true, ..m1 },
                        HtmlTokenV::Char(m1.buf[0]),
                    )
                }
            },
        }
    }
}

/// One call of the markup tokenizer: the state after the call and the
/// token it yields; `None` once the input is exhausted (the sequence is
/// finite and non-restartable).
pub open spec fn tok_next_s(m: TokV) -> (TokV, Option<HtmlTokenV>) {
    if m.pos >= m.input.len() {
        (m, None)
    } else {
        let r = tok_loop(m);
        (r.0, Some(r.1))
    }
}

impl HtmlTokenizer {
    /// A tokenizer over the characters of `html`, in the data state.
    pub fn new(html: String) -> (t: Self)
        ensures
            t@ == (TokV {
                state: State::Data,
                pos: 0,
                reconsume: false,
                latest: None,
                input: html@,
                buf: Seq::<char>::empty(),
            }),
            tok_wf(t@),
    {
        Self {
            state: State::Data,
            pos: 0,
            reconsume: false,
            latest_token: None,
            input: chars_of(html.as_str()),
            buf: String::new(),
        }
    }

    /// Whether the input is exhausted.
    pub fn is_eof(&self) -> (r: bool)
        ensures
            r == (self@.pos >= self@.input.len()),
    {
        self.pos >= self.input.len()
    }

    /// Switches into raw-text scanning; the tree constructor calls this
    /// after inserting a `script` or `style` element.
    pub fn switch_to_script_data(&mut self)
        ensures
            final(self)@ == (TokV { state: State::ScriptData, ..old(self)@ }),
            tok_wf(old(self)@) ==> tok_wf(final(self)@),
    {
        self.state = State::ScriptData;
    }

    /// Opens a fresh start-tag (`true`) or end-tag token.
    fn create_tag(&mut self, start_tag_token: bool)
        ensures
            final(self)@ == (TokV {
                latest: Some(
                    if start_tag_token {
                        start_tag_empty()
                    } else {
                        end_tag_empty()
                    },
                ),
                ..old(self)@
            }),
    {
        if start_tag_token {
            self.latest_token = Some(
                HtmlToken::StartTag {
                    tag: String::new(),
                    self_closing: false,
                    attributes: Vec::new(),
                },
            );
            proof {
                assert(attrs_view(Seq::<Attribute>::empty()) =~= Seq::<AttrV>::empty());
            }
        } else {
            self.latest_token = Some(HtmlToken::EndTag { tag: String::new() });
        }
    }

    /// Appends one character to the name of the tag under construction.
    fn append_tag_name(&mut self, c: char)
        ensures
            final(self)@ == (TokV {
                latest: opt_latest(old(self)@.latest, |t: HtmlTokenV| append_tag_name_s(t, c)),
                ..old(self)@
            }),
    {
        let t = self.latest_token.take();
        match t {
            Some(HtmlToken::StartTag { tag, self_closing, attributes }) => {
                let mut tag = tag;
                push_char(&mut tag, c);
                self.latest_token = Some(HtmlToken::StartTag { tag, self_closing, attributes });
            },
            Some(HtmlToken::EndTag { tag }) => {
                let mut tag = tag;
                push_char(&mut tag, c);
                self.latest_token = Some(HtmlToken::EndTag { tag });
            },
            other => {
                self.latest_token = other;
            },
        }
    }

    /// Hands out the tag token under construction and forgets it.
    fn take_latest_token(&mut self) -> (r: Option<HtmlToken>)
        ensures
            final(self)@ == (TokV { latest: None, ..old(self)@ }),
            opt_token_view(r) == old(self)@.latest,
    {
        self.latest_token.take()
    }

    /// Opens a fresh attribute on the start tag under construction.
    fn start_new_attribute(&mut self)
        ensures
            final(self)@ == (TokV {
                latest: opt_latest(old(self)@.latest, |t: HtmlTokenV| start_new_attribute_s(t)),
                ..old(self)@
            }),
    {
        let t = self.latest_token.take();
        match t {
            Some(HtmlToken::StartTag { tag, self_closing, attributes }) => {
                let mut attributes = attributes;
                let ghost before = attributes@;
                attributes.push(Attribute::new());
                proof {
                    assert(attrs_view(attributes@) =~= attrs_view(before).push(
                        attributes@.last()@,
                    ));
                }
                self.latest_token = Some(HtmlToken::StartTag { tag, self_closing, attributes });
            },
            other => {
                self.latest_token = other;
            },
        }
    }

    /// Appends one character to the latest attribute's name or value.
    fn append_attribute(&mut self, c: char, is_name: bool)
        ensures
            final(self)@ == (TokV {
                latest: opt_latest(
                    old(self)@.latest,
                    |t: HtmlTokenV| append_attribute_s(t, c, is_name),
                ),
                ..old(self)@
            }),
    {
        let t = self.latest_token.take();
        match t {
            Some(HtmlToken::StartTag { tag, self_closing, attributes }) => {
                let mut attributes = attributes;
                let n = attributes.len();
                if n > 0 {
                    let mut a = match attributes.pop() {
                        Some(a) => a,
                        None => Attribute::new(),
                    };
                    a.add_char(c, is_name);
                    attributes.push(a);
                    proof {
                        let old_attrs = old(self)@.latest->Some_0->StartTag_attributes;
                        assert(attrs_view(attributes@) =~= old_attrs.update(
                            old_attrs.len() - 1,
                            attr_add_char(old_attrs.last(), c, is_name),
                        ));
                    }
                }
                self.latest_token = Some(HtmlToken::StartTag { tag, self_closing, attributes });
            },
            other => {
                self.latest_token = other;
            },
        }
    }

    /// Raises the self-closing flag on the start tag under construction.
    fn set_self_closing_flag(&mut self)
        ensures
            final(self)@ == (TokV {
                latest: opt_latest(old(self)@.latest, |t: HtmlTokenV| set_self_closing_s(t)),
                ..old(self)@
            }),
    {
        let t = self.latest_token.take();
        match t {
            Some(HtmlToken::StartTag { tag, self_closing, attributes }) => {
                self.latest_token = Some(
                    HtmlToken::StartTag { tag, self_closing: true, attributes },
                );
            },
            other => {
                self.latest_token = other;
            },
        }
    }

    /// Yields the next markup token, or `None` once the input is exhausted.
    /// End of input mid-construct yields exactly one end-of-input token;
    /// calling past exhaustion yields no further tokens.
    pub fn next(&mut self) -> (r: Option<HtmlToken>)
        requires
            tok_wf(old(self)@),
        ensures
            tok_wf(final(self)@),
            final(self)@.input == old(self)@.input,
            ({
                let s = tok_next_s(old(self)@);
                final(self)@ == s.0 && opt_token_view(r) == s.1
            }),
    {
        if self.pos >= self.input.len() {
            return None;
        }
        loop
            invariant
                tok_wf(self@),
                tok_wf(old(self)@),
                old(self)@.pos < old(self)@.input.len(),
                self@.input == old(self)@.input,
                tok_loop(old(self)@) == tok_loop(self@),
            decreases tok_m0(self@), tok_mbuf(self@), tok_m1(self@),
        {
            let ghost pre = self@;
            let c: char;
            if self.reconsume {
                self.reconsume = false;
                c = self.input[self.pos - 1];
            } else {
                if self.pos >= self.input.len() {
                    proof {
                        assert(tok_loop(pre) == (pre, HtmlTokenV::Eof));
                    }
                    return Some(HtmlToken::Eof);
                }
                c = self.input[self.pos];
                self.pos = self.pos + 1;
            }
            let ghost m1 = self@;
            match self.state {
                State::Data => {
                    if c == '<' {
                        self.state = State::TagOpen;
                    } else {
                        return Some(HtmlToken::Char(c));
                    }
                },
                State::TagOpen => {
                    if c == '/' {
                        self.state = State::EndTagOpen;
                    } else if char_is_alpha(c) {
                        self.reconsume = true;
                        self.state = State::TagName;
                        self.create_tag(true);
                    } else {
                        self.reconsume = true;
                        self.state = State::Data;
                    }
                },
                State::EndTagOpen => {
                    if char_is_alpha(c) {
                        self.reconsume = true;
                        self.state = State::TagName;
                        self.create_tag(false);
                    }
                },
                State::TagName => {
                    if c == ' ' {
                        self.state = State::BeforeAttributeName;
                    } else if c == '/' {
                        self.state = State::SelfClosingStartTag;
                    } else if c == '>' {
                        self.state = State::Data;
                        return self.take_latest_token();
                    } else if char_is_upper_alpha(c) {
                        self.append_tag_name(char_to_lower(c));
                    } else {
                        self.append_tag_name(c);
                    }
                },
                State::BeforeAttributeName => {
                    if c == '/' || c == '>' {
                        self.reconsume = true;
                        self.state = State::AfterAttributeName;
                    } else {
                        self.reconsume = true;
                        self.state = State::AttributeName;
                        self.start_new_attribute();
                    }
                },
                State::AttributeName => {
                    if c == ' ' || c == '/' || c == '>' {
                        self.reconsume = true;
                        self.state = State::AfterAttributeName;
                    } else if c == '=' {
                        self.state = State::BeforeAttributeValue;
                    } else if char_is_upper_alpha(c) {
                        self.append_attribute(char_to_lower(c), true);
                    } else {
                        self.append_attribute(c, true);
                    }
                },
                State::AfterAttributeName => {
                    if c == ' ' {
                    } else if c == '/' {
                        self.state = State::SelfClosingStartTag;
                    } else if c == '=' {
                        self.state = State::BeforeAttributeValue;
                    } else if c == '>' {
                        self.state = State::Data;
                        return self.take_latest_token();
                    } else {
                        self.reconsume = true;
                        self.state = State::AttributeName;
                        self.start_new_attribute();
                    }
                },
                State::BeforeAttributeValue => {
                    if c == ' ' {
                    } else if c == '"' {
                        self.state = State::AttributeValueDoubleQuoted;
                    } else if c == '\'' {
                        self.state = State::AttributeValueSingleQuoted;
                    } else {
                        self.reconsume = true;
                        self.state = State::AttributeValueUnquoted;
                    }
                },
                State::AttributeValueDoubleQuoted => {
                    if c == '"' {
                        self.state = State::AfterAttributeValueQuoted;
                    } else {
                        self.append_attribute(c, false);
                    }
                },
                State::AttributeValueSingleQuoted => {
                    if c == '\'' {
                        self.state = State::AfterAttributeValueQuoted;
                    } else {
                        self.append_attribute(c, false);
                    }
                },
                State::AttributeValueUnquoted => {
                    if c == ' ' {
                        self.state = State::BeforeAttributeName;
                    } else if c == '>' {
                        self.state = State::Data;
                        return self.take_latest_token();
                    } else {
                        self.append_attribute(c, false);
                    }
                },
                State::AfterAttributeValueQuoted => {
                    if c == ' ' {
                        self.state = State::BeforeAttributeName;
                    } else if c == '/' {
                        self.state = State::SelfClosingStartTag;
                    } else if c == '>' {
                        self.state = State::Data;
                        return self.take_latest_token();
                    } else {
                        self.reconsume = true;
                        self.state = State::BeforeAttributeName;
                    }
                },
                State::SelfClosingStartTag => {
                    if c == '>' {
                        self.set_self_closing_flag();
                        self.state = State::Data;
                        return self.take_latest_token();
                    }
                },
                State::ScriptData => {
                    if c == '<' {
                        self.state = State::ScriptDataLessThanSign;
                    } else {
                        return Some(HtmlToken::Char(c));
                    }
                },
                State::ScriptDataLessThanSign => {
                    if c == '/' {
                        self.buf = String::new();
                        self.state = State::ScriptDataEndTagOpen;
                    } else {
                        self.reconsume = true;
                        self.state = State::ScriptData;
                        return Some(HtmlToken::Char('<'));
                    }
                },
                State::ScriptDataEndTagOpen => {
                    if char_is_alpha(c) {
                        self.reconsume = true;
                        self.state = State::ScriptDataEndTagName;
                        self.create_tag(false);
                    } else {
                        self.reconsume = true;
                        self.state = State::ScriptData;
                        return Some(HtmlToken::Char('<'));
                    }
                },
                State::ScriptDataEndTagName => {
                    if c == '>' {
                        self.state = State::Data;
                        return self.take_latest_token();
                    } else if char_is_alpha(c) {
                        push_char(&mut self.buf, c);
                        self.append_tag_name(char_to_lower(c));
                    } else {
                        self.state = State::TemporaryBuffer;
                        let mut replay = String::new();
                        push_char(&mut replay, '<');
                        push_char(&mut replay, '/');
                        replay.append(self.buf.as_str());
                        push_char(&mut replay, c);
                        self.buf = replay;
                        proof {
                            assert(self@.buf =~= seq!['<', '/'] + m1.buf + seq![c]);
                        }
                    }
                },
                State::TemporaryBuffer => {
                    self.reconsume = true;
                    if self.buf.as_str().unicode_len() == 0 {
                        self.state = State::ScriptData;
                        return Some(HtmlToken::Char('<'));
                    }
                    let head = self.buf.as_str().get_char(0);
                    let rest = tail_string(&self.buf);
                    self.buf = rest;
                    return Some(HtmlToken::Char(head));
                },
            }
            proof {
                assert(tok_loop(pre) == tok_loop(self@));
            }
        }
    }
}

/// Progress of the scanning loop: it never touches the input sequence,
/// keeps the tokenizer well formed, and strictly descends the measure
/// `(tok_m0, tok_mbuf, tok_m1)` unless it reports end of input with the
/// state unchanged.
#[verifier::rlimit(60)]
#[verifier::spinoff_prover]
pub proof fn lemma_tok_loop_progress(m: TokV)
    requires
        tok_wf(m),
    ensures
        tok_loop(m).0.input == m.input,
        tok_wf(tok_loop(m).0),
        ({
            let m2 = tok_loop(m).0;
            ||| tok_m0(m2) < tok_m0(m)
            ||| (tok_m0(m2) == tok_m0(m) && tok_mbuf(m2) < tok_mbuf(m))
            ||| (tok_m0(m2) == tok_m0(m) && tok_mbuf(m2) == tok_mbuf(m) && tok_m1(m2) < tok_m1(m))
            ||| (m2 == m && !m.reconsume && m.pos >= m.input.len())
        }),
    decreases tok_m0(m), tok_mbuf(m), tok_m1(m),
{
    if !m.reconsume && m.pos >= m.input.len() {
    } else {
        let c = if m.reconsume {
            m.input[m.pos - 1]
        } else {
            m.input[m.pos]
        };
        let m1 = if m.reconsume {
            TokV { reconsume: false, ..m }
        } else {
            TokV { pos: m.pos + 1, ..m }
        };
        match m1.state {
            State::Data => {
                if c == '<' {
                    lemma_tok_loop_progress(TokV { state: State::TagOpen, ..m1 });
                }
            },
            State::TagOpen => {
                if c == '/' {
                    lemma_tok_loop_progress(TokV { state: State::EndTagOpen, ..m1 });
                } else if is_alpha(c) {
                    lemma_tok_loop_progress(
                        TokV {
                            state: State::TagName,
                            reconsume: true,
                            latest: Some(start_tag_empty()),
                            ..m1
                        },
                    );
                } else {
                    lemma_tok_loop_progress(TokV { state: State::Data, reconsume: true, ..m1 });
                }
            },
            State::EndTagOpen => {
                if is_alpha(c) {
                    lemma_tok_loop_progress(
                        TokV {
                            state: State::TagName,
                            reconsume: true,
                            latest: Some(end_tag_empty()),
                            ..m1
                        },
                    );
                } else {
                    lemma_tok_loop_progress(m1);
                }
            },
            State::TagName => {
                if c == ' ' {
                    lemma_tok_loop_progress(TokV { state: State::BeforeAttributeName, ..m1 });
                } else if c == '/' {
                    lemma_tok_loop_progress(TokV { state: State::SelfClosingStartTag, ..m1 });
                } else if c == '>' {
                } else if is_upper_alpha(c) {
                    lemma_tok_loop_progress(
                        TokV {
                            latest: opt_latest(
                                m1.latest,
                                |t: HtmlTokenV| append_tag_name_s(t, lower_char(c)),
                            ),
                            ..m1
                        },
                    );
                } else {
                    lemma_tok_loop_progress(
                        TokV {
                            latest: opt_latest(m1.latest, |t: HtmlTokenV| append_tag_name_s(t, c)),
                            ..m1
                        },
                    );
                }
            },
            State::BeforeAttributeName => {
                if c == '/' || c == '>' {
                    lemma_tok_loop_progress(
                        TokV { state: State::AfterAttributeName, reconsume: true, ..m1 },
                    );
                } else {
                    lemma_tok_loop_progress(
                        TokV {
                            state: State::AttributeName,
                            reconsume: true,
                            latest: opt_latest(m1.latest, |t: HtmlTokenV| start_new_attribute_s(t)),
                            ..m1
                        },
                    );
                }
            },
            State::AttributeName => {
                if c == ' ' || c == '/' || c == '>' {
                    lemma_tok_loop_progress(
                        TokV { state: State::AfterAttributeName, reconsume: true, ..m1 },
                    );
                } else if c == '=' {
                    lemma_tok_loop_progress(TokV { state: State::BeforeAttributeValue, ..m1 });
                } else if is_upper_alpha(c) {
                    lemma_tok_loop_progress(
                        TokV {
                            latest: opt_latest(
                                m1.latest,
                                |t: HtmlTokenV| append_attribute_s(t, lower_char(c), true),
                            ),
                            ..m1
                        },
                    );
                } else {
                    lemma_tok_loop_progress(
                        TokV {
                            latest: opt_latest(
                                m1.latest,
                                |t: HtmlTokenV| append_attribute_s(t, c, true),
                            ),
                            ..m1
                        },
                    );
                }
            },
            State::AfterAttributeName => {
                if c == ' ' {
                    lemma_tok_loop_progress(m1);
                } else if c == '/' {
                    lemma_tok_loop_progress(TokV { state: State::SelfClosingStartTag, ..m1 });
                } else if c == '=' {
                    lemma_tok_loop_progress(TokV { state: State::BeforeAttributeValue, ..m1 });
                } else if c == '>' {
                } else {
                    lemma_tok_loop_progress(
                        TokV {
                            state: State::AttributeName,
                            reconsume: true,
                            latest: opt_latest(m1.latest, |t: HtmlTokenV| start_new_attribute_s(t)),
                            ..m1
                        },
                    );
                }
            },
            State::BeforeAttributeValue => {
                if c == ' ' {
                    lemma_tok_loop_progress(m1);
                } else if c == '"' {
                    lemma_tok_loop_progress(
                        TokV { state: State::AttributeValueDoubleQuoted, ..m1 },
                    );
                } else if c == '\'' {
                    lemma_tok_loop_progress(
                        TokV { state: State::AttributeValueSingleQuoted, ..m1 },
                    );
                } else {
                    lemma_tok_loop_progress(
                        TokV { state: State::AttributeValueUnquoted, reconsume: true, ..m1 },
                    );
                }
            },
            State::AttributeValueDoubleQuoted => {
                if c == '"' {
                    lemma_tok_loop_progress(
                        TokV { state: State::AfterAttributeValueQuoted, ..m1 },
                    );
                } else {
                    lemma_tok_loop_progress(
                        TokV {
                            latest: opt_latest(
                                m1.latest,
                                |t: HtmlTokenV| append_attribute_s(t, c, false),
                            ),
                            ..m1
                        },
                    );
                }
            },
            State::AttributeValueSingleQuoted => {
                if c == '\'' {
                    lemma_tok_loop_progress(
                        TokV { state: State::AfterAttributeValueQuoted, ..m1 },
                    );
                } else {
                    lemma_tok_loop_progress(
                        TokV {
                            latest: opt_latest(
                                m1.latest,
                                |t: HtmlTokenV| append_attribute_s(t, c, false),
                            ),
                            ..m1
                        },
                    );
                }
            },
            State::AttributeValueUnquoted => {
                if c == ' ' {
                    lemma_tok_loop_progress(TokV { state: State::BeforeAttributeName, ..m1 });
                } else if c == '>' {
                } else {
                    lemma_tok_loop_progress(
                        TokV {
                            latest: opt_latest(
                                m1.latest,
                                |t: HtmlTokenV| append_attribute_s(t, c, false),
                            ),
                            ..m1
                        },
                    );
                }
            },
            State::AfterAttributeValueQuoted => {
                if c == ' ' {
                    lemma_tok_loop_progress(TokV { state: State::BeforeAttributeName, ..m1 });
                } else if c == '/' {
                    lemma_tok_loop_progress(TokV { state: State::SelfClosingStartTag, ..m1 });
                } else if c == '>' {
                } else {
                    lemma_tok_loop_progress(
                        TokV { state: State::BeforeAttributeName, reconsume: true, ..m1 },
                    );
                }
            },
            State::SelfClosingStartTag => {
                if c == '>' {
                } else {
                    lemma_tok_loop_progress(m1);
                }
            },
            State::ScriptData => {
                if c == '<' {
                    lemma_tok_loop_progress(TokV { state: State::ScriptDataLessThanSign, ..m1 });
                }
            },
            State::ScriptDataLessThanSign => {
                if c == '/' {
                    lemma_tok_loop_progress(
                        TokV {
                            state: State::ScriptDataEndTagOpen,
                            buf: Seq::<char>::empty(),
                            ..m1
                        },
                    );
                }
            },
            State::ScriptDataEndTagOpen => {
                if is_alpha(c) {
                    lemma_tok_loop_progress(
                        TokV {
                            state: State::ScriptDataEndTagName,
                            reconsume: true,
                            latest: Some(end_tag_empty()),
                            ..m1
                        },
                    );
                }
            },
            State::ScriptDataEndTagName => {
                if c == '>' {
                } else if is_alpha(c) {
                    lemma_tok_loop_progress(
                        TokV {
                            buf: m1.buf.push(c),
                            latest: opt_latest(
                                m1.latest,
                                |t: HtmlTokenV| append_tag_name_s(t, lower_char(c)),
                            ),
                            ..m1
                        },
                    );
                } else {
                    lemma_tok_loop_progress(
                        TokV {
                            state: State::TemporaryBuffer,
                            buf: seq!['<', '/'] + m1.buf + seq![c],
                            ..m1
                        },
                    );
                }
            },
            State::TemporaryBuffer => {
            },
        }
    }
}

/// Progress of one tokenizer call: yielding a token strictly descends the
/// measure `(tok_m0, tok_mbuf, tok_m1)`; yielding none leaves the state
/// unchanged. The input and well-formedness are preserved either way.
pub proof fn lemma_tok_next_progress(m: TokV)
    requires
        tok_wf(m),
    ensures
        tok_next_s(m).0.input == m.input,
        tok_wf(tok_next_s(m).0),
        tok_next_s(m).1 is None ==> tok_next_s(m).0 == m,
        tok_next_s(m).1 is Some ==> ({
            let m2 = tok_next_s(m).0;
            ||| tok_m0(m2) < tok_m0(m)
            ||| (tok_m0(m2) == tok_m0(m) && tok_mbuf(m2) < tok_mbuf(m))
            ||| (tok_m0(m2) == tok_m0(m) && tok_mbuf(m2) == tok_mbuf(m) && tok_m1(m2) < tok_m1(m))
        }),
{
    if m.pos >= m.input.len() {
    } else {
        lemma_tok_loop_progress(m);
    }
}

/// A string without its first character.
fn tail_string(s: &String) -> (r: String)
    requires
        s@.len() >= 1,
    ensures
        r@ == s@.drop_first(),
{
    let n = s.as_str().unicode_len();
    let mut r = String::new();
    let mut i: usize = 1;
    while i < n
        invariant
            1 <= i <= n,
            n == s@.len(),
            r@ == s@.subrange(1, i as int),
        decreases n - i,
    {
        push_char(&mut r, s.as_str().get_char(i));
        proof {
            assert(r@ =~= s@.subrange(1, i + 1 as int));
        }
        i = i + 1;
    }
    proof {
        assert(r@ =~= s@.subrange(1, s@.len() as int));
        assert(s@.drop_first() =~= s@.subrange(1, s@.len() as int));
    }
    r
}

} // verus!
