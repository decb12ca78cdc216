//! The stylesheet tokenizer: a single-pass scanner over characters that
//! produces identifiers, numbers, strings, hash tokens, at-keywords and
//! punctuation. Whitespace is skipped and never emitted.

use vstd::prelude::*;
use crate::strutil::{
    chars_of, char_is_alpha, char_is_alphanumeric, char_is_digit, char_digit_value, digit_value,
    is_alpha, is_alphanumeric, is_digit, push_char,
};

verus! {

/// A numeric stylesheet token value: an integer part and a fractional part,
/// each accumulated digit by digit (saturating at the integer limit), with
/// the count of fractional digits consumed.
#[derive(Debug, Clone, Copy, PartialEq, Eq, Structural)]
pub struct CssNumber {
    pub int_part: u64,
    pub frac_part: u64,
    pub frac_len: usize,
}

#[derive(Debug, Clone, PartialEq)]
pub enum CssToken {
    HashToken(String),
    Delim(char),
    Number(CssNumber),
    Colon,
    SemiColon,
    OpenParenthesis,
    CloseParenthesis,
    OpenCurly,
    CloseCurly,
    Ident(String),
    StringToken(String),
    AtKeyword(String),
}

/// Mathematical image of a [`CssToken`], with strings as character sequences.
pub enum CssTokenV {
    HashToken(Seq<char>),
    Delim(char),
    Number(CssNumber),
    Colon,
    SemiColon,
    OpenParenthesis,
    CloseParenthesis,
    OpenCurly,
    CloseCurly,
    Ident(Seq<char>),
    StringToken(Seq<char>),
    AtKeyword(Seq<char>),
}

impl View for CssToken {
    type V = CssTokenV;

    open spec fn view(&self) -> CssTokenV {
        match self {
            CssToken::HashToken(s) => CssTokenV::HashToken(s@),
            CssToken::Delim(c) => CssTokenV::Delim(*c),
            CssToken::Number(n) => CssTokenV::Number(*n),
            CssToken::Colon => CssTokenV::Colon,
            CssToken::SemiColon => CssTokenV::SemiColon,
            CssToken::OpenParenthesis => CssTokenV::OpenParenthesis,
            CssToken::CloseParenthesis => CssTokenV::CloseParenthesis,
            CssToken::OpenCurly => CssTokenV::OpenCurly,
            CssToken::CloseCurly => CssTokenV::CloseCurly,
            CssToken::Ident(s) => CssTokenV::Ident(s@),
            CssToken::StringToken(s) => CssTokenV::StringToken(s@),
            CssToken::AtKeyword(s) => CssTokenV::AtKeyword(s@),
        }
    }
}

/// Mathematical image of a [`CssTokenizer`]: the input characters and the
/// cursor position.
pub struct CssTokV {
    pub pos: int,
    pub input: Seq<char>,
}

#[derive(Debug, Clone, PartialEq)]
pub struct CssTokenizer {
    pos: usize,
    input: Vec<char>,
}

impl View for CssTokenizer {
    type V = CssTokV;

    closed spec fn view(&self) -> CssTokV {
        CssTokV { pos: self.pos as int, input: self.input@ }
    }
}

/// A character that may continue an identifier.
pub open spec fn is_ident_char(c: char) -> bool {
    is_alphanumeric(c) || c == '-' || c == '_'
}

/// One digit added to a saturating decimal accumulator.
pub open spec fn push_digit(acc: u64, c: char) -> u64 {
    if acc * 10 + digit_value(c) <= u64::MAX {
        (acc * 10 + digit_value(c)) as u64
    } else {
        u64::MAX
    }
}

/// The identifier continuation starting at `i`: its characters and the
/// position just past it.
pub open spec fn ident_tail_s(s: Seq<char>, i: int) -> (Seq<char>, int)
    decreases s.len() - i,
    when 0 <= i
{
    if i >= s.len() || !is_ident_char(s[i]) {
        (Seq::<char>::empty(), i)
    } else {
        let r = ident_tail_s(s, i + 1);
        (seq![s[i]] + r.0, r.1)
    }
}

/// The body of a quoted string starting at `i` (just after the opening
/// quote): its contents and the position just past the closing quote, or
/// past the end if no quote follows. Either quote character closes it.
pub open spec fn string_body_s(s: Seq<char>, i: int) -> (Seq<char>, int)
    decreases s.len() - i,
    when 0 <= i
{
    if i >= s.len() {
        (Seq::<char>::empty(), i)
    } else if s[i] == '"' || s[i] == '\'' {
        (Seq::<char>::empty(), i + 1)
    } else {
        let r = string_body_s(s, i + 1);
        (seq![s[i]] + r.0, r.1)
    }
}

/// The numeric token starting at `i` with the given accumulator state:
/// digits extend the integer part until a period is seen, then the
/// fractional part; anything else ends the number.
pub open spec fn number_body_s(s: Seq<char>, i: int, n: CssNumber, floating: bool) -> (
    CssNumber,
    int,
)
    decreases s.len() - i,
    when 0 <= i
{
    if i >= s.len() {
        (n, i)
    } else if is_digit(s[i]) {
        if floating {
            number_body_s(
                s,
                i + 1,
                CssNumber {
                    frac_part: push_digit(n.frac_part, s[i]),
                    frac_len: if n.frac_len < usize::MAX {
                        (n.frac_len + 1) as usize
                    } else {
                        usize::MAX
                    },
                    ..n
                },
                floating,
            )
        } else {
            number_body_s(s, i + 1, CssNumber { int_part: push_digit(n.int_part, s[i]), ..n }, floating)
        }
    } else if s[i] == '.' {
        number_body_s(s, i + 1, n, true)
    } else {
        (n, i)
    }
}

/// Whether the three characters after an `@` at `i` make an at-keyword:
/// a letter and two further letters or digits.
pub open spec fn at_keyword_follows(s: Seq<char>, i: int) -> bool {
    &&& i + 3 < s.len()
    &&& is_alpha(s[i + 1])
    &&& is_alphanumeric(s[i + 2])
    &&& is_alphanumeric(s[i + 3])
}

/// One call of the stylesheet tokenizer: the state after the call and the
/// token it yields, `None` once the input is exhausted.
pub open spec fn css_next_s(m: CssTokV) -> (CssTokV, Option<CssTokenV>)
    decreases m.input.len() - m.pos,
    when 0 <= m.pos
{
    let s = m.input;
    let i = m.pos;
    if i >= s.len() {
        (m, None)
    } else {
        let c = s[i];
        if c == ' ' || c == '\n' {
            css_next_s(CssTokV { pos: i + 1, ..m })
        } else if c == '(' {
            (CssTokV { pos: i + 1, ..m }, Some(CssTokenV::OpenParenthesis))
        } else if c == ')' {
            (CssTokV { pos: i + 1, ..m }, Some(CssTokenV::CloseParenthesis))
        } else if c == ',' || c == '.' {
            (CssTokV { pos: i + 1, ..m }, Some(CssTokenV::Delim(c)))
        } else if c == ':' {
            (CssTokV { pos: i + 1, ..m }, Some(CssTokenV::Colon))
        } else if c == ';' {
            (CssTokV { pos: i + 1, ..m }, Some(CssTokenV::SemiColon))
        } else if c == '{' {
            (CssTokV { pos: i + 1, ..m }, Some(CssTokenV::OpenCurly))
        } else if c == '}' {
            (CssTokV { pos: i + 1, ..m }, Some(CssTokenV::CloseCurly))
        } else if c == '"' || c == '\'' {
            let r = string_body_s(s, i + 1);
            (CssTokV { pos: r.1, ..m }, Some(CssTokenV::StringToken(r.0)))
        } else if is_digit(c) {
            let r = number_body_s(s, i, CssNumber { int_part: 0, frac_part: 0, frac_len: 0 }, false);
            (CssTokV { pos: r.1, ..m }, Some(CssTokenV::Number(r.0)))
        } else if c == '#' {
            let r = ident_tail_s(s, i + 1);
            (CssTokV { pos: r.1, ..m }, Some(CssTokenV::HashToken(seq![c] + r.0)))
        } else if c == '-' || c == '_' || is_alpha(c) {
            let r = ident_tail_s(s, i + 1);
            (CssTokV { pos: r.1, ..m }, Some(CssTokenV::Ident(seq![c] + r.0)))
        } else if c == '@' {
            if at_keyword_follows(s, i) {
                let r = ident_tail_s(s, i + 2);
                (CssTokV { pos: r.1, ..m }, Some(CssTokenV::AtKeyword(seq![s[i + 1]] + r.0)))
            } else {
                (CssTokV { pos: i + 1, ..m }, Some(CssTokenV::Delim('@')))
            }
        } else {
            (CssTokV { pos: i + 1, ..m }, Some(CssTokenV::Delim(c)))
        }
    }
}

/// The image of an optional token.
pub open spec fn opt_css_token_view(t: Option<CssToken>) -> Option<CssTokenV> {
    match t {
        Some(t) => Some(t@),
        None => None,
    }
}

impl CssTokenizer {
    /// A tokenizer over the characters of `css`, positioned at the start.
    pub fn new(css: String) -> (t: Self)
        ensures
            t@.pos == 0,
            t@.input == css@,
    {
        Self { pos: 0, input: chars_of(css.as_str()) }
    }

    /// Reads the identifier continuation at the cursor.
    fn consume_ident_tail(&mut self) -> (r: String)
        requires
            old(self)@.pos >= 0,
        ensures
            final(self)@.input == old(self)@.input,
            (r@, final(self)@.pos) == ident_tail_s(old(self)@.input, old(self)@.pos),
            old(self)@.pos <= old(self)@.input.len() ==> final(self)@.pos <= final(self)@.input.len(),
    {
        let mut s = String::new();
        loop
            invariant
                self@.input == old(self)@.input,
                self.pos <= usize::MAX,
                old(self)@.pos <= self@.pos,
                old(self)@.pos <= old(self)@.input.len() ==> self@.pos <= self@.input.len(),
                ident_tail_s(self@.input, old(self)@.pos) == {
                    let r = ident_tail_s(self@.input, self@.pos);
                    (s@ + r.0, r.1)
                },
            decreases self@.input.len() - self@.pos,
        {
            if self.pos >= self.input.len() {
                proof {
                    assert(s@ + Seq::<char>::empty() =~= s@);
                }
                return s;
            }
            let c = self.input[self.pos];
            if char_is_alphanumeric(c) || c == '-' || c == '_' {
                push_char(&mut s, c);
                self.pos = self.pos + 1;
                proof {
                    let i = self@.pos - 1;
                    let r = ident_tail_s(self@.input, self@.pos);
                    assert(ident_tail_s(self@.input, i) == (seq![self@.input[i]] + r.0, r.1));
                    assert(s@ + r.0 =~= (s@.drop_last() + (seq![self@.input[i]] + r.0)));
                }
            } else {
                proof {
                    assert(s@ + Seq::<char>::empty() =~= s@);
                }
                return s;
            }
        }
    }

    /// Reads a quoted string's contents, the cursor standing on the opening
    /// quote; the cursor ends past the closing quote, or at the end of the
    /// input if the string is not terminated.
    fn consume_string_token(&mut self) -> (r: String)
        requires
            0 <= old(self)@.pos < old(self)@.input.len(),
        ensures
            final(self)@.input == old(self)@.input,
            (r@, final(self)@.pos) == string_body_s(old(self)@.input, old(self)@.pos + 1),
            final(self)@.pos <= final(self)@.input.len(),
    {
        let mut s = String::new();
        let n = self.input.len();
        assert(self.pos < n);
        self.pos = self.pos + 1;
        let ghost start = self@.pos;
        loop
            invariant
                self@.input == old(self)@.input,
                0 <= start,
                start == old(self)@.pos + 1,
                start <= self@.pos,
                self@.pos <= self@.input.len(),
                self.pos <= usize::MAX,
                string_body_s(self@.input, start) == {
                    let r = string_body_s(self@.input, self@.pos);
                    (s@ + r.0, r.1)
                },
            decreases self@.input.len() - self@.pos,
        {
            if self.pos >= self.input.len() {
                proof {
                    assert(s@ + Seq::<char>::empty() =~= s@);
                }
                return s;
            }
            let c = self.input[self.pos];
            if c == '"' || c == '\'' {
                self.pos = self.pos + 1;
                proof {
                    assert(s@ + Seq::<char>::empty() =~= s@);
                }
                return s;
            }
            push_char(&mut s, c);
            self.pos = self.pos + 1;
            proof {
                let i = self@.pos - 1;
                let r = string_body_s(self@.input, self@.pos);
                assert(string_body_s(self@.input, i) == (seq![self@.input[i]] + r.0, r.1));
                assert(s@ + r.0 =~= (s@.drop_last() + (seq![self@.input[i]] + r.0)));
            }
        }
    }

    /// Reads a numeric token: digits build the integer part until a period
    /// is seen, then the fractional part; each part saturates.
    fn consume_numeric_token(&mut self) -> (r: CssNumber)
        requires
            old(self)@.pos >= 0,
        ensures
            final(self)@.input == old(self)@.input,
            (r, final(self)@.pos) == number_body_s(
                old(self)@.input,
                old(self)@.pos,
                CssNumber { int_part: 0, frac_part: 0, frac_len: 0 },
                false,
            ),
            old(self)@.pos <= old(self)@.input.len() ==> final(self)@.pos <= final(self)@.input.len(),
    {
        let mut n = CssNumber { int_part: 0, frac_part: 0, frac_len: 0 };
        let mut floating = false;
        loop
            invariant
                self@.input == old(self)@.input,
                old(self)@.pos <= self@.pos,
                old(self)@.pos <= old(self)@.input.len() ==> self@.pos <= self@.input.len(),
                self.pos <= usize::MAX,
                number_body_s(
                    self@.input,
                    old(self)@.pos,
                    CssNumber { int_part: 0, frac_part: 0, frac_len: 0 },
                    false,
                ) == number_body_s(self@.input, self@.pos, n, floating),
            decreases self@.input.len() - self@.pos,
        {
            if self.pos >= self.input.len() {
                return n;
            }
            let c = self.input[self.pos];
            if char_is_digit(c) {
                let d = char_digit_value(c);
                if floating {
                    let fp = if n.frac_part <= (u64::MAX - d) / 10 {
                        n.frac_part * 10 + d
                    } else {
                        u64::MAX
                    };
                    proof {
                        assert(fp == push_digit(n.frac_part, c));
                    }
                    let fl = if n.frac_len < usize::MAX {
                        n.frac_len + 1
                    } else {
                        usize::MAX
                    };
                    n = CssNumber { frac_part: fp, frac_len: fl, ..n };
                } else {
                    let ip = if n.int_part <= (u64::MAX - d) / 10 {
                        n.int_part * 10 + d
                    } else {
                        u64::MAX
                    };
                    proof {
                        assert(ip == push_digit(n.int_part, c));
                    }
                    n = CssNumber { int_part: ip, ..n };
                }
                self.pos = self.pos + 1;
            } else if c == '.' {
                floating = true;
                self.pos = self.pos + 1;
            } else {
                return n;
            }
        }
    }

    /// A copy of this tokenizer, with its state pinned in the contract.
    pub fn duplicate(&self) -> (r: Self)
        ensures
            r@ == self@,
    {
        Self { pos: self.pos, input: crate::strutil::copy_chars(&self.input) }
    }

    /// Yields the next stylesheet token, or `None` once the input is
    /// exhausted.
    pub fn next(&mut self) -> (r: Option<CssToken>)
        requires
            old(self)@.pos >= 0,
        ensures
            final(self)@.input == old(self)@.input,
            old(self)@.pos <= final(self)@.pos,
            (final(self)@, opt_css_token_view(r)) == css_next_s(old(self)@),
            r is Some ==> old(self)@.pos < final(self)@.pos,
        old(self)@.pos <= old(self)@.input.len() ==> final(self)@.pos <= final(self)@.input.len(),
    {
        proof {
            lemma_css_next_advances(self@);
        }
        loop
            invariant
                self@.input == old(self)@.input,
                old(self)@.pos <= self@.pos,
                old(self)@.pos <= old(self)@.input.len() ==> self@.pos <= self@.input.len(),
                self.pos <= usize::MAX,
                css_next_s(old(self)@) == css_next_s(self@),
                css_next_s(old(self)@).1 is Some ==> old(self)@.pos < css_next_s(old(self)@).0.pos,
            decreases self@.input.len() - self@.pos,
        {
            if self.pos >= self.input.len() {
                return None;
            }
            let ghost m0 = self@;
            let c = self.input[self.pos];
            if c == ' ' || c == '\n' {
                self.pos = self.pos + 1;
                proof {
                    lemma_css_next_advances(self@);
                }
                continue;
            }
            if c == '(' {
                self.pos = self.pos + 1;
                return Some(CssToken::OpenParenthesis);
            }
            if c == ')' {
                self.pos = self.pos + 1;
                return Some(CssToken::CloseParenthesis);
            }
            if c == ',' || c == '.' {
                self.pos = self.pos + 1;
                return Some(CssToken::Delim(c));
            }
            if c == ':' {
                self.pos = self.pos + 1;
                return Some(CssToken::Colon);
            }
            if c == ';' {
                self.pos = self.pos + 1;
                return Some(CssToken::SemiColon);
            }
            if c == '{' {
                self.pos = self.pos + 1;
                return Some(CssToken::OpenCurly);
            }
            if c == '}' {
                self.pos = self.pos + 1;
                return Some(CssToken::CloseCurly);
            }
            if c == '"' || c == '\'' {
                let value = self.consume_string_token();
                return Some(CssToken::StringToken(value));
            }
            if char_is_digit(c) {
                let n = self.consume_numeric_token();
                return Some(CssToken::Number(n));
            }
            if c == '#' {
                let mut value = String::new();
                push_char(&mut value, c);
                self.pos = self.pos + 1;
                let tail = self.consume_ident_tail();
                value.append(tail.as_str());
                proof {
                    assert(value@ == seq!['#'] + ident_tail_s(m0.input, m0.pos + 1).0);
                }
                return Some(CssToken::HashToken(value));
            }
            if c == '-' || c == '_' || char_is_alpha(c) {
                let mut value = String::new();
                push_char(&mut value, c);
                self.pos = self.pos + 1;
                let tail = self.consume_ident_tail();
                value.append(tail.as_str());
                proof {
                    assert(value@ == seq![c] + ident_tail_s(m0.input, m0.pos + 1).0);
                }
                return Some(CssToken::Ident(value));
            }
            if c == '@' {
                if self.input.len() - self.pos > 3 && char_is_alpha(self.input[self.pos + 1])
                    && char_is_alphanumeric(self.input[self.pos + 2]) && char_is_alphanumeric(
                    self.input[self.pos + 3],
                ) {
                    let c1 = self.input[self.pos + 1];
                    let mut value = String::new();
                    push_char(&mut value, c1);
                    self.pos = self.pos + 2;
                    let tail = self.consume_ident_tail();
                    value.append(tail.as_str());
                    proof {
                        assert(value@ == seq![m0.input[m0.pos + 1]] + ident_tail_s(
                            m0.input,
                            m0.pos + 2,
                        ).0);
                    }
                    return Some(CssToken::AtKeyword(value));
                }
                self.pos = self.pos + 1;
                return Some(CssToken::Delim('@'));
            }
            self.pos = self.pos + 1;
            return Some(CssToken::Delim(c));
        }
    }
}

/// When the tokenizer yields a token, its cursor has moved forward; when it
/// yields none, its state is unchanged.
pub proof fn lemma_css_next_advances(m: CssTokV)
    requires
        m.pos >= 0,
    ensures
        css_next_s(m).1 is Some ==> m.pos < css_next_s(m).0.pos,
        m.pos <= css_next_s(m).0.pos,
        css_next_s(m).0.input == m.input,
        m.pos <= m.input.len() ==> css_next_s(m).0.pos <= m.input.len(),
    decreases m.input.len() - m.pos,
{
    let r = css_next_s(m);
    if m.pos >= m.input.len() {
        assert(r == (m, None::<CssTokenV>));
    } else {
        let c = m.input[m.pos];
        if c == ' ' || c == '\n' {
            let m1 = CssTokV { pos: m.pos + 1, ..m };
            lemma_css_next_advances(m1);
            assert(r == css_next_s(m1));
        } else if c == '"' || c == '\'' {
            lemma_string_body_advances(m.input, m.pos + 1);
            assert(r.0.pos == string_body_s(m.input, m.pos + 1).1);
        } else if is_digit(c) {
            lemma_number_body_advances(
                m.input,
                m.pos + 1,
                CssNumber {
                    int_part: push_digit(0, c),
                    frac_part: 0,
                    frac_len: 0,
                },
                false,
            );
            assert(m.pos < r.0.pos);
        } else if c == '#' {
            lemma_ident_tail_advances(m.input, m.pos + 1);
            assert(m.pos < r.0.pos);
        } else if c == '-' || c == '_' || is_alpha(c) {
            lemma_ident_tail_advances(m.input, m.pos + 1);
            assert(m.pos < r.0.pos);
        } else if c == '@' {
            if at_keyword_follows(m.input, m.pos) {
                lemma_ident_tail_advances(m.input, m.pos + 2);
                assert(m.pos < r.0.pos);
            } else {
                assert(r.0.pos == m.pos + 1);
            }
        } else {
            assert(r.0.pos == m.pos + 1);
        }
    }
}

proof fn lemma_ident_tail_advances(s: Seq<char>, i: int)
    requires
        0 <= i,
    ensures
        i <= ident_tail_s(s, i).1,
        i <= s.len() ==> ident_tail_s(s, i).1 <= s.len(),
    decreases s.len() - i,
{
    if i >= s.len() || !is_ident_char(s[i]) {
    } else {
        lemma_ident_tail_advances(s, i + 1);
    }
}

proof fn lemma_string_body_advances(s: Seq<char>, i: int)
    requires
        0 <= i,
    ensures
        i <= string_body_s(s, i).1,
        i <= s.len() ==> string_body_s(s, i).1 <= s.len(),
    decreases s.len() - i,
{
    if i >= s.len() {
    } else if s[i] == '"' || s[i] == '\'' {
    } else {
        lemma_string_body_advances(s, i + 1);
    }
}

proof fn lemma_number_body_advances(s: Seq<char>, i: int, n: CssNumber, floating: bool)
    requires
        0 <= i,
    ensures
        i <= number_body_s(s, i, n, floating).1,
        i <= s.len() ==> number_body_s(s, i, n, floating).1 <= s.len(),
    decreases s.len() - i,
{
    if i >= s.len() {
    } else if is_digit(s[i]) {
        if floating {
            lemma_number_body_advances(
                s,
                i + 1,
                CssNumber {
                    frac_part: push_digit(n.frac_part, s[i]),
                    frac_len: if n.frac_len < usize::MAX {
                        (n.frac_len + 1) as usize
                    } else {
                        usize::MAX
                    },
                    ..n
                },
                floating,
            );
        } else {
            lemma_number_body_advances(
                s,
                i + 1,
                CssNumber { int_part: push_digit(n.int_part, s[i]), ..n },
                floating,
            );
        }
    } else if s[i] == '.' {
        lemma_number_body_advances(s, i + 1, n, true);
    }
}

} // verus!
