use vstd::prelude::*;

use crate::keywords::push_char;
use crate::keywords::str_eq;

verus! {

/// One token of the source language.  Both Spanish and English keyword
/// spellings fold to a single token kind.
#[derive(Debug, Clone)]
pub enum Token {
    Number(i32),
    String(String),
    Identifier(String),
    Numero,
    Imprimir,
    Si,
    Sino,
    Mientras,
    Import,
    Plus,
    Minus,
    Star,
    Slash,
    Equal,
    Less,
    Greater,
    Assign,
    LParen,
    RParen,
    LBrace,
    RBrace,
    Newline,
    Eof,
}

/// The mathematical shape of a token: text payloads as character
/// sequences.
pub enum TokenV {
    Number(i32),
    Text(Seq<char>),
    Identifier(Seq<char>),
    Numero,
    Imprimir,
    Si,
    Sino,
    Mientras,
    Import,
    Plus,
    Minus,
    Star,
    Slash,
    Equal,
    Less,
    Greater,
    Assign,
    LParen,
    RParen,
    LBrace,
    RBrace,
    Newline,
    Eof,
}

/// The shape of a token.
pub open spec fn view_token(t: Token) -> TokenV {
    match t {
        Token::Number(n) => TokenV::Number(n),
        Token::String(s) => TokenV::Text(s@),
        Token::Identifier(s) => TokenV::Identifier(s@),
        Token::Numero => TokenV::Numero,
        Token::Imprimir => TokenV::Imprimir,
        Token::Si => TokenV::Si,
        Token::Sino => TokenV::Sino,
        Token::Mientras => TokenV::Mientras,
        Token::Import => TokenV::Import,
        Token::Plus => TokenV::Plus,
        Token::Minus => TokenV::Minus,
        Token::Star => TokenV::Star,
        Token::Slash => TokenV::Slash,
        Token::Equal => TokenV::Equal,
        Token::Less => TokenV::Less,
        Token::Greater => TokenV::Greater,
        Token::Assign => TokenV::Assign,
        Token::LParen => TokenV::LParen,
        Token::RParen => TokenV::RParen,
        Token::LBrace => TokenV::LBrace,
        Token::RBrace => TokenV::RBrace,
        Token::Newline => TokenV::Newline,
        Token::Eof => TokenV::Eof,
    }
}

/// A token beside the line and column where it was read.
#[derive(Debug, Clone)]
pub struct TokenInfo {
    pub token: Token,
    pub line: usize,
    pub col: usize,
}

/// The shape of a positioned token.
#[verifier::ext_equal]
pub struct TokenInfoV {
    pub token: TokenV,
    pub line: int,
    pub col: int,
}

/// The shape of a positioned token.
pub open spec fn view_token_info(t: TokenInfo) -> TokenInfoV {
    TokenInfoV { token: view_token(t.token), line: t.line as int, col: t.col as int }
}

/// The shape of a token list.
pub open spec fn view_token_infos(v: Seq<TokenInfo>) -> Seq<TokenInfoV> {
    Seq::new(v.len(), |i: int| view_token_info(v[i]))
}

/// A fatal lexical condition, with the line and column where it was found.
#[derive(Debug, Clone, Copy, PartialEq, Eq, Structural)]
pub struct LexError {
    pub line: usize,
    pub col: usize,
    pub kind: LexErrorKind,
}

/// What went wrong lexically.
#[derive(Debug, Clone, Copy, PartialEq, Eq, Structural)]
pub enum LexErrorKind {
    /// A string literal ran to the end of the input without its closing
    /// quote.
    UnterminatedString,
    /// A backslash escape ran to the end of the input.
    UnterminatedEscape,
    /// A character no token can start with.
    UnexpectedChar(char),
}

/// The lexer's cursor: an offset into the input and the 1-based line and
/// column of that offset.
#[verifier::ext_equal]
pub struct LexStateV {
    pub pos: int,
    pub line: int,
    pub col: int,
}

/// Step the cursor over one character, tracking line and column; a newline
/// starts the next line at column 1.
pub open spec fn spec_advance(s: Seq<char>, st: LexStateV) -> LexStateV {
    if st.pos < s.len() {
        if s[st.pos] == '\n' {
            LexStateV { pos: st.pos + 1, line: st.line + 1, col: 1 }
        } else {
            LexStateV { pos: st.pos + 1, line: st.line, col: st.col + 1 }
        }
    } else {
        st
    }
}

/// Whether `c` is an ASCII decimal digit.
pub open spec fn spec_is_digit(c: char) -> bool {
    '0' <= c && c <= '9'
}

/// Whether `c` counts as alphabetic; what `char::is_alphabetic` returns,
/// which depends on the character alone.
pub uninterp spec fn spec_is_alphabetic(c: char) -> bool;

/// Whether `c` counts as alphanumeric; what `char::is_alphanumeric`
/// returns, which depends on the character alone.
pub uninterp spec fn spec_is_alphanumeric(c: char) -> bool;

/// Relies on `char::is_alphabetic`; an alphabetic character is also
/// alphanumeric, as its documentation states.
#[verifier::external_body]
fn is_alphabetic_char(c: char) -> (r: bool)
    ensures
        r == spec_is_alphabetic(c),
        r ==> spec_is_alphanumeric(c),
{
    c.is_alphabetic()
}

/// Relies on `char::is_alphanumeric`.
#[verifier::external_body]
fn is_alphanumeric_char(c: char) -> (r: bool)
    ensures
        r == spec_is_alphanumeric(c),
{
    c.is_alphanumeric()
}

/// Relies on `str::chars`: the characters of the string, in order.  A
/// string slice occupies at most `isize::MAX` bytes, so it holds fewer
/// than `usize::MAX` characters.
#[verifier::external_body]
fn str_chars(s: &str) -> (r: Vec<char>)
    ensures
        r@ == s@,
        r@.len() < usize::MAX,
{
    s.chars().collect()
}

/// Whether `c` continues an identifier.
pub open spec fn spec_is_word_char(c: char) -> bool {
    spec_is_alphanumeric(c) || c == '_'
}

/// Skip spaces, tabs and carriage returns; a newline is itself a token and
/// is not skipped.
pub open spec fn spec_skip_ws(s: Seq<char>, st: LexStateV) -> LexStateV
    decreases s.len() - st.pos,
{
    if 0 <= st.pos < s.len() && (s[st.pos] == ' ' || s[st.pos] == '\t' || s[st.pos] == '\r') {
        spec_skip_ws(s, spec_advance(s, st))
    } else {
        st
    }
}

/// The maximal run of ASCII digits at the cursor, and the cursor after it.
pub open spec fn spec_scan_digits(s: Seq<char>, st: LexStateV) -> (Seq<char>, LexStateV)
    decreases s.len() - st.pos,
{
    if 0 <= st.pos < s.len() && spec_is_digit(s[st.pos]) {
        let (rest, st2) = spec_scan_digits(s, spec_advance(s, st));
        (seq![s[st.pos]] + rest, st2)
    } else {
        (Seq::empty(), st)
    }
}

/// The numeric value of a digit run.
pub open spec fn spec_digits_value(digits: Seq<char>) -> int
    decreases digits.len(),
{
    if digits.len() == 0 {
        0
    } else {
        spec_digits_value(digits.drop_last()) * 10 + (digits.last() as int - 48)
    }
}

/// A digit run read as a signed 32-bit value; a run whose value does not
/// fit defaults to zero, a documented rough edge.
pub open spec fn spec_number_value(digits: Seq<char>) -> i32 {
    if spec_digits_value(digits) <= i32::MAX {
        spec_digits_value(digits) as i32
    } else {
        0
    }
}

/// The maximal identifier run (alphanumerics and underscores) at the
/// cursor, and the cursor after it.
pub open spec fn spec_scan_ident(s: Seq<char>, st: LexStateV) -> (Seq<char>, LexStateV)
    decreases s.len() - st.pos,
{
    if 0 <= st.pos < s.len() && spec_is_word_char(s[st.pos]) {
        let (rest, st2) = spec_scan_ident(s, spec_advance(s, st));
        (seq![s[st.pos]] + rest, st2)
    } else {
        (Seq::empty(), st)
    }
}

/// The body of a string literal, read from just after the opening quote:
/// the cooked text and the cursor after the closing quote, or the lexical
/// error.  `\n \t \\ \" \'` are the recognized escapes; an unrecognized
/// escape passes the following character through literally.
pub open spec fn spec_string_body(s: Seq<char>, st: LexStateV, quote: char, acc: Seq<char>) -> Result<
    (Seq<char>, LexStateV),
    LexError,
>
    decreases s.len() - st.pos,
{
    if !(0 <= st.pos < s.len()) {
        Err(
            LexError {
                line: st.line as usize,
                col: st.col as usize,
                kind: LexErrorKind::UnterminatedString,
            },
        )
    } else {
        let c = s[st.pos];
        if c == quote {
            Ok((acc, spec_advance(s, st)))
        } else if c == '\\' {
            if st.pos + 1 < s.len() {
                let next = s[st.pos + 1];
                if next == 'n' {
                    spec_string_body(
                        s,
                        spec_advance(s, spec_advance(s, st)),
                        quote,
                        acc.push('\n'),
                    )
                } else if next == 't' {
                    spec_string_body(
                        s,
                        spec_advance(s, spec_advance(s, st)),
                        quote,
                        acc.push('\t'),
                    )
                } else if next == '\\' {
                    spec_string_body(
                        s,
                        spec_advance(s, spec_advance(s, st)),
                        quote,
                        acc.push('\\'),
                    )
                } else if next == '"' {
                    spec_string_body(s, spec_advance(s, spec_advance(s, st)), quote, acc.push('"'))
                } else if next == '\'' {
                    spec_string_body(
                        s,
                        spec_advance(s, spec_advance(s, st)),
                        quote,
                        acc.push('\''),
                    )
                } else {
                    // Unrecognized escape: the next character passes through.
                    spec_string_body(
                        s,
                        spec_advance(s, spec_advance(s, st)),
                        quote,
                        acc.push(next),
                    )
                }
            } else {
                let st1 = spec_advance(s, st);
                Err(
                    LexError {
                        line: st1.line as usize,
                        col: st1.col as usize,
                        kind: LexErrorKind::UnterminatedEscape,
                    },
                )
            }
        } else {
            spec_string_body(s, spec_advance(s, st), quote, acc.push(c))
        }
    }
}

/// Keyword folding: both surface spellings of a concept become one token;
/// any other word is an identifier.
pub open spec fn spec_keyword_token(w: Seq<char>) -> TokenV {
    if w == "numero"@ || w == "number"@ {
        TokenV::Numero
    } else if w == "imprimir"@ || w == "print"@ {
        TokenV::Imprimir
    } else if w == "si"@ || w == "if"@ {
        TokenV::Si
    } else if w == "sino"@ || w == "else"@ {
        TokenV::Sino
    } else if w == "mientras"@ || w == "while"@ {
        TokenV::Mientras
    } else if w == "import"@ {
        TokenV::Import
    } else {
        TokenV::Identifier(w)
    }
}

/// One token read at the cursor: the token with the line and column where
/// the read began (before whitespace is skipped), and the cursor after it;
/// or a fatal lexical error.
pub open spec fn spec_next_token(s: Seq<char>, st: LexStateV) -> Result<
    (TokenInfoV, LexStateV),
    LexError,
> {
    let start_line = st.line;
    let start_col = st.col;
    let st1 = spec_skip_ws(s, st);
    if !(st1.pos < s.len()) {
        Ok((TokenInfoV { token: TokenV::Eof, line: start_line, col: start_col }, st1))
    } else {
        let c = s[st1.pos];
        if c == '\n' {
            Ok(
                (
                    TokenInfoV { token: TokenV::Newline, line: start_line, col: start_col },
                    spec_advance(s, st1),
                ),
            )
        } else if c == '+' {
            Ok(
                (
                    TokenInfoV { token: TokenV::Plus, line: start_line, col: start_col },
                    spec_advance(s, st1),
                ),
            )
        } else if c == '-' {
            Ok(
                (
                    TokenInfoV { token: TokenV::Minus, line: start_line, col: start_col },
                    spec_advance(s, st1),
                ),
            )
        } else if c == '*' {
            Ok(
                (
                    TokenInfoV { token: TokenV::Star, line: start_line, col: start_col },
                    spec_advance(s, st1),
                ),
            )
        } else if c == '/' {
            Ok(
                (
                    TokenInfoV { token: TokenV::Slash, line: start_line, col: start_col },
                    spec_advance(s, st1),
                ),
            )
        } else if c == '<' {
            Ok(
                (
                    TokenInfoV { token: TokenV::Less, line: start_line, col: start_col },
                    spec_advance(s, st1),
                ),
            )
        } else if c == '>' {
            Ok(
                (
                    TokenInfoV { token: TokenV::Greater, line: start_line, col: start_col },
                    spec_advance(s, st1),
                ),
            )
        } else if c == '=' {
            let st2 = spec_advance(s, st1);
            if st2.pos < s.len() && s[st2.pos] == '=' {
                Ok(
                    (
                        TokenInfoV { token: TokenV::Equal, line: start_line, col: start_col },
                        spec_advance(s, st2),
                    ),
                )
            } else {
                Ok((TokenInfoV { token: TokenV::Assign, line: start_line, col: start_col }, st2))
            }
        } else if c == '(' {
            Ok(
                (
                    TokenInfoV { token: TokenV::LParen, line: start_line, col: start_col },
                    spec_advance(s, st1),
                ),
            )
        } else if c == ')' {
            Ok(
                (
                    TokenInfoV { token: TokenV::RParen, line: start_line, col: start_col },
                    spec_advance(s, st1),
                ),
            )
        } else if c == '{' {
            Ok(
                (
                    TokenInfoV { token: TokenV::LBrace, line: start_line, col: start_col },
                    spec_advance(s, st1),
                ),
            )
        } else if c == '}' {
            Ok(
                (
                    TokenInfoV { token: TokenV::RBrace, line: start_line, col: start_col },
                    spec_advance(s, st1),
                ),
            )
        } else if c == '"' || c == '\'' {
            match spec_string_body(s, spec_advance(s, st1), c, Seq::empty()) {
                Ok((text, st2)) => Ok(
                    (
                        TokenInfoV {
                            token: TokenV::Text(text),
                            line: start_line,
                            col: start_col,
                        },
                        st2,
                    ),
                ),
                Err(e) => Err(e),
            }
        } else if spec_is_digit(c) {
            let (digits, st2) = spec_scan_digits(s, st1);
            Ok(
                (
                    TokenInfoV {
                        token: TokenV::Number(spec_number_value(digits)),
                        line: start_line,
                        col: start_col,
                    },
                    st2,
                ),
            )
        } else if spec_is_alphabetic(c) || c == '_' {
            let (word, st2) = spec_scan_ident(s, st1);
            Ok(
                (
                    TokenInfoV {
                        token: spec_keyword_token(word),
                        line: start_line,
                        col: start_col,
                    },
                    st2,
                ),
            )
        } else {
            Err(
                LexError {
                    line: st1.line as usize,
                    col: st1.col as usize,
                    kind: LexErrorKind::UnexpectedChar(c),
                },
            )
        }
    }
}

/// The whole token stream from the cursor on: every token through the
/// terminal `Eof` inclusive, or the first lexical error.
pub open spec fn spec_tokenize(s: Seq<char>, st: LexStateV) -> Result<Seq<TokenInfoV>, LexError>
    decreases s.len() - st.pos,
{
    match spec_next_token(s, st) {
        Err(e) => Err(e),
        Ok((ti, st2)) => {
            if ti.token is Eof {
                Ok(seq![ti])
            } else if st.pos < st2.pos <= s.len() {
                match spec_tokenize(s, st2) {
                    Err(e) => Err(e),
                    Ok(rest) => Ok(seq![ti] + rest),
                }
            } else {
                // A non-Eof token always advances the cursor; this branch is
                // never taken.
                Ok(seq![ti])
            }
        },
    }
}

/// The positional lexer: one pass over the source text, producing tokens
/// with line/column metadata and ending in exactly one end-of-stream
/// token.
pub struct Lexer {
    input: Vec<char>,
    position: usize,
    current_char: Option<char>,
    pub line: usize,
    pub col: usize,
}

impl Lexer {
    /// The characters being read.
    pub closed spec fn spec_input(&self) -> Seq<char> {
        self.input@
    }

    /// The cursor.
    pub closed spec fn spec_state(&self) -> LexStateV {
        LexStateV { pos: self.position as int, line: self.line as int, col: self.col as int }
    }

    /// The lexer's internal consistency: the cursor stays within the
    /// input, the cached character mirrors the cursor, and line/column
    /// stay 1-based and bounded by the distance read.
    pub closed spec fn wf(&self) -> bool {
        &&& self.position <= self.input@.len()
        &&& self.input@.len() < usize::MAX
        &&& self.current_char == (if self.position < self.input@.len() {
            Some(self.input@[self.position as int])
        } else {
            None::<char>
        })
        &&& 1 <= self.line
        &&& 1 <= self.col
        &&& self.line + self.col <= self.position + 2
    }

    /// A fresh lexer over `input`, at line 1, column 1.
    pub fn new(input: String) -> (r: Self)
        ensures
            r.wf(),
            r.spec_input() == input@,
            r.spec_state() == (LexStateV { pos: 0, line: 1, col: 1 }),
    {
        let chars = str_chars(input.as_str());
        let current_char = if chars.len() > 0 {
            Some(chars[0])
        } else {
            None
        };
        Lexer { input: chars, position: 0, current_char, line: 1, col: 1 }
    }

    /// Step over one character, tracking line and column.
    fn advance(&mut self)
        requires
            old(self).wf(),
        ensures
            final(self).wf(),
            final(self).spec_input() == old(self).spec_input(),
            final(self).spec_state() == spec_advance(old(self).spec_input(), old(self).spec_state()),
    {
        match self.current_char {
            Some(ch) => {
                if ch == '\n' {
                    self.line = self.line + 1;
                    self.col = 1;
                } else {
                    self.col = self.col + 1;
                }
                self.position = self.position + 1;
                self.current_char = if self.position < self.input.len() {
                    Some(self.input[self.position])
                } else {
                    None
                };
            },
            None => {},
        }
    }

    /// Whether the cursor stands on an ASCII digit.
    fn at_digit(&self) -> (r: bool)
        requires
            self.wf(),
        ensures
            r == (self.spec_state().pos < self.spec_input().len() && spec_is_digit(
                self.spec_input()[self.spec_state().pos],
            )),
    {
        match self.current_char {
            Some(ch) => '0' <= ch && ch <= '9',
            None => false,
        }
    }

    /// Whether the cursor stands on an identifier character.
    fn at_word_char(&self) -> (r: bool)
        requires
            self.wf(),
        ensures
            r == (self.spec_state().pos < self.spec_input().len() && spec_is_word_char(
                self.spec_input()[self.spec_state().pos],
            )),
    {
        match self.current_char {
            Some(ch) => is_alphanumeric_char(ch) || ch == '_',
            None => false,
        }
    }

    /// The maximal digit run at the cursor, as a signed 32-bit value; a
    /// run whose value does not fit defaults to zero.
    fn read_number(&mut self) -> (r: i32)
        requires
            old(self).wf(),
        ensures
            final(self).wf(),
            final(self).spec_input() == old(self).spec_input(),
            ({
                let (digits, st2) = spec_scan_digits(old(self).spec_input(), old(self).spec_state());
                r == spec_number_value(digits) && final(self).spec_state() == st2
            }),
    {
        let ghost s = self.spec_input();
        let ghost st0 = self.spec_state();
        let mut acc: u64 = 0;
        let ghost digits_read: Seq<char> = Seq::empty();
        while self.at_digit()
            invariant
                self.wf(),
                self.spec_input() == s,
                s == old(self).spec_input(),
                st0 == old(self).spec_state(),
                0 <= acc <= 0x1_0000_0000,
                acc == (if spec_digits_value(digits_read) <= 0x1_0000_0000 {
                    spec_digits_value(digits_read)
                } else {
                    0x1_0000_0000int
                }),
                spec_scan_digits(s, st0).1 == spec_scan_digits(s, self.spec_state()).1,
                spec_scan_digits(s, st0).0 == digits_read + spec_scan_digits(
                    s,
                    self.spec_state(),
                ).0,
            decreases s.len() - self.spec_state().pos,
        {
            let ch = match self.current_char {
                Some(ch) => ch,
                None => {
                    proof {
                        assert(false);
                    }
                    ' '
                },
            };
            let u = ch as u32;
            let d = (u - 48) as u64;
            proof {
                assert(d == ch as int - 48);
            }
            acc = acc * 10 + d;
            if acc > 0x1_0000_0000 {
                acc = 0x1_0000_0000;
            }
            proof {
                let cur = self.spec_state();
                let (rest2, st3) = spec_scan_digits(s, spec_advance(s, cur));
                assert(spec_scan_digits(s, cur).0 == seq![ch] + rest2);
                assert(digits_read + (seq![ch] + rest2) =~= digits_read.push(ch) + rest2);
                assert(digits_read.push(ch).drop_last() =~= digits_read);
                assert(spec_digits_value(digits_read.push(ch)) == spec_digits_value(digits_read)
                    * 10 + (ch as int - 48));
                assert(d == ch as int - 48);
                digits_read = digits_read.push(ch);
            }
            self.advance();
        }
        proof {
            assert(spec_scan_digits(s, self.spec_state()).0 =~= Seq::<char>::empty());
            assert(digits_read + Seq::<char>::empty() =~= digits_read);
            assert(spec_scan_digits(s, self.spec_state()).1 == self.spec_state());
        }
        if acc <= 0x7fff_ffff {
            acc as i32
        } else {
            0
        }
    }

    /// The maximal identifier run at the cursor.
    fn read_identifier(&mut self) -> (r: String)
        requires
            old(self).wf(),
        ensures
            final(self).wf(),
            final(self).spec_input() == old(self).spec_input(),
            ({
                let (word, st2) = spec_scan_ident(old(self).spec_input(), old(self).spec_state());
                r@ == word && final(self).spec_state() == st2
            }),
    {
        let ghost s = self.spec_input();
        let ghost st0 = self.spec_state();
        let mut id = String::new();
        while self.at_word_char()
            invariant
                self.wf(),
                self.spec_input() == s,
                s == old(self).spec_input(),
                st0 == old(self).spec_state(),
                spec_scan_ident(s, st0).1 == spec_scan_ident(s, self.spec_state()).1,
                spec_scan_ident(s, st0).0 == id@ + spec_scan_ident(s, self.spec_state()).0,
            decreases s.len() - self.spec_state().pos,
        {
            let ch = match self.current_char {
                Some(ch) => ch,
                None => {
                    proof {
                        assert(false);
                    }
                    ' '
                },
            };
            proof {
                let cur = self.spec_state();
                let (rest2, st3) = spec_scan_ident(s, spec_advance(s, cur));
                assert(spec_scan_ident(s, cur).0 == seq![ch] + rest2);
                assert(id@ + (seq![ch] + rest2) =~= id@.push(ch) + rest2);
            }
            push_char(&mut id, ch);
            self.advance();
        }
        proof {
            assert(spec_scan_ident(s, self.spec_state()).0 =~= Seq::<char>::empty());
            assert(id@ + Seq::<char>::empty() =~= id@);
            assert(spec_scan_ident(s, self.spec_state()).1 == self.spec_state());
        }
        id
    }

    /// The body of a string literal: consumes the opening quote, cooks
    /// escapes, and stops after the closing quote.
    fn read_string(&mut self) -> (r: Result<String, LexError>)
        requires
            old(self).wf(),
            old(self).spec_state().pos < old(self).spec_input().len(),
        ensures
            final(self).wf(),
            final(self).spec_input() == old(self).spec_input(),
            ({
                let q = old(self).spec_input()[old(self).spec_state().pos];
                match spec_string_body(
                    old(self).spec_input(),
                    spec_advance(old(self).spec_input(), old(self).spec_state()),
                    q,
                    Seq::empty(),
                ) {
                    Ok((text, st2)) => r is Ok && r->Ok_0@ == text && final(self).spec_state()
                        == st2,
                    Err(e) => r == Err::<String, LexError>(e),
                }
            }),
    {
        let ghost s = self.spec_input();
        let ghost entry = self.spec_state();
        let quote = match self.current_char {
            Some(q) => q,
            None => {
                proof {
                    assert(false);
                }
                ' '
            },
        };
        self.advance();
        let ghost st_start = self.spec_state();
        let mut text = String::new();
        loop
            invariant
                self.wf(),
                self.spec_input() == s,
                s == old(self).spec_input(),
                entry == old(self).spec_state(),
                0 <= entry.pos < s.len(),
                quote == s[entry.pos],
                st_start == spec_advance(s, entry),
                spec_string_body(s, st_start, quote, Seq::empty()) == spec_string_body(
                    s,
                    self.spec_state(),
                    quote,
                    text@,
                ),
            decreases s.len() - self.spec_state().pos,
        {
            match self.current_char {
                Some(ch) => {
                    if ch == quote {
                        self.advance();
                        return Ok(text);
                    }
                    if ch == '\\' {
                        if self.position + 1 < self.input.len() {
                            let next = self.input[self.position + 1];
                            let cooked = if next == 'n' {
                                '\n'
                            } else if next == 't' {
                                '\t'
                            } else if next == '\\' {
                                '\\'
                            } else if next == '"' {
                                '"'
                            } else if next == '\'' {
                                '\''
                            } else {
                                next
                            };
                            push_char(&mut text, cooked);
                            self.advance();
                            self.advance();
                        } else {
                            self.advance();
                            return Err(
                                LexError {
                                    line: self.line,
                                    col: self.col,
                                    kind: LexErrorKind::UnterminatedEscape,
                                },
                            );
                        }
                    } else {
                        push_char(&mut text, ch);
                        self.advance();
                    }
                },
                None => {
                    return Err(
                        LexError {
                            line: self.line,
                            col: self.col,
                            kind: LexErrorKind::UnterminatedString,
                        },
                    );
                },
            }
        }
    }

    pub fn next_token(&mut self) -> (r: Result<TokenInfo, LexError>)
        requires
            old(self).wf(),
        ensures
            final(self).wf(),
            final(self).spec_input() == old(self).spec_input(),
            match spec_next_token(old(self).spec_input(), old(self).spec_state()) {
                Ok((ti, st2)) => r is Ok && view_token_info(r->Ok_0) == ti && final(self).spec_state()
                    == st2 && (!(ti.token is Eof) ==> old(self).spec_state().pos < st2.pos
                    <= old(self).spec_input().len()),
                Err(e) => r == Err::<TokenInfo, LexError>(e),
            },
    {
        let ghost s = self.spec_input();
        let start_line = self.line;
        let start_col = self.col;

        proof {
            lemma_skip_ws_bounds(s, self.spec_state());
        }
        self.skip_whitespace();

        let tok: Token = match self.current_char {
            None => Token::Eof,
            Some(ch) => {
                if ch == '\n' {
                    self.advance();
                    Token::Newline
                } else if ch == '+' {
                    self.advance();
                    Token::Plus
                } else if ch == '-' {
                    self.advance();
                    Token::Minus
                } else if ch == '*' {
                    self.advance();
                    Token::Star
                } else if ch == '/' {
                    self.advance();
                    Token::Slash
                } else if ch == '<' {
                    self.advance();
                    Token::Less
                } else if ch == '>' {
                    self.advance();
                    Token::Greater
                } else if ch == '=' {
                    self.advance();
                    match self.current_char {
                        Some('=') => {
                            self.advance();
                            Token::Equal
                        },
                        _ => Token::Assign,
                    }
                } else if ch == '(' {
                    self.advance();
                    Token::LParen
                } else if ch == ')' {
                    self.advance();
                    Token::RParen
                } else if ch == '{' {
                    self.advance();
                    Token::LBrace
                } else if ch == '}' {
                    self.advance();
                    Token::RBrace
                } else if ch == '"' || ch == '\'' {
                    proof {
                        lemma_string_body_bounds(
                            s,
                            spec_advance(s, self.spec_state()),
                            ch,
                            Seq::empty(),
                        );
                    }
                    match self.read_string() {
                        Ok(text) => Token::String(text),
                        Err(e) => {
                            return Err(e);
                        },
                    }
                } else {
                    if '0' <= ch && ch <= '9' {
                        proof {
                            lemma_scan_digits_first(s, self.spec_state());
                        }
                        Token::Number(self.read_number())
                    } else if is_alphabetic_char(ch) || ch == '_' {
                        proof {
                            lemma_scan_ident_first(s, self.spec_state());
                        }
                        let id = self.read_identifier();
                        if str_eq(id.as_str(), "numero") || str_eq(id.as_str(), "number") {
                            Token::Numero
                        } else if str_eq(id.as_str(), "imprimir") || str_eq(id.as_str(), "print") {
                            Token::Imprimir
                        } else if str_eq(id.as_str(), "si") || str_eq(id.as_str(), "if") {
                            Token::Si
                        } else if str_eq(id.as_str(), "sino") || str_eq(id.as_str(), "else") {
                            Token::Sino
                        } else if str_eq(id.as_str(), "mientras") || str_eq(id.as_str(), "while") {
                            Token::Mientras
                        } else if str_eq(id.as_str(), "import") {
                            Token::Import
                        } else {
                            Token::Identifier(id)
                        }
                    } else {
                        return Err(
                            LexError {
                                line: self.line,
                                col: self.col,
                                kind: LexErrorKind::UnexpectedChar(ch),
                            },
                        );
                    }
                }
            },
        };

        Ok(TokenInfo { token: tok, line: start_line, col: start_col })
    }

    /// Whether the cursor stands on skippable whitespace.
    fn at_ws(&self) -> (r: bool)
        requires
            self.wf(),
        ensures
            r == (self.spec_state().pos < self.spec_input().len() && (self.spec_input()[
                self.spec_state().pos] == ' ' || self.spec_input()[self.spec_state().pos]
                == '\t' || self.spec_input()[self.spec_state().pos] == '\r')),
    {
        match self.current_char {
            Some(ch) => ch == ' ' || ch == '\t' || ch == '\r',
            None => false,
        }
    }

    /// Skip spaces, tabs and carriage returns.
    fn skip_whitespace(&mut self)
        requires
            old(self).wf(),
        ensures
            final(self).wf(),
            final(self).spec_input() == old(self).spec_input(),
            final(self).spec_state() == spec_skip_ws(old(self).spec_input(), old(self).spec_state()),
    {
        let ghost s = self.spec_input();
        let ghost st0 = self.spec_state();
        while self.at_ws()
            invariant
                self.wf(),
                self.spec_input() == s,
                s == old(self).spec_input(),
                st0 == old(self).spec_state(),
                spec_skip_ws(s, st0) == spec_skip_ws(s, self.spec_state()),
            decreases s.len() - self.spec_state().pos,
        {
            self.advance();
        }
    }

    /// Read the whole token stream, through the terminal `Eof` inclusive.
    pub fn tokenize(&mut self) -> (r: Result<Vec<TokenInfo>, LexError>)
        requires
            old(self).wf(),
        ensures
            final(self).wf(),
            match spec_tokenize(old(self).spec_input(), old(self).spec_state()) {
                Ok(tis) => r is Ok && view_token_infos(r->Ok_0@) == tis,
                Err(e) => r == Err::<Vec<TokenInfo>, LexError>(e),
            },
    {
        let ghost s = self.spec_input();
        let ghost st0 = self.spec_state();
        let mut tokens: Vec<TokenInfo> = Vec::new();
        loop
            invariant
                self.wf(),
                self.spec_input() == s,
                s == old(self).spec_input(),
                st0 == old(self).spec_state(),
                spec_tokenize(s, st0) == (match spec_tokenize(s, self.spec_state()) {
                    Ok(rest) => Ok::<Seq<TokenInfoV>, LexError>(
                        view_token_infos(tokens@) + rest,
                    ),
                    Err(e) => Err::<Seq<TokenInfoV>, LexError>(e),
                }),
            decreases s.len() - self.spec_state().pos,
        {
            let ghost pre = self.spec_state();
            let ti = match self.next_token() {
                Ok(ti) => ti,
                Err(e) => {
                    return Err(e);
                },
            };
            let is_eof = matches!(ti.token, Token::Eof);
            let ghost tokens_pre = tokens@;
            tokens.push(ti);
            proof {
                assert(view_token_infos(tokens@) =~= view_token_infos(tokens_pre).push(
                    view_token_info(ti),
                ));
            }
            if is_eof {
                proof {
                    assert(view_token_infos(tokens_pre) + seq![view_token_info(ti)]
                        =~= view_token_infos(tokens@));
                }
                return Ok(tokens);
            }
            proof {
                assert(spec_tokenize(s, st0) == (match spec_tokenize(s, self.spec_state()) {
                    Ok(rest) => Ok::<Seq<TokenInfoV>, LexError>(
                        view_token_infos(tokens@) + rest,
                    ),
                    Err(e) => Err::<Seq<TokenInfoV>, LexError>(e),
                })) by {
                    let ghost tail = spec_tokenize(s, self.spec_state());
                    if tail is Ok {
                        assert(view_token_infos(tokens_pre) + (seq![view_token_info(ti)]
                            + tail->Ok_0) =~= view_token_infos(tokens@) + tail->Ok_0);
                    }
                }
            }
        }
    }
}

/// An identifier read where an identifier may start consumes at least its
/// first character.
proof fn lemma_scan_ident_first(s: Seq<char>, st: LexStateV)
    requires
        0 <= st.pos < s.len(),
        spec_is_word_char(s[st.pos]),
    ensures
        spec_scan_ident(s, st).1.pos > st.pos,
        spec_scan_ident(s, st).1.pos <= s.len(),
{
    lemma_scan_ident_bounds(s, spec_advance(s, st));
}

/// A digit run read where a digit stands consumes at least that digit.
proof fn lemma_scan_digits_first(s: Seq<char>, st: LexStateV)
    requires
        0 <= st.pos < s.len(),
        spec_is_digit(s[st.pos]),
    ensures
        spec_scan_digits(s, st).1.pos > st.pos,
        spec_scan_digits(s, st).1.pos <= s.len(),
{
    lemma_scan_digits_bounds(s, spec_advance(s, st));
}

/// The digit scan never moves backwards nor past the end.
proof fn lemma_scan_digits_bounds(s: Seq<char>, st: LexStateV)
    requires
        0 <= st.pos <= s.len(),
    ensures
        spec_scan_digits(s, st).1.pos >= st.pos,
        spec_scan_digits(s, st).1.pos <= s.len(),
    decreases s.len() - st.pos,
{
    if st.pos < s.len() && spec_is_digit(s[st.pos]) {
        lemma_scan_digits_bounds(s, spec_advance(s, st));
    }
}

/// Skipping whitespace never moves backwards nor past the end.
proof fn lemma_skip_ws_bounds(s: Seq<char>, st: LexStateV)
    requires
        0 <= st.pos <= s.len(),
    ensures
        spec_skip_ws(s, st).pos >= st.pos,
        spec_skip_ws(s, st).pos <= s.len(),
    decreases s.len() - st.pos,
{
    if st.pos < s.len() && (s[st.pos] == ' ' || s[st.pos] == '\t' || s[st.pos] == '\r') {
        lemma_skip_ws_bounds(s, spec_advance(s, st));
    }
}

/// A string body that closes ends past where it began and within the
/// input.
proof fn lemma_string_body_bounds(s: Seq<char>, st: LexStateV, quote: char, acc: Seq<char>)
    requires
        0 <= st.pos <= s.len(),
    ensures
        spec_string_body(s, st, quote, acc) is Ok ==> st.pos < spec_string_body(
            s,
            st,
            quote,
            acc,
        )->Ok_0.1.pos <= s.len(),
    decreases s.len() - st.pos,
{
    if 0 <= st.pos < s.len() {
        let c = s[st.pos];
        if c == quote {
        } else if c == '\\' {
            if st.pos + 1 < s.len() {
                lemma_string_body_bounds(
                    s,
                    spec_advance(s, spec_advance(s, st)),
                    quote,
                    acc.push(
                        if s[st.pos + 1] == 'n' {
                            '\n'
                        } else if s[st.pos + 1] == 't' {
                            '\t'
                        } else if s[st.pos + 1] == '\\' {
                            '\\'
                        } else if s[st.pos + 1] == '"' {
                            '"'
                        } else if s[st.pos + 1] == '\'' {
                            '\''
                        } else {
                            s[st.pos + 1]
                        },
                    ),
                );
            }
        } else {
            lemma_string_body_bounds(s, spec_advance(s, st), quote, acc.push(c));
        }
    }
}

/// The identifier scan never moves backwards nor past the end.
proof fn lemma_scan_ident_bounds(s: Seq<char>, st: LexStateV)
    requires
        0 <= st.pos <= s.len(),
    ensures
        spec_scan_ident(s, st).1.pos >= st.pos,
        spec_scan_ident(s, st).1.pos <= s.len(),
    decreases s.len() - st.pos,
{
    if st.pos < s.len() && spec_is_word_char(s[st.pos]) {
        lemma_scan_ident_bounds(s, spec_advance(s, st));
    }
}

} // verus!
