use vstd::prelude::*;

use crate::ast::{view_expr, view_stmt, view_stmts, BinOperator, Expr, Program, Statement};
use crate::ast::{ExprV, StmtV};
use crate::lexer::{view_token, view_token_info, view_token_infos, Token, TokenInfo, TokenInfoV,
    TokenV};

verus! {

/// The grammar position at which parsing failed: what was expected there.
#[derive(Debug, Clone, Copy, PartialEq, Eq, Structural)]
pub enum Expected {
    /// An identifier after the declaration keyword.
    IdentifierAfterNumero,
    /// `=` in a variable declaration.
    AssignInDecl,
    /// `=` after an identifier that starts a statement.
    AssignAfterIdent,
    /// `)` after the printed expression.
    RParenAfterPrint,
    /// `(` after the conditional keyword.
    LParenAfterSi,
    /// `)` after the condition of a conditional.
    RParenAfterSiCond,
    /// `(` after the loop keyword.
    LParenAfterMientras,
    /// `)` after the condition of a loop.
    RParenAfterMientrasCond,
    /// A module name (identifier or string) after the import keyword.
    ModuleName,
    /// `{` to open a block.
    LBraceBlock,
    /// `}` to close a block.
    RBraceBlock,
    /// `)` after a parenthesized expression.
    RParenAfterExpr,
    /// A token that can start a statement.
    Statement,
    /// A token that can start an expression.
    Expression,
}

/// A fatal syntax condition: the offending line and column, what the
/// grammar expected there, and the token found instead.  Parsing aborts on
/// the first such error, without recovery.
#[derive(Debug, Clone)]
pub struct ParseError {
    pub line: usize,
    pub col: usize,
    pub expected: Expected,
    pub found: Token,
}

/// The shape of a syntax error.
#[verifier::ext_equal]
pub struct ParseErrorV {
    pub line: int,
    pub col: int,
    pub expected: Expected,
    pub found: TokenV,
}

/// The shape of a syntax error.
pub open spec fn view_parse_error(e: ParseError) -> ParseErrorV {
    ParseErrorV {
        line: e.line as int,
        col: e.col as int,
        expected: e.expected,
        found: view_token(e.found),
    }
}

/// The token under the cursor; past the end it reads as an end-of-stream
/// token at line 0, column 0.
pub open spec fn spec_cur(toks: Seq<TokenInfoV>, p: int) -> TokenInfoV {
    if 0 <= p < toks.len() {
        toks[p]
    } else {
        TokenInfoV { token: TokenV::Eof, line: 0, col: 0 }
    }
}

/// Step the cursor, never past the end.
pub open spec fn spec_adv(toks: Seq<TokenInfoV>, p: int) -> int {
    if p < toks.len() {
        p + 1
    } else {
        p
    }
}

/// The syntax error reported at the cursor.
pub open spec fn spec_err(toks: Seq<TokenInfoV>, p: int, expected: Expected) -> ParseErrorV {
    let c = spec_cur(toks, p);
    ParseErrorV { line: c.line, col: c.col, expected: expected, found: c.token }
}

/// Skip the newline separators under the cursor.
pub open spec fn spec_skip_newlines(toks: Seq<TokenInfoV>, p: int) -> int
    decreases toks.len() - p,
{
    if 0 <= p < toks.len() && spec_cur(toks, p).token is Newline {
        spec_skip_newlines(toks, p + 1)
    } else {
        p
    }
}

/// Parse a primary: a number, a string, a variable, or a parenthesized
/// expression.
pub open spec fn spec_parse_primary(toks: Seq<TokenInfoV>, p: int) -> Result<
    (ExprV, int),
    ParseErrorV,
>
    decreases toks.len() - p, 1int,
{
    match spec_cur(toks, p).token {
        TokenV::Number(n) => Ok((ExprV::Number(n), spec_adv(toks, p))),
        TokenV::Text(s) => Ok((ExprV::Text(s), spec_adv(toks, p))),
        TokenV::Identifier(s) => Ok((ExprV::Variable(s), spec_adv(toks, p))),
        TokenV::LParen => {
            if p < toks.len() {
                match spec_parse_expression(toks, p + 1) {
                    Err(e) => Err(e),
                    Ok((e, p2)) => {
                        if spec_cur(toks, p2).token is RParen {
                            Ok((e, spec_adv(toks, p2)))
                        } else {
                            Err(spec_err(toks, p2, Expected::RParenAfterExpr))
                        }
                    },
                }
            } else {
                Err(spec_err(toks, p, Expected::Expression))
            }
        },
        _ => Err(spec_err(toks, p, Expected::Expression)),
    }
}

/// Parse a unary: a chain of unary minuses over a primary; `-e` lowers to
/// the synthetic `0 - e`.
pub open spec fn spec_parse_unary(toks: Seq<TokenInfoV>, p: int) -> Result<
    (ExprV, int),
    ParseErrorV,
>
    decreases toks.len() - p, 2int,
{
    if spec_cur(toks, p).token is Minus && p < toks.len() {
        match spec_parse_unary(toks, p + 1) {
            Err(e) => Err(e),
            Ok((e, p2)) => Ok(
                (
                    ExprV::BinOp {
                        left: Box::new(ExprV::Number(0)),
                        op: BinOperator::Sub,
                        right: Box::new(e),
                    },
                    p2,
                ),
            ),
        }
    } else {
        spec_parse_primary(toks, p)
    }
}

/// The left-associative `* /` tail.
pub open spec fn spec_factor_tail(toks: Seq<TokenInfoV>, p: int, acc: ExprV) -> Result<
    (ExprV, int),
    ParseErrorV,
>
    decreases toks.len() - p, 0int,
{
    let t = spec_cur(toks, p).token;
    if (t is Star || t is Slash) && p < toks.len() {
        let op = if t is Star {
            BinOperator::Mul
        } else {
            BinOperator::Div
        };
        match spec_parse_unary(toks, p + 1) {
            Err(e) => Err(e),
            Ok((rhs, p2)) => {
                let joined = ExprV::BinOp { left: Box::new(acc), op: op, right: Box::new(rhs) };
                if p < p2 <= toks.len() {
                    spec_factor_tail(toks, p2, joined)
                } else {
                    Ok((joined, p2))
                }
            },
        }
    } else {
        Ok((acc, p))
    }
}

/// Parse a factor: unaries joined by `*` and `/`.
pub open spec fn spec_parse_factor(toks: Seq<TokenInfoV>, p: int) -> Result<
    (ExprV, int),
    ParseErrorV,
>
    decreases toks.len() - p, 3int,
{
    match spec_parse_unary(toks, p) {
        Err(e) => Err(e),
        Ok((e, p2)) => {
            if p < p2 <= toks.len() {
                spec_factor_tail(toks, p2, e)
            } else {
                Ok((e, p2))
            }
        },
    }
}

/// The left-associative `+ -` tail.
pub open spec fn spec_term_tail(toks: Seq<TokenInfoV>, p: int, acc: ExprV) -> Result<
    (ExprV, int),
    ParseErrorV,
>
    decreases toks.len() - p, 4int,
{
    let t = spec_cur(toks, p).token;
    if (t is Plus || t is Minus) && p < toks.len() {
        let op = if t is Plus {
            BinOperator::Add
        } else {
            BinOperator::Sub
        };
        match spec_parse_factor(toks, p + 1) {
            Err(e) => Err(e),
            Ok((rhs, p2)) => {
                let joined = ExprV::BinOp { left: Box::new(acc), op: op, right: Box::new(rhs) };
                if p < p2 <= toks.len() {
                    spec_term_tail(toks, p2, joined)
                } else {
                    Ok((joined, p2))
                }
            },
        }
    } else {
        Ok((acc, p))
    }
}

/// Parse a term: factors joined by `+` and `-`.
pub open spec fn spec_parse_term(toks: Seq<TokenInfoV>, p: int) -> Result<
    (ExprV, int),
    ParseErrorV,
>
    decreases toks.len() - p, 5int,
{
    match spec_parse_factor(toks, p) {
        Err(e) => Err(e),
        Ok((e, p2)) => {
            if p < p2 <= toks.len() {
                spec_term_tail(toks, p2, e)
            } else {
                Ok((e, p2))
            }
        },
    }
}

/// The left-associative `< >` tail.
pub open spec fn spec_comparison_tail(toks: Seq<TokenInfoV>, p: int, acc: ExprV) -> Result<
    (ExprV, int),
    ParseErrorV,
>
    decreases toks.len() - p, 6int,
{
    let t = spec_cur(toks, p).token;
    if (t is Less || t is Greater) && p < toks.len() {
        let op = if t is Less {
            BinOperator::Lt
        } else {
            BinOperator::Gt
        };
        match spec_parse_term(toks, p + 1) {
            Err(e) => Err(e),
            Ok((rhs, p2)) => {
                let joined = ExprV::BinOp { left: Box::new(acc), op: op, right: Box::new(rhs) };
                if p < p2 <= toks.len() {
                    spec_comparison_tail(toks, p2, joined)
                } else {
                    Ok((joined, p2))
                }
            },
        }
    } else {
        Ok((acc, p))
    }
}

/// Parse a comparison: terms joined by `<` and `>`.
pub open spec fn spec_parse_comparison(toks: Seq<TokenInfoV>, p: int) -> Result<
    (ExprV, int),
    ParseErrorV,
>
    decreases toks.len() - p, 7int,
{
    match spec_parse_term(toks, p) {
        Err(e) => Err(e),
        Ok((e, p2)) => {
            if p < p2 <= toks.len() {
                spec_comparison_tail(toks, p2, e)
            } else {
                Ok((e, p2))
            }
        },
    }
}

/// The left-associative `==` tail.
pub open spec fn spec_equality_tail(toks: Seq<TokenInfoV>, p: int, acc: ExprV) -> Result<
    (ExprV, int),
    ParseErrorV,
>
    decreases toks.len() - p, 8int,
{
    if spec_cur(toks, p).token is Equal && p < toks.len() {
        match spec_parse_comparison(toks, p + 1) {
            Err(e) => Err(e),
            Ok((rhs, p2)) => {
                let joined = ExprV::BinOp {
                    left: Box::new(acc),
                    op: BinOperator::Eq,
                    right: Box::new(rhs),
                };
                if p < p2 <= toks.len() {
                    spec_equality_tail(toks, p2, joined)
                } else {
                    Ok((joined, p2))
                }
            },
        }
    } else {
        Ok((acc, p))
    }
}

/// Parse an equality: comparisons joined by `==`.
pub open spec fn spec_parse_equality(toks: Seq<TokenInfoV>, p: int) -> Result<
    (ExprV, int),
    ParseErrorV,
>
    decreases toks.len() - p, 9int,
{
    match spec_parse_comparison(toks, p) {
        Err(e) => Err(e),
        Ok((e, p2)) => {
            if p < p2 <= toks.len() {
                spec_equality_tail(toks, p2, e)
            } else {
                Ok((e, p2))
            }
        },
    }
}

/// Parse an expression: the lowest-precedence level is equality.
pub open spec fn spec_parse_expression(toks: Seq<TokenInfoV>, p: int) -> Result<
    (ExprV, int),
    ParseErrorV,
>
    decreases toks.len() - p, 10int,
{
    spec_parse_equality(toks, p)
}

/// Parse one statement, after skipping leading newlines.
pub open spec fn spec_parse_statement(toks: Seq<TokenInfoV>, p: int) -> Result<
    (StmtV, int),
    ParseErrorV,
>
    decreases toks.len() - p, 11int,
{
    let p0 = spec_skip_newlines(toks, p);
    let cur = spec_cur(toks, p0);
    match cur.token {
        TokenV::Numero => {
            let p1 = spec_adv(toks, p0);
            match spec_cur(toks, p1).token {
                TokenV::Identifier(name) => {
                    let p2 = spec_adv(toks, p1);
                    if spec_cur(toks, p2).token is Assign {
                        let p3 = spec_adv(toks, p2);
                        if p < p3 <= toks.len() {
                            match spec_parse_expression(toks, p3) {
                                Err(e) => Err(e),
                                Ok((value, p4)) => Ok(
                                    (StmtV::VarDecl { name: name, value: value }, p4),
                                ),
                            }
                        } else {
                            Err(spec_err(toks, p2, Expected::AssignInDecl))
                        }
                    } else {
                        Err(spec_err(toks, p2, Expected::AssignInDecl))
                    }
                },
                _ => Err(spec_err(toks, p1, Expected::IdentifierAfterNumero)),
            }
        },
        TokenV::Identifier(name) => {
            let p1 = spec_adv(toks, p0);
            if spec_cur(toks, p1).token is Assign {
                let p2 = spec_adv(toks, p1);
                if p < p2 <= toks.len() {
                    match spec_parse_expression(toks, p2) {
                        Err(e) => Err(e),
                        Ok((value, p3)) => Ok(
                            (StmtV::Assignment { target: name, value: value }, p3),
                        ),
                    }
                } else {
                    Err(spec_err(toks, p1, Expected::AssignAfterIdent))
                }
            } else {
                Err(spec_err(toks, p1, Expected::AssignAfterIdent))
            }
        },
        TokenV::Imprimir => {
            let p1 = spec_adv(toks, p0);
            if spec_cur(toks, p1).token is LParen {
                let p2 = spec_adv(toks, p1);
                if p < p2 <= toks.len() {
                    match spec_parse_expression(toks, p2) {
                        Err(e) => Err(e),
                        Ok((expr, p3)) => {
                            if spec_cur(toks, p3).token is RParen {
                                Ok((StmtV::Print { expr: expr }, spec_adv(toks, p3)))
                            } else {
                                Err(spec_err(toks, p3, Expected::RParenAfterPrint))
                            }
                        },
                    }
                } else {
                    Err(spec_err(toks, p1, Expected::RParenAfterPrint))
                }
            } else {
                if p < p1 <= toks.len() {
                    match spec_parse_expression(toks, p1) {
                        Err(e) => Err(e),
                        Ok((expr, p2)) => Ok((StmtV::Print { expr: expr }, p2)),
                    }
                } else {
                    Err(spec_err(toks, p1, Expected::Expression))
                }
            }
        },
        TokenV::Si => {
            let p1 = spec_adv(toks, p0);
            if spec_cur(toks, p1).token is LParen {
                let p2 = spec_adv(toks, p1);
                if p < p2 <= toks.len() {
                    match spec_parse_expression(toks, p2) {
                        Err(e) => Err(e),
                        Ok((condition, p3)) => {
                            if spec_cur(toks, p3).token is RParen {
                                let p4 = spec_adv(toks, p3);
                                if p < p4 <= toks.len() {
                                    match spec_parse_block(toks, p4) {
                                        Err(e) => Err(e),
                                        Ok((then_body, p5)) => {
                                            if spec_cur(toks, p5).token is Sino {
                                                let p6 = spec_adv(toks, p5);
                                                if p < p6 <= toks.len() {
                                                    match spec_parse_block(toks, p6) {
                                                        Err(e) => Err(e),
                                                        Ok((else_body, p7)) => Ok(
                                                            (
                                                                StmtV::If {
                                                                    condition: condition,
                                                                    then_body: then_body,
                                                                    else_body: Some(else_body),
                                                                },
                                                                p7,
                                                            ),
                                                        ),
                                                    }
                                                } else {
                                                    Err(spec_err(toks, p5, Expected::LBraceBlock))
                                                }
                                            } else {
                                                Ok(
                                                    (
                                                        StmtV::If {
                                                            condition: condition,
                                                            then_body: then_body,
                                                            else_body: None,
                                                        },
                                                        p5,
                                                    ),
                                                )
                                            }
                                        },
                                    }
                                } else {
                                    Err(spec_err(toks, p3, Expected::RParenAfterSiCond))
                                }
                            } else {
                                Err(spec_err(toks, p3, Expected::RParenAfterSiCond))
                            }
                        },
                    }
                } else {
                    Err(spec_err(toks, p1, Expected::LParenAfterSi))
                }
            } else {
                Err(spec_err(toks, p1, Expected::LParenAfterSi))
            }
        },
        TokenV::Mientras => {
            let p1 = spec_adv(toks, p0);
            if spec_cur(toks, p1).token is LParen {
                let p2 = spec_adv(toks, p1);
                if p < p2 <= toks.len() {
                    match spec_parse_expression(toks, p2) {
                        Err(e) => Err(e),
                        Ok((condition, p3)) => {
                            if spec_cur(toks, p3).token is RParen {
                                let p4 = spec_adv(toks, p3);
                                if p < p4 <= toks.len() {
                                    match spec_parse_block(toks, p4) {
                                        Err(e) => Err(e),
                                        Ok((body, p5)) => Ok(
                                            (StmtV::While { condition: condition, body: body }, p5),
                                        ),
                                    }
                                } else {
                                    Err(spec_err(toks, p3, Expected::RParenAfterMientrasCond))
                                }
                            } else {
                                Err(spec_err(toks, p3, Expected::RParenAfterMientrasCond))
                            }
                        },
                    }
                } else {
                    Err(spec_err(toks, p1, Expected::LParenAfterMientras))
                }
            } else {
                Err(spec_err(toks, p1, Expected::LParenAfterMientras))
            }
        },
        TokenV::Import => {
            let p1 = spec_adv(toks, p0);
            match spec_cur(toks, p1).token {
                TokenV::Identifier(s) => Ok(
                    (StmtV::Import { module: s }, spec_adv(toks, p1)),
                ),
                TokenV::Text(s) => Ok((StmtV::Import { module: s }, spec_adv(toks, p1))),
                _ => Err(spec_err(toks, p1, Expected::ModuleName)),
            }
        },
        _ => Err(spec_err(toks, p0, Expected::Statement)),
    }
}

/// Parse the statements of a block, stopping before the closing brace.
pub open spec fn spec_block_items(toks: Seq<TokenInfoV>, p: int) -> Result<
    (Seq<StmtV>, int),
    ParseErrorV,
>
    decreases toks.len() - p, 12int,
{
    let p0 = spec_skip_newlines(toks, p);
    let t = spec_cur(toks, p0).token;
    if !(p <= p0 <= toks.len()) {
        // Skipping newlines never moves backwards nor past the end; this
        // branch is never taken.
        Ok((Seq::empty(), p0))
    } else if t is RBrace || t is Eof {
        Ok((Seq::empty(), p0))
    } else {
        match spec_parse_statement(toks, p0) {
            Err(e) => Err(e),
            Ok((s, p1)) => {
                if p < p1 <= toks.len() {
                    match spec_block_items(toks, p1) {
                        Err(e) => Err(e),
                        Ok((rest, p2)) => Ok((seq![s] + rest, p2)),
                    }
                } else {
                    // A parsed statement always advances the cursor; this
                    // branch is never taken.
                    Ok((seq![s], p1))
                }
            },
        }
    }
}

/// Parse a block: `{`, statements, `}`.
pub open spec fn spec_parse_block(toks: Seq<TokenInfoV>, p: int) -> Result<
    (Seq<StmtV>, int),
    ParseErrorV,
>
    decreases toks.len() - p, 13int,
{
    if spec_cur(toks, p).token is LBrace && p < toks.len() {
        match spec_block_items(toks, p + 1) {
            Err(e) => Err(e),
            Ok((stmts, p1)) => {
                if spec_cur(toks, p1).token is RBrace {
                    Ok((stmts, spec_adv(toks, p1)))
                } else {
                    Err(spec_err(toks, p1, Expected::RBraceBlock))
                }
            },
        }
    } else {
        Err(spec_err(toks, p, Expected::LBraceBlock))
    }
}

/// Parse the whole token stream: statements until the end-of-stream token.
pub open spec fn spec_program_items(toks: Seq<TokenInfoV>, p: int) -> Result<
    (Seq<StmtV>, int),
    ParseErrorV,
>
    decreases toks.len() - p, 14int,
{
    let p0 = spec_skip_newlines(toks, p);
    if !(p <= p0 <= toks.len()) {
        // Skipping newlines never moves backwards nor past the end; this
        // branch is never taken.
        Ok((Seq::empty(), p0))
    } else if spec_cur(toks, p0).token is Eof {
        Ok((Seq::empty(), p0))
    } else {
        match spec_parse_statement(toks, p0) {
            Err(e) => Err(e),
            Ok((s, p1)) => {
                if p < p1 <= toks.len() {
                    match spec_program_items(toks, p1) {
                        Err(e) => Err(e),
                        Ok((rest, p2)) => Ok((seq![s] + rest, p2)),
                    }
                } else {
                    // A parsed statement always advances the cursor; this
                    // branch is never taken.
                    Ok((seq![s], p1))
                }
            },
        }
    }
}

/// What parsing a token stream yields: the program's statements, or the
/// first syntax error.
pub open spec fn spec_parse(toks: Seq<TokenInfoV>) -> Result<Seq<StmtV>, ParseErrorV> {
    match spec_program_items(toks, 0) {
        Err(e) => Err(e),
        Ok((stmts, _)) => Ok(stmts),
    }
}

/// Clone one token.
fn clone_token(t: &Token) -> (r: Token)
    ensures
        view_token(r) == view_token(*t),
{
    match t {
        Token::Number(n) => Token::Number(*n),
        Token::String(s) => Token::String(s.clone()),
        Token::Identifier(s) => Token::Identifier(s.clone()),
        Token::Numero => Token::Numero,
        Token::Imprimir => Token::Imprimir,
        Token::Si => Token::Si,
        Token::Sino => Token::Sino,
        Token::Mientras => Token::Mientras,
        Token::Import => Token::Import,
        Token::Plus => Token::Plus,
        Token::Minus => Token::Minus,
        Token::Star => Token::Star,
        Token::Slash => Token::Slash,
        Token::Equal => Token::Equal,
        Token::Less => Token::Less,
        Token::Greater => Token::Greater,
        Token::Assign => Token::Assign,
        Token::LParen => Token::LParen,
        Token::RParen => Token::RParen,
        Token::LBrace => Token::LBrace,
        Token::RBrace => Token::RBrace,
        Token::Newline => Token::Newline,
        Token::Eof => Token::Eof,
    }
}

/// A recursive-descent parser with one token of lookahead over a token
/// stream.
pub struct Parser {
    tokens: Vec<TokenInfo>,
    pos: usize,
}

impl Parser {
    /// The token stream being parsed.
    pub closed spec fn spec_toks(&self) -> Seq<TokenInfoV> {
        view_token_infos(self.tokens@)
    }

    /// The cursor.
    pub closed spec fn spec_pos(&self) -> int {
        self.pos as int
    }

    /// The cursor never runs past the end of the stream.
    pub closed spec fn wf(&self) -> bool {
        self.pos <= self.tokens@.len()
    }

    /// A parser at the start of `tokens`.
    pub fn new(tokens: Vec<TokenInfo>) -> (r: Self)
        ensures
            r.wf(),
            r.spec_toks() == view_token_infos(tokens@),
            r.spec_pos() == 0,
    {
        Parser { tokens, pos: 0 }
    }

    /// The token under the cursor; past the end, an end-of-stream token at
    /// line 0, column 0.
    fn current(&self) -> (r: TokenInfo)
        requires
            self.wf(),
        ensures
            view_token_info(r) == spec_cur(self.spec_toks(), self.spec_pos()),
    {
        if self.pos < self.tokens.len() {
            let t = &self.tokens[self.pos];
            TokenInfo { token: clone_token(&t.token), line: t.line, col: t.col }
        } else {
            TokenInfo { token: Token::Eof, line: 0, col: 0 }
        }
    }

    /// Step past the token under the cursor, never past the end.
    fn advance(&mut self)
        requires
            old(self).wf(),
        ensures
            final(self).wf(),
            final(self).spec_toks() == old(self).spec_toks(),
            final(self).spec_pos() == spec_adv(old(self).spec_toks(), old(self).spec_pos()),
    {
        if self.pos < self.tokens.len() {
            self.pos = self.pos + 1;
        }
    }

    /// Whether the cursor has reached the end-of-stream token.
    fn is_at_end(&self) -> (r: bool)
        requires
            self.wf(),
        ensures
            r == (spec_cur(self.spec_toks(), self.spec_pos()).token is Eof),
    {
        matches!(self.current().token, Token::Eof)
    }

    /// Skip the newline separators under the cursor.
    fn skip_newlines(&mut self)
        requires
            old(self).wf(),
        ensures
            final(self).wf(),
            final(self).spec_toks() == old(self).spec_toks(),
            final(self).spec_pos() == spec_skip_newlines(
                old(self).spec_toks(),
                old(self).spec_pos(),
            ),
            final(self).spec_pos() >= old(self).spec_pos(),
    {
        let ghost toks = self.spec_toks();
        let ghost p0 = self.spec_pos();
        while self.pos < self.tokens.len() && matches!(self.tokens[self.pos].token, Token::Newline)
            invariant
                self.wf(),
                self.spec_toks() == toks,
                toks == old(self).spec_toks(),
                p0 == old(self).spec_pos(),
                p0 <= self.spec_pos(),
                spec_skip_newlines(toks, p0) == spec_skip_newlines(toks, self.spec_pos()),
            decreases self.tokens@.len() - self.pos,
        {
            proof {
                assert(spec_cur(toks, self.spec_pos()).token is Newline);
            }
            self.pos = self.pos + 1;
        }
    }

    /// Parse a primary: a number, a string, a variable, or a parenthesized
    /// expression.
    fn parse_primary(&mut self) -> (r: Result<Expr, ParseError>)
        requires
            old(self).wf(),
        ensures
            final(self).wf(),
            final(self).spec_toks() == old(self).spec_toks(),
            final(self).spec_pos() >= old(self).spec_pos(),
            r is Ok ==> final(self).spec_pos() > old(self).spec_pos(),
            match spec_parse_primary(old(self).spec_toks(), old(self).spec_pos()) {
                Ok((ev, p2)) => r is Ok && view_expr(r->Ok_0) == ev && final(self).spec_pos()
                    == p2,
                Err(e) => r is Err && view_parse_error(r->Err_0) == e,
            },
        decreases old(self).spec_toks().len() - old(self).spec_pos(), 1int,
    {
        let cur = self.current();
        match cur.token {
            Token::Number(n) => {
                self.advance();
                Ok(Expr::Number(n))
            },
            Token::String(text) => {
                self.advance();
                Ok(Expr::String(text))
            },
            Token::Identifier(name) => {
                self.advance();
                Ok(Expr::Variable(name))
            },
            Token::LParen => {
                self.advance();
                let e = match self.parse_expression() {
                    Ok(e) => e,
                    Err(e) => {
                        return Err(e);
                    },
                };
                let cur2 = self.current();
                match cur2.token {
                    Token::RParen => {
                        self.advance();
                        Ok(e)
                    },
                    found => Err(
                        ParseError {
                            line: cur2.line,
                            col: cur2.col,
                            expected: Expected::RParenAfterExpr,
                            found,
                        },
                    ),
                }
            },
            found => Err(
                ParseError {
                    line: cur.line,
                    col: cur.col,
                    expected: Expected::Expression,
                    found,
                },
            ),
        }
    }

    /// Parse a unary: `-e` lowers to the synthetic `0 - e`.
    fn parse_unary(&mut self) -> (r: Result<Expr, ParseError>)
        requires
            old(self).wf(),
        ensures
            final(self).wf(),
            final(self).spec_toks() == old(self).spec_toks(),
            final(self).spec_pos() >= old(self).spec_pos(),
            r is Ok ==> final(self).spec_pos() > old(self).spec_pos(),
            match spec_parse_unary(old(self).spec_toks(), old(self).spec_pos()) {
                Ok((ev, p2)) => r is Ok && view_expr(r->Ok_0) == ev && final(self).spec_pos()
                    == p2,
                Err(e) => r is Err && view_parse_error(r->Err_0) == e,
            },
        decreases old(self).spec_toks().len() - old(self).spec_pos(), 2int,
    {
        if matches!(self.current().token, Token::Minus) {
            self.advance();
            let e = match self.parse_unary() {
                Ok(e) => e,
                Err(e) => {
                    return Err(e);
                },
            };
            let ghost ev = view_expr(e);
            let r = Expr::BinOp {
                left: Box::new(Expr::Number(0)),
                op: BinOperator::Sub,
                right: Box::new(e),
            };
            proof {
                assert(view_expr(Expr::Number(0)) == ExprV::Number(0));
                assert(view_expr(r) == (ExprV::BinOp {
                    left: Box::new(view_expr(Expr::Number(0))),
                    op: BinOperator::Sub,
                    right: Box::new(ev),
                }));
            }
            Ok(r)
        } else {
            self.parse_primary()
        }
    }

    #[verifier::rlimit(50)]
    /// Parse a factor: unaries joined by left-associative `*` and `/`.
    fn parse_factor(&mut self) -> (r: Result<Expr, ParseError>)
        requires
            old(self).wf(),
        ensures
            final(self).wf(),
            final(self).spec_toks() == old(self).spec_toks(),
            final(self).spec_pos() >= old(self).spec_pos(),
            r is Ok ==> final(self).spec_pos() > old(self).spec_pos(),
            match spec_parse_factor(old(self).spec_toks(), old(self).spec_pos()) {
                Ok((ev, p2)) => r is Ok && view_expr(r->Ok_0) == ev && final(self).spec_pos()
                    == p2,
                Err(e) => r is Err && view_parse_error(r->Err_0) == e,
            },
        decreases old(self).spec_toks().len() - old(self).spec_pos(), 3int,
    {
        let ghost toks = self.spec_toks();
        let ghost p0 = self.spec_pos();
        let mut expr = match self.parse_unary() {
            Ok(e) => e,
            Err(e) => {
                return Err(e);
            },
        };
        while matches!(self.current().token, Token::Star | Token::Slash)
            invariant
                self.wf(),
                self.spec_toks() == toks,
                toks == old(self).spec_toks(),
                p0 == old(self).spec_pos(),
                self.spec_pos() > p0,
                spec_parse_factor(toks, p0) == spec_factor_tail(
                    toks,
                    self.spec_pos(),
                    view_expr(expr),
                ),
            decreases toks.len() - self.spec_pos(),
        {
            let ghost p_it = self.spec_pos();
            let ghost acc_v = view_expr(expr);
            let is_star = matches!(self.current().token, Token::Star);
            let op = if is_star {
                BinOperator::Mul
            } else {
                BinOperator::Div
            };
            self.advance();
            let rhs = match self.parse_unary() {
                Ok(e) => e,
                Err(e) => {
                    return Err(e);
                },
            };
            expr = Expr::BinOp { left: Box::new(expr), op, right: Box::new(rhs) };
            proof {
                assert(spec_factor_tail(toks, p_it, acc_v) == spec_factor_tail(
                    toks,
                    self.spec_pos(),
                    view_expr(expr),
                ));
            }
        }
        Ok(expr)
    }

    #[verifier::rlimit(50)]
    /// Parse a term: factors joined by left-associative `+` and `-`.
    fn parse_term(&mut self) -> (r: Result<Expr, ParseError>)
        requires
            old(self).wf(),
        ensures
            final(self).wf(),
            final(self).spec_toks() == old(self).spec_toks(),
            final(self).spec_pos() >= old(self).spec_pos(),
            r is Ok ==> final(self).spec_pos() > old(self).spec_pos(),
            match spec_parse_term(old(self).spec_toks(), old(self).spec_pos()) {
                Ok((ev, p2)) => r is Ok && view_expr(r->Ok_0) == ev && final(self).spec_pos()
                    == p2,
                Err(e) => r is Err && view_parse_error(r->Err_0) == e,
            },
        decreases old(self).spec_toks().len() - old(self).spec_pos(), 5int,
    {
        let ghost toks = self.spec_toks();
        let ghost p0 = self.spec_pos();
        let mut expr = match self.parse_factor() {
            Ok(e) => e,
            Err(e) => {
                return Err(e);
            },
        };
        while matches!(self.current().token, Token::Plus | Token::Minus)
            invariant
                self.wf(),
                self.spec_toks() == toks,
                toks == old(self).spec_toks(),
                p0 == old(self).spec_pos(),
                self.spec_pos() > p0,
                spec_parse_term(toks, p0) == spec_term_tail(
                    toks,
                    self.spec_pos(),
                    view_expr(expr),
                ),
            decreases toks.len() - self.spec_pos(),
        {
            let ghost p_it = self.spec_pos();
            let ghost acc_v = view_expr(expr);
            let is_plus = matches!(self.current().token, Token::Plus);
            let op = if is_plus {
                BinOperator::Add
            } else {
                BinOperator::Sub
            };
            self.advance();
            let rhs = match self.parse_factor() {
                Ok(e) => e,
                Err(e) => {
                    return Err(e);
                },
            };
            expr = Expr::BinOp { left: Box::new(expr), op, right: Box::new(rhs) };
            proof {
                assert(spec_term_tail(toks, p_it, acc_v) == spec_term_tail(
                    toks,
                    self.spec_pos(),
                    view_expr(expr),
                ));
            }
        }
        Ok(expr)
    }

    #[verifier::rlimit(50)]
    /// Parse a comparison: terms joined by left-associative `<` and `>`.
    fn parse_comparison(&mut self) -> (r: Result<Expr, ParseError>)
        requires
            old(self).wf(),
        ensures
            final(self).wf(),
            final(self).spec_toks() == old(self).spec_toks(),
            final(self).spec_pos() >= old(self).spec_pos(),
            r is Ok ==> final(self).spec_pos() > old(self).spec_pos(),
            match spec_parse_comparison(old(self).spec_toks(), old(self).spec_pos()) {
                Ok((ev, p2)) => r is Ok && view_expr(r->Ok_0) == ev && final(self).spec_pos()
                    == p2,
                Err(e) => r is Err && view_parse_error(r->Err_0) == e,
            },
        decreases old(self).spec_toks().len() - old(self).spec_pos(), 7int,
    {
        let ghost toks = self.spec_toks();
        let ghost p0 = self.spec_pos();
        let mut expr = match self.parse_term() {
            Ok(e) => e,
            Err(e) => {
                return Err(e);
            },
        };
        while matches!(self.current().token, Token::Less | Token::Greater)
            invariant
                self.wf(),
                self.spec_toks() == toks,
                toks == old(self).spec_toks(),
                p0 == old(self).spec_pos(),
                self.spec_pos() > p0,
                spec_parse_comparison(toks, p0) == spec_comparison_tail(
                    toks,
                    self.spec_pos(),
                    view_expr(expr),
                ),
            decreases toks.len() - self.spec_pos(),
        {
            let ghost p_it = self.spec_pos();
            let ghost acc_v = view_expr(expr);
            let is_less = matches!(self.current().token, Token::Less);
            let op = if is_less {
                BinOperator::Lt
            } else {
                BinOperator::Gt
            };
            self.advance();
            let rhs = match self.parse_term() {
                Ok(e) => e,
                Err(e) => {
                    return Err(e);
                },
            };
            expr = Expr::BinOp { left: Box::new(expr), op, right: Box::new(rhs) };
            proof {
                assert(spec_comparison_tail(toks, p_it, acc_v) == spec_comparison_tail(
                    toks,
                    self.spec_pos(),
                    view_expr(expr),
                ));
            }
        }
        Ok(expr)
    }

    #[verifier::rlimit(50)]
    /// Parse an equality: comparisons joined by left-associative `==`.
    fn parse_equality(&mut self) -> (r: Result<Expr, ParseError>)
        requires
            old(self).wf(),
        ensures
            final(self).wf(),
            final(self).spec_toks() == old(self).spec_toks(),
            final(self).spec_pos() >= old(self).spec_pos(),
            r is Ok ==> final(self).spec_pos() > old(self).spec_pos(),
            match spec_parse_equality(old(self).spec_toks(), old(self).spec_pos()) {
                Ok((ev, p2)) => r is Ok && view_expr(r->Ok_0) == ev && final(self).spec_pos()
                    == p2,
                Err(e) => r is Err && view_parse_error(r->Err_0) == e,
            },
        decreases old(self).spec_toks().len() - old(self).spec_pos(), 9int,
    {
        let ghost toks = self.spec_toks();
        let ghost p0 = self.spec_pos();
        let mut expr = match self.parse_comparison() {
            Ok(e) => e,
            Err(e) => {
                return Err(e);
            },
        };
        while matches!(self.current().token, Token::Equal)
            invariant
                self.wf(),
                self.spec_toks() == toks,
                toks == old(self).spec_toks(),
                p0 == old(self).spec_pos(),
                self.spec_pos() > p0,
                spec_parse_equality(toks, p0) == spec_equality_tail(
                    toks,
                    self.spec_pos(),
                    view_expr(expr),
                ),
            decreases toks.len() - self.spec_pos(),
        {
            let ghost p_it = self.spec_pos();
            let ghost acc_v = view_expr(expr);
            self.advance();
            let rhs = match self.parse_comparison() {
                Ok(e) => e,
                Err(e) => {
                    return Err(e);
                },
            };
            expr = Expr::BinOp { left: Box::new(expr), op: BinOperator::Eq, right: Box::new(rhs) };
            proof {
                assert(spec_equality_tail(toks, p_it, acc_v) == spec_equality_tail(
                    toks,
                    self.spec_pos(),
                    view_expr(expr),
                ));
            }
        }
        Ok(expr)
    }

    /// Parse an expression; the lowest-precedence level is equality.
    fn parse_expression(&mut self) -> (r: Result<Expr, ParseError>)
        requires
            old(self).wf(),
        ensures
            final(self).wf(),
            final(self).spec_toks() == old(self).spec_toks(),
            final(self).spec_pos() >= old(self).spec_pos(),
            r is Ok ==> final(self).spec_pos() > old(self).spec_pos(),
            match spec_parse_expression(old(self).spec_toks(), old(self).spec_pos()) {
                Ok((ev, p2)) => r is Ok && view_expr(r->Ok_0) == ev && final(self).spec_pos()
                    == p2,
                Err(e) => r is Err && view_parse_error(r->Err_0) == e,
            },
        decreases old(self).spec_toks().len() - old(self).spec_pos(), 10int,
    {
        self.parse_equality()
    }

    /// Parse a variable declaration: the declaration keyword, a name, `=`, and the initializer.
    fn parse_numero_stmt(&mut self, Ghost(p_entry): Ghost<int>) -> (r: Result<Statement, ParseError>)
        requires
            old(self).wf(),
            0 <= p_entry <= old(self).spec_pos(),
            old(self).spec_pos() == spec_skip_newlines(old(self).spec_toks(), p_entry),
            spec_cur(old(self).spec_toks(), old(self).spec_pos()).token is Numero,
        ensures
            final(self).wf(),
            final(self).spec_toks() == old(self).spec_toks(),
            final(self).spec_pos() >= old(self).spec_pos(),
            r is Ok ==> final(self).spec_pos() > p_entry,
            match spec_parse_statement(old(self).spec_toks(), p_entry) {
                Ok((sv, p2)) => r is Ok && view_stmt(r->Ok_0) == sv && final(self).spec_pos()
                    == p2,
                Err(e) => r is Err && view_parse_error(r->Err_0) == e,
            },
        decreases old(self).spec_toks().len() - old(self).spec_pos(), 10int,
    {
        let cur = self.current();

                self.advance();
                let cur2 = self.current();
                let name = match cur2.token {
                    Token::Identifier(s) => s,
                    found => {
                        return Err(
                            ParseError {
                                line: cur2.line,
                                col: cur2.col,
                                expected: Expected::IdentifierAfterNumero,
                                found,
                            },
                        );
                    },
                };
                self.advance();
                let cur3 = self.current();
                match cur3.token {
                    Token::Assign => {
                        self.advance();
                    },
                    found => {
                        return Err(
                            ParseError {
                                line: cur3.line,
                                col: cur3.col,
                                expected: Expected::AssignInDecl,
                                found,
                            },
                        );
                    },
                }
                let value = match self.parse_expression() {
                    Ok(v) => v,
                    Err(e) => {
                        return Err(e);
                    },
                };
                let ghost nv = name@;
                let ghost vv = view_expr(value);
                let st = Statement::VarDecl { name, value };
                proof {
                    assert(view_stmt(st) == (StmtV::VarDecl { name: nv, value: vv }));
                }
                Ok(st)
    }

    /// Parse a plain assignment: a name, `=`, and the assigned expression.
    fn parse_assignment_stmt(&mut self, Ghost(p_entry): Ghost<int>) -> (r: Result<Statement, ParseError>)
        requires
            old(self).wf(),
            0 <= p_entry <= old(self).spec_pos(),
            old(self).spec_pos() == spec_skip_newlines(old(self).spec_toks(), p_entry),
            spec_cur(old(self).spec_toks(), old(self).spec_pos()).token is Identifier,
        ensures
            final(self).wf(),
            final(self).spec_toks() == old(self).spec_toks(),
            final(self).spec_pos() >= old(self).spec_pos(),
            r is Ok ==> final(self).spec_pos() > p_entry,
            match spec_parse_statement(old(self).spec_toks(), p_entry) {
                Ok((sv, p2)) => r is Ok && view_stmt(r->Ok_0) == sv && final(self).spec_pos()
                    == p2,
                Err(e) => r is Err && view_parse_error(r->Err_0) == e,
            },
        decreases old(self).spec_toks().len() - old(self).spec_pos(), 10int,
    {
        let cur = self.current();
                let name = match cur.token {
                    Token::Identifier(s) => s,
                    _ => {
                        proof {
                            assert(false);
                        }
                        return Err(
                            ParseError {
                                line: 0,
                                col: 0,
                                expected: Expected::Statement,
                                found: Token::Eof,
                            },
                        );
                    },
                };

                self.advance();
                let cur2 = self.current();
                match cur2.token {
                    Token::Assign => {
                        self.advance();
                    },
                    found => {
                        return Err(
                            ParseError {
                                line: cur2.line,
                                col: cur2.col,
                                expected: Expected::AssignAfterIdent,
                                found,
                            },
                        );
                    },
                }
                let value = match self.parse_expression() {
                    Ok(v) => v,
                    Err(e) => {
                        return Err(e);
                    },
                };
                let ghost nv = name@;
                let ghost vv = view_expr(value);
                let st = Statement::Assignment { target: name, value };
                proof {
                    assert(view_stmt(st) == (StmtV::Assignment { target: nv, value: vv }));
                }
                Ok(st)
    }

    #[verifier::rlimit(100)]
    /// Parse a print statement: the keyword, then a parenthesized or bare expression.
    fn parse_print_stmt(&mut self, Ghost(p_entry): Ghost<int>) -> (r: Result<Statement, ParseError>)
        requires
            old(self).wf(),
            0 <= p_entry <= old(self).spec_pos(),
            old(self).spec_pos() == spec_skip_newlines(old(self).spec_toks(), p_entry),
            spec_cur(old(self).spec_toks(), old(self).spec_pos()).token is Imprimir,
        ensures
            final(self).wf(),
            final(self).spec_toks() == old(self).spec_toks(),
            final(self).spec_pos() >= old(self).spec_pos(),
            r is Ok ==> final(self).spec_pos() > p_entry,
            match spec_parse_statement(old(self).spec_toks(), p_entry) {
                Ok((sv, p2)) => r is Ok && view_stmt(r->Ok_0) == sv && final(self).spec_pos()
                    == p2,
                Err(e) => r is Err && view_parse_error(r->Err_0) == e,
            },
        decreases old(self).spec_toks().len() - old(self).spec_pos(), 10int,
    {
        let cur = self.current();

                self.advance();
                if matches!(self.current().token, Token::LParen) {
                    self.advance();
                    let expr = match self.parse_expression() {
                        Ok(v) => v,
                        Err(e) => {
                            return Err(e);
                        },
                    };
                    let cur3 = self.current();
                    match cur3.token {
                        Token::RParen => {
                            self.advance();
                        },
                        found => {
                            return Err(
                                ParseError {
                                    line: cur3.line,
                                    col: cur3.col,
                                    expected: Expected::RParenAfterPrint,
                                    found,
                                },
                            );
                        },
                    }
                    let ghost ev = view_expr(expr);
                    let st = Statement::Print { expr };
                    proof {
                        assert(view_stmt(st) == (StmtV::Print { expr: ev }));
                    }
                    Ok(st)
                } else {
                    let expr = match self.parse_expression() {
                        Ok(v) => v,
                        Err(e) => {
                            return Err(e);
                        },
                    };
                    let ghost ev = view_expr(expr);
                    let st = Statement::Print { expr };
                    proof {
                        assert(view_stmt(st) == (StmtV::Print { expr: ev }));
                    }
                    Ok(st)
                }
    }

    #[verifier::rlimit(100)]
    /// Parse a conditional: the keyword, a parenthesized condition, the then block, and an optional else block.
    fn parse_si_stmt(&mut self, Ghost(p_entry): Ghost<int>) -> (r: Result<Statement, ParseError>)
        requires
            old(self).wf(),
            0 <= p_entry <= old(self).spec_pos(),
            old(self).spec_pos() == spec_skip_newlines(old(self).spec_toks(), p_entry),
            spec_cur(old(self).spec_toks(), old(self).spec_pos()).token is Si,
        ensures
            final(self).wf(),
            final(self).spec_toks() == old(self).spec_toks(),
            final(self).spec_pos() >= old(self).spec_pos(),
            r is Ok ==> final(self).spec_pos() > p_entry,
            match spec_parse_statement(old(self).spec_toks(), p_entry) {
                Ok((sv, p2)) => r is Ok && view_stmt(r->Ok_0) == sv && final(self).spec_pos()
                    == p2,
                Err(e) => r is Err && view_parse_error(r->Err_0) == e,
            },
        decreases old(self).spec_toks().len() - old(self).spec_pos(), 10int,
    {
        let cur = self.current();

                self.advance();
                let cur2 = self.current();
                match cur2.token {
                    Token::LParen => {
                        self.advance();
                    },
                    found => {
                        return Err(
                            ParseError {
                                line: cur2.line,
                                col: cur2.col,
                                expected: Expected::LParenAfterSi,
                                found,
                            },
                        );
                    },
                }
                let condition = match self.parse_expression() {
                    Ok(v) => v,
                    Err(e) => {
                        return Err(e);
                    },
                };
                let cur3 = self.current();
                match cur3.token {
                    Token::RParen => {
                        self.advance();
                    },
                    found => {
                        return Err(
                            ParseError {
                                line: cur3.line,
                                col: cur3.col,
                                expected: Expected::RParenAfterSiCond,
                                found,
                            },
                        );
                    },
                }
                let then_body = match self.parse_block() {
                    Ok(v) => v,
                    Err(e) => {
                        return Err(e);
                    },
                };
                if matches!(self.current().token, Token::Sino) {
                    self.advance();
                    let else_body = match self.parse_block() {
                        Ok(v) => v,
                        Err(e) => {
                            return Err(e);
                        },
                    };
                    let ghost cv = view_expr(condition);
                    let ghost tv = view_stmts(then_body@);
                    let ghost evv = view_stmts(else_body@);
                    let st = Statement::If { condition, then_body, else_body: Some(else_body) };
                    proof {
                        assert(view_stmt(st) == (StmtV::If {
                            condition: cv,
                            then_body: tv,
                            else_body: Some(evv),
                        }));
                    }
                    Ok(st)
                } else {
                    let ghost cv = view_expr(condition);
                    let ghost tv = view_stmts(then_body@);
                    let st = Statement::If { condition, then_body, else_body: None };
                    proof {
                        assert(view_stmt(st) == (StmtV::If {
                            condition: cv,
                            then_body: tv,
                            else_body: None,
                        }));
                    }
                    Ok(st)
                }
    }

    #[verifier::rlimit(100)]
    /// Parse a loop: the keyword, a parenthesized condition, and the body block.
    fn parse_mientras_stmt(&mut self, Ghost(p_entry): Ghost<int>) -> (r: Result<Statement, ParseError>)
        requires
            old(self).wf(),
            0 <= p_entry <= old(self).spec_pos(),
            old(self).spec_pos() == spec_skip_newlines(old(self).spec_toks(), p_entry),
            spec_cur(old(self).spec_toks(), old(self).spec_pos()).token is Mientras,
        ensures
            final(self).wf(),
            final(self).spec_toks() == old(self).spec_toks(),
            final(self).spec_pos() >= old(self).spec_pos(),
            r is Ok ==> final(self).spec_pos() > p_entry,
            match spec_parse_statement(old(self).spec_toks(), p_entry) {
                Ok((sv, p2)) => r is Ok && view_stmt(r->Ok_0) == sv && final(self).spec_pos()
                    == p2,
                Err(e) => r is Err && view_parse_error(r->Err_0) == e,
            },
        decreases old(self).spec_toks().len() - old(self).spec_pos(), 10int,
    {
        let cur = self.current();

                self.advance();
                let cur2 = self.current();
                match cur2.token {
                    Token::LParen => {
                        self.advance();
                    },
                    found => {
                        return Err(
                            ParseError {
                                line: cur2.line,
                                col: cur2.col,
                                expected: Expected::LParenAfterMientras,
                                found,
                            },
                        );
                    },
                }
                let condition = match self.parse_expression() {
                    Ok(v) => v,
                    Err(e) => {
                        return Err(e);
                    },
                };
                let cur3 = self.current();
                match cur3.token {
                    Token::RParen => {
                        self.advance();
                    },
                    found => {
                        return Err(
                            ParseError {
                                line: cur3.line,
                                col: cur3.col,
                                expected: Expected::RParenAfterMientrasCond,
                                found,
                            },
                        );
                    },
                }
                let body = match self.parse_block() {
                    Ok(v) => v,
                    Err(e) => {
                        return Err(e);
                    },
                };
                let ghost cv = view_expr(condition);
                let ghost bv = view_stmts(body@);
                let st = Statement::While { condition, body };
                proof {
                    assert(view_stmt(st) == (StmtV::While { condition: cv, body: bv }));
                }
                Ok(st)
    }

    /// Parse an import: the keyword and a module name; imports are never lowered to bytecode.
    fn parse_import_stmt(&mut self, Ghost(p_entry): Ghost<int>) -> (r: Result<Statement, ParseError>)
        requires
            old(self).wf(),
            0 <= p_entry <= old(self).spec_pos(),
            old(self).spec_pos() == spec_skip_newlines(old(self).spec_toks(), p_entry),
            spec_cur(old(self).spec_toks(), old(self).spec_pos()).token is Import,
        ensures
            final(self).wf(),
            final(self).spec_toks() == old(self).spec_toks(),
            final(self).spec_pos() >= old(self).spec_pos(),
            r is Ok ==> final(self).spec_pos() > p_entry,
            match spec_parse_statement(old(self).spec_toks(), p_entry) {
                Ok((sv, p2)) => r is Ok && view_stmt(r->Ok_0) == sv && final(self).spec_pos()
                    == p2,
                Err(e) => r is Err && view_parse_error(r->Err_0) == e,
            },
        decreases old(self).spec_toks().len() - old(self).spec_pos(), 10int,
    {
        let cur = self.current();

                self.advance();
                let cur2 = self.current();
                let module = match cur2.token {
                    Token::Identifier(s) => s,
                    Token::String(s) => s,
                    found => {
                        return Err(
                            ParseError {
                                line: cur2.line,
                                col: cur2.col,
                                expected: Expected::ModuleName,
                                found,
                            },
                        );
                    },
                };
                self.advance();
                let ghost mv = module@;
                let st = Statement::Import { module };
                proof {
                    assert(view_stmt(st) == (StmtV::Import { module: mv }));
                }
                Ok(st)
    }

    #[verifier::rlimit(100)]
    /// Parse one statement, after skipping leading newlines.
    fn parse_statement(&mut self) -> (r: Result<Statement, ParseError>)
        requires
            old(self).wf(),
        ensures
            final(self).wf(),
            final(self).spec_toks() == old(self).spec_toks(),
            final(self).spec_pos() >= old(self).spec_pos(),
            r is Ok ==> final(self).spec_pos() > old(self).spec_pos(),
            match spec_parse_statement(old(self).spec_toks(), old(self).spec_pos()) {
                Ok((sv, p2)) => r is Ok && view_stmt(r->Ok_0) == sv && final(self).spec_pos()
                    == p2,
                Err(e) => r is Err && view_parse_error(r->Err_0) == e,
            },
        decreases old(self).spec_toks().len() - old(self).spec_pos(), 11int,
    {
        let ghost p_entry = self.spec_pos();
        self.skip_newlines();

        let cur = self.current();
        match cur.token {
            Token::Numero => self.parse_numero_stmt(Ghost(p_entry)),
            Token::Identifier(_) => self.parse_assignment_stmt(Ghost(p_entry)),
            Token::Imprimir => self.parse_print_stmt(Ghost(p_entry)),
            Token::Si => self.parse_si_stmt(Ghost(p_entry)),
            Token::Mientras => self.parse_mientras_stmt(Ghost(p_entry)),
            Token::Import => self.parse_import_stmt(Ghost(p_entry)),
            found => Err(
                ParseError {
                    line: cur.line,
                    col: cur.col,
                    expected: Expected::Statement,
                    found,
                },
            ),
        }
    }

    /// Parse a block: `{`, statements separated by newlines, `}`.
    #[verifier::rlimit(100)]
    #[verifier::spinoff_prover]
    fn parse_block(&mut self) -> (r: Result<Vec<Statement>, ParseError>)
        requires
            old(self).wf(),
        ensures
            final(self).wf(),
            final(self).spec_toks() == old(self).spec_toks(),
            final(self).spec_pos() >= old(self).spec_pos(),
            match spec_parse_block(old(self).spec_toks(), old(self).spec_pos()) {
                Ok((sv, p2)) => r is Ok && view_stmts(r->Ok_0@) == sv && final(self).spec_pos()
                    == p2,
                Err(e) => r is Err && view_parse_error(r->Err_0) == e,
            },
        decreases old(self).spec_toks().len() - old(self).spec_pos(), 13int,
    {
        let ghost toks = self.spec_toks();
        let cur = self.current();
        match cur.token {
            Token::LBrace => {
                self.advance();
            },
            found => {
                return Err(
                    ParseError {
                        line: cur.line,
                        col: cur.col,
                        expected: Expected::LBraceBlock,
                        found,
                    },
                );
            },
        }
        let ghost p_items = self.spec_pos();

        let mut stmts: Vec<Statement> = Vec::new();
        loop
            invariant
                self.wf(),
                self.spec_toks() == toks,
                toks == old(self).spec_toks(),
                old(self).spec_pos() < toks.len(),
                spec_cur(toks, old(self).spec_pos()).token is LBrace,
                p_items == old(self).spec_pos() + 1,
                self.spec_pos() >= p_items,
                spec_block_items(toks, p_items) == (match spec_block_items(
                    toks,
                    self.spec_pos(),
                ) {
                    Ok((rest, pe)) => Ok::<(Seq<StmtV>, int), ParseErrorV>(
                        (view_stmts(stmts@) + rest, pe),
                    ),
                    Err(e) => Err::<(Seq<StmtV>, int), ParseErrorV>(e),
                }),
            ensures
                self.wf(),
                self.spec_toks() == toks,
                toks == old(self).spec_toks(),
                old(self).spec_pos() < toks.len(),
                spec_cur(toks, old(self).spec_pos()).token is LBrace,
                p_items == old(self).spec_pos() + 1,
                self.spec_pos() >= p_items,
                spec_block_items(toks, p_items) == Ok::<(Seq<StmtV>, int), ParseErrorV>(
                    (view_stmts(stmts@), self.spec_pos()),
                ),
            decreases toks.len() - self.spec_pos(),
        {
            let ghost p_head = self.spec_pos();
            self.skip_newlines();
            if matches!(self.current().token, Token::RBrace | Token::Eof) {
                proof {
                    assert(spec_block_items(toks, self.spec_pos()) == Ok::<
                        (Seq<StmtV>, int),
                        ParseErrorV,
                    >((Seq::empty(), self.spec_pos())));
                    assert(spec_block_items(toks, p_head) == spec_block_items(
                        toks,
                        self.spec_pos(),
                    ));
                    assert(view_stmts(stmts@) + Seq::<StmtV>::empty() =~= view_stmts(stmts@));
                }
                break;
            }
            let s = match self.parse_statement() {
                Ok(s) => s,
                Err(e) => {
                    proof {
                        assert(spec_block_items(toks, p_head) is Err);
                    }
                    return Err(e);
                },
            };
            let ghost stmts_pre = stmts@;
            let ghost sv = view_stmt(s);
            stmts.push(s);
            proof {
                crate::ast::lemma_view_stmts_push(stmts_pre, s);
                let tail = spec_block_items(toks, self.spec_pos());
                if tail is Ok {
                    assert(view_stmts(stmts_pre) + (seq![sv] + tail->Ok_0.0) =~= view_stmts(
                        stmts@,
                    ) + tail->Ok_0.0);
                }
            }
        }

        let cur2 = self.current();
        match cur2.token {
            Token::RBrace => {
                self.advance();
                Ok(stmts)
            },
            found => Err(
                ParseError {
                    line: cur2.line,
                    col: cur2.col,
                    expected: Expected::RBraceBlock,
                    found,
                },
            ),
        }
    }

    /// Parse the whole token stream into a program: statements until the
    /// end-of-stream token.
    #[verifier::rlimit(100)]
    #[verifier::spinoff_prover]
    pub fn parse(&mut self) -> (r: Result<Program, ParseError>)
        requires
            old(self).wf(),
        ensures
            final(self).wf(),
            final(self).spec_toks() == old(self).spec_toks(),
            match spec_program_items(old(self).spec_toks(), old(self).spec_pos()) {
                Ok((sv, p2)) => r is Ok && view_stmts(r->Ok_0.statements@) == sv,
                Err(e) => r is Err && view_parse_error(r->Err_0) == e,
            },
    {
        let ghost toks = self.spec_toks();
        let ghost p_items = self.spec_pos();

        let mut statements: Vec<Statement> = Vec::new();
        loop
            invariant
                self.wf(),
                self.spec_toks() == toks,
                toks == old(self).spec_toks(),
                p_items == old(self).spec_pos(),
                spec_program_items(toks, p_items) == (match spec_program_items(
                    toks,
                    self.spec_pos(),
                ) {
                    Ok((rest, pe)) => Ok::<(Seq<StmtV>, int), ParseErrorV>(
                        (view_stmts(statements@) + rest, pe),
                    ),
                    Err(e) => Err::<(Seq<StmtV>, int), ParseErrorV>(e),
                }),
            ensures
                self.wf(),
                self.spec_toks() == toks,
                toks == old(self).spec_toks(),
                p_items == old(self).spec_pos(),
                spec_program_items(toks, p_items) == Ok::<(Seq<StmtV>, int), ParseErrorV>(
                    (view_stmts(statements@), self.spec_pos()),
                ),
            decreases toks.len() - self.spec_pos(),
        {
            let ghost p_head = self.spec_pos();
            self.skip_newlines();
            if self.is_at_end() {
                proof {
                    assert(spec_program_items(toks, self.spec_pos()) == Ok::<
                        (Seq<StmtV>, int),
                        ParseErrorV,
                    >((Seq::empty(), self.spec_pos())));
                    assert(spec_program_items(toks, p_head) == spec_program_items(
                        toks,
                        self.spec_pos(),
                    ));
                    assert(view_stmts(statements@) + Seq::<StmtV>::empty() =~= view_stmts(
                        statements@,
                    ));
                }
                break;
            }
            let s = match self.parse_statement() {
                Ok(s) => s,
                Err(e) => {
                    proof {
                        assert(spec_program_items(toks, p_head) is Err);
                    }
                    return Err(e);
                },
            };
            let ghost stmts_pre = statements@;
            let ghost sv = view_stmt(s);
            statements.push(s);
            proof {
                crate::ast::lemma_view_stmts_push(stmts_pre, s);
                let tail = spec_program_items(toks, self.spec_pos());
                if tail is Ok {
                    assert(view_stmts(stmts_pre) + (seq![sv] + tail->Ok_0.0) =~= view_stmts(
                        statements@,
                    ) + tail->Ok_0.0);
                }
            }
        }

        let mut p = Program::new();
        p.statements = statements;
        Ok(p)
    }
}

} // verus!
