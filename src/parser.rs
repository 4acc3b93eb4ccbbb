use vstd::prelude::*;
use crate::ast::{Expr, Stmt, ExprV, StmtV, Operator, AST, Interpretable};
use crate::ast::{exprs_view, stmts_view, names_view, lemma_exprs_view_push, lemma_stmts_view_push};
use crate::source::{FilePosition, SourceError};
use crate::text::{chars_of, string_of};
use crate::cursor::{TokenCursor, cursor_index, cursor_end, cursor_new, cursor_peek, cursor_next};
use crate::tokenizer::{Token, TokenType, TokenView, LiteralValue, LiteralView, tokens_view, token_name};

verus! {

/// What went wrong while parsing.
#[derive(Clone, Copy, Debug, PartialEq, Eq, Structural)]
pub enum ParseErrorKind {
    /// A token of this type had to come next.
    ExpectedToken(TokenType),
    /// A token of this type cannot stand where it was found.
    UnexpectedToken(TokenType),
    /// The left side of `=` is not a variable.
    InvalidAssignmentTarget,
    /// The tokens ran out in the middle of a construct.
    UnexpectedEndOfInput,
    /// An expression was complete before the tokens were.
    TrailingTokens,
}

/// A syntax error, with the position of the token where it was found.
#[derive(Clone, Copy, Debug, PartialEq, Eq, Structural)]
pub struct ParseError {
    pub pos: Option<FilePosition>,
    pub kind: ParseErrorKind,
}

impl ParseError {
    pub fn new(pos: FilePosition, kind: ParseErrorKind) -> (r: ParseError)
        ensures
            r == (ParseError { pos: Some(pos), kind }),
    {
        ParseError { pos: Some(pos), kind }
    }

    pub fn get_kind(&self) -> (r: ParseErrorKind)
        ensures
            r == self.kind,
    {
        self.kind
    }
}

pub open spec fn parse_message(k: ParseErrorKind) -> Seq<char> {
    match k {
        ParseErrorKind::ExpectedToken(t) => "expected "@ + token_name(t),
        ParseErrorKind::UnexpectedToken(t) => "unexpected "@ + token_name(t),
        ParseErrorKind::InvalidAssignmentTarget => "invalid assignment target"@,
        ParseErrorKind::UnexpectedEndOfInput => "unexpected end of input"@,
        ParseErrorKind::TrailingTokens => "failed to parse all tokens"@,
    }
}

fn joined(a: &str, b: String) -> (r: String)
    ensures
        r@ == a@ + b@,
{
    let mut v = chars_of(a);
    let w = chars_of(b.as_str());
    let ghost v0 = v@;
    let mut i: usize = 0;
    while i < w.len()
        invariant
            i <= w.len(),
            v@ == v0 + w@.take(i as int),
        decreases w.len() - i,
    {
        v.push(w[i]);
        i = i + 1;
        assert(v@ =~= v0 + w@.take(i as int));
    }
    assert(w@.take(w.len() as int) =~= w@);
    string_of(&v)
}

impl SourceError for ParseError {
    open spec fn spec_position(&self) -> Option<FilePosition> {
        self.pos
    }

    open spec fn spec_message(&self) -> Seq<char> {
        parse_message(self.kind)
    }

    open spec fn spec_type(&self) -> Seq<char> {
        "ParseError"@
    }

    fn get_position(&self) -> (r: Option<FilePosition>) {
        self.pos
    }

    fn get_message(&self) -> (r: String) {
        match self.kind {
            ParseErrorKind::ExpectedToken(t) => joined("expected ", t.name()),
            ParseErrorKind::UnexpectedToken(t) => joined("unexpected ", t.name()),
            ParseErrorKind::InvalidAssignmentTarget => "invalid assignment target".to_owned(),
            ParseErrorKind::UnexpectedEndOfInput => "unexpected end of input".to_owned(),
            ParseErrorKind::TrailingTokens => "failed to parse all tokens".to_owned(),
        }
    }

    fn get_type(&self) -> (r: String) {
        "ParseError".to_owned()
    }
}

// ---------------------------------------------------------------------------
// The grammar, stated over token views. Every function takes the tokens and
// the index of the next token, and gives what it parsed with the index after
// it. Where a definition goes on from such an index it first checks that
// the index moved forward within the tokens (`stuck()` otherwise): that is
// what shows that the definitions terminate.

pub open spec fn err(pos: Option<FilePosition>, kind: ParseErrorKind) -> ParseError {
    ParseError { pos, kind }
}

pub open spec fn stuck() -> ParseError {
    err(None, ParseErrorKind::UnexpectedEndOfInput)
}

pub open spec fn next_is(ts: Seq<TokenView>, p: nat, t: TokenType) -> bool {
    p < ts.len() && ts[p as int].typ == t
}

pub open spec fn last_pos(ts: Seq<TokenView>) -> Option<FilePosition> {
    if ts.len() > 0 {
        Some(ts.last().pos)
    } else {
        None
    }
}

/// The next token must have type `t`.
pub open spec fn expect(ts: Seq<TokenView>, p: nat, t: TokenType) -> Result<nat, ParseError> {
    if p < ts.len() {
        if ts[p as int].typ == t {
            Ok(p + 1)
        } else {
            Err(err(Some(ts[p as int].pos), ParseErrorKind::ExpectedToken(t)))
        }
    } else {
        Err(err(last_pos(ts), ParseErrorKind::ExpectedToken(t)))
    }
}

/// A construct needs another token.
pub open spec fn need_token(ts: Seq<TokenView>, p: nat) -> Result<TokenType, ParseError> {
    if p < ts.len() {
        Ok(ts[p as int].typ)
    } else {
        Err(err(last_pos(ts), ParseErrorKind::UnexpectedEndOfInput))
    }
}

/// The operator of level `k` (0 `or`, 1 `and`, 2 equality, 3 comparison,
/// 4 `+ -`, 5 `* /`) that a token of type `t` stands for.
pub open spec fn level_op(k: nat, t: TokenType) -> Option<Operator> {
    if k == 0 {
        if t == TokenType::Or { Some(Operator::Or) } else { None }
    } else if k == 1 {
        if t == TokenType::And { Some(Operator::And) } else { None }
    } else if k == 2 {
        if t == TokenType::BangEqual {
            Some(Operator::NotEqual)
        } else if t == TokenType::EqualEqual {
            Some(Operator::Equal)
        } else {
            None
        }
    } else if k == 3 {
        if t == TokenType::Greater {
            Some(Operator::Greater)
        } else if t == TokenType::GreaterEqual {
            Some(Operator::GreaterEqual)
        } else if t == TokenType::Less {
            Some(Operator::Less)
        } else if t == TokenType::LessEqual {
            Some(Operator::LessEqual)
        } else {
            None
        }
    } else if k == 4 {
        if t == TokenType::Minus {
            Some(Operator::Sub)
        } else if t == TokenType::Plus {
            Some(Operator::Add)
        } else {
            None
        }
    } else if k == 5 {
        if t == TokenType::Slash {
            Some(Operator::Div)
        } else if t == TokenType::Star {
            Some(Operator::Mul)
        } else {
            None
        }
    } else {
        None
    }
}

pub open spec fn op_at(ts: Seq<TokenView>, p: nat, k: nat) -> Option<Operator> {
    if p < ts.len() {
        level_op(k, ts[p as int].typ)
    } else {
        None
    }
}

/// The node of level `k` for `l op r`: `and` and `or` are logical, the rest
/// binary.
pub open spec fn level_node(k: nat, op: Operator, l: ExprV, r: ExprV) -> ExprV {
    if k < 2 {
        ExprV::Logical(op, Box::new(l), Box::new(r))
    } else {
        ExprV::BinOp(op, Box::new(l), Box::new(r))
    }
}

pub open spec fn p_expression(ts: Seq<TokenView>, p: nat) -> Result<(ExprV, nat), ParseError>
    decreases ts.len() - p, 40int,
{
    p_assignment(ts, p)
}

/// Assignment, right-associative; its target must be a variable.
pub open spec fn p_assignment(ts: Seq<TokenView>, p: nat) -> Result<(ExprV, nat), ParseError>
    decreases ts.len() - p, 39int,
{
    match p_level(ts, p, 0) {
        Err(e) => Err(e),
        Ok((ex, q)) => if !(p <= q <= ts.len()) {
            Err(stuck())
        } else if next_is(ts, q, TokenType::Equal) {
            match ex {
                ExprV::Var(name) => match p_assignment(ts, q + 1) {
                    Ok((v, r)) => Ok((ExprV::Assign(name, Box::new(v)), r)),
                    Err(e) => Err(e),
                },
                _ => Err(err(Some(ts[q as int].pos), ParseErrorKind::InvalidAssignmentTarget)),
            }
        } else {
            Ok((ex, q))
        },
    }
}

/// A left-associative chain of operators of level `k`.
pub open spec fn p_level(ts: Seq<TokenView>, p: nat, k: nat) -> Result<(ExprV, nat), ParseError>
    decreases ts.len() - p, 30 - 2 * k,
{
    if k > 5 {
        Err(stuck())
    } else {
        match p_operand(ts, p, k) {
            Err(e) => Err(e),
            Ok((l, q)) => if p <= q <= ts.len() {
                p_level_rest(ts, q, k, l)
            } else {
                Err(stuck())
            },
        }
    }
}

/// An operand of level `k`: the next level, or a unary expression.
pub open spec fn p_operand(ts: Seq<TokenView>, p: nat, k: nat) -> Result<(ExprV, nat), ParseError>
    decreases ts.len() - p, 29 - 2 * k,
{
    if k > 5 {
        Err(stuck())
    } else if k == 5 {
        p_unary(ts, p)
    } else {
        p_level(ts, p, k + 1)
    }
}

pub open spec fn p_level_rest(ts: Seq<TokenView>, q: nat, k: nat, l: ExprV) -> Result<
    (ExprV, nat),
    ParseError,
>
    decreases ts.len() - q, 29 - 2 * k,
{
    if k > 5 {
        Err(stuck())
    } else {
        match op_at(ts, q, k) {
            None => Ok((l, q)),
            Some(op) => match p_operand(ts, q + 1, k) {
                Err(e) => Err(e),
                Ok((r, q2)) => if q < q2 <= ts.len() {
                    p_level_rest(ts, q2, k, level_node(k, op, l, r))
                } else {
                    Err(stuck())
                },
            },
        }
    }
}

pub open spec fn p_unary(ts: Seq<TokenView>, p: nat) -> Result<(ExprV, nat), ParseError>
    decreases ts.len() - p, 16int,
{
    if next_is(ts, p, TokenType::Bang) || next_is(ts, p, TokenType::Minus) {
        let op = if next_is(ts, p, TokenType::Bang) {
            Operator::Not
        } else {
            Operator::Negate
        };
        match p_unary(ts, p + 1) {
            Ok((e, q)) => Ok((ExprV::Unary(op, Box::new(e)), q)),
            Err(e) => Err(e),
        }
    } else {
        p_call(ts, p)
    }
}

pub open spec fn p_call(ts: Seq<TokenView>, p: nat) -> Result<(ExprV, nat), ParseError>
    decreases ts.len() - p, 15int,
{
    match p_primary(ts, p) {
        Err(e) => Err(e),
        Ok((f, q)) => if p <= q <= ts.len() {
            p_call_rest(ts, q, f)
        } else {
            Err(stuck())
        },
    }
}

/// Argument lists after a callee.
pub open spec fn p_call_rest(ts: Seq<TokenView>, q: nat, f: ExprV) -> Result<(ExprV, nat), ParseError>
    decreases ts.len() - q, 12int,
{
    if next_is(ts, q, TokenType::LeftParen) {
        match p_args(ts, q + 1, seq![]) {
            Err(e) => Err(e),
            Ok((args, r)) => match expect(ts, r, TokenType::RightParen) {
                Err(e) => Err(e),
                Ok(r2) => if q < r2 <= ts.len() {
                    p_call_rest(ts, r2, ExprV::Call(Box::new(f), args))
                } else {
                    Err(stuck())
                },
            },
        }
    } else {
        Ok((f, q))
    }
}

/// Arguments up to a `)`, each optionally followed by a comma.
pub open spec fn p_args(ts: Seq<TokenView>, q: nat, acc: Seq<ExprV>) -> Result<
    (Seq<ExprV>, nat),
    ParseError,
>
    decreases ts.len() - q, 41int,
{
    if next_is(ts, q, TokenType::RightParen) {
        Ok((acc, q))
    } else {
        match p_expression(ts, q) {
            Err(e) => Err(e),
            Ok((e, r)) => {
                let r2 = if next_is(ts, r, TokenType::Comma) {
                    r + 1
                } else {
                    r
                };
                if q < r2 <= ts.len() {
                    p_args(ts, r2, acc.push(e))
                } else {
                    Err(stuck())
                }
            },
        }
    }
}

/// A literal or a variable, else a group.
pub open spec fn p_primary(ts: Seq<TokenView>, p: nat) -> Result<(ExprV, nat), ParseError>
    decreases ts.len() - p, 14int,
{
    if p < ts.len() {
        let t = ts[p as int];
        if t.typ == TokenType::False {
            Ok((ExprV::Bool(false), p + 1))
        } else if t.typ == TokenType::True {
            Ok((ExprV::Bool(true), p + 1))
        } else if t.typ == TokenType::Nil {
            Ok((ExprV::Nil, p + 1))
        } else if t.typ == TokenType::Number && t.literal matches Some(LiteralView::Num(v)) {
            Ok((ExprV::Numb(t.literal->0->Num_0), p + 1))
        } else if t.typ == TokenType::Str && t.literal matches Some(LiteralView::Text(s)) {
            Ok((ExprV::Str(t.literal->0->Text_0), p + 1))
        } else if t.typ == TokenType::Identifier {
            Ok((ExprV::Var(t.lexeme), p + 1))
        } else {
            p_group(ts, p)
        }
    } else {
        p_group(ts, p)
    }
}

/// `( expression )`.
pub open spec fn p_group(ts: Seq<TokenView>, p: nat) -> Result<(ExprV, nat), ParseError>
    decreases ts.len() - p, 13int,
{
    if p < ts.len() {
        if ts[p as int].typ == TokenType::LeftParen {
            match p_expression(ts, p + 1) {
                Err(e) => Err(e),
                Ok((e, q)) => match expect(ts, q, TokenType::RightParen) {
                    Err(x) => Err(x),
                    Ok(r) => Ok((ExprV::Group(Box::new(e)), r)),
                },
            }
        } else {
            Err(err(Some(ts[p as int].pos), ParseErrorKind::UnexpectedToken(ts[p as int].typ)))
        }
    } else {
        Err(err(None, ParseErrorKind::UnexpectedEndOfInput))
    }
}


pub open spec fn p_declaration(ts: Seq<TokenView>, p: nat) -> Result<(StmtV, nat), ParseError>
    decreases ts.len() - p, 90int,
{
    if p >= ts.len() {
        Ok((StmtV::Empty, p))
    } else if ts[p as int].typ == TokenType::Fun {
        p_function_declaration(ts, p)
    } else if ts[p as int].typ == TokenType::Var {
        p_var_declaration(ts, p)
    } else {
        p_statement(ts, p)
    }
}

/// `fun name ( params ) block`.
pub open spec fn p_function_declaration(ts: Seq<TokenView>, p: nat) -> Result<(StmtV, nat), ParseError>
    decreases ts.len() - p, 89int,
{
    match expect(ts, p + 1, TokenType::Identifier) {
        Err(e) => Err(e),
        Ok(q) => match expect(ts, q, TokenType::LeftParen) {
            Err(e) => Err(e),
            Ok(q2) => match p_params(ts, q2, seq![]) {
                Err(e) => Err(e),
                Ok((params, q3)) => match expect(ts, q3, TokenType::RightParen) {
                    Err(e) => Err(e),
                    Ok(q4) => if p < q4 <= ts.len() {
                        match p_block(ts, q4) {
                            Err(e) => Err(e),
                            Ok((body, r)) => Ok(
                                (StmtV::Fun(ts[p + 1 as int].lexeme, params, Box::new(body)), r),
                            ),
                        }
                    } else {
                        Err(stuck())
                    },
                },
            },
        },
    }
}

/// Parameter names up to a `)`, each optionally followed by a comma.
pub open spec fn p_params(ts: Seq<TokenView>, q: nat, acc: Seq<Seq<char>>) -> Result<
    (Seq<Seq<char>>, nat),
    ParseError,
>
    decreases ts.len() - q,
{
    if next_is(ts, q, TokenType::RightParen) {
        Ok((acc, q))
    } else {
        match expect(ts, q, TokenType::Identifier) {
            Err(e) => Err(e),
            Ok(r) => {
                let r2 = if next_is(ts, r, TokenType::Comma) {
                    r + 1
                } else {
                    r
                };
                if q < r2 <= ts.len() {
                    p_params(ts, r2, acc.push(ts[q as int].lexeme))
                } else {
                    Err(stuck())
                }
            },
        }
    }
}

/// `var name ;` or `var name = expression ;`.
pub open spec fn p_var_declaration(ts: Seq<TokenView>, p: nat) -> Result<(StmtV, nat), ParseError>
    decreases ts.len() - p, 88int,
{
    match expect(ts, p + 1, TokenType::Identifier) {
        Err(e) => Err(e),
        Ok(q) => if next_is(ts, q, TokenType::Equal) {
            match p_expression(ts, q + 1) {
                Err(e) => Err(e),
                Ok((init, r)) => match expect(ts, r, TokenType::SemiColon) {
                    Err(e) => Err(e),
                    Ok(r2) => Ok((StmtV::Var(ts[p + 1 as int].lexeme, Some(init)), r2)),
                },
            }
        } else {
            match expect(ts, q, TokenType::SemiColon) {
                Err(e) => Err(e),
                Ok(r2) => Ok((StmtV::Var(ts[p + 1 as int].lexeme, None), r2)),
            }
        },
    }
}

pub open spec fn p_statement(ts: Seq<TokenView>, p: nat) -> Result<(StmtV, nat), ParseError>
    decreases ts.len() - p, 87int,
{
    if p >= ts.len() {
        Ok((StmtV::Empty, p))
    } else {
        let t = ts[p as int].typ;
        if t == TokenType::For {
            p_for_statement(ts, p)
        } else if t == TokenType::If {
            p_if_statement(ts, p)
        } else if t == TokenType::While {
            p_while_statement(ts, p)
        } else if t == TokenType::LeftBrace {
            p_block(ts, p)
        } else if t == TokenType::Print {
            p_print_statement(ts, p)
        } else if t == TokenType::Return {
            p_return_statement(ts, p)
        } else {
            p_expression_statement(ts, p)
        }
    }
}

/// The first clause of a `for`: nothing, a declaration or an expression
/// statement, each with its `;`.
pub open spec fn p_for_initializer(ts: Seq<TokenView>, p: nat) -> Result<(Option<StmtV>, nat), ParseError>
    decreases ts.len() - p, 92int,
{
    match need_token(ts, p) {
        Err(e) => Err(e),
        Ok(t) => if t == TokenType::SemiColon {
            Ok((None, p + 1))
        } else if t == TokenType::Var {
            match p_var_declaration(ts, p) {
                Err(e) => Err(e),
                Ok((s, q)) => Ok((Some(s), q)),
            }
        } else {
            match p_expression_statement(ts, p) {
                Err(e) => Err(e),
                Ok((s, q)) => Ok((Some(s), q)),
            }
        },
    }
}

/// The condition of a `for` with its `;`; `true` where it is left out.
pub open spec fn p_for_condition(ts: Seq<TokenView>, p: nat) -> Result<(ExprV, nat), ParseError>
    decreases ts.len() - p, 77int,
{
    match need_token(ts, p) {
        Err(e) => Err(e),
        Ok(t) => if t == TokenType::SemiColon {
            Ok((ExprV::Bool(true), p + 1))
        } else {
            match p_expression(ts, p) {
                Err(e) => Err(e),
                Ok((c, q)) => match expect(ts, q, TokenType::SemiColon) {
                    Err(e) => Err(e),
                    Ok(r) => Ok((c, r)),
                },
            }
        },
    }
}

/// The increment of a `for`, if any; the `)` after it is left in place.
pub open spec fn p_for_increment(ts: Seq<TokenView>, p: nat) -> Result<(Option<ExprV>, nat), ParseError>
    decreases ts.len() - p, 76int,
{
    match need_token(ts, p) {
        Err(e) => Err(e),
        Ok(t) => if t == TokenType::RightParen {
            Ok((None, p))
        } else {
            match p_expression(ts, p) {
                Err(e) => Err(e),
                Ok((c, q)) => Ok((Some(c), q)),
            }
        },
    }
}

/// `for (init; cond; incr) body` is `{ init; while (cond) { body; incr; } }`,
/// each part left out where it is missing (a missing condition is `true`).
pub open spec fn desugar_for(
    init: Option<StmtV>,
    cond: ExprV,
    incr: Option<ExprV>,
    body: StmtV,
) -> StmtV {
    let inner = match incr {
        Some(e) => StmtV::Block(seq![body, StmtV::Expr(e)]),
        None => body,
    };
    let lp = StmtV::While(cond, Box::new(inner));
    match init {
        Some(s) => StmtV::Block(seq![s, lp]),
        None => lp,
    }
}

pub open spec fn p_for_statement(ts: Seq<TokenView>, p: nat) -> Result<(StmtV, nat), ParseError>
    decreases ts.len() - p, 86int,
{
    match expect(ts, p + 1, TokenType::LeftParen) {
        Err(e) => Err(e),
        Ok(q) => match p_for_initializer(ts, q) {
            Err(e) => Err(e),
            Ok((init, q2)) => if !(q <= q2 <= ts.len()) {
                Err(stuck())
            } else {
                match p_for_condition(ts, q2) {
                    Err(e) => Err(e),
                    Ok((cond, q3)) => if !(q2 <= q3 <= ts.len()) {
                        Err(stuck())
                    } else {
                        match p_for_increment(ts, q3) {
                            Err(e) => Err(e),
                            Ok((incr, q4)) => match expect(ts, q4, TokenType::RightParen) {
                                Err(e) => Err(e),
                                Ok(q5) => if p < q5 <= ts.len() {
                                    match p_statement(ts, q5) {
                                        Err(e) => Err(e),
                                        Ok((body, r)) => Ok((desugar_for(init, cond, incr, body), r)),
                                    }
                                } else {
                                    Err(stuck())
                                },
                            },
                        }
                    },
                }
            },
        },
    }
}

/// What follows `else`: another `if`, or a block.
pub open spec fn p_else_statement(ts: Seq<TokenView>, p: nat) -> Result<(StmtV, nat), ParseError>
    decreases ts.len() - p, 86int,
{
    match need_token(ts, p) {
        Err(e) => Err(e),
        Ok(t) => if t == TokenType::If {
            p_if_statement(ts, p)
        } else if t == TokenType::LeftBrace {
            p_block(ts, p)
        } else {
            Err(err(Some(ts[p as int].pos), ParseErrorKind::UnexpectedToken(t)))
        },
    }
}

/// `if expression block`, optionally followed by `else`.
pub open spec fn p_if_statement(ts: Seq<TokenView>, p: nat) -> Result<(StmtV, nat), ParseError>
    decreases ts.len() - p, 85int,
{
    match p_expression(ts, p + 1) {
        Err(e) => Err(e),
        Ok((cond, q)) => if !(p < q <= ts.len()) {
            Err(stuck())
        } else {
            match p_block(ts, q) {
                Err(e) => Err(e),
                Ok((then, r)) => if !(q <= r <= ts.len()) {
                    Err(stuck())
                } else if next_is(ts, r, TokenType::Else) {
                    match p_else_statement(ts, r + 1) {
                        Err(e) => Err(e),
                        Ok((el, r2)) => Ok((StmtV::If(cond, Box::new(then), Some(Box::new(el))), r2)),
                    }
                } else {
                    Ok((StmtV::If(cond, Box::new(then), None), r))
                },
            }
        },
    }
}

/// `while expression statement`.
pub open spec fn p_while_statement(ts: Seq<TokenView>, p: nat) -> Result<(StmtV, nat), ParseError>
    decreases ts.len() - p, 84int,
{
    match p_expression(ts, p + 1) {
        Err(e) => Err(e),
        Ok((cond, q)) => if !(p < q <= ts.len()) {
            Err(stuck())
        } else {
            match p_statement(ts, q) {
                Err(e) => Err(e),
                Ok((body, r)) => Ok((StmtV::While(cond, Box::new(body)), r)),
            }
        },
    }
}

/// `{ declarations }`.
pub open spec fn p_block(ts: Seq<TokenView>, p: nat) -> Result<(StmtV, nat), ParseError>
    decreases ts.len() - p, 83int,
{
    match expect(ts, p, TokenType::LeftBrace) {
        Err(e) => Err(e),
        Ok(q) => match p_block_rest(ts, q, seq![]) {
            Err(e) => Err(e),
            Ok((stmts, r)) => match expect(ts, r, TokenType::RightBrace) {
                Err(e) => Err(e),
                Ok(r2) => Ok((StmtV::Block(stmts), r2)),
            },
        },
    }
}

/// Declarations up to a `}` or the end of the tokens.
pub open spec fn p_block_rest(ts: Seq<TokenView>, q: nat, acc: Seq<StmtV>) -> Result<
    (Seq<StmtV>, nat),
    ParseError,
>
    decreases ts.len() - q, 95int,
{
    if q >= ts.len() || ts[q as int].typ == TokenType::RightBrace {
        Ok((acc, q))
    } else {
        match p_declaration(ts, q) {
            Err(e) => Err(e),
            Ok((s, r)) => if q < r <= ts.len() {
                p_block_rest(ts, r, acc.push(s))
            } else {
                Err(stuck())
            },
        }
    }
}

pub open spec fn p_print_statement(ts: Seq<TokenView>, p: nat) -> Result<(StmtV, nat), ParseError>
    decreases ts.len() - p, 82int,
{
    match p_expression(ts, p + 1) {
        Err(e) => Err(e),
        Ok((e, q)) => match expect(ts, q, TokenType::SemiColon) {
            Err(x) => Err(x),
            Ok(r) => Ok((StmtV::Print(e), r)),
        },
    }
}

/// `return ;` gives `nil`.
pub open spec fn p_return_statement(ts: Seq<TokenView>, p: nat) -> Result<(StmtV, nat), ParseError>
    decreases ts.len() - p, 81int,
{
    if next_is(ts, p + 1, TokenType::SemiColon) {
        Ok((StmtV::Return(ExprV::Nil), p + 2))
    } else {
        match p_expression(ts, p + 1) {
            Err(e) => Err(e),
            Ok((e, q)) => match expect(ts, q, TokenType::SemiColon) {
                Err(x) => Err(x),
                Ok(r) => Ok((StmtV::Return(e), r)),
            },
        }
    }
}

pub open spec fn p_expression_statement(ts: Seq<TokenView>, p: nat) -> Result<(StmtV, nat), ParseError>
    decreases ts.len() - p, 79int,
{
    match p_expression(ts, p) {
        Err(e) => Err(e),
        Ok((e, q)) => match expect(ts, q, TokenType::SemiColon) {
            Err(x) => Err(x),
            Ok(r) => Ok((StmtV::Expr(e), r)),
        },
    }
}

/// The declarations of a whole program from index `p` on.
pub open spec fn p_program(ts: Seq<TokenView>, p: nat, acc: Seq<StmtV>) -> Result<Seq<StmtV>, ParseError>
    decreases ts.len() - p,
{
    if p >= ts.len() {
        Ok(acc)
    } else {
        match p_declaration(ts, p) {
            Err(e) => Err(e),
            Ok((s, q)) => if p < q <= ts.len() {
                p_program(ts, q, acc.push(s))
            } else {
                Err(stuck())
            },
        }
    }
}

/// A program: declarations up to the end of the tokens.
pub open spec fn parse_program(ts: Seq<TokenView>) -> Result<Seq<StmtV>, ParseError> {
    p_program(ts, 0, seq![])
}

/// A single expression that takes all the tokens.
pub open spec fn parse_expression(ts: Seq<TokenView>) -> Result<ExprV, ParseError> {
    match p_expression(ts, 0) {
        Err(e) => Err(e),
        Ok((e, q)) => if q < ts.len() {
            Err(err(None, ParseErrorKind::TrailingTokens))
        } else {
            Ok(e)
        },
    }
}


// ---------------------------------------------------------------------------
// The parser. It walks the tokens with a cursor; each function starts at the
// cursor's index and leaves the cursor after what it parsed.

pub open spec fn tv(tokens: &Vec<Token>) -> Seq<TokenView> {
    tokens_view(tokens@)
}

/// The cursor walks these tokens.
pub open spec fn on(tokens: &Vec<Token>, it: TokenCursor) -> bool {
    cursor_end(it) == tokens.len() && cursor_index(it) <= tokens.len()
}

pub open spec fn at(it: TokenCursor) -> nat {
    cursor_index(it)
}

/// A result with the index after it.
pub open spec fn er(r: Result<Expr, ParseError>, q: nat) -> Result<(ExprV, nat), ParseError> {
    match r {
        Ok(e) => Ok((e@, q)),
        Err(x) => Err(x),
    }
}

pub open spec fn sr(r: Result<Stmt, ParseError>, q: nat) -> Result<(StmtV, nat), ParseError> {
    match r {
        Ok(s) => Ok((s@, q)),
        Err(x) => Err(x),
    }
}

/// The index of the next token (the number of tokens at the end).
fn position(tokens: &Vec<Token>, it: &mut TokenCursor) -> (p: usize)
    requires
        on(tokens, *old(it)),
    ensures
        on(tokens, *final(it)),
        at(*final(it)) == at(*old(it)),
        p == at(*old(it)),
{
    match cursor_peek(it) {
        Some(i) => i,
        None => tokens.len(),
    }
}

/// Moves past the next token.
fn advance(tokens: &Vec<Token>, it: &mut TokenCursor)
    requires
        on(tokens, *old(it)),
        at(*old(it)) < tokens.len(),
    ensures
        on(tokens, *final(it)),
        at(*final(it)) == at(*old(it)) + 1,
{
    cursor_next(it);
}

fn stuck_error() -> (r: ParseError)
    ensures
        r == stuck(),
{
    ParseError { pos: None, kind: ParseErrorKind::UnexpectedEndOfInput }
}

fn _next_is(tokens: &Vec<Token>, p: usize, ttype: TokenType) -> (r: bool)
    ensures
        r == next_is(tv(tokens), p as nat, ttype),
        r ==> p < tokens.len(),
{
    p < tokens.len() && tokens[p].typ == ttype
}

fn last_position(tokens: &Vec<Token>) -> (r: Option<FilePosition>)
    ensures
        r == last_pos(tv(tokens)),
{
    if tokens.len() > 0 {
        Some(tokens[tokens.len() - 1].pos)
    } else {
        None
    }
}

/// The next token must have type `ttype`; moves past it.
fn expect_token(tokens: &Vec<Token>, it: &mut TokenCursor, ttype: TokenType) -> (r: Result<(), ParseError>)
    requires
        on(tokens, *old(it)),
    ensures
        on(tokens, *final(it)),
        match r {
            Ok(_) => expect(tv(tokens), at(*old(it)), ttype) == Ok::<nat, ParseError>(at(*final(it))),
            Err(e) => expect(tv(tokens), at(*old(it)), ttype) == Err::<nat, ParseError>(e),
        },
{
    let p = position(tokens, it);
    if p < tokens.len() {
        if tokens[p].typ == ttype {
            advance(tokens, it);
            Ok(())
        } else {
            Err(ParseError::new(tokens[p].pos, ParseErrorKind::ExpectedToken(ttype)))
        }
    } else {
        Err(ParseError { pos: last_position(tokens), kind: ParseErrorKind::ExpectedToken(ttype) })
    }
}

/// The type of the next token, which a construct needs.
fn peek_token(tokens: &Vec<Token>, p: usize) -> (r: Result<TokenType, ParseError>)
    ensures
        r == need_token(tv(tokens), p as nat),
        r is Ok ==> p < tokens.len(),
{
    if p < tokens.len() {
        Ok(tokens[p].typ)
    } else {
        Err(ParseError { pos: last_position(tokens), kind: ParseErrorKind::UnexpectedEndOfInput })
    }
}

fn level_operator(tokens: &Vec<Token>, p: usize, k: usize) -> (r: Option<Operator>)
    ensures
        r == op_at(tv(tokens), p as nat, k as nat),
{
    if p >= tokens.len() {
        return None;
    }
    let t = tokens[p].typ;
    if k == 0 {
        if t == TokenType::Or { Some(Operator::Or) } else { None }
    } else if k == 1 {
        if t == TokenType::And { Some(Operator::And) } else { None }
    } else if k == 2 {
        if t == TokenType::BangEqual {
            Some(Operator::NotEqual)
        } else if t == TokenType::EqualEqual {
            Some(Operator::Equal)
        } else {
            None
        }
    } else if k == 3 {
        if t == TokenType::Greater {
            Some(Operator::Greater)
        } else if t == TokenType::GreaterEqual {
            Some(Operator::GreaterEqual)
        } else if t == TokenType::Less {
            Some(Operator::Less)
        } else if t == TokenType::LessEqual {
            Some(Operator::LessEqual)
        } else {
            None
        }
    } else if k == 4 {
        if t == TokenType::Minus {
            Some(Operator::Sub)
        } else if t == TokenType::Plus {
            Some(Operator::Add)
        } else {
            None
        }
    } else if k == 5 {
        if t == TokenType::Slash {
            Some(Operator::Div)
        } else if t == TokenType::Star {
            Some(Operator::Mul)
        } else {
            None
        }
    } else {
        None
    }
}

fn expression(tokens: &Vec<Token>, it: &mut TokenCursor) -> (r: Result<Expr, ParseError>)
    requires
        on(tokens, *old(it)),
    ensures
        on(tokens, *final(it)),
        er(r, at(*final(it))) == p_expression(tv(tokens), at(*old(it))),
    decreases tokens@.len() - at(*old(it)), 40int,
{
    assignment(tokens, it)
}

fn assignment(tokens: &Vec<Token>, it: &mut TokenCursor) -> (r: Result<Expr, ParseError>)
    requires
        on(tokens, *old(it)),
    ensures
        on(tokens, *final(it)),
        er(r, at(*final(it))) == p_assignment(tv(tokens), at(*old(it))),
    decreases tokens@.len() - at(*old(it)), 39int,
{
    let p = position(tokens, it);
    let ex = match binary(tokens, it, 0) {
        Ok(v) => v,
        Err(e) => return Err(e),
    };
    let q = position(tokens, it);
    if !(p <= q && q <= tokens.len()) {
        return Err(stuck_error());
    }
    if _next_is(tokens, q, TokenType::Equal) {
        match ex {
            Expr::EVar { name } => {
                advance(tokens, it);
                let v = match assignment(tokens, it) {
                    Ok(x) => x,
                    Err(e) => return Err(e),
                };
                Ok(Expr::EAssign { name, expr: Box::new(v) })
            },
            _ => Err(ParseError::new(tokens[q].pos, ParseErrorKind::InvalidAssignmentTarget)),
        }
    } else {
        Ok(ex)
    }
}

/// A left-associative chain of operators of level `k`: `or`, `and`,
/// equality, comparison, `+ -` and `* /` from 0 to 5.
fn binary(tokens: &Vec<Token>, it: &mut TokenCursor, k: usize) -> (r: Result<Expr, ParseError>)
    requires
        on(tokens, *old(it)),
    ensures
        on(tokens, *final(it)),
        er(r, at(*final(it))) == p_level(tv(tokens), at(*old(it)), k as nat),
    decreases tokens@.len() - at(*old(it)), 30 - 2 * k,
{
    if k > 5 {
        return Err(stuck_error());
    }
    let p = position(tokens, it);
    let mut left = match operand(tokens, it, k) {
        Ok(v) => v,
        Err(e) => return Err(e),
    };
    let mut q = position(tokens, it);
    if !(p <= q && q <= tokens.len()) {
        return Err(stuck_error());
    }
    let ghost ts = tv(tokens);
    loop
        invariant
            k <= 5,
            p <= q <= tokens.len(),
            p == at(*old(it)),
            q == at(*it),
            on(tokens, *it),
            ts == tv(tokens),
            p_level(ts, p as nat, k as nat) == p_level_rest(ts, q as nat, k as nat, left@),
        decreases tokens@.len() - q,
    {
        let op = match level_operator(tokens, q, k) {
            Some(op) => op,
            None => return Ok(left),
        };
        advance(tokens, it);
        let right = match operand(tokens, it, k) {
            Ok(v) => v,
            Err(e) => return Err(e),
        };
        let q2 = position(tokens, it);
        if !(q < q2 && q2 <= tokens.len()) {
            return Err(stuck_error());
        }
        left = if k < 2 {
            Expr::ELogicalOp { op, left: Box::new(left), right: Box::new(right) }
        } else {
            Expr::EBinOp { op, left: Box::new(left), right: Box::new(right) }
        };
        q = q2;
    }
}

fn operand(tokens: &Vec<Token>, it: &mut TokenCursor, k: usize) -> (r: Result<Expr, ParseError>)
    requires
        on(tokens, *old(it)),
    ensures
        on(tokens, *final(it)),
        er(r, at(*final(it))) == p_operand(tv(tokens), at(*old(it)), k as nat),
    decreases tokens@.len() - at(*old(it)), 29 - 2 * k,
{
    if k > 5 {
        Err(stuck_error())
    } else if k == 5 {
        unary(tokens, it)
    } else {
        binary(tokens, it, k + 1)
    }
}

fn unary(tokens: &Vec<Token>, it: &mut TokenCursor) -> (r: Result<Expr, ParseError>)
    requires
        on(tokens, *old(it)),
    ensures
        on(tokens, *final(it)),
        er(r, at(*final(it))) == p_unary(tv(tokens), at(*old(it))),
    decreases tokens@.len() - at(*old(it)), 16int,
{
    let p = position(tokens, it);
    let bang = _next_is(tokens, p, TokenType::Bang);
    if bang || _next_is(tokens, p, TokenType::Minus) {
        let op = if bang {
            Operator::Not
        } else {
            Operator::Negate
        };
        advance(tokens, it);
        match unary(tokens, it) {
            Ok(e) => Ok(Expr::EUnaryOp { op, operand: Box::new(e) }),
            Err(e) => Err(e),
        }
    } else {
        call(tokens, it)
    }
}

fn _function_args(tokens: &Vec<Token>, it: &mut TokenCursor) -> (r: Result<Vec<Expr>, ParseError>)
    requires
        on(tokens, *old(it)),
    ensures
        on(tokens, *final(it)),
        match r {
            Ok(args) => p_args(tv(tokens), at(*old(it)), seq![]) == Ok::<(Seq<ExprV>, nat), ParseError>(
                (exprs_view(args@), at(*final(it))),
            ),
            Err(e) => p_args(tv(tokens), at(*old(it)), seq![]) == Err::<(Seq<ExprV>, nat), ParseError>(e),
        },
    decreases tokens@.len() - at(*old(it)), 41int,
{
    let ghost ts = tv(tokens);
    let p = position(tokens, it);
    let mut args: Vec<Expr> = Vec::new();
    let mut q = p;
    assert(exprs_view(args@) =~= seq![]);
    loop
        invariant
            p <= q,
            q == at(*it),
            on(tokens, *it),
            p == at(*old(it)),
            ts == tv(tokens),
            p_args(ts, p as nat, seq![]) == p_args(ts, q as nat, exprs_view(args@)),
        decreases tokens@.len() - q,
    {
        if _next_is(tokens, q, TokenType::RightParen) {
            return Ok(args);
        }
        let e = match expression(tokens, it) {
            Ok(v) => v,
            Err(x) => return Err(x),
        };
        let r = position(tokens, it);
        if _next_is(tokens, r, TokenType::Comma) {
            advance(tokens, it);
        }
        let r2 = position(tokens, it);
        if !(q < r2 && r2 <= tokens.len()) {
            return Err(stuck_error());
        }
        proof {
            lemma_exprs_view_push(args@, e);
        }
        args.push(e);
        q = r2;
    }
}

fn call(tokens: &Vec<Token>, it: &mut TokenCursor) -> (r: Result<Expr, ParseError>)
    requires
        on(tokens, *old(it)),
    ensures
        on(tokens, *final(it)),
        er(r, at(*final(it))) == p_call(tv(tokens), at(*old(it))),
    decreases tokens@.len() - at(*old(it)), 15int,
{
    let p = position(tokens, it);
    let mut f = match primary(tokens, it) {
        Ok(v) => v,
        Err(e) => return Err(e),
    };
    let mut q = position(tokens, it);
    if !(p <= q && q <= tokens.len()) {
        return Err(stuck_error());
    }
    let ghost ts = tv(tokens);
    loop
        invariant
            p <= q <= tokens.len(),
            p == at(*old(it)),
            q == at(*it),
            on(tokens, *it),
            ts == tv(tokens),
            p_call(ts, p as nat) == p_call_rest(ts, q as nat, f@),
        decreases tokens@.len() - q,
    {
        if !_next_is(tokens, q, TokenType::LeftParen) {
            return Ok(f);
        }
        advance(tokens, it);
        let args = match _function_args(tokens, it) {
            Ok(v) => v,
            Err(e) => return Err(e),
        };
        match expect_token(tokens, it, TokenType::RightParen) {
            Ok(_) => {},
            Err(e) => return Err(e),
        }
        let r2 = position(tokens, it);
        if !(q < r2 && r2 <= tokens.len()) {
            return Err(stuck_error());
        }
        f = Expr::ECall { func: Box::new(f), args };
        q = r2;
    }
}

fn primary(tokens: &Vec<Token>, it: &mut TokenCursor) -> (r: Result<Expr, ParseError>)
    requires
        on(tokens, *old(it)),
    ensures
        on(tokens, *final(it)),
        er(r, at(*final(it))) == p_primary(tv(tokens), at(*old(it))),
    decreases tokens@.len() - at(*old(it)), 14int,
{
    let p = position(tokens, it);
    if p < tokens.len() {
        let t = &tokens[p];
        let found = if t.typ == TokenType::False {
            Some(Expr::EBool { value: false })
        } else if t.typ == TokenType::True {
            Some(Expr::EBool { value: true })
        } else if t.typ == TokenType::Nil {
            Some(Expr::ENil)
        } else if t.typ == TokenType::Number {
            match &t.literal {
                Some(LiteralValue::LNumber(v)) => Some(Expr::ENumb { value: *v }),
                _ => None,
            }
        } else if t.typ == TokenType::Str {
            match &t.literal {
                Some(LiteralValue::LString(v)) => Some(Expr::EStr { value: v.clone() }),
                _ => None,
            }
        } else if t.typ == TokenType::Identifier {
            Some(Expr::EVar { name: t.lexeme.clone() })
        } else {
            None
        };
        if let Some(e) = found {
            advance(tokens, it);
            return Ok(e);
        }
    }
    group(tokens, it)
}

fn group(tokens: &Vec<Token>, it: &mut TokenCursor) -> (r: Result<Expr, ParseError>)
    requires
        on(tokens, *old(it)),
    ensures
        on(tokens, *final(it)),
        er(r, at(*final(it))) == p_group(tv(tokens), at(*old(it))),
    decreases tokens@.len() - at(*old(it)), 13int,
{
    let p = position(tokens, it);
    if p < tokens.len() {
        if tokens[p].typ == TokenType::LeftParen {
            advance(tokens, it);
            let e = match expression(tokens, it) {
                Ok(v) => v,
                Err(x) => return Err(x),
            };
            match expect_token(tokens, it, TokenType::RightParen) {
                Ok(_) => Ok(Expr::EGroup { expr: Box::new(e) }),
                Err(x) => Err(x),
            }
        } else {
            Err(ParseError::new(tokens[p].pos, ParseErrorKind::UnexpectedToken(tokens[p].typ)))
        }
    } else {
        Err(ParseError { pos: None, kind: ParseErrorKind::UnexpectedEndOfInput })
    }
}

fn declaration(tokens: &Vec<Token>, it: &mut TokenCursor) -> (r: Result<Stmt, ParseError>)
    requires
        on(tokens, *old(it)),
    ensures
        on(tokens, *final(it)),
        sr(r, at(*final(it))) == p_declaration(tv(tokens), at(*old(it))),
    decreases tokens@.len() - at(*old(it)), 90int,
{
    let p = position(tokens, it);
    if p >= tokens.len() {
        return Ok(Stmt::SEmpty);
    }
    let t = tokens[p].typ;
    if t == TokenType::Fun {
        function_declaration(tokens, it)
    } else if t == TokenType::Var {
        var_declaration(tokens, it)
    } else {
        statement(tokens, it)
    }
}

fn _function_params(tokens: &Vec<Token>, it: &mut TokenCursor) -> (r: Result<Vec<String>, ParseError>)
    requires
        on(tokens, *old(it)),
    ensures
        on(tokens, *final(it)),
        match r {
            Ok(ps) => p_params(tv(tokens), at(*old(it)), seq![]) == Ok::<(Seq<Seq<char>>, nat), ParseError>(
                (names_view(ps@), at(*final(it))),
            ),
            Err(e) => p_params(tv(tokens), at(*old(it)), seq![]) == Err::<(Seq<Seq<char>>, nat), ParseError>(
                e,
            ),
        },
{
    let ghost ts = tv(tokens);
    let p = position(tokens, it);
    let mut params: Vec<String> = Vec::new();
    let mut q = p;
    assert(names_view(params@) =~= seq![]);
    loop
        invariant
            q == at(*it),
            on(tokens, *it),
            p == at(*old(it)),
            ts == tv(tokens),
            p_params(ts, p as nat, seq![]) == p_params(ts, q as nat, names_view(params@)),
        decreases tokens@.len() - q,
    {
        if _next_is(tokens, q, TokenType::RightParen) {
            return Ok(params);
        }
        match expect_token(tokens, it, TokenType::Identifier) {
            Ok(_) => {},
            Err(e) => return Err(e),
        }
        let r = position(tokens, it);
        if _next_is(tokens, r, TokenType::Comma) {
            advance(tokens, it);
        }
        let r2 = position(tokens, it);
        if !(q < r2 && r2 <= tokens.len()) {
            return Err(stuck_error());
        }
        let name = tokens[q].lexeme.clone();
        proof {
            assert(names_view(params@.push(name)) =~= names_view(params@).push(name@));
        }
        params.push(name);
        q = r2;
    }
}

fn function_declaration(tokens: &Vec<Token>, it: &mut TokenCursor) -> (r: Result<Stmt, ParseError>)
    requires
        on(tokens, *old(it)),
        at(*old(it)) < tokens.len(),
    ensures
        on(tokens, *final(it)),
        sr(r, at(*final(it))) == p_function_declaration(tv(tokens), at(*old(it))),
    decreases tokens@.len() - at(*old(it)), 89int,
{
    let p = position(tokens, it);
    advance(tokens, it);
    match expect_token(tokens, it, TokenType::Identifier) {
        Ok(_) => {},
        Err(e) => return Err(e),
    }
    match expect_token(tokens, it, TokenType::LeftParen) {
        Ok(_) => {},
        Err(e) => return Err(e),
    }
    let params = match _function_params(tokens, it) {
        Ok(v) => v,
        Err(e) => return Err(e),
    };
    match expect_token(tokens, it, TokenType::RightParen) {
        Ok(_) => {},
        Err(e) => return Err(e),
    }
    let q4 = position(tokens, it);
    if !(p < q4 && q4 <= tokens.len()) {
        return Err(stuck_error());
    }
    let body = match block(tokens, it) {
        Ok(v) => v,
        Err(e) => return Err(e),
    };
    Ok(Stmt::SFun(tokens[p + 1].lexeme.clone(), params, Box::new(body)))
}

fn var_declaration(tokens: &Vec<Token>, it: &mut TokenCursor) -> (r: Result<Stmt, ParseError>)
    requires
        on(tokens, *old(it)),
        at(*old(it)) < tokens.len(),
    ensures
        on(tokens, *final(it)),
        sr(r, at(*final(it))) == p_var_declaration(tv(tokens), at(*old(it))),
    decreases tokens@.len() - at(*old(it)), 88int,
{
    let p = position(tokens, it);
    advance(tokens, it);
    match expect_token(tokens, it, TokenType::Identifier) {
        Ok(_) => {},
        Err(e) => return Err(e),
    }
    let name = tokens[p + 1].lexeme.clone();
    let q = position(tokens, it);
    if _next_is(tokens, q, TokenType::Equal) {
        advance(tokens, it);
        let init = match expression(tokens, it) {
            Ok(v) => v,
            Err(e) => return Err(e),
        };
        match expect_token(tokens, it, TokenType::SemiColon) {
            Ok(_) => Ok(Stmt::SVar(name, Some(init))),
            Err(e) => Err(e),
        }
    } else {
        match expect_token(tokens, it, TokenType::SemiColon) {
            Ok(_) => Ok(Stmt::SVar(name, None)),
            Err(e) => Err(e),
        }
    }
}

fn statement(tokens: &Vec<Token>, it: &mut TokenCursor) -> (r: Result<Stmt, ParseError>)
    requires
        on(tokens, *old(it)),
    ensures
        on(tokens, *final(it)),
        sr(r, at(*final(it))) == p_statement(tv(tokens), at(*old(it))),
    decreases tokens@.len() - at(*old(it)), 87int,
{
    let p = position(tokens, it);
    if p >= tokens.len() {
        return Ok(Stmt::SEmpty);
    }
    let t = tokens[p].typ;
    if t == TokenType::For {
        for_statement(tokens, it)
    } else if t == TokenType::If {
        if_statement(tokens, it)
    } else if t == TokenType::While {
        while_statement(tokens, it)
    } else if t == TokenType::LeftBrace {
        block(tokens, it)
    } else if t == TokenType::Print {
        print_statement(tokens, it)
    } else if t == TokenType::Return {
        return_statement(tokens, it)
    } else {
        expression_statement(tokens, it)
    }
}

pub open spec fn osr(r: Result<Option<Stmt>, ParseError>, q: nat) -> Result<(Option<StmtV>, nat), ParseError> {
    match r {
        Ok(Some(s)) => Ok((Some(s@), q)),
        Ok(None) => Ok((None, q)),
        Err(x) => Err(x),
    }
}

pub open spec fn oer(r: Result<Option<Expr>, ParseError>, q: nat) -> Result<(Option<ExprV>, nat), ParseError> {
    match r {
        Ok(Some(e)) => Ok((Some(e@), q)),
        Ok(None) => Ok((None, q)),
        Err(x) => Err(x),
    }
}

fn _for_initializer(tokens: &Vec<Token>, it: &mut TokenCursor) -> (r: Result<Option<Stmt>, ParseError>)
    requires
        on(tokens, *old(it)),
    ensures
        on(tokens, *final(it)),
        osr(r, at(*final(it))) == p_for_initializer(tv(tokens), at(*old(it))),
    decreases tokens@.len() - at(*old(it)), 92int,
{
    let p = position(tokens, it);
    let t = match peek_token(tokens, p) {
        Ok(t) => t,
        Err(e) => return Err(e),
    };
    if t == TokenType::SemiColon {
        advance(tokens, it);
        Ok(None)
    } else if t == TokenType::Var {
        match var_declaration(tokens, it) {
            Ok(s) => Ok(Some(s)),
            Err(e) => Err(e),
        }
    } else {
        match expression_statement(tokens, it) {
            Ok(s) => Ok(Some(s)),
            Err(e) => Err(e),
        }
    }
}

fn _for_condition(tokens: &Vec<Token>, it: &mut TokenCursor) -> (r: Result<Expr, ParseError>)
    requires
        on(tokens, *old(it)),
    ensures
        on(tokens, *final(it)),
        er(r, at(*final(it))) == p_for_condition(tv(tokens), at(*old(it))),
    decreases tokens@.len() - at(*old(it)), 77int,
{
    let p = position(tokens, it);
    let t = match peek_token(tokens, p) {
        Ok(t) => t,
        Err(e) => return Err(e),
    };
    if t == TokenType::SemiColon {
        advance(tokens, it);
        return Ok(Expr::EBool { value: true });
    }
    let c = match expression(tokens, it) {
        Ok(v) => v,
        Err(e) => return Err(e),
    };
    match expect_token(tokens, it, TokenType::SemiColon) {
        Ok(_) => Ok(c),
        Err(e) => Err(e),
    }
}

fn _for_increment(tokens: &Vec<Token>, it: &mut TokenCursor) -> (r: Result<Option<Expr>, ParseError>)
    requires
        on(tokens, *old(it)),
    ensures
        on(tokens, *final(it)),
        oer(r, at(*final(it))) == p_for_increment(tv(tokens), at(*old(it))),
    decreases tokens@.len() - at(*old(it)), 76int,
{
    let p = position(tokens, it);
    let t = match peek_token(tokens, p) {
        Ok(t) => t,
        Err(e) => return Err(e),
    };
    if t == TokenType::RightParen {
        return Ok(None);
    }
    match expression(tokens, it) {
        Ok(c) => Ok(Some(c)),
        Err(e) => Err(e),
    }
}

/// Two statements in a block of their own.
fn pair_block(a: Stmt, b: Stmt) -> (r: Stmt)
    ensures
        r@ == StmtV::Block(seq![a@, b@]),
{
    let mut v: Vec<Stmt> = Vec::new();
    proof {
        lemma_stmts_view_push(v@, a);
        lemma_stmts_view_push(v@.push(a), b);
    }
    v.push(a);
    v.push(b);
    assert(stmts_view(v@) =~= seq![a@, b@]);
    Stmt::SBlock(v)
}

/// The loop that `for (init; cond; incr) body` stands for.
fn desugar(init: Option<Stmt>, cond: Expr, incr: Option<Expr>, body: Stmt) -> (r: Stmt)
    ensures
        r@ == desugar_for(
            match init {
                Some(s) => Some(s@),
                None => None,
            },
            cond@,
            match incr {
                Some(e) => Some(e@),
                None => None,
            },
            body@,
        ),
{
    let inner = match incr {
        Some(expr) => pair_block(body, Stmt::SExpr(expr)),
        None => body,
    };
    let lp = Stmt::SWhile(cond, Box::new(inner));
    match init {
        Some(stmt) => pair_block(stmt, lp),
        None => lp,
    }
}

#[verifier::rlimit(30)]
fn for_statement(tokens: &Vec<Token>, it: &mut TokenCursor) -> (r: Result<Stmt, ParseError>)
    requires
        on(tokens, *old(it)),
        at(*old(it)) < tokens.len(),
    ensures
        on(tokens, *final(it)),
        sr(r, at(*final(it))) == p_for_statement(tv(tokens), at(*old(it))),
    decreases tokens@.len() - at(*old(it)), 86int,
{
    let p = position(tokens, it);
    advance(tokens, it);
    match expect_token(tokens, it, TokenType::LeftParen) {
        Ok(_) => {},
        Err(e) => return Err(e),
    }
    let q = position(tokens, it);
    let init = match _for_initializer(tokens, it) {
        Ok(v) => v,
        Err(e) => return Err(e),
    };
    let q2 = position(tokens, it);
    if !(q <= q2 && q2 <= tokens.len()) {
        return Err(stuck_error());
    }
    let cond = match _for_condition(tokens, it) {
        Ok(v) => v,
        Err(e) => return Err(e),
    };
    let q3 = position(tokens, it);
    if !(q2 <= q3 && q3 <= tokens.len()) {
        return Err(stuck_error());
    }
    let incr = match _for_increment(tokens, it) {
        Ok(v) => v,
        Err(e) => return Err(e),
    };
    match expect_token(tokens, it, TokenType::RightParen) {
        Ok(_) => {},
        Err(e) => return Err(e),
    }
    let q5 = position(tokens, it);
    if !(p < q5 && q5 <= tokens.len()) {
        return Err(stuck_error());
    }
    let body = match statement(tokens, it) {
        Ok(v) => v,
        Err(e) => return Err(e),
    };
    Ok(desugar(init, cond, incr, body))
}

fn else_statement(tokens: &Vec<Token>, it: &mut TokenCursor) -> (r: Result<Stmt, ParseError>)
    requires
        on(tokens, *old(it)),
    ensures
        on(tokens, *final(it)),
        sr(r, at(*final(it))) == p_else_statement(tv(tokens), at(*old(it))),
    decreases tokens@.len() - at(*old(it)), 86int,
{
    let p = position(tokens, it);
    let t = match peek_token(tokens, p) {
        Ok(t) => t,
        Err(e) => return Err(e),
    };
    if t == TokenType::If {
        if_statement(tokens, it)
    } else if t == TokenType::LeftBrace {
        block(tokens, it)
    } else {
        Err(ParseError::new(tokens[p].pos, ParseErrorKind::UnexpectedToken(t)))
    }
}

fn if_statement(tokens: &Vec<Token>, it: &mut TokenCursor) -> (r: Result<Stmt, ParseError>)
    requires
        on(tokens, *old(it)),
        at(*old(it)) < tokens.len(),
    ensures
        on(tokens, *final(it)),
        sr(r, at(*final(it))) == p_if_statement(tv(tokens), at(*old(it))),
    decreases tokens@.len() - at(*old(it)), 85int,
{
    let p = position(tokens, it);
    advance(tokens, it);
    let cond = match expression(tokens, it) {
        Ok(v) => v,
        Err(e) => return Err(e),
    };
    let q = position(tokens, it);
    if !(p < q && q <= tokens.len()) {
        return Err(stuck_error());
    }
    let then = match block(tokens, it) {
        Ok(v) => v,
        Err(e) => return Err(e),
    };
    let r = position(tokens, it);
    if !(q <= r && r <= tokens.len()) {
        return Err(stuck_error());
    }
    if _next_is(tokens, r, TokenType::Else) {
        advance(tokens, it);
        match else_statement(tokens, it) {
            Ok(el) => Ok(Stmt::SIf(cond, Box::new(then), Some(Box::new(el)))),
            Err(e) => Err(e),
        }
    } else {
        Ok(Stmt::SIf(cond, Box::new(then), None))
    }
}

fn while_statement(tokens: &Vec<Token>, it: &mut TokenCursor) -> (r: Result<Stmt, ParseError>)
    requires
        on(tokens, *old(it)),
        at(*old(it)) < tokens.len(),
    ensures
        on(tokens, *final(it)),
        sr(r, at(*final(it))) == p_while_statement(tv(tokens), at(*old(it))),
    decreases tokens@.len() - at(*old(it)), 84int,
{
    let p = position(tokens, it);
    advance(tokens, it);
    let cond = match expression(tokens, it) {
        Ok(v) => v,
        Err(e) => return Err(e),
    };
    let q = position(tokens, it);
    if !(p < q && q <= tokens.len()) {
        return Err(stuck_error());
    }
    match statement(tokens, it) {
        Ok(body) => Ok(Stmt::SWhile(cond, Box::new(body))),
        Err(e) => Err(e),
    }
}

/// Declarations up to a `}` or the end of the tokens.
fn block_rest(tokens: &Vec<Token>, it: &mut TokenCursor) -> (r: Result<Vec<Stmt>, ParseError>)
    requires
        on(tokens, *old(it)),
    ensures
        on(tokens, *final(it)),
        match r {
            Ok(ss) => p_block_rest(tv(tokens), at(*old(it)), seq![]) == Ok::<(Seq<StmtV>, nat), ParseError>(
                (stmts_view(ss@), at(*final(it))),
            ),
            Err(e) => p_block_rest(tv(tokens), at(*old(it)), seq![]) == Err::<(Seq<StmtV>, nat), ParseError>(
                e,
            ),
        },
    decreases tokens@.len() - at(*old(it)), 95int,
{
    let ghost ts = tv(tokens);
    let q0 = position(tokens, it);
    let mut stmts: Vec<Stmt> = Vec::new();
    let mut q = q0;
    assert(stmts_view(stmts@) =~= seq![]);
    loop
        invariant
            q0 <= q,
            q == at(*it),
            q0 == at(*old(it)),
            on(tokens, *it),
            ts == tv(tokens),
            p_block_rest(ts, q0 as nat, seq![]) == p_block_rest(ts, q as nat, stmts_view(stmts@)),
        decreases tokens@.len() - q,
    {
        if q >= tokens.len() || tokens[q].typ == TokenType::RightBrace {
            return Ok(stmts);
        }
        let st = match declaration(tokens, it) {
            Ok(v) => v,
            Err(e) => return Err(e),
        };
        let r = position(tokens, it);
        if !(q < r && r <= tokens.len()) {
            return Err(stuck_error());
        }
        proof {
            lemma_stmts_view_push(stmts@, st);
        }
        stmts.push(st);
        q = r;
    }
}

fn block(tokens: &Vec<Token>, it: &mut TokenCursor) -> (r: Result<Stmt, ParseError>)
    requires
        on(tokens, *old(it)),
    ensures
        on(tokens, *final(it)),
        sr(r, at(*final(it))) == p_block(tv(tokens), at(*old(it))),
    decreases tokens@.len() - at(*old(it)), 83int,
{
    match expect_token(tokens, it, TokenType::LeftBrace) {
        Ok(_) => {},
        Err(e) => return Err(e),
    }
    let stmts = match block_rest(tokens, it) {
        Ok(v) => v,
        Err(e) => return Err(e),
    };
    match expect_token(tokens, it, TokenType::RightBrace) {
        Ok(_) => Ok(Stmt::SBlock(stmts)),
        Err(e) => Err(e),
    }
}

fn print_statement(tokens: &Vec<Token>, it: &mut TokenCursor) -> (r: Result<Stmt, ParseError>)
    requires
        on(tokens, *old(it)),
        at(*old(it)) < tokens.len(),
    ensures
        on(tokens, *final(it)),
        sr(r, at(*final(it))) == p_print_statement(tv(tokens), at(*old(it))),
    decreases tokens@.len() - at(*old(it)), 82int,
{
    advance(tokens, it);
    let e = match expression(tokens, it) {
        Ok(v) => v,
        Err(x) => return Err(x),
    };
    match expect_token(tokens, it, TokenType::SemiColon) {
        Ok(_) => Ok(Stmt::SPrint(e)),
        Err(x) => Err(x),
    }
}

fn return_statement(tokens: &Vec<Token>, it: &mut TokenCursor) -> (r: Result<Stmt, ParseError>)
    requires
        on(tokens, *old(it)),
        at(*old(it)) < tokens.len(),
    ensures
        on(tokens, *final(it)),
        sr(r, at(*final(it))) == p_return_statement(tv(tokens), at(*old(it))),
    decreases tokens@.len() - at(*old(it)), 81int,
{
    let p = position(tokens, it);
    advance(tokens, it);
    if _next_is(tokens, p + 1, TokenType::SemiColon) {
        advance(tokens, it);
        return Ok(Stmt::SReturn(Expr::ENil));
    }
    let e = match expression(tokens, it) {
        Ok(v) => v,
        Err(x) => return Err(x),
    };
    match expect_token(tokens, it, TokenType::SemiColon) {
        Ok(_) => Ok(Stmt::SReturn(e)),
        Err(x) => Err(x),
    }
}

fn expression_statement(tokens: &Vec<Token>, it: &mut TokenCursor) -> (r: Result<Stmt, ParseError>)
    requires
        on(tokens, *old(it)),
    ensures
        on(tokens, *final(it)),
        sr(r, at(*final(it))) == p_expression_statement(tv(tokens), at(*old(it))),
    decreases tokens@.len() - at(*old(it)), 79int,
{
    let e = match expression(tokens, it) {
        Ok(v) => v,
        Err(x) => return Err(x),
    };
    match expect_token(tokens, it, TokenType::SemiColon) {
        Ok(_) => Ok(Stmt::SExpr(e)),
        Err(x) => Err(x),
    }
}

/// The statements of a program as a tree; an expression whose value is
/// wanted stands as a `return` of it.
pub open spec fn ast_view(ast: AST) -> Seq<StmtV> {
    ast.top.0@.map_values(
        |i: Interpretable|
            match i {
                Interpretable::IStmt(s) => s@,
                Interpretable::IExpr(e) => StmtV::Return(e@),
            },
    )
}

/// Parses a whole program: declarations up to the end of the tokens.
pub fn parse(tokens: &Vec<Token>) -> (r: Result<AST, ParseError>)
    ensures
        match r {
            Ok(ast) => parse_program(tv(tokens)) == Ok::<Seq<StmtV>, ParseError>(ast_view(ast)),
            Err(e) => parse_program(tv(tokens)) == Err::<Seq<StmtV>, ParseError>(e),
        },
        r matches Ok(ast) ==> forall|i: int|
            0 <= i < ast.top.0@.len() ==> ast.top.0@[i] is IStmt,
{
    let ghost ts = tv(tokens);
    let mut it = cursor_new(tokens.len());
    let mut ast = AST::new();
    let mut p: usize = 0;
    assert(ast_view(ast) =~= seq![]);
    while p < tokens.len()
        invariant
            p <= tokens.len(),
            p == at(it),
            on(tokens, it),
            ts == tv(tokens),
            parse_program(ts) == p_program(ts, p as nat, ast_view(ast)),
            forall|i: int| 0 <= i < ast.top.0@.len() ==> ast.top.0@[i] is IStmt,
        decreases tokens@.len() - p,
    {
        let st = match declaration(tokens, &mut it) {
            Ok(v) => v,
            Err(e) => return Err(e),
        };
        let q = position(tokens, &mut it);
        if !(p < q && q <= tokens.len()) {
            return Err(stuck_error());
        }
        let ghost before = ast_view(ast);
        let item = Interpretable::IStmt(st);
        ast.top.0.push(item);
        assert(ast_view(ast) =~= before.push(st@));
        p = q;
    }
    Ok(ast)
}

/// Parses a single expression that must take all the tokens.
pub fn parse_expr(tokens: &Vec<Token>) -> (r: Result<Expr, ParseError>)
    ensures
        match r {
            Ok(e) => parse_expression(tv(tokens)) == Ok::<ExprV, ParseError>(e@),
            Err(x) => parse_expression(tv(tokens)) == Err::<ExprV, ParseError>(x),
        },
{
    let mut it = cursor_new(tokens.len());
    let e = match expression(tokens, &mut it) {
        Ok(v) => v,
        Err(x) => return Err(x),
    };
    let q = position(tokens, &mut it);
    if q < tokens.len() {
        return Err(ParseError { pos: None, kind: ParseErrorKind::TrailingTokens });
    }
    Ok(e)
}

} // verus!
