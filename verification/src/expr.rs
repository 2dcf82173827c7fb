use vstd::prelude::*;

use crate::ast::{
    view_expr, view_exprs, BinaryOperator, Expr, Identifier, Literal, SpecExpr, UnaryOperator,
};
use crate::token::{is_kind, kind_at, remaining, Token, TokenKind};
use crate::util::{agrees, fail_as, progress, within, Outcome, PResult, ParseError};

verus! {

// Precedence levels, loosest first:
//   0 `OR`, 1 `AND`, 2 prefix `NOT`, 3 comparisons, 4 `+ -`, 5 `* / %`, 6 prefix `-`,
//   7 primary expressions.
/// The binary operator that the token kind `k` stands for at precedence level `lvl`.
pub open spec fn binop_of(k: TokenKind, lvl: int) -> Option<BinaryOperator> {
    if lvl == 0 {
        if k == TokenKind::OR { Some(BinaryOperator::Or) } else { None }
    } else if lvl == 1 {
        if k == TokenKind::AND { Some(BinaryOperator::And) } else { None }
    } else if lvl == 3 {
        match k {
            TokenKind::Eq => Some(BinaryOperator::Eq),
            TokenKind::NotEq => Some(BinaryOperator::NotEq),
            TokenKind::Lt => Some(BinaryOperator::Lt),
            TokenKind::Lte => Some(BinaryOperator::Lte),
            TokenKind::Gt => Some(BinaryOperator::Gt),
            TokenKind::Gte => Some(BinaryOperator::Gte),
            _ => None,
        }
    } else if lvl == 4 {
        match k {
            TokenKind::Plus => Some(BinaryOperator::Plus),
            TokenKind::Minus => Some(BinaryOperator::Minus),
            _ => None,
        }
    } else if lvl == 5 {
        match k {
            TokenKind::Multiply => Some(BinaryOperator::Multiply),
            TokenKind::Divide => Some(BinaryOperator::Divide),
            TokenKind::Modulo => Some(BinaryOperator::Modulo),
            _ => None,
        }
    } else {
        None
    }
}

pub open spec fn binop_at(toks: Seq<Token>, pos: int, lvl: int) -> Option<BinaryOperator> {
    if 0 <= pos < toks.len() {
        binop_of(toks[pos].kind, lvl)
    } else {
        None
    }
}

/// An expression at precedence level `lvl` or tighter.
/// The termination rank of precedence level `lvl`.
pub open spec fn level_rank(lvl: int) -> int {
    if 0 <= lvl <= 7 {
        30 - 3 * lvl
    } else {
        9
    }
}

pub open spec fn spec_expr_at(toks: Seq<Token>, pos: int, lvl: int) -> Outcome<SpecExpr>
    decreases remaining(toks, pos), level_rank(lvl),
{
    if lvl >= 7 || lvl < 0 {
        spec_primary(toks, pos)
    } else if lvl == 6 || lvl == 2 {
        let (k, op) = if lvl == 6 {
            (TokenKind::Minus, UnaryOperator::Minus)
        } else {
            (TokenKind::NOT, UnaryOperator::Not)
        };
        if kind_at(toks, pos, k) {
            match spec_expr_at(toks, pos + 1, lvl) {
                Outcome::Parsed(n, e) => Outcome::Parsed(n, SpecExpr::UnaryOp { op, expr: Box::new(e) }),
                o => fail_as(o),
            }
        } else {
            spec_expr_at(toks, pos, lvl + 1)
        }
    } else {
        match spec_expr_at(toks, pos, lvl + 1) {
            Outcome::Parsed(n, left) => if 0 <= pos < n <= toks.len() {
                spec_expr_rest(toks, n, lvl, left)
            } else {
                Outcome::Backtrack(pos)
            },
            o => fail_as(o),
        }
    }
}

/// The operators of level `lvl` and their right operands that follow `left`, folded to the left.
pub open spec fn spec_expr_rest(toks: Seq<Token>, pos: int, lvl: int, left: SpecExpr) -> Outcome<
    SpecExpr,
>
    decreases remaining(toks, pos), level_rank(lvl) - 1,
{
    match binop_at(toks, pos, lvl) {
        Some(op) => match spec_expr_at(toks, pos + 1, lvl + 1) {
            Outcome::Parsed(n, right) => if 0 <= pos < n <= toks.len() {
                spec_expr_rest(
                    toks,
                    n,
                    lvl,
                    SpecExpr::BinaryOp { op, left: Box::new(left), right: Box::new(right) },
                )
            } else {
                Outcome::Backtrack(pos)
            },
            Outcome::Backtrack(_) => Outcome::Parsed(pos, left),
            o => o,
        },
        None => Outcome::Parsed(pos, left),
    }
}

/// A literal, a function call, a column reference or a parenthesized expression.
pub open spec fn spec_primary(toks: Seq<Token>, pos: int) -> Outcome<SpecExpr>
    decreases remaining(toks, pos), 2int,
{
    let next = pos + 1;
    if kind_at(toks, pos, TokenKind::LiteralNumber) {
        Outcome::Parsed(next, SpecExpr::Literal(Literal::Number(toks[pos].text)))
    } else if kind_at(toks, pos, TokenKind::LiteralString) {
        Outcome::Parsed(next, SpecExpr::Literal(Literal::String(toks[pos].text)))
    } else if kind_at(toks, pos, TokenKind::TRUE) {
        Outcome::Parsed(next, SpecExpr::Literal(Literal::Boolean(true)))
    } else if kind_at(toks, pos, TokenKind::FALSE) {
        Outcome::Parsed(next, SpecExpr::Literal(Literal::Boolean(false)))
    } else if kind_at(toks, pos, TokenKind::NULL) {
        Outcome::Parsed(next, SpecExpr::Literal(Literal::Null))
    } else {
        match spec_function_call(toks, pos) {
            Outcome::Backtrack(_) => match spec_column_ref(toks, pos) {
                Outcome::Backtrack(_) => spec_paren_expr(toks, pos),
                o => o,
            },
            o => o,
        }
    }
}

/// `name ( [expr {, expr}] )`
pub open spec fn spec_function_call(toks: Seq<Token>, pos: int) -> Outcome<SpecExpr>
    decreases remaining(toks, pos), 1int,
{
    if !kind_at(toks, pos, TokenKind::Ident) {
        Outcome::Backtrack(pos)
    } else if !kind_at(toks, pos + 1, TokenKind::LParen) {
        Outcome::Backtrack(pos + 1)
    } else {
        match spec_expr_list0(toks, pos + 2) {
            Outcome::Parsed(n, args) => if kind_at(toks, n, TokenKind::RParen) {
                Outcome::Parsed(
                    n + 1,
                    SpecExpr::FunctionCall { name: Identifier { name: toks[pos].text }, args },
                )
            } else {
                Outcome::Backtrack(n)
            },
            o => fail_as(o),
        }
    }
}

/// `[database .] [table .] column`
pub open spec fn spec_column_ref(toks: Seq<Token>, pos: int) -> Outcome<SpecExpr> {
    if !kind_at(toks, pos, TokenKind::Ident) {
        Outcome::Backtrack(pos)
    } else {
        let a = Identifier { name: toks[pos].text };
        if kind_at(toks, pos + 1, TokenKind::Period) && kind_at(toks, pos + 2, TokenKind::Ident) {
            let b = Identifier { name: toks[pos + 2].text };
            if kind_at(toks, pos + 3, TokenKind::Period) && kind_at(
                toks,
                pos + 4,
                TokenKind::Ident,
            ) {
                Outcome::Parsed(
                    pos + 5,
                    SpecExpr::ColumnRef {
                        database: Some(a),
                        table: Some(b),
                        column: Identifier { name: toks[pos + 4].text },
                    },
                )
            } else {
                Outcome::Parsed(
                    pos + 3,
                    SpecExpr::ColumnRef { database: None, table: Some(a), column: b },
                )
            }
        } else {
            Outcome::Parsed(
                pos + 1,
                SpecExpr::ColumnRef { database: None, table: None, column: a },
            )
        }
    }
}

/// `( expr )`
pub open spec fn spec_paren_expr(toks: Seq<Token>, pos: int) -> Outcome<SpecExpr>
    decreases remaining(toks, pos), 1int,
{
    if !kind_at(toks, pos, TokenKind::LParen) {
        Outcome::Backtrack(pos)
    } else {
        match spec_expr_at(toks, pos + 1, 0) {
            Outcome::Parsed(n, e) => if kind_at(toks, n, TokenKind::RParen) {
                Outcome::Parsed(n + 1, e)
            } else {
                Outcome::Backtrack(n)
            },
            o => o,
        }
    }
}

/// A possibly empty comma separated list of expressions.
pub open spec fn spec_expr_list0(toks: Seq<Token>, pos: int) -> Outcome<Seq<SpecExpr>>
    decreases remaining(toks, pos), 40int,
{
    match spec_expr_at(toks, pos, 0) {
        Outcome::Parsed(n, e) => if 0 <= pos < n <= toks.len() {
            spec_expr_list_rest(toks, n, seq![e])
        } else {
            Outcome::Backtrack(pos)
        },
        Outcome::Backtrack(_) => Outcome::Parsed(pos, Seq::empty()),
        o => fail_as(o),
    }
}

/// The `, expr` items that follow the items `acc` of a list.
pub open spec fn spec_expr_list_rest(toks: Seq<Token>, pos: int, acc: Seq<SpecExpr>) -> Outcome<
    Seq<SpecExpr>,
>
    decreases remaining(toks, pos), 40int,
{
    if kind_at(toks, pos, TokenKind::Comma) {
        match spec_expr_at(toks, pos + 1, 0) {
            Outcome::Parsed(n, e) => if 0 <= pos < n <= toks.len() {
                spec_expr_list_rest(toks, n, acc.push(e))
            } else {
                Outcome::Backtrack(pos)
            },
            Outcome::Backtrack(_) => Outcome::Parsed(pos, acc),
            o => fail_as(o),
        }
    } else {
        Outcome::Parsed(pos, acc)
    }
}

/// A non-empty comma separated list of expressions.
pub open spec fn spec_expr_list1(toks: Seq<Token>, pos: int) -> Outcome<Seq<SpecExpr>> {
    match spec_expr_at(toks, pos, 0) {
        Outcome::Parsed(n, e) => if 0 <= pos < n <= toks.len() {
            spec_expr_list_rest(toks, n, seq![e])
        } else {
            Outcome::Backtrack(pos)
        },
        o => fail_as(o),
    }
}

/// An expression.
pub open spec fn spec_expr(toks: Seq<Token>, pos: int) -> Outcome<SpecExpr> {
    spec_expr_at(toks, pos, 0)
}

// ---------------------------------------------------------------------------
// Executable parsers
// ---------------------------------------------------------------------------
proof fn lemma_view_exprs_push(s: Seq<Expr>, e: Expr)
    ensures
        view_exprs(s.push(e)) == view_exprs(s).push(view_expr(e)),
{
    assert(view_exprs(s.push(e)) =~= view_exprs(s).push(view_expr(e)));
}

proof fn lemma_view_call(name: Identifier, args: Vec<Expr>)
    ensures
        view_expr(Expr::FunctionCall { name, args }) == (SpecExpr::FunctionCall {
            name,
            args: view_exprs(args@),
        }),
{
    let e = Expr::FunctionCall { name, args };
    if let SpecExpr::FunctionCall { name: _, args: a } = view_expr(e) {
        assert(a =~= view_exprs(args@));
    }
}

fn binop_at_exec(toks: &[Token], pos: usize, lvl: usize) -> (r: Option<BinaryOperator>)
    ensures
        r == binop_at(toks@, pos as int, lvl as int),
        toks@.len() <= usize::MAX,
{
    if pos >= toks.len() {
        return None;
    }
    let k = toks[pos].kind;
    if lvl == 0 {
        if k == TokenKind::OR { Some(BinaryOperator::Or) } else { None }
    } else if lvl == 1 {
        if k == TokenKind::AND { Some(BinaryOperator::And) } else { None }
    } else if lvl == 3 {
        match k {
            TokenKind::Eq => Some(BinaryOperator::Eq),
            TokenKind::NotEq => Some(BinaryOperator::NotEq),
            TokenKind::Lt => Some(BinaryOperator::Lt),
            TokenKind::Lte => Some(BinaryOperator::Lte),
            TokenKind::Gt => Some(BinaryOperator::Gt),
            TokenKind::Gte => Some(BinaryOperator::Gte),
            _ => None,
        }
    } else if lvl == 4 {
        match k {
            TokenKind::Plus => Some(BinaryOperator::Plus),
            TokenKind::Minus => Some(BinaryOperator::Minus),
            _ => None,
        }
    } else if lvl == 5 {
        match k {
            TokenKind::Multiply => Some(BinaryOperator::Multiply),
            TokenKind::Divide => Some(BinaryOperator::Divide),
            TokenKind::Modulo => Some(BinaryOperator::Modulo),
            _ => None,
        }
    } else {
        None
    }
}

fn expr_at(toks: &[Token], pos: usize, lvl: usize) -> (r: PResult<Expr>)
    requires
        lvl <= 7,
    ensures
        agrees(r, spec_expr_at(toks@, pos as int, lvl as int), |e: Expr| view_expr(e)),
        progress(r, toks@, pos),
    decreases remaining(toks@, pos as int), level_rank(lvl as int),
{
    if lvl >= 7 {
        return primary(toks, pos);
    }
    if lvl == 6 || lvl == 2 {
        let (k, op) = if lvl == 6 {
            (TokenKind::Minus, UnaryOperator::Minus)
        } else {
            (TokenKind::NOT, UnaryOperator::Not)
        };
        if is_kind(toks, pos, k) {
            let (n, e) = expr_at(toks, pos + 1, lvl)?;
            return Ok((n, Expr::UnaryOp { op, expr: Box::new(e) }));
        }
        return expr_at(toks, pos, lvl + 1);
    }
    let (n, left) = expr_at(toks, pos, lvl + 1)?;
    expr_rest(toks, n, lvl, left)
}

fn expr_rest(toks: &[Token], pos: usize, lvl: usize, left: Expr) -> (r: PResult<Expr>)
    requires
        lvl <= 5,
        pos <= toks@.len(),
    ensures
        agrees(r, spec_expr_rest(toks@, pos as int, lvl as int, view_expr(left)), |e: Expr| view_expr(e)),
        within(r, toks@, pos),
    decreases remaining(toks@, pos as int), level_rank(lvl as int) - 1,
{
    match binop_at_exec(toks, pos, lvl) {
        Some(op) => match expr_at(toks, pos + 1, lvl + 1) {
            Ok((n, right)) => expr_rest(
                toks,
                n,
                lvl,
                Expr::BinaryOp { op, left: Box::new(left), right: Box::new(right) },
            ),
            Err(ParseError::Error(_)) => Ok((pos, left)),
            Err(e) => Err(e),
        },
        None => Ok((pos, left)),
    }
}

fn primary(toks: &[Token], pos: usize) -> (r: PResult<Expr>)
    ensures
        agrees(r, spec_primary(toks@, pos as int), |e: Expr| view_expr(e)),
        progress(r, toks@, pos),
    decreases remaining(toks@, pos as int), 2int,
{
    if is_kind(toks, pos, TokenKind::LiteralNumber) {
        return Ok((pos + 1, Expr::Literal(Literal::Number(toks[pos].text.clone()))));
    }
    if is_kind(toks, pos, TokenKind::LiteralString) {
        return Ok((pos + 1, Expr::Literal(Literal::String(toks[pos].text.clone()))));
    }
    if is_kind(toks, pos, TokenKind::TRUE) {
        return Ok((pos + 1, Expr::Literal(Literal::Boolean(true))));
    }
    if is_kind(toks, pos, TokenKind::FALSE) {
        return Ok((pos + 1, Expr::Literal(Literal::Boolean(false))));
    }
    if is_kind(toks, pos, TokenKind::NULL) {
        return Ok((pos + 1, Expr::Literal(Literal::Null)));
    }
    match function_call(toks, pos) {
        Err(ParseError::Error(_)) => match column_ref(toks, pos) {
            Err(ParseError::Error(_)) => paren_expr(toks, pos),
            r => r,
        },
        r => r,
    }
}

fn function_call(toks: &[Token], pos: usize) -> (r: PResult<Expr>)
    ensures
        agrees(r, spec_function_call(toks@, pos as int), |e: Expr| view_expr(e)),
        progress(r, toks@, pos),
    decreases remaining(toks@, pos as int), 1int,
{
    if !is_kind(toks, pos, TokenKind::Ident) {
        return Err(ParseError::Error(pos));
    }
    if !is_kind(toks, pos + 1, TokenKind::LParen) {
        return Err(ParseError::Error(pos + 1));
    }
    let (n, args) = expr_list0(toks, pos + 2)?;
    if !is_kind(toks, n, TokenKind::RParen) {
        return Err(ParseError::Error(n));
    }
    let name = Identifier { name: toks[pos].text.clone() };
    proof {
        lemma_view_call(name, args);
    }
    Ok((n + 1, Expr::FunctionCall { name, args }))
}

fn column_ref(toks: &[Token], pos: usize) -> (r: PResult<Expr>)
    ensures
        agrees(r, spec_column_ref(toks@, pos as int), |e: Expr| view_expr(e)),
        progress(r, toks@, pos),
{
    if !is_kind(toks, pos, TokenKind::Ident) {
        return Err(ParseError::Error(pos));
    }
    let a = Identifier { name: toks[pos].text.clone() };
    if is_kind(toks, pos + 1, TokenKind::Period) && is_kind(toks, pos + 2, TokenKind::Ident) {
        let b = Identifier { name: toks[pos + 2].text.clone() };
        if is_kind(toks, pos + 3, TokenKind::Period) && is_kind(toks, pos + 4, TokenKind::Ident) {
            let c = Identifier { name: toks[pos + 4].text.clone() };
            Ok((pos + 5, Expr::ColumnRef { database: Some(a), table: Some(b), column: c }))
        } else {
            Ok((pos + 3, Expr::ColumnRef { database: None, table: Some(a), column: b }))
        }
    } else {
        Ok((pos + 1, Expr::ColumnRef { database: None, table: None, column: a }))
    }
}

fn paren_expr(toks: &[Token], pos: usize) -> (r: PResult<Expr>)
    ensures
        agrees(r, spec_paren_expr(toks@, pos as int), |e: Expr| view_expr(e)),
        progress(r, toks@, pos),
    decreases remaining(toks@, pos as int), 1int,
{
    if !is_kind(toks, pos, TokenKind::LParen) {
        return Err(ParseError::Error(pos));
    }
    let (n, e) = expr_at(toks, pos + 1, 0)?;
    if !is_kind(toks, n, TokenKind::RParen) {
        return Err(ParseError::Error(n));
    }
    Ok((n + 1, e))
}

/// Parses a possibly empty comma separated list of expressions.
pub fn expr_list0(toks: &[Token], pos: usize) -> (r: PResult<Vec<Expr>>)
    requires
        pos <= toks@.len(),
    ensures
        agrees(r, spec_expr_list0(toks@, pos as int), |v: Vec<Expr>| view_exprs(v@)),
        within(r, toks@, pos),
    decreases remaining(toks@, pos as int), 40int,
{
    match expr_at(toks, pos, 0) {
        Ok((n, e)) => {
            let mut acc: Vec<Expr> = Vec::new();
            acc.push(e);
            proof {
                lemma_view_exprs_push(Seq::empty(), e);
                assert(Seq::<Expr>::empty().push(e) =~= acc@);
                assert(view_exprs(Seq::<Expr>::empty()) =~= Seq::<SpecExpr>::empty());
                assert(seq![view_expr(e)] =~= Seq::<SpecExpr>::empty().push(view_expr(e)));
            }
            expr_list_rest(toks, n, acc)
        },
        Err(ParseError::Error(_)) => {
            let acc: Vec<Expr> = Vec::new();
            assert(view_exprs(acc@) =~= Seq::<SpecExpr>::empty());
            Ok((pos, acc))
        },
        Err(e) => Err(e),
    }
}

fn expr_list_rest(toks: &[Token], pos: usize, acc: Vec<Expr>) -> (r: PResult<Vec<Expr>>)
    requires
        pos <= toks@.len(),
    ensures
        agrees(r, spec_expr_list_rest(toks@, pos as int, view_exprs(acc@)), |v: Vec<Expr>| view_exprs(v@)),
        within(r, toks@, pos),
    decreases remaining(toks@, pos as int), 40int,
{
    let mut acc = acc;
    if is_kind(toks, pos, TokenKind::Comma) {
        match expr_at(toks, pos + 1, 0) {
            Ok((n, e)) => {
                let ghost old_acc = acc@;
                acc.push(e);
                proof {
                    lemma_view_exprs_push(old_acc, e);
                }
                expr_list_rest(toks, n, acc)
            },
            Err(ParseError::Error(_)) => Ok((pos, acc)),
            Err(e) => Err(e),
        }
    } else {
        Ok((pos, acc))
    }
}

/// Parses a non-empty comma separated list of expressions.
pub fn expr_list1(toks: &[Token], pos: usize) -> (r: PResult<Vec<Expr>>)
    ensures
        agrees(r, spec_expr_list1(toks@, pos as int), |v: Vec<Expr>| view_exprs(v@)),
        progress(r, toks@, pos),
{
    let (n, e) = expr_at(toks, pos, 0)?;
    let mut acc: Vec<Expr> = Vec::new();
    acc.push(e);
    proof {
        lemma_view_exprs_push(Seq::empty(), e);
        assert(Seq::<Expr>::empty().push(e) =~= acc@);
        assert(view_exprs(Seq::<Expr>::empty()) =~= Seq::<SpecExpr>::empty());
        assert(seq![view_expr(e)] =~= Seq::<SpecExpr>::empty().push(view_expr(e)));
    }
    expr_list_rest(toks, n, acc)
}

/// Parses an expression.
pub fn expr(toks: &[Token], pos: usize) -> (r: PResult<Expr>)
    ensures
        agrees(r, spec_expr(toks@, pos as int), |e: Expr| view_expr(e)),
        progress(r, toks@, pos),
{
    expr_at(toks, pos, 0)
}

} // verus!
