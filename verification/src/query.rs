use vstd::prelude::*;

use crate::ast::{
    view_alias, view_condition, view_exprs, view_opt_alias, view_opt_expr,
    view_order_by, view_order_bys, view_query, view_select, view_set_expr, view_table_ref,
    view_table_refs, view_target, view_targets, Expr, Identifier, Indirection, Join,
    JoinCondition, JoinOperator, OrderByExpr, Query, SelectStmt, SelectTarget, SetExpr,
    SetOperator, SpecExpr, SpecJoin, SpecJoinCondition, SpecOrderByExpr, SpecQuery,
    SpecSelectStmt, SpecSelectTarget, SpecSetExpr, SpecTableAlias, SpecTableReference,
    TableAlias, TableReference, TimeTravelPoint,
};
use crate::expr::{
    expr, expr_list0, expr_list1, spec_expr, spec_expr_list0, spec_expr_list1, spec_expr_list_rest,
};
use crate::token::{is_kind, kind_at, remaining, Token, TokenKind};
use crate::util::{agrees, fail_as, ident, or_else, progress, spec_ident, within, Outcome, PResult, ParseError};

verus! {

/// The identifier made of the text of the token at `pos`.
pub open spec fn id_at(toks: Seq<Token>, pos: int) -> Identifier {
    Identifier { name: toks[pos].text }
}

// ---------------------------------------------------------------------------
// Rules outside the recursion through queries
// ---------------------------------------------------------------------------
/// `ident | AS ident`
pub open spec fn spec_alias_name(toks: Seq<Token>, pos: int) -> Outcome<Identifier> {
    if kind_at(toks, pos, TokenKind::Ident) {
        Outcome::Parsed(pos + 1, id_at(toks, pos))
    } else if !kind_at(toks, pos, TokenKind::AS) {
        Outcome::Backtrack(pos)
    } else if kind_at(toks, pos + 1, TokenKind::Ident) {
        Outcome::Parsed(pos + 2, id_at(toks, pos + 1))
    } else {
        Outcome::Backtrack(pos + 1)
    }
}

/// An alias name, as a table alias without column names.
pub open spec fn spec_table_alias(toks: Seq<Token>, pos: int) -> Outcome<SpecTableAlias> {
    match spec_alias_name(toks, pos) {
        Outcome::Parsed(n, name) => Outcome::Parsed(n, SpecTableAlias { name, columns: Seq::empty() }),
        o => fail_as(o),
    }
}

/// `table_alias?`: the position after it and the alias, if one stands at `pos`.
pub open spec fn opt_table_alias(toks: Seq<Token>, pos: int) -> (int, Option<SpecTableAlias>) {
    match spec_table_alias(toks, pos) {
        Outcome::Parsed(n, a) => (n, Some(a)),
        _ => (pos, None),
    }
}

/// `AT ( SNAPSHOT => 'literal' )`
pub open spec fn spec_travel_point(toks: Seq<Token>, pos: int) -> Outcome<TimeTravelPoint> {
    if !kind_at(toks, pos, TokenKind::AT) {
        Outcome::Backtrack(pos)
    } else if !kind_at(toks, pos + 1, TokenKind::LParen) {
        Outcome::Backtrack(pos + 1)
    } else if !kind_at(toks, pos + 2, TokenKind::SNAPSHOT) {
        Outcome::Backtrack(pos + 2)
    } else if !kind_at(toks, pos + 3, TokenKind::RArrow) {
        Outcome::Backtrack(pos + 3)
    } else if !kind_at(toks, pos + 4, TokenKind::LiteralString) {
        Outcome::Backtrack(pos + 4)
    } else if !kind_at(toks, pos + 5, TokenKind::RParen) {
        Outcome::Backtrack(pos + 5)
    } else {
        Outcome::Parsed(pos + 6, TimeTravelPoint::Snapshot(toks[pos + 4].text))
    }
}

/// `ident [. ident] [. ident] [travel_point] [table_alias]`
pub open spec fn spec_aliased_table(toks: Seq<Token>, pos: int) -> Outcome<SpecTableReference> {
    if !kind_at(toks, pos, TokenKind::Ident) {
        Outcome::Backtrack(pos)
    } else {
        let fst = id_at(toks, pos);
        let (p1, snd) = if kind_at(toks, pos + 1, TokenKind::Period) && kind_at(
            toks,
            pos + 2,
            TokenKind::Ident,
        ) {
            (pos + 3, Some(id_at(toks, pos + 2)))
        } else {
            (pos + 1, None)
        };
        let (p2, third) = if kind_at(toks, p1, TokenKind::Period) && kind_at(
            toks,
            p1 + 1,
            TokenKind::Ident,
        ) {
            (p1 + 2, Some(id_at(toks, p1 + 1)))
        } else {
            (p1, None)
        };
        let (p3, travel_point) = match spec_travel_point(toks, p2) {
            Outcome::Parsed(n, t) => (n, Some(t)),
            _ => (p2, None),
        };
        let (p4, alias) = opt_table_alias(toks, p3);
        let (catalog, database, table) = match (snd, third) {
            (Some(d), Some(t)) => (Some(fst), Some(d), t),
            (Some(t), None) => (None, Some(fst), t),
            (None, Some(t)) => (None, Some(fst), t),
            (None, None) => (None, None, fst),
        };
        Outcome::Parsed(p4, SpecTableReference::Table { catalog, database, table, alias, travel_point })
    }
}

/// `ident ( [expr {, expr}] ) [table_alias]`
pub open spec fn spec_table_function(toks: Seq<Token>, pos: int) -> Outcome<SpecTableReference> {
    if !kind_at(toks, pos, TokenKind::Ident) {
        Outcome::Backtrack(pos)
    } else if !kind_at(toks, pos + 1, TokenKind::LParen) {
        Outcome::Backtrack(pos + 1)
    } else {
        match spec_expr_list0(toks, pos + 2) {
            Outcome::Parsed(n, params) => if kind_at(toks, n, TokenKind::RParen) {
                let (m, alias) = opt_table_alias(toks, n + 1);
                Outcome::Parsed(m, SpecTableReference::TableFunction { name: id_at(toks, pos), params, alias })
            } else {
                Outcome::Backtrack(n)
            },
            o => fail_as(o),
        }
    }
}

/// `INNER | LEFT [OUTER] | RIGHT [OUTER] | FULL [OUTER] | CROSS`
pub open spec fn spec_join_operator(toks: Seq<Token>, pos: int) -> Outcome<JoinOperator> {
    let after_outer = if kind_at(toks, pos + 1, TokenKind::OUTER) {
        pos + 2
    } else {
        pos + 1
    };
    if kind_at(toks, pos, TokenKind::INNER) {
        Outcome::Parsed(pos + 1, JoinOperator::Inner)
    } else if kind_at(toks, pos, TokenKind::LEFT) {
        Outcome::Parsed(after_outer, JoinOperator::LeftOuter)
    } else if kind_at(toks, pos, TokenKind::RIGHT) {
        Outcome::Parsed(after_outer, JoinOperator::RightOuter)
    } else if kind_at(toks, pos, TokenKind::FULL) {
        Outcome::Parsed(after_outer, JoinOperator::FullOuter)
    } else if kind_at(toks, pos, TokenKind::CROSS) {
        Outcome::Parsed(pos + 1, JoinOperator::CrossJoin)
    } else {
        Outcome::Backtrack(pos)
    }
}

/// `join_operator?`: the position after it and the operator, if one stands at `pos`.
pub open spec fn opt_join_operator(toks: Seq<Token>, pos: int) -> (int, Option<JoinOperator>) {
    match spec_join_operator(toks, pos) {
        Outcome::Parsed(n, o) => (n, Some(o)),
        _ => (pos, None),
    }
}

/// `expr [ASC | DESC]`
pub open spec fn spec_order_by_expr(toks: Seq<Token>, pos: int) -> Outcome<SpecOrderByExpr> {
    match spec_expr(toks, pos) {
        Outcome::Parsed(n, expr) => if kind_at(toks, n, TokenKind::ASC) {
            Outcome::Parsed(n + 1, SpecOrderByExpr { expr, asc: Some(true), nulls_first: None })
        } else if kind_at(toks, n, TokenKind::DESC) {
            Outcome::Parsed(n + 1, SpecOrderByExpr { expr, asc: Some(false), nulls_first: None })
        } else {
            Outcome::Parsed(n, SpecOrderByExpr { expr, asc: None, nulls_first: None })
        },
        o => fail_as(o),
    }
}

/// `[ident . [ident .]] *`
pub open spec fn spec_qualified_wildcard(toks: Seq<Token>, pos: int) -> Outcome<SpecSelectTarget> {
    let (p, prefix) = if kind_at(toks, pos, TokenKind::Ident) && kind_at(
        toks,
        pos + 1,
        TokenKind::Period,
    ) {
        if kind_at(toks, pos + 2, TokenKind::Ident) && kind_at(toks, pos + 3, TokenKind::Period) {
            (
                pos + 4,
                seq![
                    Indirection::Identifier(id_at(toks, pos)),
                    Indirection::Identifier(id_at(toks, pos + 2)),
                ],
            )
        } else {
            (pos + 2, seq![Indirection::Identifier(id_at(toks, pos))])
        }
    } else {
        (pos, Seq::empty())
    };
    if kind_at(toks, p, TokenKind::Multiply) {
        Outcome::Parsed(p + 1, SpecSelectTarget::QualifiedName(prefix.push(Indirection::Star)))
    } else {
        Outcome::Backtrack(p)
    }
}

/// `expr [alias_name]`
pub open spec fn spec_projection(toks: Seq<Token>, pos: int) -> Outcome<SpecSelectTarget> {
    match spec_expr(toks, pos) {
        Outcome::Parsed(n, e) => {
            let (m, alias) = match spec_alias_name(toks, n) {
                Outcome::Parsed(m, a) => (m, Some(a)),
                _ => (n, None),
            };
            Outcome::Parsed(m, SpecSelectTarget::AliasedExpr { expr: Box::new(e), alias })
        },
        o => fail_as(o),
    }
}

/// `qualified_wildcard | projection`
pub open spec fn spec_select_target(toks: Seq<Token>, pos: int) -> Outcome<SpecSelectTarget> {
    or_else(spec_qualified_wildcard(toks, pos), spec_projection(toks, pos))
}

/// `ON expr | USING ( ident {, ident} )`
pub open spec fn spec_join_condition(toks: Seq<Token>, pos: int) -> Outcome<SpecJoinCondition> {
    let on = if kind_at(toks, pos, TokenKind::ON) {
        match spec_expr(toks, pos + 1) {
            Outcome::Parsed(n, e) => Outcome::Parsed(n, SpecJoinCondition::On(Box::new(e))),
            o => fail_as(o),
        }
    } else {
        Outcome::Backtrack(pos)
    };
    let using = if !kind_at(toks, pos, TokenKind::USING) {
        Outcome::Backtrack(pos)
    } else if !kind_at(toks, pos + 1, TokenKind::LParen) {
        Outcome::Backtrack(pos + 1)
    } else {
        match spec_ident_list1(toks, pos + 2) {
            Outcome::Parsed(n, ids) => if kind_at(toks, n, TokenKind::RParen) {
                Outcome::Parsed(n + 1, SpecJoinCondition::Using(ids))
            } else {
                Outcome::Backtrack(n)
            },
            o => fail_as(o),
        }
    };
    or_else(on, using)
}

// ---------------------------------------------------------------------------
// Comma separated lists outside the recursion through queries
// ---------------------------------------------------------------------------
pub open spec fn spec_ident_list_rest(toks: Seq<Token>, pos: int, acc: Seq<Identifier>) -> Outcome<
    Seq<Identifier>,
>
    decreases remaining(toks, pos),
{
    if kind_at(toks, pos, TokenKind::Comma) && kind_at(toks, pos + 1, TokenKind::Ident) {
        spec_ident_list_rest(toks, pos + 2, acc.push(id_at(toks, pos + 1)))
    } else {
        Outcome::Parsed(pos, acc)
    }
}

pub open spec fn spec_ident_list1(toks: Seq<Token>, pos: int) -> Outcome<Seq<Identifier>> {
    match spec_ident(toks, pos) {
        Outcome::Parsed(n, i) => spec_ident_list_rest(toks, n, seq![i]),
        o => fail_as(o),
    }
}

pub open spec fn spec_target_list_rest(
    toks: Seq<Token>,
    pos: int,
    acc: Seq<SpecSelectTarget>,
) -> Outcome<Seq<SpecSelectTarget>>
    decreases remaining(toks, pos),
{
    if kind_at(toks, pos, TokenKind::Comma) {
        match spec_select_target(toks, pos + 1) {
            Outcome::Parsed(n, t) => if 0 <= pos < n <= toks.len() {
                spec_target_list_rest(toks, n, acc.push(t))
            } else {
                Outcome::Backtrack(pos)
            },
            Outcome::Backtrack(_) => Outcome::Parsed(pos, acc),
            o => fail_as(o),
        }
    } else {
        Outcome::Parsed(pos, acc)
    }
}

pub open spec fn spec_target_list1(toks: Seq<Token>, pos: int) -> Outcome<Seq<SpecSelectTarget>> {
    match spec_select_target(toks, pos) {
        Outcome::Parsed(n, t) => spec_target_list_rest(toks, n, seq![t]),
        o => fail_as(o),
    }
}

pub open spec fn spec_order_by_list_rest(
    toks: Seq<Token>,
    pos: int,
    acc: Seq<SpecOrderByExpr>,
) -> Outcome<Seq<SpecOrderByExpr>>
    decreases remaining(toks, pos),
{
    if kind_at(toks, pos, TokenKind::Comma) {
        match spec_order_by_expr(toks, pos + 1) {
            Outcome::Parsed(n, o) => if 0 <= pos < n <= toks.len() {
                spec_order_by_list_rest(toks, n, acc.push(o))
            } else {
                Outcome::Backtrack(pos)
            },
            Outcome::Backtrack(_) => Outcome::Parsed(pos, acc),
            o => fail_as(o),
        }
    } else {
        Outcome::Parsed(pos, acc)
    }
}

pub open spec fn spec_order_by_list1(toks: Seq<Token>, pos: int) -> Outcome<Seq<SpecOrderByExpr>> {
    match spec_order_by_expr(toks, pos) {
        Outcome::Parsed(n, o) => spec_order_by_list_rest(toks, n, seq![o]),
        o => fail_as(o),
    }
}

// ---------------------------------------------------------------------------
// The clauses of a query and of a `SELECT`
// ---------------------------------------------------------------------------
/// `[ORDER ^BY ^order_by_expr {, order_by_expr}]`
pub open spec fn spec_order_block(toks: Seq<Token>, pos: int) -> Outcome<Seq<SpecOrderByExpr>> {
    if !kind_at(toks, pos, TokenKind::ORDER) {
        Outcome::Parsed(pos, Seq::empty())
    } else if !kind_at(toks, pos + 1, TokenKind::BY) {
        Outcome::Cut(pos + 1)
    } else {
        match spec_order_by_list1(toks, pos + 2) {
            Outcome::Backtrack(p) => Outcome::Cut(p),
            o => o,
        }
    }
}

/// `[LIMIT ^expr {, expr}]`
pub open spec fn spec_limit_block(toks: Seq<Token>, pos: int) -> Outcome<Seq<SpecExpr>> {
    if !kind_at(toks, pos, TokenKind::LIMIT) {
        Outcome::Parsed(pos, Seq::empty())
    } else {
        match spec_expr_list1(toks, pos + 1) {
            Outcome::Backtrack(p) => Outcome::Cut(p),
            o => o,
        }
    }
}

/// `[keyword ^expr]` for the keyword `k` (`OFFSET`, `WHERE`, `HAVING`)
pub open spec fn spec_keyword_expr(toks: Seq<Token>, pos: int, k: TokenKind) -> Outcome<
    Option<SpecExpr>,
> {
    if !kind_at(toks, pos, k) {
        Outcome::Parsed(pos, None)
    } else {
        match spec_expr(toks, pos + 1) {
            Outcome::Parsed(n, e) => Outcome::Parsed(n, Some(e)),
            Outcome::Backtrack(p) => Outcome::Cut(p),
            o => fail_as(o),
        }
    }
}

/// `[GROUP ^BY ^expr {, expr}]`
pub open spec fn spec_group_block(toks: Seq<Token>, pos: int) -> Outcome<Seq<SpecExpr>> {
    if !kind_at(toks, pos, TokenKind::GROUP) {
        Outcome::Parsed(pos, Seq::empty())
    } else if !kind_at(toks, pos + 1, TokenKind::BY) {
        Outcome::Cut(pos + 1)
    } else {
        match spec_expr_list1(toks, pos + 2) {
            Outcome::Backtrack(p) => Outcome::Cut(p),
            o => o,
        }
    }
}

// ---------------------------------------------------------------------------
// The rules that recur through queries
//
// Each is measured by the tokens that remain and a rank; a rule calls another at the same
// position only if the other has a lower rank.
// ---------------------------------------------------------------------------
/// `query`: `set_expr [ORDER BY ...] [LIMIT ...] [OFFSET expr] [FORMAT ident]`
pub open spec fn spec_query(toks: Seq<Token>, pos: int) -> Outcome<SpecQuery>
    decreases remaining(toks, pos), 2int,
{
    match spec_set_expr(toks, pos) {
        Outcome::Parsed(p1, body) => match spec_order_block(toks, p1) {
            Outcome::Parsed(p2, order_by) => match spec_limit_block(toks, p2) {
                Outcome::Parsed(p3, limit) => match spec_keyword_expr(toks, p3, TokenKind::OFFSET) {
                    Outcome::Parsed(p4, offset) => {
                        let (p5, format) = if kind_at(toks, p4, TokenKind::FORMAT) && kind_at(
                            toks,
                            p4 + 1,
                            TokenKind::Ident,
                        ) {
                            (p4 + 2, Some(toks[p4 + 1].text))
                        } else {
                            (p4, None)
                        };
                        Outcome::Parsed(
                            p5,
                            SpecQuery { span: (pos, p5), body, order_by, limit, offset, format },
                        )
                    },
                    o => fail_as(o),
                },
                o => fail_as(o),
            },
            o => fail_as(o),
        },
        o => fail_as(o),
    }
}

/// `set_expr`: `select [UNION | EXCEPT | INTERSECT] [ALL] [set_expr]`
///
/// A set operator whose right operand does not follow aborts the evaluation.
pub open spec fn spec_set_expr(toks: Seq<Token>, pos: int) -> Outcome<SpecSetExpr>
    decreases remaining(toks, pos), 1int,
{
    match spec_select(toks, pos) {
        Outcome::Parsed(p1, select) => if 0 <= pos < p1 <= toks.len() {
            let (p2, op) = if kind_at(toks, p1, TokenKind::UNION) {
                (p1 + 1, Some(SetOperator::Union))
            } else if kind_at(toks, p1, TokenKind::EXCEPT) {
                (p1 + 1, Some(SetOperator::Except))
            } else if kind_at(toks, p1, TokenKind::INTERSECT) {
                (p1 + 1, Some(SetOperator::Intersect))
            } else {
                (p1, None)
            };
            let (p3, all) = if kind_at(toks, p2, TokenKind::ALL) {
                (p2 + 1, true)
            } else {
                (p2, false)
            };
            let left = SpecSetExpr::Select(Box::new(select));
            match spec_set_expr(toks, p3) {
                Outcome::Parsed(p4, right) => match op {
                    Some(op) => Outcome::Parsed(
                        p4,
                        SpecSetExpr::SetOperation { op, all, left: Box::new(left), right: Box::new(right) },
                    ),
                    None => Outcome::Parsed(p4, left),
                },
                Outcome::Backtrack(_) => match op {
                    Some(_) => Outcome::Abort(p3),
                    None => Outcome::Parsed(p3, left),
                },
                o => o,
            }
        } else {
            Outcome::Backtrack(pos)
        },
        o => fail_as(o),
    }
}

/// `SELECT [DISTINCT] select_target {, select_target} [FROM ...] [WHERE ...] [GROUP BY ...]
/// [HAVING ...]`
pub open spec fn spec_select(toks: Seq<Token>, pos: int) -> Outcome<SpecSelectStmt>
    decreases remaining(toks, pos), 0int,
{
    if !kind_at(toks, pos, TokenKind::SELECT) {
        Outcome::Backtrack(pos)
    } else {
        let (p1, distinct) = if kind_at(toks, pos + 1, TokenKind::DISTINCT) {
            (pos + 2, true)
        } else {
            (pos + 1, false)
        };
        match spec_target_list1(toks, p1) {
            Outcome::Parsed(p2, select_list) => if 0 <= pos < p2 <= toks.len() {
                match spec_from_block(toks, p2) {
                    Outcome::Parsed(p3, from) => match spec_keyword_expr(toks, p3, TokenKind::WHERE) {
                        Outcome::Parsed(p4, selection) => match spec_group_block(toks, p4) {
                            Outcome::Parsed(p5, group_by) => match spec_keyword_expr(
                                toks,
                                p5,
                                TokenKind::HAVING,
                            ) {
                                Outcome::Parsed(p6, having) => Outcome::Parsed(
                                    p6,
                                    SpecSelectStmt { distinct, select_list, from, selection, group_by, having },
                                ),
                                o => fail_as(o),
                            },
                            o => fail_as(o),
                        },
                        o => fail_as(o),
                    },
                    o => fail_as(o),
                }
            } else {
                Outcome::Backtrack(pos)
            },
            o => fail_as(o),
        }
    }
}

/// `[FROM ^table_reference {, table_reference}]`
pub open spec fn spec_from_block(toks: Seq<Token>, pos: int) -> Outcome<Seq<SpecTableReference>>
    decreases remaining(toks, pos), 0int,
{
    if !kind_at(toks, pos, TokenKind::FROM) {
        Outcome::Parsed(pos, Seq::empty())
    } else {
        match spec_table_ref_list1(toks, pos + 1) {
            Outcome::Backtrack(p) => Outcome::Cut(p),
            o => o,
        }
    }
}

pub open spec fn spec_table_ref_list1(toks: Seq<Token>, pos: int) -> Outcome<Seq<SpecTableReference>>
    decreases remaining(toks, pos), 7int,
{
    match spec_table_reference(toks, pos) {
        Outcome::Parsed(n, t) => if 0 <= pos < n <= toks.len() {
            spec_table_ref_list_rest(toks, n, seq![t])
        } else {
            Outcome::Backtrack(pos)
        },
        o => fail_as(o),
    }
}

pub open spec fn spec_table_ref_list_rest(
    toks: Seq<Token>,
    pos: int,
    acc: Seq<SpecTableReference>,
) -> Outcome<Seq<SpecTableReference>>
    decreases remaining(toks, pos), 7int,
{
    if kind_at(toks, pos, TokenKind::Comma) {
        match spec_table_reference(toks, pos + 1) {
            Outcome::Parsed(n, t) => if 0 <= pos < n <= toks.len() {
                spec_table_ref_list_rest(toks, n, acc.push(t))
            } else {
                Outcome::Backtrack(pos)
            },
            Outcome::Backtrack(_) => Outcome::Parsed(pos, acc),
            o => fail_as(o),
        }
    } else {
        Outcome::Parsed(pos, acc)
    }
}

/// `joined_tables | parenthesized_joined_tables | subquery | table_function | aliased_table`
pub open spec fn spec_table_reference(toks: Seq<Token>, pos: int) -> Outcome<SpecTableReference>
    decreases remaining(toks, pos), 6int,
{
    or_else(
        spec_joined_tables(toks, pos),
        or_else(
            spec_parenthesized_joined_tables(toks, pos),
            or_else(
                spec_subquery(toks, pos),
                or_else(spec_table_function(toks, pos), spec_aliased_table(toks, pos)),
            ),
        ),
    )
}

/// `parenthesized_joined_tables | subquery | table_function | aliased_table`
pub open spec fn spec_table_ref_without_join(toks: Seq<Token>, pos: int) -> Outcome<
    SpecTableReference,
>
    decreases remaining(toks, pos), 4int,
{
    or_else(
        spec_parenthesized_joined_tables(toks, pos),
        or_else(
            spec_subquery(toks, pos),
            or_else(spec_table_function(toks, pos), spec_aliased_table(toks, pos)),
        ),
    )
}

/// The tree of joining `right` to `left` with operator `op` and condition `c`.
pub open spec fn join_onto(
    left: SpecTableReference,
    e: (JoinOperator, SpecJoinCondition, SpecTableReference),
) -> SpecTableReference {
    SpecTableReference::Join(
        SpecJoin { op: e.0, condition: e.1, left: Box::new(left), right: Box::new(e.2) },
    )
}

/// `table_ref_without_join (join | natural_join)+`, the joins folded to the left
pub open spec fn spec_joined_tables(toks: Seq<Token>, pos: int) -> Outcome<SpecTableReference>
    decreases remaining(toks, pos), 5int,
{
    match spec_table_ref_without_join(toks, pos) {
        Outcome::Parsed(n, first) => if 0 <= pos <= n <= toks.len() {
            spec_joins_many1(toks, n, first)
        } else {
            Outcome::Backtrack(pos)
        },
        o => o,
    }
}

/// At least one join element at `pos`, folded onto `acc`.
pub open spec fn spec_joins_many1(toks: Seq<Token>, pos: int, acc: SpecTableReference) -> Outcome<
    SpecTableReference,
>
    decreases remaining(toks, pos), 3int,
{
    match spec_join_element(toks, pos) {
        Outcome::Parsed(n, e) => if 0 <= pos < n <= toks.len() {
            spec_joins_rest(toks, n, join_onto(acc, e))
        } else {
            Outcome::Backtrack(pos)
        },
        o => fail_as(o),
    }
}

/// Further join elements at `pos`, folded onto `acc`; one that consumes nothing is an error.
pub open spec fn spec_joins_rest(toks: Seq<Token>, pos: int, acc: SpecTableReference) -> Outcome<
    SpecTableReference,
>
    decreases remaining(toks, pos), 2int,
{
    match spec_join_element(toks, pos) {
        Outcome::Parsed(n, e) => if n == pos {
            Outcome::Backtrack(pos)
        } else if 0 <= pos < n <= toks.len() {
            spec_joins_rest(toks, n, join_onto(acc, e))
        } else {
            Outcome::Backtrack(pos)
        },
        Outcome::Backtrack(_) => Outcome::Parsed(pos, acc),
        o => fail_as(o),
    }
}

/// `join | natural_join`
pub open spec fn spec_join_element(toks: Seq<Token>, pos: int) -> Outcome<
    (JoinOperator, SpecJoinCondition, SpecTableReference),
>
    decreases remaining(toks, pos), 1int,
{
    let join = {
        let (p1, op) = opt_join_operator(toks, pos);
        if !kind_at(toks, p1, TokenKind::JOIN) {
            Outcome::Backtrack(p1)
        } else if p1 < pos {
            Outcome::Backtrack(pos)
        } else {
            match spec_table_ref_without_join(toks, p1 + 1) {
                Outcome::Parsed(p2, right) => {
                    let op = match op {
                        Some(o) => o,
                        None => JoinOperator::Inner,
                    };
                    match spec_join_condition(toks, p2) {
                        Outcome::Parsed(p3, c) => Outcome::Parsed(p3, (op, c, right)),
                        Outcome::Backtrack(_) => Outcome::Parsed(
                            p2,
                            (op, SpecJoinCondition::NoCondition, right),
                        ),
                        o => fail_as(o),
                    }
                },
                o => fail_as(o),
            }
        }
    };
    let natural = if !kind_at(toks, pos, TokenKind::NATURAL) {
        Outcome::Backtrack(pos)
    } else {
        let (p1, op) = opt_join_operator(toks, pos + 1);
        if !kind_at(toks, p1, TokenKind::JOIN) {
            Outcome::Backtrack(p1)
        } else if p1 < pos {
            Outcome::Backtrack(pos)
        } else {
            match spec_table_ref_without_join(toks, p1 + 1) {
                Outcome::Parsed(p2, right) => {
                    let op = match op {
                        Some(o) => o,
                        None => JoinOperator::Inner,
                    };
                    Outcome::Parsed(p2, (op, SpecJoinCondition::Natural, right))
                },
                o => fail_as(o),
            }
        }
    };
    or_else(join, natural)
}

/// `( (parenthesized_joined_tables | joined_tables) )`
pub open spec fn spec_parenthesized_joined_tables(toks: Seq<Token>, pos: int) -> Outcome<
    SpecTableReference,
>
    decreases remaining(toks, pos), 1int,
{
    if !kind_at(toks, pos, TokenKind::LParen) {
        Outcome::Backtrack(pos)
    } else {
        match or_else(
            spec_parenthesized_joined_tables(toks, pos + 1),
            spec_joined_tables(toks, pos + 1),
        ) {
            Outcome::Parsed(n, t) => if kind_at(toks, n, TokenKind::RParen) {
                Outcome::Parsed(n + 1, t)
            } else {
                Outcome::Backtrack(n)
            },
            o => o,
        }
    }
}

/// `(parenthesized_query | query) [table_alias]`
pub open spec fn spec_subquery(toks: Seq<Token>, pos: int) -> Outcome<SpecTableReference>
    decreases remaining(toks, pos), 3int,
{
    match or_else(spec_parenthesized_query(toks, pos), spec_query(toks, pos)) {
        Outcome::Parsed(n, q) => {
            let (m, alias) = opt_table_alias(toks, n);
            Outcome::Parsed(m, SpecTableReference::Subquery { subquery: Box::new(q), alias })
        },
        o => fail_as(o),
    }
}

/// `( (parenthesized_query | query) )`
pub open spec fn spec_parenthesized_query(toks: Seq<Token>, pos: int) -> Outcome<SpecQuery>
    decreases remaining(toks, pos), 1int,
{
    if !kind_at(toks, pos, TokenKind::LParen) {
        Outcome::Backtrack(pos)
    } else {
        match or_else(spec_parenthesized_query(toks, pos + 1), spec_query(toks, pos + 1)) {
            Outcome::Parsed(n, q) => if kind_at(toks, n, TokenKind::RParen) {
                Outcome::Parsed(n + 1, q)
            } else {
                Outcome::Backtrack(n)
            },
            o => o,
        }
    }
}


// ---------------------------------------------------------------------------
// Views of what the executable parsers build
// ---------------------------------------------------------------------------
proof fn lemma_view_select(s: SelectStmt)
    ensures
        view_select(s).from == view_table_refs(s.from@),
{
    assert(view_select(s).from =~= view_table_refs(s.from@));
}

proof fn lemma_targets_push(s: Seq<SelectTarget>, t: SelectTarget)
    ensures
        view_targets(s.push(t)) == view_targets(s).push(view_target(t)),
{
    assert(view_targets(s.push(t)) =~= view_targets(s).push(view_target(t)));
}

proof fn lemma_order_bys_push(s: Seq<OrderByExpr>, o: OrderByExpr)
    ensures
        view_order_bys(s.push(o)) == view_order_bys(s).push(view_order_by(o)),
{
    assert(view_order_bys(s.push(o)) =~= view_order_bys(s).push(view_order_by(o)));
}

proof fn lemma_table_refs_push(s: Seq<TableReference>, t: TableReference)
    ensures
        view_table_refs(s.push(t)) == view_table_refs(s).push(view_table_ref(t)),
{
    assert(view_table_refs(s.push(t)) =~= view_table_refs(s).push(view_table_ref(t)));
}

proof fn lemma_empty_views()
    ensures
        view_targets(Seq::empty()) == Seq::<SpecSelectTarget>::empty(),
        view_order_bys(Seq::empty()) == Seq::<SpecOrderByExpr>::empty(),
        view_table_refs(Seq::empty()) == Seq::<SpecTableReference>::empty(),
        view_exprs(Seq::empty()) == Seq::<SpecExpr>::empty(),
{
    assert(view_targets(Seq::empty()) =~= Seq::<SpecSelectTarget>::empty());
    assert(view_order_bys(Seq::empty()) =~= Seq::<SpecOrderByExpr>::empty());
    assert(view_table_refs(Seq::empty()) =~= Seq::<SpecTableReference>::empty());
    assert(view_exprs(Seq::empty()) =~= Seq::<SpecExpr>::empty());
}

fn ident_at(toks: &[Token], pos: usize) -> (i: Identifier)
    requires
        pos < toks@.len(),
    ensures
        i == id_at(toks@, pos as int),
{
    Identifier { name: toks[pos].text.clone() }
}

// ---------------------------------------------------------------------------
// Executable rules outside the recursion through queries
// ---------------------------------------------------------------------------
/// Parses `ident | AS ident`.
pub fn alias_name(toks: &[Token], pos: usize) -> (r: PResult<Identifier>)
    ensures
        agrees(r, spec_alias_name(toks@, pos as int), |i: Identifier| i),
        progress(r, toks@, pos),
{
    if is_kind(toks, pos, TokenKind::Ident) {
        Ok((pos + 1, ident_at(toks, pos)))
    } else if !is_kind(toks, pos, TokenKind::AS) {
        Err(ParseError::Error(pos))
    } else if is_kind(toks, pos + 1, TokenKind::Ident) {
        Ok((pos + 2, ident_at(toks, pos + 1)))
    } else {
        Err(ParseError::Error(pos + 1))
    }
}

/// Parses an alias name as a table alias.
pub fn table_alias(toks: &[Token], pos: usize) -> (r: PResult<TableAlias>)
    ensures
        agrees(r, spec_table_alias(toks@, pos as int), |a: TableAlias| view_alias(a)),
        progress(r, toks@, pos),
{
    let (n, name) = alias_name(toks, pos)?;
    Ok((n, TableAlias { name, columns: Vec::new() }))
}

fn opt_alias(toks: &[Token], pos: usize) -> (r: (usize, Option<TableAlias>))
    requires
        pos <= toks@.len(),
    ensures
        (r.0 as int, view_opt_alias(r.1)) == opt_table_alias(toks@, pos as int),
        pos <= r.0 <= toks@.len(),
{
    match table_alias(toks, pos) {
        Ok((n, a)) => (n, Some(a)),
        Err(_) => (pos, None),
    }
}

/// Parses `AT ( SNAPSHOT => 'literal' )`.
pub fn travel_point(toks: &[Token], pos: usize) -> (r: PResult<TimeTravelPoint>)
    ensures
        agrees(r, spec_travel_point(toks@, pos as int), |t: TimeTravelPoint| t),
        progress(r, toks@, pos),
{
    if !is_kind(toks, pos, TokenKind::AT) {
        Err(ParseError::Error(pos))
    } else if !is_kind(toks, pos + 1, TokenKind::LParen) {
        Err(ParseError::Error(pos + 1))
    } else if !is_kind(toks, pos + 2, TokenKind::SNAPSHOT) {
        Err(ParseError::Error(pos + 2))
    } else if !is_kind(toks, pos + 3, TokenKind::RArrow) {
        Err(ParseError::Error(pos + 3))
    } else if !is_kind(toks, pos + 4, TokenKind::LiteralString) {
        Err(ParseError::Error(pos + 4))
    } else if !is_kind(toks, pos + 5, TokenKind::RParen) {
        Err(ParseError::Error(pos + 5))
    } else {
        Ok((pos + 6, TimeTravelPoint::Snapshot(toks[pos + 4].text.clone())))
    }
}

/// Parses `[catalog .] [database .] table [travel_point] [table_alias]`.
pub fn aliased_table(toks: &[Token], pos: usize) -> (r: PResult<TableReference>)
    ensures
        agrees(r, spec_aliased_table(toks@, pos as int), |t: TableReference| view_table_ref(t)),
        progress(r, toks@, pos),
{
    if !is_kind(toks, pos, TokenKind::Ident) {
        return Err(ParseError::Error(pos));
    }
    let fst = ident_at(toks, pos);
    let (p1, snd) = if is_kind(toks, pos + 1, TokenKind::Period) && is_kind(
        toks,
        pos + 2,
        TokenKind::Ident,
    ) {
        (pos + 3, Some(ident_at(toks, pos + 2)))
    } else {
        (pos + 1, None)
    };
    let (p2, third) = if is_kind(toks, p1, TokenKind::Period) && is_kind(
        toks,
        p1 + 1,
        TokenKind::Ident,
    ) {
        (p1 + 2, Some(ident_at(toks, p1 + 1)))
    } else {
        (p1, None)
    };
    let (p3, travel_point) = match travel_point(toks, p2) {
        Ok((n, t)) => (n, Some(t)),
        Err(_) => (p2, None),
    };
    let (p4, alias) = opt_alias(toks, p3);
    let (catalog, database, table) = match (snd, third) {
        (Some(d), Some(t)) => (Some(fst), Some(d), t),
        (Some(t), None) => (None, Some(fst), t),
        (None, Some(t)) => (None, Some(fst), t),
        (None, None) => (None, None, fst),
    };
    Ok((p4, TableReference::Table { catalog, database, table, alias, travel_point }))
}

/// Parses `ident ( [expr {, expr}] ) [table_alias]`.
pub fn table_function(toks: &[Token], pos: usize) -> (r: PResult<TableReference>)
    ensures
        agrees(r, spec_table_function(toks@, pos as int), |t: TableReference| view_table_ref(t)),
        progress(r, toks@, pos),
{
    if !is_kind(toks, pos, TokenKind::Ident) {
        return Err(ParseError::Error(pos));
    }
    if !is_kind(toks, pos + 1, TokenKind::LParen) {
        return Err(ParseError::Error(pos + 1));
    }
    let (n, params) = expr_list0(toks, pos + 2)?;
    if !is_kind(toks, n, TokenKind::RParen) {
        return Err(ParseError::Error(n));
    }
    let (m, alias) = opt_alias(toks, n + 1);
    Ok((m, TableReference::TableFunction { name: ident_at(toks, pos), params, alias }))
}

/// Parses `INNER | LEFT [OUTER] | RIGHT [OUTER] | FULL [OUTER] | CROSS`.
pub fn join_operator(toks: &[Token], pos: usize) -> (r: PResult<JoinOperator>)
    ensures
        agrees(r, spec_join_operator(toks@, pos as int), |o: JoinOperator| o),
        progress(r, toks@, pos),
{
    if is_kind(toks, pos, TokenKind::INNER) {
        return Ok((pos + 1, JoinOperator::Inner));
    }
    let op = if is_kind(toks, pos, TokenKind::LEFT) {
        JoinOperator::LeftOuter
    } else if is_kind(toks, pos, TokenKind::RIGHT) {
        JoinOperator::RightOuter
    } else if is_kind(toks, pos, TokenKind::FULL) {
        JoinOperator::FullOuter
    } else if is_kind(toks, pos, TokenKind::CROSS) {
        return Ok((pos + 1, JoinOperator::CrossJoin));
    } else {
        return Err(ParseError::Error(pos));
    };
    if is_kind(toks, pos + 1, TokenKind::OUTER) {
        Ok((pos + 2, op))
    } else {
        Ok((pos + 1, op))
    }
}

fn opt_operator(toks: &[Token], pos: usize) -> (r: (usize, Option<JoinOperator>))
    requires
        pos <= toks@.len(),
    ensures
        (r.0 as int, r.1) == opt_join_operator(toks@, pos as int),
        pos <= r.0 <= toks@.len(),
{
    match join_operator(toks, pos) {
        Ok((n, o)) => (n, Some(o)),
        Err(_) => (pos, None),
    }
}

/// Parses `expr [ASC | DESC]`.
pub fn order_by_expr(toks: &[Token], pos: usize) -> (r: PResult<OrderByExpr>)
    ensures
        agrees(r, spec_order_by_expr(toks@, pos as int), |o: OrderByExpr| view_order_by(o)),
        progress(r, toks@, pos),
{
    let (n, e) = expr(toks, pos)?;
    if is_kind(toks, n, TokenKind::ASC) {
        Ok((n + 1, OrderByExpr { expr: e, asc: Some(true), nulls_first: None }))
    } else if is_kind(toks, n, TokenKind::DESC) {
        Ok((n + 1, OrderByExpr { expr: e, asc: Some(false), nulls_first: None }))
    } else {
        Ok((n, OrderByExpr { expr: e, asc: None, nulls_first: None }))
    }
}

fn qualified_wildcard(toks: &[Token], pos: usize) -> (r: PResult<SelectTarget>)
    ensures
        agrees(r, spec_qualified_wildcard(toks@, pos as int), |t: SelectTarget| view_target(t)),
        progress(r, toks@, pos),
{
    let mut prefix: Vec<Indirection> = Vec::new();
    let p = if is_kind(toks, pos, TokenKind::Ident) && is_kind(toks, pos + 1, TokenKind::Period) {
        prefix.push(Indirection::Identifier(ident_at(toks, pos)));
        if is_kind(toks, pos + 2, TokenKind::Ident) && is_kind(toks, pos + 3, TokenKind::Period) {
            prefix.push(Indirection::Identifier(ident_at(toks, pos + 2)));
            assert(prefix@ =~= seq![
                Indirection::Identifier(id_at(toks@, pos as int)),
                Indirection::Identifier(id_at(toks@, pos + 2)),
            ]);
            pos + 4
        } else {
            assert(prefix@ =~= seq![Indirection::Identifier(id_at(toks@, pos as int))]);
            pos + 2
        }
    } else {
        assert(prefix@ =~= Seq::<Indirection>::empty());
        pos
    };
    if !is_kind(toks, p, TokenKind::Multiply) {
        return Err(ParseError::Error(p));
    }
    prefix.push(Indirection::Star);
    Ok((p + 1, SelectTarget::QualifiedName(prefix)))
}

fn projection(toks: &[Token], pos: usize) -> (r: PResult<SelectTarget>)
    ensures
        agrees(r, spec_projection(toks@, pos as int), |t: SelectTarget| view_target(t)),
        progress(r, toks@, pos),
{
    let (n, e) = expr(toks, pos)?;
    let (m, alias) = match alias_name(toks, n) {
        Ok((m, a)) => (m, Some(a)),
        Err(_) => (n, None),
    };
    Ok((m, SelectTarget::AliasedExpr { expr: Box::new(e), alias }))
}

/// Parses an item of a `SELECT` list: `[ident . [ident .]] *` or `expr [alias_name]`.
pub fn select_target(toks: &[Token], pos: usize) -> (r: PResult<SelectTarget>)
    ensures
        agrees(r, spec_select_target(toks@, pos as int), |t: SelectTarget| view_target(t)),
        progress(r, toks@, pos),
{
    match qualified_wildcard(toks, pos) {
        Err(ParseError::Error(_)) => projection(toks, pos),
        r => r,
    }
}

fn join_condition(toks: &[Token], pos: usize) -> (r: PResult<JoinCondition>)
    ensures
        agrees(r, spec_join_condition(toks@, pos as int), |c: JoinCondition| view_condition(c)),
        progress(r, toks@, pos),
{
    if is_kind(toks, pos, TokenKind::ON) {
        match expr(toks, pos + 1) {
            Ok((n, e)) => {
                return Ok((n, JoinCondition::On(Box::new(e))));
            },
            Err(ParseError::Error(_)) => {},
            Err(e) => {
                return Err(e);
            },
        }
    }
    if !is_kind(toks, pos, TokenKind::USING) {
        return Err(ParseError::Error(pos));
    }
    if !is_kind(toks, pos + 1, TokenKind::LParen) {
        return Err(ParseError::Error(pos + 1));
    }
    let (n, ids) = ident_list1(toks, pos + 2)?;
    if !is_kind(toks, n, TokenKind::RParen) {
        return Err(ParseError::Error(n));
    }
    Ok((n + 1, JoinCondition::Using(ids)))
}

// ---------------------------------------------------------------------------
// Executable lists
// ---------------------------------------------------------------------------
fn ident_list_rest(toks: &[Token], pos: usize, acc: Vec<Identifier>) -> (r: PResult<
    Vec<Identifier>,
>)
    requires
        pos <= toks@.len(),
    ensures
        agrees(r, spec_ident_list_rest(toks@, pos as int, acc@), |v: Vec<Identifier>| v@),
        within(r, toks@, pos),
    decreases remaining(toks@, pos as int),
{
    let mut acc = acc;
    if is_kind(toks, pos, TokenKind::Comma) && is_kind(toks, pos + 1, TokenKind::Ident) {
        acc.push(ident_at(toks, pos + 1));
        ident_list_rest(toks, pos + 2, acc)
    } else {
        Ok((pos, acc))
    }
}

fn ident_list1(toks: &[Token], pos: usize) -> (r: PResult<Vec<Identifier>>)
    ensures
        agrees(r, spec_ident_list1(toks@, pos as int), |v: Vec<Identifier>| v@),
        progress(r, toks@, pos),
{
    let (n, i) = ident(toks, pos)?;
    let mut acc: Vec<Identifier> = Vec::new();
    acc.push(i);
    assert(acc@ =~= seq![i]);
    ident_list_rest(toks, n, acc)
}

fn target_list_rest(toks: &[Token], pos: usize, acc: Vec<SelectTarget>) -> (r: PResult<
    Vec<SelectTarget>,
>)
    requires
        pos <= toks@.len(),
    ensures
        agrees(
            r,
            spec_target_list_rest(toks@, pos as int, view_targets(acc@)),
            |v: Vec<SelectTarget>| view_targets(v@),
        ),
        within(r, toks@, pos),
    decreases remaining(toks@, pos as int),
{
    let mut acc = acc;
    if is_kind(toks, pos, TokenKind::Comma) {
        match select_target(toks, pos + 1) {
            Ok((n, t)) => {
                proof {
                    lemma_targets_push(acc@, t);
                }
                acc.push(t);
                target_list_rest(toks, n, acc)
            },
            Err(ParseError::Error(_)) => Ok((pos, acc)),
            Err(e) => Err(e),
        }
    } else {
        Ok((pos, acc))
    }
}

fn target_list1(toks: &[Token], pos: usize) -> (r: PResult<Vec<SelectTarget>>)
    ensures
        agrees(r, spec_target_list1(toks@, pos as int), |v: Vec<SelectTarget>| view_targets(v@)),
        progress(r, toks@, pos),
{
    let (n, t) = select_target(toks, pos)?;
    let mut acc: Vec<SelectTarget> = Vec::new();
    proof {
        lemma_empty_views();
        lemma_targets_push(acc@, t);
    }
    acc.push(t);
    assert(view_targets(acc@) =~= seq![view_target(t)]);
    target_list_rest(toks, n, acc)
}

fn order_by_list_rest(toks: &[Token], pos: usize, acc: Vec<OrderByExpr>) -> (r: PResult<
    Vec<OrderByExpr>,
>)
    requires
        pos <= toks@.len(),
    ensures
        agrees(
            r,
            spec_order_by_list_rest(toks@, pos as int, view_order_bys(acc@)),
            |v: Vec<OrderByExpr>| view_order_bys(v@),
        ),
        within(r, toks@, pos),
    decreases remaining(toks@, pos as int),
{
    let mut acc = acc;
    if is_kind(toks, pos, TokenKind::Comma) {
        match order_by_expr(toks, pos + 1) {
            Ok((n, o)) => {
                proof {
                    lemma_order_bys_push(acc@, o);
                }
                acc.push(o);
                order_by_list_rest(toks, n, acc)
            },
            Err(ParseError::Error(_)) => Ok((pos, acc)),
            Err(e) => Err(e),
        }
    } else {
        Ok((pos, acc))
    }
}

fn order_by_list1(toks: &[Token], pos: usize) -> (r: PResult<Vec<OrderByExpr>>)
    ensures
        agrees(
            r,
            spec_order_by_list1(toks@, pos as int),
            |v: Vec<OrderByExpr>| view_order_bys(v@),
        ),
        progress(r, toks@, pos),
{
    let (n, o) = order_by_expr(toks, pos)?;
    let mut acc: Vec<OrderByExpr> = Vec::new();
    proof {
        lemma_empty_views();
        lemma_order_bys_push(acc@, o);
    }
    acc.push(o);
    assert(view_order_bys(acc@) =~= seq![view_order_by(o)]);
    order_by_list_rest(toks, n, acc)
}

// ---------------------------------------------------------------------------
// Executable clauses
// ---------------------------------------------------------------------------
fn order_block(toks: &[Token], pos: usize) -> (r: PResult<Vec<OrderByExpr>>)
    requires
        pos <= toks@.len(),
    ensures
        agrees(r, spec_order_block(toks@, pos as int), |v: Vec<OrderByExpr>| view_order_bys(v@)),
        within(r, toks@, pos),
{
    proof {
        lemma_empty_views();
    }
    if !is_kind(toks, pos, TokenKind::ORDER) {
        return Ok((pos, Vec::new()));
    }
    if !is_kind(toks, pos + 1, TokenKind::BY) {
        return Err(ParseError::Failure(pos + 1));
    }
    match order_by_list1(toks, pos + 2) {
        Err(ParseError::Error(p)) => Err(ParseError::Failure(p)),
        r => r,
    }
}

fn limit_block(toks: &[Token], pos: usize) -> (r: PResult<Vec<Expr>>)
    requires
        pos <= toks@.len(),
    ensures
        agrees(r, spec_limit_block(toks@, pos as int), |v: Vec<Expr>| view_exprs(v@)),
        within(r, toks@, pos),
{
    proof {
        lemma_empty_views();
    }
    if !is_kind(toks, pos, TokenKind::LIMIT) {
        return Ok((pos, Vec::new()));
    }
    match expr_list1(toks, pos + 1) {
        Err(ParseError::Error(p)) => Err(ParseError::Failure(p)),
        r => r,
    }
}

fn keyword_expr(toks: &[Token], pos: usize, k: TokenKind) -> (r: PResult<Option<Expr>>)
    requires
        pos <= toks@.len(),
    ensures
        agrees(r, spec_keyword_expr(toks@, pos as int, k), |e: Option<Expr>| view_opt_expr(e)),
        within(r, toks@, pos),
{
    if !is_kind(toks, pos, k) {
        return Ok((pos, None));
    }
    match expr(toks, pos + 1) {
        Ok((n, e)) => Ok((n, Some(e))),
        Err(ParseError::Error(p)) => Err(ParseError::Failure(p)),
        Err(e) => Err(e),
    }
}

fn group_block(toks: &[Token], pos: usize) -> (r: PResult<Vec<Expr>>)
    requires
        pos <= toks@.len(),
    ensures
        agrees(r, spec_group_block(toks@, pos as int), |v: Vec<Expr>| view_exprs(v@)),
        within(r, toks@, pos),
{
    proof {
        lemma_empty_views();
    }
    if !is_kind(toks, pos, TokenKind::GROUP) {
        return Ok((pos, Vec::new()));
    }
    if !is_kind(toks, pos + 1, TokenKind::BY) {
        return Err(ParseError::Failure(pos + 1));
    }
    match expr_list1(toks, pos + 2) {
        Err(ParseError::Error(p)) => Err(ParseError::Failure(p)),
        r => r,
    }
}


// ---------------------------------------------------------------------------
// Executable rules that recur through queries
//
// A set operator whose right operand is missing has no syntax tree: these parsers return
// `ParseError::MissingOperand` with its position there.
// ---------------------------------------------------------------------------
/// Parses a query: `set_expr [ORDER BY ...] [LIMIT ...] [OFFSET expr] [FORMAT ident]`.
pub fn query(toks: &[Token], pos: usize) -> (r: PResult<Query>)
    ensures
        agrees(r, spec_query(toks@, pos as int), |q: Query| view_query(q)),
        progress(r, toks@, pos),
        r matches Ok((n, q)) ==> q.span == (pos, n),
    decreases remaining(toks@, pos as int), 2int,
{
    let (p1, body) = set_expr(toks, pos)?;
    let (p2, order_by) = order_block(toks, p1)?;
    let (p3, limit) = limit_block(toks, p2)?;
    let (p4, offset) = keyword_expr(toks, p3, TokenKind::OFFSET)?;
    let (p5, format) = if is_kind(toks, p4, TokenKind::FORMAT) && is_kind(
        toks,
        p4 + 1,
        TokenKind::Ident,
    ) {
        (p4 + 2, Some(toks[p4 + 1].text.clone()))
    } else {
        (p4, None)
    };
    Ok((p5, Query { span: (pos, p5), body, order_by, limit, offset, format }))
}

/// Parses `select [UNION | EXCEPT | INTERSECT] [ALL] [set_expr]`.
pub fn set_expr(toks: &[Token], pos: usize) -> (r: PResult<SetExpr>)
    ensures
        agrees(r, spec_set_expr(toks@, pos as int), |e: SetExpr| view_set_expr(e)),
        progress(r, toks@, pos),
    decreases remaining(toks@, pos as int), 1int,
{
    let (p1, select) = select_stmt(toks, pos)?;
    let (p2, op) = if is_kind(toks, p1, TokenKind::UNION) {
        (p1 + 1, Some(SetOperator::Union))
    } else if is_kind(toks, p1, TokenKind::EXCEPT) {
        (p1 + 1, Some(SetOperator::Except))
    } else if is_kind(toks, p1, TokenKind::INTERSECT) {
        (p1 + 1, Some(SetOperator::Intersect))
    } else {
        (p1, None)
    };
    let (p3, all) = if is_kind(toks, p2, TokenKind::ALL) {
        (p2 + 1, true)
    } else {
        (p2, false)
    };
    let left = SetExpr::Select(Box::new(select));
    assert(view_set_expr(left) == SpecSetExpr::Select(Box::new(view_select(select))));
    let res = set_expr(toks, p3);
    match res {
        Ok((p4, right)) => match op {
            Some(op) => Ok(
                (p4, SetExpr::SetOperation { op, all, left: Box::new(left), right: Box::new(right) }),
            ),
            None => Ok((p4, left)),
        },
        Err(ParseError::Error(_)) => match op {
            Some(_) => Err(ParseError::MissingOperand(p3)),
            None => Ok((p3, left)),
        },
        Err(e) => Err(e),
    }
}

fn select_stmt(toks: &[Token], pos: usize) -> (r: PResult<SelectStmt>)
    ensures
        agrees(r, spec_select(toks@, pos as int), |s: SelectStmt| view_select(s)),
        progress(r, toks@, pos),
    decreases remaining(toks@, pos as int), 0int,
{
    if !is_kind(toks, pos, TokenKind::SELECT) {
        return Err(ParseError::Error(pos));
    }
    let (p1, distinct) = if is_kind(toks, pos + 1, TokenKind::DISTINCT) {
        (pos + 2, true)
    } else {
        (pos + 1, false)
    };
    let (p2, select_list) = target_list1(toks, p1)?;
    let (p3, from) = from_block(toks, p2)?;
    let (p4, selection) = keyword_expr(toks, p3, TokenKind::WHERE)?;
    let (p5, group_by) = group_block(toks, p4)?;
    let (p6, having) = keyword_expr(toks, p5, TokenKind::HAVING)?;
    let s = SelectStmt { distinct, select_list, from, selection, group_by, having };
    proof {
        lemma_view_select(s);
    }
    Ok((p6, s))
}

fn from_block(toks: &[Token], pos: usize) -> (r: PResult<Vec<TableReference>>)
    requires
        pos <= toks@.len(),
    ensures
        agrees(
            r,
            spec_from_block(toks@, pos as int),
            |v: Vec<TableReference>| view_table_refs(v@),
        ),
        within(r, toks@, pos),
    decreases remaining(toks@, pos as int), 0int,
{
    proof {
        lemma_empty_views();
    }
    if !is_kind(toks, pos, TokenKind::FROM) {
        return Ok((pos, Vec::new()));
    }
    match table_ref_list1(toks, pos + 1) {
        Err(ParseError::Error(p)) => Err(ParseError::Failure(p)),
        r => r,
    }
}

fn table_ref_list1(toks: &[Token], pos: usize) -> (r: PResult<Vec<TableReference>>)
    ensures
        agrees(
            r,
            spec_table_ref_list1(toks@, pos as int),
            |v: Vec<TableReference>| view_table_refs(v@),
        ),
        progress(r, toks@, pos),
    decreases remaining(toks@, pos as int), 7int,
{
    let (n, t) = table_reference(toks, pos)?;
    let mut acc: Vec<TableReference> = Vec::new();
    proof {
        lemma_empty_views();
        lemma_table_refs_push(acc@, t);
    }
    acc.push(t);
    assert(view_table_refs(acc@) =~= seq![view_table_ref(t)]);
    table_ref_list_rest(toks, n, acc)
}

fn table_ref_list_rest(toks: &[Token], pos: usize, acc: Vec<TableReference>) -> (r: PResult<
    Vec<TableReference>,
>)
    requires
        pos <= toks@.len(),
    ensures
        agrees(
            r,
            spec_table_ref_list_rest(toks@, pos as int, view_table_refs(acc@)),
            |v: Vec<TableReference>| view_table_refs(v@),
        ),
        within(r, toks@, pos),
    decreases remaining(toks@, pos as int), 7int,
{
    let mut acc = acc;
    if is_kind(toks, pos, TokenKind::Comma) {
        match table_reference(toks, pos + 1) {
            Ok((n, t)) => {
                proof {
                    lemma_table_refs_push(acc@, t);
                }
                acc.push(t);
                table_ref_list_rest(toks, n, acc)
            },
            Err(ParseError::Error(_)) => Ok((pos, acc)),
            Err(e) => Err(e),
        }
    } else {
        Ok((pos, acc))
    }
}

/// Parses an item of a `FROM` list:
/// `joined_tables | parenthesized_joined_tables | subquery | table_function | aliased_table`.
pub fn table_reference(toks: &[Token], pos: usize) -> (r: PResult<TableReference>)
    ensures
        agrees(r, spec_table_reference(toks@, pos as int), |t: TableReference| view_table_ref(t)),
        progress(r, toks@, pos),
    decreases remaining(toks@, pos as int), 6int,
{
    match joined_tables(toks, pos) {
        Err(ParseError::Error(_)) => match parenthesized_joined_tables(toks, pos) {
            Err(ParseError::Error(_)) => match subquery(toks, pos) {
                Err(ParseError::Error(_)) => match table_function(toks, pos) {
                    Err(ParseError::Error(_)) => aliased_table(toks, pos),
                    r => r,
                },
                r => r,
            },
            r => r,
        },
        r => r,
    }
}

fn table_ref_without_join(toks: &[Token], pos: usize) -> (r: PResult<TableReference>)
    ensures
        agrees(
            r,
            spec_table_ref_without_join(toks@, pos as int),
            |t: TableReference| view_table_ref(t),
        ),
        progress(r, toks@, pos),
    decreases remaining(toks@, pos as int), 4int,
{
    match parenthesized_joined_tables(toks, pos) {
        Err(ParseError::Error(_)) => match subquery(toks, pos) {
            Err(ParseError::Error(_)) => match table_function(toks, pos) {
                Err(ParseError::Error(_)) => aliased_table(toks, pos),
                r => r,
            },
            r => r,
        },
        r => r,
    }
}

/// Parses `table_ref_without_join (join | natural_join)+`, the joins folded to the left: the
/// first table is the leftmost leaf and the last join is the root.
pub fn joined_tables(toks: &[Token], pos: usize) -> (r: PResult<TableReference>)
    ensures
        agrees(r, spec_joined_tables(toks@, pos as int), |t: TableReference| view_table_ref(t)),
        progress(r, toks@, pos),
    decreases remaining(toks@, pos as int), 5int,
{
    let (n, first) = table_ref_without_join(toks, pos)?;
    joins_many1(toks, n, first)
}

fn join_tree(left: TableReference, e: (JoinOperator, JoinCondition, TableReference)) -> (t:
    TableReference)
    ensures
        view_table_ref(t) == join_onto(view_table_ref(left), (e.0, view_condition(e.1), view_table_ref(e.2))),
{
    let (op, condition, right) = e;
    TableReference::Join(Join { op, condition, left: Box::new(left), right: Box::new(right) })
}

pub open spec fn view_element(e: (JoinOperator, JoinCondition, TableReference)) -> (
    JoinOperator,
    SpecJoinCondition,
    SpecTableReference,
) {
    (e.0, view_condition(e.1), view_table_ref(e.2))
}

fn joins_many1(toks: &[Token], pos: usize, acc: TableReference) -> (r: PResult<TableReference>)
    requires
        pos <= toks@.len(),
    ensures
        agrees(
            r,
            spec_joins_many1(toks@, pos as int, view_table_ref(acc)),
            |t: TableReference| view_table_ref(t),
        ),
        progress(r, toks@, pos),
    decreases remaining(toks@, pos as int), 3int,
{
    let (n, e) = join_element(toks, pos)?;
    let acc = join_tree(acc, e);
    joins_rest(toks, n, acc)
}

fn joins_rest(toks: &[Token], pos: usize, acc: TableReference) -> (r: PResult<TableReference>)
    requires
        pos <= toks@.len(),
    ensures
        agrees(
            r,
            spec_joins_rest(toks@, pos as int, view_table_ref(acc)),
            |t: TableReference| view_table_ref(t),
        ),
        within(r, toks@, pos),
    decreases remaining(toks@, pos as int), 2int,
{
    match join_element(toks, pos) {
        Ok((n, e)) => {
            if n == pos {
                return Err(ParseError::Error(pos));
            }
            let acc = join_tree(acc, e);
            joins_rest(toks, n, acc)
        },
        Err(ParseError::Error(_)) => Ok((pos, acc)),
        Err(e) => Err(e),
    }
}

fn join_element(toks: &[Token], pos: usize) -> (r: PResult<
    (JoinOperator, JoinCondition, TableReference),
>)
    requires
        pos <= toks@.len(),
    ensures
        agrees(
            r,
            spec_join_element(toks@, pos as int),
            |e: (JoinOperator, JoinCondition, TableReference)| view_element(e),
        ),
        progress(r, toks@, pos),
    decreases remaining(toks@, pos as int), 1int,
{
    // join: [join_operator] JOIN table_ref_without_join [join_condition]
    let (p1, op) = opt_operator(toks, pos);
    let joined = if !is_kind(toks, p1, TokenKind::JOIN) {
        Err(ParseError::Error(p1))
    } else {
        match table_ref_without_join(toks, p1 + 1) {
            Ok((p2, right)) => {
                let op = match op {
                    Some(o) => o,
                    None => JoinOperator::Inner,
                };
                match join_condition(toks, p2) {
                    Ok((p3, c)) => Ok((p3, (op, c, right))),
                    Err(ParseError::Error(_)) => Ok((p2, (op, JoinCondition::NoCondition, right))),
                    Err(e) => Err(e),
                }
            },
            Err(e) => Err(e),
        }
    };
    match joined {
        Err(ParseError::Error(_)) => {},
        r => {
            return r;
        },
    }
    // natural_join: NATURAL [join_operator] JOIN table_ref_without_join
    if !is_kind(toks, pos, TokenKind::NATURAL) {
        return Err(ParseError::Error(pos));
    }
    let (p1, op) = opt_operator(toks, pos + 1);
    if !is_kind(toks, p1, TokenKind::JOIN) {
        return Err(ParseError::Error(p1));
    }
    let (p2, right) = table_ref_without_join(toks, p1 + 1)?;
    let op = match op {
        Some(o) => o,
        None => JoinOperator::Inner,
    };
    Ok((p2, (op, JoinCondition::Natural, right)))
}

/// Parses `( (parenthesized_joined_tables | joined_tables) )`.
pub fn parenthesized_joined_tables(toks: &[Token], pos: usize) -> (r: PResult<TableReference>)
    ensures
        agrees(
            r,
            spec_parenthesized_joined_tables(toks@, pos as int),
            |t: TableReference| view_table_ref(t),
        ),
        progress(r, toks@, pos),
    decreases remaining(toks@, pos as int), 1int,
{
    if !is_kind(toks, pos, TokenKind::LParen) {
        return Err(ParseError::Error(pos));
    }
    let inner = match parenthesized_joined_tables(toks, pos + 1) {
        Err(ParseError::Error(_)) => joined_tables(toks, pos + 1),
        r => r,
    };
    let (n, t) = inner?;
    if !is_kind(toks, n, TokenKind::RParen) {
        return Err(ParseError::Error(n));
    }
    Ok((n + 1, t))
}

/// Parses `(parenthesized_query | query) [table_alias]`.
pub fn subquery(toks: &[Token], pos: usize) -> (r: PResult<TableReference>)
    ensures
        agrees(r, spec_subquery(toks@, pos as int), |t: TableReference| view_table_ref(t)),
        progress(r, toks@, pos),
    decreases remaining(toks@, pos as int), 3int,
{
    let inner = match parenthesized_query(toks, pos) {
        Err(ParseError::Error(_)) => query(toks, pos),
        r => r,
    };
    let (n, q) = inner?;
    let (m, alias) = opt_alias(toks, n);
    Ok((m, TableReference::Subquery { subquery: Box::new(q), alias }))
}

/// Parses `( (parenthesized_query | query) )`.
pub fn parenthesized_query(toks: &[Token], pos: usize) -> (r: PResult<Query>)
    ensures
        agrees(r, spec_parenthesized_query(toks@, pos as int), |q: Query| view_query(q)),
        progress(r, toks@, pos),
    decreases remaining(toks@, pos as int), 1int,
{
    if !is_kind(toks, pos, TokenKind::LParen) {
        return Err(ParseError::Error(pos));
    }
    let inner = match parenthesized_query(toks, pos + 1) {
        Err(ParseError::Error(_)) => query(toks, pos + 1),
        r => r,
    };
    let (n, q) = inner?;
    if !is_kind(toks, n, TokenKind::RParen) {
        return Err(ParseError::Error(n));
    }
    Ok((n + 1, q))
}


// ---------------------------------------------------------------------------
// Laws
// ---------------------------------------------------------------------------
/// The table a join tree starts with: the leftmost leaf.
pub open spec fn leftmost(t: SpecTableReference) -> SpecTableReference
    decreases t,
{
    match t {
        SpecTableReference::Join(j) => leftmost(*j.left),
        _ => t,
    }
}

proof fn lemma_joins_rest_leftmost(toks: Seq<Token>, pos: int, acc: SpecTableReference)
    ensures
        spec_joins_rest(toks, pos, acc) matches Outcome::Parsed(_, t) ==> leftmost(t) == leftmost(
            acc,
        ),
    decreases remaining(toks, pos),
{
    if let Outcome::Parsed(n, e) = spec_join_element(toks, pos) {
        if n != pos && 0 <= pos < n <= toks.len() {
            lemma_joins_rest_leftmost(toks, n, join_onto(acc, e));
        }
    }
}

/// Joins fold to the left: the table that a joined table reference starts with is the leftmost
/// leaf of its join tree, and each further join takes the tree so far as its left side.
pub proof fn law_joins_fold_left(toks: Seq<Token>, pos: int)
    ensures
        spec_joined_tables(toks, pos) matches Outcome::Parsed(_, t) ==> {
            &&& spec_table_ref_without_join(toks, pos) matches Outcome::Parsed(_, first)
            &&& leftmost(t) == leftmost(first)
            &&& t is Join
        },
{
    if let Outcome::Parsed(n, first) = spec_table_ref_without_join(toks, pos) {
        if 0 <= pos <= n <= toks.len() {
            if let Outcome::Parsed(m, e) = spec_join_element(toks, n) {
                if 0 <= n <= m <= toks.len() {
                    let acc = join_onto(first, e);
                    lemma_joins_rest_leftmost(toks, m, acc);
                    lemma_joins_rest_is_join(toks, m, acc);
                }
            }
        }
    }
}

proof fn lemma_joins_rest_is_join(toks: Seq<Token>, pos: int, acc: SpecTableReference)
    requires
        acc is Join,
    ensures
        spec_joins_rest(toks, pos, acc) matches Outcome::Parsed(_, t) ==> t is Join,
    decreases remaining(toks, pos),
{
    if let Outcome::Parsed(n, e) = spec_join_element(toks, pos) {
        if n != pos && 0 <= pos < n <= toks.len() {
            lemma_joins_rest_is_join(toks, n, join_onto(acc, e));
        }
    }
}

/// A set operation's left operand is a single `SELECT`; further set operations nest in its
/// right operand.
pub proof fn law_set_operations_nest_right(toks: Seq<Token>, pos: int)
    ensures
        spec_set_expr(toks, pos) matches Outcome::Parsed(_, SpecSetExpr::SetOperation { left, .. })
            ==> *left is Select,
{
}

/// A query's span is the range of the tokens it was parsed from.
pub proof fn law_query_span(toks: Seq<Token>, pos: int)
    ensures
        spec_query(toks, pos) matches Outcome::Parsed(n, q) ==> q.span == (pos, n),
{
}


// ---------------------------------------------------------------------------
// The spine of a join tree
// ---------------------------------------------------------------------------
/// The tree made by joining the elements `es`, in order, onto `acc`.
pub open spec fn fold_joins(
    acc: SpecTableReference,
    es: Seq<(JoinOperator, SpecJoinCondition, SpecTableReference)>,
) -> SpecTableReference
    decreases es.len(),
{
    if es.len() == 0 {
        acc
    } else {
        fold_joins(join_onto(acc, es[0]), es.drop_first())
    }
}

/// The left side of a join; any other table reference is its own.
pub open spec fn left_of(t: SpecTableReference) -> SpecTableReference {
    match t {
        SpecTableReference::Join(j) => *j.left,
        _ => t,
    }
}

/// What following `.left` `i` times from `t` reaches.
pub open spec fn left_at(t: SpecTableReference, i: nat) -> SpecTableReference
    decreases i,
{
    if i == 0 {
        t
    } else {
        left_of(left_at(t, (i - 1) as nat))
    }
}

/// The join elements `es` are parsed one after the other: the `i`th from `ps[i]` to `ps[i + 1]`,
/// each consuming at least one token.
pub open spec fn join_chain(
    toks: Seq<Token>,
    ps: Seq<int>,
    es: Seq<(JoinOperator, SpecJoinCondition, SpecTableReference)>,
) -> bool {
    &&& ps.len() == es.len() + 1
    &&& forall|i: int|
        0 <= i < es.len() ==> #[trigger] spec_join_element(toks, ps[i]) == Outcome::Parsed(
            ps[i + 1],
            es[i],
        ) && ps[i] < ps[i + 1]
}

/// The join element `e` that starts at `p` has its own `JOIN` keyword at `j`: only the words of
/// its operator stand before it, and its right operand is the table reference that follows it,
/// a join only where it is parenthesized.
pub open spec fn join_keyword_at(
    toks: Seq<Token>,
    p: int,
    e: (JoinOperator, SpecJoinCondition, SpecTableReference),
    j: int,
) -> bool {
    &&& p <= j
    &&& kind_at(toks, j, TokenKind::JOIN)
    &&& forall|q: int| p <= q < j ==> !#[trigger] kind_at(toks, q, TokenKind::JOIN)
    &&& spec_table_ref_without_join(toks, j + 1) matches Outcome::Parsed(_, r) && r == e.2
    &&& (e.2 is Join ==> kind_at(toks, j + 1, TokenKind::LParen))
}

/// The join element `e` that starts at `p` has its own `JOIN` keyword.
pub open spec fn has_join_keyword(
    toks: Seq<Token>,
    p: int,
    e: (JoinOperator, SpecJoinCondition, SpecTableReference),
) -> bool {
    exists|j: int| #[trigger] join_keyword_at(toks, p, e, j)
}

/// A joined table reference `t` parsed from `pos` to `end`: the table reference `first` parsed
/// at `pos`, and the join elements `es` that follow it, one `Join` node of the left spine per
/// element, the last element at the root; where the parse ends no further join element starts.
pub open spec fn join_spine(
    toks: Seq<Token>,
    pos: int,
    end: int,
    t: SpecTableReference,
    first: SpecTableReference,
    ps: Seq<int>,
    es: Seq<(JoinOperator, SpecJoinCondition, SpecTableReference)>,
) -> bool {
    &&& spec_table_ref_without_join(toks, pos) == Outcome::Parsed(ps[0], first)
    &&& join_chain(toks, ps, es)
    &&& es.len() >= 1
    &&& pos <= ps[0]
    &&& ps.last() == end
    &&& t == fold_joins(first, es)
    &&& left_at(t, es.len()) == first
    &&& forall|i: int|
        0 <= i < es.len() ==> #[trigger] left_at(t, i as nat) == join_onto(
            left_at(t, (i + 1) as nat),
            es[es.len() - 1 - i],
        )
    &&& forall|i: int| 0 <= i < es.len() ==> #[trigger] has_join_keyword(toks, ps[i], es[i])
    &&& spec_join_element(toks, end) is Backtrack
}

proof fn lemma_fold_joins_spine(
    acc: SpecTableReference,
    es: Seq<(JoinOperator, SpecJoinCondition, SpecTableReference)>,
)
    ensures
        left_at(fold_joins(acc, es), es.len()) == acc,
        forall|i: int|
            0 <= i < es.len() ==> #[trigger] left_at(fold_joins(acc, es), i as nat) == join_onto(
                left_at(fold_joins(acc, es), (i + 1) as nat),
                es[es.len() - 1 - i],
            ),
    decreases es.len(),
{
    if es.len() > 0 {
        let acc2 = join_onto(acc, es[0]);
        let es2 = es.drop_first();
        lemma_fold_joins_spine(acc2, es2);
        let f = fold_joins(acc, es);
        let k = es.len();
        assert(f == fold_joins(acc2, es2));
        assert(left_at(f, (k - 1) as nat) == acc2);
        assert(left_at(f, k) == left_of(left_at(f, (k - 1) as nat)));
        assert forall|i: int| 0 <= i < k implies #[trigger] left_at(f, i as nat) == join_onto(
            left_at(f, (i + 1) as nat),
            es[k - 1 - i],
        ) by {
            if i < k - 1 {
                assert(es2[k - 2 - i] == es[k - 1 - i]);
            }
        }
    }
}

proof fn lemma_join_chain_cons(
    toks: Seq<Token>,
    p: int,
    e: (JoinOperator, SpecJoinCondition, SpecTableReference),
    ps: Seq<int>,
    es: Seq<(JoinOperator, SpecJoinCondition, SpecTableReference)>,
)
    requires
        join_chain(toks, ps, es),
        spec_join_element(toks, p) == Outcome::Parsed(ps[0], e),
        p < ps[0],
    ensures
        join_chain(toks, seq![p] + ps, seq![e] + es),
        (seq![p] + ps).last() == ps.last(),
        (seq![e] + es)[0] == e,
{
    let ps1 = seq![p] + ps;
    let es1 = seq![e] + es;
    assert forall|i: int| 0 <= i < es1.len() implies #[trigger] spec_join_element(
        toks,
        ps1[i],
    ) == Outcome::Parsed(ps1[i + 1], es1[i]) && ps1[i] < ps1[i + 1] by {
        if i > 0 {
            assert(ps1[i] == ps[i - 1]);
            assert(ps1[i + 1] == ps[i]);
            assert(es1[i] == es[i - 1]);
            assert(spec_join_element(toks, ps[i - 1]) == Outcome::Parsed(ps[i], es[i - 1]));
        }
    }
}

proof fn lemma_joins_rest_chain(toks: Seq<Token>, pos: int, acc: SpecTableReference)
    ensures
        spec_joins_rest(toks, pos, acc) matches Outcome::Parsed(end, t) ==> exists|
            ps: Seq<int>,
            es: Seq<(JoinOperator, SpecJoinCondition, SpecTableReference)>,
        |
            {
                &&& #[trigger] join_chain(toks, ps, es)
                &&& ps[0] == pos
                &&& ps.last() == end
                &&& t == fold_joins(acc, es)
                &&& spec_join_element(toks, end) is Backtrack
            },
    decreases remaining(toks, pos),
{
    match spec_join_element(toks, pos) {
        Outcome::Parsed(n, e) => {
            if n != pos && 0 <= pos < n <= toks.len() {
                let acc2 = join_onto(acc, e);
                lemma_joins_rest_chain(toks, n, acc2);
                if let Outcome::Parsed(end, t) = spec_joins_rest(toks, pos, acc) {
                    let (ps2, es2) = choose|
                        ps: Seq<int>,
                        es: Seq<(JoinOperator, SpecJoinCondition, SpecTableReference)>,
                    |
                        {
                            &&& #[trigger] join_chain(toks, ps, es)
                            &&& ps[0] == n
                            &&& ps.last() == end
                            &&& t == fold_joins(acc2, es)
                            &&& spec_join_element(toks, end) is Backtrack
                        };
                    let es = seq![e] + es2;
                    lemma_join_chain_cons(toks, pos, e, ps2, es2);
                    assert(es.drop_first() =~= es2);
                }
            }
        },
        Outcome::Backtrack(_) => {
            let ps = seq![pos];
            let es = Seq::<(JoinOperator, SpecJoinCondition, SpecTableReference)>::empty();
            assert(join_chain(toks, ps, es));
            assert(fold_joins(acc, es) == acc);
        },
        _ => {},
    }
}

proof fn lemma_table_ref_without_join_join(toks: Seq<Token>, pos: int)
    ensures
        spec_table_ref_without_join(toks, pos) matches Outcome::Parsed(_, r) && r is Join
            ==> kind_at(toks, pos, TokenKind::LParen),
{
}

pub proof fn lemma_operator_words(toks: Seq<Token>, p: int)
    ensures
        p <= opt_join_operator(toks, p).0 <= p + 2,
        forall|q: int|
            p <= q < opt_join_operator(toks, p).0 ==> !#[trigger] kind_at(toks, q, TokenKind::JOIN),
{
}

pub proof fn lemma_join_keyword_from(
    toks: Seq<Token>,
    p: int,
    j: int,
    e: (JoinOperator, SpecJoinCondition, SpecTableReference),
)
    requires
        p <= j,
        kind_at(toks, j, TokenKind::JOIN),
        forall|q: int| p <= q < j ==> !#[trigger] kind_at(toks, q, TokenKind::JOIN),
        spec_table_ref_without_join(toks, j + 1) matches Outcome::Parsed(_, r) && r == e.2,
    ensures
        join_keyword_at(toks, p, e, j),
{
    lemma_table_ref_without_join_join(toks, j + 1);
}

proof fn lemma_join_element_keyword(toks: Seq<Token>, p: int)
    ensures
        spec_join_element(toks, p) matches Outcome::Parsed(_, e) ==> exists|j: int| #[trigger]
            join_keyword_at(toks, p, e, j),
{
    if let Outcome::Parsed(_, e) = spec_join_element(toks, p) {
        let p1 = opt_join_operator(toks, p).0;
        let q1 = opt_join_operator(toks, p + 1).0;
        lemma_operator_words(toks, p);
        lemma_operator_words(toks, p + 1);
        if kind_at(toks, p1, TokenKind::JOIN) && spec_table_ref_without_join(toks, p1 + 1) is Parsed {
            lemma_join_keyword_from(toks, p, p1, e);
        } else {
            assert(kind_at(toks, p, TokenKind::NATURAL));
            lemma_join_keyword_from(toks, p, q1, e);
        }
    }
}

/// Joins fold to the left, one `Join` node per join element: a joined table reference parsed
/// from `pos` is the table reference parsed at `pos` with the join elements that follow it
/// folded on, in order. Following `.left` from the result passes exactly one `Join` node per
/// element, each joining the next one down with its element's operator, condition and right
/// operand, and reaches the table reference parsed at `pos`. Each element has its own `JOIN`
/// keyword, before which stand only the words of its operator; its right operand is the table
/// reference that follows that keyword, a join only where it is parenthesized. The parse ends
/// past `pos`, where no further join element starts.
pub proof fn law_join_spine(toks: Seq<Token>, pos: int)
    ensures
        spec_joined_tables(toks, pos) matches Outcome::Parsed(end, t) ==> {
            &&& pos < end
            &&& exists|
                first: SpecTableReference,
                ps: Seq<int>,
                es: Seq<(JoinOperator, SpecJoinCondition, SpecTableReference)>,
            | #[trigger] join_spine(toks, pos, end, t, first, ps, es)
        },
{
    if let Outcome::Parsed(end, t) = spec_joined_tables(toks, pos) {
        let (n, first) = match spec_table_ref_without_join(toks, pos) {
            Outcome::Parsed(n, first) => (n, first),
            _ => arbitrary(),
        };
        let (m, e) = match spec_join_element(toks, n) {
            Outcome::Parsed(m, e) => (m, e),
            _ => arbitrary(),
        };
        let acc = join_onto(first, e);
        assert(spec_joins_rest(toks, m, acc) == Outcome::Parsed(end, t));
        lemma_joins_rest_chain(toks, m, acc);
        let (ps2, es2) = choose|
            ps: Seq<int>,
            es: Seq<(JoinOperator, SpecJoinCondition, SpecTableReference)>,
        |
            {
                &&& #[trigger] join_chain(toks, ps, es)
                &&& ps[0] == m
                &&& ps.last() == end
                &&& t == fold_joins(acc, es)
                &&& spec_join_element(toks, end) is Backtrack
            };
        lemma_spine_from_chain(toks, pos, end, t, n, first, m, e, ps2, es2);
    }
}

proof fn lemma_spine_from_chain(
    toks: Seq<Token>,
    pos: int,
    end: int,
    t: SpecTableReference,
    n: int,
    first: SpecTableReference,
    m: int,
    e: (JoinOperator, SpecJoinCondition, SpecTableReference),
    ps2: Seq<int>,
    es2: Seq<(JoinOperator, SpecJoinCondition, SpecTableReference)>,
)
    requires
        spec_table_ref_without_join(toks, pos) == Outcome::Parsed(n, first),
        pos <= n < m,
        spec_join_element(toks, n) == Outcome::Parsed(m, e),
        join_chain(toks, ps2, es2),
        ps2[0] == m,
        ps2.last() == end,
        t == fold_joins(join_onto(first, e), es2),
        spec_join_element(toks, end) is Backtrack,
    ensures
        pos < end,
        join_spine(toks, pos, end, t, first, seq![n] + ps2, seq![e] + es2),
{
    let ps = seq![n] + ps2;
    let es = seq![e] + es2;
    lemma_join_chain_cons(toks, n, e, ps2, es2);
    assert(es.drop_first() =~= es2);
    assert(t == fold_joins(first, es));
    lemma_fold_joins_spine(first, es);
    assert forall|i: int| 0 <= i < es.len() implies #[trigger] has_join_keyword(
        toks,
        ps[i],
        es[i],
    ) by {
        lemma_join_element_keyword(toks, ps[i]);
    }
    lemma_chain_increasing(toks, ps, es, ps.len() - 1);
}

proof fn lemma_chain_increasing(
    toks: Seq<Token>,
    ps: Seq<int>,
    es: Seq<(JoinOperator, SpecJoinCondition, SpecTableReference)>,
    i: int,
)
    requires
        join_chain(toks, ps, es),
        0 <= i < ps.len(),
    ensures
        ps[0] <= ps[i],
        i > 0 ==> ps[0] < ps[i],
    decreases i,
{
    if i > 0 {
        lemma_chain_increasing(toks, ps, es, i - 1);
        assert(spec_join_element(toks, ps[i - 1]) == Outcome::Parsed(ps[i], es[i - 1]));
    }
}


// ---------------------------------------------------------------------------
// The clauses of a `SELECT`
// ---------------------------------------------------------------------------
/// `items` are the select targets of the comma separated list from `pos` to `end`, one per
/// target, in order.
pub open spec fn target_chain(toks: Seq<Token>, pos: int, items: Seq<SpecSelectTarget>, end: int) -> bool
    decreases items.len(),
{
    items.len() >= 1 && match spec_select_target(toks, pos) {
        Outcome::Parsed(n, t) => t == items[0] && if items.len() == 1 {
            end == n
        } else {
            kind_at(toks, n, TokenKind::Comma) && target_chain(toks, n + 1, items.drop_first(), end)
        },
        _ => false,
    }
}

/// The table reference parsed at `pos`.
#[verifier::opaque]
pub open spec fn table_ref_item(toks: Seq<Token>, pos: int) -> Outcome<SpecTableReference> {
    spec_table_reference(toks, pos)
}

/// `items` are the table references of the comma separated list from `pos` to `end`, one per
/// table reference, in order.
pub open spec fn table_ref_chain(
    toks: Seq<Token>,
    pos: int,
    items: Seq<SpecTableReference>,
    end: int,
) -> bool
    decreases items.len(),
{
    items.len() >= 1 && match table_ref_item(toks, pos) {
        Outcome::Parsed(n, t) => t == items[0] && if items.len() == 1 {
            end == n
        } else {
            kind_at(toks, n, TokenKind::Comma) && table_ref_chain(
                toks,
                n + 1,
                items.drop_first(),
                end,
            )
        },
        _ => false,
    }
}

/// The clauses of the `SELECT` statement `s` that stand at `p1` (the select list), `p2`
/// (`FROM`), `p3` (`WHERE`), `p4` (`GROUP BY`) and `p5` (`HAVING`), up to `end`: each field
/// holds what its clause parsed, one item per comma separated item of a list, and is empty
/// where its clause is absent.
pub open spec fn select_parts(
    toks: Seq<Token>,
    s: SpecSelectStmt,
    p1: int,
    p2: int,
    p3: int,
    p4: int,
    p5: int,
    end: int,
) -> bool {
    &&& target_chain(toks, p1, s.select_list, p2)
    &&& (s.from.len() > 0) == kind_at(toks, p2, TokenKind::FROM)
    &&& if kind_at(toks, p2, TokenKind::FROM) {
        table_ref_chain(toks, p2 + 1, s.from, p3)
    } else {
        p3 == p2
    }
    &&& (s.selection is Some) == kind_at(toks, p3, TokenKind::WHERE)
    &&& if kind_at(toks, p3, TokenKind::WHERE) {
        spec_expr(toks, p3 + 1) == Outcome::Parsed(p4, s.selection->0)
    } else {
        p4 == p3
    }
    &&& (s.group_by.len() > 0) == kind_at(toks, p4, TokenKind::GROUP)
    &&& if kind_at(toks, p4, TokenKind::GROUP) {
        kind_at(toks, p4 + 1, TokenKind::BY) && spec_expr_list1(toks, p4 + 2) == Outcome::Parsed(
            p5,
            s.group_by,
        ) && crate::query_laws::expr_chain(toks, p4 + 2, s.group_by, p5)
    } else {
        p5 == p4
    }
    &&& (s.having is Some) == kind_at(toks, p5, TokenKind::HAVING)
    &&& if kind_at(toks, p5, TokenKind::HAVING) {
        spec_expr(toks, p5 + 1) == Outcome::Parsed(end, s.having->0)
    } else {
        end == p5
    }
}

/// The `SELECT` statement `s` parsed from `pos` to `end`: `DISTINCT` directly after `SELECT`
/// sets its flag, and its clauses are as [`select_parts`] says.
pub open spec fn select_clauses(toks: Seq<Token>, pos: int, end: int, s: SpecSelectStmt) -> bool {
    &&& kind_at(toks, pos, TokenKind::SELECT)
    &&& s.distinct == kind_at(toks, pos + 1, TokenKind::DISTINCT)
    &&& s.select_list.len() >= 1
    &&& exists|p2: int, p3: int, p4: int, p5: int| #[trigger]
        select_parts(toks, s, select_list_start(toks, pos), p2, p3, p4, p5, end)
}

/// Where the select list of a `SELECT` at `pos` starts: after `SELECT` and `DISTINCT`, if any.
pub open spec fn select_list_start(toks: Seq<Token>, pos: int) -> int {
    if kind_at(toks, pos + 1, TokenKind::DISTINCT) {
        pos + 2
    } else {
        pos + 1
    }
}

proof fn lemma_target_rest_chain(toks: Seq<Token>, pos: int, acc: Seq<SpecSelectTarget>)
    ensures
        spec_target_list_rest(toks, pos, acc) matches Outcome::Parsed(end, items) ==> {
            ||| items == acc && end == pos
            ||| {
                &&& acc.len() < items.len()
                &&& items.take(acc.len() as int) == acc
                &&& kind_at(toks, pos, TokenKind::Comma)
                &&& target_chain(toks, pos + 1, items.skip(acc.len() as int), end)
            }
        },
    decreases remaining(toks, pos),
{
    if kind_at(toks, pos, TokenKind::Comma) {
        if let Outcome::Parsed(n, t) = spec_select_target(toks, pos + 1) {
            if 0 <= pos < n <= toks.len() {
                lemma_target_rest_chain(toks, n, acc.push(t));
                if let Outcome::Parsed(end, items) = spec_target_list_rest(toks, pos, acc) {
                    let k = acc.len() as int;
                    if items == acc.push(t) && end == n {
                        assert(items.skip(k) =~= seq![t]);
                        assert(items.take(k) =~= acc);
                    } else {
                        assert(items.take(k + 1) == acc.push(t));
                        assert(items.take(k) =~= acc.push(t).take(k));
                        assert(acc.push(t).take(k) =~= acc);
                        assert(items[k] == acc.push(t)[k]);
                        assert(items.skip(k).drop_first() =~= items.skip(k + 1));
                        assert(items.skip(k)[0] == t);
                    }
                }
            }
        }
    }
}

proof fn lemma_table_ref_chain_step(
    toks: Seq<Token>,
    pos: int,
    n: int,
    t: SpecTableReference,
    acc: Seq<SpecTableReference>,
    end: int,
    items: Seq<SpecTableReference>,
)
    requires
        kind_at(toks, pos, TokenKind::Comma),
        table_ref_item(toks, pos + 1) == Outcome::Parsed(n, t),
        ({
            ||| items == acc.push(t) && end == n
            ||| {
                &&& acc.len() + 1 < items.len()
                &&& items.take(acc.len() + 1 as int) == acc.push(t)
                &&& kind_at(toks, n, TokenKind::Comma)
                &&& table_ref_chain(toks, n + 1, items.skip(acc.len() + 1 as int), end)
            }
        }),
    ensures
        acc.len() < items.len(),
        items.take(acc.len() as int) == acc,
        table_ref_chain(toks, pos + 1, items.skip(acc.len() as int), end),
{
    let k = acc.len() as int;
    if items == acc.push(t) && end == n {
        assert(items.skip(k) =~= seq![t]);
        assert(items.take(k) =~= acc);
    } else {
        assert(items.take(k) =~= acc.push(t).take(k));
        assert(acc.push(t).take(k) =~= acc);
        assert(items[k] == items.take(k + 1)[k]);
        assert(items.skip(k).drop_first() =~= items.skip(k + 1));
        assert(items.skip(k)[0] == t);
    }
}

proof fn lemma_table_ref_rest_chain(toks: Seq<Token>, pos: int, acc: Seq<SpecTableReference>)
    ensures
        spec_table_ref_list_rest(toks, pos, acc) matches Outcome::Parsed(end, items) ==> {
            ||| items == acc && end == pos
            ||| {
                &&& acc.len() < items.len()
                &&& items.take(acc.len() as int) == acc
                &&& kind_at(toks, pos, TokenKind::Comma)
                &&& table_ref_chain(toks, pos + 1, items.skip(acc.len() as int), end)
            }
        },
    decreases remaining(toks, pos),
{
    if kind_at(toks, pos, TokenKind::Comma) {
        if let Outcome::Parsed(n, t) = spec_table_reference(toks, pos + 1) {
            if 0 <= pos < n <= toks.len() {
                lemma_table_ref_rest_chain(toks, n, acc.push(t));
                if let Outcome::Parsed(end, items) = spec_table_ref_list_rest(toks, pos, acc) {
                    assert(table_ref_item(toks, pos + 1) == Outcome::Parsed(n, t)) by {
                        reveal(table_ref_item);
                    }
                    lemma_table_ref_chain_step(toks, pos, n, t, acc, end, items);
                }
            }
        }
    }
}

proof fn lemma_expr_rest_len(toks: Seq<Token>, pos: int, acc: Seq<SpecExpr>)
    ensures
        spec_expr_list_rest(toks, pos, acc) matches Outcome::Parsed(_, items) ==> items.len()
            >= acc.len(),
    decreases remaining(toks, pos),
{
    if kind_at(toks, pos, TokenKind::Comma) {
        if let Outcome::Parsed(n, e) = crate::expr::spec_expr_at(toks, pos + 1, 0) {
            if 0 <= pos < n <= toks.len() {
                lemma_expr_rest_len(toks, n, acc.push(e));
            }
        }
    }
}

proof fn lemma_target_list_chain(toks: Seq<Token>, pos: int)
    ensures
        spec_target_list1(toks, pos) matches Outcome::Parsed(end, items) ==> target_chain(
            toks,
            pos,
            items,
            end,
        ),
{
    if let Outcome::Parsed(n, t) = spec_select_target(toks, pos) {
        lemma_target_rest_chain(toks, n, seq![t]);
        if let Outcome::Parsed(end, items) = spec_target_list1(toks, pos) {
            if items.len() > 1 {
                assert(items.take(1) == seq![t]);
                assert(items[0] == items.take(1)[0]);
                assert(items.drop_first() =~= items.skip(1));
            }
        }
    }
}

proof fn lemma_table_ref_list_chain(toks: Seq<Token>, pos: int)
    ensures
        spec_table_ref_list1(toks, pos) matches Outcome::Parsed(end, items) ==> table_ref_chain(
            toks,
            pos,
            items,
            end,
        ),
{
    if let Outcome::Parsed(n, t) = spec_table_reference(toks, pos) {
        if 0 <= pos < n <= toks.len() {
            lemma_table_ref_rest_chain(toks, n, seq![t]);
            assert(table_ref_item(toks, pos) == Outcome::Parsed(n, t)) by {
                reveal(table_ref_item);
            }
            if let Outcome::Parsed(end, items) = spec_table_ref_list1(toks, pos) {
                if items.len() > 1 {
                    assert(items.take(1) == seq![t]);
                    assert(items[0] == items.take(1)[0]);
                    assert(items.drop_first() =~= items.skip(1));
                }
            }
        }
    }
}

/// The fields of a parsed `SELECT` statement are the clauses it was parsed from: `distinct` is
/// set exactly where `DISTINCT` directly follows `SELECT`; the select list holds one target per
/// comma separated target, at least one; `from` holds one table reference per comma separated
/// table reference of a `FROM` clause and is empty without one; `selection`, `group_by` and
/// `having` hold what `WHERE`, `GROUP BY` and `HAVING` parsed and are empty without them. A set
/// expression that is a single `SELECT` is the statement parsed where it starts.
pub proof fn law_select_clauses(toks: Seq<Token>, pos: int)
    ensures
        spec_select(toks, pos) matches Outcome::Parsed(end, s) ==> select_clauses(toks, pos, end, s),
        spec_set_expr(toks, pos) matches Outcome::Parsed(_, SpecSetExpr::Select(s)) ==> (
        spec_select(toks, pos) matches Outcome::Parsed(end, s2) && s2 == *s && select_clauses(
            toks,
            pos,
            end,
            s2,
        )),
{
    lemma_select_clauses(toks, pos);
}

proof fn lemma_select_clauses(toks: Seq<Token>, pos: int)
    ensures
        spec_select(toks, pos) matches Outcome::Parsed(end, s) ==> select_clauses(toks, pos, end, s),
{
    if let Outcome::Parsed(end, s) = spec_select(toks, pos) {
        let p1 = select_list_start(toks, pos);
        let p2 = match spec_target_list1(toks, p1) {
            Outcome::Parsed(p2, _) => p2,
            _ => arbitrary(),
        };
        let p3 = match spec_from_block(toks, p2) {
            Outcome::Parsed(p3, _) => p3,
            _ => arbitrary(),
        };
        let p4 = match spec_keyword_expr(toks, p3, TokenKind::WHERE) {
            Outcome::Parsed(p4, _) => p4,
            _ => arbitrary(),
        };
        let p5 = match spec_group_block(toks, p4) {
            Outcome::Parsed(p5, _) => p5,
            _ => arbitrary(),
        };
        assert(spec_target_list1(toks, p1) == Outcome::Parsed(p2, s.select_list));
        assert(spec_from_block(toks, p2) == Outcome::Parsed(p3, s.from));
        assert(spec_keyword_expr(toks, p3, TokenKind::WHERE) == Outcome::Parsed(p4, s.selection));
        assert(spec_group_block(toks, p4) == Outcome::Parsed(p5, s.group_by));
        assert(spec_keyword_expr(toks, p5, TokenKind::HAVING) == Outcome::Parsed(end, s.having));
        lemma_clauses_of_parts(toks, pos, end, s, p1, p2, p3, p4, p5);
    }
}

proof fn lemma_clauses_of_parts(
    toks: Seq<Token>,
    pos: int,
    end: int,
    s: SpecSelectStmt,
    p1: int,
    p2: int,
    p3: int,
    p4: int,
    p5: int,
)
    requires
        kind_at(toks, pos, TokenKind::SELECT),
        s.distinct == kind_at(toks, pos + 1, TokenKind::DISTINCT),
        p1 == select_list_start(toks, pos),
        spec_target_list1(toks, p1) == Outcome::Parsed(p2, s.select_list),
        spec_from_block(toks, p2) == Outcome::Parsed(p3, s.from),
        spec_keyword_expr(toks, p3, TokenKind::WHERE) == Outcome::Parsed(p4, s.selection),
        spec_group_block(toks, p4) == Outcome::Parsed(p5, s.group_by),
        spec_keyword_expr(toks, p5, TokenKind::HAVING) == Outcome::Parsed(end, s.having),
    ensures
        select_clauses(toks, pos, end, s),
{
    lemma_select_parts(toks, s, p1, p2, p3, p4, p5, end);
}

proof fn lemma_select_parts(
    toks: Seq<Token>,
    s: SpecSelectStmt,
    p1: int,
    p2: int,
    p3: int,
    p4: int,
    p5: int,
    end: int,
)
    requires
        spec_target_list1(toks, p1) == Outcome::Parsed(p2, s.select_list),
        spec_from_block(toks, p2) == Outcome::Parsed(p3, s.from),
        spec_keyword_expr(toks, p3, TokenKind::WHERE) == Outcome::Parsed(p4, s.selection),
        spec_group_block(toks, p4) == Outcome::Parsed(p5, s.group_by),
        spec_keyword_expr(toks, p5, TokenKind::HAVING) == Outcome::Parsed(end, s.having),
    ensures
        select_parts(toks, s, p1, p2, p3, p4, p5, end),
        s.select_list.len() >= 1,
{
    lemma_target_list_chain(toks, p1);
    lemma_from_part(toks, p2, p3, s.from);
    crate::query_laws::lemma_expr_list_chain(toks, p4 + 2);
    if kind_at(toks, p4, TokenKind::GROUP) {
        if let Outcome::Parsed(n, e) = crate::expr::spec_expr_at(toks, p4 + 2, 0) {
            lemma_expr_rest_len(toks, n, seq![e]);
        }
    }
}

proof fn lemma_from_part(toks: Seq<Token>, p2: int, p3: int, from: Seq<SpecTableReference>)
    requires
        spec_from_block(toks, p2) == Outcome::Parsed(p3, from),
    ensures
        (from.len() > 0) == kind_at(toks, p2, TokenKind::FROM),
        if kind_at(toks, p2, TokenKind::FROM) {
            table_ref_chain(toks, p2 + 1, from, p3)
        } else {
            p3 == p2
        },
{
    lemma_table_ref_list_chain(toks, p2 + 1);
}

} // verus!
