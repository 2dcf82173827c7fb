use vstd::prelude::*;

use crate::ast::{
    BinaryOperator, Literal, UnaryOperator, Identifier, Indirection, JoinOperator, SpecSelectTarget, SpecTableAlias, SpecTableReference,
    TimeTravelPoint, SetOperator, SpecExpr, SpecJoinCondition, SpecOrderByExpr, SpecQuery,
    SpecSetExpr,
};
use crate::expr::{
    binop_at, binop_of, spec_column_ref, spec_expr, spec_expr_at, spec_expr_list0, spec_expr_list1,
    spec_expr_list_rest, spec_expr_rest, spec_function_call, spec_paren_expr, spec_primary,
};
use crate::query::{
    spec_table_reference, opt_table_alias, spec_alias_name, spec_aliased_table, spec_parenthesized_joined_tables,
    spec_joined_tables, spec_parenthesized_query, spec_projection, spec_qualified_wildcard,
    spec_select_target, spec_subquery, spec_table_alias, spec_table_function, spec_travel_point,
    id_at, spec_ident_list1, spec_ident_list_rest, spec_join_condition, join_keyword_at, lemma_join_keyword_from, lemma_operator_words, opt_join_operator,
    spec_join_element, spec_table_ref_without_join, spec_join_operator,
    spec_keyword_expr, spec_limit_block, spec_order_block, spec_order_by_expr,
    spec_order_by_list1, spec_order_by_list_rest, spec_query, spec_select, spec_set_expr,
};
use crate::token::{kind_at, remaining, Token, TokenKind};
use crate::util::Outcome;

verus! {

// ---------------------------------------------------------------------------
// Set operations
// ---------------------------------------------------------------------------
/// The set operator that the token at `p` names, if it names one.
pub open spec fn set_operator_at(toks: Seq<Token>, p: int) -> Option<SetOperator> {
    if kind_at(toks, p, TokenKind::UNION) {
        Some(SetOperator::Union)
    } else if kind_at(toks, p, TokenKind::EXCEPT) {
        Some(SetOperator::Except)
    } else if kind_at(toks, p, TokenKind::INTERSECT) {
        Some(SetOperator::Intersect)
    } else {
        None
    }
}

/// A set expression parsed at `pos` starts with the `SELECT` statement parsed there. Where a
/// set operator follows that statement, the result is a set operation: its operator is the one
/// the token names, `all` tells whether `ALL` follows the operator, its left operand is that
/// first statement and its right operand is the set expression parsed after the operator and
/// `ALL`, ending where the whole ends. Where no set operator follows, the result is that first
/// statement.
pub proof fn law_set_operation_operands(toks: Seq<Token>, pos: int)
    ensures
        spec_set_expr(toks, pos) matches Outcome::Parsed(n, e) ==> (spec_select(
            toks,
            pos,
        ) matches Outcome::Parsed(p1, s) && {
            let op = set_operator_at(toks, p1);
            let p2 = if op is Some {
                p1 + 1
            } else {
                p1
            };
            let all = kind_at(toks, p2, TokenKind::ALL);
            let p3 = if all {
                p2 + 1
            } else {
                p2
            };
            match e {
                SpecSetExpr::SetOperation { op: o, all: a, left, right } => {
                    &&& op == Some(o)
                    &&& a == all
                    &&& *left == SpecSetExpr::Select(Box::new(s))
                    &&& spec_set_expr(toks, p3) == Outcome::Parsed(n, *right)
                },
                SpecSetExpr::Select(s2) => op is None && *s2 == s,
            }
        }),
{
}

// ---------------------------------------------------------------------------
// Join operators and join elements
// ---------------------------------------------------------------------------
/// A join operator is one of the words `INNER`, `LEFT`, `RIGHT`, `FULL`, `CROSS`, and names
/// the join that word names; `LEFT`, `RIGHT` and `FULL` take an `OUTER` that follows them
/// along, and the operator ends after its word and that `OUTER`.
pub proof fn law_join_operator(toks: Seq<Token>, pos: int)
    ensures
        (spec_join_operator(toks, pos) is Parsed) == (kind_at(toks, pos, TokenKind::INNER)
            || kind_at(toks, pos, TokenKind::LEFT) || kind_at(toks, pos, TokenKind::RIGHT)
            || kind_at(toks, pos, TokenKind::FULL) || kind_at(toks, pos, TokenKind::CROSS)),
        spec_join_operator(toks, pos) matches Outcome::Parsed(n, op) ==> {
            let outer_word = op is LeftOuter || op is RightOuter || op is FullOuter;
            &&& (op is Inner) == kind_at(toks, pos, TokenKind::INNER)
            &&& (op is LeftOuter) == kind_at(toks, pos, TokenKind::LEFT)
            &&& (op is RightOuter) == kind_at(toks, pos, TokenKind::RIGHT)
            &&& (op is FullOuter) == kind_at(toks, pos, TokenKind::FULL)
            &&& (op is CrossJoin) == kind_at(toks, pos, TokenKind::CROSS)
            &&& n == if outer_word && kind_at(toks, pos + 1, TokenKind::OUTER) {
                pos + 2
            } else {
                pos + 1
            }
        },
{
}

/// The join that the operator words from `w` up to the `JOIN` keyword at `j` name: an inner
/// join where there are none.
pub open spec fn named_join(toks: Seq<Token>, w: int, j: int) -> JoinOperator {
    if w == j {
        JoinOperator::Inner
    } else if kind_at(toks, w, TokenKind::LEFT) {
        JoinOperator::LeftOuter
    } else if kind_at(toks, w, TokenKind::RIGHT) {
        JoinOperator::RightOuter
    } else if kind_at(toks, w, TokenKind::FULL) {
        JoinOperator::FullOuter
    } else if kind_at(toks, w, TokenKind::CROSS) {
        JoinOperator::CrossJoin
    } else {
        JoinOperator::Inner
    }
}

/// A join element has the operator that the words before its `JOIN` keyword name (after
/// `NATURAL`, if it starts with it), `INNER` where there are none; its condition is `Natural`
/// exactly where it starts with `NATURAL`.
pub proof fn law_join_element_operator(toks: Seq<Token>, p: int)
    ensures
        spec_join_element(toks, p) matches Outcome::Parsed(_, e) ==> exists|j: int|
            #[trigger] join_keyword_at(toks, p, e, j) && e.0 == named_join(
                toks,
                if kind_at(toks, p, TokenKind::NATURAL) {
                    p + 1
                } else {
                    p
                },
                j,
            ) && (e.1 is Natural) == kind_at(toks, p, TokenKind::NATURAL),
{
    if let Outcome::Parsed(_, e) = spec_join_element(toks, p) {
        let w = if kind_at(toks, p, TokenKind::NATURAL) {
            p + 1
        } else {
            p
        };
        lemma_join_element_keyword_at(toks, p, w, opt_join_operator(toks, w).0);
    }
}

proof fn lemma_join_element_keyword_at(toks: Seq<Token>, p: int, w: int, j: int)
    requires
        spec_join_element(toks, p) is Parsed,
        w == if kind_at(toks, p, TokenKind::NATURAL) {
            p + 1
        } else {
            p
        },
        j == opt_join_operator(toks, w).0,
    ensures
        ({
            let e = spec_join_element(toks, p)->Parsed_1;
            join_keyword_at(toks, p, e, j) && e.0 == named_join(toks, w, j) && (e.1 is Natural)
                == kind_at(toks, p, TokenKind::NATURAL)
        }),
{
    let e = spec_join_element(toks, p)->Parsed_1;
    law_join_operator(toks, w);
    lemma_operator_words(toks, w);
    assert(kind_at(toks, j, TokenKind::JOIN));
    assert(spec_table_ref_without_join(toks, j + 1) matches Outcome::Parsed(_, r) && r == e.2);
    lemma_join_keyword_from(toks, p, j, e);
}


// ---------------------------------------------------------------------------
// Join conditions
// ---------------------------------------------------------------------------
/// `ids` are the identifiers that stand at `pos`, `pos + 2`, ..., with a comma between each
/// two.
pub open spec fn ident_run(toks: Seq<Token>, pos: int, ids: Seq<Identifier>) -> bool
    decreases ids.len(),
{
    &&& ids.len() >= 1
    &&& kind_at(toks, pos, TokenKind::Ident)
    &&& ids[0] == id_at(toks, pos)
    &&& (ids.len() == 1 || kind_at(toks, pos + 1, TokenKind::Comma) && ident_run(
        toks,
        pos + 2,
        ids.drop_first(),
    ))
}

proof fn lemma_ident_rest(toks: Seq<Token>, pos: int, acc: Seq<Identifier>)
    ensures
        spec_ident_list_rest(toks, pos, acc) matches Outcome::Parsed(n, ids) ==> {
            ||| ids == acc && n == pos
            ||| {
                &&& acc.len() < ids.len()
                &&& ids.take(acc.len() as int) == acc
                &&& kind_at(toks, pos, TokenKind::Comma)
                &&& ident_run(toks, pos + 1, ids.skip(acc.len() as int))
                &&& n == pos + 2 * (ids.len() - acc.len())
            }
        },
    decreases remaining(toks, pos),
{
    if kind_at(toks, pos, TokenKind::Comma) && kind_at(toks, pos + 1, TokenKind::Ident) {
        let t = id_at(toks, pos + 1);
        let a2 = acc.push(t);
        lemma_ident_rest(toks, pos + 2, a2);
        if let Outcome::Parsed(n, ids) = spec_ident_list_rest(toks, pos, acc) {
            let k = acc.len() as int;
            if ids == a2 && n == pos + 2 {
                assert(ids.skip(k) =~= seq![t]);
                assert(ids.take(k) =~= acc);
            } else {
                assert(ids.take(k) =~= a2.take(k));
                assert(a2.take(k) =~= acc);
                assert(ids[k] == ids.take(k + 1)[k]);
                assert(ids.skip(k).drop_first() =~= ids.skip(k + 1));
                assert(ids.skip(k)[0] == t);
            }
        }
    }
}

proof fn lemma_ident_list(toks: Seq<Token>, pos: int)
    ensures
        spec_ident_list1(toks, pos) matches Outcome::Parsed(n, ids) ==> ident_run(toks, pos, ids)
            && n == pos + 2 * ids.len() - 1,
{
    if kind_at(toks, pos, TokenKind::Ident) {
        let t = id_at(toks, pos);
        lemma_ident_rest(toks, pos + 1, seq![t]);
        if let Outcome::Parsed(n, ids) = spec_ident_list1(toks, pos) {
            if ids.len() > 1 {
                assert(ids.take(1) == seq![t]);
                assert(ids[0] == ids.take(1)[0]);
                assert(ids.drop_first() =~= ids.skip(1));
            }
        }
    }
}

/// A join condition is `ON` and the expression that follows it, or `USING` and the
/// parenthesized identifiers that follow it, one per comma separated identifier.
pub proof fn law_join_condition(toks: Seq<Token>, pos: int)
    ensures
        spec_join_condition(toks, pos) matches Outcome::Parsed(n, c) ==> match c {
            SpecJoinCondition::On(x) => kind_at(toks, pos, TokenKind::ON) && spec_expr(toks, pos + 1)
                == Outcome::Parsed(n, *x),
            SpecJoinCondition::Using(ids) => {
                &&& kind_at(toks, pos, TokenKind::USING)
                &&& kind_at(toks, pos + 1, TokenKind::LParen)
                &&& ident_run(toks, pos + 2, ids)
                &&& n == pos + 2 * ids.len() + 2
                &&& kind_at(toks, n - 1, TokenKind::RParen)
            },
            _ => false,
        },
{
    lemma_ident_list(toks, pos + 2);
}

/// A join element without `NATURAL` has the condition parsed after its right operand, or no
/// condition where none is parsed there.
pub proof fn law_join_element_condition(toks: Seq<Token>, p: int)
    ensures
        spec_join_element(toks, p) matches Outcome::Parsed(n, e) ==> (!kind_at(
            toks,
            p,
            TokenKind::NATURAL,
        ) ==> exists|j: int| #[trigger]
            join_keyword_at(toks, p, e, j) && (spec_table_ref_without_join(
                toks,
                j + 1,
            ) matches Outcome::Parsed(p2, _) && if spec_join_condition(toks, p2) is Parsed {
                spec_join_condition(toks, p2) == Outcome::Parsed(n, e.1)
            } else {
                e.1 is NoCondition && n == p2
            })),
{
    if let Outcome::Parsed(n, e) = spec_join_element(toks, p) {
        if !kind_at(toks, p, TokenKind::NATURAL) {
            let j = opt_join_operator(toks, p).0;
            lemma_join_element_keyword_at(toks, p, p, j);
            assert(kind_at(toks, j, TokenKind::JOIN));
        }
    }
}


// ---------------------------------------------------------------------------
// Names, aliases and table references
// ---------------------------------------------------------------------------
/// An alias name is an identifier, or `AS` and the identifier after it; a table alias is that
/// name with no column names.
pub proof fn law_alias_name(toks: Seq<Token>, pos: int)
    ensures
        (spec_alias_name(toks, pos) is Parsed) == (kind_at(toks, pos, TokenKind::Ident) || (
        kind_at(toks, pos, TokenKind::AS) && kind_at(toks, pos + 1, TokenKind::Ident))),
        spec_alias_name(toks, pos) matches Outcome::Parsed(n, name) ==> if kind_at(
            toks,
            pos,
            TokenKind::Ident,
        ) {
            n == pos + 1 && name == id_at(toks, pos)
        } else {
            n == pos + 2 && name == id_at(toks, pos + 1)
        },
        spec_table_alias(toks, pos) matches Outcome::Parsed(n, a) ==> a.columns.len() == 0
            && spec_alias_name(toks, pos) == Outcome::Parsed(n, a.name),
        (spec_table_alias(toks, pos) is Parsed) == (spec_alias_name(toks, pos) is Parsed),
        opt_table_alias(toks, pos) == match spec_table_alias(toks, pos) {
            Outcome::Parsed(n, a) => (n, Some(a)),
            _ => (pos, None::<SpecTableAlias>),
        },
{
}

/// A time travel point is `AT ( SNAPSHOT => 'literal' )`, and names the snapshot the literal
/// holds.
pub proof fn law_travel_point(toks: Seq<Token>, pos: int)
    ensures
        (spec_travel_point(toks, pos) is Parsed) == (kind_at(toks, pos, TokenKind::AT) && kind_at(
            toks,
            pos + 1,
            TokenKind::LParen,
        ) && kind_at(toks, pos + 2, TokenKind::SNAPSHOT) && kind_at(toks, pos + 3, TokenKind::RArrow)
            && kind_at(toks, pos + 4, TokenKind::LiteralString) && kind_at(
            toks,
            pos + 5,
            TokenKind::RParen,
        )),
        spec_travel_point(toks, pos) matches Outcome::Parsed(n, tp) ==> n == pos + 6 && tp
            == TimeTravelPoint::Snapshot(toks[pos + 4].text),
{
}

/// The number of names, separated by periods, that start at `pos`: one, two or three.
pub open spec fn dotted_names(toks: Seq<Token>, pos: int) -> int {
    if kind_at(toks, pos + 1, TokenKind::Period) && kind_at(toks, pos + 2, TokenKind::Ident) {
        if kind_at(toks, pos + 3, TokenKind::Period) && kind_at(toks, pos + 4, TokenKind::Ident) {
            3
        } else {
            2
        }
    } else {
        1
    }
}

/// A table named by one, two or three names separated by periods: the last is the table, the
/// one before it the database, the first of three the catalog. A time travel point and an alias
/// may follow, in that order.
pub proof fn law_aliased_table(toks: Seq<Token>, pos: int)
    ensures
        (spec_aliased_table(toks, pos) is Parsed) == kind_at(toks, pos, TokenKind::Ident),
        spec_aliased_table(toks, pos) matches Outcome::Parsed(n, t) ==> {
            let k = dotted_names(toks, pos);
            let q = pos + 2 * k - 1;
            let q2 = match spec_travel_point(toks, q) {
                Outcome::Parsed(m, _) => m,
                _ => q,
            };
            t matches SpecTableReference::Table { catalog, database, table, alias, travel_point }
                && {
                &&& table == id_at(toks, q - 1)
                &&& database == if k >= 2 {
                    Some(id_at(toks, q - 3))
                } else {
                    None
                }
                &&& catalog == if k == 3 {
                    Some(id_at(toks, pos))
                } else {
                    None
                }
                &&& travel_point == match spec_travel_point(toks, q) {
                    Outcome::Parsed(_, tp) => Some(tp),
                    _ => None,
                }
                &&& (n, alias) == opt_table_alias(toks, q2)
            }
        },
{
}

/// A table function is a name and the comma separated expressions in parentheses after it,
/// one parameter per expression, with an alias that may follow.
pub proof fn law_table_function(toks: Seq<Token>, pos: int)
    ensures
        spec_table_function(toks, pos) matches Outcome::Parsed(n, t) ==> t matches SpecTableReference::TableFunction {
            name,
            params,
            alias,
        } && {
            &&& kind_at(toks, pos, TokenKind::Ident)
            &&& kind_at(toks, pos + 1, TokenKind::LParen)
            &&& name == id_at(toks, pos)
            &&& exists|m: int| #[trigger]
                kind_at(toks, m, TokenKind::RParen) && (n, alias) == opt_table_alias(toks, m + 1)
                    && if params.len() == 0 {
                    m == pos + 2
                } else {
                    expr_chain(toks, pos + 2, params, m)
                }
        },
{
    if let Outcome::Parsed(n, t) = spec_table_function(toks, pos) {
        lemma_expr_list0_chain(toks, pos + 2);
        let m = spec_expr_list0(toks, pos + 2)->Parsed_0;
        assert(kind_at(toks, m, TokenKind::RParen));
    }
}

proof fn lemma_expr_list0_chain(toks: Seq<Token>, pos: int)
    ensures
        spec_expr_list0(toks, pos) matches Outcome::Parsed(end, items) ==> if items.len() == 0 {
            end == pos
        } else {
            expr_chain(toks, pos, items, end)
        },
{
    if let Outcome::Parsed(n, t) = spec_expr_at(toks, pos, 0) {
        if 0 <= pos < n <= toks.len() {
            lemma_expr_rest_chain(toks, n, seq![t]);
            if let Outcome::Parsed(end, items) = spec_expr_list0(toks, pos) {
                if items.len() > 1 {
                    assert(items.take(1) == seq![t]);
                    assert(items[0] == items.take(1)[0]);
                    assert(items.drop_first() =~= items.skip(1));
                }
            }
        }
    }
}

/// A subquery is a query, in parentheses or not, with an alias that may follow; a query in
/// parentheses is the query inside them; tables joined in parentheses are the join inside them.
pub proof fn law_parenthesized(toks: Seq<Token>, pos: int)
    ensures
        spec_subquery(toks, pos) matches Outcome::Parsed(n, t) ==> t matches SpecTableReference::Subquery {
            subquery,
            alias,
        } && exists|m: int| #[trigger]
            opt_table_alias(toks, m) == (n, alias) && (spec_parenthesized_query(toks, pos)
                == Outcome::Parsed(m, *subquery) || spec_query(toks, pos) == Outcome::Parsed(
                m,
                *subquery,
            )),
        spec_parenthesized_query(toks, pos) matches Outcome::Parsed(n, q) ==> {
            &&& kind_at(toks, pos, TokenKind::LParen)
            &&& kind_at(toks, n - 1, TokenKind::RParen)
            &&& (spec_parenthesized_query(toks, pos + 1) == Outcome::Parsed(n - 1, q)
                || spec_query(toks, pos + 1) == Outcome::Parsed(n - 1, q))
        },
        spec_parenthesized_joined_tables(toks, pos) matches Outcome::Parsed(n, t) ==> {
            &&& kind_at(toks, pos, TokenKind::LParen)
            &&& kind_at(toks, n - 1, TokenKind::RParen)
            &&& (spec_parenthesized_joined_tables(toks, pos + 1) == Outcome::Parsed(n - 1, t)
                || spec_joined_tables(toks, pos + 1) == Outcome::Parsed(n - 1, t))
        },
{
    if let Outcome::Parsed(n, t) = spec_subquery(toks, pos) {
        let m = crate::util::or_else(spec_parenthesized_query(toks, pos), spec_query(toks, pos))->Parsed_0;
        assert(opt_table_alias(toks, m).0 == n);
    }
}


/// A table reference is, of joined tables, tables joined in parentheses, a subquery, a table
/// function and a named table, the first that does not fail recoverably where it starts; the
/// same order, without joined tables, gives the operand of a join.
pub proof fn law_table_reference_order(toks: Seq<Token>, pos: int)
    ensures
        ({
            let a = spec_parenthesized_joined_tables(toks, pos);
            let b = spec_subquery(toks, pos);
            let c = spec_table_function(toks, pos);
            let d = spec_aliased_table(toks, pos);
            let first = if !(a is Backtrack) {
                a
            } else if !(b is Backtrack) {
                b
            } else if !(c is Backtrack) {
                c
            } else {
                d
            };
            &&& spec_table_ref_without_join(toks, pos) == first
            &&& spec_table_reference(toks, pos) == if !(spec_joined_tables(toks, pos) is Backtrack) {
                spec_joined_tables(toks, pos)
            } else {
                first
            }
        }),
{
}

// ---------------------------------------------------------------------------
// Select targets and ORDER BY items
// ---------------------------------------------------------------------------
/// A select target is a wildcard `*`, qualified by one or two names followed by periods, or an
/// expression with an alias that may follow; the wildcard is taken where one stands.
pub proof fn law_select_target(toks: Seq<Token>, pos: int)
    ensures
        spec_select_target(toks, pos) matches Outcome::Parsed(n, t) ==> match t {
            SpecSelectTarget::QualifiedName(parts) => {
                &&& kind_at(toks, n - 1, TokenKind::Multiply)
                &&& parts.len() == (n - pos + 1) / 2
                &&& parts.last() == Indirection::Star
                &&& forall|i: int|
                    0 <= i < parts.len() - 1 ==> kind_at(toks, pos + 2 * i, TokenKind::Ident)
                        && kind_at(toks, pos + 2 * i + 1, TokenKind::Period) && #[trigger] parts[i]
                        == Indirection::Identifier(id_at(toks, pos + 2 * i))
                &&& 1 <= parts.len() <= 3
            },
            SpecSelectTarget::AliasedExpr { expr, alias } => {
                &&& spec_qualified_wildcard(toks, pos) is Backtrack
                &&& spec_expr(toks, pos) matches Outcome::Parsed(m, x) && x == *expr && match alias {
                    Some(a) => spec_alias_name(toks, m) == Outcome::Parsed(n, a),
                    None => !(spec_alias_name(toks, m) is Parsed) && n == m,
                }
            },
        },
{
    if let Outcome::Parsed(n, t) = spec_select_target(toks, pos) {
        if let SpecSelectTarget::QualifiedName(parts) = t {
            assert forall|i: int| 0 <= i < parts.len() - 1 implies kind_at(
                toks,
                pos + 2 * i,
                TokenKind::Ident,
            ) && kind_at(toks, pos + 2 * i + 1, TokenKind::Period) && #[trigger] parts[i]
                == Indirection::Identifier(id_at(toks, pos + 2 * i)) by {
                if i == 1 {
                    assert(pos + 2 * i == pos + 2);
                }
            }
        }
    }
}

/// An `ORDER BY` item is an expression and the direction that may follow it: `ASC` ascending,
/// `DESC` descending, none where neither follows.
pub proof fn law_order_by_expr(toks: Seq<Token>, pos: int)
    ensures
        spec_order_by_expr(toks, pos) matches Outcome::Parsed(n, o) ==> spec_expr(
            toks,
            pos,
        ) matches Outcome::Parsed(m, x) && {
            &&& x == o.expr
            &&& o.nulls_first is None
            &&& (o.asc == Some(true)) == kind_at(toks, m, TokenKind::ASC)
            &&& (o.asc == Some(false)) == kind_at(toks, m, TokenKind::DESC)
            &&& n == if o.asc is Some {
                m + 1
            } else {
                m
            }
        },
        (spec_order_by_expr(toks, pos) is Parsed) == (spec_expr(toks, pos) is Parsed),
{
}


// ---------------------------------------------------------------------------
// Expressions
// ---------------------------------------------------------------------------
/// The token kind that writes the binary operator `op`.
pub open spec fn operator_token(op: BinaryOperator) -> TokenKind {
    match op {
        BinaryOperator::Or => TokenKind::OR,
        BinaryOperator::And => TokenKind::AND,
        BinaryOperator::Eq => TokenKind::Eq,
        BinaryOperator::NotEq => TokenKind::NotEq,
        BinaryOperator::Lt => TokenKind::Lt,
        BinaryOperator::Lte => TokenKind::Lte,
        BinaryOperator::Gt => TokenKind::Gt,
        BinaryOperator::Gte => TokenKind::Gte,
        BinaryOperator::Plus => TokenKind::Plus,
        BinaryOperator::Minus => TokenKind::Minus,
        BinaryOperator::Multiply => TokenKind::Multiply,
        BinaryOperator::Divide => TokenKind::Divide,
        BinaryOperator::Modulo => TokenKind::Modulo,
    }
}

/// The precedence level of the binary operator `op`, loosest first: `OR`, `AND`, the
/// comparisons, `+ -`, `* / %`.
pub open spec fn operator_level(op: BinaryOperator) -> int {
    match op {
        BinaryOperator::Or => 0,
        BinaryOperator::And => 1,
        BinaryOperator::Plus | BinaryOperator::Minus => 4,
        BinaryOperator::Multiply | BinaryOperator::Divide | BinaryOperator::Modulo => 5,
        _ => 3,
    }
}

/// A token names a binary operator at a level exactly where it writes that operator and the
/// operator has that level.
pub proof fn law_binary_operators(k: TokenKind, lvl: int, op: BinaryOperator)
    ensures
        (binop_of(k, lvl) == Some(op)) == (operator_token(op) == k && operator_level(op) == lvl),
{
}

/// The tree made by applying the operators and right operands `items`, in order, to `acc`:
/// operators of one level associate to the left.
pub open spec fn fold_binary(acc: SpecExpr, items: Seq<(BinaryOperator, SpecExpr)>) -> SpecExpr
    decreases items.len(),
{
    if items.len() == 0 {
        acc
    } else {
        fold_binary(
            SpecExpr::BinaryOp {
                op: items[0].0,
                left: Box::new(acc),
                right: Box::new(items[0].1),
            },
            items.drop_first(),
        )
    }
}

/// The operators of level `lvl` at `ps[i]`, each followed by its right operand, parsed at the
/// next tighter level up to `ps[i + 1]`.
pub open spec fn operand_chain(
    toks: Seq<Token>,
    lvl: int,
    ps: Seq<int>,
    items: Seq<(BinaryOperator, SpecExpr)>,
) -> bool {
    &&& ps.len() == items.len() + 1
    &&& forall|i: int|
        0 <= i < items.len() ==> #[trigger] binop_at(toks, ps[i], lvl) == Some(items[i].0)
            && spec_expr_at(toks, ps[i] + 1, lvl + 1) == Outcome::Parsed(ps[i + 1], items[i].1)
            && ps[i] < ps[i + 1]
}

/// Where the operators of level `lvl` stop at `n`: no operator of that level stands there, or
/// no operand follows it.
pub open spec fn operators_end(toks: Seq<Token>, lvl: int, n: int) -> bool {
    binop_at(toks, n, lvl) is None || spec_expr_at(toks, n + 1, lvl + 1) is Backtrack
}

proof fn lemma_operand_chain(toks: Seq<Token>, pos: int, lvl: int, acc: SpecExpr)
    ensures
        spec_expr_rest(toks, pos, lvl, acc) matches Outcome::Parsed(n, e) ==> exists|
            ps: Seq<int>,
            items: Seq<(BinaryOperator, SpecExpr)>,
        |
            {
                &&& #[trigger] operand_chain(toks, lvl, ps, items)
                &&& ps[0] == pos
                &&& ps.last() == n
                &&& e == fold_binary(acc, items)
                &&& operators_end(toks, lvl, n)
            },
    decreases remaining(toks, pos),
{
    if let Some(op) = binop_at(toks, pos, lvl) {
        if let Outcome::Parsed(n, right) = spec_expr_at(toks, pos + 1, lvl + 1) {
            if 0 <= pos < n <= toks.len() {
                let acc2 = SpecExpr::BinaryOp { op, left: Box::new(acc), right: Box::new(right) };
                lemma_operand_chain(toks, n, lvl, acc2);
                if let Outcome::Parsed(end, e) = spec_expr_rest(toks, pos, lvl, acc) {
                    let (ps2, items2) = choose|
                        ps: Seq<int>,
                        items: Seq<(BinaryOperator, SpecExpr)>,
                    |
                        {
                            &&& #[trigger] operand_chain(toks, lvl, ps, items)
                            &&& ps[0] == n
                            &&& ps.last() == end
                            &&& e == fold_binary(acc2, items)
                            &&& operators_end(toks, lvl, end)
                        };
                    let ps = seq![pos] + ps2;
                    let items = seq![(op, right)] + items2;
                    assert(items.drop_first() =~= items2);
                    assert forall|i: int| 0 <= i < items.len() implies #[trigger] binop_at(
                        toks,
                        ps[i],
                        lvl,
                    ) == Some(items[i].0) && spec_expr_at(toks, ps[i] + 1, lvl + 1)
                        == Outcome::Parsed(ps[i + 1], items[i].1) && ps[i] < ps[i + 1] by {
                        if i > 0 {
                            assert(ps[i] == ps2[i - 1]);
                            assert(ps[i + 1] == ps2[i]);
                            assert(items[i] == items2[i - 1]);
                            assert(binop_at(toks, ps2[i - 1], lvl) == Some(items2[i - 1].0));
                        }
                    }
                    assert(operand_chain(toks, lvl, ps, items));
                    assert(ps.last() == ps2.last());
                }
            }
        } else {
            if let Outcome::Parsed(end, e) = spec_expr_rest(toks, pos, lvl, acc) {
                let ps = seq![pos];
                let items = Seq::<(BinaryOperator, SpecExpr)>::empty();
                assert(operand_chain(toks, lvl, ps, items));
            }
        }
    } else {
        let ps = seq![pos];
        let items = Seq::<(BinaryOperator, SpecExpr)>::empty();
        assert(operand_chain(toks, lvl, ps, items));
    }
}

/// An expression at a binary level (`OR`, `AND`, comparisons, `+ -`, `* / %`) is its first
/// operand, parsed at the next tighter level, with the operators of its level and their right
/// operands that follow folded on to the left, in order; it ends where no further operator of
/// its level with an operand follows.
pub proof fn law_binary_level(toks: Seq<Token>, pos: int, lvl: int)
    requires
        lvl == 0 || lvl == 1 || lvl == 3 || lvl == 4 || lvl == 5,
    ensures
        spec_expr_at(toks, pos, lvl) matches Outcome::Parsed(n, e) ==> exists|
            first: SpecExpr,
            ps: Seq<int>,
            items: Seq<(BinaryOperator, SpecExpr)>,
        |
            #![trigger operand_chain(toks, lvl, ps, items), fold_binary(first, items)]
            {
                &&& spec_expr_at(toks, pos, lvl + 1) == Outcome::Parsed(ps[0], first)
                &&& operand_chain(toks, lvl, ps, items)
                &&& ps.last() == n
                &&& e == fold_binary(first, items)
                &&& operators_end(toks, lvl, n)
            },
{
    if let Outcome::Parsed(n, e) = spec_expr_at(toks, pos, lvl) {
        let (m, first) = match spec_expr_at(toks, pos, lvl + 1) {
            Outcome::Parsed(m, first) => (m, first),
            _ => arbitrary(),
        };
        lemma_operand_chain(toks, m, lvl, first);
    }
}

/// At the level of a prefix operator (`NOT`, unary `-`), an expression that starts with that
/// operator applies it to the expression of the same level that follows; any other is an
/// expression of the next tighter level.
pub proof fn law_unary_level(toks: Seq<Token>, pos: int, lvl: int)
    requires
        lvl == 2 || lvl == 6,
    ensures
        ({
            let (k, op) = if lvl == 2 {
                (TokenKind::NOT, UnaryOperator::Not)
            } else {
                (TokenKind::Minus, UnaryOperator::Minus)
            };
            spec_expr_at(toks, pos, lvl) matches Outcome::Parsed(n, e) ==> if kind_at(toks, pos, k) {
                e matches SpecExpr::UnaryOp { op: o, expr } && o == op && spec_expr_at(
                    toks,
                    pos + 1,
                    lvl,
                ) == Outcome::Parsed(n, *expr)
            } else {
                spec_expr_at(toks, pos, lvl + 1) == Outcome::Parsed(n, e)
            }
        }),
{
}

/// The levels from loosest to tightest: an expression is an `OR` level expression, and the
/// level past `* / %` and unary `-` holds the primary expressions.
pub proof fn law_expression_levels(toks: Seq<Token>, pos: int)
    ensures
        spec_expr(toks, pos) == spec_expr_at(toks, pos, 0),
        spec_expr_at(toks, pos, 7) == spec_primary(toks, pos),
{
}

/// A primary expression is a literal (a number, a string, `TRUE`, `FALSE`, `NULL`), a function
/// call, a column reference or an expression in parentheses, tried in that order. A function
/// call is a name and the comma separated expressions in parentheses after it, one argument per
/// expression; a column reference is one, two or three names separated by periods, the last
/// the column, the one before it the table, the first of three the database; an expression in
/// parentheses is the expression inside them.
pub proof fn law_primary(toks: Seq<Token>, pos: int)
    ensures
        spec_primary(toks, pos) matches Outcome::Parsed(n, e) ==> {
            ||| kind_at(toks, pos, TokenKind::LiteralNumber) && n == pos + 1 && e
                == SpecExpr::Literal(Literal::Number(toks[pos].text))
            ||| kind_at(toks, pos, TokenKind::LiteralString) && n == pos + 1 && e
                == SpecExpr::Literal(Literal::String(toks[pos].text))
            ||| kind_at(toks, pos, TokenKind::TRUE) && n == pos + 1 && e == SpecExpr::Literal(
                Literal::Boolean(true),
            )
            ||| kind_at(toks, pos, TokenKind::FALSE) && n == pos + 1 && e == SpecExpr::Literal(
                Literal::Boolean(false),
            )
            ||| kind_at(toks, pos, TokenKind::NULL) && n == pos + 1 && e == SpecExpr::Literal(
                Literal::Null,
            )
            ||| spec_function_call(toks, pos) == Outcome::Parsed(n, e)
            ||| spec_function_call(toks, pos) is Backtrack && spec_column_ref(toks, pos)
                == Outcome::Parsed(n, e)
            ||| spec_function_call(toks, pos) is Backtrack && spec_column_ref(toks, pos) is Backtrack
                && spec_paren_expr(toks, pos) == Outcome::Parsed(n, e)
        },
        spec_function_call(toks, pos) matches Outcome::Parsed(n, e) ==> e matches SpecExpr::FunctionCall {
            name,
            args,
        } && {
            &&& kind_at(toks, pos, TokenKind::Ident)
            &&& kind_at(toks, pos + 1, TokenKind::LParen)
            &&& kind_at(toks, n - 1, TokenKind::RParen)
            &&& name == id_at(toks, pos)
            &&& if args.len() == 0 {
                n == pos + 3
            } else {
                expr_chain(toks, pos + 2, args, n - 1)
            }
        },
        spec_column_ref(toks, pos) matches Outcome::Parsed(n, e) ==> {
            let k = dotted_names(toks, pos);
            e matches SpecExpr::ColumnRef { database, table, column } && {
                &&& kind_at(toks, pos, TokenKind::Ident)
                &&& n == pos + 2 * k - 1
                &&& column == id_at(toks, n - 1)
                &&& table == if k >= 2 {
                    Some(id_at(toks, n - 3))
                } else {
                    None
                }
                &&& database == if k == 3 {
                    Some(id_at(toks, pos))
                } else {
                    None
                }
            }
        },
        spec_paren_expr(toks, pos) matches Outcome::Parsed(n, e) ==> kind_at(
            toks,
            pos,
            TokenKind::LParen,
        ) && kind_at(toks, n - 1, TokenKind::RParen) && spec_expr(toks, pos + 1)
            == Outcome::Parsed(n - 1, e),
{
    lemma_expr_list0_chain(toks, pos + 2);
}

// ---------------------------------------------------------------------------
// The clauses of a query
// ---------------------------------------------------------------------------
/// `items` are the expressions of the comma separated list from `pos` to `end`, one per
/// expression, in order.
pub open spec fn expr_chain(toks: Seq<Token>, pos: int, items: Seq<SpecExpr>, end: int) -> bool
    decreases items.len(),
{
    items.len() >= 1 && match spec_expr(toks, pos) {
        Outcome::Parsed(n, x) => x == items[0] && if items.len() == 1 {
            end == n
        } else {
            kind_at(toks, n, TokenKind::Comma) && expr_chain(toks, n + 1, items.drop_first(), end)
        },
        _ => false,
    }
}

/// `items` are the `ORDER BY` items of the comma separated list from `pos` to `end`, one per
/// item, in order.
pub open spec fn order_chain(
    toks: Seq<Token>,
    pos: int,
    items: Seq<SpecOrderByExpr>,
    end: int,
) -> bool
    decreases items.len(),
{
    items.len() >= 1 && match spec_order_by_expr(toks, pos) {
        Outcome::Parsed(n, x) => x == items[0] && if items.len() == 1 {
            end == n
        } else {
            kind_at(toks, n, TokenKind::Comma) && order_chain(toks, n + 1, items.drop_first(), end)
        },
        _ => false,
    }
}

proof fn lemma_expr_rest_chain(toks: Seq<Token>, pos: int, acc: Seq<SpecExpr>)
    ensures
        spec_expr_list_rest(toks, pos, acc) matches Outcome::Parsed(end, items) ==> {
            ||| items == acc && end == pos
            ||| {
                &&& acc.len() < items.len()
                &&& items.take(acc.len() as int) == acc
                &&& kind_at(toks, pos, TokenKind::Comma)
                &&& expr_chain(toks, pos + 1, items.skip(acc.len() as int), end)
            }
        },
    decreases remaining(toks, pos),
{
    if kind_at(toks, pos, TokenKind::Comma) {
        if let Outcome::Parsed(n, t) = spec_expr_at(toks, pos + 1, 0) {
            if 0 <= pos < n <= toks.len() {
                lemma_expr_rest_chain(toks, n, acc.push(t));
                if let Outcome::Parsed(end, items) = spec_expr_list_rest(toks, pos, acc) {
                    let k = acc.len() as int;
                    if items == acc.push(t) && end == n {
                        assert(items.skip(k) =~= seq![t]);
                        assert(items.take(k) =~= acc);
                    } else {
                        assert(items.take(k) =~= acc.push(t).take(k));
                        assert(acc.push(t).take(k) =~= acc);
                        assert(items[k] == items.take(k + 1)[k]);
                        assert(items.skip(k).drop_first() =~= items.skip(k + 1));
                        assert(items.skip(k)[0] == t);
                    }
                }
            }
        }
    }
}

proof fn lemma_order_rest_chain(toks: Seq<Token>, pos: int, acc: Seq<SpecOrderByExpr>)
    ensures
        spec_order_by_list_rest(toks, pos, acc) matches Outcome::Parsed(end, items) ==> {
            ||| items == acc && end == pos
            ||| {
                &&& acc.len() < items.len()
                &&& items.take(acc.len() as int) == acc
                &&& kind_at(toks, pos, TokenKind::Comma)
                &&& order_chain(toks, pos + 1, items.skip(acc.len() as int), end)
            }
        },
    decreases remaining(toks, pos),
{
    if kind_at(toks, pos, TokenKind::Comma) {
        if let Outcome::Parsed(n, t) = spec_order_by_expr(toks, pos + 1) {
            if 0 <= pos < n <= toks.len() {
                lemma_order_rest_chain(toks, n, acc.push(t));
                if let Outcome::Parsed(end, items) = spec_order_by_list_rest(toks, pos, acc) {
                    let k = acc.len() as int;
                    if items == acc.push(t) && end == n {
                        assert(items.skip(k) =~= seq![t]);
                        assert(items.take(k) =~= acc);
                    } else {
                        assert(items.take(k) =~= acc.push(t).take(k));
                        assert(acc.push(t).take(k) =~= acc);
                        assert(items[k] == items.take(k + 1)[k]);
                        assert(items.skip(k).drop_first() =~= items.skip(k + 1));
                        assert(items.skip(k)[0] == t);
                    }
                }
            }
        }
    }
}

/// A non-empty comma separated list of expressions holds one expression per item.
pub proof fn lemma_expr_list_chain(toks: Seq<Token>, pos: int)
    ensures
        spec_expr_list1(toks, pos) matches Outcome::Parsed(end, items) ==> expr_chain(
            toks,
            pos,
            items,
            end,
        ),
{
    if let Outcome::Parsed(n, t) = spec_expr_at(toks, pos, 0) {
        if 0 <= pos < n <= toks.len() {
            lemma_expr_rest_chain(toks, n, seq![t]);
            if let Outcome::Parsed(end, items) = spec_expr_list1(toks, pos) {
                if items.len() > 1 {
                    assert(items.take(1) == seq![t]);
                    assert(items[0] == items.take(1)[0]);
                    assert(items.drop_first() =~= items.skip(1));
                }
            }
        }
    }
}

proof fn lemma_order_list_chain(toks: Seq<Token>, pos: int)
    ensures
        spec_order_by_list1(toks, pos) matches Outcome::Parsed(end, items) ==> order_chain(
            toks,
            pos,
            items,
            end,
        ),
{
    if let Outcome::Parsed(n, t) = spec_order_by_expr(toks, pos) {
        lemma_order_rest_chain(toks, n, seq![t]);
        if let Outcome::Parsed(end, items) = spec_order_by_list1(toks, pos) {
            if items.len() > 1 {
                assert(items.take(1) == seq![t]);
                assert(items[0] == items.take(1)[0]);
                assert(items.drop_first() =~= items.skip(1));
            }
        }
    }
}

/// The clauses of the query `q` parsed from `pos` to `end`: its body is the set expression
/// parsed at `pos`, ending at `p1`; `order_by` holds one item per comma separated item after
/// `ORDER BY`, ending at `p2`; `limit` one expression per comma separated expression after
/// `LIMIT`, ending at `p3`; `offset` the expression after `OFFSET`, ending at `p4`; `format`
/// the name after `FORMAT`. A field is empty exactly where its clause is absent.
pub open spec fn query_parts(
    toks: Seq<Token>,
    pos: int,
    end: int,
    q: SpecQuery,
    p1: int,
    p2: int,
    p3: int,
    p4: int,
) -> bool {
    &&& spec_set_expr(toks, pos) == Outcome::Parsed(p1, q.body)
    &&& (q.order_by.len() > 0) == kind_at(toks, p1, TokenKind::ORDER)
    &&& if kind_at(toks, p1, TokenKind::ORDER) {
        kind_at(toks, p1 + 1, TokenKind::BY) && order_chain(toks, p1 + 2, q.order_by, p2)
    } else {
        p2 == p1
    }
    &&& (q.limit.len() > 0) == kind_at(toks, p2, TokenKind::LIMIT)
    &&& if kind_at(toks, p2, TokenKind::LIMIT) {
        expr_chain(toks, p2 + 1, q.limit, p3)
    } else {
        p3 == p2
    }
    &&& (q.offset is Some) == kind_at(toks, p3, TokenKind::OFFSET)
    &&& if kind_at(toks, p3, TokenKind::OFFSET) {
        spec_expr(toks, p3 + 1) == Outcome::Parsed(p4, q.offset->0)
    } else {
        p4 == p3
    }
    &&& if kind_at(toks, p4, TokenKind::FORMAT) && kind_at(toks, p4 + 1, TokenKind::Ident) {
        q.format == Some(toks[p4 + 1].text) && end == p4 + 2
    } else {
        q.format is None && end == p4
    }
    &&& q.span == (pos, end)
}

/// The fields of a parsed query are the clauses it was parsed from, as [`query_parts`] says.
pub proof fn law_query_clauses(toks: Seq<Token>, pos: int)
    ensures
        spec_query(toks, pos) matches Outcome::Parsed(end, q) ==> exists|
            p1: int,
            p2: int,
            p3: int,
            p4: int,
        | #[trigger] query_parts(toks, pos, end, q, p1, p2, p3, p4),
{
    if let Outcome::Parsed(end, q) = spec_query(toks, pos) {
        let p1 = match spec_set_expr(toks, pos) {
            Outcome::Parsed(p1, _) => p1,
            _ => arbitrary(),
        };
        let p2 = match spec_order_block(toks, p1) {
            Outcome::Parsed(p2, _) => p2,
            _ => arbitrary(),
        };
        let p3 = match spec_limit_block(toks, p2) {
            Outcome::Parsed(p3, _) => p3,
            _ => arbitrary(),
        };
        let p4 = match spec_keyword_expr(toks, p3, TokenKind::OFFSET) {
            Outcome::Parsed(p4, _) => p4,
            _ => arbitrary(),
        };
        assert(spec_set_expr(toks, pos) == Outcome::Parsed(p1, q.body));
        assert(spec_order_block(toks, p1) == Outcome::Parsed(p2, q.order_by));
        assert(spec_limit_block(toks, p2) == Outcome::Parsed(p3, q.limit));
        assert(spec_keyword_expr(toks, p3, TokenKind::OFFSET) == Outcome::Parsed(p4, q.offset));
        lemma_query_parts(toks, pos, end, q, p1, p2, p3, p4);
    }
}

proof fn lemma_query_parts(
    toks: Seq<Token>,
    pos: int,
    end: int,
    q: SpecQuery,
    p1: int,
    p2: int,
    p3: int,
    p4: int,
)
    requires
        spec_set_expr(toks, pos) == Outcome::Parsed(p1, q.body),
        spec_order_block(toks, p1) == Outcome::Parsed(p2, q.order_by),
        spec_limit_block(toks, p2) == Outcome::Parsed(p3, q.limit),
        spec_keyword_expr(toks, p3, TokenKind::OFFSET) == Outcome::Parsed(p4, q.offset),
        if kind_at(toks, p4, TokenKind::FORMAT) && kind_at(toks, p4 + 1, TokenKind::Ident) {
            q.format == Some(toks[p4 + 1].text) && end == p4 + 2
        } else {
            q.format is None && end == p4
        },
        q.span == (pos, end),
    ensures
        query_parts(toks, pos, end, q, p1, p2, p3, p4),
{
    lemma_order_list_chain(toks, p1 + 2);
    lemma_expr_list_chain(toks, p2 + 1);
}

} // verus!
