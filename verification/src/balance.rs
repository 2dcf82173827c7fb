use vstd::prelude::*;

use crate::expr::{
    binop_at, level_rank, spec_column_ref, spec_expr, spec_expr_at, spec_expr_list0,
    spec_expr_list1, spec_expr_list_rest, spec_expr_rest, spec_function_call, spec_paren_expr,
    spec_primary,
};
use crate::ast::{
    Identifier, JoinOperator, SpecExpr, SpecJoinCondition, SpecOrderByExpr, SpecSelectTarget,
    SpecTableReference,
};
use crate::query::{
    join_chain, join_spine, join_onto, law_join_spine, spec_from_block, spec_join_element, spec_joined_tables, spec_joins_many1,
    spec_joins_rest, spec_parenthesized_joined_tables, spec_parenthesized_query, spec_query,
    spec_select, spec_set_expr, spec_subquery, spec_table_ref_list1, spec_table_ref_list_rest,
    spec_table_ref_without_join, spec_table_reference, opt_join_operator, opt_table_alias, spec_alias_name, spec_aliased_table, spec_group_block,
    spec_ident_list1, spec_ident_list_rest, spec_join_condition, spec_keyword_expr,
    spec_limit_block, spec_order_block, spec_order_by_expr, spec_order_by_list1,
    spec_order_by_list_rest, spec_projection, spec_qualified_wildcard, spec_select_target,
    spec_table_function, spec_target_list1, spec_target_list_rest, spec_travel_point,
};
use crate::token::{kind_at, remaining, Token, TokenKind};
use crate::util::Outcome;

verus! {

// ---------------------------------------------------------------------------
// Parenthesis depth over a range of tokens
// ---------------------------------------------------------------------------
/// How the token at `i` changes the parenthesis depth.
pub open spec fn paren_step(toks: Seq<Token>, i: int) -> int {
    if kind_at(toks, i, TokenKind::LParen) {
        1
    } else if kind_at(toks, i, TokenKind::RParen) {
        -1
    } else {
        0
    }
}

/// The parenthesis depth at `b`, counted from `a`: the parentheses opened in `[a, b)` and not
/// closed there.
pub open spec fn depth(toks: Seq<Token>, a: int, b: int) -> int
    decreases b - a,
{
    if b <= a {
        0
    } else {
        depth(toks, a, b - 1) + paren_step(toks, b - 1)
    }
}

/// The tokens `[a, b)` close every parenthesis they open, and never one they did not open.
pub open spec fn balanced(toks: Seq<Token>, a: int, b: int) -> bool {
    &&& a <= b
    &&& depth(toks, a, b) == 0
    &&& forall|q: int| a <= q <= b ==> #[trigger] depth(toks, a, q) >= 0
}

/// The number of `JOIN` keywords in `[a, b)` that stand outside every parenthesis opened in
/// that range.
pub open spec fn joins_outside(toks: Seq<Token>, a: int, b: int) -> nat
    decreases b - a,
{
    if b <= a {
        0
    } else {
        joins_outside(toks, a, b - 1) + if kind_at(toks, b - 1, TokenKind::JOIN) && depth(
            toks,
            a,
            b - 1,
        ) == 0 {
            1nat
        } else {
            0nat
        }
    }
}

/// The tokens `[a, b)` are balanced and hold no `JOIN` outside their parentheses.
pub open spec fn clean(toks: Seq<Token>, a: int, b: int) -> bool {
    balanced(toks, a, b) && joins_outside(toks, a, b) == 0
}

/// No token of `[a, b)` is a parenthesis or `JOIN`.
pub open spec fn plain(toks: Seq<Token>, a: int, b: int) -> bool {
    forall|q: int|
        a <= q < b ==> !#[trigger] kind_at(toks, q, TokenKind::LParen) && !kind_at(
            toks,
            q,
            TokenKind::RParen,
        ) && !kind_at(toks, q, TokenKind::JOIN)
}

pub proof fn lemma_depth_split(toks: Seq<Token>, a: int, m: int, b: int)
    requires
        a <= m <= b,
    ensures
        depth(toks, a, b) == depth(toks, a, m) + depth(toks, m, b),
    decreases b - m,
{
    if b > m {
        lemma_depth_split(toks, a, m, b - 1);
    }
}

pub proof fn lemma_joins_split(toks: Seq<Token>, a: int, m: int, b: int)
    requires
        a <= m <= b,
        depth(toks, a, m) == 0,
    ensures
        joins_outside(toks, a, b) == joins_outside(toks, a, m) + joins_outside(toks, m, b),
    decreases b - m,
{
    if b > m {
        lemma_joins_split(toks, a, m, b - 1);
        lemma_depth_split(toks, a, m, b - 1);
    }
}

pub proof fn lemma_balanced_concat(toks: Seq<Token>, a: int, m: int, b: int)
    requires
        balanced(toks, a, m),
        balanced(toks, m, b),
    ensures
        balanced(toks, a, b),
        joins_outside(toks, a, b) == joins_outside(toks, a, m) + joins_outside(toks, m, b),
{
    lemma_depth_split(toks, a, m, b);
    assert forall|q: int| a <= q <= b implies #[trigger] depth(toks, a, q) >= 0 by {
        if q > m {
            lemma_depth_split(toks, a, m, q);
            assert(depth(toks, m, q) >= 0);
        } else {
            assert(depth(toks, a, q) >= 0);
        }
    }
    lemma_joins_split(toks, a, m, b);
}

pub proof fn lemma_clean_concat(toks: Seq<Token>, a: int, m: int, b: int)
    requires
        clean(toks, a, m),
        clean(toks, m, b),
    ensures
        clean(toks, a, b),
{
    lemma_balanced_concat(toks, a, m, b);
}

pub proof fn lemma_empty_clean(toks: Seq<Token>, a: int)
    ensures
        clean(toks, a, a),
{
    assert forall|q: int| a <= q <= a implies #[trigger] depth(toks, a, q) >= 0 by {}
}

pub proof fn lemma_plain_clean(toks: Seq<Token>, a: int, b: int)
    requires
        a <= b,
        plain(toks, a, b),
    ensures
        clean(toks, a, b),
        forall|q: int| a <= q <= b ==> #[trigger] depth(toks, a, q) == 0,
    decreases b - a,
{
    if b == a {
        lemma_empty_clean(toks, a);
        assert forall|q: int| a <= q <= b implies #[trigger] depth(toks, a, q) == 0 by {}
    } else {
        assert forall|q: int| a <= q < b - 1 implies !#[trigger] kind_at(
            toks,
            q,
            TokenKind::LParen,
        ) && !kind_at(toks, q, TokenKind::RParen) && !kind_at(toks, q, TokenKind::JOIN) by {
            assert(a <= q < b);
        }
        lemma_plain_clean(toks, a, b - 1);
        assert(!kind_at(toks, b - 1, TokenKind::LParen));
        assert forall|q: int| a <= q <= b implies #[trigger] depth(toks, a, q) == 0 by {
            if q == b {
                assert(depth(toks, a, b - 1) == 0);
            }
        }
    }
}

/// A parenthesis opened at `a` and closed at `b` around balanced tokens.
pub proof fn lemma_wrap_clean(toks: Seq<Token>, a: int, b: int)
    requires
        kind_at(toks, a, TokenKind::LParen),
        balanced(toks, a + 1, b),
        kind_at(toks, b, TokenKind::RParen),
    ensures
        clean(toks, a, b + 1),
{
    assert(depth(toks, a, a + 1) == depth(toks, a, a) + paren_step(toks, a));
    assert(depth(toks, a, a + 1) == 1);
    assert forall|q: int| a + 1 <= q <= b implies #[trigger] depth(toks, a, q) >= 1 by {
        lemma_depth_split(toks, a, a + 1, q);
        assert(depth(toks, a + 1, q) >= 0);
    }
    lemma_depth_split(toks, a, a + 1, b);
    assert(depth(toks, a, b + 1) == depth(toks, a, b) + paren_step(toks, b));
    assert(depth(toks, a, b + 1) == 0);
    assert forall|q: int| a <= q <= b + 1 implies #[trigger] depth(toks, a, q) >= 0 by {
        if a + 1 <= q <= b {
            assert(depth(toks, a, q) >= 1);
        }
    }
    lemma_wrap_joins(toks, a, b, b + 1);
}

proof fn lemma_wrap_joins(toks: Seq<Token>, a: int, b: int, c: int)
    requires
        kind_at(toks, a, TokenKind::LParen),
        a < c <= b + 1,
        forall|q: int| a + 1 <= q <= b ==> #[trigger] depth(toks, a, q) >= 1,
    ensures
        joins_outside(toks, a, c) == 0,
    decreases c - a,
{
    if c > a + 1 {
        lemma_wrap_joins(toks, a, b, c - 1);
        assert(depth(toks, a, c - 1) >= 1);
    } else {
        assert(!kind_at(toks, a, TokenKind::JOIN));
        assert(joins_outside(toks, a, a) == 0);
    }
}


// ---------------------------------------------------------------------------
// Expressions are clean
// ---------------------------------------------------------------------------
proof fn lemma_expr_at_clean(toks: Seq<Token>, pos: int, lvl: int)
    ensures
        spec_expr_at(toks, pos, lvl) matches Outcome::Parsed(n, _) ==> clean(toks, pos, n),
    decreases remaining(toks, pos), level_rank(lvl),
{
    if lvl >= 7 || lvl < 0 {
        lemma_primary_clean(toks, pos);
    } else if lvl == 6 || lvl == 2 {
        let k = if lvl == 6 {
            TokenKind::Minus
        } else {
            TokenKind::NOT
        };
        if kind_at(toks, pos, k) {
            lemma_expr_at_clean(toks, pos + 1, lvl);
            if let Outcome::Parsed(n, _) = spec_expr_at(toks, pos + 1, lvl) {
                lemma_plain_clean(toks, pos, pos + 1);
                lemma_clean_concat(toks, pos, pos + 1, n);
            }
        } else {
            lemma_expr_at_clean(toks, pos, lvl + 1);
        }
    } else {
        lemma_expr_at_clean(toks, pos, lvl + 1);
        if let Outcome::Parsed(n, left) = spec_expr_at(toks, pos, lvl + 1) {
            if 0 <= pos < n <= toks.len() {
                lemma_expr_rest_clean(toks, n, lvl, left);
                if let Outcome::Parsed(m, _) = spec_expr_rest(toks, n, lvl, left) {
                    lemma_clean_concat(toks, pos, n, m);
                }
            }
        }
    }
}

proof fn lemma_expr_rest_clean(toks: Seq<Token>, pos: int, lvl: int, left: SpecExpr)
    ensures
        spec_expr_rest(toks, pos, lvl, left) matches Outcome::Parsed(n, _) ==> clean(toks, pos, n),
    decreases remaining(toks, pos), level_rank(lvl) - 1,
{
    lemma_empty_clean(toks, pos);
    if let Some(op) = binop_at(toks, pos, lvl) {
        lemma_expr_at_clean(toks, pos + 1, lvl + 1);
        if let Outcome::Parsed(n, right) = spec_expr_at(toks, pos + 1, lvl + 1) {
            if 0 <= pos < n <= toks.len() {
                let l2 = SpecExpr::BinaryOp {
                    op,
                    left: Box::new(left),
                    right: Box::new(right),
                };
                lemma_expr_rest_clean(toks, n, lvl, l2);
                if let Outcome::Parsed(m, _) = spec_expr_rest(toks, n, lvl, l2) {
                    lemma_plain_clean(toks, pos, pos + 1);
                    lemma_clean_concat(toks, pos, pos + 1, n);
                    lemma_clean_concat(toks, pos, n, m);
                }
            }
        }
    }
}

proof fn lemma_primary_clean(toks: Seq<Token>, pos: int)
    ensures
        spec_primary(toks, pos) matches Outcome::Parsed(n, _) ==> clean(toks, pos, n),
    decreases remaining(toks, pos), 2int,
{
    if kind_at(toks, pos, TokenKind::LiteralNumber) || kind_at(toks, pos, TokenKind::LiteralString)
        || kind_at(toks, pos, TokenKind::TRUE) || kind_at(toks, pos, TokenKind::FALSE) || kind_at(
        toks,
        pos,
        TokenKind::NULL,
    ) {
        lemma_plain_clean(toks, pos, pos + 1);
    } else {
        lemma_function_call_clean(toks, pos);
        lemma_column_ref_clean(toks, pos);
        lemma_paren_expr_clean(toks, pos);
    }
}

proof fn lemma_function_call_clean(toks: Seq<Token>, pos: int)
    ensures
        spec_function_call(toks, pos) matches Outcome::Parsed(n, _) ==> clean(toks, pos, n),
    decreases remaining(toks, pos), 1int,
{
    if kind_at(toks, pos, TokenKind::Ident) && kind_at(toks, pos + 1, TokenKind::LParen) {
        lemma_expr_list0_clean(toks, pos + 2);
        if let Outcome::Parsed(n, _) = spec_expr_list0(toks, pos + 2) {
            if kind_at(toks, n, TokenKind::RParen) {
                lemma_plain_clean(toks, pos, pos + 1);
                lemma_wrap_clean(toks, pos + 1, n);
                lemma_clean_concat(toks, pos, pos + 1, n + 1);
            }
        }
    }
}

proof fn lemma_column_ref_clean(toks: Seq<Token>, pos: int)
    ensures
        spec_column_ref(toks, pos) matches Outcome::Parsed(n, _) ==> clean(toks, pos, n),
{
    if let Outcome::Parsed(n, _) = spec_column_ref(toks, pos) {
        lemma_plain_clean(toks, pos, n);
    }
}

proof fn lemma_paren_expr_clean(toks: Seq<Token>, pos: int)
    ensures
        spec_paren_expr(toks, pos) matches Outcome::Parsed(n, _) ==> clean(toks, pos, n),
    decreases remaining(toks, pos), 1int,
{
    if kind_at(toks, pos, TokenKind::LParen) {
        lemma_expr_at_clean(toks, pos + 1, 0);
        if let Outcome::Parsed(n, _) = spec_expr_at(toks, pos + 1, 0) {
            if kind_at(toks, n, TokenKind::RParen) {
                lemma_wrap_clean(toks, pos, n);
            }
        }
    }
}

proof fn lemma_expr_list0_clean(toks: Seq<Token>, pos: int)
    ensures
        spec_expr_list0(toks, pos) matches Outcome::Parsed(n, _) ==> clean(toks, pos, n),
    decreases remaining(toks, pos), 40int,
{
    lemma_empty_clean(toks, pos);
    lemma_expr_at_clean(toks, pos, 0);
    if let Outcome::Parsed(n, e) = spec_expr_at(toks, pos, 0) {
        if 0 <= pos < n <= toks.len() {
            lemma_expr_list_rest_clean(toks, n, seq![e]);
            if let Outcome::Parsed(m, _) = spec_expr_list_rest(toks, n, seq![e]) {
                lemma_clean_concat(toks, pos, n, m);
            }
        }
    }
}

proof fn lemma_expr_list_rest_clean(toks: Seq<Token>, pos: int, acc: Seq<SpecExpr>)
    ensures
        spec_expr_list_rest(toks, pos, acc) matches Outcome::Parsed(n, _) ==> clean(toks, pos, n),
    decreases remaining(toks, pos), 40int,
{
    lemma_empty_clean(toks, pos);
    if kind_at(toks, pos, TokenKind::Comma) {
        lemma_expr_at_clean(toks, pos + 1, 0);
        if let Outcome::Parsed(n, e) = spec_expr_at(toks, pos + 1, 0) {
            if 0 <= pos < n <= toks.len() {
                lemma_expr_list_rest_clean(toks, n, acc.push(e));
                if let Outcome::Parsed(m, _) = spec_expr_list_rest(toks, n, acc.push(e)) {
                    lemma_plain_clean(toks, pos, pos + 1);
                    lemma_clean_concat(toks, pos, pos + 1, n);
                    lemma_clean_concat(toks, pos, n, m);
                }
            }
        }
    }
}

/// A parsed expression holds balanced parentheses and no `JOIN` keyword outside them.
pub proof fn lemma_expr_clean(toks: Seq<Token>, pos: int)
    ensures
        spec_expr(toks, pos) matches Outcome::Parsed(n, _) ==> clean(toks, pos, n),
        spec_expr_list1(toks, pos) matches Outcome::Parsed(n, _) ==> clean(toks, pos, n),
{
    lemma_expr_at_clean(toks, pos, 0);
    if let Outcome::Parsed(n, e) = spec_expr_at(toks, pos, 0) {
        if 0 <= pos < n <= toks.len() {
            lemma_expr_list_rest_clean(toks, n, seq![e]);
            if let Outcome::Parsed(m, _) = spec_expr_list_rest(toks, n, seq![e]) {
                lemma_clean_concat(toks, pos, n, m);
            }
        }
    }
}


// ---------------------------------------------------------------------------
// The rules outside the recursion through queries are clean
// ---------------------------------------------------------------------------
proof fn lemma_alias_clean(toks: Seq<Token>, pos: int)
    ensures
        spec_alias_name(toks, pos) matches Outcome::Parsed(n, _) ==> clean(toks, pos, n),
        clean(toks, pos, opt_table_alias(toks, pos).0),
{
    lemma_empty_clean(toks, pos);
    if let Outcome::Parsed(n, _) = spec_alias_name(toks, pos) {
        lemma_plain_clean(toks, pos, n);
    }
}

proof fn lemma_travel_point_clean(toks: Seq<Token>, pos: int)
    ensures
        spec_travel_point(toks, pos) matches Outcome::Parsed(n, _) ==> clean(toks, pos, n),
{
    if let Outcome::Parsed(n, _) = spec_travel_point(toks, pos) {
        lemma_plain_clean(toks, pos, pos + 1);
        lemma_plain_clean(toks, pos + 2, pos + 5);
        lemma_wrap_clean(toks, pos + 1, pos + 5);
        lemma_clean_concat(toks, pos, pos + 1, n);
    }
}

pub proof fn lemma_aliased_table_clean(toks: Seq<Token>, pos: int)
    ensures
        spec_aliased_table(toks, pos) matches Outcome::Parsed(n, _) ==> clean(toks, pos, n),
{
    if kind_at(toks, pos, TokenKind::Ident) {
        let p1 = if kind_at(toks, pos + 1, TokenKind::Period) && kind_at(
            toks,
            pos + 2,
            TokenKind::Ident,
        ) {
            pos + 3
        } else {
            pos + 1
        };
        let p2 = if kind_at(toks, p1, TokenKind::Period) && kind_at(toks, p1 + 1, TokenKind::Ident) {
            p1 + 2
        } else {
            p1
        };
        let p3 = match spec_travel_point(toks, p2) {
            Outcome::Parsed(n, _) => n,
            _ => p2,
        };
        lemma_plain_clean(toks, pos, p2);
        lemma_travel_point_clean(toks, p2);
        lemma_empty_clean(toks, p2);
        lemma_alias_clean(toks, p3);
        lemma_clean_concat(toks, pos, p2, p3);
        lemma_clean_concat(toks, pos, p3, opt_table_alias(toks, p3).0);
    }
}

pub proof fn lemma_table_function_clean(toks: Seq<Token>, pos: int)
    ensures
        spec_table_function(toks, pos) matches Outcome::Parsed(n, _) ==> clean(toks, pos, n),
{
    if kind_at(toks, pos, TokenKind::Ident) && kind_at(toks, pos + 1, TokenKind::LParen) {
        lemma_expr_list0_clean(toks, pos + 2);
        if let Outcome::Parsed(n, _) = spec_expr_list0(toks, pos + 2) {
            if kind_at(toks, n, TokenKind::RParen) {
                lemma_plain_clean(toks, pos, pos + 1);
                lemma_wrap_clean(toks, pos + 1, n);
                lemma_clean_concat(toks, pos, pos + 1, n + 1);
                lemma_alias_clean(toks, n + 1);
                lemma_clean_concat(toks, pos, n + 1, opt_table_alias(toks, n + 1).0);
            }
        }
    }
}

pub proof fn lemma_operator_plain(toks: Seq<Token>, pos: int)
    ensures
        pos <= opt_join_operator(toks, pos).0,
        plain(toks, pos, opt_join_operator(toks, pos).0),
        clean(toks, pos, opt_join_operator(toks, pos).0),
{
    lemma_plain_clean(toks, pos, opt_join_operator(toks, pos).0);
}

proof fn lemma_ident_list_rest_plain(toks: Seq<Token>, pos: int, acc: Seq<Identifier>)
    ensures
        spec_ident_list_rest(toks, pos, acc) matches Outcome::Parsed(n, _) ==> pos <= n && plain(
            toks,
            pos,
            n,
        ),
    decreases remaining(toks, pos),
{
    if kind_at(toks, pos, TokenKind::Comma) && kind_at(toks, pos + 1, TokenKind::Ident) {
        lemma_ident_list_rest_plain(toks, pos + 2, acc.push(crate::query::id_at(toks, pos + 1)));
    }
}

pub proof fn lemma_join_condition_clean(toks: Seq<Token>, pos: int)
    ensures
        spec_join_condition(toks, pos) matches Outcome::Parsed(n, _) ==> clean(toks, pos, n),
{
    if let Outcome::Parsed(n, _) = spec_join_condition(toks, pos) {
        lemma_plain_clean(toks, pos, pos + 1);
        if kind_at(toks, pos, TokenKind::ON) {
            lemma_expr_clean(toks, pos + 1);
            lemma_clean_concat(toks, pos, pos + 1, n);
        } else {
            if let Outcome::Parsed(m, i) = crate::util::spec_ident(toks, pos + 2) {
                lemma_ident_list_rest_plain(toks, m, seq![i]);
                lemma_plain_clean(toks, pos + 2, n - 1);
                lemma_wrap_clean(toks, pos + 1, n - 1);
                lemma_clean_concat(toks, pos, pos + 1, n);
            }
        }
    }
}

proof fn lemma_select_target_clean(toks: Seq<Token>, pos: int)
    ensures
        spec_select_target(toks, pos) matches Outcome::Parsed(n, _) ==> clean(toks, pos, n),
{
    if let Outcome::Parsed(n, _) = spec_qualified_wildcard(toks, pos) {
        lemma_plain_clean(toks, pos, n);
    }
    lemma_expr_clean(toks, pos);
    if let Outcome::Parsed(n, _) = spec_expr(toks, pos) {
        lemma_alias_clean(toks, n);
        lemma_empty_clean(toks, n);
        if let Outcome::Parsed(m, _) = spec_alias_name(toks, n) {
            lemma_clean_concat(toks, pos, n, m);
        }
    }
}

proof fn lemma_target_list_rest_clean(toks: Seq<Token>, pos: int, acc: Seq<SpecSelectTarget>)
    ensures
        spec_target_list_rest(toks, pos, acc) matches Outcome::Parsed(n, _) ==> clean(toks, pos, n),
    decreases remaining(toks, pos),
{
    lemma_empty_clean(toks, pos);
    if kind_at(toks, pos, TokenKind::Comma) {
        lemma_select_target_clean(toks, pos + 1);
        if let Outcome::Parsed(n, t) = spec_select_target(toks, pos + 1) {
            if 0 <= pos < n <= toks.len() {
                lemma_target_list_rest_clean(toks, n, acc.push(t));
                if let Outcome::Parsed(m, _) = spec_target_list_rest(toks, n, acc.push(t)) {
                    lemma_plain_clean(toks, pos, pos + 1);
                    lemma_clean_concat(toks, pos, pos + 1, n);
                    lemma_clean_concat(toks, pos, n, m);
                }
            }
        }
    }
}

pub proof fn lemma_target_list_clean(toks: Seq<Token>, pos: int)
    ensures
        spec_target_list1(toks, pos) matches Outcome::Parsed(n, _) ==> clean(toks, pos, n),
{
    lemma_select_target_clean(toks, pos);
    if let Outcome::Parsed(n, t) = spec_select_target(toks, pos) {
        lemma_target_list_rest_clean(toks, n, seq![t]);
        if let Outcome::Parsed(m, _) = spec_target_list_rest(toks, n, seq![t]) {
            lemma_clean_concat(toks, pos, n, m);
        }
    }
}

proof fn lemma_order_by_expr_clean(toks: Seq<Token>, pos: int)
    ensures
        spec_order_by_expr(toks, pos) matches Outcome::Parsed(n, _) ==> clean(toks, pos, n),
{
    lemma_expr_clean(toks, pos);
    if let Outcome::Parsed(n, _) = spec_expr(toks, pos) {
        if kind_at(toks, n, TokenKind::ASC) || kind_at(toks, n, TokenKind::DESC) {
            lemma_plain_clean(toks, n, n + 1);
            lemma_clean_concat(toks, pos, n, n + 1);
        }
    }
}

proof fn lemma_order_by_list_rest_clean(toks: Seq<Token>, pos: int, acc: Seq<SpecOrderByExpr>)
    ensures
        spec_order_by_list_rest(toks, pos, acc) matches Outcome::Parsed(n, _) ==> clean(
            toks,
            pos,
            n,
        ),
    decreases remaining(toks, pos),
{
    lemma_empty_clean(toks, pos);
    if kind_at(toks, pos, TokenKind::Comma) {
        lemma_order_by_expr_clean(toks, pos + 1);
        if let Outcome::Parsed(n, o) = spec_order_by_expr(toks, pos + 1) {
            if 0 <= pos < n <= toks.len() {
                lemma_order_by_list_rest_clean(toks, n, acc.push(o));
                if let Outcome::Parsed(m, _) = spec_order_by_list_rest(toks, n, acc.push(o)) {
                    lemma_plain_clean(toks, pos, pos + 1);
                    lemma_clean_concat(toks, pos, pos + 1, n);
                    lemma_clean_concat(toks, pos, n, m);
                }
            }
        }
    }
}

/// The clauses after a set expression and the clauses of a `SELECT` after its `FROM` list are
/// clean.
pub proof fn lemma_clauses_clean(toks: Seq<Token>, pos: int, k: TokenKind)
    requires
        k != TokenKind::LParen && k != TokenKind::RParen && k != TokenKind::JOIN,
    ensures
        spec_order_block(toks, pos) matches Outcome::Parsed(n, _) ==> clean(toks, pos, n),
        spec_limit_block(toks, pos) matches Outcome::Parsed(n, _) ==> clean(toks, pos, n),
        spec_keyword_expr(toks, pos, k) matches Outcome::Parsed(n, _) ==> clean(toks, pos, n),
        spec_group_block(toks, pos) matches Outcome::Parsed(n, _) ==> clean(toks, pos, n),
{
    lemma_empty_clean(toks, pos);
    if kind_at(toks, pos, TokenKind::ORDER) || kind_at(toks, pos, TokenKind::LIMIT) || kind_at(
        toks,
        pos,
        k,
    ) || kind_at(toks, pos, TokenKind::GROUP) {
        lemma_plain_clean(toks, pos, pos + 1);
        lemma_expr_clean(toks, pos + 1);
        if let Outcome::Parsed(n, _) = spec_expr(toks, pos + 1) {
            lemma_clean_concat(toks, pos, pos + 1, n);
        }
        if let Outcome::Parsed(n, _) = spec_expr_list1(toks, pos + 1) {
            lemma_clean_concat(toks, pos, pos + 1, n);
        }
        if kind_at(toks, pos + 1, TokenKind::BY) {
            lemma_plain_clean(toks, pos, pos + 2);
            lemma_expr_clean(toks, pos + 2);
            if let Outcome::Parsed(n, _) = spec_expr_list1(toks, pos + 2) {
                lemma_clean_concat(toks, pos, pos + 2, n);
            }
            lemma_order_by_expr_clean(toks, pos + 2);
            if let Outcome::Parsed(n, o) = spec_order_by_expr(toks, pos + 2) {
                lemma_order_by_list_rest_clean(toks, n, seq![o]);
                if let Outcome::Parsed(m, _) = spec_order_by_list_rest(toks, n, seq![o]) {
                    lemma_clean_concat(toks, pos + 2, n, m);
                    lemma_clean_concat(toks, pos, pos + 2, m);
                }
            }
        }
    }
}


// ---------------------------------------------------------------------------
// The rules that recur through queries are balanced
// ---------------------------------------------------------------------------
pub proof fn lemma_join_token(toks: Seq<Token>, j: int)
    requires
        kind_at(toks, j, TokenKind::JOIN),
    ensures
        balanced(toks, j, j + 1),
        joins_outside(toks, j, j + 1) == 1,
{
    assert(depth(toks, j, j + 1) == depth(toks, j, j) + paren_step(toks, j));
    assert forall|q: int| j <= q <= j + 1 implies #[trigger] depth(toks, j, q) >= 0 by {}
    assert(joins_outside(toks, j, j) == 0);
}

#[verifier::spinoff_prover]
#[verifier::rlimit(50)]
proof fn lemma_query_balanced(toks: Seq<Token>, pos: int)
    ensures
        spec_query(toks, pos) matches Outcome::Parsed(n, _) ==> balanced(toks, pos, n),
    decreases remaining(toks, pos), 2int,
{
    lemma_set_expr_balanced(toks, pos);
    if let Outcome::Parsed(p1, _) = spec_set_expr(toks, pos) {
        lemma_clauses_clean(toks, p1, TokenKind::OFFSET);
        if let Outcome::Parsed(p2, _) = spec_order_block(toks, p1) {
            lemma_clauses_clean(toks, p2, TokenKind::OFFSET);
            if let Outcome::Parsed(p3, _) = spec_limit_block(toks, p2) {
                lemma_clauses_clean(toks, p3, TokenKind::OFFSET);
                if let Outcome::Parsed(p4, _) = spec_keyword_expr(toks, p3, TokenKind::OFFSET) {
                    let p5 = if kind_at(toks, p4, TokenKind::FORMAT) && kind_at(
                        toks,
                        p4 + 1,
                        TokenKind::Ident,
                    ) {
                        p4 + 2
                    } else {
                        p4
                    };
                    lemma_plain_clean(toks, p4, p5);
                    lemma_balanced_concat(toks, pos, p1, p2);
                    lemma_balanced_concat(toks, pos, p2, p3);
                    lemma_balanced_concat(toks, pos, p3, p4);
                    lemma_balanced_concat(toks, pos, p4, p5);
                }
            }
        }
    }
}

#[verifier::spinoff_prover]
#[verifier::rlimit(50)]
proof fn lemma_set_expr_balanced(toks: Seq<Token>, pos: int)
    ensures
        spec_set_expr(toks, pos) matches Outcome::Parsed(n, _) ==> balanced(toks, pos, n),
    decreases remaining(toks, pos), 1int,
{
    lemma_select_balanced(toks, pos);
    if let Outcome::Parsed(p1, _) = spec_select(toks, pos) {
        if 0 <= pos < p1 <= toks.len() {
            let p2 = if kind_at(toks, p1, TokenKind::UNION) || kind_at(toks, p1, TokenKind::EXCEPT)
                || kind_at(toks, p1, TokenKind::INTERSECT) {
                p1 + 1
            } else {
                p1
            };
            let p3 = if kind_at(toks, p2, TokenKind::ALL) {
                p2 + 1
            } else {
                p2
            };
            lemma_plain_clean(toks, p1, p3);
            lemma_balanced_concat(toks, pos, p1, p3);
            lemma_set_expr_balanced(toks, p3);
            if let Outcome::Parsed(p4, _) = spec_set_expr(toks, p3) {
                lemma_balanced_concat(toks, pos, p3, p4);
            }
        }
    }
}

proof fn lemma_select_balanced(toks: Seq<Token>, pos: int)
    ensures
        spec_select(toks, pos) matches Outcome::Parsed(n, _) ==> balanced(toks, pos, n),
    decreases remaining(toks, pos), 0int,
{
    if let Outcome::Parsed(end, _) = spec_select(toks, pos) {
        let p1 = crate::query::select_list_start(toks, pos);
        lemma_plain_clean(toks, pos, p1);
        lemma_target_list_clean(toks, p1);
        if let Outcome::Parsed(p2, _) = spec_target_list1(toks, p1) {
            lemma_from_block_balanced(toks, p2);
            if let Outcome::Parsed(p3, _) = spec_from_block(toks, p2) {
                lemma_clauses_clean(toks, p3, TokenKind::WHERE);
                if let Outcome::Parsed(p4, _) = spec_keyword_expr(toks, p3, TokenKind::WHERE) {
                    lemma_clauses_clean(toks, p4, TokenKind::WHERE);
                    if let Outcome::Parsed(p5, _) = spec_group_block(toks, p4) {
                        lemma_clauses_clean(toks, p5, TokenKind::HAVING);
                        lemma_balanced_concat(toks, pos, p1, p2);
                        lemma_balanced_concat(toks, pos, p2, p3);
                        lemma_balanced_concat(toks, pos, p3, p4);
                        lemma_balanced_concat(toks, pos, p4, p5);
                        lemma_balanced_concat(toks, pos, p5, end);
                    }
                }
            }
        }
    }
}

proof fn lemma_from_block_balanced(toks: Seq<Token>, pos: int)
    ensures
        spec_from_block(toks, pos) matches Outcome::Parsed(n, _) ==> balanced(toks, pos, n),
    decreases remaining(toks, pos), 0int,
{
    lemma_empty_clean(toks, pos);
    if kind_at(toks, pos, TokenKind::FROM) {
        lemma_plain_clean(toks, pos, pos + 1);
        lemma_table_ref_list1_balanced(toks, pos + 1);
        if let Outcome::Parsed(n, _) = spec_table_ref_list1(toks, pos + 1) {
            lemma_balanced_concat(toks, pos, pos + 1, n);
        }
    }
}

proof fn lemma_table_ref_list1_balanced(toks: Seq<Token>, pos: int)
    ensures
        spec_table_ref_list1(toks, pos) matches Outcome::Parsed(n, _) ==> balanced(toks, pos, n),
    decreases remaining(toks, pos), 7int,
{
    lemma_table_reference_balanced(toks, pos);
    if let Outcome::Parsed(n, t) = spec_table_reference(toks, pos) {
        if 0 <= pos < n <= toks.len() {
            lemma_table_ref_list_rest_balanced(toks, n, seq![t]);
            if let Outcome::Parsed(m, _) = spec_table_ref_list_rest(toks, n, seq![t]) {
                lemma_balanced_concat(toks, pos, n, m);
            }
        }
    }
}

#[verifier::spinoff_prover]
#[verifier::rlimit(50)]
proof fn lemma_table_ref_list_rest_balanced(
    toks: Seq<Token>,
    pos: int,
    acc: Seq<SpecTableReference>,
)
    ensures
        spec_table_ref_list_rest(toks, pos, acc) matches Outcome::Parsed(n, _) ==> balanced(
            toks,
            pos,
            n,
        ),
    decreases remaining(toks, pos), 7int,
{
    lemma_empty_clean(toks, pos);
    if kind_at(toks, pos, TokenKind::Comma) {
        lemma_table_reference_balanced(toks, pos + 1);
        if let Outcome::Parsed(n, t) = spec_table_reference(toks, pos + 1) {
            if 0 <= pos < n <= toks.len() {
                lemma_table_ref_list_rest_balanced(toks, n, acc.push(t));
                if let Outcome::Parsed(m, _) = spec_table_ref_list_rest(toks, n, acc.push(t)) {
                    lemma_plain_clean(toks, pos, pos + 1);
                    lemma_balanced_concat(toks, pos, pos + 1, n);
                    lemma_balanced_concat(toks, pos, n, m);
                }
            }
        }
    }
}

proof fn lemma_table_reference_balanced(toks: Seq<Token>, pos: int)
    ensures
        spec_table_reference(toks, pos) matches Outcome::Parsed(n, _) ==> balanced(toks, pos, n),
    decreases remaining(toks, pos), 6int,
{
    lemma_joined_tables_balanced(toks, pos);
    lemma_parenthesized_joined_tables_clean(toks, pos);
    lemma_subquery_balanced(toks, pos);
    lemma_table_function_clean(toks, pos);
    lemma_aliased_table_clean(toks, pos);
}

proof fn lemma_table_ref_without_join_balanced(toks: Seq<Token>, pos: int)
    ensures
        spec_table_ref_without_join(toks, pos) matches Outcome::Parsed(n, _) ==> balanced(
            toks,
            pos,
            n,
        ),
    decreases remaining(toks, pos), 4int,
{
    lemma_parenthesized_joined_tables_clean(toks, pos);
    lemma_subquery_balanced(toks, pos);
    lemma_table_function_clean(toks, pos);
    lemma_aliased_table_clean(toks, pos);
}

proof fn lemma_joined_tables_balanced(toks: Seq<Token>, pos: int)
    ensures
        spec_joined_tables(toks, pos) matches Outcome::Parsed(n, _) ==> balanced(toks, pos, n),
    decreases remaining(toks, pos), 5int,
{
    lemma_table_ref_without_join_balanced(toks, pos);
    if let Outcome::Parsed(n, first) = spec_table_ref_without_join(toks, pos) {
        if 0 <= pos <= n <= toks.len() {
            lemma_joins_many1_balanced(toks, n, first);
            if let Outcome::Parsed(m, _) = spec_joins_many1(toks, n, first) {
                lemma_balanced_concat(toks, pos, n, m);
            }
        }
    }
}

proof fn lemma_joins_many1_balanced(toks: Seq<Token>, pos: int, acc: SpecTableReference)
    ensures
        spec_joins_many1(toks, pos, acc) matches Outcome::Parsed(n, _) ==> balanced(toks, pos, n),
    decreases remaining(toks, pos), 3int,
{
    lemma_join_element_balanced(toks, pos);
    if let Outcome::Parsed(n, e) = spec_join_element(toks, pos) {
        if 0 <= pos < n <= toks.len() {
            lemma_joins_rest_balanced(toks, n, join_onto(acc, e));
            if let Outcome::Parsed(m, _) = spec_joins_rest(toks, n, join_onto(acc, e)) {
                lemma_balanced_concat(toks, pos, n, m);
            }
        }
    }
}

proof fn lemma_joins_rest_balanced(toks: Seq<Token>, pos: int, acc: SpecTableReference)
    ensures
        spec_joins_rest(toks, pos, acc) matches Outcome::Parsed(n, _) ==> balanced(toks, pos, n),
    decreases remaining(toks, pos), 2int,
{
    lemma_empty_clean(toks, pos);
    lemma_join_element_balanced(toks, pos);
    if let Outcome::Parsed(n, e) = spec_join_element(toks, pos) {
        if n != pos && 0 <= pos < n <= toks.len() {
            lemma_joins_rest_balanced(toks, n, join_onto(acc, e));
            if let Outcome::Parsed(m, _) = spec_joins_rest(toks, n, join_onto(acc, e)) {
                lemma_balanced_concat(toks, pos, n, m);
            }
        }
    }
}

proof fn lemma_join_element_balanced(toks: Seq<Token>, pos: int)
    ensures
        spec_join_element(toks, pos) matches Outcome::Parsed(n, _) ==> balanced(toks, pos, n),
    decreases remaining(toks, pos), 1int,
{
    if let Outcome::Parsed(n, _) = spec_join_element(toks, pos) {
        let p1 = opt_join_operator(toks, pos).0;
        let q1 = opt_join_operator(toks, pos + 1).0;
        lemma_operator_plain(toks, pos);
        lemma_operator_plain(toks, pos + 1);
        if kind_at(toks, p1, TokenKind::JOIN) && spec_table_ref_without_join(toks, p1 + 1) is Parsed {
            lemma_join_keyword_range(toks, pos, p1);
            lemma_table_ref_without_join_balanced(toks, p1 + 1);
            lemma_join_condition_clean(toks, spec_table_ref_without_join(toks, p1 + 1)->Parsed_0);
            lemma_element_tail(toks, pos, p1, n);
        } else {
            lemma_plain_clean(toks, pos, pos + 1);
            lemma_balanced_concat(toks, pos, pos + 1, q1);
            lemma_table_ref_without_join_balanced(toks, q1 + 1);
            lemma_element_tail(toks, pos, q1, n);
        }
    }
}

/// `[pos, j)` is balanced and `j` holds `JOIN`: `[pos, j + 1)` is balanced.
proof fn lemma_join_keyword_range(toks: Seq<Token>, pos: int, j: int)
    requires
        balanced(toks, pos, j),
        kind_at(toks, j, TokenKind::JOIN),
    ensures
        balanced(toks, pos, j + 1),
{
    lemma_join_token(toks, j);
    lemma_balanced_concat(toks, pos, j, j + 1);
}

proof fn lemma_element_tail(toks: Seq<Token>, pos: int, j: int, n: int)
    requires
        balanced(toks, pos, j),
        kind_at(toks, j, TokenKind::JOIN),
        spec_table_ref_without_join(toks, j + 1) matches Outcome::Parsed(p2, _) && balanced(
            toks,
            j + 1,
            p2,
        ) && (n == p2 || spec_join_condition(toks, p2) == Outcome::Parsed(
            n,
            spec_join_condition(toks, p2)->Parsed_1,
        ) && clean(toks, p2, n)),
    ensures
        balanced(toks, pos, n),
{
    let p2 = spec_table_ref_without_join(toks, j + 1)->Parsed_0;
    lemma_join_keyword_range(toks, pos, j);
    lemma_balanced_concat(toks, pos, j + 1, p2);
    if n != p2 {
        lemma_balanced_concat(toks, pos, p2, n);
    }
}

proof fn lemma_parenthesized_joined_tables_clean(toks: Seq<Token>, pos: int)
    ensures
        spec_parenthesized_joined_tables(toks, pos) matches Outcome::Parsed(n, _) ==> clean(
            toks,
            pos,
            n,
        ),
    decreases remaining(toks, pos), 1int,
{
    if kind_at(toks, pos, TokenKind::LParen) {
        lemma_parenthesized_joined_tables_clean(toks, pos + 1);
        lemma_joined_tables_balanced(toks, pos + 1);
        if let Outcome::Parsed(n, _) = spec_parenthesized_joined_tables(toks, pos) {
            lemma_wrap_clean(toks, pos, n - 1);
        }
    }
}

proof fn lemma_subquery_balanced(toks: Seq<Token>, pos: int)
    ensures
        spec_subquery(toks, pos) matches Outcome::Parsed(n, _) ==> balanced(toks, pos, n),
        !kind_at(toks, pos, TokenKind::SELECT) ==> (spec_subquery(toks, pos) matches Outcome::Parsed(
            n,
            _,
        ) ==> clean(toks, pos, n)),
    decreases remaining(toks, pos), 3int,
{
    lemma_parenthesized_query_clean(toks, pos);
    lemma_query_balanced(toks, pos);
    if !kind_at(toks, pos, TokenKind::SELECT) {
        lemma_query_needs_select(toks, pos);
    }
    let inner = crate::util::or_else(spec_parenthesized_query(toks, pos), spec_query(toks, pos));
    if let Outcome::Parsed(n, _) = inner {
        lemma_alias_clean(toks, n);
        lemma_balanced_concat(toks, pos, n, opt_table_alias(toks, n).0);
    }
}

proof fn lemma_query_needs_select(toks: Seq<Token>, pos: int)
    requires
        !kind_at(toks, pos, TokenKind::SELECT),
    ensures
        !(spec_query(toks, pos) is Parsed),
{
    assert(spec_select(toks, pos) is Backtrack);
    assert(!(spec_set_expr(toks, pos) is Parsed));
}

proof fn lemma_parenthesized_query_clean(toks: Seq<Token>, pos: int)
    ensures
        spec_parenthesized_query(toks, pos) matches Outcome::Parsed(n, _) ==> clean(toks, pos, n),
    decreases remaining(toks, pos), 1int,
{
    if kind_at(toks, pos, TokenKind::LParen) {
        lemma_parenthesized_query_clean(toks, pos + 1);
        lemma_query_balanced(toks, pos + 1);
        if let Outcome::Parsed(n, _) = spec_parenthesized_query(toks, pos) {
            lemma_wrap_clean(toks, pos, n - 1);
        }
    }
}


// ---------------------------------------------------------------------------
// Counting the `JOIN` keywords of a joined table reference
// ---------------------------------------------------------------------------
/// No `SELECT` keyword of `[a, b)` stands outside the parentheses opened there: no subquery
/// without parentheses starts in that range.
pub open spec fn no_bare_select(toks: Seq<Token>, a: int, b: int) -> bool {
    forall|q: int|
        a <= q < b && #[trigger] kind_at(toks, q, TokenKind::SELECT) ==> depth(toks, a, q) > 0
}

proof fn lemma_no_bare_select_suffix(toks: Seq<Token>, a: int, m: int, b: int)
    requires
        no_bare_select(toks, a, b),
        balanced(toks, a, m),
        m <= b,
    ensures
        no_bare_select(toks, m, b),
{
    assert forall|q: int| m <= q < b && #[trigger] kind_at(toks, q, TokenKind::SELECT) implies depth(
        toks,
        m,
        q,
    ) > 0 by {
        lemma_depth_split(toks, a, m, q);
    }
}

/// A table reference that is not an unparenthesized subquery is clean.
proof fn lemma_operand_clean(toks: Seq<Token>, q: int)
    ensures
        spec_table_ref_without_join(toks, q) matches Outcome::Parsed(n, _) ==> balanced(toks, q, n)
            && (!kind_at(toks, q, TokenKind::SELECT) ==> clean(toks, q, n)),
{
    lemma_table_ref_without_join_balanced(toks, q);
    lemma_parenthesized_joined_tables_clean(toks, q);
    lemma_subquery_balanced(toks, q);
    lemma_table_function_clean(toks, q);
    lemma_aliased_table_clean(toks, q);
}

/// The operator words, the `JOIN` keyword at `j`, the right operand parsed from `j + 1` to
/// `p2` and the condition up to `n`.
proof fn lemma_element_parts_count(toks: Seq<Token>, p: int, j: int, p2: int, n: int)
    requires
        clean(toks, p, j),
        kind_at(toks, j, TokenKind::JOIN),
        balanced(toks, j + 1, p2),
        !kind_at(toks, j + 1, TokenKind::SELECT) ==> clean(toks, j + 1, p2),
        clean(toks, p2, n),
        no_bare_select(toks, p, n),
    ensures
        balanced(toks, p, n),
        joins_outside(toks, p, n) == 1,
{
    lemma_join_token(toks, j);
    lemma_balanced_concat(toks, p, j, j + 1);
    lemma_balanced_concat(toks, j + 1, p2, n);
    if j + 1 < p2 {
        assert(!kind_at(toks, j + 1, TokenKind::SELECT));
    } else {
        lemma_empty_clean(toks, j + 1);
    }
    lemma_balanced_concat(toks, p, j + 1, n);
}

proof fn lemma_element_count(toks: Seq<Token>, p: int)
    ensures
        spec_join_element(toks, p) matches Outcome::Parsed(n, _) ==> (no_bare_select(toks, p, n)
            ==> balanced(toks, p, n) && joins_outside(toks, p, n) == 1),
{
    if let Outcome::Parsed(n, _) = spec_join_element(toks, p) {
        if no_bare_select(toks, p, n) {
            let p1 = opt_join_operator(toks, p).0;
            let q1 = opt_join_operator(toks, p + 1).0;
            lemma_operator_plain(toks, p);
            lemma_operator_plain(toks, p + 1);
            if kind_at(toks, p1, TokenKind::JOIN) && spec_table_ref_without_join(toks, p1 + 1) is Parsed {
                let p2 = spec_table_ref_without_join(toks, p1 + 1)->Parsed_0;
                lemma_operand_clean(toks, p1 + 1);
                lemma_join_condition_clean(toks, p2);
                lemma_empty_clean(toks, p2);
                lemma_element_parts_count(toks, p, p1, p2, n);
            } else {
                let p2 = spec_table_ref_without_join(toks, q1 + 1)->Parsed_0;
                lemma_plain_clean(toks, p, p + 1);
                lemma_clean_concat(toks, p, p + 1, q1);
                lemma_operand_clean(toks, q1 + 1);
                lemma_empty_clean(toks, p2);
                lemma_element_parts_count(toks, p, q1, p2, n);
            }
        }
    }
}

proof fn lemma_chain_count(
    toks: Seq<Token>,
    ps: Seq<int>,
    es: Seq<(JoinOperator, SpecJoinCondition, SpecTableReference)>,
    i: int,
)
    requires
        join_chain(toks, ps, es),
        0 <= i < ps.len(),
        no_bare_select(toks, ps[i], ps.last()),
    ensures
        balanced(toks, ps[i], ps.last()),
        joins_outside(toks, ps[i], ps.last()) == es.len() - i,
    decreases ps.len() - i,
{
    if i == ps.len() - 1 {
        lemma_empty_clean(toks, ps[i]);
    } else {
        assert(spec_join_element(toks, ps[i]) == Outcome::Parsed(ps[i + 1], es[i]));
        lemma_chain_increasing_from(toks, ps, es, i + 1);
        lemma_element_count(toks, ps[i]);
        assert(no_bare_select(toks, ps[i], ps[i + 1]));
        lemma_no_bare_select_suffix(toks, ps[i], ps[i + 1], ps.last());
        lemma_chain_count(toks, ps, es, i + 1);
        lemma_balanced_concat(toks, ps[i], ps[i + 1], ps.last());
    }
}

proof fn lemma_chain_increasing_from(
    toks: Seq<Token>,
    ps: Seq<int>,
    es: Seq<(JoinOperator, SpecJoinCondition, SpecTableReference)>,
    i: int,
)
    requires
        join_chain(toks, ps, es),
        0 <= i < ps.len(),
    ensures
        ps[i] <= ps.last(),
    decreases ps.len() - i,
{
    if i < ps.len() - 1 {
        assert(spec_join_element(toks, ps[i]) == Outcome::Parsed(ps[i + 1], es[i]));
        lemma_chain_increasing_from(toks, ps, es, i + 1);
    }
}

/// A joined table reference holds one `JOIN` keyword outside parentheses per `Join` node of
/// its left spine: where no subquery without parentheses starts among the tokens it was
/// parsed from, their parentheses are balanced and the `JOIN` keywords outside them are
/// exactly as many as the join elements of [`join_spine`].
///
/// A subquery without parentheses as an operand is left out: its own `JOIN` keywords stand
/// outside parentheses too, though they join inside the subquery.
pub proof fn law_join_count(toks: Seq<Token>, pos: int)
    ensures
        spec_joined_tables(toks, pos) matches Outcome::Parsed(end, t) ==> (no_bare_select(
            toks,
            pos,
            end,
        ) ==> {
            &&& balanced(toks, pos, end)
            &&& exists|
                first: SpecTableReference,
                ps: Seq<int>,
                es: Seq<(JoinOperator, SpecJoinCondition, SpecTableReference)>,
            |
                #[trigger] join_spine(toks, pos, end, t, first, ps, es) && joins_outside(
                    toks,
                    pos,
                    end,
                ) == es.len()
        }),
{
    law_join_spine(toks, pos);
    if let Outcome::Parsed(end, t) = spec_joined_tables(toks, pos) {
        if no_bare_select(toks, pos, end) {
            let (first, ps, es) = choose|
                first: SpecTableReference,
                ps: Seq<int>,
                es: Seq<(JoinOperator, SpecJoinCondition, SpecTableReference)>,
            | #[trigger] join_spine(toks, pos, end, t, first, ps, es);
            lemma_count_from_spine(toks, pos, end, t, first, ps, es);
        }
    }
}

proof fn lemma_count_from_spine(
    toks: Seq<Token>,
    pos: int,
    end: int,
    t: SpecTableReference,
    first: SpecTableReference,
    ps: Seq<int>,
    es: Seq<(JoinOperator, SpecJoinCondition, SpecTableReference)>,
)
    requires
        join_spine(toks, pos, end, t, first, ps, es),
        pos < end,
        no_bare_select(toks, pos, end),
    ensures
        balanced(toks, pos, end),
        joins_outside(toks, pos, end) == es.len(),
{
    lemma_chain_increasing_from(toks, ps, es, 0);
    assert(!kind_at(toks, pos, TokenKind::SELECT));
    lemma_operand_clean(toks, pos);
    lemma_no_bare_select_suffix(toks, pos, ps[0], end);
    lemma_chain_count(toks, ps, es, 0);
    lemma_balanced_concat(toks, pos, ps[0], end);
}

} // verus!
