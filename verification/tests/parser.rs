use databend_query::ast::{
    BinaryOperator, Expr, Identifier, Indirection, JoinCondition, JoinOperator, Literal, Query,
    SelectTarget, SetExpr, SetOperator, TableReference, TimeTravelPoint, UnaryOperator,
};
use databend_query::expr::expr;
use databend_query::query::{
    alias_name, aliased_table, join_operator, joined_tables, order_by_expr,
    parenthesized_joined_tables, parenthesized_query, query, select_target, set_expr, subquery,
    table_alias, table_function, table_reference, travel_point,
};
use databend_query::token::{Token, TokenKind};
use databend_query::util::ParseError;

/// Tokens from a whitespace separated source: keywords in upper case, symbols, numbers,
/// 'strings' and identifiers.
fn lex(src: &str) -> Vec<Token> {
    src.split_whitespace()
        .map(|w| {
            let kind = match w {
                "(" => TokenKind::LParen,
                ")" => TokenKind::RParen,
                "," => TokenKind::Comma,
                "." => TokenKind::Period,
                "*" => TokenKind::Multiply,
                "/" => TokenKind::Divide,
                "%" => TokenKind::Modulo,
                "+" => TokenKind::Plus,
                "-" => TokenKind::Minus,
                "=" => TokenKind::Eq,
                "<>" => TokenKind::NotEq,
                "<" => TokenKind::Lt,
                "<=" => TokenKind::Lte,
                ">" => TokenKind::Gt,
                ">=" => TokenKind::Gte,
                "=>" => TokenKind::RArrow,
                "ALL" => TokenKind::ALL,
                "AND" => TokenKind::AND,
                "AS" => TokenKind::AS,
                "ASC" => TokenKind::ASC,
                "AT" => TokenKind::AT,
                "BY" => TokenKind::BY,
                "CROSS" => TokenKind::CROSS,
                "DESC" => TokenKind::DESC,
                "DISTINCT" => TokenKind::DISTINCT,
                "EXCEPT" => TokenKind::EXCEPT,
                "FALSE" => TokenKind::FALSE,
                "FORMAT" => TokenKind::FORMAT,
                "FROM" => TokenKind::FROM,
                "FULL" => TokenKind::FULL,
                "GROUP" => TokenKind::GROUP,
                "HAVING" => TokenKind::HAVING,
                "INNER" => TokenKind::INNER,
                "INTERSECT" => TokenKind::INTERSECT,
                "JOIN" => TokenKind::JOIN,
                "LEFT" => TokenKind::LEFT,
                "LIMIT" => TokenKind::LIMIT,
                "NATURAL" => TokenKind::NATURAL,
                "NOT" => TokenKind::NOT,
                "NULL" => TokenKind::NULL,
                "OFFSET" => TokenKind::OFFSET,
                "ON" => TokenKind::ON,
                "OR" => TokenKind::OR,
                "ORDER" => TokenKind::ORDER,
                "OUTER" => TokenKind::OUTER,
                "RIGHT" => TokenKind::RIGHT,
                "SELECT" => TokenKind::SELECT,
                "SNAPSHOT" => TokenKind::SNAPSHOT,
                "TRUE" => TokenKind::TRUE,
                "UNION" => TokenKind::UNION,
                "USING" => TokenKind::USING,
                "WHERE" => TokenKind::WHERE,
                _ if w.starts_with('\'') => TokenKind::LiteralString,
                _ if w.chars().all(|c| c.is_ascii_digit()) => TokenKind::LiteralNumber,
                _ => TokenKind::Ident,
            };
            let text = if kind == TokenKind::LiteralString {
                w.trim_matches('\'').to_string()
            } else {
                w.to_string()
            };
            Token { kind, text }
        })
        .collect()
}

fn id(name: &str) -> Identifier {
    Identifier { name: name.to_string() }
}

fn col(name: &str) -> Expr {
    Expr::ColumnRef { database: None, table: None, column: id(name) }
}

fn num(n: &str) -> Expr {
    Expr::Literal(Literal::Number(n.to_string()))
}

fn bin(op: BinaryOperator, l: Expr, r: Expr) -> Expr {
    Expr::BinaryOp { op, left: Box::new(l), right: Box::new(r) }
}

fn table(name: &str) -> TableReference {
    TableReference::Table { catalog: None, database: None, table: id(name), alias: None, travel_point: None }
}

#[test]
fn expr_multiplication_binds_tighter_than_addition() {
    let toks = lex("a + 1 * 2");
    let (n, e) = expr(&toks, 0).unwrap();
    assert_eq!(n, 5);
    assert_eq!(e, bin(BinaryOperator::Plus, col("a"), bin(BinaryOperator::Multiply, num("1"), num("2"))));
}

#[test]
fn expr_operators_of_one_level_fold_left() {
    let toks = lex("a - b - c");
    let (_, e) = expr(&toks, 0).unwrap();
    assert_eq!(e, bin(BinaryOperator::Minus, bin(BinaryOperator::Minus, col("a"), col("b")), col("c")));
}

#[test]
fn expr_not_binds_looser_than_comparison() {
    let toks = lex("NOT a = 1 AND b OR c");
    let (n, e) = expr(&toks, 0).unwrap();
    assert_eq!(n, 8);
    let not = Expr::UnaryOp { op: UnaryOperator::Not, expr: Box::new(bin(BinaryOperator::Eq, col("a"), num("1"))) };
    assert_eq!(e, bin(BinaryOperator::Or, bin(BinaryOperator::And, not, col("b")), col("c")));
}

#[test]
fn expr_function_call_column_ref_and_literals() {
    let toks = lex("f ( db . t . c , 'x' , - 3 , NULL , TRUE ) * ( 1 )");
    let (n, e) = expr(&toks, 0).unwrap();
    assert_eq!(n, toks.len());
    let call = Expr::FunctionCall {
        name: id("f"),
        args: vec![
            Expr::ColumnRef { database: Some(id("db")), table: Some(id("t")), column: id("c") },
            Expr::Literal(Literal::String("x".to_string())),
            Expr::UnaryOp { op: UnaryOperator::Minus, expr: Box::new(num("3")) },
            Expr::Literal(Literal::Null),
            Expr::Literal(Literal::Boolean(true)),
        ],
    };
    assert_eq!(e, bin(BinaryOperator::Multiply, call, num("1")));
}

#[test]
fn expr_stops_before_an_operator_without_operand() {
    let toks = lex("a + )");
    assert_eq!(expr(&toks, 0).unwrap(), (1, col("a")));
}

#[test]
fn expr_error_where_nothing_starts_an_expression() {
    let toks = lex(")");
    assert_eq!(expr(&toks, 0), Err(ParseError::Error(0)));
    let toks = lex("f ( 1");
    assert_eq!(expr(&toks, 0).unwrap(), (1, col("f")));
}

#[test]
fn select_target_wildcards() {
    let toks = lex("*");
    assert_eq!(select_target(&toks, 0).unwrap(), (1, SelectTarget::QualifiedName(vec![Indirection::Star])));
    let toks = lex("t . *");
    assert_eq!(
        select_target(&toks, 0).unwrap(),
        (3, SelectTarget::QualifiedName(vec![Indirection::Identifier(id("t")), Indirection::Star]))
    );
    let toks = lex("db . t . *");
    assert_eq!(
        select_target(&toks, 0).unwrap(),
        (
            5,
            SelectTarget::QualifiedName(vec![
                Indirection::Identifier(id("db")),
                Indirection::Identifier(id("t")),
                Indirection::Star
            ])
        )
    );
}

#[test]
fn select_target_aliased_expressions() {
    let toks = lex("a + 1 AS x");
    assert_eq!(
        select_target(&toks, 0).unwrap(),
        (5, SelectTarget::AliasedExpr { expr: Box::new(bin(BinaryOperator::Plus, col("a"), num("1"))), alias: Some(id("x")) })
    );
    let toks = lex("a b");
    assert_eq!(
        select_target(&toks, 0).unwrap(),
        (2, SelectTarget::AliasedExpr { expr: Box::new(col("a")), alias: Some(id("b")) })
    );
}

#[test]
fn alias_name_and_table_alias() {
    let toks = lex("AS x");
    assert_eq!(alias_name(&toks, 0).unwrap(), (2, id("x")));
    assert_eq!(table_alias(&toks, 0).unwrap().1.name, id("x"));
    assert!(table_alias(&toks, 0).unwrap().1.columns.is_empty());
    let toks = lex("AS )");
    assert_eq!(alias_name(&toks, 0), Err(ParseError::Error(1)));
    let toks = lex("FROM");
    assert_eq!(alias_name(&toks, 0), Err(ParseError::Error(0)));
}

#[test]
fn travel_point_snapshot() {
    let toks = lex("AT ( SNAPSHOT => 'abc' )");
    assert_eq!(travel_point(&toks, 0).unwrap(), (6, TimeTravelPoint::Snapshot("abc".to_string())));
    let toks = lex("AT ( SNAPSHOT => abc )");
    assert_eq!(travel_point(&toks, 0), Err(ParseError::Error(4)));
}

#[test]
fn aliased_table_parts() {
    let toks = lex("c . d . t AT ( SNAPSHOT => 's1' ) AS x");
    let (n, t) = aliased_table(&toks, 0).unwrap();
    assert_eq!(n, toks.len());
    match t {
        TableReference::Table { catalog, database, table, alias, travel_point } => {
            assert_eq!(catalog, Some(id("c")));
            assert_eq!(database, Some(id("d")));
            assert_eq!(table, id("t"));
            assert_eq!(alias.unwrap().name, id("x"));
            assert_eq!(travel_point, Some(TimeTravelPoint::Snapshot("s1".to_string())));
        }
        _ => panic!("not a table"),
    }
    let toks = lex("d . t");
    match aliased_table(&toks, 0).unwrap().1 {
        TableReference::Table { catalog, database, table, .. } => {
            assert_eq!(catalog, None);
            assert_eq!(database, Some(id("d")));
            assert_eq!(table, id("t"));
        }
        _ => panic!("not a table"),
    }
}

#[test]
fn table_function_with_alias() {
    let toks = lex("numbers ( 10 ) n");
    match table_function(&toks, 0).unwrap() {
        (5, TableReference::TableFunction { name, params, alias }) => {
            assert_eq!(name, id("numbers"));
            assert_eq!(params, vec![num("10")]);
            assert_eq!(alias.unwrap().name, id("n"));
        }
        other => panic!("{:?}", other),
    }
    let toks = lex("numbers ( )");
    assert!(matches!(table_function(&toks, 0), Ok((3, TableReference::TableFunction { .. }))));
}

#[test]
fn join_operators() {
    assert_eq!(join_operator(&lex("LEFT OUTER"), 0).unwrap(), (2, JoinOperator::LeftOuter));
    assert_eq!(join_operator(&lex("RIGHT"), 0).unwrap(), (1, JoinOperator::RightOuter));
    assert_eq!(join_operator(&lex("FULL OUTER"), 0).unwrap(), (2, JoinOperator::FullOuter));
    assert_eq!(join_operator(&lex("INNER"), 0).unwrap(), (1, JoinOperator::Inner));
    assert_eq!(join_operator(&lex("CROSS"), 0).unwrap(), (1, JoinOperator::CrossJoin));
    assert_eq!(join_operator(&lex("JOIN"), 0), Err(ParseError::Error(0)));
}

#[test]
fn joined_tables_fold_to_the_left() {
    let toks = lex("a JOIN b ON x = y NATURAL LEFT JOIN c CROSS JOIN d USING ( k , l )");
    let (n, t) = joined_tables(&toks, 0).unwrap();
    assert_eq!(n, toks.len());
    let TableReference::Join(j3) = t else { panic!("not a join") };
    assert_eq!(j3.op, JoinOperator::CrossJoin);
    assert_eq!(j3.condition, JoinCondition::Using(vec![id("k"), id("l")]));
    assert_eq!(*j3.right, table("d"));
    let TableReference::Join(j2) = *j3.left else { panic!("not a join") };
    assert_eq!(j2.op, JoinOperator::LeftOuter);
    assert_eq!(j2.condition, JoinCondition::Natural);
    assert_eq!(*j2.right, table("c"));
    let TableReference::Join(j1) = *j2.left else { panic!("not a join") };
    assert_eq!(j1.op, JoinOperator::Inner);
    assert_eq!(j1.condition, JoinCondition::On(Box::new(bin(BinaryOperator::Eq, col("x"), col("y")))));
    assert_eq!(*j1.left, table("a"));
    assert_eq!(*j1.right, table("b"));
}

#[test]
fn joined_tables_need_a_join() {
    let toks = lex("a b");
    assert!(matches!(joined_tables(&toks, 0), Err(ParseError::Error(_))));
    let toks = lex("a JOIN b");
    match joined_tables(&toks, 0).unwrap() {
        (3, TableReference::Join(j)) => assert_eq!(j.condition, JoinCondition::NoCondition),
        other => panic!("{:?}", other),
    }
}

#[test]
fn table_reference_alternatives() {
    let toks = lex("t x");
    match table_reference(&toks, 0).unwrap() {
        (2, TableReference::Table { table, alias, .. }) => {
            assert_eq!(table, id("t"));
            assert_eq!(alias.unwrap().name, id("x"));
        }
        other => panic!("{:?}", other),
    }
    let toks = lex("( a JOIN b )");
    assert!(matches!(table_reference(&toks, 0), Ok((5, TableReference::Join(_)))));
    assert!(matches!(parenthesized_joined_tables(&toks, 0), Ok((5, TableReference::Join(_)))));
    let toks = lex("( SELECT a ) s");
    match table_reference(&toks, 0).unwrap() {
        (5, TableReference::Subquery { subquery, alias }) => {
            assert_eq!(alias.unwrap().name, id("s"));
            assert_eq!(subquery.span, (1, 3));
        }
        other => panic!("{:?}", other),
    }
    assert!(matches!(subquery(&toks, 0), Ok((5, TableReference::Subquery { .. }))));
}

#[test]
fn parenthesized_query_nests() {
    let toks = lex("( ( SELECT 1 ) )");
    let (n, q) = parenthesized_query(&toks, 0).unwrap();
    assert_eq!(n, 6);
    assert_eq!(q.span, (2, 4));
    let toks = lex("( SELECT 1");
    assert_eq!(parenthesized_query(&toks, 0), Err(ParseError::Error(3)));
}

fn select_of(q: &Query) -> &databend_query::ast::SelectStmt {
    match &q.body {
        SetExpr::Select(s) => s,
        _ => panic!("not a select"),
    }
}

#[test]
fn query_with_every_clause() {
    let src = "SELECT DISTINCT a , b FROM t , u WHERE a > 1 GROUP BY a , b HAVING a < 3 ORDER BY a DESC , b LIMIT 10 OFFSET 2 FORMAT csv";
    let toks = lex(src);
    let (n, q) = query(&toks, 0).unwrap();
    assert_eq!(n, toks.len());
    assert_eq!(q.span, (0, toks.len()));
    let s = select_of(&q);
    assert!(s.distinct);
    assert_eq!(s.select_list.len(), 2);
    assert_eq!(s.from, vec![table("t"), table("u")]);
    assert_eq!(s.selection, Some(bin(BinaryOperator::Gt, col("a"), num("1"))));
    assert_eq!(s.group_by, vec![col("a"), col("b")]);
    assert_eq!(s.having, Some(bin(BinaryOperator::Lt, col("a"), num("3"))));
    assert_eq!(q.order_by.len(), 2);
    assert_eq!(q.order_by[0].asc, Some(false));
    assert_eq!(q.order_by[1].asc, None);
    assert_eq!(q.order_by[1].nulls_first, None);
    assert_eq!(q.limit, vec![num("10")]);
    assert_eq!(q.offset, Some(num("2")));
    assert_eq!(q.format, Some("csv".to_string()));
}

#[test]
fn query_stops_before_what_does_not_belong() {
    let toks = lex("SELECT a FORMAT ) x");
    let (n, q) = query(&toks, 0).unwrap();
    assert_eq!(n, 2);
    assert_eq!(q.format, None);
    assert!(q.order_by.is_empty());
    assert!(q.limit.is_empty());
}

#[test]
fn query_commits_after_keywords() {
    assert_eq!(query(&lex("SELECT a FROM"), 0), Err(ParseError::Failure(3)));
    assert_eq!(query(&lex("SELECT a ORDER x"), 0), Err(ParseError::Failure(3)));
    assert_eq!(query(&lex("SELECT a WHERE )"), 0), Err(ParseError::Failure(3)));
    assert_eq!(query(&lex("SELECT a GROUP BY )"), 0), Err(ParseError::Failure(4)));
    assert_eq!(query(&lex("SELECT a LIMIT"), 0), Err(ParseError::Failure(3)));
    assert_eq!(query(&lex("SELECT a OFFSET"), 0), Err(ParseError::Failure(3)));
    // a commit inside a subquery is not caught by the alternatives around it
    assert_eq!(query(&lex("SELECT a FROM ( SELECT b FROM ) x"), 0), Err(ParseError::Failure(7)));
}

#[test]
fn query_error_without_select() {
    assert_eq!(query(&lex("FROM t"), 0), Err(ParseError::Error(0)));
    assert_eq!(query(&lex(""), 0), Err(ParseError::Error(0)));
}

#[test]
fn set_expr_operations() {
    let toks = lex("SELECT a UNION ALL SELECT b EXCEPT SELECT c");
    let (n, e) = set_expr(&toks, 0).unwrap();
    assert_eq!(n, toks.len());
    match e {
        SetExpr::SetOperation { op, all, left, right } => {
            assert_eq!(op, SetOperator::Union);
            assert!(all);
            assert!(matches!(*left, SetExpr::Select(_)));
            match *right {
                SetExpr::SetOperation { op, all, .. } => {
                    assert_eq!(op, SetOperator::Except);
                    assert!(!all);
                }
                other => panic!("{:?}", other),
            }
        }
        other => panic!("{:?}", other),
    }
    let toks = lex("SELECT a INTERSECT SELECT b");
    assert!(matches!(set_expr(&toks, 0), Ok((5, SetExpr::SetOperation { op: SetOperator::Intersect, .. }))));
}

#[test]
fn set_operator_without_right_operand_is_an_error() {
    assert_eq!(set_expr(&lex("SELECT 1 UNION"), 0), Err(ParseError::MissingOperand(3)));
    assert_eq!(set_expr(&lex("SELECT 1 EXCEPT ALL"), 0), Err(ParseError::MissingOperand(4)));
    assert_eq!(query(&lex("SELECT 1 INTERSECT ORDER BY a"), 0), Err(ParseError::MissingOperand(3)));
    assert_eq!(
        table_reference(&lex("t JOIN SELECT 1 UNION"), 0),
        Err(ParseError::MissingOperand(5))
    );
}

#[test]
fn select_fields_follow_the_clauses() {
    let toks = lex("SELECT DISTINCT a , b FROM t , u JOIN v WHERE a GROUP BY a , b HAVING b");
    let (n, e) = set_expr(&toks, 0).unwrap();
    assert_eq!(n, toks.len());
    match e {
        SetExpr::Select(s) => {
            assert!(s.distinct);
            assert_eq!(s.select_list.len(), 2);
            assert_eq!(s.from.len(), 2);
            assert!(matches!(s.from[1], TableReference::Join(_)));
            assert!(s.selection.is_some());
            assert_eq!(s.group_by.len(), 2);
            assert!(s.having.is_some());
        }
        other => panic!("{:?}", other),
    }
    let toks = lex("SELECT a");
    match set_expr(&toks, 0).unwrap().1 {
        SetExpr::Select(s) => {
            assert!(!s.distinct);
            assert_eq!(s.select_list.len(), 1);
            assert!(s.from.is_empty());
            assert!(s.selection.is_none());
            assert!(s.group_by.is_empty());
            assert!(s.having.is_none());
        }
        other => panic!("{:?}", other),
    }
}

#[test]
fn join_spine_has_one_join_per_clause() {
    let toks = lex("a JOIN ( b JOIN c ) NATURAL LEFT JOIN d , e");
    let (n, t) = joined_tables(&toks, 0).unwrap();
    assert_eq!(n, 11);
    match t {
        TableReference::Join(top) => {
            assert_eq!(top.op, JoinOperator::LeftOuter);
            assert_eq!(top.condition, JoinCondition::Natural);
            assert!(matches!(*top.right, TableReference::Table { .. }));
            match *top.left {
                TableReference::Join(inner) => {
                    assert!(matches!(*inner.right, TableReference::Join(_)));
                    assert!(matches!(*inner.left, TableReference::Table { .. }));
                }
                other => panic!("{:?}", other),
            }
        }
        other => panic!("{:?}", other),
    }
}

#[test]
fn set_expr_without_operator_consumes_a_following_select() {
    let toks = lex("SELECT a SELECT b");
    let (n, e) = set_expr(&toks, 0).unwrap();
    assert_eq!(n, 4);
    assert!(matches!(e, SetExpr::Select(_)));
}

#[test]
fn order_by_expr_direction() {
    assert_eq!(order_by_expr(&lex("a ASC"), 0).unwrap().1.asc, Some(true));
    assert_eq!(order_by_expr(&lex("a DESC"), 0).unwrap().1.asc, Some(false));
    assert_eq!(order_by_expr(&lex("a"), 0).unwrap(), (1, databend_query::ast::OrderByExpr { expr: col("a"), asc: None, nulls_first: None }));
}
