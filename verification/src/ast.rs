use vstd::prelude::*;

verus! {

/// A name: of a column, a table, a function, an alias.
#[derive(Debug, PartialEq, Eq)]
pub struct Identifier {
    pub name: String,
}

/// A constant written in an expression.
#[derive(Debug, PartialEq, Eq)]
pub enum Literal {
    Number(String),
    String(String),
    Boolean(bool),
    Null,
}

#[derive(PartialEq, Eq, Structural, Clone, Copy, Debug)]
pub enum UnaryOperator {
    Minus,
    Not,
}

#[derive(PartialEq, Eq, Structural, Clone, Copy, Debug)]
pub enum BinaryOperator {
    Or,
    And,
    Eq,
    NotEq,
    Lt,
    Lte,
    Gt,
    Gte,
    Plus,
    Minus,
    Multiply,
    Divide,
    Modulo,
}

/// An expression.
#[allow(inconsistent_fields)]
#[derive(Debug, PartialEq, Eq)]
pub enum Expr {
    /// `[database.][table.]column`
    ColumnRef { database: Option<Identifier>, table: Option<Identifier>, column: Identifier },
    Literal(Literal),
    /// `name(arg, ...)`
    FunctionCall { name: Identifier, args: Vec<Expr> },
    UnaryOp { op: UnaryOperator, expr: Box<Expr> },
    BinaryOp { op: BinaryOperator, left: Box<Expr>, right: Box<Expr> },
}

/// The mathematical value of an [`Expr`].
#[allow(inconsistent_fields)]
pub enum SpecExpr {
    ColumnRef { database: Option<Identifier>, table: Option<Identifier>, column: Identifier },
    Literal(Literal),
    FunctionCall { name: Identifier, args: Seq<SpecExpr> },
    UnaryOp { op: UnaryOperator, expr: Box<SpecExpr> },
    BinaryOp { op: BinaryOperator, left: Box<SpecExpr>, right: Box<SpecExpr> },
}

#[derive(PartialEq, Eq, Structural, Clone, Copy, Debug)]
pub enum SetOperator {
    Union,
    Except,
    Intersect,
}

#[derive(PartialEq, Eq, Structural, Clone, Copy, Debug)]
pub enum JoinOperator {
    Inner,
    LeftOuter,
    RightOuter,
    FullOuter,
    CrossJoin,
}

/// A time travel point of a table: the snapshot it is read at.
#[derive(Debug, PartialEq, Eq)]
pub enum TimeTravelPoint {
    Snapshot(String),
}

/// A part of a qualified wildcard such as `db.t.*`.
#[derive(Debug, PartialEq, Eq)]
pub enum Indirection {
    Identifier(Identifier),
    Star,
}

/// `expr [ASC | DESC]` of an `ORDER BY` list.
#[derive(Debug, PartialEq, Eq)]
pub struct OrderByExpr {
    pub expr: Expr,
    pub asc: Option<bool>,
    pub nulls_first: Option<bool>,
}

pub struct SpecOrderByExpr {
    pub expr: SpecExpr,
    pub asc: Option<bool>,
    pub nulls_first: Option<bool>,
}

/// An item of the `SELECT` list.
#[derive(Debug, PartialEq, Eq)]
pub enum SelectTarget {
    AliasedExpr { expr: Box<Expr>, alias: Option<Identifier> },
    QualifiedName(Vec<Indirection>),
}

pub enum SpecSelectTarget {
    AliasedExpr { expr: Box<SpecExpr>, alias: Option<Identifier> },
    QualifiedName(Seq<Indirection>),
}

/// The alias of a table reference.
#[derive(Debug, PartialEq, Eq)]
pub struct TableAlias {
    pub name: Identifier,
    pub columns: Vec<Identifier>,
}

pub struct SpecTableAlias {
    pub name: Identifier,
    pub columns: Seq<Identifier>,
}

/// The condition of a join.
#[derive(Debug, PartialEq, Eq)]
pub enum JoinCondition {
    On(Box<Expr>),
    Using(Vec<Identifier>),
    Natural,
    NoCondition,
}

pub enum SpecJoinCondition {
    On(Box<SpecExpr>),
    Using(Seq<Identifier>),
    Natural,
    NoCondition,
}

/// An item of the `FROM` list.
#[derive(Debug, PartialEq, Eq)]
pub enum TableReference {
    /// `[catalog.][database.]table [AT (SNAPSHOT => '...')] [alias]`
    Table {
        catalog: Option<Identifier>,
        database: Option<Identifier>,
        table: Identifier,
        alias: Option<TableAlias>,
        travel_point: Option<TimeTravelPoint>,
    },
    /// `name(params) [alias]`
    TableFunction { name: Identifier, params: Vec<Expr>, alias: Option<TableAlias> },
    /// `(query) [alias]`
    Subquery { subquery: Box<Query>, alias: Option<TableAlias> },
    Join(Join),
}

#[derive(Debug, PartialEq, Eq)]
pub struct Join {
    pub op: JoinOperator,
    pub condition: JoinCondition,
    pub left: Box<TableReference>,
    pub right: Box<TableReference>,
}

pub enum SpecTableReference {
    Table {
        catalog: Option<Identifier>,
        database: Option<Identifier>,
        table: Identifier,
        alias: Option<SpecTableAlias>,
        travel_point: Option<TimeTravelPoint>,
    },
    TableFunction { name: Identifier, params: Seq<SpecExpr>, alias: Option<SpecTableAlias> },
    Subquery { subquery: Box<SpecQuery>, alias: Option<SpecTableAlias> },
    Join(SpecJoin),
}

pub struct SpecJoin {
    pub op: JoinOperator,
    pub condition: SpecJoinCondition,
    pub left: Box<SpecTableReference>,
    pub right: Box<SpecTableReference>,
}

/// `SELECT [DISTINCT] list [FROM ...] [WHERE ...] [GROUP BY ...] [HAVING ...]`
#[derive(Debug, PartialEq, Eq)]
pub struct SelectStmt {
    pub distinct: bool,
    pub select_list: Vec<SelectTarget>,
    pub from: Vec<TableReference>,
    pub selection: Option<Expr>,
    pub group_by: Vec<Expr>,
    pub having: Option<Expr>,
}

pub struct SpecSelectStmt {
    pub distinct: bool,
    pub select_list: Seq<SpecSelectTarget>,
    pub from: Seq<SpecTableReference>,
    pub selection: Option<SpecExpr>,
    pub group_by: Seq<SpecExpr>,
    pub having: Option<SpecExpr>,
}

/// A `SELECT` statement, or set operations over them.
#[derive(Debug, PartialEq, Eq)]
pub enum SetExpr {
    Select(Box<SelectStmt>),
    SetOperation { op: SetOperator, all: bool, left: Box<SetExpr>, right: Box<SetExpr> },
}

pub enum SpecSetExpr {
    Select(Box<SpecSelectStmt>),
    SetOperation { op: SetOperator, all: bool, left: Box<SpecSetExpr>, right: Box<SpecSetExpr> },
}

/// A query: its body with `ORDER BY`, `LIMIT`, `OFFSET` and `FORMAT`.
///
/// `span` is the range of token positions `[start, end)` the query was parsed from.
#[derive(Debug, PartialEq, Eq)]
pub struct Query {
    pub span: (usize, usize),
    pub body: SetExpr,
    pub order_by: Vec<OrderByExpr>,
    pub limit: Vec<Expr>,
    pub offset: Option<Expr>,
    pub format: Option<String>,
}

pub struct SpecQuery {
    pub span: (int, int),
    pub body: SpecSetExpr,
    pub order_by: Seq<SpecOrderByExpr>,
    pub limit: Seq<SpecExpr>,
    pub offset: Option<SpecExpr>,
    pub format: Option<String>,
}

// ---------------------------------------------------------------------------
// Views
// ---------------------------------------------------------------------------
pub open spec fn view_expr(e: Expr) -> SpecExpr
    decreases e,
{
    match e {
        Expr::ColumnRef { database, table, column } => SpecExpr::ColumnRef { database, table, column },
        Expr::Literal(l) => SpecExpr::Literal(l),
        Expr::FunctionCall { name, args } => SpecExpr::FunctionCall {
            name,
            args: Seq::new(
                args@.len(),
                |i: int|
                    if 0 <= i < args@.len() {
                        view_expr(args@[i])
                    } else {
                        SpecExpr::Literal(Literal::Null)
                    },
            ),
        },
        Expr::UnaryOp { op, expr } => SpecExpr::UnaryOp { op, expr: Box::new(view_expr(*expr)) },
        Expr::BinaryOp { op, left, right } => SpecExpr::BinaryOp {
            op,
            left: Box::new(view_expr(*left)),
            right: Box::new(view_expr(*right)),
        },
    }
}

pub open spec fn view_exprs(s: Seq<Expr>) -> Seq<SpecExpr> {
    Seq::new(s.len(), |i: int| view_expr(s[i]))
}

pub open spec fn view_opt_expr(e: Option<Expr>) -> Option<SpecExpr> {
    match e {
        Some(e) => Some(view_expr(e)),
        None => None,
    }
}

pub open spec fn view_order_by(o: OrderByExpr) -> SpecOrderByExpr {
    SpecOrderByExpr { expr: view_expr(o.expr), asc: o.asc, nulls_first: o.nulls_first }
}

pub open spec fn view_order_bys(s: Seq<OrderByExpr>) -> Seq<SpecOrderByExpr> {
    Seq::new(s.len(), |i: int| view_order_by(s[i]))
}

pub open spec fn view_target(t: SelectTarget) -> SpecSelectTarget {
    match t {
        SelectTarget::AliasedExpr { expr, alias } => SpecSelectTarget::AliasedExpr {
            expr: Box::new(view_expr(*expr)),
            alias,
        },
        SelectTarget::QualifiedName(v) => SpecSelectTarget::QualifiedName(v@),
    }
}

pub open spec fn view_targets(s: Seq<SelectTarget>) -> Seq<SpecSelectTarget> {
    Seq::new(s.len(), |i: int| view_target(s[i]))
}

pub open spec fn view_alias(a: TableAlias) -> SpecTableAlias {
    SpecTableAlias { name: a.name, columns: a.columns@ }
}

pub open spec fn view_opt_alias(a: Option<TableAlias>) -> Option<SpecTableAlias> {
    match a {
        Some(a) => Some(view_alias(a)),
        None => None,
    }
}

pub open spec fn view_condition(c: JoinCondition) -> SpecJoinCondition {
    match c {
        JoinCondition::On(e) => SpecJoinCondition::On(Box::new(view_expr(*e))),
        JoinCondition::Using(v) => SpecJoinCondition::Using(v@),
        JoinCondition::Natural => SpecJoinCondition::Natural,
        JoinCondition::NoCondition => SpecJoinCondition::NoCondition,
    }
}

pub open spec fn view_table_ref(t: TableReference) -> SpecTableReference
    decreases t,
{
    match t {
        TableReference::Table { catalog, database, table, alias, travel_point } =>
            SpecTableReference::Table {
            catalog,
            database,
            table,
            alias: view_opt_alias(alias),
            travel_point,
        },
        TableReference::TableFunction { name, params, alias } => SpecTableReference::TableFunction {
            name,
            params: view_exprs(params@),
            alias: view_opt_alias(alias),
        },
        TableReference::Subquery { subquery, alias } => SpecTableReference::Subquery {
            subquery: Box::new(view_query(*subquery)),
            alias: view_opt_alias(alias),
        },
        TableReference::Join(j) => SpecTableReference::Join(
            SpecJoin {
                op: j.op,
                condition: view_condition(j.condition),
                left: Box::new(view_table_ref(*j.left)),
                right: Box::new(view_table_ref(*j.right)),
            },
        ),
    }
}

pub open spec fn view_select(s: SelectStmt) -> SpecSelectStmt
    decreases s,
{
    SpecSelectStmt {
        distinct: s.distinct,
        select_list: view_targets(s.select_list@),
        from: Seq::new(
            s.from@.len(),
            |i: int|
                if 0 <= i < s.from@.len() {
                    view_table_ref(s.from@[i])
                } else {
                    SpecTableReference::Join(
                        SpecJoin {
                            op: JoinOperator::Inner,
                            condition: SpecJoinCondition::NoCondition,
                            left: arbitrary(),
                            right: arbitrary(),
                        },
                    )
                },
        ),
        selection: view_opt_expr(s.selection),
        group_by: view_exprs(s.group_by@),
        having: view_opt_expr(s.having),
    }
}

pub open spec fn view_table_refs(s: Seq<TableReference>) -> Seq<SpecTableReference> {
    Seq::new(s.len(), |i: int| view_table_ref(s[i]))
}

pub open spec fn view_set_expr(e: SetExpr) -> SpecSetExpr
    decreases e,
{
    match e {
        SetExpr::Select(s) => SpecSetExpr::Select(Box::new(view_select(*s))),
        SetExpr::SetOperation { op, all, left, right } => SpecSetExpr::SetOperation {
            op,
            all,
            left: Box::new(view_set_expr(*left)),
            right: Box::new(view_set_expr(*right)),
        },
    }
}

pub open spec fn view_query(q: Query) -> SpecQuery
    decreases q,
{
    SpecQuery {
        span: (q.span.0 as int, q.span.1 as int),
        body: view_set_expr(q.body),
        order_by: view_order_bys(q.order_by@),
        limit: view_exprs(q.limit@),
        offset: view_opt_expr(q.offset),
        format: q.format,
    }
}

} // verus!
