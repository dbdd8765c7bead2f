//! What the engine reads of a parsed SQL statement: the parts of the syntax
//! tree that decide a creation, an insertion or a selection, as plain
//! values. Everything else of a statement is left out, or stands as `Other`.

use vstd::prelude::*;

verus! {

/// The type that a column is declared with.
#[derive(Debug, Clone, Copy, PartialEq, Eq, Structural)]
pub enum SqlType {
    SmallInt,
    Int,
    BigInt,
    Boolean,
    Text,
    Varchar,
    String,
    Float,
    Double,
    Decimal,
    Other,
}

/// An option of a declared column.
#[derive(Debug, Clone, Copy, PartialEq, Eq, Structural)]
pub enum SqlOption {
    /// `UNIQUE`, or `PRIMARY KEY` where `is_primary` holds.
    Unique { is_primary: bool },
    Other,
}

/// A declared column.
#[derive(Debug, PartialEq)]
pub struct SqlColumn {
    pub name: String,
    pub data_type: SqlType,
    pub options: Vec<SqlOption>,
}

/// A literal.
#[derive(Debug, PartialEq)]
pub enum SqlValue {
    /// A number, as it was written.
    Number(String),
    Boolean(bool),
    SingleQuotedString(String),
    NationalStringLiteral(String),
    Null,
    Other,
}

/// The operator between the two sides of a predicate.
#[derive(Debug, Clone, Copy, PartialEq, Eq, Structural)]
pub enum SqlOperator {
    Eq,
    NotEq,
    Gt,
    Lt,
    GtEq,
    LtEq,
    Other,
}

/// One side of a predicate, an item of a row, or a limit.
#[derive(Debug, PartialEq)]
pub enum SqlTerm {
    Value(SqlValue),
    Identifier(String),
    Other,
}

/// An expression, as far as the engine reads one.
#[derive(Debug, PartialEq)]
pub enum SqlExpr {
    Value(SqlValue),
    Identifier(String),
    BinaryOp { left: SqlTerm, op: SqlOperator, right: SqlTerm },
    Other,
}

/// An item of a projection.
#[derive(Debug, PartialEq)]
pub enum SqlItem {
    UnnamedExpr(SqlExpr),
    ExprWithAlias(SqlExpr),
    QualifiedWildcard,
    Wildcard,
}

/// A source of rows in a FROM clause.
#[derive(Debug, PartialEq)]
pub enum SqlSource {
    Table { name: String },
    Other,
}

/// The body of a SELECT.
#[derive(Debug, PartialEq)]
pub struct SqlSelect {
    pub projection: Vec<SqlItem>,
    pub from: Vec<SqlSource>,
    pub selection: Option<SqlExpr>,
}

/// The body of a query.
#[derive(Debug, PartialEq)]
pub enum SqlBody {
    Select(SqlSelect),
    /// The rows of a VALUES list.
    Values(Vec<Vec<SqlExpr>>),
    Other,
}

/// A query with its limit and offset.
#[derive(Debug, PartialEq)]
pub struct SqlQuery {
    pub body: SqlBody,
    pub limit: Option<SqlExpr>,
    pub offset: Option<SqlExpr>,
}

/// A statement.
#[derive(Debug, PartialEq)]
pub enum SqlStatement {
    CreateTable { name: String, columns: Vec<SqlColumn> },
    Insert { table_name: String, names: Vec<String>, source: SqlQuery },
    Query(SqlQuery),
    Other,
}

/// A kind of query descriptor that is read from a statement.
pub trait QueryType<T> {
    fn query(statement: &SqlStatement) -> Result<T, String>;
}

} // verus!
