//! The shape of a selection: what to project, from which table, under which
//! predicate.

use crate::parser::statement::{
    SqlBody, SqlExpr, SqlItem, SqlOperator, SqlQuery, SqlSelect, SqlSource, SqlStatement, SqlTerm,
    SqlValue,
};
use crate::text::{parse_count, parse_u64, texts_of};
use vstd::prelude::*;

verus! {

/// A comparison between a cell and a search term.
#[derive(Debug, Clone, Copy, PartialEq, Eq, Structural)]
pub enum Binary {
    NotEq,
    Eq,
    Lt,
    LtEq,
    Gt,
    GtEq,
}

/// The operator of a predicate. Comparisons are the only kind.
#[derive(Debug, PartialEq)]
pub enum Operator {
    Binary(Binary),
}

/// One predicate of a WHERE clause: a column, an operator and a literal.
#[derive(Debug, PartialEq)]
pub struct Expression {
    pub left: String,
    pub right: String,
    pub op: Operator,
}

/// A selection as the engine takes it.
#[derive(Debug, PartialEq)]
pub struct SelectQuery {
    pub from: String,
    pub projection: Vec<String>,
    pub where_expressions: Vec<Expression>,
    pub offset: Option<u64>,
    pub limit: Option<u64>,
}

impl Operator {
    /// The comparison that this operator makes.
    pub open spec fn binary(&self) -> Binary {
        match self {
            Operator::Binary(b) => *b,
        }
    }
}

impl SelectQuery {
    /// Puts `projection` in place of the columns to project, and hands the
    /// query back for further changes.
    pub fn insert_projections(&mut self, projection: Vec<String>) -> (r: &mut SelectQuery)
        ensures
            r.projection == projection,
            r.from == old(self).from,
            r.where_expressions == old(self).where_expressions,
            r.offset == old(self).offset,
            r.limit == old(self).limit,
            *final(self) == *final(r),
    {
        self.projection = projection;
        self
    }
}

/// The comparison that an operator of the syntax stands for, if it stands
/// for one.
pub open spec fn comparison_of(op: SqlOperator) -> Option<Binary> {
    match op {
        SqlOperator::Eq => Some(Binary::Eq),
        SqlOperator::NotEq => Some(Binary::NotEq),
        SqlOperator::Gt => Some(Binary::Gt),
        SqlOperator::GtEq => Some(Binary::GtEq),
        SqlOperator::Lt => Some(Binary::Lt),
        SqlOperator::LtEq => Some(Binary::LtEq),
        SqlOperator::Other => None,
    }
}

impl Operator {
    /// The operator that an operator of the syntax stands for. Only the
    /// six comparisons stand for one.
    pub fn from(b: SqlOperator) -> (r: Operator)
        requires
            comparison_of(b) is Some,
        ensures
            r.binary() == comparison_of(b).unwrap(),
    {
        match b {
            SqlOperator::Eq => Operator::Binary(Binary::Eq),
            SqlOperator::NotEq => Operator::Binary(Binary::NotEq),
            SqlOperator::Gt => Operator::Binary(Binary::Gt),
            SqlOperator::GtEq => Operator::Binary(Binary::GtEq),
            SqlOperator::Lt => Operator::Binary(Binary::Lt),
            _ => Operator::Binary(Binary::LtEq),
        }
    }
}

/// Why a statement gives no selection.
#[derive(Debug, Clone, Copy, PartialEq, Eq, Structural)]
pub enum SelectFailure {
    /// The statement is no query.
    NotAQuery,
    /// The offset is a number that is no unsigned 64-bit integer.
    BadOffset,
    /// The limit is a number that is no unsigned 64-bit integer.
    BadLimit,
    /// The body of the query is no SELECT.
    NotASelect,
    /// The operator of the predicate is no comparison.
    BadOperator,
    /// No table is named.
    NoTable,
}

/// What is said of a failure to read a selection.
pub open spec fn select_failure_text(failure: SelectFailure) -> Seq<char> {
    match failure {
        SelectFailure::NotAQuery => "not a query"@,
        SelectFailure::BadOffset => "cannot read the offset"@,
        SelectFailure::BadLimit => "cannot read the limit"@,
        SelectFailure::NotASelect => "not a select"@,
        SelectFailure::BadOperator => "cannot parse select query"@,
        SelectFailure::NoTable =>
            "Error while trying to parse select statement. Cannot extract table name"@,
    }
}

/// The count that a limit or an offset gives: that of a number, and none
/// where there is no number. `Err` where the number is no count.
pub open spec fn count_of(e: Option<SqlExpr>) -> Result<Option<u64>, ()> {
    match e {
        Some(SqlExpr::Value(SqlValue::Number(n))) => match parse_count(n@) {
            Some(v) => Ok(Some(v as u64)),
            None => Err(()),
        },
        _ => Ok(None),
    }
}

/// The name that an item of a projection gives: that of a column, bare or
/// under an alias, and `*` for the wildcard. Any other item gives none.
pub open spec fn item_name(item: SqlItem) -> Option<Seq<char>> {
    match item {
        SqlItem::UnnamedExpr(SqlExpr::Identifier(i)) => Some(i@),
        SqlItem::ExprWithAlias(SqlExpr::Identifier(i)) => Some(i@),
        SqlItem::Wildcard => Some(seq!['*']),
        _ => None,
    }
}

/// The names of a projection: one for each item that gives one, in order.
pub open spec fn projected(items: Seq<SqlItem>) -> Seq<Seq<char>>
    decreases items.len(),
{
    if items.len() == 0 {
        Seq::empty()
    } else {
        let rest = projected(items.drop_last());
        match item_name(items.last()) {
            Some(name) => rest.push(name),
            None => rest,
        }
    }
}

/// The table that a FROM clause names: the last of its plain tables.
pub open spec fn table_of(from: Seq<SqlSource>) -> Option<Seq<char>>
    decreases from.len(),
{
    if from.len() == 0 {
        None
    } else {
        match from.last() {
            SqlSource::Table { name } => Some(name@),
            SqlSource::Other => table_of(from.drop_last()),
        }
    }
}

/// The literal on the right of a predicate: a number, a string, or a bare
/// word.
pub open spec fn right_text(right: SqlTerm) -> Option<Seq<char>> {
    match right {
        SqlTerm::Value(SqlValue::Number(n)) => Some(n@),
        SqlTerm::Value(SqlValue::NationalStringLiteral(n)) => Some(n@),
        SqlTerm::Value(SqlValue::SingleQuotedString(n)) => Some(n@),
        SqlTerm::Identifier(n) => Some(n@),
        _ => None,
    }
}

/// The column, the literal and the operator of the predicate that a WHERE
/// clause states, if it states one that the engine reads: a column on the
/// left, a literal on the right.
pub open spec fn predicate_of(selection: Option<SqlExpr>) -> Option<
    (Seq<char>, Seq<char>, SqlOperator),
> {
    match selection {
        Some(SqlExpr::BinaryOp { left: SqlTerm::Identifier(col), op, right }) => match right_text(right) {
            Some(text) => Some((col@, text, op)),
            None => None,
        },
        _ => None,
    }
}

/// Why `statement` gives no selection; `None` where it gives one.
pub open spec fn select_failure_of(statement: SqlStatement) -> Option<SelectFailure> {
    match statement {
        SqlStatement::Query(q) => {
            if count_of(q.offset) is Err {
                Some(SelectFailure::BadOffset)
            } else if count_of(q.limit) is Err {
                Some(SelectFailure::BadLimit)
            } else {
                match q.body {
                    SqlBody::Select(select) => {
                        if predicate_of(select.selection) is Some && comparison_of(
                            predicate_of(select.selection).unwrap().2,
                        ) is None {
                            Some(SelectFailure::BadOperator)
                        } else if table_of(select.from@) is None {
                            Some(SelectFailure::NoTable)
                        } else {
                            None
                        }
                    },
                    _ => Some(SelectFailure::NotASelect),
                }
            }
        },
        _ => Some(SelectFailure::NotAQuery),
    }
}

/// Whether `sq` is the selection that the query `q` with the SELECT body
/// `select` gives.
pub open spec fn selection_of(sq: SelectQuery, q: SqlQuery, select: SqlSelect) -> bool {
    &&& Some(sq.from@) == table_of(select.from@)
    &&& texts_of(sq.projection@) == projected(select.projection@)
    &&& Ok::<Option<u64>, ()>(sq.offset) == count_of(q.offset)
    &&& Ok::<Option<u64>, ()>(sq.limit) == count_of(q.limit)
    &&& match predicate_of(select.selection) {
        Some((col, text, op)) => {
            &&& sq.where_expressions@.len() == 1
            &&& sq.where_expressions@[0].left@ == col
            &&& sq.where_expressions@[0].right@ == text
            &&& Some(sq.where_expressions@[0].op.binary()) == comparison_of(op)
        },
        None => sq.where_expressions@.len() == 0,
    }
}

/// Whether `sq` is the selection that `statement` states.
pub open spec fn selection_read(sq: SelectQuery, statement: SqlStatement) -> bool {
    &&& statement matches SqlStatement::Query(q)
    &&& q.body matches SqlBody::Select(select)
    &&& selection_of(sq, q, select)
}

fn read_count(e: &Option<SqlExpr>) -> (r: Result<Option<u64>, ()>)
    ensures
        r == count_of(*e),
{
    match e {
        Some(SqlExpr::Value(SqlValue::Number(n))) => match parse_u64(n.as_str()) {
            Some(v) => Ok(Some(v)),
            None => Err(()),
        },
        _ => Ok(None),
    }
}

fn failed(failure: SelectFailure) -> (r: String)
    ensures
        r@ == select_failure_text(failure),
{
    match failure {
        SelectFailure::NotAQuery => String::from_str("not a query"),
        SelectFailure::BadOffset => String::from_str("cannot read the offset"),
        SelectFailure::BadLimit => String::from_str("cannot read the limit"),
        SelectFailure::NotASelect => String::from_str("not a select"),
        SelectFailure::BadOperator => String::from_str("cannot parse select query"),
        SelectFailure::NoTable => String::from_str(
            "Error while trying to parse select statement. Cannot extract table name",
        ),
    }
}

impl SelectQuery {
    /// Adds the predicate `col_name op n` after those that are there.
    pub fn add_ops(
        op: &SqlOperator,
        where_expressions: &mut Vec<Expression>,
        col_name: &String,
        n: &String,
    )
        requires
            comparison_of(*op) is Some,
        ensures
            final(where_expressions)@.len() == old(where_expressions)@.len() + 1,
            forall|i: int|
                0 <= i < old(where_expressions)@.len() ==> final(where_expressions)@[i] == old(
                    where_expressions,
                )@[i],
            final(where_expressions)@.last().left@ == col_name@,
            final(where_expressions)@.last().right@ == n@,
            final(where_expressions)@.last().op.binary() == comparison_of(*op).unwrap(),
    {
        where_expressions.push(
            Expression { left: col_name.clone(), right: n.clone(), op: Operator::from(*op) },
        );
    }

    /// Reads a selection from a statement: the table, the names projected,
    /// the predicate of the WHERE clause if the engine reads it, and the
    /// limit and offset. Fails where the statement is no SELECT query, a
    /// limit or offset is no count, the predicate has an operator that is
    /// no comparison, or no table is named.
    pub fn new(statement: &SqlStatement) -> (r: Result<SelectQuery, String>)
        ensures
            match r {
                Ok(sq) => select_failure_of(*statement) is None && selection_read(sq, *statement),
                Err(e) => {
                    &&& select_failure_of(*statement) matches Some(failure)
                    &&& e@ == select_failure_text(failure)
                },
            },
    {
        proof {
            reveal_strlit("*");
            assert("*"@ =~= seq!['*']);
        }
        let bq = match statement {
            SqlStatement::Query(bq) => bq,
            _ => {
                return Err(failed(SelectFailure::NotAQuery));
            },
        };
        let offset = match read_count(&bq.offset) {
            Ok(offset) => offset,
            Err(_) => {
                return Err(failed(SelectFailure::BadOffset));
            },
        };
        let limit = match read_count(&bq.limit) {
            Ok(limit) => limit,
            Err(_) => {
                return Err(failed(SelectFailure::BadLimit));
            },
        };
        let select = match &bq.body {
            SqlBody::Select(select) => select,
            _ => {
                return Err(failed(SelectFailure::NotASelect));
            },
        };
        let mut projection: Vec<String> = Vec::new();
        let mut p: usize = 0;
        assert(select.projection@.take(0) =~= Seq::<SqlItem>::empty());
        assert(texts_of(projection@) =~= Seq::<Seq<char>>::empty());
        while p < select.projection.len()
            invariant
                0 <= p <= select.projection@.len(),
                "*"@ == seq!['*'],
                texts_of(projection@) == projected(select.projection@.take(p as int)),
            decreases select.projection@.len() - p,
        {
            proof {
                assert(select.projection@.take(p + 1).drop_last() =~= select.projection@.take(
                    p as int,
                ));
                assert(select.projection@.take(p + 1).last() == select.projection@[p as int]);
            }
            let ghost so_far = texts_of(projection@);
            match &select.projection[p] {
                SqlItem::UnnamedExpr(SqlExpr::Identifier(i)) => {
                    projection.push(i.clone());
                    assert(texts_of(projection@) =~= so_far.push(i@));
                },
                SqlItem::ExprWithAlias(SqlExpr::Identifier(i)) => {
                    projection.push(i.clone());
                    assert(texts_of(projection@) =~= so_far.push(i@));
                },
                SqlItem::Wildcard => {
                    projection.push(String::from_str("*"));
                    assert(texts_of(projection@) =~= so_far.push(seq!['*']));
                },
                _ => {},
            }
            p += 1;
        }
        assert(select.projection@.take(select.projection@.len() as int) =~= select.projection@);
        let mut table_name: Option<String> = None;
        let mut f: usize = 0;
        assert(select.from@.take(0) =~= Seq::<SqlSource>::empty());
        while f < select.from.len()
            invariant
                0 <= f <= select.from@.len(),
                match table_name {
                    Some(name) => table_of(select.from@.take(f as int)) == Some(name@),
                    None => table_of(select.from@.take(f as int)) is None,
                },
            decreases select.from@.len() - f,
        {
            proof {
                assert(select.from@.take(f + 1).drop_last() =~= select.from@.take(f as int));
                assert(select.from@.take(f + 1).last() == select.from@[f as int]);
            }
            match &select.from[f] {
                SqlSource::Table { name } => {
                    table_name = Some(name.clone());
                },
                SqlSource::Other => {},
            }
            f += 1;
        }
        assert(select.from@.take(select.from@.len() as int) =~= select.from@);
        let mut where_expressions: Vec<Expression> = Vec::new();
        match &select.selection {
            Some(SqlExpr::BinaryOp { left: SqlTerm::Identifier(col_name), op, right }) => {
                let text: Option<&String> = match right {
                    SqlTerm::Value(SqlValue::Number(n)) => Some(n),
                    SqlTerm::Value(SqlValue::NationalStringLiteral(n)) => Some(n),
                    SqlTerm::Value(SqlValue::SingleQuotedString(n)) => Some(n),
                    SqlTerm::Identifier(n) => Some(n),
                    _ => None,
                };
                match text {
                    Some(n) => {
                        match op {
                            SqlOperator::Other => {
                                return Err(failed(SelectFailure::BadOperator));
                            },
                            _ => {
                                Self::add_ops(op, &mut where_expressions, col_name, n);
                            },
                        }
                    },
                    None => {},
                }
            },
            _ => {},
        }
        match table_name {
            Some(name) => Ok(
                SelectQuery { from: name, projection, where_expressions, offset, limit },
            ),
            None => Err(failed(SelectFailure::NoTable)),
        }
    }
}

} // verus!
