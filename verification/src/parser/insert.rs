//! The shape of an insertion: the table, the columns named, and one list of
//! literals per row.

use crate::parser::statement::{SqlExpr, SqlBody, SqlStatement, SqlValue};
use crate::selection::grid_of;
use crate::text::{bool_text, texts_of};
use vstd::prelude::*;

verus! {

/// An insertion as the engine takes it.
#[derive(Debug, PartialEq)]
pub struct InsertQuery {
    pub table_name: String,
    pub columns: Vec<String>,
    pub values: Vec<Vec<String>>,
}

/// The literal that an item of a row gives: a number as it was written,
/// `true` or `false`, the inside of a quoted string, `Null`, or a bare
/// word. An item of another kind gives none.
pub open spec fn item_text(item: SqlExpr) -> Option<Seq<char>> {
    match item {
        SqlExpr::Value(SqlValue::Number(n)) => Some(n@),
        SqlExpr::Value(SqlValue::Boolean(b)) => Some(bool_text(b)),
        SqlExpr::Value(SqlValue::SingleQuotedString(s)) => Some(s@),
        SqlExpr::Value(SqlValue::Null) => Some(seq!['N', 'u', 'l', 'l']),
        SqlExpr::Identifier(i) => Some(i@),
        _ => None,
    }
}

/// The literals of a row: one for each item that gives one, in order.
pub open spec fn row_texts(row: Seq<SqlExpr>) -> Seq<Seq<char>>
    decreases row.len(),
{
    if row.len() == 0 {
        Seq::empty()
    } else {
        let rest = row_texts(row.drop_last());
        match item_text(row.last()) {
            Some(text) => rest.push(text),
            None => rest,
        }
    }
}

/// The rows of literals that a source of rows gives: those of a VALUES
/// list, and none for any other source.
pub open spec fn source_texts(body: SqlBody) -> Seq<Seq<Seq<char>>> {
    match body {
        SqlBody::Values(rows) => Seq::new(rows@.len(), |r: int| row_texts(rows@[r]@)),
        _ => Seq::empty(),
    }
}

/// Whether `iq` is the insertion that `statement` states: the statement
/// inserts into the table of `iq` under the names of `iq`, and the rows of
/// `iq` hold the literals of the rows that the statement gives.
pub open spec fn insertion_of(iq: InsertQuery, statement: SqlStatement) -> bool {
    &&& statement matches SqlStatement::Insert { table_name, names, source }
    &&& iq.table_name@ == table_name@
    &&& texts_of(iq.columns@) == texts_of(names@)
    &&& grid_of(iq.values@) == source_texts(source.body)
}

/// What is said of a statement that inserts nothing.
pub open spec fn not_an_insertion_text() -> Seq<char> {
    "Cannot parse insert query"@
}

fn item_literal(item: &SqlExpr) -> (r: Option<String>)
    ensures
        match r {
            Some(text) => item_text(*item) == Some(text@),
            None => item_text(*item) is None,
        },
{
    proof {
        reveal_strlit("Null");
        reveal_strlit("true");
        reveal_strlit("false");
        assert("Null"@ =~= seq!['N', 'u', 'l', 'l']);
        assert("true"@ =~= seq!['t', 'r', 'u', 'e']);
        assert("false"@ =~= seq!['f', 'a', 'l', 's', 'e']);
    }
    match item {
        SqlExpr::Value(v) => match v {
            SqlValue::Number(n) => Some(n.clone()),
            SqlValue::Boolean(b) => match b {
                true => Some(String::from_str("true")),
                false => Some(String::from_str("false")),
            },
            SqlValue::SingleQuotedString(sqs) => Some(sqs.clone()),
            SqlValue::Null => Some(String::from_str("Null")),
            _ => None,
        },
        SqlExpr::Identifier(i) => Some(i.clone()),
        _ => None,
    }
}

impl InsertQuery {
    /// Reads an insertion from a statement: the table's name, the names of
    /// the columns, and for each row of a VALUES list its literals. Fails
    /// on any other statement.
    pub fn new(statement: &SqlStatement) -> (r: Result<InsertQuery, String>)
        ensures
            match r {
                Ok(iq) => insertion_of(iq, *statement),
                Err(e) => !(statement is Insert) && e@ == not_an_insertion_text(),
            },
    {
        match statement {
            SqlStatement::Insert { table_name, names: cols, source } => {
                let mut columns: Vec<String> = Vec::new();
                let mut all_vals: Vec<Vec<String>> = Vec::new();
                let mut c: usize = 0;
                while c < cols.len()
                    invariant
                        0 <= c <= cols@.len(),
                        columns@.len() == c,
                        forall|i: int| 0 <= i < c ==> (#[trigger] columns@[i])@ == cols@[i]@,
                    decreases cols@.len() - c,
                {
                    columns.push(cols[c].clone());
                    c += 1;
                }
                assert(texts_of(columns@) =~= texts_of(cols@));
                match &source.body {
                    SqlBody::Values(rows) => {
                        let mut r: usize = 0;
                        while r < rows.len()
                            invariant
                                0 <= r <= rows@.len(),
                                all_vals@.len() == r,
                                forall|i: int|
                                    0 <= i < r ==> texts_of((#[trigger] all_vals@[i])@) == row_texts(
                                        rows@[i]@,
                                    ),
                            decreases rows@.len() - r,
                        {
                            let row = &rows[r];
                            let mut value_set: Vec<String> = Vec::new();
                            let mut e: usize = 0;
                            assert(row@.take(0) =~= Seq::<SqlExpr>::empty());
                            assert(texts_of(value_set@) =~= Seq::<Seq<char>>::empty());
                            while e < row.len()
                                invariant
                                    0 <= e <= row@.len(),
                                    texts_of(value_set@) == row_texts(row@.take(e as int)),
                                decreases row@.len() - e,
                            {
                                proof {
                                    assert(row@.take(e + 1).drop_last() =~= row@.take(e as int));
                                    assert(row@.take(e + 1).last() == row@[e as int]);
                                }
                                let ghost so_far = texts_of(value_set@);
                                match item_literal(&row[e]) {
                                    Some(text) => {
                                        value_set.push(text);
                                        assert(texts_of(value_set@) =~= so_far.push(text@));
                                    },
                                    None => {},
                                }
                                e += 1;
                            }
                            assert(row@.take(row@.len() as int) =~= row@);
                            all_vals.push(value_set);
                            r += 1;
                        }
                        assert(grid_of(all_vals@) =~= source_texts(source.body));
                    },
                    _ => {
                        assert(grid_of(all_vals@) =~= source_texts(source.body));
                    },
                }
                Ok(InsertQuery { table_name: table_name.clone(), columns, values: all_vals })
            },
            _ => Err(String::from_str("Cannot parse insert query")),
        }
    }
}

} // verus!
