//! The shape of a table's creation: its name and its columns in declared
//! order.

use crate::datatype::{small_letters, DataType};
use crate::parser::statement::{SqlColumn, SqlOption, SqlType, SqlStatement};
use vstd::prelude::*;

verus! {

/// One declared column.
#[derive(Debug, Clone, PartialEq, PartialOrd, Eq, Ord, Hash)]
pub struct ParsedColumn {
    pub name: String,
    pub datatype: String,
    pub is_pk: bool,
    pub is_nullable: bool,
}

/// A table's creation as the engine takes it.
#[derive(Debug, Clone, PartialEq, PartialOrd, Eq, Ord, Hash)]
pub struct CreateQuery {
    pub table_name: String,
    pub columns: Vec<ParsedColumn>,
}

/// The name of the engine's type for a declared type: `int` for the integer
/// types, `bool`, `string` for the text types, `float` for the float and
/// decimal types, and `invalid` for every other.
pub open spec fn datatype_name(data_type: SqlType) -> Seq<char> {
    match data_type {
        SqlType::SmallInt | SqlType::Int | SqlType::BigInt => "int"@,
        SqlType::Boolean => "bool"@,
        SqlType::Text | SqlType::Varchar | SqlType::String => "string"@,
        SqlType::Float | SqlType::Double | SqlType::Decimal => "float"@,
        SqlType::Other => "invalid"@,
    }
}

/// The engine's type for a declared type: the type that the name of
/// [`datatype_name`] stands for.
pub open spec fn engine_type(data_type: SqlType) -> DataType {
    match data_type {
        SqlType::SmallInt | SqlType::Int | SqlType::BigInt => DataType::Int,
        SqlType::Boolean => DataType::Bool,
        SqlType::Text | SqlType::Varchar | SqlType::String => DataType::Str,
        SqlType::Float | SqlType::Double | SqlType::Decimal => DataType::Float,
        SqlType::Other => DataType::Invalid,
    }
}

/// The name of the engine's type for a declared type is written in small
/// letters, and stands for that type.
pub proof fn lemma_declared_type(data_type: SqlType)
    ensures
        small_letters(datatype_name(data_type)),
        DataType::resolved(datatype_name(data_type)) == engine_type(data_type),
{
    reveal_strlit("int");
    reveal_strlit("bool");
    reveal_strlit("string");
    reveal_strlit("float");
    reveal_strlit("invalid");
    assert("int"@ =~= seq!['i', 'n', 't']);
    assert("bool"@ =~= seq!['b', 'o', 'o', 'l']);
    assert("string"@ =~= seq!['s', 't', 'r', 'i', 'n', 'g']);
    assert("float"@ =~= seq!['f', 'l', 'o', 'a', 't']);
    assert("invalid"@ =~= seq!['i', 'n', 'v', 'a', 'l', 'i', 'd']);
}

/// Whether a column with these options is a primary key: the last option
/// decides, and without any option the column is none.
pub open spec fn is_primary(options: Seq<SqlOption>) -> bool {
    options.len() > 0 && options.last() == (SqlOption::Unique { is_primary: true })
}

/// Whether `column` is what a creation holds for the declared column `def`.
pub open spec fn parsed_from(column: ParsedColumn, def: SqlColumn) -> bool {
    &&& column.name@ == def.name@
    &&& column.datatype@ == datatype_name(def.data_type)
    &&& column.is_pk == is_primary(def.options@)
    &&& !column.is_nullable
}

/// Whether `cq` is the creation that `statement` states: the statement
/// creates a table of the name of `cq`, and the columns of `cq` are those
/// that the statement declares, in order.
pub open spec fn creation_of(cq: CreateQuery, statement: SqlStatement) -> bool {
    &&& statement matches SqlStatement::CreateTable { name, columns }
    &&& cq.table_name@ == name@
    &&& cq.columns@.len() == columns@.len()
    &&& forall|i: int|
        0 <= i < columns@.len() ==> parsed_from(#[trigger] cq.columns@[i], columns@[i])
}

/// What is said of a statement that creates no table.
pub open spec fn not_a_creation_text() -> Seq<char> {
    "Error parsing query"@
}

impl CreateQuery {
    /// Reads a creation from a statement: the table's name and, for each
    /// declared column in order, its name, the name of its type, and
    /// whether it is a primary key. Fails on any other statement.
    pub fn new(statement: &SqlStatement) -> (r: Result<CreateQuery, String>)
        ensures
            match r {
                Ok(cq) => creation_of(cq, *statement),
                Err(e) => !(statement is CreateTable) && e@ == not_a_creation_text(),
            },
    {
        match statement {
            SqlStatement::CreateTable { name, columns } => {
                let mut parsed_columns: Vec<ParsedColumn> = Vec::new();
                let mut n: usize = 0;
                while n < columns.len()
                    invariant
                        0 <= n <= columns@.len(),
                        parsed_columns@.len() == n,
                        forall|i: int|
                            0 <= i < n ==> parsed_from(#[trigger] parsed_columns@[i], columns@[i]),
                    decreases columns@.len() - n,
                {
                    let col = &columns[n];
                    let datatype = match col.data_type {
                        SqlType::SmallInt | SqlType::Int | SqlType::BigInt => "int",
                        SqlType::Boolean => "bool",
                        SqlType::Text | SqlType::Varchar | SqlType::String => "string",
                        SqlType::Float | SqlType::Double | SqlType::Decimal => "float",
                        SqlType::Other => "invalid",
                    };
                    let mut is_pk: bool = false;
                    let mut k: usize = 0;
                    while k < col.options.len()
                        invariant
                            0 <= k <= col.options@.len(),
                            is_pk == is_primary(col.options@.take(k as int)),
                        decreases col.options@.len() - k,
                    {
                        is_pk = match col.options[k] {
                            SqlOption::Unique { is_primary } => is_primary,
                            _ => false,
                        };
                        k += 1;
                    }
                    assert(col.options@.take(col.options@.len() as int) =~= col.options@);
                    parsed_columns.push(
                        ParsedColumn {
                            name: col.name.clone(),
                            datatype: String::from_str(datatype),
                            is_pk,
                            is_nullable: false,
                        },
                    );
                    n += 1;
                }
                Ok(CreateQuery { table_name: name.clone(), columns: parsed_columns })
            },
            _ => Err(String::from_str("Error parsing query")),
        }
    }
}

} // verus!
