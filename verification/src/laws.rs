//! What holds of the engine as a whole: how an index answers for the column
//! it was filled from, what insertions keep, and what selections give.

use crate::cell::{
    cell_less, cell_text, holds, is_key, lemma_key_less_irreflexive, lemma_key_less_total, Cell,
    FloatReadings,
};
use crate::column::{matching_positions, texts_at, texts_of_cells, ColumnData};
use crate::database::Database;
use crate::datatype::DataType;
use crate::engine::expanded;
use crate::error::EngineError;
use crate::run::{rows_or_failure, Reply};
use crate::filing::{
    distinct, fills, lemma_filed_append, lemma_filed_count, lemma_filed_members,
    lemma_filled_index_finds_row,
    lemma_filled_index_ranges, lemma_lookup_is_membership,
};
use crate::index::{bounds_of, filed, position_of, positions_within, BoundView, ColumnIndex};
use crate::insertion::cells_added;
use crate::names::{first_named, lemma_first_named, lemma_first_named_is, occurrences};
use crate::parser::create::{
    creation_of, engine_type, is_primary, lemma_declared_type, parsed_from, CreateQuery,
};
use crate::parser::select::{Binary, Expression, SelectQuery};
use crate::parser::statement::SqlStatement;
use crate::selection::{rows_of, rows_or_text};
use crate::table::Table;
use crate::text::texts_of;
use vstd::prelude::*;

verus! {

/// A name that stands once among the names of an insertion is given one
/// cell for each row; a name that does not stand there is given none.
pub proof fn lemma_cells_added_len(
    store: ColumnData,
    cols: Seq<String>,
    values: Seq<Vec<String>>,
    name: Seq<char>,
    n: int,
    floats: &FloatReadings,
)
    requires
        0 <= n <= cols.len(),
    ensures
        0 <= occurrences(texts_of(cols), name, n),
        occurrences(texts_of(cols), name, n) == 0 ==> cells_added(
            store,
            cols,
            values,
            name,
            n,
            floats,
        ).len() == 0,
        occurrences(texts_of(cols), name, n) == 1 ==> cells_added(
            store,
            cols,
            values,
            name,
            n,
            floats,
        ).len() == values.len(),
    decreases n,
{
    if n > 0 {
        lemma_cells_added_len(store, cols, values, name, n - 1, floats);
        assert(texts_of(cols)[n - 1] == cols[n - 1]@);
    }
}

/// Insertions of whole rows keep the stores equally long: where every store
/// has `n` rows and an insertion names every column once, every store has
/// `n` rows and those inserted afterwards.
pub proof fn lemma_insert_keeps_aligned(
    before: Table,
    after: Table,
    cols: Seq<String>,
    values: Seq<Vec<String>>,
    floats: &FloatReadings,
    n: int,
)
    requires
        before.aligned(n),
        before.inserted(&after, cols, values, cols.len() as int, floats),
        before.names_each_once(cols),
    ensures
        after.aligned(n + values.len()),
{
    assert forall|k: int| 0 <= k < after.rows@.len() implies (#[trigger] after.rows@[k]).data.cells().len()
        == n + values.len() by {
        let was = before.rows@[k];
        assert(before.store_names()[k] == was.name@);
        lemma_cells_added_len(was.data, cols, values, was.name@, cols.len() as int, floats);
    }
}

/// Insertions keep the indexes in step with their columns.
pub proof fn lemma_insert_keeps_indexed(
    before: Table,
    after: Table,
    cols: Seq<String>,
    values: Seq<Vec<String>>,
    floats: &FloatReadings,
)
    requires
        before.indexed(),
        before.inserted(&after, cols, values, cols.len() as int, floats),
    ensures
        after.indexed(),
{
    assert(after.store_names() =~= before.store_names());
    assert(after.header_names() =~= before.header_names());
    assert forall|j: int| 0 <= j < after.columns@.len() && after.files_into(j) implies (
    #[trigger] after.columns@[j]).index.entries() == filed(
        Seq::empty(),
        after.store(after.columns@[j].name@).cells(),
        0,
    ) by {
        let was = before.columns@[j];
        let name = was.name@;
        lemma_first_named(before.store_names(), name);
        let k = before.store_at(name).unwrap();
        assert(before.rows@[k].data.same_type(&after.rows@[k].data));
        assert(before.files_into(j));
        assert(before.store_names()[k] == before.rows@[k].name@);
        lemma_filed_append(
            Seq::empty(),
            before.store(name).cells(),
            cells_added(before.store(name), cols, values, name, cols.len() as int, floats),
            0,
        );
    }
}

/// In a well-formed table that is indexed, a column whose index insertions
/// file into fills that index.
pub proof fn lemma_indexed_column_fills(table: Table, j: int)
    requires
        table.wf(),
        table.indexed(),
        0 <= j < table.columns@.len(),
        table.files_into(j),
    ensures
        fills(table.store(table.columns@[j].name@).cells(), table.columns@[j].index),
{
    let store = table.store(table.columns@[j].name@);
    let index = table.columns@[j].index;
    lemma_first_named(table.store_names(), table.columns@[j].name@);
    assert forall|p: int| 0 <= p < store.cells().len() implies index.files(
        #[trigger] store.cells()[p],
    ) by {}
    assert(store.cells().len() <= usize::MAX) by {
        match store {
            ColumnData::Int(v) => {
                assert(v@.len() == v.len());
            },
            ColumnData::Str(v) => {
                assert(v@.len() == v.len());
            },
            ColumnData::Bool(v) => {
                assert(v@.len() == v.len());
            },
            ColumnData::Float(v) => {
                assert(v@.len() == v.len());
            },
            ColumnData::Absent => {},
        }
    }
}

/// In a table whose headers have distinct names and stores of their types,
/// every header with an index is one whose index insertions file into.
pub proof fn lemma_index_is_filed_into(table: Table, j: int)
    requires
        table.wf(),
        table.typed(),
        table.distinct_names(),
        0 <= j < table.columns@.len(),
        !(table.columns@[j].index is Absent),
    ensures
        table.files_into(j),
{
    let name = table.columns@[j].name@;
    assert(table.header_names()[j] == name);
    lemma_first_named(table.header_names(), name);
    assert(table.columns@[j].wf());
}

/// Whether column `j` of `table` is an indexed column in good standing: the
/// table is well formed, its headers have distinct names and stores of
/// their types, its indexes are in step with their columns, the column has
/// an index, and no value stands twice in it.
pub open spec fn indexed_column(table: Table, j: int) -> bool {
    &&& table.wf()
    &&& table.typed()
    &&& table.distinct_names()
    &&& table.indexed()
    &&& 0 <= j < table.columns@.len()
    &&& !(table.columns@[j].index is Absent)
    &&& distinct(table.store(table.columns@[j].name@).cells())
}

/// Point lookup finds the row: in an indexed column without a value twice,
/// a point lookup of the text of the value in row `p` gives `p`.
pub proof fn lemma_point_lookup_finds_row(table: Table, j: int, p: int)
    requires
        indexed_column(table, j),
        0 <= p < table.store(table.columns@[j].name@).cells().len(),
    ensures
        table.columns@[j].index.point(
            cell_text(table.store(table.columns@[j].name@).cells()[p]),
        ) == Ok::<Option<usize>, Seq<char>>(Some(p as usize)),
{
    let cells = table.store(table.columns@[j].name@).cells();
    lemma_index_is_filed_into(table, j);
    lemma_indexed_column_fills(table, j);
    lemma_filled_index_finds_row(cells, table.columns@[j].index, p);
}

/// After an insertion, point lookup finds every row, those that were there
/// and those inserted: where the indexes of a table were in step with its
/// columns, rows were inserted, and no value stands twice in an indexed
/// column afterwards, a point lookup of the text of the value in row `p` of
/// that column gives `p`, and the index holds one entry for each row.
pub proof fn lemma_insert_then_lookup(
    before: Table,
    after: Table,
    cols: Seq<String>,
    values: Seq<Vec<String>>,
    floats: &FloatReadings,
    j: int,
    p: int,
)
    requires
        before.wf(),
        before.typed(),
        before.distinct_names(),
        before.indexed(),
        after.wf(),
        before.inserted(&after, cols, values, cols.len() as int, floats),
        0 <= j < before.columns@.len(),
        !(before.columns@[j].index is Absent),
        distinct(after.store(after.columns@[j].name@).cells()),
        0 <= p < after.store(after.columns@[j].name@).cells().len(),
    ensures
        indexed_column(after, j),
        after.columns@[j].index.point(
            cell_text(after.store(after.columns@[j].name@).cells()[p]),
        ) == Ok::<Option<usize>, Seq<char>>(Some(p as usize)),
        after.columns@[j].index.entries().len() == after.store(
            after.columns@[j].name@,
        ).cells().len(),
{
    lemma_insert_keeps_indexed(before, after, cols, values, floats);
    assert(after.store_names() =~= before.store_names());
    assert(after.header_names() =~= before.header_names());
    assert forall|k: int| 0 <= k < after.columns@.len() implies after.store_at(
        (#[trigger] after.columns@[k]).name@,
    ) is Some && after.store(after.columns@[k].name@).datatype() == after.columns@[k].datatype by {
        let name = before.columns@[k].name@;
        lemma_first_named(before.store_names(), name);
        let at = before.store_at(name).unwrap();
        assert(before.rows@[at].data.same_type(&after.rows@[at].data));
    }
    assert(before.columns@[j].index.datatype() == after.columns@[j].index.datatype());
    lemma_point_lookup_finds_row(after, j, p);
    let cells = after.store(after.columns@[j].name@).cells();
    lemma_index_is_filed_into(after, j);
    lemma_indexed_column_fills(after, j);
    assert forall|i: int| 0 <= i < cells.len() implies is_key(#[trigger] cells[i]) by {
        assert(after.columns@[j].index.files(cells[i]));
    }
    lemma_filed_count(cells);
}

/// Range lookup for `>` gives the rows with greater values, in ascending
/// order of value: in an indexed column without a value twice, a range
/// lookup of a literal under `>` gives exactly the positions of the values
/// greater than the one that the literal writes, each once, and the values
/// at the positions increase.
pub proof fn lemma_range_lookup_greater(table: Table, j: int, text: Seq<char>)
    requires
        indexed_column(table, j),
        table.columns@[j].index.key_of(text) is Some,
    ensures
        ({
            let cells = table.store(table.columns@[j].name@).cells();
            let v = table.columns@[j].index.key_of(text).unwrap();
            &&& table.columns@[j].index.range(text, Binary::Gt) matches Ok(found)
            &&& forall|p: usize|
                #![trigger found.contains(p)]
                found.contains(p) <==> (p < cells.len() && cell_less(v, cells[p as int]))
            &&& forall|a: int, b: int|
                0 <= a < b < found.len() ==> cell_less(
                    cells[#[trigger] found[a] as int],
                    cells[#[trigger] found[b] as int],
                )
        }),
{
    let cells = table.store(table.columns@[j].name@).cells();
    let v = table.columns@[j].index.key_of(text).unwrap();
    lemma_index_is_filed_into(table, j);
    lemma_indexed_column_fills(table, j);
    lemma_filled_index_ranges(
        cells,
        table.columns@[j].index,
        BoundView::Excluded(v),
        BoundView::Unbounded,
    );
}

/// Range lookup gives the rows within the range for every operator but
/// `<>`, for which it gives none: the positions found are exactly those of
/// the values `c` for which `c op v` holds, `v` being what the literal
/// writes, and the values at the positions increase.
pub proof fn lemma_range_lookup_by_operator(table: Table, j: int, text: Seq<char>, op: Binary)
    requires
        indexed_column(table, j),
        table.columns@[j].index.key_of(text) is Some,
    ensures
        ({
            let cells = table.store(table.columns@[j].name@).cells();
            let v = table.columns@[j].index.key_of(text).unwrap();
            &&& table.columns@[j].index.range(text, op) matches Ok(found)
            &&& forall|p: usize|
                #![trigger found.contains(p)]
                found.contains(p) <==> (p < cells.len() && op != Binary::NotEq && holds(
                    op,
                    cells[p as int],
                    v,
                ))
            &&& forall|a: int, b: int|
                0 <= a < b < found.len() ==> cell_less(
                    cells[#[trigger] found[a] as int],
                    cells[#[trigger] found[b] as int],
                )
        }),
{
    let cells = table.store(table.columns@[j].name@).cells();
    let index = table.columns@[j].index;
    let v = index.key_of(text).unwrap();
    lemma_index_is_filed_into(table, j);
    lemma_indexed_column_fills(table, j);
    lemma_filled_index_ranges(cells, index, bounds_of(op, v).0, bounds_of(op, v).1);
    let found = positions_within(index.entries(), bounds_of(op, v).0, bounds_of(op, v).1);
    assert forall|p: usize|
        #![trigger found.contains(p)]
        found.contains(p) <==> (p < cells.len() && op != Binary::NotEq && holds(
            op,
            cells[p as int],
            v,
        )) by {
        if p < cells.len() {
            let c = cells[p as int];
            assert(index.files(c));
            assert(index.files(v)) by {
                lemma_key_is_filed(index, text);
            }
            lemma_key_less_total(c, v);
            lemma_key_less_irreflexive(v);
        }
    }
}

/// The key that an index reads from a text is of the kind that it files.
pub proof fn lemma_key_is_filed(index: ColumnIndex, text: Seq<char>)
    requires
        index.key_of(text) is Some,
    ensures
        index.files(index.key_of(text).unwrap()),
{
}

/// A lone `*` stands for the columns in their declared order.
pub proof fn lemma_star_is_all_columns(headers: Seq<Seq<char>>)
    ensures
        expanded(seq![seq!['*']], headers) == headers,
{
    let star = seq![seq!['*']];
    assert(star.drop_last() =~= Seq::<Seq<char>>::empty());
    assert(expanded(star.drop_last(), headers) =~= Seq::<Seq<char>>::empty());
    assert(Seq::<Seq<char>>::empty() + headers =~= headers);
}

/// A projection is expanded piece by piece: what stands before and after a
/// name stays where it is.
pub proof fn lemma_expanded_concat(
    first: Seq<Seq<char>>,
    second: Seq<Seq<char>>,
    headers: Seq<Seq<char>>,
)
    ensures
        expanded(first + second, headers) == expanded(first, headers) + expanded(second, headers),
    decreases second.len(),
{
    if second.len() == 0 {
        assert(first + second =~= first);
        assert(expanded(first, headers) + Seq::<Seq<char>>::empty() =~= expanded(first, headers));
    } else {
        let rest = second.drop_last();
        lemma_expanded_concat(first, rest, headers);
        assert((first + second).drop_last() =~= first + rest);
        assert((first + second).last() == second.last());
        if second.last() == seq!['*'] {
            assert(expanded(first, headers) + expanded(rest, headers) + headers =~= expanded(
                first,
                headers,
            ) + (expanded(rest, headers) + headers));
        } else {
            assert((expanded(first, headers) + expanded(rest, headers)).push(second.last())
                =~= expanded(first, headers) + expanded(rest, headers).push(second.last()));
        }
    }
}

/// A `*` among other names is replaced where it stands by all columns, and
/// the names around it are expanded on their own.
pub proof fn lemma_star_in_place(
    before: Seq<Seq<char>>,
    after: Seq<Seq<char>>,
    headers: Seq<Seq<char>>,
)
    ensures
        expanded(before + seq![seq!['*']] + after, headers) == expanded(before, headers) + headers
            + expanded(after, headers),
{
    lemma_expanded_concat(before + seq![seq!['*']], after, headers);
    lemma_expanded_concat(before, seq![seq!['*']], headers);
    lemma_star_is_all_columns(headers);
}

/// A projection without `*` is expanded to itself.
pub proof fn lemma_plain_projection_stays(names: Seq<Seq<char>>, headers: Seq<Seq<char>>)
    requires
        forall|i: int| 0 <= i < names.len() ==> names[i] != seq!['*'],
    ensures
        expanded(names, headers) == names,
    decreases names.len(),
{
    if names.len() > 0 {
        let rest = names.drop_last();
        assert forall|i: int| 0 <= i < rest.len() implies rest[i] != seq!['*'] by {
            assert(rest[i] == names[i]);
        }
        lemma_plain_projection_stays(rest, headers);
        assert(names.last() == names[names.len() - 1]);
        assert(rest.push(names.last()) =~= names);
    } else {
        assert(names =~= Seq::<Seq<char>>::empty());
    }
}

/// The check of the unique constraint gives an error exactly where the key
/// of the row is already filed in the index of the primary key, as far as
/// the primary key that is named has an index; where no primary key is
/// named it gives none.
pub proof fn lemma_unique_verdict(table: Table, cols: Seq<String>, values: Seq<String>)
    ensures
        match table.first_keyed(texts_of(cols), 0) {
            Some(h) => {
                let header = table.columns@[h];
                let c = first_named(texts_of(cols), header.name@).unwrap();
                !(header.index is Absent) ==> (table.unique_verdict(cols, values) is Err
                    <==> position_of(
                    header.index.entries(),
                    header.index.key_of(values[c]@).unwrap(),
                ) is Some)
            },
            None => table.unique_verdict(cols, values) is Ok,
        },
{
}

/// Where the header `h` is a primary key whose name is among `cols` and no
/// header before it is one, it is the one that the check of the unique
/// constraint consults.
pub proof fn lemma_first_keyed_is(table: Table, cols: Seq<Seq<char>>, h: int, from: int)
    requires
        0 <= from <= h < table.columns@.len(),
        forall|k: int| from <= k < h ==> !(#[trigger] table.columns@[k]).is_primary_key,
        table.columns@[h].is_primary_key,
        first_named(cols, table.columns@[h].name@) is Some,
    ensures
        table.first_keyed(cols, from) == Some(h),
    decreases h - from,
{
    if from < h {
        assert(!table.columns@[from].is_primary_key);
        lemma_first_keyed_is(table, cols, h, from + 1);
    }
}

/// With one primary key, the check of the unique constraint fails exactly
/// where the key is already filed: where header `h` is the only primary
/// key and has an index, and its name first stands at `i` among `cols`,
/// the check gives an error exactly if the key that the value at `i`
/// writes is filed in that index. The other values have no part in it.
pub proof fn lemma_unique_verdict_of_one_key(
    table: Table,
    cols: Seq<String>,
    values: Seq<String>,
    h: int,
    i: int,
)
    requires
        0 <= h < table.columns@.len(),
        forall|k: int|
            0 <= k < table.columns@.len() ==> ((#[trigger] table.columns@[k]).is_primary_key <==> k
                == h),
        !(table.columns@[h].index is Absent),
        0 <= i < cols.len(),
        cols[i]@ == table.columns@[h].name@,
        forall|k: int| 0 <= k < i ==> cols[k]@ != table.columns@[h].name@,
    ensures
        table.unique_verdict(cols, values) is Err <==> position_of(
            table.columns@[h].index.entries(),
            table.columns@[h].index.key_of(values[i]@).unwrap(),
        ) is Some,
{
    let names = texts_of(cols);
    let name = table.columns@[h].name@;
    assert(names[i] == name);
    assert forall|k: int| 0 <= k < i implies names[k] != name by {
        assert(names[k] == cols[k]@);
    }
    lemma_first_named_is(names, name, i);
    lemma_first_keyed_is(table, names, h, 0);
}

/// The same selection on the same table gives the same outcome, however
/// often it is made: the same rows in the same order with the same texts,
/// or the same error.
pub proof fn lemma_table_select_repeats(
    table: Table,
    sq: SelectQuery,
    floats: FloatReadings,
    first: Result<Vec<Vec<String>>, String>,
    second: Result<Vec<Vec<String>>, String>,
)
    requires
        rows_or_text(first) == table.selected(&sq, &floats),
        rows_or_text(second) == table.selected(&sq, &floats),
    ensures
        rows_or_text(first) == rows_or_text(second),
{
}

/// The same selection on the same database gives the same outcome, however
/// often it is made.
pub proof fn lemma_select_repeats(
    db: Database,
    sq: SelectQuery,
    floats: FloatReadings,
    first: Result<Vec<Vec<String>>, EngineError>,
    second: Result<Vec<Vec<String>>, EngineError>,
)
    requires
        rows_or_failure(first) == db.select_outcome(&sq, &floats),
        rows_or_failure(second) == db.select_outcome(&sq, &floats),
    ensures
        rows_or_failure(first) == rows_or_failure(second),
{
}

/// Where one of `names` has a store that takes no value, `first_absent`
/// finds one.
pub proof fn lemma_first_absent_found(table: Table, names: Seq<Seq<char>>, i: int, from: int)
    requires
        0 <= from <= i < names.len(),
        table.store(names[i]) is Absent,
    ensures
        table.first_absent(names, from) is Some,
    decreases i - from,
{
    if from < i && !(table.store(names[from]) is Absent) {
        lemma_first_absent_found(table, names, i, from + 1);
    }
}

/// A column of a type that is not valid takes no value: its store reads no
/// literal, so no row can be inserted that gives it one, and an insertion
/// that names it fails.
pub proof fn lemma_invalid_column_takes_nothing(
    table: Table,
    cols: Seq<String>,
    values: Seq<Vec<String>>,
    floats: &FloatReadings,
    i: int,
)
    requires
        0 <= i < cols.len(),
        table.store(cols[i]@) is Absent,
    ensures
        forall|text: Seq<char>| table.store(cols[i]@).cell_of(text, floats) is None,
        values.len() > 0 ==> !table.insert_ready(cols, values, floats),
        table.insert_failure(cols, values, floats) is Some,
{
    assert(texts_of(cols)[i] == cols[i]@);
    lemma_first_absent_found(table, texts_of(cols), i, 0);
    if values.len() > 0 {
        assert(table.store(cols[i]@).cell_of(values[0]@[i]@, floats) is None);
    }
}

/// A statement that creates a table adds one table after those that are
/// there: it has the statement's name and, for each declared column in
/// order, a header of the column's name and of the engine's type for the
/// declared type, which is a key where the column is declared one.
pub proof fn lemma_created_as_declared(
    before: Database,
    after: Database,
    statement: SqlStatement,
    floats: &FloatReadings,
    r: Result<Reply, EngineError>,
)
    requires
        statement is CreateTable,
        before.processed(&after, statement, floats, r),
    ensures
        r is Ok,
        after.tables@.len() == before.tables@.len() + 1,
        forall|i: int| 0 <= i < before.tables@.len() ==> after.tables@[i] == before.tables@[i],
        statement matches SqlStatement::CreateTable { name, columns } && {
            let table = after.tables@.last();
            &&& table.name@ == name@
            &&& table.columns@.len() == columns@.len()
            &&& forall|i: int|
                0 <= i < columns@.len() ==> {
                    &&& (#[trigger] table.columns@[i]).name@ == columns@[i].name@
                    &&& table.columns@[i].datatype == engine_type(columns@[i].data_type)
                    &&& table.columns@[i].is_primary_key == is_primary(columns@[i].options@)
                }
        },
{
    let cq = choose|cq: CreateQuery| #[trigger]
        creation_of(cq, statement) && before.created(&after, cq);
    let table = after.tables@.last();
    match statement {
        SqlStatement::CreateTable { name, columns } => {
            assert forall|i: int| 0 <= i < columns@.len() implies {
                &&& (#[trigger] table.columns@[i]).name@ == columns@[i].name@
                &&& table.columns@[i].datatype == engine_type(columns@[i].data_type)
                &&& table.columns@[i].is_primary_key == is_primary(columns@[i].options@)
            } by {
                assert(parsed_from(cq.columns@[i], columns@[i]));
                assert(Table::header_of(table.columns@[i], cq.columns@[i]));
                lemma_declared_type(columns@[i].data_type);
            }
        },
        _ => {},
    }
}

/// An insertion that names a column of a type that is not valid is never
/// made: in a table whose stores are of the types of its headers, the rows
/// cannot be inserted where there are any, and the attempt fails, whatever
/// the literals.
pub proof fn lemma_invalid_type_takes_no_row(
    table: Table,
    cols: Seq<String>,
    values: Seq<Vec<String>>,
    floats: &FloatReadings,
    i: int,
)
    requires
        table.typed(),
        0 <= i < cols.len(),
        table.header_at(cols[i]@) is Some,
        table.header(cols[i]@).datatype == DataType::Invalid,
    ensures
        values.len() > 0 ==> !table.insert_ready(cols, values, floats),
        table.insert_failure(cols, values, floats) is Some,
{
    lemma_first_named(table.header_names(), cols[i]@);
    let j = table.header_at(cols[i]@).unwrap();
    assert(table.columns@[j].name@ == cols[i]@);
    assert(table.store(cols[i]@).datatype() == DataType::Invalid);
    lemma_invalid_column_takes_nothing(table, cols, values, floats, i);
}

/// With a predicate whose literal can be read, a selection gives one row
/// for each position that the predicate selects, in the order in which they
/// were found, and each row holds one text for each projected name: the text
/// of the cell at that position in the store of that name. This holds
/// whatever is projected, also of an empty projection.
pub proof fn lemma_one_row_for_each_match(
    table: Table,
    names: Seq<Seq<char>>,
    wheres: Seq<Expression>,
    floats: &FloatReadings,
    positions: Seq<usize>,
)
    requires
        wheres.len() > 0,
        table.matched(wheres[0], floats) == Ok::<Seq<usize>, Seq<char>>(positions),
    ensures
        table.answer(names, wheres, floats) matches Ok(rows) && rows.len() == positions.len()
            && forall|r: int|
            0 <= r < rows.len() ==> (#[trigger] rows[r]).len() == names.len() && forall|c: int|
                0 <= c < names.len() ==> #[trigger] rows[r][c] == cell_text(
                    table.store(names[c]).cells()[positions[r] as int],
                ),
{
}

/// A predicate that selects no row gives no row, and no error, whatever is
/// projected.
pub proof fn lemma_no_match_no_rows(
    table: Table,
    names: Seq<Seq<char>>,
    wheres: Seq<Expression>,
    floats: &FloatReadings,
)
    requires
        wheres.len() > 0,
        table.matched(wheres[0], floats) == Ok::<Seq<usize>, Seq<char>>(Seq::empty()),
    ensures
        table.answer(names, wheres, floats) == Ok::<Seq<Seq<Seq<char>>>, Seq<char>>(Seq::empty()),
{
    assert(rows_of(table.fetched(names, Seq::empty()), 0) =~= Seq::<Seq<Seq<char>>>::empty());
}

/// Whether no cell of `cells` satisfies `c op v`.
pub open spec fn none_satisfies(cells: Seq<Cell>, op: Binary, v: Cell) -> bool {
    forall|p: int| 0 <= p < cells.len() ==> !holds(op, #[trigger] cells[p], v)
}

/// A selection under a predicate that no row satisfies gives no row, and
/// no error, whatever is projected. This holds where the column of the
/// predicate is scanned and the literal writes the value `v` of its type,
/// and where the column is indexed, in good standing, and the literal
/// writes the key `v`.
pub proof fn lemma_none_satisfies_no_rows(
    table: Table,
    names: Seq<Seq<char>>,
    wheres: Seq<Expression>,
    floats: &FloatReadings,
    v: Cell,
)
    requires
        wheres.len() > 0,
        table.header_at(wheres[0].left@) is Some,
        ({
            let w = wheres[0];
            let col = table.header(w.left@);
            let cells = table.store(w.left@).cells();
            &&& if col.is_indexed {
                indexed_column(table, table.header_at(w.left@).unwrap()) && col.index.key_of(
                    w.right@,
                ) == Some(v)
            } else {
                cells.len() <= usize::MAX && table.store(w.left@).cell_of(w.right@, floats)
                    == Some(v)
            }
            &&& none_satisfies(cells, w.op.binary(), v)
        }),
    ensures
        table.answer(names, wheres, floats) == Ok::<Seq<Seq<Seq<char>>>, Seq<char>>(Seq::empty()),
{
    let w = wheres[0];
    let op = w.op.binary();
    let j = table.header_at(w.left@).unwrap();
    let col = table.header(w.left@);
    let cells = table.store(w.left@).cells();
    lemma_first_named(table.header_names(), w.left@);
    assert(col.name@ == w.left@);
    if col.is_indexed {
        let index = col.index;
        lemma_index_is_filed_into(table, j);
        lemma_indexed_column_fills(table, j);
        lemma_key_is_filed(index, w.right@);
        if op == Binary::Eq {
            if position_of(index.entries(), v) is Some {
                let p = position_of(index.entries(), v).unwrap();
                lemma_lookup_is_membership(index.entries(), v);
                assert(index.entries().contains((v, p)));
                lemma_filed_members(cells);
                assert(cells[p as int] == v);
                lemma_key_less_irreflexive(v);
                assert(holds(op, cells[p as int], v));
            }
            assert(table.matched(w, floats) == Ok::<Seq<usize>, Seq<char>>(Seq::empty()));
        } else {
            lemma_range_lookup_by_operator(table, j, w.right@, op);
            let found = index.range(w.right@, op)->Ok_0;
            if found.len() > 0 {
                assert(found.contains(found[0]));
            }
            assert(found =~= Seq::<usize>::empty());
        }
    } else {
        lemma_scan_gives_rows(cells, op, v);
        let found = matching_positions(cells, op, v);
        if found.len() > 0 {
            assert(found.contains(found[0]));
        }
        assert(found =~= Seq::<usize>::empty());
    }
    lemma_no_match_no_rows(table, names, wheres, floats);
}

/// A scan gives the rows that match, in row order: the positions found
/// are exactly those of the cells `c` for which `c op term` holds, and they
/// increase.
pub proof fn lemma_scan_gives_rows(cells: Seq<Cell>, op: Binary, term: Cell)
    requires
        cells.len() <= usize::MAX,
    ensures
        forall|p: usize|
            #![trigger matching_positions(cells, op, term).contains(p)]
            matching_positions(cells, op, term).contains(p) <==> (p < cells.len() && holds(
                op,
                cells[p as int],
                term,
            )),
        forall|a: int, b: int|
            0 <= a < b < matching_positions(cells, op, term).len() ==> (
            #[trigger] matching_positions(cells, op, term)[a]) < (
            #[trigger] matching_positions(cells, op, term)[b]),
    decreases cells.len(),
{
    let found = matching_positions(cells, op, term);
    if cells.len() > 0 {
        let rest = cells.drop_last();
        let before = matching_positions(rest, op, term);
        let last = (cells.len() - 1) as usize;
        lemma_scan_gives_rows(rest, op, term);
        assert forall|p: usize| #![trigger found.contains(p)] found.contains(p) <==> (p
            < cells.len() && holds(op, cells[p as int], term)) by {
            if found.contains(p) {
                let i = choose|i: int| 0 <= i < found.len() && found[i] == p;
                if i < before.len() {
                    assert(before[i] == p);
                    assert(before.contains(p));
                    assert(rest[p as int] == cells[p as int]);
                }
            }
            if p < cells.len() && holds(op, cells[p as int], term) {
                if p == last {
                    assert(found[found.len() - 1] == p);
                } else {
                    assert(rest[p as int] == cells[p as int]);
                    assert(before.contains(p));
                    let i = choose|i: int| 0 <= i < before.len() && before[i] == p;
                    assert(found[i] == p);
                }
            }
        }
        assert forall|a: int, b: int| 0 <= a < b < found.len() implies (#[trigger] found[a]) < (
        #[trigger] found[b]) by {
            if b < before.len() {
                assert(found[a] == before[a]);
                assert(found[b] == before[b]);
            } else {
                assert(found[a] == before[a]);
                assert(before.contains(before[a]));
            }
        }
    }
}

/// The texts of all rows are the texts of the rows at every position in
/// turn.
pub proof fn lemma_dump_is_fetch_of_all(cells: Seq<Cell>)
    requires
        cells.len() <= usize::MAX,
    ensures
        texts_of_cells(cells) == texts_at(cells, Seq::new(cells.len(), |i: int| i as usize)),
{
    assert(texts_of_cells(cells) =~= texts_at(cells, Seq::new(cells.len(), |i: int| i as usize)));
}

} // verus!
