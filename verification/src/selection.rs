//! Selection: which rows a predicate selects, by index or by scan, and the
//! rows of texts that a projection gives for them.

use crate::cell::FloatReadings;
use crate::column::{matching_positions, texts_at, texts_of_cells};
use crate::header::ColumnHeader;
use crate::names::lemma_first_named;
use crate::parser::select::{Binary, Expression, Operator, SelectQuery};
use crate::table::Table;
use crate::text::texts_of;
use vstd::prelude::*;

verus! {

/// The texts of a list of lists of strings.
pub open spec fn grid_of(v: Seq<Vec<String>>) -> Seq<Seq<Seq<char>>> {
    Seq::new(v.len(), |i: int| texts_of(v[i]@))
}

/// The first `count` rows of the columns `data`: row `r` holds, for each
/// column in order, the text at `r` of that column.
pub open spec fn rows_of(data: Seq<Seq<Seq<char>>>, count: nat) -> Seq<Seq<Seq<char>>> {
    Seq::new(count, |r: int| Seq::new(data.len(), |c: int| data[c][r]))
}

/// Columns turned into rows: there are as many rows as the first column is
/// long. Without any column the result is one row without cells.
pub open spec fn rotated(data: Seq<Seq<Seq<char>>>) -> Seq<Seq<Seq<char>>> {
    if data.len() == 0 {
        seq![Seq::empty()]
    } else {
        rows_of(data, data[0].len())
    }
}

/// The mathematical content of what a selection on a table gives: its
/// rows of texts, or what is said of its failure.
pub open spec fn rows_or_text(r: Result<Vec<Vec<String>>, String>) -> Result<
    Seq<Seq<Seq<char>>>,
    Seq<char>,
> {
    match r {
        Ok(rows) => Ok(grid_of(rows@)),
        Err(said) => Err(said@),
    }
}

/// What is said where the literal of a predicate writes no key of the index
/// that is consulted; `e` says why it writes none.
pub open spec fn index_failure_text(e: Seq<char>) -> Seq<char> {
    "Error while trying to retrieve value from index: "@ + e
}

impl Table {
    /// For each of `names` in order, the texts of the rows at `positions`
    /// of the store of that name.
    pub open spec fn fetched(&self, names: Seq<Seq<char>>, positions: Seq<usize>) -> Seq<
        Seq<Seq<char>>,
    > {
        Seq::new(names.len(), |c: int| texts_at(self.store(names[c]).cells(), positions))
    }

    /// For each of `names` in order, the texts of all rows of the store of
    /// that name.
    pub open spec fn dumped(&self, names: Seq<Seq<char>>) -> Seq<Seq<Seq<char>>> {
        Seq::new(names.len(), |c: int| texts_of_cells(self.store(names[c]).cells()))
    }

    /// Whether every one of `names` has a store that takes values, with a
    /// row at each of `positions`.
    pub open spec fn can_fetch(&self, names: Seq<Seq<char>>, positions: Seq<usize>) -> bool {
        forall|c: int|
            0 <= c < names.len() ==> {
                &&& self.store_at(#[trigger] names[c]) is Some
                &&& !(self.store(names[c]) is Absent)
                &&& forall|i: int|
                    0 <= i < positions.len() ==> (#[trigger] positions[i]) < self.store(
                        names[c],
                    ).cells().len()
            }
    }

    /// What the index of `col` finds for the literal `text` under `op`: by a
    /// point lookup for `=`, which finds one position or none, and by a
    /// range lookup for every other operator; or what is said where the
    /// literal cannot be read as a key.
    pub open spec fn found(col: ColumnHeader, text: Seq<char>, op: Binary) -> Result<
        Seq<usize>,
        Seq<char>,
    > {
        let answer = if op == Binary::Eq {
            match col.index.point(text) {
                Ok(Some(p)) => Ok(seq![p]),
                Ok(None) => Ok(Seq::empty()),
                Err(e) => Err(e),
            }
        } else {
            col.index.range(text, op)
        };
        match answer {
            Ok(positions) => Ok(positions),
            Err(e) => Err(index_failure_text(e)),
        }
    }

    /// The positions that a scan of the store named `name` finds for the
    /// literal `text` under `op`, in row order.
    pub open spec fn scanned(
        &self,
        name: Seq<char>,
        text: Seq<char>,
        op: Binary,
        floats: &FloatReadings,
    ) -> Seq<usize> {
        matching_positions(
            self.store(name).cells(),
            op,
            self.store(name).cell_of(text, floats).unwrap(),
        )
    }

    /// The positions of the rows that predicate `w` selects, or what is said
    /// where its literal cannot be read as a key.
    ///
    /// Where the column of `w` is indexed, its index answers; an indexed
    /// column without an index selects nothing. Where it is not indexed,
    /// its store is scanned.
    pub open spec fn matched(&self, w: Expression, floats: &FloatReadings) -> Result<
        Seq<usize>,
        Seq<char>,
    > {
        let col = self.header(w.left@);
        if col.is_indexed {
            Table::found(col, w.right@, w.op.binary())
        } else {
            Ok(self.scanned(w.left@, w.right@, w.op.binary(), floats))
        }
    }

    /// Whether the rows that `w` selects can be looked for: its column
    /// exists and, where the store is scanned, takes values and reads the
    /// literal.
    pub open spec fn can_match(&self, w: Expression, floats: &FloatReadings) -> bool {
        &&& self.header_at(w.left@) is Some
        &&& !self.header(w.left@).is_indexed ==> self.store(w.left@).cell_of(w.right@, floats)
            is Some
    }

    /// The rows that a selection gives for the projection `names` under
    /// the predicates `wheres`, each row a list of texts in the order of
    /// `names`; or what is said where the literal of the predicate cannot be
    /// read as a key. Only the first predicate counts. Without a predicate
    /// all rows are given, in row order; with one, one row for each selected
    /// position, in the order in which they were found, whatever is
    /// projected.
    pub open spec fn answer(
        &self,
        names: Seq<Seq<char>>,
        wheres: Seq<Expression>,
        floats: &FloatReadings,
    ) -> Result<Seq<Seq<Seq<char>>>, Seq<char>> {
        if wheres.len() == 0 {
            Ok(rotated(self.dumped(names)))
        } else {
            match self.matched(wheres[0], floats) {
                Ok(positions) => Ok(rows_of(self.fetched(names, positions), positions.len())),
                Err(e) => Err(e),
            }
        }
    }

    /// Whether the selection can be made: every projected name has a store
    /// that takes values; with a predicate, the rows it selects can be
    /// looked for and are there in every projected store; without one, no
    /// projected store is shorter than the first.
    pub open spec fn can_answer(
        &self,
        names: Seq<Seq<char>>,
        wheres: Seq<Expression>,
        floats: &FloatReadings,
    ) -> bool {
        if wheres.len() == 0 {
            &&& self.can_fetch(names, Seq::empty())
            &&& forall|c: int|
                0 <= c < names.len() ==> self.store(#[trigger] names[c]).cells().len()
                    >= self.store(names[0]).cells().len()
        } else {
            &&& self.can_match(wheres[0], floats)
            &&& match self.matched(wheres[0], floats) {
                Ok(positions) => self.can_fetch(names, positions),
                Err(_) => true,
            }
        }
    }

    /// What the selection `sq` gives: see [`Table::answer`].
    pub open spec fn selected(&self, sq: &SelectQuery, floats: &FloatReadings) -> Result<
        Seq<Seq<Seq<char>>>,
        Seq<char>,
    > {
        self.answer(texts_of(sq.projection@), sq.where_expressions@, floats)
    }

    /// Whether the selection `sq` can be made: see [`Table::can_answer`].
    pub open spec fn select_ready(&self, sq: &SelectQuery, floats: &FloatReadings) -> bool {
        self.can_answer(texts_of(sq.projection@), sq.where_expressions@, floats)
    }

    /// The texts of the rows at `indexes`, one list per name of
    /// `columns_to_fetch`.
    pub fn select_data(&self, columns_to_fetch: &[String], indexes: &[usize]) -> (r: Vec<
        Vec<String>,
    >)
        requires
            self.can_fetch(texts_of(columns_to_fetch@), indexes@),
        ensures
            grid_of(r@) == self.fetched(texts_of(columns_to_fetch@), indexes@),
    {
        let ghost names = texts_of(columns_to_fetch@);
        let mut data: Vec<Vec<String>> = Vec::new();
        let mut c: usize = 0;
        while c < columns_to_fetch.len()
            invariant
                0 <= c <= columns_to_fetch@.len(),
                names == texts_of(columns_to_fetch@),
                self.can_fetch(names, indexes@),
                data@.len() == c,
                forall|k: int|
                    0 <= k < c ==> texts_of((#[trigger] data@[k])@) == texts_at(
                        self.store(names[k]).cells(),
                        indexes@,
                    ),
            decreases columns_to_fetch@.len() - c,
        {
            assert(names[c as int] == columns_to_fetch@[c as int]@);
            let si = self.find_store(columns_to_fetch[c].as_str()).unwrap();
            data.push(self.rows[si].data.get_serialized_col_data_by_index(indexes));
            c += 1;
        }
        assert(grid_of(data@) =~= self.fetched(names, indexes@));
        data
    }

    /// The texts of all rows, one list per name of `columns_to_fetch`.
    pub fn dump_data(&self, columns_to_fetch: &[String]) -> (r: Vec<Vec<String>>)
        requires
            self.can_fetch(texts_of(columns_to_fetch@), Seq::empty()),
        ensures
            grid_of(r@) == self.dumped(texts_of(columns_to_fetch@)),
    {
        let ghost names = texts_of(columns_to_fetch@);
        let mut dumps: Vec<Vec<String>> = Vec::new();
        let mut c: usize = 0;
        while c < columns_to_fetch.len()
            invariant
                0 <= c <= columns_to_fetch@.len(),
                names == texts_of(columns_to_fetch@),
                self.can_fetch(names, Seq::empty()),
                dumps@.len() == c,
                forall|k: int|
                    0 <= k < c ==> texts_of((#[trigger] dumps@[k])@) == texts_of_cells(
                        self.store(names[k]).cells(),
                    ),
            decreases columns_to_fetch@.len() - c,
        {
            assert(names[c as int] == columns_to_fetch@[c as int]@);
            let si = self.find_store(columns_to_fetch[c].as_str()).unwrap();
            dumps.push(self.rows[si].data.get_serialized_col_data());
            c += 1;
        }
        assert(grid_of(dumps@) =~= self.dumped(names));
        dumps
    }

    /// The first `count` rows of the columns `data`.
    pub fn rows_from(data: &[Vec<String>], count: usize) -> (r: Vec<Vec<String>>)
        requires
            forall|c: int| 0 <= c < data@.len() ==> (#[trigger] data@[c])@.len() >= count,
        ensures
            grid_of(r@) == rows_of(grid_of(data@), count as nat),
    {
        let mut ret_data: Vec<Vec<String>> = Vec::new();
        let number_of_cols = data.len();
        let mut row_idx: usize = 0;
        while row_idx < count
            invariant
                0 <= row_idx <= count,
                number_of_cols == data@.len(),
                forall|c: int| 0 <= c < data@.len() ==> (#[trigger] data@[c])@.len() >= count,
                ret_data@.len() == row_idx,
                forall|k: int|
                    0 <= k < row_idx ==> texts_of((#[trigger] ret_data@[k])@) == Seq::new(
                        data@.len(),
                        |c: int| data@[c]@[k]@,
                    ),
            decreases count - row_idx,
        {
            let mut row: Vec<String> = Vec::new();
            let mut col_idx: usize = 0;
            while col_idx < number_of_cols
                invariant
                    0 <= col_idx <= number_of_cols,
                    row_idx < count,
                    number_of_cols == data@.len(),
                    forall|c: int| 0 <= c < data@.len() ==> (#[trigger] data@[c])@.len() >= count,
                    row@.len() == col_idx,
                    forall|c: int|
                        0 <= c < col_idx ==> (#[trigger] row@[c])@ == data@[c]@[row_idx as int]@,
                decreases number_of_cols - col_idx,
            {
                assert(data@[col_idx as int]@.len() >= count);
                row.push(data[col_idx][row_idx].clone());
                col_idx += 1;
            }
            assert(texts_of(row@) =~= Seq::new(data@.len(), |c: int| data@[c]@[row_idx as int]@));
            ret_data.push(row);
            row_idx += 1;
        }
        proof {
            let want = rows_of(grid_of(data@), count as nat);
            assert(grid_of(ret_data@).len() == want.len());
            assert forall|k: int| 0 <= k < want.len() implies grid_of(ret_data@)[k] == want[k] by {
                assert(grid_of(ret_data@)[k] =~= want[k]);
            }
            assert(grid_of(ret_data@) =~= want);
        }
        ret_data
    }

    /// Columns to rows.
    pub fn rotate_2d_vec(data: &[Vec<String>]) -> (r: Vec<Vec<String>>)
        requires
            forall|c: int| 0 <= c < data@.len() ==> (#[trigger] data@[c])@.len() >= data@[0]@.len(),
        ensures
            grid_of(r@) == rotated(grid_of(data@)),
    {
        if data.len() == 0 {
            let mut ret_data: Vec<Vec<String>> = Vec::new();
            ret_data.push(Vec::new());
            assert(grid_of(ret_data@) =~= rotated(grid_of(data@))) by {
                assert(texts_of(ret_data@[0]@) =~= Seq::<Seq<char>>::empty());
            }
            return ret_data;
        }
        assert(grid_of(data@)[0].len() == data@[0]@.len());
        Self::rows_from(data, data[0].len())
    }

    /// The positions of the rows that predicate `where_expr` selects, by
    /// the index of its column where the column is indexed and by a scan of
    /// its store where it is not.
    pub fn matching_rows(&self, where_expr: &Expression, floats: &FloatReadings) -> (r: Result<
        Vec<usize>,
        String,
    >)
        requires
            self.wf(),
            self.can_match(*where_expr, floats),
        ensures
            match r {
                Ok(positions) => self.matched(*where_expr, floats) == Ok::<Seq<usize>, Seq<char>>(
                    positions@,
                ),
                Err(e) => self.matched(*where_expr, floats) == Err::<Seq<usize>, Seq<char>>(e@),
            },
    {
        let hi = self.find_header(where_expr.left.as_str()).unwrap();
        let col = &self.columns[hi];
        proof {
            lemma_first_named(self.header_names(), where_expr.left@);
            lemma_first_named(self.store_names(), where_expr.left@);
            assert(self.store_names().contains(self.header_names()[hi as int]));
        }
        if col.is_indexed {
            let found: Result<Vec<usize>, String> = match &where_expr.op {
                Operator::Binary(bop) => match bop {
                    Binary::Eq => match col.index.get_idx_data(&where_expr.right) {
                        Ok(v) => {
                            let mut matched_indexes: Vec<usize> = Vec::new();
                            match v {
                                Some(idx) => {
                                    matched_indexes.push(*idx);
                                    assert(matched_indexes@ =~= seq![*idx]);
                                },
                                None => {},
                            }
                            Ok(matched_indexes)
                        },
                        Err(e) => Err(e),
                    },
                    Binary::Gt | Binary::Lt | Binary::LtEq | Binary::GtEq | Binary::NotEq => {
                        col.index.get_idx_data_by_range(&where_expr.right, *bop)
                    },
                },
            };
            match found {
                Ok(positions) => Ok(positions),
                Err(e) => {
                    let mut message = String::from_str(
                        "Error while trying to retrieve value from index: ",
                    );
                    message.append(e.as_str());
                    Err(message)
                },
            }
        } else {
            let si = self.find_store(where_expr.left.as_str()).unwrap();
            Ok(self.rows[si].data.get_serialized_col_data_by_scanning(where_expr, floats))
        }
    }

    /// The rows that the first predicate of `sq` selects by a scan of its
    /// column, one list of texts per projected name.
    pub fn execute_select_query_without_index(&self, sq: &SelectQuery, floats: &FloatReadings) -> (r:
        Vec<Vec<String>>)
        requires
            self.wf(),
            sq.where_expressions@.len() > 0,
            self.header_at(sq.where_expressions@[0].left@) is Some,
            self.store(sq.where_expressions@[0].left@).cell_of(
                sq.where_expressions@[0].right@,
                floats,
            ) is Some,
            self.can_fetch(
                texts_of(sq.projection@),
                self.scanned(
                    sq.where_expressions@[0].left@,
                    sq.where_expressions@[0].right@,
                    sq.where_expressions@[0].op.binary(),
                    floats,
                ),
            ),
        ensures
            grid_of(r@) == self.fetched(
                texts_of(sq.projection@),
                self.scanned(
                    sq.where_expressions@[0].left@,
                    sq.where_expressions@[0].right@,
                    sq.where_expressions@[0].op.binary(),
                    floats,
                ),
            ),
    {
        let where_expr = &sq.where_expressions[0];
        let col = self.get_column(where_expr.left.clone());
        proof {
            lemma_first_named(self.header_names(), where_expr.left@);
            lemma_first_named(self.store_names(), where_expr.left@);
            assert(self.store_names().contains(
                self.header_names()[self.header_at(where_expr.left@).unwrap()],
            ));
        }
        let si = self.find_store(col.name.as_str()).unwrap();
        let indices = self.rows[si].data.get_serialized_col_data_by_scanning(where_expr, floats);
        self.select_data(sq.projection.as_slice(), indices.as_slice())
    }

    /// The rows that the index of `col` finds for the literal of
    /// `where_expr` under `op`, by a range lookup, one list of texts per
    /// projected name; or what is said where the literal cannot be read as a
    /// key.
    pub fn execute_select(
        &self,
        sq: &SelectQuery,
        where_expr: &Expression,
        op: &Binary,
        col: &ColumnHeader,
    ) -> (r: Result<Vec<Vec<String>>, String>)
        requires
            col.index.wf(),
            col.index.range(where_expr.right@, *op) matches Ok(positions) ==> self.can_fetch(
                texts_of(sq.projection@),
                positions,
            ),
        ensures
            match r {
                Ok(data) => col.index.range(where_expr.right@, *op) matches Ok(positions)
                    && grid_of(data@) == self.fetched(texts_of(sq.projection@), positions),
                Err(said) => col.index.range(where_expr.right@, *op) matches Err(e) && said@
                    == index_failure_text(e),
            },
    {
        match col.index.get_idx_data_by_range(&where_expr.right, *op) {
            Ok(indexes) => Ok(self.select_data(sq.projection.as_slice(), indexes.as_slice())),
            Err(e) => {
                let mut message = String::from_str(
                    "Error while trying to retrieve value from index: ",
                );
                message.append(e.as_str());
                Err(message)
            },
        }
    }

    /// Makes a selection and gives its rows, each a list of texts in the
    /// order of the projection.
    pub fn execute_select_query(&self, sq: &SelectQuery, floats: &FloatReadings) -> (r: Result<
        Vec<Vec<String>>,
        String,
    >)
        requires
            self.wf(),
            self.select_ready(sq, floats),
        ensures
            rows_or_text(r) == self.selected(sq, floats),
    {
        let ghost names = texts_of(sq.projection@);
        if sq.where_expressions.len() > 0 {
            match self.matching_rows(&sq.where_expressions[0], floats) {
                Ok(positions) => {
                    let data = self.select_data(sq.projection.as_slice(), positions.as_slice());
                    proof {
                        assert forall|c: int| 0 <= c < data@.len() implies (#[trigger] data@[c])@.len()
                            >= positions@.len() by {
                            assert(texts_of(data@[c]@) == grid_of(data@)[c]);
                        }
                    }
                    Ok(Self::rows_from(data.as_slice(), positions.len()))
                },
                Err(e) => Err(e),
            }
        } else {
            let data = self.dump_data(sq.projection.as_slice());
            proof {
                assert forall|c: int| 0 <= c < data@.len() implies (#[trigger] data@[c])@.len()
                    >= data@[0]@.len() by {
                    assert(texts_of(data@[c]@) == grid_of(data@)[c]);
                    assert(texts_of(data@[0]@) == grid_of(data@)[0]);
                    assert(self.store(names[c]).cells().len() >= self.store(names[0]).cells().len());
                }
            }
            Ok(Self::rotate_2d_vec(data.as_slice()))
        }
    }
}

} // verus!
