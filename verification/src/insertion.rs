//! Insertion: the check of the unique constraint, and the appending of
//! rows to the stores and the filing of their keys.

use crate::cell::{Cell, FloatReadings};
use crate::column::ColumnData;
use crate::index::{filed, position_of};
use crate::names::{first_named, lemma_first_named, position_in};
use crate::table::Table;
use crate::text::texts_of;
use vstd::prelude::*;

verus! {

/// What is said where a value is already filed under a primary key.
pub open spec fn violation_text(name: Seq<char>, value: Seq<char>) -> Seq<char> {
    "unique constraint violation for column "@ + name + ". Value "@ + value
        + " already exists for column "@ + name
}

/// What is said where a primary key has no index to consult.
pub open spec fn missing_index_text(name: Seq<char>) -> Seq<char> {
    "cannot find index for column "@ + name
}

impl Table {
    /// The first primary-key header, from header `from` on, whose name is
    /// among `cols`.
    pub open spec fn first_keyed(&self, cols: Seq<Seq<char>>, from: int) -> Option<int>
        decreases self.columns@.len() - from,
    {
        if from < 0 || from >= self.columns@.len() {
            None
        } else if self.columns@[from].is_primary_key && first_named(
            cols,
            self.columns@[from].name@,
        ) is Some {
            Some(from)
        } else {
            self.first_keyed(cols, from + 1)
        }
    }

    /// Whether the unique-constraint check can be made on `values`: the
    /// value of the key column that is checked is there, and writes a key of
    /// the column's index.
    pub open spec fn unique_check_ready(&self, cols: Seq<String>, values: Seq<String>) -> bool {
        match self.first_keyed(texts_of(cols), 0) {
            Some(h) => {
                let header = self.columns@[h];
                let c = first_named(texts_of(cols), header.name@).unwrap();
                &&& c < values.len()
                &&& header.index is Absent || header.index.key_of(values[c]@) is Some
            },
            None => true,
        }
    }

    /// The outcome of the unique-constraint check. The first primary-key
    /// header whose name is among `cols` decides alone: an error where the
    /// value given for it is already filed in its index, or where it has no
    /// index; no error otherwise, nor where no primary key is named.
    pub open spec fn unique_verdict(&self, cols: Seq<String>, values: Seq<String>) -> Result<
        (),
        Seq<char>,
    > {
        match self.first_keyed(texts_of(cols), 0) {
            Some(h) => {
                let header = self.columns@[h];
                let c = first_named(texts_of(cols), header.name@).unwrap();
                if header.index is Absent {
                    Err(missing_index_text(header.name@))
                } else if position_of(
                    header.index.entries(),
                    header.index.key_of(values[c]@).unwrap(),
                ) is Some {
                    Err(violation_text(header.name@, values[c]@))
                } else {
                    Ok(())
                }
            },
            None => Ok(()),
        }
    }

    /// The first primary-key header whose name is among `cols`, with the
    /// first place of its name in `cols`.
    pub fn keyed_column(&self, cols: &[String]) -> (r: Option<(usize, usize)>)
        ensures
            match r {
                Some((h, c)) => self.first_keyed(texts_of(cols@), 0) == Some(h as int) && h
                    < self.columns@.len() && first_named(
                    texts_of(cols@),
                    self.columns@[h as int].name@,
                ) == Some(c as int) && c < cols@.len(),
                None => self.first_keyed(texts_of(cols@), 0) is None,
            },
    {
        let mut h: usize = 0;
        while h < self.columns.len()
            invariant
                0 <= h <= self.columns@.len(),
                self.first_keyed(texts_of(cols@), 0) == self.first_keyed(texts_of(cols@), h as int),
            decreases self.columns@.len() - h,
        {
            let c = &self.columns[h];
            if c.is_primary_key {
                match position_in(cols, c.name.as_str()) {
                    Some(idx) => {
                        return Some((h, idx));
                    },
                    None => {},
                }
            }
            h += 1;
        }
        None
    }

    /// Checks one row against the unique constraint of the primary key.
    pub fn does_violate_unique_constraint(&self, cols: &[String], values: &[String]) -> (r: Result<
        (),
        String,
    >)
        requires
            self.wf(),
            self.unique_check_ready(cols@, values@),
        ensures
            match r {
                Ok(_) => self.unique_verdict(cols@, values@) is Ok,
                Err(e) => self.unique_verdict(cols@, values@) == Err::<(), Seq<char>>(e@),
            },
    {
        match self.keyed_column(cols) {
            Some((h, idx)) => {
                let c = &self.columns[h];
                let val = &values[idx];
                match c.index.get_idx_data(val) {
                    Ok(Some(_)) => {
                        let mut message = String::from_str("unique constraint violation for column ");
                        message.append(c.name.as_str());
                        message.append(". Value ");
                        message.append(val.as_str());
                        message.append(" already exists for column ");
                        message.append(c.name.as_str());
                        Err(message)
                    },
                    Ok(None) => {
                        if c.index.is_absent() {
                            let mut message = String::from_str("cannot find index for column ");
                            message.append(c.name.as_str());
                            Err(message)
                        } else {
                            Ok(())
                        }
                    },
                    Err(e) => Err(e),
                }
            },
            None => Ok(()),
        }
    }
}

/// The cells that `store` reads from column `i` of the rows `values`.
pub open spec fn column_cells(
    store: ColumnData,
    values: Seq<Vec<String>>,
    i: int,
    floats: &FloatReadings,
) -> Seq<Cell> {
    Seq::new(values.len(), |r: int| store.cell_of(values[r]@[i]@, floats).unwrap())
}

/// The cells that an insertion gives to the store named `name`, as far as
/// the first `n` names of `cols` go: for each of them that is `name`, in
/// order, the cells of its column of `values`.
pub open spec fn cells_added(
    store: ColumnData,
    cols: Seq<String>,
    values: Seq<Vec<String>>,
    name: Seq<char>,
    n: int,
    floats: &FloatReadings,
) -> Seq<Cell>
    decreases n,
{
    if n <= 0 {
        Seq::empty()
    } else {
        let before = cells_added(store, cols, values, name, n - 1, floats);
        if cols[n - 1]@ == name {
            before + column_cells(store, values, n - 1, floats)
        } else {
            before
        }
    }
}

/// What a store reads from a text depends on its type alone.
pub proof fn lemma_cell_of_same_type(a: ColumnData, b: ColumnData, floats: &FloatReadings)
    requires
        a.same_type(&b),
    ensures
        forall|text: Seq<char>| a.cell_of(text, floats) == b.cell_of(text, floats),
        forall|values: Seq<Vec<String>>, i: int|
            column_cells(a, values, i, floats) == column_cells(b, values, i, floats),
{
    assert forall|values: Seq<Vec<String>>, i: int|
        column_cells(a, values, i, floats) == column_cells(b, values, i, floats) by {
        assert(column_cells(a, values, i, floats) =~= column_cells(b, values, i, floats));
    }
}

impl Table {
    /// Whether `values` can be inserted under `cols`: every name has a
    /// store, every row has a literal for every name, and every literal
    /// writes a value of the type of its store.
    pub open spec fn insert_ready(
        &self,
        cols: Seq<String>,
        values: Seq<Vec<String>>,
        floats: &FloatReadings,
    ) -> bool {
        &&& forall|i: int| 0 <= i < cols.len() ==> self.store_at(#[trigger] cols[i]@) is Some
        &&& forall|r: int| 0 <= r < values.len() ==> (#[trigger] values[r])@.len() >= cols.len()
        &&& forall|i: int, r: int|
            0 <= i < cols.len() && 0 <= r < values.len() ==> self.store(
                (#[trigger] cols[i])@,
            ).cell_of((#[trigger] values[r])@[i]@, floats) is Some
    }

    /// Whether header `j` is the one whose index an insertion under its name
    /// files into: the first header of that name, with an index of the type
    /// of the store.
    pub open spec fn files_into(&self, j: int) -> bool {
        let header = self.columns@[j];
        &&& self.header_at(header.name@) == Some(j)
        &&& self.store_at(header.name@) is Some
        &&& header.index.datatype() == Some(self.store(header.name@).datatype())
    }

    /// Whether `after` is this table with the first `n` names of `cols`
    /// inserted: each store has grown by the cells given to its name, each
    /// index that is filed into has each such cell filed at its position,
    /// and nothing else differs.
    pub open spec fn inserted(
        &self,
        after: &Table,
        cols: Seq<String>,
        values: Seq<Vec<String>>,
        n: int,
        floats: &FloatReadings,
    ) -> bool {
        &&& after.name == self.name
        &&& after.rows@.len() == self.rows@.len()
        &&& after.columns@.len() == self.columns@.len()
        &&& forall|k: int|
            0 <= k < self.rows@.len() ==> {
                let was = #[trigger] self.rows@[k];
                let now = after.rows@[k];
                &&& now.name == was.name
                &&& now.data.same_type(&was.data)
                &&& now.data.cells() == was.data.cells() + cells_added(
                    was.data,
                    cols,
                    values,
                    was.name@,
                    n,
                    floats,
                )
            }
        &&& forall|j: int|
            0 <= j < self.columns@.len() ==> {
                let was = #[trigger] self.columns@[j];
                let now = after.columns@[j];
                &&& now.name == was.name
                &&& now.datatype == was.datatype
                &&& now.is_indexed == was.is_indexed
                &&& now.is_primary_key == was.is_primary_key
                &&& now.index.datatype() == was.index.datatype()
                &&& now.index.entries() == if self.files_into(j) {
                    filed(
                        was.index.entries(),
                        cells_added(self.store(was.name@), cols, values, was.name@, n, floats),
                        self.store(was.name@).cells().len() as int,
                    )
                } else {
                    was.index.entries()
                }
            }
    }

    /// Appends the rows `values`, column by column in the order of `cols`:
    /// each literal is parsed to the type of its store and put after the
    /// store's last row, and filed in the column's index, under its value
    /// and with its position, where the column has an index of that type.
    /// Stores that `cols` does not name stay as they are.
    pub fn insert_row(&mut self, cols: &[String], values: &[Vec<String>], floats: &FloatReadings)
        requires
            old(self).wf(),
            old(self).insert_ready(cols@, values@, floats),
        ensures
            final(self).wf(),
            old(self).inserted(final(self), cols@, values@, cols@.len() as int, floats),
            old(self).indexed() ==> final(self).indexed(),
            old(self).typed() ==> final(self).typed(),
            old(self).distinct_names() ==> final(self).distinct_names(),
            forall|n: int|
                #[trigger] old(self).aligned(n) && old(self).names_each_once(cols@)
                    ==> final(self).aligned(n + values@.len()),
    {
        let ghost start = *self;
        let mut i: usize = 0;
        proof {
            assert forall|k: int| 0 <= k < start.rows@.len() implies (#[trigger] start.rows@[k]).data.cells()
                == start.rows@[k].data.cells() + cells_added(
                start.rows@[k].data,
                cols@,
                values@,
                start.rows@[k].name@,
                0,
                floats,
            ) by {
                assert(start.rows@[k].data.cells() + Seq::<Cell>::empty()
                    =~= start.rows@[k].data.cells());
            }
        }
        while i < cols.len()
            invariant
                0 <= i <= cols@.len(),
                start.wf(),
                start.insert_ready(cols@, values@, floats),
                self.wf(),
                start.inserted(self, cols@, values@, i as int, floats),
                self.store_names() == start.store_names(),
                self.header_names() == start.header_names(),
            decreases cols@.len() - i,
        {
            let name = cols[i].as_str();
            let si = self.find_store(name).unwrap();
            proof {
                lemma_first_named(self.header_names(), name@);
                lemma_first_named(self.store_names(), name@);
                assert(self.header_names().contains(self.store_names()[si as int]));
            }
            let hi = self.find_header(name).unwrap();
            let ghost entered = *self;
            let ghost base = cells_added(
                start.rows@[si as int].data,
                cols@,
                values@,
                name@,
                i as int,
                floats,
            );
            let ghost column = column_cells(start.rows@[si as int].data, values@, i as int, floats);
            let ghost origin = start.rows@[si as int].data.cells().len() as int;
            let ghost filing = start.files_into(hi as int);
            proof {
                assert(start.store(name@) == start.rows@[si as int].data);
                assert(start.columns@[hi as int].name@ == name@);
                assert(base + column.take(0) =~= base);
            }
            let mut r: usize = 0;
            while r < values.len()
                invariant
                    0 <= r <= values@.len(),
                    0 <= i < cols@.len(),
                    si < self.rows@.len(),
                    hi < self.columns@.len(),
                    name@ == cols@[i as int]@,
                    start.wf(),
                    start.insert_ready(cols@, values@, floats),
                    self.wf(),
                    start.store_at(name@) == Some(si as int),
                    start.header_at(name@) == Some(hi as int),
                    start.columns@[hi as int].name@ == name@,
                    self.store_names() == start.store_names(),
                    self.header_names() == start.header_names(),
                    start.inserted(&entered, cols@, values@, i as int, floats),
                    base == cells_added(
                        start.rows@[si as int].data,
                        cols@,
                        values@,
                        name@,
                        i as int,
                        floats,
                    ),
                    column == column_cells(start.rows@[si as int].data, values@, i as int, floats),
                    origin == start.rows@[si as int].data.cells().len(),
                    filing == start.files_into(hi as int),
                    self.name == entered.name,
                    self.rows@.len() == entered.rows@.len(),
                    self.columns@.len() == entered.columns@.len(),
                    forall|k: int|
                        0 <= k < self.rows@.len() && k != si ==> self.rows@[k] == entered.rows@[k],
                    forall|j: int|
                        0 <= j < self.columns@.len() && j != hi ==> self.columns@[j]
                            == entered.columns@[j],
                    self.rows@[si as int].name == entered.rows@[si as int].name,
                    self.rows@[si as int].data.same_type(&start.rows@[si as int].data),
                    self.rows@[si as int].data.cells() == start.rows@[si as int].data.cells() + (
                    base + column.take(r as int)),
                    self.columns@[hi as int].name == entered.columns@[hi as int].name,
                    self.columns@[hi as int].datatype == entered.columns@[hi as int].datatype,
                    self.columns@[hi as int].is_indexed == entered.columns@[hi as int].is_indexed,
                    self.columns@[hi as int].is_primary_key
                        == entered.columns@[hi as int].is_primary_key,
                    self.columns@[hi as int].index.datatype()
                        == start.columns@[hi as int].index.datatype(),
                    self.columns@[hi as int].index.entries() == if filing {
                        filed(
                            start.columns@[hi as int].index.entries(),
                            base + column.take(r as int),
                            origin,
                        )
                    } else {
                        start.columns@[hi as int].index.entries()
                    },
                decreases values@.len() - r,
            {
                let ghost held = self.rows@[si as int].data;
                proof {
                    lemma_cell_of_same_type(held, start.rows@[si as int].data, floats);
                    assert(start.store(cols@[i as int]@).cell_of(values@[r as int]@[i as int]@, floats) is Some);
                    assert(column[r as int] == start.rows@[si as int].data.cell_of(
                        values@[r as int]@[i as int]@,
                        floats,
                    ).unwrap());
                }
                self.rows[si].data.append(values[r][i].as_str(), floats);
                let position: usize = self.rows[si].data.count() - 1;
                let key = self.rows[si].data.key_at(position);
                proof {
                    assert(column.take(r + 1) =~= column.take(r as int).push(column[r as int]));
                    assert(base + column.take(r + 1) =~= (base + column.take(r as int)).push(
                        column[r as int],
                    ));
                    assert((base + column.take(r + 1)).drop_last() =~= base + column.take(r as int));
                    assert(self.rows@[si as int].data.cells() =~= start.rows@[si as int].data.cells()
                        + (base + column.take(r + 1)));
                    assert(self.store_names() =~= start.store_names());
                }
                let ghost grown = self.rows@[si as int].data;
                let ghost added = base + column.take(r + 1);
                proof {
                    assert(start.store(name@) == start.rows@[si as int].data);
                    assert(filing == (start.columns@[hi as int].index.datatype() == Some(
                        start.rows@[si as int].data.datatype(),
                    )));
                    assert(grown.datatype() == start.rows@[si as int].data.datatype());
                    assert(position == origin + added.len() - 1);
                    assert(grown.cells()[position as int] == added.last());
                }
                match key {
                    Some(key) => {
                        if self.columns[hi].index.takes(&key) {
                            proof {
                                assert(self.columns@[hi as int].index.datatype() == Some(
                                    grown.datatype(),
                                ));
                                assert(filing);
                            }
                            self.columns[hi].index.insert(key, position);
                        } else {
                            proof {
                                assert(self.columns@[hi as int].index.datatype() != Some(
                                    grown.datatype(),
                                ));
                                assert(!filing);
                            }
                        }
                    },
                    None => {
                        proof {
                            assert(grown is Float);
                            assert(!filing);
                        }
                    },
                }
                proof {
                    assert(self.header_names() =~= start.header_names());
                    assert(self.store_names() =~= start.store_names());
                }
                r += 1;
            }
            proof {
                assert(column.take(values@.len() as int) =~= column);
                assert forall|k: int| 0 <= k < start.rows@.len() implies {
                    let was = #[trigger] start.rows@[k];
                    let now = self.rows@[k];
                    &&& now.name == was.name
                    &&& now.data.same_type(&was.data)
                    &&& now.data.cells() == was.data.cells() + cells_added(
                        was.data,
                        cols@,
                        values@,
                        was.name@,
                        i + 1,
                        floats,
                    )
                } by {
                    let was = start.rows@[k];
                    if k == si {
                        assert(was.name@ == name@) by {
                            lemma_first_named(start.store_names(), name@);
                            assert(start.store_names()[k] == was.name@);
                        }
                        assert(was.data.cells() + (base + column) =~= was.data.cells() + cells_added(
                            was.data,
                            cols@,
                            values@,
                            was.name@,
                            i + 1,
                            floats,
                        ));
                    } else {
                        assert(was.name@ != name@) by {
                            lemma_first_named(start.store_names(), name@);
                            assert(start.store_names()[k] == was.name@);
                            assert(start.store_names()[si as int] == name@);
                        }
                    }
                }
                assert forall|j: int| 0 <= j < start.columns@.len() implies {
                    let was = #[trigger] start.columns@[j];
                    let now = self.columns@[j];
                    &&& now.name == was.name
                    &&& now.datatype == was.datatype
                    &&& now.is_indexed == was.is_indexed
                    &&& now.is_primary_key == was.is_primary_key
                    &&& now.index.datatype() == was.index.datatype()
                    &&& now.index.entries() == if start.files_into(j) {
                        filed(
                            was.index.entries(),
                            cells_added(
                                start.store(was.name@),
                                cols@,
                                values@,
                                was.name@,
                                i + 1,
                                floats,
                            ),
                            start.store(was.name@).cells().len() as int,
                        )
                    } else {
                        was.index.entries()
                    }
                } by {
                    let was = start.columns@[j];
                    assert(start.header_names()[j] == was.name@);
                    if j == hi {
                    } else if start.files_into(j) {
                        assert(start.header_at(was.name@) == Some(j));
                        assert(was.name@ != name@);
                    }
                }
            }
            i += 1;
        }
        proof {
            if start.indexed() {
                crate::laws::lemma_insert_keeps_indexed(start, *self, cols@, values@, floats);
            }
            if start.typed() {
                assert forall|j: int| 0 <= j < self.columns@.len() implies self.store_at(
                    (#[trigger] self.columns@[j]).name@,
                ) is Some && self.store(self.columns@[j].name@).datatype()
                    == self.columns@[j].datatype by {
                    let name = start.columns@[j].name@;
                    lemma_first_named(start.store_names(), name);
                    let k = start.store_at(name).unwrap();
                    assert(self.rows@[k].data.same_type(&start.rows@[k].data));
                }
            }
            assert forall|n: int| #[trigger]
                start.aligned(n) && start.names_each_once(cols@) implies self.aligned(
                n + values@.len(),
            ) by {
                crate::laws::lemma_insert_keeps_aligned(start, *self, cols@, values@, floats, n);
            }
        }
    }
}

} // verus!
