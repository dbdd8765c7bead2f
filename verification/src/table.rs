//! Tables: the ordered column headers and one store per column name.

use crate::cell::Cell;
use crate::column::ColumnData;
use crate::datatype::DataType;
use crate::header::ColumnHeader;
use crate::index::{filed, ColumnIndex};
use crate::names::{first_named, lemma_first_named, lemma_first_named_is, occurrences};
use crate::parser::create::{CreateQuery, ParsedColumn};
use crate::text::{text_eq, texts_of};
use vstd::prelude::*;

verus! {

/// The store of one column, under the column's name.
#[derive(Debug, PartialEq)]
pub struct StoredColumn {
    pub name: String,
    pub data: ColumnData,
}

/// A table: its headers in declared order, its name, and one store for each
/// column name.
///
/// The stores stand in a vector, no two under one name, where a hash map
/// from name to store would serve as well: of such a map with keys of text
/// the verifier proves nothing, not even its length after one insertion.
#[derive(Debug, PartialEq)]
pub struct Table {
    pub columns: Vec<ColumnHeader>,
    pub name: String,
    pub rows: Vec<StoredColumn>,
}

impl Table {
    /// The names of the headers, in declared order.
    pub open spec fn header_names(&self) -> Seq<Seq<char>> {
        Seq::new(self.columns@.len(), |i: int| self.columns@[i].name@)
    }

    /// The names under which the stores stand.
    pub open spec fn store_names(&self) -> Seq<Seq<char>> {
        Seq::new(self.rows@.len(), |i: int| self.rows@[i].name@)
    }

    /// The place of the first header named `name`.
    pub open spec fn header_at(&self, name: Seq<char>) -> Option<int> {
        first_named(self.header_names(), name)
    }

    /// The place of the store named `name`.
    pub open spec fn store_at(&self, name: Seq<char>) -> Option<int> {
        first_named(self.store_names(), name)
    }

    /// The store named `name`. Meant for names that have a store.
    pub open spec fn store(&self, name: Seq<char>) -> ColumnData {
        self.rows@[self.store_at(name).unwrap()].data
    }

    /// The first header named `name`. Meant for names that have a header.
    pub open spec fn header(&self, name: Seq<char>) -> ColumnHeader {
        self.columns@[self.header_at(name).unwrap()]
    }

    /// No two stores stand under one name, the names of the stores are those
    /// of the headers, and every header is well formed.
    pub open spec fn wf(&self) -> bool {
        &&& self.store_names().no_duplicates()
        &&& forall|i: int|
            0 <= i < self.columns@.len() ==> self.store_names().contains(
                #[trigger] self.header_names()[i],
            )
        &&& forall|i: int|
            0 <= i < self.rows@.len() ==> self.header_names().contains(
                #[trigger] self.store_names()[i],
            )
        &&& forall|i: int| 0 <= i < self.columns@.len() ==> (#[trigger] self.columns@[i]).wf()
    }

    /// The place of the first header named `name`.
    pub fn find_header(&self, name: &str) -> (r: Option<usize>)
        ensures
            match r {
                Some(i) => self.header_at(name@) == Some(i as int) && i < self.columns@.len(),
                None => self.header_at(name@) is None,
            },
    {
        let mut i: usize = 0;
        while i < self.columns.len()
            invariant
                0 <= i <= self.columns@.len(),
                forall|j: int| 0 <= j < i ==> self.header_names()[j] != name@,
            decreases self.columns@.len() - i,
        {
            if text_eq(self.columns[i].name.as_str(), name) {
                proof {
                    lemma_first_named_is(self.header_names(), name@, i as int);
                }
                return Some(i);
            }
            i += 1;
        }
        proof {
            lemma_first_named(self.header_names(), name@);
        }
        None
    }

    /// The place of the store named `name`.
    pub fn find_store(&self, name: &str) -> (r: Option<usize>)
        ensures
            match r {
                Some(i) => self.store_at(name@) == Some(i as int) && i < self.rows@.len(),
                None => self.store_at(name@) is None,
            },
    {
        let mut i: usize = 0;
        while i < self.rows.len()
            invariant
                0 <= i <= self.rows@.len(),
                forall|j: int| 0 <= j < i ==> self.store_names()[j] != name@,
            decreases self.rows@.len() - i,
        {
            if text_eq(self.rows[i].name.as_str(), name) {
                proof {
                    lemma_first_named_is(self.store_names(), name@, i as int);
                }
                return Some(i);
            }
            i += 1;
        }
        proof {
            lemma_first_named(self.store_names(), name@);
        }
        None
    }

    /// Whether the table is well formed.
    pub fn check(&self) -> (r: bool)
        ensures
            r == self.wf(),
    {
        let mut i: usize = 0;
        while i < self.rows.len()
            invariant
                0 <= i <= self.rows@.len(),
                forall|a: int, b: int|
                    0 <= a < b < i ==> self.store_names()[a] != self.store_names()[b],
                forall|k: int|
                    0 <= k < i ==> self.header_names().contains(#[trigger] self.store_names()[k]),
            decreases self.rows@.len() - i,
        {
            match self.find_store(self.rows[i].name.as_str()) {
                Some(first) => {
                    proof {
                        lemma_first_named(self.store_names(), self.rows@[i as int].name@);
                    }
                    if first != i {
                        assert(self.store_names()[first as int] == self.store_names()[i as int]);
                        return false;
                    }
                },
                None => {
                    proof {
                        lemma_first_named(self.store_names(), self.rows@[i as int].name@);
                        assert(self.store_names()[i as int] == self.rows@[i as int].name@);
                    }
                },
            }
            proof {
                lemma_first_named(self.header_names(), self.rows@[i as int].name@);
            }
            if self.find_header(self.rows[i].name.as_str()).is_none() {
                assert(!self.header_names().contains(self.store_names()[i as int]));
                return false;
            }
            i += 1;
        }
        let mut j: usize = 0;
        while j < self.columns.len()
            invariant
                0 <= j <= self.columns@.len(),
                forall|k: int|
                    0 <= k < j ==> self.store_names().contains(#[trigger] self.header_names()[k]),
                forall|k: int| 0 <= k < j ==> (#[trigger] self.columns@[k]).wf(),
            decreases self.columns@.len() - j,
        {
            proof {
                lemma_first_named(self.store_names(), self.columns@[j as int].name@);
            }
            if self.find_store(self.columns[j].name.as_str()).is_none() {
                assert(!self.store_names().contains(self.header_names()[j as int]));
                return false;
            }
            if !self.columns[j].check() {
                return false;
            }
            j += 1;
        }
        true
    }

    /// The columns of the table, one row for each in declared order: its
    /// name, then its type as text.
    pub fn describe(&self) -> (r: Vec<Vec<String>>)
        ensures
            r@.len() == self.columns@.len(),
            forall|i: int|
                0 <= i < self.columns@.len() ==> texts_of((#[trigger] r@[i])@) == seq![
                    self.columns@[i].name@,
                    self.columns@[i].datatype.text(),
                ],
    {
        let mut out: Vec<Vec<String>> = Vec::new();
        let mut i: usize = 0;
        while i < self.columns.len()
            invariant
                0 <= i <= self.columns@.len(),
                out@.len() == i,
                forall|k: int|
                    0 <= k < i ==> texts_of((#[trigger] out@[k])@) == seq![
                        self.columns@[k].name@,
                        self.columns@[k].datatype.text(),
                    ],
            decreases self.columns@.len() - i,
        {
            let mut row: Vec<String> = Vec::new();
            row.push(self.columns[i].name.clone());
            row.push(self.columns[i].datatype.to_string());
            assert(texts_of(row@) =~= seq![
                self.columns@[i as int].name@,
                self.columns@[i as int].datatype.text(),
            ]);
            out.push(row);
            i += 1;
        }
        out
    }

    /// Whether the table has a column named `column`.
    pub fn column_exists(&self, column: String) -> (r: bool)
        ensures
            r == self.header_at(column@) is Some,
            r == self.header_names().contains(column@),
    {
        let found = self.find_header(column.as_str());
        proof {
            lemma_first_named(self.header_names(), column@);
        }
        found.is_some()
    }

    /// The first header named `col_name`.
    pub fn get_column(&self, col_name: String) -> (r: &ColumnHeader)
        requires
            self.header_at(col_name@) is Some,
        ensures
            *r == self.header(col_name@),
    {
        let found = self.find_header(col_name.as_str());
        &self.columns[found.unwrap()]
    }

    /// Whether `header` is the new header of the declared column `column`.
    pub open spec fn header_of(header: ColumnHeader, column: ParsedColumn) -> bool {
        &&& header.name@ == column.name@
        &&& header.datatype == DataType::resolved(column.datatype@)
        &&& header.is_primary_key == column.is_pk
        &&& header.is_indexed == column.is_pk
        &&& header.index.entries() == Seq::<(Cell, usize)>::empty()
        &&& header.index.datatype() == ColumnIndex::datatype_for(header.datatype, column.is_pk)
    }

    /// Whether this is the new table that `cq` describes: a table without
    /// rows, with one header for each declared column, in declared order,
    /// and one empty store for each name. Where a name is declared twice,
    /// its store is that of the later declaration.
    pub open spec fn made_from(&self, cq: CreateQuery) -> bool {
        &&& self.wf()
        &&& self.indexed()
        &&& self.aligned(0)
        &&& self.distinct_names() ==> self.typed() && self.rows@.len() == self.columns@.len()
        &&& self.name@ == cq.table_name@
        &&& self.columns@.len() == cq.columns@.len()
        &&& forall|i: int|
            0 <= i < cq.columns@.len() ==> Table::header_of(
                #[trigger] self.columns@[i],
                cq.columns@[i],
            )
        &&& forall|i: int|
            0 <= i < cq.columns@.len() && (forall|j: int|
                i < j < cq.columns@.len() ==> cq.columns@[j].name@ != cq.columns@[i].name@)
                ==> self.store_at(#[trigger] cq.columns@[i].name@) is Some && self.store(
                cq.columns@[i].name@,
            ).datatype() == DataType::resolved(cq.columns@[i].datatype@)
    }

    /// Adds a column without rows: its header after the headers that are
    /// there, and an empty store of its type under its name, in place of
    /// the store that is under that name if there is one.
    pub fn add_column(&mut self, c: &ParsedColumn)
        requires
            old(self).wf(),
        ensures
            final(self).wf(),
            final(self).name == old(self).name,
            Table::header_of(final(self).columns@.last(), *c),
            column_added(
                *old(self),
                *final(self),
                c.name@,
                DataType::resolved(c.datatype@),
            ),
    {
        let ghost before = *self;
        let header = ColumnHeader::new(c.name.clone(), c.datatype.clone(), c.is_pk);
        let data = ColumnData::empty(header.datatype);
        let found = self.find_store(c.name.as_str());
        self.columns.push(header);
        match found {
            Some(k) => {
                self.rows[k].data = data;
                proof {
                    assert(self.store_names() =~= before.store_names());
                }
            },
            None => {
                self.rows.push(StoredColumn { name: c.name.clone(), data });
                proof {
                    assert(self.store_names() =~= before.store_names().push(c.name@));
                }
            },
        }
        proof {
            let names = self.store_names();
            let n = before.columns@.len() as int;
            assert(self.header_names() =~= before.header_names().push(c.name@));
            lemma_first_named(before.store_names(), c.name@);
            match found {
                Some(k) => {
                    lemma_first_named_is(names, c.name@, k as int);
                },
                None => {
                    lemma_first_named_is(names, c.name@, names.len() - 1);
                },
            }
            assert forall|i: int| 0 <= i < self.columns@.len() implies names.contains(
                #[trigger] self.header_names()[i],
            ) by {
                if i < n {
                    let h = before.header_names()[i];
                    assert(before.store_names().contains(h));
                    let w = choose|w: int|
                        0 <= w < before.store_names().len() && before.store_names()[w] == h;
                    assert(names[w] == h);
                } else {
                    assert(names[self.store_at(c.name@).unwrap()] == c.name@);
                }
            }
            assert forall|i: int| 0 <= i < self.rows@.len() implies self.header_names().contains(
                #[trigger] names[i],
            ) by {
                if i < before.rows@.len() {
                    let s = before.store_names()[i];
                    assert(before.header_names().contains(s));
                    let w = choose|w: int|
                        0 <= w < before.header_names().len() && before.header_names()[w] == s;
                    assert(self.header_names()[w] == s);
                } else {
                    assert(self.header_names()[n] == c.name@);
                }
            }
        }
    }

    /// The new table that `cq` describes.
    pub fn new(cq: CreateQuery) -> (r: Table)
        ensures
            r.made_from(cq),
    {
        let mut table = Table { columns: Vec::new(), name: cq.table_name.clone(), rows: Vec::new() };
        let mut n: usize = 0;
        assert(table.store_names() =~= Seq::<Seq<char>>::empty());
        proof {
            reveal(Table::under_construction);
        }
        while n < cq.columns.len()
            invariant
                0 <= n <= cq.columns@.len(),
                table.wf(),
                table.name@ == cq.table_name@,
                table.under_construction(cq, n as int),
            decreases cq.columns@.len() - n,
        {
            let ghost before = table;
            table.add_column(&cq.columns[n]);
            proof {
                lemma_new_step(before, table, cq, n as int);
            }
            n += 1;
        }
        proof {
            lemma_new_done(table, cq);
        }
        table
    }
}

/// Whether `after` is `before` with a column named `name` added whose
/// store has the type `datatype`: as [`Table::add_column`] leaves a table.
pub open spec fn column_added(before: Table, after: Table, name: Seq<char>, datatype: DataType) -> bool {
    &&& after.columns@.len() == before.columns@.len() + 1
    &&& forall|i: int| 0 <= i < before.columns@.len() ==> after.columns@[i] == before.columns@[i]
    &&& after.columns@.last().name@ == name
    &&& after.store_at(name) is Some
    &&& after.store(name).datatype() == datatype
    &&& after.store(name).cells().len() == 0
    &&& match before.store_at(name) {
        Some(k) => after.rows@.len() == before.rows@.len() && after.store_names()
            == before.store_names() && after.store_at(name) == Some(k),
        None => after.rows@.len() == before.rows@.len() + 1 && after.store_names()
            == before.store_names().push(name),
    }
    &&& forall|k: int|
        0 <= k < before.rows@.len() && Some(k) != before.store_at(name) ==> after.rows@[k]
            == before.rows@[k]
}

/// Where a column is added to a table with as many stores as headers and
/// the headers still have distinct names, there are again as many stores
/// as headers.
proof fn lemma_added_counts(before: Table, after: Table, name: Seq<char>, datatype: DataType)
    requires
        before.wf(),
        column_added(before, after, name, datatype),
        before.distinct_names() ==> before.rows@.len() == before.columns@.len(),
        after.distinct_names(),
    ensures
        after.rows@.len() == after.columns@.len(),
{
    let n = before.columns@.len() as int;
    assert(after.header_names() =~= before.header_names().push(name)) by {
        assert(after.columns@.last() == after.columns@[n]);
    }
    assert forall|a: int, b: int|
        0 <= a < before.header_names().len() && 0 <= b < before.header_names().len() && a
            != b implies before.header_names()[a] != before.header_names()[b] by {
        assert(after.header_names()[a] == before.header_names()[a]);
        assert(after.header_names()[b] == before.header_names()[b]);
    }
    if let Some(k) = before.store_at(name) {
        lemma_first_named(before.store_names(), name);
        assert(before.header_names().contains(before.store_names()[k]));
        let w = choose|w: int|
            0 <= w < before.header_names().len() && before.header_names()[w] == name;
        assert(after.header_names()[w] == name);
        assert(after.header_names()[n] == name);
    }
}

/// Where a column is added to a table without rows, the table is again
/// without rows.
proof fn lemma_added_empty(before: Table, after: Table, name: Seq<char>, datatype: DataType)
    requires
        column_added(before, after, name, datatype),
        before.aligned(0),
    ensures
        after.aligned(0),
{
    let at = after.store_at(name).unwrap();
    lemma_first_named(after.store_names(), name);
    lemma_first_named(before.store_names(), name);
    assert forall|k: int| 0 <= k < after.rows@.len() implies (#[trigger] after.rows@[k]).data.cells().len()
        == 0 by {
        if k != at {
            if before.store_at(name) is None && k == before.rows@.len() {
                assert(after.store_names()[k] == name);
            }
            assert(after.rows@[k] == before.rows@[k]);
        }
    }
}

/// Where a column is added, the store of every other name stays as it is.
proof fn lemma_added_keeps(
    before: Table,
    after: Table,
    name: Seq<char>,
    datatype: DataType,
    other: Seq<char>,
)
    requires
        column_added(before, after, name, datatype),
        other != name,
        before.store_at(other) is Some,
    ensures
        after.store_at(other) == before.store_at(other),
        after.store(other) == before.store(other),
{
    lemma_first_named(before.store_names(), other);
    lemma_first_named(before.store_names(), name);
    let w = before.store_at(other).unwrap();
    assert(before.store_names()[w] == other);
    lemma_first_named_is(after.store_names(), other, w);
}

impl Table {
    /// Whether the last of the first `n` declared columns that has the
    /// name of column `i` is column `i` itself.
    pub open spec fn declared_last(cq: CreateQuery, i: int, n: int) -> bool {
        forall|j: int| i < j < n ==> cq.columns@[j].name@ != cq.columns@[i].name@
    }

    /// What a table under construction holds when the first `n` declared
    /// columns were added.
    #[verifier::opaque]
    pub open spec fn under_construction(&self, cq: CreateQuery, n: int) -> bool {
        &&& self.columns@.len() == n
        &&& self.distinct_names() ==> self.rows@.len() == n
        &&& self.aligned(0)
        &&& forall|i: int|
            0 <= i < n ==> Table::header_of(#[trigger] self.columns@[i], cq.columns@[i])
        &&& forall|i: int|
            0 <= i < n && #[trigger] Table::declared_last(cq, i, n) ==> self.store_at(
                cq.columns@[i].name@,
            ) is Some && self.store(cq.columns@[i].name@).datatype() == DataType::resolved(cq.columns@[i].datatype@)
    }
}

/// Adding the next declared column keeps what a table under construction
/// has to hold.
proof fn lemma_new_step(before: Table, after: Table, cq: CreateQuery, n: int)
    requires
        0 <= n < cq.columns@.len(),
        before.wf(),
        before.under_construction(cq, n),
        Table::header_of(after.columns@.last(), cq.columns@[n]),
        column_added(
            before,
            after,
            cq.columns@[n].name@,
            DataType::resolved(cq.columns@[n].datatype@),
        ),
    ensures
        after.under_construction(cq, n + 1),
{
    reveal(Table::under_construction);
    let c = cq.columns@[n];
    let datatype = DataType::resolved(c.datatype@);
    if after.distinct_names() {
        lemma_added_counts(before, after, c.name@, datatype);
    }
    lemma_added_empty(before, after, c.name@, datatype);
    assert(after.columns@.last() == after.columns@[n]);
    assert forall|i: int|
        0 <= i < n + 1 && #[trigger] Table::declared_last(cq, i, n + 1) implies after.store_at(
        cq.columns@[i].name@,
    ) is Some && after.store(cq.columns@[i].name@).datatype() == DataType::resolved(cq.columns@[i].datatype@) by {
        if i < n {
            assert(cq.columns@[n].name@ != cq.columns@[i].name@);
            assert(Table::declared_last(cq, i, n));
            lemma_added_keeps(before, after, c.name@, datatype, cq.columns@[i].name@);
        }
    }
}

/// A table that holds what a table under construction has to hold, with
/// all declared columns added, is the table that the creation describes.
proof fn lemma_new_done(table: Table, cq: CreateQuery)
    requires
        table.wf(),
        table.name@ == cq.table_name@,
        table.under_construction(cq, cq.columns@.len() as int),
    ensures
        table.made_from(cq),
{
    reveal(Table::under_construction);
    let n = cq.columns@.len() as int;
    if table.distinct_names() {
        assert forall|j: int| 0 <= j < table.columns@.len() implies table.store_at(
            (#[trigger] table.columns@[j]).name@,
        ) is Some && table.store(table.columns@[j].name@).datatype()
            == table.columns@[j].datatype by {
            assert forall|k: int| j < k < n implies cq.columns@[k].name@
                != cq.columns@[j].name@ by {
                assert(table.header_names()[j] == cq.columns@[j].name@);
                assert(table.header_names()[k] == cq.columns@[k].name@);
            }
            assert(Table::declared_last(cq, j, n));
            assert(table.columns@[j].name@ == cq.columns@[j].name@);
        }
    }
    assert forall|j: int| 0 <= j < table.columns@.len() && table.files_into(j) implies (
    #[trigger] table.columns@[j]).index.entries() == filed(
        Seq::empty(),
        table.store(table.columns@[j].name@).cells(),
        0,
    ) by {
        let name = table.columns@[j].name@;
        lemma_first_named(table.store_names(), name);
        let k = table.store_at(name).unwrap();
        assert(table.rows@[k].data.cells().len() == 0);
        assert(table.store(name).cells() =~= Seq::<Cell>::empty());
    }
    assert forall|i: int|
        0 <= i < n && (forall|j: int|
            i < j < n ==> cq.columns@[j].name@ != cq.columns@[i].name@) implies table.store_at(
        #[trigger] cq.columns@[i].name@,
    ) is Some && table.store(cq.columns@[i].name@).datatype() == DataType::resolved(cq.columns@[i].datatype@) by {
        assert(Table::declared_last(cq, i, n));
    }
}

impl Table {
    /// Every store has `n` rows.
    pub open spec fn aligned(&self, n: int) -> bool {
        forall|k: int| 0 <= k < self.rows@.len() ==> (#[trigger] self.rows@[k]).data.cells().len() == n
    }

    /// No two headers have one name.
    pub open spec fn distinct_names(&self) -> bool {
        self.header_names().no_duplicates()
    }

    /// Every header has a store of its type under its name.
    pub open spec fn typed(&self) -> bool {
        forall|j: int|
            0 <= j < self.columns@.len() ==> self.store_at(
                (#[trigger] self.columns@[j]).name@,
            ) is Some && self.store(self.columns@[j].name@).datatype() == self.columns@[j].datatype
    }

    /// Whether `cols` names every store once: the rows of such an
    /// insertion are whole.
    pub open spec fn names_each_once(&self, cols: Seq<String>) -> bool {
        forall|k: int|
            0 <= k < self.rows@.len() ==> occurrences(
                texts_of(cols),
                #[trigger] self.store_names()[k],
                cols.len() as int,
            ) == 1
    }

    /// Every index that insertions file into holds what filing the cells of
    /// its column gives, each at its position.
    pub open spec fn indexed(&self) -> bool {
        forall|j: int|
            0 <= j < self.columns@.len() && self.files_into(j) ==> (
            #[trigger] self.columns@[j]).index.entries() == filed(
                Seq::empty(),
                self.store(self.columns@[j].name@).cells(),
                0,
            )
    }
}

} // verus!
