//! The image of a database: what it holds as plain data, made of lists,
//! tuples, numbers and strings, so that any encoder takes it as it is. A
//! database is turned into its image, and an image is held against what a
//! database has to be before it is taken for one.

use crate::cell::{Cell, FloatReadings, FloatValue, FloatView, Key};
use crate::column::ColumnData;
use crate::database::Database;
use crate::datatype::DataType;
use crate::engine::expanded;
use crate::header::ColumnHeader;
use crate::index::{ColumnIndex, Entries, IndexEntry, OrderedIndex};
use crate::insertion::lemma_cell_of_same_type;
use crate::names::lemma_first_named;
use crate::parser::select::{Binary, Expression, SelectQuery};
use crate::table::{StoredColumn, Table};
use crate::text::texts_of;
use vstd::prelude::*;

verus! {

/// A cell as plain data: a tag for its kind, a number and a text. An
/// integer is tag 0 with its value, a string tag 1 with its text, a float
/// tag 2 with its bits and its text, a boolean tag 3 with 0 or 1.
pub type CellImage = (u8, i64, String);

/// A header as plain data: its name, the tag of its type, whether it is
/// indexed, whether it is a primary key, the tag of the kind of its index,
/// and the pairs of its index in key order.
pub type HeaderImage = (String, u8, bool, bool, u8, Vec<(CellImage, usize)>);

/// A store as plain data: its name, the tag of its type, and its cells in
/// row order.
pub type StoreImage = (String, u8, Vec<CellImage>);

/// A table as plain data: its name, its headers and its stores.
pub type TableImage = (String, Vec<HeaderImage>, Vec<StoreImage>);

/// A database as plain data: its tables in order.
pub type DatabaseImage = Vec<TableImage>;

/// The mathematical content of a [`CellImage`].
pub type CellDeep = (u8, i64, Seq<char>);

/// The mathematical content of a [`HeaderImage`].
pub type HeaderDeep = (Seq<char>, u8, bool, bool, u8, Seq<(CellDeep, usize)>);

/// The mathematical content of a [`StoreImage`].
pub type StoreDeep = (Seq<char>, u8, Seq<CellDeep>);

/// The mathematical content of a [`TableImage`].
pub type TableDeep = (Seq<char>, Seq<HeaderDeep>, Seq<StoreDeep>);

/// The mathematical content of a [`DatabaseImage`].
pub type DatabaseDeep = Seq<TableDeep>;

/// The content of the image of a cell.
pub open spec fn deep_cell(c: CellImage) -> CellDeep {
    (c.0, c.1, c.2@)
}

/// The content of the images of the pairs of an index.
pub open spec fn deep_entries(v: Seq<(CellImage, usize)>) -> Seq<(CellDeep, usize)> {
    Seq::new(v.len(), |i: int| (deep_cell(v[i].0), v[i].1))
}

/// The content of the images of the cells of a store.
pub open spec fn deep_cells(v: Seq<CellImage>) -> Seq<CellDeep> {
    Seq::new(v.len(), |i: int| deep_cell(v[i]))
}

/// The content of the image of a header.
pub open spec fn deep_header(h: HeaderImage) -> HeaderDeep {
    (h.0@, h.1, h.2, h.3, h.4, deep_entries(h.5@))
}

/// The content of the image of a store.
pub open spec fn deep_store(s: StoreImage) -> StoreDeep {
    (s.0@, s.1, deep_cells(s.2@))
}

/// The content of the image of a table.
pub open spec fn deep_table(t: TableImage) -> TableDeep {
    (
        t.0@,
        Seq::new(t.1@.len(), |i: int| deep_header(t.1@[i])),
        Seq::new(t.2@.len(), |i: int| deep_store(t.2@[i])),
    )
}

/// The content of the image of a database.
pub open spec fn deep_database(d: Seq<TableImage>) -> DatabaseDeep {
    Seq::new(d.len(), |i: int| deep_table(d[i]))
}

/// The tag of a type of column.
pub open spec fn datatype_tag(datatype: DataType) -> u8 {
    match datatype {
        DataType::Int => 0,
        DataType::Str => 1,
        DataType::Float => 2,
        DataType::Bool => 3,
        DataType::Invalid => 4,
    }
}

/// The tag of the kind of an index: that of the type of its keys, and that
/// of the type that is not valid where there is no index.
pub open spec fn index_tag(index: ColumnIndex) -> u8 {
    match index {
        ColumnIndex::Int(_) => 0,
        ColumnIndex::Str(_) => 1,
        ColumnIndex::Bool(_) => 3,
        ColumnIndex::Absent => 4,
    }
}

/// The image of a cell.
pub open spec fn cell_image_of(c: Cell) -> CellDeep {
    match c {
        Cell::Int(v) => (0u8, v as i64, Seq::empty()),
        Cell::Str(s) => (1u8, 0i64, s),
        Cell::Float(f) => (2u8, f.bits as i64, f.text),
        Cell::Bool(b) => (3u8, if b { 1i64 } else { 0i64 }, Seq::empty()),
    }
}

/// The images of the pairs of an index.
pub open spec fn entries_image_of(entries: Entries) -> Seq<(CellDeep, usize)> {
    Seq::new(entries.len(), |i: int| (cell_image_of(entries[i].0), entries[i].1))
}

/// The images of the cells of a store.
pub open spec fn cells_image_of(cells: Seq<Cell>) -> Seq<CellDeep> {
    Seq::new(cells.len(), |i: int| cell_image_of(cells[i]))
}

/// The image of a header.
pub open spec fn header_image_of(h: ColumnHeader) -> HeaderDeep {
    (
        h.name@,
        datatype_tag(h.datatype),
        h.is_indexed,
        h.is_primary_key,
        index_tag(h.index),
        entries_image_of(h.index.entries()),
    )
}

/// The image of a store.
pub open spec fn store_image_of(s: StoredColumn) -> StoreDeep {
    (s.name@, datatype_tag(s.data.datatype()), cells_image_of(s.data.cells()))
}

/// The image of a table.
pub open spec fn table_image_of(t: Table) -> TableDeep {
    (
        t.name@,
        Seq::new(t.columns@.len(), |i: int| header_image_of(t.columns@[i])),
        Seq::new(t.rows@.len(), |i: int| store_image_of(t.rows@[i])),
    )
}

impl Database {
    /// What the database holds, as plain data: for each table its name,
    /// its headers with their indexes, and its stores with their cells.
    /// Two databases that hold the same have the same depiction.
    pub open spec fn depiction(&self) -> DatabaseDeep {
        Seq::new(self.tables@.len(), |i: int| table_image_of(self.tables@[i]))
    }
}

fn key_image(key: &Key) -> (r: CellImage)
    ensures
        deep_cell(r) == cell_image_of(key@),
{
    match key {
        Key::Int(v) => (0, *v as i64, String::new()),
        Key::Str(s) => (1, 0, s.clone()),
        Key::Bool(b) => (
            3,
            if *b {
                1
            } else {
                0
            },
            String::new(),
        ),
    }
}

fn entries_image(index: &OrderedIndex) -> (r: Vec<(CellImage, usize)>)
    ensures
        deep_entries(r@) == entries_image_of(index@),
{
    let mut out: Vec<(CellImage, usize)> = Vec::new();
    let mut i: usize = 0;
    while i < index.entries.len()
        invariant
            0 <= i <= index.entries@.len(),
            index@.len() == index.entries@.len(),
            out@.len() == i,
            forall|k: int|
                0 <= k < i ==> deep_cell((#[trigger] out@[k]).0) == cell_image_of(index@[k].0)
                    && out@[k].1 == index@[k].1,
        decreases index.entries@.len() - i,
    {
        assert(index@[i as int] == (index.entries@[i as int].key@, index.entries@[i as int].position));
        out.push((key_image(&index.entries[i].key), index.entries[i].position));
        i += 1;
    }
    assert(deep_entries(out@) =~= entries_image_of(index@));
    out
}

fn index_image(index: &ColumnIndex) -> (r: (u8, Vec<(CellImage, usize)>))
    ensures
        r.0 == index_tag(*index),
        deep_entries(r.1@) == entries_image_of(index.entries()),
{
    match index {
        ColumnIndex::Int(i) => (0, entries_image(i)),
        ColumnIndex::Str(i) => (1, entries_image(i)),
        ColumnIndex::Bool(i) => (3, entries_image(i)),
        ColumnIndex::Absent => {
            let none: Vec<(CellImage, usize)> = Vec::new();
            assert(deep_entries(none@) =~= entries_image_of(index.entries()));
            (4, none)
        },
    }
}

fn cells_image(data: &ColumnData) -> (r: Vec<CellImage>)
    ensures
        deep_cells(r@) == cells_image_of(data.cells()),
{
    let mut out: Vec<CellImage> = Vec::new();
    match data {
        ColumnData::Int(v) => {
            let mut i: usize = 0;
            while i < v.len()
                invariant
                    0 <= i <= v@.len(),
                    out@.len() == i,
                    forall|k: int|
                        0 <= k < i ==> deep_cell(#[trigger] out@[k]) == cell_image_of(
                            Cell::Int(v@[k]),
                        ),
                decreases v@.len() - i,
            {
                out.push((0, v[i] as i64, String::new()));
                i += 1;
            }
        },
        ColumnData::Str(v) => {
            let mut i: usize = 0;
            while i < v.len()
                invariant
                    0 <= i <= v@.len(),
                    out@.len() == i,
                    forall|k: int|
                        0 <= k < i ==> deep_cell(#[trigger] out@[k]) == cell_image_of(
                            Cell::Str(v@[k]@),
                        ),
                decreases v@.len() - i,
            {
                out.push((1, 0, v[i].clone()));
                i += 1;
            }
        },
        ColumnData::Float(v) => {
            let mut i: usize = 0;
            while i < v.len()
                invariant
                    0 <= i <= v@.len(),
                    out@.len() == i,
                    forall|k: int|
                        0 <= k < i ==> deep_cell(#[trigger] out@[k]) == cell_image_of(
                            Cell::Float(v@[k]@),
                        ),
                decreases v@.len() - i,
            {
                out.push((2, v[i].bits as i64, v[i].text.clone()));
                i += 1;
            }
        },
        ColumnData::Bool(v) => {
            let mut i: usize = 0;
            while i < v.len()
                invariant
                    0 <= i <= v@.len(),
                    out@.len() == i,
                    forall|k: int|
                        0 <= k < i ==> deep_cell(#[trigger] out@[k]) == cell_image_of(
                            Cell::Bool(v@[k]),
                        ),
                decreases v@.len() - i,
            {
                let number: i64 = if v[i] {
                    1
                } else {
                    0
                };
                out.push((3, number, String::new()));
                i += 1;
            }
        },
        ColumnData::Absent => {},
    }
    assert(deep_cells(out@) =~= cells_image_of(data.cells()));
    out
}

fn datatype_tag_of(datatype: DataType) -> (r: u8)
    ensures
        r == datatype_tag(datatype),
{
    match datatype {
        DataType::Int => 0,
        DataType::Str => 1,
        DataType::Float => 2,
        DataType::Bool => 3,
        DataType::Invalid => 4,
    }
}

fn store_tag_of(data: &ColumnData) -> (r: u8)
    ensures
        r == datatype_tag(data.datatype()),
{
    match data {
        ColumnData::Int(_) => 0,
        ColumnData::Str(_) => 1,
        ColumnData::Float(_) => 2,
        ColumnData::Bool(_) => 3,
        ColumnData::Absent => 4,
    }
}

fn header_image(h: &ColumnHeader) -> (r: HeaderImage)
    ensures
        deep_header(r) == header_image_of(*h),
{
    let index = index_image(&h.index);
    (h.name.clone(), datatype_tag_of(h.datatype), h.is_indexed, h.is_primary_key, index.0, index.1)
}

fn store_image(s: &StoredColumn) -> (r: StoreImage)
    ensures
        deep_store(r) == store_image_of(*s),
{
    (s.name.clone(), store_tag_of(&s.data), cells_image(&s.data))
}

fn table_image(t: &Table) -> (r: TableImage)
    ensures
        deep_table(r) == table_image_of(*t),
{
    let mut headers: Vec<HeaderImage> = Vec::new();
    let mut i: usize = 0;
    while i < t.columns.len()
        invariant
            0 <= i <= t.columns@.len(),
            headers@.len() == i,
            forall|k: int|
                0 <= k < i ==> deep_header(#[trigger] headers@[k]) == header_image_of(
                    t.columns@[k],
                ),
        decreases t.columns@.len() - i,
    {
        headers.push(header_image(&t.columns[i]));
        i += 1;
    }
    let mut stores: Vec<StoreImage> = Vec::new();
    let mut j: usize = 0;
    while j < t.rows.len()
        invariant
            0 <= j <= t.rows@.len(),
            stores@.len() == j,
            forall|k: int|
                0 <= k < j ==> deep_store(#[trigger] stores@[k]) == store_image_of(t.rows@[k]),
        decreases t.rows@.len() - j,
    {
        stores.push(store_image(&t.rows[j]));
        j += 1;
    }
    let r = (t.name.clone(), headers, stores);
    assert(deep_table(r).1 =~= table_image_of(*t).1);
    assert(deep_table(r).2 =~= table_image_of(*t).2);
    r
}

impl Database {
    /// The database as plain data.
    pub fn to_image(&self) -> (r: DatabaseImage)
        ensures
            deep_database(r@) == self.depiction(),
    {
        let mut out: DatabaseImage = Vec::new();
        let mut i: usize = 0;
        while i < self.tables.len()
            invariant
                0 <= i <= self.tables@.len(),
                out@.len() == i,
                forall|k: int|
                    0 <= k < i ==> deep_table(#[trigger] out@[k]) == table_image_of(
                        self.tables@[k],
                    ),
            decreases self.tables@.len() - i,
        {
            out.push(table_image(&self.tables[i]));
            i += 1;
        }
        assert(deep_database(out@) =~= self.depiction());
        out
    }
}

/// Cells with one image are one cell.
pub proof fn lemma_cell_image_injective(a: Cell, b: Cell)
    requires
        cell_image_of(a) == cell_image_of(b),
    ensures
        a == b,
{
    match (a, b) {
        (Cell::Float(x), Cell::Float(y)) => {
            assert(x.bits as i64 == y.bits as i64);
        },
        _ => {},
    }
}

fn int_of(c: &CellImage) -> (r: Option<i32>)
    ensures
        match r {
            Some(v) => deep_cell(*c) == cell_image_of(Cell::Int(v)),
            None => forall|v: i32| deep_cell(*c) != cell_image_of(Cell::Int(v)),
        },
{
    if c.0 == 0 && c.2.as_str().is_empty() && -2147483648 <= c.1 && c.1 <= 2147483647 {
        assert(c.2@ =~= Seq::<char>::empty());
        Some(c.1 as i32)
    } else {
        None
    }
}

fn text_of(c: &CellImage) -> (r: Option<String>)
    ensures
        match r {
            Some(s) => deep_cell(*c) == cell_image_of(Cell::Str(s@)),
            None => forall|s: Seq<char>| deep_cell(*c) != cell_image_of(Cell::Str(s)),
        },
{
    if c.0 == 1 && c.1 == 0 {
        Some(c.2.clone())
    } else {
        None
    }
}

fn float_of(c: &CellImage) -> (r: Option<FloatValue>)
    ensures
        match r {
            Some(f) => deep_cell(*c) == cell_image_of(Cell::Float(f@)),
            None => forall|f: FloatView| deep_cell(*c) != cell_image_of(Cell::Float(f)),
        },
{
    if c.0 == 2 && 0 <= c.1 && c.1 <= 4294967295 {
        Some(FloatValue { bits: c.1 as u32, text: c.2.clone() })
    } else {
        None
    }
}

fn bool_of(c: &CellImage) -> (r: Option<bool>)
    ensures
        match r {
            Some(b) => deep_cell(*c) == cell_image_of(Cell::Bool(b)),
            None => forall|b: bool| deep_cell(*c) != cell_image_of(Cell::Bool(b)),
        },
{
    if c.0 == 3 && c.2.as_str().is_empty() && (c.1 == 0 || c.1 == 1) {
        assert(c.2@ =~= Seq::<char>::empty());
        Some(c.1 == 1)
    } else {
        None
    }
}

/// Whether `data` is a store of the type with tag `tag` whose cells have
/// the images `cells`.
pub open spec fn store_shown(data: ColumnData, tag: u8, cells: Seq<CellDeep>) -> bool {
    datatype_tag(data.datatype()) == tag && cells_image_of(data.cells()) == cells
}

/// Whether `index` is an index of the kind with tag `tag` whose pairs have
/// the images `entries`.
pub open spec fn index_shown(index: ColumnIndex, tag: u8, entries: Seq<(CellDeep, usize)>) -> bool {
    index_tag(index) == tag && entries_image_of(index.entries()) == entries
}

#[verifier::loop_isolation(false)]
fn cells_from(tag: u8, cells: &Vec<CellImage>) -> (r: Option<ColumnData>)
    ensures
        match r {
            Some(data) => store_shown(data, tag, deep_cells(cells@)),
            None => forall|data: ColumnData| !store_shown(data, tag, deep_cells(cells@)),
        },
{
    let ghost want = deep_cells(cells@);
    if tag == 0 {
        let mut v: Vec<i32> = Vec::new();
        let mut i: usize = 0;
        while i < cells.len()
            invariant
                0 <= i <= cells@.len(),
                want == deep_cells(cells@),
                v@.len() == i,
                forall|k: int| 0 <= k < i ==> want[k] == cell_image_of(Cell::Int(#[trigger] v@[k])),
            decreases cells@.len() - i,
        {
            match int_of(&cells[i]) {
                Some(x) => {
                    v.push(x);
                },
                None => {
                    proof {
                        assert forall|data: ColumnData| !store_shown(data, tag, want) by {
                            if store_shown(data, tag, want) {
                                let held = data.cells();
                                assert(cells_image_of(held).len() == want.len());
                                assert(cells_image_of(held)[i as int] == cell_image_of(
                                    held[i as int],
                                ));
                                match data {
                                    ColumnData::Int(w) => {
                                        assert(held[i as int] == Cell::Int(w@[i as int]));
                                    },
                                    _ => {},
                                }
                            }
                        }
                    }
                    return None;
                },
            }
            i += 1;
        }
        let data = ColumnData::Int(v);
        assert(cells_image_of(data.cells()) =~= want);
        Some(data)
    } else if tag == 1 {
        let mut v: Vec<String> = Vec::new();
        let mut i: usize = 0;
        while i < cells.len()
            invariant
                0 <= i <= cells@.len(),
                want == deep_cells(cells@),
                v@.len() == i,
                forall|k: int|
                    0 <= k < i ==> want[k] == cell_image_of(Cell::Str((#[trigger] v@[k])@)),
            decreases cells@.len() - i,
        {
            match text_of(&cells[i]) {
                Some(x) => {
                    v.push(x);
                },
                None => {
                    proof {
                        assert forall|data: ColumnData| !store_shown(data, tag, want) by {
                            if store_shown(data, tag, want) {
                                let held = data.cells();
                                assert(cells_image_of(held).len() == want.len());
                                assert(cells_image_of(held)[i as int] == cell_image_of(
                                    held[i as int],
                                ));
                                match data {
                                    ColumnData::Str(w) => {
                                        assert(held[i as int] == Cell::Str(w@[i as int]@));
                                    },
                                    _ => {},
                                }
                            }
                        }
                    }
                    return None;
                },
            }
            i += 1;
        }
        let data = ColumnData::Str(v);
        assert(cells_image_of(data.cells()) =~= want);
        Some(data)
    } else if tag == 2 {
        let mut v: Vec<FloatValue> = Vec::new();
        let mut i: usize = 0;
        while i < cells.len()
            invariant
                0 <= i <= cells@.len(),
                want == deep_cells(cells@),
                v@.len() == i,
                forall|k: int|
                    0 <= k < i ==> want[k] == cell_image_of(Cell::Float((#[trigger] v@[k])@)),
            decreases cells@.len() - i,
        {
            match float_of(&cells[i]) {
                Some(x) => {
                    v.push(x);
                },
                None => {
                    proof {
                        assert forall|data: ColumnData| !store_shown(data, tag, want) by {
                            if store_shown(data, tag, want) {
                                let held = data.cells();
                                assert(cells_image_of(held).len() == want.len());
                                assert(cells_image_of(held)[i as int] == cell_image_of(
                                    held[i as int],
                                ));
                                match data {
                                    ColumnData::Float(w) => {
                                        assert(held[i as int] == Cell::Float(w@[i as int]@));
                                    },
                                    _ => {},
                                }
                            }
                        }
                    }
                    return None;
                },
            }
            i += 1;
        }
        let data = ColumnData::Float(v);
        assert(cells_image_of(data.cells()) =~= want);
        Some(data)
    } else if tag == 3 {
        let mut v: Vec<bool> = Vec::new();
        let mut i: usize = 0;
        while i < cells.len()
            invariant
                0 <= i <= cells@.len(),
                want == deep_cells(cells@),
                v@.len() == i,
                forall|k: int| 0 <= k < i ==> want[k] == cell_image_of(Cell::Bool(#[trigger] v@[k])),
            decreases cells@.len() - i,
        {
            match bool_of(&cells[i]) {
                Some(x) => {
                    v.push(x);
                },
                None => {
                    proof {
                        assert forall|data: ColumnData| !store_shown(data, tag, want) by {
                            if store_shown(data, tag, want) {
                                let held = data.cells();
                                assert(cells_image_of(held).len() == want.len());
                                assert(cells_image_of(held)[i as int] == cell_image_of(
                                    held[i as int],
                                ));
                                match data {
                                    ColumnData::Bool(w) => {
                                        assert(held[i as int] == Cell::Bool(w@[i as int]));
                                    },
                                    _ => {},
                                }
                            }
                        }
                    }
                    return None;
                },
            }
            i += 1;
        }
        let data = ColumnData::Bool(v);
        assert(cells_image_of(data.cells()) =~= want);
        Some(data)
    } else if tag == 4 && cells.len() == 0 {
        let data = ColumnData::Absent;
        assert(cells_image_of(data.cells()) =~= want);
        Some(data)
    } else {
        proof {
            assert forall|data: ColumnData| !store_shown(data, tag, want) by {
                if store_shown(data, tag, want) {
                    assert(cells_image_of(data.cells()).len() == want.len());
                }
            }
        }
        None
    }
}

fn key_from(tag: u8, c: &CellImage) -> (r: Option<Key>)
    requires
        tag == 0 || tag == 1 || tag == 3,
    ensures
        match r {
            Some(key) => deep_cell(*c) == cell_image_of(key@) && datatype_tag(
                key_datatype(key@),
            ) == tag,
            None => forall|key: Cell|
                datatype_tag(key_datatype(key)) == tag ==> deep_cell(*c) != cell_image_of(key),
        },
{
    let r = if tag == 0 {
        match int_of(c) {
            Some(v) => Some(Key::Int(v)),
            None => None,
        }
    } else if tag == 1 {
        match text_of(c) {
            Some(v) => Some(Key::Str(v)),
            None => None,
        }
    } else {
        match bool_of(c) {
            Some(v) => Some(Key::Bool(v)),
            None => None,
        }
    };
    proof {
        if r is None {
            assert forall|key: Cell| datatype_tag(key_datatype(key)) == tag implies deep_cell(*c)
                != cell_image_of(key) by {
                match key {
                    Cell::Int(v) => {
                        if tag == 0 {
                            assert(deep_cell(*c) != cell_image_of(Cell::Int(v)));
                        }
                    },
                    Cell::Str(s) => {
                        if tag == 1 {
                            assert(deep_cell(*c) != cell_image_of(Cell::Str(s)));
                        }
                    },
                    Cell::Float(f) => {},
                    Cell::Bool(b) => {
                        if tag == 3 {
                            assert(deep_cell(*c) != cell_image_of(Cell::Bool(b)));
                        }
                    },
                }
            }
        }
    }
    r
}

/// The type of the columns that hold cells of the kind of `c`.
pub open spec fn key_datatype(c: Cell) -> DataType {
    match c {
        Cell::Int(_) => DataType::Int,
        Cell::Str(_) => DataType::Str,
        Cell::Float(_) => DataType::Float,
        Cell::Bool(_) => DataType::Bool,
    }
}

/// Pairs with the same images are the same pairs.
pub proof fn lemma_entries_image_injective(a: Entries, b: Entries)
    requires
        entries_image_of(a) == entries_image_of(b),
    ensures
        a == b,
{
    assert(a.len() == entries_image_of(a).len());
    assert(b.len() == entries_image_of(b).len());
    assert forall|i: int| 0 <= i < a.len() implies a[i] == b[i] by {
        assert(entries_image_of(a)[i] == entries_image_of(b)[i]);
        lemma_cell_image_injective(a[i].0, b[i].0);
    }
    assert(a =~= b);
}

/// Headers with one image are both well formed or both not.
pub proof fn lemma_header_wf_by_image(a: ColumnHeader, b: ColumnHeader)
    requires
        header_image_of(a) == header_image_of(b),
    ensures
        a.wf() == b.wf(),
        a.name@ == b.name@,
{
    lemma_entries_image_injective(a.index.entries(), b.index.entries());
    assert(index_tag(a.index) == index_tag(b.index));
    assert(datatype_tag(a.datatype) == datatype_tag(b.datatype));
    assert(a.index.datatype() == b.index.datatype());
    assert(a.datatype == b.datatype);
    assert forall|c: Cell| a.index.files(c) == b.index.files(c) by {}
}

/// Tables with one image are both well formed or both not.
pub proof fn lemma_table_wf_by_image(a: Table, b: Table)
    requires
        table_image_of(a) == table_image_of(b),
    ensures
        a.wf() == b.wf(),
{
    let image = table_image_of(a);
    assert(a.columns@.len() == image.1.len());
    assert(b.columns@.len() == image.1.len());
    assert(a.rows@.len() == image.2.len());
    assert(b.rows@.len() == image.2.len());
    assert forall|i: int| 0 <= i < a.columns@.len() implies (#[trigger] a.columns@[i]).wf()
        == b.columns@[i].wf() && a.columns@[i].name@ == b.columns@[i].name@ by {
        assert(table_image_of(a).1[i] == table_image_of(b).1[i]);
        lemma_header_wf_by_image(a.columns@[i], b.columns@[i]);
    }
    assert forall|i: int| 0 <= i < a.rows@.len() implies (#[trigger] a.rows@[i]).name@
        == b.rows@[i].name@ by {
        assert(table_image_of(a).2[i] == table_image_of(b).2[i]);
    }
    assert(a.header_names() =~= b.header_names());
    assert(a.store_names() =~= b.store_names());
    if a.wf() {
        assert forall|i: int| 0 <= i < b.columns@.len() implies (#[trigger] b.columns@[i]).wf() by {
            assert(a.columns@[i].wf());
        }
    }
    if b.wf() {
        assert forall|i: int| 0 <= i < a.columns@.len() implies (#[trigger] a.columns@[i]).wf() by {
            assert(b.columns@[i].wf());
        }
    }
}

/// Databases with one depiction are both well formed or both not.
pub proof fn lemma_wf_by_depiction(a: Database, b: Database)
    requires
        a.depiction() == b.depiction(),
    ensures
        a.wf() == b.wf(),
{
    assert(a.tables@.len() == a.depiction().len());
    assert(b.tables@.len() == b.depiction().len());
    assert forall|i: int| 0 <= i < a.tables@.len() implies (#[trigger] a.tables@[i]).wf()
        == b.tables@[i].wf() by {
        assert(a.depiction()[i] == b.depiction()[i]);
        lemma_table_wf_by_image(a.tables@[i], b.tables@[i]);
    }
    if a.wf() {
        assert forall|i: int| 0 <= i < b.tables@.len() implies (#[trigger] b.tables@[i]).wf() by {
            assert(a.tables@[i].wf());
        }
    }
    if b.wf() {
        assert forall|i: int| 0 <= i < a.tables@.len() implies (#[trigger] a.tables@[i]).wf() by {
            assert(b.tables@[i].wf());
        }
    }
}

#[verifier::loop_isolation(false)]
fn index_from(tag: u8, entries: &Vec<(CellImage, usize)>) -> (r: Option<ColumnIndex>)
    ensures
        match r {
            Some(index) => index_shown(index, tag, deep_entries(entries@)),
            None => forall|index: ColumnIndex|
                index_shown(index, tag, deep_entries(entries@)) ==> !index.wf(),
        },
{
    let ghost want = deep_entries(entries@);
    if tag == 4 && entries.len() == 0 {
        let index = ColumnIndex::Absent;
        assert(entries_image_of(index.entries()) =~= want);
        return Some(index);
    }
    if !(tag == 0 || tag == 1 || tag == 3) {
        proof {
            assert forall|index: ColumnIndex| index_shown(index, tag, want) implies !index.wf() by {
                assert(entries_image_of(index.entries()).len() == want.len());
            }
        }
        return None;
    }
    let mut keys: Vec<IndexEntry> = Vec::new();
    let mut i: usize = 0;
    while i < entries.len()
        invariant
            0 <= i <= entries@.len(),
            keys@.len() == i,
            forall|k: int|
                0 <= k < i ==> want[k] == (
                    cell_image_of((#[trigger] keys@[k]).key@),
                    keys@[k].position,
                ),
        decreases entries@.len() - i,
    {
        match key_from(tag, &entries[i].0) {
            Some(key) => {
                keys.push(IndexEntry { key, position: entries[i].1 });
            },
            None => {
                proof {
                    assert forall|index: ColumnIndex| index_shown(index, tag, want) implies
                        !index.wf() by {
                        let held = index.entries();
                        assert(entries_image_of(held).len() == want.len());
                        assert(entries_image_of(held)[i as int] == (
                            cell_image_of(held[i as int].0),
                            held[i as int].1,
                        ));
                        if index.wf() {
                            assert(index.files(held[i as int].0));
                            assert(datatype_tag(key_datatype(held[i as int].0)) == tag);
                        }
                    }
                }
                return None;
            },
        }
        i += 1;
    }
    let ordered = OrderedIndex { entries: keys };
    assert(entries_image_of(ordered@) =~= want);
    let index = if tag == 0 {
        ColumnIndex::Int(ordered)
    } else if tag == 1 {
        ColumnIndex::Str(ordered)
    } else {
        ColumnIndex::Bool(ordered)
    };
    Some(index)
}

fn datatype_from(tag: u8) -> (r: Option<DataType>)
    ensures
        match r {
            Some(datatype) => datatype_tag(datatype) == tag,
            None => forall|datatype: DataType| datatype_tag(datatype) != tag,
        },
{
    if tag == 0 {
        Some(DataType::Int)
    } else if tag == 1 {
        Some(DataType::Str)
    } else if tag == 2 {
        Some(DataType::Float)
    } else if tag == 3 {
        Some(DataType::Bool)
    } else if tag == 4 {
        Some(DataType::Invalid)
    } else {
        None
    }
}

fn header_from(h: &HeaderImage) -> (r: Option<ColumnHeader>)
    ensures
        match r {
            Some(header) => header_image_of(header) == deep_header(*h),
            None => forall|header: ColumnHeader|
                header_image_of(header) == deep_header(*h) ==> !header.wf(),
        },
{
    let datatype = match datatype_from(h.1) {
        Some(datatype) => datatype,
        None => {
            return None;
        },
    };
    let index = match index_from(h.4, &h.5) {
        Some(index) => index,
        None => {
            proof {
                assert forall|header: ColumnHeader|
                    header_image_of(header) == deep_header(*h) implies !header.wf() by {
                    assert(index_shown(header.index, h.4, deep_entries(h.5@)));
                }
            }
            return None;
        },
    };
    Some(
        ColumnHeader {
            name: h.0.clone(),
            datatype,
            is_indexed: h.2,
            index,
            is_primary_key: h.3,
        },
    )
}

fn store_from(s: &StoreImage) -> (r: Option<StoredColumn>)
    ensures
        match r {
            Some(store) => store_image_of(store) == deep_store(*s),
            None => forall|store: StoredColumn| store_image_of(store) != deep_store(*s),
        },
{
    match cells_from(s.1, &s.2) {
        Some(data) => Some(StoredColumn { name: s.0.clone(), data }),
        None => {
            proof {
                assert forall|store: StoredColumn| store_image_of(store) != deep_store(*s) by {
                    if store_image_of(store) == deep_store(*s) {
                        assert(store_shown(store.data, s.1, deep_cells(s.2@)));
                    }
                }
            }
            None
        },
    }
}

#[verifier::loop_isolation(false)]
fn table_from(t: &TableImage) -> (r: Option<Table>)
    ensures
        match r {
            Some(table) => table_image_of(table) == deep_table(*t),
            None => forall|table: Table| table_image_of(table) == deep_table(*t) ==> !table.wf(),
        },
{
    let ghost want = deep_table(*t);
    let mut columns: Vec<ColumnHeader> = Vec::new();
    let mut i: usize = 0;
    while i < t.1.len()
        invariant
            0 <= i <= t.1@.len(),
            columns@.len() == i,
            forall|k: int| 0 <= k < i ==> header_image_of(#[trigger] columns@[k]) == want.1[k],
        decreases t.1@.len() - i,
    {
        match header_from(&t.1[i]) {
            Some(header) => {
                columns.push(header);
            },
            None => {
                proof {
                    assert forall|table: Table| table_image_of(table) == want implies !table.wf() by {
                        assert(table.columns@.len() == table_image_of(table).1.len());
                        assert(table_image_of(table).1[i as int] == header_image_of(
                            table.columns@[i as int],
                        ));
                        assert(!table.columns@[i as int].wf());
                    }
                }
                return None;
            },
        }
        i += 1;
    }
    let mut rows: Vec<StoredColumn> = Vec::new();
    let mut j: usize = 0;
    while j < t.2.len()
        invariant
            0 <= j <= t.2@.len(),
            rows@.len() == j,
            forall|k: int| 0 <= k < j ==> store_image_of(#[trigger] rows@[k]) == want.2[k],
        decreases t.2@.len() - j,
    {
        match store_from(&t.2[j]) {
            Some(store) => {
                rows.push(store);
            },
            None => {
                proof {
                    assert forall|table: Table| table_image_of(table) == want implies !table.wf() by {
                        assert(table.rows@.len() == table_image_of(table).2.len());
                        assert(table_image_of(table).2[j as int] == store_image_of(
                            table.rows@[j as int],
                        ));
                    }
                }
                return None;
            },
        }
        j += 1;
    }
    let table = Table { columns, name: t.0.clone(), rows };
    assert(table_image_of(table).1 =~= want.1);
    assert(table_image_of(table).2 =~= want.2);
    Some(table)
}

/// Whether `image` is the depiction of a well-formed database.
pub open spec fn depicts_a_database(image: DatabaseDeep) -> bool {
    exists|db: Database| #[trigger] db.depiction() == image && db.wf()
}

impl Database {
    /// The database that plain data depicts: the well-formed database
    /// with that depiction, and none where there is none.
    #[verifier::loop_isolation(false)]
    pub fn from_image(image: &DatabaseImage) -> (r: Option<Database>)
        ensures
            match r {
                Some(db) => db.wf() && db.depiction() == deep_database(image@),
                None => !depicts_a_database(deep_database(image@)),
            },
    {
        let ghost want = deep_database(image@);
        let mut tables: Vec<Table> = Vec::new();
        let mut i: usize = 0;
        while i < image.len()
            invariant
                0 <= i <= image@.len(),
                tables@.len() == i,
                forall|k: int| 0 <= k < i ==> table_image_of(#[trigger] tables@[k]) == want[k],
            decreases image@.len() - i,
        {
            match table_from(&image[i]) {
                Some(table) => {
                    tables.push(table);
                },
                None => {
                    proof {
                        assert forall|db: Database| #[trigger] db.depiction() == want implies
                            !db.wf() by {
                            assert(db.tables@.len() == db.depiction().len());
                            assert(db.depiction()[i as int] == table_image_of(
                                db.tables@[i as int],
                            ));
                            assert(!db.tables@[i as int].wf());
                        }
                    }
                    return None;
                },
            }
            i += 1;
        }
        let db = Database { tables };
        assert(db.depiction() =~= want);
        if db.check() {
            Some(db)
        } else {
            proof {
                assert forall|other: Database| #[trigger] other.depiction() == want implies
                    !other.wf() by {
                    lemma_wf_by_depiction(other, db);
                }
            }
            None
        }
    }
}

/// Cells with the same images, one for one, are the same cells.
pub proof fn lemma_cells_image_injective(a: Seq<Cell>, b: Seq<Cell>)
    requires
        cells_image_of(a) == cells_image_of(b),
    ensures
        a == b,
{
    assert(a.len() == cells_image_of(a).len());
    assert(b.len() == cells_image_of(b).len());
    assert forall|i: int| 0 <= i < a.len() implies a[i] == b[i] by {
        assert(cells_image_of(a)[i] == cells_image_of(b)[i]);
        lemma_cell_image_injective(a[i], b[i]);
    }
    assert(a =~= b);
}

/// Whether two stores hold the same: values of one type, and the same
/// cells.
pub open spec fn same_store(a: ColumnData, b: ColumnData) -> bool {
    a.same_type(&b) && a.cells() == b.cells()
}

/// Whether two headers say the same of their column and have indexes of
/// one kind with the same pairs.
pub open spec fn same_header(a: ColumnHeader, b: ColumnHeader) -> bool {
    &&& a.name@ == b.name@
    &&& a.datatype == b.datatype
    &&& a.is_indexed == b.is_indexed
    &&& a.is_primary_key == b.is_primary_key
    &&& index_tag(a.index) == index_tag(b.index)
    &&& a.index.entries() == b.index.entries()
}

/// Whether two tables hold the same: the same name, the same headers one
/// for one, and the same stores one for one.
pub open spec fn same_table(a: Table, b: Table) -> bool {
    &&& a.name@ == b.name@
    &&& a.columns@.len() == b.columns@.len()
    &&& a.rows@.len() == b.rows@.len()
    &&& forall|j: int|
        0 <= j < a.columns@.len() ==> same_header(#[trigger] a.columns@[j], b.columns@[j])
    &&& forall|k: int|
        0 <= k < a.rows@.len() ==> (#[trigger] a.rows@[k]).name@ == b.rows@[k].name@
            && same_store(a.rows@[k].data, b.rows@[k].data)
}

/// Tables with one image hold the same.
pub proof fn lemma_same_table_by_image(a: Table, b: Table)
    requires
        table_image_of(a) == table_image_of(b),
    ensures
        same_table(a, b),
{
    let image = table_image_of(a);
    assert(a.columns@.len() == image.1.len());
    assert(b.columns@.len() == image.1.len());
    assert(a.rows@.len() == image.2.len());
    assert(b.rows@.len() == image.2.len());
    assert forall|j: int| 0 <= j < a.columns@.len() implies same_header(
        #[trigger] a.columns@[j],
        b.columns@[j],
    ) by {
        assert(table_image_of(a).1[j] == table_image_of(b).1[j]);
        lemma_entries_image_injective(a.columns@[j].index.entries(), b.columns@[j].index.entries());
        assert(datatype_tag(a.columns@[j].datatype) == datatype_tag(b.columns@[j].datatype));
    }
    assert forall|k: int| 0 <= k < a.rows@.len() implies (#[trigger] a.rows@[k]).name@
        == b.rows@[k].name@ && same_store(a.rows@[k].data, b.rows@[k].data) by {
        assert(table_image_of(a).2[k] == table_image_of(b).2[k]);
        lemma_cells_image_injective(a.rows@[k].data.cells(), b.rows@[k].data.cells());
        assert(datatype_tag(a.rows@[k].data.datatype()) == datatype_tag(
            b.rows@[k].data.datatype(),
        ));
    }
}

/// Tables that hold the same find the same under every name.
pub proof fn lemma_same_table_lookups(a: Table, b: Table)
    requires
        same_table(a, b),
    ensures
        a.header_names() == b.header_names(),
        a.store_names() == b.store_names(),
        forall|name: Seq<char>| #[trigger] a.header_at(name) == b.header_at(name),
        forall|name: Seq<char>| #[trigger] a.store_at(name) == b.store_at(name),
        forall|name: Seq<char>|
            a.header_at(name) is Some ==> same_header(#[trigger] a.header(name), b.header(name)),
        forall|name: Seq<char>|
            a.store_at(name) is Some ==> same_store(#[trigger] a.store(name), b.store(name)),
{
    assert(a.header_names() =~= b.header_names());
    assert(a.store_names() =~= b.store_names());
    assert forall|name: Seq<char>| a.header_at(name) is Some implies same_header(
        #[trigger] a.header(name),
        b.header(name),
    ) by {
        lemma_first_named(a.header_names(), name);
    }
    assert forall|name: Seq<char>| a.store_at(name) is Some implies same_store(
        #[trigger] a.store(name),
        b.store(name),
    ) by {
        lemma_first_named(a.store_names(), name);
    }
}

/// Headers that say the same answer every lookup alike.
pub proof fn lemma_same_header_lookups(a: ColumnHeader, b: ColumnHeader, text: Seq<char>, op: Binary)
    requires
        same_header(a, b),
    ensures
        Table::found(a, text, op) == Table::found(b, text, op),
{
    assert(a.index.key_of(text) == b.index.key_of(text));
    assert(a.index.failure_text(text) == b.index.failure_text(text));
    assert(a.index is Absent == b.index is Absent);
}

/// Tables that hold the same have the same first unknown name, and the
/// same first name of a store that takes no values.
pub proof fn lemma_same_table_firsts(a: Table, b: Table, names: Seq<Seq<char>>, from: int)
    requires
        same_table(a, b),
    ensures
        a.first_unknown(names, from) == b.first_unknown(names, from),
        (forall|i: int| 0 <= i < names.len() ==> a.store_at(#[trigger] names[i]) is Some)
            ==> a.first_absent(names, from) == b.first_absent(names, from),
    decreases names.len() - from,
{
    lemma_same_table_lookups(a, b);
    if 0 <= from < names.len() {
        lemma_same_table_firsts(a, b, names, from + 1);
        if forall|i: int| 0 <= i < names.len() ==> a.store_at(#[trigger] names[i]) is Some {
            assert(a.store_at(names[from]) is Some);
            assert(same_store(a.store(names[from]), b.store(names[from])));
        }
    }
}

/// Where no name is unknown, every name has a header.
pub proof fn lemma_all_known(table: Table, names: Seq<Seq<char>>, from: int)
    requires
        0 <= from,
        table.first_unknown(names, from) is None,
    ensures
        forall|i: int| from <= i < names.len() ==> table.header_at(#[trigger] names[i]) is Some,
    decreases names.len() - from,
{
    if from < names.len() {
        lemma_all_known(table, names, from + 1);
    }
}

/// Tables that hold the same select the same rows under a predicate whose
/// column they have.
pub proof fn lemma_same_table_matches(a: Table, b: Table, w: Expression, floats: &FloatReadings)
    requires
        same_table(a, b),
        a.wf(),
        a.header_at(w.left@) is Some,
    ensures
        a.matched(w, floats) == b.matched(w, floats),
        a.header(w.left@).is_indexed == b.header(w.left@).is_indexed,
        same_store(a.store(w.left@), b.store(w.left@)),
        a.store(w.left@).cell_of(w.right@, floats) == b.store(w.left@).cell_of(w.right@, floats),
{
    lemma_same_table_lookups(a, b);
    a.lemma_header_has_store(w.left@);
    assert(same_header(a.header(w.left@), b.header(w.left@)));
    assert(same_store(a.store(w.left@), b.store(w.left@)));
    lemma_same_header_lookups(a.header(w.left@), b.header(w.left@), w.right@, w.op.binary());
    lemma_cell_of_same_type(a.store(w.left@), b.store(w.left@), floats);
}

/// Tables that hold the same fetch the same from the names that have a
/// store.
pub proof fn lemma_same_table_fetches(
    a: Table,
    b: Table,
    names: Seq<Seq<char>>,
    positions: Seq<usize>,
)
    requires
        same_table(a, b),
        forall|i: int| 0 <= i < names.len() ==> a.store_at(#[trigger] names[i]) is Some,
    ensures
        a.fetched(names, positions) == b.fetched(names, positions),
        a.dumped(names) == b.dumped(names),
        a.can_fetch(names, positions) == b.can_fetch(names, positions),
        forall|i: int|
            0 <= i < names.len() ==> same_store(a.store(#[trigger] names[i]), b.store(names[i])),
{
    lemma_same_table_lookups(a, b);
    assert forall|i: int| 0 <= i < names.len() implies same_store(
        a.store(#[trigger] names[i]),
        b.store(names[i]),
    ) by {
        assert(a.store_at(names[i]) is Some);
    }
    assert(a.fetched(names, positions) =~= b.fetched(names, positions));
    assert(a.dumped(names) =~= b.dumped(names));
    if a.can_fetch(names, positions) {
        assert forall|c: int| 0 <= c < names.len() implies {
            &&& b.store_at(#[trigger] names[c]) is Some
            &&& !(b.store(names[c]) is Absent)
            &&& forall|i: int|
                0 <= i < positions.len() ==> (#[trigger] positions[i]) < b.store(
                    names[c],
                ).cells().len()
        } by {
            assert(same_store(a.store(names[c]), b.store(names[c])));
        }
    }
    if b.can_fetch(names, positions) {
        assert forall|c: int| 0 <= c < names.len() implies {
            &&& a.store_at(#[trigger] names[c]) is Some
            &&& !(a.store(names[c]) is Absent)
            &&& forall|i: int|
                0 <= i < positions.len() ==> (#[trigger] positions[i]) < a.store(
                    names[c],
                ).cells().len()
        } by {
            assert(same_store(a.store(names[c]), b.store(names[c])));
        }
    }
}

/// Tables that hold the same answer every selection alike: the same
/// thing stands against it, or the same rows are given.
pub proof fn lemma_same_table_answers(
    a: Table,
    b: Table,
    names: Seq<Seq<char>>,
    wheres: Seq<Expression>,
    floats: &FloatReadings,
)
    requires
        same_table(a, b),
        a.wf(),
    ensures
        a.select_failure(names, wheres, floats) == b.select_failure(names, wheres, floats),
        a.select_failure(names, wheres, floats) is None ==> a.answer(names, wheres, floats)
            == b.answer(names, wheres, floats),
{
    lemma_same_table_lookups(a, b);
    lemma_same_table_firsts(a, b, names, 0);
    if a.first_unknown(names, 0) is None {
        lemma_all_known(a, names, 0);
        assert forall|i: int| 0 <= i < names.len() implies a.store_at(
            #[trigger] names[i],
        ) is Some by {
            a.lemma_header_has_store(names[i]);
        }
        lemma_same_table_firsts(a, b, names, 0);
        lemma_same_table_fetches(a, b, names, Seq::empty());
        if wheres.len() > 0 {
            if a.header_at(wheres[0].left@) is Some {
                lemma_same_table_matches(a, b, wheres[0], floats);
                if let Ok(positions) = a.matched(wheres[0], floats) {
                    lemma_same_table_fetches(a, b, names, positions);
                }
            }
        } else {
            assert forall|c: int| 0 <= c < names.len() implies a.store(
                #[trigger] names[c],
            ).cells().len() == b.store(names[c]).cells().len() by {
                assert(same_store(a.store(names[c]), b.store(names[c])));
            }
            if names.len() > 0 {
                assert(same_store(a.store(names[0]), b.store(names[0])));
            }
        }
    }
}

/// Databases with one depiction give every selection the same outcome. So
/// a database that was restored from a snapshot answers as the database
/// did that was persisted.
pub proof fn lemma_same_depiction_answers(
    a: Database,
    b: Database,
    sq: SelectQuery,
    floats: &FloatReadings,
)
    requires
        a.depiction() == b.depiction(),
        a.wf(),
    ensures
        a.select_outcome(&sq, floats) == b.select_outcome(&sq, floats),
{
    assert(a.tables@.len() == a.depiction().len());
    assert(b.tables@.len() == b.depiction().len());
    assert forall|i: int| 0 <= i < a.tables@.len() implies same_table(
        #[trigger] a.tables@[i],
        b.tables@[i],
    ) by {
        assert(a.depiction()[i] == b.depiction()[i]);
        lemma_same_table_by_image(a.tables@[i], b.tables@[i]);
    }
    assert(a.table_names() =~= b.table_names());
    lemma_first_named(a.table_names(), sq.from@);
    if let Some(t) = a.table_at(sq.from@) {
        let ta = a.tables@[t];
        let tb = b.tables@[t];
        assert(same_table(ta, tb));
        lemma_same_table_lookups(ta, tb);
        let names = expanded(texts_of(sq.projection@), ta.header_names());
        lemma_same_table_answers(ta, tb, names, sq.where_expressions@, floats);
    }
}

} // verus!
