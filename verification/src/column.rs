//! The column store: the typed, append-only sequence of values of one
//! column, with its scan and its materialisation.

use crate::cell::{cell_text, holds, Cell, FloatReadings, FloatValue, Key};
use crate::datatype::DataType;
use crate::parser::select::{Binary, Expression, Operator};
use crate::text::{
    format_bool, format_i32, parse_bool, parse_bool_text, parse_i32, parse_int, text_eq, text_less,
    texts_of,
};
use vstd::prelude::*;

verus! {

/// The values of one column, all of one type.
#[derive(Debug, PartialEq)]
pub enum ColumnData {
    Int(Vec<i32>),
    Str(Vec<String>),
    Float(Vec<FloatValue>),
    Bool(Vec<bool>),
    /// The store of a column whose type is not valid: it takes no value.
    Absent,
}

/// The positions of the cells `c` of `cells` for which `c op term` holds, in
/// ascending order.
pub open spec fn matching_positions(cells: Seq<Cell>, op: Binary, term: Cell) -> Seq<usize>
    decreases cells.len(),
{
    if cells.len() == 0 {
        Seq::empty()
    } else {
        let rest = matching_positions(cells.drop_last(), op, term);
        if holds(op, cells.last(), term) {
            rest.push((cells.len() - 1) as usize)
        } else {
            rest
        }
    }
}

/// The texts of the cells at `indices`, in the order of `indices`.
pub open spec fn texts_at(cells: Seq<Cell>, indices: Seq<usize>) -> Seq<Seq<char>> {
    Seq::new(indices.len(), |i: int| cell_text(cells[indices[i] as int]))
}

/// The texts of all the cells, in order.
pub open spec fn texts_of_cells(cells: Seq<Cell>) -> Seq<Seq<char>> {
    Seq::new(cells.len(), |i: int| cell_text(cells[i]))
}

impl ColumnData {
    /// The cells of the column in row order; none for an absent store.
    pub open spec fn cells(&self) -> Seq<Cell> {
        match self {
            ColumnData::Int(v) => Seq::new(v@.len(), |i: int| Cell::Int(v@[i])),
            ColumnData::Str(v) => Seq::new(v@.len(), |i: int| Cell::Str(v@[i]@)),
            ColumnData::Float(v) => Seq::new(v@.len(), |i: int| Cell::Float(v@[i]@)),
            ColumnData::Bool(v) => Seq::new(v@.len(), |i: int| Cell::Bool(v@[i])),
            ColumnData::Absent => Seq::empty(),
        }
    }

    /// Whether two stores hold the same type of value.
    pub open spec fn same_type(&self, other: &ColumnData) -> bool {
        &&& self is Int <==> other is Int
        &&& self is Str <==> other is Str
        &&& self is Float <==> other is Float
        &&& self is Bool <==> other is Bool
        &&& self is Absent <==> other is Absent
    }

    /// The cell that this store reads from `text`: by its type a number, the
    /// text itself, a boolean, or the float that `floats` holds for the
    /// text. `None` where the text writes no value of the type, and for an
    /// absent store.
    pub open spec fn cell_of(&self, text: Seq<char>, floats: &FloatReadings) -> Option<Cell> {
        match self {
            ColumnData::Int(_) => match parse_int(text) {
                Some(v) => Some(Cell::Int(v as i32)),
                None => None,
            },
            ColumnData::Str(_) => Some(Cell::Str(text)),
            ColumnData::Float(_) => match floats.read(text) {
                Some(f) => Some(Cell::Float(f)),
                None => None,
            },
            ColumnData::Bool(_) => match parse_bool(text) {
                Some(b) => Some(Cell::Bool(b)),
                None => None,
            },
            ColumnData::Absent => None,
        }
    }

    /// The number of rows.
    pub fn count(&self) -> (r: usize)
        requires
            !(self is Absent),
        ensures
            r == self.cells().len(),
    {
        match self {
            ColumnData::Int(cd) => cd.len(),
            ColumnData::Float(cd) => cd.len(),
            ColumnData::Str(cd) => cd.len(),
            ColumnData::Bool(cd) => cd.len(),
            ColumnData::Absent => 0,
        }
    }

    /// The text of the value in row `i`.
    pub fn row_at(&self, i: usize) -> (r: String)
        requires
            i < self.cells().len(),
        ensures
            r@ == cell_text(self.cells()[i as int]),
    {
        match self {
            ColumnData::Int(cd) => format_i32(cd[i]),
            ColumnData::Float(cd) => cd[i].text.clone(),
            ColumnData::Str(cd) => cd[i].clone(),
            ColumnData::Bool(cd) => format_bool(cd[i]),
            ColumnData::Absent => String::new(),
        }
    }

    /// Parses `value` into the type of the store and puts it after the last
    /// row.
    pub fn append(&mut self, value: &str, floats: &FloatReadings)
        requires
            old(self).cell_of(value@, floats) is Some,
        ensures
            final(self).cells() == old(self).cells().push(
                old(self).cell_of(value@, floats).unwrap(),
            ),
            final(self).same_type(old(self)),
    {
        match self {
            ColumnData::Int(cd) => {
                match parse_i32(value) {
                    Ok(v) => {
                        cd.push(v);
                    },
                    Err(_) => {},
                }
            },
            ColumnData::Float(cd) => {
                match floats.find(value) {
                    Some(f) => {
                        cd.push(f.duplicate());
                    },
                    None => {},
                }
            },
            ColumnData::Str(cd) => {
                cd.push(String::from_str(value));
            },
            ColumnData::Bool(cd) => {
                match parse_bool_text(value) {
                    Some(b) => {
                        cd.push(b);
                    },
                    None => {},
                }
            },
            ColumnData::Absent => {},
        }
        assert(self.cells() =~= old(self).cells().push(old(self).cell_of(value@, floats).unwrap()));
    }

    /// The text of every row, in row order.
    pub fn get_serialized_col_data(&self) -> (r: Vec<String>)
        requires
            !(self is Absent),
        ensures
            texts_of(r@) == texts_of_cells(self.cells()),
    {
        let n = self.count();
        let mut out: Vec<String> = Vec::new();
        let mut i: usize = 0;
        while i < n
            invariant
                0 <= i <= n,
                n == self.cells().len(),
                out@.len() == i,
                forall|k: int| 0 <= k < i ==> (#[trigger] out@[k])@ == cell_text(self.cells()[k]),
            decreases n - i,
        {
            out.push(self.row_at(i));
            i += 1;
        }
        assert(texts_of(out@) =~= texts_of_cells(self.cells()));
        out
    }

    /// The texts of the rows at `indices`, in the order of `indices`; a
    /// position named twice is given twice.
    pub fn get_serialized_col_data_by_index(&self, indices: &[usize]) -> (r: Vec<String>)
        requires
            !(self is Absent),
            forall|i: int| 0 <= i < indices@.len() ==> (#[trigger] indices@[i]) < self.cells().len(),
        ensures
            texts_of(r@) == texts_at(self.cells(), indices@),
    {
        let mut selected_data: Vec<String> = Vec::new();
        let mut i: usize = 0;
        while i < indices.len()
            invariant
                0 <= i <= indices@.len(),
                forall|k: int|
                    0 <= k < indices@.len() ==> (#[trigger] indices@[k]) < self.cells().len(),
                selected_data@.len() == i,
                forall|k: int|
                    0 <= k < i ==> (#[trigger] selected_data@[k])@ == cell_text(
                        self.cells()[indices@[k] as int],
                    ),
            decreases indices@.len() - i,
        {
            selected_data.push(self.row_at(indices[i]));
            i += 1;
        }
        assert(texts_of(selected_data@) =~= texts_at(self.cells(), indices@));
        selected_data
    }

    /// Walks the rows in ascending order and adds to `scanned_vals` the
    /// position of each row whose value `v` makes `v op term` hold, `term`
    /// being what the store reads from `search_term`. Returns a copy of
    /// `scanned_vals` as it then stands.
    pub fn work(
        &self,
        search_term: &str,
        scanned_vals: &mut Vec<usize>,
        op: Binary,
        floats: &FloatReadings,
    ) -> (r: Vec<usize>)
        requires
            self.cell_of(search_term@, floats) is Some,
        ensures
            final(scanned_vals)@ == old(scanned_vals)@ + matching_positions(
                self.cells(),
                op,
                self.cell_of(search_term@, floats).unwrap(),
            ),
            r@ == final(scanned_vals)@,
    {
        let ghost term = self.cell_of(search_term@, floats).unwrap();
        let ghost before = scanned_vals@;
        assert(self.cells().take(0) =~= Seq::<Cell>::empty());
        match self {
            ColumnData::Int(cd) => {
                match parse_i32(search_term) {
                    Ok(t) => {
                        let mut idx: usize = 0;
                        while idx < cd.len()
                            invariant
                                0 <= idx <= cd@.len(),
                                *self == ColumnData::Int(*cd),
                                term == Cell::Int(t),
                                scanned_vals@ == before + matching_positions(
                                    self.cells().take(idx as int),
                                    op,
                                    term,
                                ),
                            decreases cd@.len() - idx,
                        {
                            proof {
                                assert(self.cells().take(idx + 1).drop_last() =~= self.cells().take(
                                    idx as int,
                                ));
                            }
                            let v: i32 = cd[idx];
                            let keep = match op {
                                Binary::Eq => v == t,
                                Binary::NotEq => v != t,
                                Binary::Lt => v < t,
                                Binary::LtEq => v <= t,
                                Binary::Gt => v > t,
                                Binary::GtEq => v >= t,
                            };
                            if keep {
                                scanned_vals.push(idx);
                            }
                            idx += 1;
                        }
                    },
                    Err(_) => {},
                }
            },
            ColumnData::Float(cd) => {
                match floats.find(search_term) {
                    Some(t) => {
                        let mut idx: usize = 0;
                        while idx < cd.len()
                            invariant
                                0 <= idx <= cd@.len(),
                                *self == ColumnData::Float(*cd),
                                term == Cell::Float(t@),
                                scanned_vals@ == before + matching_positions(
                                    self.cells().take(idx as int),
                                    op,
                                    term,
                                ),
                            decreases cd@.len() - idx,
                        {
                            proof {
                                assert(self.cells().take(idx + 1).drop_last() =~= self.cells().take(
                                    idx as int,
                                ));
                            }
                            if cd[idx].satisfies(op, t) {
                                scanned_vals.push(idx);
                            }
                            idx += 1;
                        }
                    },
                    None => {},
                }
            },
            ColumnData::Str(cd) => {
                let mut idx: usize = 0;
                while idx < cd.len()
                    invariant
                        0 <= idx <= cd@.len(),
                        *self == ColumnData::Str(*cd),
                        term == Cell::Str(search_term@),
                        scanned_vals@ == before + matching_positions(
                            self.cells().take(idx as int),
                            op,
                            term,
                        ),
                    decreases cd@.len() - idx,
                {
                    proof {
                        assert(self.cells().take(idx + 1).drop_last() =~= self.cells().take(
                            idx as int,
                        ));
                    }
                    let v: &str = cd[idx].as_str();
                    let keep = match op {
                        Binary::Eq => text_eq(v, search_term),
                        Binary::NotEq => !text_eq(v, search_term),
                        Binary::Lt => text_less(v, search_term),
                        Binary::LtEq => text_less(v, search_term) || text_eq(v, search_term),
                        Binary::Gt => text_less(search_term, v),
                        Binary::GtEq => text_less(search_term, v) || text_eq(v, search_term),
                    };
                    if keep {
                        scanned_vals.push(idx);
                    }
                    idx += 1;
                }
            },
            ColumnData::Bool(cd) => {
                match parse_bool_text(search_term) {
                    Some(t) => {
                        let mut idx: usize = 0;
                        while idx < cd.len()
                            invariant
                                0 <= idx <= cd@.len(),
                                *self == ColumnData::Bool(*cd),
                                term == Cell::Bool(t),
                                scanned_vals@ == before + matching_positions(
                                    self.cells().take(idx as int),
                                    op,
                                    term,
                                ),
                            decreases cd@.len() - idx,
                        {
                            proof {
                                assert(self.cells().take(idx + 1).drop_last() =~= self.cells().take(
                                    idx as int,
                                ));
                            }
                            let v: bool = cd[idx];
                            let keep = match op {
                                Binary::Eq => v == t,
                                Binary::NotEq => v != t,
                                Binary::Lt => !v && t,
                                Binary::LtEq => !v || t,
                                Binary::Gt => v && !t,
                                Binary::GtEq => v || !t,
                            };
                            if keep {
                                scanned_vals.push(idx);
                            }
                            idx += 1;
                        }
                    },
                    None => {},
                }
            },
            ColumnData::Absent => {},
        }
        assert(self.cells().take(self.cells().len() as int) =~= self.cells());
        copy_positions(scanned_vals)
    }

    /// The positions, in ascending order, of the rows whose value `v` makes
    /// `v op term` hold, for the operator of `expr` and the term that the
    /// store reads from its literal.
    pub fn get_serialized_col_data_by_scanning(
        &self,
        expr: &Expression,
        floats: &FloatReadings,
    ) -> (r: Vec<usize>)
        requires
            self.cell_of(expr.right@, floats) is Some,
        ensures
            r@ == matching_positions(
                self.cells(),
                expr.op.binary(),
                self.cell_of(expr.right@, floats).unwrap(),
            ),
    {
        let mut scanned_vals: Vec<usize> = Vec::new();
        match &expr.op {
            Operator::Binary(binary_op) => self.work(
                expr.right.as_str(),
                &mut scanned_vals,
                *binary_op,
                floats,
            ),
        }
    }
}

/// A copy of a list of positions.
pub fn copy_positions(positions: &Vec<usize>) -> (r: Vec<usize>)
    ensures
        r@ == positions@,
{
    let mut out: Vec<usize> = Vec::new();
    let mut i: usize = 0;
    while i < positions.len()
        invariant
            0 <= i <= positions@.len(),
            out@ == positions@.take(i as int),
        decreases positions@.len() - i,
    {
        out.push(positions[i]);
        assert(positions@.take(i + 1) =~= positions@.take(i as int).push(positions@[i as int]));
        i += 1;
    }
    assert(positions@.take(i as int) =~= positions@);
    out
}

impl ColumnData {
    /// The type of value that the store holds.
    pub open spec fn datatype(&self) -> DataType {
        match self {
            ColumnData::Int(_) => DataType::Int,
            ColumnData::Str(_) => DataType::Str,
            ColumnData::Float(_) => DataType::Float,
            ColumnData::Bool(_) => DataType::Bool,
            ColumnData::Absent => DataType::Invalid,
        }
    }

    /// An empty store for values of type `datatype`.
    pub fn empty(datatype: DataType) -> (r: ColumnData)
        ensures
            r.datatype() == datatype,
            r.cells() == Seq::<Cell>::empty(),
    {
        let r = match datatype {
            DataType::Int => ColumnData::Int(Vec::new()),
            DataType::Str => ColumnData::Str(Vec::new()),
            DataType::Float => ColumnData::Float(Vec::new()),
            DataType::Bool => ColumnData::Bool(Vec::new()),
            DataType::Invalid => ColumnData::Absent,
        };
        assert(r.cells() =~= Seq::<Cell>::empty());
        r
    }
}

impl ColumnData {
    /// Whether the store takes no value.
    pub fn is_absent(&self) -> (r: bool)
        ensures
            r == self is Absent,
    {
        match self {
            ColumnData::Absent => true,
            _ => false,
        }
    }

    /// Whether `text` writes a value of the type of the store.
    pub fn reads(&self, text: &str, floats: &FloatReadings) -> (r: bool)
        ensures
            r == self.cell_of(text@, floats) is Some,
    {
        match self {
            ColumnData::Int(_) => parse_i32(text).is_ok(),
            ColumnData::Str(_) => true,
            ColumnData::Float(_) => floats.find(text).is_some(),
            ColumnData::Bool(_) => parse_bool_text(text).is_some(),
            ColumnData::Absent => false,
        }
    }

    /// The key under which the value in row `i` is filed; none for a float,
    /// which cannot be a key.
    pub fn key_at(&self, i: usize) -> (r: Option<Key>)
        requires
            i < self.cells().len(),
        ensures
            match r {
                Some(key) => key@ == self.cells()[i as int],
                None => self is Float,
            },
    {
        match self {
            ColumnData::Int(cd) => Some(Key::Int(cd[i])),
            ColumnData::Str(cd) => Some(Key::Str(cd[i].clone())),
            ColumnData::Bool(cd) => Some(Key::Bool(cd[i])),
            ColumnData::Float(_) => None,
            ColumnData::Absent => None,
        }
    }
}

} // verus!
