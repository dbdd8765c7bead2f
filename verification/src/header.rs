//! Column headers: what is known of a column besides its values.

use crate::cell::Cell;
use crate::datatype::DataType;
use crate::index::ColumnIndex;
use vstd::prelude::*;

verus! {

/// What is known of a column besides its values.
#[derive(Debug, PartialEq)]
pub struct ColumnHeader {
    pub name: String,
    pub datatype: DataType,
    pub is_indexed: bool,
    pub index: ColumnIndex,
    pub is_primary_key: bool,
}

impl ColumnHeader {
    /// The index is well formed and, where there is one, files keys of the
    /// column's type.
    pub open spec fn wf(&self) -> bool {
        &&& self.index.wf()
        &&& self.index.datatype() is Some ==> self.index.datatype() == Some(self.datatype)
    }

    /// Whether the header is well formed.
    pub fn check(&self) -> (r: bool)
        ensures
            r == self.wf(),
    {
        if !self.index.check() {
            return false;
        }
        match (&self.index, self.datatype) {
            (ColumnIndex::Int(_), DataType::Int) => true,
            (ColumnIndex::Str(_), DataType::Str) => true,
            (ColumnIndex::Bool(_), DataType::Bool) => true,
            (ColumnIndex::Absent, _) => true,
            _ => false,
        }
    }

    /// The header of a new column. It is indexed exactly if it is a primary
    /// key; its index is empty, and absent where the column is no primary
    /// key or its type cannot be a key.
    pub fn new(name: String, datatype: String, is_primary_key: bool) -> (r: ColumnHeader)
        ensures
            r.wf(),
            r.name == name,
            r.datatype == DataType::resolved(datatype@),
            r.is_primary_key == is_primary_key,
            r.is_indexed == is_primary_key,
            r.index.entries() == Seq::<(Cell, usize)>::empty(),
            r.index.datatype() == ColumnIndex::datatype_for(r.datatype, is_primary_key),
    {
        let dt = DataType::new(datatype);
        let index = ColumnIndex::empty(dt, is_primary_key);
        ColumnHeader { name, datatype: dt, is_indexed: is_primary_key, index, is_primary_key }
    }

    /// The index, to change it in place.
    pub fn get_mut_index(&mut self) -> (r: &mut ColumnIndex)
        ensures
            *r == old(self).index,
            final(self).index == *final(r),
            final(self).name == old(self).name,
            final(self).datatype == old(self).datatype,
            final(self).is_indexed == old(self).is_indexed,
            final(self).is_primary_key == old(self).is_primary_key,
    {
        &mut self.index
    }
}

} // verus!
