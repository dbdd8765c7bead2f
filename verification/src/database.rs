//! The database: its tables in the order of their creation.

use crate::names::{first_named, lemma_first_named, lemma_first_named_is};
use crate::table::Table;
use crate::text::text_eq;
use vstd::prelude::*;

verus! {

/// The tables, in the order in which they were added.
#[derive(Debug, PartialEq)]
pub struct Database {
    pub tables: Vec<Table>,
}

impl Database {
    /// The names of the tables, in order.
    pub open spec fn table_names(&self) -> Seq<Seq<char>> {
        Seq::new(self.tables@.len(), |i: int| self.tables@[i].name@)
    }

    /// The place of the first table named `name`.
    pub open spec fn table_at(&self, name: Seq<char>) -> Option<int> {
        first_named(self.table_names(), name)
    }

    /// The first table named `name`. Meant for names that a table has.
    pub open spec fn table(&self, name: Seq<char>) -> Table {
        self.tables@[self.table_at(name).unwrap()]
    }

    /// Every table is well formed.
    pub open spec fn wf(&self) -> bool {
        forall|i: int| 0 <= i < self.tables@.len() ==> (#[trigger] self.tables@[i]).wf()
    }

    /// In every table the indexes are in step with their columns.
    pub open spec fn indexed(&self) -> bool {
        forall|i: int| 0 <= i < self.tables@.len() ==> (#[trigger] self.tables@[i]).indexed()
    }

    /// Whether every table is well formed.
    pub fn check(&self) -> (r: bool)
        ensures
            r == self.wf(),
    {
        let mut i: usize = 0;
        while i < self.tables.len()
            invariant
                0 <= i <= self.tables@.len(),
                forall|k: int| 0 <= k < i ==> (#[trigger] self.tables@[k]).wf(),
            decreases self.tables@.len() - i,
        {
            if !self.tables[i].check() {
                return false;
            }
            i += 1;
        }
        true
    }

    /// A database without tables.
    pub fn new() -> (r: Database)
        ensures
            r.wf(),
            r.indexed(),
            r.tables@.len() == 0,
    {
        Database { tables: Vec::new() }
    }

    /// Adds `table` after the tables that are there. A table of the same
    /// name that is already there stays the one that lookups find.
    pub fn add_table(&mut self, table: Table)
        ensures
            final(self).tables@ == old(self).tables@.push(table),
    {
        self.tables.push(table);
    }

    /// The place of the first table named `name`.
    pub fn find_table(&self, name: &str) -> (r: Option<usize>)
        ensures
            match r {
                Some(i) => self.table_at(name@) == Some(i as int) && i < self.tables@.len(),
                None => self.table_at(name@) is None,
            },
    {
        let mut i: usize = 0;
        while i < self.tables.len()
            invariant
                0 <= i <= self.tables@.len(),
                forall|j: int| 0 <= j < i ==> self.table_names()[j] != name@,
            decreases self.tables@.len() - i,
        {
            if text_eq(self.tables[i].name.as_str(), name) {
                proof {
                    lemma_first_named_is(self.table_names(), name@, i as int);
                }
                return Some(i);
            }
            i += 1;
        }
        proof {
            lemma_first_named(self.table_names(), name@);
        }
        None
    }

    /// Whether a table is named `name`.
    pub fn table_exists(&self, name: String) -> (r: bool)
        ensures
            r == self.table_at(name@) is Some,
            r == self.table_names().contains(name@),
    {
        let found = self.find_table(name.as_str());
        proof {
            lemma_first_named(self.table_names(), name@);
        }
        found.is_some()
    }

    /// The first table named `name`.
    pub fn get_table(&self, name: String) -> (r: &Table)
        requires
            self.table_at(name@) is Some,
        ensures
            *r == self.table(name@),
    {
        let found = self.find_table(name.as_str());
        &self.tables[found.unwrap()]
    }

    /// The first table named `name`, to change it in place.
    pub fn get_table_mut(&mut self, name: String) -> (r: &mut Table)
        requires
            old(self).table_at(name@) is Some,
        ensures
            *r == old(self).table(name@),
            final(self).tables@ == old(self).tables@.update(
                old(self).table_at(name@).unwrap(),
                *final(r),
            ),
    {
        let found = self.find_table(name.as_str());
        &mut self.tables[found.unwrap()]
    }
}

} // verus!
