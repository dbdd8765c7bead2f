//! Insertion and selection with every condition tested first: what a table
//! operation presupposes is looked into before the operation is made, and
//! what stands against it is said instead of making it. Nothing is changed
//! unless the whole operation goes through.

use crate::cell::FloatReadings;
use crate::column::ColumnData;
use crate::error::{ragged_text, short_row_text, unreadable, unreadable_text, EngineError, Failure};
use crate::names::{first_named, lemma_first_named};
use crate::parser::select::{Expression, SelectQuery};
use crate::selection::grid_of;
use crate::table::Table;
use crate::text::{text_eq, texts_of};
use vstd::prelude::*;

verus! {

/// The first row, from row `from` on, with fewer than `n` literals.
pub open spec fn first_short(values: Seq<Vec<String>>, n: int, from: int) -> Option<int>
    decreases values.len() - from,
{
    if from < 0 || from >= values.len() {
        None
    } else if values[from]@.len() < n {
        Some(from)
    } else {
        first_short(values, n, from + 1)
    }
}

/// The first row, from row `from` on, whose literal `i` writes no value of
/// the type of `store`.
pub open spec fn first_unreadable_row(
    store: ColumnData,
    values: Seq<Vec<String>>,
    i: int,
    floats: &FloatReadings,
    from: int,
) -> Option<int>
    decreases values.len() - from,
{
    if from < 0 || from >= values.len() {
        None
    } else if store.cell_of(values[from]@[i]@, floats) is None {
        Some(from)
    } else {
        first_unreadable_row(store, values, i, floats, from + 1)
    }
}

impl Table {
    /// The first of `names`, from place `from` on, that no header has.
    pub open spec fn first_unknown(&self, names: Seq<Seq<char>>, from: int) -> Option<int>
        decreases names.len() - from,
    {
        if from < 0 || from >= names.len() {
            None
        } else if self.header_at(names[from]) is None {
            Some(from)
        } else {
            self.first_unknown(names, from + 1)
        }
    }

    /// The first of `names`, from place `from` on, whose store takes no
    /// value.
    pub open spec fn first_absent(&self, names: Seq<Seq<char>>, from: int) -> Option<int>
        decreases names.len() - from,
    {
        if from < 0 || from >= names.len() {
            None
        } else if self.store(names[from]) is Absent {
            Some(from)
        } else {
            self.first_absent(names, from + 1)
        }
    }

    /// The first named column, from place `from` on, with a literal that its
    /// store cannot read, and the first row that has such a literal.
    pub open spec fn first_unreadable(
        &self,
        cols: Seq<String>,
        values: Seq<Vec<String>>,
        floats: &FloatReadings,
        from: int,
    ) -> Option<(int, int)>
        decreases cols.len() - from,
    {
        if from < 0 || from >= cols.len() {
            None
        } else {
            match first_unreadable_row(self.store(cols[from]@), values, from, floats, 0) {
                Some(r) => Some((from, r)),
                None => self.first_unreadable(cols, values, floats, from + 1),
            }
        }
    }

    /// The first failure, from row `from` on, of the check of the primary
    /// key: a key literal that the index cannot read, or a value that is
    /// already filed.
    pub open spec fn first_key_failure(
        &self,
        cols: Seq<String>,
        values: Seq<Vec<String>>,
        from: int,
    ) -> Option<Failure>
        decreases values.len() - from,
    {
        if from < 0 || from >= values.len() {
            None
        } else if !self.unique_check_ready(cols, values[from]@) {
            let header = self.columns@[self.first_keyed(texts_of(cols), 0).unwrap()];
            let c = first_named(texts_of(cols), header.name@).unwrap();
            Some(Failure::ParseError(unreadable_text(values[from]@[c]@)))
        } else {
            match self.unique_verdict(cols, values[from]@) {
                Err(said) => Some(Failure::UniqueViolation(said)),
                Ok(_) => self.first_key_failure(cols, values, from + 1),
            }
        }
    }

    /// Why the rows `values` cannot be inserted under `cols`, if they
    /// cannot. In this order: a name without a column; a row with too few
    /// literals; a column that takes no values; a literal that writes no
    /// value of its column's type; a key that is already filed.
    pub open spec fn insert_failure(
        &self,
        cols: Seq<String>,
        values: Seq<Vec<String>>,
        floats: &FloatReadings,
    ) -> Option<Failure> {
        let names = texts_of(cols);
        if let Some(i) = self.first_unknown(names, 0) {
            Some(Failure::UnknownColumn(names[i]))
        } else if first_short(values, cols.len() as int, 0) is Some {
            Some(Failure::Internal(short_row_text()))
        } else if let Some(i) = self.first_absent(names, 0) {
            Some(Failure::TypeMismatch(names[i]))
        } else if let Some((i, r)) = self.first_unreadable(cols, values, floats, 0) {
            Some(Failure::ParseError(unreadable_text(values[r]@[i]@)))
        } else {
            self.first_key_failure(cols, values, 0)
        }
    }

    /// The first of `names` that no header has.
    pub fn find_unknown(&self, names: &[String]) -> (r: Option<usize>)
        ensures
            match r {
                Some(i) => self.first_unknown(texts_of(names@), 0) == Some(i as int) && i
                    < names@.len(),
                None => self.first_unknown(texts_of(names@), 0) is None && forall|i: int|
                    0 <= i < names@.len() ==> self.header_at(#[trigger] names@[i]@) is Some,
            },
    {
        let mut i: usize = 0;
        while i < names.len()
            invariant
                0 <= i <= names@.len(),
                self.first_unknown(texts_of(names@), 0) == self.first_unknown(
                    texts_of(names@),
                    i as int,
                ),
                forall|j: int| 0 <= j < i ==> self.header_at(#[trigger] names@[j]@) is Some,
            decreases names@.len() - i,
        {
            assert(texts_of(names@)[i as int] == names@[i as int]@);
            if self.find_header(names[i].as_str()).is_none() {
                return Some(i);
            }
            i += 1;
        }
        None
    }

    /// The first of `names` whose store takes no value.
    pub fn find_absent(&self, names: &[String]) -> (r: Option<usize>)
        requires
            forall|i: int| 0 <= i < names@.len() ==> self.store_at(#[trigger] names@[i]@) is Some,
        ensures
            match r {
                Some(i) => self.first_absent(texts_of(names@), 0) == Some(i as int) && i
                    < names@.len(),
                None => self.first_absent(texts_of(names@), 0) is None && forall|i: int|
                    0 <= i < names@.len() ==> !(self.store(#[trigger] names@[i]@) is Absent),
            },
    {
        let mut i: usize = 0;
        while i < names.len()
            invariant
                0 <= i <= names@.len(),
                forall|i: int|
                    0 <= i < names@.len() ==> self.store_at(#[trigger] names@[i]@) is Some,
                self.first_absent(texts_of(names@), 0) == self.first_absent(
                    texts_of(names@),
                    i as int,
                ),
                forall|j: int| 0 <= j < i ==> !(self.store(#[trigger] names@[j]@) is Absent),
            decreases names@.len() - i,
        {
            assert(texts_of(names@)[i as int] == names@[i as int]@);
            let si = self.find_store(names[i].as_str()).unwrap();
            if self.rows[si].data.is_absent() {
                return Some(i);
            }
            i += 1;
        }
        None
    }

    /// Every header has a store under its name.
    pub proof fn lemma_header_has_store(&self, name: Seq<char>)
        requires
            self.wf(),
            self.header_at(name) is Some,
        ensures
            self.store_at(name) is Some,
    {
        lemma_first_named(self.header_names(), name);
        lemma_first_named(self.store_names(), name);
        let h = self.header_at(name).unwrap();
        assert(self.store_names().contains(self.header_names()[h]));
    }

    /// Inserts the rows `values` under `cols` if nothing stands against it,
    /// and says what does otherwise, leaving the table as it is.
    #[verifier::loop_isolation(false)]
    #[verifier::rlimit(50)]
    pub fn try_insert(&mut self, cols: &[String], values: &[Vec<String>], floats: &FloatReadings) -> (r:
        Result<(), EngineError>)
        requires
            old(self).wf(),
        ensures
            final(self).wf(),
            old(self).indexed() ==> final(self).indexed(),
            old(self).typed() ==> final(self).typed(),
            old(self).distinct_names() ==> final(self).distinct_names(),
            match r {
                Ok(_) => old(self).insert_failure(cols@, values@, floats) is None && old(
                    self,
                ).insert_ready(cols@, values@, floats) && old(self).inserted(
                    final(self),
                    cols@,
                    values@,
                    cols@.len() as int,
                    floats,
                ) && forall|n: int|
                    #[trigger] old(self).aligned(n) && old(self).names_each_once(cols@)
                        ==> final(self).aligned(n + values@.len()),
                Err(e) => old(self).insert_failure(cols@, values@, floats) == Some(e@)
                    && *final(self) == *old(self),
            },
    {
        let ghost names = texts_of(cols@);
        match self.find_unknown(cols) {
            Some(i) => {
                return Err(EngineError::UnknownColumn(cols[i].clone()));
            },
            None => {},
        }
        proof {
            assert forall|i: int| 0 <= i < cols@.len() implies self.store_at(
                #[trigger] cols@[i]@,
            ) is Some by {
                self.lemma_header_has_store(cols@[i]@);
            }
        }
        let mut r: usize = 0;
        while r < values.len()
            invariant
                0 <= r <= values@.len(),
                first_short(values@, cols@.len() as int, 0) == first_short(
                    values@,
                    cols@.len() as int,
                    r as int,
                ),
                forall|k: int| 0 <= k < r ==> (#[trigger] values@[k])@.len() >= cols@.len(),
            decreases values@.len() - r,
        {
            if values[r].len() < cols.len() {
                return Err(
                    EngineError::Internal(
                        String::from_str("a row has fewer values than columns are named"),
                    ),
                );
            }
            r += 1;
        }
        match self.find_absent(cols) {
            Some(i) => {
                assert(names[i as int] == cols@[i as int]@);
                return Err(EngineError::TypeMismatch(cols[i].clone()));
            },
            None => {},
        }
        let mut i: usize = 0;
        while i < cols.len()
            invariant
                0 <= i <= cols@.len(),
                self.wf(),
                *self == *old(self),
                forall|k: int| 0 <= k < cols@.len() ==> self.store_at(#[trigger] cols@[k]@) is Some,
                forall|k: int|
                    0 <= k < values@.len() ==> (#[trigger] values@[k])@.len() >= cols@.len(),
                self.first_unreadable(cols@, values@, floats, 0) == self.first_unreadable(
                    cols@,
                    values@,
                    floats,
                    i as int,
                ),
                forall|k: int, q: int|
                    0 <= k < i && 0 <= q < values@.len() ==> self.store(
                        (#[trigger] cols@[k])@,
                    ).cell_of((#[trigger] values@[q])@[k]@, floats) is Some,
            decreases cols@.len() - i,
        {
            let si = self.find_store(cols[i].as_str()).unwrap();
            let mut q: usize = 0;
            while q < values.len()
                invariant
                    0 <= q <= values@.len(),
                    0 <= i < cols@.len(),
                    si < self.rows@.len(),
                    self.store_at(cols@[i as int]@) == Some(si as int),
                    forall|k: int|
                        0 <= k < values@.len() ==> (#[trigger] values@[k])@.len() >= cols@.len(),
                    first_unreadable_row(self.rows@[si as int].data, values@, i as int, floats, 0)
                        == first_unreadable_row(
                        self.rows@[si as int].data,
                        values@,
                        i as int,
                        floats,
                        q as int,
                    ),
                    forall|k: int|
                        0 <= k < q ==> self.rows@[si as int].data.cell_of(
                            (#[trigger] values@[k])@[i as int]@,
                            floats,
                        ) is Some,
                decreases values@.len() - q,
            {
                assert(values@[q as int]@.len() >= cols@.len());
                if !self.rows[si].data.reads(values[q][i].as_str(), floats) {
                    return Err(unreadable(values[q][i].as_str()));
                }
                q += 1;
            }
            i += 1;
        }
        assert(self.insert_ready(cols@, values@, floats));
        match self.keyed_column(cols) {
            Some((h, c)) => {
                let mut q: usize = 0;
                while q < values.len()
                    invariant
                        0 <= q <= values@.len(),
                        self.wf(),
                        h < self.columns@.len(),
                        c < cols@.len(),
                        self.first_keyed(texts_of(cols@), 0) == Some(h as int),
                        first_named(texts_of(cols@), self.columns@[h as int].name@) == Some(
                            c as int,
                        ),
                        forall|k: int|
                            0 <= k < values@.len() ==> (#[trigger] values@[k])@.len() >= cols@.len(),
                        self.first_key_failure(cols@, values@, 0) == self.first_key_failure(
                            cols@,
                            values@,
                            q as int,
                        ),
                    decreases values@.len() - q,
                {
                    assert(values@[q as int]@.len() >= cols@.len());
                    let index = &self.columns[h].index;
                    if !index.is_absent() && !index.reads(values[q][c].as_str()) {
                        return Err(unreadable(values[q][c].as_str()));
                    }
                    match self.does_violate_unique_constraint(cols, values[q].as_slice()) {
                        Ok(_) => {},
                        Err(said) => {
                            return Err(EngineError::UniqueViolation(said));
                        },
                    }
                    q += 1;
                }
            },
            None => {
                let mut q: usize = 0;
                while q < values.len()
                    invariant
                        0 <= q <= values@.len(),
                        self.first_keyed(texts_of(cols@), 0) is None,
                        self.first_key_failure(cols@, values@, 0) == self.first_key_failure(
                            cols@,
                            values@,
                            q as int,
                        ),
                    decreases values@.len() - q,
                {
                    q += 1;
                }
            },
        }
        self.insert_row(cols, values, floats);
        Ok(())
    }
}

/// `projection` with each `*` replaced, where it stands, by all of
/// `headers` in their order.
pub open spec fn expanded(projection: Seq<Seq<char>>, headers: Seq<Seq<char>>) -> Seq<Seq<char>>
    decreases projection.len(),
{
    if projection.len() == 0 {
        Seq::empty()
    } else {
        let rest = expanded(projection.drop_last(), headers);
        if projection.last() == seq!['*'] {
            rest + headers
        } else {
            rest.push(projection.last())
        }
    }
}

/// Whether every one of `positions` is below `n`.
pub fn positions_below(positions: &[usize], n: usize) -> (r: bool)
    ensures
        r == forall|i: int| 0 <= i < positions@.len() ==> (#[trigger] positions@[i]) < n,
{
    let mut i: usize = 0;
    while i < positions.len()
        invariant
            0 <= i <= positions@.len(),
            forall|k: int| 0 <= k < i ==> (#[trigger] positions@[k]) < n,
        decreases positions@.len() - i,
    {
        if positions[i] >= n {
            return false;
        }
        i += 1;
    }
    true
}

impl Table {
    /// The projection with each `*` replaced, where it stands, by the names
    /// of all columns in declared order.
    pub fn expand_projection(&self, projection: &[String]) -> (r: Vec<String>)
        ensures
            texts_of(r@) == expanded(texts_of(projection@), self.header_names()),
    {
        proof {
            reveal_strlit("*");
            assert("*"@ =~= seq!['*']);
        }
        let ghost names = texts_of(projection@);
        let ghost headers = self.header_names();
        let mut out: Vec<String> = Vec::new();
        let mut i: usize = 0;
        assert(names.take(0) =~= Seq::<Seq<char>>::empty());
        assert(texts_of(out@) =~= Seq::<Seq<char>>::empty());
        while i < projection.len()
            invariant
                0 <= i <= projection@.len(),
                names == texts_of(projection@),
                headers == self.header_names(),
                "*"@ == seq!['*'],
                texts_of(out@) == expanded(names.take(i as int), headers),
            decreases projection@.len() - i,
        {
            proof {
                assert(names.take(i + 1).drop_last() =~= names.take(i as int));
                assert(names.take(i + 1).last() == projection@[i as int]@);
            }
            if text_eq(projection[i].as_str(), "*") {
                let ghost base = texts_of(out@);
                let mut j: usize = 0;
                assert(base + headers.take(0) =~= base);
                while j < self.columns.len()
                    invariant
                        0 <= j <= self.columns@.len(),
                        headers == self.header_names(),
                        texts_of(out@) == base + headers.take(j as int),
                    decreases self.columns@.len() - j,
                {
                    let ghost so_far = texts_of(out@);
                    out.push(self.columns[j].name.clone());
                    proof {
                        assert(headers.take(j + 1) =~= headers.take(j as int).push(headers[j as int]));
                        assert(texts_of(out@) =~= so_far.push(headers[j as int]));
                        assert(so_far.push(headers[j as int]) =~= base + headers.take(j + 1));
                    }
                    j += 1;
                }
                assert(headers.take(self.columns@.len() as int) =~= headers);
            } else {
                let ghost base = texts_of(out@);
                out.push(projection[i].clone());
                assert(texts_of(out@) =~= base.push(projection@[i as int]@));
            }
            i += 1;
        }
        assert(names.take(projection@.len() as int) =~= names);
        out
    }

    /// Why the selection of `names` under `wheres` cannot be made, if it
    /// cannot. In this order: a projected name without a column; a
    /// predicate on a name without a column; a predicate that needs a scan
    /// of a store that takes no values, or that cannot read the literal; a
    /// literal that the index cannot read; a projected column that takes no
    /// values; projected columns that do not hold the rows asked for.
    pub open spec fn select_failure(
        &self,
        names: Seq<Seq<char>>,
        wheres: Seq<Expression>,
        floats: &FloatReadings,
    ) -> Option<Failure> {
        if let Some(i) = self.first_unknown(names, 0) {
            Some(Failure::UnknownColumn(names[i]))
        } else if wheres.len() > 0 && self.header_at(wheres[0].left@) is None {
            Some(Failure::UnknownColumn(wheres[0].left@))
        } else if wheres.len() > 0 && !self.header(wheres[0].left@).is_indexed && self.store(
            wheres[0].left@,
        ) is Absent {
            Some(Failure::TypeMismatch(wheres[0].left@))
        } else if wheres.len() > 0 && !self.header(wheres[0].left@).is_indexed && self.store(
            wheres[0].left@,
        ).cell_of(wheres[0].right@, floats) is None {
            Some(Failure::ParseError(unreadable_text(wheres[0].right@)))
        } else if wheres.len() > 0 && self.matched(wheres[0], floats) is Err {
            Some(Failure::ParseError(self.matched(wheres[0], floats)->Err_0))
        } else if let Some(i) = self.first_absent(names, 0) {
            Some(Failure::TypeMismatch(names[i]))
        } else if !self.can_answer(names, wheres, floats) {
            Some(Failure::Internal(ragged_text()))
        } else {
            None
        }
    }

    /// Makes the selection `sq`, with each `*` of its projection replaced by
    /// all columns, if nothing stands against it, and says what does
    /// otherwise. The limit and the offset of `sq` are not applied.
    #[verifier::loop_isolation(false)]
    pub fn try_select(&self, sq: &SelectQuery, floats: &FloatReadings) -> (r: Result<
        Vec<Vec<String>>,
        EngineError,
    >)
        requires
            self.wf(),
        ensures
            ({
                let names = expanded(texts_of(sq.projection@), self.header_names());
                match r {
                    Ok(rows) => self.select_failure(names, sq.where_expressions@, floats) is None
                        && self.can_answer(names, sq.where_expressions@, floats) && self.answer(
                        names,
                        sq.where_expressions@,
                        floats,
                    ) == Ok::<Seq<Seq<Seq<char>>>, Seq<char>>(grid_of(rows@)),
                    Err(e) => self.select_failure(names, sq.where_expressions@, floats) == Some(e@),
                }
            }),
    {
        let projection = self.expand_projection(sq.projection.as_slice());
        let ghost names = texts_of(projection@);
        let ghost wheres = sq.where_expressions@;
        match self.find_unknown(projection.as_slice()) {
            Some(i) => {
                return Err(EngineError::UnknownColumn(projection[i].clone()));
            },
            None => {},
        }
        proof {
            assert forall|c: int| 0 <= c < projection@.len() implies self.store_at(
                #[trigger] projection@[c]@,
            ) is Some by {
                self.lemma_header_has_store(projection@[c]@);
            }
            assert forall|c: int| 0 <= c < names.len() implies self.store_at(
                #[trigger] names[c],
            ) is Some by {
                assert(names[c] == projection@[c]@);
            }
        }
        if sq.where_expressions.len() > 0 {
            let w = &sq.where_expressions[0];
            let hi = match self.find_header(w.left.as_str()) {
                Some(hi) => hi,
                None => {
                    return Err(EngineError::UnknownColumn(w.left.clone()));
                },
            };
            proof {
                self.lemma_header_has_store(w.left@);
            }
            if !self.columns[hi].is_indexed {
                let si = self.find_store(w.left.as_str()).unwrap();
                if self.rows[si].data.is_absent() {
                    return Err(EngineError::TypeMismatch(w.left.clone()));
                }
                if !self.rows[si].data.reads(w.right.as_str(), floats) {
                    return Err(unreadable(w.right.as_str()));
                }
            }
            let positions = match self.matching_rows(w, floats) {
                Ok(positions) => positions,
                Err(said) => {
                    return Err(EngineError::ParseError(said));
                },
            };
            match self.find_absent(projection.as_slice()) {
                Some(i) => {
                    assert(names[i as int] == projection@[i as int]@);
                    return Err(EngineError::TypeMismatch(projection[i].clone()));
                },
                None => {},
            }
            let mut c: usize = 0;
            while c < projection.len()
                invariant
                    0 <= c <= projection@.len(),
                    forall|k: int|
                        0 <= k < c ==> forall|i: int|
                            0 <= i < positions@.len() ==> (#[trigger] positions@[i]) < self.store(
                                #[trigger] names[k],
                            ).cells().len(),
                decreases projection@.len() - c,
            {
                assert(names[c as int] == projection@[c as int]@);
                let si = self.find_store(projection[c].as_str()).unwrap();
                if !positions_below(positions.as_slice(), self.rows[si].data.count()) {
                    assert(!self.can_fetch(names, positions@));
                    return Err(
                        EngineError::Internal(
                            String::from_str("the projected columns differ in length"),
                        ),
                    );
                }
                c += 1;
            }
            assert(self.can_fetch(names, positions@)) by {
                assert forall|c: int| 0 <= c < names.len() implies !(self.store(
                    #[trigger] names[c],
                ) is Absent) by {
                    assert(names[c] == projection@[c]@);
                }
            }
            let data = self.select_data(projection.as_slice(), positions.as_slice());
            proof {
                assert forall|c: int| 0 <= c < data@.len() implies (#[trigger] data@[c])@.len()
                    >= positions@.len() by {
                    assert(texts_of(data@[c]@) == grid_of(data@)[c]);
                }
            }
            Ok(Self::rows_from(data.as_slice(), positions.len()))
        } else {
            match self.find_absent(projection.as_slice()) {
                Some(i) => {
                    assert(names[i as int] == projection@[i as int]@);
                    return Err(EngineError::TypeMismatch(projection[i].clone()));
                },
                None => {},
            }
            assert(self.can_fetch(names, Seq::empty())) by {
                assert forall|c: int| 0 <= c < names.len() implies !(self.store(
                    #[trigger] names[c],
                ) is Absent) by {
                    assert(names[c] == projection@[c]@);
                }
            }
            if projection.len() > 0 {
                let first = self.find_store(projection[0].as_str()).unwrap();
                let least = self.rows[first].data.count();
                assert(names[0] == projection@[0]@);
                let mut c: usize = 0;
                while c < projection.len()
                    invariant
                        0 <= c <= projection@.len(),
                        forall|k: int|
                            0 <= k < c ==> self.store(#[trigger] names[k]).cells().len() >= least,
                    decreases projection@.len() - c,
                {
                    assert(names[c as int] == projection@[c as int]@);
                    let si = self.find_store(projection[c].as_str()).unwrap();
                    if self.rows[si].data.count() < least {
                        return Err(
                            EngineError::Internal(
                                String::from_str("the projected columns differ in length"),
                            ),
                        );
                    }
                    c += 1;
                }
            }
            let data = self.dump_data(projection.as_slice());
            proof {
                assert forall|c: int| 0 <= c < data@.len() implies (#[trigger] data@[c])@.len()
                    >= data@[0]@.len() by {
                    assert(texts_of(data@[c]@) == grid_of(data@)[c]);
                    assert(texts_of(data@[0]@) == grid_of(data@)[0]);
                    assert(self.store(names[c]).cells().len() >= self.store(names[0]).cells().len());
                }
            }
            Ok(Self::rotate_2d_vec(data.as_slice()))
        }
    }
}

} // verus!
