//! The ordered index of a column: from the typed value of a cell to the
//! position of the row that holds it, with point and range lookups.

use crate::cell::{
    cell_less, is_key, lemma_key_less_irreflexive, lemma_key_less_total,
    lemma_key_less_transitive, Cell, Key,
};
use crate::datatype::DataType;
use crate::parser::select::Binary;
use crate::text::{
    bool_failure_message, bool_failure_text, int_failure, int_failure_message, int_failure_text,
    parse_bool, parse_bool_text, parse_i32, parse_int,
};
use vstd::prelude::*;

verus! {

/// One pair of an index: a key and the position of its row.
#[derive(Debug, PartialEq)]
pub struct IndexEntry {
    pub key: Key,
    pub position: usize,
}

/// What an index holds, as contracts speak of it: its pairs in key order.
pub type Entries = Seq<(Cell, usize)>;

/// Whether the keys of `s` are strictly increasing.
pub open spec fn increasing(s: Entries) -> bool {
    forall|i: int, j: int| 0 <= i < j < s.len() ==> cell_less(#[trigger] s[i].0, #[trigger] s[j].0)
}

/// How many leading pairs of `s` have a key before `key`. In an increasing
/// `s` this is where `key` stands, or would stand.
pub open spec fn lower_bound_of(s: Entries, key: Cell) -> int
    decreases s.len(),
{
    if s.len() == 0 || !cell_less(s[0].0, key) {
        0
    } else {
        1 + lower_bound_of(s.drop_first(), key)
    }
}

/// The position filed under `key` in `s`, if any.
pub open spec fn position_of(s: Entries, key: Cell) -> Option<usize> {
    let n = lower_bound_of(s, key);
    if n < s.len() && s[n].0 == key {
        Some(s[n].1)
    } else {
        None
    }
}

/// `s` after filing `position` under `key`: the pair replaces the one with
/// that key, or goes where the order puts it.
pub open spec fn upsert(s: Entries, key: Cell, position: usize) -> Entries {
    let n = lower_bound_of(s, key);
    if n < s.len() && s[n].0 == key {
        s.update(n, (key, position))
    } else {
        s.insert(n, (key, position))
    }
}

/// One end of a range of keys.
#[derive(Debug, PartialEq)]
pub enum KeyBound {
    Included(Key),
    Excluded(Key),
    Unbounded,
}

/// The mathematical content of a [`KeyBound`].
pub enum BoundView {
    Included(Cell),
    Excluded(Cell),
    Unbounded,
}

impl View for KeyBound {
    type V = BoundView;

    open spec fn view(&self) -> BoundView {
        match self {
            KeyBound::Included(k) => BoundView::Included(k@),
            KeyBound::Excluded(k) => BoundView::Excluded(k@),
            KeyBound::Unbounded => BoundView::Unbounded,
        }
    }
}

/// Whether `key` is at or above the lower end `lower`.
pub open spec fn above(lower: BoundView, key: Cell) -> bool {
    match lower {
        BoundView::Included(v) => !cell_less(key, v),
        BoundView::Excluded(v) => cell_less(v, key),
        BoundView::Unbounded => true,
    }
}

/// Whether `key` is at or below the upper end `upper`.
pub open spec fn below(upper: BoundView, key: Cell) -> bool {
    match upper {
        BoundView::Included(v) => !cell_less(v, key),
        BoundView::Excluded(v) => cell_less(key, v),
        BoundView::Unbounded => true,
    }
}

/// The positions of the pairs of `s` whose key lies between the two ends, in
/// the order of `s`.
pub open spec fn positions_within(s: Entries, lower: BoundView, upper: BoundView) -> Seq<usize>
    decreases s.len(),
{
    if s.len() == 0 {
        Seq::empty()
    } else {
        let rest = positions_within(s.drop_last(), lower, upper);
        if above(lower, s.last().0) && below(upper, s.last().0) {
            rest.push(s.last().1)
        } else {
            rest
        }
    }
}

/// The two ends that an operator puts around a value.
pub open spec fn bounds_of(op: Binary, v: Cell) -> (BoundView, BoundView) {
    match op {
        Binary::Eq => (BoundView::Included(v), BoundView::Included(v)),
        Binary::NotEq => (BoundView::Excluded(v), BoundView::Excluded(v)),
        Binary::Gt => (BoundView::Excluded(v), BoundView::Unbounded),
        Binary::GtEq => (BoundView::Included(v), BoundView::Unbounded),
        Binary::Lt => (BoundView::Unbounded, BoundView::Excluded(v)),
        Binary::LtEq => (BoundView::Unbounded, BoundView::Included(v)),
    }
}

/// Where the keys before `key` end, `lower_bound_of` says so.
pub proof fn lemma_lower_bound_is(s: Entries, key: Cell, n: int)
    requires
        0 <= n <= s.len(),
        forall|i: int| 0 <= i < n ==> cell_less(#[trigger] s[i].0, key),
        n < s.len() ==> !cell_less(s[n].0, key),
    ensures
        lower_bound_of(s, key) == n,
    decreases n,
{
    if n > 0 {
        assert(cell_less(s[0].0, key));
        let rest = s.drop_first();
        assert forall|i: int| 0 <= i < n - 1 implies cell_less(#[trigger] rest[i].0, key) by {
            assert(rest[i] == s[i + 1]);
        }
        lemma_lower_bound_is(rest, key, n - 1);
    }
}

/// In an increasing sequence, the pairs before `lower_bound_of` have smaller
/// keys and the pairs from there on do not.
pub proof fn lemma_lower_bound_splits(s: Entries, key: Cell)
    requires
        increasing(s),
        forall|i: int| 0 <= i < s.len() ==> is_key(#[trigger] s[i].0),
        is_key(key),
    ensures
        0 <= lower_bound_of(s, key) <= s.len(),
        forall|i: int| 0 <= i < lower_bound_of(s, key) ==> cell_less(#[trigger] s[i].0, key),
        forall|i: int|
            lower_bound_of(s, key) <= i < s.len() ==> !cell_less(#[trigger] s[i].0, key),
    decreases s.len(),
{
    if s.len() == 0 {
    } else if !cell_less(s[0].0, key) {
        assert forall|i: int| 0 <= i < s.len() implies !cell_less(#[trigger] s[i].0, key) by {
            if i > 0 && cell_less(s[i].0, key) {
                assert(cell_less(s[0].0, s[i].0));
                lemma_key_less_transitive(s[0].0, s[i].0, key);
            }
        }
    } else {
        let rest = s.drop_first();
        assert forall|i: int, j: int| 0 <= i < j < rest.len() implies cell_less(
            #[trigger] rest[i].0,
            #[trigger] rest[j].0,
        ) by {
            assert(rest[i] == s[i + 1]);
            assert(rest[j] == s[j + 1]);
        }
        assert forall|i: int| 0 <= i < rest.len() implies is_key(#[trigger] rest[i].0) by {
            assert(rest[i] == s[i + 1]);
        }
        lemma_lower_bound_splits(rest, key);
        let n = lower_bound_of(s, key);
        assert forall|i: int| 0 <= i < n implies cell_less(#[trigger] s[i].0, key) by {
            if i > 0 {
                assert(rest[i - 1] == s[i]);
            }
        }
        assert forall|i: int| n <= i < s.len() implies !cell_less(#[trigger] s[i].0, key) by {
            assert(rest[i - 1] == s[i]);
        }
    }
}

/// Filing a pair keeps the keys increasing.
pub proof fn lemma_upsert_increasing(s: Entries, key: Cell, position: usize)
    requires
        increasing(s),
        forall|i: int| 0 <= i < s.len() ==> is_key(#[trigger] s[i].0),
        is_key(key),
    ensures
        increasing(upsert(s, key, position)),
        forall|i: int|
            0 <= i < upsert(s, key, position).len() ==> is_key(
                #[trigger] upsert(s, key, position)[i].0,
            ),
{
    lemma_lower_bound_splits(s, key);
    let n = lower_bound_of(s, key);
    let t = upsert(s, key, position);
    if n < s.len() && s[n].0 == key {
        assert forall|i: int, j: int| 0 <= i < j < t.len() implies cell_less(
            #[trigger] t[i].0,
            #[trigger] t[j].0,
        ) by {
            assert(t[i].0 == s[i].0);
            assert(t[j].0 == s[j].0);
        }
    } else {
        assert forall|i: int, j: int| 0 <= i < j < t.len() implies cell_less(
            #[trigger] t[i].0,
            #[trigger] t[j].0,
        ) by {
            if j == n {
                assert(t[i] == s[i]);
            } else if i == n {
                assert(t[j] == s[j - 1]);
                assert(!cell_less(s[j - 1].0, key));
                if j - 1 > n {
                    assert(cell_less(s[n].0, s[j - 1].0));
                }
                lemma_key_less_total(s[j - 1].0, key);
                if j - 1 > n && s[j - 1].0 == key {
                    assert(!cell_less(s[n].0, key));
                    lemma_key_less_total(s[n].0, key);
                }
            } else if j < n {
                assert(t[i] == s[i]);
                assert(t[j] == s[j]);
            } else if i < n {
                assert(t[i] == s[i]);
                assert(t[j] == s[j - 1]);
            } else {
                assert(t[i] == s[i - 1]);
                assert(t[j] == s[j - 1]);
            }
        }
        assert forall|i: int| 0 <= i < t.len() implies is_key(#[trigger] t[i].0) by {
            if i < n {
                assert(t[i] == s[i]);
            } else if i > n {
                assert(t[i] == s[i - 1]);
            }
        }
    }
}

/// Pairs of key and position, kept in key order with no key twice.
///
/// The pairs stand in a vector and are found by halving, where an ordered
/// map of the standard library would serve as well: the verifier takes no
/// call of `BTreeMap::range`, which the range lookup would need, and proves
/// nothing of such a map with keys of text.
#[derive(Debug, PartialEq)]
pub struct OrderedIndex {
    pub entries: Vec<IndexEntry>,
}

impl View for OrderedIndex {
    type V = Entries;

    open spec fn view(&self) -> Entries {
        Seq::new(self.entries@.len(), |i: int| (self.entries@[i].key@, self.entries@[i].position))
    }
}

impl OrderedIndex {
    /// The keys are strictly increasing.
    pub open spec fn wf(&self) -> bool {
        increasing(self@)
    }

    /// An index that holds nothing.
    pub fn new() -> (r: OrderedIndex)
        ensures
            r.wf(),
            r@ == Seq::<(Cell, usize)>::empty(),
    {
        let r = OrderedIndex { entries: Vec::new() };
        assert(r@ =~= Seq::<(Cell, usize)>::empty());
        r
    }

    /// The number of pairs.
    pub fn len(&self) -> (r: usize)
        ensures
            r == self@.len(),
    {
        self.entries.len()
    }

    proof fn lemma_keys(&self)
        ensures
            forall|i: int| 0 <= i < self@.len() ==> is_key(#[trigger] self@[i].0),
    {
    }

    /// Where `key` stands, or would stand: the number of pairs before it.
    pub fn lower_bound(&self, key: &Key) -> (r: usize)
        requires
            self.wf(),
        ensures
            r == lower_bound_of(self@, key@),
            r <= self@.len(),
    {
        let mut lo: usize = 0;
        let mut hi: usize = self.entries.len();
        while lo < hi
            invariant
                self.wf(),
                0 <= lo <= hi <= self@.len(),
                self@.len() == self.entries@.len(),
                forall|i: int| 0 <= i < lo ==> cell_less(#[trigger] self@[i].0, key@),
                forall|i: int| hi <= i < self@.len() ==> !cell_less(#[trigger] self@[i].0, key@),
            decreases hi - lo,
        {
            let mid: usize = lo + (hi - lo) / 2;
            assert(self@[mid as int].0 == self.entries@[mid as int].key@);
            if self.entries[mid].key.less(key) {
                proof {
                    self.lemma_keys();
                    assert forall|i: int| 0 <= i < mid + 1 implies cell_less(
                        #[trigger] self@[i].0,
                        key@,
                    ) by {
                        if i < mid {
                            assert(cell_less(self@[i].0, self@[mid as int].0));
                            lemma_key_less_transitive(self@[i].0, self@[mid as int].0, key@);
                        }
                    }
                }
                lo = mid + 1;
            } else {
                proof {
                    self.lemma_keys();
                    assert forall|i: int| mid <= i < self@.len() implies !cell_less(
                        #[trigger] self@[i].0,
                        key@,
                    ) by {
                        if i > mid && cell_less(self@[i].0, key@) {
                            assert(cell_less(self@[mid as int].0, self@[i].0));
                            lemma_key_less_transitive(self@[mid as int].0, self@[i].0, key@);
                        }
                    }
                }
                hi = mid;
            }
        }
        proof {
            lemma_lower_bound_is(self@, key@, lo as int);
        }
        lo
    }

    /// The position filed under `key`, if any.
    pub fn get(&self, key: &Key) -> (r: Option<&usize>)
        requires
            self.wf(),
        ensures
            match r {
                Some(p) => position_of(self@, key@) == Some(*p),
                None => position_of(self@, key@) is None,
            },
    {
        let n = self.lower_bound(key);
        if n < self.entries.len() && self.entries[n].key.same(key) {
            Some(&self.entries[n].position)
        } else {
            None
        }
    }

    /// Whether a position is filed under `key`.
    pub fn contains_key(&self, key: &Key) -> (r: bool)
        requires
            self.wf(),
        ensures
            r == position_of(self@, key@) is Some,
    {
        self.get(key).is_some()
    }

    /// Files `position` under `key`, in place of what was filed there.
    pub fn insert(&mut self, key: Key, position: usize)
        requires
            old(self).wf(),
        ensures
            final(self).wf(),
            final(self)@ == upsert(old(self)@, key@, position),
    {
        let n = self.lower_bound(&key);
        proof {
            self.lemma_keys();
            lemma_upsert_increasing(self@, key@, position);
        }
        if n < self.entries.len() && self.entries[n].key.same(&key) {
            self.entries[n].position = position;
            assert(self@ =~= upsert(old(self)@, key@, position));
        } else {
            self.entries.insert(n, IndexEntry { key, position });
            assert(self@ =~= upsert(old(self)@, key@, position));
        }
    }

    /// Whether the keys are strictly increasing.
    pub fn check(&self) -> (r: bool)
        ensures
            r == self.wf(),
    {
        if self.entries.len() < 2 {
            return true;
        }
        let mut i: usize = 1;
        while i < self.entries.len()
            invariant
                1 <= i <= self.entries@.len(),
                self@.len() == self.entries@.len(),
                forall|a: int, b: int|
                    0 <= a < b < i ==> cell_less(#[trigger] self@[a].0, #[trigger] self@[b].0),
            decreases self.entries@.len() - i,
        {
            assert(self@[i - 1].0 == self.entries@[i - 1].key@);
            assert(self@[i as int].0 == self.entries@[i as int].key@);
            if !self.entries[i - 1].key.less(&self.entries[i].key) {
                return false;
            }
            proof {
                self.lemma_keys();
                assert forall|a: int, b: int| 0 <= a < b < i + 1 implies cell_less(
                    #[trigger] self@[a].0,
                    #[trigger] self@[b].0,
                ) by {
                    if b == i && a < i - 1 {
                        assert(cell_less(self@[a].0, self@[i - 1].0));
                        lemma_key_less_transitive(self@[a].0, self@[i - 1].0, self@[i as int].0);
                    }
                }
            }
            i += 1;
        }
        true
    }

    /// The positions filed under the keys between `lower` and `upper`, in
    /// ascending order of key. The search starts where the lower end
    /// stands and stops at the first key beyond the upper end.
    pub fn range(&self, lower: &KeyBound, upper: &KeyBound) -> (r: Vec<usize>)
        requires
            self.wf(),
        ensures
            r@ == positions_within(self@, lower@, upper@),
    {
        let mut out: Vec<usize> = Vec::new();
        let mut i: usize = match lower {
            KeyBound::Included(v) => self.lower_bound(v),
            KeyBound::Excluded(v) => {
                let n = self.lower_bound(v);
                if n < self.entries.len() && self.entries[n].key.same(v) {
                    n + 1
                } else {
                    n
                }
            },
            KeyBound::Unbounded => 0,
        };
        proof {
            self.lemma_keys();
            assert forall|k: int| 0 <= k < i implies !above(lower@, #[trigger] self@[k].0) by {
                match lower@ {
                    BoundView::Included(v) => {
                        lemma_lower_bound_splits(self@, v);
                    },
                    BoundView::Excluded(v) => {
                        lemma_lower_bound_splits(self@, v);
                        lemma_key_less_total(self@[k].0, v);
                        lemma_key_less_irreflexive(v);
                    },
                    BoundView::Unbounded => {},
                }
            }
            lemma_none_within(self@.take(i as int), lower@, upper@);
        }
        let mut done = false;
        while i < self.entries.len() && !done
            invariant
                0 <= i <= self.entries@.len(),
                self.wf(),
                self@.len() == self.entries@.len(),
                out@ == positions_within(self@.take(i as int), lower@, upper@),
                done ==> forall|k: int| i <= k < self@.len() ==> !below(upper@, #[trigger] self@[k].0),
            decreases self.entries@.len() - i + if done { 0int } else { 1int },
        {
            let key = &self.entries[i].key;
            let over = match lower {
                KeyBound::Included(v) => !key.less(v),
                KeyBound::Excluded(v) => v.less(key),
                KeyBound::Unbounded => true,
            };
            let under = match upper {
                KeyBound::Included(v) => !v.less(key),
                KeyBound::Excluded(v) => key.less(v),
                KeyBound::Unbounded => true,
            };
            if !under {
                proof {
                    self.lemma_keys();
                    assert forall|k: int| i <= k < self@.len() implies !below(
                        upper@,
                        #[trigger] self@[k].0,
                    ) by {
                        if k > i {
                            assert(cell_less(self@[i as int].0, self@[k].0));
                            match upper@ {
                                BoundView::Included(v) => {
                                    lemma_key_less_transitive(v, self@[i as int].0, self@[k].0);
                                },
                                BoundView::Excluded(v) => {
                                    if cell_less(self@[k].0, v) {
                                        lemma_key_less_transitive(
                                            self@[i as int].0,
                                            self@[k].0,
                                            v,
                                        );
                                    }
                                },
                                BoundView::Unbounded => {},
                            }
                        }
                    }
                }
                done = true;
            } else {
                proof {
                    assert(self@.take(i + 1).drop_last() =~= self@.take(i as int));
                    assert(self@.take(i + 1).last() == self@[i as int]);
                }
                if over {
                    out.push(self.entries[i].position);
                }
                i += 1;
            }
        }
        proof {
            let rest = self@.skip(i as int);
            assert forall|k: int| 0 <= k < rest.len() implies !(above(lower@, #[trigger] rest[k].0)
                && below(upper@, rest[k].0)) by {
                assert(rest[k] == self@[i + k]);
            }
            lemma_none_within(rest, lower@, upper@);
            lemma_positions_within_concat(self@.take(i as int), rest, lower@, upper@);
            assert(self@.take(i as int) + rest =~= self@);
        }
        out
    }
}

/// Where no key lies between the two ends, a range lookup gives nothing.
pub proof fn lemma_none_within(s: Entries, lower: BoundView, upper: BoundView)
    requires
        forall|k: int| 0 <= k < s.len() ==> !(above(lower, #[trigger] s[k].0) && below(upper, s[k].0)),
    ensures
        positions_within(s, lower, upper) == Seq::<usize>::empty(),
    decreases s.len(),
{
    if s.len() > 0 {
        let rest = s.drop_last();
        assert forall|k: int| 0 <= k < rest.len() implies !(above(lower, #[trigger] rest[k].0)
            && below(upper, rest[k].0)) by {
            assert(rest[k] == s[k]);
        }
        lemma_none_within(rest, lower, upper);
        assert(s.last() == s[s.len() - 1]);
    }
}

/// A range lookup over two runs of pairs gives what it gives over the
/// first, then what it gives over the second.
pub proof fn lemma_positions_within_concat(
    first: Entries,
    second: Entries,
    lower: BoundView,
    upper: BoundView,
)
    ensures
        positions_within(first + second, lower, upper) == positions_within(first, lower, upper)
            + positions_within(second, lower, upper),
    decreases second.len(),
{
    if second.len() == 0 {
        assert(first + second =~= first);
        assert(positions_within(first, lower, upper) + Seq::<usize>::empty()
            =~= positions_within(first, lower, upper));
    } else {
        lemma_positions_within_concat(first, second.drop_last(), lower, upper);
        assert((first + second).drop_last() =~= first + second.drop_last());
        assert((first + second).last() == second.last());
        let a = positions_within(first, lower, upper);
        let b = positions_within(second.drop_last(), lower, upper);
        assert((a + b).push(second.last().1) =~= a + b.push(second.last().1));
    }
}

/// The index of a column: one ordered index per kind of key, or none for a
/// column that is not indexed.
#[derive(Debug, PartialEq)]
pub enum ColumnIndex {
    Int(OrderedIndex),
    Str(OrderedIndex),
    Bool(OrderedIndex),
    /// No index: the column is not indexed, or holds what cannot be a key.
    Absent,
}

/// The key that an index of integers reads from `text`.
pub open spec fn int_key(text: Seq<char>) -> Option<Cell> {
    match parse_int(text) {
        Some(v) => Some(Cell::Int(v as i32)),
        None => None,
    }
}

/// The key that an index of booleans reads from `text`.
pub open spec fn bool_key(text: Seq<char>) -> Option<Cell> {
    match parse_bool(text) {
        Some(b) => Some(Cell::Bool(b)),
        None => None,
    }
}

impl ColumnIndex {
    /// The pairs of the index in key order; none where there is no index.
    pub open spec fn entries(&self) -> Entries {
        match self {
            ColumnIndex::Int(index) => index@,
            ColumnIndex::Str(index) => index@,
            ColumnIndex::Bool(index) => index@,
            ColumnIndex::Absent => Seq::empty(),
        }
    }

    /// Whether `key` is of the kind that this index files.
    pub open spec fn files(&self, key: Cell) -> bool {
        match self {
            ColumnIndex::Int(_) => key is Int,
            ColumnIndex::Str(_) => key is Str,
            ColumnIndex::Bool(_) => key is Bool,
            ColumnIndex::Absent => false,
        }
    }

    /// The keys are strictly increasing and all of the index's kind.
    pub open spec fn wf(&self) -> bool {
        &&& increasing(self.entries())
        &&& forall|i: int| 0 <= i < self.entries().len() ==> self.files(#[trigger] self.entries()[i].0)
    }

    /// The key that this index reads from `text`: a number, a boolean, or
    /// the text itself. `None` where the text does not write one, and where
    /// there is no index.
    pub open spec fn key_of(&self, text: Seq<char>) -> Option<Cell> {
        match self {
            ColumnIndex::Int(_) => int_key(text),
            ColumnIndex::Str(_) => Some(Cell::Str(text)),
            ColumnIndex::Bool(_) => bool_key(text),
            ColumnIndex::Absent => None,
        }
    }

    /// What a point lookup of `text` gives: the position filed under the
    /// key that `text` writes; nothing where none is filed, and where there
    /// is no index; an error where `text` writes no key of this index.
    pub open spec fn point(&self, text: Seq<char>) -> Result<Option<usize>, Seq<char>> {
        if self is Absent {
            Ok(None)
        } else {
            match self.key_of(text) {
                Some(key) => Ok(position_of(self.entries(), key)),
                None => Err(self.failure_text(text)),
            }
        }
    }

    /// What a range lookup of `text` under `op` gives: the positions filed
    /// under the keys between the ends that `op` puts around the key that
    /// `text` writes, in ascending order of key; nothing where there is no
    /// index; an error where `text` writes no key of this index.
    pub open spec fn range(&self, text: Seq<char>, op: Binary) -> Result<Seq<usize>, Seq<char>> {
        if self is Absent {
            Ok(Seq::empty())
        } else {
            match self.key_of(text) {
                Some(key) => Ok(
                    positions_within(self.entries(), bounds_of(op, key).0, bounds_of(op, key).1),
                ),
                None => Err(self.failure_text(text)),
            }
        }
    }

    /// What is said where `text` writes no key of this index.
    pub open spec fn failure_text(&self, text: Seq<char>) -> Seq<char> {
        match self {
            ColumnIndex::Int(_) => match int_failure(text) {
                Some(failure) => int_failure_text(failure),
                None => Seq::empty(),
            },
            ColumnIndex::Bool(_) => bool_failure_text(),
            _ => Seq::empty(),
        }
    }

    /// Whether the index is well formed.
    pub fn check(&self) -> (r: bool)
        ensures
            r == self.wf(),
    {
        let index = match self {
            ColumnIndex::Int(index) => index,
            ColumnIndex::Str(index) => index,
            ColumnIndex::Bool(index) => index,
            ColumnIndex::Absent => {
                return true;
            },
        };
        if !index.check() {
            return false;
        }
        let mut i: usize = 0;
        while i < index.entries.len()
            invariant
                0 <= i <= index.entries@.len(),
                index@ == self.entries(),
                index@.len() == index.entries@.len(),
                forall|k: int| 0 <= k < i ==> self.files(#[trigger] self.entries()[k].0),
            decreases index.entries@.len() - i,
        {
            assert(index@[i as int].0 == index.entries@[i as int].key@);
            let fits = match (self, &index.entries[i].key) {
                (ColumnIndex::Int(_), Key::Int(_)) => true,
                (ColumnIndex::Str(_), Key::Str(_)) => true,
                (ColumnIndex::Bool(_), Key::Bool(_)) => true,
                _ => false,
            };
            if !fits {
                return false;
            }
            i += 1;
        }
        true
    }

    /// Files `position` under `key`, in place of what was filed there. On a
    /// column without an index this does nothing.
    pub fn insert(&mut self, key: Key, position: usize)
        requires
            old(self).wf(),
            old(self).files(key@) || *old(self) is Absent,
        ensures
            final(self).wf(),
            final(self).entries() == (if *old(self) is Absent {
                old(self).entries()
            } else {
                upsert(old(self).entries(), key@, position)
            }),
            *old(self) is Int <==> *final(self) is Int,
            *old(self) is Str <==> *final(self) is Str,
            *old(self) is Bool <==> *final(self) is Bool,
            *old(self) is Absent <==> *final(self) is Absent,
    {
        proof {
            if !(*self is Absent) {
                lemma_upsert_files(*self, key@, position);
            }
        }
        match self {
            ColumnIndex::Int(index) => {
                index.insert(key, position);
            },
            ColumnIndex::Str(index) => {
                index.insert(key, position);
            },
            ColumnIndex::Bool(index) => {
                index.insert(key, position);
            },
            ColumnIndex::Absent => {},
        }
    }

    /// Point lookup: the position filed under the key that `val` writes.
    /// Fails where `val` writes no key of this index.
    pub fn get_idx_data(&self, val: &String) -> (r: Result<Option<&usize>, String>)
        requires
            self.wf(),
        ensures
            match r {
                Ok(Some(p)) => self.point(val@) == Ok::<Option<usize>, Seq<char>>(Some(*p)),
                Ok(None) => self.point(val@) == Ok::<Option<usize>, Seq<char>>(None),
                Err(e) => self.point(val@) == Err::<Option<usize>, Seq<char>>(e@),
            },
    {
        match self {
            ColumnIndex::Int(index) => match parse_i32(val.as_str()) {
                Ok(v) => Ok(index.get(&Key::Int(v))),
                Err(failure) => Err(int_failure_message(failure)),
            },
            ColumnIndex::Bool(index) => match parse_bool_text(val.as_str()) {
                Some(b) => Ok(index.get(&Key::Bool(b))),
                None => Err(bool_failure_message()),
            },
            ColumnIndex::Str(index) => Ok(index.get(&Key::Str(val.clone()))),
            ColumnIndex::Absent => Ok(None),
        }
    }

    /// The two ends that `op` puts around `val`.
    pub fn get_indexes_from_op(val: Key, op: Binary) -> (r: (KeyBound, KeyBound))
        ensures
            (r.0@, r.1@) == bounds_of(op, val@),
    {
        match op {
            Binary::Eq => (KeyBound::Included(val.duplicate()), KeyBound::Included(val)),
            Binary::NotEq => (KeyBound::Excluded(val.duplicate()), KeyBound::Excluded(val)),
            Binary::Gt => (KeyBound::Excluded(val), KeyBound::Unbounded),
            Binary::GtEq => (KeyBound::Included(val), KeyBound::Unbounded),
            Binary::Lt => (KeyBound::Unbounded, KeyBound::Excluded(val)),
            Binary::LtEq => (KeyBound::Unbounded, KeyBound::Included(val)),
        }
    }

    /// Range lookup: the positions filed under the keys that lie between
    /// the ends which `op` puts around the key that `val` writes, in
    /// ascending order of key. Fails where `val` writes no key of this
    /// index; without an index the result is empty.
    pub fn get_idx_data_by_range(&self, val: &String, op: Binary) -> (r: Result<Vec<usize>, String>)
        requires
            self.wf(),
        ensures
            match r {
                Ok(positions) => self.range(val@, op) == Ok::<Seq<usize>, Seq<char>>(positions@),
                Err(e) => self.range(val@, op) == Err::<Seq<usize>, Seq<char>>(e@),
            },
    {
        match self {
            ColumnIndex::Int(index) => match parse_i32(val.as_str()) {
                Ok(v) => {
                    let ends = Self::get_indexes_from_op(Key::Int(v), op);
                    Ok(index.range(&ends.0, &ends.1))
                },
                Err(failure) => Err(int_failure_message(failure)),
            },
            ColumnIndex::Bool(index) => match parse_bool_text(val.as_str()) {
                Some(b) => {
                    let ends = Self::get_indexes_from_op(Key::Bool(b), op);
                    Ok(index.range(&ends.0, &ends.1))
                },
                None => Err(bool_failure_message()),
            },
            ColumnIndex::Str(index) => {
                let ends = Self::get_indexes_from_op(Key::Str(val.clone()), op);
                Ok(index.range(&ends.0, &ends.1))
            },
            ColumnIndex::Absent => Ok(Vec::new()),
        }
    }
}

/// Filing a key of the index's kind keeps the index well formed.
pub proof fn lemma_upsert_files(index: ColumnIndex, key: Cell, position: usize)
    requires
        index.wf(),
        index.files(key),
    ensures
        increasing(upsert(index.entries(), key, position)),
        forall|i: int|
            0 <= i < upsert(index.entries(), key, position).len() ==> index.files(
                #[trigger] upsert(index.entries(), key, position)[i].0,
            ),
{
    let s = index.entries();
    let t = upsert(s, key, position);
    assert forall|i: int| 0 <= i < s.len() implies is_key(#[trigger] s[i].0) by {
        assert(index.files(s[i].0));
    }
    lemma_upsert_increasing(s, key, position);
    lemma_lower_bound_splits(s, key);
    let n = lower_bound_of(s, key);
    assert forall|i: int| 0 <= i < t.len() implies index.files(#[trigger] t[i].0) by {
        if n < s.len() && s[n].0 == key {
            if i != n {
                assert(t[i] == s[i]);
            }
        } else {
            if i < n {
                assert(t[i] == s[i]);
            } else if i > n {
                assert(t[i] == s[i - 1]);
            }
        }
    }
}

impl ColumnIndex {
    /// The type of key that the index files; `None` where there is no index.
    pub open spec fn datatype(&self) -> Option<DataType> {
        match self {
            ColumnIndex::Int(_) => Some(DataType::Int),
            ColumnIndex::Str(_) => Some(DataType::Str),
            ColumnIndex::Bool(_) => Some(DataType::Bool),
            ColumnIndex::Absent => None,
        }
    }

    /// The type of key, if any, under which a column is indexed: that of the
    /// column if it is a primary key of integers, strings or booleans.
    pub open spec fn datatype_for(datatype: DataType, is_primary_key: bool) -> Option<DataType> {
        if is_primary_key && (datatype is Int || datatype is Str || datatype is Bool) {
            Some(datatype)
        } else {
            None
        }
    }

    /// The empty index of a column of type `datatype`.
    pub fn empty(datatype: DataType, is_primary_key: bool) -> (r: ColumnIndex)
        ensures
            r.wf(),
            r.entries() == Seq::<(Cell, usize)>::empty(),
            r.datatype() == ColumnIndex::datatype_for(datatype, is_primary_key),
    {
        if !is_primary_key {
            return ColumnIndex::Absent;
        }
        match datatype {
            DataType::Int => ColumnIndex::Int(OrderedIndex::new()),
            DataType::Str => ColumnIndex::Str(OrderedIndex::new()),
            DataType::Bool => ColumnIndex::Bool(OrderedIndex::new()),
            DataType::Float => ColumnIndex::Absent,
            DataType::Invalid => ColumnIndex::Absent,
        }
    }
}

impl ColumnIndex {
    /// Whether there is no index.
    pub fn is_absent(&self) -> (r: bool)
        ensures
            r == self is Absent,
    {
        match self {
            ColumnIndex::Absent => true,
            _ => false,
        }
    }

    /// Whether `text` writes a key of this index.
    pub fn reads(&self, text: &str) -> (r: bool)
        ensures
            r == self.key_of(text@) is Some,
    {
        match self {
            ColumnIndex::Int(_) => parse_i32(text).is_ok(),
            ColumnIndex::Str(_) => true,
            ColumnIndex::Bool(_) => parse_bool_text(text).is_some(),
            ColumnIndex::Absent => false,
        }
    }

    /// Whether `key` is of the kind that this index files.
    pub fn takes(&self, key: &Key) -> (r: bool)
        ensures
            r == self.files(key@),
    {
        match (self, key) {
            (ColumnIndex::Int(_), Key::Int(_)) => true,
            (ColumnIndex::Str(_), Key::Str(_)) => true,
            (ColumnIndex::Bool(_), Key::Bool(_)) => true,
            _ => false,
        }
    }
}

/// `entries` after filing each of `cells` in turn, the first at position
/// `start`, the next at the position after it, and so on.
pub open spec fn filed(entries: Entries, cells: Seq<Cell>, start: int) -> Entries
    decreases cells.len(),
{
    if cells.len() == 0 {
        entries
    } else {
        upsert(
            filed(entries, cells.drop_last(), start),
            cells.last(),
            (start + cells.len() - 1) as usize,
        )
    }
}

} // verus!
