//! Filing: what an index holds after keys were filed in it, and what its
//! lookups then find. These are the facts behind the laws of the engine.

use crate::cell::{
    cell_less, cell_text, is_key, lemma_key_less_irreflexive, Cell,
};
use crate::index::{
    above, below, filed, increasing, lemma_lower_bound_splits, lemma_upsert_increasing,
    lower_bound_of, position_of, positions_within, upsert, BoundView, ColumnIndex, Entries,
};
use crate::text::{lemma_bool_text_reads_back, lemma_int_text_reads_back};
use vstd::prelude::*;

verus! {

/// Whether every pair of `s` has a key that an index can hold.
pub open spec fn keyed(s: Entries) -> bool {
    forall|i: int| 0 <= i < s.len() ==> is_key(#[trigger] s[i].0)
}

/// In an index, a position is found under a key exactly if the index holds
/// the pair, and nothing is found exactly if it holds no pair with the key.
pub proof fn lemma_lookup_is_membership(s: Entries, key: Cell)
    requires
        increasing(s),
        keyed(s),
        is_key(key),
    ensures
        forall|p: usize| position_of(s, key) == Some(p) <==> s.contains((key, p)),
        position_of(s, key) is None <==> forall|i: int| 0 <= i < s.len() ==> s[i].0 != key,
{
    lemma_lower_bound_splits(s, key);
    let n = lower_bound_of(s, key);
    assert forall|i: int| 0 <= i < s.len() && s[i].0 == key implies i == n by {
        lemma_key_less_irreflexive(key);
        if i < n {
            assert(cell_less(s[i].0, key));
        } else if i > n {
            assert(cell_less(s[n].0, s[i].0));
            assert(!cell_less(s[n].0, key));
        }
    }
    assert forall|p: usize| position_of(s, key) == Some(p) <==> s.contains((key, p)) by {
        if position_of(s, key) == Some(p) {
            assert(s[n] == (key, p));
        }
        if s.contains((key, p)) {
            let i = choose|i: int| 0 <= i < s.len() && s[i] == (key, p);
            assert(s[i].0 == key);
        }
    }
    if position_of(s, key) is None {
        assert forall|i: int| 0 <= i < s.len() implies s[i].0 != key by {
            if s[i].0 == key {
                assert(i == n);
            }
        }
    }
}

/// After filing `position` under `key`, the index holds that pair, and of
/// the pairs it held before those with another key.
pub proof fn lemma_upsert_members(s: Entries, key: Cell, position: usize)
    requires
        increasing(s),
        keyed(s),
        is_key(key),
    ensures
        forall|e: (Cell, usize)|
            #![trigger upsert(s, key, position).contains(e)]
            #![trigger s.contains(e)]
            upsert(s, key, position).contains(e) <==> (e == (key, position) || (s.contains(e)
                && e.0 != key)),
{
    lemma_lower_bound_splits(s, key);
    lemma_lookup_is_membership(s, key);
    let n = lower_bound_of(s, key);
    let t = upsert(s, key, position);
    let replaced = n < s.len() && s[n].0 == key;
    assert forall|i: int| 0 <= i < s.len() && s[i].0 == key implies i == n && replaced by {
        lemma_key_less_irreflexive(key);
        if i < n {
            assert(cell_less(s[i].0, key));
        } else if i > n {
            assert(cell_less(s[n].0, s[i].0));
            assert(!cell_less(s[n].0, key));
        }
    }
    assert forall|e: (Cell, usize)|
        #![trigger t.contains(e)]
        #![trigger s.contains(e)]
        t.contains(e) <==> (e == (key, position) || (s.contains(e) && e.0 != key)) by {
        if t.contains(e) {
            let i = choose|i: int| 0 <= i < t.len() && t[i] == e;
            if replaced {
                if i != n {
                    assert(s[i] == e);
                }
            } else {
                if i < n {
                    assert(s[i] == e);
                } else if i > n {
                    assert(s[i - 1] == e);
                }
            }
        }
        if e == (key, position) {
            assert(t[n] == e);
        }
        if s.contains(e) && e.0 != key {
            let i = choose|i: int| 0 <= i < s.len() && s[i] == e;
            if replaced {
                assert(t[i] == e);
            } else {
                if i < n {
                    assert(t[i] == e);
                } else {
                    assert(t[i + 1] == e);
                }
            }
        }
    }
}

/// After filing `position` under `key`, a lookup of `key` finds `position`
/// and a lookup of any other key finds what it found before.
pub proof fn lemma_upsert_lookup(s: Entries, key: Cell, position: usize, other: Cell)
    requires
        increasing(s),
        keyed(s),
        is_key(key),
        is_key(other),
    ensures
        position_of(upsert(s, key, position), other) == if other == key {
            Some(position)
        } else {
            position_of(s, other)
        },
{
    let t = upsert(s, key, position);
    lemma_upsert_increasing(s, key, position);
    lemma_upsert_members(s, key, position);
    lemma_lookup_is_membership(s, other);
    lemma_lookup_is_membership(t, other);
    if other == key {
        assert(t.contains((key, position)));
    } else {
        match position_of(s, other) {
            Some(q) => {
                assert(s.contains((other, q)));
                assert(t.contains((other, q)));
            },
            None => {
                if let Some(q) = position_of(t, other) {
                    assert(t.contains((other, q)));
                    assert(s.contains((other, q)));
                    let i = choose|i: int| 0 <= i < s.len() && s[i] == (other, q);
                    assert(s[i].0 == other);
                }
            },
        }
    }
}

/// Whether every cell of `cells` can be an index key.
pub open spec fn all_keys(cells: Seq<Cell>) -> bool {
    forall|i: int| 0 <= i < cells.len() ==> is_key(#[trigger] cells[i])
}

/// The last place of `key` in `cells`, if it has one.
pub open spec fn last_at(cells: Seq<Cell>, key: Cell) -> Option<int>
    decreases cells.len(),
{
    if cells.len() == 0 {
        None
    } else if cells.last() == key {
        Some(cells.len() - 1)
    } else {
        last_at(cells.drop_last(), key)
    }
}

/// Filing cells one after another keeps an index increasing.
pub proof fn lemma_filed_increasing(entries: Entries, cells: Seq<Cell>, start: int)
    requires
        increasing(entries),
        keyed(entries),
        all_keys(cells),
    ensures
        increasing(filed(entries, cells, start)),
        keyed(filed(entries, cells, start)),
    decreases cells.len(),
{
    if cells.len() > 0 {
        let rest = cells.drop_last();
        assert forall|i: int| 0 <= i < rest.len() implies is_key(#[trigger] rest[i]) by {
            assert(rest[i] == cells[i]);
        }
        lemma_filed_increasing(entries, rest, start);
        assert(is_key(cells[cells.len() - 1]));
        lemma_upsert_increasing(
            filed(entries, rest, start),
            cells.last(),
            (start + cells.len() - 1) as usize,
        );
    }
}

/// After filing `cells` at the positions from `start` on, a lookup of a key
/// finds the position of the last of `cells` that is the key, and where none
/// is, what it found before.
pub proof fn lemma_filed_lookup(entries: Entries, cells: Seq<Cell>, start: int, key: Cell)
    requires
        increasing(entries),
        keyed(entries),
        all_keys(cells),
        is_key(key),
        0 <= start,
        start + cells.len() <= usize::MAX,
    ensures
        position_of(filed(entries, cells, start), key) == match last_at(cells, key) {
            Some(i) => Some((start + i) as usize),
            None => position_of(entries, key),
        },
    decreases cells.len(),
{
    if cells.len() > 0 {
        let rest = cells.drop_last();
        assert forall|i: int| 0 <= i < rest.len() implies is_key(#[trigger] rest[i]) by {
            assert(rest[i] == cells[i]);
        }
        assert(is_key(cells[cells.len() - 1]));
        lemma_filed_increasing(entries, rest, start);
        lemma_filed_lookup(entries, rest, start, key);
        lemma_upsert_lookup(
            filed(entries, rest, start),
            cells.last(),
            (start + cells.len() - 1) as usize,
            key,
        );
    }
}

/// Filing two runs of cells one after the other is filing their
/// concatenation.
pub proof fn lemma_filed_append(entries: Entries, first: Seq<Cell>, second: Seq<Cell>, start: int)
    ensures
        filed(filed(entries, first, start), second, start + first.len()) == filed(
            entries,
            first + second,
            start,
        ),
    decreases second.len(),
{
    if second.len() == 0 {
        assert(first + second =~= first);
    } else {
        lemma_filed_append(entries, first, second.drop_last(), start);
        assert((first + second).drop_last() =~= first + second.drop_last());
        assert((first + second).last() == second.last());
    }
}

/// Whether no two cells of `cells` are the same.
pub open spec fn distinct(cells: Seq<Cell>) -> bool {
    forall|i: int, j: int| 0 <= i < j < cells.len() ==> cells[i] != cells[j]
}

/// Among distinct cells, the last place of the cell at `p` is `p`.
pub proof fn lemma_last_at_distinct(cells: Seq<Cell>, p: int)
    requires
        distinct(cells),
        0 <= p < cells.len(),
    ensures
        last_at(cells, cells[p]) == Some(p),
    decreases cells.len(),
{
    if p < cells.len() - 1 {
        let rest = cells.drop_last();
        assert(cells.last() != cells[p]);
        assert forall|i: int, j: int| 0 <= i < j < rest.len() implies rest[i] != rest[j] by {
            assert(rest[i] == cells[i]);
            assert(rest[j] == cells[j]);
        }
        lemma_last_at_distinct(rest, p);
    }
}

/// The index filled from distinct cells holds, for each row, the pair of
/// its cell and its position, and no other pair.
pub proof fn lemma_filed_members(cells: Seq<Cell>)
    requires
        all_keys(cells),
        distinct(cells),
        cells.len() <= usize::MAX,
    ensures
        forall|e: (Cell, usize)|
            #![trigger filed(Seq::empty(), cells, 0).contains(e)]
            filed(Seq::empty(), cells, 0).contains(e) <==> (e.1 < cells.len() && cells[e.1 as int]
                == e.0),
    decreases cells.len(),
{
    let empty = Seq::<(Cell, usize)>::empty();
    if cells.len() > 0 {
        let rest = cells.drop_last();
        let last = cells.last();
        let at = (cells.len() - 1) as usize;
        assert forall|i: int| 0 <= i < rest.len() implies is_key(#[trigger] rest[i]) by {
            assert(rest[i] == cells[i]);
        }
        assert forall|i: int, j: int| 0 <= i < j < rest.len() implies rest[i] != rest[j] by {
            assert(rest[i] == cells[i]);
            assert(rest[j] == cells[j]);
        }
        assert(is_key(cells[cells.len() - 1]));
        lemma_filed_members(rest);
        lemma_filed_increasing(empty, rest, 0);
        lemma_upsert_members(filed(empty, rest, 0), last, at);
        assert forall|e: (Cell, usize)|
            #![trigger filed(empty, cells, 0).contains(e)]
            filed(empty, cells, 0).contains(e) <==> (e.1 < cells.len() && cells[e.1 as int]
                == e.0) by {
            if e.1 < rest.len() {
                assert(rest[e.1 as int] == cells[e.1 as int]);
                if cells[e.1 as int] == e.0 {
                    assert(e.0 != last);
                    assert(filed(empty, rest, 0).contains(e));
                }
            }
        }
    }
}

/// The pairs of `s` whose key lies between the two ends, in the order of
/// `s`.
pub open spec fn entries_within(s: Entries, lower: BoundView, upper: BoundView) -> Entries
    decreases s.len(),
{
    if s.len() == 0 {
        Seq::empty()
    } else {
        let rest = entries_within(s.drop_last(), lower, upper);
        if above(lower, s.last().0) && below(upper, s.last().0) {
            rest.push(s.last())
        } else {
            rest
        }
    }
}

/// A range lookup gives the positions of the pairs within the range, pair
/// by pair; these pairs are the pairs of the index that lie within the
/// range, and their keys increase.
pub proof fn lemma_positions_within(s: Entries, lower: BoundView, upper: BoundView)
    requires
        increasing(s),
    ensures
        positions_within(s, lower, upper).len() == entries_within(s, lower, upper).len(),
        forall|i: int|
            0 <= i < entries_within(s, lower, upper).len() ==> positions_within(
                s,
                lower,
                upper,
            )[i] == (#[trigger] entries_within(s, lower, upper)[i]).1,
        increasing(entries_within(s, lower, upper)),
        forall|e: (Cell, usize)|
            #![trigger entries_within(s, lower, upper).contains(e)]
            entries_within(s, lower, upper).contains(e) <==> (s.contains(e) && above(lower, e.0)
                && below(upper, e.0)),
    decreases s.len(),
{
    let kept = entries_within(s, lower, upper);
    if s.len() > 0 {
        let rest = s.drop_last();
        let last = s.last();
        assert forall|i: int, j: int| 0 <= i < j < rest.len() implies cell_less(
            #[trigger] rest[i].0,
            #[trigger] rest[j].0,
        ) by {
            assert(rest[i] == s[i]);
            assert(rest[j] == s[j]);
        }
        lemma_positions_within(rest, lower, upper);
        let kept_rest = entries_within(rest, lower, upper);
        let inside = above(lower, last.0) && below(upper, last.0);
        assert forall|e: (Cell, usize)|
            #![trigger kept.contains(e)]
            kept.contains(e) <==> (s.contains(e) && above(lower, e.0) && below(upper, e.0)) by {
            if kept.contains(e) {
                let i = choose|i: int| 0 <= i < kept.len() && kept[i] == e;
                if i < kept_rest.len() {
                    assert(kept_rest[i] == e);
                    assert(kept_rest.contains(e));
                    let w = choose|w: int| 0 <= w < rest.len() && rest[w] == e;
                    assert(s[w] == e);
                } else {
                    assert(s[s.len() - 1] == e);
                }
            }
            if s.contains(e) && above(lower, e.0) && below(upper, e.0) {
                let w = choose|w: int| 0 <= w < s.len() && s[w] == e;
                if w < rest.len() {
                    assert(rest[w] == e);
                    assert(rest.contains(e));
                    assert(kept_rest.contains(e));
                    let i = choose|i: int| 0 <= i < kept_rest.len() && kept_rest[i] == e;
                    assert(kept[i] == e);
                } else {
                    assert(kept[kept.len() - 1] == e);
                }
            }
        }
        assert forall|i: int, j: int| 0 <= i < j < kept.len() implies cell_less(
            #[trigger] kept[i].0,
            #[trigger] kept[j].0,
        ) by {
            if j < kept_rest.len() {
                assert(kept[i] == kept_rest[i]);
                assert(kept[j] == kept_rest[j]);
            } else {
                assert(kept[j] == last);
                assert(kept[i] == kept_rest[i]);
                assert(kept_rest.contains(kept_rest[i]));
                assert(rest.contains(kept_rest[i]));
                let w = choose|w: int| 0 <= w < rest.len() && rest[w] == kept_rest[i];
                assert(s[w] == kept[i]);
                assert(cell_less(s[w].0, s[s.len() - 1].0));
            }
        }
    }
}

/// The index filled from distinct cells holds one entry for each row.
pub proof fn lemma_filed_count(cells: Seq<Cell>)
    requires
        all_keys(cells),
        distinct(cells),
        cells.len() <= usize::MAX,
    ensures
        filed(Seq::empty(), cells, 0).len() == cells.len(),
    decreases cells.len(),
{
    if cells.len() > 0 {
        let rest = cells.drop_last();
        assert forall|i: int| 0 <= i < rest.len() implies is_key(#[trigger] rest[i]) by {
            assert(rest[i] == cells[i]);
        }
        assert forall|i: int, j: int| 0 <= i < j < rest.len() implies rest[i] != rest[j] by {
            assert(rest[i] == cells[i] && rest[j] == cells[j]);
        }
        lemma_filed_count(rest);
        lemma_filed_members(rest);
        let s = filed(Seq::empty(), rest, 0);
        let key = cells.last();
        let n = lower_bound_of(s, key);
        lemma_filed_increasing(Seq::empty(), rest, 0);
        assert(is_key(cells[cells.len() - 1]));
        lemma_lower_bound_splits(s, key);
        if n < s.len() && s[n].0 == key {
            assert(s.contains(s[n]));
            let q = s[n].1;
            assert(rest[q as int] == key);
            assert(cells[q as int] == cells[cells.len() - 1]);
        }
        let position = (cells.len() - 1) as usize;
        assert(filed(Seq::empty(), cells, 0) == upsert(s, key, position));
        assert(upsert(s, key, position) == s.insert(n, (key, position)));
    }
}

/// What an index reads from the text of a cell of its own type is that
/// cell.
pub proof fn lemma_key_of_cell_text(index: ColumnIndex, cell: Cell)
    requires
        index.files(cell),
    ensures
        index.key_of(cell_text(cell)) == Some(cell),
{
    match cell {
        Cell::Int(v) => {
            lemma_int_text_reads_back(v as int);
        },
        Cell::Bool(b) => {
            lemma_bool_text_reads_back(b);
        },
        _ => {},
    }
}

/// Whether `cells` are the cells of a column that the index `index` was
/// filled from: the index files cells of their kind, and holds what filing
/// them gives, each at its position.
pub open spec fn fills(cells: Seq<Cell>, index: ColumnIndex) -> bool {
    &&& !(index is Absent)
    &&& forall|p: int| 0 <= p < cells.len() ==> index.files(#[trigger] cells[p])
    &&& index.entries() == filed(Seq::empty(), cells, 0)
    &&& cells.len() <= usize::MAX
}

/// In an index filled from distinct cells, the text of the cell in row `p`
/// is read as that cell, and the cell is filed at `p`.
pub proof fn lemma_filled_index_finds_row(cells: Seq<Cell>, index: ColumnIndex, p: int)
    requires
        fills(cells, index),
        distinct(cells),
        0 <= p < cells.len(),
    ensures
        index.key_of(cell_text(cells[p])) == Some(cells[p]),
        position_of(index.entries(), cells[p]) == Some(p as usize),
{
    assert(index.files(cells[p]));
    lemma_key_of_cell_text(index, cells[p]);
    assert forall|i: int| 0 <= i < cells.len() implies is_key(#[trigger] cells[i]) by {
        assert(index.files(cells[i]));
    }
    lemma_last_at_distinct(cells, p);
    lemma_filed_lookup(Seq::empty(), cells, 0, cells[p]);
}

/// In an index filled from distinct cells, the positions between two ends
/// are exactly those of the cells between the two ends, each once, and the
/// cells at them increase.
pub proof fn lemma_filled_index_ranges(
    cells: Seq<Cell>,
    index: ColumnIndex,
    lower: BoundView,
    upper: BoundView,
)
    requires
        fills(cells, index),
        distinct(cells),
    ensures
        forall|i: int|
            0 <= i < positions_within(index.entries(), lower, upper).len() ==> (
            #[trigger] positions_within(index.entries(), lower, upper)[i]) < cells.len(),
        forall|p: usize|
            #![trigger positions_within(index.entries(), lower, upper).contains(p)]
            positions_within(index.entries(), lower, upper).contains(p) <==> (p < cells.len()
                && above(lower, cells[p as int]) && below(upper, cells[p as int])),
        forall|i: int, j: int|
            0 <= i < j < positions_within(index.entries(), lower, upper).len() ==> cell_less(
                cells[#[trigger] positions_within(index.entries(), lower, upper)[i] as int],
                cells[#[trigger] positions_within(index.entries(), lower, upper)[j] as int],
            ),
{
    let s = index.entries();
    let r = positions_within(s, lower, upper);
    let kept = entries_within(s, lower, upper);
    assert forall|i: int| 0 <= i < cells.len() implies is_key(#[trigger] cells[i]) by {
        assert(index.files(cells[i]));
    }
    lemma_filed_increasing(Seq::empty(), cells, 0);
    lemma_filed_members(cells);
    lemma_positions_within(s, lower, upper);
    assert forall|i: int| 0 <= i < r.len() implies (#[trigger] r[i]) < cells.len() && cells[r[i] as int]
        == kept[i].0 by {
        assert(kept.contains(kept[i]));
        assert(s.contains(kept[i]));
    }
    assert forall|p: usize|
        #![trigger r.contains(p)]
        r.contains(p) <==> (p < cells.len() && above(lower, cells[p as int]) && below(
            upper,
            cells[p as int],
        )) by {
        if r.contains(p) {
            let i = choose|i: int| 0 <= i < r.len() && r[i] == p;
            assert(kept.contains(kept[i]));
        }
        if p < cells.len() && above(lower, cells[p as int]) && below(upper, cells[p as int]) {
            let e = (cells[p as int], p);
            assert(s.contains(e));
            assert(kept.contains(e));
            let i = choose|i: int| 0 <= i < kept.len() && kept[i] == e;
            assert(r[i] == p);
        }
    }
    assert forall|i: int, j: int| 0 <= i < j < r.len() implies cell_less(
        cells[#[trigger] r[i] as int],
        cells[#[trigger] r[j] as int],
    ) by {
        assert(cell_less(kept[i].0, kept[j].0));
    }
}

} // verus!
