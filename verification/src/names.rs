//! Lookups by name: tables in a database, columns in a table and names in
//! a statement are all found as the first of their name.

use crate::text::{text_eq, texts_of};
use vstd::prelude::*;

verus! {

/// Where `name` first stands in `names`, if anywhere.
pub open spec fn first_named(names: Seq<Seq<char>>, name: Seq<char>) -> Option<int>
    decreases names.len(),
{
    if names.len() == 0 {
        None
    } else if names[0] == name {
        Some(0)
    } else {
        match first_named(names.drop_first(), name) {
            Some(i) => Some(i + 1),
            None => None,
        }
    }
}

/// `first_named` gives the least position that holds the name, and none
/// exactly where no position holds it.
pub proof fn lemma_first_named(names: Seq<Seq<char>>, name: Seq<char>)
    ensures
        match first_named(names, name) {
            Some(i) => 0 <= i < names.len() && names[i] == name && forall|j: int|
                0 <= j < i ==> names[j] != name,
            None => forall|j: int| 0 <= j < names.len() ==> names[j] != name,
        },
    decreases names.len(),
{
    if names.len() > 0 && names[0] != name {
        let rest = names.drop_first();
        lemma_first_named(rest, name);
        match first_named(rest, name) {
            Some(i) => {
                assert forall|j: int| 0 <= j < i + 1 implies names[j] != name by {
                    if j > 0 {
                        assert(rest[j - 1] == names[j]);
                    }
                }
            },
            None => {
                assert forall|j: int| 0 <= j < names.len() implies names[j] != name by {
                    if j > 0 {
                        assert(rest[j - 1] == names[j]);
                    }
                }
            },
        }
    }
}

/// A position that holds the name and has none before it that does is the
/// one `first_named` gives.
pub proof fn lemma_first_named_is(names: Seq<Seq<char>>, name: Seq<char>, i: int)
    requires
        0 <= i < names.len(),
        names[i] == name,
        forall|j: int| 0 <= j < i ==> names[j] != name,
    ensures
        first_named(names, name) == Some(i),
{
    lemma_first_named(names, name);
    match first_named(names, name) {
        Some(k) => {
            if k < i {
                assert(names[k] != name);
            }
        },
        None => {
            assert(names[i] != name);
        },
    }
}

/// Where `name` first stands among `names`.
pub fn position_in(names: &[String], name: &str) -> (r: Option<usize>)
    ensures
        match r {
            Some(i) => first_named(texts_of(names@), name@) == Some(i as int) && i < names@.len(),
            None => first_named(texts_of(names@), name@) is None,
        },
{
    let mut i: usize = 0;
    while i < names.len()
        invariant
            0 <= i <= names@.len(),
            forall|j: int| 0 <= j < i ==> texts_of(names@)[j] != name@,
        decreases names@.len() - i,
    {
        if text_eq(names[i].as_str(), name) {
            proof {
                lemma_first_named_is(texts_of(names@), name@, i as int);
            }
            return Some(i);
        }
        i += 1;
    }
    proof {
        lemma_first_named(texts_of(names@), name@);
    }
    None
}

/// How often `name` stands among the first `n` of `names`.
pub open spec fn occurrences(names: Seq<Seq<char>>, name: Seq<char>, n: int) -> int
    decreases n,
{
    if n <= 0 {
        0
    } else {
        occurrences(names, name, n - 1) + if names[n - 1] == name {
            1int
        } else {
            0int
        }
    }
}

} // verus!
