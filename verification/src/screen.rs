//! Which SQL texts are not handed to the parser: those in which the keywords
//! `GRANTED BY` stand without an identifier after them, and those whose
//! tokens nest too deeply.
//!
//! The parser unwinds on the first where it stands in a statement that
//! grants or revokes, and it descends once for each level that the tokens
//! of a statement open, further than a small stack holds for the second.
//! The text is judged by the kinds of its tokens.

use vstd::prelude::*;

verus! {

/// What a token is to the question whether `GRANTED BY` is followed by an
/// identifier.
#[derive(Debug, Clone, Copy, PartialEq, Eq, Structural)]
pub enum TokenKind {
    /// The keyword `GRANTED`.
    Granted,
    /// The keyword `BY`.
    By,
    /// Any other word, quoted or not, and a string in single or double
    /// quotes: with the two keywords, what can stand as an identifier.
    Name,
    /// White space or a comment.
    Space,
    /// Anything else.
    Other,
}

/// The tokens that count: all but white space and comments, in order.
pub open spec fn spoken(kinds: Seq<TokenKind>) -> Seq<TokenKind>
    decreases kinds.len(),
{
    if kinds.len() == 0 {
        Seq::empty()
    } else if kinds.last() == TokenKind::Space {
        spoken(kinds.drop_last())
    } else {
        spoken(kinds.drop_last()).push(kinds.last())
    }
}

/// Whether at `i` in `said` the keywords `GRANTED BY` stand and are
/// followed by the end, or by what cannot stand as an identifier.
pub open spec fn unnamed_at(said: Seq<TokenKind>, i: int) -> bool {
    &&& 0 <= i
    &&& i + 1 < said.len()
    &&& said[i] == TokenKind::Granted
    &&& said[i + 1] == TokenKind::By
    &&& i + 2 == said.len() || said[i + 2] == TokenKind::Other
}

/// Whether somewhere in `said` the keywords `GRANTED BY` are followed by
/// the end, or by what cannot stand as an identifier.
pub open spec fn grantor_unnamed(said: Seq<TokenKind>) -> bool {
    exists|i: int| unnamed_at(said, i)
}

/// The tokens that count among `kinds`.
pub fn without_spaces(kinds: &[TokenKind]) -> (r: Vec<TokenKind>)
    ensures
        r@ == spoken(kinds@),
{
    let mut said: Vec<TokenKind> = Vec::new();
    let mut i: usize = 0;
    assert(kinds@.take(0) =~= Seq::<TokenKind>::empty());
    while i < kinds.len()
        invariant
            0 <= i <= kinds@.len(),
            said@ == spoken(kinds@.take(i as int)),
        decreases kinds@.len() - i,
    {
        proof {
            assert(kinds@.take(i + 1).drop_last() =~= kinds@.take(i as int));
            assert(kinds@.take(i + 1).last() == kinds@[i as int]);
        }
        match kinds[i] {
            TokenKind::Space => {},
            kind => {
                said.push(kind);
            },
        }
        i += 1;
    }
    assert(kinds@.take(kinds@.len() as int) =~= kinds@);
    said
}

/// Whether somewhere in `said` the keywords `GRANTED BY` are followed by
/// the end, or by what cannot stand as an identifier.
pub fn names_no_grantor(said: &[TokenKind]) -> (r: bool)
    ensures
        r == grantor_unnamed(said@),
{
    let mut i: usize = 0;
    while i < said.len()
        invariant
            0 <= i <= said@.len(),
            forall|j: int| 0 <= j < i ==> !unnamed_at(said@, j),
        decreases said@.len() - i,
    {
        if i + 1 < said.len() {
            let here = match said[i] {
                TokenKind::Granted => true,
                _ => false,
            };
            let next = match said[i + 1] {
                TokenKind::By => true,
                _ => false,
            };
            if here && next {
                if i + 2 == said.len() {
                    assert(unnamed_at(said@, i as int));
                    return true;
                }
                match said[i + 2] {
                    TokenKind::Other => {
                        assert(unnamed_at(said@, i as int));
                        return true;
                    },
                    _ => {},
                }
            }
        }
        i += 1;
    }
    false
}

/// What is said of a text in which `GRANTED BY` names no grantor.
pub open spec fn not_parsed_text() -> Seq<char> {
    "sql parser error: GRANTED BY without an identifier"@
}

/// What a token is to the question how deeply a text nests.
#[derive(Debug, Clone, Copy, PartialEq, Eq, Structural)]
pub enum NestKind {
    /// What opens nothing: white space, a comment, a number, a string in
    /// quotes, and a word that is no keyword.
    Leaf,
    /// `(`.
    Open,
    /// `)`.
    Close,
    /// `,`.
    Comma,
    /// `;`.
    End,
    /// `[` or `{`.
    Bracket,
    /// A keyword after which a whole statement may follow: `EXPLAIN`,
    /// `DESCRIBE`, `PREPARE`.
    Statement,
    /// A keyword that joins two queries: `UNION`, `EXCEPT`, `INTERSECT`.
    Joining,
    /// Anything else: every other keyword, operator and sign.
    Other,
}

/// The most that the tokens of a statement may weigh where they lie
/// deepest.
pub const NEST_LIMIT: usize = 48;

/// How deep one is in a statement: the weight of what is open, and for
/// each `(` that is not yet closed the weight that was open before it and
/// the weight that stays open after an item of its list.
pub struct Nesting {
    pub held: Seq<(nat, nat)>,
    pub load: nat,
}

/// What a token adds to the weight of what is open: `(`, `[` and `{` two,
/// a keyword that a statement may follow six, any other keyword, operator
/// or sign one.
pub open spec fn weight(kind: NestKind) -> nat {
    match kind {
        NestKind::Open | NestKind::Bracket => 2,
        NestKind::Statement => 6,
        NestKind::Joining | NestKind::Other => 1,
        _ => 0,
    }
}

/// How deep one is after a token of kind `kind`, having been `before` it.
///
/// `(` keeps the weight before it and adds its own. `)` goes back to the
/// weight before its `(`. `,` goes back to the weight just after the `(`
/// that it stands in, or just after the last keyword in it that joins
/// queries: what was opened since is closed. Outside every `(` neither
/// changes anything. `;` ends the statement. Any other token adds its
/// weight.
pub open spec fn nested(before: Nesting, kind: NestKind) -> Nesting {
    match kind {
        NestKind::Open => Nesting {
            held: before.held.push((before.load, before.load + weight(kind))),
            load: before.load + weight(kind),
        },
        NestKind::Close => if before.held.len() > 0 {
            Nesting { held: before.held.drop_last(), load: before.held.last().0 }
        } else {
            before
        },
        NestKind::Comma => if before.held.len() > 0 {
            Nesting { held: before.held, load: before.held.last().1 }
        } else {
            before
        },
        NestKind::Joining => if before.held.len() > 0 {
            Nesting {
                held: before.held.drop_last().push(
                    (before.held.last().0, before.load + weight(kind)),
                ),
                load: before.load + weight(kind),
            }
        } else {
            Nesting { held: before.held, load: before.load + weight(kind) }
        },
        NestKind::End => Nesting { held: Seq::empty(), load: 0 },
        _ => Nesting { held: before.held, load: before.load + weight(kind) },
    }
}

/// How deep one is after the tokens of these kinds.
pub open spec fn nesting(kinds: Seq<NestKind>) -> Nesting
    decreases kinds.len(),
{
    if kinds.len() == 0 {
        Nesting { held: Seq::empty(), load: 0 }
    } else {
        nested(nesting(kinds.drop_last()), kinds.last())
    }
}

/// Whether after the first `n` tokens more is open than the limit allows.
pub open spec fn too_deep_at(kinds: Seq<NestKind>, n: int) -> bool {
    0 <= n <= kinds.len() && nesting(kinds.take(n)).load > NEST_LIMIT
}

/// Whether somewhere in the text more is open than the limit allows.
pub open spec fn too_deep(kinds: Seq<NestKind>) -> bool {
    exists|n: int| too_deep_at(kinds, n)
}

/// What is said of a text that nests too deeply.
pub open spec fn too_deep_text() -> Seq<char> {
    "sql parser error: statement nested too deeply"@
}

/// The pairs of numbers as pairs of natural numbers.
pub open spec fn as_nats(v: Seq<(usize, usize)>) -> Seq<(nat, nat)> {
    Seq::new(v.len(), |k: int| (v[k].0 as nat, v[k].1 as nat))
}

/// Whether somewhere in the text more is open than the limit allows.
#[verifier::loop_isolation(false)]
pub fn nests_too_deep(kinds: &[NestKind]) -> (r: bool)
    ensures
        r == too_deep(kinds@),
{
    let mut held: Vec<(usize, usize)> = Vec::new();
    let mut load: usize = 0;
    let mut i: usize = 0;
    assert(kinds@.take(0) =~= Seq::<NestKind>::empty());
    assert(as_nats(held@) =~= Seq::<(nat, nat)>::empty());
    while i < kinds.len()
        invariant
            0 <= i <= kinds@.len(),
            load <= NEST_LIMIT,
            forall|k: int| 0 <= k < held@.len() ==> (#[trigger] held@[k]).0 <= NEST_LIMIT,
            forall|k: int| 0 <= k < held@.len() ==> (#[trigger] held@[k]).1 <= NEST_LIMIT,
            as_nats(held@) == nesting(kinds@.take(i as int)).held,
            load as nat == nesting(kinds@.take(i as int)).load,
            forall|n: int| 0 <= n <= i ==> !too_deep_at(kinds@, n),
        decreases kinds@.len() - i,
    {
        let ghost was = held@;
        let before = load;
        let mut base: Option<usize> = None;
        proof {
            assert(kinds@.take(i + 1).drop_last() =~= kinds@.take(i as int));
            assert(kinds@.take(i + 1).last() == kinds@[i as int]);
            if was.len() > 0 {
                assert(as_nats(was).last() == (was.last().0 as nat, was.last().1 as nat));
            }
        }
        match kinds[i] {
            NestKind::Leaf => {},
            NestKind::Open => {
                load = load + 2;
                base = Some(before);
            },
            NestKind::Close => {
                match held.pop() {
                    Some(level) => {
                        load = level.0;
                        assert(as_nats(held@) =~= as_nats(was).drop_last());
                    },
                    None => {},
                }
            },
            NestKind::Comma => {
                if held.len() > 0 {
                    load = held[held.len() - 1].1;
                }
            },
            NestKind::Joining => {
                load = load + 1;
                match held.pop() {
                    Some(level) => {
                        base = Some(level.0);
                        assert(as_nats(held@) =~= as_nats(was).drop_last());
                    },
                    None => {},
                }
            },
            NestKind::End => {
                held = Vec::new();
                load = 0;
                assert(as_nats(held@) =~= Seq::<(nat, nat)>::empty());
            },
            NestKind::Bracket => {
                load = load + 2;
            },
            NestKind::Statement => {
                load = load + 6;
            },
            NestKind::Other => {
                load = load + 1;
            },
        }
        assert(load as nat == nesting(kinds@.take(i + 1)).load);
        if load > NEST_LIMIT {
            assert(too_deep_at(kinds@, i + 1));
            return true;
        }
        match base {
            Some(under) => {
                let ghost so_far = held@;
                held.push((under, load));
                assert(as_nats(held@) =~= as_nats(so_far).push((under as nat, load as nat)));
            },
            None => {},
        }
        assert(as_nats(held@) == nesting(kinds@.take(i + 1)).held);
        i += 1;
    }
    assert forall|n: int| !too_deep_at(kinds@, n) by {
        if 0 <= n <= kinds@.len() {
            assert(!too_deep_at(kinds@, n));
        }
    }
    false
}

} // verus!
