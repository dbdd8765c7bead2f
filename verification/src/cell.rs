//! Typed cell values: what a column holds, how two cells compare, and the
//! keys under which an index files them.

use crate::parser::select::Binary;
use crate::text::{
    bool_text, format_bool, format_i32, int_text, lemma_lex_irreflexive, lemma_lex_total,
    lemma_lex_transitive, lex_less, text_eq, text_less,
};
use vstd::prelude::*;

verus! {

/// A 32-bit float as the engine holds it: the bit pattern of its IEEE-754
/// single-precision encoding, and the text that writes it. Whoever makes
/// one is responsible for the two agreeing; the engine orders by `bits` and
/// prints `text`.
#[derive(Debug, PartialEq)]
pub struct FloatValue {
    pub bits: u32,
    pub text: String,
}

/// The mathematical content of a [`FloatValue`].
pub struct FloatView {
    pub bits: u32,
    pub text: Seq<char>,
}

impl View for FloatValue {
    type V = FloatView;

    open spec fn view(&self) -> FloatView {
        FloatView { bits: self.bits, text: self.text@ }
    }
}

/// Whether a bit pattern encodes no number: all exponent bits set and a
/// fraction that is not zero, whatever the sign.
pub open spec fn float_is_nan(bits: u32) -> bool {
    float_magnitude(bits) > 0x7F80_0000
}

/// The bit pattern without its sign bit.
pub open spec fn float_magnitude(bits: u32) -> int {
    if bits >= 0x8000_0000 {
        bits - 0x8000_0000
    } else {
        bits as int
    }
}

/// An integer that grows with the number a bit pattern encodes: the
/// magnitude, negated where the sign bit is set. Both zeros have rank 0.
pub open spec fn float_rank(bits: u32) -> int {
    if bits >= 0x8000_0000 {
        -(bits - 0x8000_0000)
    } else {
        bits as int
    }
}

/// `a < b` on the encoded numbers; false where either encodes no number.
pub open spec fn float_less(a: u32, b: u32) -> bool {
    !float_is_nan(a) && !float_is_nan(b) && float_rank(a) < float_rank(b)
}

/// `a == b` on the encoded numbers; false where either encodes no number.
pub open spec fn float_equal(a: u32, b: u32) -> bool {
    !float_is_nan(a) && !float_is_nan(b) && float_rank(a) == float_rank(b)
}

/// One typed value, as contracts speak of it.
pub enum Cell {
    Int(i32),
    Str(Seq<char>),
    Float(FloatView),
    Bool(bool),
}

/// A number for each kind of cell; cells of different kinds are ordered by it.
pub open spec fn kind_rank(c: Cell) -> int {
    match c {
        Cell::Int(_) => 0,
        Cell::Str(_) => 1,
        Cell::Float(_) => 2,
        Cell::Bool(_) => 3,
    }
}

/// Strict order on cells. Integers by value, strings lexicographically,
/// booleans with `false` before `true`, floats as numbers.
pub open spec fn cell_less(a: Cell, b: Cell) -> bool {
    match (a, b) {
        (Cell::Int(x), Cell::Int(y)) => x < y,
        (Cell::Str(x), Cell::Str(y)) => lex_less(x, y),
        (Cell::Float(x), Cell::Float(y)) => float_less(x.bits, y.bits),
        (Cell::Bool(x), Cell::Bool(y)) => !x && y,
        _ => kind_rank(a) < kind_rank(b),
    }
}

/// Equality as a predicate sees it: floats as numbers, so that the two zeros
/// are equal and what encodes no number equals nothing; every other kind by
/// value.
pub open spec fn cell_equal(a: Cell, b: Cell) -> bool {
    match (a, b) {
        (Cell::Float(x), Cell::Float(y)) => float_equal(x.bits, y.bits),
        _ => a == b,
    }
}

/// Whether `a op b` holds.
pub open spec fn holds(op: Binary, a: Cell, b: Cell) -> bool {
    match op {
        Binary::Eq => cell_equal(a, b),
        Binary::NotEq => !cell_equal(a, b),
        Binary::Lt => cell_less(a, b),
        Binary::LtEq => cell_less(a, b) || cell_equal(a, b),
        Binary::Gt => cell_less(b, a),
        Binary::GtEq => cell_less(b, a) || cell_equal(a, b),
    }
}

/// How a cell is written in a result.
pub open spec fn cell_text(c: Cell) -> Seq<char> {
    match c {
        Cell::Int(v) => int_text(v as int),
        Cell::Str(s) => s,
        Cell::Float(f) => f.text,
        Cell::Bool(b) => bool_text(b),
    }
}

/// Whether a cell can be an index key: every kind but floats.
pub open spec fn is_key(c: Cell) -> bool {
    !(c is Float)
}

/// No key comes before itself.
pub proof fn lemma_key_less_irreflexive(a: Cell)
    requires
        is_key(a),
    ensures
        !cell_less(a, a),
{
    if let Cell::Str(s) = a {
        lemma_lex_irreflexive(s);
    }
}

/// Of two different keys exactly one comes before the other.
pub proof fn lemma_key_less_total(a: Cell, b: Cell)
    requires
        is_key(a),
        is_key(b),
    ensures
        a != b ==> (cell_less(a, b) || cell_less(b, a)),
        !(cell_less(a, b) && cell_less(b, a)),
{
    if let Cell::Str(x) = a {
        if let Cell::Str(y) = b {
            lemma_lex_total(x, y);
        }
    }
}

/// The order on keys is transitive.
pub proof fn lemma_key_less_transitive(a: Cell, b: Cell, c: Cell)
    requires
        is_key(a),
        is_key(b),
        is_key(c),
        cell_less(a, b),
        cell_less(b, c),
    ensures
        cell_less(a, c),
{
    if let Cell::Str(x) = a {
        if let Cell::Str(y) = b {
            if let Cell::Str(z) = c {
                lemma_lex_transitive(x, y, z);
            }
        }
    }
}

impl FloatValue {
    /// A copy of this value.
    pub fn duplicate(&self) -> (r: FloatValue)
        ensures
            r@ == self@,
    {
        FloatValue { bits: self.bits, text: self.text.clone() }
    }

    /// Whether this value encodes no number.
    pub fn is_nan(&self) -> (r: bool)
        ensures
            r == float_is_nan(self.bits),
    {
        let magnitude: u32 = if self.bits >= 0x8000_0000 {
            self.bits - 0x8000_0000
        } else {
            self.bits
        };
        magnitude > 0x7F80_0000
    }

    fn rank(&self) -> (r: i64)
        ensures
            r == float_rank(self.bits),
    {
        if self.bits >= 0x8000_0000 {
            -((self.bits - 0x8000_0000) as i64)
        } else {
            self.bits as i64
        }
    }

    /// Whether `self op other` holds of the two numbers.
    pub fn satisfies(&self, op: Binary, other: &FloatValue) -> (r: bool)
        ensures
            r == holds(op, Cell::Float(self@), Cell::Float(other@)),
    {
        let numbers = !self.is_nan() && !other.is_nan();
        let a: i64 = self.rank();
        let b: i64 = other.rank();
        match op {
            Binary::Eq => numbers && a == b,
            Binary::NotEq => !(numbers && a == b),
            Binary::Lt => numbers && a < b,
            Binary::LtEq => numbers && a <= b,
            Binary::Gt => numbers && a > b,
            Binary::GtEq => numbers && a >= b,
        }
    }
}

/// A float literal together with the value that the caller read from it.
#[derive(Debug, PartialEq)]
pub struct FloatReading {
    pub literal: String,
    pub value: FloatValue,
}

/// The float literals of a statement, read ahead of the engine: the engine
/// does no floating-point work of its own, so where a column of floats takes
/// a literal it looks the literal up here.
#[derive(Debug, PartialEq)]
pub struct FloatReadings {
    pub entries: Vec<FloatReading>,
}

/// The value of the first reading of `literal` among `entries`, if any.
pub open spec fn reading_of(entries: Seq<FloatReading>, literal: Seq<char>) -> Option<FloatView>
    decreases entries.len(),
{
    if entries.len() == 0 {
        None
    } else if entries[0].literal@ == literal {
        Some(entries[0].value@)
    } else {
        reading_of(entries.drop_first(), literal)
    }
}

impl FloatReadings {
    /// The value read from `literal`, if the caller supplied one.
    pub open spec fn read(&self, literal: Seq<char>) -> Option<FloatView> {
        reading_of(self.entries@, literal)
    }

    /// No readings.
    pub fn new() -> (r: FloatReadings)
        ensures
            r.entries@.len() == 0,
            forall|literal: Seq<char>| r.read(literal) is None,
    {
        FloatReadings { entries: Vec::new() }
    }

    /// Adds a reading. An earlier reading of the same literal stays in force.
    pub fn add(&mut self, literal: String, value: FloatValue)
        ensures
            final(self).entries@ == old(self).entries@.push(FloatReading { literal, value }),
            forall|l: Seq<char>|
                #[trigger] final(self).read(l) == if old(self).read(l) is None && l == literal@ {
                    Some(value@)
                } else {
                    old(self).read(l)
                },
    {
        proof {
            let added = FloatReading { literal, value };
            assert forall|l: Seq<char>|
                #[trigger] reading_of(self.entries@.push(added), l) == if reading_of(
                    self.entries@,
                    l,
                ) is None && l == literal@ {
                    Some(value@)
                } else {
                    reading_of(self.entries@, l)
                } by {
                lemma_reading_of_push(self.entries@, added, l);
            }
        }
        self.entries.push(FloatReading { literal, value });
    }

    /// Looks a literal up.
    pub fn find(&self, literal: &str) -> (r: Option<&FloatValue>)
        ensures
            match r {
                Some(v) => self.read(literal@) == Some(v@),
                None => self.read(literal@) is None,
            },
    {
        let mut i: usize = 0;
        assert(self.entries@.skip(0) =~= self.entries@);
        while i < self.entries.len()
            invariant
                0 <= i <= self.entries@.len(),
                reading_of(self.entries@, literal@) == reading_of(
                    self.entries@.skip(i as int),
                    literal@,
                ),
            decreases self.entries@.len() - i,
        {
            if text_eq(self.entries[i].literal.as_str(), literal) {
                return Some(&self.entries[i].value);
            }
            proof {
                assert(self.entries@.skip(i as int).drop_first() =~= self.entries@.skip(i + 1));
            }
            i += 1;
        }
        None
    }
}

proof fn lemma_reading_of_push(entries: Seq<FloatReading>, added: FloatReading, l: Seq<char>)
    ensures
        reading_of(entries.push(added), l) == if reading_of(entries, l) is None && l
            == added.literal@ {
            Some(added.value@)
        } else {
            reading_of(entries, l)
        },
    decreases entries.len(),
{
    let longer = entries.push(added);
    reveal_with_fuel(reading_of, 2);
    if entries.len() == 0 {
        assert(longer.drop_first() =~= Seq::<FloatReading>::empty());
        assert(longer[0] == added);
    } else {
        assert(longer[0] == entries[0]);
        assert(longer.drop_first() =~= entries.drop_first().push(added));
        lemma_reading_of_push(entries.drop_first(), added, l);
    }
}

/// The typed value under which an index files a row.
#[derive(Debug, PartialEq)]
pub enum Key {
    Int(i32),
    Str(String),
    Bool(bool),
}

impl View for Key {
    type V = Cell;

    open spec fn view(&self) -> Cell {
        match self {
            Key::Int(v) => Cell::Int(*v),
            Key::Str(s) => Cell::Str(s@),
            Key::Bool(b) => Cell::Bool(*b),
        }
    }
}

impl Key {
    /// A copy of this key.
    pub fn duplicate(&self) -> (r: Key)
        ensures
            r@ == self@,
    {
        match self {
            Key::Int(v) => Key::Int(*v),
            Key::Str(s) => Key::Str(s.clone()),
            Key::Bool(b) => Key::Bool(*b),
        }
    }

    /// Whether this key comes strictly before `other`.
    pub fn less(&self, other: &Key) -> (r: bool)
        ensures
            r == cell_less(self@, other@),
    {
        match (self, other) {
            (Key::Int(x), Key::Int(y)) => *x < *y,
            (Key::Str(x), Key::Str(y)) => text_less(x.as_str(), y.as_str()),
            (Key::Bool(x), Key::Bool(y)) => !*x && *y,
            (Key::Int(_), _) => true,
            (Key::Str(_), Key::Int(_)) => false,
            (Key::Str(_), Key::Bool(_)) => true,
            (Key::Bool(_), _) => false,
        }
    }

    /// Whether this key and `other` are the same value.
    pub fn same(&self, other: &Key) -> (r: bool)
        ensures
            r == (self@ == other@),
    {
        match (self, other) {
            (Key::Int(x), Key::Int(y)) => *x == *y,
            (Key::Str(x), Key::Str(y)) => text_eq(x.as_str(), y.as_str()),
            (Key::Bool(x), Key::Bool(y)) => *x == *y,
            _ => false,
        }
    }

    /// How this key is written.
    pub fn to_text(&self) -> (r: String)
        ensures
            r@ == cell_text(self@),
    {
        match self {
            Key::Int(v) => format_i32(*v),
            Key::Str(s) => s.clone(),
            Key::Bool(b) => format_bool(*b),
        }
    }
}

} // verus!
