//! Text primitives: the order on strings, and reading and writing of
//! integer and boolean cells.

use vstd::prelude::*;
use vstd::std_specs::iter::IteratorSpec;

verus! {

/// The character sequences of a sequence of strings.
pub open spec fn texts_of(s: Seq<String>) -> Seq<Seq<char>> {
    Seq::new(s.len(), |i: int| s[i]@)
}

/// Strict lexicographic order on character sequences, characters compared by
/// code point. A proper prefix comes before every sequence it is a prefix of.
pub open spec fn lex_less(a: Seq<char>, b: Seq<char>) -> bool
    decreases a.len(),
{
    if b.len() == 0 {
        false
    } else if a.len() == 0 {
        true
    } else if a[0] != b[0] {
        a[0] < b[0]
    } else {
        lex_less(a.drop_first(), b.drop_first())
    }
}

/// No sequence comes before itself.
pub proof fn lemma_lex_irreflexive(a: Seq<char>)
    ensures
        !lex_less(a, a),
    decreases a.len(),
{
    if a.len() > 0 {
        lemma_lex_irreflexive(a.drop_first());
    }
}

/// Of two different sequences exactly one comes before the other.
pub proof fn lemma_lex_total(a: Seq<char>, b: Seq<char>)
    ensures
        a != b ==> (lex_less(a, b) || lex_less(b, a)),
        !(lex_less(a, b) && lex_less(b, a)),
    decreases a.len(),
{
    if a.len() > 0 && b.len() > 0 {
        if a[0] == b[0] {
            lemma_lex_total(a.drop_first(), b.drop_first());
            if a.drop_first() == b.drop_first() {
                assert(a =~= seq![a[0]] + a.drop_first());
                assert(b =~= seq![b[0]] + b.drop_first());
            }
        }
    } else if a.len() == 0 && b.len() == 0 {
        assert(a =~= b);
    }
}

/// The order is transitive.
pub proof fn lemma_lex_transitive(a: Seq<char>, b: Seq<char>, c: Seq<char>)
    requires
        lex_less(a, b),
        lex_less(b, c),
    ensures
        lex_less(a, c),
    decreases a.len(),
{
    if a.len() > 0 {
        if a[0] == b[0] && b[0] == c[0] {
            lemma_lex_transitive(a.drop_first(), b.drop_first(), c.drop_first());
        }
    }
}

/// Whether `a` comes strictly before `b` in lexicographic order.
pub fn text_less(a: &str, b: &str) -> (r: bool)
    ensures
        r == lex_less(a@, b@),
{
    let mut ia = a.chars();
    let mut ib = b.chars();
    let ghost mut i: int = 0;
    loop
        invariant
            0 <= i <= a@.len(),
            i <= b@.len(),
            ia.remaining() == a@.skip(i),
            ib.remaining() == b@.skip(i),
            lex_less(a@, b@) == lex_less(a@.skip(i), b@.skip(i)),
        decreases a@.len() - i,
    {
        let ca = ia.next();
        let cb = ib.next();
        match cb {
            None => {
                return false;
            },
            Some(y) => {
                match ca {
                    None => {
                        return true;
                    },
                    Some(x) => {
                        if x != y {
                            return x < y;
                        }
                        proof {
                            assert(a@.skip(i).drop_first() =~= a@.skip(i + 1));
                            assert(b@.skip(i).drop_first() =~= b@.skip(i + 1));
                            i = i + 1;
                        }
                    },
                }
            },
        }
    }
}

/// Whether `a` and `b` hold the same characters.
pub fn text_eq(a: &str, b: &str) -> (r: bool)
    ensures
        r == (a@ == b@),
{
    let mut ia = a.chars();
    let mut ib = b.chars();
    let ghost mut i: int = 0;
    loop
        invariant
            0 <= i <= a@.len(),
            i <= b@.len(),
            ia.remaining() == a@.skip(i),
            ib.remaining() == b@.skip(i),
            a@.take(i) == b@.take(i),
        decreases a@.len() - i,
    {
        let ca = ia.next();
        let cb = ib.next();
        match (ca, cb) {
            (None, None) => {
                proof {
                    assert(a@ =~= a@.take(i));
                    assert(b@ =~= b@.take(i));
                }
                return true;
            },
            (Some(x), Some(y)) => {
                if x != y {
                    proof {
                        assert(a@[i] == x);
                        assert(b@[i] == y);
                    }
                    return false;
                }
                proof {
                    assert(a@.skip(i).drop_first() =~= a@.skip(i + 1));
                    assert(b@.skip(i).drop_first() =~= b@.skip(i + 1));
                    assert(a@.take(i + 1) =~= a@.take(i).push(x));
                    assert(b@.take(i + 1) =~= b@.take(i).push(y));
                    i = i + 1;
                }
            },
            _ => {
                return false;
            },
        }
    }
}

/// The value of a decimal digit; `None` for any other character.
pub open spec fn digit_of(c: char) -> Option<int> {
    if c == '0' {
        Some(0)
    } else if c == '1' {
        Some(1)
    } else if c == '2' {
        Some(2)
    } else if c == '3' {
        Some(3)
    } else if c == '4' {
        Some(4)
    } else if c == '5' {
        Some(5)
    } else if c == '6' {
        Some(6)
    } else if c == '7' {
        Some(7)
    } else if c == '8' {
        Some(8)
    } else if c == '9' {
        Some(9)
    } else {
        None
    }
}

/// The digit that writes `d`, for `d` from 0 to 9.
pub open spec fn digit_char(d: int) -> char {
    if d == 0 {
        '0'
    } else if d == 1 {
        '1'
    } else if d == 2 {
        '2'
    } else if d == 3 {
        '3'
    } else if d == 4 {
        '4'
    } else if d == 5 {
        '5'
    } else if d == 6 {
        '6'
    } else if d == 7 {
        '7'
    } else if d == 8 {
        '8'
    } else {
        '9'
    }
}

/// Whether every character of `s` is a decimal digit.
pub open spec fn all_digits(s: Seq<char>) -> bool {
    forall|i: int| 0 <= i < s.len() ==> (#[trigger] digit_of(s[i])) is Some
}

/// The number that the digits of `s` write in base ten, most significant
/// digit first. Meant for sequences of digits only.
pub open spec fn digits_value(s: Seq<char>) -> int
    decreases s.len(),
{
    if s.len() == 0 {
        0
    } else {
        digits_value(s.drop_last()) * 10 + digit_of(s.last()).unwrap()
    }
}

/// The 32-bit signed integer that `s` writes: an optional sign, `+` or `-`,
/// then one decimal digit or more, and nothing else. `None` where `s` has
/// another shape or the number does not fit.
pub open spec fn parse_int(s: Seq<char>) -> Option<int> {
    let negative = s.len() > 0 && s[0] == '-';
    let signed = s.len() > 0 && (s[0] == '-' || s[0] == '+');
    let body = if signed {
        s.drop_first()
    } else {
        s
    };
    let v = if negative {
        -digits_value(body)
    } else {
        digits_value(body)
    };
    if body.len() > 0 && all_digits(body) && i32::MIN <= v <= i32::MAX {
        Some(v)
    } else {
        None
    }
}

/// Why a text writes no 32-bit signed integer.
#[derive(Debug, Clone, Copy, PartialEq, Eq, Structural)]
pub enum IntFailure {
    /// The text is empty.
    Empty,
    /// A character is no digit, or a sign stands alone.
    InvalidDigit,
    /// The number is above the largest value.
    PosOverflow,
    /// The number is below the smallest value.
    NegOverflow,
}

/// The first failure met from character `i` of `body` on, reading left to
/// right: a character that is no digit, or a digit with which the number
/// read so far leaves the range.
pub open spec fn first_failure(body: Seq<char>, negative: bool, i: int) -> Option<IntFailure>
    decreases body.len() - i,
{
    if i < 0 || i >= body.len() {
        None
    } else if digit_of(body[i]) is None {
        Some(IntFailure::InvalidDigit)
    } else if negative && digits_value(body.take(i + 1)) > 2147483648 {
        Some(IntFailure::NegOverflow)
    } else if !negative && digits_value(body.take(i + 1)) > 2147483647 {
        Some(IntFailure::PosOverflow)
    } else {
        first_failure(body, negative, i + 1)
    }
}

/// Why `s` writes no 32-bit signed integer; `None` where it writes one.
pub open spec fn int_failure(s: Seq<char>) -> Option<IntFailure> {
    let negative = s.len() > 0 && s[0] == '-';
    let signed = s.len() > 0 && (s[0] == '-' || s[0] == '+');
    let body = if signed {
        s.drop_first()
    } else {
        s
    };
    if s.len() == 0 {
        Some(IntFailure::Empty)
    } else if body.len() == 0 {
        Some(IntFailure::InvalidDigit)
    } else {
        first_failure(body, negative, 0)
    }
}

/// What is said of a failure to read an integer.
pub open spec fn int_failure_text(failure: IntFailure) -> Seq<char> {
    match failure {
        IntFailure::Empty => "cannot parse integer from empty string"@,
        IntFailure::InvalidDigit => "invalid digit found in string"@,
        IntFailure::PosOverflow => "number too large to fit in target type"@,
        IntFailure::NegOverflow => "number too small to fit in target type"@,
    }
}

/// What is said of a failure to read a boolean.
pub open spec fn bool_failure_text() -> Seq<char> {
    "provided string was not `true` or `false`"@
}

/// The decimal digits of `n`, without leading zeros.
pub open spec fn nat_text(n: nat) -> Seq<char>
    decreases n,
{
    if n < 10 {
        seq![digit_char(n as int)]
    } else {
        nat_text(n / 10).push(digit_char((n % 10) as int))
    }
}

/// How an integer is written: a `-` for a negative number, then its digits.
pub open spec fn int_text(v: int) -> Seq<char> {
    if v < 0 {
        seq!['-'] + nat_text((-v) as nat)
    } else {
        nat_text(v as nat)
    }
}

/// The boolean that `s` writes: `true` or `false`, in exactly these letters.
pub open spec fn parse_bool(s: Seq<char>) -> Option<bool> {
    if s == seq!['t', 'r', 'u', 'e'] {
        Some(true)
    } else if s == seq!['f', 'a', 'l', 's', 'e'] {
        Some(false)
    } else {
        None
    }
}

/// How a boolean is written.
pub open spec fn bool_text(b: bool) -> Seq<char> {
    if b {
        seq!['t', 'r', 'u', 'e']
    } else {
        seq!['f', 'a', 'l', 's', 'e']
    }
}

/// A longer run of digits writes a number that is no smaller.
pub proof fn lemma_digits_value_prefix(s: Seq<char>, n: int)
    requires
        all_digits(s),
        0 <= n <= s.len(),
    ensures
        0 <= digits_value(s.take(n)) <= digits_value(s),
    decreases s.len() - n,
{
    if n == s.len() {
        assert(s.take(n) =~= s);
        lemma_digits_value_nonnegative(s);
    } else {
        lemma_digits_value_prefix(s, n + 1);
        assert(s.take(n + 1).drop_last() =~= s.take(n));
        assert(digit_of(s[n]) is Some);
        lemma_digits_value_nonnegative(s.take(n));
    }
}

/// Digits write a number that is not negative.
pub proof fn lemma_digits_value_nonnegative(s: Seq<char>)
    requires
        all_digits(s),
    ensures
        0 <= digits_value(s),
    decreases s.len(),
{
    if s.len() > 0 {
        lemma_digits_value_nonnegative(s.drop_last());
        assert(digit_of(s[s.len() - 1]) is Some);
    }
}

/// The digits written for `n` are digits, at least one, and write `n`.
pub proof fn lemma_nat_text_reads_back(n: nat)
    ensures
        nat_text(n).len() > 0,
        all_digits(nat_text(n)),
        digits_value(nat_text(n)) == n,
    decreases n,
{
    if n < 10 {
        let s = nat_text(n);
        assert(s.drop_last() =~= Seq::<char>::empty());
        assert(digits_value(s.drop_last()) == 0);
    } else {
        lemma_nat_text_reads_back(n / 10);
        let s = nat_text(n);
        assert(s.drop_last() =~= nat_text(n / 10));
    }
}

/// Reading back what was written for an integer gives that integer.
pub proof fn lemma_int_text_reads_back(v: int)
    requires
        i32::MIN <= v <= i32::MAX,
    ensures
        parse_int(int_text(v)) == Some(v),
{
    let s = int_text(v);
    if v < 0 {
        let body = nat_text((-v) as nat);
        lemma_nat_text_reads_back((-v) as nat);
        assert(s.drop_first() =~= body);
    } else {
        lemma_nat_text_reads_back(v as nat);
        lemma_nat_text_first_is_digit(v as nat);
    }
}

/// What is written for a natural number starts with a digit.
pub proof fn lemma_nat_text_first_is_digit(n: nat)
    ensures
        nat_text(n).len() > 0,
        digit_of(nat_text(n)[0]) is Some,
    decreases n,
{
    if n >= 10 {
        lemma_nat_text_first_is_digit(n / 10);
    }
}

/// Reading back what was written for a boolean gives that boolean.
pub proof fn lemma_bool_text_reads_back(b: bool)
    ensures
        parse_bool(bool_text(b)) == Some(b),
{
    if !b {
        assert(seq!['f', 'a', 'l', 's', 'e'][0] == 'f');
        assert(seq!['t', 'r', 'u', 'e'][0] == 't');
    }
}

fn digit_value_of(c: char) -> (r: Option<u8>)
    ensures
        match r {
            Some(d) => digit_of(c) == Some(d as int),
            None => digit_of(c) is None,
        },
{
    if c == '0' {
        Some(0)
    } else if c == '1' {
        Some(1)
    } else if c == '2' {
        Some(2)
    } else if c == '3' {
        Some(3)
    } else if c == '4' {
        Some(4)
    } else if c == '5' {
        Some(5)
    } else if c == '6' {
        Some(6)
    } else if c == '7' {
        Some(7)
    } else if c == '8' {
        Some(8)
    } else if c == '9' {
        Some(9)
    } else {
        None
    }
}

/// The largest magnitude that fits, by sign.
pub open spec fn magnitude_limit(negative: bool) -> int {
    if negative {
        2147483648
    } else {
        2147483647
    }
}

/// Where nothing failed before `i`, nothing fails from `i` on exactly where
/// all are digits and the whole number is in range.
pub proof fn lemma_first_failure_none(body: Seq<char>, negative: bool, i: int)
    requires
        0 <= i <= body.len(),
        all_digits(body.take(i)),
        digits_value(body.take(i)) <= magnitude_limit(negative),
    ensures
        first_failure(body, negative, i) is None <==> (all_digits(body) && digits_value(body)
            <= magnitude_limit(negative)),
    decreases body.len() - i,
{
    if i == body.len() {
        assert(body.take(i) =~= body);
    } else if digit_of(body[i]) is None {
    } else {
        assert forall|j: int| 0 <= j < i + 1 implies (#[trigger] digit_of(body.take(i + 1)[j])) is Some by {
            if j < i {
                assert(body.take(i)[j] == body[j]);
            }
        }
        if all_digits(body) {
            lemma_digits_value_prefix(body, i + 1);
        }
        if digits_value(body.take(i + 1)) <= magnitude_limit(negative) {
            lemma_first_failure_none(body, negative, i + 1);
        }
    }
}

/// Reads a 32-bit signed integer from its decimal text, or says why the text
/// writes none.
pub fn parse_i32(s: &str) -> (r: Result<i32, IntFailure>)
    ensures
        match r {
            Ok(v) => parse_int(s@) == Some(v as int) && int_failure(s@) is None,
            Err(failure) => parse_int(s@) is None && int_failure(s@) == Some(failure),
        },
{
    let mut it = s.chars();
    let negative: bool;
    let limit: i64;
    let mut acc: i64 = 0;
    let ghost body: Seq<char>;
    let ghost mut n: int = 0;
    let first = it.next();
    let mut pending: Option<char>;
    match first {
        None => {
            return Err(IntFailure::Empty);
        },
        Some(c) => {
            if c == '-' || c == '+' {
                negative = c == '-';
                pending = it.next();
                proof {
                    body = s@.drop_first();
                    assert(s@.skip(1) =~= s@.drop_first());
                }
                if pending.is_none() {
                    return Err(IntFailure::InvalidDigit);
                }
            } else {
                negative = false;
                pending = Some(c);
                proof {
                    body = s@;
                    assert(s@.skip(0) =~= s@);
                }
            }
        },
    }
    limit = if negative {
        2147483648
    } else {
        2147483647
    };
    proof {
        assert(body.take(0) =~= Seq::<char>::empty());
        lemma_first_failure_none(body, negative, 0);
    }
    loop
        invariant
            0 <= n <= body.len(),
            body.len() > 0,
            match pending {
                Some(c) => n < body.len() && body[n] == c && it.remaining() == body.skip(n + 1),
                None => n == body.len(),
            },
            all_digits(body.take(n)),
            acc == digits_value(body.take(n)),
            0 <= acc <= limit,
            limit == magnitude_limit(negative),
            first_failure(body, negative, 0) == first_failure(body, negative, n),
            first_failure(body, negative, 0) is None <==> (all_digits(body) && digits_value(body)
                <= limit),
            body == (if s@.len() > 0 && (s@[0] == '-' || s@[0] == '+') {
                s@.drop_first()
            } else {
                s@
            }),
            negative == (s@.len() > 0 && s@[0] == '-'),
            s@.len() > 0,
        decreases body.len() - n,
    {
        match pending {
            None => {
                proof {
                    assert(body.take(n) =~= body);
                }
                if negative {
                    return Ok((-acc) as i32);
                } else {
                    return Ok(acc as i32);
                }
            },
            Some(c) => {
                proof {
                    assert(body.take(n + 1).drop_last() =~= body.take(n));
                }
                match digit_value_of(c) {
                    None => {
                        return Err(IntFailure::InvalidDigit);
                    },
                    Some(d) => {
                        let next: i64 = acc * 10 + d as i64;
                        proof {
                            assert forall|i: int| 0 <= i < n + 1 implies (#[trigger] digit_of(
                                body.take(n + 1)[i],
                            )) is Some by {
                                if i < n {
                                    assert(body.take(n)[i] == body[i]);
                                }
                            }
                        }
                        if next > limit {
                            if negative {
                                return Err(IntFailure::NegOverflow);
                            } else {
                                return Err(IntFailure::PosOverflow);
                            }
                        }
                        acc = next;
                        pending = it.next();
                        proof {
                            n = n + 1;
                            if n < body.len() {
                                assert(body.skip(n).drop_first() =~= body.skip(n + 1));
                            }
                        }
                    },
                }
            },
        }
    }
}

fn digit_text(d: u32) -> (r: &'static str)
    requires
        d < 10,
    ensures
        r@ == seq![digit_char(d as int)],
{
    proof {
        reveal_strlit("0");
        reveal_strlit("1");
        reveal_strlit("2");
        reveal_strlit("3");
        reveal_strlit("4");
        reveal_strlit("5");
        reveal_strlit("6");
        reveal_strlit("7");
        reveal_strlit("8");
        reveal_strlit("9");
    }
    let r: &'static str = if d == 0 {
        "0"
    } else if d == 1 {
        "1"
    } else if d == 2 {
        "2"
    } else if d == 3 {
        "3"
    } else if d == 4 {
        "4"
    } else if d == 5 {
        "5"
    } else if d == 6 {
        "6"
    } else if d == 7 {
        "7"
    } else if d == 8 {
        "8"
    } else {
        "9"
    };
    assert(r@ =~= seq![digit_char(d as int)]);
    r
}

fn push_nat(out: &mut String, n: u32)
    ensures
        final(out)@ == old(out)@ + nat_text(n as nat),
    decreases n,
{
    if n >= 10 {
        push_nat(out, n / 10);
    }
    out.append(digit_text(n % 10));
    proof {
        if n >= 10 {
            assert(old(out)@ + nat_text((n / 10) as nat) + seq![digit_char((n % 10) as int)]
                =~= old(out)@ + nat_text(n as nat));
        }
    }
}

/// Writes a 32-bit signed integer in decimal.
pub fn format_i32(v: i32) -> (r: String)
    ensures
        r@ == int_text(v as int),
{
    let mut out = String::new();
    if v < 0 {
        proof {
            reveal_strlit("-");
        }
        out.append("-");
        let magnitude: u32 = (-(v as i64)) as u32;
        push_nat(&mut out, magnitude);
        assert(out@ =~= seq!['-'] + nat_text((-v) as nat));
    } else {
        push_nat(&mut out, v as u32);
        assert(out@ =~= nat_text(v as nat));
    }
    out
}

/// Reads a boolean from its text.
pub fn parse_bool_text(s: &str) -> (r: Option<bool>)
    ensures
        r == parse_bool(s@),
{
    proof {
        reveal_strlit("true");
        reveal_strlit("false");
        assert("true"@ =~= seq!['t', 'r', 'u', 'e']);
        assert("false"@ =~= seq!['f', 'a', 'l', 's', 'e']);
    }
    if text_eq(s, "true") {
        Some(true)
    } else if text_eq(s, "false") {
        Some(false)
    } else {
        None
    }
}

/// Writes a boolean.
pub fn format_bool(b: bool) -> (r: String)
    ensures
        r@ == bool_text(b),
{
    proof {
        reveal_strlit("true");
        reveal_strlit("false");
        assert("true"@ =~= seq!['t', 'r', 'u', 'e']);
        assert("false"@ =~= seq!['f', 'a', 'l', 's', 'e']);
    }
    if b {
        String::from_str("true")
    } else {
        String::from_str("false")
    }
}

/// Says why an integer could not be read.
pub fn int_failure_message(failure: IntFailure) -> (r: String)
    ensures
        r@ == int_failure_text(failure),
{
    match failure {
        IntFailure::Empty => String::from_str("cannot parse integer from empty string"),
        IntFailure::InvalidDigit => String::from_str("invalid digit found in string"),
        IntFailure::PosOverflow => String::from_str("number too large to fit in target type"),
        IntFailure::NegOverflow => String::from_str("number too small to fit in target type"),
    }
}

/// Says why a boolean could not be read.
pub fn bool_failure_message() -> (r: String)
    ensures
        r@ == bool_failure_text(),
{
    String::from_str("provided string was not `true` or `false`")
}

/// The unsigned 64-bit integer that `s` writes: an optional `+`, then one
/// decimal digit or more, and nothing else. `None` where `s` has another
/// shape or the number does not fit.
pub open spec fn parse_count(s: Seq<char>) -> Option<int> {
    let body = if s.len() > 0 && s[0] == '+' {
        s.drop_first()
    } else {
        s
    };
    if body.len() > 0 && all_digits(body) && digits_value(body) <= u64::MAX {
        Some(digits_value(body))
    } else {
        None
    }
}

/// Reads an unsigned 64-bit integer from its decimal text.
pub fn parse_u64(s: &str) -> (r: Option<u64>)
    ensures
        match r {
            Some(v) => parse_count(s@) == Some(v as int),
            None => parse_count(s@) is None,
        },
{
    let mut it = s.chars();
    let mut acc: u64 = 0;
    let ghost body: Seq<char>;
    let ghost mut n: int = 0;
    let mut pending: Option<char>;
    match it.next() {
        None => {
            return None;
        },
        Some(c) => {
            if c == '+' {
                pending = it.next();
                proof {
                    body = s@.drop_first();
                    assert(s@.skip(1) =~= s@.drop_first());
                }
                if pending.is_none() {
                    return None;
                }
            } else {
                pending = Some(c);
                proof {
                    body = s@;
                    assert(s@.skip(0) =~= s@);
                }
            }
        },
    }
    proof {
        assert(body.take(0) =~= Seq::<char>::empty());
    }
    loop
        invariant
            0 <= n <= body.len(),
            body.len() > 0,
            match pending {
                Some(c) => n < body.len() && body[n] == c && it.remaining() == body.skip(n + 1),
                None => n == body.len(),
            },
            all_digits(body.take(n)),
            acc == digits_value(body.take(n)),
            body == (if s@.len() > 0 && s@[0] == '+' {
                s@.drop_first()
            } else {
                s@
            }),
        decreases body.len() - n,
    {
        match pending {
            None => {
                proof {
                    assert(body.take(n) =~= body);
                }
                return Some(acc);
            },
            Some(c) => {
                proof {
                    assert(body.take(n + 1).drop_last() =~= body.take(n));
                }
                match digit_value_of(c) {
                    None => {
                        return None;
                    },
                    Some(d) => {
                        proof {
                            assert forall|i: int| 0 <= i < n + 1 implies (#[trigger] digit_of(
                                body.take(n + 1)[i],
                            )) is Some by {
                                if i < n {
                                    assert(body.take(n)[i] == body[i]);
                                }
                            }
                            if all_digits(body) {
                                lemma_digits_value_prefix(body, n + 1);
                            }
                        }
                        if acc > (u64::MAX - d as u64) / 10 {
                            return None;
                        }
                        acc = acc * 10 + d as u64;
                        pending = it.next();
                        proof {
                            n = n + 1;
                            if n < body.len() {
                                assert(body.skip(n).drop_first() =~= body.skip(n + 1));
                            }
                        }
                    },
                }
            },
        }
    }
}

} // verus!
