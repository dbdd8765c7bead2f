//! The types of columns, and how a type is told from its name.

use crate::text::text_eq;
use vstd::prelude::*;

verus! {

/// The type of a column.
#[derive(Debug, Clone, Copy, PartialEq, Eq, Structural)]
pub enum DataType {
    Int,
    Str,
    Float,
    Bool,
    Invalid,
}

/// `s` with every character in lower case, as `str::to_lowercase` of the
/// standard library gives it.
pub uninterp spec fn lowercase(s: Seq<char>) -> Seq<char>;

/// Whether `s` holds nothing but the letters `a` to `z`.
pub open spec fn small_letters(s: Seq<char>) -> bool {
    forall|i: int| 0 <= i < s.len() ==> 'a' <= #[trigger] s[i] && s[i] <= 'z'
}

/// Calls `str::to_lowercase`: the result is the lower-case form of `s`,
/// which depends on `s` alone. A text of the letters `a` to `z` is its own
/// lower-case form.
#[verifier::external_body]
fn to_lowercase(s: &str) -> (r: String)
    ensures
        r@ == lowercase(s@),
        small_letters(s@) ==> r@ == s@,
{
    s.to_lowercase()
}

impl DataType {
    /// The type that a name in lower case stands for: `int`, `string`,
    /// `float` or `double`, and `bool`; any other name is not valid.
    pub open spec fn of_lowercase(name: Seq<char>) -> DataType {
        if name == seq!['i', 'n', 't'] {
            DataType::Int
        } else if name == seq!['s', 't', 'r', 'i', 'n', 'g'] {
            DataType::Str
        } else if name == seq!['f', 'l', 'o', 'a', 't'] {
            DataType::Float
        } else if name == seq!['d', 'o', 'u', 'b', 'l', 'e'] {
            DataType::Float
        } else if name == seq!['b', 'o', 'o', 'l'] {
            DataType::Bool
        } else {
            DataType::Invalid
        }
    }

    /// The type that a name stands for, whatever the case of its letters:
    /// a name of the letters `a` to `z` as it stands, any other by its
    /// lower-case form.
    pub open spec fn resolved(name: Seq<char>) -> DataType {
        if small_letters(name) {
            DataType::of_lowercase(name)
        } else {
            DataType::of_lowercase(lowercase(name))
        }
    }

    /// How the type is shown.
    pub open spec fn text(&self) -> Seq<char> {
        match self {
            DataType::Int => seq!['I', 'n', 't'],
            DataType::Str => seq!['S', 't', 'r'],
            DataType::Float => seq!['F', 'l', 'o', 'a', 't'],
            DataType::Bool => seq!['B', 'o', 'o', 'l', 'e', 'a', 'n'],
            DataType::Invalid => seq!['I', 'n', 'v', 'a', 'l', 'i', 'd'],
        }
    }

    /// Resolves a type name that is already in lower case.
    pub fn from_lowercase(name: &str) -> (r: DataType)
        ensures
            r == DataType::of_lowercase(name@),
    {
        proof {
            reveal_strlit("int");
            reveal_strlit("string");
            reveal_strlit("float");
            reveal_strlit("double");
            reveal_strlit("bool");
            assert("int"@ =~= seq!['i', 'n', 't']);
            assert("string"@ =~= seq!['s', 't', 'r', 'i', 'n', 'g']);
            assert("float"@ =~= seq!['f', 'l', 'o', 'a', 't']);
            assert("double"@ =~= seq!['d', 'o', 'u', 'b', 'l', 'e']);
            assert("bool"@ =~= seq!['b', 'o', 'o', 'l']);
        }
        if text_eq(name, "int") {
            DataType::Int
        } else if text_eq(name, "string") {
            DataType::Str
        } else if text_eq(name, "float") {
            DataType::Float
        } else if text_eq(name, "double") {
            DataType::Float
        } else if text_eq(name, "bool") {
            DataType::Bool
        } else {
            DataType::Invalid
        }
    }

    /// Resolves a type name, whatever the case of its letters.
    pub fn new(cmd: String) -> (r: DataType)
        ensures
            r == DataType::resolved(cmd@),
    {
        let lowered = to_lowercase(cmd.as_str());
        DataType::from_lowercase(lowered.as_str())
    }

    /// The type as text.
    pub fn to_string(&self) -> (r: String)
        ensures
            r@ == self.text(),
    {
        proof {
            reveal_strlit("Int");
            reveal_strlit("Str");
            reveal_strlit("Float");
            reveal_strlit("Boolean");
            reveal_strlit("Invalid");
            assert("Int"@ =~= seq!['I', 'n', 't']);
            assert("Str"@ =~= seq!['S', 't', 'r']);
            assert("Float"@ =~= seq!['F', 'l', 'o', 'a', 't']);
            assert("Boolean"@ =~= seq!['B', 'o', 'o', 'l', 'e', 'a', 'n']);
            assert("Invalid"@ =~= seq!['I', 'n', 'v', 'a', 'l', 'i', 'd']);
        }
        match self {
            DataType::Int => String::from_str("Int"),
            DataType::Str => String::from_str("Str"),
            DataType::Float => String::from_str("Float"),
            DataType::Bool => String::from_str("Boolean"),
            DataType::Invalid => String::from_str("Invalid"),
        }
    }
}

} // verus!
