//! Runtime values.
//!
//! A value is a tagged union: numbers (IEEE-754 double encodings), booleans
//! and strings are carried inline; arrays, objects and function templates
//! live on the heap and are carried as handles.  Equality between values is
//! the language's `==`: numeric IEEE equality for numbers, character-wise
//! equality for strings, and allocation identity for heap values.

use vstd::prelude::*;
use crate::num::{num_eq, spec_num_eq, spec_is_nan};

verus! {

/// A handle to a heap object: a stable index into the heap's slot vector.
#[derive(Debug, Clone, Copy, PartialEq, Eq, Structural)]
pub struct Gc {
    pub idx: usize,
}

impl View for Gc {
    type V = int;

    open spec fn view(&self) -> int {
        self.idx as int
    }
}

/// The built-in native functions.  Only `print` exists; natives compare
/// equal exactly when they are the same function.
#[derive(Debug, Clone, Copy, PartialEq, Eq, Structural)]
pub enum Native {
    Print,
}

/// The mathematical image of a [`Value`]: strings become `Seq<char>`,
/// handles become their indices.
pub enum SpecValue {
    Number(u64),
    Boolean(bool),
    Str(Seq<char>),
    Object(int),
    Array(int),
    NativeFunction(Native),
    Function(int),
    Null,
    Undefined,
}

#[derive(Debug)]
pub enum Value {
    Number(u64),
    Boolean(bool),
    Str(Vec<char>),
    Object(Gc),
    Array(Gc),
    NativeFunction(Native),
    Function(Gc),
    Null,
    Undefined,
}

impl View for Value {
    type V = SpecValue;

    open spec fn view(&self) -> SpecValue {
        match self {
            Value::Number(bits) => SpecValue::Number(*bits),
            Value::Boolean(b) => SpecValue::Boolean(*b),
            Value::Str(s) => SpecValue::Str(s@),
            Value::Object(h) => SpecValue::Object(h@),
            Value::Array(h) => SpecValue::Array(h@),
            Value::NativeFunction(n) => SpecValue::NativeFunction(*n),
            Value::Function(h) => SpecValue::Function(h@),
            Value::Null => SpecValue::Null,
            Value::Undefined => SpecValue::Undefined,
        }
    }
}

/// The language's `==` on values.  Numbers compare by IEEE equality, strings
/// by their characters; arrays, objects and functions compare by allocation
/// identity, never by contents.
pub open spec fn spec_value_eq(a: SpecValue, b: SpecValue) -> bool {
    match (a, b) {
        (SpecValue::Number(x), SpecValue::Number(y)) => spec_num_eq(x, y),
        (SpecValue::Boolean(x), SpecValue::Boolean(y)) => x == y,
        (SpecValue::Str(x), SpecValue::Str(y)) => x == y,
        (SpecValue::Object(x), SpecValue::Object(y)) => x == y,
        (SpecValue::Array(x), SpecValue::Array(y)) => x == y,
        (SpecValue::NativeFunction(x), SpecValue::NativeFunction(y)) => x == y,
        (SpecValue::Function(x), SpecValue::Function(y)) => x == y,
        (SpecValue::Null, SpecValue::Null) => true,
        (SpecValue::Undefined, SpecValue::Undefined) => true,
        _ => false,
    }
}

/// Character-wise equality of two character vectors.
pub fn chars_eq(a: &Vec<char>, b: &Vec<char>) -> (r: bool)
    ensures
        r == (a@ == b@),
{
    if a.len() != b.len() {
        return false;
    }
    let mut i: usize = 0;
    while i < a.len()
        invariant
            i <= a.len(),
            a.len() == b.len(),
            forall|j: int| 0 <= j < i ==> a@[j] == b@[j],
        decreases a.len() - i,
    {
        if a[i] != b[i] {
            return false;
        }
        i += 1;
    }
    proof {
        assert(a@ =~= b@);
    }
    true
}

/// Copy a character vector.
pub fn clone_chars(v: &Vec<char>) -> (r: Vec<char>)
    ensures
        r@ == v@,
{
    let mut r: Vec<char> = Vec::new();
    let mut i: usize = 0;
    while i < v.len()
        invariant
            i <= v.len(),
            r@ == v@.subrange(0, i as int),
        decreases v.len() - i,
    {
        r.push(v[i]);
        proof {
            assert(v@.subrange(0, i as int).push(v@[i as int]) =~= v@.subrange(0, i + 1));
        }
        i += 1;
    }
    proof {
        assert(v@.subrange(0, v@.len() as int) =~= v@);
    }
    r
}

impl Clone for Value {
    fn clone(&self) -> (r: Self)
        ensures
            r@ == self@,
    {
        match self {
            Value::Number(bits) => Value::Number(*bits),
            Value::Boolean(b) => Value::Boolean(*b),
            Value::Str(s) => Value::Str(clone_chars(s)),
            Value::Object(h) => Value::Object(*h),
            Value::Array(h) => Value::Array(*h),
            Value::NativeFunction(n) => Value::NativeFunction(*n),
            Value::Function(h) => Value::Function(*h),
            Value::Null => Value::Null,
            Value::Undefined => Value::Undefined,
        }
    }
}

impl Value {
    /// The language's `==`, as the `Equal` instruction computes it.
    pub fn equals(&self, other: &Value) -> (r: bool)
        ensures
            r == spec_value_eq(self@, other@),
    {
        match (self, other) {
            (Value::Number(x), Value::Number(y)) => num_eq(*x, *y),
            (Value::Boolean(x), Value::Boolean(y)) => x == y,
            (Value::Str(x), Value::Str(y)) => chars_eq(x, y),
            (Value::Object(x), Value::Object(y)) => x.idx == y.idx,
            (Value::Array(x), Value::Array(y)) => x.idx == y.idx,
            (Value::NativeFunction(x), Value::NativeFunction(y)) => x == y,
            (Value::Function(x), Value::Function(y)) => x.idx == y.idx,
            (Value::Null, Value::Null) => true,
            (Value::Undefined, Value::Undefined) => true,
            _ => false,
        }
    }
}

/// Value equality is reflexive, except on NaN numbers, which differ from
/// themselves.
pub proof fn lemma_value_eq_reflexive(v: SpecValue)
    ensures
        (v matches SpecValue::Number(b) && spec_is_nan(b)) <==> !spec_value_eq(v, v),
{
}

/// Arrays and objects compare by allocation identity: two handles are equal
/// values exactly when they name the same allocation, whatever the
/// allocations hold.
pub proof fn lemma_value_eq_identity(h1: int, h2: int)
    ensures
        spec_value_eq(SpecValue::Array(h1), SpecValue::Array(h2)) <==> h1 == h2,
        spec_value_eq(SpecValue::Object(h1), SpecValue::Object(h2)) <==> h1 == h2,
{
}

} // verus!
