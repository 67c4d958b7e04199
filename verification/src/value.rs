//! A dynamically typed bus value: the self-describing variant values that
//! arrive in a notification call, modelled as a tagged union with fallible,
//! explicit downcasts. Values the capture core never reads collapse to
//! `Other` and ride along inertly.

use vstd::prelude::*;

verus! {

/// One variant-encoded wire value.
#[derive(Debug)]
pub enum Value {
    /// A text value.
    Text(String),
    /// An unsigned 32-bit integer.
    U32(u32),
    /// A signed 32-bit integer.
    I32(i32),
    /// A boolean.
    Bool(bool),
    /// A single byte.
    Byte(u8),
    /// An array of values.
    Array(Vec<Value>),
    /// A positional structure.
    Structure(Vec<Value>),
    /// A dictionary keyed by text.
    Dict(Vec<(String, Value)>),
    /// Any value of a kind the capture core never consumes.
    Other,
}

/// The text carried by a `Text` value; empty for every other kind.
pub open spec fn text_of(v: Value) -> Seq<char> {
    match v {
        Value::Text(s) => s@,
        _ => Seq::empty(),
    }
}

/// The integer carried by an `I32` value; zero for every other kind.
pub open spec fn i32_of(v: Value) -> int {
    match v {
        Value::I32(x) => x as int,
        _ => 0,
    }
}

/// The flag carried by a `Bool` value; false for every other kind.
pub open spec fn bool_of(v: Value) -> bool {
    match v {
        Value::Bool(b) => b,
        _ => false,
    }
}

/// The byte carried by a `Byte` value; zero for every other kind.
pub open spec fn byte_of(v: Value) -> u8 {
    match v {
        Value::Byte(b) => b,
        _ => 0,
    }
}

/// The elements of an `Array` value; empty for every other kind.
pub open spec fn elems_of(v: Value) -> Seq<Value> {
    match v {
        Value::Array(a) => a@,
        _ => Seq::empty(),
    }
}

/// The fields of a `Structure` value; empty for every other kind.
pub open spec fn fields_of(v: Value) -> Seq<Value> {
    match v {
        Value::Structure(f) => f@,
        _ => Seq::empty(),
    }
}

/// The entries of a `Dict` value; empty for every other kind.
pub open spec fn dict_of(v: Value) -> Seq<(String, Value)> {
    match v {
        Value::Dict(d) => d@,
        _ => Seq::empty(),
    }
}

/// First value bound to `k` in a key-value list, searched front to back.
pub open spec fn dict_get(d: Seq<(String, Value)>, k: Seq<char>) -> Option<Value>
    decreases d.len(),
{
    if d.len() == 0 {
        None
    } else if d[0].0@ == k {
        Some(d[0].1)
    } else {
        dict_get(d.skip(1), k)
    }
}

/// Looks a key up in a key-value list, front to back.
pub fn dict_lookup<'a>(d: &'a Vec<(String, Value)>, k: &String) -> (r: Option<&'a Value>)
    ensures
        r matches Some(v) ==> dict_get(d@, k@) == Some(*v),
        r is None ==> dict_get(d@, k@) is None,
{
    let mut i: usize = 0;
    proof {
        assert(d@.skip(0) =~= d@);
    }
    while i < d.len()
        invariant
            i <= d@.len(),
            dict_get(d@, k@) == dict_get(d@.skip(i as int), k@),
        decreases d@.len() - i,
    {
        proof {
            assert(d@.skip(i as int)[0] == d@[i as int]);
            assert(d@.skip(i as int).skip(1) =~= d@.skip(i as int + 1));
        }
        if d[i].0 == *k {
            return Some(&d[i].1);
        }
        i = i + 1;
    }
    None
}

} // verus!
