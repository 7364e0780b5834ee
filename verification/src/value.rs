use vstd::prelude::*;

verus! {

/// The mathematical model of a [`Value`]: the same tagged union over
/// sequences and scalars, used by every contract in this crate.
pub enum ValueModel {
    Str(Seq<char>),
    Bytes(Seq<u8>),
    Int(i64),
    /// The bit pattern of an IEEE 754 double. The store never does
    /// arithmetic on it; it only moves the 64 bits through.
    FloatBits(u64),
    Bool(bool),
}

/// A value moved through the store: a tagged union over a string, a byte
/// sequence, a 64-bit integer, the bits of a 64-bit float, and a boolean.
/// Immutable once constructed.
///
/// The derived ordering (variant tag, then content) makes result sets
/// deterministic after sorting; lexicographic string order comes from
/// `String`'s own ordering.
#[derive(Debug, PartialEq, Eq, PartialOrd, Ord)]
pub enum Value {
    Str(String),
    Bytes(Vec<u8>),
    Int(i64),
    /// The bit pattern of an IEEE 754 double (`f64::to_bits`).
    FloatBits(u64),
    Bool(bool),
}

impl View for Value {
    type V = ValueModel;

    open spec fn view(&self) -> ValueModel {
        match self {
            Value::Str(s) => ValueModel::Str(s@),
            Value::Bytes(b) => ValueModel::Bytes(b@),
            Value::Int(i) => ValueModel::Int(*i),
            Value::FloatBits(bits) => ValueModel::FloatBits(*bits),
            Value::Bool(b) => ValueModel::Bool(*b),
        }
    }
}

impl Value {
    /// Wraps a borrowed string as an owned string value.
    pub fn of_str(s: &str) -> (v: Value)
        ensures
            v@ == ValueModel::Str(s@),
    {
        Value::Str(s.to_owned())
    }

    /// The string content, if this is a string value.
    pub fn as_str_value(&self) -> (r: Option<&String>)
        ensures
            match r {
                Some(s) => self@ == ValueModel::Str(s@),
                None => !(self@ is Str),
            },
    {
        match self {
            Value::Str(s) => Some(s),
            _ => None,
        }
    }

    /// The integer content, if this is an integer value.
    pub fn as_int(&self) -> (r: Option<i64>)
        ensures
            match r {
                Some(i) => self@ == ValueModel::Int(i),
                None => !(self@ is Int),
            },
    {
        match self {
            Value::Int(i) => Some(*i),
            _ => None,
        }
    }

    /// The boolean content, if this is a boolean value.
    pub fn as_bool(&self) -> (r: Option<bool>)
        ensures
            match r {
                Some(b) => self@ == ValueModel::Bool(b),
                None => !(self@ is Bool),
            },
    {
        match self {
            Value::Bool(b) => Some(*b),
            _ => None,
        }
    }
}

/// Copies a byte vector exactly.
pub(crate) fn clone_bytes(b: &Vec<u8>) -> (r: Vec<u8>)
    ensures
        r@ == b@,
{
    let mut r: Vec<u8> = Vec::new();
    let mut i: usize = 0;
    while i < b.len()
        invariant
            i <= b@.len(),
            r@ == b@.take(i as int),
        decreases b@.len() - i,
    {
        r.push(b[i]);
        proof {
            assert(r@ =~= b@.take(i + 1));
        }
        i = i + 1;
    }
    proof {
        assert(b@.take(b@.len() as int) =~= b@);
    }
    r
}

impl From<String> for Value {
    fn from(s: String) -> (v: Value) {
        Value::Str(s)
    }
}

impl vstd::std_specs::convert::FromSpecImpl<String> for Value {
    open spec fn obeys_from_spec() -> bool {
        true
    }

    open spec fn from_spec(s: String) -> Value {
        Value::Str(s)
    }
}

impl From<&str> for Value {
    fn from(s: &str) -> (v: Value) {
        Value::Str(s.to_owned())
    }
}

impl vstd::std_specs::convert::FromSpecImpl<&str> for Value {
    open spec fn obeys_from_spec() -> bool {
        // An owned copy of the borrowed string cannot be named at the
        // spec level, so nothing is promised of this conversion; verified
        // code uses `Value::of_str`, whose contract is exact.
        false
    }

    open spec fn from_spec(s: &str) -> Value {
        arbitrary()
    }
}

impl From<Vec<u8>> for Value {
    fn from(b: Vec<u8>) -> (v: Value) {
        Value::Bytes(b)
    }
}

impl vstd::std_specs::convert::FromSpecImpl<Vec<u8>> for Value {
    open spec fn obeys_from_spec() -> bool {
        true
    }

    open spec fn from_spec(b: Vec<u8>) -> Value {
        Value::Bytes(b)
    }
}

impl From<i64> for Value {
    fn from(i: i64) -> (v: Value) {
        Value::Int(i)
    }
}

impl vstd::std_specs::convert::FromSpecImpl<i64> for Value {
    open spec fn obeys_from_spec() -> bool {
        true
    }

    open spec fn from_spec(i: i64) -> Value {
        Value::Int(i)
    }
}

impl From<bool> for Value {
    fn from(b: bool) -> (v: Value) {
        Value::Bool(b)
    }
}

impl vstd::std_specs::convert::FromSpecImpl<bool> for Value {
    open spec fn obeys_from_spec() -> bool {
        true
    }

    open spec fn from_spec(b: bool) -> Value {
        Value::Bool(b)
    }
}

/// One (key, value) pair of a table. The derived ordering is lexicographic
/// key comparison, then value comparison, so sorted result sets compare
/// deterministically.
#[derive(Clone, Debug, PartialEq, Eq, PartialOrd, Ord)]
pub struct Kvpair {
    pub key: String,
    pub value: Value,
}

impl View for Kvpair {
    type V = (Seq<char>, ValueModel);

    open spec fn view(&self) -> (Seq<char>, ValueModel) {
        (self.key@, self.value@)
    }
}

impl Kvpair {
    /// Builds a pair from a borrowed key and an owned value.
    pub fn new(key: &str, value: Value) -> (p: Kvpair)
        ensures
            p@ == (key@, value@),
    {
        Kvpair { key: key.to_owned(), value }
    }
}

} // verus!
