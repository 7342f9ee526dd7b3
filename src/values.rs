//! Values as the database sends them, one per cell.

use vstd::prelude::*;
use vstd::arithmetic::power2::pow2;

use crate::types::{DbType, DbTypeV, NumKind};

verus! {

/// One cell of a block, tagged with its kind.
#[derive(Debug, PartialEq, Eq)]
pub enum Value {
    /// A number of the given kind; a float is held by its IEEE bits.
    Num(NumKind, i128),
    /// The bytes of a string.
    String(Vec<u8>),
    /// A UUID, as its big-endian 128-bit value.
    Uuid(u128),
    Array(Vec<Value>),
    Null,
    /// A value of another database type, held by that type's name.
    Other(String),
}

/// Mathematical model of a [`Value`].
pub enum ValueV {
    Num(NumKind, i128),
    String(Seq<u8>),
    Uuid(u128),
    Array(Seq<ValueV>),
    Null,
    Other(Seq<char>),
}

pub open spec fn value_view(v: Value) -> ValueV
    decreases v,
{
    match v {
        Value::Num(k, x) => ValueV::Num(k, x),
        Value::String(b) => ValueV::String(b@),
        Value::Uuid(u) => ValueV::Uuid(u),
        Value::Array(xs) => {
            proof {
                assert(decreases_to!(v => xs));
                assert(decreases_to!(xs => xs@));
            }
            ValueV::Array(values_view(xs@))
        },
        Value::Null => ValueV::Null,
        Value::Other(s) => ValueV::Other(s@),
    }
}

/// The models of a sequence of values.
pub open spec fn values_view(s: Seq<Value>) -> Seq<ValueV>
    decreases s,
{
    Seq::new(
        s.len(),
        |i: int|
            if 0 <= i < s.len() {
                proof {
                    assert(decreases_to!(s => s[i]));
                }
                value_view(s[i])
            } else {
                ValueV::Null
            },
    )
}

impl View for Value {
    type V = ValueV;

    open spec fn view(&self) -> ValueV {
        value_view(*self)
    }
}

/// The type that the database driver reads off a value: an array by its
/// first element (`String` when empty), a null as `Nullable(String)`.
pub open spec fn guessed_type(v: ValueV) -> DbTypeV
    decreases v,
{
    match v {
        ValueV::Num(k, _) => DbTypeV::Num(k),
        ValueV::String(_) => DbTypeV::String,
        ValueV::Uuid(_) => DbTypeV::Uuid,
        ValueV::Array(xs) => DbTypeV::Array(
            Box::new(
                if xs.len() > 0 {
                    guessed_type(xs[0])
                } else {
                    DbTypeV::String
                },
            ),
        ),
        ValueV::Null => DbTypeV::Nullable(Box::new(DbTypeV::String)),
        ValueV::Other(s) => DbTypeV::Other(s),
    }
}

impl Value {
    pub fn is_null(&self) -> (r: bool)
        ensures
            r == (self@ is Null),
    {
        match self {
            Value::Null => true,
            _ => false,
        }
    }

    /// The type read off the value.
    pub fn guess_type(&self) -> (r: DbType)
        ensures
            r@ == guessed_type(self@),
        decreases self,
    {
        match self {
            Value::Num(k, _) => DbType::Num(*k),
            Value::String(_) => DbType::String,
            Value::Uuid(_) => DbType::Uuid,
            Value::Array(xs) => {
                if xs.len() > 0 {
                    proof {
                        assert(decreases_to!(*self => *xs));
                        assert(decreases_to!(*xs => xs@));
                        assert(decreases_to!(xs@ => xs@[0]));
                        assert(values_view(xs@)[0] == value_view(xs@[0]));
                    }
                    let g = xs[0].guess_type();
                    assert(self@ == ValueV::Array(values_view(xs@)));
                    assert(g@ == guessed_type(values_view(xs@)[0]));
                    let r = DbType::Array(Box::new(g));
                    assert(values_view(xs@).len() > 0);
                    assert(r@ == DbTypeV::Array(Box::new(g@)));
                    assert(r@ == guessed_type(self@));
                    r
                } else {
                    assert(values_view(xs@).len() == 0);
                    let r = DbType::Array(Box::new(DbType::String));
                    assert(r@ == guessed_type(self@));
                    r
                }
            },
            Value::Null => {
                let r = DbType::Nullable(Box::new(DbType::String));
                assert(r@ == guessed_type(self@));
                r
            },
            Value::Other(s) => {
                let r = DbType::Other(s.clone());
                assert(r@ == guessed_type(self@));
                r
            },
        }
    }
}

pub proof fn lemma_values_view_push(s: Seq<Value>, x: Value)
    ensures
        values_view(s.push(x)) == values_view(s).push(x@),
{
    assert(values_view(s.push(x)) =~= values_view(s).push(x@));
}

impl Clone for Value {
    fn clone(&self) -> (r: Value)
        ensures
            r@ == self@,
        decreases self,
    {
        match self {
            Value::Num(k, x) => Value::Num(*k, *x),
            Value::String(b) => {
                let mut out: Vec<u8> = Vec::new();
                let mut i: usize = 0;
                while i < b.len()
                    invariant
                        i <= b@.len(),
                        out@ =~= b@.subrange(0, i as int),
                    decreases b@.len() - i,
                {
                    out.push(b[i]);
                    i = i + 1;
                }
                assert(out@ =~= b@);
                Value::String(out)
            },
            Value::Uuid(u) => Value::Uuid(*u),
            Value::Array(xs) => {
                let ghost xv = values_view(xs@);
                let mut out: Vec<Value> = Vec::new();
                let mut i: usize = 0;
                while i < xs.len()
                    invariant
                        *self == Value::Array(*xs),
                        xv == values_view(xs@),
                        i <= xs@.len(),
                        values_view(out@) =~= xv.subrange(0, i as int),
                    decreases xs@.len() - i,
                {
                    proof {
                        assert(decreases_to!(*self => (*self)->Array_0));
                        assert(decreases_to!(*xs => xs@));
                        assert(decreases_to!(xs@ => xs@[i as int]));
                    }
                    assert(xv[i as int] == xs@[i as int]@);
                    let x = xs[i].clone();
                    proof {
                        lemma_values_view_push(out@, x);
                    }
                    out.push(x);
                    i = i + 1;
                    assert(values_view(out@) =~= xv.subrange(0, i as int));
                }
                assert(values_view(out@) =~= xv);
                let r = Value::Array(out);
                assert(r@ == self@);
                r
            },
            Value::Null => Value::Null,
            Value::Other(s) => Value::Other(s.clone()),
        }
    }
}

/// Names the text that `String::from_utf8_lossy` makes of bytes that are not valid UTF-8.
pub uninterp spec fn lossy_text(b: Seq<u8>) -> Seq<char>;

/// The text of bytes read as UTF-8: exactly the text that valid UTF-8
/// encodes, else what `String::from_utf8_lossy` makes of them.
pub open spec fn bytes_text(b: Seq<u8>) -> Seq<char> {
    if vstd::utf8::valid_utf8(b) {
        vstd::utf8::decode_utf8(b)
    } else {
        lossy_text(b)
    }
}

/// Relies on `String::from_utf8_lossy`: the text of the bytes, each invalid
/// sequence replaced; valid UTF-8 gives exactly the text that it encodes.
#[verifier::external_body]
pub(crate) fn text_of_bytes(b: &Vec<u8>) -> (r: String)
    ensures
        vstd::utf8::valid_utf8(b@) ==> r@ == vstd::utf8::decode_utf8(b@),
        !vstd::utf8::valid_utf8(b@) ==> r@ == lossy_text(b@),
{
    String::from_utf8_lossy(b.as_slice()).into_owned()
}

/// Hexadecimal digit `k` (0 for the most significant) of a 128-bit value.
pub open spec fn nibble(v: u128, k: int) -> int {
    (v as int / pow2((4 * (31 - k)) as nat) as int) % 16
}

/// The hyphenated lower-case text of a UUID: 32 hexadecimal digits, most
/// significant first, in groups of 8, 4, 4, 4 and 12.
pub open spec fn uuid_text(v: u128) -> Seq<char> {
    Seq::new(
        36,
        |i: int|
            if i == 8 || i == 13 || i == 18 || i == 23 {
                '-'
            } else {
                let k = if i < 8 {
                    i
                } else if i < 13 {
                    i - 1
                } else if i < 18 {
                    i - 2
                } else if i < 23 {
                    i - 3
                } else {
                    i - 4
                };
                "0123456789abcdef"@[nibble(v, k)]
            },
    )
}

/// Relies on the `Display` of `klickhouse::Uuid` (the `uuid` crate's type),
/// which writes the hyphenated lower-case form of the big-endian value.
#[verifier::external_body]
pub(crate) fn uuid_string(v: u128) -> (r: String)
    ensures
        r@ == uuid_text(v),
{
    klickhouse::Uuid::from_u128(v).to_string()
}

} // verus!
