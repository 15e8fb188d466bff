//! The value model: the discriminated field value and the primitives of the
//! operator pipeline — increment, delta, tail, and their encoder-side
//! inverses.
use vstd::prelude::*;
use vstd::string::StringSliceAdditionalSpecFns;
use vstd::utf8::{decode_utf8, encode_utf8, is_ascii_chars, valid_utf8};

use crate::bytesutil::{
    bytes_delta, bytes_tail, common_prefix_bytes, spec_find_delta, spec_find_tail, string_delta,
    string_tail,
};
use crate::bytesutil::{all_hex_digits, hex_bytes_of, hex_cleaned, str_eq, string_to_bytes};
use crate::decimal::{parse_decimal_bytes, parse_i64_bytes, spec_parse_decimal, Decimal};
use crate::errors::Error;
use crate::numstr::{
    ascii_to_string, has_int_shape, int_shape_val, parse_digits_limited,
};

verus! {

/// The kind of a field instruction, a decimal subcomponent, or a composite.
#[derive(Debug, PartialEq, Eq, Structural, Clone, Copy)]
pub enum ValueType {
    UInt32,
    Int32,
    UInt64,
    Int64,
    Length,
    Exponent,
    Mantissa,
    Decimal,
    ASCIIString,
    UnicodeString,
    Bytes,
    Sequence,
    Group,
    TemplateReference,
}

/// Current value of a field.
#[derive(Debug, PartialEq, Clone)]
pub enum Value {
    UInt32(u32),
    Int32(i32),
    UInt64(u64),
    Int64(i64),
    Decimal(Decimal),
    ASCIIString(String),
    UnicodeString(String),
    Bytes(Vec<u8>),
}

/// The mathematical shape of a `Value`: strings as character sequences,
/// byte vectors as byte sequences, decimals as exponent and mantissa.
pub enum ValueV {
    UInt32(u32),
    Int32(i32),
    UInt64(u64),
    Int64(i64),
    Decimal(int, int),
    Ascii(Seq<char>),
    Unicode(Seq<char>),
    Bytes(Seq<u8>),
}

impl View for Value {
    type V = ValueV;

    open spec fn view(&self) -> ValueV {
        match self {
            Value::UInt32(v) => ValueV::UInt32(*v),
            Value::Int32(v) => ValueV::Int32(*v),
            Value::UInt64(v) => ValueV::UInt64(*v),
            Value::Int64(v) => ValueV::Int64(*v),
            Value::Decimal(d) => ValueV::Decimal(d.exponent as int, d.mantissa as int),
            Value::ASCIIString(s) => ValueV::Ascii(s@),
            Value::UnicodeString(s) => ValueV::Unicode(s@),
            Value::Bytes(b) => ValueV::Bytes(b@),
        }
    }
}

impl Value {
    /// A structurally equal copy.
    pub fn clone_value(&self) -> (r: Value)
        ensures
            r@ == self@,
    {
        match self {
            Value::UInt32(v) => Value::UInt32(*v),
            Value::Int32(v) => Value::Int32(*v),
            Value::UInt64(v) => Value::UInt64(*v),
            Value::Int64(v) => Value::Int64(*v),
            Value::Decimal(d) => Value::Decimal(Decimal { exponent: d.exponent, mantissa: d.mantissa }),
            Value::ASCIIString(s) => Value::ASCIIString(s.clone()),
            Value::UnicodeString(s) => Value::UnicodeString(s.clone()),
            Value::Bytes(b) => Value::Bytes(clone_vec_u8(b)),
        }
    }

    /// Structural equality, usable from verified code.
    pub fn equals(&self, other: &Value) -> (r: bool)
        ensures
            r == (self@ == other@),
    {
        match (self, other) {
            (Value::UInt32(a), Value::UInt32(b)) => *a == *b,
            (Value::Int32(a), Value::Int32(b)) => *a == *b,
            (Value::UInt64(a), Value::UInt64(b)) => *a == *b,
            (Value::Int64(a), Value::Int64(b)) => *a == *b,
            (Value::Decimal(a), Value::Decimal(b)) => a.exponent == b.exponent && a.mantissa
                == b.mantissa,
            (Value::ASCIIString(a), Value::ASCIIString(b)) => a.eq(b),
            (Value::UnicodeString(a), Value::UnicodeString(b)) => a.eq(b),
            (Value::Bytes(a), Value::Bytes(b)) => vec_u8_equal(a, b),
            _ => false,
        }
    }
}

/// An element-for-element copy of a byte slice.
pub fn clone_vec_u8(v: &Vec<u8>) -> (r: Vec<u8>)
    ensures
        r@ == v@,
{
    let mut out: Vec<u8> = Vec::new();
    let mut i: usize = 0;
    while i < v.len()
        invariant
            i <= v@.len(),
            out@ == v@.take(i as int),
        decreases v@.len() - i,
    {
        out.push(v[i]);
        i = i + 1;
        proof {
            assert(out@ =~= v@.take(i as int));
        }
    }
    proof {
        assert(v@.take(i as int) =~= v@);
    }
    out
}

/// Element-wise equality of byte vectors.
pub fn vec_u8_equal(a: &Vec<u8>, b: &Vec<u8>) -> (r: bool)
    ensures
        r == (a@ == b@),
{
    if a.len() != b.len() {
        proof {
            assert(a@ != b@);
        }
        return false;
    }
    let mut i: usize = 0;
    while i < a.len()
        invariant
            i <= a@.len(),
            a@.len() == b@.len(),
            forall|j: int| 0 <= j < i ==> a@[j] == b@[j],
        decreases a@.len() - i,
    {
        if a[i] != b[i] {
            proof {
                assert(a@[i as int] != b@[i as int]);
            }
            return false;
        }
        i = i + 1;
    }
    proof {
        assert(a@ =~= b@);
    }
    true
}

impl ValueType {
    /// The value a field of this kind falls back to when an operator needs a
    /// base and nothing was ever assigned.
    pub open spec fn spec_default_value(self) -> Option<ValueV> {
        match self {
            ValueType::UInt32 => Some(ValueV::UInt32(0)),
            ValueType::Int32 => Some(ValueV::Int32(0)),
            ValueType::UInt64 => Some(ValueV::UInt64(0)),
            ValueType::Int64 => Some(ValueV::Int64(0)),
            ValueType::Length => Some(ValueV::UInt32(0)),
            ValueType::Exponent => Some(ValueV::Int32(0)),
            ValueType::Mantissa => Some(ValueV::Int64(0)),
            ValueType::Decimal => Some(ValueV::Decimal(0, 0)),
            ValueType::ASCIIString => Some(ValueV::Ascii(Seq::empty())),
            ValueType::UnicodeString => Some(ValueV::Unicode(Seq::empty())),
            ValueType::Bytes => Some(ValueV::Bytes(Seq::empty())),
            _ => None,
        }
    }

    /// The type-dependent default base value; composites have none.
    pub fn to_default_value(&self) -> (r: Result<Value, Error>)
        ensures
            match r {
                Ok(v) => self.spec_default_value() == Some(v@),
                Err(e) => self.spec_default_value() is None && e is Runtime,
            },
    {
        match self {
            ValueType::UInt32 => Ok(Value::UInt32(0)),
            ValueType::Int32 => Ok(Value::Int32(0)),
            ValueType::UInt64 => Ok(Value::UInt64(0)),
            ValueType::Int64 => Ok(Value::Int64(0)),
            ValueType::Length => Ok(Value::UInt32(0)),
            ValueType::Exponent => Ok(Value::Int32(0)),
            ValueType::Mantissa => Ok(Value::Int64(0)),
            ValueType::Decimal => Ok(Value::Decimal(Decimal { exponent: 0, mantissa: 0 })),
            ValueType::ASCIIString => Ok(Value::ASCIIString(String::new())),
            ValueType::UnicodeString => Ok(Value::UnicodeString(String::new())),
            ValueType::Bytes => Ok(Value::Bytes(Vec::new())),
            _ => Err(Error::Runtime("type cannot be converted to value".to_owned())),
        }
    }

    /// Whether a stored previous value has the kind this field expects.
    pub open spec fn spec_matches(self, v: ValueV) -> bool {
        match (self, v) {
            (ValueType::UInt32, ValueV::UInt32(_)) => true,
            (ValueType::Int32, ValueV::Int32(_)) => true,
            (ValueType::UInt64, ValueV::UInt64(_)) => true,
            (ValueType::Int64, ValueV::Int64(_)) => true,
            (ValueType::Length, ValueV::UInt32(_)) => true,
            (ValueType::Exponent, ValueV::Int32(_)) => true,
            (ValueType::Mantissa, ValueV::Int64(_)) => true,
            (ValueType::Decimal, ValueV::Decimal(_, _)) => true,
            (ValueType::ASCIIString, ValueV::Ascii(_)) => true,
            (ValueType::UnicodeString, ValueV::Unicode(_)) => true,
            (ValueType::Bytes, ValueV::Bytes(_)) => true,
            _ => false,
        }
    }

    pub fn matches_type(&self, v: &Value) -> (r: bool)
        ensures
            r == self.spec_matches(v@),
    {
        match (self, v) {
            (ValueType::UInt32, Value::UInt32(_)) => true,
            (ValueType::Int32, Value::Int32(_)) => true,
            (ValueType::UInt64, Value::UInt64(_)) => true,
            (ValueType::Int64, Value::Int64(_)) => true,
            (ValueType::Length, Value::UInt32(_)) => true,
            (ValueType::Exponent, Value::Int32(_)) => true,
            (ValueType::Mantissa, Value::Int64(_)) => true,
            (ValueType::Decimal, Value::Decimal(_)) => true,
            (ValueType::ASCIIString, Value::ASCIIString(_)) => true,
            (ValueType::UnicodeString, Value::UnicodeString(_)) => true,
            (ValueType::Bytes, Value::Bytes(_)) => true,
            _ => false,
        }
    }

    /// The XML tag this kind was compiled from.
    pub fn type_str(&self) -> (r: &'static str)
        ensures
            r@ == self.spec_type_str(),
    {
        match self {
            ValueType::UInt32 => "uInt32",
            ValueType::Int32 => "int32",
            ValueType::UInt64 => "uInt64",
            ValueType::Int64 => "int64",
            ValueType::Length => "length",
            ValueType::Exponent => "exponent",
            ValueType::Mantissa => "mantissa",
            ValueType::Decimal => "decimal",
            ValueType::ASCIIString => "string",
            ValueType::UnicodeString => "string",
            ValueType::Bytes => "byteVector",
            ValueType::Sequence => "sequence",
            ValueType::Group => "group",
            ValueType::TemplateReference => "templateRef",
        }
    }

    pub open spec fn spec_type_str(self) -> Seq<char> {
        match self {
            ValueType::UInt32 => "uInt32"@,
            ValueType::Int32 => "int32"@,
            ValueType::UInt64 => "uInt64"@,
            ValueType::Int64 => "int64"@,
            ValueType::Length => "length"@,
            ValueType::Exponent => "exponent"@,
            ValueType::Mantissa => "mantissa"@,
            ValueType::Decimal => "decimal"@,
            ValueType::ASCIIString => "string"@,
            ValueType::UnicodeString => "string"@,
            ValueType::Bytes => "byteVector"@,
            ValueType::Sequence => "sequence"@,
            ValueType::Group => "group"@,
            ValueType::TemplateReference => "templateRef"@,
        }
    }
}

/// Combine a base sequence with a delta.  A non-negative `sub` removes
/// `sub` items from the back of the base and appends the delta; a negative
/// `sub` removes `-sub - 1` items from the front and prepends it.  Removal
/// past the base's length is a dynamic error.
pub open spec fn seq_delta<T>(base: Seq<T>, diff: Seq<T>, sub: int) -> Option<Seq<T>> {
    if sub < 0 {
        let i = -sub - 1;
        if i > base.len() {
            None
        } else {
            Some(diff + base.skip(i))
        }
    } else {
        if sub > base.len() {
            None
        } else {
            Some(base.take(base.len() - sub) + diff)
        }
    }
}

/// Replace the suffix of `base` of the tail's length (or all of `base`
/// when the tail is longer) with the tail.
pub open spec fn seq_tail<T>(base: Seq<T>, tail: Seq<T>) -> Seq<T> {
    let n = if tail.len() < base.len() {
        tail.len() as int
    } else {
        base.len() as int
    };
    base.take(base.len() - n) + tail
}

/// What `apply_delta` yields for each pair of value kinds: integers add the
/// delta within the kind's range, strings and byte vectors splice, and a
/// Unicode splice must stay valid UTF-8.
pub open spec fn spec_apply_delta(v: ValueV, d: ValueV, sub: int) -> Option<ValueV> {
    match (v, d) {
        (ValueV::UInt32(x), ValueV::Int64(dl)) => if 0 <= x + dl <= 0xffff_ffff {
            Some(ValueV::UInt32((x + dl) as u32))
        } else {
            None
        },
        (ValueV::Int32(x), ValueV::Int64(dl)) => if -0x8000_0000 <= x + dl <= 0x7fff_ffff {
            Some(ValueV::Int32((x + dl) as i32))
        } else {
            None
        },
        (ValueV::UInt64(x), ValueV::Int64(dl)) => if 0 <= x + dl <= 0xffff_ffff_ffff_ffff {
            Some(ValueV::UInt64((x + dl) as u64))
        } else {
            None
        },
        (ValueV::Int64(x), ValueV::Int64(dl)) => if -0x8000_0000_0000_0000 <= x + dl
            <= 0x7fff_ffff_ffff_ffff {
            Some(ValueV::Int64((x + dl) as i64))
        } else {
            None
        },
        (ValueV::Ascii(s), ValueV::Ascii(ds)) => if is_ascii_chars(s) && is_ascii_chars(ds) {
            match seq_delta(s, ds, sub) {
                Some(t) => Some(ValueV::Ascii(t)),
                None => None,
            }
        } else {
            None
        },
        (ValueV::Bytes(bs), ValueV::Bytes(ds)) => match seq_delta(bs, ds, sub) {
            Some(t) => Some(ValueV::Bytes(t)),
            None => None,
        },
        (ValueV::Unicode(s), ValueV::Bytes(ds)) => match seq_delta(encode_utf8(s), ds, sub) {
            Some(t) => if valid_utf8(t) {
                Some(ValueV::Unicode(decode_utf8(t)))
            } else {
                None
            },
            None => None,
        },
        _ => None,
    }
}

/// What `apply_tail` yields: the tail replaces the back of the base.
pub open spec fn spec_apply_tail(v: ValueV, t: ValueV) -> Option<ValueV> {
    match (v, t) {
        (ValueV::Ascii(s), ValueV::Ascii(ts)) => if is_ascii_chars(s) && is_ascii_chars(ts) {
            Some(ValueV::Ascii(seq_tail(s, ts)))
        } else {
            None
        },
        (ValueV::Bytes(bs), ValueV::Bytes(ts)) => Some(ValueV::Bytes(seq_tail(bs, ts))),
        (ValueV::Unicode(s), ValueV::Bytes(ts)) => {
            let combined = seq_tail(encode_utf8(s), ts);
            if valid_utf8(combined) {
                Some(ValueV::Unicode(decode_utf8(combined)))
            } else {
                None
            }
        },
        _ => None,
    }
}

/// What `apply_increment` yields: one more, wrapping at the kind's top.
pub open spec fn spec_apply_increment(v: ValueV) -> Option<ValueV> {
    match v {
        ValueV::UInt32(x) => Some(
            ValueV::UInt32(
                if x == 0xffff_ffffu32 {
                    0u32
                } else {
                    (x + 1) as u32
                },
            ),
        ),
        ValueV::Int32(x) => Some(
            ValueV::Int32(
                if x == 0x7fff_ffffi32 {
                    (-0x8000_0000) as i32
                } else {
                    (x + 1) as i32
                },
            ),
        ),
        ValueV::UInt64(x) => Some(
            ValueV::UInt64(
                if x == 0xffff_ffff_ffff_ffffu64 {
                    0u64
                } else {
                    (x + 1) as u64
                },
            ),
        ),
        ValueV::Int64(x) => Some(
            ValueV::Int64(
                if x == 0x7fff_ffff_ffff_ffffi64 {
                    (-0x8000_0000_0000_0000) as i64
                } else {
                    (x + 1) as i64
                },
            ),
        ),
        _ => None,
    }
}

/// Append a byte slice to a buffer.
fn push_bytes(out: &mut Vec<u8>, s: &[u8])
    ensures
        final(out)@ == old(out)@ + s@,
{
    let mut i: usize = 0;
    while i < s.len()
        invariant
            i <= s@.len(),
            out@ == old(out)@ + s@.take(i as int),
        decreases s@.len() - i,
    {
        out.push(s[i]);
        i = i + 1;
        proof {
            assert(out@ =~= old(out)@ + s@.take(i as int));
        }
    }
    proof {
        assert(out@ =~= old(out)@ + s@);
    }
}

/// Splice a delta into a base byte string.
fn bytes_apply_delta(base: &[u8], diff: &[u8], sub: i32) -> (r: Result<Vec<u8>, Error>)
    ensures
        match r {
            Ok(v) => seq_delta(base@, diff@, sub as int) == Some(v@),
            Err(_) => seq_delta(base@, diff@, sub as int) is None,
        },
{
    let mut out: Vec<u8> = Vec::new();
    if sub < 0 {
        let i: u64 = (-(sub as i64) - 1) as u64;
        if i > base.len() as u64 {
            return Err(Error::Dynamic(
                "subtraction length is larger than string length".to_owned(),
            ));
        }
        push_bytes(&mut out, diff);
        let rest = &base[(i as usize)..base.len()];
        proof {
            assert(rest@ =~= base@.skip(i as int));
        }
        push_bytes(&mut out, rest);
        Ok(out)
    } else {
        let i: u64 = sub as u64;
        if i > base.len() as u64 {
            return Err(Error::Dynamic(
                "subtraction length is larger than string length".to_owned(),
            ));
        }
        let head = &base[0..(base.len() - i as usize)];
        proof {
            assert(head@ =~= base@.take(base@.len() - sub));
        }
        push_bytes(&mut out, head);
        push_bytes(&mut out, diff);
        Ok(out)
    }
}

/// The byte codes of an ASCII character sequence.
pub open spec fn ascii_bytes(s: Seq<char>) -> Seq<u8> {
    Seq::new(s.len(), |i: int| s[i] as u8)
}

/// For ASCII text the byte codes and the characters determine one another.
proof fn lemma_ascii_bytes_chars(s: Seq<char>)
    requires
        is_ascii_chars(s),
    ensures
        ascii_bytes(s).map_values(|b: u8| b as char) == s,
        forall|i: int| 0 <= i < s.len() ==> ascii_bytes(s)[i] < 128,
{
    broadcast use vstd::utf8::char_is_scalar;

    let m = ascii_bytes(s).map_values(|b: u8| b as char);
    assert forall|i: int| 0 <= i < s.len() implies m[i] == s[i] by {
        let c = s[i];
        assert(c as u32 <= 127);
        let b = c as u8;
        assert(b as u32 == c as u32);
        vstd::utf8::char_u32_cast(c, c as u32);
        assert((b as char) as u32 == b as u32);
        vstd::utf8::char_u32_cast(b as char, b as u32);
    }
    assert(m =~= s);
    assert forall|i: int| 0 <= i < s.len() implies ascii_bytes(s)[i] < 128 by {
        assert(s[i] as u32 <= 127);
    }
}

/// The byte view of an ASCII `&str` is its character codes.
proof fn lemma_str_ascii_bytes(s: &str)
    requires
        s.is_ascii(),
    ensures
        s.spec_bytes() == ascii_bytes(s@),
        is_ascii_chars(s@),
{
    broadcast use vstd::string::is_ascii_spec_bytes;

    assert(s.spec_bytes() =~= ascii_bytes(s@));
}

/// Turn a buffer of bytes into the `String` they spell in UTF-8.
///
/// Relies on `String::from_utf8`: it succeeds exactly on valid UTF-8 and
/// decodes it; the validity and decoding notions are those modelled by
/// `vstd::utf8`.
#[verifier::external_body]
pub(crate) fn utf8_to_string(bytes: Vec<u8>) -> (r: Result<String, Error>)
    ensures
        match r {
            Ok(s) => valid_utf8(bytes@) && s@ == decode_utf8(bytes@),
            Err(e) => !valid_utf8(bytes@) && e is Dynamic,
        },
{
    match String::from_utf8(bytes) {
        Ok(s) => Ok(s),
        Err(_) => Err(Error::Dynamic("invalid UTF-8".to_owned())),
    }
}

impl Value {
    /// Combine this base value with a transmitted delta.
    pub fn apply_delta(&self, delta: Value, sub: i32) -> (r: Result<Value, Error>)
        ensures
            match r {
                Ok(v) => spec_apply_delta(self@, delta@, sub as int) == Some(v@),
                Err(_) => spec_apply_delta(self@, delta@, sub as int) is None,
            },
    {
        match (self, &delta) {
            (Value::UInt32(v), Value::Int64(d)) => {
                match (*v as u64).checked_add_signed(*d) {
                    Some(s) => if s <= 0xffff_ffffu64 {
                        Ok(Value::UInt32(s as u32))
                    } else {
                        Err(Error::Dynamic("uInt32 delta out of range".to_owned()))
                    },
                    None => Err(Error::Dynamic("uInt32 delta out of range".to_owned())),
                }
            },
            (Value::Int32(v), Value::Int64(d)) => {
                match (*v as i64).checked_add(*d) {
                    Some(s) => if -0x8000_0000i64 <= s && s <= 0x7fff_ffffi64 {
                        Ok(Value::Int32(s as i32))
                    } else {
                        Err(Error::Dynamic("int32 delta out of range".to_owned()))
                    },
                    None => Err(Error::Dynamic("int32 delta out of range".to_owned())),
                }
            },
            (Value::UInt64(v), Value::Int64(d)) => {
                match v.checked_add_signed(*d) {
                    Some(s) => Ok(Value::UInt64(s)),
                    None => Err(Error::Dynamic("uInt64 delta out of range".to_owned())),
                }
            },
            (Value::Int64(v), Value::Int64(d)) => {
                match v.checked_add(*d) {
                    Some(s) => Ok(Value::Int64(s)),
                    None => Err(Error::Dynamic("int64 delta out of range".to_owned())),
                }
            },
            (Value::ASCIIString(v), Value::ASCIIString(d)) => {
                let vs = v.as_str();
                let ds = d.as_str();
                if !vs.is_ascii() || !ds.is_ascii() {
                    return Err(Error::Runtime("delta on non-ASCII string".to_owned()));
                }
                proof {
                    lemma_str_ascii_bytes(vs);
                    lemma_str_ascii_bytes(ds);
                }
                let combined = match bytes_apply_delta(vs.as_bytes(), ds.as_bytes(), sub) {
                    Ok(c) => c,
                    Err(e) => {
                        proof {
                            lemma_seq_delta_ascii_none(v@, d@, sub as int);
                        }
                        return Err(e);
                    },
                };
                proof {
                    lemma_seq_delta_ascii(v@, d@, sub as int, combined@);
                }
                Ok(Value::ASCIIString(ascii_to_string(combined)))
            },
            (Value::Bytes(v), Value::Bytes(d)) => {
                match bytes_apply_delta(v.as_slice(), d.as_slice(), sub) {
                    Ok(c) => Ok(Value::Bytes(c)),
                    Err(e) => Err(e),
                }
            },
            (Value::UnicodeString(v), Value::Bytes(d)) => {
                let combined = match bytes_apply_delta(v.as_str().as_bytes(), d.as_slice(), sub) {
                    Ok(c) => c,
                    Err(e) => {
                        return Err(e);
                    },
                };
                match utf8_to_string(combined) {
                    Ok(s) => Ok(Value::UnicodeString(s)),
                    Err(e) => Err(e),
                }
            },
            _ => Err(Error::Runtime("cannot apply delta".to_owned())),
        }
    }

    /// Combine this base value with a transmitted tail.
    pub fn apply_tail(&self, tail: Value) -> (r: Result<Value, Error>)
        ensures
            match r {
                Ok(v) => spec_apply_tail(self@, tail@) == Some(v@),
                Err(_) => spec_apply_tail(self@, tail@) is None,
            },
    {
        match (self, &tail) {
            (Value::ASCIIString(v), Value::ASCIIString(t)) => {
                let vs = v.as_str();
                let ts = t.as_str();
                if !vs.is_ascii() || !ts.is_ascii() {
                    return Err(Error::Runtime("tail on non-ASCII string".to_owned()));
                }
                proof {
                    lemma_str_ascii_bytes(vs);
                    lemma_str_ascii_bytes(ts);
                }
                let combined = bytes_seq_tail(vs.as_bytes(), ts.as_bytes());
                proof {
                    lemma_seq_tail_ascii(v@, t@, combined@);
                }
                Ok(Value::ASCIIString(ascii_to_string(combined)))
            },
            (Value::Bytes(v), Value::Bytes(t)) => {
                Ok(Value::Bytes(bytes_seq_tail(v.as_slice(), t.as_slice())))
            },
            (Value::UnicodeString(v), Value::Bytes(t)) => {
                let combined = bytes_seq_tail(v.as_str().as_bytes(), t.as_slice());
                match utf8_to_string(combined) {
                    Ok(s) => Ok(Value::UnicodeString(s)),
                    Err(e) => Err(e),
                }
            },
            _ => Err(Error::Runtime("cannot apply tail".to_owned())),
        }
    }

    /// The next value of an integer field under the increment operator.
    pub fn apply_increment(&self) -> (r: Result<Value, Error>)
        ensures
            match r {
                Ok(v) => spec_apply_increment(self@) == Some(v@),
                Err(_) => spec_apply_increment(self@) is None,
            },
    {
        match self {
            Value::UInt32(v) => Ok(Value::UInt32(v.wrapping_add(1))),
            Value::Int32(v) => Ok(Value::Int32(v.wrapping_add(1))),
            Value::UInt64(v) => Ok(Value::UInt64(v.wrapping_add(1))),
            Value::Int64(v) => Ok(Value::Int64(v.wrapping_add(1))),
            _ => Err(Error::Runtime("cannot apply increment".to_owned())),
        }
    }
}

/// Splice a tail onto a base byte string.
fn bytes_seq_tail(base: &[u8], tail: &[u8]) -> (r: Vec<u8>)
    ensures
        r@ == seq_tail(base@, tail@),
{
    let n: usize = if tail.len() < base.len() {
        tail.len()
    } else {
        base.len()
    };
    let mut out: Vec<u8> = Vec::new();
    let head = &base[0..base.len() - n];
    proof {
        assert(head@ =~= base@.take(base@.len() - n));
    }
    push_bytes(&mut out, head);
    push_bytes(&mut out, tail);
    out
}

/// Byte-level splicing mirrors character-level splicing on ASCII text, and
/// the splice of ASCII text is ASCII.
proof fn lemma_seq_delta_ascii(s: Seq<char>, d: Seq<char>, sub: int, combined: Seq<u8>)
    requires
        is_ascii_chars(s),
        is_ascii_chars(d),
        seq_delta(ascii_bytes(s), ascii_bytes(d), sub) == Some(combined),
    ensures
        seq_delta(s, d, sub) is Some,
        combined.map_values(|b: u8| b as char) == seq_delta(s, d, sub)->Some_0,
        forall|i: int| 0 <= i < combined.len() ==> combined[i] < 128,
{
    let cs = seq_delta(s, d, sub)->Some_0;
    assert(combined =~= ascii_bytes(cs)) by {
        if sub < 0 {
            assert(ascii_bytes(s).skip(-sub - 1) =~= ascii_bytes(s.skip(-sub - 1)));
            assert(ascii_bytes(d) + ascii_bytes(s.skip(-sub - 1)) =~= ascii_bytes(
                d + s.skip(-sub - 1),
            ));
        } else {
            assert(ascii_bytes(s).take(s.len() - sub) =~= ascii_bytes(s.take(s.len() - sub)));
            assert(ascii_bytes(s.take(s.len() - sub)) + ascii_bytes(d) =~= ascii_bytes(
                s.take(s.len() - sub) + d,
            ));
        }
    }
    assert(is_ascii_chars(cs)) by {
        if sub < 0 {
            assert forall|i: int| 0 <= i < cs.len() implies '\0' <= #[trigger] cs[i] <= '\u{7f}' by {
                if i < d.len() {
                    assert(cs[i] == d[i]);
                } else {
                    assert(cs[i] == s[i - d.len() + (-sub - 1)]);
                }
            }
        } else {
            assert forall|i: int| 0 <= i < cs.len() implies '\0' <= #[trigger] cs[i] <= '\u{7f}' by {
                if i < s.len() - sub {
                    assert(cs[i] == s[i]);
                } else {
                    assert(cs[i] == d[i - (s.len() - sub)]);
                }
            }
        }
    }
    lemma_ascii_bytes_chars(cs);
}

/// When the byte-level splice fails, so does the character-level one.
proof fn lemma_seq_delta_ascii_none(s: Seq<char>, d: Seq<char>, sub: int)
    requires
        seq_delta(ascii_bytes(s), ascii_bytes(d), sub) is None,
    ensures
        seq_delta(s, d, sub) is None,
{
}

/// Byte-level tails mirror character-level tails on ASCII text.
proof fn lemma_seq_tail_ascii(s: Seq<char>, t: Seq<char>, combined: Seq<u8>)
    requires
        is_ascii_chars(s),
        is_ascii_chars(t),
        combined == seq_tail(ascii_bytes(s), ascii_bytes(t)),
    ensures
        combined.map_values(|b: u8| b as char) == seq_tail(s, t),
        forall|i: int| 0 <= i < combined.len() ==> combined[i] < 128,
{
    let cs = seq_tail(s, t);
    assert(combined =~= ascii_bytes(cs)) by {
        let n = if t.len() < s.len() {
            t.len() as int
        } else {
            s.len() as int
        };
        assert(ascii_bytes(s).take(s.len() - n) =~= ascii_bytes(s.take(s.len() - n)));
        assert(ascii_bytes(s.take(s.len() - n)) + ascii_bytes(t) =~= ascii_bytes(
            s.take(s.len() - n) + t,
        ));
    }
    assert(is_ascii_chars(cs)) by {
        let n = if t.len() < s.len() {
            t.len() as int
        } else {
            s.len() as int
        };
        assert forall|i: int| 0 <= i < cs.len() implies '\0' <= #[trigger] cs[i] <= '\u{7f}' by {
            if i < s.len() - n {
                assert(cs[i] == s[i]);
            } else {
                assert(cs[i] == t[i - (s.len() - n)]);
            }
        }
    }
    lemma_ascii_bytes_chars(cs);
}

/// Value of an optionally `+`-signed digit string, when it is at most `max`.
pub open spec fn spec_parse_uint(b: Seq<u8>, max: int) -> Option<int> {
    if has_int_shape(b) && b[0] != 45 && int_shape_val(b) <= max {
        Some(int_shape_val(b))
    } else {
        None
    }
}

/// Value of an optionally signed digit string, when it lies in `[min, max]`.
pub open spec fn spec_parse_int(b: Seq<u8>, min: int, max: int) -> Option<int> {
    if has_int_shape(b) && min <= int_shape_val(b) <= max {
        Some(int_shape_val(b))
    } else {
        None
    }
}

/// Parse an unsigned decimal literal with an optional leading `+`.
pub fn parse_uint_bytes(s: &[u8], limit: u64) -> (r: Option<u64>)
    ensures
        match r {
            Some(v) => spec_parse_uint(s@, limit as int) == Some(v as int),
            None => spec_parse_uint(s@, limit as int) is None,
        },
{
    if s.len() == 0 {
        return None;
    }
    let first = s[0];
    if first == 45 {
        return None;
    }
    let start: usize = if first == 43 {
        1
    } else {
        0
    };
    match parse_digits_limited(s, start, limit) {
        None => {
            proof {
                if has_int_shape(s@) {
                    if s@[0] == 43 {
                        assert(s@.skip(1) == s@.skip(start as int));
                    } else {
                        assert(s@.skip(0) =~= s@);
                    }
                }
            }
            None
        },
        Some(v) => {
            proof {
                if s@[0] == 43 {
                    assert(s@.skip(1) == s@.skip(start as int));
                } else {
                    assert(s@.skip(0) =~= s@);
                }
            }
            Some(v)
        },
    }
}

/// What a string literal converts to in each field kind: the numeric kinds
/// parse in their ranges, the decimal normalizes, strings stay as they are,
/// and byte vectors read a hex literal.
pub open spec fn spec_value_from_string(kind: ValueV, s: Seq<char>) -> Option<ValueV> {
    let b = encode_utf8(s);
    match kind {
        ValueV::UInt32(_) => match spec_parse_uint(b, 0xffff_ffff) {
            Some(v) => Some(ValueV::UInt32(v as u32)),
            None => None,
        },
        ValueV::Int32(_) => match spec_parse_int(b, -0x8000_0000, 0x7fff_ffff) {
            Some(v) => Some(ValueV::Int32(v as i32)),
            None => None,
        },
        ValueV::UInt64(_) => match spec_parse_uint(b, 0xffff_ffff_ffff_ffff) {
            Some(v) => Some(ValueV::UInt64(v as u64)),
            None => None,
        },
        ValueV::Int64(_) => match spec_parse_int(
            b,
            -0x8000_0000_0000_0000,
            0x7fff_ffff_ffff_ffff,
        ) {
            Some(v) => Some(ValueV::Int64(v as i64)),
            None => None,
        },
        ValueV::Decimal(_, _) => match spec_parse_decimal(b) {
            Some((e, m)) => Some(ValueV::Decimal(e, m)),
            None => None,
        },
        ValueV::Ascii(_) => Some(ValueV::Ascii(s)),
        ValueV::Unicode(_) => Some(ValueV::Unicode(s)),
        ValueV::Bytes(_) => {
            let cleaned = hex_cleaned(b);
            if cleaned.len() % 2 == 0 && all_hex_digits(cleaned) {
                Some(ValueV::Bytes(hex_bytes_of(cleaned)))
            } else {
                None
            }
        },
    }
}

impl Value {
    /// Replace this value with one parsed from a string literal, keeping the
    /// kind.  On failure the value is left unchanged.
    pub fn set_from_string(&mut self, s: &str) -> (r: Result<(), Error>)
        ensures
            match r {
                Ok(_) => spec_value_from_string(old(self)@, s@) == Some(final(self)@),
                Err(_) => spec_value_from_string(old(self)@, s@) is None && *final(self)
                    == *old(self),
            },
    {
        let b = s.as_bytes();
        match self {
            Value::UInt32(_) => {
                match parse_uint_bytes(b, 0xffff_ffff) {
                    Some(v) => {
                        *self = Value::UInt32(v as u32);
                        Ok(())
                    },
                    None => Err(Error::Static("not a uInt32".to_owned())),
                }
            },
            Value::Int32(_) => {
                match parse_i64_bytes(b) {
                    Some(v) => if -0x8000_0000i64 <= v && v <= 0x7fff_ffffi64 {
                        *self = Value::Int32(v as i32);
                        Ok(())
                    } else {
                        Err(Error::Static("not an int32".to_owned()))
                    },
                    None => Err(Error::Static("not an int32".to_owned())),
                }
            },
            Value::UInt64(_) => {
                match parse_uint_bytes(b, 0xffff_ffff_ffff_ffff) {
                    Some(v) => {
                        *self = Value::UInt64(v);
                        Ok(())
                    },
                    None => Err(Error::Static("not a uInt64".to_owned())),
                }
            },
            Value::Int64(_) => {
                match parse_i64_bytes(b) {
                    Some(v) => {
                        *self = Value::Int64(v);
                        Ok(())
                    },
                    None => Err(Error::Static("not an int64".to_owned())),
                }
            },
            Value::Decimal(_) => {
                match parse_decimal_bytes(b) {
                    Ok(d) => {
                        *self = Value::Decimal(d);
                        Ok(())
                    },
                    Err(e) => Err(e),
                }
            },
            Value::ASCIIString(_) => {
                *self = Value::ASCIIString(s.to_owned());
                Ok(())
            },
            Value::UnicodeString(_) => {
                *self = Value::UnicodeString(s.to_owned());
                Ok(())
            },
            Value::Bytes(_) => {
                match string_to_bytes(s) {
                    Ok(v) => {
                        *self = Value::Bytes(v);
                        Ok(())
                    },
                    Err(e) => Err(e),
                }
            },
        }
    }

    /// Which pairs of values the encoder can take a delta between.
    pub open spec fn spec_delta_findable(v: ValueV, p: ValueV) -> bool {
        match (v, p) {
            (ValueV::UInt32(_), ValueV::UInt32(_)) => true,
            (ValueV::Int32(_), ValueV::Int32(_)) => true,
            (ValueV::UInt64(x), ValueV::UInt64(y)) => -0x8000_0000_0000_0000 <= x - y
                <= 0x7fff_ffff_ffff_ffff,
            (ValueV::Int64(x), ValueV::Int64(y)) => -0x8000_0000_0000_0000 <= x - y
                <= 0x7fff_ffff_ffff_ffff,
            (ValueV::Ascii(a), ValueV::Ascii(b)) => is_ascii_chars(a) && is_ascii_chars(b)
                && a.len() < 0x8000_0000 && b.len() < 0x8000_0000,
            (ValueV::Unicode(a), ValueV::Unicode(b)) => encode_utf8(a).len() < 0x8000_0000
                && encode_utf8(b).len() < 0x8000_0000,
            (ValueV::Bytes(a), ValueV::Bytes(b)) => a.len() < 0x8000_0000 && b.len()
                < 0x8000_0000,
            _ => false,
        }
    }

    /// What the encoder sends for this value against the previous one: the
    /// integer difference, or the spliced text with its subtraction length.
    pub open spec fn spec_find_delta_value(v: ValueV, p: ValueV) -> (ValueV, int) {
        match (v, p) {
            (ValueV::UInt32(x), ValueV::UInt32(y)) => (ValueV::Int64((x - y) as i64), 0),
            (ValueV::Int32(x), ValueV::Int32(y)) => (ValueV::Int64((x - y) as i64), 0),
            (ValueV::UInt64(x), ValueV::UInt64(y)) => (ValueV::Int64((x - y) as i64), 0),
            (ValueV::Int64(x), ValueV::Int64(y)) => (ValueV::Int64((x - y) as i64), 0),
            (ValueV::Ascii(a), ValueV::Ascii(b)) => {
                let (d, sub) = spec_find_delta(b, a);
                (ValueV::Ascii(d), sub)
            },
            (ValueV::Unicode(a), ValueV::Unicode(b)) => {
                let (d, sub) = spec_find_delta(encode_utf8(b), encode_utf8(a));
                (ValueV::Bytes(d), sub)
            },
            (ValueV::Bytes(a), ValueV::Bytes(b)) => {
                let (d, sub) = spec_find_delta(b, a);
                (ValueV::Bytes(d), sub)
            },
            _ => (ValueV::Int64(0), 0),
        }
    }

    /// Find the delta to transmit so that `prev` becomes `self`.
    pub fn find_delta(&self, prev: &Value) -> (r: Result<(Value, i32), Error>)
        requires
            Value::spec_delta_findable(self@, prev@),
        ensures
            match r {
                Ok((d, sub)) => (d@, sub as int) == Value::spec_find_delta_value(self@, prev@),
                Err(_) => false,
            },
    {
        match (self, prev) {
            (Value::UInt32(v), Value::UInt32(p)) => Ok(
                (Value::Int64(*v as i64 - *p as i64), 0),
            ),
            (Value::Int32(v), Value::Int32(p)) => Ok((Value::Int64(*v as i64 - *p as i64), 0)),
            (Value::UInt64(v), Value::UInt64(p)) => {
                if *v < *p {
                    let diff: u64 = *p - *v;
                    if diff == 0x8000_0000_0000_0000u64 {
                        Ok((Value::Int64(i64::MIN), 0))
                    } else {
                        Ok((Value::Int64(-(diff as i64)), 0))
                    }
                } else {
                    Ok((Value::Int64((*v - *p) as i64), 0))
                }
            },
            (Value::Int64(v), Value::Int64(p)) => Ok((Value::Int64(*v - *p), 0)),
            (Value::ASCIIString(v), Value::ASCIIString(p)) => {
                let (d, sub) = match string_delta(p.as_str(), v.as_str()) {
                    Ok(ds) => ds,
                    Err(e) => {
                        return Err(e);
                    },
                };
                Ok((Value::ASCIIString(d.to_owned()), sub))
            },
            (Value::UnicodeString(v), Value::UnicodeString(p)) => {
                let (d, sub) = match bytes_delta(p.as_str().as_bytes(), v.as_str().as_bytes()) {
                    Ok(ds) => ds,
                    Err(e) => {
                        return Err(e);
                    },
                };
                Ok((Value::Bytes(vec_from_slice(d)), sub))
            },
            (Value::Bytes(v), Value::Bytes(p)) => {
                let (d, sub) = match bytes_delta(p.as_slice(), v.as_slice()) {
                    Ok(ds) => ds,
                    Err(e) => {
                        return Err(e);
                    },
                };
                Ok((Value::Bytes(vec_from_slice(d)), sub))
            },
            _ => {
                proof {
                    assert(false);
                }
                Err(Error::Runtime("cannot find delta".to_owned()))
            },
        }
    }

    /// Which pairs of values the encoder can take a tail between.
    pub open spec fn spec_tail_findable(v: ValueV, p: ValueV) -> bool {
        match (v, p) {
            (ValueV::Ascii(a), ValueV::Ascii(b)) => is_ascii_chars(a) && is_ascii_chars(b),
            (ValueV::Unicode(_), ValueV::Unicode(_)) => true,
            (ValueV::Bytes(_), ValueV::Bytes(_)) => true,
            _ => false,
        }
    }

    /// The tail to transmit, when the new value is no shorter.
    pub open spec fn spec_find_tail_value(v: ValueV, p: ValueV) -> Option<ValueV> {
        match (v, p) {
            (ValueV::Ascii(a), ValueV::Ascii(b)) => match spec_find_tail(b, a) {
                Some(t) => Some(ValueV::Ascii(t)),
                None => None,
            },
            (ValueV::Unicode(a), ValueV::Unicode(b)) => match spec_find_tail(
                encode_utf8(b),
                encode_utf8(a),
            ) {
                Some(t) => Some(ValueV::Bytes(t)),
                None => None,
            },
            (ValueV::Bytes(a), ValueV::Bytes(b)) => match spec_find_tail(b, a) {
                Some(t) => Some(ValueV::Bytes(t)),
                None => None,
            },
            _ => None,
        }
    }

    /// Find the tail to transmit so that `prev` becomes `self`.
    pub fn find_tail(&self, prev: &Value) -> (r: Result<Value, Error>)
        requires
            Value::spec_tail_findable(self@, prev@),
        ensures
            match r {
                Ok(t) => Value::spec_find_tail_value(self@, prev@) == Some(t@),
                Err(_) => Value::spec_find_tail_value(self@, prev@) is None,
            },
    {
        match (self, prev) {
            (Value::ASCIIString(v), Value::ASCIIString(p)) => {
                match string_tail(p.as_str(), v.as_str()) {
                    Ok(t) => Ok(Value::ASCIIString(t.to_owned())),
                    Err(e) => Err(e),
                }
            },
            (Value::UnicodeString(v), Value::UnicodeString(p)) => {
                match bytes_tail(p.as_str().as_bytes(), v.as_str().as_bytes()) {
                    Ok(t) => Ok(Value::Bytes(vec_from_slice(t))),
                    Err(e) => Err(e),
                }
            },
            (Value::Bytes(v), Value::Bytes(p)) => {
                match bytes_tail(p.as_slice(), v.as_slice()) {
                    Ok(t) => Ok(Value::Bytes(vec_from_slice(t))),
                    Err(e) => Err(e),
                }
            },
            _ => {
                proof {
                    assert(false);
                }
                Err(Error::Runtime("cannot find tail".to_owned()))
            },
        }
    }
}

/// An owned copy of a byte slice.
pub fn vec_from_slice(s: &[u8]) -> (r: Vec<u8>)
    ensures
        r@ == s@,
{
    let mut out: Vec<u8> = Vec::new();
    push_bytes(&mut out, s);
    proof {
        assert(Seq::<u8>::empty() + s@ =~= s@);
    }
    out
}

/// The field kind a template XML tag names; a `string` tag yields the
/// Unicode variant when the charset says so.
pub open spec fn spec_type_from_tag(tag: Seq<char>, unicode: bool) -> Option<ValueType> {
    if tag == "uInt32"@ {
        Some(ValueType::UInt32)
    } else if tag == "int32"@ {
        Some(ValueType::Int32)
    } else if tag == "uInt64"@ {
        Some(ValueType::UInt64)
    } else if tag == "int64"@ {
        Some(ValueType::Int64)
    } else if tag == "length"@ {
        Some(ValueType::Length)
    } else if tag == "exponent"@ {
        Some(ValueType::Exponent)
    } else if tag == "mantissa"@ {
        Some(ValueType::Mantissa)
    } else if tag == "decimal"@ {
        Some(ValueType::Decimal)
    } else if tag == "string"@ {
        if unicode {
            Some(ValueType::UnicodeString)
        } else {
            Some(ValueType::ASCIIString)
        }
    } else if tag == "byteVector"@ {
        Some(ValueType::Bytes)
    } else if tag == "sequence"@ {
        Some(ValueType::Sequence)
    } else if tag == "group"@ {
        Some(ValueType::Group)
    } else if tag == "templateRef"@ {
        Some(ValueType::TemplateReference)
    } else {
        None
    }
}

/// What a string literal converts to in a field of the given kind.
pub open spec fn spec_str_to_value(kind: ValueType, s: Seq<char>) -> Option<ValueV> {
    match kind.spec_default_value() {
        Some(base) => spec_value_from_string(base, s),
        None => None,
    }
}

impl ValueType {
    /// The field kind for an XML tag.
    pub fn new_from_tag(tag: &str, unicode: bool) -> (r: Result<Self, Error>)
        ensures
            match r {
                Ok(t) => spec_type_from_tag(tag@, unicode) == Some(t),
                Err(e) => spec_type_from_tag(tag@, unicode) is None && e is Static,
            },
    {
        if str_eq(tag, "uInt32") {
            Ok(Self::UInt32)
        } else if str_eq(tag, "int32") {
            Ok(Self::Int32)
        } else if str_eq(tag, "uInt64") {
            Ok(Self::UInt64)
        } else if str_eq(tag, "int64") {
            Ok(Self::Int64)
        } else if str_eq(tag, "length") {
            Ok(Self::Length)
        } else if str_eq(tag, "exponent") {
            Ok(Self::Exponent)
        } else if str_eq(tag, "mantissa") {
            Ok(Self::Mantissa)
        } else if str_eq(tag, "decimal") {
            Ok(Self::Decimal)
        } else if str_eq(tag, "string") {
            if unicode {
                Ok(Self::UnicodeString)
            } else {
                Ok(Self::ASCIIString)
            }
        } else if str_eq(tag, "byteVector") {
            Ok(Self::Bytes)
        } else if str_eq(tag, "sequence") {
            Ok(Self::Sequence)
        } else if str_eq(tag, "group") {
            Ok(Self::Group)
        } else if str_eq(tag, "templateRef") {
            Ok(Self::TemplateReference)
        } else {
            Err(Error::Static("unknown type".to_owned()))
        }
    }

    /// Convert a string literal to a value of this kind.
    pub fn str_to_value(&self, s: &str) -> (r: Result<Value, Error>)
        ensures
            match r {
                Ok(v) => spec_str_to_value(*self, s@) == Some(v@),
                Err(_) => spec_str_to_value(*self, s@) is None,
            },
    {
        let mut value = match self.to_default_value() {
            Ok(v) => v,
            Err(e) => {
                return Err(e);
            },
        };
        match value.set_from_string(s) {
            Ok(_) => Ok(value),
            Err(e) => Err(e),
        }
    }
}

/// A parsed initial value has the kind it was parsed for.
pub proof fn lemma_str_to_value_kind(kind: ValueType, s: Seq<char>)
    ensures
        match spec_str_to_value(kind, s) {
            Some(v) => kind.spec_matches(v),
            None => true,
        },
{
    match kind.spec_default_value() {
        Some(base) => {
            match spec_value_from_string(base, s) {
                Some(v) => {
                    assert(kind.spec_matches(v));
                },
                None => {},
            }
        },
        None => {},
    }
}

/// The kind's fallback base value has the kind.
pub proof fn lemma_default_value_matches(vt: ValueType)
    ensures
        match vt.spec_default_value() {
            Some(d) => vt.spec_matches(d),
            None => true,
        },
{
}

/// Applying a delta keeps the base's kind, up to the Unicode byte carrier.
pub proof fn lemma_apply_delta_keeps_kind(vt: ValueType, base: ValueV, d: ValueV, sub: int)
    requires
        vt.spec_matches(base),
        spec_apply_delta(base, d, sub) is Some,
    ensures
        vt.spec_matches(spec_apply_delta(base, d, sub)->0),
{
}

/// Applying a tail keeps the base's kind.
pub proof fn lemma_apply_tail_keeps_kind(vt: ValueType, base: ValueV, t: ValueV)
    requires
        vt.spec_matches(base),
        spec_apply_tail(base, t) is Some,
    ensures
        vt.spec_matches(spec_apply_tail(base, t)->0),
{
}

/// Incrementing keeps the kind.
pub proof fn lemma_apply_increment_keeps_kind(vt: ValueType, v: ValueV)
    requires
        vt.spec_matches(v),
        spec_apply_increment(v) is Some,
    ensures
        vt.spec_matches(spec_apply_increment(v)->0),
{
}

} // verus!
