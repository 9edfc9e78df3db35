//! Self-describing values for operation slots whose concrete type is not
//! known on both sides of the process boundary.
//!
//! When an operation's argument or result type is a schema type parameter
//! that the generated stubs could not monomorphize across the boundary, that
//! slot travels as an [`OpaqueValue`]: a tagged union of primitives,
//! byte strings, sequences and string-keyed mappings. Floating-point slots
//! are carried as their IEEE 754 bit pattern, so the value is plain data on
//! both sides. Conversions to and from concrete types round-trip losslessly;
//! a conversion applied to the wrong shape fails with
//! [`DecodeError::TypeMismatch`].

use vstd::prelude::*;

use crate::error::DecodeError;

verus! {

/// An opaque, self-describing value.
///
/// Integers are carried as `i64`, floating-point numbers as the `u64` bit
/// pattern of their IEEE 754 double-precision representation, and mappings
/// as a sequence of string-keyed entries in insertion order.
#[derive(Debug, PartialEq, Eq)]
pub enum OpaqueValue {
    Null,
    Bool(bool),
    Int(i64),
    Uint(u64),
    Float(u64),
    Text(String),
    Bytes(Vec<u8>),
    Array(Vec<OpaqueValue>),
    Mapping(Vec<(String, OpaqueValue)>),
}

/// The mathematical model of an [`OpaqueValue`].
pub enum OpaqueData {
    Null,
    Bool(bool),
    Int(i64),
    Uint(u64),
    Float(u64),
    Text(Seq<char>),
    Bytes(Seq<u8>),
    Array(Seq<OpaqueData>),
    Mapping(Seq<(Seq<char>, OpaqueData)>),
}

impl OpaqueValue {
    /// The model this value denotes.
    pub open spec fn deep(self) -> OpaqueData
        decreases self,
    {
        match self {
            OpaqueValue::Null => OpaqueData::Null,
            OpaqueValue::Bool(b) => OpaqueData::Bool(b),
            OpaqueValue::Int(i) => OpaqueData::Int(i),
            OpaqueValue::Uint(u) => OpaqueData::Uint(u),
            OpaqueValue::Float(bits) => OpaqueData::Float(bits),
            OpaqueValue::Text(s) => OpaqueData::Text(s@),
            OpaqueValue::Bytes(b) => OpaqueData::Bytes(b@),
            OpaqueValue::Array(items) => OpaqueData::Array(deep_seq(items@)),
            OpaqueValue::Mapping(entries) => OpaqueData::Mapping(deep_entries(entries@)),
        }
    }
}

/// The models of a sequence of opaque values, elementwise.
pub open spec fn deep_seq(items: Seq<OpaqueValue>) -> Seq<OpaqueData>
    decreases items,
{
    if items.len() == 0 {
        Seq::empty()
    } else {
        seq![items[0].deep()] + deep_seq(items.drop_first())
    }
}

/// The models of a sequence of mapping entries, elementwise.
pub open spec fn deep_entries(entries: Seq<(String, OpaqueValue)>) -> Seq<
    (Seq<char>, OpaqueData),
>
    decreases entries,
{
    if entries.len() == 0 {
        Seq::empty()
    } else {
        seq![(entries[0].0@, entries[0].1.deep())] + deep_entries(entries.drop_first())
    }
}

/// `deep_seq` maps each element to its model.
pub proof fn lemma_deep_seq(items: Seq<OpaqueValue>)
    ensures
        deep_seq(items).len() == items.len(),
        forall|i: int| 0 <= i < items.len() ==> deep_seq(items)[i] == items[i].deep(),
    decreases items.len(),
{
    if items.len() > 0 {
        lemma_deep_seq(items.drop_first());
    }
}

/// `deep_entries` maps each entry to its model.
pub proof fn lemma_deep_entries(entries: Seq<(String, OpaqueValue)>)
    ensures
        deep_entries(entries).len() == entries.len(),
        forall|i: int|
            0 <= i < entries.len() ==> deep_entries(entries)[i] == (
            entries[i].0@,
            entries[i].1.deep(),
            ),
    decreases entries.len(),
{
    if entries.len() > 0 {
        lemma_deep_entries(entries.drop_first());
    }
}

impl View for OpaqueValue {
    type V = OpaqueData;

    open spec fn view(&self) -> OpaqueData {
        self.deep()
    }
}

/// Appending a value appends its model.
pub proof fn lemma_deep_seq_snoc(items: Seq<OpaqueValue>, v: OpaqueValue)
    ensures
        deep_seq(items.push(v)) == deep_seq(items).push(v.deep()),
{
    lemma_deep_seq(items);
    lemma_deep_seq(items.push(v));
    assert(deep_seq(items.push(v)) =~= deep_seq(items).push(v.deep()));
}

/// Appending an entry appends its model.
pub proof fn lemma_deep_entries_snoc(entries: Seq<(String, OpaqueValue)>, e: (String, OpaqueValue))
    ensures
        deep_entries(entries.push(e)) == deep_entries(entries).push((e.0@, e.1.deep())),
{
    lemma_deep_entries(entries);
    lemma_deep_entries(entries.push(e));
    assert(deep_entries(entries.push(e)) =~= deep_entries(entries).push((e.0@, e.1.deep())));
}

/// Erase a boolean to an opaque value.
pub fn to_opaque_bool(value: bool) -> (r: OpaqueValue)
    ensures
        r@ == OpaqueData::Bool(value),
{
    OpaqueValue::Bool(value)
}

/// Recover a boolean from an opaque value; any other shape is a
/// `TypeMismatch`.
pub fn from_opaque_bool(value: &OpaqueValue) -> (r: Result<bool, DecodeError>)
    ensures
        match r {
            Ok(b) => value@ == OpaqueData::Bool(b),
            Err(e) => e == DecodeError::TypeMismatch && !(value@ is Bool),
        },
{
    match value {
        OpaqueValue::Bool(b) => Ok(*b),
        _ => Err(DecodeError::TypeMismatch),
    }
}

/// Erase an integer to an opaque value.
pub fn to_opaque_int(value: i64) -> (r: OpaqueValue)
    ensures
        r@ == OpaqueData::Int(value),
{
    OpaqueValue::Int(value)
}

/// Recover an integer from an opaque value; any other shape is a
/// `TypeMismatch`.
pub fn from_opaque_int(value: &OpaqueValue) -> (r: Result<i64, DecodeError>)
    ensures
        match r {
            Ok(i) => value@ == OpaqueData::Int(i),
            Err(e) => e == DecodeError::TypeMismatch && !(value@ is Int),
        },
{
    match value {
        OpaqueValue::Int(i) => Ok(*i),
        _ => Err(DecodeError::TypeMismatch),
    }
}

/// Erase an unsigned integer to an opaque value.
pub fn to_opaque_uint(value: u64) -> (r: OpaqueValue)
    ensures
        r@ == OpaqueData::Uint(value),
{
    OpaqueValue::Uint(value)
}

/// Recover an unsigned integer from an opaque value; any other shape is a
/// `TypeMismatch`.
pub fn from_opaque_uint(value: &OpaqueValue) -> (r: Result<u64, DecodeError>)
    ensures
        match r {
            Ok(u) => value@ == OpaqueData::Uint(u),
            Err(e) => e == DecodeError::TypeMismatch && !(value@ is Uint),
        },
{
    match value {
        OpaqueValue::Uint(u) => Ok(*u),
        _ => Err(DecodeError::TypeMismatch),
    }
}

/// Erase a floating-point bit pattern to an opaque value.
pub fn to_opaque_float_bits(bits: u64) -> (r: OpaqueValue)
    ensures
        r@ == OpaqueData::Float(bits),
{
    OpaqueValue::Float(bits)
}

/// Recover a floating-point bit pattern from an opaque value; any other
/// shape is a `TypeMismatch`.
pub fn from_opaque_float_bits(value: &OpaqueValue) -> (r: Result<u64, DecodeError>)
    ensures
        match r {
            Ok(bits) => value@ == OpaqueData::Float(bits),
            Err(e) => e == DecodeError::TypeMismatch && !(value@ is Float),
        },
{
    match value {
        OpaqueValue::Float(bits) => Ok(*bits),
        _ => Err(DecodeError::TypeMismatch),
    }
}

/// Erase a text value to an opaque value.
pub fn to_opaque_text(value: String) -> (r: OpaqueValue)
    ensures
        r@ == OpaqueData::Text(value@),
{
    OpaqueValue::Text(value)
}

/// Recover a text value from an opaque value; any other shape is a
/// `TypeMismatch`.
pub fn from_opaque_text(value: OpaqueValue) -> (r: Result<String, DecodeError>)
    ensures
        match r {
            Ok(s) => value@ == OpaqueData::Text(s@),
            Err(e) => e == DecodeError::TypeMismatch && !(value@ is Text),
        },
{
    match value {
        OpaqueValue::Text(s) => Ok(s),
        _ => Err(DecodeError::TypeMismatch),
    }
}

/// Erase a byte string to an opaque value.
pub fn to_opaque_bytes(value: Vec<u8>) -> (r: OpaqueValue)
    ensures
        r@ == OpaqueData::Bytes(value@),
{
    OpaqueValue::Bytes(value)
}

/// Recover a byte string from an opaque value; any other shape is a
/// `TypeMismatch`.
pub fn from_opaque_bytes(value: OpaqueValue) -> (r: Result<Vec<u8>, DecodeError>)
    ensures
        match r {
            Ok(b) => value@ == OpaqueData::Bytes(b@),
            Err(e) => e == DecodeError::TypeMismatch && !(value@ is Bytes),
        },
{
    match value {
        OpaqueValue::Bytes(b) => Ok(b),
        _ => Err(DecodeError::TypeMismatch),
    }
}

} // verus!
