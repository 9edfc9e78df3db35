//! Self-delimiting wire codec for opaque values.
//!
//! One encoded value is one tag byte followed by its payload; counts and
//! lengths travel as fixed-width little-endian 64-bit words, so every value
//! delimits itself and needs no outer length prefix. `wire_of` is the
//! mathematical encoder and `parse_val` the mathematical parser; the
//! executable [`encode`] and [`decode`] are proved to match them exactly,
//! and [`lemma_decode_encode`] shows that decoding an encoding gives the
//! value back.

use vstd::bytes::lemma_auto_spec_u64_to_from_le_bytes;
use vstd::bytes::spec_u64_from_le_bytes;
use vstd::bytes::spec_u64_to_le_bytes;
use vstd::prelude::*;
use vstd::utf8::decode_utf8;
use vstd::utf8::encode_utf8;
use vstd::utf8::encode_utf8_decode_utf8;
use vstd::utf8::encode_utf8_valid_utf8;
use vstd::utf8::valid_utf8;

use crate::error::DecodeError;
use crate::opaque::deep_entries;
use crate::opaque::deep_seq;
use crate::opaque::lemma_deep_entries;
use crate::opaque::lemma_deep_entries_snoc;
use crate::opaque::lemma_deep_seq_snoc;
use crate::opaque::lemma_deep_seq;
use crate::opaque::OpaqueData;
use crate::opaque::OpaqueValue;

verus! {

/// Tag byte of an encoded null value.
pub const TAG_NULL: u8 = 0;

/// Tag byte of an encoded boolean.
pub const TAG_BOOL: u8 = 1;

/// Tag byte of an encoded integer.
pub const TAG_INT: u8 = 2;

/// Tag byte of an encoded unsigned integer.
pub const TAG_UINT: u8 = 8;

/// Tag byte of an encoded floating-point bit pattern.
pub const TAG_FLOAT: u8 = 3;

/// Tag byte of an encoded text value.
pub const TAG_TEXT: u8 = 4;

/// Tag byte of an encoded byte string.
pub const TAG_BYTES: u8 = 5;

/// Tag byte of an encoded sequence.
pub const TAG_ARRAY: u8 = 6;

/// Tag byte of an encoded mapping.
pub const TAG_MAPPING: u8 = 7;

/// The unsigned 64-bit word that carries an integer on the wire: its
/// two's-complement bit pattern.
pub open spec fn int_bits(i: i64) -> u64 {
    if i >= 0 {
        i as u64
    } else {
        (i + 0x1_0000_0000_0000_0000) as u64
    }
}

/// The integer a wire word stands for; inverse of [`int_bits`].
pub open spec fn bits_int(u: u64) -> i64 {
    if u < 0x8000_0000_0000_0000 {
        u as i64
    } else {
        (u - 0x1_0000_0000_0000_0000) as i64
    }
}

/// Round trip of the integer representation.
pub proof fn lemma_int_bits(i: i64)
    ensures
        bits_int(int_bits(i)) == i,
{
}

/// A length as it travels on the wire.
pub open spec fn len64(n: nat) -> Seq<u8> {
    spec_u64_to_le_bytes(n as u64)
}

/// The byte encoding of one opaque value.
pub open spec fn wire_of(v: OpaqueData) -> Seq<u8>
    decreases v,
{
    match v {
        OpaqueData::Null => seq![TAG_NULL],
        OpaqueData::Bool(b) => seq![TAG_BOOL, if b { 1u8 } else { 0u8 }],
        OpaqueData::Int(i) => seq![TAG_INT] + spec_u64_to_le_bytes(int_bits(i)),
        OpaqueData::Uint(u) => seq![TAG_UINT] + spec_u64_to_le_bytes(u),
        OpaqueData::Float(bits) => seq![TAG_FLOAT] + spec_u64_to_le_bytes(bits),
        OpaqueData::Text(s) => seq![TAG_TEXT] + len64(encode_utf8(s).len()) + encode_utf8(s),
        OpaqueData::Bytes(b) => seq![TAG_BYTES] + len64(b.len()) + b,
        OpaqueData::Array(items) => seq![TAG_ARRAY] + len64(items.len()) + wire_of_seq(items),
        OpaqueData::Mapping(entries) => seq![TAG_MAPPING] + len64(entries.len())
            + wire_of_entries(entries),
    }
}

/// The byte encoding of a mapping key: length-prefixed UTF-8, no tag.
pub open spec fn key_wire(k: Seq<char>) -> Seq<u8> {
    len64(encode_utf8(k).len()) + encode_utf8(k)
}

/// The concatenated encodings of a sequence of values.
pub open spec fn wire_of_seq(items: Seq<OpaqueData>) -> Seq<u8>
    decreases items,
{
    if items.len() == 0 {
        Seq::empty()
    } else {
        wire_of(items[0]) + wire_of_seq(items.drop_first())
    }
}

/// The concatenated encodings of a sequence of mapping entries.
pub open spec fn wire_of_entries(entries: Seq<(Seq<char>, OpaqueData)>) -> Seq<u8>
    decreases entries,
{
    if entries.len() == 0 {
        Seq::empty()
    } else {
        key_wire(entries[0].0) + wire_of(entries[0].1) + wire_of_entries(entries.drop_first())
    }
}

/// Every length in the value fits the wire's 64-bit length words. The
/// executable encoder establishes this for every value it encodes.
pub open spec fn bounded(v: OpaqueData) -> bool
    decreases v,
{
    match v {
        OpaqueData::Null => true,
        OpaqueData::Bool(_) => true,
        OpaqueData::Int(_) => true,
        OpaqueData::Uint(_) => true,
        OpaqueData::Float(_) => true,
        OpaqueData::Text(s) => encode_utf8(s).len() <= u64::MAX,
        OpaqueData::Bytes(b) => b.len() <= u64::MAX,
        OpaqueData::Array(items) => items.len() <= u64::MAX && bounded_seq(items),
        OpaqueData::Mapping(entries) => entries.len() <= u64::MAX && bounded_entries(entries),
    }
}

/// Every element of the sequence is bounded.
pub open spec fn bounded_seq(items: Seq<OpaqueData>) -> bool
    decreases items,
{
    if items.len() == 0 {
        true
    } else {
        bounded(items[0]) && bounded_seq(items.drop_first())
    }
}

/// Every entry's key length fits the wire and every value is bounded.
pub open spec fn bounded_entries(entries: Seq<(Seq<char>, OpaqueData)>) -> bool
    decreases entries,
{
    if entries.len() == 0 {
        true
    } else {
        encode_utf8(entries[0].0).len() <= u64::MAX && bounded(entries[0].1) && bounded_entries(
            entries.drop_first(),
        )
    }
}

/// The mathematical parser: one value from the front of `s`, with the
/// number of bytes it occupies, or `None` if `s` does not begin with a
/// well-formed encoding.
pub open spec fn parse_val(s: Seq<u8>) -> Option<(OpaqueData, int)>
    decreases s.len(), 0nat, 0nat,
{
    if s.len() < 1 {
        None
    } else if s[0] == TAG_NULL {
        Some((OpaqueData::Null, 1))
    } else if s[0] == TAG_BOOL {
        if s.len() < 2 {
            None
        } else if s[1] == 1 {
            Some((OpaqueData::Bool(true), 2))
        } else if s[1] == 0 {
            Some((OpaqueData::Bool(false), 2))
        } else {
            None
        }
    } else if s[0] == TAG_INT {
        if s.len() < 9 {
            None
        } else {
            Some((OpaqueData::Int(bits_int(spec_u64_from_le_bytes(s.subrange(1, 9)))), 9))
        }
    } else if s[0] == TAG_UINT {
        if s.len() < 9 {
            None
        } else {
            Some((OpaqueData::Uint(spec_u64_from_le_bytes(s.subrange(1, 9))), 9))
        }
    } else if s[0] == TAG_FLOAT {
        if s.len() < 9 {
            None
        } else {
            Some((OpaqueData::Float(spec_u64_from_le_bytes(s.subrange(1, 9))), 9))
        }
    } else if s[0] == TAG_TEXT {
        if s.len() < 9 {
            None
        } else {
            let n = spec_u64_from_le_bytes(s.subrange(1, 9)) as int;
            if s.len() < 9 + n {
                None
            } else {
                let bytes = s.subrange(9, 9 + n);
                if valid_utf8(bytes) {
                    Some((OpaqueData::Text(decode_utf8(bytes)), 9 + n))
                } else {
                    None
                }
            }
        }
    } else if s[0] == TAG_BYTES {
        if s.len() < 9 {
            None
        } else {
            let n = spec_u64_from_le_bytes(s.subrange(1, 9)) as int;
            if s.len() < 9 + n {
                None
            } else {
                Some((OpaqueData::Bytes(s.subrange(9, 9 + n)), 9 + n))
            }
        }
    } else if s[0] == TAG_ARRAY {
        if s.len() < 9 {
            None
        } else {
            let n = spec_u64_from_le_bytes(s.subrange(1, 9)) as nat;
            match parse_items(s.skip(9), n) {
                Some((items, used)) => Some((OpaqueData::Array(items), 9 + used)),
                None => None,
            }
        }
    } else if s[0] == TAG_MAPPING {
        if s.len() < 9 {
            None
        } else {
            let n = spec_u64_from_le_bytes(s.subrange(1, 9)) as nat;
            match parse_entries(s.skip(9), n) {
                Some((entries, used)) => Some((OpaqueData::Mapping(entries), 9 + used)),
                None => None,
            }
        }
    } else {
        None
    }
}

/// Parse exactly `n` consecutive values from the front of `s`.
pub open spec fn parse_items(s: Seq<u8>, n: nat) -> Option<(Seq<OpaqueData>, int)>
    decreases s.len(), n, 1nat,
{
    if n == 0 {
        Some((Seq::empty(), 0))
    } else {
        match parse_val(s) {
            None => None,
            Some((v, used)) => if 1 <= used <= s.len() {
                match parse_items(s.skip(used), (n - 1) as nat) {
                    None => None,
                    Some((vs, used2)) => Some((seq![v] + vs, used + used2)),
                }
            } else {
                None
            },
        }
    }
}

/// Parse a mapping key: length-prefixed UTF-8, no tag.
pub open spec fn parse_key(s: Seq<u8>) -> Option<(Seq<char>, int)> {
    if s.len() < 8 {
        None
    } else {
        let n = spec_u64_from_le_bytes(s.subrange(0, 8)) as int;
        if s.len() < 8 + n {
            None
        } else {
            let bytes = s.subrange(8, 8 + n);
            if valid_utf8(bytes) {
                Some((decode_utf8(bytes), 8 + n))
            } else {
                None
            }
        }
    }
}

/// Parse exactly `n` consecutive mapping entries from the front of `s`.
pub open spec fn parse_entries(s: Seq<u8>, n: nat) -> Option<(Seq<(Seq<char>, OpaqueData)>, int)>
    decreases s.len(), n, 1nat,
{
    if n == 0 {
        Some((Seq::empty(), 0))
    } else {
        match parse_key(s) {
            None => None,
            Some((k, kused)) => if 8 <= kused <= s.len() {
                match parse_val(s.skip(kused)) {
                    None => None,
                    Some((v, vused)) => if 1 <= vused <= s.len() - kused {
                        match parse_entries(s.skip(kused + vused), (n - 1) as nat) {
                            None => None,
                            Some((es, used2)) => Some(
                                (seq![(k, v)] + es, kused + vused + used2),
                            ),
                        }
                    } else {
                        None
                    },
                }
            } else {
                None
            },
        }
    }
}

/// The parse of a complete payload: exactly one value, no bytes left over.
pub open spec fn spec_decode(s: Seq<u8>) -> Option<OpaqueData> {
    match parse_val(s) {
        Some((v, used)) => if used == s.len() {
            Some(v)
        } else {
            None
        },
        None => None,
    }
}

/// Every encoding is at least one byte long: its tag.
pub proof fn lemma_wire_len_pos(v: OpaqueData)
    ensures
        wire_of(v).len() >= 1,
{
    match v {
        OpaqueData::Null => {},
        OpaqueData::Bool(_) => {},
        OpaqueData::Int(_) => {},
        OpaqueData::Uint(_) => {},
        OpaqueData::Float(_) => {},
        OpaqueData::Text(_) => {},
        OpaqueData::Bytes(_) => {},
        OpaqueData::Array(_) => {},
        OpaqueData::Mapping(_) => {},
    }
}

/// A mapping key's encoding, parsed back, gives the key.
proof fn lemma_parse_key(k: Seq<char>, rest: Seq<u8>)
    requires
        encode_utf8(k).len() <= u64::MAX,
    ensures
        parse_key(key_wire(k) + rest) == Some((k, key_wire(k).len() as int)),
        key_wire(k).len() >= 8,
{
    broadcast use encode_utf8_valid_utf8;
    broadcast use encode_utf8_decode_utf8;

    lemma_auto_spec_u64_to_from_le_bytes();
    let utf8 = encode_utf8(k);
    let n = utf8.len();
    let le = spec_u64_to_le_bytes(n as u64);
    let s = key_wire(k) + rest;
    assert(s.subrange(0, 8) =~= le);
    assert(spec_u64_from_le_bytes(le) == n as u64);
    assert(s.subrange(8, 8 + n as int) =~= utf8);
}

/// The wire encoding of a value, parsed back, gives the value: the parser
/// inverts the encoder on every bounded value, whatever follows on the wire.
pub proof fn lemma_parse_wire(v: OpaqueData, rest: Seq<u8>)
    requires
        bounded(v),
    ensures
        parse_val(wire_of(v) + rest) == Some((v, wire_of(v).len() as int)),
    decreases v, 0nat,
{
    broadcast use encode_utf8_valid_utf8;
    broadcast use encode_utf8_decode_utf8;

    lemma_auto_spec_u64_to_from_le_bytes();
    let w = wire_of(v);
    let s = w + rest;
    match v {
        OpaqueData::Null => {},
        OpaqueData::Bool(b) => {},
        OpaqueData::Int(i) => {
            let le = spec_u64_to_le_bytes(int_bits(i));
            assert(w =~= seq![TAG_INT] + le);
            assert(s.subrange(1, 9) =~= le);
            lemma_int_bits(i);
        },
        OpaqueData::Uint(u) => {
            let le = spec_u64_to_le_bytes(u);
            assert(w =~= seq![TAG_UINT] + le);
            assert(s.subrange(1, 9) =~= le);
        },
        OpaqueData::Float(bits) => {
            let le = spec_u64_to_le_bytes(bits);
            assert(w =~= seq![TAG_FLOAT] + le);
            assert(s.subrange(1, 9) =~= le);
        },
        OpaqueData::Text(text) => {
            let utf8 = encode_utf8(text);
            let n = utf8.len();
            let le = spec_u64_to_le_bytes(n as u64);
            assert(w =~= seq![TAG_TEXT] + le + utf8);
            assert(s.subrange(1, 9) =~= le);
            assert(spec_u64_from_le_bytes(le) == n as u64);
            assert(s.subrange(9, 9 + n as int) =~= utf8);
        },
        OpaqueData::Bytes(b) => {
            let n = b.len();
            let le = spec_u64_to_le_bytes(n as u64);
            assert(w =~= seq![TAG_BYTES] + le + b);
            assert(s.subrange(1, 9) =~= le);
            assert(spec_u64_from_le_bytes(le) == n as u64);
            assert(s.subrange(9, 9 + n as int) =~= b);
        },
        OpaqueData::Array(items) => {
            let n = items.len();
            let le = spec_u64_to_le_bytes(n as u64);
            let body = wire_of_seq(items);
            assert(w =~= seq![TAG_ARRAY] + le + body);
            assert(s.subrange(1, 9) =~= le);
            assert(spec_u64_from_le_bytes(le) == n as u64);
            assert(s.skip(9) =~= body + rest);
            lemma_parse_wire_seq(items, rest);
        },
        OpaqueData::Mapping(entries) => {
            let n = entries.len();
            let le = spec_u64_to_le_bytes(n as u64);
            let body = wire_of_entries(entries);
            assert(w =~= seq![TAG_MAPPING] + le + body);
            assert(s.subrange(1, 9) =~= le);
            assert(spec_u64_from_le_bytes(le) == n as u64);
            assert(s.skip(9) =~= body + rest);
            lemma_parse_wire_entries(entries, rest);
        },
    }
}

/// As [`lemma_parse_wire`], for a sequence of values in a row.
pub proof fn lemma_parse_wire_seq(items: Seq<OpaqueData>, rest: Seq<u8>)
    requires
        bounded_seq(items),
    ensures
        parse_items(wire_of_seq(items) + rest, items.len()) == Some(
            (items, wire_of_seq(items).len() as int),
        ),
    decreases items, 1nat,
{
    if items.len() == 0 {
        assert(wire_of_seq(items) + rest =~= rest);
        assert(items =~= Seq::<OpaqueData>::empty());
    } else {
        let w0 = wire_of(items[0]);
        let wr = wire_of_seq(items.drop_first());
        assert(wire_of_seq(items) =~= w0 + wr);
        let s = wire_of_seq(items) + rest;
        assert(s =~= w0 + (wr + rest));
        lemma_parse_wire(items[0], wr + rest);
        lemma_wire_len_pos(items[0]);
        assert(s.skip(w0.len() as int) =~= wr + rest);
        lemma_parse_wire_seq(items.drop_first(), rest);
        assert(seq![items[0]] + items.drop_first() =~= items);
    }
}

/// As [`lemma_parse_wire`], for a sequence of mapping entries in a row.
pub proof fn lemma_parse_wire_entries(entries: Seq<(Seq<char>, OpaqueData)>, rest: Seq<u8>)
    requires
        bounded_entries(entries),
    ensures
        parse_entries(wire_of_entries(entries) + rest, entries.len()) == Some(
            (entries, wire_of_entries(entries).len() as int),
        ),
    decreases entries, 1nat,
{
    if entries.len() == 0 {
        assert(wire_of_entries(entries) + rest =~= rest);
        assert(entries =~= Seq::<(Seq<char>, OpaqueData)>::empty());
    } else {
        let k = entries[0].0;
        let v = entries[0].1;
        let kw = key_wire(k);
        let vw = wire_of(v);
        let wr = wire_of_entries(entries.drop_first());
        assert(wire_of_entries(entries) =~= kw + vw + wr);
        let s = wire_of_entries(entries) + rest;
        assert(s =~= kw + (vw + (wr + rest)));
        lemma_parse_key(k, vw + (wr + rest));
        assert(s.skip(kw.len() as int) =~= vw + (wr + rest));
        lemma_parse_wire(v, wr + rest);
        lemma_wire_len_pos(v);
        assert(s.skip(kw.len() as int + vw.len() as int) =~= wr + rest);
        lemma_parse_wire_entries(entries.drop_first(), rest);
        assert(seq![(k, v)] + entries.drop_first() =~= entries);
        assert((entries[0].0, entries[0].1) == entries[0]);
    }
}

/// Decoding an encoding gives the value back, with nothing left over.
pub proof fn lemma_decode_encode(v: OpaqueData)
    requires
        bounded(v),
    ensures
        spec_decode(wire_of(v)) == Some(v),
{
    lemma_parse_wire(v, Seq::empty());
    assert(wire_of(v) + Seq::<u8>::empty() =~= wire_of(v));
}

/// Appending one value to a sequence appends its encoding to the wire.
proof fn lemma_wire_of_seq_snoc(items: Seq<OpaqueData>, v: OpaqueData)
    ensures
        wire_of_seq(items.push(v)) == wire_of_seq(items) + wire_of(v),
    decreases items.len(),
{
    assert(items.push(v).len() == items.len() + 1);
    if items.len() == 0 {
        reveal_with_fuel(wire_of_seq, 2);
        assert(items.push(v)[0] == v);
        assert(items.push(v).drop_first() =~= Seq::<OpaqueData>::empty());
        assert(wire_of(v) + Seq::<u8>::empty() =~= wire_of(v));
        assert(wire_of_seq(items) + wire_of(v) =~= wire_of(v));
    } else {
        assert(items.push(v)[0] == items[0]);
        assert(items.push(v).drop_first() =~= items.drop_first().push(v));
        lemma_wire_of_seq_snoc(items.drop_first(), v);
        assert(wire_of_seq(items.push(v)) =~= wire_of_seq(items) + wire_of(v));
    }
}

/// Appending one entry to a mapping appends its encoding to the wire.
proof fn lemma_wire_of_entries_snoc(entries: Seq<(Seq<char>, OpaqueData)>, e: (Seq<char>, OpaqueData))
    ensures
        wire_of_entries(entries.push(e)) == wire_of_entries(entries) + key_wire(e.0) + wire_of(
            e.1,
        ),
    decreases entries.len(),
{
    assert(entries.push(e).len() == entries.len() + 1);
    if entries.len() == 0 {
        reveal_with_fuel(wire_of_entries, 2);
        assert(entries.push(e)[0] == e);
        assert(entries.push(e).drop_first() =~= Seq::<(Seq<char>, OpaqueData)>::empty());
        assert((key_wire(e.0) + wire_of(e.1)) + Seq::<u8>::empty() =~= key_wire(e.0) + wire_of(
            e.1,
        ));
        assert(wire_of_entries(entries.push(e)) =~= wire_of_entries(entries) + key_wire(e.0)
            + wire_of(e.1));
    } else {
        assert(entries.push(e)[0] == entries[0]);
        assert(entries.push(e).drop_first() =~= entries.drop_first().push(e));
        lemma_wire_of_entries_snoc(entries.drop_first(), e);
        assert(wire_of_entries(entries.push(e)) =~= wire_of_entries(entries) + key_wire(e.0)
            + wire_of(e.1));
    }
}

/// A sequence with one more bounded value stays bounded.
proof fn lemma_bounded_seq_snoc(items: Seq<OpaqueData>, v: OpaqueData)
    ensures
        bounded_seq(items.push(v)) == (bounded_seq(items) && bounded(v)),
    decreases items.len(),
{
    assert(items.push(v).len() == items.len() + 1);
    if items.len() == 0 {
        reveal_with_fuel(bounded_seq, 2);
        assert(items.push(v)[0] == v);
        assert(items.push(v).drop_first() =~= Seq::<OpaqueData>::empty());
    } else {
        assert(items.push(v)[0] == items[0]);
        assert(items.push(v).drop_first() =~= items.drop_first().push(v));
        lemma_bounded_seq_snoc(items.drop_first(), v);
    }
}

/// A mapping with one more bounded entry stays bounded.
proof fn lemma_bounded_entries_snoc(entries: Seq<(Seq<char>, OpaqueData)>, e: (Seq<char>, OpaqueData))
    ensures
        bounded_entries(entries.push(e)) == (bounded_entries(entries) && encode_utf8(e.0).len()
            <= u64::MAX && bounded(e.1)),
    decreases entries.len(),
{
    assert(entries.push(e).len() == entries.len() + 1);
    if entries.len() == 0 {
        reveal_with_fuel(bounded_entries, 2);
        assert(entries.push(e)[0] == e);
        assert(entries.push(e).drop_first() =~= Seq::<(Seq<char>, OpaqueData)>::empty());
    } else {
        assert(entries.push(e)[0] == entries[0]);
        assert(entries.push(e).drop_first() =~= entries.drop_first().push(e));
        lemma_bounded_entries_snoc(entries.drop_first(), e);
    }
}

/// Append the encoding of `v` to `out`.
#[verifier::loop_isolation(false)]
#[verifier::rlimit(50)]
pub fn encode_into(v: &OpaqueValue, out: &mut Vec<u8>)
    ensures
        final(out)@ == old(out)@ + wire_of(v@),
        bounded(v@),
    decreases v,
{
    match v {
        OpaqueValue::Null => {
            out.push(TAG_NULL);
            assert(out@ =~= old(out)@ + wire_of(v@));
        },
        OpaqueValue::Bool(b) => {
            out.push(TAG_BOOL);
            out.push(if *b { 1u8 } else { 0u8 });
            assert(out@ =~= old(out)@ + wire_of(v@));
        },
        OpaqueValue::Int(i) => {
            out.push(TAG_INT);
            let bits: u64 = if *i >= 0 {
                *i as u64
            } else {
                let t: i64 = (*i + i64::MAX) + 1;
                (t as u64) + 0x8000_0000_0000_0000u64
            };
            assert(bits == int_bits(*i));
            let mut le = vstd::bytes::u64_to_le_bytes(bits);
            out.append(&mut le);
            assert(out@ =~= old(out)@ + wire_of(v@));
        },
        OpaqueValue::Uint(u) => {
            out.push(TAG_UINT);
            let mut le = vstd::bytes::u64_to_le_bytes(*u);
            out.append(&mut le);
            assert(out@ =~= old(out)@ + wire_of(v@));
        },
        OpaqueValue::Float(bits) => {
            out.push(TAG_FLOAT);
            let mut le = vstd::bytes::u64_to_le_bytes(*bits);
            out.append(&mut le);
            assert(out@ =~= old(out)@ + wire_of(v@));
        },
        OpaqueValue::Text(s) => {
            out.push(TAG_TEXT);
            let bytes: &[u8] = s.as_str().as_bytes();
            let n = bytes.len();
            let mut le = vstd::bytes::u64_to_le_bytes(n as u64);
            out.append(&mut le);
            let mut tmp = vstd::slice::slice_to_vec(bytes);
            out.append(&mut tmp);
            assert(out@ =~= old(out)@ + wire_of(v@));
        },
        OpaqueValue::Bytes(b) => {
            out.push(TAG_BYTES);
            let n = b.len();
            let mut le = vstd::bytes::u64_to_le_bytes(n as u64);
            out.append(&mut le);
            let mut tmp = vstd::slice::slice_to_vec(b.as_slice());
            out.append(&mut tmp);
            assert(out@ =~= old(out)@ + wire_of(v@));
        },
        OpaqueValue::Array(items) => {
            out.push(TAG_ARRAY);
            let n = items.len();
            let mut le = vstd::bytes::u64_to_le_bytes(n as u64);
            out.append(&mut le);
            let ghost base = out@;
            let ghost model = deep_seq(items@);
            proof {
                lemma_deep_seq(items@);
            }
            for idx in 0..n
                invariant
                    n == items@.len(),
                    model == deep_seq(items@),
                    model.len() == n,
                    forall|j: int| 0 <= j < n ==> model[j] == items@[j]@,
                    out@ == base + wire_of_seq(model.take(idx as int)),
                    bounded_seq(model.take(idx as int)),
            {
                proof {
                    assert(*v == OpaqueValue::Array(*items));
                    assert(decreases_to!(*v => *items));
                    assert(decreases_to!(*items => items@));
                    assert(decreases_to!(items@ => items@[idx as int]));
                }
                encode_into(&items[idx], out);
                proof {
                    lemma_wire_of_seq_snoc(model.take(idx as int), model[idx as int]);
                    lemma_bounded_seq_snoc(model.take(idx as int), model[idx as int]);
                    assert(model.take(idx as int).push(model[idx as int]) =~= model.take(
                        idx as int + 1,
                    ));
                }
            }
            proof {
                assert(model.take(n as int) =~= model);
                assert(out@ =~= old(out)@ + wire_of(v@));
            }
        },
        OpaqueValue::Mapping(entries) => {
            out.push(TAG_MAPPING);
            let n = entries.len();
            let mut le = vstd::bytes::u64_to_le_bytes(n as u64);
            out.append(&mut le);
            let ghost base = out@;
            let ghost model = deep_entries(entries@);
            proof {
                lemma_deep_entries(entries@);
            }
            for idx in 0..n
                invariant
                    n == entries@.len(),
                    model == deep_entries(entries@),
                    model.len() == n,
                    forall|j: int|
                        0 <= j < n ==> model[j] == (entries@[j].0@, entries@[j].1@),
                    out@ == base + wire_of_entries(model.take(idx as int)),
                    bounded_entries(model.take(idx as int)),
            {
                let key: &String = &entries[idx].0;
                let kbytes: &[u8] = key.as_str().as_bytes();
                let kn = kbytes.len();
                let mut kle = vstd::bytes::u64_to_le_bytes(kn as u64);
                out.append(&mut kle);
                let mut ktmp = vstd::slice::slice_to_vec(kbytes);
                out.append(&mut ktmp);
                proof {
                    assert(*v == OpaqueValue::Mapping(*entries));
                    assert(decreases_to!(*v => *entries));
                    assert(decreases_to!(*entries => entries@));
                    assert(decreases_to!(entries@ => entries@[idx as int]));
                    assert(decreases_to!(entries@[idx as int] => entries@[idx as int].1));
                }
                encode_into(&entries[idx].1, out);
                proof {
                    lemma_wire_of_entries_snoc(model.take(idx as int), model[idx as int]);
                    lemma_bounded_entries_snoc(model.take(idx as int), model[idx as int]);
                    assert(model.take(idx as int).push(model[idx as int]) =~= model.take(
                        idx as int + 1,
                    ));
                    assert(out@ =~= base + wire_of_entries(model.take(idx as int + 1)));
                }
            }
            proof {
                assert(model.take(n as int) =~= model);
                assert(out@ =~= old(out)@ + wire_of(v@));
            }
        },
    }
}

/// Encode one opaque value into a fresh, self-delimiting payload.
pub fn encode(v: &OpaqueValue) -> (out: Vec<u8>)
    ensures
        out@ == wire_of(v@),
        bounded(v@),
{
    let mut out: Vec<u8> = Vec::new();
    encode_into(v, &mut out);
    proof {
        assert(out@ =~= wire_of(v@));
    }
    out
}

/// Relies on `String::from_utf8`: it succeeds exactly on valid UTF-8 input
/// and yields the string those bytes spell.
#[verifier::external_body]
fn string_from_utf8(bytes: Vec<u8>) -> (r: Option<String>)
    ensures
        r is Some <==> valid_utf8(bytes@),
        r is Some ==> r->Some_0@ == decode_utf8(bytes@),
{
    String::from_utf8(bytes).ok()
}

/// The partial parse of `total` values from `s0` agrees with `done` values
/// already taken and `consumed` bytes already read, whatever the parse of
/// the `left` values still owed by the remainder `s_now` turns out to be.
spec fn items_midway(
    s0: Seq<u8>,
    total: nat,
    done: Seq<OpaqueData>,
    consumed: int,
    s_now: Seq<u8>,
    left: nat,
) -> bool {
    match parse_items(s_now, left) {
        Some((vs, u)) => parse_items(s0, total) == Some((done + vs, consumed + u)),
        None => parse_items(s0, total) is None,
    }
}

/// One parsed value carries [`items_midway`] forward.
proof fn lemma_items_midway_step(
    s0: Seq<u8>,
    total: nat,
    done: Seq<OpaqueData>,
    consumed: int,
    s_now: Seq<u8>,
    left: nat,
    vd: OpaqueData,
    u: int,
)
    requires
        items_midway(s0, total, done, consumed, s_now, left),
        left >= 1,
        parse_val(s_now) == Some((vd, u)),
        1 <= u <= s_now.len(),
    ensures
        items_midway(s0, total, done.push(vd), consumed + u, s_now.skip(u), (left - 1) as nat),
{
    match parse_items(s_now.skip(u), (left - 1) as nat) {
        Some((vs2, u2)) => {
            assert(parse_items(s_now, left) == Some((seq![vd] + vs2, u + u2)));
            assert(done + (seq![vd] + vs2) =~= done.push(vd) + vs2);
        },
        None => {},
    }
}

/// As [`items_midway`], for mapping entries.
spec fn entries_midway(
    s0: Seq<u8>,
    total: nat,
    done: Seq<(Seq<char>, OpaqueData)>,
    consumed: int,
    s_now: Seq<u8>,
    left: nat,
) -> bool {
    match parse_entries(s_now, left) {
        Some((es, u)) => parse_entries(s0, total) == Some((done + es, consumed + u)),
        None => parse_entries(s0, total) is None,
    }
}

/// One parsed entry carries [`entries_midway`] forward.
proof fn lemma_entries_midway_step(
    s0: Seq<u8>,
    total: nat,
    done: Seq<(Seq<char>, OpaqueData)>,
    consumed: int,
    s_now: Seq<u8>,
    left: nat,
    k: Seq<char>,
    ku: int,
    vd: OpaqueData,
    vu: int,
)
    requires
        entries_midway(s0, total, done, consumed, s_now, left),
        left >= 1,
        parse_key(s_now) == Some((k, ku)),
        8 <= ku <= s_now.len(),
        parse_val(s_now.skip(ku)) == Some((vd, vu)),
        1 <= vu <= s_now.len() - ku,
    ensures
        entries_midway(
            s0,
            total,
            done.push((k, vd)),
            consumed + ku + vu,
            s_now.skip(ku + vu),
            (left - 1) as nat,
        ),
{
    match parse_entries(s_now.skip(ku + vu), (left - 1) as nat) {
        Some((es2, u2)) => {
            assert(parse_entries(s_now, left) == Some((seq![(k, vd)] + es2, ku + vu + u2)));
            assert(done + (seq![(k, vd)] + es2) =~= done.push((k, vd)) + es2);
        },
        None => {},
    }
}

/// Decode a mapping key starting at `pos`: a length-prefixed UTF-8 string.
fn decode_key_at(bytes: &[u8], pos: usize) -> (r: Result<(String, usize), DecodeError>)
    requires
        pos <= bytes@.len(),
    ensures
        match r {
            Ok((k, next)) => pos + 8 <= next <= bytes@.len() && parse_key(
                bytes@.skip(pos as int),
            ) == Some((k@, next - pos)),
            Err(e) => e == DecodeError::MalformedPayload && parse_key(bytes@.skip(pos as int))
                is None,
        },
{
    let ghost s = bytes@.skip(pos as int);
    proof {
        assert(s.len() == bytes@.len() - pos);
    }
    let rem = bytes.len() - pos;
    if rem < 8 {
        return Err(DecodeError::MalformedPayload);
    }
    let le = vstd::slice::slice_subrange(bytes, pos, pos + 8);
    let n64 = vstd::bytes::u64_from_le_bytes(le);
    proof {
        assert(s.subrange(0, 8) =~= bytes@.subrange(pos as int, pos as int + 8));
    }
    if ((rem - 8) as u64) < n64 {
        return Err(DecodeError::MalformedPayload);
    }
    let n = n64 as usize;
    let sub = vstd::slice::slice_subrange(bytes, pos + 8, pos + 8 + n);
    proof {
        assert(s.subrange(8, 8 + n as int) =~= bytes@.subrange(
            pos as int + 8,
            pos as int + 8 + n as int,
        ));
    }
    let owned = vstd::slice::slice_to_vec(sub);
    match string_from_utf8(owned) {
        Some(k) => Ok((k, pos + 8 + n)),
        None => Err(DecodeError::MalformedPayload),
    }
}

/// Decode one value starting at `pos`.
#[verifier::loop_isolation(false)]
fn decode_at(bytes: &[u8], pos: usize) -> (r: Result<(OpaqueValue, usize), DecodeError>)
    requires
        pos <= bytes@.len(),
    ensures
        match r {
            Ok((v, next)) => pos < next <= bytes@.len() && parse_val(bytes@.skip(pos as int))
                == Some((v@, next - pos)),
            Err(e) => e == DecodeError::MalformedPayload && parse_val(bytes@.skip(pos as int))
                is None,
        },
    decreases bytes@.len() - pos, 0nat, 0nat,
{
    let ghost s = bytes@.skip(pos as int);
    proof {
        assert(s.len() == bytes@.len() - pos);
    }
    let rem = bytes.len() - pos;
    if rem < 1 {
        return Err(DecodeError::MalformedPayload);
    }
    let tag = *vstd::slice::slice_index_get(bytes, pos);
    proof {
        assert(s[0] == bytes@[pos as int]);
    }
    if tag == TAG_NULL {
        Ok((OpaqueValue::Null, pos + 1))
    } else if tag == TAG_BOOL {
        if rem < 2 {
            return Err(DecodeError::MalformedPayload);
        }
        let b = *vstd::slice::slice_index_get(bytes, pos + 1);
        proof {
            assert(s[1] == bytes@[pos as int + 1]);
        }
        if b == 1 {
            Ok((OpaqueValue::Bool(true), pos + 2))
        } else if b == 0 {
            Ok((OpaqueValue::Bool(false), pos + 2))
        } else {
            Err(DecodeError::MalformedPayload)
        }
    } else if tag == TAG_INT {
        if rem < 9 {
            return Err(DecodeError::MalformedPayload);
        }
        let le = vstd::slice::slice_subrange(bytes, pos + 1, pos + 9);
        let u = vstd::bytes::u64_from_le_bytes(le);
        proof {
            assert(s.subrange(1, 9) =~= bytes@.subrange(pos as int + 1, pos as int + 9));
        }
        let i: i64 = if u < 0x8000_0000_0000_0000u64 {
            u as i64
        } else {
            (((u - 0x8000_0000_0000_0000u64) as i64) - i64::MAX) - 1
        };
        proof {
            assert(i == bits_int(u));
        }
        Ok((OpaqueValue::Int(i), pos + 9))
    } else if tag == TAG_UINT {
        if rem < 9 {
            return Err(DecodeError::MalformedPayload);
        }
        let le = vstd::slice::slice_subrange(bytes, pos + 1, pos + 9);
        let u = vstd::bytes::u64_from_le_bytes(le);
        proof {
            assert(s.subrange(1, 9) =~= bytes@.subrange(pos as int + 1, pos as int + 9));
        }
        Ok((OpaqueValue::Uint(u), pos + 9))
    } else if tag == TAG_FLOAT {
        if rem < 9 {
            return Err(DecodeError::MalformedPayload);
        }
        let le = vstd::slice::slice_subrange(bytes, pos + 1, pos + 9);
        let u = vstd::bytes::u64_from_le_bytes(le);
        proof {
            assert(s.subrange(1, 9) =~= bytes@.subrange(pos as int + 1, pos as int + 9));
        }
        Ok((OpaqueValue::Float(u), pos + 9))
    } else if tag == TAG_TEXT {
        if rem < 9 {
            return Err(DecodeError::MalformedPayload);
        }
        let le = vstd::slice::slice_subrange(bytes, pos + 1, pos + 9);
        let n64 = vstd::bytes::u64_from_le_bytes(le);
        proof {
            assert(s.subrange(1, 9) =~= bytes@.subrange(pos as int + 1, pos as int + 9));
        }
        if ((rem - 9) as u64) < n64 {
            return Err(DecodeError::MalformedPayload);
        }
        let n = n64 as usize;
        let sub = vstd::slice::slice_subrange(bytes, pos + 9, pos + 9 + n);
        proof {
            assert(s.subrange(9, 9 + n as int) =~= bytes@.subrange(
                pos as int + 9,
                pos as int + 9 + n as int,
            ));
        }
        let owned = vstd::slice::slice_to_vec(sub);
        match string_from_utf8(owned) {
            Some(text) => Ok((OpaqueValue::Text(text), pos + 9 + n)),
            None => Err(DecodeError::MalformedPayload),
        }
    } else if tag == TAG_BYTES {
        if rem < 9 {
            return Err(DecodeError::MalformedPayload);
        }
        let le = vstd::slice::slice_subrange(bytes, pos + 1, pos + 9);
        let n64 = vstd::bytes::u64_from_le_bytes(le);
        proof {
            assert(s.subrange(1, 9) =~= bytes@.subrange(pos as int + 1, pos as int + 9));
        }
        if ((rem - 9) as u64) < n64 {
            return Err(DecodeError::MalformedPayload);
        }
        let n = n64 as usize;
        let sub = vstd::slice::slice_subrange(bytes, pos + 9, pos + 9 + n);
        proof {
            assert(s.subrange(9, 9 + n as int) =~= bytes@.subrange(
                pos as int + 9,
                pos as int + 9 + n as int,
            ));
        }
        let owned = vstd::slice::slice_to_vec(sub);
        Ok((OpaqueValue::Bytes(owned), pos + 9 + n))
    } else if tag == TAG_ARRAY {
        if rem < 9 {
            return Err(DecodeError::MalformedPayload);
        }
        let le = vstd::slice::slice_subrange(bytes, pos + 1, pos + 9);
        let n64 = vstd::bytes::u64_from_le_bytes(le);
        proof {
            assert(s.subrange(1, 9) =~= bytes@.subrange(pos as int + 1, pos as int + 9));
            assert(s.skip(9) =~= bytes@.skip(pos as int + 9));
        }
        match decode_items_at(bytes, pos + 9, n64) {
            Ok((items, next)) => Ok((OpaqueValue::Array(items), next)),
            Err(e) => Err(e),
        }
    } else if tag == TAG_MAPPING {
        if rem < 9 {
            return Err(DecodeError::MalformedPayload);
        }
        let le = vstd::slice::slice_subrange(bytes, pos + 1, pos + 9);
        let n64 = vstd::bytes::u64_from_le_bytes(le);
        proof {
            assert(s.subrange(1, 9) =~= bytes@.subrange(pos as int + 1, pos as int + 9));
            assert(s.skip(9) =~= bytes@.skip(pos as int + 9));
        }
        match decode_entries_at(bytes, pos + 9, n64) {
            Ok((entries, next)) => Ok((OpaqueValue::Mapping(entries), next)),
            Err(e) => Err(e),
        }
    } else {
        Err(DecodeError::MalformedPayload)
    }
}

/// Decode `n` consecutive values starting at `pos`.
#[verifier::loop_isolation(false)]
fn decode_items_at(bytes: &[u8], pos: usize, n: u64) -> (r: Result<
    (Vec<OpaqueValue>, usize),
    DecodeError,
>)
    requires
        pos <= bytes@.len(),
    ensures
        match r {
            Ok((vs, next)) => pos <= next <= bytes@.len() && parse_items(
                bytes@.skip(pos as int),
                n as nat,
            ) == Some((deep_seq(vs@), next - pos)),
            Err(e) => e == DecodeError::MalformedPayload && parse_items(
                bytes@.skip(pos as int),
                n as nat,
            ) is None,
        },
    decreases bytes@.len() - pos, n, 1nat,
{
    let ghost s0 = bytes@.skip(pos as int);
    let mut items: Vec<OpaqueValue> = Vec::new();
    let mut p: usize = pos;
    let mut k: u64 = 0;
    proof {
        assert(deep_seq(items@) =~= Seq::<OpaqueData>::empty());
        assert(deep_seq(items@) + Seq::<OpaqueData>::empty() =~= deep_seq(items@));
    }
    while k < n
        invariant
            pos <= p <= bytes@.len(),
            0 <= k <= n,
            items_midway(s0, n as nat, deep_seq(items@), p - pos, bytes@.skip(p as int), (n
                - k) as nat),
        decreases n - k,
    {
        match decode_at(bytes, p) {
            Ok((v, next)) => {
                proof {
                    lemma_items_midway_step(
                        s0,
                        n as nat,
                        deep_seq(items@),
                        p - pos,
                        bytes@.skip(p as int),
                        (n - k) as nat,
                        v@,
                        next - p,
                    );
                    assert(bytes@.skip(p as int).skip(next - p) =~= bytes@.skip(next as int));
                    lemma_deep_seq_snoc(items@, v);
                }
                items.push(v);
                p = next;
                k = k + 1;
            },
            Err(_) => {
                return Err(DecodeError::MalformedPayload);
            },
        }
    }
    proof {
        assert(deep_seq(items@) + Seq::<OpaqueData>::empty() =~= deep_seq(items@));
    }
    Ok((items, p))
}

/// Decode `n` consecutive mapping entries starting at `pos`.
#[verifier::loop_isolation(false)]
fn decode_entries_at(bytes: &[u8], pos: usize, n: u64) -> (r: Result<
    (Vec<(String, OpaqueValue)>, usize),
    DecodeError,
>)
    requires
        pos <= bytes@.len(),
    ensures
        match r {
            Ok((es, next)) => pos <= next <= bytes@.len() && parse_entries(
                bytes@.skip(pos as int),
                n as nat,
            ) == Some((deep_entries(es@), next - pos)),
            Err(e) => e == DecodeError::MalformedPayload && parse_entries(
                bytes@.skip(pos as int),
                n as nat,
            ) is None,
        },
    decreases bytes@.len() - pos, n, 1nat,
{
    let ghost s0 = bytes@.skip(pos as int);
    let mut entries: Vec<(String, OpaqueValue)> = Vec::new();
    let mut p: usize = pos;
    let mut k: u64 = 0;
    proof {
        assert(deep_entries(entries@) =~= Seq::<(Seq<char>, OpaqueData)>::empty());
    }
    while k < n
        invariant
            pos <= p <= bytes@.len(),
            0 <= k <= n,
            entries_midway(s0, n as nat, deep_entries(entries@), p - pos, bytes@.skip(p as int), (
            n - k) as nat),
        decreases n - k,
    {
        let key_parsed = decode_key_at(bytes, p);
        match key_parsed {
            Ok((key, knext)) => {
                proof {
                    assert(bytes@.skip(p as int).skip(knext - p) =~= bytes@.skip(knext as int));
                }
                match decode_at(bytes, knext) {
                    Ok((v, vnext)) => {
                        proof {
                            lemma_entries_midway_step(
                                s0,
                                n as nat,
                                deep_entries(entries@),
                                p - pos,
                                bytes@.skip(p as int),
                                (n - k) as nat,
                                key@,
                                knext - p,
                                v@,
                                vnext - knext,
                            );
                            assert(bytes@.skip(p as int).skip(vnext - p) =~= bytes@.skip(
                                vnext as int,
                            ));
                            lemma_deep_entries_snoc(entries@, (key, v));
                        }
                        entries.push((key, v));
                        p = vnext;
                        k = k + 1;
                    },
                    Err(_) => {
                        return Err(DecodeError::MalformedPayload);
                    },
                }
            },
            Err(_) => {
                return Err(DecodeError::MalformedPayload);
            },
        }
    }
    proof {
        assert(deep_entries(entries@) + Seq::<(Seq<char>, OpaqueData)>::empty() =~= deep_entries(
            entries@,
        ));
    }
    Ok((entries, p))
}

/// Decode a complete payload: exactly one value, with nothing left over.
/// Anything else is a `MalformedPayload`.
pub fn decode(bytes: &[u8]) -> (r: Result<OpaqueValue, DecodeError>)
    ensures
        match r {
            Ok(v) => spec_decode(bytes@) == Some(v@),
            Err(e) => e == DecodeError::MalformedPayload && spec_decode(bytes@) is None,
        },
{
    proof {
        assert(bytes@.skip(0) =~= bytes@);
    }
    match decode_at(bytes, 0) {
        Ok((v, next)) => {
            if next == bytes.len() {
                Ok(v)
            } else {
                Err(DecodeError::MalformedPayload)
            }
        },
        Err(e) => Err(e),
    }
}

} // verus!
