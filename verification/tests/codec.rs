//! The wire codec and the opaque value boundary, on concrete values.

use io_plugin::decode;
use io_plugin::encode;
use io_plugin::from_opaque_bool;
use io_plugin::from_opaque_bytes;
use io_plugin::from_opaque_float_bits;
use io_plugin::from_opaque_int;
use io_plugin::from_opaque_text;
use io_plugin::from_opaque_uint;
use io_plugin::to_opaque_bool;
use io_plugin::to_opaque_bytes;
use io_plugin::to_opaque_float_bits;
use io_plugin::to_opaque_int;
use io_plugin::to_opaque_text;
use io_plugin::to_opaque_uint;
use io_plugin::DecodeError;
use io_plugin::OpaqueValue;

fn round_trips(v: OpaqueValue) -> OpaqueValue {
    let bytes = encode(&v);
    decode(bytes.as_slice()).expect("a fresh encoding must decode")
}

#[test]
fn null_round_trip() {
    assert_eq!(round_trips(OpaqueValue::Null), OpaqueValue::Null);
}

#[test]
fn bool_round_trip() {
    assert_eq!(round_trips(OpaqueValue::Bool(true)), OpaqueValue::Bool(true));
    assert_eq!(round_trips(OpaqueValue::Bool(false)), OpaqueValue::Bool(false));
}

#[test]
fn int_round_trip() {
    for i in [0i64, 1, -1, 7, -42, i64::MAX, i64::MIN] {
        assert_eq!(round_trips(OpaqueValue::Int(i)), OpaqueValue::Int(i));
    }
}

#[test]
fn uint_round_trip() {
    for u in [0u64, 1, 16, u64::MAX] {
        assert_eq!(round_trips(OpaqueValue::Uint(u)), OpaqueValue::Uint(u));
    }
}

#[test]
fn float_bits_round_trip() {
    for f in [0.0f64, 5.0, -1.5, f64::INFINITY, f64::MIN_POSITIVE] {
        let bits = f.to_bits();
        assert_eq!(round_trips(OpaqueValue::Float(bits)), OpaqueValue::Float(bits));
        if let OpaqueValue::Float(back) = round_trips(OpaqueValue::Float(bits)) {
            assert_eq!(f64::from_bits(back), f);
        } else {
            panic!("shape changed");
        }
    }
}

#[test]
fn text_round_trip() {
    for s in ["", "hello", "Division", "héllo wörld", "日本語"] {
        let v = OpaqueValue::Text(s.to_string());
        assert_eq!(round_trips(v), OpaqueValue::Text(s.to_string()));
    }
}

#[test]
fn bytes_round_trip() {
    let v = OpaqueValue::Bytes(vec![0, 1, 2, 255, 128, 7]);
    assert_eq!(round_trips(v), OpaqueValue::Bytes(vec![0, 1, 2, 255, 128, 7]));
}

#[test]
fn nested_round_trip() {
    let make = || {
        OpaqueValue::Array(vec![
            OpaqueValue::Null,
            OpaqueValue::Int(-3),
            OpaqueValue::Array(vec![OpaqueValue::Text("in".to_string())]),
            OpaqueValue::Mapping(vec![
                ("k".to_string(), OpaqueValue::Bool(true)),
                ("other".to_string(), OpaqueValue::Bytes(vec![9, 9])),
            ]),
        ])
    };
    assert_eq!(round_trips(make()), make());
}

#[test]
fn known_encoding_of_int() {
    // tag 2, then the value as a little-endian 64-bit word
    assert_eq!(encode(&OpaqueValue::Int(1)), vec![2, 1, 0, 0, 0, 0, 0, 0, 0]);
    assert_eq!(
        encode(&OpaqueValue::Int(-1)),
        vec![2, 255, 255, 255, 255, 255, 255, 255, 255]
    );
}

#[test]
fn known_encoding_of_text() {
    // tag 4, byte length as a little-endian 64-bit word, then UTF-8
    assert_eq!(
        encode(&OpaqueValue::Text("ab".to_string())),
        vec![4, 2, 0, 0, 0, 0, 0, 0, 0, b'a', b'b']
    );
}

#[test]
fn empty_payload_is_malformed() {
    assert_eq!(decode(&[]), Err(DecodeError::MalformedPayload));
}

#[test]
fn unknown_tag_is_malformed() {
    assert_eq!(decode(&[99]), Err(DecodeError::MalformedPayload));
}

#[test]
fn bad_bool_byte_is_malformed() {
    assert_eq!(decode(&[1, 2]), Err(DecodeError::MalformedPayload));
}

#[test]
fn truncated_int_is_malformed() {
    assert_eq!(decode(&[2, 1, 0]), Err(DecodeError::MalformedPayload));
}

#[test]
fn trailing_bytes_are_malformed() {
    let mut bytes = encode(&OpaqueValue::Null);
    bytes.push(0);
    assert_eq!(decode(bytes.as_slice()), Err(DecodeError::MalformedPayload));
}

#[test]
fn truncated_text_is_malformed() {
    let bytes = encode(&OpaqueValue::Text("abc".to_string()));
    assert_eq!(
        decode(&bytes[..bytes.len() - 1]),
        Err(DecodeError::MalformedPayload)
    );
}

#[test]
fn invalid_utf8_text_is_malformed() {
    // tag 4, length 1, then a lone continuation byte
    assert_eq!(
        decode(&[4, 1, 0, 0, 0, 0, 0, 0, 0, 0x80]),
        Err(DecodeError::MalformedPayload)
    );
}

#[test]
fn array_with_missing_items_is_malformed() {
    // tag 6, count 2, then only one item
    assert_eq!(
        decode(&[6, 2, 0, 0, 0, 0, 0, 0, 0, 0]),
        Err(DecodeError::MalformedPayload)
    );
}

#[test]
fn opaque_boundary_round_trips() {
    assert_eq!(from_opaque_bool(&to_opaque_bool(true)), Ok(true));
    assert_eq!(from_opaque_int(&to_opaque_int(-7)), Ok(-7));
    assert_eq!(from_opaque_uint(&to_opaque_uint(7)), Ok(7));
    assert_eq!(from_opaque_float_bits(&to_opaque_float_bits(5.0f64.to_bits())), Ok(5.0f64.to_bits()));
    assert_eq!(
        from_opaque_text(to_opaque_text("x".to_string())),
        Ok("x".to_string())
    );
    assert_eq!(
        from_opaque_bytes(to_opaque_bytes(vec![1, 2])),
        Ok(vec![1, 2])
    );
}

#[test]
fn opaque_boundary_rejects_wrong_shape() {
    assert_eq!(from_opaque_bool(&OpaqueValue::Int(1)), Err(DecodeError::TypeMismatch));
    assert_eq!(from_opaque_int(&OpaqueValue::Bool(true)), Err(DecodeError::TypeMismatch));
    assert_eq!(from_opaque_uint(&OpaqueValue::Int(1)), Err(DecodeError::TypeMismatch));
    assert_eq!(
        from_opaque_float_bits(&OpaqueValue::Uint(0)),
        Err(DecodeError::TypeMismatch)
    );
    assert_eq!(
        from_opaque_text(OpaqueValue::Null),
        Err(DecodeError::TypeMismatch)
    );
    assert_eq!(
        from_opaque_bytes(OpaqueValue::Text("x".to_string())),
        Err(DecodeError::TypeMismatch)
    );
}
