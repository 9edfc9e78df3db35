//! Requests and replies on the wire, on concrete values.

use io_plugin::decode_message;
use io_plugin::decode_reply;
use io_plugin::encode;
use io_plugin::encode_message;
use io_plugin::encode_reply;
use io_plugin::DecodeError;
use io_plugin::ExamplePluginMessage;
use io_plugin::ExamplePluginResponse;
use io_plugin::IOPluginError;
use io_plugin::OpaqueValue;

#[test]
fn message_round_trip_every_variant() {
    let messages = vec![
        ExamplePluginMessage::GetName,
        ExamplePluginMessage::SetState(7),
        ExamplePluginMessage::SetState(-7),
        ExamplePluginMessage::GetState,
        ExamplePluginMessage::Divide(10.0f64.to_bits(), 2.0f64.to_bits()),
        ExamplePluginMessage::RandomBytes(16),
        ExamplePluginMessage::RandomBytes(0),
    ];
    for m in messages {
        let bytes = encode_message(&m);
        assert_eq!(decode_message(bytes.as_slice()), Ok(m));
    }
}

#[test]
fn reply_round_trip_every_variant() {
    let replies: Vec<Result<ExamplePluginResponse, IOPluginError>> = vec![
        Ok(ExamplePluginResponse::GetName("Division".to_string())),
        Ok(ExamplePluginResponse::SetState),
        Ok(ExamplePluginResponse::GetState(-3)),
        Ok(ExamplePluginResponse::Divide(OpaqueValue::Float(5.0f64.to_bits()))),
        Ok(ExamplePluginResponse::RandomBytes(vec![1, 2, 3])),
        Err(IOPluginError::PipeClosed),
        Err(IOPluginError::InitialisationError("no pipes".to_string())),
        Err(IOPluginError::Other("math error".to_string())),
    ];
    for reply in replies {
        let expected = match &reply {
            Ok(r) => Ok(clone_response(r)),
            Err(e) => Err(e.clone()),
        };
        let bytes = encode_reply(reply);
        assert_eq!(decode_reply(bytes.as_slice()), Ok(expected));
    }
}

fn clone_response(r: &ExamplePluginResponse) -> ExamplePluginResponse {
    match r {
        ExamplePluginResponse::GetName(s) => ExamplePluginResponse::GetName(s.clone()),
        ExamplePluginResponse::SetState => ExamplePluginResponse::SetState,
        ExamplePluginResponse::GetState(x) => ExamplePluginResponse::GetState(*x),
        ExamplePluginResponse::Divide(OpaqueValue::Float(bits)) => {
            ExamplePluginResponse::Divide(OpaqueValue::Float(*bits))
        }
        ExamplePluginResponse::Divide(_) => panic!("only float payloads used here"),
        ExamplePluginResponse::RandomBytes(b) => ExamplePluginResponse::RandomBytes(b.clone()),
    }
}

#[test]
fn garbage_request_is_malformed() {
    assert_eq!(
        decode_message(&[9, 9, 9]),
        Err(DecodeError::MalformedPayload)
    );
}

#[test]
fn wrong_shape_request_is_type_mismatch() {
    // a well-formed opaque value that spells no message
    let bytes = encode(&OpaqueValue::Null);
    assert_eq!(decode_message(bytes.as_slice()), Err(DecodeError::TypeMismatch));
    // an unknown operation tag
    let bytes = encode(&OpaqueValue::Array(vec![OpaqueValue::Uint(9)]));
    assert_eq!(decode_message(bytes.as_slice()), Err(DecodeError::TypeMismatch));
}

#[test]
fn wrong_shape_reply_is_type_mismatch() {
    let bytes = encode(&OpaqueValue::Array(vec![OpaqueValue::Uint(2)]));
    assert_eq!(decode_reply(bytes.as_slice()), Err(DecodeError::TypeMismatch));
}

#[test]
fn variant_names() {
    assert_eq!(
        ExamplePluginResponse::GetName("x".to_string()).variant_name(),
        "GetName"
    );
    assert_eq!(ExamplePluginResponse::SetState.variant_name(), "SetState");
    assert_eq!(ExamplePluginResponse::GetState(0).variant_name(), "GetState");
    assert_eq!(
        ExamplePluginResponse::Divide(OpaqueValue::Null).variant_name(),
        "Divide"
    );
    assert_eq!(
        ExamplePluginResponse::RandomBytes(vec![]).variant_name(),
        "RandomBytes"
    );
}

#[test]
fn tags_pair_up() {
    let pairs: Vec<(ExamplePluginMessage, ExamplePluginResponse)> = vec![
        (ExamplePluginMessage::GetName, ExamplePluginResponse::GetName("n".to_string())),
        (ExamplePluginMessage::SetState(1), ExamplePluginResponse::SetState),
        (ExamplePluginMessage::GetState, ExamplePluginResponse::GetState(1)),
        (
            ExamplePluginMessage::Divide(0, 0),
            ExamplePluginResponse::Divide(OpaqueValue::Null),
        ),
        (
            ExamplePluginMessage::RandomBytes(1),
            ExamplePluginResponse::RandomBytes(vec![]),
        ),
    ];
    for (m, r) in &pairs {
        assert_eq!(m.tag(), r.tag());
    }
}

#[test]
fn error_messages() {
    assert_eq!(IOPluginError::PipeClosed.message(), "Pipe has been closed");
    assert_eq!(
        IOPluginError::InitialisationError("stdio".to_string()).message(),
        "Plugin failed to initialise: stdio"
    );
    assert_eq!(IOPluginError::Other("boom".to_string()).message(), "boom");
    assert_eq!(
        io_plugin::PluginError::ExecutionError("target/plugin".to_string()).message(),
        "Plugin file target/plugin failed to start"
    );
    assert_eq!(
        io_plugin::Error::MathError.message(),
        "The result is mathematically invalid"
    );
    assert_eq!(
        io_plugin::Error::Generic("g".to_string()).message(),
        "g"
    );
}

#[test]
fn extreme_integer_arguments_round_trip() {
    for x in [i32::MIN, i32::MAX, 0] {
        let m = ExamplePluginMessage::SetState(x);
        let bytes = encode_message(&m);
        assert_eq!(decode_message(bytes.as_slice()), Ok(m));
    }
    let m = ExamplePluginMessage::RandomBytes(usize::MAX);
    let bytes = encode_message(&m);
    assert_eq!(decode_message(bytes.as_slice()), Ok(m));
}

#[test]
fn out_of_range_state_is_type_mismatch() {
    // a set-state request whose integer does not fit the state's type
    let bytes = encode(&OpaqueValue::Array(vec![
        OpaqueValue::Uint(1),
        OpaqueValue::Int(i64::MAX),
    ]));
    assert_eq!(decode_message(bytes.as_slice()), Err(DecodeError::TypeMismatch));
}

#[test]
fn erased_slot_accepts_any_shape() {
    // the divide reply's result slot is erased: any opaque value decodes
    let reply = encode_reply(Ok(ExamplePluginResponse::Divide(OpaqueValue::Text(
        "anything".to_string(),
    ))));
    assert_eq!(
        decode_reply(reply.as_slice()),
        Ok(Ok(ExamplePluginResponse::Divide(OpaqueValue::Text(
            "anything".to_string()
        ))))
    );
}
