//! Whole call cycles through an in-memory pipe: the host encodes a request,
//! the dispatch loop answers it, the host judges the reply.

use io_plugin::decode_reply;
use io_plugin::dispatch_step;
use io_plugin::encode_message;
use io_plugin::encode_reply;
use io_plugin::frame_push;
use io_plugin::from_opaque_float_bits;
use io_plugin::gen_bytes;
use io_plugin::host_accept_reply;
use io_plugin::pascal_to_snake;
use io_plugin::CallError;
use io_plugin::ExamplePluginMessage;
use io_plugin::ExamplePluginResponse;
use io_plugin::ExamplePluginTrait;
use io_plugin::FrameStep;
use io_plugin::IOPluginError;
use io_plugin::LoopAction;
use io_plugin::Multiplexer;
use io_plugin::OpaqueValue;
use io_plugin::ProcessLifecycle;
use io_plugin::ReadEvent;
use io_plugin::READ_CAPACITY;

/// The division plugin of the examples: divides, keeps an integer state,
/// serves random bytes through the default implementation.
struct DivisionPlugin {
    state: i32,
}

impl ExamplePluginTrait for DivisionPlugin {
    fn get_name(&mut self) -> Result<String, String> {
        Ok("Division".to_string())
    }

    fn set_state(&mut self, arg1: i32) -> Result<(), String> {
        self.state = arg1;
        Ok(())
    }

    fn get_state(&mut self) -> Result<i32, String> {
        Ok(self.state)
    }

    fn divide(&mut self, arg1: u64, arg2: u64) -> Result<OpaqueValue, String> {
        let a = f64::from_bits(arg1);
        let b = f64::from_bits(arg2);
        if b == 0.0 {
            return Err("math error".to_string());
        }
        let q = a / b;
        if q.is_nan() {
            return Err("math error".to_string());
        }
        Ok(OpaqueValue::Float(q.to_bits()))
    }
}

/// One full call over the in-memory pipe.
fn call(
    plugin: &mut DivisionPlugin,
    m: ExamplePluginMessage,
) -> Result<ExamplePluginResponse, CallError> {
    let request = encode_message(&m);
    let action = dispatch_step(plugin, ReadEvent::Payload(request));
    match action {
        LoopAction::Reply(reply_bytes) => host_accept_reply(&m, reply_bytes.as_slice()),
        other => panic!("a well-formed request must be answered, got {other:?}"),
    }
}

#[test]
fn divide_ten_by_two_gives_five() {
    let mut plugin = DivisionPlugin { state: 0 };
    let m = ExamplePluginMessage::Divide(10.0f64.to_bits(), 2.0f64.to_bits());
    match call(&mut plugin, m) {
        Ok(ExamplePluginResponse::Divide(v)) => {
            let bits = from_opaque_float_bits(&v).expect("a float result");
            assert_eq!(f64::from_bits(bits), 5.0);
        }
        other => panic!("expected a quotient, got {other:?}"),
    }
}

#[test]
fn divide_by_zero_reports_math_error() {
    let mut plugin = DivisionPlugin { state: 0 };
    let m = ExamplePluginMessage::Divide(1.0f64.to_bits(), 0.0f64.to_bits());
    match call(&mut plugin, m) {
        Err(CallError::Remote(IOPluginError::Other(detail))) => {
            assert_eq!(detail, "math error");
        }
        other => panic!("expected the reported failure, got {other:?}"),
    }
}

#[test]
fn random_bytes_has_exactly_the_requested_length() {
    let mut plugin = DivisionPlugin { state: 0 };
    match call(&mut plugin, ExamplePluginMessage::RandomBytes(16)) {
        Ok(ExamplePluginResponse::RandomBytes(bytes)) => assert_eq!(bytes.len(), 16),
        other => panic!("expected bytes, got {other:?}"),
    }
}

#[test]
fn gen_bytes_length() {
    assert_eq!(gen_bytes(16).len(), 16);
    assert_eq!(gen_bytes(0).len(), 0);
}

#[test]
fn set_state_then_get_state_gives_it_back() {
    let mut plugin = DivisionPlugin { state: 0 };
    match call(&mut plugin, ExamplePluginMessage::SetState(7)) {
        Ok(ExamplePluginResponse::SetState) => {}
        other => panic!("expected the set acknowledgment, got {other:?}"),
    }
    match call(&mut plugin, ExamplePluginMessage::GetState) {
        Ok(ExamplePluginResponse::GetState(x)) => assert_eq!(x, 7),
        other => panic!("expected the state, got {other:?}"),
    }
}

#[test]
fn get_name_bootstrap_call() {
    let mut plugin = DivisionPlugin { state: 0 };
    match call(&mut plugin, ExamplePluginMessage::GetName) {
        Ok(ExamplePluginResponse::GetName(name)) => assert_eq!(name, "Division"),
        other => panic!("expected the name, got {other:?}"),
    }
}

#[test]
fn mismatched_reply_tag_is_a_protocol_desync() {
    // a reply answering GetName, held against a SetState request
    let stray = encode_reply(Ok(ExamplePluginResponse::GetName("Division".to_string())));
    let expected = ExamplePluginMessage::SetState(1);
    match host_accept_reply(&expected, stray.as_slice()) {
        Err(CallError::ProtocolDesync(name)) => assert_eq!(name, "GetName"),
        other => panic!("expected a desynchronization, got {other:?}"),
    }
}

#[test]
fn garbage_reply_is_malformed() {
    let expected = ExamplePluginMessage::GetState;
    match host_accept_reply(&expected, &[7, 7, 7]) {
        Err(CallError::MalformedPayload) => {}
        other => panic!("expected a malformed reply, got {other:?}"),
    }
}

#[test]
fn closed_pipe_exits_cleanly() {
    let mut plugin = DivisionPlugin { state: 0 };
    match dispatch_step(&mut plugin, ReadEvent::Closed) {
        LoopAction::ExitCleanly => {}
        other => panic!("a closed pipe must end the session, got {other:?}"),
    }
}

#[test]
fn malformed_request_is_reported_and_loop_continues() {
    let mut plugin = DivisionPlugin { state: 3 };
    match dispatch_step(&mut plugin, ReadEvent::Payload(vec![9, 9])) {
        LoopAction::Report(diag) => assert_eq!(diag, "Malformed payload"),
        other => panic!("a malformed request must only be reported, got {other:?}"),
    }
    // the session is still usable afterwards
    match call(&mut plugin, ExamplePluginMessage::GetState) {
        Ok(ExamplePluginResponse::GetState(x)) => assert_eq!(x, 3),
        other => panic!("expected the state, got {other:?}"),
    }
}

#[test]
fn calls_complete_in_admission_order() {
    let mut mux = Multiplexer::new();
    mux.submit(1);
    mux.submit(2);
    mux.submit(3);
    // nothing completes while an earlier call is in flight
    assert_eq!(mux.grant(), Some(1));
    assert_eq!(mux.grant(), None);
    assert_eq!(mux.complete(), Some(1));
    assert_eq!(mux.grant(), Some(2));
    assert_eq!(mux.complete(), Some(2));
    assert_eq!(mux.grant(), Some(3));
    assert_eq!(mux.complete(), Some(3));
    assert_eq!(mux.complete(), None);
}

#[test]
fn teardown_kills_exactly_once() {
    let mut lc = ProcessLifecycle::on_spawn();
    assert!(lc.on_teardown());
    assert!(!lc.on_teardown());
    assert!(!lc.on_teardown());
}

#[test]
fn framing_accumulates_until_a_short_read() {
    let mut acc: Vec<u8> = Vec::new();
    assert!(matches!(frame_push(&mut acc, &[1, 2, 3, 4], 4), FrameStep::NeedMore));
    assert!(matches!(frame_push(&mut acc, &[5, 6], 4), FrameStep::Complete));
    assert_eq!(acc, vec![1, 2, 3, 4, 5, 6]);
    assert!(matches!(frame_push(&mut acc, &[], 4), FrameStep::Closed));
    assert_eq!(acc, vec![1, 2, 3, 4, 5, 6]);
}

#[test]
fn method_names_from_variant_names() {
    assert_eq!(pascal_to_snake("GetName"), "get_name");
    assert_eq!(pascal_to_snake("SetState"), "set_state");
    assert_eq!(pascal_to_snake("GetState"), "get_state");
    assert_eq!(pascal_to_snake("Divide"), "divide");
    assert_eq!(pascal_to_snake("RandomBytes"), "random_bytes");
    assert_eq!(pascal_to_snake("UpdateConfig"), "update_config");
    assert_eq!(pascal_to_snake("ExamplePlugin"), "example_plugin");
    assert_eq!(pascal_to_snake("Base64Encode"), "base64_encode");
    assert_eq!(pascal_to_snake(""), "");
}

#[test]
fn large_reply_crosses_the_framing_in_chunks() {
    // a reply well over one buffer's worth of bytes
    let payload: Vec<u8> = (0..=255).cycle().take(3 * READ_CAPACITY / 2).map(|b| b as u8).collect();
    let bytes = encode_reply(Ok(ExamplePluginResponse::RandomBytes(payload.clone())));

    // the reader sees it in buffer-sized chunks, then a short read
    let mut acc: Vec<u8> = Vec::new();
    let mut offset = 0;
    loop {
        let end = usize::min(offset + READ_CAPACITY, bytes.len());
        let step = frame_push(&mut acc, &bytes[offset..end], READ_CAPACITY);
        offset = end;
        match step {
            FrameStep::NeedMore => {
                // a message that ends exactly on a buffer boundary still
                // needs one more read to be told apart from a longer one
                if offset == bytes.len() {
                    assert!(matches!(frame_push(&mut acc, &[], READ_CAPACITY), FrameStep::Closed));
                    panic!("this payload does not end on a buffer boundary");
                }
            }
            FrameStep::Complete => break,
            FrameStep::Closed => panic!("the peer did not close"),
        }
    }
    assert_eq!(acc, bytes);
    assert_eq!(
        decode_reply(acc.as_slice()),
        Ok(Ok(ExamplePluginResponse::RandomBytes(payload)))
    );
}
