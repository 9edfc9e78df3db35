//! Runtime core for driving a child process ("plugin") from a controlling
//! process ("host") over the child's standard input/output pipes.
//!
//! The library holds the verified logic of that engine: the self-delimiting
//! wire codec, the opaque value type used to erase generic argument/result
//! slots, the framing discipline for reading one message from an unframed
//! pipe, the call-cycle and dispatch rules, and the error taxonomy. The
//! asynchronous plumbing (process spawning, pipe reads and writes) lives in
//! the surrounding application code, which hands plain values to and from
//! this library.

mod dispatch;
mod error;
mod example;
mod framing;
mod handle;
mod lifecycle;
mod multiplex;
mod names;
mod opaque;
mod random;
mod wire;

pub use dispatch::dispatch_message;
pub use dispatch::dispatch_step;
pub use dispatch::ExamplePluginTrait;
pub use dispatch::LoopAction;
pub use dispatch::ReadEvent;
pub use error::CallError;
pub use framing::frame_push;
pub use framing::FrameStep;
pub use framing::READ_CAPACITY;
pub use lifecycle::ProcessLifecycle;
pub use multiplex::lemma_fifo_completion;
pub use multiplex::Multiplexer;
pub use error::IOPluginErrorData;
pub use example::decode_message;
pub use example::decode_reply;
pub use example::encode_message;
pub use example::encode_reply;
pub use example::error_from_opaque;
pub use example::error_of;
pub use example::error_opaque;
pub use example::error_to_opaque;
pub use example::lemma_message_bounded;
pub use example::lemma_message_wire_round_trip;
pub use example::lemma_reply_of_opaque;
pub use example::lemma_reply_wire_round_trip;
pub use example::lemma_response_of_model;
pub use example::reply_deep;
pub use example::reply_of;
pub use example::reply_opaque;
pub use example::response_from_opaque;
pub use example::response_of;
pub use example::response_to_opaque;
pub use example::ResponseData;
pub use handle::host_accept_reply;
pub use names::pascal_to_snake;
pub use names::snake_of;
pub use handle::match_response;
pub use random::gen_bytes;
pub use example::message_of;
pub use example::message_from_opaque;
pub use example::lemma_message_of_model;
pub use example::Error;
pub use example::ExamplePluginMessage;
pub use example::ExamplePluginResponse;
pub use error::DecodeError;
pub use error::IOPluginError;
pub use error::PluginError;
pub use opaque::from_opaque_bool;
pub use opaque::from_opaque_bytes;
pub use opaque::from_opaque_float_bits;
pub use opaque::from_opaque_int;
pub use opaque::from_opaque_text;
pub use opaque::from_opaque_uint;
pub use opaque::to_opaque_bool;
pub use opaque::to_opaque_bytes;
pub use opaque::to_opaque_float_bits;
pub use opaque::to_opaque_int;
pub use opaque::to_opaque_text;
pub use opaque::to_opaque_uint;
pub use opaque::OpaqueData;
pub use opaque::OpaqueValue;
pub use wire::bounded;
pub use wire::decode;
pub use wire::encode;
pub use wire::lemma_decode_encode;
pub use wire::lemma_parse_wire;
pub use wire::parse_val;
pub use wire::spec_decode;
pub use wire::wire_of;

