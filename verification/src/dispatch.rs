//! Plugin-side dispatch: route one decoded request to the user-supplied
//! operation implementation and wrap what comes back into one reply.
//!
//! The surrounding runtime loops forever: read one framed payload, hand it
//! to [`dispatch_step`], perform the returned action, repeat. A payload
//! that decodes to a request is answered; one that does not is reported on
//! the diagnostic stream and the loop continues, so a single malformed
//! message does not kill the plugin. A closed pipe means the host is gone:
//! the loop ends the process with success status.

use vstd::prelude::*;

use crate::error::IOPluginError;
use crate::error::IOPluginErrorData;
use crate::example::message_of;
use crate::example::reply_deep;
use crate::example::reply_opaque;
use crate::example::ExamplePluginMessage;
use crate::example::ExamplePluginResponse;
use crate::example::ResponseData;
use crate::opaque::OpaqueValue;
use crate::wire::spec_decode;
use crate::wire::wire_of;

verus! {

/// The operations a plugin implements, one method per schema operation.
/// An implementation failure is reported as its description, which reaches
/// the host as an `Other` failure inside the reply.
pub trait ExamplePluginTrait {
    /// Get the name of this plugin.
    fn get_name(&mut self) -> Result<String, String>;

    /// Replace the plugin's integer state.
    fn set_state(&mut self, arg1: i32) -> Result<(), String>;

    /// Read the plugin's integer state.
    fn get_state(&mut self) -> Result<i32, String>;

    /// Divide the first argument by the second, both IEEE 754 bit
    /// patterns; the result travels in the erased slot.
    fn divide(&mut self, arg1: u64, arg2: u64) -> Result<OpaqueValue, String>;

    /// Get `amount` random bytes. The default implementation serves
    /// exactly that many bytes from the process-wide generator.
    fn random_bytes(&mut self, amount: usize) -> (r: Result<Vec<u8>, String>) {
        Ok(crate::random::gen_bytes(amount))
    }
}

/// Route one request to the matching operation and wrap the outcome: a
/// success becomes the response variant with the same tag as the request,
/// and an implementation failure becomes an `Other` failure carrying its
/// description.
pub fn dispatch_message<P: ExamplePluginTrait>(plugin: &mut P, m: &ExamplePluginMessage) -> (r:
    Result<ExamplePluginResponse, IOPluginError>)
    ensures
        r is Ok ==> r->Ok_0.tag_spec() == m.tag_spec(),
        r is Err ==> r->Err_0 is Other,
{
    match m {
        ExamplePluginMessage::GetName => match plugin.get_name() {
            Ok(name) => Ok(ExamplePluginResponse::GetName(name)),
            Err(detail) => Err(IOPluginError::Other(detail)),
        },
        ExamplePluginMessage::SetState(x) => match plugin.set_state(*x) {
            Ok(_) => Ok(ExamplePluginResponse::SetState),
            Err(detail) => Err(IOPluginError::Other(detail)),
        },
        ExamplePluginMessage::GetState => match plugin.get_state() {
            Ok(x) => Ok(ExamplePluginResponse::GetState(x)),
            Err(detail) => Err(IOPluginError::Other(detail)),
        },
        ExamplePluginMessage::Divide(a, b) => match plugin.divide(*a, *b) {
            Ok(v) => Ok(ExamplePluginResponse::Divide(v)),
            Err(detail) => Err(IOPluginError::Other(detail)),
        },
        ExamplePluginMessage::RandomBytes(n) => match plugin.random_bytes(*n) {
            Ok(bytes) => Ok(ExamplePluginResponse::RandomBytes(bytes)),
            Err(detail) => Err(IOPluginError::Other(detail)),
        },
    }
}

/// What one pipe read handed the dispatch loop.
#[derive(Debug)]
pub enum ReadEvent {
    /// One framed payload.
    Payload(Vec<u8>),
    /// A zero-byte read: the peer closed the pipe.
    Closed,
}

/// What the dispatch loop does next.
#[derive(Debug)]
pub enum LoopAction {
    /// Write these reply bytes, then read the next request.
    Reply(Vec<u8>),
    /// Report this diagnostic on the error stream, send nothing, and read
    /// the next request: a malformed message does not kill the plugin.
    Report(String),
    /// End the process with success status: the host closed the pipe.
    ExitCleanly,
}

/// One iteration of the dispatch loop, as a decision on what was read.
/// A closed pipe, and nothing else, ends the session cleanly. A payload
/// that spells a request is answered by a reply with the same tag, or by
/// the `Other` failure the implementation reported; any other payload is
/// reported and skipped.
pub fn dispatch_step<P: ExamplePluginTrait>(plugin: &mut P, event: ReadEvent) -> (a: LoopAction)
    ensures
        a is ExitCleanly <==> event is Closed,
        event matches ReadEvent::Payload(payload) ==> {
            let d = spec_decode(payload@);
            if d is Some && message_of(d->Some_0) is Some {
                a is Reply && exists|reply: Result<ResponseData, IOPluginErrorData>|
                    {
                        &&& a->Reply_0@ == wire_of(#[trigger] reply_opaque(reply))
                        &&& crate::wire::bounded(reply_opaque(reply))
                        &&& reply matches Ok(resp) ==> resp.tag_spec() == message_of(
                            d->Some_0,
                        )->Some_0.tag_spec()
                        &&& reply matches Err(e) ==> e is Other
                    }
            } else {
                a is Report
            }
        },
{
    match event {
        ReadEvent::Closed => LoopAction::ExitCleanly,
        ReadEvent::Payload(payload) => {
            match crate::example::decode_message(payload.as_slice()) {
                Ok(m) => {
                    let reply = dispatch_message(plugin, &m);
                    let ghost replyd = reply_deep(reply);
                    let out = crate::example::encode_reply(reply);
                    proof {
                        assert(out@ == wire_of(reply_opaque(replyd)));
                    }
                    LoopAction::Reply(out)
                },
                Err(e) => LoopAction::Report(e.message()),
            }
        },
    }
}

} // verus!
