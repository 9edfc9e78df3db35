//! Host-side call cycle: build one request, and judge one reply.
//!
//! A call writes exactly one encoded request and then reads exactly one
//! encoded reply, under exclusive access to the pipe pair. The judgment of
//! the reply is the part that must never be silently wrong: a reply whose
//! variant tag differs from the request's is a protocol desynchronization,
//! surfaced as such and never retried, because retrying over a
//! desynchronized stream is unsafe without re-establishing framing.

use vstd::prelude::*;

use crate::error::CallError;
use crate::error::IOPluginError;
use crate::example::reply_of;
use crate::example::ExamplePluginMessage;
use crate::example::ExamplePluginResponse;
use crate::wire::spec_decode;

verus! {

/// Judge one reply against the request it should answer. A transported
/// failure is surfaced as `Remote`; a response with the wrong variant tag
/// is a `ProtocolDesync` carrying the received variant's name; only a
/// response with the matching tag is handed out.
pub fn match_response(
    expected: &ExamplePluginMessage,
    reply: Result<ExamplePluginResponse, IOPluginError>,
) -> (r: Result<ExamplePluginResponse, CallError>)
    ensures
        match r {
            Ok(resp) => reply matches Ok(got) && resp == got && resp.tag_spec()
                == expected.tag_spec(),
            Err(e) => match e {
                CallError::Remote(re) => reply matches Err(got) && re == got,
                CallError::ProtocolDesync(name) => reply matches Ok(got) && got.tag_spec()
                    != expected.tag_spec() && name@ == got.name_spec(),
                _ => false,
            },
        },
{
    match reply {
        Err(e) => Err(CallError::Remote(e)),
        Ok(resp) => {
            if resp.tag() == expected.tag() {
                Ok(resp)
            } else {
                Err(CallError::ProtocolDesync(String::from_str(resp.variant_name())))
            }
        },
    }
}

/// Judge the raw reply bytes of one call: decode them and hold the reply
/// against the request. Bytes that spell no reply leave the channel
/// desynchronized and are surfaced as `MalformedPayload`.
pub fn host_accept_reply(expected: &ExamplePluginMessage, bytes: &[u8]) -> (r: Result<
    ExamplePluginResponse,
    CallError,
>)
    ensures
        ({
            let d = spec_decode(bytes@);
            match r {
                Ok(resp) => d is Some && reply_of(d->Some_0) == Some(
                    Ok::<_, crate::error::IOPluginErrorData>(resp.deep()),
                ) && resp.tag_spec() == expected.tag_spec(),
                Err(e) => match e {
                    CallError::MalformedPayload => d is None || reply_of(d->Some_0) is None,
                    CallError::Remote(re) => d is Some && reply_of(d->Some_0) == Some(
                        Err::<crate::example::ResponseData, _>(re.deep()),
                    ),
                    CallError::ProtocolDesync(name) => d is Some && (reply_of(d->Some_0) matches
                        Some(Ok(rd)) && rd.tag_spec() != expected.tag_spec() && name@
                        == rd.name_spec()),
                    _ => false,
                },
            }
        }),
{
    match crate::example::decode_reply(bytes) {
        Ok(reply) => match_response(expected, reply),
        Err(_) => Err(CallError::MalformedPayload),
    }
}

} // verus!
