//! The demonstration operation set and its generated-stub surface.
//!
//! A schema is an ordered list of named operations, each with typed
//! arguments and one result; the build-time generator derives from it the
//! `Message` and `Response` sum types that this runtime carries. This module
//! holds that surface for the demonstration schema: get the plugin's name,
//! set and get an integer state, divide two floating-point numbers (whose
//! result slot is a schema type parameter, erased to an opaque value on the
//! wire), and draw a number of random bytes. Floating-point slots travel as
//! IEEE 754 bit patterns.
//!
//! Requests and replies are carried as opaque values: `opaque_model` gives
//! each message's wire shape, `message_of` reads one back, and the
//! round-trip laws say the two are mutual inverses.

use vstd::prelude::*;

use crate::error::DecodeError;
use crate::error::IOPluginError;
use crate::error::IOPluginErrorData;
use crate::opaque::OpaqueData;
use crate::opaque::OpaqueValue;

verus! {

/// One request, tagged by operation, carrying that operation's arguments.
/// Produced by the host, consumed by the plugin.
#[derive(Debug, Clone, PartialEq, Eq, Structural)]
pub enum ExamplePluginMessage {
    /// Get the name of this plugin.
    GetName,
    /// Replace the plugin's integer state.
    SetState(i32),
    /// Read the plugin's integer state.
    GetState,
    /// Divide the first argument by the second; both are IEEE 754 bit
    /// patterns. The result slot is erased to an opaque value on the wire.
    Divide(u64, u64),
    /// Get this many random bytes from the plugin.
    RandomBytes(usize),
}

/// One reply, tagged by operation, carrying exactly that operation's
/// result. Produced by the plugin, consumed by the host.
#[derive(Debug, PartialEq, Eq)]
pub enum ExamplePluginResponse {
    /// The plugin's name.
    GetName(String),
    /// The state was replaced; no payload.
    SetState,
    /// The current state.
    GetState(i32),
    /// The quotient, in the erased result slot.
    Divide(OpaqueValue),
    /// The requested random bytes.
    RandomBytes(Vec<u8>),
}

/// Application-level failures of the demonstration plugin.
#[derive(Debug, Clone, PartialEq, Eq)]
pub enum Error {
    /// The result is mathematically invalid.
    MathError,
    /// Any other failure, with its description.
    Generic(String),
}

impl Error {
    /// Human-readable rendering of the failure.
    pub fn message(&self) -> (r: String)
        ensures
            self is MathError ==> r@ == "The result is mathematically invalid"@,
            self is Generic ==> r@ == self->Generic_0@,
    {
        match self {
            Error::MathError => String::from_str("The result is mathematically invalid"),
            Error::Generic(detail) => String::from_str(detail.as_str()),
        }
    }
}

impl ExamplePluginMessage {
    /// The operation this message invokes, as its index in the schema.
    pub open spec fn tag_spec(self) -> u64 {
        match self {
            ExamplePluginMessage::GetName => 0,
            ExamplePluginMessage::SetState(_) => 1,
            ExamplePluginMessage::GetState => 2,
            ExamplePluginMessage::Divide(_, _) => 3,
            ExamplePluginMessage::RandomBytes(_) => 4,
        }
    }

    /// The operation this message invokes, as its index in the schema.
    pub fn tag(&self) -> (t: u64)
        ensures
            t == self.tag_spec(),
    {
        match self {
            ExamplePluginMessage::GetName => 0,
            ExamplePluginMessage::SetState(_) => 1,
            ExamplePluginMessage::GetState => 2,
            ExamplePluginMessage::Divide(_, _) => 3,
            ExamplePluginMessage::RandomBytes(_) => 4,
        }
    }

    /// The wire shape of this message: an array of its tag and arguments.
    pub open spec fn opaque_model(self) -> OpaqueData {
        match self {
            ExamplePluginMessage::GetName => OpaqueData::Array(seq![OpaqueData::Uint(0)]),
            ExamplePluginMessage::SetState(x) => OpaqueData::Array(
                seq![OpaqueData::Uint(1), OpaqueData::Int(x as i64)],
            ),
            ExamplePluginMessage::GetState => OpaqueData::Array(seq![OpaqueData::Uint(2)]),
            ExamplePluginMessage::Divide(a, b) => OpaqueData::Array(
                seq![OpaqueData::Uint(3), OpaqueData::Float(a), OpaqueData::Float(b)],
            ),
            ExamplePluginMessage::RandomBytes(n) => OpaqueData::Array(
                seq![OpaqueData::Uint(4), OpaqueData::Uint(n as u64)],
            ),
        }
    }

    /// Erase this message to its opaque wire value.
    pub fn to_opaque(&self) -> (r: OpaqueValue)
        ensures
            r@ == self.opaque_model(),
    {
        let items: Vec<OpaqueValue> = match self {
            ExamplePluginMessage::GetName => vec![OpaqueValue::Uint(0)],
            ExamplePluginMessage::SetState(x) => vec![
                OpaqueValue::Uint(1),
                OpaqueValue::Int(*x as i64),
            ],
            ExamplePluginMessage::GetState => vec![OpaqueValue::Uint(2)],
            ExamplePluginMessage::Divide(a, b) => vec![
                OpaqueValue::Uint(3),
                OpaqueValue::Float(*a),
                OpaqueValue::Float(*b),
            ],
            ExamplePluginMessage::RandomBytes(n) => vec![
                OpaqueValue::Uint(4),
                OpaqueValue::Uint(*n as u64),
            ],
        };
        proof {
            crate::opaque::lemma_deep_seq(items@);
            assert(crate::opaque::deep_seq(items@) =~= self.opaque_model()->Array_0);
        }
        OpaqueValue::Array(items)
    }
}

/// The message an opaque value spells, if any.
pub open spec fn message_of(d: OpaqueData) -> Option<ExamplePluginMessage> {
    match d {
        OpaqueData::Array(items) => if items.len() == 0 {
            None
        } else {
            match items[0] {
                OpaqueData::Uint(tag) => if tag == 0 {
                    if items.len() == 1 {
                        Some(ExamplePluginMessage::GetName)
                    } else {
                        None
                    }
                } else if tag == 1 {
                    if items.len() == 2 {
                        match items[1] {
                            OpaqueData::Int(x) => if i32::MIN <= x <= i32::MAX {
                                Some(ExamplePluginMessage::SetState(x as i32))
                            } else {
                                None
                            },
                            _ => None,
                        }
                    } else {
                        None
                    }
                } else if tag == 2 {
                    if items.len() == 1 {
                        Some(ExamplePluginMessage::GetState)
                    } else {
                        None
                    }
                } else if tag == 3 {
                    if items.len() == 3 {
                        match (items[1], items[2]) {
                            (OpaqueData::Float(a), OpaqueData::Float(b)) => Some(
                                ExamplePluginMessage::Divide(a, b),
                            ),
                            _ => None,
                        }
                    } else {
                        None
                    }
                } else if tag == 4 {
                    if items.len() == 2 {
                        match items[1] {
                            OpaqueData::Uint(n) => if n <= usize::MAX {
                                Some(ExamplePluginMessage::RandomBytes(n as usize))
                            } else {
                                None
                            },
                            _ => None,
                        }
                    } else {
                        None
                    }
                } else {
                    None
                },
                _ => None,
            }
        },
        _ => None,
    }
}

/// Reading back a message's wire shape gives the message: the two
/// directions of the opaque boundary are mutual inverses.
pub proof fn lemma_message_of_model(m: ExamplePluginMessage)
    ensures
        message_of(m.opaque_model()) == Some(m),
{
}

/// Recover a message from an opaque value; a value that spells no message
/// is a `TypeMismatch`.
pub fn message_from_opaque(v: &OpaqueValue) -> (r: Result<ExamplePluginMessage, DecodeError>)
    ensures
        match r {
            Ok(m) => message_of(v@) == Some(m),
            Err(e) => e == DecodeError::TypeMismatch && message_of(v@) is None,
        },
{
    proof {
        if let OpaqueValue::Array(items) = v {
            crate::opaque::lemma_deep_seq(items@);
        }
    }
    let items = match v {
        OpaqueValue::Array(items) => items,
        _ => {
            return Err(DecodeError::TypeMismatch);
        },
    };
    if items.len() == 0 {
        return Err(DecodeError::TypeMismatch);
    }
    let tag: u64 = match &items[0] {
        OpaqueValue::Uint(t) => *t,
        _ => {
            return Err(DecodeError::TypeMismatch);
        },
    };
    if tag == 0 {
        if items.len() == 1 {
            Ok(ExamplePluginMessage::GetName)
        } else {
            Err(DecodeError::TypeMismatch)
        }
    } else if tag == 1 {
        if items.len() == 2 {
            match &items[1] {
                OpaqueValue::Int(x) => {
                    if i32::MIN as i64 <= *x && *x <= i32::MAX as i64 {
                        Ok(ExamplePluginMessage::SetState(*x as i32))
                    } else {
                        Err(DecodeError::TypeMismatch)
                    }
                },
                _ => Err(DecodeError::TypeMismatch),
            }
        } else {
            Err(DecodeError::TypeMismatch)
        }
    } else if tag == 2 {
        if items.len() == 1 {
            Ok(ExamplePluginMessage::GetState)
        } else {
            Err(DecodeError::TypeMismatch)
        }
    } else if tag == 3 {
        if items.len() == 3 {
            match (&items[1], &items[2]) {
                (OpaqueValue::Float(a), OpaqueValue::Float(b)) => Ok(
                    ExamplePluginMessage::Divide(*a, *b),
                ),
                _ => Err(DecodeError::TypeMismatch),
            }
        } else {
            Err(DecodeError::TypeMismatch)
        }
    } else if tag == 4 {
        if items.len() == 2 {
            match &items[1] {
                OpaqueValue::Uint(n) => {
                    if *n <= usize::MAX as u64 {
                        Ok(ExamplePluginMessage::RandomBytes(*n as usize))
                    } else {
                        Err(DecodeError::TypeMismatch)
                    }
                },
                _ => Err(DecodeError::TypeMismatch),
            }
        } else {
            Err(DecodeError::TypeMismatch)
        }
    } else {
        Err(DecodeError::TypeMismatch)
    }
}

/// The mathematical model of an [`ExamplePluginResponse`].
pub enum ResponseData {
    GetName(Seq<char>),
    SetState,
    GetState(i32),
    Divide(OpaqueData),
    RandomBytes(Seq<u8>),
}

impl ExamplePluginResponse {
    /// The operation this response answers, as its index in the schema.
    pub open spec fn tag_spec(self) -> u64 {
        match self {
            ExamplePluginResponse::GetName(_) => 0,
            ExamplePluginResponse::SetState => 1,
            ExamplePluginResponse::GetState(_) => 2,
            ExamplePluginResponse::Divide(_) => 3,
            ExamplePluginResponse::RandomBytes(_) => 4,
        }
    }

    /// The operation this response answers, as its index in the schema.
    pub fn tag(&self) -> (t: u64)
        ensures
            t == self.tag_spec(),
    {
        match self {
            ExamplePluginResponse::GetName(_) => 0,
            ExamplePluginResponse::SetState => 1,
            ExamplePluginResponse::GetState(_) => 2,
            ExamplePluginResponse::Divide(_) => 3,
            ExamplePluginResponse::RandomBytes(_) => 4,
        }
    }

    /// The name of this response's variant.
    pub open spec fn name_spec(self) -> Seq<char> {
        self.deep().name_spec()
    }

    /// The name of this response's variant.
    pub fn variant_name(&self) -> (r: &'static str)
        ensures
            r@ == self.name_spec(),
    {
        match self {
            ExamplePluginResponse::GetName(_) => "GetName",
            ExamplePluginResponse::SetState => "SetState",
            ExamplePluginResponse::GetState(_) => "GetState",
            ExamplePluginResponse::Divide(_) => "Divide",
            ExamplePluginResponse::RandomBytes(_) => "RandomBytes",
        }
    }

    /// The model this response denotes.
    pub open spec fn deep(self) -> ResponseData {
        match self {
            ExamplePluginResponse::GetName(s) => ResponseData::GetName(s@),
            ExamplePluginResponse::SetState => ResponseData::SetState,
            ExamplePluginResponse::GetState(x) => ResponseData::GetState(x),
            ExamplePluginResponse::Divide(v) => ResponseData::Divide(v@),
            ExamplePluginResponse::RandomBytes(b) => ResponseData::RandomBytes(b@),
        }
    }
}

impl ResponseData {
    /// The name of this response's variant.
    pub open spec fn name_spec(self) -> Seq<char> {
        match self {
            ResponseData::GetName(_) => "GetName"@,
            ResponseData::SetState => "SetState"@,
            ResponseData::GetState(_) => "GetState"@,
            ResponseData::Divide(_) => "Divide"@,
            ResponseData::RandomBytes(_) => "RandomBytes"@,
        }
    }

    /// The operation this response model answers.
    pub open spec fn tag_spec(self) -> u64 {
        match self {
            ResponseData::GetName(_) => 0,
            ResponseData::SetState => 1,
            ResponseData::GetState(_) => 2,
            ResponseData::Divide(_) => 3,
            ResponseData::RandomBytes(_) => 4,
        }
    }

    /// The wire shape of this response: an array of its tag and payload.
    pub open spec fn opaque_model(self) -> OpaqueData {
        match self {
            ResponseData::GetName(s) => OpaqueData::Array(
                seq![OpaqueData::Uint(0), OpaqueData::Text(s)],
            ),
            ResponseData::SetState => OpaqueData::Array(seq![OpaqueData::Uint(1)]),
            ResponseData::GetState(x) => OpaqueData::Array(
                seq![OpaqueData::Uint(2), OpaqueData::Int(x as i64)],
            ),
            ResponseData::Divide(d) => OpaqueData::Array(seq![OpaqueData::Uint(3), d]),
            ResponseData::RandomBytes(b) => OpaqueData::Array(
                seq![OpaqueData::Uint(4), OpaqueData::Bytes(b)],
            ),
        }
    }
}

/// The response model an opaque value spells, if any. The payload of the
/// divide operation is an erased slot, so any opaque value is accepted
/// there.
pub open spec fn response_of(d: OpaqueData) -> Option<ResponseData> {
    match d {
        OpaqueData::Array(items) => if items.len() == 0 {
            None
        } else {
            match items[0] {
                OpaqueData::Uint(tag) => if tag == 0 {
                    if items.len() == 2 {
                        match items[1] {
                            OpaqueData::Text(s) => Some(ResponseData::GetName(s)),
                            _ => None,
                        }
                    } else {
                        None
                    }
                } else if tag == 1 {
                    if items.len() == 1 {
                        Some(ResponseData::SetState)
                    } else {
                        None
                    }
                } else if tag == 2 {
                    if items.len() == 2 {
                        match items[1] {
                            OpaqueData::Int(x) => if i32::MIN <= x <= i32::MAX {
                                Some(ResponseData::GetState(x as i32))
                            } else {
                                None
                            },
                            _ => None,
                        }
                    } else {
                        None
                    }
                } else if tag == 3 {
                    if items.len() == 2 {
                        Some(ResponseData::Divide(items[1]))
                    } else {
                        None
                    }
                } else if tag == 4 {
                    if items.len() == 2 {
                        match items[1] {
                            OpaqueData::Bytes(b) => Some(ResponseData::RandomBytes(b)),
                            _ => None,
                        }
                    } else {
                        None
                    }
                } else {
                    None
                },
                _ => None,
            }
        },
        _ => None,
    }
}

/// Reading back a response model's wire shape gives the model.
pub proof fn lemma_response_of_model(r: ResponseData)
    ensures
        response_of(r.opaque_model()) == Some(r),
{
}

/// Erase a response to its opaque wire value.
pub fn response_to_opaque(resp: ExamplePluginResponse) -> (r: OpaqueValue)
    ensures
        r@ == resp.deep().opaque_model(),
{
    let ghost model = resp.deep().opaque_model();
    let items: Vec<OpaqueValue> = match resp {
        ExamplePluginResponse::GetName(s) => vec![OpaqueValue::Uint(0), OpaqueValue::Text(s)],
        ExamplePluginResponse::SetState => vec![OpaqueValue::Uint(1)],
        ExamplePluginResponse::GetState(x) => vec![
            OpaqueValue::Uint(2),
            OpaqueValue::Int(x as i64),
        ],
        ExamplePluginResponse::Divide(v) => vec![OpaqueValue::Uint(3), v],
        ExamplePluginResponse::RandomBytes(b) => vec![OpaqueValue::Uint(4), OpaqueValue::Bytes(b)],
    };
    proof {
        crate::opaque::lemma_deep_seq(items@);
        assert(crate::opaque::deep_seq(items@) =~= model->Array_0);
    }
    OpaqueValue::Array(items)
}

/// Recover a response from an opaque value; a value that spells no
/// response is a `TypeMismatch`.
pub fn response_from_opaque(v: OpaqueValue) -> (r: Result<ExamplePluginResponse, DecodeError>)
    ensures
        match r {
            Ok(resp) => response_of(v@) == Some(resp.deep()),
            Err(e) => e == DecodeError::TypeMismatch && response_of(v@) is None,
        },
{
    proof {
        if let OpaqueValue::Array(items) = &v {
            crate::opaque::lemma_deep_seq(items@);
        }
    }
    let mut items = match v {
        OpaqueValue::Array(items) => items,
        _ => {
            return Err(DecodeError::TypeMismatch);
        },
    };
    if items.len() == 1 {
        let tagv = items.pop();
        match tagv {
            Some(OpaqueValue::Uint(1)) => Ok(ExamplePluginResponse::SetState),
            _ => Err(DecodeError::TypeMismatch),
        }
    } else if items.len() == 2 {
        let payload = match items.pop() {
            Some(p) => p,
            None => {
                return Err(DecodeError::TypeMismatch);
            },
        };
        let tag: u64 = match items.pop() {
            Some(OpaqueValue::Uint(t)) => t,
            _ => {
                return Err(DecodeError::TypeMismatch);
            },
        };
        if tag == 0 {
            match payload {
                OpaqueValue::Text(s) => Ok(ExamplePluginResponse::GetName(s)),
                _ => Err(DecodeError::TypeMismatch),
            }
        } else if tag == 2 {
            match payload {
                OpaqueValue::Int(x) => {
                    if i32::MIN as i64 <= x && x <= i32::MAX as i64 {
                        Ok(ExamplePluginResponse::GetState(x as i32))
                    } else {
                        Err(DecodeError::TypeMismatch)
                    }
                },
                _ => Err(DecodeError::TypeMismatch),
            }
        } else if tag == 3 {
            Ok(ExamplePluginResponse::Divide(payload))
        } else if tag == 4 {
            match payload {
                OpaqueValue::Bytes(b) => Ok(ExamplePluginResponse::RandomBytes(b)),
                _ => Err(DecodeError::TypeMismatch),
            }
        } else {
            Err(DecodeError::TypeMismatch)
        }
    } else {
        Err(DecodeError::TypeMismatch)
    }
}

/// The wire shape of a transported failure.
pub open spec fn error_opaque(e: IOPluginErrorData) -> OpaqueData {
    match e {
        IOPluginErrorData::PipeClosed => OpaqueData::Array(seq![OpaqueData::Uint(0)]),
        IOPluginErrorData::InitialisationError(s) => OpaqueData::Array(
            seq![OpaqueData::Uint(1), OpaqueData::Text(s)],
        ),
        IOPluginErrorData::Other(s) => OpaqueData::Array(
            seq![OpaqueData::Uint(2), OpaqueData::Text(s)],
        ),
    }
}

/// The failure an opaque value spells, if any.
pub open spec fn error_of(d: OpaqueData) -> Option<IOPluginErrorData> {
    match d {
        OpaqueData::Array(items) => if items.len() == 1 {
            match items[0] {
                OpaqueData::Uint(tag) => if tag == 0 {
                    Some(IOPluginErrorData::PipeClosed)
                } else {
                    None
                },
                _ => None,
            }
        } else if items.len() == 2 {
            match (items[0], items[1]) {
                (OpaqueData::Uint(tag), OpaqueData::Text(s)) => if tag == 1 {
                    Some(IOPluginErrorData::InitialisationError(s))
                } else if tag == 2 {
                    Some(IOPluginErrorData::Other(s))
                } else {
                    None
                },
                _ => None,
            }
        } else {
            None
        },
        _ => None,
    }
}

/// One reply as the plugin writes it: the operation's response, or the
/// failure the plugin reports instead.
pub open spec fn reply_opaque(r: Result<ResponseData, IOPluginErrorData>) -> OpaqueData {
    match r {
        Ok(resp) => OpaqueData::Array(seq![OpaqueData::Uint(0), resp.opaque_model()]),
        Err(e) => OpaqueData::Array(seq![OpaqueData::Uint(1), error_opaque(e)]),
    }
}

/// The reply an opaque value spells, if any.
pub open spec fn reply_of(d: OpaqueData) -> Option<Result<ResponseData, IOPluginErrorData>> {
    match d {
        OpaqueData::Array(items) => if items.len() == 2 {
            match items[0] {
                OpaqueData::Uint(tag) => if tag == 0 {
                    match response_of(items[1]) {
                        Some(resp) => Some(Ok(resp)),
                        None => None,
                    }
                } else if tag == 1 {
                    match error_of(items[1]) {
                        Some(e) => Some(Err(e)),
                        None => None,
                    }
                } else {
                    None
                },
                _ => None,
            }
        } else {
            None
        },
        _ => None,
    }
}

/// The model of a reply value.
pub open spec fn reply_deep(r: Result<ExamplePluginResponse, IOPluginError>) -> Result<
    ResponseData,
    IOPluginErrorData,
> {
    match r {
        Ok(resp) => Ok(resp.deep()),
        Err(e) => Err(e.deep()),
    }
}

/// Reading back a reply's wire shape gives the reply.
pub proof fn lemma_reply_of_opaque(r: Result<ResponseData, IOPluginErrorData>)
    ensures
        reply_of(reply_opaque(r)) == Some(r),
{
    match r {
        Ok(resp) => lemma_response_of_model(resp),
        Err(_) => {},
    }
}

/// Erase a transported failure to its opaque wire value.
pub fn error_to_opaque(e: IOPluginError) -> (r: OpaqueValue)
    ensures
        r@ == error_opaque(e.deep()),
{
    let ghost model = error_opaque(e.deep());
    let items: Vec<OpaqueValue> = match e {
        IOPluginError::PipeClosed => vec![OpaqueValue::Uint(0)],
        IOPluginError::InitialisationError(s) => vec![OpaqueValue::Uint(1), OpaqueValue::Text(s)],
        IOPluginError::Other(s) => vec![OpaqueValue::Uint(2), OpaqueValue::Text(s)],
    };
    proof {
        crate::opaque::lemma_deep_seq(items@);
        assert(crate::opaque::deep_seq(items@) =~= model->Array_0);
    }
    OpaqueValue::Array(items)
}

/// Recover a transported failure from an opaque value.
pub fn error_from_opaque(v: OpaqueValue) -> (r: Result<IOPluginError, DecodeError>)
    ensures
        match r {
            Ok(e) => error_of(v@) == Some(e.deep()),
            Err(e) => e == DecodeError::TypeMismatch && error_of(v@) is None,
        },
{
    proof {
        if let OpaqueValue::Array(items) = &v {
            crate::opaque::lemma_deep_seq(items@);
        }
    }
    let mut items = match v {
        OpaqueValue::Array(items) => items,
        _ => {
            return Err(DecodeError::TypeMismatch);
        },
    };
    if items.len() == 1 {
        match items.pop() {
            Some(OpaqueValue::Uint(0)) => Ok(IOPluginError::PipeClosed),
            _ => Err(DecodeError::TypeMismatch),
        }
    } else if items.len() == 2 {
        let payload = match items.pop() {
            Some(p) => p,
            None => {
                return Err(DecodeError::TypeMismatch);
            },
        };
        let tag: u64 = match items.pop() {
            Some(OpaqueValue::Uint(t)) => t,
            _ => {
                return Err(DecodeError::TypeMismatch);
            },
        };
        match payload {
            OpaqueValue::Text(s) => {
                if tag == 1 {
                    Ok(IOPluginError::InitialisationError(s))
                } else if tag == 2 {
                    Ok(IOPluginError::Other(s))
                } else {
                    Err(DecodeError::TypeMismatch)
                }
            },
            _ => Err(DecodeError::TypeMismatch),
        }
    } else {
        Err(DecodeError::TypeMismatch)
    }
}

/// Encode one request for the wire.
pub fn encode_message(m: &ExamplePluginMessage) -> (out: Vec<u8>)
    ensures
        out@ == crate::wire::wire_of(m.opaque_model()),
        crate::wire::bounded(m.opaque_model()),
{
    let ov = m.to_opaque();
    crate::wire::encode(&ov)
}

/// Decode one request from the wire. Bytes that do not form exactly one
/// opaque value are a `MalformedPayload`; an opaque value that spells no
/// message is a `TypeMismatch`.
pub fn decode_message(bytes: &[u8]) -> (r: Result<ExamplePluginMessage, DecodeError>)
    ensures
        match r {
            Ok(m) => crate::wire::spec_decode(bytes@) is Some && message_of(
                crate::wire::spec_decode(bytes@)->Some_0,
            ) == Some(m),
            Err(e) => (e == DecodeError::MalformedPayload && crate::wire::spec_decode(bytes@)
                is None) || (e == DecodeError::TypeMismatch && crate::wire::spec_decode(bytes@)
                is Some && message_of(crate::wire::spec_decode(bytes@)->Some_0) is None),
        },
{
    match crate::wire::decode(bytes) {
        Ok(v) => match message_from_opaque(&v) {
            Ok(m) => Ok(m),
            Err(e) => Err(e),
        },
        Err(e) => Err(e),
    }
}

/// Encode one reply for the wire.
pub fn encode_reply(reply: Result<ExamplePluginResponse, IOPluginError>) -> (out: Vec<u8>)
    ensures
        out@ == crate::wire::wire_of(reply_opaque(reply_deep(reply))),
        crate::wire::bounded(reply_opaque(reply_deep(reply))),
{
    let ghost model = reply_opaque(reply_deep(reply));
    let items: Vec<OpaqueValue> = match reply {
        Ok(resp) => vec![OpaqueValue::Uint(0), response_to_opaque(resp)],
        Err(e) => vec![OpaqueValue::Uint(1), error_to_opaque(e)],
    };
    proof {
        crate::opaque::lemma_deep_seq(items@);
        assert(crate::opaque::deep_seq(items@) =~= model->Array_0);
    }
    let ov = OpaqueValue::Array(items);
    crate::wire::encode(&ov)
}

/// Decode one reply from the wire, with the same error split as
/// [`decode_message`].
pub fn decode_reply(bytes: &[u8]) -> (r: Result<
    Result<ExamplePluginResponse, IOPluginError>,
    DecodeError,
>)
    ensures
        match r {
            Ok(reply) => crate::wire::spec_decode(bytes@) is Some && reply_of(
                crate::wire::spec_decode(bytes@)->Some_0,
            ) == Some(reply_deep(reply)),
            Err(e) => (e == DecodeError::MalformedPayload && crate::wire::spec_decode(bytes@)
                is None) || (e == DecodeError::TypeMismatch && crate::wire::spec_decode(bytes@)
                is Some && reply_of(crate::wire::spec_decode(bytes@)->Some_0) is None),
        },
{
    let v = match crate::wire::decode(bytes) {
        Ok(v) => v,
        Err(e) => {
            return Err(e);
        },
    };
    proof {
        if let OpaqueValue::Array(items) = &v {
            crate::opaque::lemma_deep_seq(items@);
        }
    }
    let mut items = match v {
        OpaqueValue::Array(items) => items,
        _ => {
            return Err(DecodeError::TypeMismatch);
        },
    };
    if items.len() != 2 {
        return Err(DecodeError::TypeMismatch);
    }
    let payload = match items.pop() {
        Some(p) => p,
        None => {
            return Err(DecodeError::TypeMismatch);
        },
    };
    let tag: u64 = match items.pop() {
        Some(OpaqueValue::Uint(t)) => t,
        _ => {
            return Err(DecodeError::TypeMismatch);
        },
    };
    if tag == 0 {
        match response_from_opaque(payload) {
            Ok(resp) => Ok(Ok(resp)),
            Err(e) => Err(e),
        }
    } else if tag == 1 {
        match error_from_opaque(payload) {
            Ok(e) => Ok(Err(e)),
            Err(e) => Err(e),
        }
    } else {
        Err(DecodeError::TypeMismatch)
    }
}

/// Every message's wire shape is bounded: its lengths fit the wire's
/// length words.
pub proof fn lemma_message_bounded(m: ExamplePluginMessage)
    ensures
        crate::wire::bounded(m.opaque_model()),
{
    let items = m.opaque_model()->Array_0;
    assert forall|i: int| 0 <= i < items.len() implies crate::wire::bounded(#[trigger] items[i]) by {
        match m {
            ExamplePluginMessage::GetName => {},
            ExamplePluginMessage::SetState(_) => {},
            ExamplePluginMessage::GetState => {},
            ExamplePluginMessage::Divide(_, _) => {},
            ExamplePluginMessage::RandomBytes(_) => {},
        }
    }
    lemma_bounded_seq_of(items);
}

/// A sequence of bounded values is bounded.
proof fn lemma_bounded_seq_of(items: Seq<OpaqueData>)
    requires
        forall|i: int| 0 <= i < items.len() ==> crate::wire::bounded(#[trigger] items[i]),
    ensures
        crate::wire::bounded_seq(items),
    decreases items.len(),
{
    if items.len() > 0 {
        assert forall|i: int|
            0 <= i < items.drop_first().len() implies crate::wire::bounded(
            #[trigger] items.drop_first()[i],
        ) by {
            assert(items.drop_first()[i] == items[i + 1]);
        }
        lemma_bounded_seq_of(items.drop_first());
    }
}

/// Law: the wire codec round-trips every request. Encoding a message and
/// decoding the bytes gives exactly that message back.
pub proof fn lemma_message_wire_round_trip(m: ExamplePluginMessage)
    ensures
        crate::wire::spec_decode(crate::wire::wire_of(m.opaque_model())) == Some(
            m.opaque_model(),
        ),
        message_of(m.opaque_model()) == Some(m),
{
    lemma_message_bounded(m);
    crate::wire::lemma_decode_encode(m.opaque_model());
}

/// Law: the wire codec round-trips every reply whose lengths fit the wire.
/// The executable encoder establishes that bound for every reply it
/// encodes.
pub proof fn lemma_reply_wire_round_trip(r: Result<ResponseData, IOPluginErrorData>)
    requires
        crate::wire::bounded(reply_opaque(r)),
    ensures
        crate::wire::spec_decode(crate::wire::wire_of(reply_opaque(r))) == Some(reply_opaque(r)),
        reply_of(reply_opaque(r)) == Some(r),
{
    crate::wire::lemma_decode_encode(reply_opaque(r));
    lemma_reply_of_opaque(r);
}

} // verus!
