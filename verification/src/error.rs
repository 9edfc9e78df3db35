//! Error taxonomy shared by every component of the engine.
//!
//! `IOPluginError` crosses the process boundary: the plugin embeds it in the
//! result slot of the reply it writes. The other kinds stay within one
//! process: `PluginError` describes spawn-time failures on the host,
//! `DecodeError` describes codec and opaque-conversion failures, and
//! `CallError` is what a host-side call surfaces to its caller.

use vstd::prelude::*;

verus! {

/// Failure kinds that cross the process boundary inside a reply.
#[derive(Debug, Clone, PartialEq, Eq)]
pub enum IOPluginError {
    /// The peer terminated the connection: a zero-byte read at a message
    /// boundary.
    PipeClosed,
    /// The plugin could not be brought up, with a human-readable detail.
    InitialisationError(String),
    /// A user operation implementation failed; the description reaches the
    /// original caller as a typed failure, not a transport failure.
    Other(String),
}

/// The mathematical model of an [`IOPluginError`].
pub enum IOPluginErrorData {
    PipeClosed,
    InitialisationError(Seq<char>),
    Other(Seq<char>),
}

impl IOPluginError {
    /// The model this error denotes.
    pub open spec fn deep(self) -> IOPluginErrorData {
        match self {
            IOPluginError::PipeClosed => IOPluginErrorData::PipeClosed,
            IOPluginError::InitialisationError(s) => IOPluginErrorData::InitialisationError(s@),
            IOPluginError::Other(s) => IOPluginErrorData::Other(s@),
        }
    }
}

/// Failure kinds of the process lifecycle manager on the host side.
#[derive(Debug, Clone, PartialEq, Eq)]
pub enum PluginError {
    /// The plugin executable at the recorded path could not be started.
    ExecutionError(String),
    /// The plugin's standard input/output could not be captured at spawn
    /// time.
    InitialisationError,
}

/// Failure kinds of the wire codec and of the opaque value boundary.
#[derive(Debug, Clone, PartialEq, Eq)]
pub enum DecodeError {
    /// Bytes did not form exactly one complete, well-typed value.
    MalformedPayload,
    /// An opaque value's runtime shape did not match the expected type.
    TypeMismatch,
}

impl DecodeError {
    /// Human-readable rendering of the failure.
    pub fn message(&self) -> (r: String)
        ensures
            self is MalformedPayload ==> r@ == "Malformed payload"@,
            self is TypeMismatch ==> r@ == "Type mismatch"@,
    {
        match self {
            DecodeError::MalformedPayload => String::from_str("Malformed payload"),
            DecodeError::TypeMismatch => String::from_str("Type mismatch"),
        }
    }
}

/// Failure kinds a host-side call surfaces to its caller.
#[derive(Debug, Clone, PartialEq, Eq)]
pub enum CallError {
    /// The plugin closed its end of the pipe; the handle is no longer
    /// usable.
    PipeClosed,
    /// The reply bytes did not decode to a well-typed value; the channel
    /// should be considered desynchronized.
    MalformedPayload,
    /// The reply's variant tag differed from the request's; carries the
    /// received variant's name. Never retried automatically.
    ProtocolDesync(String),
    /// The plugin reported a failure of its own.
    Remote(IOPluginError),
}

impl IOPluginError {
    /// Human-readable rendering of the failure.
    pub fn message(&self) -> (r: String)
        ensures
            self is PipeClosed ==> r@ == "Pipe has been closed"@,
            self is InitialisationError ==> r@ == "Plugin failed to initialise: "@
                + self->InitialisationError_0@,
            self is Other ==> r@ == self->Other_0@,
    {
        match self {
            IOPluginError::PipeClosed => String::from_str("Pipe has been closed"),
            IOPluginError::InitialisationError(detail) => {
                let mut r = String::from_str("Plugin failed to initialise: ");
                r.append(detail.as_str());
                r
            },
            IOPluginError::Other(detail) => String::from_str(detail.as_str()),
        }
    }
}

impl PluginError {
    /// Human-readable rendering of the failure.
    pub fn message(&self) -> (r: String)
        ensures
            self is ExecutionError ==> r@ == "Plugin file "@ + self->ExecutionError_0@
                + " failed to start"@,
            self is InitialisationError ==> r@ == "Plugin failed to initialise"@,
    {
        match self {
            PluginError::ExecutionError(path) => {
                let mut r = String::from_str("Plugin file ");
                r.append(path.as_str());
                r.append(" failed to start");
                r
            },
            PluginError::InitialisationError => String::from_str("Plugin failed to initialise"),
        }
    }
}

} // verus!
