//! The typed messages this transport carries, and its error kinds. The
//! catalog is deliberately small: the transport never branches on command
//! semantics, it only frames, sequences and (de)serializes.

use vstd::prelude::*;

verus! {

/// Arguments of an `initialize` request that this layer retains.
#[derive(Debug)]
pub struct InitializeArguments {
    pub adapter_id: Option<String>,
    pub client_name: Option<String>,
}

/// Arguments a `restart` request repeats from an earlier launch or attach.
#[derive(Debug)]
pub struct AttachOrLaunchArguments {
    pub no_debug: Option<bool>,
    /// The raw JSON text of the `__restart` value the client handed back.
    pub restart_data: Option<String>,
}

/// Arguments of a `restart` request.
#[derive(Debug)]
pub struct RestartArguments {
    pub arguments: Option<AttachOrLaunchArguments>,
}

/// The command of an inbound request, with its arguments.
#[derive(Debug)]
pub enum Command {
    Initialize(InitializeArguments),
    Restart(RestartArguments),
}

/// One inbound request: the peer's sequence number and its command.
#[derive(Debug)]
pub struct Request {
    pub seq: i64,
    pub command: Command,
}

/// A response to a request from the peer.
#[derive(Debug)]
pub struct Response {
    pub request_seq: i64,
    pub success: bool,
    pub command: String,
}

/// An event raised by this side.
#[derive(Debug)]
pub struct Event {
    pub event: String,
}

/// A request initiated by this side.
#[derive(Debug)]
pub struct ReverseRequest {
    pub command: String,
}

/// What an outbound envelope can carry.
#[derive(Debug)]
pub enum Sendable {
    Response(Response),
    Event(Event),
    ReverseRequest(ReverseRequest),
}

/// Why a frame body could not be turned into a request.
#[derive(Debug)]
pub enum DeserializationError {
    /// The body is not valid UTF-8.
    DecodingError,
    /// The body is not JSON of a known shape.
    SerdeError,
}

/// Every failure the transport surfaces.
#[derive(Debug)]
pub enum ServerError {
    /// The stream failed, ended inside a body, or resumed after it had
    /// already reported its end.
    IoError,
    /// A header line without a colon, or a `Content-Length` value that does
    /// not parse; carries the raw line.
    HeaderParseError { line: Vec<u8> },
    /// A header key other than `Content-Length`; carries the key.
    UnknownHeader { header: Vec<u8> },
    /// The body could not be decoded; see `DeserializationError`.
    ParseError(DeserializationError),
    /// An outbound payload could not be serialized. The envelope encoder
    /// used here cannot fail, so this is never produced; it stays for
    /// callers that match on every kind.
    SerializationError,
    /// Exclusive access to the output could not be obtained. The verified
    /// lock used here cannot break, so this is never produced; it stays for
    /// callers that match on every kind.
    OutputLockError,
    /// The sequence counter has no next value left.
    SequenceExhausted,
}

} // verus!
