//! Errors.

use vstd::prelude::*;
use libp2p_identity::DecodingError as Libp2pDecodingError;
use libp2p_identity::SigningError as Libp2pSigningError;
use snow::Error as SnowError;
use crate::certhash::Certhash;

verus! {

/// What kind of input/output error occurred.
#[derive(Debug, Clone, Copy, PartialEq, Eq, Structural)]
pub enum IoErrorKind {
    NotFound,
    PermissionDenied,
    ConnectionRefused,
    ConnectionReset,
    ConnectionAborted,
    NotConnected,
    AddrInUse,
    AddrNotAvailable,
    BrokenPipe,
    AlreadyExists,
    WouldBlock,
    InvalidInput,
    InvalidData,
    TimedOut,
    WriteZero,
    Interrupted,
    Unsupported,
    UnexpectedEof,
    OutOfMemory,
    Other,
}

/// An input/output error.
#[derive(Debug)]
pub struct IoError {
    pub kind: IoErrorKind,
    pub message: String,
}

impl IoError {
    /// The error is of this kind, with this text.
    pub open spec fn says(&self, kind: IoErrorKind, message: Seq<char>) -> bool {
        self.kind == kind && self.message@ == message
    }

    /// An error of the given kind, with the given text.
    pub fn new(kind: IoErrorKind, message: String) -> (r: IoError)
        ensures
            r.says(kind, message@),
            r.kind == kind,
            r.message == message,
    {
        IoError { kind, message }
    }
}

#[verifier::external_type_specification]
#[verifier::external_body]
pub struct ExSnowError(SnowError);

#[verifier::external_type_specification]
#[verifier::external_body]
pub struct ExIdentityDecodingError(Libp2pDecodingError);

#[verifier::external_type_specification]
#[verifier::external_body]
pub struct ExSigningError(Libp2pSigningError);

/// Why the bytes of a key were refused.
#[derive(Debug)]
pub enum DecodingError {
    /// The bytes are no key of the kind `what`; `cause` says why.
    FailedToParse { what: String, cause: String },
    /// The `libp2p_identity` crate refused them.
    Identity(Libp2pDecodingError),
}

impl DecodingError {
    /// The error says that the bytes are no key of the kind `what`, and why.
    pub open spec fn says(&self, what: Seq<char>, cause: Seq<char>) -> bool {
        match *self {
            DecodingError::FailedToParse { what: w, cause: c } => w@ == what && c@ == cause,
            DecodingError::Identity(_) => false,
        }
    }

    /// The bytes are no key of the kind `what`, for the given cause.
    pub fn failed_to_parse(what: &str, cause: &str) -> (r: DecodingError)
        ensures
            r.says(what@, cause@),
            r matches DecodingError::FailedToParse { what: w, cause: c } && w@ == what@ && c@
                == cause@,
    {
        DecodingError::FailedToParse { what: what.to_owned(), cause: cause.to_owned() }
    }
}

/// What an error says is what it holds: an error says one kind and one text, and
/// says no other.
pub proof fn lemma_errors_say_what_they_hold(
    e: IoError,
    kind: IoErrorKind,
    text: Seq<char>,
    d: DecodingError,
    what: Seq<char>,
    cause: Seq<char>,
)
    ensures
        e.says(e.kind, e.message@),
        e.says(kind, text) ==> e.kind == kind && e.message@ == text,
        d.says(what, cause) <==> (d matches DecodingError::FailedToParse { what: w, cause: c } && w@
            == what && c@ == cause),
{
}

/// The bytes of a handshake payload are no protocol buffer message of the
/// expected form.
#[derive(Debug, Clone, Copy, PartialEq, Eq)]
pub struct DecodeError;

/// Why a handshake failed.
#[derive(Debug)]
#[non_exhaustive]
pub enum Error {
    Io(IoError),
    Noise(SnowError),
    /// Invalid public key.
    InvalidKey(DecodingError),
    /// Only keys of length 32 bytes are supported.
    InvalidLength,
    /// Remote authenticated with an unexpected public key.
    UnexpectedKey,
    /// The signature of the remote identity's public key does not verify.
    BadSignature,
    /// Authentication failed.
    AuthenticationFailed,
    /// Failed to decode protobuf.
    InvalidPayload(DecodeError),
    SigningError(Libp2pSigningError),
    /// Expected WebTransport certhashes (the first) are not a subset of
    /// received ones (the second).
    UnknownWebTransportCerthashes(Vec<Certhash>, Vec<Certhash>),
    /// Post-quantum handshake error.
    PqHandshake(String),
}

} // verus!
