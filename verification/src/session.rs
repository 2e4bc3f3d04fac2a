//! What the framing needs of a Noise session.

use vstd::prelude::*;
use bytes::BytesMut;
use crate::buf::buffer;
use crate::error::IoError;

verus! {

/// A Noise session, in the handshake or after it: it turns cleartext into
/// messages for the remote and back.
pub trait NoiseSession: Sized {
    /// The session is in a state to write a cleartext of `len` bytes, with
    /// `room` bytes for the message.
    spec fn can_write(&self, len: nat, room: nat) -> bool;

    /// How writing `clear`, with `room` bytes for the message, takes the
    /// session from `before` to `after`, and what comes out: the message, or an
    /// error.
    spec fn writes(
        before: Self,
        after: Self,
        clear: Seq<u8>,
        room: nat,
        out: Result<Seq<u8>, IoError>,
    ) -> bool;

    /// The session is in a state to read a message of `len` bytes, with `room`
    /// bytes for the cleartext.
    spec fn can_read(&self, len: nat, room: nat) -> bool;

    /// How reading `message`, with `room` bytes for the cleartext, takes the
    /// session from `before` to `after`, and what comes out: the cleartext, or
    /// an error.
    spec fn reads(
        before: Self,
        after: Self,
        message: Seq<u8>,
        room: nat,
        out: Result<Seq<u8>, IoError>,
    ) -> bool;

    /// Writes `clear` as a message to the start of `out` and returns how many
    /// bytes the message takes.
    fn write(&mut self, clear: &[u8], out: &mut BytesMut) -> (r: Result<usize, IoError>)
        requires
            old(self).can_write(clear@.len(), buffer(*old(out)).len()),
        ensures
            buffer(*final(out)).len() == buffer(*old(out)).len(),
            r matches Ok(n) ==> n <= buffer(*old(out)).len(),
            Self::writes(
                *old(self),
                *final(self),
                clear@,
                buffer(*old(out)).len(),
                outcome(r, buffer(*final(out))),
            ),
    ;

    /// Reads `message`, puts the cleartext at the start of `out` and returns
    /// how many bytes it takes.
    fn read(&mut self, message: &[u8], out: &mut BytesMut) -> (r: Result<usize, IoError>)
        requires
            old(self).can_read(message@.len(), buffer(*old(out)).len()),
        ensures
            buffer(*final(out)).len() == buffer(*old(out)).len(),
            r matches Ok(n) ==> n <= buffer(*old(out)).len(),
            Self::reads(
                *old(self),
                *final(self),
                message@,
                buffer(*old(out)).len(),
                outcome(r, buffer(*final(out))),
            ),
    ;
}

/// The first `n` bytes of a buffer, where a call returned `Ok(n)`; the error
/// otherwise.
pub open spec fn outcome(r: Result<usize, IoError>, bytes: Seq<u8>) -> Result<Seq<u8>, IoError> {
    match r {
        Ok(n) => Ok(bytes.take(n as int)),
        Err(e) => Err(e),
    }
}

} // verus!
