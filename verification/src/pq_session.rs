//! The `pqXX` sessions of the `clatter` crate.
//!
//! The pattern has four messages, the initiator's first:
//!
//! ```text
//! ->  e
//! <-  ekem, s
//! ->  skem, s
//! <-  skem
//! ```
//!
//! A session is opaque to the verifier. [`pq_handshake`] and [`pq_transport`]
//! name the part of its state that callers depend on, and the methods used in
//! this crate are described over these names.

use vstd::prelude::*;
use bytes::BytesMut;
use clatter::bytearray::ByteArray;
use clatter::crypto::cipher::ChaChaPoly;
use clatter::crypto::hash::Sha256;
use clatter::crypto::kem::rust_crypto_ml_kem::MlKem768;
use clatter::handshakepattern::noise_pqxx;
use clatter::traits::Handshaker;
use clatter::traits::Kem;
use crate::buf::buffer;
use crate::error::IoError;
use crate::error::IoErrorKind;
use crate::session::NoiseSession;

verus! {

/// A handshake in progress: a `clatter::PqHandshake` over ML-KEM-768,
/// ChaCha20-Poly1305 and SHA-256.
#[verifier::external_body]
pub struct PqHandshakeSession {
    inner: clatter::PqHandshake<MlKem768, MlKem768, ChaChaPoly, Sha256>,
}

/// A session after the handshake: a `clatter` `TransportState` over
/// ChaCha20-Poly1305 and SHA-256.
#[verifier::external_body]
pub struct PqTransportSession {
    inner: clatter::transportstate::TransportState<ChaChaPoly, Sha256>,
}

// ---------------------------------------------------------------------------
// Keys
// ---------------------------------------------------------------------------

/// Length of an encoded ML-KEM-768 public (encapsulation) key.
pub const PQ_PUBLIC_KEY_LENGTH: usize = 1184;

/// Length of an encoded ML-KEM-768 secret (decapsulation) key.
pub const PQ_SECRET_KEY_LENGTH: usize = 2400;

/// Whether `MlKem768::genkey` can make the pair of a public and a secret key.
pub uninterp spec fn genkey_makes(public: Seq<u8>, secret: Seq<u8>) -> bool;

/// `MlKem768::genkey`: a fresh key pair, public key first. It never fails (the
/// error in its signature is not made for this algorithm); which pair comes
/// out is left to chance.
#[verifier::external_body]
pub(crate) fn genkey() -> (r: Result<([u8; 1184], [u8; 2400]), String>)
    ensures
        match r {
            Ok((public, secret)) => genkey_makes(public@, secret@),
            Err(_) => false,
        },
{
    match MlKem768::genkey() {
        Ok(pair) => Ok((
            ByteArray::from_slice(pair.public.as_slice()),
            ByteArray::from_slice(pair.secret.as_slice()),
        )),
        Err(e) => Err(format!("{e:?}")),
    }
}

// ---------------------------------------------------------------------------
// Handshake
// ---------------------------------------------------------------------------

/// The longest Noise message.
pub const MAX_MESSAGE_LENGTH: usize = 65535;

/// How many messages the pattern has.
pub const PQ_MESSAGES: usize = 4;

/// What callers depend on of a handshake in progress.
pub struct PqHandshakeView {
    /// Data that both sides must agree on.
    pub prologue: Seq<u8>,
    /// The own static key pair, public key first.
    pub keys: (Seq<u8>, Seq<u8>),
    /// Whether this side sends the first message.
    pub initiator: bool,
    /// How many messages have been exchanged.
    pub done: nat,
    /// Whether a message could not be processed: nothing more is possible.
    pub failed: bool,
    /// The remote's static public key, once it has been received.
    pub remote_static: Option<Seq<u8>>,
}

impl PqHandshakeView {
    /// All messages have been exchanged.
    pub open spec fn finished(&self) -> bool {
        !self.failed && self.done == PQ_MESSAGES
    }

    /// The next message is this side's to send.
    pub open spec fn write_turn(&self) -> bool {
        !self.failed && self.done < PQ_MESSAGES && (self.done % 2 == 0) == self.initiator
    }

    /// The next message is the remote's to send.
    pub open spec fn read_turn(&self) -> bool {
        !self.failed && self.done < PQ_MESSAGES && (self.done % 2 == 0) != self.initiator
    }
}

/// How much longer than its payload a message is. A public key takes 1184
/// bytes, a ciphertext 1088, an authentication tag 16; from the first
/// ciphertext on, what follows it is encrypted.
pub open spec fn pq_overhead(message: nat) -> nat {
    if message == 0 {
        1184
    } else if message == 1 {
        1088 + (1184 + 16) + 16
    } else if message == 2 {
        (1088 + 16) + (1184 + 16) + 16
    } else {
        (1088 + 16) + 16
    }
}

/// The state of a handshake.
pub uninterp spec fn pq_handshake(session: PqHandshakeSession) -> PqHandshakeView;

/// What a message of the remote holds.
pub struct PqMessage {
    pub payload: Seq<u8>,
    /// The remote's static key as it is known after the message.
    pub remote_static: Option<Seq<u8>>,
}

/// What `Handshaker::read_message` makes of the remote's next message: `None`
/// where it does not decrypt.
pub uninterp spec fn pq_message(session: PqHandshakeSession, message: Seq<u8>) -> Option<PqMessage>;

/// Whether `Handshaker::write_message` can make the message of a payload.
pub uninterp spec fn pq_written(
    session: PqHandshakeSession,
    payload: Seq<u8>,
    message: Seq<u8>,
) -> bool;

/// The keys that `Handshaker::finalize` derives, for the direction from the
/// initiator to the responder and for the opposite one.
pub uninterp spec fn pq_transport_keys(session: PqHandshakeSession) -> (Seq<u8>, Seq<u8>);

/// `PqHandshake::new` for the `pqXX` pattern, with the own static key pair and
/// nothing known of the remote. It does not fail for this pattern, which has no
/// pre-message.
#[verifier::external_body]
pub(crate) fn handshake_new(
    prologue: &[u8],
    initiator: bool,
    public: &[u8; 1184],
    secret: &[u8; 2400],
) -> (r: Result<PqHandshakeSession, String>)
    ensures
        match r {
            Ok(session) => pq_handshake(session) == (PqHandshakeView {
                prologue: prologue@,
                keys: (public@, secret@),
                initiator,
                done: 0,
                failed: false,
                remote_static: None,
            }),
            Err(_) => false,
        },
{
    let keys = clatter::KeyPair::new(ByteArray::from_slice(public), ByteArray::from_slice(secret));
    clatter::PqHandshake::new(noise_pqxx(), prologue, initiator, Some(keys), None, None, None)
        .map(|inner| PqHandshakeSession { inner })
        .map_err(|e| format!("{e:?}"))
}

/// `Handshaker::write_message`.
///
/// It panics where the message would be longer than a Noise message can be.
/// Which message comes out rests on chance (fresh key material goes into it);
/// its length does not, nor that the first message, which no key protects yet,
/// ends in the payload as it is.
#[verifier::external_body]
fn handshake_write(session: &mut PqHandshakeSession, payload: &[u8], out: &mut BytesMut) -> (r:
    Result<usize, String>)
    requires
        pq_handshake(*old(session)).write_turn() ==> payload@.len() + pq_overhead(
            pq_handshake(*old(session)).done,
        ) <= MAX_MESSAGE_LENGTH,
    ensures
        buffer(*final(out)).len() == buffer(*old(out)).len(),
        ({
            let before = pq_handshake(*old(session));
            let len = payload@.len() + pq_overhead(before.done);
            match r {
                Ok(n) => {
                    &&& before.write_turn()
                    &&& n == len
                    &&& len <= buffer(*old(out)).len()
                    &&& pq_written(
                        *old(session),
                        payload@,
                        buffer(*final(out)).take(n as int),
                    )
                    &&& before.done == 0 ==> buffer(*final(out)).take(n as int).skip(
                        pq_overhead(0) as int,
                    ) == payload@
                    &&& pq_handshake(*final(session)) == (PqHandshakeView {
                        done: before.done + 1,
                        ..before
                    })
                },
                Err(e) => {
                    &&& pq_handshake(*final(session)) == before
                    &&& if before.failed {
                        e@ == "ErrorState"@
                    } else if !before.write_turn() {
                        e@ == "InvalidState"@
                    } else {
                        len > buffer(*old(out)).len() && e@ == "BufferTooSmall"@
                    }
                },
            }
        }),
{
    session.inner.write_message(payload, &mut out[..]).map_err(|e| format!("{e:?}"))
}

/// `Handshaker::read_message`.
///
/// It panics on what is longer than a Noise message can be, and once the
/// handshake is finished. The remote's static key comes with the second message
/// (to the initiator) and with the third (to the responder). The first message,
/// which no key protects yet, ends in the payload as it is.
#[verifier::external_body]
fn handshake_read(session: &mut PqHandshakeSession, message: &[u8], out: &mut BytesMut) -> (r:
    Result<usize, String>)
    requires
        !pq_handshake(*old(session)).finished(),
        message@.len() <= MAX_MESSAGE_LENGTH,
    ensures
        buffer(*final(out)).len() == buffer(*old(out)).len(),
        ({
            let before = pq_handshake(*old(session));
            let after = pq_handshake(*final(session));
            let len = message@.len() - pq_overhead(before.done);
            let got = pq_message(*old(session), message@);
            match r {
                Ok(n) => {
                    &&& before.read_turn()
                    &&& n == len
                    &&& len <= buffer(*old(out)).len()
                    &&& got == Some(
                        PqMessage {
                            payload: buffer(*final(out)).take(n as int),
                            remote_static: after.remote_static,
                        },
                    )
                    &&& before.done == 0 ==> buffer(*final(out)).take(n as int) == message@.skip(
                        pq_overhead(0) as int,
                    )
                    &&& if before.done == 1 || before.done == 2 {
                        after.remote_static matches Some(key) && key.len() == PQ_PUBLIC_KEY_LENGTH
                    } else {
                        after.remote_static == before.remote_static
                    }
                    &&& after == (PqHandshakeView {
                        done: before.done + 1,
                        remote_static: after.remote_static,
                        ..before
                    })
                },
                Err(e) => if before.failed {
                    after == before && e@ == "ErrorState"@
                } else if !before.read_turn() {
                    after == before && e@ == "InvalidState"@
                } else if len < 0 {
                    after == before && e@ == "InvalidMessage"@
                } else if len > buffer(*old(out)).len() {
                    after == before && e@ == "BufferTooSmall"@
                } else {
                    &&& got is None
                    &&& before.done > 0
                    &&& e@ == "Cipher(Decrypt)"@
                    &&& after == (PqHandshakeView {
                        failed: true,
                        remote_static: after.remote_static,
                        ..before
                    })
                },
            }
        }),
{
    session.inner.read_message(message, &mut out[..]).map_err(|e| format!("{e:?}"))
}

/// `Handshaker::get_next_message_overhead`: how much longer than its payload
/// the next message is, unless there is none.
#[verifier::external_body]
pub(crate) fn handshake_overhead(session: &PqHandshakeSession) -> (r: Option<usize>)
    ensures
        match r {
            Some(n) => {
                &&& !pq_handshake(*session).failed
                &&& pq_handshake(*session).done < PQ_MESSAGES
                &&& n == pq_overhead(pq_handshake(*session).done)
            },
            None => pq_handshake(*session).failed || pq_handshake(*session).finished(),
        },
{
    session.inner.get_next_message_overhead().ok()
}

/// `Handshaker::is_write_turn`.
#[verifier::external_body]
pub(crate) fn handshake_write_turn(session: &PqHandshakeSession) -> (r: bool)
    ensures
        r == pq_handshake(*session).write_turn(),
{
    session.inner.is_write_turn()
}

/// `Handshaker::is_finished`.
#[verifier::external_body]
pub(crate) fn handshake_finished(session: &PqHandshakeSession) -> (r: bool)
    ensures
        r == pq_handshake(*session).finished(),
{
    session.inner.is_finished()
}

/// `Handshaker::get_remote_static`: the remote's static public key, if it is
/// known. An ML-KEM-768 public key is an array of 1184 bytes.
#[verifier::external_body]
pub(crate) fn handshake_remote_static(session: &PqHandshakeSession) -> (r: Option<Vec<u8>>)
    ensures
        match r {
            Some(key) => {
                &&& pq_handshake(*session).remote_static == Some(key@)
                &&& key@.len() == PQ_PUBLIC_KEY_LENGTH
            },
            None => pq_handshake(*session).remote_static is None,
        },
{
    session.inner.get_remote_static().map(|key| key.as_slice().to_vec())
}

/// `Handshaker::finalize`: the session for the time after the handshake. It
/// fails where the handshake is not finished.
#[verifier::external_body]
pub(crate) fn handshake_finalize(session: PqHandshakeSession) -> (r: Result<
    PqTransportSession,
    String,
>)
    ensures
        match r {
            Ok(transport) => {
                &&& pq_handshake(session).finished()
                &&& pq_transport(transport) == fresh_transport(
                    pq_transport_keys(session),
                    pq_handshake(session).initiator,
                )
            },
            Err(e) => !pq_handshake(session).finished() && e@ == "InvalidState"@,
        },
{
    session.inner.finalize().map(|inner| PqTransportSession { inner }).map_err(|e| format!("{e:?}"))
}

// ---------------------------------------------------------------------------
// Transport
// ---------------------------------------------------------------------------

/// Length of an authentication tag.
pub const TAG_LENGTH: usize = 16;

/// How many messages a session can carry in each direction.
pub const MAX_MESSAGES: u128 = 0x1_0000_0000_0000_0000;

/// What callers depend on of a session after the handshake.
pub struct TransportView {
    /// The key for messages to the remote.
    pub seal_key: Seq<u8>,
    /// How many messages have been sent.
    pub sealed: nat,
    /// The key for messages from the remote.
    pub open_key: Seq<u8>,
    /// How many messages have been received.
    pub opened: nat,
}

/// The state of a session that has just come out of a handshake. The first key
/// is for messages of the initiator, the second for those of the responder.
pub open spec fn fresh_transport(keys: (Seq<u8>, Seq<u8>), initiator: bool) -> TransportView {
    if initiator {
        TransportView { seal_key: keys.0, sealed: 0, open_key: keys.1, opened: 0 }
    } else {
        TransportView { seal_key: keys.1, sealed: 0, open_key: keys.0, opened: 0 }
    }
}

/// The state of a session.
pub uninterp spec fn pq_transport(session: PqTransportSession) -> TransportView;

/// The message that `TransportState::send` makes of a cleartext.
pub uninterp spec fn pq_seal(key: Seq<u8>, number: nat, clear: Seq<u8>) -> Seq<u8>;

/// The cleartext that `TransportState::receive` makes of a message: `None`
/// where it does not decrypt.
pub uninterp spec fn pq_open(key: Seq<u8>, number: nat, message: Seq<u8>) -> Option<Seq<u8>>;

/// `TransportState::send`.
///
/// It panics where the message would be longer than a Noise message can be. A
/// message opens under the same key and number, and to what was sealed.
#[verifier::external_body]
fn transport_send(session: &mut PqTransportSession, clear: &[u8], out: &mut BytesMut) -> (r: Result<
    usize,
    String,
>)
    requires
        clear@.len() + TAG_LENGTH <= MAX_MESSAGE_LENGTH,
    ensures
        buffer(*final(out)).len() == buffer(*old(out)).len(),
        ({
            let before = pq_transport(*old(session));
            let len = clear@.len() + TAG_LENGTH;
            match r {
                Ok(n) => {
                    &&& before.sealed < MAX_MESSAGES
                    &&& n == len
                    &&& len <= buffer(*old(out)).len()
                    &&& buffer(*final(out)).take(n as int) == pq_seal(
                        before.seal_key,
                        before.sealed,
                        clear@,
                    )
                    &&& pq_open(
                        before.seal_key,
                        before.sealed,
                        buffer(*final(out)).take(n as int),
                    ) == Some(clear@)
                    &&& pq_transport(*final(session)) == (TransportView {
                        sealed: before.sealed + 1,
                        ..before
                    })
                },
                Err(e) => {
                    &&& pq_transport(*final(session)) == before
                    &&& if len > buffer(*old(out)).len() {
                        e@ == "BufferTooSmall"@
                    } else {
                        before.sealed >= MAX_MESSAGES && e@ == "Cipher(NonceOverflow)"@
                    }
                },
            }
        }),
{
    session.inner.send(clear, &mut out[..]).map_err(|e| format!("{e:?}"))
}

/// `TransportState::receive`.
///
/// It panics on what is longer than a Noise message can be. A message that does
/// not decrypt is not counted.
#[verifier::external_body]
fn transport_receive(session: &mut PqTransportSession, message: &[u8], out: &mut BytesMut) -> (r:
    Result<usize, String>)
    requires
        message@.len() <= MAX_MESSAGE_LENGTH,
    ensures
        buffer(*final(out)).len() == buffer(*old(out)).len(),
        ({
            let before = pq_transport(*old(session));
            let len = message@.len() - TAG_LENGTH;
            let got = pq_open(before.open_key, before.opened, message@);
            match r {
                Ok(n) => {
                    &&& before.opened < MAX_MESSAGES
                    &&& n == len
                    &&& len <= buffer(*old(out)).len()
                    &&& got == Some(buffer(*final(out)).take(n as int))
                    &&& pq_transport(*final(session)) == (TransportView {
                        opened: before.opened + 1,
                        ..before
                    })
                },
                Err(e) => {
                    &&& pq_transport(*final(session)) == before
                    &&& if len < 0 {
                        e@ == "TooShort"@
                    } else if len > buffer(*old(out)).len() {
                        e@ == "BufferTooSmall"@
                    } else if before.opened >= MAX_MESSAGES {
                        e@ == "Cipher(NonceOverflow)"@
                    } else {
                        got is None && e@ == "Cipher(Decrypt)"@
                    }
                },
            }
        }),
{
    session.inner.receive(message, &mut out[..]).map_err(|e| format!("{e:?}"))
}

// ---------------------------------------------------------------------------
// As sessions that can be framed
// ---------------------------------------------------------------------------

impl NoiseSession for PqHandshakeSession {
    open spec fn can_write(&self, len: nat, room: nat) -> bool {
        pq_handshake(*self).write_turn() ==> len + pq_overhead(pq_handshake(*self).done)
            <= MAX_MESSAGE_LENGTH
    }

    open spec fn writes(
        before: Self,
        after: Self,
        clear: Seq<u8>,
        room: nat,
        out: Result<Seq<u8>, IoError>,
    ) -> bool {
        let old_view = pq_handshake(before);
        let len = clear.len() + pq_overhead(old_view.done);
        match out {
            Ok(message) => {
                &&& old_view.write_turn()
                &&& message.len() == len <= room
                &&& pq_written(before, clear, message)
                &&& old_view.done == 0 ==> message.skip(pq_overhead(0) as int) == clear
                &&& pq_handshake(after) == (PqHandshakeView { done: old_view.done + 1, ..old_view })
            },
            Err(e) => {
                &&& pq_handshake(after) == old_view
                &&& if old_view.failed {
                    e.says(IoErrorKind::InvalidData, "ErrorState"@)
                } else if !old_view.write_turn() {
                    e.says(IoErrorKind::InvalidData, "InvalidState"@)
                } else {
                    len > room && e.says(IoErrorKind::InvalidData, "BufferTooSmall"@)
                }
            },
        }
    }

    open spec fn can_read(&self, len: nat, room: nat) -> bool {
        !pq_handshake(*self).finished() && len <= MAX_MESSAGE_LENGTH
    }

    open spec fn reads(
        before: Self,
        after: Self,
        message: Seq<u8>,
        room: nat,
        out: Result<Seq<u8>, IoError>,
    ) -> bool {
        let old_view = pq_handshake(before);
        let new_view = pq_handshake(after);
        let len = message.len() - pq_overhead(old_view.done);
        match out {
            Ok(clear) => {
                &&& old_view.read_turn()
                &&& clear.len() == len <= room
                &&& pq_message(before, message) == Some(
                    PqMessage { payload: clear, remote_static: new_view.remote_static },
                )
                &&& old_view.done == 0 ==> clear == message.skip(pq_overhead(0) as int)
                &&& if old_view.done == 1 || old_view.done == 2 {
                    new_view.remote_static matches Some(key) && key.len() == PQ_PUBLIC_KEY_LENGTH
                } else {
                    new_view.remote_static == old_view.remote_static
                }
                &&& new_view == (PqHandshakeView {
                    done: old_view.done + 1,
                    remote_static: new_view.remote_static,
                    ..old_view
                })
            },
            Err(e) => if old_view.failed {
                new_view == old_view && e.says(IoErrorKind::InvalidData, "ErrorState"@)
            } else if !old_view.read_turn() {
                new_view == old_view && e.says(IoErrorKind::InvalidData, "InvalidState"@)
            } else if len < 0 {
                new_view == old_view && e.says(IoErrorKind::InvalidData, "InvalidMessage"@)
            } else if len > room {
                new_view == old_view && e.says(IoErrorKind::InvalidData, "BufferTooSmall"@)
            } else {
                &&& pq_message(before, message) is None
                &&& old_view.done > 0
                &&& e.says(IoErrorKind::InvalidData, "Cipher(Decrypt)"@)
                &&& new_view == (PqHandshakeView {
                    failed: true,
                    remote_static: new_view.remote_static,
                    ..old_view
                })
            },
        }
    }

    fn write(&mut self, clear: &[u8], out: &mut BytesMut) -> (r: Result<usize, IoError>) {
        match handshake_write(self, clear, out) {
            Ok(n) => Ok(n),
            Err(e) => Err(IoError::new(IoErrorKind::InvalidData, e)),
        }
    }

    fn read(&mut self, message: &[u8], out: &mut BytesMut) -> (r: Result<usize, IoError>) {
        match handshake_read(self, message, out) {
            Ok(n) => Ok(n),
            Err(e) => Err(IoError::new(IoErrorKind::InvalidData, e)),
        }
    }
}

impl NoiseSession for PqTransportSession {
    open spec fn can_write(&self, len: nat, room: nat) -> bool {
        len + TAG_LENGTH <= MAX_MESSAGE_LENGTH
    }

    open spec fn writes(
        before: Self,
        after: Self,
        clear: Seq<u8>,
        room: nat,
        out: Result<Seq<u8>, IoError>,
    ) -> bool {
        let old_view = pq_transport(before);
        let len = clear.len() + TAG_LENGTH;
        match out {
            Ok(message) => {
                &&& old_view.sealed < MAX_MESSAGES
                &&& message.len() == len <= room
                &&& message == pq_seal(old_view.seal_key, old_view.sealed, clear)
                &&& pq_open(old_view.seal_key, old_view.sealed, message) == Some(clear)
                &&& pq_transport(after) == (TransportView {
                    sealed: old_view.sealed + 1,
                    ..old_view
                })
            },
            Err(e) => {
                &&& pq_transport(after) == old_view
                &&& if len > room {
                    e.says(IoErrorKind::InvalidData, "BufferTooSmall"@)
                } else {
                    &&& old_view.sealed >= MAX_MESSAGES
                    &&& e.says(IoErrorKind::InvalidData, "Cipher(NonceOverflow)"@)
                }
            },
        }
    }

    open spec fn can_read(&self, len: nat, room: nat) -> bool {
        len <= MAX_MESSAGE_LENGTH
    }

    open spec fn reads(
        before: Self,
        after: Self,
        message: Seq<u8>,
        room: nat,
        out: Result<Seq<u8>, IoError>,
    ) -> bool {
        let old_view = pq_transport(before);
        let len = message.len() - TAG_LENGTH;
        match out {
            Ok(clear) => {
                &&& old_view.opened < MAX_MESSAGES
                &&& clear.len() == len <= room
                &&& pq_open(old_view.open_key, old_view.opened, message) == Some(clear)
                &&& pq_transport(after) == (TransportView {
                    opened: old_view.opened + 1,
                    ..old_view
                })
            },
            Err(e) => {
                &&& pq_transport(after) == old_view
                &&& if len < 0 {
                    e.says(IoErrorKind::InvalidData, "TooShort"@)
                } else if len > room {
                    e.says(IoErrorKind::InvalidData, "BufferTooSmall"@)
                } else if old_view.opened >= MAX_MESSAGES {
                    e.says(IoErrorKind::InvalidData, "Cipher(NonceOverflow)"@)
                } else {
                    &&& pq_open(old_view.open_key, old_view.opened, message) is None
                    &&& e.says(IoErrorKind::InvalidData, "Cipher(Decrypt)"@)
                }
            },
        }
    }

    fn write(&mut self, clear: &[u8], out: &mut BytesMut) -> (r: Result<usize, IoError>) {
        match transport_send(self, clear, out) {
            Ok(n) => Ok(n),
            Err(e) => Err(IoError::new(IoErrorKind::InvalidData, e)),
        }
    }

    fn read(&mut self, message: &[u8], out: &mut BytesMut) -> (r: Result<usize, IoError>) {
        match transport_receive(self, message, out) {
            Ok(n) => Ok(n),
            Err(e) => Err(IoError::new(IoErrorKind::InvalidData, e)),
        }
    }
}

/// Whose turn it is: of two sides that have come equally far, just one may send,
/// the initiator first and then by turns, until four messages have been
/// exchanged; a side that has failed may do nothing.
pub proof fn lemma_turns(view: PqHandshakeView)
    ensures
        view.write_turn() <==> !view.failed && (view.done == 0 && view.initiator || view.done == 1
            && !view.initiator || view.done == 2 && view.initiator || view.done == 3
            && !view.initiator),
        view.read_turn() <==> !view.failed && view.done < 4 && !view.write_turn(),
        view.finished() <==> !view.failed && view.done == 4,
{
}

/// How much longer than its payload each of the four messages is.
pub proof fn lemma_overheads()
    ensures
        pq_overhead(0) == 1184,
        pq_overhead(1) == 2304,
        pq_overhead(2) == 2320,
        pq_overhead(3) == 1120,
{
}

/// The session that a side has after a handshake seals under the key for its own
/// direction and opens under the key for the other one, from the beginning.
pub proof fn lemma_fresh_transport(to_responder: Seq<u8>, to_initiator: Seq<u8>)
    ensures
        ({
            let i = fresh_transport((to_responder, to_initiator), true);
            let r = fresh_transport((to_responder, to_initiator), false);
            &&& i.seal_key == to_responder && i.open_key == to_initiator
            &&& r.seal_key == to_initiator && r.open_key == to_responder
            &&& i.sealed == 0 && i.opened == 0 && r.sealed == 0 && r.opened == 0
        }),
{
}

/// One side writes a message, and the other side reads it as it was written.
/// Each session is given as it is before and after.
pub open spec fn read_as_written(
    writer: (PqHandshakeSession, PqHandshakeSession),
    reader: (PqHandshakeSession, PqHandshakeSession),
    clear: Seq<u8>,
    room: nat,
    message: Seq<u8>,
) -> bool {
    &&& PqHandshakeSession::writes(writer.0, writer.1, clear, room, Ok(message))
    &&& PqHandshakeSession::reads(reader.0, reader.1, message, message.len(), Ok(clear))
}

/// The four messages of a handshake are read as they were written: the first
/// and the third by the responder, the second and the fourth by the initiator.
pub open spec fn pq_exchanges(
    initiator: Seq<PqHandshakeSession>,
    responder: Seq<PqHandshakeSession>,
    clear: Seq<Seq<u8>>,
    room: Seq<nat>,
    message: Seq<Seq<u8>>,
) -> bool {
    &&& read_as_written(
        (initiator[0], initiator[1]),
        (responder[0], responder[1]),
        clear[0],
        room[0],
        message[0],
    )
    &&& read_as_written(
        (responder[1], responder[2]),
        (initiator[1], initiator[2]),
        clear[1],
        room[1],
        message[1],
    )
    &&& read_as_written(
        (initiator[2], initiator[3]),
        (responder[2], responder[3]),
        clear[2],
        room[2],
        message[2],
    )
    &&& read_as_written(
        (responder[3], responder[4]),
        (initiator[3], initiator[4]),
        clear[3],
        room[3],
        message[3],
    )
}

/// The first message gets across: what an initiator writes as its first
/// message, a responder that is still at the beginning reads as it was written.
pub proof fn lemma_first_message_arrives(
    initiator: (PqHandshakeSession, PqHandshakeSession),
    responder: (PqHandshakeSession, PqHandshakeSession),
    clear: Seq<u8>,
    room: nat,
    message: Seq<u8>,
    out: Result<Seq<u8>, IoError>,
)
    requires
        pq_handshake(initiator.0).done == 0,
        PqHandshakeSession::writes(initiator.0, initiator.1, clear, room, Ok(message)),
        pq_handshake(responder.0).done == 0,
        pq_handshake(responder.0).read_turn(),
        PqHandshakeSession::reads(responder.0, responder.1, message, message.len(), out),
    ensures
        out == Ok::<Seq<u8>, IoError>(clear),
        pq_handshake(initiator.1).done == pq_handshake(responder.1).done,
        pq_handshake(initiator.1).read_turn(),
        pq_handshake(responder.1).write_turn(),
{
}

} // verus!
