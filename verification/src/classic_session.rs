//! The `XX` sessions of the `snow` crate.
//!
//! The pattern has three messages, the initiator's first:
//!
//! ```text
//! ->  e
//! <-  e, ee, s, es
//! ->  s, se
//! ```
//!
//! A session is opaque to the verifier. [`classic_handshake`] and
//! [`classic_transport`] name the part of its state that callers depend on.

use vstd::prelude::*;
use bytes::BytesMut;
use snow::params::NoiseParams;
use snow::Error as SnowError;
use snow::HandshakeState;
use snow::TransportState;
use crate::buf::buffer;
use crate::error::IoError;
use crate::error::IoErrorKind;
use crate::pq_session::fresh_transport;
use crate::pq_session::TransportView;
use crate::pq_session::MAX_MESSAGE_LENGTH;
use crate::pq_session::TAG_LENGTH;
use crate::session::NoiseSession;

verus! {

#[verifier::external_type_specification]
#[verifier::external_body]
pub struct ExNoiseParams(NoiseParams);

#[verifier::external_type_specification]
#[verifier::external_body]
pub struct ExHandshakeState(HandshakeState);

#[verifier::external_type_specification]
#[verifier::external_body]
pub struct ExTransportState(TransportState);

/// The parameters of the classic handshake.
pub const PARAMS_XX: &'static str = "Noise_XX_25519_ChaChaPoly_SHA256";

/// The text that parameters were made from.
pub uninterp spec fn params_text(params: NoiseParams) -> Seq<char>;

/// `NoiseParams::from_str`, which accepts [`PARAMS_XX`].
#[verifier::external_body]
pub(crate) fn parse_params(text: &str) -> (r: Result<NoiseParams, SnowError>)
    ensures
        match r {
            Ok(params) => params_text(params) == text@,
            Err(_) => text@ != PARAMS_XX@,
        },
{
    text.parse()
}

/// `Clone::clone` on `NoiseParams`: the same parameters.
#[verifier::external_body]
pub(crate) fn clone_params(params: &NoiseParams) -> (r: NoiseParams)
    ensures
        params_text(r) == params_text(*params),
{
    params.clone()
}

/// Whether `Builder::generate_keypair` can make the pair of a public and a
/// secret key.
pub uninterp spec fn keypair_makes(public: Seq<u8>, secret: Seq<u8>) -> bool;

/// `Builder::generate_keypair`, for the classic parameters: a fresh X25519 key
/// pair, public key first, of 32 bytes each. It does not fail with the resolver
/// that is built in; which pair comes out is left to chance.
#[verifier::external_body]
pub(crate) fn generate_keypair(params: NoiseParams) -> (r: ([u8; 32], [u8; 32]))
    requires
        params_text(params) == PARAMS_XX@,
    ensures
        keypair_makes(r.0@, r.1@),
{
    let pair = snow::Builder::new(params).generate_keypair().expect("a resolver is built in");
    (pair.public.try_into().expect("32 bytes"), pair.private.try_into().expect("32 bytes"))
}

// ---------------------------------------------------------------------------
// Handshake
// ---------------------------------------------------------------------------

/// How many messages the pattern has.
pub const CLASSIC_MESSAGES: usize = 3;

/// What callers depend on of a handshake in progress.
pub struct ClassicHandshakeView {
    /// The text that the parameters were made from.
    pub params: Seq<char>,
    /// Data that both sides must agree on.
    pub prologue: Seq<u8>,
    /// The own static secret key.
    pub secret: Seq<u8>,
    /// Whether this side sends the first message.
    pub initiator: bool,
    /// How many messages have been exchanged.
    pub done: nat,
    /// The remote's static public key, once it has been received.
    pub remote_static: Option<Seq<u8>>,
}

impl ClassicHandshakeView {
    /// All messages have been exchanged.
    pub open spec fn finished(&self) -> bool {
        self.done == CLASSIC_MESSAGES
    }

    /// It is this side's turn to send.
    pub open spec fn turn(&self) -> bool {
        (self.done % 2 == 0) == self.initiator
    }

    /// The next message is this side's to send.
    pub open spec fn write_turn(&self) -> bool {
        self.turn() && self.done < CLASSIC_MESSAGES
    }

    /// The next message is the remote's to send.
    pub open spec fn read_turn(&self) -> bool {
        !self.turn() && self.done < CLASSIC_MESSAGES
    }
}

/// How much longer than its payload a message is. A public key takes 32 bytes,
/// an authentication tag 16; from the first shared secret on, what follows it
/// is encrypted.
pub open spec fn classic_overhead(message: nat) -> nat {
    if message == 0 {
        32
    } else if message == 1 {
        32 + (32 + 16) + 16
    } else {
        (32 + 16) + 16
    }
}

/// Room beyond the payload with which a message is always written.
pub const CLASSIC_EXTRA_ENCRYPT_SPACE: usize = 1024;

/// The state of a handshake.
pub uninterp spec fn classic_handshake(session: HandshakeState) -> ClassicHandshakeView;

/// What a message of the remote holds.
pub struct ClassicMessage {
    pub payload: Seq<u8>,
    /// The remote's static key as it is known after the message.
    pub remote_static: Option<Seq<u8>>,
}

/// What `HandshakeState::read_message` makes of the remote's next message: the
/// text of its error where it does not decrypt.
pub uninterp spec fn classic_message(session: HandshakeState, message: Seq<u8>) -> Result<
    ClassicMessage,
    Seq<char>,
>;

/// Whether `HandshakeState::write_message` can make the message of a payload
/// and leave the session as `after`.
pub uninterp spec fn classic_written(
    session: HandshakeState,
    payload: Seq<u8>,
    message: Seq<u8>,
    after: HandshakeState,
) -> bool;

/// Whether two sessions are the two ends of one handshake and have come equally
/// far: the next message, if there is one, is the first one's to send, and each
/// has read all that the other has written, as it was written.
pub uninterp spec fn classic_in_step(writer: HandshakeState, reader: HandshakeState) -> bool;

/// Two sessions that have not begun can be the two ends of one handshake: they
/// agree on the parameters and the prologue.
pub open spec fn opposite_ends(
    initiator: ClassicHandshakeView,
    responder: ClassicHandshakeView,
) -> bool {
    &&& initiator.params == responder.params
    &&& initiator.prologue == responder.prologue
    &&& initiator.initiator && !responder.initiator
    &&& initiator.done == 0 && responder.done == 0
    &&& initiator.remote_static is None && responder.remote_static is None
}

/// A responder is in step with every initiator that could be its other end.
pub open spec fn awaits_initiators(responder: HandshakeState) -> bool {
    forall|initiator: HandshakeState|
        opposite_ends(#[trigger] classic_handshake(initiator), classic_handshake(responder))
            ==> classic_in_step(initiator, responder)
}

/// What reading makes of a message that a session in step has written: `got` is
/// the payload, and the two are in step again. From the second message on the
/// reader knows the writer's static public key, and after the last one both
/// have derived the same keys.
pub open spec fn hears(
    before: HandshakeState,
    after: HandshakeState,
    message: Seq<u8>,
    got: Option<Seq<u8>>,
) -> bool {
    forall|writer: HandshakeState, payload: Seq<u8>, written: HandshakeState|
        #[trigger] classic_written(writer, payload, message, written) && #[trigger] classic_in_step(
            writer,
            before,
        ) ==> {
            &&& got == Some(payload)
            &&& classic_in_step(after, written)
            &&& classic_handshake(before).done > 0 ==> knows_static(
                classic_handshake(after),
                classic_handshake(writer).secret,
            )
            &&& classic_handshake(after).finished() ==> classic_transport_keys(after)
                == classic_transport_keys(written)
        }
}

/// A side knows the public key that belongs to a static secret key.
pub open spec fn knows_static(view: ClassicHandshakeView, secret: Seq<u8>) -> bool {
    forall|public: Seq<u8>| #[trigger]
        keypair_makes(public, secret) ==> view.remote_static == Some(public)
}

/// The keys that the handshake has derived, for the direction from the
/// initiator to the responder and for the opposite one.
pub uninterp spec fn classic_transport_keys(session: HandshakeState) -> (Seq<u8>, Seq<u8>);

/// The state of a handshake that has just been set up.
pub open spec fn fresh_classic_handshake(
    params: NoiseParams,
    prologue: Seq<u8>,
    secret: Seq<u8>,
    initiator: bool,
) -> ClassicHandshakeView {
    ClassicHandshakeView {
        params: params_text(params),
        prologue,
        secret,
        initiator,
        done: 0,
        remote_static: None,
    }
}

/// `Builder::build_initiator`, with a prologue and the own static key. It does
/// not fail for the classic parameters, which ask for no more.
#[verifier::external_body]
fn build_initiator(params: NoiseParams, prologue: &[u8], secret: &[u8; 32]) -> (r: Result<
    HandshakeState,
    SnowError,
>)
    requires
        params_text(params) == PARAMS_XX@,
    ensures
        match r {
            Ok(session) => classic_handshake(session) == fresh_classic_handshake(
                params,
                prologue@,
                secret@,
                true,
            ),
            Err(_) => false,
        },
{
    snow::Builder::new(params).prologue(prologue).local_private_key(secret).build_initiator()
}

/// `Builder::build_responder`, with a prologue and the own static key. It does
/// not fail for the classic parameters, which ask for no more. All that a
/// handshake begins with is hashed from the parameters and the prologue, so it
/// begins in step with every initiator that has the same.
#[verifier::external_body]
fn build_responder(params: NoiseParams, prologue: &[u8], secret: &[u8; 32]) -> (r: Result<
    HandshakeState,
    SnowError,
>)
    requires
        params_text(params) == PARAMS_XX@,
    ensures
        match r {
            Ok(session) => {
                &&& classic_handshake(session) == fresh_classic_handshake(
                    params,
                    prologue@,
                    secret@,
                    false,
                )
                &&& forall|initiator: HandshakeState|
                    opposite_ends(
                        #[trigger] classic_handshake(initiator),
                        classic_handshake(session),
                    ) ==> classic_in_step(initiator, session)
            },
            Err(_) => false,
        },
{
    snow::Builder::new(params).prologue(prologue).local_private_key(secret).build_responder()
}

/// `HandshakeState::write_message`, with room to spare; errors as their text.
///
/// Which message comes out rests on chance (fresh key material goes into it);
/// its length does not, nor that the first message, which no key protects yet,
/// ends in the payload as it is.
#[verifier::external_body]
fn classic_handshake_write(session: &mut HandshakeState, payload: &[u8], out: &mut BytesMut) -> (r:
    Result<usize, String>)
    requires
        classic_handshake(*old(session)).params == PARAMS_XX@,
        buffer(*old(out)).len() >= payload@.len() + CLASSIC_EXTRA_ENCRYPT_SPACE,
    ensures
        buffer(*final(out)).len() == buffer(*old(out)).len(),
        ({
            let before = classic_handshake(*old(session));
            let len = payload@.len() + classic_overhead(before.done);
            match r {
                Ok(n) => {
                    &&& before.write_turn()
                    &&& n == len <= MAX_MESSAGE_LENGTH
                    &&& classic_written(
                        *old(session),
                        payload@,
                        buffer(*final(out)).take(n as int),
                        *final(session),
                    )
                    &&& before.done == 0 ==> buffer(*final(out)).take(n as int).skip(
                        classic_overhead(0) as int,
                    ) == payload@
                    &&& classic_handshake(*final(session)) == (ClassicHandshakeView {
                        done: before.done + 1,
                        ..before
                    })
                },
                Err(e) => {
                    &&& classic_handshake(*final(session)) == before
                    &&& if !before.turn() {
                        e@ == "state error: NotTurnToWrite"@
                    } else if before.done >= CLASSIC_MESSAGES {
                        e@ == "state error: HandshakeAlreadyFinished"@
                    } else {
                        len > MAX_MESSAGE_LENGTH && e@ == "input error"@
                    }
                },
            }
        }),
{
    session.write_message(payload, &mut out[..]).map_err(|e| format!("{e}"))
}

/// `HandshakeState::read_message`; errors as their text. A message that does
/// not decrypt is not counted. The first message, which no key protects yet,
/// ends in the payload as it is, and fails only where it is too short.
///
/// Reading does in reverse what writing did: both sides mix the same bytes into
/// the same state, and the two halves of a key exchange give the same secret.
/// So a message of a session in step reads as the payload that was written, and
/// leaves the two in step.
#[verifier::external_body]
fn classic_handshake_read(session: &mut HandshakeState, message: &[u8], out: &mut BytesMut) -> (r:
    Result<usize, String>)
    requires
        classic_handshake(*old(session)).params == PARAMS_XX@,
        message@.len() <= MAX_MESSAGE_LENGTH,
        message@.len() <= buffer(*old(out)).len(),
    ensures
        buffer(*final(out)).len() == buffer(*old(out)).len(),
        ({
            let before = classic_handshake(*old(session));
            let after = classic_handshake(*final(session));
            let got = classic_message(*old(session), message@);
            match r {
                Ok(n) => {
                    &&& before.read_turn()
                    &&& n == message@.len() - classic_overhead(before.done)
                    &&& got == Ok::<ClassicMessage, Seq<char>>(
                        ClassicMessage {
                            payload: buffer(*final(out)).take(n as int),
                            remote_static: after.remote_static,
                        },
                    )
                    &&& before.done == 0 ==> buffer(*final(out)).take(n as int) == message@.skip(
                        classic_overhead(0) as int,
                    )
                    &&& if before.done > 0 {
                        after.remote_static matches Some(key) && key.len() == 32
                    } else {
                        after.remote_static == before.remote_static
                    }
                    &&& after == (ClassicHandshakeView {
                        done: before.done + 1,
                        remote_static: after.remote_static,
                        ..before
                    })
                },
                Err(e) => if before.turn() {
                    after == before && e@ == "state error: NotTurnToRead"@
                } else if before.done >= CLASSIC_MESSAGES {
                    after == before && e@ == "state error: HandshakeAlreadyFinished"@
                } else {
                    &&& got == Err::<ClassicMessage, Seq<char>>(e@)
                    &&& before.done == 0 ==> message@.len() < classic_overhead(0)
                    &&& after == (ClassicHandshakeView {
                        remote_static: after.remote_static,
                        ..before
                    })
                },
            }
        }),
        hears(
            *old(session),
            *final(session),
            message@,
            match r {
                Ok(n) => Some(buffer(*final(out)).take(n as int)),
                Err(_) => None,
            },
        ),
{
    session.read_message(message, &mut out[..]).map_err(|e| format!("{e}"))
}

/// `HandshakeState::is_initiator`.
#[verifier::external_body]
fn classic_is_initiator(session: &HandshakeState) -> (r: bool)
    ensures
        r == classic_handshake(*session).initiator,
{
    session.is_initiator()
}

/// `HandshakeState::get_remote_static`: the remote's static public key, if it is
/// known.
#[verifier::external_body]
fn classic_remote_static(session: &HandshakeState) -> (r: Option<Vec<u8>>)
    ensures
        match r {
            Some(key) => classic_handshake(*session).remote_static == Some(key@),
            None => classic_handshake(*session).remote_static is None,
        },
{
    session.get_remote_static().map(|key| key.to_vec())
}

/// `HandshakeState::into_transport_mode`: the session for the time after the
/// handshake. It fails where the handshake is not finished.
#[verifier::external_body]
fn classic_into_transport(session: HandshakeState) -> (r: Result<
    TransportState,
    SnowError,
>)
    requires
        classic_handshake(session).params == PARAMS_XX@,
    ensures
        match r {
            Ok(transport) => {
                &&& classic_handshake(session).finished()
                &&& two_way(transport)
                &&& classic_transport(transport) == fresh_transport(
                    classic_transport_keys(session),
                    classic_handshake(session).initiator,
                )
            },
            Err(_) => !classic_handshake(session).finished(),
        },
{
    session.into_transport_mode()
}

// ---------------------------------------------------------------------------
// Transport
// ---------------------------------------------------------------------------

/// How many messages a session can carry in each direction.
pub const CLASSIC_MAX_MESSAGES: u128 = 0xffff_ffff_ffff_ffff;

/// The state of a session.
pub uninterp spec fn classic_transport(session: TransportState) -> TransportView;

/// Both sides of the session may send.
pub uninterp spec fn two_way(session: TransportState) -> bool;

/// The message that `TransportState::write_message` makes of a cleartext.
pub uninterp spec fn classic_seal(key: Seq<u8>, number: nat, clear: Seq<u8>) -> Seq<u8>;

/// The cleartext that `TransportState::read_message` makes of a message: `None`
/// where it does not decrypt.
pub uninterp spec fn classic_open(key: Seq<u8>, number: nat, message: Seq<u8>) -> Option<Seq<u8>>;

/// `TransportState::write_message`; errors as their text. A message opens under
/// the same key and number, and to what was sealed.
#[verifier::external_body]
fn classic_transport_write(session: &mut TransportState, clear: &[u8], out: &mut BytesMut) -> (r:
    Result<usize, String>)
    requires
        two_way(*old(session)),
    ensures
        buffer(*final(out)).len() == buffer(*old(out)).len(),
        two_way(*final(session)),
        ({
            let before = classic_transport(*old(session));
            let len = clear@.len() + TAG_LENGTH;
            match r {
                Ok(n) => {
                    &&& before.sealed < CLASSIC_MAX_MESSAGES
                    &&& n == len <= MAX_MESSAGE_LENGTH
                    &&& len <= buffer(*old(out)).len()
                    &&& buffer(*final(out)).take(n as int) == classic_seal(
                        before.seal_key,
                        before.sealed,
                        clear@,
                    )
                    &&& classic_open(
                        before.seal_key,
                        before.sealed,
                        buffer(*final(out)).take(n as int),
                    ) == Some(clear@)
                    &&& classic_transport(*final(session)) == (TransportView {
                        sealed: before.sealed + 1,
                        ..before
                    })
                },
                Err(e) => {
                    &&& classic_transport(*final(session)) == before
                    &&& if len > MAX_MESSAGE_LENGTH || len > buffer(*old(out)).len() {
                        e@ == "input error"@
                    } else {
                        before.sealed >= CLASSIC_MAX_MESSAGES && e@ == "state error: Exhausted"@
                    }
                },
            }
        }),
{
    session.write_message(clear, &mut out[..]).map_err(|e| format!("{e}"))
}

/// `TransportState::read_message`; errors as their text. A message that does
/// not decrypt is not counted.
#[verifier::external_body]
fn classic_transport_read(session: &mut TransportState, message: &[u8], out: &mut BytesMut) -> (r:
    Result<usize, String>)
    requires
        two_way(*old(session)),
        message@.len() <= MAX_MESSAGE_LENGTH,
    ensures
        buffer(*final(out)).len() == buffer(*old(out)).len(),
        two_way(*final(session)),
        ({
            let before = classic_transport(*old(session));
            let len = message@.len() - TAG_LENGTH;
            let got = classic_open(before.open_key, before.opened, message@);
            match r {
                Ok(n) => {
                    &&& before.opened < CLASSIC_MAX_MESSAGES
                    &&& n == len
                    &&& len <= buffer(*old(out)).len()
                    &&& got == Some(buffer(*final(out)).take(n as int))
                    &&& classic_transport(*final(session)) == (TransportView {
                        opened: before.opened + 1,
                        ..before
                    })
                },
                Err(e) => {
                    &&& classic_transport(*final(session)) == before
                    &&& if len < 0 || len > buffer(*old(out)).len() {
                        e@ == "decrypt error"@
                    } else if before.opened >= CLASSIC_MAX_MESSAGES {
                        e@ == "state error: Exhausted"@
                    } else {
                        got is None && e@ == "decrypt error"@
                    }
                },
            }
        }),
{
    session.read_message(message, &mut out[..]).map_err(|e| format!("{e}"))
}

// ---------------------------------------------------------------------------
// As sessions that can be framed
// ---------------------------------------------------------------------------

/// A classic handshake in progress.
pub struct ClassicHandshakeSession {
    inner: HandshakeState,
}

/// A classic session after the handshake.
pub struct ClassicTransportSession {
    inner: TransportState,
}

impl View for ClassicHandshakeSession {
    type V = HandshakeState;

    closed spec fn view(&self) -> HandshakeState {
        self.inner
    }
}

impl View for ClassicTransportSession {
    type V = TransportState;

    closed spec fn view(&self) -> TransportState {
        self.inner
    }
}

impl ClassicHandshakeSession {
    /// The handshake is one with the classic parameters.
    pub open spec fn wf(&self) -> bool {
        classic_handshake(self@).params == PARAMS_XX@
    }

    /// The side that sends the first message.
    pub(crate) fn initiator(params: NoiseParams, prologue: &[u8], secret: &[u8; 32]) -> (r: Result<
        ClassicHandshakeSession,
        SnowError,
    >)
        requires
            params_text(params) == PARAMS_XX@,
        ensures
            match r {
                Ok(session) => classic_handshake(session@) == fresh_classic_handshake(
                    params,
                    prologue@,
                    secret@,
                    true,
                ),
                Err(_) => false,
            },
    {
        match build_initiator(params, prologue, secret) {
            Ok(inner) => Ok(ClassicHandshakeSession { inner }),
            Err(e) => Err(e),
        }
    }

    /// The side that receives the first message.
    pub(crate) fn responder(params: NoiseParams, prologue: &[u8], secret: &[u8; 32]) -> (r: Result<
        ClassicHandshakeSession,
        SnowError,
    >)
        requires
            params_text(params) == PARAMS_XX@,
        ensures
            match r {
                Ok(session) => {
                    &&& classic_handshake(session@) == fresh_classic_handshake(
                        params,
                        prologue@,
                        secret@,
                        false,
                    )
                    &&& awaits_initiators(session@)
                },
                Err(_) => false,
            },
    {
        match build_responder(params, prologue, secret) {
            Ok(inner) => Ok(ClassicHandshakeSession { inner }),
            Err(e) => Err(e),
        }
    }

    /// Whether this side sends the first message.
    pub fn is_initiator(&self) -> (r: bool)
        ensures
            r == classic_handshake(self@).initiator,
    {
        classic_is_initiator(&self.inner)
    }

    /// The remote's static public key, if it is known.
    pub fn remote_static(&self) -> (r: Option<Vec<u8>>)
        ensures
            match r {
                Some(key) => classic_handshake(self@).remote_static == Some(key@),
                None => classic_handshake(self@).remote_static is None,
            },
    {
        classic_remote_static(&self.inner)
    }

    /// The session for the time after the handshake, if that is finished.
    pub fn into_transport(self) -> (r: Result<ClassicTransportSession, SnowError>)
        requires
            self.wf(),
        ensures
            match r {
                Ok(transport) => {
                    &&& transport.wf()
                    &&& classic_handshake(self@).finished()
                    &&& classic_handshake(self@).done == 3
                    &&& classic_transport(transport@) == fresh_transport(
                        classic_transport_keys(self@),
                        classic_handshake(self@).initiator,
                    )
                },
                Err(_) => !classic_handshake(self@).finished(),
            },
    {
        match classic_into_transport(self.inner) {
            Ok(inner) => Ok(ClassicTransportSession { inner }),
            Err(e) => Err(e),
        }
    }
}

impl ClassicTransportSession {
    /// Both sides of the session may send.
    pub open spec fn wf(&self) -> bool {
        two_way(self@)
    }
}

impl NoiseSession for ClassicHandshakeSession {
    open spec fn can_write(&self, len: nat, room: nat) -> bool {
        self.wf() && room >= len + CLASSIC_EXTRA_ENCRYPT_SPACE
    }

    open spec fn writes(
        before: Self,
        after: Self,
        clear: Seq<u8>,
        room: nat,
        out: Result<Seq<u8>, IoError>,
    ) -> bool {
        let old_view = classic_handshake(before@);
        let len = clear.len() + classic_overhead(old_view.done);
        match out {
            Ok(message) => {
                &&& old_view.write_turn()
                &&& message.len() == len <= MAX_MESSAGE_LENGTH
                &&& classic_written(before@, clear, message, after@)
                &&& old_view.done == 0 ==> message.skip(classic_overhead(0) as int) == clear
                &&& classic_handshake(after@) == (ClassicHandshakeView {
                    done: old_view.done + 1,
                    ..old_view
                })
            },
            Err(e) => {
                &&& classic_handshake(after@) == old_view
                &&& if !old_view.turn() {
                    e.says(IoErrorKind::InvalidData, "state error: NotTurnToWrite"@)
                } else if old_view.done >= CLASSIC_MESSAGES {
                    e.says(IoErrorKind::InvalidData, "state error: HandshakeAlreadyFinished"@)
                } else {
                    &&& len > MAX_MESSAGE_LENGTH
                    &&& e.says(IoErrorKind::InvalidData, "input error"@)
                }
            },
        }
    }

    open spec fn can_read(&self, len: nat, room: nat) -> bool {
        &&& self.wf()
        &&& len <= MAX_MESSAGE_LENGTH
        &&& len <= room
    }

    open spec fn reads(
        before: Self,
        after: Self,
        message: Seq<u8>,
        room: nat,
        out: Result<Seq<u8>, IoError>,
    ) -> bool {
        let old_view = classic_handshake(before@);
        let new_view = classic_handshake(after@);
        &&& hears(
            before@,
            after@,
            message,
            match out {
                Ok(clear) => Some(clear),
                Err(_) => None,
            },
        )
        &&& match out {
            Ok(clear) => {
                &&& old_view.read_turn()
                &&& clear.len() == message.len() - classic_overhead(old_view.done)
                &&& classic_message(before@, message) == Ok::<ClassicMessage, Seq<char>>(
                    ClassicMessage { payload: clear, remote_static: new_view.remote_static },
                )
                &&& old_view.done == 0 ==> clear == message.skip(classic_overhead(0) as int)
                &&& if old_view.done > 0 {
                    new_view.remote_static matches Some(key) && key.len() == 32
                } else {
                    new_view.remote_static == old_view.remote_static
                }
                &&& new_view == (ClassicHandshakeView {
                    done: old_view.done + 1,
                    remote_static: new_view.remote_static,
                    ..old_view
                })
            },
            Err(e) => if old_view.turn() {
                &&& new_view == old_view
                &&& e.says(IoErrorKind::InvalidData, "state error: NotTurnToRead"@)
            } else if old_view.done >= CLASSIC_MESSAGES {
                &&& new_view == old_view
                &&& e.says(IoErrorKind::InvalidData, "state error: HandshakeAlreadyFinished"@)
            } else {
                &&& classic_message(before@, message) is Err
                &&& e.says(IoErrorKind::InvalidData, classic_message(before@, message)->Err_0)
                &&& old_view.done == 0 ==> message.len() < classic_overhead(0)
                &&& new_view == (ClassicHandshakeView {
                    remote_static: new_view.remote_static,
                    ..old_view
                })
            },
        }
    }

    fn write(&mut self, clear: &[u8], out: &mut BytesMut) -> (r: Result<usize, IoError>) {
        match classic_handshake_write(&mut self.inner, clear, out) {
            Ok(n) => Ok(n),
            Err(e) => Err(IoError::new(IoErrorKind::InvalidData, e)),
        }
    }

    fn read(&mut self, message: &[u8], out: &mut BytesMut) -> (r: Result<usize, IoError>) {
        match classic_handshake_read(&mut self.inner, message, out) {
            Ok(n) => Ok(n),
            Err(e) => Err(IoError::new(IoErrorKind::InvalidData, e)),
        }
    }
}

impl NoiseSession for ClassicTransportSession {
    open spec fn can_write(&self, len: nat, room: nat) -> bool {
        self.wf()
    }

    open spec fn writes(
        before: Self,
        after: Self,
        clear: Seq<u8>,
        room: nat,
        out: Result<Seq<u8>, IoError>,
    ) -> bool {
        let old_view = classic_transport(before@);
        let len = clear.len() + TAG_LENGTH;
        &&& after.wf()
        &&& match out {
            Ok(message) => {
                &&& old_view.sealed < CLASSIC_MAX_MESSAGES
                &&& message.len() == len <= MAX_MESSAGE_LENGTH
                &&& len <= room
                &&& message == classic_seal(old_view.seal_key, old_view.sealed, clear)
                &&& classic_open(old_view.seal_key, old_view.sealed, message) == Some(clear)
                &&& classic_transport(after@) == (TransportView {
                    sealed: old_view.sealed + 1,
                    ..old_view
                })
            },
            Err(e) => {
                &&& classic_transport(after@) == old_view
                &&& if len > MAX_MESSAGE_LENGTH || len > room {
                    e.says(IoErrorKind::InvalidData, "input error"@)
                } else {
                    &&& old_view.sealed >= CLASSIC_MAX_MESSAGES
                    &&& e.says(IoErrorKind::InvalidData, "state error: Exhausted"@)
                }
            },
        }
    }

    open spec fn can_read(&self, len: nat, room: nat) -> bool {
        self.wf() && len <= MAX_MESSAGE_LENGTH
    }

    open spec fn reads(
        before: Self,
        after: Self,
        message: Seq<u8>,
        room: nat,
        out: Result<Seq<u8>, IoError>,
    ) -> bool {
        let old_view = classic_transport(before@);
        let len = message.len() - TAG_LENGTH;
        &&& after.wf()
        &&& match out {
            Ok(clear) => {
                &&& old_view.opened < CLASSIC_MAX_MESSAGES
                &&& clear.len() == len <= room
                &&& classic_open(old_view.open_key, old_view.opened, message) == Some(clear)
                &&& classic_transport(after@) == (TransportView {
                    opened: old_view.opened + 1,
                    ..old_view
                })
            },
            Err(e) => {
                &&& classic_transport(after@) == old_view
                &&& if len < 0 || len > room {
                    e.says(IoErrorKind::InvalidData, "decrypt error"@)
                } else if old_view.opened >= CLASSIC_MAX_MESSAGES {
                    e.says(IoErrorKind::InvalidData, "state error: Exhausted"@)
                } else {
                    &&& classic_open(old_view.open_key, old_view.opened, message) is None
                    &&& e.says(IoErrorKind::InvalidData, "decrypt error"@)
                }
            },
        }
    }

    fn write(&mut self, clear: &[u8], out: &mut BytesMut) -> (r: Result<usize, IoError>) {
        match classic_transport_write(&mut self.inner, clear, out) {
            Ok(n) => Ok(n),
            Err(e) => Err(IoError::new(IoErrorKind::InvalidData, e)),
        }
    }

    fn read(&mut self, message: &[u8], out: &mut BytesMut) -> (r: Result<usize, IoError>) {
        match classic_transport_read(&mut self.inner, message, out) {
            Ok(n) => Ok(n),
            Err(e) => Err(IoError::new(IoErrorKind::InvalidData, e)),
        }
    }
}

/// The first message gets across: what an initiator writes as its first
/// message, a responder that is still at the beginning reads as it was written.
pub proof fn lemma_first_classic_message_arrives(
    initiator: (ClassicHandshakeSession, ClassicHandshakeSession),
    responder: (ClassicHandshakeSession, ClassicHandshakeSession),
    clear: Seq<u8>,
    room: nat,
    message: Seq<u8>,
    out: Result<Seq<u8>, IoError>,
)
    requires
        classic_handshake(initiator.0@).done == 0,
        ClassicHandshakeSession::writes(initiator.0, initiator.1, clear, room, Ok(message)),
        classic_handshake(responder.0@).done == 0,
        classic_handshake(responder.0@).read_turn(),
        ClassicHandshakeSession::reads(responder.0, responder.1, message, message.len(), out),
    ensures
        out == Ok::<Seq<u8>, IoError>(clear),
        classic_handshake(initiator.1@).done == classic_handshake(responder.1@).done,
        classic_handshake(initiator.1@).read_turn(),
        classic_handshake(responder.1@).write_turn(),
{
}

/// Whose turn it is: of two sides that have come equally far, just one may send,
/// the initiator first and then by turns, until three messages have been
/// exchanged.
pub proof fn lemma_classic_turns(view: ClassicHandshakeView)
    ensures
        view.write_turn() <==> (view.done == 0 && view.initiator || view.done == 1
            && !view.initiator || view.done == 2 && view.initiator),
        view.read_turn() <==> view.done < 3 && !view.write_turn(),
        view.finished() <==> view.done == 3,
        classic_overhead(0) == 32,
        classic_overhead(1) == 96,
        classic_overhead(2) == 64,
{
}

/// Sessions that have not begun can be the two ends of one handshake just where
/// one of them sends first and they have the same parameters and the same
/// prologue.
pub proof fn lemma_ends_agree(
    params: Seq<char>,
    other_params: Seq<char>,
    prologue: Seq<u8>,
    other_prologue: Seq<u8>,
    secret: Seq<u8>,
    other_secret: Seq<u8>,
)
    ensures
        opposite_ends(
            (ClassicHandshakeView {
                params,
                prologue,
                secret,
                initiator: true,
                done: 0,
                remote_static: None,
            }),
            (ClassicHandshakeView {
                params: other_params,
                prologue: other_prologue,
                secret: other_secret,
                initiator: false,
                done: 0,
                remote_static: None,
            }),
        ) <==> params == other_params && prologue == other_prologue,
{
}

/// Two honest ends complete a handshake: where an initiator and a responder that
/// agree on the prologue exchange their three messages unharmed, each reads the
/// payloads that the other has written, both come to the end, each knows the
/// other's static public key, and both have derived the same keys.
///
/// The sessions are given as they are before and after each of the messages.
pub proof fn lemma_honest_sessions_meet(
    initiator: Seq<ClassicHandshakeSession>,
    responder: Seq<ClassicHandshakeSession>,
    clear: Seq<Seq<u8>>,
    room: Seq<nat>,
    message: Seq<Seq<u8>>,
    out: Seq<Result<Seq<u8>, IoError>>,
    initiator_public: Seq<u8>,
    responder_public: Seq<u8>,
)
    requires
        exchanges(initiator, responder, clear, room, message, out),
        keypair_makes(initiator_public, classic_handshake(initiator[0]@).secret),
        keypair_makes(responder_public, classic_handshake(responder[0]@).secret),
    ensures
        forall|i: int|
            0 <= i < 3 ==> (#[trigger] out[i]) == Ok::<Seq<u8>, IoError>(clear[i]),
        classic_handshake(initiator[3]@).finished(),
        classic_handshake(responder[3]@).finished(),
        classic_handshake(initiator[3]@).initiator,
        !classic_handshake(responder[3]@).initiator,
        classic_handshake(initiator[3]@).remote_static == Some(responder_public),
        classic_handshake(responder[3]@).remote_static == Some(initiator_public),
        classic_transport_keys(initiator[3]@) == classic_transport_keys(responder[3]@),
{
    assert(classic_in_step(initiator[0]@, responder[0]@));
    assert(classic_written(initiator[0]@, clear[0], message[0], initiator[1]@));
    assert(classic_in_step(responder[1]@, initiator[1]@));
    assert(classic_written(responder[1]@, clear[1], message[1], responder[2]@));
    assert(classic_in_step(initiator[2]@, responder[2]@));
    assert(classic_written(initiator[2]@, clear[2], message[2], initiator[3]@));
}

/// The three messages of a handshake get across unharmed: the first and the
/// third from the initiator to the responder, the second the other way.
pub open spec fn exchanges(
    initiator: Seq<ClassicHandshakeSession>,
    responder: Seq<ClassicHandshakeSession>,
    clear: Seq<Seq<u8>>,
    room: Seq<nat>,
    message: Seq<Seq<u8>>,
    out: Seq<Result<Seq<u8>, IoError>>,
) -> bool {
    &&& opposite_ends(classic_handshake(initiator[0]@), classic_handshake(responder[0]@))
    &&& awaits_initiators(responder[0]@)
    &&& gets_across(
        (initiator[0], initiator[1]),
        (responder[0], responder[1]),
        clear[0],
        room[0],
        message[0],
        out[0],
    )
    &&& gets_across(
        (responder[1], responder[2]),
        (initiator[1], initiator[2]),
        clear[1],
        room[1],
        message[1],
        out[1],
    )
    &&& gets_across(
        (initiator[2], initiator[3]),
        (responder[2], responder[3]),
        clear[2],
        room[2],
        message[2],
        out[2],
    )
}

/// One side writes a message, and the other side reads just that message. Each
/// session is given as it is before and after.
pub open spec fn gets_across(
    writer: (ClassicHandshakeSession, ClassicHandshakeSession),
    reader: (ClassicHandshakeSession, ClassicHandshakeSession),
    clear: Seq<u8>,
    room: nat,
    message: Seq<u8>,
    out: Result<Seq<u8>, IoError>,
) -> bool {
    &&& ClassicHandshakeSession::writes(writer.0, writer.1, clear, room, Ok(message))
    &&& ClassicHandshakeSession::reads(reader.0, reader.1, message, message.len(), out)
}

} // verus!
