//! The `pqXX` handshake.
//!
//! Four messages, with the identities of the two sides in the second and the
//! third:
//!
//! ```text
//! ->  e
//! <-  ekem, s        (responder identity)
//! ->  skem, s        (initiator identity)
//! <-  skem
//! ```
//!
//! The link that carries the messages is driven by the caller: each step says
//! what to do next, and is told what came of it.

use vstd::prelude::*;
use vstd::utf8::encode_utf8;
use bytes::BytesMut;
use crate::buf::buffer;
use crate::error::Error;
use crate::error::IoError;
use crate::error::IoErrorKind;
use crate::fndsa::signature_verifies;
use crate::fndsa::SIGNATURE_LENGTH;
use crate::framed_pq::encrypts;
use crate::framed_pq::PqCodec;
use crate::framed_pq::EXTRA_ENCRYPT_SPACE;
use crate::framed_pq::U16_LENGTH;
use crate::identity::decoded_identity;
use crate::identity::libp2p_verifies;
use crate::identity::valid_identity;
use crate::identity::IdentityPublicKey;
use crate::identity::IdentityView;
use crate::output::Output;
use crate::output_io::OutputIo;
use crate::payload::empty_payload;
use crate::payload::lemma_empty_payload;
use crate::payload::lemma_field_size;
use crate::payload::lemma_payload_round_trip;
use crate::payload::parsed_payload;
use crate::payload::payload_encoding;
use crate::payload::readable_payload;
use crate::payload::NoiseHandshakePayload;
use crate::payload::PayloadView;
use crate::pq_session::fresh_transport;
use crate::pq_session::pq_overhead;
use crate::pq_session::pq_handshake;
use crate::pq_session::pq_transport;
use crate::pq_session::pq_transport_keys;
use crate::pq_session::pq_written;
use crate::pq_session::TransportView;
use crate::pq_session::PqHandshakeSession;
use crate::pq_session::PqHandshakeView;
use crate::pq_session::MAX_MESSAGE_LENGTH;
use crate::pq_session::PQ_MESSAGES;
use crate::protocol::KeypairIdentity;
use crate::protocol_pq::pq_static_message;
use crate::protocol_pq::verify_pq_static_sig;
use crate::varint::lemma_varint_size_bound;

verus! {

/// A step of a handshake.
#[derive(Debug, Clone, Copy, PartialEq, Eq, Structural)]
pub enum HandshakeStep {
    SendEmpty,
    SendIdentity,
    RecvEmpty,
    RecvIdentity,
    Finish,
}

/// Whether a message carries the sender's identity.
pub open spec fn pq_carries_identity(message: nat) -> bool {
    message == 1 || message == 2
}

/// What a side does about a message: the initiator sends the first one, and the
/// sides take turns.
pub open spec fn pq_step(initiator: bool, message: nat) -> HandshakeStep {
    if message >= 4 {
        HandshakeStep::Finish
    } else if (message % 2 == 0) == initiator {
        if pq_carries_identity(message) {
            HandshakeStep::SendIdentity
        } else {
            HandshakeStep::SendEmpty
        }
    } else {
        if pq_carries_identity(message) {
            HandshakeStep::RecvIdentity
        } else {
            HandshakeStep::RecvEmpty
        }
    }
}

/// What came over the link: `None` where it has ended.
pub type Arrival = Option<Result<NoiseHandshakePayload, IoError>>;

/// A handshake in progress. `I` is the type of the link that carries the
/// messages.
pub struct PqState<I> {
    io: I,
    identity: KeypairIdentity,
    is_initiator: bool,
    remote_static_sig: Option<Vec<u8>>,
    remote_id_pubkey: Option<IdentityPublicKey>,
    done: usize,
}

/// What a side knows of the handshake, apart from the link.
pub struct PqStateView {
    /// The own identity, and its signature over the own static key.
    pub identity: IdentityView,
    pub signature: Seq<u8>,
    pub initiator: bool,
    /// The remote's signature over its static key, once it has been received.
    pub remote_sig: Option<Seq<u8>>,
    /// The remote's identity, once it has been received.
    pub remote_key: Option<IdentityView>,
    /// How many messages have been exchanged.
    pub done: nat,
}

/// The payload of a message that carries an identity.
pub open spec fn identity_payload(identity: IdentityView, signature: Seq<u8>) -> PayloadView {
    PayloadView { identity_key: identity.encoding(), identity_sig: signature, extensions: None }
}

/// The outcome of receiving: the payload, or why there is none.
pub open spec fn received(event: Arrival, r: Result<NoiseHandshakePayload, Error>) -> bool {
    match event {
        None => r matches Err(Error::Io(e)) && e.says(IoErrorKind::UnexpectedEof, "eof"@),
        Some(Err(e)) => r == Err::<NoiseHandshakePayload, Error>(Error::Io(e)),
        Some(Ok(p)) => r == Ok::<NoiseHandshakePayload, Error>(p),
    }
}

/// Takes what came over the link as a payload.
pub fn recv(event: Arrival) -> (r: Result<NoiseHandshakePayload, Error>)
    ensures
        received(event, r),
        match event {
            None => r matches Err(Error::Io(e)) && e.kind == IoErrorKind::UnexpectedEof && e.message@
                == "eof"@,
            Some(Err(e)) => r == Err::<NoiseHandshakePayload, Error>(Error::Io(e)),
            Some(Ok(p)) => r == Ok::<NoiseHandshakePayload, Error>(p),
        },
{
    match event {
        None => Err(Error::Io(IoError::new(IoErrorKind::UnexpectedEof, "eof".to_owned()))),
        Some(Err(e)) => Err(Error::Io(e)),
        Some(Ok(p)) => Ok(p),
    }
}

/// The outcome of receiving a payload that should be empty.
pub open spec fn received_empty(event: Arrival, r: Result<(), Error>) -> bool {
    match event {
        None => r matches Err(Error::Io(e)) && e.says(IoErrorKind::UnexpectedEof, "eof"@),
        Some(Err(e)) => r == Err::<(), Error>(Error::Io(e)),
        Some(Ok(p)) => if payload_encoding(p@).len() == 0 {
            r is Ok
        } else {
            r matches Err(Error::Io(e)) && e.says(
                IoErrorKind::InvalidData,
                "Expected empty payload."@,
            )
        },
    }
}

/// Takes what came over the link as a payload that should be empty.
pub fn expect_empty(event: Arrival) -> (r: Result<(), Error>)
    ensures
        received_empty(event, r),
        match event {
            None => r matches Err(Error::Io(e)) && e.kind == IoErrorKind::UnexpectedEof
                && e.message@ == "eof"@,
            Some(Err(e)) => r == Err::<(), Error>(Error::Io(e)),
            Some(Ok(p)) => if p.identity_key@.len() == 0 && p.identity_sig@.len() == 0
                && p.extensions is None {
                r is Ok
            } else {
                r matches Err(Error::Io(e)) && e.kind == IoErrorKind::InvalidData && e.message@
                    == "Expected empty payload."@
            },
        },
{
    match recv(event) {
        Err(e) => Err(e),
        Ok(p) => {
            proof {
                lemma_empty_payload(p@);
            }
            let is_empty: bool = p.identity_key.len() == 0 && p.identity_sig.len() == 0
                && p.extensions.is_none();
            assert(is_empty == (p@ == empty_payload())) by {
                if is_empty {
                    assert(p@ =~= empty_payload());
                }
            }
            if is_empty {
                Ok(())
            } else {
                Err(
                    Error::Io(
                        IoError::new(
                            IoErrorKind::InvalidData,
                            "Expected empty payload.".to_owned(),
                        ),
                    ),
                )
            }
        },
    }
}

/// An identity payload takes little more than the identity and the signature.
proof fn lemma_field_sizes(p: PayloadView)
    requires
        p.extensions is None,
        p.identity_key.len() <= u64::MAX,
        p.identity_sig.len() <= u64::MAX,
    ensures
        p.identity_sig.len() <= payload_encoding(p).len() <= p.identity_key.len()
            + p.identity_sig.len() + 22,
{
    lemma_field_size(10, p.identity_key);
    lemma_field_size(18, p.identity_sig);
    lemma_varint_size_bound(p.identity_key.len() as u64);
    lemma_varint_size_bound(p.identity_sig.len() as u64);
}

/// A value that may be absent, by its view.
pub open spec fn sig_view(sig: Option<Vec<u8>>) -> Option<Seq<u8>> {
    match sig {
        Some(s) => Some(s@),
        None => None,
    }
}

/// A key that may be absent, by its view.
pub open spec fn key_view(key: Option<IdentityPublicKey>) -> Option<IdentityView> {
    match key {
        Some(k) => Some(k@),
        None => None,
    }
}

impl<I> View for PqState<I> {
    type V = PqStateView;

    closed spec fn view(&self) -> PqStateView {
        PqStateView {
            identity: self.identity.public@,
            signature: self.identity.signature@,
            initiator: self.is_initiator,
            remote_sig: sig_view(self.remote_static_sig),
            remote_key: key_view(self.remote_id_pubkey),
            done: self.done as nat,
        }
    }
}

/// The count of messages after one more. It stops at the last message.
pub open spec fn next_done(done: nat) -> nat {
    if done < PQ_MESSAGES {
        done + 1
    } else {
        done
    }
}

impl PqStateView {
    /// The state after one more message.
    pub open spec fn advanced(self) -> PqStateView {
        PqStateView { done: next_done(self.done), ..self }
    }

    /// The state after the remote's identity has been received. A signature
    /// that is empty counts as none, and does not replace an earlier one.
    pub open spec fn with_identity(self, key: IdentityView, signature: Seq<u8>) -> PqStateView {
        PqStateView {
            remote_key: Some(key),
            remote_sig: if signature.len() > 0 {
                Some(signature)
            } else {
                self.remote_sig
            },
            done: next_done(self.done),
            ..self
        }
    }

    /// The remote has proved to be the identity it claims: the identity signed
    /// the given static key.
    pub open spec fn authenticates(self, remote_static: Seq<u8>) -> bool {
        match (self.remote_key, self.remote_sig) {
            (Some(key), Some(sig)) => key.verifies(pq_static_message(remote_static), sig),
            _ => false,
        }
    }

    /// The handshake can be ended, given the state of the session: all messages
    /// have been exchanged, and the remote has proved to be the identity it
    /// claims. See [`PqState::finish`].
    pub open spec fn finishes(self, session: PqHandshakeView) -> bool {
        session.finished() && match session.remote_static {
            Some(key) => self.authenticates(key),
            None => false,
        }
    }
}

impl<I> PqState<I> {
    /// The link.
    pub closed spec fn link(&self) -> I {
        self.io
    }

    /// A handshake that has not begun.
    pub fn new(io: I, identity: KeypairIdentity, is_initiator: bool) -> (r: PqState<I>)
        ensures
            r.link() == io,
            r@ == (PqStateView {
                identity: identity.public@,
                signature: identity.signature@,
                initiator: is_initiator,
                remote_sig: None,
                remote_key: None,
                done: 0,
            }),
    {
        PqState {
            io,
            identity,
            is_initiator,
            remote_static_sig: None,
            remote_id_pubkey: None,
            done: 0,
        }
    }

    /// Whether this side sends the first message.
    pub fn is_initiator(&self) -> (r: bool)
        ensures
            r == self@.initiator,
    {
        self.is_initiator
    }

    /// What to do next.
    pub fn next_step(&self) -> (r: HandshakeStep)
        ensures
            r == pq_step(self@.initiator, self@.done),
            self@.initiator && self@.done == 0 ==> r == HandshakeStep::SendEmpty,
            self@.initiator && self@.done == 1 ==> r == HandshakeStep::RecvIdentity,
            self@.initiator && self@.done == 2 ==> r == HandshakeStep::SendIdentity,
            self@.initiator && self@.done == 3 ==> r == HandshakeStep::RecvEmpty,
            !self@.initiator && self@.done == 0 ==> r == HandshakeStep::RecvEmpty,
            !self@.initiator && self@.done == 1 ==> r == HandshakeStep::SendIdentity,
            !self@.initiator && self@.done == 2 ==> r == HandshakeStep::RecvIdentity,
            !self@.initiator && self@.done == 3 ==> r == HandshakeStep::SendEmpty,
            self@.done >= 4 ==> r == HandshakeStep::Finish,
    {
        match (self.is_initiator, self.done) {
            (true, 0) => HandshakeStep::SendEmpty,
            (true, 1) => HandshakeStep::RecvIdentity,
            (true, 2) => HandshakeStep::SendIdentity,
            (true, 3) => HandshakeStep::RecvEmpty,
            (false, 0) => HandshakeStep::RecvEmpty,
            (false, 1) => HandshakeStep::SendIdentity,
            (false, 2) => HandshakeStep::RecvIdentity,
            (false, 3) => HandshakeStep::SendEmpty,
            _ => HandshakeStep::Finish,
        }
    }

    /// The link, to be driven.
    pub fn link_mut(&mut self) -> (r: &mut I)
        ensures
            *r == old(self).link(),
            final(self).link() == *final(r),
            final(self)@ == old(self)@,
    {
        &mut self.io
    }

    /// Puts another link in place of the present one.
    pub fn with_link<J>(self, io: J) -> (r: (I, PqState<J>))
        ensures
            r.0 == self.link(),
            r.1.link() == io,
            r.1@ == self@,
    {
        (
            self.io,
            PqState {
                io,
                identity: self.identity,
                is_initiator: self.is_initiator,
                remote_static_sig: self.remote_static_sig,
                remote_id_pubkey: self.remote_id_pubkey,
                done: self.done,
            },
        )
    }

    /// The payload that carries the own identity. The remote decodes it to that
    /// identity.
    pub fn identity_payload(&self) -> (r: NoiseHandshakePayload)
        ensures
            r@ == identity_payload(self@.identity, self@.signature),
            r.identity_key@ == match self@.identity {
                IdentityView::Libp2p(key) => key,
                IdentityView::FnDsa(key) => seq![0x08u8, 0x04u8, 0x12u8, 0x81u8, 0x07u8] + key,
            },
            r.identity_sig@ == self@.signature,
            r.extensions is None,
            valid_identity(self@.identity),
    {
        NoiseHandshakePayload {
            identity_key: self.identity.public.encode_protobuf(),
            identity_sig: self.identity.signature.clone(),
            extensions: None,
        }
    }

    /// Counts a message. After the last one the count stays as it is.
    fn count(&mut self)
        ensures
            final(self)@ == old(self)@.advanced(),
            final(self).link() == old(self).link(),
    {
        if self.done < PQ_MESSAGES {
            self.done = self.done + 1;
        }
    }

    /// Notes that a message has been sent.
    pub fn sent(&mut self)
        ensures
            final(self)@ == old(self)@.advanced(),
            final(self)@ == (PqStateView {
                done: if old(self)@.done < 4 {
                    old(self)@.done + 1
                } else {
                    old(self)@.done
                },
                ..old(self)@
            }),
            final(self).link() == old(self).link(),
    {
        self.count();
    }

    /// Takes what came over the link as a message without an identity.
    pub fn recv_empty(&mut self, event: Arrival) -> (r: Result<(), Error>)
        ensures
            received_empty(event, r),
            final(self)@ == if r is Ok {
                old(self)@.advanced()
            } else {
                old(self)@
            },
            match event {
                None => r matches Err(Error::Io(e)) && e.kind == IoErrorKind::UnexpectedEof
                    && e.message@ == "eof"@,
                Some(Err(e)) => r == Err::<(), Error>(Error::Io(e)),
                Some(Ok(p)) => if p.identity_key@.len() == 0 && p.identity_sig@.len() == 0
                    && p.extensions is None {
                    r is Ok
                } else {
                    r matches Err(Error::Io(e)) && e.kind == IoErrorKind::InvalidData && e.message@
                        == "Expected empty payload."@
                },
            },
            final(self)@ == (PqStateView {
                done: if r is Ok && old(self)@.done < 4 {
                    old(self)@.done + 1
                } else {
                    old(self)@.done
                },
                ..old(self)@
            }),
            final(self).link() == old(self).link(),
    {
        match expect_empty(event) {
            Ok(_) => {
                self.count();
                Ok(())
            },
            Err(e) => Err(e),
        }
    }

    /// Takes what came over the link as a message with the remote's identity.
    pub fn recv_identity(&mut self, event: Arrival) -> (r: Result<(), Error>)
        ensures
            match event {
                None => {
                    &&& r matches Err(Error::Io(e)) && e.says(IoErrorKind::UnexpectedEof, "eof"@)
                    &&& final(self)@ == old(self)@
                },
                Some(Err(e)) => {
                    &&& r == Err::<(), Error>(Error::Io(e))
                    &&& final(self)@ == old(self)@
                },
                Some(Ok(p)) => match decoded_identity(p@.identity_key) {
                    Some(key) => {
                        &&& r is Ok
                        &&& final(self)@ == old(self)@.with_identity(key, p@.identity_sig)
                    },
                    None => {
                        &&& r matches Err(Error::InvalidKey(_))
                        &&& final(self)@ == old(self)@
                    },
                },
            },
            event matches Some(Ok(p)) ==> r is Ok ==> final(self)@ == (PqStateView {
                remote_key: decoded_identity(p.identity_key@),
                remote_sig: if p.identity_sig@.len() > 0 {
                    Some(p.identity_sig@)
                } else {
                    old(self)@.remote_sig
                },
                done: if old(self)@.done < 4 {
                    old(self)@.done + 1
                } else {
                    old(self)@.done
                },
                ..old(self)@
            }),
            event matches Some(Ok(p)) ==> (r is Ok <==> decoded_identity(p.identity_key@) is Some),
            final(self).link() == old(self).link(),
    {
        let pb = match recv(event) {
            Ok(pb) => pb,
            Err(e) => {
                return Err(e);
            },
        };
        match IdentityPublicKey::try_decode_protobuf(pb.identity_key.as_slice()) {
            Err(e) => Err(Error::InvalidKey(e)),
            Ok(key) => {
                self.remote_id_pubkey = Some(key);
                if pb.identity_sig.len() > 0 {
                    self.remote_static_sig = Some(pb.identity_sig);
                }
                self.count();
                Ok(())
            },
        }
    }

    /// Checks that the remote's identity has signed its static key, and hands
    /// out the identity.
    pub fn authenticate(self, remote_static: &[u8]) -> (r: Result<IdentityPublicKey, Error>)
        ensures
            match r {
                Ok(key) => {
                    &&& self@.remote_key == Some(key@)
                    &&& self@.authenticates(remote_static@)
                },
                Err(Error::AuthenticationFailed) => {
                    self@.remote_key is None || self@.remote_sig is None
                },
                Err(Error::BadSignature) => {
                    &&& self@.remote_key is Some
                    &&& self@.remote_sig is Some
                    &&& !self@.authenticates(remote_static@)
                },
                Err(_) => false,
            },
            r is Ok <==> match (self@.remote_key, self@.remote_sig) {
                (Some(IdentityView::Libp2p(key)), Some(sig)) => libp2p_verifies(
                    key,
                    encode_utf8("noise-libp2p-static-key-pq:"@) + remote_static@,
                    sig,
                ),
                (Some(IdentityView::FnDsa(key)), Some(sig)) => signature_verifies(
                    key,
                    encode_utf8("noise-libp2p-static-key-pq:"@) + remote_static@,
                    sig,
                ),
                _ => false,
            },
    {
        match (self.remote_id_pubkey, self.remote_static_sig) {
            (Some(key), Some(sig)) => match verify_pq_static_sig(
                &key,
                remote_static,
                sig.as_slice(),
            ) {
                Ok(_) => Ok(key),
                Err(e) => Err(e),
            },
            _ => Err(Error::AuthenticationFailed),
        }
    }
}

impl PqState<PqCodec<PqHandshakeSession>> {
    /// The state of the session.
    pub open spec fn handshake(&self) -> PqHandshakeView {
        self.link().handshake()
    }

    /// The own identity, with its signature, is short enough for the next
    /// message, if that is this side's to send.
    pub open spec fn can_send_identity(&self) -> bool {
        self.link().can_encode(identity_payload(self@.identity, self@.signature))
    }

    /// Sending `item` appends it to `dst` as the next message of the session.
    /// It fails where that message is not this side's to send, and then nothing
    /// changes.
    pub open spec fn sends(
        before: Self,
        after: Self,
        item: PayloadView,
        dst_before: Seq<u8>,
        dst_after: Seq<u8>,
        r: Result<(), Error>,
    ) -> bool {
        let clear = payload_encoding(item);
        let room = clear.len() + EXTRA_ENCRYPT_SPACE as nat;
        match r {
            Ok(_) => {
                &&& before.handshake().write_turn()
                &&& encrypts(
                    before.link()@,
                    after.link()@,
                    clear,
                    room,
                    dst_before,
                    dst_after,
                    Ok(()),
                )
                &&& after@ == before@.advanced()
            },
            Err(Error::Io(e)) => {
                &&& !before.handshake().write_turn()
                &&& encrypts(
                    before.link()@,
                    after.link()@,
                    clear,
                    room,
                    dst_before,
                    dst_after,
                    Err(e),
                )
                &&& after@ == before@
            },
            Err(_) => false,
        }
    }

    /// Sends a payload.
    fn send(&mut self, item: &NoiseHandshakePayload, dst: &mut BytesMut) -> (r: Result<(), Error>)
        requires
            old(self).link().can_encode(item@),
            buffer(*old(dst)).len() + U16_LENGTH + payload_encoding(item@).len()
                + EXTRA_ENCRYPT_SPACE <= isize::MAX,
        ensures
            Self::sends(
                *old(self),
                *final(self),
                item@,
                buffer(*old(dst)),
                buffer(*final(dst)),
                r,
            ),
            match r {
                Ok(_) => {
                    let at = buffer(*old(dst)).len() as int;
                    let after = buffer(*final(dst));
                    &&& after.len() >= at + 2
                    &&& after.take(at) == buffer(*old(dst))
                    &&& after[at] * 256 + after[at + 1] == after.len() - at - 2
                    &&& pq_written(
                        old(self).link()@,
                        payload_encoding(item@),
                        after.skip(at + 2),
                    )
                    &&& pq_handshake(final(self).link()@).done == pq_handshake(
                        old(self).link()@,
                    ).done + 1
                    &&& final(self)@ == (PqStateView {
                        done: if old(self)@.done < 4 {
                            old(self)@.done + 1
                        } else {
                            old(self)@.done
                        },
                        ..old(self)@
                    })
                },
                Err(_) => {
                    &&& buffer(*final(dst)) == buffer(*old(dst))
                    &&& pq_handshake(final(self).link()@) == pq_handshake(old(self).link()@)
                    &&& final(self)@ == old(self)@
                },
            },
    {
        match self.io.encode(item, dst) {
            Ok(_) => {
                self.count();
                Ok(())
            },
            Err(e) => Err(Error::Io(e)),
        }
    }

    /// Sends a message without an identity.
    pub fn send_empty(&mut self, dst: &mut BytesMut) -> (r: Result<(), Error>)
        requires
            buffer(*old(dst)).len() + U16_LENGTH + EXTRA_ENCRYPT_SPACE <= isize::MAX,
        ensures
            Self::sends(
                *old(self),
                *final(self),
                empty_payload(),
                buffer(*old(dst)),
                buffer(*final(dst)),
                r,
            ),
            match r {
                Ok(_) => {
                    let at = buffer(*old(dst)).len() as int;
                    let after = buffer(*final(dst));
                    &&& after.len() >= at + 2
                    &&& after.take(at) == buffer(*old(dst))
                    &&& after[at] * 256 + after[at + 1] == after.len() - at - 2
                    &&& pq_written(
                        old(self).link()@,
                        Seq::<u8>::empty(),
                        after.skip(at + 2),
                    )
                    &&& pq_handshake(final(self).link()@).done == pq_handshake(
                        old(self).link()@,
                    ).done + 1
                    &&& final(self)@ == (PqStateView {
                        done: if old(self)@.done < 4 {
                            old(self)@.done + 1
                        } else {
                            old(self)@.done
                        },
                        ..old(self)@
                    })
                },
                Err(_) => {
                    &&& buffer(*final(dst)) == buffer(*old(dst))
                    &&& pq_handshake(final(self).link()@) == pq_handshake(old(self).link()@)
                    &&& final(self)@ == old(self)@
                },
            },
    {
        proof {
            lemma_empty_payload(empty_payload());
        }
        self.send(&NoiseHandshakePayload::default(), dst)
    }

    /// Sends a message with the own identity.
    pub fn send_identity(&mut self, dst: &mut BytesMut) -> (r: Result<(), Error>)
        requires
            old(self).can_send_identity(),
            buffer(*old(dst)).len() + U16_LENGTH + payload_encoding(
                identity_payload(old(self)@.identity, old(self)@.signature),
            ).len() + EXTRA_ENCRYPT_SPACE <= isize::MAX,
        ensures
            Self::sends(
                *old(self),
                *final(self),
                identity_payload(old(self)@.identity, old(self)@.signature),
                buffer(*old(dst)),
                buffer(*final(dst)),
                r,
            ),
            match r {
                Ok(_) => {
                    let at = buffer(*old(dst)).len() as int;
                    let after = buffer(*final(dst));
                    &&& after.len() >= at + 2
                    &&& after.take(at) == buffer(*old(dst))
                    &&& after[at] * 256 + after[at + 1] == after.len() - at - 2
                    &&& pq_written(
                        old(self).link()@,
                        payload_encoding(
                            (PayloadView {
                                identity_key: match old(self)@.identity {
                                    IdentityView::Libp2p(key) => key,
                                    IdentityView::FnDsa(key) => seq![
                                        0x08u8,
                                        0x04u8,
                                        0x12u8,
                                        0x81u8,
                                        0x07u8,
                                    ] + key,
                                },
                                identity_sig: old(self)@.signature,
                                extensions: None,
                            }),
                        ),
                        after.skip(at + 2),
                    )
                    &&& pq_handshake(final(self).link()@).done == pq_handshake(
                        old(self).link()@,
                    ).done + 1
                    &&& final(self)@ == (PqStateView {
                        done: if old(self)@.done < 4 {
                            old(self)@.done + 1
                        } else {
                            old(self)@.done
                        },
                        ..old(self)@
                    })
                },
                Err(_) => {
                    &&& buffer(*final(dst)) == buffer(*old(dst))
                    &&& pq_handshake(final(self).link()@) == pq_handshake(old(self).link()@)
                    &&& final(self)@ == old(self)@
                },
            },
    {
        let item = self.identity_payload();
        self.send(&item, dst)
    }

    /// Whether the own identity, with its signature, is short enough for the
    /// next message, where that is this side's to send. (No message of any side
    /// holds a signature of more than 65535 bytes.)
    pub fn identity_fits(&self) -> (r: bool)
        ensures
            r ==> self.can_send_identity(),
            r ==> payload_encoding(identity_payload(self@.identity, self@.signature)).len()
                <= 0x2_0000,
            self.handshake().write_turn() ==> r == self.can_send_identity(),
            pq_handshake(self.link()@).write_turn() ==> (r <==> payload_encoding(
                (PayloadView {
                    identity_key: match self@.identity {
                        IdentityView::Libp2p(key) => key,
                        IdentityView::FnDsa(key) => seq![0x08u8, 0x04u8, 0x12u8, 0x81u8, 0x07u8]
                            + key,
                    },
                    identity_sig: self@.signature,
                    extensions: None,
                }),
            ).len() + pq_overhead(pq_handshake(self.link()@).done) <= 65535),
    {
        let item = self.identity_payload();
        let sig_len: usize = item.identity_sig.len();
        proof {
            lemma_field_sizes(item@);
        }
        if sig_len > MAX_MESSAGE_LENGTH {
            return false;
        }
        self.io.fits(&item)
    }

    /// Ends the handshake: a session for the time after it, with a remote that
    /// has proved to be the identity that is handed out with it.
    pub fn finish(self) -> (r: Result<(IdentityPublicKey, Output<OutputIo>), Error>)
        ensures
            r is Ok <==> self@.finishes(self.handshake()),
            r is Ok <==> {
                let session = pq_handshake(self.link()@);
                &&& session.done == 4 && !session.failed
                &&& match (session.remote_static, self@.remote_key, self@.remote_sig) {
                    (Some(remote), Some(IdentityView::Libp2p(key)), Some(sig)) => libp2p_verifies(
                        key,
                        encode_utf8("noise-libp2p-static-key-pq:"@) + remote,
                        sig,
                    ),
                    (Some(remote), Some(IdentityView::FnDsa(key)), Some(sig)) => signature_verifies(
                        key,
                        encode_utf8("noise-libp2p-static-key-pq:"@) + remote,
                        sig,
                    ),
                    _ => false,
                }
            },
            r matches Ok((key, output)) ==> {
                &&& self@.remote_key == Some(key@)
                &&& output.received().len() == 0 && output.buffered().len() == 0
                &&& output.link() matches OutputIo::Pq(codec) && pq_transport(codec@) == if
                    pq_handshake(self.link()@).initiator {
                    TransportView {
                        seal_key: pq_transport_keys(self.link()@).0,
                        sealed: 0,
                        open_key: pq_transport_keys(self.link()@).1,
                        opened: 0,
                    }
                } else {
                    TransportView {
                        seal_key: pq_transport_keys(self.link()@).1,
                        sealed: 0,
                        open_key: pq_transport_keys(self.link()@).0,
                        opened: 0,
                    }
                }
            },
            match r {
                Ok((key, output)) => {
                    &&& self.handshake().finished()
                    &&& self.handshake().remote_static matches Some(k) && self@.authenticates(k)
                    &&& self@.remote_key == Some(key@)
                    &&& output.link() is Pq
                    &&& output.link().transport() == fresh_transport(
                        pq_transport_keys(self.link()@),
                        self.handshake().initiator,
                    )
                    &&& output.received() == Seq::<u8>::empty()
                    &&& output.buffered() == Seq::<u8>::empty()
                },
                Err(Error::AuthenticationFailed) => {
                    ||| self.handshake().remote_static is None
                    ||| self.handshake().finished() && (self@.remote_key is None
                        || self@.remote_sig is None)
                },
                Err(Error::PqHandshake(text)) => {
                    &&& self.handshake().remote_static is Some
                    &&& !self.handshake().finished()
                    &&& text@ == "finalize: "@ + "InvalidState"@
                },
                Err(Error::BadSignature) => {
                    &&& self.handshake().finished()
                    &&& self.handshake().remote_static matches Some(k) && !self@.authenticates(k)
                    &&& self@.remote_key is Some
                    &&& self@.remote_sig is Some
                },
                Err(_) => false,
            },
    {
        let (codec, state) = self.with_link(());
        match codec.into_transport() {
            Err(e) => Err(e),
            Ok((remote_static, transport)) => match state.authenticate(remote_static.as_slice()) {
                Err(e) => Err(e),
                Ok(key) => Ok((key, Output::new(OutputIo::Pq(transport)))),
            },
        }
    }
}

// ---------------------------------------------------------------------------
// The two sides together
// ---------------------------------------------------------------------------

/// What each side does about each message: the first message and the fourth are empty and
/// carry no identity; the responder sends its identity in the second message
/// and in no other, the initiator in the third and in no other.
pub proof fn lemma_pq_steps(message: nat)
    ensures
        pq_step(true, 0) == HandshakeStep::SendEmpty,
        pq_step(true, 1) == HandshakeStep::RecvIdentity,
        pq_step(true, 2) == HandshakeStep::SendIdentity,
        pq_step(true, 3) == HandshakeStep::RecvEmpty,
        pq_step(false, 0) == HandshakeStep::RecvEmpty,
        pq_step(false, 1) == HandshakeStep::SendIdentity,
        pq_step(false, 2) == HandshakeStep::RecvIdentity,
        pq_step(false, 3) == HandshakeStep::SendEmpty,
        message >= 4 ==> pq_step(true, message) == HandshakeStep::Finish,
        message >= 4 ==> pq_step(false, message) == HandshakeStep::Finish,
        pq_step(true, message) == HandshakeStep::SendIdentity <==> message == 2,
        pq_step(false, message) == HandshakeStep::SendIdentity <==> message == 1,
        pq_step(true, message) == HandshakeStep::RecvIdentity <==> message == 1,
        pq_step(false, message) == HandshakeStep::RecvIdentity <==> message == 2,
{
}

/// A remote is authentic just where it has sent an identity and a signature, and
/// the scheme of that identity accepts the signature over the domain followed by
/// the remote's static key.
pub proof fn lemma_pq_authentic(state: PqStateView, remote_static: Seq<u8>)
    ensures
        state.authenticates(remote_static) <==> match (state.remote_key, state.remote_sig) {
            (Some(IdentityView::Libp2p(key)), Some(sig)) => libp2p_verifies(
                key,
                encode_utf8("noise-libp2p-static-key-pq:"@) + remote_static,
                sig,
            ),
            (Some(IdentityView::FnDsa(key)), Some(sig)) => signature_verifies(
                key,
                encode_utf8("noise-libp2p-static-key-pq:"@) + remote_static,
                sig,
            ),
            _ => false,
        },
{
}

/// What a side says of its session is the state of that session; it can end the
/// handshake just where four messages have been exchanged without failure and
/// the remote's static key is authentic.
pub proof fn lemma_pq_side_values(
    side: PqState<PqCodec<PqHandshakeSession>>,
    state: PqStateView,
    session: PqHandshakeView,
)
    ensures
        side.handshake() == pq_handshake(side.link()@),
        state.finishes(session) <==> session.done == 4 && !session.failed
            && session.remote_static is Some && state.authenticates(session.remote_static->0),
{
}

/// What a message with an identity carries: the identity as it is written, the
/// signature, and no extensions. An identity that is received replaces what was
/// known; a signature does where there is one; a message that is sent or
/// received is counted up to the last one; nothing else changes.
pub proof fn lemma_pq_state_changes(
    state: PqStateView,
    key: IdentityView,
    signature: Seq<u8>,
)
    ensures
        identity_payload(key, signature).identity_key == key.encoding(),
        identity_payload(key, signature).identity_sig == signature,
        identity_payload(key, signature).extensions is None,
        state.with_identity(key, signature).remote_key == Some(key),
        signature.len() > 0 ==> state.with_identity(key, signature).remote_sig == Some(signature),
        signature.len() == 0 ==> state.with_identity(key, signature).remote_sig
            == state.remote_sig,
        state.with_identity(key, signature) == (PqStateView {
            remote_key: state.with_identity(key, signature).remote_key,
            remote_sig: state.with_identity(key, signature).remote_sig,
            ..state.advanced()
        }),
        state.done < 4 ==> state.advanced() == (PqStateView { done: state.done + 1, ..state }),
        state.done >= 4 ==> state.advanced() == state,
{
}

/// The two sides fit each other: whatever the one sends as a message, the other
/// expects as that message.
pub proof fn lemma_sides_fit(initiator: bool, message: nat)
    requires
        message < 4,
    ensures
        pq_step(initiator, message) == HandshakeStep::SendEmpty <==> pq_step(!initiator, message)
            == HandshakeStep::RecvEmpty,
        pq_step(initiator, message) == HandshakeStep::SendIdentity <==> pq_step(
            !initiator,
            message,
        ) == HandshakeStep::RecvIdentity,
{
}

/// A side sends just when the session lets it, and each side sends its identity
/// in one message and receives the other's in one.
pub proof fn lemma_steps_follow_the_session(view: PqHandshakeView)
    requires
        !view.failed,
        view.done <= 4,
    ensures
        view.write_turn() <==> pq_step(view.initiator, view.done) == HandshakeStep::SendEmpty
            || pq_step(view.initiator, view.done) == HandshakeStep::SendIdentity,
        view.read_turn() <==> pq_step(view.initiator, view.done) == HandshakeStep::RecvEmpty
            || pq_step(view.initiator, view.done) == HandshakeStep::RecvIdentity,
        view.finished() <==> pq_step(view.initiator, view.done) == HandshakeStep::Finish,
        pq_step(view.initiator, if view.initiator { 2 } else { 1 }) == HandshakeStep::SendIdentity,
        pq_step(view.initiator, if view.initiator { 1 } else { 2 }) == HandshakeStep::RecvIdentity,
{
}

/// An honest remote is accepted: where the sender's identity has signed its
/// static key, and the receiver takes in what the sender sends as its identity,
/// the receiver knows that identity and finds the static key authentic.
pub proof fn lemma_honest_remote_is_accepted(
    sender: PqStateView,
    receiver: PqStateView,
    sender_static: Seq<u8>,
)
    requires
        sender.identity.verifies(pq_static_message(sender_static), sender.signature),
        sender.signature.len() > 0,
        valid_identity(sender.identity),
        readable_payload(identity_payload(sender.identity, sender.signature)),
    ensures
        ({
            let sent = identity_payload(sender.identity, sender.signature);
            let got = parsed_payload(payload_encoding(sent));
            &&& got == Some(sent)
            &&& decoded_identity(sent.identity_key) == Some(sender.identity)
            &&& receiver.with_identity(sender.identity, sent.identity_sig).remote_key == Some(
                sender.identity,
            )
            &&& receiver.with_identity(sender.identity, sent.identity_sig).authenticates(
                sender_static,
            )
        }),
{
    lemma_payload_round_trip(identity_payload(sender.identity, sender.signature));
}

/// Every message of the handshake is short: framed, it takes less than four
/// kilobytes, whether it carries an identity or not. So an identity that was
/// set up by [`crate::config::PqConfig::new`] fits every message.
pub proof fn lemma_messages_are_short(identity: IdentityView, signature: Seq<u8>, message: nat)
    requires
        valid_identity(identity),
        signature.len() <= SIGNATURE_LENGTH,
    ensures
        U16_LENGTH + payload_encoding(identity_payload(identity, signature)).len() + pq_overhead(
            message,
        ) < 4096,
        U16_LENGTH + payload_encoding(empty_payload()).len() + pq_overhead(message) < 4096,
{
    lemma_field_sizes(identity_payload(identity, signature));
    lemma_field_sizes(empty_payload());
}

} // verus!
