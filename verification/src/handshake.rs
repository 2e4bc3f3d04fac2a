//! The classic `XX` handshake.
//!
//! Three messages, with the identities of the two sides in the second and the
//! third:
//!
//! ```text
//! ->  e
//! <-  e, ee, s, es   (responder identity)
//! ->  s, se          (initiator identity)
//! ```

use vstd::prelude::*;
use vstd::utf8::encode_utf8;
use bytes::BytesMut;
use crate::buf::buffer;
use crate::certhash::all_listed;
use crate::certhash::insert;
use crate::certhash::is_subset;
use crate::certhash::lemma_listed;
use crate::certhash::listed;
use crate::certhash::multihash_bytes;
use crate::certhash::multihash_read;
use crate::certhash::no_duplicates;
use crate::certhash::Certhash;
use crate::certhash::CerthashView;
use crate::classic_session::classic_overhead;
use crate::classic_session::classic_handshake;
use crate::classic_session::classic_transport;
use crate::classic_session::classic_transport_keys;
use crate::classic_session::classic_written;
use crate::classic_session::ClassicHandshakeSession;
use crate::classic_session::ClassicHandshakeView;
use crate::classic_session::CLASSIC_EXTRA_ENCRYPT_SPACE;
use crate::classic_session::CLASSIC_MESSAGES;
use crate::error::Error;
use crate::error::IoErrorKind;
use crate::fndsa::signature_verifies;
use crate::framed::Codec;
use crate::framed_pq::encrypts;
use crate::framed_pq::U16_LENGTH;
use crate::handshake_pq::expect_empty;
use crate::handshake_pq::key_view;
use crate::handshake_pq::received_empty;
use crate::handshake_pq::recv;
use crate::handshake_pq::sig_view;
use crate::handshake_pq::Arrival;
use crate::handshake_pq::HandshakeStep;
use crate::identity::decoded_identity;
use crate::identity::libp2p_verifies;
use crate::identity::valid_identity;
use crate::identity::IdentityPublicKey;
use crate::identity::IdentityView;
use crate::output::Output;
use crate::output_io::OutputIo;
use crate::payload::empty_payload;
use crate::payload::lemma_payload_round_trip;
use crate::payload::parsed_payload;
use crate::payload::payload_encoding;
use crate::payload::readable_payload;
use crate::payload::NoiseExtensions;
use crate::payload::NoiseHandshakePayload;
use crate::payload::PayloadView;
use crate::pq_session::fresh_transport;
use crate::pq_session::TransportView;
use crate::pq_session::MAX_MESSAGE_LENGTH;
use crate::protocol::classic_static_message;
use crate::protocol::concat_domain;
use crate::protocol::KeypairIdentity;
use crate::protocol::STATIC_KEY_DOMAIN;

verus! {

/// What a side does about a message: the initiator sends the first one, which
/// carries no identity, and the sides take turns.
pub open spec fn classic_step(initiator: bool, message: nat) -> HandshakeStep {
    if message >= 3 {
        HandshakeStep::Finish
    } else if (message % 2 == 0) == initiator {
        if message == 0 {
            HandshakeStep::SendEmpty
        } else {
            HandshakeStep::SendIdentity
        }
    } else {
        if message == 0 {
            HandshakeStep::RecvEmpty
        } else {
            HandshakeStep::RecvIdentity
        }
    }
}

/// A handshake in progress. `I` is the type of the link that carries the
/// messages.
pub struct State<I> {
    io: I,
    identity: KeypairIdentity,
    is_initiator: bool,
    dh_remote_pubkey_sig: Option<Vec<u8>>,
    id_remote_pubkey: Option<IdentityPublicKey>,
    webtransport_certhashes: Option<Vec<Certhash>>,
    remote_certhashes: Option<Vec<Certhash>>,
    done: usize,
}

/// What a side knows of the handshake, apart from the link.
pub struct StateView {
    /// The own identity, and its signature over the own static key.
    pub identity: IdentityView,
    pub signature: Seq<u8>,
    pub initiator: bool,
    /// The remote's signature over its static key, once it has been received.
    pub remote_sig: Option<Seq<u8>>,
    /// The remote's identity, once it has been received.
    pub remote_key: Option<IdentityView>,
    /// The certificate hashes to report, or to insist on.
    pub certhashes: Option<Seq<Certhash>>,
    /// The certificate hashes that the remote has reported.
    pub remote_certhashes: Option<Seq<Certhash>>,
    /// How many messages have been exchanged.
    pub done: nat,
}

/// Hashes that may be absent, by their view.
pub open spec fn certhashes_view(hashes: Option<Vec<Certhash>>) -> Option<Seq<Certhash>> {
    match hashes {
        Some(h) => Some(h@),
        None => None,
    }
}

/// Hashes as the entries of an extension.
pub open spec fn entries(hashes: Seq<Certhash>) -> Seq<Seq<u8>> {
    hashes.map_values(|h: Certhash| multihash_bytes(h@))
}

/// A hash is what one of the entries of an extension reads as.
pub open spec fn reported(entries: Seq<Seq<u8>>, hash: CerthashView) -> bool {
    exists|i: int| 0 <= i < entries.len() && multihash_read(#[trigger] entries[i]) == Some(hash)
}

/// `hashes` are the readable ones among the entries of an extension, each of
/// them once.
pub open spec fn read_entries(entries: Seq<Seq<u8>>, hashes: Seq<Certhash>) -> bool {
    &&& no_duplicates(hashes)
    &&& forall|h: CerthashView| #[trigger] listed(hashes, h) <==> reported(entries, h)
}

/// The count of messages after one more. It stops at the last message.
pub open spec fn next_done(done: nat) -> nat {
    if done < CLASSIC_MESSAGES {
        done + 1
    } else {
        done
    }
}

impl StateView {
    /// The state after one more message.
    pub open spec fn advanced(self) -> StateView {
        StateView { done: next_done(self.done), ..self }
    }

    /// The payload that carries the own identity. A responder reports its
    /// certificate hashes with it, if it has any.
    pub open spec fn payload(self) -> PayloadView {
        PayloadView {
            identity_key: self.identity.encoding(),
            identity_sig: self.signature,
            extensions: match self.certhashes {
                Some(hashes) if !self.initiator => Some(
                    crate::payload::ExtensionsView {
                        webtransport_certhashes: entries(hashes),
                        stream_muxers: seq![],
                    },
                ),
                _ => None,
            },
        }
    }

    /// `after` is the state once a payload with an identity has been received.
    /// A signature that is empty counts as none; certificate hashes that cannot
    /// be read are passed over.
    pub open spec fn takes_identity(
        self,
        key: IdentityView,
        payload: PayloadView,
        after: StateView,
    ) -> bool {
        &&& after == (StateView {
            remote_key: Some(key),
            remote_sig: if payload.identity_sig.len() > 0 {
                Some(payload.identity_sig)
            } else {
                self.remote_sig
            },
            remote_certhashes: after.remote_certhashes,
            done: next_done(self.done),
            ..self
        })
        &&& match payload.extensions {
            Some(e) => {
                &&& after.remote_certhashes is Some
                &&& read_entries(e.webtransport_certhashes, after.remote_certhashes->0)
            },
            None => after.remote_certhashes == self.remote_certhashes,
        }
    }

    /// The remote has proved to be the identity it claims: the identity signed
    /// the given static key.
    pub open spec fn authenticates(self, remote_static: Seq<u8>) -> bool {
        match (self.remote_key, self.remote_sig) {
            (Some(key), Some(sig)) => key.verifies(classic_static_message(remote_static), sig),
            _ => false,
        }
    }

    /// The handshake can be ended, given the state of the session: all messages
    /// have been exchanged, the remote has proved to be the identity it claims,
    /// and has reported what an initiator insists on. See [`State::finish`].
    pub open spec fn finishes(self, session: ClassicHandshakeView) -> bool {
        &&& session.finished()
        &&& session.remote_static matches Some(key) && key.len() == 32 && self.authenticates(key)
        &&& !self.misses_certhashes()
    }

    /// The certificate hashes that the remote has reported, none where it has
    /// not reported any.
    pub open spec fn reported_certhashes(self) -> Seq<Certhash> {
        match self.remote_certhashes {
            Some(hashes) => hashes,
            None => seq![],
        }
    }

    /// An initiator that insists on certificate hashes has not been told all of
    /// them.
    pub open spec fn misses_certhashes(self) -> bool {
        self.initiator && match self.certhashes {
            Some(expected) => self.remote_certhashes is None || !all_listed(
                expected,
                self.reported_certhashes(),
            ),
            None => false,
        }
    }
}

impl<I> View for State<I> {
    type V = StateView;

    closed spec fn view(&self) -> StateView {
        StateView {
            identity: self.identity.public@,
            signature: self.identity.signature@,
            initiator: self.is_initiator,
            remote_sig: sig_view(self.dh_remote_pubkey_sig),
            remote_key: key_view(self.id_remote_pubkey),
            certhashes: certhashes_view(self.webtransport_certhashes),
            remote_certhashes: certhashes_view(self.remote_certhashes),
            done: self.done as nat,
        }
    }
}

/// The entries of an extension for some hashes.
fn write_entries(hashes: &Vec<Certhash>) -> (r: Vec<Vec<u8>>)
    ensures
        r@.map_values(|v: Vec<u8>| v@) == entries(hashes@),
        r@.len() == hashes@.len(),
        forall|i: int|
            0 <= i < r@.len() ==> multihash_read((#[trigger] r@[i])@) == Some(hashes@[i]@),
        forall|i: int|
            0 <= i < hashes@.len() ==> multihash_read(multihash_bytes((#[trigger] hashes@[i])@))
                == Some(hashes@[i]@),
{
    let mut r: Vec<Vec<u8>> = Vec::new();
    let mut i: usize = 0;
    while i < hashes.len()
        invariant
            i <= hashes@.len(),
            r@.len() == i,
            forall|j: int| 0 <= j < i ==> (#[trigger] r@[j])@ == multihash_bytes(hashes@[j]@),
            forall|j: int| 0 <= j < i ==> multihash_read((#[trigger] r@[j])@) == Some(hashes@[j]@),
            forall|j: int|
                0 <= j < i ==> multihash_read(multihash_bytes((#[trigger] hashes@[j])@)) == Some(
                    hashes@[j]@,
                ),
        decreases hashes@.len() - i,
    {
        r.push(hashes[i].to_bytes());
        i = i + 1;
    }
    assert(r@.map_values(|v: Vec<u8>| v@) =~= entries(hashes@));
    r
}

/// The readable hashes among the entries of an extension.
fn read_all_entries(bytes: &Vec<Vec<u8>>) -> (r: Vec<Certhash>)
    ensures
        read_entries(bytes@.map_values(|v: Vec<u8>| v@), r@),
        forall|i: int, j: int|
            0 <= i < j < r@.len() ==> (#[trigger] r@[i])@ != (#[trigger] r@[j])@,
        forall|i: int|
            0 <= i < r@.len() ==> bytes@.map_values(|v: Vec<u8>| multihash_read(v@)).contains(
                Some((#[trigger] r@[i])@),
            ),
        forall|k: int|
            0 <= k < bytes@.len() ==> (multihash_read((#[trigger] bytes@[k])@) matches Some(hash)
                ==> r@.map_values(|h: Certhash| h@).contains(hash)),
{
    let mut r: Vec<Certhash> = Vec::new();
    let mut i: usize = 0;
    let ghost all = bytes@.map_values(|v: Vec<u8>| v@);
    while i < bytes.len()
        invariant
            i <= bytes@.len(),
            all == bytes@.map_values(|v: Vec<u8>| v@),
            read_entries(all.take(i as int), r@),
        decreases bytes@.len() - i,
    {
        let ghost before = r@;
        let ghost part = all.take(i as int);
        let ghost more = all.take(i + 1);
        let read = Certhash::read(bytes[i].as_slice());
        assert(more[i as int] == bytes@[i as int]@);
        assert forall|h: CerthashView| #[trigger] reported(more, h) <==> reported(part, h)
            || multihash_read(more[i as int]) == Some(h) by {
            if reported(part, h) {
                let k = choose|k: int|
                    0 <= k < part.len() && multihash_read(#[trigger] part[k]) == Some(h);
                assert(multihash_read(more[k]) == Some(h));
            }
            if reported(more, h) {
                let k = choose|k: int|
                    0 <= k < more.len() && multihash_read(#[trigger] more[k]) == Some(h);
                if k < i {
                    assert(multihash_read(part[k]) == Some(h));
                }
            }
        }
        match read {
            Some(hash) => {
                insert(&mut r, hash);
                assert forall|h: CerthashView| #[trigger] listed(r@, h) <==> reported(more, h) by {
                    assert(listed(before, h) <==> reported(part, h));
                }
            },
            None => {
                assert forall|h: CerthashView| #[trigger] listed(r@, h) <==> reported(more, h) by {
                    assert(listed(before, h) <==> reported(part, h));
                }
            },
        }
        i = i + 1;
    }
    assert(all.take(i as int) == all);
    assert forall|i: int| 0 <= i < r@.len() implies bytes@.map_values(
        |v: Vec<u8>| multihash_read(v@),
    ).contains(Some((#[trigger] r@[i])@)) by {
        assert(listed(r@, r@[i]@));
        assert(reported(all, r@[i]@));
        let k = choose|k: int|
            0 <= k < all.len() && multihash_read(#[trigger] all[k]) == Some(r@[i]@);
        assert(bytes@.map_values(|v: Vec<u8>| multihash_read(v@))[k] == Some(r@[i]@));
    }
    assert forall|k: int| 0 <= k < bytes@.len() implies (multihash_read(
        (#[trigger] bytes@[k])@,
    ) matches Some(hash) ==> r@.map_values(|h: Certhash| h@).contains(hash)) by {
        if multihash_read(bytes@[k]@) is Some {
            let hash = multihash_read(bytes@[k]@)->0;
            assert(multihash_read(all[k]) == Some(hash));
            assert(reported(all, hash));
            lemma_listed(r@, hash);
        }
    }
    r
}

impl<I> State<I> {
    /// The link.
    pub closed spec fn link(&self) -> I {
        self.io
    }

    /// A handshake that has not begun.
    pub fn new(
        io: I,
        identity: KeypairIdentity,
        is_initiator: bool,
        webtransport_certhashes: Option<Vec<Certhash>>,
    ) -> (r: State<I>)
        ensures
            r.link() == io,
            r@ == (StateView {
                identity: identity.public@,
                signature: identity.signature@,
                initiator: is_initiator,
                remote_sig: None,
                remote_key: None,
                certhashes: certhashes_view(webtransport_certhashes),
                remote_certhashes: None,
                done: 0,
            }),
    {
        State {
            io,
            identity,
            is_initiator,
            dh_remote_pubkey_sig: None,
            id_remote_pubkey: None,
            webtransport_certhashes,
            remote_certhashes: None,
            done: 0,
        }
    }

    /// What to do next.
    pub fn next_step(&self) -> (r: HandshakeStep)
        ensures
            r == classic_step(self@.initiator, self@.done),
            self@.initiator && self@.done == 0 ==> r == HandshakeStep::SendEmpty,
            self@.initiator && self@.done == 1 ==> r == HandshakeStep::RecvIdentity,
            self@.initiator && self@.done == 2 ==> r == HandshakeStep::SendIdentity,
            !self@.initiator && self@.done == 0 ==> r == HandshakeStep::RecvEmpty,
            !self@.initiator && self@.done == 1 ==> r == HandshakeStep::SendIdentity,
            !self@.initiator && self@.done == 2 ==> r == HandshakeStep::RecvIdentity,
            self@.done >= 3 ==> r == HandshakeStep::Finish,
    {
        match (self.is_initiator, self.done) {
            (true, 0) => HandshakeStep::SendEmpty,
            (true, 1) => HandshakeStep::RecvIdentity,
            (true, 2) => HandshakeStep::SendIdentity,
            (false, 0) => HandshakeStep::RecvEmpty,
            (false, 1) => HandshakeStep::SendIdentity,
            (false, 2) => HandshakeStep::RecvIdentity,
            _ => HandshakeStep::Finish,
        }
    }

    /// The link, to be driven.
    pub fn link_mut(&mut self) -> (r: &mut I)
        ensures
            *r == old(self).link(),
            final(self).link() == *final(r),
            final(self)@ == old(self)@,
    {
        &mut self.io
    }

    /// Puts another link in place of the present one.
    pub fn with_link<J>(self, io: J) -> (r: (I, State<J>))
        ensures
            r.0 == self.link(),
            r.1.link() == io,
            r.1@ == self@,
    {
        (
            self.io,
            State {
                io,
                identity: self.identity,
                is_initiator: self.is_initiator,
                dh_remote_pubkey_sig: self.dh_remote_pubkey_sig,
                id_remote_pubkey: self.id_remote_pubkey,
                webtransport_certhashes: self.webtransport_certhashes,
                remote_certhashes: self.remote_certhashes,
                done: self.done,
            },
        )
    }

    /// The payload that carries the own identity.
    pub fn identity_payload(&self) -> (r: NoiseHandshakePayload)
        ensures
            r@ == self@.payload(),
            r.identity_key@ == match self@.identity {
                IdentityView::Libp2p(key) => key,
                IdentityView::FnDsa(key) => seq![0x08u8, 0x04u8, 0x12u8, 0x81u8, 0x07u8] + key,
            },
            r.identity_sig@ == self@.signature,
            match (self@.certhashes, r.extensions) {
                (Some(hashes), Some(e)) => {
                    &&& !self@.initiator
                    &&& e.stream_muxers@.len() == 0
                    &&& e.webtransport_certhashes@.len() == hashes.len()
                    &&& forall|i: int|
                        0 <= i < hashes.len() ==> multihash_read(
                            (#[trigger] e.webtransport_certhashes@[i])@,
                        ) == Some(hashes[i]@)
                },
                (Some(_), None) => self@.initiator,
                (None, e) => e is None,
            },
            valid_identity(self@.identity),
            !self@.initiator && self@.certhashes is Some ==> forall|i: int|
                0 <= i < self@.certhashes->0.len() ==> multihash_read(
                    multihash_bytes((#[trigger] self@.certhashes->0[i])@),
                ) == Some(self@.certhashes->0[i]@),
    {
        let mut r = NoiseHandshakePayload {
            identity_key: self.identity.public.encode_protobuf(),
            identity_sig: self.identity.signature.clone(),
            extensions: None,
        };
        // Only a responder reports certificate hashes.
        if !self.is_initiator {
            match &self.webtransport_certhashes {
                Some(hashes) => {
                    let extensions = NoiseExtensions {
                        webtransport_certhashes: write_entries(hashes),
                        stream_muxers: Vec::new(),
                    };
                    assert(extensions@ =~= self@.payload().extensions->0);
                    r.extensions = Some(extensions);
                },
                None => {},
            }
        }
        r
    }

    /// Counts a message. After the last one the count stays as it is.
    fn count(&mut self)
        ensures
            final(self)@ == old(self)@.advanced(),
            final(self).link() == old(self).link(),
    {
        if self.done < CLASSIC_MESSAGES {
            self.done = self.done + 1;
        }
    }

    /// Notes that a message has been sent.
    pub fn sent(&mut self)
        ensures
            final(self)@ == old(self)@.advanced(),
            final(self)@ == (StateView {
                done: if old(self)@.done < 3 {
                    old(self)@.done + 1
                } else {
                    old(self)@.done
                },
                ..old(self)@
            }),
            final(self).link() == old(self).link(),
    {
        self.count();
    }

    /// Takes what came over the link as a message without an identity.
    pub fn recv_empty(&mut self, event: Arrival) -> (r: Result<(), Error>)
        ensures
            received_empty(event, r),
            final(self)@ == if r is Ok {
                old(self)@.advanced()
            } else {
                old(self)@
            },
            match event {
                None => r matches Err(Error::Io(e)) && e.kind == IoErrorKind::UnexpectedEof
                    && e.message@ == "eof"@,
                Some(Err(e)) => r == Err::<(), Error>(Error::Io(e)),
                Some(Ok(p)) => if p.identity_key@.len() == 0 && p.identity_sig@.len() == 0
                    && p.extensions is None {
                    r is Ok
                } else {
                    r matches Err(Error::Io(e)) && e.kind == IoErrorKind::InvalidData && e.message@
                        == "Expected empty payload."@
                },
            },
            final(self)@ == (StateView {
                done: if r is Ok && old(self)@.done < 3 {
                    old(self)@.done + 1
                } else {
                    old(self)@.done
                },
                ..old(self)@
            }),
            final(self).link() == old(self).link(),
    {
        match expect_empty(event) {
            Ok(_) => {
                self.count();
                Ok(())
            },
            Err(e) => Err(e),
        }
    }

    /// Takes what came over the link as a message with the remote's identity.
    pub fn recv_identity(&mut self, event: Arrival) -> (r: Result<(), Error>)
        ensures
            match event {
                None => {
                    &&& r matches Err(Error::Io(e)) && e.says(IoErrorKind::UnexpectedEof, "eof"@)
                    &&& final(self)@ == old(self)@
                },
                Some(Err(e)) => {
                    &&& r == Err::<(), Error>(Error::Io(e))
                    &&& final(self)@ == old(self)@
                },
                Some(Ok(p)) => match decoded_identity(p@.identity_key) {
                    Some(key) => {
                        &&& r is Ok
                        &&& old(self)@.takes_identity(key, p@, final(self)@)
                    },
                    None => {
                        &&& r matches Err(Error::InvalidKey(_))
                        &&& final(self)@ == old(self)@
                    },
                },
            },
            event matches Some(Ok(p)) ==> r is Ok ==> final(self)@ == (StateView {
                remote_key: decoded_identity(p.identity_key@),
                remote_sig: if p.identity_sig@.len() > 0 {
                    Some(p.identity_sig@)
                } else {
                    old(self)@.remote_sig
                },
                remote_certhashes: final(self)@.remote_certhashes,
                done: if old(self)@.done < 3 {
                    old(self)@.done + 1
                } else {
                    old(self)@.done
                },
                ..old(self)@
            }),
            event matches Some(Ok(p)) ==> (r is Ok <==> decoded_identity(p.identity_key@) is Some),
            event matches Some(Ok(p)) ==> r is Ok ==> match p.extensions {
                None => final(self)@.remote_certhashes == old(self)@.remote_certhashes,
                Some(e) => final(self)@.remote_certhashes matches Some(hashes) && {
                    &&& forall|i: int, j: int|
                        0 <= i < j < hashes.len() ==> (#[trigger] hashes[i])@ != (
                        #[trigger] hashes[j])@
                    &&& forall|i: int|
                        0 <= i < hashes.len() ==> e.webtransport_certhashes@.map_values(
                            |v: Vec<u8>| multihash_read(v@),
                        ).contains(Some((#[trigger] hashes[i])@))
                    &&& forall|k: int|
                        0 <= k < e.webtransport_certhashes@.len() ==> (multihash_read(
                            (#[trigger] e.webtransport_certhashes@[k])@,
                        ) matches Some(hash) ==> hashes.map_values(|h: Certhash| h@).contains(hash))
                },
            },
            final(self).link() == old(self).link(),
    {
        let pb = match recv(event) {
            Ok(pb) => pb,
            Err(e) => {
                return Err(e);
            },
        };
        match IdentityPublicKey::try_decode_protobuf(pb.identity_key.as_slice()) {
            Err(e) => Err(Error::InvalidKey(e)),
            Ok(key) => {
                self.id_remote_pubkey = Some(key);
                if pb.identity_sig.len() > 0 {
                    self.dh_remote_pubkey_sig = Some(pb.identity_sig);
                }
                match pb.extensions {
                    Some(e) => {
                        self.remote_certhashes = Some(read_all_entries(&e.webtransport_certhashes));
                    },
                    None => {},
                }
                self.count();
                Ok(())
            },
        }
    }

    /// Checks that the remote's identity has signed its static key, and that it
    /// has reported the certificate hashes that an initiator insists on; hands
    /// out the identity.
    pub fn authenticate(self, remote_static: &[u8]) -> (r: Result<IdentityPublicKey, Error>)
        ensures
            match r {
                Ok(key) => {
                    &&& self@.remote_key == Some(key@)
                    &&& self@.authenticates(remote_static@)
                    &&& !self@.misses_certhashes()
                },
                Err(Error::AuthenticationFailed) => self@.remote_key is None,
                Err(Error::BadSignature) => {
                    &&& self@.remote_key is Some
                    &&& !self@.authenticates(remote_static@)
                },
                Err(Error::UnknownWebTransportCerthashes(expected, received)) => {
                    &&& self@.authenticates(remote_static@)
                    &&& self@.misses_certhashes()
                    &&& self@.certhashes == Some(expected@)
                    &&& self@.reported_certhashes() == received@
                },
                Err(_) => false,
            },
            r is Ok || r matches Err(Error::UnknownWebTransportCerthashes(_, _)) <==> match (
                self@.remote_key,
                self@.remote_sig,
            ) {
                (Some(IdentityView::Libp2p(key)), Some(sig)) => libp2p_verifies(
                    key,
                    encode_utf8("noise-libp2p-static-key:"@) + remote_static@,
                    sig,
                ),
                (Some(IdentityView::FnDsa(key)), Some(sig)) => signature_verifies(
                    key,
                    encode_utf8("noise-libp2p-static-key:"@) + remote_static@,
                    sig,
                ),
                _ => false,
            },
            r matches Err(Error::UnknownWebTransportCerthashes(expected, received)) ==> {
                &&& self@.initiator
                &&& self@.certhashes == Some(expected@)
                &&& match self@.remote_certhashes {
                    Some(hashes) => hashes == received@,
                    None => received@.len() == 0,
                }
                &&& self@.remote_certhashes is None || exists|i: int|
                    0 <= i < expected@.len() && !received@.map_values(
                        |h: Certhash| h@,
                    ).contains((#[trigger] expected@[i])@)
            },
            r is Ok && self@.initiator && self@.certhashes is Some ==> {
                &&& self@.remote_certhashes is Some
                &&& forall|i: int|
                    0 <= i < self@.certhashes->0.len() ==> self@.remote_certhashes->0.map_values(
                        |h: Certhash| h@,
                    ).contains((#[trigger] self@.certhashes->0[i])@)
            },
    {
        let key = match self.id_remote_pubkey {
            Some(key) => key,
            None => {
                return Err(Error::AuthenticationFailed);
            },
        };
        let verifies: bool = match &self.dh_remote_pubkey_sig {
            Some(sig) => key.verify(
                concat_domain(STATIC_KEY_DOMAIN, remote_static).as_slice(),
                sig.as_slice(),
            ),
            None => false,
        };
        if !verifies {
            return Err(Error::BadSignature);
        }
        if self.is_initiator {
            match (self.webtransport_certhashes, self.remote_certhashes) {
                (Some(expected), Some(received)) => {
                    if !is_subset(&expected, &received) {
                        return Err(Error::UnknownWebTransportCerthashes(expected, received));
                    }
                },
                (Some(expected), None) => {
                    return Err(Error::UnknownWebTransportCerthashes(expected, Vec::new()));
                },
                (None, _) => {},
            }
        }
        Ok(key)
    }
}

impl State<Codec<ClassicHandshakeSession>> {
    /// The state of the session.
    pub open spec fn handshake(&self) -> ClassicHandshakeView {
        self.link().handshake()
    }

    /// Sending `item` appends it to `dst` as the next message of the session.
    /// It fails where that message is not this side's to send, or where the
    /// payload is too long for it, and then nothing changes.
    pub open spec fn sends(
        before: Self,
        after: Self,
        item: PayloadView,
        dst_before: Seq<u8>,
        dst_after: Seq<u8>,
        r: Result<(), Error>,
    ) -> bool {
        let clear = payload_encoding(item);
        let room = clear.len() + CLASSIC_EXTRA_ENCRYPT_SPACE as nat;
        let possible = before.handshake().write_turn() && clear.len() + classic_overhead(
            before.handshake().done,
        ) <= MAX_MESSAGE_LENGTH;
        &&& after.link()@.wf()
        &&& match r {
            Ok(_) => {
                &&& possible
                &&& encrypts(
                    before.link()@,
                    after.link()@,
                    clear,
                    room,
                    dst_before,
                    dst_after,
                    Ok(()),
                )
                &&& after@ == before@.advanced()
            },
            Err(Error::Io(e)) => {
                &&& !possible
                &&& encrypts(
                    before.link()@,
                    after.link()@,
                    clear,
                    room,
                    dst_before,
                    dst_after,
                    Err(e),
                )
                &&& after@ == before@
            },
            Err(_) => false,
        }
    }

    /// Sends a payload.
    fn send(&mut self, item: &NoiseHandshakePayload, dst: &mut BytesMut) -> (r: Result<(), Error>)
        requires
            old(self).link()@.wf(),
            buffer(*old(dst)).len() + U16_LENGTH + payload_encoding(item@).len()
                + CLASSIC_EXTRA_ENCRYPT_SPACE <= isize::MAX,
        ensures
            Self::sends(
                *old(self),
                *final(self),
                item@,
                buffer(*old(dst)),
                buffer(*final(dst)),
                r,
            ),
            match r {
                Ok(_) => {
                    let at = buffer(*old(dst)).len() as int;
                    let after = buffer(*final(dst));
                    &&& after.len() >= at + 2
                    &&& after.take(at) == buffer(*old(dst))
                    &&& after[at] * 256 + after[at + 1] == after.len() - at - 2
                    &&& classic_written(
                        old(self).link()@@,
                        payload_encoding(item@),
                        after.skip(at + 2),
                        final(self).link()@@,
                    )
                    &&& classic_handshake(final(self).link()@@).done == classic_handshake(
                        old(self).link()@@,
                    ).done + 1
                    &&& final(self)@ == (StateView {
                        done: if old(self)@.done < 3 {
                            old(self)@.done + 1
                        } else {
                            old(self)@.done
                        },
                        ..old(self)@
                    })
                },
                Err(_) => {
                    &&& buffer(*final(dst)) == buffer(*old(dst))
                    &&& classic_handshake(final(self).link()@@) == classic_handshake(
                        old(self).link()@@,
                    )
                    &&& final(self)@ == old(self)@
                },
            },
    {
        match self.io.encode(item, dst) {
            Ok(_) => {
                self.count();
                Ok(())
            },
            Err(e) => Err(Error::Io(e)),
        }
    }

    /// Sends a message without an identity.
    pub fn send_empty(&mut self, dst: &mut BytesMut) -> (r: Result<(), Error>)
        requires
            old(self).link()@.wf(),
            buffer(*old(dst)).len() + U16_LENGTH + CLASSIC_EXTRA_ENCRYPT_SPACE <= isize::MAX,
        ensures
            Self::sends(
                *old(self),
                *final(self),
                empty_payload(),
                buffer(*old(dst)),
                buffer(*final(dst)),
                r,
            ),
            match r {
                Ok(_) => {
                    let at = buffer(*old(dst)).len() as int;
                    let after = buffer(*final(dst));
                    &&& after.len() >= at + 2
                    &&& after.take(at) == buffer(*old(dst))
                    &&& after[at] * 256 + after[at + 1] == after.len() - at - 2
                    &&& classic_written(
                        old(self).link()@@,
                        Seq::<u8>::empty(),
                        after.skip(at + 2),
                        final(self).link()@@,
                    )
                    &&& classic_handshake(final(self).link()@@).done == classic_handshake(
                        old(self).link()@@,
                    ).done + 1
                    &&& final(self)@ == (StateView {
                        done: if old(self)@.done < 3 {
                            old(self)@.done + 1
                        } else {
                            old(self)@.done
                        },
                        ..old(self)@
                    })
                },
                Err(_) => {
                    &&& buffer(*final(dst)) == buffer(*old(dst))
                    &&& classic_handshake(final(self).link()@@) == classic_handshake(
                        old(self).link()@@,
                    )
                    &&& final(self)@ == old(self)@
                },
            },
    {
        proof {
            crate::payload::lemma_empty_payload(empty_payload());
        }
        self.send(&NoiseHandshakePayload::default(), dst)
    }

    /// Sends a message with the own identity.
    pub fn send_identity(&mut self, dst: &mut BytesMut) -> (r: Result<(), Error>)
        requires
            old(self).link()@.wf(),
            buffer(*old(dst)).len() + U16_LENGTH + payload_encoding(old(self)@.payload()).len()
                + CLASSIC_EXTRA_ENCRYPT_SPACE <= isize::MAX,
        ensures
            Self::sends(
                *old(self),
                *final(self),
                old(self)@.payload(),
                buffer(*old(dst)),
                buffer(*final(dst)),
                r,
            ),
            match r {
                Ok(_) => {
                    let at = buffer(*old(dst)).len() as int;
                    let after = buffer(*final(dst));
                    &&& after.len() >= at + 2
                    &&& after.take(at) == buffer(*old(dst))
                    &&& after[at] * 256 + after[at + 1] == after.len() - at - 2
                    &&& classic_written(
                        old(self).link()@@,
                        payload_encoding(old(self)@.payload()),
                        after.skip(at + 2),
                        final(self).link()@@,
                    )
                    &&& classic_handshake(final(self).link()@@).done == classic_handshake(
                        old(self).link()@@,
                    ).done + 1
                    &&& final(self)@ == (StateView {
                        done: if old(self)@.done < 3 {
                            old(self)@.done + 1
                        } else {
                            old(self)@.done
                        },
                        ..old(self)@
                    })
                },
                Err(_) => {
                    &&& buffer(*final(dst)) == buffer(*old(dst))
                    &&& classic_handshake(final(self).link()@@) == classic_handshake(
                        old(self).link()@@,
                    )
                    &&& final(self)@ == old(self)@
                },
            },
    {
        let item = self.identity_payload();
        self.send(&item, dst)
    }

    /// Ends the handshake: a session for the time after it, with a remote that
    /// has proved to be the identity that is handed out with it.
    pub fn finish(self) -> (r: Result<(IdentityPublicKey, Output<OutputIo>), Error>)
        requires
            self.link()@.wf(),
        ensures
            r is Ok <==> self@.finishes(self.handshake()),
            r is Ok ==> {
                let session = classic_handshake(self.link()@@);
                &&& session.done == 3
                &&& match (session.remote_static, self@.remote_key, self@.remote_sig) {
                    (Some(remote), Some(IdentityView::Libp2p(key)), Some(sig)) => libp2p_verifies(
                        key,
                        encode_utf8("noise-libp2p-static-key:"@) + remote,
                        sig,
                    ),
                    (Some(remote), Some(IdentityView::FnDsa(key)), Some(sig)) => signature_verifies(
                        key,
                        encode_utf8("noise-libp2p-static-key:"@) + remote,
                        sig,
                    ),
                    _ => false,
                }
            },
            r matches Ok((key, output)) ==> {
                &&& self@.remote_key == Some(key@)
                &&& output.received().len() == 0 && output.buffered().len() == 0
                &&& output.link() matches OutputIo::Classic(codec) && classic_transport(codec@@)
                    == if classic_handshake(self.link()@@).initiator {
                    TransportView {
                        seal_key: classic_transport_keys(self.link()@@).0,
                        sealed: 0,
                        open_key: classic_transport_keys(self.link()@@).1,
                        opened: 0,
                    }
                } else {
                    TransportView {
                        seal_key: classic_transport_keys(self.link()@@).1,
                        sealed: 0,
                        open_key: classic_transport_keys(self.link()@@).0,
                        opened: 0,
                    }
                }
                &&& self@.initiator && self@.certhashes is Some ==> {
                    &&& self@.remote_certhashes is Some
                    &&& forall|i: int|
                        0 <= i < self@.certhashes->0.len()
                            ==> self@.remote_certhashes->0.map_values(
                            |h: Certhash| h@,
                        ).contains((#[trigger] self@.certhashes->0[i])@)
                }
            },
            match r {
                Ok((key, output)) => {
                    &&& self.handshake().finished()
                    &&& self.handshake().remote_static matches Some(k) && self@.authenticates(k)
                    &&& !self@.misses_certhashes()
                    &&& self@.remote_key == Some(key@)
                    &&& output.link() is Classic
                    &&& output.link().wf()
                    &&& output.link().transport() == fresh_transport(
                        classic_transport_keys(self.link()@@),
                        self.handshake().initiator,
                    )
                    &&& output.received() == Seq::<u8>::empty()
                    &&& output.buffered() == Seq::<u8>::empty()
                },
                Err(Error::Io(e)) => {
                    &&& self.handshake().remote_static is None
                    &&& e.says(
                        IoErrorKind::Other,
                        "expect key to always be present at end of XX session"@,
                    )
                },
                Err(Error::InvalidLength) => {
                    self.handshake().remote_static matches Some(k) && k.len() != 32
                },
                Err(Error::Noise(_)) => {
                    &&& self.handshake().remote_static matches Some(k) && k.len() == 32
                    &&& !self.handshake().finished()
                },
                Err(Error::AuthenticationFailed) => {
                    &&& self.handshake().finished()
                    &&& self@.remote_key is None
                },
                Err(Error::BadSignature) => {
                    &&& self.handshake().finished()
                    &&& self.handshake().remote_static matches Some(k) && !self@.authenticates(k)
                    &&& self@.remote_key is Some
                },
                Err(Error::UnknownWebTransportCerthashes(expected, received)) => {
                    &&& self.handshake().finished()
                    &&& self.handshake().remote_static matches Some(k) && self@.authenticates(k)
                    &&& self@.misses_certhashes()
                    &&& self@.certhashes == Some(expected@)
                    &&& self@.reported_certhashes() == received@
                },
                Err(_) => false,
            },
    {
        let (codec, state) = self.with_link(());
        match codec.into_transport() {
            Err(e) => Err(e),
            Ok((remote_static, transport)) => match state.authenticate(remote_static.as_slice()) {
                Err(e) => Err(e),
                Ok(key) => Ok((key, Output::new(OutputIo::Classic(transport)))),
            },
        }
    }
}

/// What each side does about each message: the first message is empty and
/// carry no identity; the responder sends its identity in the second message
/// and in no other, the initiator in the third and in no other.
pub proof fn lemma_classic_steps(message: nat)
    ensures
        classic_step(true, 0) == HandshakeStep::SendEmpty,
        classic_step(true, 1) == HandshakeStep::RecvIdentity,
        classic_step(true, 2) == HandshakeStep::SendIdentity,
        classic_step(false, 0) == HandshakeStep::RecvEmpty,
        classic_step(false, 1) == HandshakeStep::SendIdentity,
        classic_step(false, 2) == HandshakeStep::RecvIdentity,
        message >= 3 ==> classic_step(true, message) == HandshakeStep::Finish,
        message >= 3 ==> classic_step(false, message) == HandshakeStep::Finish,
        classic_step(true, message) == HandshakeStep::SendIdentity <==> message == 2,
        classic_step(false, message) == HandshakeStep::SendIdentity <==> message == 1,
        classic_step(true, message) == HandshakeStep::RecvIdentity <==> message == 1,
        classic_step(false, message) == HandshakeStep::RecvIdentity <==> message == 2,
{
}

/// A remote is authentic just where it has sent an identity and a signature, and
/// the scheme of that identity accepts the signature over the domain followed by
/// the remote's static key.
pub proof fn lemma_classic_authentic(state: StateView, remote_static: Seq<u8>)
    ensures
        state.authenticates(remote_static) <==> match (state.remote_key, state.remote_sig) {
            (Some(IdentityView::Libp2p(key)), Some(sig)) => libp2p_verifies(
                key,
                encode_utf8("noise-libp2p-static-key:"@) + remote_static,
                sig,
            ),
            (Some(IdentityView::FnDsa(key)), Some(sig)) => signature_verifies(
                key,
                encode_utf8("noise-libp2p-static-key:"@) + remote_static,
                sig,
            ),
            _ => false,
        },
{
}

/// What a message with an identity carries: the identity as it is written, the
/// signature, and, of a responder that has certificate hashes and of no other
/// side, an extension with these hashes, each as a multihash, in their order.
pub proof fn lemma_classic_payload(state: StateView)
    ensures
        state.payload().identity_key == state.identity.encoding(),
        state.payload().identity_sig == state.signature,
        state.initiator || state.certhashes is None ==> state.payload().extensions is None,
        !state.initiator && state.certhashes is Some ==> {
            &&& state.payload().extensions is Some
            &&& state.payload().extensions->0.stream_muxers.len() == 0
            &&& state.payload().extensions->0.webtransport_certhashes.len()
                == state.certhashes->0.len()
            &&& forall|i: int|
                0 <= i < state.certhashes->0.len() ==> (
                #[trigger] state.payload().extensions->0.webtransport_certhashes[i])
                    == multihash_bytes(state.certhashes->0[i]@)
        },
        state.done < 3 ==> state.advanced() == (StateView { done: state.done + 1, ..state }),
        state.done >= 3 ==> state.advanced() == state,
{
}

/// What a side says of its session is the state of that session; it can end the
/// handshake just where three messages have been exchanged, the remote's static
/// key is authentic, and no certificate hash is missed.
pub proof fn lemma_classic_side_values(
    side: State<Codec<ClassicHandshakeSession>>,
    state: StateView,
    session: ClassicHandshakeView,
)
    ensures
        side.handshake() == classic_handshake(side.link()@@),
        state.finishes(session) <==> session.done == 3 && session.remote_static is Some
            && session.remote_static->0.len() == 32 && state.authenticates(
            session.remote_static->0,
        ) && !state.misses_certhashes(),
        state.reported_certhashes() == match state.remote_certhashes {
            Some(hashes) => hashes,
            None => Seq::<Certhash>::empty(),
        },
{
}

/// An initiator that insists on certificate hashes, and no other side, misses
/// some just where the remote has reported none at all or not each of them.
pub proof fn lemma_misses_certhashes(state: StateView)
    ensures
        state.misses_certhashes() <==> state.initiator && state.certhashes is Some && (
        state.remote_certhashes is None || exists|i: int|
            0 <= i < state.certhashes->0.len() && !state.remote_certhashes->0.map_values(
                |h: Certhash| h@,
            ).contains((#[trigger] state.certhashes->0[i])@)),
{
    if state.certhashes is Some && state.remote_certhashes is Some {
        let expected = state.certhashes->0;
        let hashes = state.remote_certhashes->0;
        crate::certhash::lemma_all_listed(
            expected,
            hashes,
            CerthashView { code: 0, digest: seq![] },
        );
    }
}

/// The two sides fit each other: whatever the one sends as a message, the other
/// expects as that message.
pub proof fn lemma_classic_sides_fit(initiator: bool, message: nat)
    requires
        message < 3,
    ensures
        classic_step(initiator, message) == HandshakeStep::SendEmpty <==> classic_step(
            !initiator,
            message,
        ) == HandshakeStep::RecvEmpty,
        classic_step(initiator, message) == HandshakeStep::SendIdentity <==> classic_step(
            !initiator,
            message,
        ) == HandshakeStep::RecvIdentity,
{
}

/// A side sends just when the session lets it, and each side sends its identity
/// in one message and receives the other's in one.
pub proof fn lemma_classic_steps_follow_the_session(view: ClassicHandshakeView)
    requires
        view.done <= 3,
    ensures
        view.write_turn() <==> classic_step(view.initiator, view.done) == HandshakeStep::SendEmpty
            || classic_step(view.initiator, view.done) == HandshakeStep::SendIdentity,
        view.read_turn() <==> classic_step(view.initiator, view.done) == HandshakeStep::RecvEmpty
            || classic_step(view.initiator, view.done) == HandshakeStep::RecvIdentity,
        view.finished() <==> classic_step(view.initiator, view.done) == HandshakeStep::Finish,
        classic_step(view.initiator, if view.initiator { 2 } else { 1 })
            == HandshakeStep::SendIdentity,
        classic_step(view.initiator, if view.initiator { 1 } else { 2 })
            == HandshakeStep::RecvIdentity,
{
}

/// An honest remote is accepted: where the sender's identity has signed its
/// static key, and the receiver takes in what the sender sends as its identity,
/// the receiver knows that identity and finds the static key authentic.
pub proof fn lemma_honest_classic_remote_is_accepted(
    sender: StateView,
    receiver: StateView,
    after: StateView,
    sender_static: Seq<u8>,
)
    requires
        sender.identity.verifies(classic_static_message(sender_static), sender.signature),
        sender.signature.len() > 0,
        valid_identity(sender.identity),
        readable_payload(sender.payload()),
        receiver.takes_identity(sender.identity, sender.payload(), after),
    ensures
        parsed_payload(payload_encoding(sender.payload())) == Some(sender.payload()),
        decoded_identity(sender.payload().identity_key) == Some(sender.identity),
        after.remote_key == Some(sender.identity),
        after.authenticates(sender_static),
{
    lemma_payload_round_trip(sender.payload());
}

/// Certificate hashes get across: what an initiator reads of the hashes that a
/// responder reports are just these hashes. It then misses none that it expects
/// if and only if all it expects are among them.
pub proof fn lemma_certhashes_arrive(hashes: Seq<Certhash>, got: Seq<Certhash>)
    requires
        forall|i: int|
            0 <= i < hashes.len() ==> multihash_read(multihash_bytes((#[trigger] hashes[i])@))
                == Some(hashes[i]@),
        read_entries(entries(hashes), got),
    ensures
        forall|h: CerthashView| #[trigger] listed(got, h) <==> listed(hashes, h),
        forall|expected: Seq<Certhash>| #[trigger]
            all_listed(expected, got) <==> all_listed(expected, hashes),
{
    let sent = entries(hashes);
    assert forall|h: CerthashView| #[trigger] listed(got, h) <==> listed(hashes, h) by {
        assert(listed(got, h) <==> reported(sent, h));
        if listed(hashes, h) {
            let i = choose|i: int| 0 <= i < hashes.len() && (#[trigger] hashes[i])@ == h;
            assert(multihash_read(sent[i]) == Some(h));
        }
        if reported(sent, h) {
            let i = choose|i: int|
                0 <= i < sent.len() && multihash_read(#[trigger] sent[i]) == Some(h);
            assert(hashes[i]@ == h);
        }
    }
    assert forall|expected: Seq<Certhash>| #[trigger] all_listed(expected, got) <==> all_listed(
        expected,
        hashes,
    ) by {
        if all_listed(expected, got) {
            assert forall|i: int| 0 <= i < expected.len() implies listed(
                hashes,
                (#[trigger] expected[i])@,
            ) by {
                assert(listed(got, expected[i]@));
            }
        }
        if all_listed(expected, hashes) {
            assert forall|i: int| 0 <= i < expected.len() implies listed(
                got,
                (#[trigger] expected[i])@,
            ) by {
                assert(listed(hashes, expected[i]@));
            }
        }
    }
}

} // verus!
