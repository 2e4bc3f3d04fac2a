//! The codec that drives a classic session through length-prefixed frames.

use vstd::prelude::*;
use bytes::Bytes;
use bytes::BytesMut;
use crate::buf::buffer;
use crate::buf::buffer_slice;
use crate::buf::frame;
use crate::buf::frame_slice;
use crate::classic_session::classic_handshake;
use crate::classic_session::classic_message;
use crate::classic_session::classic_open;
use crate::classic_session::classic_overhead;
use crate::classic_session::classic_seal;
use crate::classic_session::classic_transport;
use crate::classic_session::classic_transport_keys;
use crate::classic_session::classic_written;
use crate::classic_session::ClassicHandshakeSession;
use crate::classic_session::ClassicHandshakeView;
use crate::classic_session::ClassicTransportSession;
use crate::classic_session::CLASSIC_EXTRA_ENCRYPT_SPACE;
use crate::classic_session::CLASSIC_MAX_MESSAGES;
use crate::error::Error;
use crate::error::IoError;
use crate::error::IoErrorKind;
use crate::framed_pq::after_frame;
use crate::framed_pq::after_open;
use crate::framed_pq::after_seal;
use crate::framed_pq::decrypt_pq;
use crate::framed_pq::encrypt_into;
use crate::framed_pq::encrypts;
use crate::framed_pq::first_message;
use crate::framed_pq::framed;
use crate::framed_pq::has_frame;
use crate::framed_pq::U16_LENGTH;
use crate::payload::parsed_payload;
use crate::payload::payload_encoding;
use crate::payload::NoiseHandshakePayload;
use crate::pq_session::fresh_transport;
use crate::pq_session::TransportView;
use crate::pq_session::MAX_MESSAGE_LENGTH;
use crate::pq_session::TAG_LENGTH;
use crate::session::NoiseSession;

verus! {

/// A codec: a session with the buffers that it works in.
pub struct Codec<S> {
    session: S,
    write_buffer: BytesMut,
    encrypt_buffer: BytesMut,
}

impl<S> View for Codec<S> {
    type V = S;

    closed spec fn view(&self) -> S {
        self.session
    }
}

impl<S> Codec<S> {
    /// A codec for a session.
    pub fn new(session: S) -> (r: Codec<S>)
        ensures
            r@ == session,
    {
        Codec { session, write_buffer: BytesMut::new(), encrypt_buffer: BytesMut::new() }
    }
}

impl Codec<ClassicHandshakeSession> {
    /// The state of the handshake.
    pub open spec fn handshake(&self) -> ClassicHandshakeView {
        classic_handshake(self@@)
    }

    /// Whether this side sends the first message.
    pub fn is_initiator(&self) -> (r: bool)
        ensures
            r == self.handshake().initiator,
    {
        self.session.is_initiator()
    }

    /// Turns a finished handshake into a session for the time after it, and
    /// hands out the remote's static public key, whose signature is still to be
    /// checked.
    pub fn into_transport(self) -> (r: Result<(Vec<u8>, Codec<ClassicTransportSession>), Error>)
        requires
            self@.wf(),
        ensures
            match r {
                Ok((remote_static, codec)) => {
                    &&& codec@.wf()
                    &&& self.handshake().finished()
                    &&& self.handshake().remote_static == Some(remote_static@)
                    &&& remote_static@.len() == 32
                    &&& classic_handshake(self@@).done == 3
                    &&& classic_handshake(self@@).remote_static == Some(remote_static@)
                    &&& classic_transport(codec@@) == if classic_handshake(self@@).initiator {
                        TransportView {
                            seal_key: classic_transport_keys(self@@).0,
                            sealed: 0,
                            open_key: classic_transport_keys(self@@).1,
                            opened: 0,
                        }
                    } else {
                        TransportView {
                            seal_key: classic_transport_keys(self@@).1,
                            sealed: 0,
                            open_key: classic_transport_keys(self@@).0,
                            opened: 0,
                        }
                    }
                    &&& codec.transport() == fresh_transport(
                        classic_transport_keys(self@@),
                        self.handshake().initiator,
                    )
                },
                Err(Error::Io(e)) => {
                    &&& self.handshake().remote_static is None
                    &&& e.says(
                        IoErrorKind::Other,
                        "expect key to always be present at end of XX session"@,
                    )
                },
                Err(Error::InvalidLength) => {
                    self.handshake().remote_static matches Some(key) && key.len() != 32
                },
                Err(Error::Noise(_)) => {
                    &&& self.handshake().remote_static matches Some(key) && key.len() == 32
                    &&& !self.handshake().finished()
                },
                Err(_) => false,
            },
    {
        let remote_static = match self.session.remote_static() {
            Some(key) => key,
            None => {
                return Err(
                    Error::Io(
                        IoError::new(
                            IoErrorKind::Other,
                            "expect key to always be present at end of XX session".to_owned(),
                        ),
                    ),
                );
            },
        };
        if remote_static.len() != 32 {
            return Err(Error::InvalidLength);
        }
        match self.session.into_transport() {
            Ok(session) => Ok((remote_static, Codec::new(session))),
            Err(e) => Err(Error::Noise(e)),
        }
    }

    /// Writes a payload as the next message of the handshake and appends it to
    /// `dst` as a frame.
    pub fn encode(&mut self, item: &NoiseHandshakePayload, dst: &mut BytesMut) -> (r: Result<
        (),
        IoError,
    >)
        requires
            old(self)@.wf(),
            buffer(*old(dst)).len() + U16_LENGTH + payload_encoding(item@).len()
                + CLASSIC_EXTRA_ENCRYPT_SPACE <= isize::MAX,
        ensures
            final(self)@.wf(),
            r is Ok <==> old(self).handshake().write_turn() && payload_encoding(item@).len()
                + classic_overhead(old(self).handshake().done) <= MAX_MESSAGE_LENGTH,
            encrypts(
                old(self)@,
                final(self)@,
                payload_encoding(item@),
                payload_encoding(item@).len() + CLASSIC_EXTRA_ENCRYPT_SPACE as nat,
                buffer(*old(dst)),
                buffer(*final(dst)),
                r,
            ),
            match r {
                Ok(_) => {
                    let at = buffer(*old(dst)).len() as int;
                    let after = buffer(*final(dst));
                    let before = classic_handshake(old(self)@@);
                    &&& after.len() >= at + 2
                    &&& after.take(at) == buffer(*old(dst))
                    &&& after[at] * 256 + after[at + 1] == after.len() - at - 2
                    &&& classic_written(
                        old(self)@@,
                        payload_encoding(item@),
                        after.skip(at + 2),
                        final(self)@@,
                    )
                    &&& classic_handshake(final(self)@@) == (ClassicHandshakeView {
                        done: before.done + 1,
                        ..before
                    })
                },
                Err(_) => {
                    &&& buffer(*final(dst)) == buffer(*old(dst))
                    &&& classic_handshake(final(self)@@) == classic_handshake(old(self)@@)
                },
            },
    {
        self.write_buffer.resize(0, 0);
        assert(buffer(self.write_buffer) == Seq::<u8>::empty());
        item.write_message(&mut self.write_buffer);
        assert(buffer(self.write_buffer) == payload_encoding(item@));
        encrypt_into(
            buffer_slice(&self.write_buffer),
            dst,
            &mut self.encrypt_buffer,
            &mut self.session,
            CLASSIC_EXTRA_ENCRYPT_SPACE,
        )
    }

    /// Takes the first frame off `src` and reads it as the remote's next
    /// message of the handshake. Where no whole frame has arrived yet, nothing
    /// happens and `None` is returned.
    pub fn decode(&mut self, src: &mut BytesMut) -> (r: Result<
        Option<NoiseHandshakePayload>,
        IoError,
    >)
        requires
            old(self)@.wf(),
        ensures
            final(self)@.wf(),
            ({
                let bytes = buffer(*old(src));
                let message = first_message(bytes);
                let got = classic_message(old(self)@@, message);
                if !has_frame(bytes) {
                    &&& r matches Ok(None)
                    &&& buffer(*final(src)) == bytes
                    &&& final(self)@ == old(self)@
                } else {
                    &&& buffer(*final(src)) == after_frame(bytes)
                    &&& match r {
                        Ok(Some(item)) => {
                            &&& got is Ok && parsed_payload(got->Ok_0.payload) == Some(item@)
                            &&& ClassicHandshakeSession::reads(
                                old(self)@,
                                final(self)@,
                                message,
                                message.len(),
                                Ok(got->Ok_0.payload),
                            )
                        },
                        Ok(None) => false,
                        Err(e) => {
                            ||| ClassicHandshakeSession::reads(
                                old(self)@,
                                final(self)@,
                                message,
                                message.len(),
                                Err(e),
                            )
                            ||| {
                                &&& got is Ok && parsed_payload(got->Ok_0.payload) is None
                                &&& ClassicHandshakeSession::reads(
                                    old(self)@,
                                    final(self)@,
                                    message,
                                    message.len(),
                                    Ok(got->Ok_0.payload),
                                )
                                &&& e.says(
                                    IoErrorKind::InvalidData,
                                    "Failed decoding handshake payload"@,
                                )
                            }
                        },
                    }
                }
            }),
            ({
                let bytes = buffer(*old(src));
                let len = bytes[0] * 256 + bytes[1];
                let before = classic_handshake(old(self)@@);
                let got = classic_message(old(self)@@, bytes.subrange(2, 2 + len));
                match r {
                    Ok(None) => {
                        &&& bytes.len() < 2 || bytes.len() < 2 + len
                        &&& buffer(*final(src)) == bytes
                        &&& final(self)@ == old(self)@
                    },
                    Ok(Some(item)) => {
                        &&& bytes.len() >= 2 + len
                        &&& buffer(*final(src)) == bytes.skip(2 + len)
                        &&& got is Ok && parsed_payload(got->Ok_0.payload) == Some(item@)
                        &&& classic_handshake(final(self)@@).remote_static
                            == got->Ok_0.remote_static
                        &&& classic_handshake(final(self)@@).done == before.done + 1
                    },
                    Err(e) => {
                        &&& bytes.len() >= 2 + len
                        &&& buffer(*final(src)) == bytes.skip(2 + len)
                        &&& e.kind == IoErrorKind::InvalidData
                        &&& (before.done % 2 == 0) != before.initiator && before.done < 3
                            ==> got is Err || parsed_payload(got->Ok_0.payload) is None
                    },
                }
            }),
    {
        match decrypt_pq(src, &mut self.session) {
            Ok(Some(cleartext)) => match NoiseHandshakePayload::from_reader(
                frame_slice(&cleartext),
            ) {
                Ok(item) => Ok(Some(item)),
                Err(_) => Err(
                    IoError::new(
                        IoErrorKind::InvalidData,
                        "Failed decoding handshake payload".to_owned(),
                    ),
                ),
            },
            Ok(None) => Ok(None),
            Err(e) => Err(e),
        }
    }
}

impl Codec<ClassicTransportSession> {
    /// The state of the session.
    pub open spec fn transport(&self) -> TransportView {
        classic_transport(self@@)
    }

    /// Writes `item` as a message and appends it to `dst` as a frame.
    pub fn encode(&mut self, item: &[u8], dst: &mut BytesMut) -> (r: Result<(), IoError>)
        requires
            old(self)@.wf(),
            buffer(*old(dst)).len() + U16_LENGTH + item@.len() + CLASSIC_EXTRA_ENCRYPT_SPACE
                <= isize::MAX,
        ensures
            final(self)@.wf(),
            ({
                let before = old(self).transport();
                match r {
                    Ok(_) => {
                        let message = classic_seal(before.seal_key, before.sealed, item@);
                        &&& before.sealed < CLASSIC_MAX_MESSAGES
                        &&& item@.len() + TAG_LENGTH <= MAX_MESSAGE_LENGTH
                        &&& buffer(*final(dst)) == buffer(*old(dst)) + framed(message)
                        &&& message.len() == item@.len() + TAG_LENGTH
                        &&& classic_open(before.seal_key, before.sealed, message) == Some(item@)
                        &&& final(self).transport() == after_seal(before)
                    },
                    Err(e) => {
                        &&& if item@.len() + TAG_LENGTH > MAX_MESSAGE_LENGTH {
                            e.says(IoErrorKind::InvalidData, "input error"@)
                        } else {
                            &&& before.sealed >= CLASSIC_MAX_MESSAGES
                            &&& e.says(IoErrorKind::InvalidData, "state error: Exhausted"@)
                        }
                        &&& buffer(*final(dst)) == buffer(*old(dst))
                        &&& final(self).transport() == before
                    },
                }
            }),
            match r {
                Ok(_) => {
                    let at = buffer(*old(dst)).len() as int;
                    let after = buffer(*final(dst));
                    let before = classic_transport(old(self)@@);
                    &&& after.len() == at + 2 + item@.len() + 16
                    &&& after.take(at) == buffer(*old(dst))
                    &&& after[at] * 256 + after[at + 1] == item@.len() + 16
                    &&& after.skip(at + 2) == classic_seal(before.seal_key, before.sealed, item@)
                    &&& classic_open(before.seal_key, before.sealed, after.skip(at + 2)) == Some(
                        item@,
                    )
                    &&& classic_transport(final(self)@@) == (TransportView {
                        sealed: before.sealed + 1,
                        ..before
                    })
                },
                Err(_) => {
                    ||| item@.len() + 16 > 65535
                    ||| classic_transport(old(self)@@).sealed >= 0xffff_ffff_ffff_ffff
                },
            },
    {
        encrypt_into(
            item,
            dst,
            &mut self.encrypt_buffer,
            &mut self.session,
            CLASSIC_EXTRA_ENCRYPT_SPACE,
        )
    }

    /// Takes the first frame off `src` and reads its message. Where no whole
    /// frame has arrived yet, nothing happens and `None` is returned.
    pub fn decode(&mut self, src: &mut BytesMut) -> (r: Result<Option<Bytes>, IoError>)
        requires
            old(self)@.wf(),
        ensures
            final(self)@.wf(),
            ({
                let before = old(self).transport();
                let bytes = buffer(*old(src));
                let message = first_message(bytes);
                let got = classic_open(before.open_key, before.opened, message);
                if !has_frame(bytes) {
                    &&& r matches Ok(None)
                    &&& buffer(*final(src)) == bytes
                    &&& final(self)@ == old(self)@
                } else {
                    &&& buffer(*final(src)) == after_frame(bytes)
                    &&& match r {
                        Ok(Some(clear)) => {
                            &&& message.len() >= TAG_LENGTH
                            &&& before.opened < CLASSIC_MAX_MESSAGES
                            &&& got == Some(frame(clear))
                            &&& frame(clear).len() == message.len() - TAG_LENGTH
                            &&& final(self).transport() == after_open(before)
                        },
                        Ok(None) => false,
                        Err(e) => {
                            &&& final(self).transport() == before
                            &&& if message.len() < TAG_LENGTH {
                                e.says(IoErrorKind::InvalidData, "decrypt error"@)
                            } else if before.opened >= CLASSIC_MAX_MESSAGES {
                                e.says(IoErrorKind::InvalidData, "state error: Exhausted"@)
                            } else {
                                &&& got is None
                                &&& e.says(IoErrorKind::InvalidData, "decrypt error"@)
                            }
                        },
                    }
                }
            }),
            ({
                let before = classic_transport(old(self)@@);
                let bytes = buffer(*old(src));
                let len = bytes[0] * 256 + bytes[1];
                let got = classic_open(before.open_key, before.opened, bytes.subrange(2, 2 + len));
                match r {
                    Ok(None) => bytes.len() < 2 || bytes.len() < 2 + len,
                    Ok(Some(clear)) => {
                        &&& bytes.len() >= 2 + len
                        &&& buffer(*final(src)) == bytes.skip(2 + len)
                        &&& got == Some(frame(clear))
                        &&& classic_transport(final(self)@@) == (TransportView {
                            opened: before.opened + 1,
                            ..before
                        })
                    },
                    Err(_) => {
                        &&& bytes.len() >= 2 + len
                        &&& buffer(*final(src)) == bytes.skip(2 + len)
                        &&& len < 16 || before.opened >= 0xffff_ffff_ffff_ffff || got is None
                        &&& classic_transport(final(self)@@) == before
                    },
                }
            }),
    {
        decrypt_pq(src, &mut self.session)
    }
}

/// What a codec says of its session is the state of that session.
pub proof fn lemma_classic_codec_values(
    handshake: Codec<ClassicHandshakeSession>,
    transport: Codec<ClassicTransportSession>,
)
    ensures
        handshake.handshake() == classic_handshake(handshake@@),
        transport.transport() == classic_transport(transport@@),
{
}

} // verus!
