//! Length-prefixed framing of Noise messages, and the codec that drives a
//! `pqXX` session through it.
//!
//! A Noise message travels as its length, two bytes in big-endian order,
//! followed by the message.

use vstd::prelude::*;
use bytes::Bytes;
use bytes::BytesMut;
use crate::buf::advance;
use crate::buf::buffer;
use crate::buf::buffer_slice;
use crate::buf::frame;
use crate::buf::frame_slice;
use crate::error::Error;
use crate::error::IoError;
use crate::error::IoErrorKind;
use crate::payload::parsed_payload;
use crate::payload::payload_encoding;
use crate::payload::NoiseHandshakePayload;
use crate::payload::PayloadView;
use crate::pq_session::fresh_transport;
use crate::pq_session::handshake_finalize;
use crate::pq_session::handshake_finished;
use crate::pq_session::handshake_overhead;
use crate::pq_session::handshake_remote_static;
use crate::pq_session::handshake_write_turn;
use crate::pq_session::pq_handshake;
use crate::pq_session::pq_message;
use crate::pq_session::pq_open;
use crate::pq_session::pq_overhead;
use crate::pq_session::pq_seal;
use crate::pq_session::pq_transport;
use crate::pq_session::pq_transport_keys;
use crate::pq_session::pq_written;
use crate::pq_session::PqHandshakeSession;
use crate::pq_session::PqHandshakeView;
use crate::pq_session::PqTransportSession;
use crate::pq_session::TransportView;
use crate::pq_session::MAX_MESSAGES;
use crate::pq_session::MAX_MESSAGE_LENGTH;
use crate::pq_session::PQ_PUBLIC_KEY_LENGTH;
use crate::pq_session::TAG_LENGTH;
use crate::session::NoiseSession;

verus! {

/// Length of the prefix in bytes.
pub const U16_LENGTH: usize = 2;

/// The prefix for a message of `len` bytes: `len` modulo 2^16, in big-endian
/// order.
pub open spec fn prefix(len: nat) -> Seq<u8> {
    seq![((len / 256) % 256) as u8, (len % 256) as u8]
}

/// A message with its prefix in front.
pub open spec fn framed(message: Seq<u8>) -> Seq<u8> {
    prefix(message.len()) + message
}

/// The length that the prefix of `bytes` announces.
pub open spec fn announced(bytes: Seq<u8>) -> nat {
    (bytes[0] * 256 + bytes[1]) as nat
}

/// `bytes` starts with a whole frame.
pub open spec fn has_frame(bytes: Seq<u8>) -> bool {
    bytes.len() >= U16_LENGTH && bytes.len() - U16_LENGTH >= announced(bytes)
}

/// The message in the frame that `bytes` starts with.
pub open spec fn first_message(bytes: Seq<u8>) -> Seq<u8> {
    bytes.subrange(U16_LENGTH as int, U16_LENGTH + announced(bytes))
}

/// What follows the frame that `bytes` starts with.
pub open spec fn after_frame(bytes: Seq<u8>) -> Seq<u8> {
    bytes.skip(U16_LENGTH + announced(bytes))
}

/// Appends `src` to `dst` with its length in front.
///
/// The prefix holds the length modulo 2^16: only for messages of at most 65535
/// bytes does it tell where the message ends.
pub fn encode_length_prefixed_pq(src: &[u8], dst: &mut BytesMut)
    requires
        buffer(*old(dst)).len() + U16_LENGTH + src@.len() <= isize::MAX,
    ensures
        buffer(*final(dst)) == buffer(*old(dst)) + framed(src@),
        ({
            let at = buffer(*old(dst)).len() as int;
            let after = buffer(*final(dst));
            &&& after.len() == at + 2 + src@.len()
            &&& after.take(at) == buffer(*old(dst))
            &&& after[at] * 256 + after[at + 1] == src@.len() % 65536
            &&& after.skip(at + 2) == src@
        }),
{
    let len: usize = src.len();
    let high: u8 = ((len / 256) % 256) as u8;
    let low: u8 = (len % 256) as u8;
    let ghost before = buffer(*dst);
    dst.extend_from_slice(&[high, low]);
    dst.extend_from_slice(src);
    assert(before + seq![high, low] + src@ == before + framed(src@));
    assert(buffer(*dst).take(before.len() as int) == before);
    assert(buffer(*dst).skip(before.len() as int + 2) == src@);
}

/// Whether a whole frame has arrived.
pub fn frame_arrived(src: &BytesMut) -> (r: bool)
    ensures
        r == has_frame(buffer(*src)),
        r == (buffer(*src).len() >= 2 && buffer(*src).len() - 2 >= buffer(*src)[0] * 256
            + buffer(*src)[1]),
{
    if src.len() < U16_LENGTH {
        return false;
    }
    let bytes = buffer_slice(src);
    let len: usize = bytes[0] as usize * 256 + bytes[1] as usize;
    src.len() - U16_LENGTH >= len
}

/// Takes the first frame off `src` and returns its message, or returns `None`
/// and leaves `src` as it is where no whole frame has arrived yet.
pub fn decode_length_prefixed_pq(src: &mut BytesMut) -> (r: Option<Bytes>)
    ensures
        match r {
            Some(message) => {
                &&& has_frame(buffer(*old(src)))
                &&& frame(message) == first_message(buffer(*old(src)))
                &&& buffer(*final(src)) == after_frame(buffer(*old(src)))
            },
            None => {
                &&& !has_frame(buffer(*old(src)))
                &&& buffer(*final(src)) == buffer(*old(src))
            },
        },
        ({
            let bytes = buffer(*old(src));
            let len = bytes[0] * 256 + bytes[1];
            match r {
                Some(message) => {
                    &&& bytes.len() >= 2 + len
                    &&& frame(message) == bytes.subrange(2, 2 + len)
                    &&& buffer(*final(src)) == bytes.skip(2 + len)
                },
                None => bytes.len() < 2 || bytes.len() < 2 + len,
            }
        }),
{
    let ghost before = buffer(*src);
    if src.len() < U16_LENGTH {
        return None;
    }
    let bytes = buffer_slice(src);
    let len: usize = bytes[0] as usize * 256 + bytes[1] as usize;
    assert(len == announced(before));
    if src.len() - U16_LENGTH >= len {
        advance(src, U16_LENGTH);
        let message = src.split_to(len).freeze();
        assert(before.skip(2).take(len as int) == first_message(before));
        assert(before.skip(2).skip(len as int) == after_frame(before));
        Some(message)
    } else {
        None
    }
}

/// Reading gives back what writing wrote: the frame made of a message of at
/// most 65535 bytes, followed by anything, is a whole frame, holds exactly that
/// message, and leaves exactly what follows it.
pub proof fn lemma_frame_round_trip(message: Seq<u8>, rest: Seq<u8>)
    requires
        message.len() <= 65535,
    ensures
        has_frame(framed(message) + rest),
        first_message(framed(message) + rest) == message,
        after_frame(framed(message) + rest) == rest,
{
    let bytes = framed(message) + rest;
    assert(announced(bytes) == message.len());
    assert(first_message(bytes) == message);
    assert(after_frame(bytes) == rest);
}

/// The first two bytes of a frame, the first one counting 256 times, are the
/// length of its message, and the message follows as it is.
pub proof fn lemma_prefix_is_the_length(message: Seq<u8>)
    requires
        message.len() <= 65535,
    ensures
        framed(message).len() == 2 + message.len(),
        framed(message)[0] * 256 + framed(message)[1] == message.len(),
        framed(message).skip(2) == message,
{
    assert(framed(message).skip(2) == message);
}

/// The length that a reader takes from a prefix is 256 times the first byte and
/// once the second, whatever they are: there is a whole frame just where so many
/// bytes follow, its message is these bytes, and the rest is what follows them.
/// Where there is no whole prefix yet, there is no whole frame.
pub proof fn lemma_length_is_from_the_prefix(first: u8, second: u8, rest: Seq<u8>)
    ensures
        ({
            let bytes = seq![first, second] + rest;
            let len = first * 256 + second;
            &&& has_frame(bytes) <==> rest.len() >= len
            &&& rest.len() >= len ==> first_message(bytes) == rest.take(len)
            &&& rest.len() >= len ==> after_frame(bytes) == rest.skip(len)
        }),
        !has_frame(seq![]),
        !has_frame(seq![first]),
{
    let bytes = seq![first, second] + rest;
    let len = first * 256 + second;
    if rest.len() >= len {
        assert(first_message(bytes) == rest.take(len));
        assert(after_frame(bytes) == rest.skip(len));
    }
}

/// A frame that has arrived only in part is not taken for a whole one.
pub proof fn lemma_partial_frame(message: Seq<u8>, arrived: int)
    requires
        message.len() <= 65535,
        0 <= arrived < framed(message).len(),
    ensures
        !has_frame(framed(message).take(arrived)),
{
    let bytes = framed(message).take(arrived);
    if bytes.len() >= 2 {
        assert(announced(bytes) == message.len());
    }
}

// ---------------------------------------------------------------------------
// Sessions over frames
// ---------------------------------------------------------------------------

/// Room for what a message is longer than its cleartext, key material in
/// handshake messages above all.
pub const EXTRA_ENCRYPT_SPACE: usize = 4096;

/// The message in the frame that was appended to `before` and made it `after`.
pub open spec fn appended_message(before: Seq<u8>, after: Seq<u8>) -> Seq<u8> {
    after.skip(before.len() + U16_LENGTH)
}

/// Writing a cleartext through a session appends one frame with the session's
/// message; where the session fails, nothing is appended.
pub open spec fn encrypts<S: NoiseSession>(
    before: S,
    after: S,
    clear: Seq<u8>,
    room: nat,
    dst_before: Seq<u8>,
    dst_after: Seq<u8>,
    r: Result<(), IoError>,
) -> bool {
    match r {
        Ok(_) => {
            let message = appended_message(dst_before, dst_after);
            &&& dst_after == dst_before + framed(message)
            &&& message.len() <= room
            &&& S::writes(before, after, clear, room, Ok(message))
        },
        Err(e) => dst_after == dst_before && S::writes(before, after, clear, room, Err(e)),
    }
}

/// Writes `cleartext` through `session` and appends the message to `dst` as a
/// frame. `encrypt_buffer` is scratch space, resized to leave `extra` bytes
/// beyond the cleartext.
pub(crate) fn encrypt_into<S: NoiseSession>(
    cleartext: &[u8],
    dst: &mut BytesMut,
    encrypt_buffer: &mut BytesMut,
    session: &mut S,
    extra: usize,
) -> (r: Result<(), IoError>)
    requires
        old(session).can_write(cleartext@.len(), cleartext@.len() + extra as nat),
        buffer(*old(dst)).len() + U16_LENGTH + cleartext@.len() + extra <= isize::MAX,
    ensures
        encrypts(
            *old(session),
            *final(session),
            cleartext@,
            cleartext@.len() + extra as nat,
            buffer(*old(dst)),
            buffer(*final(dst)),
            r,
        ),
        match r {
            Ok(_) => {
                let at = buffer(*old(dst)).len() as int;
                let after = buffer(*final(dst));
                &&& after.len() >= at + 2
                &&& after.take(at) == buffer(*old(dst))
                &&& after[at] * 256 + after[at + 1] == (after.len() - at - 2) % 65536
                &&& S::writes(
                    *old(session),
                    *final(session),
                    cleartext@,
                    cleartext@.len() + extra as nat,
                    Ok(after.skip(at + 2)),
                )
            },
            Err(e) => {
                &&& buffer(*final(dst)) == buffer(*old(dst))
                &&& S::writes(
                    *old(session),
                    *final(session),
                    cleartext@,
                    cleartext@.len() + extra as nat,
                    Err(e),
                )
            },
        },
{
    let ghost before = buffer(*dst);
    encrypt_buffer.resize(cleartext.len() + extra, 0);
    match session.write(cleartext, encrypt_buffer) {
        Ok(n) => {
            let message = vstd::slice::slice_subrange(buffer_slice(encrypt_buffer), 0, n);
            encode_length_prefixed_pq(message, dst);
            assert(appended_message(before, before + framed(message@)) == message@);
            assert(message@ == buffer(*encrypt_buffer).take(n as int));
            Ok(())
        },
        Err(e) => Err(e),
    }
}

/// Writes `cleartext` through `session` and appends the message to `dst` as a
/// frame.
pub fn encrypt_pq<S: NoiseSession>(
    cleartext: &[u8],
    dst: &mut BytesMut,
    encrypt_buffer: &mut BytesMut,
    session: &mut S,
) -> (r: Result<(), IoError>)
    requires
        old(session).can_write(
            cleartext@.len(),
            cleartext@.len() + EXTRA_ENCRYPT_SPACE as nat,
        ),
        buffer(*old(dst)).len() + U16_LENGTH + cleartext@.len() + EXTRA_ENCRYPT_SPACE
            <= isize::MAX,
    ensures
        encrypts(
            *old(session),
            *final(session),
            cleartext@,
            cleartext@.len() + EXTRA_ENCRYPT_SPACE as nat,
            buffer(*old(dst)),
            buffer(*final(dst)),
            r,
        ),
        match r {
            Ok(_) => {
                let at = buffer(*old(dst)).len() as int;
                let after = buffer(*final(dst));
                &&& after.len() >= at + 2
                &&& after.take(at) == buffer(*old(dst))
                &&& after[at] * 256 + after[at + 1] == (after.len() - at - 2) % 65536
                &&& S::writes(
                    *old(session),
                    *final(session),
                    cleartext@,
                    cleartext@.len() + 4096 as nat,
                    Ok(after.skip(at + 2)),
                )
            },
            Err(e) => {
                &&& buffer(*final(dst)) == buffer(*old(dst))
                &&& S::writes(
                    *old(session),
                    *final(session),
                    cleartext@,
                    cleartext@.len() + 4096 as nat,
                    Err(e),
                )
            },
        },
{
    encrypt_into(cleartext, dst, encrypt_buffer, session, EXTRA_ENCRYPT_SPACE)
}

/// Takes the first frame off `ciphertext` and reads its message through
/// `session`. Where no whole frame has arrived yet, nothing happens and `None`
/// is returned.
pub fn decrypt_pq<S: NoiseSession>(ciphertext: &mut BytesMut, session: &mut S) -> (r: Result<
    Option<Bytes>,
    IoError,
>)
    requires
        has_frame(buffer(*old(ciphertext))) ==> old(session).can_read(
            announced(buffer(*old(ciphertext))),
            announced(buffer(*old(ciphertext))),
        ),
    ensures
        ({
            let bytes = buffer(*old(ciphertext));
            let message = first_message(bytes);
            if has_frame(bytes) {
                &&& buffer(*final(ciphertext)) == after_frame(bytes)
                &&& match r {
                    Ok(Some(clear)) => S::reads(
                        *old(session),
                        *final(session),
                        message,
                        message.len(),
                        Ok(frame(clear)),
                    ),
                    Ok(None) => false,
                    Err(e) => S::reads(
                        *old(session),
                        *final(session),
                        message,
                        message.len(),
                        Err(e),
                    ),
                }
            } else {
                &&& r matches Ok(None)
                &&& buffer(*final(ciphertext)) == bytes
                &&& *final(session) == *old(session)
            }
        }),
        ({
            let bytes = buffer(*old(ciphertext));
            let len = bytes[0] * 256 + bytes[1];
            match r {
                Ok(None) => {
                    &&& bytes.len() < 2 || bytes.len() < 2 + len
                    &&& buffer(*final(ciphertext)) == bytes
                    &&& *final(session) == *old(session)
                },
                Ok(Some(clear)) => {
                    &&& bytes.len() >= 2 + len
                    &&& buffer(*final(ciphertext)) == bytes.skip(2 + len)
                    &&& S::reads(
                        *old(session),
                        *final(session),
                        bytes.subrange(2, 2 + len),
                        len as nat,
                        Ok(frame(clear)),
                    )
                },
                Err(e) => {
                    &&& bytes.len() >= 2 + len
                    &&& buffer(*final(ciphertext)) == bytes.skip(2 + len)
                    &&& S::reads(
                        *old(session),
                        *final(session),
                        bytes.subrange(2, 2 + len),
                        len as nat,
                        Err(e),
                    )
                },
            }
        }),
{
    let message = match decode_length_prefixed_pq(ciphertext) {
        Some(message) => message,
        None => {
            return Ok(None);
        },
    };
    let mut decrypt_buffer = BytesMut::zeroed(message.len());
    match session.read(frame_slice(&message), &mut decrypt_buffer) {
        Ok(n) => Ok(Some(decrypt_buffer.split_to(n).freeze())),
        Err(e) => Err(e),
    }
}

/// A codec: a session with the buffers that it works in.
pub struct PqCodec<S> {
    session: S,
    write_buffer: BytesMut,
    encrypt_buffer: BytesMut,
}

impl<S> View for PqCodec<S> {
    type V = S;

    closed spec fn view(&self) -> S {
        self.session
    }
}

impl<S> PqCodec<S> {
    /// A codec for a session.
    pub fn new(session: S) -> (r: PqCodec<S>)
        ensures
            r@ == session,
    {
        PqCodec { session, write_buffer: BytesMut::new(), encrypt_buffer: BytesMut::new() }
    }
}

impl PqCodec<PqHandshakeSession> {
    /// The state of the handshake.
    pub open spec fn handshake(&self) -> PqHandshakeView {
        pq_handshake(self@)
    }

    /// A payload is short enough for the next message, if that is this side's
    /// to send.
    pub open spec fn can_encode(&self, item: PayloadView) -> bool {
        self.handshake().write_turn() ==> payload_encoding(item).len() + pq_overhead(
            self.handshake().done,
        ) <= MAX_MESSAGE_LENGTH
    }

    /// Turns a finished handshake into a session for the time after it, and
    /// hands out the remote's static ML-KEM-768 public key, whose signature is
    /// still to be checked.
    pub fn into_transport(self) -> (r: Result<(Vec<u8>, PqCodec<PqTransportSession>), Error>)
        ensures
            match r {
                Ok((remote_static, codec)) => {
                    &&& self.handshake().finished()
                    &&& self.handshake().remote_static == Some(remote_static@)
                    &&& remote_static@.len() == PQ_PUBLIC_KEY_LENGTH
                    &&& pq_handshake(self@).done == 4 && !pq_handshake(self@).failed
                    &&& pq_handshake(self@).remote_static == Some(remote_static@)
                    &&& pq_transport(codec@) == if pq_handshake(self@).initiator {
                        TransportView {
                            seal_key: pq_transport_keys(self@).0,
                            sealed: 0,
                            open_key: pq_transport_keys(self@).1,
                            opened: 0,
                        }
                    } else {
                        TransportView {
                            seal_key: pq_transport_keys(self@).1,
                            sealed: 0,
                            open_key: pq_transport_keys(self@).0,
                            opened: 0,
                        }
                    }
                    &&& codec.transport() == fresh_transport(
                        pq_transport_keys(self@),
                        self.handshake().initiator,
                    )
                },
                Err(Error::AuthenticationFailed) => self.handshake().remote_static is None,
                Err(Error::PqHandshake(text)) => {
                    &&& self.handshake().remote_static is Some
                    &&& !self.handshake().finished()
                    &&& text@ == "finalize: "@ + "InvalidState"@
                },
                Err(_) => false,
            },
    {
        let remote_static = match handshake_remote_static(&self.session) {
            Some(key) => key,
            None => {
                return Err(Error::AuthenticationFailed);
            },
        };
        match handshake_finalize(self.session) {
            Ok(session) => Ok((remote_static, PqCodec::new(session))),
            Err(e) => Err(Error::PqHandshake("finalize: ".to_owned().concat(e.as_str()))),
        }
    }

    /// Whether a payload is short enough for the next message, if that is this
    /// side's to send.
    pub fn fits(&self, item: &NoiseHandshakePayload) -> (r: bool)
        requires
            payload_encoding(item@).len() <= usize::MAX,
        ensures
            r == self.can_encode(item@),
            r <==> (pq_handshake(self@).write_turn() ==> payload_encoding(item@).len()
                + pq_overhead(pq_handshake(self@).done) <= 65535),
    {
        if !handshake_write_turn(&self.session) {
            return true;
        }
        match handshake_overhead(&self.session) {
            Some(overhead) => overhead <= MAX_MESSAGE_LENGTH && item.get_size()
                <= MAX_MESSAGE_LENGTH - overhead,
            None => true,
        }
    }

    /// Whether all messages of the handshake have been exchanged.
    pub fn is_finished(&self) -> (r: bool)
        ensures
            r == self.handshake().finished(),
            r == (pq_handshake(self@).done == 4 && !pq_handshake(self@).failed),
    {
        handshake_finished(&self.session)
    }

    /// Writes a payload as the next message of the handshake and appends it to
    /// `dst` as a frame.
    pub fn encode(&mut self, item: &NoiseHandshakePayload, dst: &mut BytesMut) -> (r: Result<
        (),
        IoError,
    >)
        requires
            old(self).can_encode(item@),
            buffer(*old(dst)).len() + U16_LENGTH + payload_encoding(item@).len()
                + EXTRA_ENCRYPT_SPACE <= isize::MAX,
        ensures
            r is Ok <==> old(self).handshake().write_turn(),
            encrypts(
                old(self)@,
                final(self)@,
                payload_encoding(item@),
                payload_encoding(item@).len() + EXTRA_ENCRYPT_SPACE as nat,
                buffer(*old(dst)),
                buffer(*final(dst)),
                r,
            ),
            match r {
                Ok(_) => {
                    let at = buffer(*old(dst)).len() as int;
                    let after = buffer(*final(dst));
                    let before = pq_handshake(old(self)@);
                    &&& after.len() >= at + 2
                    &&& after.take(at) == buffer(*old(dst))
                    &&& after[at] * 256 + after[at + 1] == after.len() - at - 2
                    &&& pq_written(old(self)@, payload_encoding(item@), after.skip(at + 2))
                    &&& pq_handshake(final(self)@) == (PqHandshakeView {
                        done: before.done + 1,
                        ..before
                    })
                },
                Err(_) => {
                    &&& buffer(*final(dst)) == buffer(*old(dst))
                    &&& pq_handshake(final(self)@) == pq_handshake(old(self)@)
                },
            },
    {
        self.write_buffer.resize(0, 0);
        assert(buffer(self.write_buffer) == Seq::<u8>::empty());
        item.write_message(&mut self.write_buffer);
        assert(buffer(self.write_buffer) == payload_encoding(item@));
        encrypt_pq(
            buffer_slice(&self.write_buffer),
            dst,
            &mut self.encrypt_buffer,
            &mut self.session,
        )
    }

    /// Takes the first frame off `src` and reads it as the remote's next
    /// message of the handshake. Where no whole frame has arrived yet, nothing
    /// happens and `None` is returned.
    pub fn decode(&mut self, src: &mut BytesMut) -> (r: Result<
        Option<NoiseHandshakePayload>,
        IoError,
    >)
        requires
            has_frame(buffer(*old(src))) ==> !old(self).handshake().finished(),
        ensures
            ({
                let bytes = buffer(*old(src));
                let message = first_message(bytes);
                let got = pq_message(old(self)@, message);
                if !has_frame(bytes) {
                    &&& r matches Ok(None)
                    &&& buffer(*final(src)) == bytes
                    &&& final(self)@ == old(self)@
                } else {
                    &&& buffer(*final(src)) == after_frame(bytes)
                    &&& match r {
                        Ok(Some(item)) => {
                            &&& got matches Some(m) && parsed_payload(m.payload) == Some(item@)
                            &&& PqHandshakeSession::reads(
                                old(self)@,
                                final(self)@,
                                message,
                                message.len(),
                                Ok(got->0.payload),
                            )
                        },
                        Ok(None) => false,
                        Err(e) => {
                            ||| PqHandshakeSession::reads(
                                old(self)@,
                                final(self)@,
                                message,
                                message.len(),
                                Err(e),
                            )
                            ||| {
                                &&& got matches Some(m) && parsed_payload(m.payload) is None
                                &&& PqHandshakeSession::reads(
                                    old(self)@,
                                    final(self)@,
                                    message,
                                    message.len(),
                                    Ok(got->0.payload),
                                )
                                &&& e.says(
                                    IoErrorKind::InvalidData,
                                    "Failed decoding handshake payload"@,
                                )
                            }
                        },
                    }
                }
            }),
            ({
                let bytes = buffer(*old(src));
                let len = bytes[0] * 256 + bytes[1];
                let got = pq_message(old(self)@, bytes.subrange(2, 2 + len));
                match r {
                    Ok(None) => {
                        &&& bytes.len() < 2 || bytes.len() < 2 + len
                        &&& buffer(*final(src)) == bytes
                        &&& final(self)@ == old(self)@
                    },
                    Ok(Some(item)) => {
                        &&& bytes.len() >= 2 + len
                        &&& buffer(*final(src)) == bytes.skip(2 + len)
                        &&& got matches Some(m) && parsed_payload(m.payload) == Some(item@)
                        &&& got matches Some(m) && pq_handshake(final(self)@).remote_static
                            == m.remote_static
                        &&& pq_handshake(final(self)@).done == pq_handshake(old(self)@).done + 1
                    },
                    Err(e) => {
                        &&& bytes.len() >= 2 + len
                        &&& buffer(*final(src)) == bytes.skip(2 + len)
                        &&& e.kind == IoErrorKind::InvalidData
                        &&& pq_handshake(old(self)@).read_turn() && len >= pq_overhead(
                            pq_handshake(old(self)@).done,
                        ) ==> match got {
                            Some(m) => parsed_payload(m.payload) is None,
                            None => true,
                        }
                    },
                }
            }),
    {
        match decrypt_pq(src, &mut self.session) {
            Ok(Some(cleartext)) => match NoiseHandshakePayload::from_reader(
                frame_slice(&cleartext),
            ) {
                Ok(item) => Ok(Some(item)),
                Err(_) => Err(
                    IoError::new(
                        IoErrorKind::InvalidData,
                        "Failed decoding handshake payload".to_owned(),
                    ),
                ),
            },
            Ok(None) => Ok(None),
            Err(e) => Err(e),
        }
    }
}

impl PqCodec<PqTransportSession> {
    /// The state of the session.
    pub open spec fn transport(&self) -> TransportView {
        pq_transport(self@)
    }

    /// Writes `item` as a message and appends it to `dst` as a frame.
    pub fn encode(&mut self, item: &[u8], dst: &mut BytesMut) -> (r: Result<(), IoError>)
        requires
            item@.len() + TAG_LENGTH <= MAX_MESSAGE_LENGTH,
            buffer(*old(dst)).len() + U16_LENGTH + item@.len() + EXTRA_ENCRYPT_SPACE
                <= isize::MAX,
        ensures
            ({
                let before = old(self).transport();
                match r {
                    Ok(_) => {
                        let message = pq_seal(before.seal_key, before.sealed, item@);
                        &&& before.sealed < MAX_MESSAGES
                        &&& buffer(*final(dst)) == buffer(*old(dst)) + encoded_item(before, item@)
                        &&& message.len() == item@.len() + TAG_LENGTH
                        &&& promised(before, item@)
                        &&& final(self).transport() == after_seal(before)
                    },
                    Err(e) => {
                        &&& before.sealed >= MAX_MESSAGES
                        &&& e.says(IoErrorKind::InvalidData, "Cipher(NonceOverflow)"@)
                        &&& buffer(*final(dst)) == buffer(*old(dst))
                        &&& final(self).transport() == before
                    },
                }
            }),
            match r {
                Ok(_) => {
                    let at = buffer(*old(dst)).len() as int;
                    let after = buffer(*final(dst));
                    let before = pq_transport(old(self)@);
                    &&& after.len() == at + 2 + item@.len() + 16
                    &&& after.take(at) == buffer(*old(dst))
                    &&& after[at] * 256 + after[at + 1] == item@.len() + 16
                    &&& after.skip(at + 2) == pq_seal(before.seal_key, before.sealed, item@)
                    &&& pq_open(before.seal_key, before.sealed, after.skip(at + 2)) == Some(item@)
                    &&& pq_transport(final(self)@) == (TransportView {
                        sealed: before.sealed + 1,
                        ..before
                    })
                },
                Err(_) => pq_transport(old(self)@).sealed >= 0x1_0000_0000_0000_0000,
            },
    {
        encrypt_pq(item, dst, &mut self.encrypt_buffer, &mut self.session)
    }

    /// Takes the first frame off `src` and reads its message. Where no whole
    /// frame has arrived yet, nothing happens and `None` is returned.
    pub fn decode(&mut self, src: &mut BytesMut) -> (r: Result<Option<Bytes>, IoError>)
        ensures
            ({
                let before = old(self).transport();
                let bytes = buffer(*old(src));
                let message = first_message(bytes);
                let got = pq_open(before.open_key, before.opened, message);
                if !has_frame(bytes) {
                    &&& r matches Ok(None)
                    &&& buffer(*final(src)) == bytes
                    &&& final(self)@ == old(self)@
                } else {
                    &&& buffer(*final(src)) == after_frame(bytes)
                    &&& match r {
                        Ok(Some(clear)) => {
                            &&& decodes_item(before, bytes)
                            &&& got == Some(frame(clear))
                            &&& frame(clear).len() == message.len() - TAG_LENGTH
                            &&& final(self).transport() == after_open(before)
                        },
                        Ok(None) => false,
                        Err(e) => {
                            &&& final(self).transport() == before
                            &&& if message.len() < TAG_LENGTH {
                                e.says(IoErrorKind::InvalidData, "TooShort"@)
                            } else if before.opened >= MAX_MESSAGES {
                                e.says(IoErrorKind::InvalidData, "Cipher(NonceOverflow)"@)
                            } else {
                                &&& got is None
                                &&& e.says(IoErrorKind::InvalidData, "Cipher(Decrypt)"@)
                            }
                        },
                    }
                }
            }),
            ({
                let before = pq_transport(old(self)@);
                let bytes = buffer(*old(src));
                let len = bytes[0] * 256 + bytes[1];
                let got = pq_open(before.open_key, before.opened, bytes.subrange(2, 2 + len));
                match r {
                    Ok(None) => bytes.len() < 2 || bytes.len() < 2 + len,
                    Ok(Some(clear)) => {
                        &&& bytes.len() >= 2 + len
                        &&& buffer(*final(src)) == bytes.skip(2 + len)
                        &&& got == Some(frame(clear))
                        &&& pq_transport(final(self)@) == (TransportView {
                            opened: before.opened + 1,
                            ..before
                        })
                    },
                    Err(_) => {
                        &&& bytes.len() >= 2 + len
                        &&& buffer(*final(src)) == bytes.skip(2 + len)
                        &&& len < 16 || before.opened >= 0x1_0000_0000_0000_0000 || got is None
                        &&& pq_transport(final(self)@) == before
                    },
                }
            }),
    {
        decrypt_pq(src, &mut self.session)
    }
}

// ---------------------------------------------------------------------------
// Both ends of a session
// ---------------------------------------------------------------------------

/// The state of a session after one more message has been sent.
pub open spec fn after_seal(t: TransportView) -> TransportView {
    TransportView { sealed: t.sealed + 1, ..t }
}

/// The state of a session after one more message has been received.
pub open spec fn after_open(t: TransportView) -> TransportView {
    TransportView { opened: t.opened + 1, ..t }
}

/// What encoding one item appends: see [`PqCodec::encode`].
pub open spec fn encoded_item(t: TransportView, item: Seq<u8>) -> Seq<u8> {
    framed(pq_seal(t.seal_key, t.sealed, item))
}

/// What a successful encoding of an item promises of the message: it is no
/// longer than a frame can be, and opens to the item.
pub open spec fn promised(t: TransportView, item: Seq<u8>) -> bool {
    let message = pq_seal(t.seal_key, t.sealed, item);
    &&& t.sealed < MAX_MESSAGES
    &&& TAG_LENGTH <= message.len() <= MAX_MESSAGE_LENGTH
    &&& pq_open(t.seal_key, t.sealed, message) == Some(item)
}

/// A call of [`PqCodec::decode`] would hand out an item.
pub open spec fn decodes_item(t: TransportView, wire: Seq<u8>) -> bool {
    &&& has_frame(wire)
    &&& first_message(wire).len() >= TAG_LENGTH
    &&& t.opened < MAX_MESSAGES
    &&& pq_open(t.open_key, t.opened, first_message(wire)) is Some
}

/// What a codec says of its session is the state of that session; sending counts
/// one more message sent, receiving one more received, and neither changes a
/// key or the other count.
pub proof fn lemma_codec_values(
    handshake: PqCodec<PqHandshakeSession>,
    transport: PqCodec<PqTransportSession>,
    item: PayloadView,
    t: TransportView,
)
    ensures
        handshake.handshake() == pq_handshake(handshake@),
        transport.transport() == pq_transport(transport@),
        handshake.can_encode(item) <==> (pq_handshake(handshake@).write_turn() ==> payload_encoding(
            item,
        ).len() + pq_overhead(pq_handshake(handshake@).done) <= 65535),
        after_seal(t).sealed == t.sealed + 1 && after_seal(t).opened == t.opened,
        after_open(t).opened == t.opened + 1 && after_open(t).sealed == t.sealed,
        after_seal(t).seal_key == t.seal_key && after_seal(t).open_key == t.open_key,
        after_open(t).seal_key == t.seal_key && after_open(t).open_key == t.open_key,
{
}

/// The two ends of a session: what the one seals next is what the other opens
/// next, under the same key.
pub open spec fn paired(sender: TransportView, receiver: TransportView) -> bool {
    sender.seal_key == receiver.open_key && sender.sealed == receiver.opened
}

/// Decoding gives back what encoding wrote: of paired sessions, the receiver
/// decodes the item that the sender encoded, whatever follows it, and they are
/// paired again.
pub proof fn lemma_item_arrives(
    sender: TransportView,
    receiver: TransportView,
    item: Seq<u8>,
    rest: Seq<u8>,
)
    requires
        paired(sender, receiver),
        promised(sender, item),
    ensures
        ({
            let wire = encoded_item(sender, item) + rest;
            &&& decodes_item(receiver, wire)
            &&& pq_open(receiver.open_key, receiver.opened, first_message(wire)) == Some(item)
            &&& after_frame(wire) == rest
            &&& paired(after_seal(sender), after_open(receiver))
        }),
{
    lemma_frame_round_trip(pq_seal(sender.seal_key, sender.sealed, item), rest);
}

/// Two sessions that come out of a handshake with the same keys, one on each
/// side, are paired in both directions.
pub proof fn lemma_fresh_sessions_are_paired(keys: (Seq<u8>, Seq<u8>))
    ensures
        paired(fresh_transport(keys, true), fresh_transport(keys, false)),
        paired(fresh_transport(keys, false), fresh_transport(keys, true)),
{
}

} // verus!
