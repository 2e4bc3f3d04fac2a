//! The codec of an established session, of either kind.

use vstd::prelude::*;
use bytes::Bytes;
use bytes::BytesMut;
use crate::buf::buffer;
use crate::buf::frame;
use crate::classic_session::classic_open;
use crate::classic_session::classic_seal;
use crate::classic_session::classic_transport;
use crate::classic_session::ClassicTransportSession;
use crate::classic_session::CLASSIC_MAX_MESSAGES;
use crate::error::IoError;
use crate::error::IoErrorKind;
use crate::framed::Codec;
use crate::framed_pq::after_frame;
use crate::framed_pq::after_open;
use crate::framed_pq::after_seal;
use crate::framed_pq::first_message;
use crate::framed_pq::framed;
use crate::framed_pq::has_frame;
use crate::framed_pq::lemma_frame_round_trip;
use crate::framed_pq::paired;
use crate::framed_pq::PqCodec;
use crate::framed_pq::EXTRA_ENCRYPT_SPACE;
use crate::framed_pq::U16_LENGTH;
use crate::output::arrivals;
use crate::output::handed_out;
use crate::output::left_over;
use crate::output::lemma_stream_arrives;
use crate::output::polls_when_empty;
use crate::output::sends_when_due;
use crate::output::sent_frames;
use crate::output::taken;
use crate::output::unsent;
use crate::output::ReadEvent;
use crate::output::WriteEvent;
use crate::pq_session::pq_open;
use crate::pq_session::pq_seal;
use crate::pq_session::pq_transport;
use crate::pq_session::PqTransportSession;
use crate::pq_session::TransportView;
use crate::pq_session::MAX_MESSAGES;
use crate::pq_session::MAX_MESSAGE_LENGTH;
use crate::pq_session::TAG_LENGTH;

verus! {

/// The codec that came out of the handshake: the classic one drives `snow`, the
/// post-quantum one drives `clatter`. Both carry frames of bytes.
pub enum OutputIo {
    Classic(Codec<ClassicTransportSession>),
    Pq(PqCodec<PqTransportSession>),
}

impl OutputIo {
    /// The session is valid.
    pub open spec fn wf(&self) -> bool {
        match *self {
            OutputIo::Classic(codec) => codec@.wf(),
            OutputIo::Pq(_) => true,
        }
    }

    /// The state of the session.
    pub open spec fn transport(&self) -> TransportView {
        match *self {
            OutputIo::Classic(codec) => codec.transport(),
            OutputIo::Pq(codec) => codec.transport(),
        }
    }

    /// How many messages the session can carry in each direction.
    pub open spec fn max_messages(&self) -> int {
        match *self {
            OutputIo::Classic(_) => CLASSIC_MAX_MESSAGES as int,
            OutputIo::Pq(_) => MAX_MESSAGES as int,
        }
    }

    /// The message for a cleartext, under a key and a number.
    pub open spec fn seal(&self, key: Seq<u8>, number: nat, clear: Seq<u8>) -> Seq<u8> {
        match *self {
            OutputIo::Classic(_) => classic_seal(key, number, clear),
            OutputIo::Pq(_) => pq_seal(key, number, clear),
        }
    }

    /// The cleartext of a message, under a key and a number.
    pub open spec fn open(&self, key: Seq<u8>, number: nat, message: Seq<u8>) -> Option<Seq<u8>> {
        match *self {
            OutputIo::Classic(_) => classic_open(key, number, message),
            OutputIo::Pq(_) => pq_open(key, number, message),
        }
    }

    /// What the session says when it cannot carry another message.
    pub open spec fn exhausted_text(&self) -> Seq<char> {
        match *self {
            OutputIo::Classic(_) => "state error: Exhausted"@,
            OutputIo::Pq(_) => "Cipher(NonceOverflow)"@,
        }
    }

    /// What the session says to a message that is too short to be one.
    pub open spec fn short_text(&self) -> Seq<char> {
        match *self {
            OutputIo::Classic(_) => "decrypt error"@,
            OutputIo::Pq(_) => "TooShort"@,
        }
    }

    /// What the session says to a message that does not decrypt.
    pub open spec fn refused_text(&self) -> Seq<char> {
        match *self {
            OutputIo::Classic(_) => "decrypt error"@,
            OutputIo::Pq(_) => "Cipher(Decrypt)"@,
        }
    }

    /// Two codecs are of the same kind.
    pub open spec fn same_kind(&self, other: OutputIo) -> bool {
        self is Pq == other is Pq
    }

    /// What encoding an item appends, in a given state of the session.
    pub open spec fn encoded_item(&self, t: TransportView, item: Seq<u8>) -> Seq<u8> {
        framed(self.seal(t.seal_key, t.sealed, item))
    }

    /// What a successful encoding of an item promises of the message: it is a
    /// tag longer than the item, and opens to it.
    pub open spec fn promised(&self, t: TransportView, item: Seq<u8>) -> bool {
        let message = self.seal(t.seal_key, t.sealed, item);
        &&& t.sealed < self.max_messages()
        &&& message.len() == item.len() + TAG_LENGTH <= MAX_MESSAGE_LENGTH
        &&& self.open(t.seal_key, t.sealed, message) == Some(item)
    }

    /// Decoding would hand out an item.
    pub open spec fn decodes_item(&self, t: TransportView, wire: Seq<u8>) -> bool {
        &&& has_frame(wire)
        &&& first_message(wire).len() >= TAG_LENGTH
        &&& t.opened < self.max_messages()
        &&& self.open(t.open_key, t.opened, first_message(wire)) is Some
    }

    /// What encoding items one after another appends.
    pub open spec fn encoded_items(&self, t: TransportView, items: Seq<Seq<u8>>) -> Seq<u8>
        decreases items.len(),
    {
        if items.len() == 0 {
            seq![]
        } else {
            self.encoded_item(t, items[0]) + self.encoded_items(after_seal(t), items.skip(1))
        }
    }

    /// Each of the items was encoded successfully.
    pub open spec fn all_promised(&self, t: TransportView, items: Seq<Seq<u8>>) -> bool
        decreases items.len(),
    {
        items.len() > 0 ==> self.promised(t, items[0]) && self.all_promised(
            after_seal(t),
            items.skip(1),
        )
    }

    /// The items that decoding hands out, one after another, until it hands out
    /// none.
    pub open spec fn decoded_items(&self, t: TransportView, wire: Seq<u8>) -> Seq<Seq<u8>>
        decreases wire.len(),
    {
        if self.decodes_item(t, wire) {
            seq![self.open(t.open_key, t.opened, first_message(wire))->0] + self.decoded_items(
                after_open(t),
                after_frame(wire),
            )
        } else {
            seq![]
        }
    }

    /// Writes `item` as a message and appends it to `dst` as a frame.
    pub fn encode(&mut self, item: &[u8], dst: &mut BytesMut) -> (r: Result<(), IoError>)
        requires
            old(self).wf(),
            item@.len() + TAG_LENGTH <= MAX_MESSAGE_LENGTH,
            buffer(*old(dst)).len() + U16_LENGTH + item@.len() + EXTRA_ENCRYPT_SPACE
                <= isize::MAX,
        ensures
            final(self).wf(),
            final(self).same_kind(*old(self)),
            ({
                let before = old(self).transport();
                match r {
                    Ok(_) => {
                        &&& buffer(*final(dst)) == buffer(*old(dst)) + old(self).encoded_item(
                            before,
                            item@,
                        )
                        &&& old(self).promised(before, item@)
                        &&& final(self).transport() == after_seal(before)
                    },
                    Err(e) => {
                        &&& before.sealed >= old(self).max_messages()
                        &&& e.says(IoErrorKind::InvalidData, old(self).exhausted_text())
                        &&& buffer(*final(dst)) == buffer(*old(dst))
                        &&& final(self).transport() == before
                    },
                }
            }),
            match (*old(self), *final(self)) {
                (OutputIo::Classic(codec), OutputIo::Classic(later)) => {
                    let before = classic_transport(codec@@);
                    let at = buffer(*old(dst)).len() as int;
                    let after = buffer(*final(dst));
                    match r {
                        Ok(_) => {
                            &&& after.take(at) == buffer(*old(dst))
                            &&& after[at] * 256 + after[at + 1] == after.len() - at - 2
                            &&& after.skip(at + 2) == classic_seal(
                                before.seal_key,
                                before.sealed,
                                item@,
                            )
                            &&& classic_transport(later@@) == (TransportView {
                                sealed: before.sealed + 1,
                                ..before
                            })
                        },
                        Err(_) => {
                            &&& before.sealed >= 0xffff_ffff_ffff_ffff
                            &&& after == buffer(*old(dst))
                            &&& classic_transport(later@@) == before
                        },
                    }
                },
                (OutputIo::Pq(codec), OutputIo::Pq(later)) => {
                    let before = pq_transport(codec@);
                    let at = buffer(*old(dst)).len() as int;
                    let after = buffer(*final(dst));
                    match r {
                        Ok(_) => {
                            &&& after.take(at) == buffer(*old(dst))
                            &&& after[at] * 256 + after[at + 1] == after.len() - at - 2
                            &&& after.skip(at + 2) == pq_seal(
                                before.seal_key,
                                before.sealed,
                                item@,
                            )
                            &&& pq_transport(later@) == (TransportView {
                                sealed: before.sealed + 1,
                                ..before
                            })
                        },
                        Err(_) => {
                            &&& before.sealed >= 0x1_0000_0000_0000_0000
                            &&& after == buffer(*old(dst))
                            &&& pq_transport(later@) == before
                        },
                    }
                },
                _ => false,
            },
    {
        match self {
            OutputIo::Classic(codec) => codec.encode(item, dst),
            OutputIo::Pq(codec) => codec.encode(item, dst),
        }
    }

    /// Takes the first frame off `src` and reads its message. Where no whole
    /// frame has arrived yet, nothing happens and `None` is returned.
    pub fn decode(&mut self, src: &mut BytesMut) -> (r: Result<Option<Bytes>, IoError>)
        requires
            old(self).wf(),
        ensures
            final(self).wf(),
            final(self).same_kind(*old(self)),
            ({
                let before = old(self).transport();
                let bytes = buffer(*old(src));
                let message = first_message(bytes);
                let got = old(self).open(before.open_key, before.opened, message);
                if !has_frame(bytes) {
                    &&& r matches Ok(None)
                    &&& buffer(*final(src)) == bytes
                    &&& final(self).transport() == before
                } else {
                    &&& buffer(*final(src)) == after_frame(bytes)
                    &&& match r {
                        Ok(Some(clear)) => {
                            &&& old(self).decodes_item(before, bytes)
                            &&& got == Some(frame(clear))
                            &&& final(self).transport() == after_open(before)
                        },
                        Ok(None) => false,
                        Err(e) => {
                            &&& final(self).transport() == before
                            &&& if message.len() < TAG_LENGTH {
                                e.says(IoErrorKind::InvalidData, old(self).short_text())
                            } else if before.opened >= old(self).max_messages() {
                                e.says(IoErrorKind::InvalidData, old(self).exhausted_text())
                            } else {
                                &&& got is None
                                &&& e.says(IoErrorKind::InvalidData, old(self).refused_text())
                            }
                        },
                    }
                }
            }),
            ({
                let bytes = buffer(*old(src));
                let len = bytes[0] * 256 + bytes[1];
                let message = bytes.subrange(2, 2 + len);
                let before = match *old(self) {
                    OutputIo::Classic(codec) => classic_transport(codec@@),
                    OutputIo::Pq(codec) => pq_transport(codec@),
                };
                let after = match *final(self) {
                    OutputIo::Classic(codec) => classic_transport(codec@@),
                    OutputIo::Pq(codec) => pq_transport(codec@),
                };
                let got = match *old(self) {
                    OutputIo::Classic(_) => classic_open(before.open_key, before.opened, message),
                    OutputIo::Pq(_) => pq_open(before.open_key, before.opened, message),
                };
                &&& (*final(self)) is Pq <==> (*old(self)) is Pq
                &&& match r {
                    Ok(None) => {
                        &&& bytes.len() < 2 || bytes.len() < 2 + len
                        &&& buffer(*final(src)) == bytes
                        &&& after == before
                    },
                    Ok(Some(clear)) => {
                        &&& bytes.len() >= 2 + len
                        &&& buffer(*final(src)) == bytes.skip(2 + len)
                        &&& got == Some(frame(clear))
                        &&& after == (TransportView { opened: before.opened + 1, ..before })
                    },
                    Err(_) => {
                        &&& bytes.len() >= 2 + len
                        &&& buffer(*final(src)) == bytes.skip(2 + len)
                        &&& len < 16 || before.opened >= 0xffff_ffff_ffff_ffff || got is None
                        &&& after == before
                    },
                }
            }),
    {
        match self {
            OutputIo::Classic(codec) => codec.decode(src),
            OutputIo::Pq(codec) => codec.decode(src),
        }
    }
}

/// Each kind of codec seals and opens as its own session does, and says of it
/// what holds of it.
pub proof fn lemma_codec_kinds(
    classic: Codec<ClassicTransportSession>,
    pq: PqCodec<PqTransportSession>,
    key: Seq<u8>,
    number: nat,
    bytes: Seq<u8>,
)
    ensures
        OutputIo::Classic(classic).seal(key, number, bytes) == classic_seal(key, number, bytes),
        OutputIo::Classic(classic).open(key, number, bytes) == classic_open(key, number, bytes),
        OutputIo::Classic(classic).transport() == classic_transport(classic@@),
        OutputIo::Classic(classic).max_messages() == 0xffff_ffff_ffff_ffff,
        OutputIo::Pq(pq).seal(key, number, bytes) == pq_seal(key, number, bytes),
        OutputIo::Pq(pq).open(key, number, bytes) == pq_open(key, number, bytes),
        OutputIo::Pq(pq).transport() == pq_transport(pq@),
        OutputIo::Pq(pq).max_messages() == 0x1_0000_0000_0000_0000,
        OutputIo::Classic(classic).exhausted_text() == "state error: Exhausted"@,
        OutputIo::Classic(classic).short_text() == "decrypt error"@,
        OutputIo::Classic(classic).refused_text() == "decrypt error"@,
        OutputIo::Pq(pq).exhausted_text() == "Cipher(NonceOverflow)"@,
        OutputIo::Pq(pq).short_text() == "TooShort"@,
        OutputIo::Pq(pq).refused_text() == "Cipher(Decrypt)"@,
{
}

/// Decoding gives back what encoding wrote: of paired sessions of the same kind,
/// the receiver gets exactly the items that the sender encoded, all of them and
/// in their order.
pub proof fn lemma_items_arrive(
    kind: OutputIo,
    sender: TransportView,
    receiver: TransportView,
    items: Seq<Seq<u8>>,
)
    requires
        paired(sender, receiver),
        kind.all_promised(sender, items),
    ensures
        kind.decoded_items(receiver, kind.encoded_items(sender, items)) == items,
    decreases items.len(),
{
    let wire = kind.encoded_items(sender, items);
    if items.len() == 0 {
        assert(kind.decoded_items(receiver, wire) == items);
    } else {
        let rest = kind.encoded_items(after_seal(sender), items.skip(1));
        lemma_frame_round_trip(kind.seal(sender.seal_key, sender.sealed, items[0]), rest);
        lemma_items_arrive(kind, after_seal(sender), after_open(receiver), items.skip(1));
        assert(kind.decoded_items(receiver, wire) == seq![items[0]] + items.skip(1));
        assert(seq![items[0]] + items.skip(1) == items);
    }
}

/// A stream gets across a session: where one side has written and flushed, each
/// frame was encoded successfully, and the frames that the other side has read
/// to the end are those that it decoded of what was encoded, then exactly the
/// bytes that were written have been read, in their order.
pub proof fn lemma_bytes_arrive(
    kind: OutputIo,
    sender: TransportView,
    receiver: TransportView,
    written: Seq<WriteEvent>,
    read: Seq<ReadEvent>,
)
    requires
        paired(sender, receiver),
        sends_when_due(seq![], written),
        unsent(seq![], written) == Seq::<u8>::empty(),
        kind.all_promised(sender, sent_frames(seq![], written)),
        polls_when_empty(seq![], read),
        left_over(seq![], read) == Seq::<u8>::empty(),
        arrivals(read) == kind.decoded_items(
            receiver,
            kind.encoded_items(sender, sent_frames(seq![], written)),
        ),
    ensures
        handed_out(seq![], read) == taken(seq![], written),
{
    lemma_items_arrive(kind, sender, receiver, sent_frames(seq![], written));
    lemma_stream_arrives(written, read);
}

} // verus!
