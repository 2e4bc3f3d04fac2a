//! The byte stream over an established session.
//!
//! What is written is gathered into frames; what is read is handed out of the
//! frames that arrive. The link that carries the frames is polled by the
//! caller: each method says what to do next, and is told what came of it.

use vstd::prelude::*;
use vstd::slice::slice_subrange;
use bytes::Bytes;
use crate::buf::frame;
use crate::buf::frame_slice;

verus! {

/// The most bytes that are gathered before a frame must be sent: a Noise
/// message of 65535 bytes, less the room that encrypting it may take.
pub const MAX_FRAME_LEN: usize = 64511;

/// A noise session to a remote.
///
/// `T` is the type of the underlying link, which carries frames.
pub struct Output<T> {
    io: T,
    buffers: Buffers,
}

/// The frame being read and the frame being gathered.
struct Buffers {
    recv_buffer: Bytes,
    recv_offset: usize,
    send_buffer: Vec<u8>,
    send_offset: usize,
}

/// What to do for a read.
pub enum ReadAction {
    /// So many bytes have been read.
    Ready(usize),
    /// Poll the link for the next frame and pass it to [`Output::on_next`].
    PollNext,
}

/// What polling the link for a frame gave.
pub enum Next<E> {
    Pending,
    End,
    Failed(E),
    Frame(Bytes),
}

/// What becomes of a read after the link was polled.
pub enum ReadOutcome<E> {
    Pending,
    Ready(Result<usize, E>),
    /// A frame has arrived: read again.
    Again,
}

/// What to do for a write.
pub enum WriteAction {
    /// So many bytes have been taken.
    Ready(usize),
    /// Send [`Output::frame`] over the link, pass what came of it to
    /// [`Output::on_sent`], and write again.
    SendFrame,
}

/// What to do for a flush.
pub enum FlushAction {
    /// Send [`Output::frame`] over the link, pass what came of it to
    /// [`Output::on_sent`], and flush again.
    SendFrame,
    /// Nothing is left here: flush the link.
    FlushLink,
}

/// What handing a frame to the link gave.
pub enum Sent<E> {
    Pending,
    Failed(E),
    Done,
}

/// What becomes of a write or a flush after a frame was handed to the link.
pub enum SendOutcome<E> {
    Pending,
    Failed(E),
    Again,
}

/// The lesser of two lengths.
pub open spec fn lesser(a: nat, b: nat) -> nat {
    if a <= b {
        a
    } else {
        b
    }
}

impl Buffers {
    // A frame that has been read to its end is dropped, and a frame that is
    // being gathered is as long as what has been written.
    #[verifier::type_invariant]
    spec fn wf(self) -> bool {
        &&& frame(self.recv_buffer).len() > 0 ==> self.recv_offset < frame(self.recv_buffer).len()
        &&& self.send_offset <= MAX_FRAME_LEN
        &&& self.send_offset > 0 ==> self.send_offset == self.send_buffer@.len()
    }
}

impl<T> Output<T> {
    /// The link.
    pub closed spec fn link(&self) -> T {
        self.io
    }

    /// The bytes that have arrived and not been read yet.
    pub closed spec fn received(&self) -> Seq<u8> {
        if frame(self.buffers.recv_buffer).len() > 0 {
            frame(self.buffers.recv_buffer).skip(self.buffers.recv_offset as int)
        } else {
            seq![]
        }
    }

    /// The bytes that have been written and not been sent yet.
    pub closed spec fn buffered(&self) -> Seq<u8> {
        if self.buffers.send_offset > 0 {
            self.buffers.send_buffer@
        } else {
            seq![]
        }
    }

    /// A session over a link, with nothing read or written.
    pub fn new(io: T) -> (r: Output<T>)
        ensures
            r.link() == io,
            r.received() == Seq::<u8>::empty(),
            r.buffered() == Seq::<u8>::empty(),
    {
        let recv_buffer = Bytes::new();
        Output {
            io,
            buffers: Buffers {
                recv_buffer,
                recv_offset: 0,
                send_buffer: Vec::new(),
                send_offset: 0,
            },
        }
    }

    /// Reads into `buf` what is left of the last frame.
    pub fn poll_read(&mut self, buf: &mut [u8]) -> (r: ReadAction)
        ensures
            match r {
                ReadAction::Ready(n) => {
                    &&& old(self).received().len() > 0
                    &&& n == lesser(old(self).received().len(), old(buf)@.len())
                    &&& n <= old(self).received().len() && n <= old(buf)@.len()
                    &&& n == old(self).received().len() || n == old(buf)@.len()
                    &&& final(buf)@ == old(self).received().take(n as int) + old(buf)@.skip(
                        n as int,
                    )
                    &&& final(self).received() == old(self).received().skip(n as int)
                },
                ReadAction::PollNext => {
                    &&& old(self).received().len() == 0
                    &&& final(buf)@ == old(buf)@
                    &&& final(self).received() == old(self).received()
                },
            },
            final(self).buffered() == old(self).buffered(),
            final(self).link() == old(self).link(),
    {
        proof {
            use_type_invariant(&self.buffers);
        }
        let len: usize = self.buffers.recv_buffer.len();
        let off: usize = self.buffers.recv_offset;
        if len > 0 {
            let ghost before = self.received();
            let n: usize = if len - off <= buf.len() {
                len - off
            } else {
                buf.len()
            };
            let bytes = frame_slice(&self.buffers.recv_buffer);
            let mut i: usize = 0;
            while i < n
                invariant
                    i <= n,
                    n <= buf@.len(),
                    off + n <= len,
                    bytes@.len() == len,
                    buf@.len() == old(buf)@.len(),
                    buf@ == bytes@.subrange(off as int, off + i) + old(buf)@.skip(i as int),
                decreases n - i,
            {
                buf[i] = bytes[off + i];
                i = i + 1;
                assert(buf@ =~= bytes@.subrange(off as int, off + i) + old(buf)@.skip(i as int));
            }
            assert(bytes@.subrange(off as int, off + n) == before.take(n as int));
            if len == off + n {
                // Drop the frame, so that its memory can be used again.
                let empty = Bytes::new();
                self.buffers.recv_buffer = empty;
            } else {
                self.buffers.recv_offset = off + n;
            }
            assert(self.received() == before.skip(n as int));
            ReadAction::Ready(n)
        } else {
            ReadAction::PollNext
        }
    }

    /// Takes what polling the link gave.
    pub fn on_next<E>(&mut self, next: Next<E>) -> (r: ReadOutcome<E>)
        requires
            old(self).received().len() == 0,
        ensures
            match next {
                Next::Pending => r == ReadOutcome::<E>::Pending,
                Next::End => r == ReadOutcome::<E>::Ready(Ok(0)),
                Next::Failed(e) => r == ReadOutcome::<E>::Ready(Err(e)),
                Next::Frame(_) => r == ReadOutcome::<E>::Again,
            },
            final(self).received() == match next {
                Next::Frame(bytes) => frame(bytes),
                _ => Seq::<u8>::empty(),
            },
            final(self).buffered() == old(self).buffered(),
            final(self).link() == old(self).link(),
    {
        proof {
            use_type_invariant(&self.buffers);
        }
        match next {
            Next::Pending => ReadOutcome::Pending,
            Next::End => ReadOutcome::Ready(Ok(0)),
            Next::Failed(e) => ReadOutcome::Ready(Err(e)),
            Next::Frame(bytes) => {
                self.buffers.recv_offset = 0;
                self.buffers.recv_buffer = bytes;
                assert(frame(bytes).skip(0) == frame(bytes));
                ReadOutcome::Again
            },
        }
    }

    /// Takes as much of `buf` as still fits the frame being gathered. Where
    /// that frame is full, it has to be sent first.
    pub fn poll_write(&mut self, buf: &[u8]) -> (r: WriteAction)
        ensures
            match r {
                WriteAction::Ready(n) => {
                    &&& old(self).buffered().len() < MAX_FRAME_LEN
                    &&& n == taken_of(old(self).buffered(), buf@).len()
                    &&& old(self).buffered().len() < 64511
                    &&& n <= buf@.len() && old(self).buffered().len() + n <= 64511
                    &&& n == buf@.len() || old(self).buffered().len() + n == 64511
                    &&& final(self).buffered() == old(self).buffered() + buf@.take(n as int)
                    &&& final(self).buffered() == old(self).buffered() + taken_of(
                        old(self).buffered(),
                        buf@,
                    )
                },
                WriteAction::SendFrame => {
                    &&& old(self).buffered().len() == MAX_FRAME_LEN
                    &&& old(self).buffered().len() == 64511
                    &&& final(self).buffered() == old(self).buffered()
                },
            },
            final(self).received() == old(self).received(),
            final(self).link() == old(self).link(),
    {
        proof {
            use_type_invariant(&self.buffers);
        }
        if self.buffers.send_offset == MAX_FRAME_LEN {
            return WriteAction::SendFrame;
        }
        let off: usize = self.buffers.send_offset;
        let n: usize = if MAX_FRAME_LEN - off <= buf.len() {
            MAX_FRAME_LEN - off
        } else {
            buf.len()
        };
        let ghost before = self.buffered();
        let mut gathered: Vec<u8> = Vec::new();
        self.buffers.send_offset = 0;
        std::mem::swap(&mut self.buffers.send_buffer, &mut gathered);
        gathered.truncate(off);
        gathered.extend_from_slice(slice_subrange(buf, 0, n));
        self.buffers.send_buffer = gathered;
        self.buffers.send_offset = off + n;
        assert(self.buffered() =~= before + buf@.take(n as int));
        WriteAction::Ready(n)
    }

    /// Says whether a frame is still to be sent before the link is flushed.
    pub fn poll_flush(&self) -> (r: FlushAction)
        ensures
            r == if self.buffered().len() > 0 {
                FlushAction::SendFrame
            } else {
                FlushAction::FlushLink
            },
    {
        proof {
            use_type_invariant(&self.buffers);
        }
        if self.buffers.send_offset > 0 {
            FlushAction::SendFrame
        } else {
            FlushAction::FlushLink
        }
    }

    /// The frame to send.
    pub fn frame(&self) -> (r: &[u8])
        requires
            self.buffered().len() > 0,
        ensures
            r@ == self.buffered(),
            r@.len() <= MAX_FRAME_LEN,
    {
        proof {
            use_type_invariant(&self.buffers);
        }
        self.buffers.send_buffer.as_slice()
    }

    /// Takes what handing the frame to the link gave. A frame that could not be
    /// sent is kept.
    pub fn on_sent<E>(&mut self, sent: Sent<E>) -> (r: SendOutcome<E>)
        ensures
            match sent {
                Sent::Pending => r == SendOutcome::<E>::Pending,
                Sent::Failed(e) => r == SendOutcome::<E>::Failed(e),
                Sent::Done => r == SendOutcome::<E>::Again,
            },
            final(self).buffered() == match sent {
                Sent::Done => Seq::<u8>::empty(),
                _ => old(self).buffered(),
            },
            final(self).received() == old(self).received(),
            final(self).link() == old(self).link(),
    {
        proof {
            use_type_invariant(&self.buffers);
        }
        match sent {
            Sent::Pending => SendOutcome::Pending,
            Sent::Failed(e) => SendOutcome::Failed(e),
            Sent::Done => {
                self.buffers.send_offset = 0;
                SendOutcome::Again
            },
        }
    }

    /// The link, to be polled.
    pub fn link_mut(&mut self) -> (r: &mut T)
        ensures
            *r == old(self).link(),
            final(self).link() == *final(r),
            final(self).received() == old(self).received(),
            final(self).buffered() == old(self).buffered(),
    {
        &mut self.io
    }

    /// The link, with the buffers dropped.
    pub fn into_link(self) -> (r: T)
        ensures
            r == self.link(),
    {
        self.io
    }
}

// ---------------------------------------------------------------------------
// The stream as a whole
// ---------------------------------------------------------------------------

/// A step of the reading side: a frame arrives (see [`Output::on_next`]), or a
/// read is served with room for so many bytes (see [`Output::poll_read`]).
pub enum ReadEvent {
    Arrives(Seq<u8>),
    Reads(nat),
}

/// The link is only polled once all that had arrived has been read.
pub open spec fn polls_when_empty(received: Seq<u8>, trace: Seq<ReadEvent>) -> bool
    decreases trace.len(),
{
    trace.len() > 0 ==> match trace[0] {
        ReadEvent::Arrives(bytes) => received.len() == 0 && polls_when_empty(bytes, trace.skip(1)),
        ReadEvent::Reads(room) => polls_when_empty(
            received.skip(lesser(received.len(), room) as int),
            trace.skip(1),
        ),
    }
}

/// The frames that arrive, in order.
pub open spec fn arrivals(trace: Seq<ReadEvent>) -> Seq<Seq<u8>>
    decreases trace.len(),
{
    if trace.len() == 0 {
        seq![]
    } else {
        match trace[0] {
            ReadEvent::Arrives(bytes) => seq![bytes] + arrivals(trace.skip(1)),
            ReadEvent::Reads(_) => arrivals(trace.skip(1)),
        }
    }
}

/// The bytes that reads hand out, in order.
pub open spec fn handed_out(received: Seq<u8>, trace: Seq<ReadEvent>) -> Seq<u8>
    decreases trace.len(),
{
    if trace.len() == 0 {
        seq![]
    } else {
        match trace[0] {
            ReadEvent::Arrives(bytes) => handed_out(bytes, trace.skip(1)),
            ReadEvent::Reads(room) => {
                let n = lesser(received.len(), room) as int;
                received.take(n) + handed_out(received.skip(n), trace.skip(1))
            },
        }
    }
}

/// The bytes that have arrived and not been read at the end.
pub open spec fn left_over(received: Seq<u8>, trace: Seq<ReadEvent>) -> Seq<u8>
    decreases trace.len(),
{
    if trace.len() == 0 {
        received
    } else {
        match trace[0] {
            ReadEvent::Arrives(bytes) => left_over(bytes, trace.skip(1)),
            ReadEvent::Reads(room) => left_over(
                received.skip(lesser(received.len(), room) as int),
                trace.skip(1),
            ),
        }
    }
}

/// Frames, one after another.
pub open spec fn joined(frames: Seq<Seq<u8>>) -> Seq<u8>
    decreases frames.len(),
{
    if frames.len() == 0 {
        seq![]
    } else {
        frames[0] + joined(frames.skip(1))
    }
}

/// Reading loses, adds and reorders nothing: what reads hand out, followed by
/// what is left over, is what was there, followed by what arrived.
pub proof fn lemma_reads_keep_the_bytes(received: Seq<u8>, trace: Seq<ReadEvent>)
    requires
        polls_when_empty(received, trace),
    ensures
        handed_out(received, trace) + left_over(received, trace) == received + joined(
            arrivals(trace),
        ),
    decreases trace.len(),
{
    if trace.len() == 0 {
        assert(joined(arrivals(trace)) == Seq::<u8>::empty());
        assert(handed_out(received, trace) + left_over(received, trace) == received + joined(
            arrivals(trace),
        ));
    } else {
        let rest = trace.skip(1);
        match trace[0] {
            ReadEvent::Arrives(bytes) => {
                lemma_reads_keep_the_bytes(bytes, rest);
                let frames = arrivals(trace);
                assert(frames[0] == bytes);
                assert(frames.skip(1) == arrivals(rest));
                assert(received + joined(frames) == bytes + joined(arrivals(rest)));
            },
            ReadEvent::Reads(room) => {
                let n = lesser(received.len(), room) as int;
                lemma_reads_keep_the_bytes(received.skip(n), rest);
                assert(received.take(n) + received.skip(n) == received);
                assert(handed_out(received, trace) + left_over(received, trace) == received.take(n)
                    + (handed_out(received.skip(n), rest) + left_over(received.skip(n), rest)));
                assert(received.take(n) + (received.skip(n) + joined(arrivals(rest))) == received
                    + joined(arrivals(rest)));
            },
        }
    }
}

/// A step of the writing side: some bytes are offered (see
/// [`Output::poll_write`]), or the frame being gathered is sent (see
/// [`Output::on_sent`]).
pub enum WriteEvent {
    Offers(Seq<u8>),
    Sends,
}

/// What is taken of the bytes that are offered.
pub open spec fn taken_of(buffered: Seq<u8>, offered: Seq<u8>) -> Seq<u8> {
    offered.take(lesser((MAX_FRAME_LEN - buffered.len()) as nat, offered.len()) as int)
}

/// A full frame is sent before more is written, and only frames with something
/// in them are sent.
pub open spec fn sends_when_due(buffered: Seq<u8>, trace: Seq<WriteEvent>) -> bool
    decreases trace.len(),
{
    trace.len() > 0 ==> match trace[0] {
        WriteEvent::Offers(offered) => {
            &&& buffered.len() < MAX_FRAME_LEN
            &&& sends_when_due(buffered + taken_of(buffered, offered), trace.skip(1))
        },
        WriteEvent::Sends => buffered.len() > 0 && sends_when_due(seq![], trace.skip(1)),
    }
}

/// The bytes that writes take, in order.
pub open spec fn taken(buffered: Seq<u8>, trace: Seq<WriteEvent>) -> Seq<u8>
    decreases trace.len(),
{
    if trace.len() == 0 {
        seq![]
    } else {
        match trace[0] {
            WriteEvent::Offers(offered) => {
                let bytes = taken_of(buffered, offered);
                bytes + taken(buffered + bytes, trace.skip(1))
            },
            WriteEvent::Sends => taken(seq![], trace.skip(1)),
        }
    }
}

/// The frames that are sent, in order.
pub open spec fn sent_frames(buffered: Seq<u8>, trace: Seq<WriteEvent>) -> Seq<Seq<u8>>
    decreases trace.len(),
{
    if trace.len() == 0 {
        seq![]
    } else {
        match trace[0] {
            WriteEvent::Offers(offered) => sent_frames(
                buffered + taken_of(buffered, offered),
                trace.skip(1),
            ),
            WriteEvent::Sends => seq![buffered] + sent_frames(seq![], trace.skip(1)),
        }
    }
}

/// The bytes that have been written and not been sent at the end.
pub open spec fn unsent(buffered: Seq<u8>, trace: Seq<WriteEvent>) -> Seq<u8>
    decreases trace.len(),
{
    if trace.len() == 0 {
        buffered
    } else {
        match trace[0] {
            WriteEvent::Offers(offered) => unsent(
                buffered + taken_of(buffered, offered),
                trace.skip(1),
            ),
            WriteEvent::Sends => unsent(seq![], trace.skip(1)),
        }
    }
}

/// What is taken of an offer is a prefix of it, as long as the frame being
/// gathered has room for: either all of the offer, or so much that the frame
/// holds 64511 bytes.
pub proof fn lemma_taken_is_a_prefix(buffered: Seq<u8>, offered: Seq<u8>)
    requires
        buffered.len() <= 64511,
    ensures
        ({
            let bytes = taken_of(buffered, offered);
            &&& bytes.len() <= offered.len()
            &&& bytes == offered.take(bytes.len() as int)
            &&& bytes == offered || buffered.len() + bytes.len() == 64511
            &&& buffered.len() + bytes.len() <= 64511
        }),
{
}

/// Offer by offer, what a run of writes takes is a prefix of what was offered,
/// and what it sends are the bytes gathered so far: wherever in a run an offer
/// stands, what was taken before is followed by the first bytes of the offer,
/// as many as the frame had room for, and then by what the rest of the run
/// takes with these bytes gathered.
pub proof fn lemma_offers_are_taken_from_the_front(
    buffered: Seq<u8>,
    before: Seq<WriteEvent>,
    offered: Seq<u8>,
    after: Seq<WriteEvent>,
)
    requires
        buffered.len() <= 64511,
        sends_when_due(buffered, before + seq![WriteEvent::Offers(offered)] + after),
    ensures
        ({
            let trace = before + seq![WriteEvent::Offers(offered)] + after;
            let gathered = unsent(buffered, before);
            let n = if gathered.len() + offered.len() <= 64511 {
                offered.len() as int
            } else {
                64511 - gathered.len()
            };
            &&& gathered.len() < 64511
            &&& taken(buffered, trace) == taken(buffered, before) + offered.take(n) + taken(
                gathered + offered.take(n),
                after,
            )
            &&& sent_frames(buffered, trace) == sent_frames(buffered, before) + sent_frames(
                gathered + offered.take(n),
                after,
            )
            &&& unsent(buffered, trace) == unsent(gathered + offered.take(n), after)
        }),
    decreases before.len(),
{
    let event = WriteEvent::Offers(offered);
    let trace = before + seq![event] + after;
    let gathered = unsent(buffered, before);
    let n = if gathered.len() + offered.len() <= 64511 {
        offered.len() as int
    } else {
        64511 - gathered.len()
    };
    if before.len() == 0 {
        assert(trace[0] == event);
        assert(trace.skip(1) =~= after);
        assert(taken_of(buffered, offered) =~= offered.take(n));
        assert(taken(buffered, before) =~= Seq::<u8>::empty());
        assert(sent_frames(buffered, before) =~= Seq::<Seq<u8>>::empty());
        assert(taken(buffered, trace) =~= taken(buffered, before) + offered.take(n) + taken(
            gathered + offered.take(n),
            after,
        ));
        assert(sent_frames(buffered, trace) =~= sent_frames(buffered, before) + sent_frames(
            gathered + offered.take(n),
            after,
        ));
    } else {
        let rest = before.skip(1);
        assert(trace[0] == before[0]);
        assert(trace.skip(1) =~= rest + seq![event] + after);
        let next: Seq<u8> = match before[0] {
            WriteEvent::Offers(first) => buffered + taken_of(buffered, first),
            WriteEvent::Sends => seq![],
        };
        lemma_offers_are_taken_from_the_front(next, rest, offered, after);
        assert(taken(buffered, trace) =~= taken(buffered, before) + offered.take(n) + taken(
            gathered + offered.take(n),
            after,
        ));
        assert(sent_frames(buffered, trace) =~= sent_frames(buffered, before) + sent_frames(
            gathered + offered.take(n),
            after,
        ));
    }
}

/// Sending hands over just the bytes gathered so far, as one frame, and starts
/// the next frame empty.
pub proof fn lemma_frames_are_what_was_gathered(buffered: Seq<u8>, after: Seq<WriteEvent>)
    ensures
        ({
            let trace = seq![WriteEvent::Sends] + after;
            &&& sent_frames(buffered, trace) == seq![buffered] + sent_frames(seq![], after)
            &&& taken(buffered, trace) == taken(seq![], after)
            &&& unsent(buffered, trace) == unsent(seq![], after)
        }),
        sent_frames(buffered, seq![]) == Seq::<Seq<u8>>::empty(),
        taken(buffered, seq![]) == Seq::<u8>::empty(),
        unsent(buffered, seq![]) == buffered,
{
    let trace = seq![WriteEvent::Sends] + after;
    assert(trace.skip(1) =~= after);
    assert(trace[0] == WriteEvent::Sends);
}

/// A read is served from the front: it hands out the first bytes of what has
/// arrived and not been read, as many as there are or as there is room for, and
/// leaves the rest; what arrives is read as it arrives.
pub proof fn lemma_reads_are_served_from_the_front(
    received: Seq<u8>,
    room: nat,
    arrived: Seq<u8>,
    after: Seq<ReadEvent>,
)
    ensures
        ({
            let n = if received.len() <= room {
                received.len() as int
            } else {
                room as int
            };
            let read = seq![ReadEvent::Reads(room)] + after;
            let arrives = seq![ReadEvent::Arrives(arrived)] + after;
            &&& handed_out(received, read) == received.take(n) + handed_out(received.skip(n), after)
            &&& left_over(received, read) == left_over(received.skip(n), after)
            &&& arrivals(read) == arrivals(after)
            &&& handed_out(received, arrives) == handed_out(arrived, after)
            &&& left_over(received, arrives) == left_over(arrived, after)
            &&& arrivals(arrives) == seq![arrived] + arrivals(after)
        }),
        handed_out(received, seq![]) == Seq::<u8>::empty(),
        left_over(received, seq![]) == received,
        arrivals(seq![]) == Seq::<Seq<u8>>::empty(),
{
    let read = seq![ReadEvent::Reads(room)] + after;
    let arrives = seq![ReadEvent::Arrives(arrived)] + after;
    assert(read.skip(1) =~= after);
    assert(arrives.skip(1) =~= after);
    assert(read[0] == ReadEvent::Reads(room));
    assert(arrives[0] == ReadEvent::Arrives(arrived));
}

/// Joining frames puts them one after another.
pub proof fn lemma_joined(first: Seq<u8>, rest: Seq<Seq<u8>>)
    ensures
        joined(seq![first] + rest) == first + joined(rest),
        joined(seq![]) == Seq::<u8>::empty(),
{
    assert((seq![first] + rest).skip(1) =~= rest);
}

/// Writing loses, adds and reorders nothing: the frames that are sent, followed
/// by what is not sent yet, are what was there, followed by what writes took.
/// No frame is empty, and none is longer than the limit.
pub proof fn lemma_writes_keep_the_bytes(buffered: Seq<u8>, trace: Seq<WriteEvent>)
    requires
        buffered.len() <= MAX_FRAME_LEN,
        sends_when_due(buffered, trace),
    ensures
        joined(sent_frames(buffered, trace)) + unsent(buffered, trace) == buffered + taken(
            buffered,
            trace,
        ),
        forall|i: int|
            0 <= i < sent_frames(buffered, trace).len() ==> 0 < (#[trigger] sent_frames(
                buffered,
                trace,
            )[i]).len() <= MAX_FRAME_LEN,
    decreases trace.len(),
{
    if trace.len() == 0 {
        assert(joined(sent_frames(buffered, trace)) + unsent(buffered, trace) == buffered + taken(
            buffered,
            trace,
        ));
    } else {
        let rest = trace.skip(1);
        let frames = sent_frames(buffered, trace);
        match trace[0] {
            WriteEvent::Offers(offered) => {
                let bytes = taken_of(buffered, offered);
                lemma_writes_keep_the_bytes(buffered + bytes, rest);
                assert(buffered + bytes + taken(buffered + bytes, rest) == buffered + taken(
                    buffered,
                    trace,
                ));
            },
            WriteEvent::Sends => {
                lemma_writes_keep_the_bytes(seq![], rest);
                let later = sent_frames(seq![], rest);
                assert(frames.skip(1) == later);
                assert(joined(frames) == buffered + joined(later));
                assert(joined(frames) + unsent(buffered, trace) == buffered + (joined(later)
                    + unsent(seq![], rest)));
                assert(Seq::<u8>::empty() + taken(seq![], rest) == taken(seq![], rest));
                assert forall|i: int| 0 <= i < frames.len() implies 0 < (#[trigger] frames[i]).len()
                    <= MAX_FRAME_LEN by {
                    if i > 0 {
                        assert(frames[i] == later[i - 1]);
                    }
                }
            },
        }
    }
}

/// A stream arrives as it was written: where one side has written and flushed,
/// and the frames it sent are the frames that arrived at the other side, which
/// has read them to the end, then exactly the bytes that were written have been
/// read, in their order.
pub proof fn lemma_stream_arrives(written: Seq<WriteEvent>, read: Seq<ReadEvent>)
    requires
        sends_when_due(seq![], written),
        unsent(seq![], written) == Seq::<u8>::empty(),
        polls_when_empty(seq![], read),
        left_over(seq![], read) == Seq::<u8>::empty(),
        arrivals(read) == sent_frames(seq![], written),
    ensures
        handed_out(seq![], read) == taken(seq![], written),
{
    lemma_reads_keep_the_bytes(seq![], read);
    lemma_writes_keep_the_bytes(seq![], written);
    let frames = joined(arrivals(read));
    assert(handed_out(seq![], read) + Seq::<u8>::empty() == handed_out(seq![], read));
    assert(Seq::<u8>::empty() + frames == frames);
    assert(frames + Seq::<u8>::empty() == frames);
    assert(Seq::<u8>::empty() + taken(seq![], written) == taken(seq![], written));
}

} // verus!
