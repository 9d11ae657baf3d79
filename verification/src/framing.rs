//! The two framing dialects that carry messages on a directional byte
//! stream.
//!
//! A frame starts with the magic byte and a signed 32-bit big-endian count
//! of all its bytes. Frames towards the client have a header of nine bytes,
//! frames towards the service one of five. In both dialects the payload
//! begins at the eighth byte of the frame.
//!
//! Reading the stream is left to the caller: bytes are pushed into a
//! [`ByteReciever`] as they arrive, and one of the step functions is called
//! to take the next frame off its front.

use crate::serialization::wire::{be32, signed32};
use vstd::prelude::*;
use vstd::slice::{slice_subrange, slice_to_vec};

verus! {

/// First byte of every frame.
pub const FRAME_MAGIC: u8 = 0xFB;

/// Length of the header of a frame towards the client.
pub const INCOMING_HEADER_LEN: usize = 9;

/// Length of the header of a frame towards the service.
pub const OUTGOING_HEADER_LEN: usize = 5;

/// Offset of the payload in a frame, in either dialect.
pub const PAYLOAD_OFFSET: usize = 7;

/// The port of the service.
pub const SERVICE_PORT: u16 = 4533;

/// A bound on the length of a frame that is meant to be used where nothing
/// else is configured: 16 MiB.
pub const DEFAULT_MAX_FRAME_LEN: usize = 0x100_0000;

/// Why a direction cannot go on. Each of these is fatal to its direction.
#[derive(Clone, Copy, PartialEq, Eq, Debug, Structural)]
pub enum FramingError {
    /// The declared length of a frame is smaller than its header.
    NegativeLength,
    /// The declared length of a frame is above the configured bound.
    Oversized,
    /// The stream ended inside a frame.
    ShortRead,
    /// More bytes have arrived than the configured bound lets a direction
    /// hold.
    BufferFull,
}

/// What a step on a stream found.
#[derive(Debug)]
pub enum FrameEvent {
    /// The bytes at hand do not make up a frame yet.
    NeedMore,
    /// A header without the magic byte was dropped.
    Skipped,
    /// A frame was taken off the stream; this is its payload.
    Payload(Vec<u8>),
    /// The stream has ended between two frames.
    EndOfStream,
    /// The direction cannot go on.
    Failed(FramingError),
}

/// What a step on the bytes at hand is to find, and how many bytes it takes
/// off their front.
pub enum FrameStep {
    NeedMore,
    Skipped { taken: nat },
    Payload { payload: Seq<u8>, taken: nat },
    EndOfStream,
    Failed(FramingError),
}

/// The length that the header at the front of `buf` declares for its frame.
pub open spec fn declared_length(buf: Seq<u8>) -> int {
    signed32(be32(buf.skip(1))) as int
}

/// The step that is due on `buf`, in the dialect whose header has
/// `header_len` bytes, under the bound `max_frame_len` on the length of a
/// frame. `at_end` tells that no more bytes will come.
pub open spec fn frame_step(
    buf: Seq<u8>,
    header_len: nat,
    max_frame_len: nat,
    at_end: bool,
) -> FrameStep {
    if buf.len() < header_len {
        if at_end {
            FrameStep::EndOfStream
        } else {
            FrameStep::NeedMore
        }
    } else if buf[0] != FRAME_MAGIC {
        FrameStep::Skipped { taken: header_len }
    } else if declared_length(buf) < header_len {
        FrameStep::Failed(FramingError::NegativeLength)
    } else if declared_length(buf) > max_frame_len {
        FrameStep::Failed(FramingError::Oversized)
    } else if buf.len() < declared_length(buf) {
        if at_end {
            FrameStep::Failed(FramingError::ShortRead)
        } else {
            FrameStep::NeedMore
        }
    } else {
        let total = declared_length(buf);
        FrameStep::Payload {
            payload: if total >= PAYLOAD_OFFSET {
                buf.subrange(PAYLOAD_OFFSET as int, total)
            } else {
                Seq::empty()
            },
            taken: total as nat,
        }
    }
}

/// The step that is due on a stream towards the client.
pub open spec fn incoming_frame(buf: Seq<u8>, max_frame_len: nat, at_end: bool) -> FrameStep {
    frame_step(buf, INCOMING_HEADER_LEN as nat, max_frame_len, at_end)
}

/// The step that is due on a stream towards the service.
pub open spec fn outgoing_frame(buf: Seq<u8>, max_frame_len: nat, at_end: bool) -> FrameStep {
    frame_step(buf, OUTGOING_HEADER_LEN as nat, max_frame_len, at_end)
}

/// Whether the event `event` and the bytes `rest` that are left are what the
/// step `step` prescribes on the bytes `buf`.
pub open spec fn step_done(
    buf: Seq<u8>,
    step: FrameStep,
    event: FrameEvent,
    rest: Seq<u8>,
) -> bool {
    match step {
        FrameStep::NeedMore => event is NeedMore && rest == buf,
        FrameStep::Skipped { taken } => event is Skipped && rest == buf.skip(taken as int),
        FrameStep::Payload { payload, taken } => {
            &&& event matches FrameEvent::Payload(bytes)
            &&& bytes@ == payload
            &&& rest == buf.skip(taken as int)
        },
        FrameStep::EndOfStream => event is EndOfStream && rest == buf,
        FrameStep::Failed(e) => event matches FrameEvent::Failed(f) && f == e && rest == buf,
    }
}

/// The bytes of one direction that have arrived and are not yet framed.
#[derive(Debug)]
pub struct ByteReciever {
    pub buf: Vec<u8>,
}

impl View for ByteReciever {
    type V = Seq<u8>;

    open spec fn view(&self) -> Seq<u8> {
        self.buf@
    }
}

impl ByteReciever {
    /// A stream on which nothing has arrived.
    pub fn new() -> (r: Self)
        ensures
            r@ == Seq::<u8>::empty(),
    {
        ByteReciever { buf: Vec::new() }
    }

    /// Number of bytes at hand.
    pub fn len(&self) -> (n: usize)
        ensures
            n == self@.len(),
    {
        self.buf.len()
    }

    /// Appends bytes that have arrived. An empty chunk changes nothing.
    pub fn push(&mut self, chunk: &[u8])
        ensures
            final(self)@ == old(self)@ + chunk@,
    {
        self.buf.extend_from_slice(chunk);
        assert(self@ =~= old(self)@ + chunk@);
    }

    /// Appends bytes that have arrived, unless the stream would then hold
    /// more than `max` bytes: this is fatal to the direction, and the stream
    /// is left as it was.
    pub fn push_within(&mut self, chunk: &[u8], max: usize) -> (r: Result<(), FramingError>)
        ensures
            r is Ok <==> old(self)@.len() + chunk@.len() <= max,
            r is Ok ==> final(self)@ == old(self)@ + chunk@,
            r is Err ==> r == Err::<(), FramingError>(FramingError::BufferFull) && final(self)@
                == old(self)@,
    {
        if chunk.len() > max || self.buf.len() > max - chunk.len() {
            return Err(FramingError::BufferFull);
        }
        self.push(chunk);
        Ok(())
    }

    /// Takes the first `n` bytes off the stream.
    fn discard(&mut self, n: usize)
        requires
            n <= old(self)@.len(),
        ensures
            final(self)@ == old(self)@.skip(n as int),
    {
        let rest = self.buf.split_off(n);
        self.buf = rest;
        assert(self@ =~= old(self)@.skip(n as int));
    }

    /// One step in the dialect whose header has `header_len` bytes.
    fn step(&mut self, header_len: usize, max_frame_len: usize, at_end: bool) -> (event:
        FrameEvent)
        requires
            5 <= header_len <= 9,
        ensures
            step_done(
                old(self)@,
                frame_step(old(self)@, header_len as nat, max_frame_len as nat, at_end),
                event,
                final(self)@,
            ),
    {
        let have = self.buf.len();
        if have < header_len {
            return if at_end {
                FrameEvent::EndOfStream
            } else {
                FrameEvent::NeedMore
            };
        }
        if self.buf[0] != FRAME_MAGIC {
            self.discard(header_len);
            return FrameEvent::Skipped;
        }
        let b1: i64 = self.buf[1] as i64;
        let b2: i64 = self.buf[2] as i64;
        let b3: i64 = self.buf[3] as i64;
        let b4: i64 = self.buf[4] as i64;
        let unsigned: i64 = b1 * 0x100_0000 + b2 * 0x1_0000 + b3 * 0x100 + b4;
        let total: i64 = if unsigned >= 0x8000_0000 {
            unsigned - 0x1_0000_0000
        } else {
            unsigned
        };
        assert(total == declared_length(self@));
        if total < header_len as i64 {
            return FrameEvent::Failed(FramingError::NegativeLength);
        }
        if total as u64 > max_frame_len as u64 {
            return FrameEvent::Failed(FramingError::Oversized);
        }
        let total: usize = total as usize;
        if have < total {
            return if at_end {
                FrameEvent::Failed(FramingError::ShortRead)
            } else {
                FrameEvent::NeedMore
            };
        }
        let payload = if total >= PAYLOAD_OFFSET {
            slice_to_vec(slice_subrange(self.buf.as_slice(), PAYLOAD_OFFSET, total))
        } else {
            Vec::new()
        };
        self.discard(total);
        FrameEvent::Payload(payload)
    }

    /// One step on a stream towards the client.
    ///
    /// With fewer than nine bytes at hand nothing is taken. A header without
    /// the magic byte is dropped. Else the header declares the length of its
    /// frame: one below nine or above `max_frame_len` is fatal, and once all
    /// the frame is at hand it is taken off the stream and its bytes from the
    /// eighth on are handed out.
    pub fn incoming_step(&mut self, max_frame_len: usize, at_end: bool) -> (event: FrameEvent)
        ensures
            step_done(
                old(self)@,
                incoming_frame(old(self)@, max_frame_len as nat, at_end),
                event,
                final(self)@,
            ),
    {
        self.step(INCOMING_HEADER_LEN, max_frame_len, at_end)
    }

    /// One step on a stream towards the service.
    ///
    /// With fewer than five bytes at hand nothing is taken. A header without
    /// the magic byte is dropped. Else the header declares the length of its
    /// frame: one below five or above `max_frame_len` is fatal, and once all
    /// the frame is at hand it is taken off the stream and its bytes from the
    /// eighth on are handed out: none, if the frame has fewer than eight.
    pub fn outgoing_step(&mut self, max_frame_len: usize, at_end: bool) -> (event: FrameEvent)
        ensures
            step_done(
                old(self)@,
                outgoing_frame(old(self)@, max_frame_len as nat, at_end),
                event,
                final(self)@,
            ),
    {
        self.step(OUTGOING_HEADER_LEN, max_frame_len, at_end)
    }
}

/// The directions that a TCP segment belongs to: incoming if it comes from
/// the port of the service, outgoing if it goes to that port.
pub fn segment_directions(source_port: u16, destination_port: u16) -> (r: (bool, bool))
    ensures
        r.0 == (source_port == SERVICE_PORT),
        r.1 == (destination_port == SERVICE_PORT),
{
    (source_port == SERVICE_PORT, destination_port == SERVICE_PORT)
}

/// The streams of the two directions of one connection.
#[derive(Debug)]
pub struct Directions {
    /// Bytes that the service has sent.
    pub incoming: ByteReciever,
    /// Bytes that were sent to the service.
    pub outgoing: ByteReciever,
}

impl Directions {
    /// Two streams on which nothing has arrived.
    pub fn new() -> (r: Self)
        ensures
            r.incoming@ == Seq::<u8>::empty(),
            r.outgoing@ == Seq::<u8>::empty(),
    {
        Directions { incoming: ByteReciever::new(), outgoing: ByteReciever::new() }
    }

    /// Files the payload of a TCP segment under its direction: under
    /// incoming if it comes from the port of the service, under outgoing if
    /// it goes to that port. A segment between other ports changes nothing,
    /// and no segment changes the stream of a direction that it does not
    /// belong to.
    pub fn accept(&mut self, source_port: u16, destination_port: u16, payload: &[u8])
        ensures
            final(self).incoming@ == if source_port == SERVICE_PORT {
                old(self).incoming@ + payload@
            } else {
                old(self).incoming@
            },
            final(self).outgoing@ == if destination_port == SERVICE_PORT {
                old(self).outgoing@ + payload@
            } else {
                old(self).outgoing@
            },
    {
        let (incoming, outgoing) = segment_directions(source_port, destination_port);
        if incoming {
            self.incoming.push(payload);
        }
        if outgoing {
            self.outgoing.push(payload);
        }
    }
}

/// What a segment of the connection carries: its source port, its
/// destination port and its payload.
pub type Segment = (u16, u16, Seq<u8>);

/// The bytes that the service has sent in the segments `segments`.
pub open spec fn incoming_bytes(segments: Seq<Segment>) -> Seq<u8>
    decreases segments.len(),
{
    if segments.len() == 0 {
        Seq::empty()
    } else if segments.last().0 == SERVICE_PORT {
        incoming_bytes(segments.drop_last()) + segments.last().2
    } else {
        incoming_bytes(segments.drop_last())
    }
}

/// The bytes that were sent to the service in the segments `segments`.
pub open spec fn outgoing_bytes(segments: Seq<Segment>) -> Seq<u8>
    decreases segments.len(),
{
    if segments.len() == 0 {
        Seq::empty()
    } else if segments.last().1 == SERVICE_PORT {
        outgoing_bytes(segments.drop_last()) + segments.last().2
    } else {
        outgoing_bytes(segments.drop_last())
    }
}

/// The stream of a direction does not depend on the traffic of the other:
/// taking out a segment that the service has not sent leaves the incoming
/// bytes as they are, and taking out one that was not sent to the service
/// leaves the outgoing bytes as they are.
pub proof fn lemma_directions_are_independent(segments: Seq<Segment>, i: int)
    requires
        0 <= i < segments.len(),
    ensures
        segments[i].0 != SERVICE_PORT ==> incoming_bytes(segments.remove(i)) == incoming_bytes(
            segments,
        ),
        segments[i].1 != SERVICE_PORT ==> outgoing_bytes(segments.remove(i)) == outgoing_bytes(
            segments,
        ),
    decreases segments.len(),
{
    let n = segments.len();
    if i == n - 1 {
        assert(segments.remove(i) =~= segments.drop_last());
    } else {
        lemma_directions_are_independent(segments.drop_last(), i);
        assert(segments.remove(i).drop_last() =~= segments.drop_last().remove(i));
        assert(segments.remove(i).last() == segments.last());
    }
}

/// A frame towards the client whose declared length is the length of its
/// header does no harm: it is taken off the stream like any other, and its
/// payload is the last two bytes of the header.
pub proof fn lemma_incoming_frame_of_header_only(buf: Seq<u8>, max_frame_len: nat, at_end: bool)
    requires
        buf.len() >= INCOMING_HEADER_LEN,
        buf[0] == FRAME_MAGIC,
        declared_length(buf) == INCOMING_HEADER_LEN,
        max_frame_len >= INCOMING_HEADER_LEN,
    ensures
        incoming_frame(buf, max_frame_len, at_end) == (FrameStep::Payload {
            payload: buf.subrange(7, 9),
            taken: 9,
        }),
{
}

/// A frame towards the service whose declared length is the length of its
/// header does no harm: it is taken off the stream like any other, and its
/// payload is empty.
pub proof fn lemma_outgoing_frame_of_header_only(buf: Seq<u8>, max_frame_len: nat, at_end: bool)
    requires
        buf.len() >= OUTGOING_HEADER_LEN,
        buf[0] == FRAME_MAGIC,
        declared_length(buf) == OUTGOING_HEADER_LEN,
        max_frame_len >= OUTGOING_HEADER_LEN,
    ensures
        outgoing_frame(buf, max_frame_len, at_end) == (FrameStep::Payload {
            payload: Seq::empty(),
            taken: 5,
        }),
{
}

/// A step that has found something finds the same when more bytes have
/// arrived: how the stream is cut into chunks does not change the frames.
pub proof fn lemma_found_step_is_stable(
    buf: Seq<u8>,
    more: Seq<u8>,
    header_len: nat,
    max_frame_len: nat,
    at_end: bool,
)
    requires
        header_len >= 5,
        !(frame_step(buf, header_len, max_frame_len, false) is NeedMore),
    ensures
        frame_step(buf + more, header_len, max_frame_len, at_end) == frame_step(
            buf,
            header_len,
            max_frame_len,
            false,
        ),
{
    let all = buf + more;
    assert(all[0] == buf[0]);
    assert(all.skip(1)[0] == buf.skip(1)[0]);
    assert(all.skip(1)[1] == buf.skip(1)[1]);
    assert(all.skip(1)[2] == buf.skip(1)[2]);
    assert(all.skip(1)[3] == buf.skip(1)[3]);
    if buf[0] == FRAME_MAGIC {
        let total = declared_length(buf);
        if header_len <= total <= max_frame_len && total >= PAYLOAD_OFFSET {
            assert(all.subrange(PAYLOAD_OFFSET as int, total) =~= buf.subrange(
                PAYLOAD_OFFSET as int,
                total,
            ));
        }
    }
}

} // verus!
