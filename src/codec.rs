use vstd::prelude::*;

use crate::message::{InterProcessMessage, MessageMetadata, MetadataView, StreamId};
use crate::wire::{
    buf_len, buf_put_slice, buf_split_to, buf_to_vec, bytes_view, deserialize_metadata,
    metadata_decoding, metadata_encoding, serialize_metadata,
};
use bytes::BytesMut;

verus! {

/// The length of a frame header: two big-endian `u32` sizes.
pub const HEADER_SIZE: usize = 8;

/// Why the codec could not encode or decode.
#[derive(Debug, Clone, Copy, PartialEq, Eq, Structural)]
pub enum CodecError {
    /// The metadata bytes of a frame could not be decoded; the connection is unusable.
    InvalidMetadata,
    /// The encoder was handed a message that is already serialized.
    EncoderMisuse,
    /// The metadata or the payload is too long for a 4-byte size field.
    FrameTooLarge,
}

/// The four big-endian bytes of `n`.
pub open spec fn be_bytes(n: u32) -> Seq<u8> {
    seq![(n >> 24u32) as u8, (n >> 16u32) as u8, (n >> 8u32) as u8, n as u8]
}

/// The number that four big-endian bytes denote.
pub open spec fn be_value(b: Seq<u8>) -> u32 {
    ((b[0] as u32) << 24u32) | ((b[1] as u32) << 16u32) | ((b[2] as u32) << 8u32) | (b[3] as u32)
}

pub proof fn lemma_be_round_trip(n: u32)
    ensures
        be_value(be_bytes(n)) == n,
{
    let b = be_bytes(n);
    let (b0, b1, b2, b3) = (b[0], b[1], b[2], b[3]);
    assert(b0 == (n >> 24u32) as u8 && b1 == (n >> 16u32) as u8 && b2 == (n >> 8u32) as u8 && b3 == n as u8);
    assert(((((n >> 24u32) as u8) as u32) << 24u32) | ((((n >> 16u32) as u8) as u32) << 16u32)
        | ((((n >> 8u32) as u8) as u32) << 8u32) | ((n as u8) as u32) == n) by (bit_vector);
}

/// A whole frame: the two sizes, the metadata bytes, the payload bytes.
pub open spec fn frame(metadata: Seq<u8>, data: Seq<u8>) -> Seq<u8> {
    be_bytes(metadata.len() as u32) + be_bytes(data.len() as u32) + metadata + data
}

/// Where the decoder stands in the current frame.
pub enum StatusView {
    Header,
    Metadata(nat, nat),
    Data(MetadataView, nat),
    Poisoned,
}

/// What one call of `decode` gives: its result, the decoder's next status, and the
/// bytes left in the buffer.
pub type Decoded = (Result<Option<(MetadataView, Seq<u8>)>, CodecError>, StatusView, Seq<u8>);

/// A message was taken off: the decoder is back at a header, `rest` remains.
pub open spec fn emitted(metadata: MetadataView, data: Seq<u8>, rest: Seq<u8>) -> Decoded {
    (Ok(Some((metadata, data))), StatusView::Header, rest)
}

pub open spec fn decode_data(metadata: MetadataView, data_size: nat, buf: Seq<u8>) -> Decoded {
    if buf.len() >= data_size {
        (Ok(Some((metadata, buf.take(data_size as int)))), StatusView::Header, buf.skip(data_size as int))
    } else {
        (Ok(None), StatusView::Data(metadata, data_size), buf)
    }
}

pub open spec fn decode_metadata(metadata_size: nat, data_size: nat, buf: Seq<u8>) -> Decoded {
    if buf.len() >= metadata_size {
        match metadata_decoding(buf.take(metadata_size as int)) {
            Some(m) => decode_data(m, data_size, buf.skip(metadata_size as int)),
            None => (Err(CodecError::InvalidMetadata), StatusView::Poisoned, buf.skip(metadata_size as int)),
        }
    } else {
        (Ok(None), StatusView::Metadata(metadata_size, data_size), buf)
    }
}

pub open spec fn decode_header(buf: Seq<u8>) -> Decoded {
    if buf.len() >= HEADER_SIZE {
        decode_metadata(
            be_value(buf.take(4)) as nat,
            be_value(buf.subrange(4, 8)) as nat,
            buf.skip(HEADER_SIZE as int),
        )
    } else {
        (Ok(None), StatusView::Header, buf)
    }
}

/// One call of `decode` from status `st` on buffer contents `buf`: it goes on through
/// header, metadata and payload as far as the bytes allow.
pub open spec fn decode_spec(st: StatusView, buf: Seq<u8>) -> Decoded {
    match st {
        StatusView::Header => decode_header(buf),
        StatusView::Metadata(m, d) => decode_metadata(m, d, buf),
        StatusView::Data(m, d) => decode_data(m, d, buf),
        StatusView::Poisoned => (Err(CodecError::InvalidMetadata), StatusView::Poisoned, buf),
    }
}

/// A frame whose metadata bytes decode to `m` decodes, from a fresh status, to `m` and
/// its payload, and leaves what follows it untouched.
pub proof fn lemma_decode_frame(mb: Seq<u8>, data: Seq<u8>, rest: Seq<u8>, m: MetadataView)
    requires
        metadata_decoding(mb) == Some(m),
        mb.len() <= u32::MAX,
        data.len() <= u32::MAX,
    ensures
        decode_spec(StatusView::Header, frame(mb, data) + rest) == emitted(m, data, rest),
{
    let buf = frame(mb, data) + rest;
    lemma_be_round_trip(mb.len() as u32);
    lemma_be_round_trip(data.len() as u32);
    assert(buf.take(4) =~= be_bytes(mb.len() as u32));
    assert(buf.subrange(4, 8) =~= be_bytes(data.len() as u32));
    let b1 = buf.skip(8);
    assert(b1 =~= mb + data + rest);
    assert(b1.take(mb.len() as int) =~= mb);
    let b2 = b1.skip(mb.len() as int);
    assert(b2 =~= data + rest);
    assert(b2.take(data.len() as int) =~= data);
    assert(b2.skip(data.len() as int) =~= rest);
}

/// The messages that decoding gives, in order.
pub type Messages = Seq<(MetadataView, Seq<u8>)>;

/// How many parts of a frame are still to come.
pub open spec fn stages_left(st: StatusView) -> nat {
    match st {
        StatusView::Header => 2,
        StatusView::Metadata(..) => 1,
        _ => 0,
    }
}

pub open spec fn status_rank(st: StatusView) -> nat {
    match st {
        StatusView::Header => 0,
        _ => 1,
    }
}

/// Calls `decode` until it gives no message: the messages taken off, then the status
/// and the bytes it stops at.
pub open spec fn drain(st: StatusView, buf: Seq<u8>) -> (Messages, StatusView, Seq<u8>)
    decreases 2 * buf.len() + status_rank(st),
{
    let (r, st1, rest) = decode_spec(st, buf);
    match r {
        Ok(Some(m)) => {
            let (ms, st2, rest2) = drain(st1, rest);
            (seq![m] + ms, st2, rest2)
        },
        _ => (Seq::empty(), st1, rest),
    }
}

/// Hands the chunks to the decoder one after the other, appending each to what is left
/// in the buffer and then draining it.
pub open spec fn feed(st: StatusView, pending: Seq<u8>, chunks: Seq<Seq<u8>>) -> (
    Messages,
    StatusView,
    Seq<u8>,
)
    decreases chunks.len(),
{
    if chunks.len() == 0 {
        (Seq::empty(), st, pending)
    } else {
        let (m1, st1, rest1) = drain(st, pending + chunks[0]);
        let (m2, st2, rest2) = feed(st1, rest1, chunks.drop_first());
        (m1 + m2, st2, rest2)
    }
}

/// More bytes behind the buffer do not change a message that `decode` takes off, and
/// where it gives none, it has gone exactly as far as it could.
pub proof fn lemma_decode_append(st: StatusView, a: Seq<u8>, b: Seq<u8>)
    ensures
        ({
            let (r, st1, ra) = decode_spec(st, a);
            if r is Ok && r->Ok_0 is Some {
                decode_spec(st, a + b) == emitted(r->Ok_0->Some_0.0, r->Ok_0->Some_0.1, ra + b)
            } else {
                decode_spec(st, a + b) == decode_spec(st1, ra + b)
            }
        }),
    decreases stages_left(st),
{
    match st {
        StatusView::Header => {
            if a.len() >= HEADER_SIZE {
                assert((a + b).take(4) =~= a.take(4));
                assert((a + b).subrange(4, 8) =~= a.subrange(4, 8));
                assert((a + b).skip(8) =~= a.skip(8) + b);
                lemma_decode_append(
                    StatusView::Metadata(be_value(a.take(4)) as nat, be_value(a.subrange(4, 8)) as nat),
                    a.skip(8),
                    b,
                );
            }
        },
        StatusView::Metadata(m, d) => {
            if a.len() >= m {
                assert((a + b).take(m as int) =~= a.take(m as int));
                assert((a + b).skip(m as int) =~= a.skip(m as int) + b);
                if let Some(md) = metadata_decoding(a.take(m as int)) {
                    lemma_decode_append(StatusView::Data(md, d), a.skip(m as int), b);
                }
            }
        },
        StatusView::Data(md, d) => {
            if a.len() >= d {
                assert((a + b).take(d as int) =~= a.take(d as int));
                assert((a + b).skip(d as int) =~= a.skip(d as int) + b);
            }
        },
        StatusView::Poisoned => {},
    }
}

/// Draining a buffer with more bytes behind it takes off what draining the buffer alone
/// does, then goes on from where that stopped.
pub proof fn lemma_drain_append(st: StatusView, a: Seq<u8>, b: Seq<u8>)
    ensures
        ({
            let (m1, st1, r1) = drain(st, a);
            let (m2, st2, r2) = drain(st1, r1 + b);
            drain(st, a + b) == (m1 + m2, st2, r2)
        }),
    decreases 2 * a.len() + status_rank(st),
{
    lemma_decode_append(st, a, b);
    let (r, st1, ra) = decode_spec(st, a);
    if let Ok(Some(m)) = r {
        lemma_drain_append(st1, ra, b);
        let (m1, s1, r1) = drain(st1, ra);
        let (m2, s2, r2) = drain(s1, r1 + b);
        assert(seq![m] + m1 + m2 =~= seq![m] + (m1 + m2));
    } else {
        assert(Seq::<(MetadataView, Seq<u8>)>::empty() + drain(st1, ra + b).0 =~= drain(st1, ra + b).0);
    }
}

/// Where draining stops, draining again gives nothing.
pub proof fn lemma_drain_stops(st: StatusView, a: Seq<u8>)
    ensures
        ({
            let (m1, st1, r1) = drain(st, a);
            drain(st1, r1) == (Seq::<(MetadataView, Seq<u8>)>::empty(), st1, r1)
        }),
    decreases 2 * a.len() + status_rank(st),
{
    let (r, st1, ra) = decode_spec(st, a);
    if let Ok(Some(m)) = r {
        lemma_drain_stops(st1, ra);
    } else {
        lemma_decode_append(st, a, Seq::empty());
        assert(a + Seq::<u8>::empty() =~= a);
        assert(ra + Seq::<u8>::empty() =~= ra);
    }
}

proof fn lemma_feed_from_stop(st: StatusView, pending: Seq<u8>, chunks: Seq<Seq<u8>>)
    requires
        drain(st, pending) == (Seq::<(MetadataView, Seq<u8>)>::empty(), st, pending),
    ensures
        feed(st, pending, chunks) == drain(st, pending + chunks.flatten()),
    decreases chunks.len(),
{
    if chunks.len() == 0 {
        assert(pending + chunks.flatten() =~= pending);
    } else {
        let c0 = chunks[0];
        let tail = chunks.drop_first();
        let (m1, st1, r1) = drain(st, pending + c0);
        lemma_drain_stops(st, pending + c0);
        lemma_feed_from_stop(st1, r1, tail);
        lemma_drain_append(st, pending + c0, tail.flatten());
        assert(chunks.flatten() == c0 + tail.flatten());
        assert(pending + chunks.flatten() =~= pending + c0 + tail.flatten());
    }
}

/// Frame split-tolerance: however a byte stream is cut into chunks, handing the chunks
/// to a fresh decoder one by one (draining after each) takes off the same messages, and
/// leaves the decoder and buffer where decoding the whole stream at once does.
pub proof fn lemma_split_tolerance(chunks: Seq<Seq<u8>>)
    ensures
        feed(StatusView::Header, Seq::empty(), chunks) == drain(StatusView::Header, chunks.flatten()),
{
    assert(drain(StatusView::Header, Seq::<u8>::empty()) == (
        Seq::<(MetadataView, Seq<u8>)>::empty(),
        StatusView::Header,
        Seq::<u8>::empty(),
    ));
    lemma_feed_from_stop(StatusView::Header, Seq::empty(), chunks);
    assert(Seq::<u8>::empty() + chunks.flatten() =~= chunks.flatten());
}

/// The frame that encoding a producer-side message writes.
pub open spec fn encoded_frame(msg: InterProcessMessage) -> Seq<u8> {
    match msg {
        InterProcessMessage::Deserialized { metadata, data } => frame(
            metadata_encoding(metadata.stream_id.0, metadata.target@),
            data@,
        ),
        InterProcessMessage::Serialized { .. } => Seq::empty(),
    }
}

/// Both sizes of the message's frame fit their 4-byte fields.
pub open spec fn frame_fits(msg: InterProcessMessage) -> bool {
    match msg {
        InterProcessMessage::Deserialized { metadata, data } => metadata_encoding(
            metadata.stream_id.0,
            metadata.target@,
        ).len() <= u32::MAX && data@.len() <= u32::MAX,
        InterProcessMessage::Serialized { .. } => true,
    }
}

enum DecodeStatus {
    Header,
    Metadata { metadata_size: usize, data_size: usize },
    Data { metadata: MessageMetadata, data_size: usize },
    Poisoned,
}

impl DecodeStatus {
    spec fn view(&self) -> StatusView {
        match self {
            DecodeStatus::Header => StatusView::Header,
            DecodeStatus::Metadata { metadata_size, data_size } => StatusView::Metadata(
                *metadata_size as nat,
                *data_size as nat,
            ),
            DecodeStatus::Data { metadata, data_size } => StatusView::Data(metadata@, *data_size as nat),
            DecodeStatus::Poisoned => StatusView::Poisoned,
        }
    }
}

/// The result of `decode` as a value.
pub open spec fn decoded_view(r: Result<Option<InterProcessMessage>, CodecError>) -> Result<
    Option<(MetadataView, Seq<u8>)>,
    CodecError,
> {
    match r {
        Ok(Some(m)) => Ok(Some(m@)),
        Ok(None) => Ok(None),
        Err(e) => Err(e),
    }
}

/// Frames messages onto a byte stream and takes them off again: each frame holds the
/// size of the metadata, the size of the payload, the metadata, then the payload.
pub struct MessageCodec {
    status: DecodeStatus,
}

fn be_encode(n: u32) -> (r: Vec<u8>)
    ensures
        r@ == be_bytes(n),
{
    let mut r: Vec<u8> = Vec::new();
    r.push((n >> 24u32) as u8);
    r.push((n >> 16u32) as u8);
    r.push((n >> 8u32) as u8);
    r.push(n as u8);
    assert(r@ =~= be_bytes(n));
    r
}

fn be_decode(b: &Vec<u8>, at: usize) -> (r: u32)
    requires
        at + 4 <= b@.len(),
    ensures
        r == be_value(b@.subrange(at as int, at + 4)),
{
    let _ = b.len();
    ((b[at] as u32) << 24u32) | ((b[at + 1] as u32) << 16u32) | ((b[at + 2] as u32) << 8u32) | (b[at + 3] as u32)
}

impl MessageCodec {
    pub closed spec fn status(&self) -> StatusView {
        self.status.view()
    }

    pub fn new() -> (r: MessageCodec)
        ensures
            r.status() == StatusView::Header,
    {
        MessageCodec { status: DecodeStatus::Header }
    }

    /// Takes the next message off the front of `buf`, if all of it is there. Bytes of a
    /// frame that is not complete yet are consumed as far as the frame's parts are
    /// complete, and the decoder remembers where it stands.
    pub fn decode(&mut self, buf: &mut BytesMut) -> (r: Result<Option<InterProcessMessage>, CodecError>)
        ensures
            (decoded_view(r), final(self).status(), bytes_view(*final(buf))) == decode_spec(
                old(self).status(),
                bytes_view(*old(buf)),
            ),
            r matches Ok(Some(m)) ==> m is Serialized,
    {
        let mut st = DecodeStatus::Poisoned;
        core::mem::swap(&mut self.status, &mut st);
        let ghost b0 = bytes_view(*buf);
        let st = match st {
            DecodeStatus::Header => {
                if buf_len(buf) < HEADER_SIZE {
                    self.status = DecodeStatus::Header;
                    return Ok(None);
                }
                let header = buf_to_vec(&buf_split_to(buf, HEADER_SIZE));
                assert(header@.subrange(0, 4) =~= b0.take(4));
                assert(header@.subrange(4, 8) =~= b0.subrange(4, 8));
                assert(bytes_view(*buf) =~= b0.skip(HEADER_SIZE as int));
                DecodeStatus::Metadata {
                    metadata_size: be_decode(&header, 0) as usize,
                    data_size: be_decode(&header, 4) as usize,
                }
            },
            other => other,
        };
        let ghost b1 = bytes_view(*buf);
        let st = match st {
            DecodeStatus::Metadata { metadata_size, data_size } => {
                if buf_len(buf) < metadata_size {
                    self.status = DecodeStatus::Metadata { metadata_size, data_size };
                    return Ok(None);
                }
                let metadata_bytes = buf_split_to(buf, metadata_size);
                assert(bytes_view(metadata_bytes) =~= b1.take(metadata_size as int));
                assert(bytes_view(*buf) =~= b1.skip(metadata_size as int));
                match deserialize_metadata(&metadata_bytes) {
                    Err(_) => {
                        self.status = DecodeStatus::Poisoned;
                        return Err(CodecError::InvalidMetadata);
                    },
                    Ok((id, target)) => DecodeStatus::Data {
                        metadata: MessageMetadata { stream_id: StreamId(id), target },
                        data_size,
                    },
                }
            },
            other => other,
        };
        let ghost b2 = bytes_view(*buf);
        match st {
            DecodeStatus::Data { metadata, data_size } => {
                if buf_len(buf) < data_size {
                    self.status = DecodeStatus::Data { metadata, data_size };
                    return Ok(None);
                }
                let bytes = buf_split_to(buf, data_size);
                assert(bytes_view(bytes) =~= b2.take(data_size as int));
                assert(bytes_view(*buf) =~= b2.skip(data_size as int));
                self.status = DecodeStatus::Header;
                Ok(Some(InterProcessMessage::Serialized { metadata, bytes }))
            },
            DecodeStatus::Poisoned => {
                self.status = DecodeStatus::Poisoned;
                Err(CodecError::InvalidMetadata)
            },
            other => {
                self.status = other;
                Ok(None)
            },
        }
    }

    /// Appends the frame of a producer-side message to `buf`. A message that is already
    /// serialized is refused, as is one too long to frame; `buf` is then unchanged.
    pub fn encode(&mut self, msg: InterProcessMessage, buf: &mut BytesMut) -> (r: Result<(), CodecError>)
        ensures
            final(self).status() == old(self).status(),
            msg is Serialized ==> r == Err::<(), CodecError>(CodecError::EncoderMisuse),
            r is Err ==> bytes_view(*final(buf)) == bytes_view(*old(buf)),
            r is Ok ==> msg is Deserialized,
            r is Ok ==> bytes_view(*final(buf)) == bytes_view(*old(buf)) + encoded_frame(msg),
            r is Ok ==> decode_spec(StatusView::Header, encoded_frame(msg)) == emitted(msg@.0, msg@.1, Seq::empty()),
            msg is Deserialized ==> (r is Ok <==> frame_fits(msg)),
            msg is Deserialized && !frame_fits(msg) ==> r == Err::<(), CodecError>(CodecError::FrameTooLarge),
    {
        let (metadata, data) = match msg {
            InterProcessMessage::Deserialized { metadata, data } => (metadata, data),
            InterProcessMessage::Serialized { .. } => {
                return Err(CodecError::EncoderMisuse);
            },
        };
        let metadata_serialized = match serialize_metadata(&metadata) {
            Ok(b) => b,
            Err(_) => {
                proof {
                    assert(false);
                }
                return Err(CodecError::FrameTooLarge);
            },
        };
        if metadata_serialized.len() > u32::MAX as usize || data.len() > u32::MAX as usize {
            return Err(CodecError::FrameTooLarge);
        }
        let header_m = be_encode(metadata_serialized.len() as u32);
        let header_d = be_encode(data.len() as u32);
        buf_put_slice(buf, header_m.as_slice());
        buf_put_slice(buf, header_d.as_slice());
        buf_put_slice(buf, metadata_serialized.as_slice());
        buf_put_slice(buf, data.as_slice());
        proof {
            let mb = metadata_serialized@;
            lemma_decode_frame(mb, data@, Seq::<u8>::empty(), metadata@);
            assert(frame(mb, data@) + Seq::<u8>::empty() =~= frame(mb, data@));
            assert(bytes_view(*buf) =~= bytes_view(*old(buf)) + frame(mb, data@));
        }
        Ok(())
    }
}

impl Default for MessageCodec {
    fn default() -> (r: MessageCodec)
        ensures
            r.status() == StatusView::Header,
    {
        MessageCodec::new()
    }
}

} // verus!
