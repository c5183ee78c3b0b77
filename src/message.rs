use vstd::prelude::*;

use crate::timestamp::{TimeView, Timestamp};
use crate::wire::bytes_view;
use bytes::BytesMut;

verus! {

/// Identifies a stream; equal ids denote the same logical channel.
#[derive(Debug, Clone, Copy, PartialEq, Eq, Hash, Structural)]
pub struct StreamId(pub u64);

impl StreamId {
    pub fn new(id: u64) -> (r: StreamId)
        ensures
            r.0 == id,
    {
        StreamId(id)
    }
}

/// The routing envelope of a message: the stream it travels on and the operator it is for.
#[derive(Debug, Clone, PartialEq, Eq)]
pub struct MessageMetadata {
    pub stream_id: StreamId,
    pub target: String,
}

/// The value of a [`MessageMetadata`]: stream id and target name.
pub type MetadataView = (u64, Seq<char>);

impl View for MessageMetadata {
    type V = MetadataView;

    open spec fn view(&self) -> MetadataView {
        (self.stream_id.0, self.target@)
    }
}

/// A message between processes.
#[derive(Debug)]
pub enum InterProcessMessage {
    /// Producer side: the metadata, and the payload as the typed layer encoded it.
    Deserialized { metadata: MessageMetadata, data: Vec<u8> },
    /// Consumer side: the metadata, and the payload bytes as they came off the wire.
    Serialized { metadata: MessageMetadata, bytes: BytesMut },
}

impl View for InterProcessMessage {
    type V = (MetadataView, Seq<u8>);

    open spec fn view(&self) -> (MetadataView, Seq<u8>) {
        match self {
            InterProcessMessage::Deserialized { metadata, data } => (metadata@, data@),
            InterProcessMessage::Serialized { metadata, bytes } => (metadata@, bytes_view(*bytes)),
        }
    }
}

/// A data item with the time it belongs to.
#[derive(Debug, Clone, PartialEq)]
pub struct TimestampedData<D> {
    pub timestamp: Timestamp,
    pub data: D,
}

/// What travels on a stream: data at a time, or a watermark that promises that no
/// later message carries an earlier time.
#[derive(Debug, Clone, PartialEq)]
pub enum Message<D> {
    TimestampedData(TimestampedData<D>),
    Watermark(Timestamp),
}

impl<D> Message<D> {
    pub open spec fn time(&self) -> TimeView {
        match self {
            Message::TimestampedData(td) => td.timestamp@,
            Message::Watermark(t) => t@,
        }
    }

    pub fn new_message(timestamp: Timestamp, data: D) -> (r: Message<D>)
        ensures
            r == Message::TimestampedData(TimestampedData { timestamp, data }),
    {
        Message::TimestampedData(TimestampedData { timestamp, data })
    }

    pub fn new_watermark(timestamp: Timestamp) -> (r: Message<D>)
        ensures
            r == Message::<D>::Watermark(timestamp),
    {
        Message::Watermark(timestamp)
    }

    pub fn timestamp(&self) -> (r: &Timestamp)
        ensures
            r@ == self.time(),
    {
        match self {
            Message::TimestampedData(td) => &td.timestamp,
            Message::Watermark(t) => t,
        }
    }

    pub fn is_watermark(&self) -> (r: bool)
        ensures
            r == self is Watermark,
    {
        match self {
            Message::Watermark(_) => true,
            _ => false,
        }
    }

    /// Whether this is the watermark at the top timestamp, which closes a stream.
    pub fn is_top_watermark(&self) -> (r: bool)
        ensures
            r == (self is Watermark && self.time() == TimeView::Top),
    {
        match self {
            Message::Watermark(t) => t.is_top(),
            _ => false,
        }
    }

    pub fn data(&self) -> (r: Option<&D>)
        ensures
            r matches Some(d) ==> self matches Message::TimestampedData(td) && *d == td.data,
            r is None <==> self is Watermark,
    {
        match self {
            Message::TimestampedData(td) => Some(&td.data),
            _ => None,
        }
    }
}

} // verus!
