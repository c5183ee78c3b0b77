use vstd::prelude::*;

use crate::message::{Message, StreamId};
use crate::timestamp::{group_time_order, TimeView, Timestamp};
use std::sync::Arc;
use tokio::sync::broadcast;
use tokio::sync::mpsc::UnboundedSender;

verus! {

broadcast use group_time_order;

#[verifier::external_type_specification]
#[verifier::external_body]
#[verifier::reject_recursive_types(T)]
pub struct ExUnboundedSender<T>(UnboundedSender<T>);

#[verifier::external_type_specification]
#[verifier::external_body]
#[verifier::reject_recursive_types(T)]
pub struct ExBroadcastSender<T>(broadcast::Sender<T>);

#[verifier::external_type_specification]
#[verifier::external_body]
#[verifier::reject_recursive_types(T)]
pub struct ExBroadcastReceiver<T>(broadcast::Receiver<T>);

/// How many recent notifications the bus keeps for subscribers that lag.
pub const NOTIFICATION_CAPACITY: usize = 128;

/// The decimal digits of a number, most significant first, with no leading zero.
pub open spec fn decimal_of(n: u64) -> Seq<char>
    decreases n,
{
    let digit = seq!['0', '1', '2', '3', '4', '5', '6', '7', '8', '9'][(n % 10) as int];
    if n < 10 {
        seq![digit]
    } else {
        decimal_of(n / 10).push(digit)
    }
}

/// Relies on `u64::to_string` (through `Display`): the decimal form of `n`.
#[verifier::external_body]
fn decimal(n: u64) -> (r: String)
    ensures
        r@ == decimal_of(n),
{
    n.to_string()
}

/// Relies on `tokio::sync::broadcast::channel`, which panics on a zero capacity and on one
/// above `usize::MAX / 2`; the first receiver is dropped.
#[verifier::external_body]
fn notification_channel(capacity: usize) -> (r: broadcast::Sender<Notification>)
    requires
        0 < capacity <= usize::MAX / 2,
{
    broadcast::channel(capacity).0
}

/// Relies on `broadcast::Sender::send`: whether some subscriber was there to take it.
#[verifier::external_body]
fn publish(tx: &broadcast::Sender<Notification>, n: Notification) -> (delivered: bool) {
    tx.send(n).is_ok()
}

/// Relies on `broadcast::Sender::subscribe`: a receiver of the notifications sent from now on.
#[verifier::external_body]
fn subscribe_to(tx: &broadcast::Sender<Notification>) -> (r: broadcast::Receiver<Notification>) {
    tx.subscribe()
}

/// Relies on `UnboundedSender::send` of a shared handle to the message: whether the
/// endpoint took it.
#[verifier::external_body]
fn deliver<D>(endpoint: &UnboundedSender<Arc<Message<D>>>, msg: &Arc<Message<D>>) -> (ok: bool) {
    endpoint.send(msg.clone()).is_ok()
}

/// Why a send on a write stream failed.
#[derive(Debug, Clone, Copy, PartialEq, Eq, Structural)]
pub enum WriteStreamError {
    /// The stream was closed by a top watermark.
    Closed,
    /// The message's time is before the stream's low watermark.
    TimestampViolation,
    /// Some endpoint did not take the message.
    EndpointError,
}

/// What a write stream tells its observers.
#[derive(Debug, Clone, PartialEq)]
pub enum NotificationType {
    SentData(StreamId, Timestamp),
    SentWatermark(StreamId, Timestamp),
}

#[derive(Debug, Clone, PartialEq)]
pub struct Notification {
    pub notification_type: NotificationType,
}

/// The value of a notification: its kind, the stream, and the time sent.
pub enum NoticeView {
    SentData(StreamId, TimeView),
    SentWatermark(StreamId, TimeView),
}

impl View for Notification {
    type V = NoticeView;

    open spec fn view(&self) -> NoticeView {
        match self.notification_type {
            NotificationType::SentData(id, t) => NoticeView::SentData(id, t@),
            NotificationType::SentWatermark(id, t) => NoticeView::SentWatermark(id, t@),
        }
    }
}

/// The notice that sending `msg` on stream `id` gives.
pub open spec fn notice_for<D>(id: StreamId, msg: Message<D>) -> NoticeView {
    match msg {
        Message::TimestampedData(_) => NoticeView::SentData(id, msg.time()),
        Message::Watermark(_) => NoticeView::SentWatermark(id, msg.time()),
    }
}

/// The notification that tells observers `msg` was sent on stream `id`.
pub fn notification_for<D>(id: StreamId, msg: &Message<D>) -> (n: Notification)
    ensures
        n@ == notice_for(id, *msg),
{
    let notification_type = match msg {
        Message::TimestampedData(td) => NotificationType::SentData(id, td.timestamp.copied()),
        Message::Watermark(t) => NotificationType::SentWatermark(id, t.copied()),
    };
    Notification { notification_type }
}

/// Each of the first `n` endpoints, in order, offered `msg`.
pub open spec fn offers<D>(n: nat, msg: Message<D>) -> Seq<(nat, Message<D>)> {
    Seq::new(n, |i: int| (i as nat, msg))
}

/// Hands out stream ids in a fixed order, so that the same sequence of requests gives
/// the same ids on every node.
pub struct StreamIdSource {
    next: u64,
}

impl StreamIdSource {
    pub closed spec fn upcoming(&self) -> u64 {
        self.next
    }

    pub fn new(seed: u64) -> (r: StreamIdSource)
        ensures
            r.upcoming() == seed,
    {
        StreamIdSource { next: seed }
    }

    pub fn new_deterministic(&mut self) -> (r: StreamId)
        ensures
            r.0 == old(self).upcoming(),
            final(self).upcoming() == if old(self).upcoming() == u64::MAX { 0 } else { (old(self).upcoming() + 1) as u64 },
    {
        let id = self.next;
        self.next = if self.next == u64::MAX { 0 } else { self.next + 1 };
        StreamId(id)
    }
}

/// The producer side of a stream: it keeps watermarks monotone, hands each message to
/// every endpoint, tells observers what was sent, and closes on a top watermark.
#[verifier::reject_recursive_types(D)]
pub struct WriteStream<D> {
    id: StreamId,
    name: String,
    endpoints: Vec<UnboundedSender<Arc<Message<D>>>>,
    low_watermark: Timestamp,
    stream_closed: bool,
    notification_tx: broadcast::Sender<Notification>,
    /// The notifications published so far, oldest first.
    published: Ghost<Seq<NoticeView>>,
    /// Each message handed to an endpoint so far, with the endpoint's position, oldest first.
    offered: Ghost<Seq<(nat, Message<D>)>>,
}

impl<D> WriteStream<D> {
    pub closed spec fn stream_id(&self) -> StreamId {
        self.id
    }

    pub closed spec fn stream_name(&self) -> Seq<char> {
        self.name@
    }

    pub closed spec fn low(&self) -> TimeView {
        self.low_watermark@
    }

    pub closed spec fn closed(&self) -> bool {
        self.stream_closed
    }

    pub closed spec fn endpoint_count(&self) -> nat {
        self.endpoints@.len()
    }

    /// The notifications this stream has published, oldest first.
    pub closed spec fn published(&self) -> Seq<NoticeView> {
        self.published@
    }

    /// The messages this stream has handed to its endpoints, each with the endpoint's
    /// position, oldest first.
    pub closed spec fn offered(&self) -> Seq<(nat, Message<D>)> {
        self.offered@
    }

    /// An open stream with the next id of `ids`, named after it.
    pub fn new(ids: &mut StreamIdSource) -> (r: Self)
        ensures
            r.stream_id().0 == old(ids).upcoming(),
            r.stream_name() == decimal_of(r.stream_id().0),
            r.low() == TimeView::Time(seq![0u64]),
            !r.closed(),
            r.endpoint_count() == 0,
            final(ids).upcoming() == if old(ids).upcoming() == u64::MAX { 0 } else { (old(ids).upcoming() + 1) as u64 },
    {
        let id = ids.new_deterministic();
        let name = decimal(id.0);
        Self::new_internal(id, name)
    }

    /// An open stream with the next id of `ids` and the given name.
    pub fn new_with_name(ids: &mut StreamIdSource, name: &str) -> (r: Self)
        ensures
            r.stream_id().0 == old(ids).upcoming(),
            r.stream_name() == name@,
            r.low() == TimeView::Time(seq![0u64]),
            !r.closed(),
            r.endpoint_count() == 0,
            final(ids).upcoming() == if old(ids).upcoming() == u64::MAX { 0 } else { (old(ids).upcoming() + 1) as u64 },
    {
        let id = ids.new_deterministic();
        Self::new_internal(id, name.to_string())
    }

    /// An open stream with the given id, named after it.
    pub fn new_with_id(id: StreamId) -> (r: Self)
        ensures
            r.stream_id() == id,
            r.stream_name() == decimal_of(id.0),
            r.low() == TimeView::Time(seq![0u64]),
            !r.closed(),
            r.endpoint_count() == 0,
    {
        let name = decimal(id.0);
        Self::new_internal(id, name)
    }

    fn new_internal(id: StreamId, name: String) -> (r: Self)
        ensures
            r.stream_id() == id,
            r.stream_name() == name@,
            r.low() == TimeView::Time(seq![0u64]),
            !r.closed(),
            r.endpoint_count() == 0,
    {
        let mut start: Vec<u64> = Vec::new();
        start.push(0);
        assert(start@ =~= seq![0u64]);
        Self {
            id,
            name,
            endpoints: Vec::new(),
            low_watermark: Timestamp::new(start),
            stream_closed: false,
            notification_tx: notification_channel(NOTIFICATION_CAPACITY),
            published: Ghost(Seq::empty()),
            offered: Ghost(Seq::empty()),
        }
    }

    /// An open stream with the given id that sends to each of `endpoints`.
    pub fn from_endpoints(endpoints: Vec<UnboundedSender<Arc<Message<D>>>>, id: StreamId) -> (r: Self)
        ensures
            r.stream_id() == id,
            r.low() == TimeView::Time(seq![0u64]),
            !r.closed(),
            r.endpoint_count() == endpoints@.len(),
    {
        let mut stream = Self::new_with_id(id);
        stream.endpoints = endpoints;
        stream
    }

    pub fn get_id(&self) -> (r: StreamId)
        ensures
            r == self.stream_id(),
    {
        self.id
    }

    pub fn get_name(&self) -> (r: &str)
        ensures
            r@ == self.stream_name(),
    {
        self.name.as_str()
    }

    pub fn get_low_watermark(&self) -> (r: &Timestamp)
        ensures
            r@ == self.low(),
    {
        &self.low_watermark
    }

    /// Whether a top watermark has been sent (or the stream was closed by hand).
    pub fn is_closed(&self) -> (r: bool)
        ensures
            r == self.closed(),
    {
        self.stream_closed
    }

    /// Adds an endpoint that receives every message sent from now on.
    pub fn add_endpoint(&mut self, endpoint: UnboundedSender<Arc<Message<D>>>) -> (r: Result<(), WriteStreamError>)
        ensures
            old(self).closed() ==> r == Err::<(), WriteStreamError>(WriteStreamError::Closed)
                && final(self).endpoint_count() == old(self).endpoint_count(),
            !old(self).closed() ==> r is Ok && final(self).endpoint_count() == old(self).endpoint_count() + 1,
            final(self).closed() == old(self).closed(),
            final(self).low() == old(self).low(),
            final(self).stream_id() == old(self).stream_id(),
    {
        if self.stream_closed {
            return Err(WriteStreamError::Closed);
        }
        self.endpoints.push(endpoint);
        Ok(())
    }

    /// Closes the stream for future messages and lets go of its endpoints.
    pub fn close_stream(&mut self)
        ensures
            final(self).closed(),
            final(self).endpoint_count() == 0,
            final(self).low() == old(self).low(),
            final(self).stream_id() == old(self).stream_id(),
            final(self).published() == old(self).published(),
            final(self).offered() == old(self).offered(),
    {
        self.stream_closed = true;
        self.endpoints = Vec::new();
    }

    /// Checks the message's time against the low watermark, which a watermark advances.
    fn update_watermark(&mut self, msg: &Message<D>) -> (r: Result<(), WriteStreamError>)
        ensures
            msg.time().lt(old(self).low()) ==> r == Err::<(), WriteStreamError>(WriteStreamError::TimestampViolation),
            !msg.time().lt(old(self).low()) ==> r is Ok,
            final(self).low() == if r is Ok && msg is Watermark { msg.time() } else { old(self).low() },
            final(self).closed() == old(self).closed(),
            final(self).endpoint_count() == old(self).endpoint_count(),
            final(self).stream_id() == old(self).stream_id(),
            final(self).published() == old(self).published(),
            final(self).offered() == old(self).offered(),
    {
        if msg.timestamp().precedes(&self.low_watermark) {
            return Err(WriteStreamError::TimestampViolation);
        }
        if let Message::Watermark(t) = msg {
            self.low_watermark = t.copied();
        }
        Ok(())
    }

    /// Settles a send whose message every endpoint was offered: `all_delivered` says
    /// whether each took it. It succeeds, closing the stream when `close` is set, only if
    /// all did; else the stream stays as it is and the endpoint error is returned.
    pub fn conclude_send(&mut self, all_delivered: bool, close: bool) -> (r: Result<(), WriteStreamError>)
        ensures
            all_delivered ==> r is Ok && (final(self).closed() <==> (old(self).closed() || close)),
            !all_delivered ==> r == Err::<(), WriteStreamError>(WriteStreamError::EndpointError)
                && final(self).closed() == old(self).closed(),
            !final(self).closed() ==> final(self).endpoint_count() == old(self).endpoint_count(),
            final(self).low() == old(self).low(),
            final(self).stream_id() == old(self).stream_id(),
            final(self).published() == old(self).published(),
            final(self).offered() == old(self).offered(),
    {
        if !all_delivered {
            return Err(WriteStreamError::EndpointError);
        }
        if close {
            self.close_stream();
        }
        Ok(())
    }

    /// Sends a message: refused on a closed stream and below the low watermark; else a
    /// watermark advances the low watermark, observers are told, every endpoint is handed
    /// the message, and a top watermark that every endpoint took closes the stream.
    pub fn send(&mut self, msg: Message<D>) -> (r: Result<(), WriteStreamError>)
        ensures
            old(self).closed() ==> r == Err::<(), WriteStreamError>(WriteStreamError::Closed),
            !old(self).closed() && msg.time().lt(old(self).low()) ==> r == Err::<(), WriteStreamError>(
                WriteStreamError::TimestampViolation,
            ),
            !old(self).closed() && !msg.time().lt(old(self).low()) ==> r is Ok || r == Err::<(), WriteStreamError>(
                WriteStreamError::EndpointError,
            ),
            !old(self).closed() && !msg.time().lt(old(self).low()) && old(self).endpoint_count() == 0 ==> r is Ok,
            old(self).closed() || msg.time().lt(old(self).low()) ==> final(self).low() == old(self).low()
                && final(self).closed() == old(self).closed() && final(self).endpoint_count()
                == old(self).endpoint_count() && final(self).published() == old(self).published()
                && final(self).offered() == old(self).offered(),
            !old(self).closed() && !msg.time().lt(old(self).low()) ==> final(self).low() == if msg is Watermark {
                msg.time()
            } else {
                old(self).low()
            },
            !old(self).closed() && !msg.time().lt(old(self).low()) ==> final(self).published()
                == old(self).published().push(notice_for(old(self).stream_id(), msg)),
            !old(self).closed() && !msg.time().lt(old(self).low()) ==> final(self).offered() == old(self).offered()
                + offers(old(self).endpoint_count(), msg),
            old(self).low().le(final(self).low()),
            old(self).closed() ==> final(self).closed(),
            !old(self).closed() ==> (final(self).closed() <==> (r is Ok && msg.time() == TimeView::Top
                && msg is Watermark)),
            !final(self).closed() ==> final(self).endpoint_count() == old(self).endpoint_count(),
            final(self).stream_id() == old(self).stream_id(),
    {
        if self.stream_closed {
            return Err(WriteStreamError::Closed);
        }
        let close_stream = msg.is_top_watermark();
        match self.update_watermark(&msg) {
            Err(e) => {
                return Err(e);
            },
            Ok(()) => {},
        }
        let notification = notification_for(self.id, &msg);
        let _ = publish(&self.notification_tx, notification);
        proof {
            self.published@ = self.published@.push(notification@);
        }
        let ghost m = msg;
        let ghost offered_before = self.offered@;
        let ghost before = *self;
        let shared = Arc::new(msg);
        let mut all_delivered = true;
        let mut i: usize = 0;
        while i < self.endpoints.len()
            invariant
                i <= self.endpoints@.len(),
                *shared == m,
                self.offered@ == offered_before + offers(i as nat, m),
                self.endpoints == before.endpoints,
                self.low_watermark == before.low_watermark,
                self.stream_closed == before.stream_closed,
                self.id == before.id,
                self.published == before.published,
                !all_delivered ==> i > 0,
            decreases self.endpoints@.len() - i,
        {
            if !deliver(&self.endpoints[i], &shared) {
                all_delivered = false;
            }
            proof {
                assert(offers((i + 1) as nat, m) =~= offers(i as nat, m).push((i as nat, m)));
                self.offered@ = self.offered@.push((i as nat, m));
            }
            i = i + 1;
        }
        self.conclude_send(all_delivered, close_stream)
    }

    /// A receiver of this stream's notifications.
    pub fn subscribe(&self) -> broadcast::Receiver<Notification> {
        subscribe_to(&self.notification_tx)
    }
}

} // verus!
