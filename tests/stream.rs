use erdos::message::{Message, StreamId};
use erdos::stream::{notification_for, NotificationType, StreamIdSource, WriteStream, WriteStreamError};
use erdos::timestamp::Timestamp;

#[test]
fn watermark_reject() {
    let mut s: WriteStream<u32> = WriteStream::new_with_id(StreamId(1));
    assert_eq!(s.send(Message::new_message(Timestamp::new(vec![5]), 1)), Ok(()));
    assert_eq!(s.send(Message::new_watermark(Timestamp::new(vec![5]))), Ok(()));
    assert_eq!(s.get_low_watermark(), &Timestamp::new(vec![5]));
    assert_eq!(
        s.send(Message::new_message(Timestamp::new(vec![4]), 2)),
        Err(WriteStreamError::TimestampViolation)
    );
    assert_eq!(s.get_low_watermark(), &Timestamp::new(vec![5]));
    assert_eq!(
        s.send(Message::new_watermark(Timestamp::new(vec![4]))),
        Err(WriteStreamError::TimestampViolation)
    );
    assert_eq!(s.get_low_watermark(), &Timestamp::new(vec![5]));
}

#[test]
fn top_watermark_closes() {
    let mut s: WriteStream<u32> = WriteStream::new_with_id(StreamId(2));
    assert!(!s.is_closed());
    assert_eq!(s.send(Message::new_watermark(Timestamp::top())), Ok(()));
    assert!(s.is_closed());
    assert_eq!(s.send(Message::new_message(Timestamp::top(), 3)), Err(WriteStreamError::Closed));
    assert_eq!(s.send(Message::new_watermark(Timestamp::top())), Err(WriteStreamError::Closed));
    let (tx, _rx) = tokio::sync::mpsc::unbounded_channel();
    assert_eq!(s.add_endpoint(tx), Err(WriteStreamError::Closed));
}

#[test]
fn endpoints_receive_in_send_order() {
    let (tx1, mut rx1) = tokio::sync::mpsc::unbounded_channel();
    let (tx2, mut rx2) = tokio::sync::mpsc::unbounded_channel();
    let mut s: WriteStream<u32> = WriteStream::from_endpoints(vec![tx1], StreamId(3));
    s.add_endpoint(tx2).unwrap();
    let mut notes = s.subscribe();
    s.send(Message::new_message(Timestamp::new(vec![1]), 10)).unwrap();
    s.send(Message::new_watermark(Timestamp::new(vec![1]))).unwrap();
    for rx in [&mut rx1, &mut rx2] {
        assert_eq!(*rx.try_recv().unwrap(), Message::new_message(Timestamp::new(vec![1]), 10));
        assert_eq!(*rx.try_recv().unwrap(), Message::new_watermark(Timestamp::new(vec![1])));
        assert!(rx.try_recv().is_err());
    }
    assert!(notes.try_recv().is_ok());
    assert!(notes.try_recv().is_ok());
}

#[test]
fn endpoint_failure_is_reported_and_others_still_receive() {
    let (tx1, rx1) = tokio::sync::mpsc::unbounded_channel::<std::sync::Arc<Message<u32>>>();
    let (tx2, mut rx2) = tokio::sync::mpsc::unbounded_channel();
    drop(rx1);
    let mut s: WriteStream<u32> = WriteStream::from_endpoints(vec![tx1, tx2], StreamId(4));
    assert_eq!(
        s.send(Message::new_watermark(Timestamp::new(vec![2]))),
        Err(WriteStreamError::EndpointError)
    );
    assert_eq!(s.get_low_watermark(), &Timestamp::new(vec![2]));
    assert!(!s.is_closed());
    assert!(rx2.try_recv().is_ok());
}

#[test]
fn stream_ids_are_deterministic() {
    let mut a = StreamIdSource::new(40);
    let mut b = StreamIdSource::new(40);
    let s1: WriteStream<u8> = WriteStream::new(&mut a);
    let s2: WriteStream<u8> = WriteStream::new(&mut b);
    assert_eq!(s1.get_id(), s2.get_id());
    assert_eq!(s1.get_id(), StreamId(40));
    assert_eq!(s1.get_name(), "40");
    let s3: WriteStream<u8> = WriteStream::new_with_name(&mut a, "camera");
    assert_eq!(s3.get_id(), StreamId(41));
    assert_eq!(s3.get_name(), "camera");
    let s4: WriteStream<u8> = WriteStream::new_with_id(StreamId(0));
    assert_eq!(s4.get_name(), "0");
    let s5: WriteStream<u8> = WriteStream::new_with_id(StreamId(9071));
    assert_eq!(s5.get_name(), "9071");
}

#[test]
fn notification_names_stream_kind_and_time() {
    let d: Message<u32> = Message::new_message(Timestamp::new(vec![3]), 1);
    let w: Message<u32> = Message::new_watermark(Timestamp::new(vec![4]));
    assert_eq!(
        notification_for(StreamId(8), &d).notification_type,
        NotificationType::SentData(StreamId(8), Timestamp::new(vec![3]))
    );
    assert_eq!(
        notification_for(StreamId(8), &w).notification_type,
        NotificationType::SentWatermark(StreamId(8), Timestamp::new(vec![4]))
    );
}

#[test]
fn conclude_send_closes_only_when_all_delivered() {
    let mut s: WriteStream<u32> = WriteStream::new_with_id(StreamId(5));
    assert_eq!(s.conclude_send(false, true), Err(WriteStreamError::EndpointError));
    assert!(!s.is_closed());
    assert_eq!(s.conclude_send(true, false), Ok(()));
    assert!(!s.is_closed());
    assert_eq!(s.conclude_send(true, true), Ok(()));
    assert!(s.is_closed());
}

#[test]
fn refused_send_publishes_nothing() {
    let mut s: WriteStream<u32> = WriteStream::new_with_id(StreamId(6));
    let (tx, mut rx) = tokio::sync::mpsc::unbounded_channel();
    s.add_endpoint(tx).unwrap();
    let mut notes = s.subscribe();
    s.send(Message::new_watermark(Timestamp::new(vec![5]))).unwrap();
    assert!(notes.try_recv().is_ok());
    assert!(rx.try_recv().is_ok());
    assert_eq!(
        s.send(Message::new_message(Timestamp::new(vec![1]), 0)),
        Err(WriteStreamError::TimestampViolation)
    );
    assert!(notes.try_recv().is_err());
    assert!(rx.try_recv().is_err());
}
