use ouisync::dispatcher::{
    decode_frame, decode_message, encode_frame, encode_message, Message, RecvQueues, SendStep,
    Sinks,
};
use ouisync::error::Error;
use ouisync::request::{RequestKind, RequestTracker, TickOutcome};

#[test]
fn frames_round_trip() {
    let frame = encode_frame(b"hello world").unwrap();
    assert_eq!(&frame[..4], &[11, 0, 0, 0]);
    let mut stream = frame.clone();
    stream.extend_from_slice(&encode_frame(b"").unwrap());
    stream.extend_from_slice(b"\x05\x00");

    let (first, used) = decode_frame(&stream).unwrap();
    assert_eq!(first, b"hello world".to_vec());
    assert_eq!(used, 15);
    let (second, used2) = decode_frame(&stream[used..]).unwrap();
    assert!(second.is_empty());
    assert_eq!(used2, 4);
    // An incomplete frame waits for more bytes.
    assert_eq!(decode_frame(&stream[used + used2..]), None);
    assert_eq!(decode_frame(&[5, 0, 0, 0, 1, 2]), None);
}

#[test]
fn messages_carry_their_channel() {
    let m = Message { channel: [7; 32], content: b"one two three".to_vec() };
    let payload = encode_message(&m);
    assert_eq!(payload.len(), 32 + 13);
    let back = decode_message(&payload).unwrap();
    assert_eq!(back.channel, [7; 32]);
    assert_eq!(back.content, b"one two three".to_vec());
    assert!(matches!(decode_message(&[1, 2, 3]), Err(Error::Corrupt)));
}

#[test]
fn receive_queues_are_per_channel_and_bounded() {
    let mut queues = RecvQueues::new(2);
    assert!(queues.push(&[1; 32], b"one two three".to_vec()));
    assert!(queues.push(&[2; 32], b"four five six".to_vec()));
    assert!(queues.push(&[1; 32], b"seven".to_vec()));
    assert!(!queues.push(&[1; 32], b"dropped".to_vec()));
    assert_eq!(queues.pop(&[1; 32]), Some(b"one two three".to_vec()));
    assert_eq!(queues.pop(&[1; 32]), Some(b"seven".to_vec()));
    assert_eq!(queues.pop(&[1; 32]), None);
    assert_eq!(queues.pop(&[2; 32]), Some(b"four five six".to_vec()));
    assert_eq!(queues.pop(&[3; 32]), None);
}

#[test]
fn sending_fails_over_to_the_next_stream() {
    let mut sinks = Sinks::new();
    let a = sinks.add();
    let b = sinks.add();
    assert_eq!(sinks.pick(), Some(a));
    assert_eq!(sinks.after_send(a, false), SendStep::Retry);
    assert_eq!(sinks.pick(), Some(b));
    assert_eq!(sinks.after_send(b, true), SendStep::Delivered);
    assert_eq!(sinks.pick(), Some(b));
    assert_eq!(sinks.after_send(b, false), SendStep::Failed);
    assert!(sinks.is_empty());
    assert_eq!(sinks.pick(), None);
}

#[test]
fn requests_wait_for_room_and_time_out_once() {
    let mut tracker = RequestTracker::new(1, 2, 30_000);
    tracker.enqueue(1, RequestKind::Index);
    tracker.enqueue(2, RequestKind::Index);
    tracker.enqueue(3, RequestKind::Block);
    assert_eq!(tracker.next_to_send(0), Some(1));
    // Only one index request may be in flight: the block request goes next.
    assert_eq!(tracker.next_to_send(0), Some(3));
    assert_eq!(tracker.next_to_send(0), None);
    assert!(tracker.on_response(1));
    assert!(!tracker.on_response(1));
    assert_eq!(tracker.next_to_send(10), Some(2));

    // Request 3 times out and is queued again; request 2 is answered in time.
    assert_eq!(tracker.on_tick(30_001), TickOutcome::Continue);
    assert!(tracker.on_response(2));
    assert_eq!(tracker.next_to_send(30_001), Some(3));
    assert_eq!(tracker.on_tick(60_001), TickOutcome::Continue);
    // The retried request times out again: the link fails.
    assert_eq!(tracker.on_tick(60_002), TickOutcome::FailLink);
}
