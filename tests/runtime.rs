use bft_chain::buffer::FutureBuffer;
use bft_chain::bus::SubscriberQueue;
use bft_chain::timer::round_timeout;
use bft_chain::view::View;

#[test]
fn timeout_doubles_up_to_cap() {
    assert_eq!(round_timeout(2000, 0, 60_000), 2000);
    assert_eq!(round_timeout(2000, 1, 60_000), 4000);
    assert_eq!(round_timeout(2000, 4, 60_000), 32_000);
    assert_eq!(round_timeout(2000, 5, 60_000), 60_000);
    assert_eq!(round_timeout(2000, u64::MAX, 60_000), 60_000);
    assert_eq!(round_timeout(0, 9, 60_000), 0);
    assert_eq!(round_timeout(70_000, 0, 60_000), 60_000);
    assert_eq!(round_timeout(1, 63, u64::MAX), 1u64 << 63);
}

#[test]
fn future_messages_wait_for_their_view() {
    let mut buf: FutureBuffer<u32> = FutureBuffer::new(4, 2);
    assert!(buf.push(View::new(2, 0), vec![1; 20], 10));
    assert!(buf.push(View::new(1, 3), vec![1; 20], 11));
    // the sender's quota is used up
    assert!(!buf.push(View::new(3, 0), vec![1; 20], 12));
    assert!(buf.push(View::new(1, 1), vec![2; 20], 13));
    assert!(buf.push(View::new(2, 0), vec![3; 20], 14));
    // the buffer is full
    assert!(!buf.push(View::new(2, 0), vec![4; 20], 15));

    let ready = buf.take_ready(View::new(1, 3));
    let got: Vec<u32> = ready.into_iter().map(|p| p.msg).collect();
    assert_eq!(got, vec![11]);
    // the message for round 1 was stale and is gone; height 2 still waits
    assert_eq!(buf.entries.len(), 2);
    let ready = buf.take_ready(View::new(2, 0));
    let got: Vec<u32> = ready.into_iter().map(|p| p.msg).collect();
    assert_eq!(got, vec![10, 14]);
    assert_eq!(buf.entries.len(), 0);
}

#[test]
fn slow_subscriber_drops_oldest() {
    let mut q: SubscriberQueue<u32> = SubscriberQueue::new(2);
    q.publish(1);
    q.publish(2);
    q.publish(3);
    assert_eq!(q.lag, 1);
    assert_eq!(q.next(), Some(2));
    assert_eq!(q.next(), Some(3));
    assert_eq!(q.next(), None);
    let mut none: SubscriberQueue<u32> = SubscriberQueue::new(0);
    none.publish(7);
    assert_eq!(none.lag, 1);
    assert_eq!(none.next(), None);
}
