use serial_bridge::chunk::Chunk;
use serial_bridge::queue::SlotQueue;

#[test]
fn recv_from_empty_queue_yields_nothing() {
    let mut q = SlotQueue::new();
    assert!(q.try_recv().is_none());
    assert!(q.try_recv().is_none());
}

#[test]
fn send_then_recv_round_trips() {
    let mut q = SlotQueue::new();
    assert!(q.try_send(Chunk::from_bytes(b"hello")).is_ok());
    let got = q.try_recv().expect("a chunk was pending");
    assert_eq!(got.as_bytes(), b"hello");
    assert!(q.try_recv().is_none());
}

#[test]
fn backpressure_refuses_a_second_send_until_consumed() {
    // With the consumer paused, a producer gets exactly one chunk in:
    // every further offer is refused, with the payload handed back, until
    // the pending chunk is consumed.
    let mut q = SlotQueue::new();
    assert!(q.try_send(Chunk::from_bytes(b"first")).is_ok());

    let refused = q.try_send(Chunk::from_bytes(b"second"));
    let back = refused.expect_err("the slot was occupied");
    assert_eq!(back.as_bytes(), b"second");

    let refused_again = q.try_send(back);
    let back_again = refused_again.expect_err("the slot was still occupied");
    assert_eq!(back_again.as_bytes(), b"second");

    let got = q.try_recv().expect("the first chunk was pending");
    assert_eq!(got.as_bytes(), b"first");

    // Only now does the producer make progress.
    assert!(q.try_send(back_again).is_ok());
    assert_eq!(q.try_recv().expect("pending").as_bytes(), b"second");
}

#[test]
fn order_is_preserved_with_no_loss_or_duplication() {
    let mut q = SlotQueue::new();
    let sent: [&[u8]; 4] = [b"one", b"two", b"three", b"four"];
    let mut observed: Vec<Vec<u8>> = Vec::new();
    for payload in sent {
        assert!(q.try_send(Chunk::from_bytes(payload)).is_ok());
        let got = q.try_recv().expect("pending");
        observed.push(got.as_bytes().to_vec());
        assert!(q.try_recv().is_none());
    }
    let expected: Vec<Vec<u8>> = sent.iter().map(|s| s.to_vec()).collect();
    assert_eq!(observed, expected);
}
