use serial_bridge::CHUNK_CAPACITY;
use serial_bridge::chunk::Chunk;
use serial_bridge::framer::Framer;

fn feed(framer: &mut Framer, bytes: &[u8]) -> Vec<Vec<u8>> {
    let mut emitted = Vec::new();
    for &b in bytes {
        if let Some(c) = framer.push_byte(b) {
            emitted.push(c.as_bytes().to_vec());
        }
    }
    emitted
}

fn idle(framer: &mut Framer) -> Option<Vec<u8>> {
    framer.on_idle().map(|c: Chunk| c.as_bytes().to_vec())
}

#[test]
fn idle_gap_splits_the_stream() {
    // A gap after byte k (k below the capacity) emits the first k bytes
    // as one chunk; the next chunk starts at byte k.
    let stream = b"ABCDE";
    let k = 3;
    let mut f = Framer::new();

    assert!(feed(&mut f, &stream[..k]).is_empty());
    assert_eq!(idle(&mut f).expect("buffered bytes"), b"ABC".to_vec());

    assert!(feed(&mut f, &stream[k..]).is_empty());
    assert_eq!(idle(&mut f).expect("buffered bytes"), b"DE".to_vec());
}

#[test]
fn long_gap_free_stream_splits_at_capacity() {
    // 1200 bytes with no idle gap: two chunks of exactly the capacity,
    // then the 200-byte remainder once the line goes idle.
    let stream: Vec<u8> = (0..1200u32).map(|i| (i % 251) as u8).collect();
    let mut f = Framer::new();
    let emitted = feed(&mut f, &stream);
    assert_eq!(emitted.len(), 2);
    assert_eq!(emitted[0], stream[..CHUNK_CAPACITY].to_vec());
    assert_eq!(emitted[1], stream[CHUNK_CAPACITY..2 * CHUNK_CAPACITY].to_vec());
    let tail = idle(&mut f).expect("the remainder was buffered");
    assert_eq!(tail, stream[2 * CHUNK_CAPACITY..].to_vec());
}

#[test]
fn exact_capacity_emits_one_full_chunk_and_nothing_more() {
    let stream = vec![0x55u8; CHUNK_CAPACITY];
    let mut f = Framer::new();
    let emitted = feed(&mut f, &stream);
    assert_eq!(emitted.len(), 1);
    assert_eq!(emitted[0], stream);
    assert!(idle(&mut f).is_none());
}

#[test]
fn idle_with_empty_buffer_emits_nothing() {
    let mut f = Framer::new();
    assert!(idle(&mut f).is_none());
    assert!(idle(&mut f).is_none());
}

#[test]
fn byte_after_gap_starts_a_fresh_chunk() {
    let mut f = Framer::new();
    assert!(f.push_byte(b'x').is_none());
    assert_eq!(idle(&mut f).expect("buffered"), b"x".to_vec());
    assert!(f.push_byte(b'y').is_none());
    assert_eq!(idle(&mut f).expect("buffered"), b"y".to_vec());
}
