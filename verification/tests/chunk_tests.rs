use serial_bridge::CHUNK_CAPACITY;
use serial_bridge::chunk::Chunk;

#[test]
fn empty_chunk_has_no_bytes() {
    let c = Chunk::empty();
    assert_eq!(c.len(), 0);
    assert!(c.is_empty());
    assert_eq!(c.as_bytes(), &[] as &[u8]);
}

#[test]
fn from_bytes_keeps_the_bytes() {
    let c = Chunk::from_bytes(b"AT\r\n");
    assert_eq!(c.len(), 4);
    assert!(!c.is_empty());
    assert_eq!(c.as_bytes(), b"AT\r\n");
}

#[test]
fn push_appends_in_order() {
    let mut c = Chunk::empty();
    c.push(0x41);
    c.push(0x42);
    c.push(0x43);
    assert_eq!(c.as_bytes(), b"ABC");
    assert_eq!(c.len(), 3);
}

#[test]
fn take_moves_payload_out() {
    let mut c = Chunk::from_bytes(&[1, 2, 3]);
    let t = c.take();
    assert_eq!(t.as_bytes(), &[1, 2, 3]);
    assert_eq!(c.len(), 0);
    assert!(c.is_empty());
}

#[test]
fn chunk_holds_exactly_the_capacity() {
    let data = vec![0xA5u8; CHUNK_CAPACITY];
    let c = Chunk::from_bytes(&data);
    assert_eq!(c.len(), CHUNK_CAPACITY);
    assert_eq!(c.as_bytes(), data.as_slice());
}
