use serial_bridge::bridge::{
    accept_step, classify_read, connected_iteration, read_step, uplink_step, BridgeState,
    ReadOutcome, UplinkOutcome,
};
use serial_bridge::framer::Framer;
use serial_bridge::queue::SlotQueue;

#[test]
fn at_command_round_trip() {
    // A client connects, sends "AT\r\n"; the serial collaborator echoes
    // "OK\r\n" after an idle gap; the client must receive exactly
    // "OK\r\n", and the serial side must have received exactly "AT\r\n".
    let mut downlink = SlotQueue::new();
    let mut uplink = SlotQueue::new();
    let mut serial_received: Vec<u8> = Vec::new();
    let mut client_received: Vec<u8> = Vec::new();

    // The bridge accepts the connection.
    let state = accept_step(true);
    assert_eq!(state, BridgeState::Connected);

    // Socket-to-serial half-step: the socket read returns "AT\r\n".
    let mut rx_buf = [0u8; 32];
    rx_buf[..4].copy_from_slice(b"AT\r\n");
    let outcome = classify_read(&rx_buf, 4);
    let decision = read_step(outcome);
    assert!(!decision.disconnect);
    let chunk = decision.downlink.expect("data was read");
    assert!(downlink.try_send(chunk).is_ok());

    // The serial writer drains the downlink queue to the wire.
    let to_serial = downlink.try_recv().expect("a chunk was pending");
    serial_received.extend_from_slice(to_serial.as_bytes());

    // The serial collaborator echoes "OK\r\n", closed by an idle gap; the
    // byte-idle reader frames it and hands it to the uplink queue.
    let mut framer = Framer::new();
    for &b in b"OK\r\n" {
        assert!(framer.push_byte(b).is_none());
    }
    let echoed = framer.on_idle().expect("the gap closes the chunk");
    assert!(uplink.try_send(echoed).is_ok());

    // Serial-to-socket half-step: the bridge takes the pending uplink
    // chunk and writes it to the socket in full.
    let pending = uplink.try_recv().expect("a chunk was pending");
    client_received.extend_from_slice(pending.as_bytes());
    let decision = uplink_step(UplinkOutcome::Wrote);
    assert!(!decision.disconnect);
    assert!(decision.settle);

    assert_eq!(serial_received, b"AT\r\n".to_vec());
    assert_eq!(client_received, b"OK\r\n".to_vec());

    // The client hangs up: the bridge returns to Listening.
    let eff = connected_iteration(ReadOutcome::Eof, UplinkOutcome::TimedOut);
    assert_eq!(eff.next, BridgeState::Listening);
}
