//! The accept/relay state machine of the bridge.
//!
//! The bridge owns one TCP socket. In `Listening` it accepts a connection
//! on the fixed port; in `Connected` it repeats an iteration of two
//! half-duplex, time-bounded steps — socket to downlink queue, then
//! uplink queue to socket — followed by a short pacing delay. End of
//! stream or a socket error ends the session and the bridge returns to
//! `Listening`; an accept failure is retried. The surrounding application
//! performs the waiting, reading and writing; the functions here are the
//! decisions taken at each suspension point, and the laws at the bottom
//! state how whole sessions behave.

use vstd::prelude::*;

verus! {

use crate::CHUNK_CAPACITY;
use crate::chunk::Chunk;

/// The two states of the bridge.
#[derive(Clone, Copy, Debug, PartialEq, Eq, Structural)]
pub enum BridgeState {
    Listening,
    Connected,
}

/// Outcome of the socket-to-serial half-step: what racing a socket read
/// against the short timer produced.
pub enum ReadOutcome {
    /// The socket had no unread data; the read was not attempted.
    NotReadable,
    /// The timer won the race; no data arrived in time.
    TimedOut,
    /// The read won with this many bytes, as a chunk.
    Data(Chunk),
    /// The read returned zero bytes: the peer closed the stream.
    Eof,
    /// The read returned an error.
    Failed,
}

/// Outcome of the serial-to-socket half-step: what racing an uplink-queue
/// receive against the short timer, then writing, produced.
pub enum UplinkOutcome {
    /// The socket was not ready to send; the receive was not attempted.
    NotWritable,
    /// The timer won the race; no chunk was pending.
    TimedOut,
    /// A pending chunk was taken and written to the socket in full.
    Wrote,
    /// The socket write returned an error.
    WriteFailed,
}

/// The decision following the socket-read half-step.
pub struct ReadStep {
    /// End the session and return to `Listening`.
    pub disconnect: bool,
    /// Hand this chunk to the downlink queue.
    pub downlink: Option<Chunk>,
}

/// The decision following the uplink half-step.
pub struct UplinkStep {
    /// End the session and return to `Listening`.
    pub disconnect: bool,
    /// Apply the short settle delay before continuing.
    pub settle: bool,
}

/// What one whole connected iteration decides.
pub struct IterationEffect {
    /// The bridge state after the iteration.
    pub next: BridgeState,
    /// The chunk handed to the downlink queue, if the read produced one.
    pub downlink: Option<Chunk>,
    /// Whether an uplink chunk was written to the socket.
    pub wrote_uplink: bool,
    /// Whether the settle delay follows the iteration.
    pub settle: bool,
}

/// The accept decision: a successful accept connects, a failed accept is
/// retried from `Listening`.
pub open spec fn spec_accept(accepted: bool) -> BridgeState {
    if accepted {
        BridgeState::Connected
    } else {
        BridgeState::Listening
    }
}

/// The read decision: data is forwarded downlink; end of stream and read
/// errors end the session; an idle or unready socket skips the half-step.
pub open spec fn spec_read_step(read: ReadOutcome) -> ReadStep {
    match read {
        ReadOutcome::NotReadable => ReadStep { disconnect: false, downlink: Option::None },
        ReadOutcome::TimedOut => ReadStep { disconnect: false, downlink: Option::None },
        ReadOutcome::Data(c) => ReadStep { disconnect: false, downlink: Option::Some(c) },
        ReadOutcome::Eof => ReadStep { disconnect: true, downlink: Option::None },
        ReadOutcome::Failed => ReadStep { disconnect: true, downlink: Option::None },
    }
}

/// The uplink decision: a completed write is followed by the settle
/// delay; a write error ends the session; an idle queue or an unready
/// socket skips the half-step.
pub open spec fn spec_uplink_step(up: UplinkOutcome) -> UplinkStep {
    match up {
        UplinkOutcome::NotWritable => UplinkStep { disconnect: false, settle: false },
        UplinkOutcome::TimedOut => UplinkStep { disconnect: false, settle: false },
        UplinkOutcome::Wrote => UplinkStep { disconnect: false, settle: true },
        UplinkOutcome::WriteFailed => UplinkStep { disconnect: true, settle: false },
    }
}

/// One connected iteration: the read half-step first; if it ends the
/// session the uplink half-step is not attempted; otherwise the uplink
/// half-step decides whether the session continues.
pub open spec fn spec_iteration(read: ReadOutcome, up: UplinkOutcome) -> IterationEffect {
    let rd = spec_read_step(read);
    if rd.disconnect {
        IterationEffect {
            next: BridgeState::Listening,
            downlink: rd.downlink,
            wrote_uplink: false,
            settle: false,
        }
    } else {
        let ul = spec_uplink_step(up);
        IterationEffect {
            next: if ul.disconnect {
                BridgeState::Listening
            } else {
                BridgeState::Connected
            },
            downlink: rd.downlink,
            wrote_uplink: up is Wrote,
            settle: ul.settle,
        }
    }
}

/// Classifies what a socket read returned: `n` bytes were read into the
/// front of `buf`. Zero bytes is end of stream; otherwise the bytes read
/// become the chunk to forward.
pub fn classify_read(buf: &[u8], n: usize) -> (r: ReadOutcome)
    requires
        n <= buf@.len(),
        n <= CHUNK_CAPACITY,
    ensures
        n == 0 ==> r == ReadOutcome::Eof,
        n > 0 ==> (r matches ReadOutcome::Data(c) && c.bytes() == buf@.take(n as int) && c.wf()
            && c.bytes().len() > 0),
{
    if n == 0 {
        ReadOutcome::Eof
    } else {
        let sub = vstd::slice::slice_subrange(buf, 0, n);
        ReadOutcome::Data(Chunk::from_bytes(sub))
    }
}

/// Decides the state the bridge enters after an accept attempt.
pub fn accept_step(accepted: bool) -> (s: BridgeState)
    ensures
        s == spec_accept(accepted),
{
    if accepted {
        BridgeState::Connected
    } else {
        BridgeState::Listening
    }
}

/// Decides the read half-step.
pub fn read_step(read: ReadOutcome) -> (r: ReadStep)
    ensures
        r == spec_read_step(read),
{
    match read {
        ReadOutcome::NotReadable => ReadStep { disconnect: false, downlink: None },
        ReadOutcome::TimedOut => ReadStep { disconnect: false, downlink: None },
        ReadOutcome::Data(c) => ReadStep { disconnect: false, downlink: Some(c) },
        ReadOutcome::Eof => ReadStep { disconnect: true, downlink: None },
        ReadOutcome::Failed => ReadStep { disconnect: true, downlink: None },
    }
}

/// Decides the uplink half-step.
pub fn uplink_step(up: UplinkOutcome) -> (r: UplinkStep)
    ensures
        r == spec_uplink_step(up),
{
    match up {
        UplinkOutcome::NotWritable => UplinkStep { disconnect: false, settle: false },
        UplinkOutcome::TimedOut => UplinkStep { disconnect: false, settle: false },
        UplinkOutcome::Wrote => UplinkStep { disconnect: false, settle: true },
        UplinkOutcome::WriteFailed => UplinkStep { disconnect: true, settle: false },
    }
}

/// Decides one whole connected iteration.
pub fn connected_iteration(read: ReadOutcome, up: UplinkOutcome) -> (r: IterationEffect)
    ensures
        r == spec_iteration(read, up),
{
    let is_wrote = matches!(up, UplinkOutcome::Wrote);
    let rd = read_step(read);
    if rd.disconnect {
        IterationEffect { next: BridgeState::Listening, downlink: rd.downlink, wrote_uplink: false, settle: false }
    } else {
        let ul = uplink_step(up);
        IterationEffect {
            next: if ul.disconnect {
                BridgeState::Listening
            } else {
                BridgeState::Connected
            },
            downlink: rd.downlink,
            wrote_uplink: is_wrote,
            settle: ul.settle,
        }
    }
}

/// An event the bridge reacts to: the result of an accept attempt, or the
/// outcomes of one connected iteration.
pub enum BridgeEvent {
    Accept(bool),
    Iter(ReadOutcome, UplinkOutcome),
}

/// The state transition for one event. An iteration only happens while
/// connected, an accept only while listening; an event for the other
/// state leaves the state as it is.
pub open spec fn spec_bridge_next(s: BridgeState, e: BridgeEvent) -> BridgeState {
    match e {
        BridgeEvent::Accept(ok) => if s is Listening {
            spec_accept(ok)
        } else {
            s
        },
        BridgeEvent::Iter(read, up) => if s is Connected {
            spec_iteration(read, up).next
        } else {
            s
        },
    }
}

/// The state after a whole run of events.
pub open spec fn bridge_run(s: BridgeState, evs: Seq<BridgeEvent>) -> BridgeState
    decreases evs.len(),
{
    if evs.len() == 0 {
        s
    } else {
        bridge_run(spec_bridge_next(s, evs[0]), evs.drop_first())
    }
}

/// Reconnection: a connected session that observes end of stream returns
/// the bridge to `Listening`; a following successful accept re-enters
/// `Connected`; and relaying resumes — the next chunk read from the
/// socket is forwarded to the downlink queue as before. The serial tasks
/// and their queues are separate values that these transitions never
/// touch, so they keep running across the reconnect.
pub proof fn lemma_reconnection(up: UplinkOutcome, c: Chunk)
    requires
        c.wf(),
    ensures
        spec_iteration(ReadOutcome::Eof, up).next == BridgeState::Listening,
        bridge_run(
            BridgeState::Connected,
            seq![BridgeEvent::Iter(ReadOutcome::Eof, up), BridgeEvent::Accept(true)],
        ) == BridgeState::Connected,
        spec_iteration(ReadOutcome::Data(c), UplinkOutcome::TimedOut).next
            == BridgeState::Connected,
        spec_iteration(ReadOutcome::Data(c), UplinkOutcome::TimedOut).downlink == Option::Some(c),
{
    let e0 = BridgeEvent::Iter(ReadOutcome::Eof, up);
    let e1 = BridgeEvent::Accept(true);
    let evs = seq![e0, e1];
    assert(evs[0] == e0);
    assert(evs.drop_first() =~= seq![e1]);
    assert(spec_bridge_next(BridgeState::Connected, e0) == BridgeState::Listening);
    let tail = seq![e1].drop_first();
    assert(seq![e1][0] == e1);
    assert(tail.len() == 0);
    assert(spec_bridge_next(BridgeState::Listening, e1) == BridgeState::Connected);
    assert(bridge_run(BridgeState::Connected, tail) == BridgeState::Connected);
    assert(bridge_run(BridgeState::Listening, seq![e1]) == BridgeState::Connected);
}

/// Whether both directions have data ready in an iteration event: the
/// socket read produced a chunk and an uplink chunk was written.
pub open spec fn both_ready(e: BridgeEvent) -> bool {
    e matches BridgeEvent::Iter(read, up) && read is Data && up is Wrote
}

/// How many of the iterations forwarded a chunk to the downlink queue.
pub open spec fn downlink_forwards(evs: Seq<BridgeEvent>) -> nat
    decreases evs.len(),
{
    if evs.len() == 0 {
        0
    } else {
        (match evs[0] {
            BridgeEvent::Iter(read, up) => if spec_iteration(read, up).downlink is Some {
                1nat
            } else {
                0nat
            },
            _ => 0nat,
        }) + downlink_forwards(evs.drop_first())
    }
}

/// How many of the iterations wrote an uplink chunk to the socket.
pub open spec fn uplink_writes(evs: Seq<BridgeEvent>) -> nat
    decreases evs.len(),
{
    if evs.len() == 0 {
        0
    } else {
        (match evs[0] {
            BridgeEvent::Iter(read, up) => if spec_iteration(read, up).wrote_uplink {
                1nat
            } else {
                0nat
            },
            _ => 0nat,
        }) + uplink_writes(evs.drop_first())
    }
}

/// Fair alternation: in every connected iteration in which both
/// directions are ready, both make progress — the chunk read from the
/// socket is forwarded downlink and one uplink chunk is written — and the
/// session persists; over any run of K such iterations, K chunks are
/// relayed in each direction, so neither direction starves the other.
pub proof fn lemma_fair_alternation(evs: Seq<BridgeEvent>)
    requires
        forall|i: int| 0 <= i < evs.len() ==> both_ready(#[trigger] evs[i]),
    ensures
        bridge_run(BridgeState::Connected, evs) == BridgeState::Connected,
        downlink_forwards(evs) == evs.len(),
        uplink_writes(evs) == evs.len(),
    decreases evs.len(),
{
    if evs.len() > 0 {
        assert(both_ready(evs[0]));
        assert(spec_bridge_next(BridgeState::Connected, evs[0]) == BridgeState::Connected);
        assert forall|i: int|
            0 <= i < evs.drop_first().len() implies both_ready(
            #[trigger] evs.drop_first()[i],
        ) by {
            assert(evs.drop_first()[i] == evs[i + 1]);
        }
        lemma_fair_alternation(evs.drop_first());
    }
}

} // verus!
