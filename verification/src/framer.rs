//! Idle-gap framing of the receive byte stream.
//!
//! The serial protocol carries no length prefix, so the reader segments
//! the incoming stream into chunks at two boundaries: a line-idle gap (no
//! new byte for one character-time), and the fixed chunk capacity. The
//! [`Framer`] is the state machine of that segmentation: bytes accumulate
//! until either the buffer reaches [`CHUNK_CAPACITY`] — the chunk is
//! emitted at once — or an idle gap arrives and the buffered bytes, if
//! any, are emitted. The laws at the bottom characterise whole streams:
//! what a run of the framer emits is exactly [`segments`] of the stream.

use vstd::prelude::*;

verus! {

use crate::CHUNK_CAPACITY;
use crate::chunk::Chunk;

/// One observation on the receive line: a byte arrived, or the line was
/// idle for longer than the framing threshold.
pub enum RxEvent {
    Byte(u8),
    IdleGap,
}

/// One byte arrives: the buffer grows, and is emitted in full the moment
/// it reaches the chunk capacity.
pub open spec fn spec_push_byte(buf: Seq<u8>, b: u8) -> (Seq<u8>, Option<Seq<u8>>) {
    let grown = buf.push(b);
    if grown.len() == CHUNK_CAPACITY {
        (Seq::<u8>::empty(), Option::Some(grown))
    } else {
        (grown, Option::None)
    }
}

/// An idle gap: buffered bytes, if any, are emitted; an idle line with an
/// empty buffer emits nothing.
pub open spec fn spec_idle(buf: Seq<u8>) -> (Seq<u8>, Option<Seq<u8>>) {
    if buf.len() == 0 {
        (buf, Option::None)
    } else {
        (Seq::<u8>::empty(), Option::Some(buf))
    }
}

/// One framing step.
pub open spec fn spec_step(buf: Seq<u8>, e: RxEvent) -> (Seq<u8>, Option<Seq<u8>>) {
    match e {
        RxEvent::Byte(b) => spec_push_byte(buf, b),
        RxEvent::IdleGap => spec_idle(buf),
    }
}

/// What one step emits, as a sequence of zero or one chunks.
pub open spec fn emitted_of(e: Option<Seq<u8>>) -> Seq<Seq<u8>> {
    match e {
        Option::Some(c) => seq![c],
        Option::None => Seq::<Seq<u8>>::empty(),
    }
}

/// A run of the framer over a sequence of line events: the final buffer
/// contents, and every chunk emitted, in order.
pub open spec fn run_steps(buf: Seq<u8>, evs: Seq<RxEvent>) -> (Seq<u8>, Seq<Seq<u8>>)
    decreases evs.len(),
{
    if evs.len() == 0 {
        (buf, Seq::<Seq<u8>>::empty())
    } else {
        let first_step = spec_step(buf, evs[0]);
        let rest = run_steps(first_step.0, evs.drop_first());
        (rest.0, emitted_of(first_step.1) + rest.1)
    }
}

/// The stream of byte-arrival events carrying `s`.
pub open spec fn byte_events(s: Seq<u8>) -> Seq<RxEvent> {
    Seq::new(s.len(), |i: int| RxEvent::Byte(s[i]))
}

/// The maximal run of full chunks at the front of `s`.
pub open spec fn full_chunks(s: Seq<u8>) -> Seq<Seq<u8>>
    decreases s.len(),
{
    if s.len() < CHUNK_CAPACITY {
        Seq::<Seq<u8>>::empty()
    } else {
        seq![s.take(CHUNK_CAPACITY as int)] + full_chunks(s.skip(CHUNK_CAPACITY as int))
    }
}

/// What remains of `s` after its full chunks: fewer than
/// [`CHUNK_CAPACITY`] bytes.
pub open spec fn leftover(s: Seq<u8>) -> Seq<u8>
    decreases s.len(),
{
    if s.len() < CHUNK_CAPACITY {
        s
    } else {
        leftover(s.skip(CHUNK_CAPACITY as int))
    }
}

/// The segmentation of a gap-free byte stream that ends in an idle gap:
/// consecutive chunks of exactly the capacity, then the remainder, if
/// any, as a final shorter chunk.
pub open spec fn segments(s: Seq<u8>) -> Seq<Seq<u8>> {
    if leftover(s).len() == 0 {
        full_chunks(s)
    } else {
        full_chunks(s).push(leftover(s))
    }
}

/// The segmentation state machine of the byte-idle reader.
pub struct Framer {
    acc: Chunk,
}

impl Framer {
    /// The bytes accumulated since the last emitted chunk.
    pub closed spec fn buffered(self) -> Seq<u8> {
        self.acc.bytes()
    }

    /// The buffer is never left full: a full buffer is emitted at once.
    pub open spec fn wf(self) -> bool {
        self.buffered().len() < CHUNK_CAPACITY
    }

    /// A fresh framer with an empty buffer.
    pub fn new() -> (f: Framer)
        ensures
            f.wf(),
            f.buffered() == Seq::<u8>::empty(),
    {
        Framer { acc: Chunk::empty() }
    }

    /// Feeds one received byte; emits the accumulated chunk exactly when
    /// the buffer reaches the chunk capacity.
    pub fn push_byte(&mut self, b: u8) -> (r: Option<Chunk>)
        requires
            old(self).wf(),
        ensures
            final(self).wf(),
            final(self).buffered() == spec_push_byte(old(self).buffered(), b).0,
            emits_as(r, spec_push_byte(old(self).buffered(), b).1),
    {
        self.acc.push(b);
        if self.acc.len() == CHUNK_CAPACITY {
            Some(self.acc.take())
        } else {
            None
        }
    }

    /// Signals an idle gap on the line; emits the buffered bytes, if any.
    pub fn on_idle(&mut self) -> (r: Option<Chunk>)
        requires
            old(self).wf(),
        ensures
            final(self).wf(),
            final(self).buffered() == spec_idle(old(self).buffered()).0,
            emits_as(r, spec_idle(old(self).buffered()).1),
    {
        if self.acc.len() == 0 {
            None
        } else {
            Some(self.acc.take())
        }
    }
}

/// Whether an emitted chunk matches the specified emission.
pub open spec fn emits_as(r: Option<Chunk>, e: Option<Seq<u8>>) -> bool {
    match r {
        Option::Some(c) => e matches Option::Some(b) && c.bytes() == b && c.wf(),
        Option::None => e is None,
    }
}

/// A run over concatenated event sequences is the run of the first part
/// followed by the run of the second, started from the buffer the first
/// part leaves behind.
pub proof fn lemma_run_append(buf: Seq<u8>, e1: Seq<RxEvent>, e2: Seq<RxEvent>)
    ensures
        run_steps(buf, e1 + e2).0 == run_steps(run_steps(buf, e1).0, e2).0,
        run_steps(buf, e1 + e2).1 == run_steps(buf, e1).1 + run_steps(run_steps(buf, e1).0, e2).1,
    decreases e1.len(),
{
    if e1.len() == 0 {
        assert(e1 + e2 =~= e2);
        assert(run_steps(buf, e1).1 + run_steps(buf, e2).1 =~= run_steps(buf, e2).1);
    } else {
        let stepped = spec_step(buf, e1[0]);
        assert((e1 + e2)[0] == e1[0]);
        assert((e1 + e2).drop_first() =~= e1.drop_first() + e2);
        lemma_run_append(stepped.0, e1.drop_first(), e2);
        let mid = run_steps(stepped.0, e1.drop_first());
        assert(emitted_of(stepped.1) + (mid.1 + run_steps(mid.0, e2).1) =~= (emitted_of(
            stepped.1,
        ) + mid.1) + run_steps(mid.0, e2).1);
    }
}

/// Feeding a gap-free byte stream into a framer whose buffer holds `buf`
/// emits exactly the full chunks of `buf + s` and leaves their leftover
/// buffered.
pub proof fn lemma_feed_bytes(buf: Seq<u8>, s: Seq<u8>)
    requires
        buf.len() < CHUNK_CAPACITY,
    ensures
        run_steps(buf, byte_events(s)).0 == leftover(buf + s),
        run_steps(buf, byte_events(s)).1 == full_chunks(buf + s),
        leftover(buf + s).len() < CHUNK_CAPACITY,
    decreases s.len(),
{
    if s.len() == 0 {
        assert(byte_events(s).len() == 0);
        assert(buf + s =~= buf);
    } else {
        let evs = byte_events(s);
        assert(evs[0] == RxEvent::Byte(s[0]));
        assert(evs.drop_first() =~= byte_events(s.drop_first()));
        let grown = buf.push(s[0]);
        if grown.len() == CHUNK_CAPACITY {
            lemma_feed_bytes(Seq::<u8>::empty(), s.drop_first());
            assert(Seq::<u8>::empty() + s.drop_first() =~= s.drop_first());
            assert((buf + s).take(CHUNK_CAPACITY as int) =~= grown);
            assert((buf + s).skip(CHUNK_CAPACITY as int) =~= s.drop_first());
        } else {
            lemma_feed_bytes(grown, s.drop_first());
            assert(grown + s.drop_first() =~= buf + s);
        }
    }
}

/// A gap-free byte stream closed by one idle gap is emitted exactly as
/// its segmentation, and leaves the framer's buffer empty.
pub proof fn lemma_stream_segments(s: Seq<u8>)
    ensures
        run_steps(Seq::<u8>::empty(), byte_events(s).push(RxEvent::IdleGap)).1 == segments(s),
        run_steps(Seq::<u8>::empty(), byte_events(s).push(RxEvent::IdleGap)).0 == Seq::<u8>::empty(),
{
    let evs = byte_events(s);
    let idle: Seq<RxEvent> = seq![RxEvent::IdleGap];
    assert(evs.push(RxEvent::IdleGap) =~= evs + idle);
    lemma_run_append(Seq::<u8>::empty(), evs, idle);
    lemma_feed_bytes(Seq::<u8>::empty(), s);
    assert(Seq::<u8>::empty() + s =~= s);
    let rem = leftover(s);
    let after = spec_idle(rem);
    assert(idle[0] == RxEvent::IdleGap);
    assert(idle.drop_first().len() == 0);
    assert(run_steps(after.0, idle.drop_first()).1 == Seq::<Seq<u8>>::empty());
    assert(run_steps(rem, idle).0 == after.0);
    assert(run_steps(rem, idle).1 == emitted_of(after.1) + Seq::<Seq<u8>>::empty());
    assert(after.0 =~= Seq::<u8>::empty());
    if rem.len() == 0 {
        assert(emitted_of(after.1) + Seq::<Seq<u8>>::empty() =~= Seq::<Seq<u8>>::empty());
        assert(full_chunks(s) + run_steps(rem, idle).1 =~= full_chunks(s));
    } else {
        assert(emitted_of(after.1) + Seq::<Seq<u8>>::empty() =~= seq![rem]);
        assert(full_chunks(s) + seq![rem] =~= full_chunks(s).push(rem));
    }
}

/// Structural facts about the segmentation of a stream: nothing is lost
/// or reordered — the segments concatenate back to the stream — every
/// full chunk carries exactly the capacity, and the leftover is shorter.
pub proof fn lemma_segments_props(s: Seq<u8>)
    ensures
        segments(s).flatten() == s,
        forall|i: int|
            0 <= i < full_chunks(s).len() ==> (#[trigger] full_chunks(s)[i]).len()
                == CHUNK_CAPACITY,
        leftover(s).len() < CHUNK_CAPACITY,
    decreases s.len(),
{
    if s.len() < CHUNK_CAPACITY {
        if s.len() == 0 {
            assert(segments(s).flatten() =~= s);
        } else {
            assert(segments(s) =~= seq![s]);
            let single = seq![s];
            assert(single.first() == s);
            assert(single.drop_first().len() == 0);
            assert(single.drop_first().flatten() == Seq::<u8>::empty());
            assert(single.flatten() =~= s);
        }
    } else {
        let head = s.take(CHUNK_CAPACITY as int);
        let tail = s.skip(CHUNK_CAPACITY as int);
        lemma_segments_props(tail);
        assert(segments(s) =~= seq![head] + segments(tail));
        let cons = seq![head] + segments(tail);
        assert(cons.first() == head);
        assert(cons.drop_first() =~= segments(tail));
        assert(cons.len() > 0);
        assert(cons.drop_first().flatten() == segments(tail).flatten());
        assert(cons.flatten() == head + segments(tail).flatten());
        assert(head + tail =~= s);
        assert forall|i: int|
            0 <= i < full_chunks(s).len() implies (#[trigger] full_chunks(s)[i]).len()
            == CHUNK_CAPACITY by {
            if i == 0 {
                assert(full_chunks(s)[0] == head);
            } else {
                assert(full_chunks(s)[i] == full_chunks(tail)[i - 1]);
            }
        }
    }
}

/// Max chunk capacity: a byte stream longer than the chunk capacity with
/// no idle gap inside it is emitted as consecutive chunks of exactly the
/// capacity, with the remainder, if any, as a final shorter chunk; the
/// emitted chunks concatenate back to the stream.
pub proof fn lemma_max_chunk_capacity(s: Seq<u8>)
    requires
        s.len() > CHUNK_CAPACITY,
    ensures
        ({
            let out = run_steps(Seq::<u8>::empty(), byte_events(s).push(RxEvent::IdleGap)).1;
            &&& out == segments(s)
            &&& out.len() >= 2
            &&& forall|i: int|
                0 <= i < out.len() - 1 ==> (#[trigger] out[i]).len() == CHUNK_CAPACITY
            &&& out.last().len() > 0
            &&& out.last().len() <= CHUNK_CAPACITY
            &&& out.flatten() == s
        }),
{
    lemma_stream_segments(s);
    lemma_segments_props(s);
    let out = segments(s);
    let head = s.take(CHUNK_CAPACITY as int);
    let tail = s.skip(CHUNK_CAPACITY as int);
    assert(full_chunks(s) == seq![head] + full_chunks(tail));
    assert(full_chunks(s).len() >= 1);
    if leftover(s).len() == 0 {
        assert(leftover(tail) == leftover(s));
        if tail.len() < CHUNK_CAPACITY {
            assert(leftover(tail) == tail);
            assert(tail.len() == 0);
            assert(s.len() == CHUNK_CAPACITY);
        } else {
            assert(full_chunks(tail).len() >= 1);
        }
        assert(out.len() >= 2);
        assert(out.last().len() == CHUNK_CAPACITY);
    } else {
        assert(out == full_chunks(s).push(leftover(s)));
        assert(out.len() >= 2);
        assert(out.last() == leftover(s));
        assert forall|i: int|
            0 <= i < out.len() - 1 implies (#[trigger] out[i]).len() == CHUNK_CAPACITY by {
            assert(out[i] == full_chunks(s)[i]);
        }
    }
}

/// Idle framing: a gap after byte `k` of the stream, with `k` below the
/// chunk capacity, makes the reader emit the first `k` bytes as one chunk
/// and start the next chunk at byte `k`.
pub proof fn lemma_idle_framing(s: Seq<u8>, k: int)
    requires
        0 < k < s.len(),
        k < CHUNK_CAPACITY,
    ensures
        ({
            let evs = byte_events(s.take(k)).push(RxEvent::IdleGap) + byte_events(s.skip(k)).push(
                RxEvent::IdleGap,
            );
            let out = run_steps(Seq::<u8>::empty(), evs).1;
            &&& out.len() >= 2
            &&& out[0] == s.take(k)
            &&& out[1] == (if s.len() - k <= CHUNK_CAPACITY {
                s.skip(k)
            } else {
                s.skip(k).take(CHUNK_CAPACITY as int)
            })
        }),
{
    let first_part = byte_events(s.take(k)).push(RxEvent::IdleGap);
    let second_part = byte_events(s.skip(k)).push(RxEvent::IdleGap);
    lemma_run_append(Seq::<u8>::empty(), first_part, second_part);
    lemma_stream_segments(s.take(k));
    lemma_stream_segments(s.skip(k));
    lemma_segments_props(s.take(k));
    lemma_segments_props(s.skip(k));
    let front = s.take(k);
    let back = s.skip(k);
    assert(leftover(front) == front);
    assert(segments(front) =~= seq![front]);
    let out = run_steps(Seq::<u8>::empty(), first_part + second_part).1;
    assert(out == seq![front] + segments(back));
    if back.len() < CHUNK_CAPACITY {
        assert(leftover(back) == back);
        assert(segments(back)[0] == back);
    } else {
        assert(full_chunks(back)[0] == back.take(CHUNK_CAPACITY as int));
        assert(segments(back)[0] == back.take(CHUNK_CAPACITY as int));
        if back.len() == CHUNK_CAPACITY {
            assert(back.take(CHUNK_CAPACITY as int) =~= back);
        }
    }
    assert(segments(back).len() >= 1);
    assert(out[1] == segments(back)[0]);
}

} // verus!
