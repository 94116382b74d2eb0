//! Fixed-capacity byte chunks.
//!
//! A [`Chunk`] is the unit of transfer between the pipeline stages: an
//! ordered byte sequence of at most [`CHUNK_CAPACITY`] bytes, stored in a
//! `heapless::Vec` so that no allocator is needed. The buffer itself is an
//! outside type; every operation on it goes through a trusted wrapper whose
//! contract is stated over the abstract byte sequence of the buffer.

use vstd::prelude::*;

verus! {

use crate::CHUNK_CAPACITY;

/// Declares `heapless::Vec` so that it can stand in fields and signatures.
/// Its interior is opaque here; it is reached only through the trusted
/// wrappers below.
#[verifier::external_type_specification]
#[verifier::external_body]
#[verifier::reject_recursive_types(T)]
pub struct ExHeaplessVec<T, const N: usize>(heapless::Vec<T, N>);

/// The bytes a chunk buffer holds, oldest first.
pub uninterp spec fn buffer_bytes(v: heapless::Vec<u8, CHUNK_CAPACITY>) -> Seq<u8>;

/// Relies on `heapless::Vec::new`: constructs an empty vector.
#[verifier::external_body]
fn buf_new() -> (v: heapless::Vec<u8, CHUNK_CAPACITY>)
    ensures
        buffer_bytes(v) == Seq::<u8>::empty(),
{
    heapless::Vec::new()
}

/// Relies on `heapless::Vec::from_slice`: copies the slice into a fresh
/// vector; it only fails when the slice exceeds the capacity, which the
/// precondition rules out.
#[verifier::external_body]
fn buf_from_slice(s: &[u8]) -> (v: heapless::Vec<u8, CHUNK_CAPACITY>)
    requires
        s@.len() <= CHUNK_CAPACITY,
    ensures
        buffer_bytes(v) == s@,
{
    heapless::Vec::from_slice(s).unwrap()
}

/// Relies on `heapless::Vec::push`: appends one element; it only fails when
/// the vector is full, which the precondition rules out.
#[verifier::external_body]
fn buf_push(v: &mut heapless::Vec<u8, CHUNK_CAPACITY>, b: u8)
    requires
        buffer_bytes(*old(v)).len() < CHUNK_CAPACITY,
    ensures
        buffer_bytes(*final(v)) == buffer_bytes(*old(v)).push(b),
{
    v.push(b).unwrap()
}

/// Relies on `heapless::Vec::len`: the number of elements held.
#[verifier::external_body]
fn buf_len(v: &heapless::Vec<u8, CHUNK_CAPACITY>) -> (n: usize)
    ensures
        n == buffer_bytes(*v).len(),
{
    v.len()
}

/// Relies on `heapless::Vec::as_slice`: a view of exactly the elements held.
#[verifier::external_body]
fn buf_as_slice(v: &heapless::Vec<u8, CHUNK_CAPACITY>) -> (s: &[u8])
    ensures
        s@ == buffer_bytes(*v),
{
    v.as_slice()
}

/// Relies on `core::mem::take` together with `heapless::Vec`'s `Default`
/// (an empty vector): moves the contents out, leaving the vector empty.
#[verifier::external_body]
fn buf_take(v: &mut heapless::Vec<u8, CHUNK_CAPACITY>) -> (r: heapless::Vec<u8, CHUNK_CAPACITY>)
    ensures
        buffer_bytes(r) == buffer_bytes(*old(v)),
        buffer_bytes(*final(v)) == Seq::<u8>::empty(),
{
    core::mem::take(v)
}

/// A bounded, ordered byte sequence moved atomically between pipeline
/// stages. Immutable once enqueued: ownership transfers fully from the
/// producer through a queue to the consumer.
pub struct Chunk {
    buf: heapless::Vec<u8, CHUNK_CAPACITY>,
}

impl Chunk {
    /// The byte sequence this chunk carries.
    pub closed spec fn bytes(self) -> Seq<u8> {
        buffer_bytes(self.buf)
    }

    /// Well-formed: the payload fits the fixed capacity.
    pub open spec fn wf(self) -> bool {
        self.bytes().len() <= CHUNK_CAPACITY
    }

    /// An empty chunk.
    pub fn empty() -> (c: Chunk)
        ensures
            c.bytes() == Seq::<u8>::empty(),
            c.wf(),
    {
        Chunk { buf: buf_new() }
    }

    /// A chunk carrying a copy of the given bytes.
    pub fn from_bytes(s: &[u8]) -> (c: Chunk)
        requires
            s@.len() <= CHUNK_CAPACITY,
        ensures
            c.bytes() == s@,
            c.wf(),
    {
        Chunk { buf: buf_from_slice(s) }
    }

    /// Appends one byte; the chunk must not be full.
    pub fn push(&mut self, b: u8)
        requires
            old(self).wf(),
            old(self).bytes().len() < CHUNK_CAPACITY,
        ensures
            final(self).bytes() == old(self).bytes().push(b),
            final(self).wf(),
    {
        buf_push(&mut self.buf, b)
    }

    /// The number of bytes carried.
    pub fn len(&self) -> (n: usize)
        ensures
            n == self.bytes().len(),
    {
        buf_len(&self.buf)
    }

    /// The bytes carried, as a slice.
    pub fn as_bytes(&self) -> (s: &[u8])
        ensures
            s@ == self.bytes(),
    {
        buf_as_slice(&self.buf)
    }

    /// Moves the payload out, leaving this chunk empty.
    pub fn take(&mut self) -> (c: Chunk)
        ensures
            c.bytes() == old(self).bytes(),
            c.wf() == old(self).wf(),
            final(self).bytes() == Seq::<u8>::empty(),
            final(self).wf(),
    {
        Chunk { buf: buf_take(&mut self.buf) }
    }

    /// Whether no bytes are carried.
    pub fn is_empty(&self) -> (r: bool)
        ensures
            r == (self.bytes().len() == 0),
    {
        buf_len(&self.buf) == 0
    }
}

} // verus!
