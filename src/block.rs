//! A fixed-capacity chunk of channel values, held in an `arrayvec::ArrayVec`.
//! Values are opaque 64-bit words (a reading's bit pattern): the store never
//! interprets them.
use arrayvec::ArrayVec;
use vstd::prelude::*;

verus! {

/// Values per chunk; a power of two.
pub const BLOCK_CAPACITY: usize = 4096;

/// The `arrayvec::ArrayVec` type, opaque to proofs: what one holds is read
/// through `chunk_items`.
#[verifier::external_type_specification]
#[verifier::external_body]
#[verifier::reject_recursive_types(T)]
pub struct ExArrayVec<T, const CAP: usize>(ArrayVec<T, CAP>);

/// The values an `ArrayVec` of chunk capacity holds, in order.
pub uninterp spec fn chunk_items(v: ArrayVec<u64, BLOCK_CAPACITY>) -> Seq<u64>;

/// Relies on `ArrayVec::new`: the vector starts empty.
#[verifier::external_body]
fn chunk_new() -> (r: ArrayVec<u64, BLOCK_CAPACITY>)
    ensures
        chunk_items(r) == Seq::<u64>::empty(),
{
    ArrayVec::new()
}

/// Relies on `ArrayVec::push`: appends one value, and panics only when full.
#[verifier::external_body]
fn chunk_push(v: &mut ArrayVec<u64, BLOCK_CAPACITY>, x: u64)
    requires
        chunk_items(*old(v)).len() < BLOCK_CAPACITY,
    ensures
        chunk_items(*final(v)) == chunk_items(*old(v)).push(x),
{
    v.push(x)
}

/// Relies on `ArrayVec::len`: the number of values held.
#[verifier::external_body]
fn chunk_len(v: &ArrayVec<u64, BLOCK_CAPACITY>) -> (r: usize)
    ensures
        r == chunk_items(*v).len(),
{
    v.len()
}

/// Relies on `ArrayVec::as_slice`: the values held, in order.
#[verifier::external_body]
fn chunk_slice(v: &ArrayVec<u64, BLOCK_CAPACITY>) -> (r: &[u64])
    ensures
        r@ == chunk_items(*v),
{
    v.as_slice()
}

/// One chunk of a channel.
pub struct Block {
    data: ArrayVec<u64, BLOCK_CAPACITY>,
}

impl View for Block {
    type V = Seq<u64>;

    closed spec fn view(&self) -> Seq<u64> {
        chunk_items(self.data)
    }
}

impl Block {
    /// Never more values than the capacity.
    pub open spec fn wf(&self) -> bool {
        self@.len() <= BLOCK_CAPACITY
    }

    /// An empty chunk.
    pub fn new() -> (b: Block)
        ensures
            b.wf(),
            b@ == Seq::<u64>::empty(),
    {
        Block { data: chunk_new() }
    }

    /// Number of values held.
    pub fn len(&self) -> (n: usize)
        ensures
            n == self@.len(),
    {
        chunk_len(&self.data)
    }

    /// Whether the chunk holds its capacity.
    pub fn is_full(&self) -> (r: bool)
        requires
            self.wf(),
        ensures
            r == (self@.len() == BLOCK_CAPACITY),
    {
        chunk_len(&self.data) == BLOCK_CAPACITY
    }

    /// Appends `val`; the chunk must not be full.
    pub fn push(&mut self, val: u64)
        requires
            old(self).wf(),
            old(self)@.len() < BLOCK_CAPACITY,
        ensures
            final(self).wf(),
            final(self)@ == old(self)@.push(val),
    {
        chunk_push(&mut self.data, val);
    }

    /// The value at `offset`, if the chunk holds that many.
    pub fn lookup(&self, offset: usize) -> (r: Option<u64>)
        ensures
            r == (if offset < self@.len() {
                Some(self@[offset as int])
            } else {
                None
            }),
    {
        let s = chunk_slice(&self.data);
        if offset < s.len() {
            Some(s[offset])
        } else {
            None
        }
    }
}

} // verus!
