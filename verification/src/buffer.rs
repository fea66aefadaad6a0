//! A bounded FIFO byte queue.

use vstd::prelude::*;
use crate::seqs::{first_index, lemma_first_index_is};

verus! {

/// Capacity of a buffer made by [`ByteBuffer::new`].
pub const DEFAULT_CAPACITY: usize = 4096;

/// A byte queue that holds at most `capacity` bytes; data enters at the back
/// and leaves from the front.
pub struct ByteBuffer {
    data: Vec<u8>,
    capacity: usize,
}

impl View for ByteBuffer {
    type V = Seq<u8>;

    closed spec fn view(&self) -> Seq<u8> {
        self.data@
    }
}

impl ByteBuffer {
    /// The number of bytes the buffer can hold.
    pub closed spec fn spec_capacity(&self) -> nat {
        self.capacity as nat
    }

    /// A capacity is a machine-sized number.
    pub proof fn lemma_capacity_bound(&self)
        ensures
            self.spec_capacity() <= usize::MAX,
    {
    }

    #[verifier::type_invariant]
    closed spec fn inv(&self) -> bool {
        self.data@.len() <= self.capacity
    }

    /// An empty buffer of the default capacity.
    pub fn new() -> (buf: Self)
        ensures
            buf@ == Seq::<u8>::empty(),
            buf.spec_capacity() == DEFAULT_CAPACITY,
    {
        ByteBuffer { data: Vec::new(), capacity: DEFAULT_CAPACITY }
    }

    /// An empty buffer that holds at most `capacity` bytes.
    pub fn with_capacity(capacity: usize) -> (buf: Self)
        ensures
            buf@ == Seq::<u8>::empty(),
            buf.spec_capacity() == capacity,
    {
        ByteBuffer { data: Vec::new(), capacity }
    }

    /// The number of bytes the buffer can hold.
    pub fn capacity(&self) -> (c: usize)
        ensures
            c == self.spec_capacity(),
    {
        self.capacity
    }

    /// The number of bytes held.
    pub fn len(&self) -> (n: usize)
        ensures
            n == self@.len(),
            n <= self.spec_capacity(),
    {
        proof {
            use_type_invariant(self);
        }
        self.data.len()
    }

    /// Whether no byte is held.
    pub fn is_empty(&self) -> (b: bool)
        ensures
            b == (self@.len() == 0),
    {
        self.data.len() == 0
    }

    /// Whether the buffer holds as many bytes as it can.
    pub fn is_full(&self) -> (b: bool)
        ensures
            b == (self@.len() >= self.spec_capacity()),
    {
        self.data.len() >= self.capacity
    }

    /// The number of bytes that can still be added.
    pub fn free_size(&self) -> (n: usize)
        ensures
            n == self.spec_capacity() - self@.len(),
    {
        proof {
            use_type_invariant(self);
        }
        self.capacity - self.data.len()
    }

    /// The held bytes, front first.
    pub fn as_slice(&self) -> (s: &[u8])
        ensures
            s@ == self@,
    {
        self.data.as_slice()
    }

    /// The byte at position `i` from the front.
    pub fn get(&self, i: usize) -> (b: u8)
        requires
            i < self@.len(),
        ensures
            b == self@[i as int],
    {
        self.data[i]
    }

    /// A copy of up to `n` bytes from the front.
    pub fn copy_front(&self, n: usize) -> (r: Vec<u8>)
        ensures
            r@ == self@.take(if n < self@.len() { n as int } else { self@.len() as int }),
    {
        let k = if n < self.data.len() { n } else { self.data.len() };
        let mut r: Vec<u8> = Vec::new();
        let mut i: usize = 0;
        while i < k
            invariant
                k <= self@.len(),
                i <= k,
                r@ == self@.take(i as int),
            decreases k - i,
        {
            r.push(self.data[i]);
            i = i + 1;
        }
        r
    }

    /// The first position of `b` in the held data.
    pub fn position(&self, b: u8) -> (r: Option<usize>)
        ensures
            match r {
                Some(i) => first_index(self@, b) == Some(i as int),
                None => first_index(self@, b) is None,
            },
    {
        let mut i: usize = 0;
        while i < self.data.len()
            invariant
                i <= self@.len(),
                forall|j: int| 0 <= j < i ==> self@[j] != b,
            decreases self@.len() - i,
        {
            if self.data[i] == b {
                proof {
                    lemma_first_index_is(self@, b, i as int);
                }
                return Some(i);
            }
            i = i + 1;
        }
        proof {
            if self@.contains(b) {
                let k = choose|k: int| 0 <= k < self@.len() && self@[k] == b;
                assert(self@[k] != b);
            }
        }
        None
    }

    /// Whether `b` occurs in the held data.
    pub fn contains(&self, b: u8) -> (r: bool)
        ensures
            r == self@.contains(b),
    {
        match self.position(b) {
            Some(i) => {
                proof {
                    assert(self@.contains(b));
                }
                true
            },
            None => false,
        }
    }

    /// Appends `bytes` at the back; they must fit into the free space.
    pub fn extend_from_slice(&mut self, bytes: &[u8])
        requires
            old(self)@.len() + bytes@.len() <= old(self).spec_capacity(),
        ensures
            final(self)@ == old(self)@ + bytes@,
            final(self).spec_capacity() == old(self).spec_capacity(),
    {
        let mut data: Vec<u8> = Vec::new();
        std::mem::swap(&mut self.data, &mut data);
        let mut i: usize = 0;
        while i < bytes.len()
            invariant
                i <= bytes@.len(),
                data@ == old(self)@ + bytes@.subrange(0, i as int),
            decreases bytes@.len() - i,
        {
            data.push(bytes[i]);
            i = i + 1;
            assert(bytes@.subrange(0, i as int) == bytes@.subrange(0, i - 1) + seq![bytes@[i - 1]]);
        }
        assert(bytes@.subrange(0, i as int) == bytes@);
        self.data = data;
    }

    /// Drops up to `max_amount` bytes from the front and returns how many were
    /// dropped.
    pub fn consume(&mut self, max_amount: usize) -> (n: usize)
        ensures
            n == if max_amount < old(self)@.len() { max_amount as int } else { old(self)@.len() as int },
            final(self)@ == old(self)@.skip(n as int),
            final(self).spec_capacity() == old(self).spec_capacity(),
    {
        proof {
            use_type_invariant(&*self);
        }
        let size = if max_amount < self.data.len() { max_amount } else { self.data.len() };
        let mut data: Vec<u8> = Vec::new();
        std::mem::swap(&mut self.data, &mut data);
        let tail = data.split_off(size);
        self.data = tail;
        size
    }

    /// Removes up to `max_amount` bytes from the front and returns them.
    pub fn remove_data(&mut self, max_amount: usize) -> (removed: Vec<u8>)
        ensures
            removed@ == old(self)@.take(
                if max_amount < old(self)@.len() { max_amount as int } else { old(self)@.len() as int },
            ),
            final(self)@ == old(self)@.skip(removed@.len() as int),
            final(self).spec_capacity() == old(self).spec_capacity(),
    {
        proof {
            use_type_invariant(&*self);
        }
        let size = if max_amount < self.data.len() { max_amount } else { self.data.len() };
        let mut data: Vec<u8> = Vec::new();
        std::mem::swap(&mut self.data, &mut data);
        let tail = data.split_off(size);
        self.data = tail;
        data
    }
}

} // verus!
