//! A fixed-capacity byte queue with a logical read cursor: the backpressure
//! primitive used on both sides of the proxy.
use vstd::prelude::*;

verus! {

/// An owned, contiguous, capacity-limited byte queue. Bytes are appended at
/// the back and consumed from the front; capacity is fixed at construction.
pub struct ByteQueue {
    data: Vec<u8>,
    capacity: usize,
}

impl ByteQueue {
    /// The bytes currently held, front first.
    pub closed spec fn view(&self) -> Seq<u8> {
        self.data@
    }

    /// The fixed capacity the queue was created with.
    pub closed spec fn cap(&self) -> nat {
        self.capacity as nat
    }

    /// The queue never holds more bytes than its capacity.
    pub open spec fn wf(&self) -> bool {
        self@.len() <= self.cap()
    }

    pub fn new(capacity: usize) -> (q: ByteQueue)
        ensures
            q.wf(),
            q@ == Seq::<u8>::empty(),
            q.cap() == capacity,
    {
        ByteQueue { data: Vec::new(), capacity }
    }

    pub fn len(&self) -> (n: usize)
        ensures
            n == self@.len(),
    {
        self.data.len()
    }

    pub fn is_empty(&self) -> (r: bool)
        ensures
            r == (self@.len() == 0),
    {
        self.data.len() == 0
    }

    /// Full exactly when no more bytes can be appended without consuming.
    pub fn is_full(&self) -> (r: bool)
        requires
            self.wf(),
        ensures
            r == (self@.len() == self.cap()),
    {
        self.data.len() == self.capacity
    }

    /// How many bytes can still be appended.
    pub fn free_size(&self) -> (n: usize)
        requires
            self.wf(),
        ensures
            n == self.cap() - self@.len(),
    {
        self.capacity - self.data.len()
    }

    pub fn byte_at(&self, i: usize) -> (b: u8)
        requires
            i < self@.len(),
        ensures
            b == self@[i as int],
    {
        self.data[i]
    }

    /// The held bytes as a slice, front first (for draining to a sink).
    pub fn contents(&self) -> (s: &[u8])
        ensures
            s@ == self@,
    {
        self.data.as_slice()
    }

    /// Drops the first `n` bytes; the only way capacity is freed.
    pub fn consume(&mut self, n: usize)
        requires
            n <= old(self)@.len(),
        ensures
            final(self)@ == old(self)@.skip(n as int),
            final(self).cap() == old(self).cap(),
    {
        let len = self.data.len();
        let mut rest: Vec<u8> = Vec::new();
        let mut i: usize = n;
        while i < len
            invariant
                n <= i <= len,
                len == self.data.len(),
                self.data@ == old(self)@,
                self.capacity == old(self).capacity,
                rest@ == old(self)@.subrange(n as int, i as int),
            decreases len - i,
        {
            let b = self.data[i];
            rest.push(b);
            i += 1;
        }
        assert(rest@ =~= old(self)@.skip(n as int));
        self.data = rest;
    }

    /// Extracts and removes the first `pos` bytes as an owned vector, leaving
    /// the queue positioned at the byte following `pos`.
    pub fn remove_data(&mut self, pos: usize) -> (r: Vec<u8>)
        requires
            pos <= old(self)@.len(),
        ensures
            r@ == old(self)@.take(pos as int),
            final(self)@ == old(self)@.skip(pos as int),
            final(self).cap() == old(self).cap(),
    {
        let mut pre: Vec<u8> = Vec::new();
        let mut i: usize = 0;
        while i < pos
            invariant
                i <= pos <= self.data@.len(),
                self.data@ == old(self)@,
                self.capacity == old(self).capacity,
                pre@ == old(self)@.subrange(0, i as int),
            decreases pos - i,
        {
            let b = self.data[i];
            pre.push(b);
            i += 1;
        }
        assert(pre@ =~= old(self)@.take(pos as int));
        self.consume(pos);
        pre
    }

    /// Appends the given bytes at the back; the caller must leave room.
    pub fn append_slice(&mut self, s: &[u8])
        requires
            old(self).wf(),
            old(self)@.len() + s@.len() <= old(self).cap(),
        ensures
            final(self).wf(),
            final(self)@ == old(self)@ + s@,
            final(self).cap() == old(self).cap(),
    {
        let mut i: usize = 0;
        while i < s.len()
            invariant
                i <= s@.len(),
                self.capacity == old(self).capacity,
                self.data@ == old(self)@ + s@.subrange(0, i as int),
                old(self)@.len() + s@.len() <= old(self).cap(),
            decreases s@.len() - i,
        {
            let b = s[i];
            self.data.push(b);
            i += 1;
            assert(self.data@ =~= old(self)@ + s@.subrange(0, i as int));
        }
        assert(self@ =~= old(self)@ + s@);
    }

    /// First index at or after `from` holding `needle`, if any.
    pub fn find_byte(&self, needle: u8, from: usize) -> (r: Option<usize>)
        requires
            from <= self@.len(),
        ensures
            match r {
                Some(i) => from <= i < self@.len() && self@[i as int] == needle
                    && (forall|j: int| from <= j < i ==> self@[j] != needle),
                None => forall|j: int| from <= j < self@.len() ==> self@[j] != needle,
            },
    {
        let len = self.data.len();
        let mut i: usize = from;
        while i < len
            invariant
                from <= i <= len,
                len == self@.len(),
                forall|j: int| from <= j < i ==> self@[j] != needle,
            decreases len - i,
        {
            if self.data[i] == needle {
                return Some(i);
            }
            i += 1;
        }
        None
    }
}

} // verus!
