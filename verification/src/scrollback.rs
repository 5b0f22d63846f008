//! A bounded byte buffer that keeps the most recent terminal output.

use std::collections::VecDeque;
use vstd::prelude::*;

verus! {

broadcast use vstd::std_specs::vecdeque::group_vec_dequeue_axioms;

/// The last `n` elements of `s` (all of `s` when it is shorter).
pub open spec fn keep_last<A>(s: Seq<A>, n: nat) -> Seq<A> {
    if s.len() <= n {
        s
    } else {
        s.subrange(s.len() - n, s.len() as int)
    }
}

/// Two appends in a row leave the buffer as one append of both slices
/// together would, and the buffer never holds more than its capacity.
pub proof fn lemma_append_concat(s: Seq<u8>, a: Seq<u8>, b: Seq<u8>, n: nat)
    ensures
        keep_last(keep_last(s + a, n) + b, n) == keep_last(s + a + b, n),
        keep_last(s + a, n).len() <= n,
{
    let x = s + a;
    let y = keep_last(x, n) + b;
    let z = x + b;
    if x.len() <= n {
        assert(y =~= z);
    } else {
        assert(keep_last(y, n) =~= keep_last(z, n));
    }
}

/// Holds at most `max_bytes` bytes: the most recent ones appended.
pub struct ScrollbackBuffer {
    max_bytes: usize,
    data: VecDeque<u8>,
}

impl View for ScrollbackBuffer {
    type V = Seq<u8>;

    closed spec fn view(&self) -> Seq<u8> {
        self.data@
    }
}

impl ScrollbackBuffer {
    /// The capacity the buffer was made with.
    pub closed spec fn capacity(&self) -> nat {
        self.max_bytes as nat
    }

    #[verifier::type_invariant]
    spec fn within_capacity(&self) -> bool {
        self.data@.len() <= self.max_bytes
    }

    /// An empty buffer that keeps at most `max_bytes` bytes.
    pub fn new(max_bytes: usize) -> (buf: Self)
        ensures
            buf@ == Seq::<u8>::empty(),
            buf.capacity() == max_bytes,
    {
        ScrollbackBuffer { max_bytes, data: VecDeque::new() }
    }

    /// Appends `bytes`, then drops the oldest bytes until at most
    /// `capacity()` remain.
    pub fn append(&mut self, bytes: &[u8])
        ensures
            final(self)@ == keep_last(old(self)@ + bytes@, old(self).capacity()),
            final(self).capacity() == old(self).capacity(),
    {
        proof {
            use_type_invariant(&*self);
        }
        let ghost start = self.data@;
        let mut data = VecDeque::new();
        std::mem::swap(&mut data, &mut self.data);
        let mut i: usize = 0;
        while i < bytes.len()
            invariant
                i <= bytes@.len(),
                data@ == start + bytes@.subrange(0, i as int),
            decreases bytes@.len() - i,
        {
            data.push_back(bytes[i]);
            assert(bytes@.subrange(0, i + 1) =~= bytes@.subrange(0, i as int).push(bytes@[i as int]));
            i += 1;
        }
        assert(bytes@.subrange(0, bytes@.len() as int) =~= bytes@);
        let ghost whole = start + bytes@;
        while data.len() > self.max_bytes
            invariant
                data@.len() <= whole.len(),
                data@ == whole.subrange(whole.len() - data@.len(), whole.len() as int),
                whole.len() > self.max_bytes ==> data@.len() >= self.max_bytes,
                whole.len() <= self.max_bytes ==> data@ == whole,
            decreases data@.len(),
        {
            let _ = data.pop_front();
        }
        self.data = data;
    }

    /// The buffered bytes, oldest first.
    pub fn snapshot(&self) -> (out: Vec<u8>)
        ensures
            out@ == self@,
    {
        let mut out: Vec<u8> = Vec::new();
        let mut i: usize = 0;
        while i < self.data.len()
            invariant
                i <= self.data@.len(),
                out@ == self.data@.subrange(0, i as int),
            decreases self.data@.len() - i,
        {
            out.push(self.data[i]);
            assert(self.data@.subrange(0, i + 1) =~= self.data@.subrange(0, i as int).push(
                self.data@[i as int],
            ));
            i += 1;
        }
        assert(self.data@.subrange(0, self.data@.len() as int) =~= self.data@);
        out
    }

    /// Drops every buffered byte; the capacity is kept.
    pub fn clear(&mut self)
        ensures
            final(self)@ == Seq::<u8>::empty(),
            final(self).capacity() == old(self).capacity(),
    {
        let mut data = VecDeque::new();
        std::mem::swap(&mut data, &mut self.data);
        data.clear();
        self.data = data;
    }

    /// The number of buffered bytes, never more than the capacity.
    pub fn len(&self) -> (n: usize)
        ensures
            n == self@.len(),
            n <= self.capacity(),
    {
        proof {
            use_type_invariant(self);
        }
        self.data.len()
    }
}

} // verus!
