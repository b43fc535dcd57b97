//! A rewindable byte stream. Bytes wait in `pending` (push-back and fed
//! source data, consumed front first); every byte delivered to the consumer
//! is recorded in a checkpoint `log`, so that `rewind` can restore the
//! stream to its state at the last checkpoint, byte for byte.

use vstd::prelude::*;
use crate::bytes::{seq_find, lemma_seq_find, find_byte};

verus! {

/// A byte queue with push-back, checkpoint and rewind.
pub struct RewindBuffer {
    future: Vec<u8>,
    past: Vec<u8>,
}

impl RewindBuffer {
    /// The bytes waiting to be read, in delivery order.
    pub closed spec fn pending(self) -> Seq<u8> {
        self.future@
    }

    /// The bytes delivered since the last checkpoint, in delivery order.
    pub closed spec fn log(self) -> Seq<u8> {
        self.past@
    }

    /// An empty stream with an empty log.
    pub fn new() -> (r: RewindBuffer)
        ensures
            r.pending() == Seq::<u8>::empty(),
            r.log() == Seq::<u8>::empty(),
    {
        RewindBuffer { future: Vec::new(), past: Vec::new() }
    }

    /// Pushes bytes back to the front of the queue: they are redelivered
    /// before anything already pending.
    pub fn unread(&mut self, bytes: &[u8])
        ensures
            final(self).pending() == bytes@ + old(self).pending(),
            final(self).log() == old(self).log(),
    {
        let mut v: Vec<u8> = Vec::new();
        v.extend_from_slice(bytes);
        v.append(&mut self.future);
        self.future = v;
        proof {
            assert(final(self).pending() =~= bytes@ + old(self).pending());
        }
    }

    /// Appends bytes from the underlying source to the back of the queue.
    pub fn feed(&mut self, bytes: &[u8])
        ensures
            final(self).pending() == old(self).pending() + bytes@,
            final(self).log() == old(self).log(),
    {
        self.future.extend_from_slice(bytes);
    }

    /// Establishes a new checkpoint: clears the log, leaves the queue alone.
    pub fn forget_past(&mut self)
        ensures
            final(self).pending() == old(self).pending(),
            final(self).log().len() == 0,
    {
        self.past.clear();
    }

    /// Undoes every read since the last checkpoint: the logged bytes move
    /// back to the front of the queue, in their original order, so the next
    /// reads redeliver exactly them.
    pub fn rewind(&mut self)
        ensures
            final(self).pending() == old(self).log() + old(self).pending(),
            final(self).log().len() == 0,
    {
        self.past.append(&mut self.future);
        let mut v: Vec<u8> = Vec::new();
        core::mem::swap(&mut v, &mut self.past);
        self.future = v;
    }

    /// Delivers the front `k` bytes: appends them to `out` and to the log,
    /// and removes them from the queue.
    fn take_front(&mut self, k: usize, out: &mut Vec<u8>)
        requires
            k <= old(self).pending().len(),
        ensures
            final(self).pending() == old(self).pending().skip(k as int),
            final(self).log() == old(self).log() + old(self).pending().take(k as int),
            final(out)@ == old(out)@ + old(self).pending().take(k as int),
    {
        let tail = self.future.split_off(k);
        out.extend_from_slice(self.future.as_slice());
        self.past.extend_from_slice(self.future.as_slice());
        self.future = tail;
    }

    /// How many bytes are pending.
    pub fn pending_len(&self) -> (r: usize)
        ensures
            r == self.pending().len(),
    {
        self.future.len()
    }

    /// Reads up to `n` bytes into `buf`, front first, logging each byte.
    pub fn read(&mut self, buf: &mut Vec<u8>, n: usize) -> (r: usize)
        ensures
            r == if n <= old(self).pending().len() { n as int } else { old(self).pending().len() as int },
            final(self).pending() == old(self).pending().skip(r as int),
            final(self).log() == old(self).log() + old(self).pending().take(r as int),
            final(buf)@ == old(buf)@ + old(self).pending().take(r as int),
    {
        let k = if n <= self.future.len() { n } else { self.future.len() };
        self.take_front(k, buf);
        k
    }

    /// Reads one line — everything up to and including the first newline —
    /// into `out`, logging each byte. Returns `None`, changing nothing, when
    /// no complete line is pending; the caller then feeds more source bytes,
    /// or drains the rest with `take_rest` at end of input.
    pub fn read_line(&mut self, out: &mut Vec<u8>) -> (r: Option<usize>)
        ensures
            match r {
                Some(k) => {
                    &&& k == seq_find(old(self).pending(), 10) + 1
                    &&& k <= old(self).pending().len()
                    &&& final(self).pending() == old(self).pending().skip(k as int)
                    &&& final(self).log() == old(self).log() + old(self).pending().take(k as int)
                    &&& final(out)@ == old(out)@ + old(self).pending().take(k as int)
                },
                None => {
                    &&& seq_find(old(self).pending(), 10) == old(self).pending().len()
                    &&& *final(self) == *old(self)
                    &&& *final(out) == *old(out)
                },
            },
    {
        let n = self.future.len();
        match find_byte(self.future.as_slice(), 10) {
            Some(p) => {
                assert(p < n);
                self.take_front(p + 1, out);
                Some(p + 1)
            },
            None => None,
        }
    }

    /// Drains everything pending into `out`, logging each byte.
    pub fn take_rest(&mut self, out: &mut Vec<u8>)
        ensures
            final(self).pending().len() == 0,
            final(self).log() == old(self).log() + old(self).pending(),
            final(out)@ == old(out)@ + old(self).pending(),
    {
        let k = self.future.len();
        self.take_front(k, out);
        proof {
            assert(old(self).pending().take(k as int) =~= old(self).pending());
        }
    }
}

/// Law: push-back round-trips. After `unread(bytes)` the queue is
/// `bytes + pending`, and a read of `bytes.len()` bytes delivers exactly
/// `bytes`, before any previously pending byte is observed.
pub proof fn lemma_unread_read_round_trip(pending: Seq<u8>, bytes: Seq<u8>)
    ensures
        (bytes + pending).take(bytes.len() as int) == bytes,
        (bytes + pending).skip(bytes.len() as int) == pending,
{
    assert((bytes + pending).take(bytes.len() as int) =~= bytes);
    assert((bytes + pending).skip(bytes.len() as int) =~= pending);
}

} // verus!
