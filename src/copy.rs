//! Exact-length chunked copying. `CopyProgress` holds the decisions of the
//! transfer loop; the caller performs each read and write it asks for.
use vstd::prelude::*;

verus! {

/// The most bytes asked for in one read.
pub const CHUNK_SIZE: usize = 256;

/// Progress of a transfer of exactly `total` bytes.
#[derive(Clone, Copy, Debug, PartialEq, Eq, Structural)]
pub struct CopyProgress {
    pub total: usize,
    pub copied: usize,
}

impl CopyProgress {
    pub open spec fn wf(&self) -> bool {
        self.copied <= self.total
    }

    /// The size of the next read: a full chunk, or exactly what is left.
    pub open spec fn request(&self) -> nat {
        if self.total - self.copied < CHUNK_SIZE {
            (self.total - self.copied) as nat
        } else {
            CHUNK_SIZE as nat
        }
    }

    /// A transfer of `n` bytes that has not started.
    pub fn new(n: usize) -> (r: CopyProgress)
        ensures
            r.wf(),
            r.total == n,
            r.copied == 0,
    {
        CopyProgress { total: n, copied: 0 }
    }

    /// Whether all bytes have been copied.
    pub fn is_complete(&self) -> (r: bool)
        requires
            self.wf(),
        ensures
            r == (self.copied == self.total),
    {
        self.copied == self.total
    }

    /// How many bytes to read next; zero once the transfer is complete.
    pub fn next_request(&self) -> (r: usize)
        requires
            self.wf(),
        ensures
            r == self.request(),
            r <= CHUNK_SIZE,
            r == 0 <==> self.copied == self.total,
    {
        let left = self.total - self.copied;
        if left < CHUNK_SIZE {
            left
        } else {
            CHUNK_SIZE
        }
    }

    /// Records a read of `got` bytes, all of which the caller has written out.
    /// A read of zero bytes makes no progress and the same request follows.
    pub fn record(&mut self, got: usize)
        requires
            old(self).wf(),
            got <= old(self).request(),
        ensures
            final(self).wf(),
            final(self).total == old(self).total,
            final(self).copied == old(self).copied + got,
    {
        self.copied = self.copied + got;
    }
}

/// Copies exactly `n` bytes from the start of `from` to the end of `to`, chunk by chunk.
pub fn ncopy(from: &[u8], to: &mut Vec<u8>, n: usize)
    requires
        n <= from.len(),
    ensures
        final(to)@ == old(to)@ + from@.subrange(0, n as int),
{
    let ghost start = to@;
    let mut progress = CopyProgress::new(n);
    while !progress.is_complete()
        invariant
            progress.wf(),
            progress.total == n <= from.len(),
            to@ == start + from@.subrange(0, progress.copied as int),
        decreases n - progress.copied,
    {
        let want = progress.next_request();
        let at = progress.copied;
        let chunk = &from[at..at + want];
        to.extend_from_slice(chunk);
        progress.record(want);
        assert(from@.subrange(0, at + want) =~= from@.subrange(0, at as int) + chunk@);
    }
}

} // verus!
