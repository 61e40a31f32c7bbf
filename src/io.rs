//! Bookkeeping of the chunked streaming writer; the async reads themselves
//! are done by the caller.

use vstd::prelude::*;

verus! {

/// Reads in chunks of at most `chunk_size` bytes and records the largest seen.
pub struct StreamingWriter {
    chunk_size: usize,
    max_chunk_seen: usize,
}

impl StreamingWriter {
    pub closed spec fn spec_chunk_size(&self) -> usize {
        self.chunk_size
    }

    pub closed spec fn spec_max_chunk_seen(&self) -> usize {
        self.max_chunk_seen
    }

    /// A writer reading chunks of `chunk_size` bytes (at least one).
    pub fn new(chunk_size: usize) -> (r: Self)
        ensures
            r.spec_chunk_size() == if chunk_size == 0 { 1 } else { chunk_size },
            r.spec_max_chunk_seen() == 0,
    {
        StreamingWriter { chunk_size: if chunk_size == 0 { 1 } else { chunk_size }, max_chunk_seen: 0 }
    }

    pub fn chunk_size(&self) -> (r: usize)
        ensures
            r == self.spec_chunk_size(),
    {
        self.chunk_size
    }

    /// Records that a read returned `n` bytes.
    pub fn record_chunk(&mut self, n: usize)
        ensures
            final(self).spec_chunk_size() == old(self).spec_chunk_size(),
            final(self).spec_max_chunk_seen() == if n > old(self).spec_max_chunk_seen() {
                n
            } else {
                old(self).spec_max_chunk_seen()
            },
    {
        if n > self.max_chunk_seen {
            self.max_chunk_seen = n;
        }
    }

    /// The largest chunk a read has returned so far.
    pub fn max_chunk_seen(&self) -> (r: usize)
        ensures
            r == self.spec_max_chunk_seen(),
    {
        self.max_chunk_seen
    }
}

} // verus!
