//! Buffers and bookkeeping for the small-file fast path.
//!
//! Small files are dominated by per-file overhead; the executor
//! copies them in batches through a pool of reusable buffers.  The
//! batch copying itself is filesystem work done by the caller.

use vstd::prelude::*;

verus! {

/// Size bound under which a file counts as small.
pub const SMALL_FILE_THRESHOLD: usize = 64 * 1024;

/// A round-robin pool of fixed-size buffers for small-file copies.
pub struct SmallFileBuffer {
    buffers: Vec<Vec<u8>>,
    next_buffer: usize,
}

impl SmallFileBuffer {
    /// Number of buffers in the pool.
    pub closed spec fn count(&self) -> nat {
        self.buffers@.len()
    }

    /// The round-robin cursor: index of the buffer the next call
    /// hands out.
    pub closed spec fn cursor(&self) -> nat {
        self.next_buffer as nat
    }

    /// The contents of buffer `k`.
    pub closed spec fn buffer_at(&self, k: int) -> Seq<u8> {
        self.buffers@[k]@
    }

    /// Every buffer has the small-file size, and the cursor is in
    /// range while the pool is non-empty.
    pub closed spec fn wf(&self) -> bool {
        &&& forall|i: int|
            0 <= i < self.buffers@.len() ==> (#[trigger] self.buffers@[i])@.len()
                == SMALL_FILE_THRESHOLD
        &&& (self.buffers@.len() > 0 ==> self.next_buffer < self.buffers@.len())
    }

    /// A pool of `count` buffers.
    pub fn new(count: usize) -> (r: Self)
        ensures
            r.wf(),
            r.count() == count,
    {
        let mut buffers: Vec<Vec<u8>> = Vec::new();
        let mut i: usize = 0;
        while i < count
            invariant
                i <= count,
                buffers@.len() == i,
                forall|j: int|
                    0 <= j < i ==> (#[trigger] buffers@[j])@.len() == SMALL_FILE_THRESHOLD,
            decreases count - i,
        {
            buffers.push(vec![0u8; SMALL_FILE_THRESHOLD]);
            i += 1;
        }
        SmallFileBuffer { buffers, next_buffer: 0 }
    }

    /// The next buffer of the pool, advancing the round-robin
    /// cursor: successive calls cycle through the `count()`
    /// preallocated buffers without allocating.
    pub fn get_buffer(&mut self) -> (r: &Vec<u8>)
        requires
            old(self).wf(),
            old(self).count() > 0,
        ensures
            final(self).wf(),
            final(self).count() == old(self).count(),
            final(self).cursor() == (old(self).cursor() + 1) % old(self).count(),
            forall|k: int|
                0 <= k < old(self).count() ==> final(self).buffer_at(k) == old(self).buffer_at(k),
            r@ == old(self).buffer_at(old(self).cursor() as int),
            r@.len() == SMALL_FILE_THRESHOLD,
    {
        let current = self.next_buffer;
        let total = self.buffers.len();
        self.next_buffer = (current + 1) % total;
        &self.buffers[current]
    }
}

/// Results of one batch copy pass.
#[derive(Debug)]
pub struct BatchCopyStats {
    pub total_files: usize,
    pub files_copied: u64,
    pub bytes_copied: u64,
    pub elapsed_millis: u64,
}

} // verus!
