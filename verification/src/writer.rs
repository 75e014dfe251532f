//! A composite output sink: one writer fanning every write out to each
//! registered destination.  The destinations here are in-memory byte
//! buffers, which the caller drains to its real outputs; the fan-out law
//! is that one write appends the same bytes to every destination.

use vstd::prelude::*;

verus! {

/// A sink that duplicates everything written to it into each of its
/// destinations.
pub struct MultiWriter {
    pub writers: Vec<Vec<u8>>,
}

impl MultiWriter {
    /// A fan-out sink with no destinations yet.
    pub fn new() -> (r: MultiWriter)
        ensures
            r.writers@.len() == 0,
    {
        MultiWriter { writers: Vec::new() }
    }

    /// Register one more destination buffer.
    pub fn add(&mut self, writer: Vec<u8>)
        ensures
            final(self).writers@ == old(self).writers@.push(writer),
    {
        self.writers.push(writer);
    }

    /// Write the buffer to every destination: each one is extended by
    /// exactly these bytes, and the whole buffer is consumed.
    pub fn write(&mut self, buf: &[u8]) -> (r: usize)
        ensures
            r == buf@.len(),
            final(self).writers@.len() == old(self).writers@.len(),
            forall|i: int|
                0 <= i < old(self).writers@.len() ==> final(self).writers@[i]@ == old(
                    self,
                ).writers@[i]@ + buf@,
    {
        let n = self.writers.len();
        let blen = buf.len();
        let mut i: usize = 0;
        while i < n
            invariant
                n == self.writers@.len(),
                n == old(self).writers@.len(),
                i <= n,
                blen == buf@.len(),
                forall|k: int|
                    0 <= k < i ==> self.writers@[k]@ == old(self).writers@[k]@ + buf@,
                forall|k: int| i <= k < n ==> self.writers@[k] == old(self).writers@[k],
            decreases n - i,
        {
            let m = buf.len();
            let ghost pre = self.writers@[i as int]@;
            let mut j: usize = 0;
            while j < m
                invariant
                    n == self.writers@.len(),
                    n == old(self).writers@.len(),
                    i < n,
                    m == buf@.len(),
                    j <= m,
                    self.writers@[i as int]@ == pre + buf@.take(j as int),
                    forall|k: int|
                        0 <= k < i ==> self.writers@[k]@ == old(self).writers@[k]@ + buf@,
                    forall|k: int| i < k < n ==> self.writers@[k] == old(self).writers@[k],
                decreases m - j,
            {
                self.writers[i].push(buf[j]);
                assert(self.writers@[i as int]@ =~= pre + buf@.take(j + 1));
                j += 1;
            }
            assert(self.writers@[i as int]@ =~= pre + buf@);
            i += 1;
        }
        buf.len()
    }

    /// Flushing an in-memory destination is a no-op; every byte written
    /// is already in place.
    pub fn flush(&mut self)
        ensures
            final(self).writers@ == old(self).writers@,
    {
    }
}

} // verus!
