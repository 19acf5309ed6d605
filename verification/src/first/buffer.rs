//! A growable, contiguous session buffer.
//!
//! The buffer carries a read offset and a write offset over its storage:
//! bytes between them are readable, bytes past the write offset are free
//! for writing.  Marking bytes read may compact the buffer, moving the
//! readable region to the front; the readable bytes themselves are never
//! changed by compaction.

use vstd::prelude::*;
use vstd::pervasive::VecAdditionalExecFns;
use vstd::slice::slice_index_get;

verus! {

/// A growable, contiguous byte buffer with read and write offsets.
#[derive(Debug)]
pub struct Buffer {
    data: Vec<u8>,
    read_offset: usize,
    write_offset: usize,
    desired_capacity: usize,
}

impl Buffer {
    /// The storage, as contracts see it.
    pub closed spec fn storage(&self) -> Seq<u8> {
        self.data@
    }

    /// The read offset, as contracts see it.
    pub closed spec fn read_pos(&self) -> int {
        self.read_offset as int
    }

    /// The write offset, as contracts see it.
    pub closed spec fn spec_write_pos(&self) -> int {
        self.write_offset as int
    }

    /// The offsets stay ordered and within the storage.
    pub open spec fn wf(&self) -> bool {
        0 <= self.read_pos() <= self.spec_write_pos() <= self.storage().len()
    }

    /// The bytes written but not yet read.
    pub open spec fn readable(&self) -> Seq<u8> {
        self.storage().subrange(self.read_pos(), self.spec_write_pos())
    }

    /// Creates a buffer whose storage starts at `desired_capacity` bytes.
    pub fn new(desired_capacity: usize) -> (r: Self)
        ensures
            r.wf(),
            r.storage().len() == desired_capacity,
            r.read_pos() == 0,
            r.spec_write_pos() == 0,
    {
        let mut data: Vec<u8> = Vec::new();
        let mut i: usize = 0;
        while i < desired_capacity
            invariant
                i <= desired_capacity,
                data@.len() == i,
            decreases desired_capacity - i,
        {
            data.push(0);
            i += 1;
        }
        Buffer { data, read_offset: 0, write_offset: 0, desired_capacity }
    }

    /// Reserves at least `capacity` bytes of new space.
    pub fn reserve(&mut self, capacity: usize)
        requires
            old(self).wf(),
            old(self).storage().len() + capacity <= usize::MAX,
        ensures
            final(self).wf(),
            final(self).storage().len() >= old(self).storage().len() + capacity,
            final(self).readable() == old(self).readable(),
            final(self).read_pos() == old(self).read_pos(),
            final(self).spec_write_pos() == old(self).spec_write_pos(),
    {
        let target: usize = self.data.len() + capacity;
        let mut len: usize = self.data.len();
        while len < target
            invariant
                self.data@.len() == len,
                self.read_offset == old(self).read_offset,
                self.write_offset == old(self).write_offset,
                self.desired_capacity == old(self).desired_capacity,
                len >= old(self).storage().len(),
                forall|i: int| 0 <= i < old(self).storage().len()
                    ==> self.data@[i] == old(self).storage()[i],
            decreases target - len,
        {
            self.data.push(0);
            len += 1;
        }
        proof {
            assert(self.readable() =~= old(self).readable());
        }
    }

    /// How many bytes are available to be read.
    pub fn remaining(&self) -> (r: usize)
        requires
            self.wf(),
        ensures
            r == self.spec_write_pos() - self.read_pos(),
            r == self.readable().len(),
    {
        self.write_offset - self.read_offset
    }

    /// How many bytes are available for writing.
    pub fn remaining_mut(&self) -> (r: usize)
        requires
            self.wf(),
        ensures
            r == self.storage().len() - self.spec_write_pos(),
    {
        self.data.len() - self.write_offset
    }

    /// The current write position.
    pub fn write_pos(&self) -> (r: usize)
        ensures
            r == self.spec_write_pos(),
    {
        self.write_offset
    }

    /// Marks `amount` bytes as read, freeing them: the readable bytes
    /// lose their first `amount` (all of them, if fewer remain).  When
    /// nothing readable remains the offsets return to the front.
    pub fn mark_read(&mut self, amount: usize)
        requires
            old(self).wf(),
        ensures
            final(self).wf(),
            final(self).readable() == (if amount <= old(self).readable().len() {
                old(self).readable().skip(amount as int)
            } else {
                Seq::<u8>::empty()
            }),
    {
        let new_read: usize = if amount <= self.write_offset - self.read_offset {
            self.read_offset + amount
        } else {
            self.write_offset
        };
        self.read_offset = new_read;
        if self.read_offset == self.write_offset {
            self.read_offset = 0;
            self.write_offset = 0;
            proof {
                assert(final(self).readable() =~= Seq::<u8>::empty());
                if amount <= old(self).readable().len() {
                    assert(old(self).readable().skip(amount as int) =~= Seq::<u8>::empty());
                }
            }
        } else {
            proof {
                assert(final(self).readable() =~= old(self).readable().skip(amount as int));
            }
        }
    }

    /// Marks `amount` bytes as written: the readable bytes gain the next
    /// `amount` bytes of storage (up to the end of storage).
    pub fn mark_written(&mut self, amount: usize)
        requires
            old(self).wf(),
        ensures
            final(self).wf(),
            final(self).spec_write_pos() == (if old(self).spec_write_pos() + amount
                <= old(self).storage().len() {
                old(self).spec_write_pos() + amount
            } else {
                old(self).storage().len() as int
            }),
            final(self).storage() == old(self).storage(),
            final(self).read_pos() == old(self).read_pos(),
    {
        if amount <= self.data.len() - self.write_offset {
            self.write_offset = self.write_offset + amount;
        } else {
            self.write_offset = self.data.len();
        }
    }

    /// Writes `bytes` at the write position, growing the storage first if
    /// it is short, and marks them written: they join the readable bytes.
    pub fn write(&mut self, bytes: &[u8]) -> (r: usize)
        requires
            old(self).wf(),
            old(self).storage().len() + bytes@.len() <= usize::MAX,
        ensures
            final(self).wf(),
            r == bytes@.len(),
            final(self).readable() == old(self).readable() + bytes@,
    {
        let n: usize = bytes.len();
        if self.data.len() - self.write_offset < n {
            self.reserve(n);
        }
        let ghost mid = *self;
        let mut i: usize = 0;
        while i < n
            invariant
                i <= n,
                n == bytes@.len(),
                self.read_offset == mid.read_offset,
                self.write_offset == mid.write_offset,
                self.read_offset <= self.write_offset,
                self.write_offset + n <= self.data@.len(),
                self.data@.len() == mid.data@.len(),
                self.data@.subrange(self.read_offset as int, self.write_offset as int)
                    == mid.readable(),
                forall|k: int| 0 <= k < i ==> self.data@[self.write_offset + k] == bytes@[k],
            decreases n - i,
        {
            let cap: usize = self.data.len();
            proof {
                assert(self.write_offset + i < cap);
            }
            let b: u8 = *slice_index_get(bytes, i);
            self.data.set(self.write_offset + i, b);
            proof {
                assert(self.data@.subrange(self.read_offset as int, self.write_offset as int)
                    =~= mid.readable());
            }
            i += 1;
        }
        self.write_offset = self.write_offset + n;
        proof {
            assert(self.readable() =~= mid.readable() + bytes@);
            assert(mid.readable() == old(self).readable());
        }
        n
    }
}

} // verus!
