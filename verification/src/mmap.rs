//! The memory-mapping engine.
//!
//! The object's bytes live in a mapped region whose capacity is at least a
//! fixed minimum and at least the logical size, which is tracked separately:
//! capacity amortizes growth, size is what status reports and reads clamp
//! to. A write that ends past the capacity first grows the region to twice
//! the new logical size (the region may move when it grows; nothing here
//! hands out addresses into it), then copies the bytes into place.

use vstd::prelude::*;

use crate::error::{Action, BackendError};
use crate::model::{max_extent, read_view, spec_max_extent, write_view};
use crate::object::BackendObject;

verus! {

/// The default minimum capacity of a fresh mapping, in bytes (1 MiB).
pub const DEFAULT_MAP_SIZE: usize = 1048576;

/// The memory-mapping engine: a mapped region of `capacity()` bytes, of
/// which the first `size` are the object's logical contents.
pub struct MmapObject {
    mapping: Vec<u8>,
    size: usize,
    stamp: i64,
}

impl MmapObject {
    /// The capacity of the mapped region, always at least the logical size
    /// and at least the default minimum.
    pub closed spec fn capacity(&self) -> nat {
        self.mapping@.len()
    }

    /// The tracked logical size.
    pub closed spec fn spec_size(&self) -> nat {
        self.size as nat
    }

    /// The capacity the region grows to when a write of logical size `s`
    /// outruns it: double the new size, saturated at the addressable limit.
    pub open spec fn grown_capacity(s: nat) -> nat {
        if 2 * s <= usize::MAX {
            2 * s
        } else {
            usize::MAX as nat
        }
    }

    /// The engine's invariant, spelled out for callers: the capacity is at
    /// least the default minimum and at least the logical size, which is
    /// the length of the contents.
    pub proof fn lemma_capacity_bounds(&self)
        requires
            self.wf(),
        ensures
            self.capacity() >= DEFAULT_MAP_SIZE,
            self.capacity() >= self.spec_size(),
            self.contents().len() == self.spec_size(),
    {
    }

    /// The capacity of the mapped region, for callers outside the proof.
    pub fn mapped_len(&self) -> (n: usize)
        ensures
            n == self.capacity(),
    {
        self.mapping.len()
    }

    /// Grows the region to twice the logical size by appending zero bytes;
    /// the bytes already in the region keep their places.
    fn enlarge(&mut self)
        requires
            old(self).mapping@.len() <= 2 * old(self).size,
        ensures
            final(self).size == old(self).size,
            final(self).stamp == old(self).stamp,
            final(self).mapping@.len() == Self::grown_capacity(old(self).size as nat),
            forall|j: int| 0 <= j < old(self).mapping@.len() ==> final(self).mapping@[j] == old(self).mapping@[j],
            forall|j: int|
                old(self).mapping@.len() <= j < final(self).mapping@.len() ==> final(self).mapping@[j] == 0u8,
    {
        let target: usize = if self.size > usize::MAX / 2 {
            usize::MAX
        } else {
            2 * self.size
        };
        assert(target == Self::grown_capacity(old(self).size as nat));
        assert(self.mapping@.len() == self.mapping.len() <= usize::MAX);
        while self.mapping.len() < target
            invariant
                old(self).mapping@.len() <= self.mapping@.len() <= target,
                self.size == old(self).size,
                self.stamp == old(self).stamp,
                forall|j: int| 0 <= j < old(self).mapping@.len() ==> self.mapping@[j] == old(self).mapping@[j],
                forall|j: int| old(self).mapping@.len() <= j < self.mapping@.len()
                    ==> self.mapping@[j] == 0u8,
            decreases target - self.mapping.len(),
        {
            self.mapping.push(0u8);
        }
    }

    /// The full write contract, including how the capacity reacts: the
    /// region grows, to twice the new logical size, exactly when the write's
    /// end does not lie strictly inside the old capacity.
    pub fn write_at(&mut self, buffer: &[u8], offset: u64, length: u64) -> (r: Result<
        u64,
        BackendError,
    >)
        requires
            old(self).wf(),
        ensures
            final(self).wf(),
            final(self).modified() == old(self).modified(),
            length > buffer@.len() ==> (r matches Ok(n) && n == 0 && *final(self) == *old(self)),
            length <= buffer@.len() && offset + length <= spec_max_extent() ==> (r matches Ok(n) && n
                == length && final(self).contents() == write_view(
                old(self).contents(),
                buffer@.take(length as int),
                offset as int,
            ) && final(self).capacity() == (if old(self).capacity() <= offset + length {
                Self::grown_capacity(final(self).spec_size())
            } else {
                old(self).capacity()
            })),
            length <= buffer@.len() && offset + length > spec_max_extent() ==> (r matches Err(e)
                && e.action == Action::Write && *final(self) == *old(self)),
    {
        if length > buffer.len() as u64 {
            return Ok(0);
        }
        let limit: u64 = max_extent();
        if offset > limit || length > limit - offset {
            return Err(BackendError::new("write end exceeds the addressable range", Action::Write));
        }
        let ghost v0 = self.contents();
        let off: usize = offset as usize;
        let len: usize = length as usize;
        let end: usize = off + len;
        if self.size < end {
            // The backing file is extended to the new logical size before
            // the region is asked to cover it.
            self.size = end;
        }
        if self.mapping.len() <= end {
            self.enlarge();
        }
        let ghost cap1 = self.mapping@.len();
        proof {
            assert(cap1 == (if old(self).mapping@.len() <= off + len {
                Self::grown_capacity(self.size as nat)
            } else {
                old(self).mapping@.len()
            }));
            assert(DEFAULT_MAP_SIZE <= cap1);
        }
        let mut i: usize = 0;
        while i < len
            invariant
                i <= len,
                len <= buffer@.len(),
                self.mapping@.len() == cap1,
                DEFAULT_MAP_SIZE <= cap1,
                cap1 == (if old(self).mapping@.len() <= off + len {
                    Self::grown_capacity(self.size as nat)
                } else {
                    old(self).mapping@.len()
                }),
                off + len <= self.mapping@.len(),
                off + len <= self.size <= self.mapping@.len(),
                self.size == vstd::math::max(v0.len() as int, off + len),
                self.stamp == old(self).stamp,
                forall|j: int| 0 <= j < v0.len() && !(off <= j < off + len) ==> self.mapping@[j]
                    == v0[j],
                forall|j: int|
                    v0.len() <= j < self.mapping@.len() && !(off <= j < off + len)
                        ==> self.mapping@[j] == 0u8,
                forall|j: int| off <= j < off + i ==> self.mapping@[j] == buffer@[j - off],
            decreases len - i,
        {
            let b: u8 = buffer[i];
            self.mapping[off + i] = b;
            i = i + 1;
        }
        assert(self.contents() =~= write_view(v0, buffer@.take(length as int), offset as int));
        Ok(length)
    }
}

impl BackendObject for MmapObject {
    closed spec fn contents(&self) -> Seq<u8> {
        self.mapping@.take(self.size as int)
    }

    closed spec fn modified(&self) -> i64 {
        self.stamp
    }

    closed spec fn wf(&self) -> bool {
        &&& self.size <= self.mapping@.len()
        &&& self.mapping@.len() >= DEFAULT_MAP_SIZE
        &&& forall|j: int| self.size <= j < self.mapping@.len() ==> self.mapping@[j] == 0u8
    }

    /// Establishes the mapping: logical size is the initial length, and the
    /// capacity is the larger of the default minimum and that length.
    fn new(initial: Vec<u8>, modified: i64) -> (r: Result<Self, BackendError>) {
        if initial.len() as u64 > max_extent() {
            return Err(BackendError::new("object is larger than the addressable range", Action::Init));
        }
        let ghost init0 = initial@;
        let mut mapping = initial;
        let size: usize = mapping.len();
        while mapping.len() < DEFAULT_MAP_SIZE
            invariant
                size == init0.len(),
                size <= mapping@.len(),
                mapping@.len() <= vstd::math::max(size as int, DEFAULT_MAP_SIZE as int),
                forall|j: int| 0 <= j < size ==> mapping@[j] == init0[j],
                forall|j: int| size <= j < mapping@.len() ==> mapping@[j] == 0u8,
            decreases DEFAULT_MAP_SIZE - mapping.len(),
        {
            mapping.push(0u8);
        }
        let o = MmapObject { mapping, size, stamp: modified };
        assert(o.contents() =~= init0);
        Ok(o)
    }

    fn read(&mut self, offset: u64, length: u64) -> (r: Result<Vec<u8>, BackendError>) {
        let size: u64 = self.size as u64;
        if offset >= size {
            let empty: Vec<u8> = Vec::new();
            assert(empty@ =~= read_view(self.contents(), offset as int, length as int));
            return Ok(empty);
        }
        let avail: u64 = size - offset;
        let take: usize = if length < avail {
            length as usize
        } else {
            avail as usize
        };
        let off: usize = offset as usize;
        let mut out: Vec<u8> = Vec::new();
        let mut i: usize = 0;
        while i < take
            invariant
                i <= take,
                off + take <= self.size <= self.mapping@.len(),
                out@.len() == i,
                forall|j: int| 0 <= j < i ==> out@[j] == self.mapping@[off + j],
            decreases take - i,
        {
            let b: u8 = self.mapping[off + i];
            out.push(b);
            i = i + 1;
        }
        assert(out@ =~= read_view(self.contents(), offset as int, length as int));
        Ok(out)
    }

    fn write(&mut self, buffer: &[u8], offset: u64, length: u64) -> (r: Result<
        u64,
        BackendError,
    >) {
        self.write_at(buffer, offset, length)
    }

    /// Flushing the mapped pages is the engine's durability point; it does
    /// not change the logical contents.
    fn sync(&mut self) -> (r: Result<(), BackendError>) {
        Ok(())
    }

    /// Size is the logical size, not the capacity of the region.
    fn status(&self) -> (r: Result<(i64, u64), BackendError>) {
        Ok((self.stamp, self.size as u64))
    }
}

} // verus!
