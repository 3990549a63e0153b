//! Verified positioned reads and writes on an owned byte region.
//!
//! The positioned-I/O engine and the ring engine both keep their logical
//! contents as one owned byte vector; these helpers implement the clamped
//! read and the extending write of the model on such a vector.

use vstd::prelude::*;

use crate::model::{read_view, write_view};

verus! {

/// Copies the clamped window `[offset, offset + length)` out of `contents`.
pub fn copy_window(contents: &Vec<u8>, offset: u64, length: u64) -> (r: Vec<u8>)
    ensures
        r@ == read_view(contents@, offset as int, length as int),
{
    let len: u64 = contents.len() as u64;
    if offset >= len {
        let empty: Vec<u8> = Vec::new();
        assert(empty@ =~= read_view(contents@, offset as int, length as int));
        return empty;
    }
    let avail: u64 = len - offset;
    let take: usize = if length < avail {
        length as usize
    } else {
        avail as usize
    };
    let off: usize = offset as usize;
    let mut out: Vec<u8> = Vec::new();
    let mut i: usize = 0;
    while i < take
        invariant
            i <= take,
            off == offset,
            off + take <= usize::MAX,
            off + take <= contents@.len(),
            out@.len() == i,
            forall|j: int| 0 <= j < i ==> out@[j] == contents@[off + j],
        decreases take - i,
    {
        let b: u8 = contents[off + i];
        out.push(b);
        i = i + 1;
    }
    assert(out@ =~= read_view(contents@, offset as int, length as int));
    out
}

/// Writes `buffer[0 .. length)` into `contents` at `offset`, zero-filling
/// any gap between the old end and `offset` and extending the vector when
/// the window ends past the old end.
pub fn apply_write(contents: &mut Vec<u8>, buffer: &[u8], offset: u64, length: u64)
    requires
        length <= buffer@.len(),
        offset + length <= usize::MAX,
    ensures
        final(contents)@ == write_view(old(contents)@, buffer@.take(length as int), offset as int),
{
    let ghost v0 = contents@;
    let end: usize = (offset + length) as usize;
    // Zero-fill up to `offset` if the contents end before it.
    while contents.len() < end
        invariant
            contents@.len() <= vstd::math::max(v0.len() as int, end as int),
            v0.len() <= contents@.len(),
            forall|j: int| 0 <= j < v0.len() ==> contents@[j] == v0[j],
            forall|j: int| v0.len() <= j < contents@.len() ==> contents@[j] == 0u8,
        decreases end - contents.len(),
    {
        contents.push(0u8);
    }
    let mut i: usize = 0;
    while i < length as usize
        invariant
            i <= length,
            length <= buffer@.len(),
            offset + length <= contents@.len() <= vstd::math::max(v0.len() as int, end as int),
            end == offset + length,
            v0.len() <= contents@.len(),
            forall|j: int| 0 <= j < v0.len() && !(offset <= j < offset + length) ==> contents@[j]
                == v0[j],
            forall|j: int|
                v0.len() <= j < contents@.len() && !(offset <= j < offset + length)
                    ==> contents@[j] == 0u8,
            forall|j: int| offset <= j < offset + i ==> contents@[j] == buffer@[j - offset],
        decreases length - i,
    {
        let b: u8 = buffer[i];
        contents[(offset as usize) + i] = b;
        i = i + 1;
    }
    assert(contents@ =~= write_view(v0, buffer@.take(length as int), offset as int));
}

/// Copies the first `length` bytes of `buffer` into an owned vector.
pub fn slice_prefix(buffer: &[u8], length: u64) -> (r: Vec<u8>)
    requires
        length <= buffer@.len(),
    ensures
        r@ == buffer@.take(length as int),
{
    let n: usize = buffer.len();
    let take: usize = length as usize;
    assert(take == length);
    let mut out: Vec<u8> = Vec::new();
    let mut i: usize = 0;
    while i < take
        invariant
            take == length,
            i <= take <= buffer@.len(),
            out@.len() == i,
            forall|j: int| 0 <= j < i ==> out@[j] == buffer@[j],
        decreases take - i,
    {
        let b: u8 = buffer[i];
        out.push(b);
        i = i + 1;
    }
    assert(out@ =~= buffer@.take(length as int));
    out
}

} // verus!
