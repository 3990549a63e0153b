//! The byte-level model every engine's contract is stated against.
//!
//! An open object is a finite sequence of bytes, its logical contents.
//! `read_view` says what a clamped positioned read returns; `write_view`
//! says what the contents become after a positioned write that extends the
//! object (zero-filling any gap) when the write ends past the old end.

use vstd::prelude::*;

verus! {

/// The largest admissible end of a write window: the object must stay
/// addressable in memory and its byte counts representable in the signed
/// word that completions report.
pub open spec fn spec_max_extent() -> int {
    vstd::math::min(usize::MAX as int, i64::MAX as int)
}

/// The largest admissible end of a write window, for callers outside the
/// proof.
pub fn max_extent() -> (m: u64)
    ensures
        m == spec_max_extent(),
{
    let um: u64 = usize::MAX as u64;
    let im: u64 = i64::MAX as u64;
    if um < im {
        um
    } else {
        im
    }
}

/// The bytes a read of `length` bytes at `offset` returns: the requested
/// window clamped to the end of the contents, empty when `offset` is at or
/// past the end.
pub open spec fn read_view(v: Seq<u8>, offset: int, length: int) -> Seq<u8>
    recommends
        0 <= offset,
        0 <= length,
{
    if offset >= v.len() {
        Seq::empty()
    } else if offset + length >= v.len() {
        v.subrange(offset, v.len() as int)
    } else {
        v.subrange(offset, offset + length)
    }
}

/// The contents after writing `buf` at `offset`: bytes of the window are
/// replaced, bytes outside it are kept, and a gap between the old end and
/// `offset` is zero-filled. The new length is the larger of the old length
/// and the end of the written window.
pub open spec fn write_view(v: Seq<u8>, buf: Seq<u8>, offset: int) -> Seq<u8>
    recommends
        0 <= offset,
{
    Seq::new(
        vstd::math::max(v.len() as int, offset + buf.len()) as nat,
        |i: int|
            if offset <= i && i < offset + buf.len() {
                buf[i - offset]
            } else if i < v.len() {
                v[i]
            } else {
                0u8
            },
    )
}

/// A write never shrinks the contents: afterwards the length is exactly the
/// larger of the previous length and `offset + buf.len()`.
pub proof fn lemma_write_view_len(v: Seq<u8>, buf: Seq<u8>, offset: int)
    requires
        0 <= offset,
    ensures
        write_view(v, buf, offset).len() == vstd::math::max(v.len() as int, offset + buf.len()),
{
}

/// Growth correctness: after a write of `buf` at `offset`, a read of
/// `buf.len()` bytes at `offset` returns exactly the bytes written.
pub proof fn lemma_write_then_read(v: Seq<u8>, buf: Seq<u8>, offset: int)
    requires
        0 <= offset,
    ensures
        read_view(write_view(v, buf, offset), offset, buf.len() as int) == buf,
{
    let w = write_view(v, buf, offset);
    assert(w.len() >= offset + buf.len());
    if buf.len() == 0 {
        assert(read_view(w, offset, 0) =~= buf);
    } else {
        assert(offset < w.len());
        assert(read_view(w, offset, buf.len() as int) =~= buf);
    }
}

/// Read clamping: a read at or past the end returns no bytes; a read whose
/// window starts inside the contents but runs past the end returns exactly
/// the bytes up to the end; a window that fits returns `length` bytes.
pub proof fn lemma_read_clamp(v: Seq<u8>, offset: int, length: int)
    requires
        0 <= offset,
        0 <= length,
    ensures
        offset >= v.len() ==> read_view(v, offset, length) == Seq::<u8>::empty(),
        offset < v.len() && v.len() < offset + length ==> read_view(v, offset, length).len()
            == v.len() - offset,
        offset + length <= v.len() ==> read_view(v, offset, length).len() == length,
{
}

} // verus!
