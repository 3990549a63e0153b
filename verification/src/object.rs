//! The storage-object capability: the interface every engine implements.
//!
//! An engine wraps the contents of a freshly opened object and offers
//! positioned reads and writes, a durability flush, and a status report.
//! Every operation's outcome is fixed by the object's logical contents
//! alone, so any two engines driven through this interface from equal
//! contents answer alike.

use vstd::prelude::*;

use crate::error::BackendError;
use crate::model::{read_view, spec_max_extent, write_view};

verus! {

/// The handle under which a live object is keyed in the cache, together
/// with the path the object was created or opened at.
pub struct ObjectHandle {
    pub raw_fd: i32,
    pub path: String,
}

/// The capability every storage engine satisfies.
///
/// `contents()` is the object's logical bytes and `modified()` its
/// modification stamp (seconds since the epoch, taken from the metadata of
/// the underlying file when the object was opened). `wf()` is the engine's
/// internal well-formedness, established by `new` and preserved by every
/// operation.
///
/// A write whose declared `length` exceeds the bytes available in the
/// request's buffer is a malformed request: it writes nothing and reports
/// zero bytes. A well-formed write extends the contents to `offset +
/// length` when that lies past the old end, zero-filling any gap, and
/// fails only when the resulting object could not be addressed in memory.
pub trait BackendObject: Sized {
    spec fn contents(&self) -> Seq<u8>;

    spec fn modified(&self) -> i64;

    spec fn wf(&self) -> bool;

    /// Wraps an object's initial bytes and modification stamp. Engines that
    /// need auxiliary state establish it here; an object already larger
    /// than the addressable extent cannot be set up.
    fn new(initial: Vec<u8>, modified: i64) -> (r: Result<Self, BackendError>)
        ensures
            initial@.len() <= spec_max_extent() ==> (r matches Ok(o) && o.wf() && o.contents()
                == initial@ && o.modified() == modified),
            initial@.len() > spec_max_extent() ==> (r matches Err(e) && e.action
                == crate::error::Action::Init),
    ;

    /// Reads up to `length` bytes at `offset`, clamped to the end of the
    /// contents; at or past the end it returns no bytes, never an error.
    fn read(&mut self, offset: u64, length: u64) -> (r: Result<Vec<u8>, BackendError>)
        requires
            old(self).wf(),
        ensures
            final(self).wf(),
            final(self).contents() == old(self).contents(),
            final(self).modified() == old(self).modified(),
            r is Ok,
            r matches Ok(bytes) ==> bytes@ == read_view(
                old(self).contents(),
                offset as int,
                length as int,
            ),
    ;

    /// Writes `buffer[0 .. length)` at `offset`, growing the object as the
    /// model prescribes, and returns the number of bytes written.
    fn write(&mut self, buffer: &[u8], offset: u64, length: u64) -> (r: Result<
        u64,
        BackendError,
    >)
        requires
            old(self).wf(),
        ensures
            final(self).wf(),
            final(self).modified() == old(self).modified(),
            length > buffer@.len() ==> (r matches Ok(n) && n == 0 && final(self).contents()
                == old(self).contents()),
            length <= buffer@.len() && offset + length <= spec_max_extent() ==> (r matches Ok(n) && n
                == length && final(self).contents() == write_view(
                old(self).contents(),
                buffer@.take(length as int),
                offset as int,
            )),
            length <= buffer@.len() && offset + length > spec_max_extent() ==> (r matches Err(e)
                && e.action == crate::error::Action::Write && final(self).contents() == old(
                self,
            ).contents()),
    ;

    /// Flushes buffered state to the backing store; the logical contents
    /// are unchanged.
    fn sync(&mut self) -> (r: Result<(), BackendError>)
        requires
            old(self).wf(),
        ensures
            final(self).wf(),
            final(self).contents() == old(self).contents(),
            final(self).modified() == old(self).modified(),
            r is Ok,
    ;

    /// Reports the modification stamp and the logical size in bytes.
    fn status(&self) -> (r: Result<(i64, u64), BackendError>)
        requires
            self.wf(),
        ensures
            r is Ok,
            r matches Ok(st) ==> st.0 == self.modified() && st.1 == self.contents().len(),
    ;
}

} // verus!
