//! The positioned-I/O engine.
//!
//! A stateless wrapper around the open object: reads and writes go straight
//! to the position given, with no auxiliary state beyond the contents and
//! the modification stamp. There is no growth bookkeeping of its own — a
//! write past the end simply extends the contents, as positioned writes on
//! a file do.

use vstd::prelude::*;

use crate::error::{Action, BackendError};
use crate::model::{max_extent, read_view, write_view};
use crate::object::BackendObject;
use crate::region::{apply_write, copy_window};

verus! {

/// The positioned-I/O engine: nothing beyond the object's bytes and stamp.
pub struct PosixObject {
    pub data: Vec<u8>,
    pub stamp: i64,
}

impl BackendObject for PosixObject {
    open spec fn contents(&self) -> Seq<u8> {
        self.data@
    }

    open spec fn modified(&self) -> i64 {
        self.stamp
    }

    open spec fn wf(&self) -> bool {
        true
    }

    fn new(initial: Vec<u8>, modified: i64) -> (r: Result<Self, BackendError>) {
        if initial.len() as u64 > max_extent() {
            return Err(BackendError::new("object is larger than the addressable range", Action::Init));
        }
        Ok(PosixObject { data: initial, stamp: modified })
    }

    fn read(&mut self, offset: u64, length: u64) -> (r: Result<Vec<u8>, BackendError>) {
        Ok(copy_window(&self.data, offset, length))
    }

    fn write(&mut self, buffer: &[u8], offset: u64, length: u64) -> (r: Result<
        u64,
        BackendError,
    >) {
        if length > buffer.len() as u64 {
            return Ok(0);
        }
        let limit: u64 = max_extent();
        if offset > limit || length > limit - offset {
            return Err(BackendError::new("write end exceeds the addressable range", Action::Write));
        }
        apply_write(&mut self.data, buffer, offset, length);
        Ok(length)
    }

    fn sync(&mut self) -> (r: Result<(), BackendError>) {
        // Nothing is buffered beyond the contents themselves.
        Ok(())
    }

    fn status(&self) -> (r: Result<(i64, u64), BackendError>) {
        Ok((self.stamp, self.data.len() as u64))
    }
}

} // verus!
