//! Pluggable storage engines for an object-storage server.
//!
//! Three engines (positioned I/O, memory-mapped I/O with growth, ring-based
//! I/O with completion correlation) implement one capability interface, and
//! an object cache owns every open engine instance, keyed by an integer
//! handle. The engines here are verified models of the byte-level behaviour;
//! the binding that attaches them to file descriptors, memory maps and
//! submission rings lives outside the verified library.

pub mod driver;
pub mod error;
pub mod iter;
pub mod mmap;
pub mod model;
pub mod object;
pub mod posix;
pub mod region;
pub mod store;
pub mod uring;
