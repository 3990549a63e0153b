use io_backends::driver::{run_workload, OpReply, StorageOp};
use io_backends::error::Action;
use io_backends::model::max_extent;
use io_backends::mmap::{MmapObject, DEFAULT_MAP_SIZE};
use io_backends::object::BackendObject;
use io_backends::posix::PosixObject;
use io_backends::store::ObjectStore;
use io_backends::uring::UringObject;

/// Drives one engine through the end-to-end scenario: create, write
/// thirteen bytes, check the size, read two windows, close, and check the
/// key is gone from the cache.
fn workflow_on<T: BackendObject>() {
    let mut store: ObjectStore<T> = ObjectStore::new();
    let obj = T::new(Vec::new(), 100).expect("create");
    assert!(store.insert(obj, 42).is_ok());

    let payload = b"Hello, world!";
    assert_eq!(store.write(42, payload, 0, 13).expect("write"), 13);

    let (stamp, size) = store.status(42).expect("status");
    assert_eq!(stamp, 100);
    assert_eq!(size, 13);

    assert_eq!(store.read(42, 7, 6).expect("read"), b"world!".to_vec());
    assert_eq!(store.read(42, 5, 5).expect("read"), b", wor".to_vec());

    store.sync(42).expect("sync");
    assert!(store.remove(42).is_ok());
    assert!(!store.contains(42));
}

#[test]
fn test_workflow() {
    workflow_on::<PosixObject>();
    workflow_on::<MmapObject>();
    workflow_on::<UringObject>();
}

#[test]
fn test_mmap_workflow() {
    workflow_on::<MmapObject>();
}

#[test]
fn lib_test_mmap_workflow() {
    workflow_on::<UringObject>();
}

/// The reads of each engine clamp to the logical size and never fail.
fn clamp_on<T: BackendObject>() {
    let mut obj = T::new(b"01234".to_vec(), 0).expect("create");
    assert_eq!(obj.read(5, 3).expect("read at end"), Vec::<u8>::new());
    assert_eq!(obj.read(9, 1).expect("read past end"), Vec::<u8>::new());
    assert_eq!(obj.read(3, 5).expect("read straddling end"), b"34".to_vec());
    assert_eq!(obj.read(0, 20).expect("overflowing length"), b"01234".to_vec());
}

/// The four read windows every engine must answer on "Hello, world!":
/// the beginning, the middle, the end, and a length running past the end.
fn hello_reads_on<T: BackendObject>() {
    let mut obj = T::new(b"Hello, world!".to_vec(), 0).expect("create");
    assert_eq!(obj.read(0, 5).expect("read_beginning"), b"Hello".to_vec());
    assert_eq!(obj.read(3, 5).expect("read_middle"), b"lo, w".to_vec());
    assert_eq!(obj.read(7, 6).expect("read_end"), b"world!".to_vec());
    assert_eq!(obj.read(0, 20).expect("overflowing_length"), b"Hello, world!".to_vec());
}

#[test]
fn test_read() {
    hello_reads_on::<PosixObject>();
    hello_reads_on::<MmapObject>();
    hello_reads_on::<UringObject>();
}

#[test]
fn read_clamps_to_logical_size() {
    clamp_on::<PosixObject>();
    clamp_on::<MmapObject>();
    clamp_on::<UringObject>();
}

/// A write past the end grows the object, zero-filling the gap, and the
/// reported size is the maximum of the old size and the write's end.
fn growth_on<T: BackendObject>() {
    let mut obj = T::new(Vec::new(), 0).expect("create");
    assert_eq!(obj.write(b"ab", 4, 2).expect("gap write"), 2);
    assert_eq!(obj.status().expect("status").1, 6);
    assert_eq!(obj.read(0, 6).expect("read"), vec![0, 0, 0, 0, b'a', b'b']);

    assert_eq!(obj.write(b"XY", 1, 2).expect("inner write"), 2);
    assert_eq!(obj.status().expect("status").1, 6);
    assert_eq!(obj.read(0, 6).expect("read"), vec![0, b'X', b'Y', 0, b'a', b'b']);

    assert_eq!(obj.write(b"zz", 5, 2).expect("extending write"), 2);
    assert_eq!(obj.status().expect("status").1, 7);
    assert_eq!(obj.read(5, 2).expect("read back"), b"zz".to_vec());
}

#[test]
fn writes_grow_and_read_back() {
    growth_on::<PosixObject>();
    growth_on::<MmapObject>();
    growth_on::<UringObject>();
}

/// A malformed write, whose declared length exceeds the buffer, writes
/// nothing and reports zero bytes.
fn malformed_on<T: BackendObject>() {
    let mut obj = T::new(b"keep".to_vec(), 0).expect("create");
    assert_eq!(obj.write(b"x", 0, 9).expect("malformed write"), 0);
    assert_eq!(obj.status().expect("status").1, 4);
    assert_eq!(obj.read(0, 4).expect("read"), b"keep".to_vec());
}

#[test]
fn malformed_write_is_a_no_op() {
    malformed_on::<PosixObject>();
    malformed_on::<MmapObject>();
    malformed_on::<UringObject>();
}

/// A write whose end lies past the largest addressable extent fails with a
/// write error on every engine and changes nothing.
fn extent_failure_on<T: BackendObject>() {
    let mut obj = T::new(b"keep".to_vec(), 0).expect("create");
    let err = obj.write(b"x", max_extent(), 1).unwrap_err();
    assert_eq!(err.action, Action::Write);
    assert_eq!(obj.status().expect("status").1, 4);
    assert_eq!(obj.read(0, 4).expect("read"), b"keep".to_vec());
}

#[test]
fn write_past_extent_fails_everywhere() {
    extent_failure_on::<PosixObject>();
    extent_failure_on::<MmapObject>();
    extent_failure_on::<UringObject>();
}

fn sample_workload() -> Vec<StorageOp> {
    vec![
        StorageOp::Status,
        StorageOp::Write { buffer: b"Hello, world!".to_vec(), offset: 0, length: 13 },
        StorageOp::Status,
        StorageOp::Read { offset: 7, length: 6 },
        StorageOp::Write { buffer: b"##".to_vec(), offset: 20, length: 2 },
        StorageOp::Read { offset: 0, length: 64 },
        StorageOp::Sync,
        StorageOp::Write { buffer: b"x".to_vec(), offset: 0, length: 5 },
        StorageOp::Status,
        StorageOp::Read { offset: 21, length: 10 },
    ]
}

/// The three engines, driven through the same capability interface with
/// the same workload, produce identical replies: byte-for-byte equal read
/// results and equal reported sizes.
#[test]
fn engines_answer_alike() {
    let mut posix = PosixObject::new(b"seed".to_vec(), 5).expect("posix");
    let mut mmap = MmapObject::new(b"seed".to_vec(), 5).expect("mmap");
    let mut ring = UringObject::new(b"seed".to_vec(), 5).expect("ring");

    let a = run_workload(&mut posix, &sample_workload());
    let b = run_workload(&mut mmap, &sample_workload());
    let c = run_workload(&mut ring, &sample_workload());

    assert_eq!(a, b);
    assert_eq!(b, c);
    assert_eq!(a[1], OpReply::Written(13));
    assert_eq!(a[2], OpReply::Stat(5, 13));
    assert_eq!(a[3], OpReply::Bytes(b"world!".to_vec()));
    assert_eq!(a[8], OpReply::Stat(5, 22));
    assert_eq!(a[9], OpReply::Bytes(b"#".to_vec()));
}

/// Opening a fresh object maps the default minimum capacity; a write that
/// straddles the capacity boundary grows the mapping before completing,
/// and the straddling bytes read back uncorrupted.
#[test]
fn growth_boundary() {
    let c = DEFAULT_MAP_SIZE;
    let mut obj = MmapObject::new(Vec::new(), 0).expect("mmap");
    assert_eq!(obj.mapped_len(), c);

    let straddle = (c - 1) as u64;
    assert_eq!(obj.write_at(&[0xAB, 0xCD], straddle, 2).expect("straddling write"), 2);
    assert_eq!(obj.mapped_len(), 2 * (c + 1));
    assert_eq!(obj.status().expect("status").1, (c + 1) as u64);
    assert_eq!(obj.read(straddle, 2).expect("read"), vec![0xAB, 0xCD]);

    // A write that fits inside the grown mapping leaves the capacity alone.
    assert_eq!(obj.write_at(b"q", 0, 1).expect("small write"), 1);
    assert_eq!(obj.mapped_len(), 2 * (c + 1));
}

#[test]
fn repeated_writes() {
    let mut obj = PosixObject::new(Vec::new(), 0).expect("posix");
    let payload = b"xyz1234567890";
    for _ in 0..100_000 {
        assert_eq!(obj.write(payload, 0, payload.len() as u64).expect("write"), 13);
    }
    assert_eq!(obj.status().expect("status").1, 13);
    assert_eq!(obj.read(0, 13).expect("read"), payload.to_vec());
}
