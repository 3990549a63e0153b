use io_backends::error::{Action, BackendError};
use io_backends::mmap::MmapObject;
use io_backends::object::{BackendObject, ObjectHandle};
use io_backends::posix::PosixObject;
use io_backends::store::{Backend, ObjectStore};

fn fresh_posix(bytes: &[u8]) -> PosixObject {
    PosixObject::new(bytes.to_vec(), 0).expect("posix object")
}

#[test]
fn insert_duplicate_key_fails() {
    let mut store: ObjectStore<PosixObject> = ObjectStore::new();
    assert!(store.insert(fresh_posix(b""), 3).is_ok());
    assert!(store.contains(3));
    let second = store.insert(fresh_posix(b""), 3);
    match second {
        Err(e) => assert_eq!(e.action, Action::Internal),
        Ok(_) => panic!("duplicate insert must fail"),
    }
    assert!(store.contains(3));
}

#[test]
fn remove_absent_key_fails() {
    let mut store: ObjectStore<PosixObject> = ObjectStore::new();
    match store.remove(9) {
        Err(e) => assert_eq!(e.action, Action::Internal),
        Ok(_) => panic!("removing an absent key must fail"),
    }
    assert!(store.insert(fresh_posix(b"abc"), 9).is_ok());
    let removed = store.remove(9).expect("remove succeeds after insert");
    let (_, size) = removed.status().expect("status");
    assert_eq!(size, 3);
    assert!(store.remove(9).is_err());
    assert!(!store.contains(9));
}

#[test]
fn insert_after_remove_succeeds_again() {
    let mut store: ObjectStore<PosixObject> = ObjectStore::new();
    assert!(store.insert(fresh_posix(b""), 1).is_ok());
    assert!(store.remove(1).is_ok());
    assert!(store.insert(fresh_posix(b""), 1).is_ok());
}

#[test]
fn operations_on_uncached_key_fail() {
    let mut store: ObjectStore<PosixObject> = ObjectStore::new();
    assert_eq!(store.read(5, 0, 4).unwrap_err().action, Action::Internal);
    assert_eq!(store.write(5, b"x", 0, 1).unwrap_err().action, Action::Internal);
    assert_eq!(store.status(5).unwrap_err().action, Action::Internal);
    assert_eq!(store.sync(5).unwrap_err().action, Action::Internal);
}

#[test]
fn backend_routes_by_handle() {
    let mut backend: Backend<MmapObject> = Backend::new(String::from("ns"));
    assert_eq!(backend.namespace, "ns");
    let obj = MmapObject::new(Vec::new(), 11).expect("mmap object");
    assert!(backend.object_store.insert(obj, 7).is_ok());
    let handle = ObjectHandle { raw_fd: 7, path: String::from("ns/a") };
    assert_eq!(backend.write(&handle, b"hello", 0, 5).expect("write"), 5);
    assert_eq!(backend.read(&handle, 0, 5).expect("read"), b"hello".to_vec());
    let (stamp, size) = backend.status(&handle).expect("status");
    assert_eq!(stamp, 11);
    assert_eq!(size, 5);
    backend.sync(&handle).expect("sync");
    let other = ObjectHandle { raw_fd: 8, path: String::from("ns/b") };
    assert_eq!(backend.read(&other, 0, 1).unwrap_err().action, Action::Internal);
}

#[test]
fn error_constructors_carry_action_and_message() {
    let e = BackendError::new("cannot open", Action::Open);
    assert_eq!(e.action, Action::Open);
    assert_eq!(e.msg, "cannot open");
    let e2 = BackendError::map(String::from("wrapped"), Action::Status);
    assert_eq!(e2.action, Action::Status);
    assert_eq!(e2.msg, "wrapped");
    let e3 = BackendError::new_internal("lock poisoned");
    assert_eq!(e3.action, Action::Internal);
    let e4 = e3.set_action(Action::Close);
    assert_eq!(e4.action, Action::Close);
    assert_eq!(e4.msg, "lock poisoned");
}

#[test]
fn backend_namespace_check() {
    let backend: Backend<PosixObject> = Backend::new(String::from("data/ns"));
    assert!(backend.check_namespace(&String::from("data/ns")));
    assert!(!backend.check_namespace(&String::from("other")));
    assert!(!backend.contains(1));
}
