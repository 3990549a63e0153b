use io_backends::error::Action;
use io_backends::model::max_extent;
use io_backends::object::BackendObject;
use io_backends::uring::{
    find_completion, Cqe, OpKind, Sqe, Uring, UringObject, EXTENT_ERROR_CODE, QUEUE_DEPTH,
};

fn cqe(user_data: u64, result: i64) -> Cqe {
    Cqe { user_data, result, buffer: Vec::new() }
}

fn read_sqe(user_data: u64) -> Sqe {
    Sqe { kind: OpKind::Read, offset: 0, length: 1, data: Vec::new(), user_data, hard_link: true }
}

#[test]
fn correlation_ids_increase_monotonically() {
    let mut ring = Uring::new();
    assert_eq!(ring.next_id(), 1);
    assert_eq!(ring.next_id(), 2);
    assert_eq!(ring.next_id(), 3);
}

#[test]
fn scan_returns_the_completion_with_the_submitted_id() {
    let mut entries = vec![cqe(1, 10), cqe(2, 20), cqe(3, 30)];
    let found = find_completion(&mut entries, 2, Action::Read).expect("present");
    assert_eq!(found.user_data, 2);
    assert_eq!(found.result, 20);
    assert_eq!(entries.len(), 2);
}

#[test]
fn scan_without_matching_completion_fails() {
    let mut entries = vec![cqe(1, 10), cqe(3, 30)];
    let err = find_completion(&mut entries, 2, Action::Write).unwrap_err();
    assert_eq!(err.action, Action::Write);
    assert_eq!(entries.len(), 2);

    let mut empty: Vec<Cqe> = Vec::new();
    assert_eq!(find_completion(&mut empty, 1, Action::Read).unwrap_err().action, Action::Read);
}

#[test]
fn scan_takes_the_first_of_duplicate_tags() {
    let mut entries = vec![cqe(9, 1), cqe(7, 2), cqe(7, 3)];
    let found = find_completion(&mut entries, 7, Action::Read).expect("present");
    assert_eq!(found.result, 2);
}

#[test]
fn submission_queue_is_bounded() {
    let mut ring = Uring::new();
    for i in 0..QUEUE_DEPTH {
        assert!(ring.push(read_sqe(i as u64), Action::Read).is_ok());
    }
    let err = ring.push(read_sqe(99), Action::Write).unwrap_err();
    assert_eq!(err.action, Action::Write);
}

#[test]
fn ring_engine_write_then_read() {
    let mut obj = UringObject::new(Vec::new(), 0).expect("ring object");
    assert_eq!(obj.write(b"ring", 2, 4).expect("write"), 4);
    assert_eq!(obj.read(0, 6).expect("read"), vec![0, 0, b'r', b'i', b'n', b'g']);
    obj.sync().expect("sync");
    assert_eq!(obj.status().expect("status").1, 6);
}

#[test]
fn write_past_the_extent_limit_fails() {
    let mut obj = UringObject::new(Vec::new(), 0).expect("ring object");
    let err = obj.write(b"x", max_extent(), 1).unwrap_err();
    assert_eq!(err.action, Action::Write);
    assert_eq!(obj.status().expect("status").1, 0);
    assert!(EXTENT_ERROR_CODE < 0);
}
