use io_backends::iter::{has_prefix, matches_name, BackendIterator};

fn names() -> Vec<Vec<u8>> {
    vec![b"prefix_a.txt".to_vec(), b"prefix_b.txt".to_vec(), b"c.txt".to_vec()]
}

#[test]
fn prefix_matching_on_bytes() {
    assert!(has_prefix(&b"prefix_a.txt".to_vec(), &b"prefix".to_vec()));
    assert!(has_prefix(&b"abc".to_vec(), &b"".to_vec()));
    assert!(has_prefix(&b"abc".to_vec(), &b"abc".to_vec()));
    assert!(!has_prefix(&b"abc".to_vec(), &b"abcd".to_vec()));
    assert!(!has_prefix(&b"c.txt".to_vec(), &b"prefix".to_vec()));
    assert!(matches_name(&b"anything".to_vec(), &None));
    assert!(!matches_name(&b"zz".to_vec(), &Some(b"a".to_vec())));
}

#[test]
fn iterator_without_prefix_yields_every_name() {
    let mut it = BackendIterator::new(names(), None);
    assert_eq!(it.next_name(), Some(b"prefix_a.txt".to_vec()));
    assert_eq!(it.next_name(), Some(b"prefix_b.txt".to_vec()));
    assert_eq!(it.next_name(), Some(b"c.txt".to_vec()));
    assert_eq!(it.next_name(), None);
    assert_eq!(it.next_name(), None);
}

#[test]
fn iterator_with_prefix_filters() {
    let mut it = BackendIterator::new(names(), Some(b"prefix".to_vec()));
    assert_eq!(it.next_name(), Some(b"prefix_a.txt".to_vec()));
    assert_eq!(it.next_name(), Some(b"prefix_b.txt".to_vec()));
    assert_eq!(it.next_name(), None);
}

#[test]
fn iterator_with_unmatched_prefix_is_empty() {
    let mut it = BackendIterator::new(names(), Some(b"zzz".to_vec()));
    assert_eq!(it.next_name(), None);
}
