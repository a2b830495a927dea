use termproxy::buffer::ByteQueue;

#[test]
fn new_queue_is_empty() {
    let q = ByteQueue::new(16);
    assert!(q.is_empty());
    assert!(!q.is_full());
    assert_eq!(q.len(), 0);
    assert_eq!(q.free_size(), 16);
}

#[test]
fn append_and_read_back() {
    let mut q = ByteQueue::new(16);
    q.append_slice(b"hello");
    assert_eq!(q.len(), 5);
    assert_eq!(q.contents(), b"hello");
    assert_eq!(q.byte_at(0), b'h');
    assert_eq!(q.byte_at(4), b'o');
}

#[test]
fn fills_to_capacity_exactly() {
    let mut q = ByteQueue::new(4);
    q.append_slice(b"abcd");
    assert!(q.is_full());
    assert_eq!(q.free_size(), 0);
    q.consume(1);
    assert!(!q.is_full());
    assert_eq!(q.free_size(), 1);
    assert_eq!(q.contents(), b"bcd");
}

#[test]
fn consume_drops_front() {
    let mut q = ByteQueue::new(16);
    q.append_slice(b"abcdef");
    q.consume(2);
    assert_eq!(q.contents(), b"cdef");
    q.consume(4);
    assert!(q.is_empty());
}

#[test]
fn remove_data_then_consume_tokenizes() {
    // extracting "abc" and dropping the delimiter leaves "rest"
    let mut q = ByteQueue::new(32);
    q.append_slice(b"abc:rest");
    let pos = q.find_byte(b':', 0).unwrap();
    assert_eq!(pos, 3);
    let data = q.remove_data(pos);
    q.consume(1);
    assert_eq!(&data[..], b"abc");
    assert_eq!(q.contents(), b"rest");
}

#[test]
fn find_byte_first_occurrence_only() {
    let mut q = ByteQueue::new(32);
    q.append_slice(b"a:b:c");
    assert_eq!(q.find_byte(b':', 0), Some(1));
    assert_eq!(q.find_byte(b':', 2), Some(3));
    assert_eq!(q.find_byte(b':', 4), None);
    assert_eq!(q.find_byte(b'x', 0), None);
}
