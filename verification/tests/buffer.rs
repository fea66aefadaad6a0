use termproxy::buffer::{ByteBuffer, DEFAULT_CAPACITY};

#[test]
fn new_buffer_is_empty_with_default_capacity() {
    let buf = ByteBuffer::new();
    assert!(buf.is_empty());
    assert_eq!(buf.capacity(), DEFAULT_CAPACITY);
    assert_eq!(buf.capacity(), 4096);
    assert_eq!(buf.free_size(), 4096);
}

#[test]
fn bytes_leave_in_the_order_they_came() {
    let mut buf = ByteBuffer::with_capacity(8);
    buf.extend_from_slice(b"abc");
    buf.extend_from_slice(b"de");
    assert_eq!(buf.remove_data(2), b"ab".to_vec());
    assert_eq!(buf.as_slice(), b"cde");
    assert_eq!(buf.consume(10), 3);
    assert!(buf.is_empty());
}

#[test]
fn full_buffer_reports_full() {
    let mut buf = ByteBuffer::with_capacity(3);
    buf.extend_from_slice(b"xyz");
    assert!(buf.is_full());
    assert_eq!(buf.free_size(), 0);
}

#[test]
fn position_finds_first_occurrence() {
    let mut buf = ByteBuffer::new();
    buf.extend_from_slice(b"a:b:c");
    assert_eq!(buf.position(b':'), Some(1));
    assert_eq!(buf.position(b'z'), None);
    assert!(buf.contains(b'c'));
    assert_eq!(buf.get(4), b'c');
    assert_eq!(buf.copy_front(3), b"a:b".to_vec());
    assert_eq!(buf.copy_front(100), b"a:b:c".to_vec());
}

#[test]
fn remove_more_than_held_returns_all() {
    let mut buf = ByteBuffer::new();
    buf.extend_from_slice(b"xy");
    assert_eq!(buf.remove_data(5), b"xy".to_vec());
    assert!(buf.is_empty());
}
