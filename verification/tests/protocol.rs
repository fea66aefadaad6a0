use termproxy::buffer::ByteBuffer;
use termproxy::protocol::{process_queue, remove_number, Frame, NumberFailure};

fn buffer_with(data: &[u8]) -> ByteBuffer {
    let mut buf = ByteBuffer::new();
    buf.extend_from_slice(data);
    buf
}

#[test]
fn number_before_separator_is_read() {
    let mut buf = buffer_with(b"12:rest");
    assert_eq!(remove_number(&mut buf), Ok(12));
    assert_eq!(buf.as_slice(), b"rest");
}

#[test]
fn number_with_plus_sign_is_read() {
    let mut buf = buffer_with(b"+7:x");
    assert_eq!(remove_number(&mut buf), Ok(7));
    assert_eq!(buf.as_slice(), b"x");
}

#[test]
fn invalid_number_is_dropped_with_separator() {
    let mut buf = buffer_with(b"1a:x");
    assert_eq!(remove_number(&mut buf), Err(NumberFailure::NotANumber));
    assert_eq!(buf.as_slice(), b"x");
}

#[test]
fn empty_and_sign_only_numbers_are_refused() {
    let mut buf = buffer_with(b":+:-1:");
    assert_eq!(remove_number(&mut buf), Err(NumberFailure::NotANumber));
    assert_eq!(remove_number(&mut buf), Err(NumberFailure::NotANumber));
    assert_eq!(remove_number(&mut buf), Err(NumberFailure::NotANumber));
    assert!(buf.is_empty());
}

#[test]
fn number_too_large_for_usize_is_refused() {
    let mut buf = buffer_with(b"999999999999999999999999:z");
    assert_eq!(remove_number(&mut buf), Err(NumberFailure::NotANumber));
    assert_eq!(buf.as_slice(), b"z");
}

#[test]
fn long_number_with_leading_zeros_is_read() {
    let mut buf = buffer_with(b"000000000000000000000000042:");
    assert_eq!(remove_number(&mut buf), Ok(42));
    assert!(buf.is_empty());
}

#[test]
fn without_separator_blocks_of_twenty_are_dropped() {
    let mut buf = buffer_with(&[b'1'; 25]);
    assert_eq!(remove_number(&mut buf), Err(NumberFailure::NoSeparator));
    assert_eq!(buf.len(), 5);

    let mut buf = buffer_with(&[b'1'; 40]);
    assert_eq!(remove_number(&mut buf), Err(NumberFailure::NoSeparator));
    assert_eq!(buf.len(), 20);

    let mut buf = buffer_with(&[b'1'; 41]);
    assert_eq!(remove_number(&mut buf), Err(NumberFailure::NoSeparator));
    assert_eq!(buf.len(), 1);

    let mut buf = buffer_with(&[b'1'; 20]);
    assert_eq!(remove_number(&mut buf), Err(NumberFailure::NoSeparator));
    assert_eq!(buf.len(), 20);
}

#[test]
fn number_that_is_not_text_is_refused_as_such() {
    let mut buf = buffer_with(&[b'1', 0xff, b':', b'k']);
    assert_eq!(remove_number(&mut buf), Err(NumberFailure::NotText));
    assert_eq!(buf.as_slice(), b"k");

    let mut empty = ByteBuffer::new();
    assert_eq!(remove_number(&mut empty), Err(NumberFailure::NoSeparator));
    assert!(empty.is_empty());
}

#[test]
fn data_message_yields_length_and_leaves_payload() {
    let mut buf = buffer_with(b"0:5:hello");
    assert_eq!(process_queue(&mut buf), Some(Frame::Data(5)));
    assert_eq!(buf.as_slice(), b"hello");
}

#[test]
fn resize_message_yields_size() {
    let mut buf = buffer_with(b"1:80:24:0:1:x");
    assert_eq!(process_queue(&mut buf), Some(Frame::Resize { cols: 80, rows: 24 }));
    assert_eq!(buf.as_slice(), b"0:1:x");
    assert_eq!(process_queue(&mut buf), Some(Frame::Data(1)));
    assert_eq!(buf.as_slice(), b"x");
}

#[test]
fn resize_values_are_cut_to_sixteen_bits() {
    let mut buf = buffer_with(b"1:70000:65536:");
    assert_eq!(process_queue(&mut buf), Some(Frame::Resize { cols: 4464, rows: 0 }));
    assert!(buf.is_empty());
}

#[test]
fn ping_and_unknown_bytes_are_skipped() {
    let mut buf = buffer_with(b"2x0:3:abc");
    assert_eq!(process_queue(&mut buf), Some(Frame::Data(3)));
    assert_eq!(buf.as_slice(), b"abc");
}

#[test]
fn byte_below_digit_zero_is_skipped() {
    let mut buf = buffer_with(b" 0:2:ok");
    assert_eq!(process_queue(&mut buf), Some(Frame::Data(2)));
    assert_eq!(buf.as_slice(), b"ok");
}

#[test]
fn short_queue_yields_nothing() {
    let mut buf = buffer_with(b"0");
    assert_eq!(process_queue(&mut buf), None);
    assert_eq!(buf.as_slice(), b"0");

    let mut empty = ByteBuffer::new();
    assert_eq!(process_queue(&mut empty), None);
}

#[test]
fn incomplete_message_is_consumed_by_the_reader() {
    let mut buf = buffer_with(b"0:12");
    assert_eq!(process_queue(&mut buf), None);
    assert!(buf.is_empty());
}

#[test]
fn resize_with_bad_rows_is_dropped() {
    let mut buf = buffer_with(b"1:80:x:0:1:y");
    assert_eq!(process_queue(&mut buf), Some(Frame::Data(1)));
    assert_eq!(buf.as_slice(), b"y");
}

#[test]
fn no_frame_leaves_fewer_than_two_bytes() {
    for data in [&b""[..], b"1", b"22", b"2x2", b"9:", b"0:12", b"1:80:24"] {
        let mut buf = buffer_with(data);
        assert_eq!(process_queue(&mut buf), None);
        assert!(buf.len() < 2, "left {:?} of {:?}", buf.as_slice(), data);
    }
}

#[test]
fn resize_messages_read_one_call_after_another() {
    let mut buf = buffer_with(b"1:80:24:1:100:30:xy");
    assert_eq!(process_queue(&mut buf), Some(Frame::Resize { cols: 80, rows: 24 }));
    assert_eq!(process_queue(&mut buf), Some(Frame::Resize { cols: 100, rows: 30 }));
    assert_eq!(buf.as_slice(), b"xy");
}
