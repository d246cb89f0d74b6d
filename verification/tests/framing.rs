use viewwitness::framing::{frame_line, LineError};

#[test]
fn a_line_loses_its_terminator() {
    assert_eq!(frame_line(b"{\"a\":1}\n".to_vec(), 16), Ok(b"{\"a\":1}".to_vec()));
    assert_eq!(frame_line(b"ping\r\n".to_vec(), 16), Ok(b"ping".to_vec()));
    assert_eq!(frame_line(b"\n".to_vec(), 16), Ok(Vec::new()));
    assert_eq!(frame_line(b"\r\n".to_vec(), 16), Ok(Vec::new()));
}

#[test]
fn the_limit_counts_the_terminator() {
    assert_eq!(frame_line(b"abc\n".to_vec(), 4), Ok(b"abc".to_vec()));
    assert_eq!(frame_line(b"abcd\n".to_vec(), 4), Err(LineError::TooLong));
    assert_eq!(frame_line(b"abcde".to_vec(), 4), Err(LineError::TooLong));
}

#[test]
fn closed_and_unterminated_streams_are_refused() {
    assert_eq!(frame_line(Vec::new(), 4), Err(LineError::Closed));
    assert_eq!(frame_line(b"ab".to_vec(), 4), Err(LineError::Unterminated));
}
