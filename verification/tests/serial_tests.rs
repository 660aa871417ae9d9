use wisun::serial::buffer::Buffer;
use wisun::serial::errors::Error as SerialError;
use wisun::serial::mock_serial::{new_mock, MockReadWrite};
use wisun::serial::port::{trim_line_end, ConnectionImpl};
use wisun::serial::traits::{Connection, ReadWrite};

fn chunks(parts: Vec<&[u8]>) -> Vec<Vec<u8>> {
    parts.into_iter().map(|p| p.to_vec()).collect()
}

#[test]
fn buffer_read_empty() {
    let mut b = Buffer::new(16);
    let mut m = new_mock(Vec::new());
    let result = b.fill_buf(&mut m).unwrap();
    assert_eq!(0, result);
    assert_eq!(0, b.pointer);
    assert_eq!(0, b.end);
}

#[test]
fn buffer_read_once() {
    let mut b = Buffer::new(8);
    let mut m = new_mock(chunks(vec![b"abcd", b"egfh"]));
    let result = b.fill_buf(&mut m).unwrap();
    assert_eq!(4, result);
    assert_eq!(0, b.pointer);
    assert_eq!(4, b.end);
    assert_eq!(b"abcd".to_vec(), b.data[0..4].to_vec());
}

#[test]
fn error_read_when_data_left() {
    let mut b = Buffer::new(8);
    let mut m = new_mock(chunks(vec![b"abcd", b"egfh"]));

    let result = b.fill_buf(&mut m).unwrap();
    assert_eq!(4, result);
    assert_eq!(0, b.pointer);
    assert_eq!(4, b.end);
    assert_eq!(b"abcd".to_vec(), b.data[0..4].to_vec());

    let result = b.fill_buf(&mut m);
    assert_eq!(true, result.is_err());
}

#[test]
fn buffer_none_when_empty() {
    let mut b = Buffer::new(8);
    assert_eq!(true, b.read_to_lf().is_none());
}

#[test]
fn none_without_lf() {
    let mut b = Buffer::new(8);
    let mut m = new_mock(chunks(vec![b"abcdegfh"]));
    b.fill_buf(&mut m).unwrap();

    assert_eq!(true, b.read_to_lf().is_none());
}

#[test]
fn read_once() {
    let mut b = Buffer::new(16);
    let mut m = new_mock(chunks(vec![b"abc\r\ndegf\r\nh\r\n"]));
    b.fill_buf(&mut m).unwrap();

    assert_eq!(b"abc\r\n".to_vec(), b.read_to_lf().unwrap());
}

#[test]
fn buffer_read_multiple() {
    let mut b = Buffer::new(16);
    let mut m = new_mock(chunks(vec![b"abc\r\ndefg\r\nijkl"]));
    b.fill_buf(&mut m).unwrap();
    assert_eq!(15, b.end);

    assert_eq!(b"abc\r\n".to_vec(), b.read_to_lf().unwrap());
    assert_eq!(5, b.pointer);

    assert_eq!(b"defg\r\n".to_vec(), b.read_to_lf().unwrap());
    assert_eq!(11, b.pointer);
}

#[test]
fn read_ends_with_lf() {
    let mut b = Buffer::new(16);
    let mut m = new_mock(chunks(vec![b"abc\r\ndefg\r\nij\r\n"]));
    b.fill_buf(&mut m).unwrap();

    assert_eq!(b"abc\r\n".to_vec(), b.read_to_lf().unwrap());
    assert_eq!(5, b.pointer);

    assert_eq!(b"defg\r\n".to_vec(), b.read_to_lf().unwrap());
    assert_eq!(11, b.pointer);
    assert_eq!(b"ij\r\n".to_vec(), b.read_to_lf().unwrap());
}

#[test]
fn buffer_none_after_read_all() {
    let mut b = Buffer::new(16);
    let mut m = new_mock(chunks(vec![b"abc\r\n"]));
    b.fill_buf(&mut m).unwrap();

    assert_eq!(b"abc\r\n".to_vec(), b.read_to_lf().unwrap());
    assert_eq!(5, b.pointer);

    assert_eq!(true, b.read_to_lf().is_none());
}

#[test]
fn consequtive_cr_lf() {
    let mut b = Buffer::new(16);
    let mut m = new_mock(chunks(vec![b"abc\r\n\r\n"]));
    b.fill_buf(&mut m).unwrap();

    assert_eq!(b"abc\r\n".to_vec(), b.read_to_lf().unwrap());
    assert_eq!(5, b.pointer);

    assert_eq!(b"\r\n".to_vec(), b.read_to_lf().unwrap());
    assert_eq!(7, b.pointer);

    assert_eq!(true, b.read_to_lf().is_none());
}

#[test]
fn fill_multiple() {
    let mut b = Buffer::new(16);
    let mut m = new_mock(chunks(vec![b"abc\r\ndef\r\n"]));
    b.fill_buf(&mut m).unwrap();

    assert_eq!(b"abc\r\n".to_vec(), b.read_to_lf().unwrap());
    assert_eq!(5, b.pointer);

    assert_eq!(b"def\r\n".to_vec(), b.read_to_lf().unwrap());
    assert_eq!(10, b.pointer);

    assert_eq!(true, b.read_to_lf().is_none());

    let mut m = new_mock(chunks(vec![b"123\r\n"]));
    b.fill_buf(&mut m).unwrap();
    assert_eq!(b"123\r\n".to_vec(), b.read_to_lf().unwrap());
    assert_eq!(5, b.pointer);

    assert_eq!(true, b.read_to_lf().is_none());
}

#[test]
fn none_when_empty() {
    let mut b = Buffer::new(8);
    assert_eq!(true, b.get_remain().is_none());
}

#[test]
fn none_after_read_all() {
    let mut b = Buffer::new(16);
    let mut m = new_mock(chunks(vec![b"abc\r\n"]));
    b.fill_buf(&mut m).unwrap();

    assert_eq!(b"abc\r\n".to_vec(), b.read_to_lf().unwrap());
    assert_eq!(5, b.pointer);

    assert_eq!(true, b.get_remain().is_none());
}

#[test]
fn rest_all() {
    let mut b = Buffer::new(16);
    let mut m = new_mock(chunks(vec![b"abc\r\n"]));
    b.fill_buf(&mut m).unwrap();

    assert_eq!(b"abc\r\n".to_vec(), b.get_remain().unwrap());
    assert_eq!(5, b.pointer);
}

#[test]
fn rest_all_after_read_to_lf() {
    let mut b = Buffer::new(16);
    let mut m = new_mock(chunks(vec![b"abc\r\ndef"]));
    b.fill_buf(&mut m).unwrap();

    assert_eq!(b"abc\r\n".to_vec(), b.read_to_lf().unwrap());
    assert_eq!(5, b.pointer);

    assert_eq!(b"def".to_vec(), b.get_remain().unwrap());
    assert_eq!(8, b.pointer);
}

#[test]
fn none_after_read_to_lf_all() {
    let mut b = Buffer::new(16);
    let mut m = new_mock(chunks(vec![b"abc\r\ndef\r\n"]));
    b.fill_buf(&mut m).unwrap();

    assert_eq!(b"abc\r\n".to_vec(), b.read_to_lf().unwrap());
    assert_eq!(5, b.pointer);

    assert_eq!(b"def\r\n".to_vec(), b.read_to_lf().unwrap());
    assert_eq!(10, b.pointer);

    assert_eq!(true, b.get_remain().is_none());
}

#[test]
fn mock_serial_read_empty() {
    let mut mock = new_mock(Vec::new());
    let chunk = mock.read().unwrap();
    assert_eq!(0, chunk.len());
    assert_eq!(Vec::<u8>::new(), chunk);
}

#[test]
fn mock_serial_read_once() {
    let mut mock = new_mock(chunks(vec![b"abc", b"123"]));
    let chunk = mock.read().unwrap();
    assert_eq!(3, chunk.len());
    assert_eq!(b"abc".to_vec(), chunk);
}

#[test]
fn read_all() {
    let mut mock = new_mock(chunks(vec![b"abc", b"123"]));
    let chunk = mock.read().unwrap();
    assert_eq!(3, chunk.len());
    assert_eq!(b"abc".to_vec(), chunk);

    let chunk = mock.read().unwrap();
    assert_eq!(3, chunk.len());
    assert_eq!(b"123".to_vec(), chunk);

    let chunk = mock.read().unwrap();
    assert_eq!(0, chunk.len());
}

#[test]
fn mock_serial_begin_empty() {
    let mock = new_mock(Vec::new());
    assert_eq!(0, mock.write_buf.len());
}

#[test]
fn write_nothing() {
    let mut mock = new_mock(Vec::new());
    assert_eq!(0, mock.write(b"").unwrap());
    assert_eq!(b"".to_vec(), mock.write_buf);
}

#[test]
fn mock_serial_write_once() {
    let mut mock = new_mock(Vec::new());
    assert_eq!(3, mock.write(b"abc").unwrap());
    assert_eq!(b"abc".to_vec(), mock.write_buf);
}

#[test]
fn write_multiple() {
    let mut mock = new_mock(Vec::new());

    assert_eq!(3, mock.write(b"abc").unwrap());
    assert_eq!(3, mock.write(b"123").unwrap());
    assert_eq!(4, mock.write(b"ABC\n").unwrap());

    assert_eq!(b"abc123ABC\n".to_vec(), mock.write_buf);
}

#[test]
fn always_ok() {
    let mut mock = new_mock(Vec::new());
    assert_eq!(true, mock.flush().is_ok())
}

fn new_conn(buf_size: usize, read_data: Vec<&[u8]>) -> ConnectionImpl<MockReadWrite> {
    ConnectionImpl::new(new_mock(chunks(read_data)), buf_size)
}

#[test]
fn port_read_once() {
    let mut conn = new_conn(16, vec![b"123\r\n456\r\n789\r\n"]);
    assert_eq!(String::from("123"), conn.read_line().unwrap());
}

#[test]
fn port_read_multiple() {
    let mut conn = new_conn(16, vec![b"123\r\n456\r\n789\r\n"]);
    assert_eq!(String::from("123"), conn.read_line().unwrap());
    assert_eq!(String::from("456"), conn.read_line().unwrap());
    assert_eq!(String::from("789"), conn.read_line().unwrap());
}

#[test]
fn read_again_when_multiple() {
    let mut conn = new_conn(16, vec![b"", b"", b"123\r\n456\r\n789\r\n"]);
    assert_eq!(String::from("123"), conn.read_line().unwrap());
    assert_eq!(String::from("456"), conn.read_line().unwrap());
    assert_eq!(String::from("789"), conn.read_line().unwrap());
}

#[test]
fn read_concat() {
    let mut conn = new_conn(16, vec![b"12", b"3\r\n456\r\n789\r\n"]);
    assert_eq!(String::from("123"), conn.read_line().unwrap());
    assert_eq!(String::from("456"), conn.read_line().unwrap());
    assert_eq!(String::from("789"), conn.read_line().unwrap());
}

#[test]
fn read_concat_multi() {
    let mut conn = new_conn(16, vec![b"1", b"2", b"3\r\n456\r\n"]);
    assert_eq!(String::from("123"), conn.read_line().unwrap());
    assert_eq!(String::from("456"), conn.read_line().unwrap());
}

#[test]
fn split_cr_lf() {
    let mut conn = new_conn(16, vec![b"12", b"3\r", b"\n456", b"\r\n"]);
    assert_eq!(String::from("123"), conn.read_line().unwrap());
    assert_eq!(String::from("456"), conn.read_line().unwrap());
}

#[test]
fn read_line_rejects_bad_utf8() {
    let mut conn = new_conn(16, vec![b"\xFF\xFE\r\n"]);
    assert!(conn.read_line().is_err());
}

#[test]
fn port_begin_empty() {
    let conn = new_conn(0, Vec::new());
    assert_eq!(0, conn.transport().write_buf.len());
}

#[test]
fn port_write_once() {
    let mut conn = new_conn(0, Vec::new());
    conn.write_line("abc").unwrap();
    assert_eq!(b"abc\r\n".to_vec(), conn.transport().write_buf);
}

#[test]
fn write_many() {
    let mut conn = new_conn(0, Vec::new());
    conn.write_line("abc").unwrap();
    conn.write_line("def").unwrap();
    conn.write_line("ghi").unwrap();
    assert_eq!(b"abc\r\ndef\r\nghi\r\n".to_vec(), conn.transport().write_buf);
}

#[test]
fn empty() {
    assert_eq!(b"", trim_line_end(b""));
}

#[test]
fn cr_lf_only() {
    assert_eq!(b"", trim_line_end(b"\r\n"));
}

#[test]
fn multi_cr_lf_only() {
    assert_eq!(b"", trim_line_end(b"\r\n\r\n"));
}

#[test]
fn text_ends_with_lf() {
    assert_eq!(b"foobar", trim_line_end(b"foobar\n"));
}

#[test]
fn text_ends_with_cr_lf() {
    assert_eq!(b"foobar", trim_line_end(b"foobar\r\n"));
}

#[test]
fn inner_lf() {
    assert_eq!(b"foo\nbar", trim_line_end(b"foo\nbar"));
}

#[test]
fn inner_and_end_lf() {
    assert_eq!(b"foo\r\nbar", trim_line_end(b"foo\r\nbar\r\n"));
}

#[test]
fn read_line_retries_after_timeout() {
    // A 100 ms quiet interval mid-line is reported as a timeout; the
    // bytes read ahead are kept and the next call resumes the line.
    let mut conn = ConnectionImpl::new(
        MockReadWrite::with_events(vec![
            Ok(b"12".to_vec()),
            Err(SerialError::Timeout),
            Ok(b"3\r\n456\r\n".to_vec()),
        ]),
        16,
    );
    assert!(matches!(conn.read_line(), Err(SerialError::Timeout)));
    assert_eq!(String::from("123"), conn.read_line().unwrap());
    assert_eq!(String::from("456"), conn.read_line().unwrap());
}

#[test]
fn read_line_closes_on_hard_error() {
    let mut conn = ConnectionImpl::new(
        MockReadWrite::with_events(vec![
            Ok(b"123\r\n".to_vec()),
            Err(SerialError::IoError("device gone".to_string())),
        ]),
        16,
    );
    assert_eq!(String::from("123"), conn.read_line().unwrap());
    assert!(matches!(conn.read_line(), Err(SerialError::IoError(_))));
    // After a hard failure the connection stays closed.
    assert!(matches!(conn.read_line(), Err(SerialError::Closed)));
}
