use nyirc::sock::{FrameError, LineReader, MessageOut, WriteBuffer, WriteStep};
use nyirc::protocol::IRCString;

#[test]
fn reader_cuts_lines_at_crlf() {
    let mut r = LineReader::new();
    let (lines, err) = r.feed(b"NICK bob\r\nUSER b 0 0 :Bob B\r\n", 7);
    assert!(err.is_none());
    assert_eq!(lines.len(), 2);
    assert_eq!(lines[0].data.bytes, b"NICK bob".to_vec());
    assert_eq!(lines[1].data.bytes, b"USER b 0 0 :Bob B".to_vec());
    assert!(lines.iter().all(|l| l.time == 7));
    assert!(r.pending.is_empty());
}

#[test]
fn reader_joins_lines_across_chunks() {
    let mut r = LineReader::new();
    let (a, _) = r.feed(b"PRIV", 1);
    assert!(a.is_empty());
    let (b, _) = r.feed(b"MSG x y\r", 2);
    assert!(b.is_empty());
    let (c, err) = r.feed(b"\nNI", 3);
    assert!(err.is_none());
    assert_eq!(c.len(), 1);
    assert_eq!(c[0].data.bytes, b"PRIVMSG x y".to_vec());
    assert_eq!(r.pending, b"NI".to_vec());
}

#[test]
fn reader_stops_on_overlong_line() {
    let mut r = LineReader::new();
    let long = vec![b'a'; 600];
    let (lines, err) = r.feed(&long, 0);
    assert!(lines.is_empty());
    assert_eq!(err, Some(FrameError::LineTooLong));
}

#[test]
fn reader_keeps_lines_before_overlong_one() {
    let mut r = LineReader::new();
    let mut data = b"OK\r\n".to_vec();
    data.extend(vec![b'b'; 513]);
    let (lines, err) = r.feed(&data, 0);
    assert_eq!(lines.len(), 1);
    assert_eq!(lines[0].data.bytes, b"OK".to_vec());
    assert_eq!(err, Some(FrameError::LineTooLong));
}

#[test]
fn reader_accepts_line_at_the_limit() {
    let mut r = LineReader::new();
    let mut data = vec![b'c'; 510];
    data.extend(b"\r\n");
    let (lines, err) = r.feed(&data, 0);
    assert!(err.is_none());
    assert_eq!(lines.len(), 1);
    assert_eq!(lines[0].data.bytes.len(), 510);
    let mut r2 = LineReader::new();
    let mut data2 = vec![b'c'; 511];
    data2.extend(b"\r\n");
    let (lines2, err2) = r2.feed(&data2, 0);
    assert!(lines2.is_empty());
    assert_eq!(err2, Some(FrameError::LineTooLong));
}

fn out(deadline: u64, b: &[u8]) -> MessageOut {
    MessageOut { deadline, data: IRCString::new(b.to_vec()) }
}

#[test]
fn write_buffer_coalesces_to_earliest_deadline() {
    let mut w = WriteBuffer::new();
    assert_eq!(w.step(0), WriteStep::WaitForMessage);
    w.push(out(100, b"a\r\n"));
    assert_eq!(w.step(50), WriteStep::WaitUntil(100));
    w.push(out(80, b"b\r\n"));
    assert_eq!(w.step(50), WriteStep::WaitUntil(80));
    w.push(out(200, b"c\r\n"));
    assert_eq!(w.send_at, Some(80));
    assert_eq!(w.step(80), WriteStep::Flush);
    assert_eq!(w.take(), b"a\r\nb\r\nc\r\n".to_vec());
    assert_eq!(w.step(80), WriteStep::WaitForMessage);
}

#[test]
fn write_buffer_flushes_on_close_then_stops() {
    let mut w = WriteBuffer::new();
    w.push(out(1000, b"x\r\n"));
    w.close();
    assert_eq!(w.step(0), WriteStep::Flush);
    assert_eq!(w.take(), b"x\r\n".to_vec());
    assert_eq!(w.step(0), WriteStep::Stop);
}
