use link_titles::comms::{frame_line, take_line, BadMessage, Comm};

#[test]
fn frame_line_ends_the_line() {
    assert_eq!(Ok("PONG :x\r\n".to_string()), frame_line("PONG :x"));
    assert_eq!(Ok("\r\n".to_string()), frame_line(""));
    assert_eq!(Ok("a\rb\r\n".to_string()), frame_line("a\rb"));
    assert_eq!(Err(BadMessage), frame_line("a\nb"));
    assert_eq!(Err(BadMessage), frame_line("\n"));
}

#[test]
fn take_line_cuts_at_the_first_line_feed() {
    let mut buf = b"  PING :a \r\nNOTICE".to_vec();
    assert_eq!(Some("PING :a".to_string()), take_line(&mut buf));
    assert_eq!(b"NOTICE".to_vec(), buf);
    assert_eq!(None, take_line(&mut buf));
    assert_eq!(b"NOTICE".to_vec(), buf);
    let mut buf = b"\n\nx\n".to_vec();
    assert_eq!(Some("".to_string()), take_line(&mut buf));
    assert_eq!(Some("".to_string()), take_line(&mut buf));
    assert_eq!(Some("x".to_string()), take_line(&mut buf));
    assert_eq!(None, take_line(&mut buf));
    assert!(buf.is_empty());
}

#[test]
fn take_line_replaces_bytes_that_are_no_text() {
    let mut buf = b"caf\xe9 \xc3\xa9\r\n".to_vec();
    assert_eq!(Some("caf\u{fffd} é".to_string()), take_line(&mut buf));
}

#[test]
fn comm_reads_lines_as_bytes_arrive() {
    let mut comm = Comm::new();
    assert_eq!(None, comm.read_line());
    comm.receive(b":a PRIV");
    assert_eq!(None, comm.read_line());
    comm.receive(b"MSG #c :hi\r\n:b");
    assert_eq!(Some(":a PRIVMSG #c :hi".to_string()), comm.read_line());
    assert_eq!(None, comm.read_line());
    assert_eq!(b":b".to_vec(), comm.buf);
    assert_eq!(Ok("x\r\n".to_string()), comm.write_line("x"));
    assert_eq!(Err(BadMessage), comm.write_line("x\n"));
}
