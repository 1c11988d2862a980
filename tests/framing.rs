use echo_protocol::framing::{
    decode_message, encode_line, encode_message, FrameError, LineBuffer, ReadEvent, Received,
    MAX_DATAGRAM_SIZE, NEWLINE,
};

#[test]
fn encode_line_appends_one_newline() {
    assert_eq!(encode_line(b"hello"), b"hello\n".to_vec());
    assert_eq!(encode_line(b""), vec![NEWLINE]);
}

#[test]
fn encode_message_uses_utf8_bytes() {
    assert_eq!(encode_message("hello"), b"hello\n".to_vec());
    assert_eq!(encode_message("h\u{e9}"), vec![b'h', 0xC3, 0xA9, b'\n']);
    assert_eq!(encode_message(""), b"\n".to_vec());
}

#[test]
fn decode_message_accepts_utf8() {
    assert_eq!(decode_message(b"hello".to_vec()), Ok("hello".to_string()));
    assert_eq!(decode_message(vec![0xE2, 0x82, 0xAC]), Ok("\u{20ac}".to_string()));
    assert_eq!(decode_message(Vec::new()), Ok(String::new()));
}

#[test]
fn decode_message_rejects_invalid_text() {
    assert_eq!(decode_message(vec![0xFF, b'a']), Err(FrameError::InvalidText));
    assert_eq!(decode_message(vec![0xC3]), Err(FrameError::InvalidText));
}

#[test]
fn take_line_waits_for_newline() {
    let mut b = LineBuffer::new(false);
    b.feed(b"hel");
    assert_eq!(b.take_line(), None);
    assert_eq!(b.buffered_len(), 3);
    b.feed(b"lo\nrest");
    assert_eq!(b.take_line(), Some(b"hello".to_vec()));
    assert_eq!(b.buffered_len(), 4);
    assert_eq!(b.take_rest(), b"rest".to_vec());
    assert_eq!(b.buffered_len(), 0);
}

#[test]
fn take_line_splits_first_line_only() {
    let mut b = LineBuffer::new(false);
    b.feed(b"one\ntwo\n\nthree");
    assert_eq!(b.take_line(), Some(b"one".to_vec()));
    assert_eq!(b.take_line(), Some(b"two".to_vec()));
    assert_eq!(b.take_line(), Some(Vec::new()));
    assert_eq!(b.take_line(), None);
    assert_eq!(b.take_rest(), b"three".to_vec());
}

#[test]
fn crlf_terminator_in_both_modes() {
    let mut plain = LineBuffer::new(false);
    plain.feed(b"hi\r\n");
    assert!(!plain.crlf());
    assert_eq!(plain.take_line(), Some(b"hi\r".to_vec()));

    let mut crlf = LineBuffer::new(true);
    crlf.feed(b"hi\r\nyo\n\r\n");
    assert!(crlf.crlf());
    assert_eq!(crlf.take_line(), Some(b"hi".to_vec()));
    assert_eq!(crlf.take_line(), Some(b"yo".to_vec()));
    assert_eq!(crlf.take_line(), Some(Vec::new()));
}

#[test]
fn on_read_assembles_a_line_across_reads() {
    let mut b = LineBuffer::new(false);
    assert!(matches!(b.on_read(ReadEvent::Data(Vec::new())), Received::NeedMore));
    assert!(matches!(b.on_read(ReadEvent::Data(b"he".to_vec())), Received::NeedMore));
    match b.on_read(ReadEvent::Data(b"llo\nwor".to_vec())) {
        Received::Line(l) => assert_eq!(l, b"hello".to_vec()),
        other => panic!("unexpected {:?}", other),
    }
    assert_eq!(b.buffered_len(), 3);
}

#[test]
fn on_read_end_of_stream() {
    let mut b = LineBuffer::new(false);
    assert!(matches!(b.on_read(ReadEvent::EndOfStream), Received::Closed));

    let mut b = LineBuffer::new(false);
    b.feed(b"a\nbc");
    match b.on_read(ReadEvent::EndOfStream) {
        Received::Line(l) => assert_eq!(l, b"a".to_vec()),
        other => panic!("unexpected {:?}", other),
    }
    match b.on_read(ReadEvent::EndOfStream) {
        Received::Line(l) => assert_eq!(l, b"bc".to_vec()),
        other => panic!("unexpected {:?}", other),
    }
    assert!(matches!(b.on_read(ReadEvent::EndOfStream), Received::Closed));

    let mut b = LineBuffer::new(true);
    b.feed(b"x\r");
    match b.on_read(ReadEvent::EndOfStream) {
        Received::Line(l) => assert_eq!(l, b"x".to_vec()),
        other => panic!("unexpected {:?}", other),
    }
}

#[test]
fn round_trip_of_bytes_without_newline() {
    let m: Vec<u8> = (0u8..=255).filter(|b| *b != b'\n').collect();
    let mut b = LineBuffer::new(false);
    b.feed(&encode_line(&m));
    assert_eq!(b.take_line(), Some(m));
    assert_eq!(b.buffered_len(), 0);
}

#[test]
fn long_line_is_not_truncated_at_a_read_boundary() {
    let text: String = "abc\u{e9}\u{1f600}".repeat(5000);
    let wire = encode_message(&text);
    assert!(wire.len() > 8192);
    let mut b = LineBuffer::new(false);
    let mut got = None;
    for chunk in wire.chunks(8192) {
        match b.on_read(ReadEvent::Data(chunk.to_vec())) {
            Received::Line(l) => got = Some(l),
            Received::NeedMore => {}
            Received::Closed => panic!("closed"),
        }
    }
    let line = got.expect("a whole line");
    assert_eq!(decode_message(line), Ok(text));
}

#[test]
fn datagram_limit() {
    assert_eq!(MAX_DATAGRAM_SIZE, 65507);
}
