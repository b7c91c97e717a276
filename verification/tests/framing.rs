use niribg::daemon::framing::{
    EventBuffer, Framed, LineReader, LineStep, RequestBuffer, MAX_EVENT_BYTES, MAX_REQUEST_BYTES,
};

#[test]
fn a_request_is_its_first_line() {
    let mut b = RequestBuffer::new();
    assert_eq!(b.push(b"{\"cmd\""), Framed::More);
    assert_eq!(b.push(b":\"get\"}\ntrailing"), Framed::Line(b"{\"cmd\":\"get\"}".to_vec()));
    assert_eq!(RequestBuffer::new().push(b"\n"), Framed::Line(Vec::new()));
}

#[test]
fn a_request_has_a_limit() {
    let mut b = RequestBuffer::new();
    assert_eq!(b.push(&vec![b'x'; MAX_REQUEST_BYTES]), Framed::More);
    assert_eq!(b.push(b"x"), Framed::TooLong);
    // A terminator in the same chunk counts first.
    let mut long = vec![b'x'; MAX_REQUEST_BYTES + 1];
    long.push(b'\n');
    assert_eq!(
        RequestBuffer::new().push(&long),
        Framed::Line(vec![b'x'; MAX_REQUEST_BYTES + 1])
    );
}

#[test]
fn events_come_out_whole_however_they_are_cut() {
    let stream = b"one\n\ntwo\nthree";
    for cut in 0..=stream.len() {
        let mut b = EventBuffer::new();
        let (mut lines, _) = b.push(&stream[..cut]);
        let (more, too_long) = b.push(&stream[cut..]);
        lines.extend(more);
        assert_eq!(lines, [b"one".to_vec(), b"".to_vec(), b"two".to_vec()]);
        assert!(!too_long);
        assert_eq!(b.push(b"\n").0, [b"three".to_vec()]);
    }
}

#[test]
fn an_event_has_a_limit() {
    let mut b = EventBuffer::new();
    assert!(!b.push(&vec![b'x'; MAX_EVENT_BYTES]).1);
    assert!(b.push(b"x").1);
    let mut b = EventBuffer::new();
    let (lines, too_long) = b.push(b"a\nb");
    assert_eq!(lines, [b"a".to_vec()]);
    assert!(!too_long);
}

#[test]
fn a_line_is_read_byte_by_byte() {
    let mut l = LineReader::new();
    assert_eq!(l.push(b'o'), LineStep::More);
    assert_eq!(l.push(b'k'), LineStep::More);
    assert_eq!(l.push(b'\n'), LineStep::Done);
    assert_eq!(l.into_bytes(), b"ok");
    let mut l = LineReader::new();
    for _ in 0..MAX_EVENT_BYTES {
        assert_eq!(l.push(b'x'), LineStep::More);
    }
    assert_eq!(l.push(b'x'), LineStep::TooLong);
}
