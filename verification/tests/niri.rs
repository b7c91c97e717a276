use niribg::daemon::niri::{
    check_handshake, event_stream_request, judge_handshake, next_backoff, overview_from_event,
    overview_from_line, HandshakeError, StreamReply,
};

#[test]
fn handshake_accepts_handled() {
    assert!(check_handshake(r#"{"Ok":"Handled"}"#).is_ok());
    assert!(check_handshake("  {\"Ok\":\"Handled\"}  \n").is_ok());
    assert!(check_handshake("\u{a0}\u{3000}{\"Ok\":\"Handled\"}\t\r\n").is_ok());
}

#[test]
fn handshake_rejects_error_and_garbage() {
    assert!(check_handshake(r#"{"Err":"no can do"}"#).is_err());
    assert!(check_handshake("not json at all").is_err());
    assert!(check_handshake("").is_err());
    assert_eq!(
        check_handshake(r#"{"Err":"no can do"}"#),
        Err(HandshakeError::Rejected("no can do".to_string()))
    );
    assert!(matches!(
        check_handshake(r#"{"Ok":{"Version":"26.04"}}"#),
        Err(HandshakeError::Unexpected(_))
    ));
    match check_handshake(" not json ") {
        Err(HandshakeError::Malformed { line, cause }) => {
            assert_eq!(line, " not json ");
            assert_eq!(cause, "expected value at line 1 column 1");
        }
        other => panic!("{other:?}"),
    }
}

#[test]
fn overview_event_parsed_both_ways() {
    assert_eq!(
        overview_from_line(br#"{"OverviewOpenedOrClosed":{"is_open":true}}"#),
        Some(true)
    );
    assert_eq!(
        overview_from_line(br#"{"OverviewOpenedOrClosed":{"is_open":false}}"#),
        Some(false)
    );
}

#[test]
fn other_events_and_junk_are_ignored() {
    assert_eq!(
        overview_from_line(br#"{"WorkspacesChanged":{"workspaces":[]}}"#),
        None
    );
    assert_eq!(overview_from_line(br#"{"WindowsChanged":{"windows":[]}}"#), None);
    assert_eq!(overview_from_line(b"{ garbage"), None);
    assert_eq!(overview_from_line(b""), None);
}

#[test]
fn the_request_for_the_stream() {
    assert_eq!(event_stream_request(), "\"EventStream\"\n");
}

#[test]
fn handshake_judgements() {
    assert_eq!(judge_handshake("l", StreamReply::Handled), Ok(()));
    assert_eq!(
        judge_handshake("l", StreamReply::Other("x".to_string())),
        Err(HandshakeError::Unexpected("x".to_string()))
    );
    assert_eq!(
        judge_handshake("l", StreamReply::Rejected("m".to_string())),
        Err(HandshakeError::Rejected("m".to_string()))
    );
    assert_eq!(
        judge_handshake("l", StreamReply::Malformed("c".to_string())),
        Err(HandshakeError::Malformed { line: "l".to_string(), cause: "c".to_string() })
    );
}

#[test]
fn only_overview_events_announce_anything() {
    assert_eq!(overview_from_event(Some(Some(true))), Some(true));
    assert_eq!(overview_from_event(Some(Some(false))), Some(false));
    assert_eq!(overview_from_event(Some(None)), None);
    assert_eq!(overview_from_event(None), None);
}

#[test]
fn waits_double_up_to_the_cap() {
    let mut ms = 250;
    let mut seen = Vec::new();
    for _ in 0..7 {
        seen.push(ms);
        ms = next_backoff(ms);
    }
    assert_eq!(seen, [250, 500, 1000, 2000, 4000, 5000, 5000]);
    assert_eq!(next_backoff(2500), 5000);
    assert_eq!(next_backoff(2501), 5000);
    assert_eq!(next_backoff(u32::MAX), 5000);
    assert_eq!(next_backoff(0), 0);
}

#[test]
fn handshake_errors_have_texts() {
    assert_eq!(
        HandshakeError::Unexpected("x".to_string()).to_string(),
        "unexpected EventStream response: x"
    );
    assert_eq!(
        HandshakeError::Rejected("m".to_string()).to_string(),
        "niri rejected EventStream: m"
    );
    assert_eq!(
        HandshakeError::Malformed { line: "a\tb".to_string(), cause: "c".to_string() }.to_string(),
        "bad EventStream reply \"a\\tb\": c"
    );
}
