use supaa::protocol::{
    frame, parse_error_response, RequestBuffer, Response, LOG_DIR, REQUEST_LIMIT, SOCKET_PATH,
    STATE_FILE,
};

#[test]
fn paths_are_fixed() {
    assert_eq!(SOCKET_PATH, "/run/supaad.sock");
    assert_eq!(STATE_FILE, "/var/lib/supaa/state.json");
    assert_eq!(LOG_DIR, "/var/log/supaa");
    assert_eq!(REQUEST_LIMIT, 64 * 1024);
}

#[test]
fn a_message_ends_with_a_line_feed() {
    assert_eq!(frame(b"{}".to_vec()), b"{}\n".to_vec());
    assert_eq!(frame(Vec::new()), b"\n".to_vec());
}

#[test]
fn a_request_is_complete_at_its_line_feed() {
    let mut buffer = RequestBuffer::new();
    assert!(!buffer.feed(b"{\"type\":"));
    assert!(!buffer.feed(b"\"get_status\"}"));
    assert!(buffer.feed(b"\n"));
    assert_eq!(buffer.bytes, b"{\"type\":\"get_status\"}\n");
}

#[test]
fn a_request_is_complete_when_the_client_is_done() {
    let mut buffer = RequestBuffer::new();
    assert!(!buffer.feed(b"{}"));
    assert!(buffer.feed(b""));
    assert_eq!(buffer.bytes, b"{}");
}

#[test]
fn a_request_has_a_limit() {
    let mut buffer = RequestBuffer::new();
    assert!(!buffer.feed(&vec![b'x'; REQUEST_LIMIT]));
    assert!(buffer.feed(b"x"));
    assert_eq!(buffer.bytes.len(), REQUEST_LIMIT + 1);
}

#[test]
fn a_framed_message_is_complete_only_at_its_end() {
    let framed = frame(b"{\"type\":\"shutdown\"}".to_vec());
    for n in 1..=framed.len() {
        let mut buffer = RequestBuffer::new();
        assert_eq!(buffer.feed(&framed[..n]), n == framed.len());
    }
}

#[test]
fn a_request_that_cannot_be_read_is_answered() {
    match parse_error_response("expected value at line 1 column 1") {
        Response::Error { message } => {
            assert_eq!(message, "command parse error: expected value at line 1 column 1");
        }
        other => panic!("{other:?}"),
    }
}
