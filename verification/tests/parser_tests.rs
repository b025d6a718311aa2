use mweb::parser::{parse_head, parse_resp_head, HeadOutcome, RespOutcome};

#[test]
fn complete_head_reports_exact_length() {
    // The head is everything up to and including the blank line; the
    // two bytes after it are body bytes.
    let head = b"POST /command HTTP/1.1\r\nContent-Length: 2\r\nHost: x\r\n\r\n";
    let mut buf = head.to_vec();
    buf.extend_from_slice(b"ok");
    match parse_head(&buf) {
        HeadOutcome::Complete { end, method, target, list } => {
            assert_eq!(end, head.len());
            assert_eq!(method, b"POST".to_vec());
            assert_eq!(target, b"/command".to_vec());
            assert_eq!(list.len(), 2);
            assert_eq!(list[0].name, b"Content-Length".to_vec());
            assert_eq!(list[0].value, b"2".to_vec());
            assert_eq!(list[1].name, b"Host".to_vec());
            assert_eq!(list[1].value, b"x".to_vec());
        }
        _ => panic!("expected a complete head"),
    }
}

#[test]
fn minimal_head() {
    let buf = b"GET / HTTP/1.1\r\n\r\n".to_vec();
    match parse_head(&buf) {
        HeadOutcome::Complete { end, method, target, list } => {
            assert_eq!(end, buf.len());
            assert_eq!(method, b"GET".to_vec());
            assert_eq!(target, b"/".to_vec());
            assert!(list.is_empty());
        }
        _ => panic!("expected a complete head"),
    }
}

#[test]
fn value_whitespace_after_colon_is_skipped() {
    let buf = b"GET / HTTP/1.1\r\nA:   spaced value \r\n\r\n".to_vec();
    match parse_head(&buf) {
        HeadOutcome::Complete { list, .. } => {
            assert_eq!(list[0].value, b"spaced value ".to_vec());
        }
        _ => panic!("expected a complete head"),
    }
}

#[test]
fn truncated_heads_are_partial() {
    let cases: &[&[u8]] = &[
        b"",
        b"GET",
        b"GET ",
        b"GET /p",
        b"GET /p ",
        b"GET /p HTTP/1.",
        b"GET /p HTTP/1.1\r\n",
        b"GET /p HTTP/1.1\r\nHost",
        b"GET /p HTTP/1.1\r\nHost: x\r\n",
        b"GET /p HTTP/1.1\r\nHost: x\r\n\r",
    ];
    for case in cases {
        match parse_head(&case.to_vec()) {
            HeadOutcome::Partial => {}
            _ => panic!("expected a partial head"),
        }
    }
}

#[test]
fn malformed_heads_are_rejected() {
    let cases: &[&[u8]] = &[
        b" GET / HTTP/1.1\r\n\r\n",         // leading space
        b"GET  / HTTP/1.1\r\n\r\n",         // empty target
        b"GET / HTTP/1.0\r\n\r\n",          // wrong version
        b"GET / HTTP/1.1\n\r\n",            // bare LF after version
        b"GET / HTTP/1.1\r\nno colon\r\n\r\n",
        b"GET / HTTP/1.1\r\nA: b\nc\r\n\r\n", // bare LF in header
    ];
    for case in cases {
        match parse_head(&case.to_vec()) {
            HeadOutcome::Malformed => {}
            _ => panic!("expected a malformed head"),
        }
    }
}

#[test]
fn seventeenth_header_is_rejected() {
    let mut buf = b"GET / HTTP/1.1\r\n".to_vec();
    for i in 0..17 {
        buf.extend_from_slice(format!("h{}: v\r\n", i).as_bytes());
    }
    buf.extend_from_slice(b"\r\n");
    match parse_head(&buf) {
        HeadOutcome::Malformed => {}
        _ => panic!("expected a malformed head"),
    }
}

#[test]
fn response_head_parses() {
    let buf = b"HTTP/1.1 200 OK\r\ncontent-length: 2\r\n\r\nhi".to_vec();
    match parse_resp_head(&buf) {
        RespOutcome::Complete { end, status, list } => {
            assert_eq!(end, buf.len() - 2);
            assert_eq!(status, 200);
            assert_eq!(list.len(), 1);
            assert_eq!(list[0].name, b"content-length".to_vec());
        }
        _ => panic!("expected a complete response head"),
    }
}

#[test]
fn response_head_needs_three_digits() {
    let buf = b"HTTP/1.1 20 OK\r\n\r\n".to_vec();
    match parse_resp_head(&buf) {
        RespOutcome::Malformed => {}
        _ => panic!("expected a malformed response head"),
    }
}
