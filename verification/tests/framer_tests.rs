use mweb::framer::Response;
use mweb::parser::{parse_resp_head, Header, RespOutcome};

#[test]
fn json_response_frames_exactly() {
    let resp = Response::json(b"{}".to_vec());
    assert_eq!(resp.status, 200);
    let bytes = resp.flat();
    let expected =
        b"HTTP/1.1 200 OK\r\ncontent-type: application/json\r\ncontent-length: 2\r\n\r\n{}"
            .to_vec();
    assert_eq!(bytes, expected);
}

#[test]
fn html_response_frames_exactly() {
    let resp = Response::html(b"<p>hi</p>".to_vec());
    let bytes = resp.flat();
    let expected = b"HTTP/1.1 200 OK\r\ncontent-type: text/html; charset=utf-8\r\ncontent-length: 9\r\n\r\n<p>hi</p>".to_vec();
    assert_eq!(bytes, expected);
}

#[test]
fn continue_frame_is_exact() {
    let bytes = Response::e100(Vec::new()).flat();
    assert_eq!(bytes, b"HTTP/1.1 100 Continue\r\n\r\n".to_vec());
}

#[test]
fn not_found_carries_its_length() {
    let bytes = Response::e404(b"gone".to_vec()).flat();
    assert_eq!(bytes, b"HTTP/1.1 404 Not Found\r\ncontent-length: 4\r\n\r\ngone".to_vec());
}

#[test]
fn unknown_status_gets_the_placeholder_reason() {
    let resp = Response { status: 599, headers: Vec::new(), body: Vec::new() };
    assert_eq!(resp.flat(), b"HTTP/1.1 599 Unsupported Status\r\n\r\n".to_vec());
}

#[test]
fn canonical_reasons_come_from_the_table() {
    // Each known status draws its canonical phrase; a framer that
    // ignored the status code would fail here.
    let cases: &[(u16, &[u8])] = &[
        (100, b"HTTP/1.1 100 Continue\r\n\r\n"),
        (400, b"HTTP/1.1 400 Bad Request\r\n\r\n"),
        (418, b"HTTP/1.1 418 I'm a teapot\r\n\r\n"),
        (503, b"HTTP/1.1 503 Service Unavailable\r\n\r\n"),
    ];
    for (status, expected) in cases {
        let resp = Response { status: *status, headers: Vec::new(), body: Vec::new() };
        assert_eq!(resp.flat(), expected.to_vec());
    }
}

#[test]
fn frame_and_reparse_recovers_status_and_headers() {
    // The round trip: framing, then parsing the wire bytes, gives back
    // the status code and the header list in order.
    let headers = vec![
        Header { name: b"content-type".to_vec(), value: b"application/json".to_vec() },
        Header { name: b"content-length".to_vec(), value: b"5".to_vec() },
        Header { name: b"x-extra".to_vec(), value: b"a b c".to_vec() },
    ];
    let resp = Response { status: 207, headers, body: b"hello".to_vec() };
    let bytes = resp.flat();
    match parse_resp_head(&bytes) {
        RespOutcome::Complete { end, status, list } => {
            assert_eq!(status, 207);
            assert_eq!(end, bytes.len() - 5);
            assert_eq!(list.len(), 3);
            assert_eq!(list[0].name, b"content-type".to_vec());
            assert_eq!(list[0].value, b"application/json".to_vec());
            assert_eq!(list[1].name, b"content-length".to_vec());
            assert_eq!(list[1].value, b"5".to_vec());
            assert_eq!(list[2].name, b"x-extra".to_vec());
            assert_eq!(list[2].value, b"a b c".to_vec());
        }
        _ => panic!("expected the framed head to parse"),
    }
}

#[test]
fn frame_with_unknown_reason_still_reparses() {
    let resp = Response {
        status: 599,
        headers: vec![Header { name: b"a".to_vec(), value: b"b".to_vec() }],
        body: Vec::new(),
    };
    let bytes = resp.flat();
    match parse_resp_head(&bytes) {
        RespOutcome::Complete { status, list, .. } => {
            assert_eq!(status, 599);
            assert_eq!(list.len(), 1);
        }
        _ => panic!("expected the framed head to parse"),
    }
}
