use mweb::engine::{Handler, HeadStep, Request, WebServer};

const CAP: usize = 8192;

fn server() -> WebServer {
    WebServer::new(Handler {})
}

#[test]
fn scenario_post_command_with_body() {
    // POST with the body already buffered: dispatched at once.
    let buf = b"POST /command HTTP/1.1\r\nContent-Length: 5\r\n\r\nhello".to_vec();
    match server().step_head(&buf, CAP) {
        HeadStep::Reply { bytes } => {
            let expected = b"HTTP/1.1 200 OK\r\ncontent-type: application/json\r\ncontent-length: 25\r\n\r\nhello world from server\r\n".to_vec();
            assert_eq!(bytes, expected);
        }
        _ => panic!("expected an immediate reply"),
    }
}

#[test]
fn scenario_expect_continue() {
    // The same request with Expect: 100-continue draws the interim
    // frame first, then a fresh read of the announced five bytes.
    let buf =
        b"POST /command HTTP/1.1\r\nContent-Length: 5\r\nExpect: 100-continue\r\n\r\n".to_vec();
    let srv = server();
    match srv.step_head(&buf, CAP) {
        HeadStep::ContinueRead { interim, need, request } => {
            assert_eq!(interim, b"HTTP/1.1 100 Continue\r\n\r\n".to_vec());
            assert_eq!(need, 5);
            assert_eq!(request.body, Vec::<u8>::new());
            let reply = srv.finish(request, b"hello".to_vec());
            let expected = b"HTTP/1.1 200 OK\r\ncontent-type: application/json\r\ncontent-length: 25\r\n\r\nhello world from server\r\n".to_vec();
            assert_eq!(reply, expected);
        }
        _ => panic!("expected the continuation handshake"),
    }
}

#[test]
fn scenario_get_root() {
    // GET / carries no length and no continuation: the handler answers
    // with an empty 404 framed with a matching Content-Length.
    let buf = b"GET / HTTP/1.1\r\n\r\n".to_vec();
    match server().step_head(&buf, CAP) {
        HeadStep::Reply { bytes } => {
            assert_eq!(bytes, b"HTTP/1.1 404 Not Found\r\ncontent-length: 0\r\n\r\n".to_vec());
        }
        _ => panic!("expected an immediate reply"),
    }
}

#[test]
fn scenario_too_many_headers() {
    // Seventeen headers exceed the cap: a 400 frame, no dispatch.
    let mut buf = b"GET / HTTP/1.1\r\n".to_vec();
    for i in 0..17 {
        buf.extend_from_slice(format!("h{}: v\r\n", i).as_bytes());
    }
    buf.extend_from_slice(b"\r\n");
    match server().step_head(&buf, CAP) {
        HeadStep::Reply { bytes } => {
            let expected =
                b"HTTP/1.1 400 Bad Request\r\ncontent-length: 22\r\n\r\nmalformed request head"
                    .to_vec();
            assert_eq!(bytes, expected);
        }
        _ => panic!("expected a 400 reply"),
    }
}

#[test]
fn sixteen_headers_are_accepted() {
    let mut buf = b"GET / HTTP/1.1\r\n".to_vec();
    for i in 0..16 {
        buf.extend_from_slice(format!("h{}: v\r\n", i).as_bytes());
    }
    buf.extend_from_slice(b"\r\n");
    match server().step_head(&buf, CAP) {
        HeadStep::Reply { bytes } => {
            assert!(bytes.starts_with(b"HTTP/1.1 404 "));
        }
        _ => panic!("expected a reply"),
    }
}

#[test]
fn incomplete_head_asks_for_more() {
    let buf = b"POST /command HTTP/1.1\r\nContent-Le".to_vec();
    match server().step_head(&buf, CAP) {
        HeadStep::ReadMore => {}
        _ => panic!("expected a request for more bytes"),
    }
}

#[test]
fn oversized_head_is_rejected() {
    // A buffer already at capacity that still holds no complete head
    // draws the dedicated 400 reply.
    let buf = b"GET /x HTTP/1.1\r\nname: ".to_vec();
    let cap = buf.len();
    match server().step_head(&buf, cap) {
        HeadStep::Reply { bytes } => {
            let expected =
                b"HTTP/1.1 400 Bad Request\r\ncontent-length: 22\r\n\r\nrequest head too large"
                    .to_vec();
            assert_eq!(bytes, expected);
        }
        _ => panic!("expected a 400 reply"),
    }
}

#[test]
fn short_body_draws_a_supplementary_read() {
    // Three of five announced bytes are buffered: the engine asks for
    // the missing two and keeps what it has.
    let buf = b"POST /command HTTP/1.1\r\nContent-Length: 5\r\n\r\nhel".to_vec();
    let srv = server();
    match srv.step_head(&buf, CAP) {
        HeadStep::ReadRest { need, request } => {
            assert_eq!(need, 2);
            assert_eq!(request.body, b"hel".to_vec());
            let reply = srv.finish(request, b"lo".to_vec());
            assert!(reply.starts_with(b"HTTP/1.1 200 OK\r\n"));
        }
        _ => panic!("expected a supplementary read"),
    }
}

#[test]
fn parse_complete_request() {
    let buf = b"POST /command HTTP/1.1\r\nContent-Length: 5\r\n\r\nhelloXX".to_vec();
    let (req, expects, len) = server().parse(&buf).unwrap();
    assert_eq!(req.method, b"POST".to_vec());
    assert_eq!(req.path, b"/command".to_vec());
    assert_eq!(req.headers.len(), 1);
    assert_eq!(req.body, b"hello".to_vec());
    assert!(!expects);
    assert_eq!(len, 5);
}

#[test]
fn parse_expect_continue_keeps_no_body() {
    let buf =
        b"POST /command HTTP/1.1\r\nContent-Length: 5\r\nExpect: 100-continue\r\n\r\n".to_vec();
    let (req, expects, len) = server().parse(&buf).unwrap();
    assert!(expects);
    assert_eq!(len, 5);
    assert_eq!(req.body, Vec::<u8>::new());
}

#[test]
fn parse_partial_yields_default_request() {
    let buf = b"POST /comm".to_vec();
    let (req, expects, len) = server().parse(&buf).unwrap();
    assert_eq!(req.method, b"GET".to_vec());
    assert_eq!(req.path, b"/".to_vec());
    assert_eq!(req.headers.len(), 0);
    assert_eq!(req.body, Vec::<u8>::new());
    assert!(!expects);
    assert_eq!(len, 0);
}

#[test]
fn parse_malformed_is_an_error() {
    let buf = b"POST  /command HTTP/1.1\r\n\r\n".to_vec();
    let err = server().parse(&buf).unwrap_err();
    assert_eq!(err, "malformed request head".to_string());
}

#[test]
fn process_routes() {
    let h = Handler {};
    let req = Request {
        method: b"POST".to_vec(),
        path: b"/elsewhere".to_vec(),
        headers: Vec::new(),
        body: Vec::new(),
    };
    let resp = h.process(req);
    assert_eq!(resp.status, 400);
    assert_eq!(resp.body, b"html".to_vec());

    let req = Request {
        method: b"PUT".to_vec(),
        path: b"/command".to_vec(),
        headers: Vec::new(),
        body: Vec::new(),
    };
    let resp = h.process(req);
    assert_eq!(resp.status, 404);
    assert_eq!(resp.body, Vec::<u8>::new());
}
