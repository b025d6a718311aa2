//! The connection engine: the route dispatch ([`Handler`]) and the
//! per-connection decision logic ([`WebServer`]).  The engine never
//! touches a socket; it turns the bytes read so far into a decision —
//! read more, send an interim `100 Continue` and read the body, read a
//! body shortfall, or reply and close — and turns a finished request
//! into the reply bytes.  The surrounding process performs the reads
//! and writes it is told to.

use vstd::prelude::*;
use vstd::string::StringSliceAdditionalSpecFns;

use crate::ascii::{copy_range, dec_of, dec_vec, eq_bytes, extend_from, lit_vec};
use crate::framer::{sp_flat, Response};
use crate::grammar::{sp_head, HeadParse, SpecHeader};
use crate::parser::{hsv, parse_head, HeadOutcome, Header};
use crate::resolver::{lit_content_length, resolve_body, sp_content_length, sp_wants_continue};

verus! {

/// A parsed request: method, target path, header list in wire order,
/// and body bytes.  The protocol version is always HTTP/1.1 and is not
/// stored.
#[derive(Debug)]
pub struct Request {
    pub method: Vec<u8>,
    pub path: Vec<u8>,
    pub headers: Vec<Header>,
    pub body: Vec<u8>,
}

impl Default for Request {
    /// The empty default request: `GET /` with no headers and no body.
    fn default() -> (r: Request)
        ensures
            r.method@ == "GET".spec_bytes(),
            r.path@ == "/".spec_bytes(),
            r.headers@.len() == 0,
            r.body@.len() == 0,
    {
        Request {
            method: lit_vec("GET"),
            path: lit_vec("/"),
            headers: Vec::new(),
            body: Vec::new(),
        }
    }
}

/// The `POST` method token.
pub open spec fn lit_post() -> Seq<u8> {
    seq![80u8, 79u8, 83u8, 84u8]
}

/// The one routed path, `/command`.
pub open spec fn lit_command() -> Seq<u8> {
    seq![47u8, 99u8, 111u8, 109u8, 109u8, 97u8, 110u8, 100u8]
}

/// `POST`, as a fresh vector.
fn vec_post() -> (v: Vec<u8>)
    ensures
        v@ == lit_post(),
{
    let mut v: Vec<u8> = Vec::new();
    v.push(80);
    v.push(79);
    v.push(83);
    v.push(84);
    assert(v@ =~= lit_post());
    v
}

/// `/command`, as a fresh vector.
fn vec_command() -> (v: Vec<u8>)
    ensures
        v@ == lit_command(),
{
    let mut v: Vec<u8> = Vec::new();
    v.push(47);
    v.push(99);
    v.push(111);
    v.push(109);
    v.push(109);
    v.push(97);
    v.push(110);
    v.push(100);
    assert(v@ =~= lit_command());
    v
}

/// The route table's answer for a method and path: status, headers and
/// body of the response the handler gives.
pub open spec fn sp_process(m: Seq<u8>, p: Seq<u8>) -> (u16, Seq<SpecHeader>, Seq<u8>) {
    if m == lit_post() && p == lit_command() {
        (
            200u16,
            seq![
                ("content-type".spec_bytes(), "application/json".spec_bytes()),
                (lit_content_length(), dec_of("hello world from server\r\n".spec_bytes().len())),
            ],
            "hello world from server\r\n".spec_bytes(),
        )
    } else if m == lit_post() {
        (
            400u16,
            seq![(lit_content_length(), dec_of("html".spec_bytes().len()))],
            "html".spec_bytes(),
        )
    } else {
        (404u16, seq![(lit_content_length(), dec_of(0))], Seq::<u8>::empty())
    }
}

/// The application's request handler: a single static route.
pub struct Handler {}

impl Handler {
    /// Dispatches a request: `POST /command` gets the canned JSON
    /// reply, any other `POST` target gets a 400 with a placeholder
    /// body, and any other method gets an empty 404; exactly
    /// [`sp_process`] of the method and path.
    pub fn process(&self, req: Request) -> (r: Response)
        ensures
            r.status == sp_process(req.method@, req.path@).0,
            hsv(r.headers@) == sp_process(req.method@, req.path@).1,
            r.body@ == sp_process(req.method@, req.path@).2,
    {
        let post = vec_post();
        let cmd = vec_command();
        if eq_bytes(&req.method, &post) {
            if eq_bytes(&req.path, &cmd) {
                let msg = lit_vec("hello world from server\r\n");
                Response::json(msg)
            } else {
                let body = lit_vec("html");
                let mut headers: Vec<Header> = Vec::new();
                let len = dec_vec(body.len());
                headers.push(Header { name: lit_vec("content-length"), value: len });
                let r = Response { status: 400, headers, body };
                assert(hsv(r.headers@) =~= seq![
                    (lit_content_length(), dec_of("html".spec_bytes().len())),
                ]);
                r
            }
        } else {
            Response::e404(Vec::new())
        }
    }
}

/// The reply bytes the engine sends for a request with the given
/// method and path: the handler's response, framed.
pub open spec fn sp_reply(m: Seq<u8>, p: Seq<u8>) -> Seq<u8> {
    sp_flat(sp_process(m, p).0, sp_process(m, p).1, sp_process(m, p).2)
}

/// The framed 400 response the engine sends for an unusable head,
/// carrying `msg` as its body with a matching `Content-Length`.
pub open spec fn sp_error_frame(msg: Seq<u8>) -> Seq<u8> {
    sp_flat(400, seq![(lit_content_length(), dec_of(msg.len()))], msg)
}

/// The announced length, or zero when none was announced.
pub open spec fn cl_or_zero(cl: Option<usize>) -> usize {
    match cl {
        Some(k) => k,
        None => 0,
    }
}

/// The body a request keeps out of the bytes already buffered: nothing
/// when a continuation was requested (the body is read afresh after
/// the interim response) or no length was announced; otherwise the
/// buffered body bytes, truncated to the announced length.
pub open spec fn sp_buffered_body(s: Seq<u8>, end: int, cl: Option<usize>, ex: bool) -> Seq<u8> {
    if ex {
        Seq::<u8>::empty()
    } else {
        match cl {
            Some(k) => if k <= s.len() - end {
                s.subrange(end, end + k)
            } else {
                s.subrange(end, s.len() as int)
            },
            None => Seq::<u8>::empty(),
        }
    }
}

/// What [`WebServer::parse`] owes for a complete head: the parsed
/// pieces carried over verbatim, the resolved expectation, and the
/// buffered body.
pub open spec fn parse_fin_ok(
    r: Result<(Request, bool, usize), String>,
    s: Seq<u8>,
    end: int,
    method: Seq<u8>,
    target: Seq<u8>,
    list: Seq<SpecHeader>,
) -> bool {
    r matches Ok(t) && t.0.method@ == method && t.0.path@ == target && hsv(t.0.headers@) == list
        && t.1 == sp_wants_continue(list) && t.2 == cl_or_zero(sp_content_length(list))
        && t.0.body@ == sp_buffered_body(s, end, sp_content_length(list), sp_wants_continue(list))
}

/// What the engine decides after a read while the head is incomplete
/// or once it is parsed.
#[derive(Debug)]
pub enum HeadStep {
    /// The buffer holds only the beginning of a valid head: read more
    /// bytes and step again.
    ReadMore,
    /// The exchange is decided: write `bytes` and close.
    Reply { bytes: Vec<u8> },
    /// Write the interim frame, then read exactly `need` fresh body
    /// bytes and hand them to [`WebServer::finish`] with `request`.
    ContinueRead { interim: Vec<u8>, need: usize, request: Request },
    /// Read the `need` missing body bytes, then hand them to
    /// [`WebServer::finish`] with `request`.
    ReadRest { need: usize, request: Request },
}

/// What [`WebServer::step_head`] owes for a complete head.
///
/// A requested continuation draws the interim `100 Continue` frame, a
/// fresh read of the announced length, and a request with an empty
/// body.  Otherwise, a buffered body shorter than announced draws a
/// read of the shortfall, with the buffered bytes kept; and a complete
/// body draws the framed reply for the request's method and path.
pub open spec fn step_fin_ok(
    r: HeadStep,
    s: Seq<u8>,
    end: int,
    method: Seq<u8>,
    target: Seq<u8>,
    list: Seq<SpecHeader>,
) -> bool {
    let cl = sp_content_length(list);
    let ex = sp_wants_continue(list);
    let avail = s.len() - end;
    if ex {
        r matches HeadStep::ContinueRead { interim, need, request } && interim@ == sp_flat(
            100,
            Seq::<SpecHeader>::empty(),
            Seq::<u8>::empty(),
        ) && need == cl_or_zero(cl) && request.method@ == method && request.path@ == target && hsv(
            request.headers@,
        ) == list && request.body@.len() == 0
    } else {
        match cl {
            Some(k) => if avail < k {
                r matches HeadStep::ReadRest { need, request } && need == k - avail
                    && request.method@ == method && request.path@ == target && hsv(
                    request.headers@,
                ) == list && request.body@ == s.subrange(end, s.len() as int)
            } else {
                r matches HeadStep::Reply { bytes } && bytes@ == sp_reply(method, target)
            },
            None => r matches HeadStep::Reply { bytes } && bytes@ == sp_reply(method, target),
        }
    }
}

/// The engine for one listening socket: holds the handler and decides
/// each connection's exchange.
pub struct WebServer {
    handler: Handler,
}

impl WebServer {
    /// Builds an engine around a handler.
    pub fn new(handler: Handler) -> WebServer {
        WebServer { handler }
    }

    /// Parses the buffered bytes into a request, the continuation flag
    /// and the announced body length (zero when none).
    ///
    /// A malformed head is an error; an incomplete head yields the
    /// default empty request — callers that can read more bytes should
    /// use [`WebServer::step_head`] instead, which asks for them.  The
    /// body is resolved from the buffered bytes alone, per
    /// [`sp_buffered_body`].
    pub fn parse(&self, plaintext: &Vec<u8>) -> (r: Result<(Request, bool, usize), String>)
        ensures
            sp_head(plaintext@) is Malformed <==> r is Err,
            r matches Err(e) ==> e@ == "malformed request head"@,
            sp_head(plaintext@) is Partial ==> (r matches Ok(t) && t.0.method@ == "GET".spec_bytes()
                && t.0.path@ == "/".spec_bytes() && t.0.headers@.len() == 0 && t.0.body@.len() == 0
                && t.1 == false && t.2 == 0),
            sp_head(plaintext@) matches HeadParse::Complete { end, method, target, list }
                ==> parse_fin_ok(r, plaintext@, end, method, target, list),
    {
        match parse_head(plaintext) {
            HeadOutcome::Complete { end, method, target, list } => {
                let exp = resolve_body(&list);
                let ex = exp.wants_continue;
                let avail = plaintext.len() - end;
                let body: Vec<u8> = if ex {
                    Vec::new()
                } else {
                    match exp.expected_length {
                        Some(k) => if k <= avail {
                            copy_range(plaintext, end, end + k)
                        } else {
                            copy_range(plaintext, end, plaintext.len())
                        },
                        None => Vec::new(),
                    }
                };
                let clv = match exp.expected_length {
                    Some(k) => k,
                    None => 0,
                };
                Ok((Request { method, path: target, headers: list, body }, ex, clv))
            },
            HeadOutcome::Partial => Ok((Request::default(), false, 0)),
            HeadOutcome::Malformed => Err("malformed request head".to_owned()),
        }
    }

    /// Frames the 400 reply for an unusable head.
    fn error_frame(&self, msg: Vec<u8>) -> (r: Vec<u8>)
        ensures
            r@ == sp_error_frame(msg@),
    {
        let mut headers: Vec<Header> = Vec::new();
        let len = dec_vec(msg.len());
        headers.push(Header { name: lit_vec("content-length"), value: len });
        let resp = Response { status: 400, headers, body: msg };
        assert(hsv(resp.headers@) =~= seq![
            (lit_content_length(), dec_of(resp.body@.len() as nat)),
        ]);
        resp.flat()
    }

    /// Decides the connection's next move from the bytes read so far.
    ///
    /// While the head is incomplete the engine asks for more bytes,
    /// until `cap` bytes are buffered; a head that does not fit in
    /// `cap` bytes, like a malformed one, draws a framed 400 reply.
    /// For a complete head the engine resolves the body expectation:
    /// a requested continuation yields the interim frame and a fresh
    /// read of the announced length; a body shorter than announced
    /// yields a read of the shortfall; otherwise the request is
    /// dispatched and the reply framed.
    pub fn step_head(&self, buf: &Vec<u8>, cap: usize) -> (r: HeadStep)
        ensures
            sp_head(buf@) is Partial && buf@.len() < cap ==> r is ReadMore,
            sp_head(buf@) is Partial && buf@.len() >= cap ==> (r matches HeadStep::Reply { bytes }
                && bytes@ == sp_error_frame("request head too large".spec_bytes())),
            sp_head(buf@) is Malformed ==> (r matches HeadStep::Reply { bytes } && bytes@
                == sp_error_frame("malformed request head".spec_bytes())),
            sp_head(buf@) matches HeadParse::Complete { end, method, target, list } ==> step_fin_ok(
                r,
                buf@,
                end,
                method,
                target,
                list,
            ),
    {
        match parse_head(buf) {
            HeadOutcome::Partial => {
                if buf.len() < cap {
                    HeadStep::ReadMore
                } else {
                    let msg = lit_vec("request head too large");
                    HeadStep::Reply { bytes: self.error_frame(msg) }
                }
            },
            HeadOutcome::Malformed => {
                let msg = lit_vec("malformed request head");
                HeadStep::Reply { bytes: self.error_frame(msg) }
            },
            HeadOutcome::Complete { end, method, target, list } => {
                let exp = resolve_body(&list);
                if exp.wants_continue {
                    let interim = Response::e100(Vec::new()).flat();
                    let need = match exp.expected_length {
                        Some(k) => k,
                        None => 0,
                    };
                    let request = Request { method, path: target, headers: list, body: Vec::new() };
                    HeadStep::ContinueRead { interim, need, request }
                } else {
                    let avail = buf.len() - end;
                    match exp.expected_length {
                        Some(k) => {
                            if avail < k {
                                let body = copy_range(buf, end, buf.len());
                                let request = Request { method, path: target, headers: list, body };
                                HeadStep::ReadRest { need: k - avail, request }
                            } else {
                                let body = copy_range(buf, end, end + k);
                                let request = Request { method, path: target, headers: list, body };
                                HeadStep::Reply { bytes: self.finish(request, Vec::new()) }
                            }
                        },
                        None => {
                            let request = Request {
                                method,
                                path: target,
                                headers: list,
                                body: Vec::new(),
                            };
                            HeadStep::Reply { bytes: self.finish(request, Vec::new()) }
                        },
                    }
                }
            },
        }
    }

    /// Completes the exchange once all body bytes are at hand: appends
    /// `extra` to the request's body, dispatches the request, and
    /// frames the handler's response.
    pub fn finish(&self, request: Request, extra: Vec<u8>) -> (r: Vec<u8>)
        ensures
            r@ == sp_reply(request.method@, request.path@),
    {
        let Request { method, path, headers, body } = request;
        let mut body = body;
        extend_from(&mut body, &extra);
        let req = Request { method, path, headers, body };
        self.handler.process(req).flat()
    }
}

} // verus!
