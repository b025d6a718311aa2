//! The response framer: a [`Response`] is a status code, an ordered
//! header list and a body, and [`Response::flat`] serialises it into
//! wire bytes — status line, header lines, blank line, body — exactly
//! as [`crate::grammar::enc_resp_head`] describes.  The reason phrase
//! comes from the `http` crate's canonical table, with a fixed
//! placeholder for codes the table does not know.

use vstd::prelude::*;
use vstd::string::StringSliceAdditionalSpecFns;

use crate::ascii::{dec_of, dec_vec, extend_from, lit_vec, push_byte};
use crate::grammar::{enc_resp_head, enc_status_line, enc_headers, lemma_enc_headers_snoc,
    lemma_sp_resp_encode, sp_resp, wf_headers, wf_reason, RespParse, SpecHeader};
use crate::parser::{hsv, Header};

verus! {

/// The reason phrase the `http` crate's canonical table assigns to a
/// status code, when it has one.  The table is fixed, so the result
/// depends on the code alone.
pub uninterp spec fn reason_of(code: u16) -> Option<Seq<u8>>;

/// The placeholder reason phrase for status codes without a canonical
/// one.
pub open spec fn lit_unsupported() -> Seq<u8> {
    "Unsupported Status".spec_bytes()
}

/// The reason phrase that ends up on the wire for `code`.
pub open spec fn reason_text(code: u16) -> Seq<u8> {
    match reason_of(code) {
        Some(r) => r,
        None => lit_unsupported(),
    }
}

/// Relies on `http::StatusCode::from_u16` and
/// `http::StatusCode::canonical_reason`: the canonical IANA reason
/// phrase for a status code, out of a fixed table of short printable
/// ASCII strings (none empty, none beginning with whitespace), or
/// nothing for a code the table does not list or that is out of the
/// 100..=999 range.
#[verifier::external_body]
fn canonical_reason_bytes(code: u16) -> (r: Option<Vec<u8>>)
    ensures
        match r {
            Some(v) => reason_of(code) == Some(v@) && v@.len() >= 1 && v@[0] != 32 && forall|
                k: int,
            |
                0 <= k < v@.len() ==> 32 <= #[trigger] v@[k] < 127,
            None => reason_of(code) is None,
        },
{
    match http::StatusCode::from_u16(code) {
        Ok(s) => s.canonical_reason().map(|p| p.as_bytes().to_vec()),
        Err(_) => None,
    }
}

/// A response: status code, headers in the order they will stand on
/// the wire, and raw body bytes.
#[derive(Debug)]
pub struct Response {
    pub status: u16,
    pub headers: Vec<Header>,
    pub body: Vec<u8>,
}

/// The wire form of a response head for `status` and `hs`, with the
/// reason phrase the framer uses.
pub open spec fn sp_head_bytes(status: u16, hs: Seq<SpecHeader>) -> Seq<u8> {
    enc_resp_head(status as nat, reason_text(status), hs)
}

/// The full wire form of a response: head then body.
pub open spec fn sp_flat(status: u16, hs: Seq<SpecHeader>, body: Seq<u8>) -> Seq<u8> {
    sp_head_bytes(status, hs) + body
}

impl Response {
    /// Serialises the status line, the headers and the blank line.
    pub fn header_flat(&self) -> (r: Vec<u8>)
        ensures
            r@ == sp_head_bytes(self.status, hsv(self.headers@)),
    {
        let mut data = crate::grammar::vec_resp_prefix();
        let code = dec_vec(self.status as usize);
        extend_from(&mut data, &code);
        push_byte(&mut data, 32);
        match canonical_reason_bytes(self.status) {
            Some(v) => extend_from(&mut data, &v),
            None => {
                let u = lit_vec("Unsupported Status");
                extend_from(&mut data, &u);
            },
        }
        push_byte(&mut data, 13);
        push_byte(&mut data, 10);
        let ghost hs = hsv(self.headers@);
        let ghost line = enc_status_line(self.status as nat, reason_text(self.status));
        proof {
            assert(data@ =~= line);
            assert(hs.take(0) =~= Seq::<SpecHeader>::empty());
            assert(data@ + enc_headers(hs.take(0)) =~= data@);
        }
        let mut i: usize = 0;
        while i < self.headers.len()
            invariant
                i <= self.headers.len(),
                hs == hsv(self.headers@),
                hs.len() == self.headers@.len(),
                line == enc_status_line(self.status as nat, reason_text(self.status)),
                data@ == line + enc_headers(hs.take(i as int)),
            decreases self.headers.len() - i,
        {
            extend_from(&mut data, &self.headers[i].name);
            push_byte(&mut data, 58);
            push_byte(&mut data, 32);
            extend_from(&mut data, &self.headers[i].value);
            push_byte(&mut data, 13);
            push_byte(&mut data, 10);
            proof {
                lemma_enc_headers_snoc(hs, i as int);
                assert(hs[i as int] == self.headers@[i as int]@);
                assert(data@ =~= line + enc_headers(hs.take(i + 1)));
            }
            i = i + 1;
        }
        push_byte(&mut data, 13);
        push_byte(&mut data, 10);
        proof {
            assert(hs.take(hs.len() as int) =~= hs);
            assert(data@ =~= enc_resp_head(
                self.status as nat,
                reason_text(self.status),
                hs,
            ));
        }
        data
    }

    /// Serialises the whole response: head then body.
    pub fn flat(&self) -> (r: Vec<u8>)
        ensures
            r@ == sp_flat(self.status, hsv(self.headers@), self.body@),
    {
        let mut data = self.header_flat();
        extend_from(&mut data, &self.body);
        data
    }

    /// The interim continuation response: status 100, no headers.
    pub fn e100(data: Vec<u8>) -> (r: Response)
        ensures
            r.status == 100,
            hsv(r.headers@) == Seq::<SpecHeader>::empty(),
            r.body@ == data@,
    {
        let r = Response { status: 100, headers: Vec::new(), body: data };
        assert(hsv(r.headers@) =~= Seq::<SpecHeader>::empty());
        r
    }

    /// A not-found response carrying `data`, with a `Content-Length`
    /// header matching it.
    pub fn e404(data: Vec<u8>) -> (r: Response)
        ensures
            r.status == 404,
            hsv(r.headers@) == seq![
                (crate::resolver::lit_content_length(), dec_of(data@.len() as nat)),
            ],
            r.body@ == data@,
    {
        let mut headers: Vec<Header> = Vec::new();
        let len = dec_vec(data.len());
        headers.push(Header { name: lit_vec("content-length"), value: len });
        let r = Response { status: 404, headers, body: data };
        assert(hsv(r.headers@) =~= seq![
            (crate::resolver::lit_content_length(), dec_of(r.body@.len() as nat)),
        ]);
        r
    }

    /// A 200 response carrying a JSON body, with matching
    /// `Content-Type` and `Content-Length` headers.
    pub fn json(content: Vec<u8>) -> (r: Response)
        ensures
            r.status == 200,
            hsv(r.headers@) == seq![
                ("content-type".spec_bytes(), "application/json".spec_bytes()),
                (crate::resolver::lit_content_length(), dec_of(content@.len() as nat)),
            ],
            r.body@ == content@,
    {
        let mut headers: Vec<Header> = Vec::new();
        headers.push(Header { name: lit_vec("content-type"), value: lit_vec("application/json") });
        let len = dec_vec(content.len());
        headers.push(Header { name: lit_vec("content-length"), value: len });
        let r = Response { status: 200, headers, body: content };
        assert(hsv(r.headers@) =~= seq![
            ("content-type".spec_bytes(), "application/json".spec_bytes()),
            (crate::resolver::lit_content_length(), dec_of(r.body@.len() as nat)),
        ]);
        r
    }

    /// A 200 response carrying an HTML body, with matching
    /// `Content-Type` and `Content-Length` headers.
    pub fn html(content: Vec<u8>) -> (r: Response)
        ensures
            r.status == 200,
            hsv(r.headers@) == seq![
                ("content-type".spec_bytes(), "text/html; charset=utf-8".spec_bytes()),
                (crate::resolver::lit_content_length(), dec_of(content@.len() as nat)),
            ],
            r.body@ == content@,
    {
        let mut headers: Vec<Header> = Vec::new();
        headers.push(Header {
            name: lit_vec("content-type"),
            value: lit_vec("text/html; charset=utf-8"),
        });
        let len = dec_vec(content.len());
        headers.push(Header { name: lit_vec("content-length"), value: len });
        let r = Response { status: 200, headers, body: content };
        assert(hsv(r.headers@) =~= seq![
            ("content-type".spec_bytes(), "text/html; charset=utf-8".spec_bytes()),
            (crate::resolver::lit_content_length(), dec_of(r.body@.len() as nat)),
        ]);
        r
    }
}

/// Framing then re-parsing recovers the status and the header list.
///
/// For any three-digit status, reason phrase without CR or LF, and
/// well-formed header list, parsing the framed bytes (head followed by
/// any body at all) reports a complete head of exactly the head's
/// length, the same status code, and the same headers in the same
/// order.
pub proof fn lemma_response_round_trip(
    status: u16,
    reason: Seq<u8>,
    hs: Seq<SpecHeader>,
    body: Seq<u8>,
)
    requires
        100 <= status <= 999,
        wf_reason(reason),
        wf_headers(hs),
    ensures
        sp_resp(enc_resp_head(status as nat, reason, hs) + body) == (RespParse::Complete {
            end: enc_resp_head(status as nat, reason, hs).len() as int,
            status: status as int,
            list: hs,
        }),
{
    let s = enc_resp_head(status as nat, reason, hs) + body;
    assert(enc_resp_head(status as nat, reason, hs).is_prefix_of(s)) by {
        assert(s.take(enc_resp_head(status as nat, reason, hs).len() as int) =~= enc_resp_head(
            status as nat,
            reason,
            hs,
        ));
    }
    lemma_sp_resp_encode(s, status as nat, reason, hs);
}

} // verus!
