//! The executable request parser: incremental recognition of an
//! HTTP/1.1 request head (and, for round-trip checking, a response
//! head) from a byte buffer.  Each function returns exactly what the
//! spec-level parser in [`crate::grammar`] says it must.

use vstd::prelude::*;

use crate::ascii::{copy_range, scan, CLASS_DIGIT, CLASS_OWS, CLASS_TARGET, CLASS_TOKEN,
    CLASS_VALUE};
use crate::grammar::{lit_check, sp_head, sp_headers, sp_resp, vec_resp_prefix, vec_version,
    HeadParse, HeadersParse, RespParse, SpecHeader, MAX_HEADERS};

verus! {

/// One parsed header: its name and value bytes, exactly as they stood
/// on the wire (the value with the whitespace after the colon removed).
#[derive(Debug)]
pub struct Header {
    pub name: Vec<u8>,
    pub value: Vec<u8>,
}

impl View for Header {
    type V = SpecHeader;

    open spec fn view(&self) -> SpecHeader {
        (self.name@, self.value@)
    }
}

/// The header list as spec-level code sees it.
pub open spec fn hsv(hs: Seq<Header>) -> Seq<SpecHeader> {
    hs.map_values(|h: Header| h@)
}

/// Outcome of parsing the header section.
#[derive(Debug)]
pub enum HeadersOutcome {
    /// The blank line was found at `end - 2`; `list` holds the headers.
    Complete { end: usize, list: Vec<Header> },
    /// The buffer ended before the head did.
    Partial,
    /// The bytes fit no header production.
    Malformed,
}

/// Outcome of parsing a request head, mirroring
/// [`crate::grammar::sp_head`].
#[derive(Debug)]
pub enum HeadOutcome {
    /// A complete head of `end` bytes, blank line included.
    Complete { end: usize, method: Vec<u8>, target: Vec<u8>, list: Vec<Header> },
    /// The buffer ended before the head did.
    Partial,
    /// The bytes are not a valid request head.
    Malformed,
}

/// Outcome of parsing a response head, mirroring
/// [`crate::grammar::sp_resp`].
#[derive(Debug)]
pub enum RespOutcome {
    /// A complete head of `end` bytes with the given status code.
    Complete { end: usize, status: u16, list: Vec<Header> },
    /// The buffer ended before the head did.
    Partial,
    /// The bytes are not a valid response head.
    Malformed,
}

/// Parses header lines at position `i` of `v`, `cnt` headers having
/// been taken already.
fn parse_headers(v: &Vec<u8>, i: usize, cnt: usize) -> (r: HeadersOutcome)
    requires
        i <= v.len(),
    ensures
        ({
            let g = sp_headers(v@, i as int, cnt as int);
            match r {
                HeadersOutcome::Complete { end, list } => i <= end <= v.len() && g
                    == (HeadersParse::Complete { end: end as int, list: hsv(list@) }),
                HeadersOutcome::Partial => g == HeadersParse::Partial,
                HeadersOutcome::Malformed => g == HeadersParse::Malformed,
            }
        }),
    decreases v@.len() - i,
{
    if i == v.len() {
        return HeadersOutcome::Partial;
    }
    if v[i] == 13 {
        if i + 1 == v.len() {
            return HeadersOutcome::Partial;
        }
        if v[i + 1] == 10 {
            let list: Vec<Header> = Vec::new();
            assert(hsv(list@) =~= Seq::<SpecHeader>::empty());
            return HeadersOutcome::Complete { end: i + 2, list };
        }
        return HeadersOutcome::Malformed;
    }
    if cnt >= MAX_HEADERS {
        return HeadersOutcome::Malformed;
    }
    let nr = scan(v, i, CLASS_TOKEN);
    if nr == 0 {
        return HeadersOutcome::Malformed;
    }
    let j = i + nr;
    if j == v.len() {
        return HeadersOutcome::Partial;
    }
    if v[j] != 58 {
        return HeadersOutcome::Malformed;
    }
    let owr = scan(v, j + 1, CLASS_OWS);
    let k = j + 1 + owr;
    let vr = scan(v, k, CLASS_VALUE);
    let ve = k + vr;
    if ve == v.len() {
        return HeadersOutcome::Partial;
    }
    if v[ve] != 13 {
        return HeadersOutcome::Malformed;
    }
    if ve + 1 == v.len() {
        return HeadersOutcome::Partial;
    }
    if v[ve + 1] != 10 {
        return HeadersOutcome::Malformed;
    }
    let name = copy_range(v, i, j);
    let value = copy_range(v, k, ve);
    let header = Header { name, value };
    match parse_headers(v, ve + 2, cnt + 1) {
        HeadersOutcome::Complete { end, mut list } => {
            let ghost tail = list@;
            list.insert(0, header);
            proof {
                assert(list@ =~= seq![header] + tail);
                assert(hsv(list@) =~= seq![header@] + hsv(tail));
                assert(header@ == (v@.subrange(i as int, j as int), v@.subrange(
                    k as int,
                    ve as int,
                )));
            }
            HeadersOutcome::Complete { end, list }
        },
        HeadersOutcome::Partial => HeadersOutcome::Partial,
        HeadersOutcome::Malformed => HeadersOutcome::Malformed,
    }
}

/// Parses a request head from the start of `v`.
///
/// `Complete { end, .. }` means the bytes up to `end` form a complete head:
/// the request line, at most [`MAX_HEADERS`] headers and the blank
/// line; bytes from `end` on are body bytes.  `More` means the buffer
/// holds only a proper beginning of a head; `Bad` means the bytes can
/// never become one.
pub fn parse_head(v: &Vec<u8>) -> (r: HeadOutcome)
    ensures
        ({
            let g = sp_head(v@);
            match r {
                HeadOutcome::Complete { end, method, target, list } => end <= v.len() && g
                    == (HeadParse::Complete {
                    end: end as int,
                    method: method@,
                    target: target@,
                    list: hsv(list@),
                }),
                HeadOutcome::Partial => g == HeadParse::Partial,
                HeadOutcome::Malformed => g == HeadParse::Malformed,
            }
        }),
{
    let mr = scan(v, 0, CLASS_TOKEN);
    if mr == v.len() {
        return HeadOutcome::Partial;
    }
    if mr == 0 {
        return HeadOutcome::Malformed;
    }
    if v[mr] != 32 {
        return HeadOutcome::Malformed;
    }
    let ti = mr + 1;
    let tr = scan(v, ti, CLASS_TARGET);
    if ti + tr == v.len() {
        return HeadOutcome::Partial;
    }
    if tr == 0 {
        return HeadOutcome::Malformed;
    }
    if v[ti + tr] != 32 {
        return HeadOutcome::Malformed;
    }
    let vi = ti + tr + 1;
    let version = vec_version();
    let vc = lit_check(v, vi, &version);
    if vc == 1 {
        return HeadOutcome::Partial;
    }
    if vc == 2 {
        return HeadOutcome::Malformed;
    }
    match parse_headers(v, vi + version.len(), 0) {
        HeadersOutcome::Complete { end, list } => {
            let method = copy_range(v, 0, mr);
            let target = copy_range(v, ti, ti + tr);
            HeadOutcome::Complete { end, method, target, list }
        },
        HeadersOutcome::Partial => HeadOutcome::Partial,
        HeadersOutcome::Malformed => HeadOutcome::Malformed,
    }
}

/// Parses a response head from the start of `v`.
pub fn parse_resp_head(v: &Vec<u8>) -> (r: RespOutcome)
    ensures
        ({
            let g = sp_resp(v@);
            match r {
                RespOutcome::Complete { end, status, list } => end <= v.len() && g == (RespParse::Complete {
                    end: end as int,
                    status: status as int,
                    list: hsv(list@),
                }),
                RespOutcome::Partial => g == RespParse::Partial,
                RespOutcome::Malformed => g == RespParse::Malformed,
            }
        }),
{
    let prefix = vec_resp_prefix();
    let pc = lit_check(v, 0, &prefix);
    if pc == 1 {
        return RespOutcome::Partial;
    }
    if pc == 2 {
        return RespOutcome::Malformed;
    }
    let di = prefix.len();
    let dr = scan(v, di, CLASS_DIGIT);
    if di + dr == v.len() {
        return RespOutcome::Partial;
    }
    if dr != 3 {
        return RespOutcome::Malformed;
    }
    if v[di + 3] != 32 {
        return RespOutcome::Malformed;
    }
    proof {
        crate::ascii::lemma_run_len_bounds(v@, di as int, CLASS_DIGIT);
    }
    let d0 = v[di];
    let d1 = v[di + 1];
    let d2 = v[di + 2];
    let status: u16 = (d0 - 48) as u16 * 100 + (d1 - 48) as u16 * 10 + (d2 - 48) as u16;
    proof {
        reveal_with_fuel(crate::ascii::dec_val, 4);
        let sub = v@.subrange(di as int, di + 3);
        assert(sub.drop_last() =~= v@.subrange(di as int, di + 2));
        assert(sub.drop_last().drop_last() =~= v@.subrange(di as int, di + 1));
        assert(sub.drop_last().drop_last().drop_last() =~= Seq::<u8>::empty());
        assert(sub.drop_last().drop_last().last() == d0);
        assert(sub.drop_last().last() == d1);
        assert(sub.last() == d2);
        assert(crate::ascii::dec_val(sub) == ((d0 - 48) * 100 + (d1 - 48) * 10 + (d2 - 48)));
    }
    let ri = di + 4;
    let rr = scan(v, ri, CLASS_VALUE);
    let re = ri + rr;
    if re == v.len() {
        return RespOutcome::Partial;
    }
    if v[re] != 13 {
        return RespOutcome::Malformed;
    }
    if re + 1 == v.len() {
        return RespOutcome::Partial;
    }
    if v[re + 1] != 10 {
        return RespOutcome::Malformed;
    }
    match parse_headers(v, re + 2, 0) {
        HeadersOutcome::Complete { end, list } => RespOutcome::Complete { end, status, list },
        HeadersOutcome::Partial => RespOutcome::Partial,
        HeadersOutcome::Malformed => RespOutcome::Malformed,
    }
}

} // verus!
