//! The HTTP/1.1 head grammar, twice over: as spec-level parsing functions
//! that say exactly what outcome any byte sequence has, and as encoding
//! functions that build the wire form of a request or response head.
//! The lemmas at the end tie the two together: parsing an encoded head
//! recovers exactly the pieces it was built from.

use vstd::prelude::*;

use crate::ascii::{
    all_digits, dec_of, dec_val, is_digit_byte, is_ows_byte, is_target_byte, is_token_byte,
    is_value_byte, lemma_dec_of_digits, lemma_dec_of_len3, lemma_dec_val_of, lemma_run_len_bounds,
    lemma_run_len_exact, run_len, CLASS_DIGIT, CLASS_OWS, CLASS_TARGET, CLASS_TOKEN, CLASS_VALUE,
};

verus! {

/// The largest number of headers a head may carry; one more is a parse
/// error.
pub const MAX_HEADERS: usize = 16;

/// A parsed header as spec-level code sees it: name and value bytes.
pub type SpecHeader = (Seq<u8>, Seq<u8>);

/// The version-and-line-end literal every request line must end with:
/// `HTTP/1.1` followed by CRLF.
pub open spec fn lit_version() -> Seq<u8> {
    seq![72u8, 84u8, 84u8, 80u8, 47u8, 49u8, 46u8, 49u8, 13u8, 10u8]
}

/// The fixed prefix of every status line: `HTTP/1.1` followed by a space.
pub open spec fn lit_resp_prefix() -> Seq<u8> {
    seq![72u8, 84u8, 84u8, 80u8, 47u8, 49u8, 46u8, 49u8, 32u8]
}

/// The CRLF line terminator.
pub open spec fn crlf() -> Seq<u8> {
    seq![13u8, 10u8]
}

/// `HTTP/1.1` + CRLF, as a fresh vector.
pub fn vec_version() -> (v: Vec<u8>)
    ensures
        v@ == lit_version(),
{
    let mut v: Vec<u8> = Vec::new();
    v.push(72);
    v.push(84);
    v.push(84);
    v.push(80);
    v.push(47);
    v.push(49);
    v.push(46);
    v.push(49);
    v.push(13);
    v.push(10);
    assert(v@ =~= lit_version());
    v
}

/// `HTTP/1.1` + space, as a fresh vector.
pub fn vec_resp_prefix() -> (v: Vec<u8>)
    ensures
        v@ == lit_resp_prefix(),
{
    let mut v: Vec<u8> = Vec::new();
    v.push(72);
    v.push(84);
    v.push(84);
    v.push(80);
    v.push(47);
    v.push(49);
    v.push(46);
    v.push(49);
    v.push(32);
    assert(v@ =~= lit_resp_prefix());
    v
}

/// Comparison of `s` at position `i` against an expected literal:
/// 0 when the literal is fully present, 1 when `s` ends first while
/// still agreeing, 2 on a mismatch.
pub open spec fn lit_cmp(s: Seq<u8>, i: int, lit: Seq<u8>) -> int
    decreases lit.len(),
    when 0 <= i <= s.len()
{
    if lit.len() == 0 {
        0
    } else if i == s.len() {
        1
    } else if s[i] == lit[0] {
        lit_cmp(s, i + 1, lit.drop_first())
    } else {
        2
    }
}

/// A literal that stands at position `i` compares as fully present.
pub proof fn lemma_lit_cmp_prefix(s: Seq<u8>, i: int, lit: Seq<u8>)
    requires
        0 <= i <= s.len(),
        lit.is_prefix_of(s.skip(i)),
    ensures
        lit_cmp(s, i, lit) == 0,
    decreases lit.len(),
{
    if lit.len() > 0 {
        assert(s.skip(i)[0] == s[i]);
        assert(lit.drop_first().is_prefix_of(s.skip(i + 1))) by {
            assert forall|k: int| 0 <= k < lit.drop_first().len() implies lit.drop_first()[k]
                == s.skip(i + 1)[k] by {
                assert(lit[k + 1] == s.skip(i)[k + 1]);
            }
            assert(lit.drop_first() =~= s.skip(i + 1).take(lit.len() - 1));
        }
        lemma_lit_cmp_prefix(s, i + 1, lit.drop_first());
    }
}

/// Executable form of [`lit_cmp`].
pub fn lit_check(v: &Vec<u8>, i: usize, lit: &Vec<u8>) -> (r: u8)
    requires
        i <= v.len(),
    ensures
        r == 0 || r == 1 || r == 2,
        r as int == lit_cmp(v@, i as int, lit@),
        r == 0 ==> i + lit@.len() <= v@.len(),
{
    let mut k: usize = 0;
    assert(lit@.skip(0) =~= lit@);
    while k < lit.len()
        invariant
            k <= lit.len(),
            i + k <= v.len(),
            lit_cmp(v@, i as int, lit@) == lit_cmp(v@, (i + k) as int, lit@.skip(k as int)),
        decreases lit.len() - k,
    {
        if i + k == v.len() {
            assert(lit@.skip(k as int).len() > 0);
            return 1;
        }
        if v[i + k] != lit[k] {
            assert(lit@.skip(k as int)[0] == lit@[k as int]);
            return 2;
        }
        assert(lit@.skip(k as int)[0] == lit@[k as int]);
        assert(lit@.skip(k as int).drop_first() =~= lit@.skip(k + 1 as int));
        k = k + 1;
    }
    assert(lit@.skip(k as int).len() == 0);
    0
}

/// Outcome of parsing a header list: complete with the position after
/// the blank line and the headers in order, in need of more bytes, or
/// malformed.
pub ghost enum HeadersParse {
    Complete { end: int, list: Seq<SpecHeader> },
    Partial,
    Malformed,
}

/// Outcome of parsing a request head.
pub ghost enum HeadParse {
    Complete { end: int, method: Seq<u8>, target: Seq<u8>, list: Seq<SpecHeader> },
    Partial,
    Malformed,
}

/// Outcome of parsing a response head.
pub ghost enum RespParse {
    Complete { end: int, status: int, list: Seq<SpecHeader> },
    Partial,
    Malformed,
}

/// Parses header lines at position `i`, `cnt` headers having been taken
/// already, up to and including the blank line that ends the head.
///
/// A header line is a non-empty run of token bytes, a colon, optional
/// whitespace, a run of value bytes, and CRLF.  Running out of bytes
/// anywhere is `Partial`; a byte that fits no production, a bare LF, or a
/// seventeenth header is `Malformed`.
pub open spec fn sp_headers(s: Seq<u8>, i: int, cnt: int) -> HeadersParse
    decreases s.len() - i,
    when 0 <= i <= s.len()
    via sp_headers_decreases
{
    if i == s.len() {
        HeadersParse::Partial
    } else if s[i] == 13 {
        if i + 1 == s.len() {
            HeadersParse::Partial
        } else if s[i + 1] == 10 {
            HeadersParse::Complete { end: i + 2, list: Seq::empty() }
        } else {
            HeadersParse::Malformed
        }
    } else if cnt >= MAX_HEADERS {
        HeadersParse::Malformed
    } else {
        let nr = run_len(s, i, CLASS_TOKEN);
        if nr == 0 {
            HeadersParse::Malformed
        } else {
            let j = i + nr;
            if j == s.len() {
                HeadersParse::Partial
            } else if s[j] != 58 {
                HeadersParse::Malformed
            } else {
                let k = j + 1 + run_len(s, j + 1, CLASS_OWS);
                let ve = k + run_len(s, k, CLASS_VALUE);
                if ve == s.len() {
                    HeadersParse::Partial
                } else if s[ve] != 13 {
                    HeadersParse::Malformed
                } else if ve + 1 == s.len() {
                    HeadersParse::Partial
                } else if s[ve + 1] != 10 {
                    HeadersParse::Malformed
                } else {
                    match sp_headers(s, ve + 2, cnt + 1) {
                        HeadersParse::Complete { end, list } => HeadersParse::Complete {
                            end,
                            list: seq![(s.subrange(i, j), s.subrange(k, ve))] + list,
                        },
                        HeadersParse::Partial => HeadersParse::Partial,
                        HeadersParse::Malformed => HeadersParse::Malformed,
                    }
                }
            }
        }
    }
}

#[via_fn]
proof fn sp_headers_decreases(s: Seq<u8>, i: int, cnt: int) {
    if 0 <= i && i <= s.len() {
        lemma_run_len_bounds(s, i, CLASS_TOKEN);
        let nr = run_len(s, i, CLASS_TOKEN);
        if i + nr < s.len() {
            lemma_run_len_bounds(s, i + nr + 1, CLASS_OWS);
            let k = i + nr + 1 + run_len(s, i + nr + 1, CLASS_OWS);
            lemma_run_len_bounds(s, k, CLASS_VALUE);
        }
    }
}

/// Parses a request head from the start of `s`: a request line
/// (method, space, target, space, `HTTP/1.1`, CRLF) followed by headers
/// and the blank line.  `Complete.end` is the length of the whole head.
pub open spec fn sp_head(s: Seq<u8>) -> HeadParse {
    let mr = run_len(s, 0, CLASS_TOKEN);
    if mr == s.len() {
        HeadParse::Partial
    } else if mr == 0 {
        HeadParse::Malformed
    } else if s[mr] != 32 {
        HeadParse::Malformed
    } else {
        let ti = mr + 1;
        let tr = run_len(s, ti, CLASS_TARGET);
        if ti + tr == s.len() {
            HeadParse::Partial
        } else if tr == 0 {
            HeadParse::Malformed
        } else if s[ti + tr] != 32 {
            HeadParse::Malformed
        } else {
            let vi = ti + tr + 1;
            let vc = lit_cmp(s, vi, lit_version());
            if vc == 1 {
                HeadParse::Partial
            } else if vc == 2 {
                HeadParse::Malformed
            } else {
                match sp_headers(s, vi + lit_version().len(), 0) {
                    HeadersParse::Complete { end, list } => HeadParse::Complete {
                        end,
                        method: s.subrange(0, mr),
                        target: s.subrange(ti, ti + tr),
                        list,
                    },
                    HeadersParse::Partial => HeadParse::Partial,
                    HeadersParse::Malformed => HeadParse::Malformed,
                }
            }
        }
    }
}

/// Parses a response head from the start of `s`: `HTTP/1.1`, a space, a
/// three-digit status, a space, a reason phrase, CRLF, then headers and
/// the blank line.
pub open spec fn sp_resp(s: Seq<u8>) -> RespParse {
    let pc = lit_cmp(s, 0, lit_resp_prefix());
    if pc == 1 {
        RespParse::Partial
    } else if pc == 2 {
        RespParse::Malformed
    } else {
        let di = lit_resp_prefix().len() as int;
        let dr = run_len(s, di, CLASS_DIGIT);
        if di + dr == s.len() {
            RespParse::Partial
        } else if dr != 3 {
            RespParse::Malformed
        } else if s[di + 3] != 32 {
            RespParse::Malformed
        } else {
            let ri = di + 4;
            let re = ri + run_len(s, ri, CLASS_VALUE);
            if re == s.len() {
                RespParse::Partial
            } else if s[re] != 13 {
                RespParse::Malformed
            } else if re + 1 == s.len() {
                RespParse::Partial
            } else if s[re + 1] != 10 {
                RespParse::Malformed
            } else {
                match sp_headers(s, re + 2, 0) {
                    HeadersParse::Complete { end, list } => RespParse::Complete {
                        end,
                        status: dec_val(s.subrange(di, di + 3)),
                        list,
                    },
                    HeadersParse::Partial => RespParse::Partial,
                    HeadersParse::Malformed => RespParse::Malformed,
                }
            }
        }
    }
}

/// A well-formed header name: non-empty, token bytes only.
pub open spec fn wf_name(n: Seq<u8>) -> bool {
    n.len() >= 1 && forall|k: int| 0 <= k < n.len() ==> is_token_byte(n[k])
}

/// A well-formed header value: no CR or LF, and no leading whitespace
/// (the encoder supplies the single space after the colon).
pub open spec fn wf_value(v: Seq<u8>) -> bool {
    (forall|k: int| 0 <= k < v.len() ==> is_value_byte(v[k])) && (v.len() == 0 || !is_ows_byte(
        v[0],
    ))
}

/// A well-formed header.
pub open spec fn wf_header(h: SpecHeader) -> bool {
    wf_name(h.0) && wf_value(h.1)
}

/// A well-formed header list: each header well formed, and no more of
/// them than the parser admits.
pub open spec fn wf_headers(hs: Seq<SpecHeader>) -> bool {
    hs.len() <= MAX_HEADERS && forall|k: int| 0 <= k < hs.len() ==> wf_header(hs[k])
}

/// A well-formed method: non-empty, token bytes only.
pub open spec fn wf_method(m: Seq<u8>) -> bool {
    m.len() >= 1 && forall|k: int| 0 <= k < m.len() ==> is_token_byte(m[k])
}

/// A well-formed request target: non-empty, visible ASCII.
pub open spec fn wf_target(t: Seq<u8>) -> bool {
    t.len() >= 1 && forall|k: int| 0 <= k < t.len() ==> is_target_byte(t[k])
}

/// A well-formed request head.
pub open spec fn wf_head(m: Seq<u8>, t: Seq<u8>, hs: Seq<SpecHeader>) -> bool {
    wf_method(m) && wf_target(t) && wf_headers(hs)
}

/// A well-formed reason phrase: no CR or LF.
pub open spec fn wf_reason(r: Seq<u8>) -> bool {
    forall|k: int| 0 <= k < r.len() ==> is_value_byte(r[k])
}

/// Wire form of one header line: name, colon, one space, value, CRLF.
pub open spec fn enc_header(h: SpecHeader) -> Seq<u8> {
    h.0 + seq![58u8, 32u8] + h.1 + crlf()
}

/// Wire form of a header list.
pub open spec fn enc_headers(hs: Seq<SpecHeader>) -> Seq<u8>
    decreases hs.len(),
{
    if hs.len() == 0 {
        Seq::empty()
    } else {
        enc_header(hs[0]) + enc_headers(hs.drop_first())
    }
}

/// Wire form of a request line.
pub open spec fn enc_request_line(m: Seq<u8>, t: Seq<u8>) -> Seq<u8> {
    m + seq![32u8] + t + seq![32u8] + lit_version()
}

/// Wire form of a whole request head, blank line included.
pub open spec fn enc_head(m: Seq<u8>, t: Seq<u8>, hs: Seq<SpecHeader>) -> Seq<u8> {
    enc_request_line(m, t) + enc_headers(hs) + crlf()
}

/// Wire form of a status line with the given status and reason phrase.
pub open spec fn enc_status_line(status: nat, reason: Seq<u8>) -> Seq<u8> {
    lit_resp_prefix() + dec_of(status) + seq![32u8] + reason + crlf()
}

/// Wire form of a whole response head, blank line included.
pub open spec fn enc_resp_head(status: nat, reason: Seq<u8>, hs: Seq<SpecHeader>) -> Seq<u8> {
    enc_status_line(status, reason) + enc_headers(hs) + crlf()
}

/// Encoding one more header appends one more encoded line.
pub proof fn lemma_enc_headers_snoc(hs: Seq<SpecHeader>, i: int)
    requires
        0 <= i < hs.len(),
    ensures
        enc_headers(hs.take(i + 1)) == enc_headers(hs.take(i)) + enc_header(hs[i]),
    decreases i,
{
    if i == 0 {
        assert(hs.take(0) =~= Seq::<SpecHeader>::empty());
        assert(hs.take(1) =~= seq![hs[0]]);
        assert(seq![hs[0]].drop_first() =~= Seq::<SpecHeader>::empty());
        assert(enc_headers(hs.take(1)) =~= enc_headers(hs.take(0)) + enc_header(hs[0]));
    } else {
        let rest = hs.drop_first();
        lemma_enc_headers_snoc(rest, i - 1);
        assert(hs.take(i + 1).drop_first() =~= rest.take(i));
        assert(hs.take(i).drop_first() =~= rest.take(i - 1));
        assert(hs.take(i + 1)[0] == hs[0]);
        assert(hs.take(i)[0] == hs[0]);
        assert(rest[i - 1] == hs[i]);
        assert(enc_headers(hs.take(i + 1)) == enc_header(hs[0]) + enc_headers(rest.take(i)));
        assert(enc_headers(hs.take(i)) == enc_header(hs[0]) + enc_headers(rest.take(i - 1)));
        assert(enc_header(hs[0]) + (enc_headers(rest.take(i - 1)) + enc_header(hs[i]))
            =~= (enc_header(hs[0]) + enc_headers(rest.take(i - 1))) + enc_header(hs[i]));
    }
}

/// Splits a prefix `a + b` of `s.skip(i)`: `a` stands byte for byte at
/// position `i`, and `b` is a prefix of what follows it.
pub proof fn lemma_prefix_skip(s: Seq<u8>, i: int, a: Seq<u8>, b: Seq<u8>)
    requires
        0 <= i <= s.len(),
        (a + b).is_prefix_of(s.skip(i)),
    ensures
        i + a.len() + b.len() <= s.len(),
        forall|k: int| 0 <= k < a.len() ==> s[i + k] == a[k],
        b.is_prefix_of(s.skip(i + a.len())),
        s.subrange(i, i + a.len()) == a,
{
    assert((a + b).len() == a.len() + b.len());
    assert forall|k: int| 0 <= k < a.len() implies s[i + k] == a[k] by {
        assert((a + b)[k] == a[k]);
        assert(s.skip(i)[k] == s[i + k]);
    }
    assert forall|k: int| 0 <= k < b.len() implies s.skip(i + a.len())[k] == b[k] by {
        assert((a + b)[a.len() + k] == b[k]);
        assert(s.skip(i)[a.len() + k] == s[i + a.len() + k]);
    }
    assert(b =~= s.skip(i + a.len()).take(b.len() as int));
    assert(s.subrange(i, i + a.len()) =~= a);
}

/// Parsing at the start of an encoded well-formed header list (followed
/// by anything at all) succeeds and recovers exactly that list.
pub proof fn lemma_sp_headers_encode(s: Seq<u8>, i: int, hs: Seq<SpecHeader>, cnt: int)
    requires
        0 <= i <= s.len(),
        0 <= cnt,
        cnt + hs.len() <= MAX_HEADERS,
        forall|k: int| 0 <= k < hs.len() ==> wf_header(hs[k]),
        (enc_headers(hs) + crlf()).is_prefix_of(s.skip(i)),
    ensures
        sp_headers(s, i, cnt) == (HeadersParse::Complete {
            end: i + enc_headers(hs).len() + 2,
            list: hs,
        }),
    decreases hs.len(),
{
    if hs.len() == 0 {
        assert(enc_headers(hs) + crlf() =~= crlf());
        lemma_prefix_skip(s, i, crlf(), Seq::empty());
        assert(s[i] == 13 && s[i + 1] == 10);
        assert(hs =~= Seq::<SpecHeader>::empty());
        assert(sp_headers(s, i, cnt) == (HeadersParse::Complete { end: i + 2, list: hs }));
    } else {
        let n = hs[0].0;
        let v = hs[0].1;
        let rest = hs.drop_first();
        let nl = n.len() as int;
        let vl = v.len() as int;
        let tail = enc_headers(rest) + crlf();
        assert(enc_headers(hs) == enc_header(hs[0]) + enc_headers(rest));
        assert(enc_headers(hs) + crlf() =~= n + (seq![58u8, 32u8] + (v + (crlf() + tail))));
        lemma_prefix_skip(s, i, n, seq![58u8, 32u8] + (v + (crlf() + tail)));
        lemma_prefix_skip(s, i + nl, seq![58u8, 32u8], v + (crlf() + tail));
        lemma_prefix_skip(s, i + nl + 2, v, crlf() + tail);
        lemma_prefix_skip(s, i + nl + 2 + vl, crlf(), tail);
        let j = i + nl;
        let k = j + 2;
        let ve = k + vl;
        // the byte layout around the first header line
        assert(s[j] == 58 && s[j + 1] == 32);
        assert(s[ve] == 13 && s[ve + 1] == 10);
        // the name is the maximal token run at i
        assert(!is_token_byte(13) && !is_token_byte(58) && !is_token_byte(32));
        assert(wf_header(hs[0]));
        assert forall|q: int| i <= q < i + nl implies is_token_byte(s[q]) by {
            assert(s[i + (q - i)] == n[q - i]);
        }
        lemma_run_len_exact(s, i, CLASS_TOKEN, nl);
        // the single encoder space is the maximal whitespace run after the colon
        assert(!is_ows_byte(13));
        if vl > 0 {
            assert(s[k] == v[0]);
            assert(!is_ows_byte(s[k]));
        } else {
            assert(s[k] == 13);
        }
        lemma_run_len_exact(s, j + 1, CLASS_OWS, 1);
        // the value is the maximal value-byte run at k
        assert(!is_value_byte(13));
        assert forall|q: int| k <= q < k + vl implies is_value_byte(s[q]) by {
            assert(s[k + (q - k)] == v[q - k]);
        }
        lemma_run_len_exact(s, k, CLASS_VALUE, vl);
        // recurse over the remaining headers
        lemma_sp_headers_encode(s, ve + 2, rest, cnt + 1);
        assert(s[i] == n[0]);
        assert(is_token_byte(s[i]) && s[i] != 13);
        assert(s.subrange(i, j) == n);
        assert(s.subrange(k, ve) == v);
        let got = sp_headers(s, i, cnt);
        assert(got == (HeadersParse::Complete {
            end: ve + 2 + enc_headers(rest).len() + 2,
            list: seq![(n, v)] + rest,
        }));
        assert(seq![(n, v)] + rest =~= hs);
        assert(enc_headers(hs).len() == enc_header(hs[0]).len() + enc_headers(rest).len());
    }
}

/// Parsing at the start of an encoded well-formed request head (followed
/// by anything at all) succeeds, reports the head's exact length, and
/// recovers the method, target and header list it was built from.
#[verifier::rlimit(60)]
pub proof fn lemma_sp_head_encode(s: Seq<u8>, m: Seq<u8>, t: Seq<u8>, hs: Seq<SpecHeader>)
    requires
        wf_head(m, t, hs),
        enc_head(m, t, hs).is_prefix_of(s),
    ensures
        sp_head(s) == (HeadParse::Complete {
            end: enc_head(m, t, hs).len() as int,
            method: m,
            target: t,
            list: hs,
        }),
{
    let ml = m.len() as int;
    let tl = t.len() as int;
    let hdrs = enc_headers(hs) + crlf();
    assert(s.skip(0) =~= s);
    assert(enc_head(m, t, hs) =~= m + (seq![32u8] + (t + (seq![32u8] + (lit_version() + hdrs)))));
    lemma_prefix_skip(s, 0, m, seq![32u8] + (t + (seq![32u8] + (lit_version() + hdrs))));
    lemma_prefix_skip(s, ml, seq![32u8], t + (seq![32u8] + (lit_version() + hdrs)));
    lemma_prefix_skip(s, ml + 1, t, seq![32u8] + (lit_version() + hdrs));
    lemma_prefix_skip(s, ml + 1 + tl, seq![32u8], lit_version() + hdrs);
    lemma_prefix_skip(s, ml + 1 + tl + 1, lit_version(), hdrs);
    assert(s[ml] == 32 && s[ml + 1 + tl] == 32);
    // the method is the maximal token run at 0
    assert(!is_token_byte(32));
    assert forall|q: int| 0 <= q < ml implies is_token_byte(s[q]) by {
        assert(s[0 + q] == m[q]);
    }
    lemma_run_len_exact(s, 0, CLASS_TOKEN, ml);
    // the target is the maximal target run after the first space
    assert(!is_target_byte(32));
    assert forall|q: int| ml + 1 <= q < ml + 1 + tl implies is_target_byte(s[q]) by {
        assert(s[ml + 1 + (q - ml - 1)] == t[q - ml - 1]);
    }
    lemma_run_len_exact(s, ml + 1, CLASS_TARGET, tl);
    // the version literal follows the second space
    let vi = ml + 1 + tl + 1;
    lemma_lit_cmp_prefix(s, vi, lit_version());
    assert(lit_version().len() == 10);
    lemma_sp_headers_encode(s, vi + 10, hs, 0);
    assert(s.subrange(0, ml) == m);
    assert(s.subrange(ml + 1, ml + 1 + tl) == t);
    assert(crlf().len() == 2);
    assert(enc_head(m, t, hs).len() == ml + 1 + tl + 1 + 10 + enc_headers(hs).len() + 2);
}

/// Parsing at the start of an encoded well-formed response head
/// (followed by anything at all, such as the body) succeeds and
/// recovers the status code and the header list.
pub proof fn lemma_sp_resp_encode(s: Seq<u8>, status: nat, reason: Seq<u8>, hs: Seq<SpecHeader>)
    requires
        100 <= status <= 999,
        wf_reason(reason),
        wf_headers(hs),
        enc_resp_head(status, reason, hs).is_prefix_of(s),
    ensures
        sp_resp(s) == (RespParse::Complete {
            end: enc_resp_head(status, reason, hs).len() as int,
            status: status as int,
            list: hs,
        }),
{
    lemma_dec_of_len3(status);
    lemma_dec_of_digits(status);
    lemma_dec_val_of(status);
    let d = dec_of(status);
    let rl = reason.len() as int;
    let hdrs = enc_headers(hs) + crlf();
    assert(s.skip(0) =~= s);
    assert(lit_resp_prefix().len() == 9);
    assert(enc_resp_head(status, reason, hs) =~= lit_resp_prefix() + (d + (seq![32u8] + (reason
        + (crlf() + hdrs)))));
    lemma_prefix_skip(s, 0, lit_resp_prefix(), d + (seq![32u8] + (reason + (crlf() + hdrs))));
    lemma_prefix_skip(s, 9, d, seq![32u8] + (reason + (crlf() + hdrs)));
    lemma_prefix_skip(s, 12, seq![32u8], reason + (crlf() + hdrs));
    lemma_prefix_skip(s, 13, reason, crlf() + hdrs);
    lemma_prefix_skip(s, 13 + rl, crlf(), hdrs);
    lemma_lit_cmp_prefix(s, 0, lit_resp_prefix());
    // the status is the maximal digit run after the prefix
    assert(s[12] == 32 && !is_digit_byte(32));
    assert forall|q: int| 9 <= q < 12 implies is_digit_byte(s[q]) by {
        assert(s[9 + (q - 9)] == d[q - 9]);
        assert(is_digit_byte(d[q - 9]));
    }
    lemma_run_len_exact(s, 9, CLASS_DIGIT, 3);
    // the reason phrase is the maximal value run after the status
    assert(s[13 + rl] == 13 && s[13 + rl + 1] == 10);
    assert(!is_value_byte(13));
    assert forall|q: int| 13 <= q < 13 + rl implies is_value_byte(s[q]) by {
        assert(s[13 + (q - 13)] == reason[q - 13]);
    }
    lemma_run_len_exact(s, 13, CLASS_VALUE, rl);
    // the recovered status is the one encoded
    assert(s.subrange(9, 12) == d);
    lemma_sp_headers_encode(s, 13 + rl + 2, hs, 0);
    assert(crlf().len() == 2);
    assert(enc_resp_head(status, reason, hs).len() == 9 + 3 + 1 + rl + 2 + enc_headers(hs).len()
        + 2);
}

} // verus!
