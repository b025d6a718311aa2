//! The body resolver: given a parsed header list, determines how many
//! body bytes the request announces (`Content-Length`) and whether the
//! client asks for the `100 Continue` interim response (`Expect:
//! 100-continue`).  Header names are compared case-insensitively and
//! the first matching header wins; a malformed length value counts as
//! no announced length at all.

use vstd::prelude::*;
use vstd::string::StringSliceAdditionalSpecFns;

use crate::ascii::{all_digits, dec_of, dec_val, eq_lower, is_digit_byte, lemma_dec_of_digits,
    lemma_dec_val_of, lit_vec, lower_seq};
use crate::grammar::SpecHeader;
use crate::parser::{hsv, Header};

verus! {

/// The lowercase name of the header that announces the body length.
pub open spec fn lit_content_length() -> Seq<u8> {
    "content-length".spec_bytes()
}

/// The lowercase name of the continuation-request header.
pub open spec fn lit_expect() -> Seq<u8> {
    "expect".spec_bytes()
}

/// The only continuation token the engine understands, lowercase.
pub open spec fn lit_100_continue() -> Seq<u8> {
    "100-continue".spec_bytes()
}

/// What the headers say about the body, per the contract of
/// [`resolve_body`].
#[derive(Debug)]
pub struct BodyExpectation {
    /// The announced body length, when a well-formed `Content-Length`
    /// header is present.
    pub expected_length: Option<usize>,
    /// Whether the client asked for `100 Continue` before sending the
    /// body.
    pub wants_continue: bool,
}

/// The value of the first header whose name case-folds to `name`.
pub open spec fn sp_find_header(hs: Seq<SpecHeader>, name: Seq<u8>) -> Option<Seq<u8>>
    decreases hs.len(),
{
    if hs.len() == 0 {
        None
    } else if lower_seq(hs[0].0) == name {
        Some(hs[0].1)
    } else {
        sp_find_header(hs.drop_first(), name)
    }
}

/// The value a digit sequence resolves to: its number when it is
/// non-empty, all digits, and fits the machine word; nothing otherwise.
pub open spec fn sp_dec_opt(s: Seq<u8>) -> Option<usize> {
    if s.len() >= 1 && all_digits(s) && dec_val(s) <= usize::MAX {
        Some(dec_val(s) as usize)
    } else {
        None
    }
}

/// The body length the header list announces.
pub open spec fn sp_content_length(hs: Seq<SpecHeader>) -> Option<usize> {
    match sp_find_header(hs, lit_content_length()) {
        Some(v) => sp_dec_opt(v),
        None => None,
    }
}

/// Whether the header list asks for the continuation handshake.
pub open spec fn sp_wants_continue(hs: Seq<SpecHeader>) -> bool {
    match sp_find_header(hs, lit_expect()) {
        Some(v) => lower_seq(v) == lit_100_continue(),
        None => false,
    }
}

/// Finds the first header whose name case-folds to `name` (which must
/// already be lowercase) and hands back a copy of its value.
pub fn find_header(hs: &Vec<Header>, name: &Vec<u8>) -> (r: Option<Vec<u8>>)
    ensures
        match r {
            Some(v) => sp_find_header(hsv(hs@), name@) == Some(v@),
            None => sp_find_header(hsv(hs@), name@) is None,
        },
{
    let ghost g = hsv(hs@);
    let mut i: usize = 0;
    assert(g.skip(0) =~= g);
    while i < hs.len()
        invariant
            i <= hs.len(),
            g == hsv(hs@),
            g.len() == hs@.len(),
            sp_find_header(g, name@) == sp_find_header(g.skip(i as int), name@),
        decreases hs.len() - i,
    {
        assert(g.skip(i as int)[0] == g[i as int]);
        if eq_lower(&hs[i].name, name) {
            let v = crate::ascii::copy_range(&hs[i].value, 0, hs[i].value.len());
            assert(v@ =~= hs@[i as int].value@);
            return Some(v);
        }
        assert(g.skip(i as int).drop_first() =~= g.skip(i + 1));
        i = i + 1;
    }
    assert(g.skip(i as int).len() == 0);
    None
}

/// The number in a digit sequence is never negative.
proof fn lemma_dec_val_nonneg(s: Seq<u8>)
    requires
        all_digits(s),
    ensures
        dec_val(s) >= 0,
    decreases s.len(),
{
    if s.len() > 0 {
        assert(all_digits(s.drop_last())) by {
            assert(forall|k: int| 0 <= k < s.len() - 1 ==> s.drop_last()[k] == s[k]);
        }
        lemma_dec_val_nonneg(s.drop_last());
        assert(is_digit_byte(s.last()));
    }
}

/// Extending a digit sequence to the right never shrinks its number.
proof fn lemma_dec_val_take_le(s: Seq<u8>, i: int)
    requires
        all_digits(s),
        0 <= i <= s.len(),
    ensures
        dec_val(s.take(i)) <= dec_val(s),
    decreases s.len() - i,
{
    if i == s.len() {
        assert(s.take(i) =~= s);
    } else {
        assert(s.take(i + 1).drop_last() =~= s.take(i));
        assert(s.take(i + 1).last() == s[i]);
        assert(all_digits(s.take(i))) by {
            assert(forall|k: int| 0 <= k < i ==> s.take(i)[k] == s[k]);
        }
        lemma_dec_val_nonneg(s.take(i));
        assert(is_digit_byte(s[i]));
        assert(dec_val(s.take(i + 1)) == dec_val(s.take(i)) * 10 + (s[i] - 48));
        lemma_dec_val_take_le(s, i + 1);
    }
}

/// Reads a decimal value: `Some` exactly when the bytes are one or more
/// digits whose value fits a machine word.
pub fn parse_dec(v: &Vec<u8>) -> (r: Option<usize>)
    ensures
        r == sp_dec_opt(v@),
{
    if v.len() == 0 {
        return None;
    }
    let mut acc: usize = 0;
    let mut i: usize = 0;
    assert(v@.take(0) =~= Seq::<u8>::empty());
    while i < v.len()
        invariant
            i <= v.len(),
            v@.len() >= 1,
            all_digits(v@.take(i as int)),
            acc == dec_val(v@.take(i as int)),
        decreases v.len() - i,
    {
        let b = v[i];
        if b < 48 || b > 57 {
            assert(!all_digits(v@));
            return None;
        }
        let d = (b - 48) as usize;
        proof {
            assert(v@.take(i + 1).drop_last() =~= v@.take(i as int));
            assert(v@.take(i + 1).last() == v@[i as int]);
            assert(all_digits(v@.take(i + 1))) by {
                assert(forall|k: int| 0 <= k < i ==> v@.take(i + 1)[k] == v@.take(i as int)[k]);
            }
        }
        if acc > (usize::MAX - d) / 10 {
            proof {
                let m = (usize::MAX - d) as int;
                assert(m == 10 * (m / 10) + m % 10 && 0 <= m % 10 < 10);
                assert(acc * 10 + d > usize::MAX) by (nonlinear_arith)
                    requires
                        acc > m / 10,
                        m == 10 * (m / 10) + m % 10,
                        0 <= m % 10 < 10,
                        m == usize::MAX - d,
                ;
                assert(dec_val(v@.take(i + 1)) > usize::MAX);
                if all_digits(v@) {
                    lemma_dec_val_take_le(v@, i + 1);
                    assert(dec_val(v@) > usize::MAX);
                }
            }
            return None;
        }
        acc = acc * 10 + d;
        i = i + 1;
    }
    assert(v@.take(i as int) =~= v@);
    Some(acc)
}

/// Resolves the body expectation of a parsed header list: the announced
/// body length and whether a `100 Continue` is wanted, exactly as
/// [`sp_content_length`] and [`sp_wants_continue`] define them.
pub fn resolve_body(hs: &Vec<Header>) -> (r: BodyExpectation)
    ensures
        r.expected_length == sp_content_length(hsv(hs@)),
        r.wants_continue == sp_wants_continue(hsv(hs@)),
{
    let cl_name = lit_vec("content-length");
    let expected_length = match find_header(hs, &cl_name) {
        Some(v) => parse_dec(&v),
        None => None,
    };
    let exp_name = lit_vec("expect");
    let cont = lit_vec("100-continue");
    let wants_continue = match find_header(hs, &exp_name) {
        Some(v) => eq_lower(&v, &cont),
        None => false,
    };
    BodyExpectation { expected_length, wants_continue }
}

/// The first header whose name case-folds to `name` decides the lookup.
proof fn lemma_find_first(hs: Seq<SpecHeader>, name: Seq<u8>, i: int)
    requires
        0 <= i < hs.len(),
        lower_seq(hs[i].0) == name,
        forall|j: int| 0 <= j < i ==> lower_seq(#[trigger] hs[j].0) != name,
    ensures
        sp_find_header(hs, name) == Some(hs[i].1),
    decreases i,
{
    if i == 0 {
    } else {
        assert(lower_seq(hs[0].0) != name);
        lemma_find_first(hs.drop_first(), name, i - 1);
        assert(hs.drop_first()[i - 1] == hs[i]);
    }
}

/// A lookup over headers none of whose names case-fold to `name` finds
/// nothing.
proof fn lemma_find_none(hs: Seq<SpecHeader>, name: Seq<u8>)
    requires
        forall|j: int| 0 <= j < hs.len() ==> lower_seq(#[trigger] hs[j].0) != name,
    ensures
        sp_find_header(hs, name) is None,
    decreases hs.len(),
{
    if hs.len() > 0 {
        lemma_find_none(hs.drop_first(), name);
    }
}

/// A header list whose first `Content-Length` header (under any
/// casing of the name) carries the decimal notation of `k` resolves to
/// an expected length of exactly `k`.
pub proof fn lemma_content_length_resolved(hs: Seq<SpecHeader>, i: int, k: usize)
    requires
        0 <= i < hs.len(),
        lower_seq(hs[i].0) == lit_content_length(),
        forall|j: int| 0 <= j < i ==> lower_seq(#[trigger] hs[j].0) != lit_content_length(),
        hs[i].1 == dec_of(k as nat),
    ensures
        sp_content_length(hs) == Some(k),
{
    lemma_find_first(hs, lit_content_length(), i);
    lemma_dec_of_digits(k as nat);
    lemma_dec_val_of(k as nat);
}

/// A header list whose first `Content-Length` header carries anything
/// but digits resolves to no expected length at all.
pub proof fn lemma_content_length_malformed(hs: Seq<SpecHeader>, i: int)
    requires
        0 <= i < hs.len(),
        lower_seq(hs[i].0) == lit_content_length(),
        forall|j: int| 0 <= j < i ==> lower_seq(#[trigger] hs[j].0) != lit_content_length(),
        hs[i].1.len() == 0 || !all_digits(hs[i].1),
    ensures
        sp_content_length(hs) is None,
{
    lemma_find_first(hs, lit_content_length(), i);
}

/// A header list with no `Content-Length` header resolves to no
/// expected length.
pub proof fn lemma_content_length_absent(hs: Seq<SpecHeader>)
    requires
        forall|j: int| 0 <= j < hs.len() ==> lower_seq(#[trigger] hs[j].0) != lit_content_length(),
    ensures
        sp_content_length(hs) is None,
{
    lemma_find_none(hs, lit_content_length());
}

/// A header list whose first `Expect` header carries `100-continue`
/// under any casing asks for the continuation handshake.
pub proof fn lemma_expect_continue(hs: Seq<SpecHeader>, i: int)
    requires
        0 <= i < hs.len(),
        lower_seq(hs[i].0) == lit_expect(),
        forall|j: int| 0 <= j < i ==> lower_seq(#[trigger] hs[j].0) != lit_expect(),
        lower_seq(hs[i].1) == lit_100_continue(),
    ensures
        sp_wants_continue(hs),
{
    lemma_find_first(hs, lit_expect(), i);
}

/// A first `Expect` header with any other value does not ask for the
/// handshake.
pub proof fn lemma_expect_differs(hs: Seq<SpecHeader>, i: int)
    requires
        0 <= i < hs.len(),
        lower_seq(hs[i].0) == lit_expect(),
        forall|j: int| 0 <= j < i ==> lower_seq(#[trigger] hs[j].0) != lit_expect(),
        lower_seq(hs[i].1) != lit_100_continue(),
    ensures
        !sp_wants_continue(hs),
{
    lemma_find_first(hs, lit_expect(), i);
}

/// A header list with no `Expect` header does not ask for the
/// handshake.
pub proof fn lemma_expect_absent(hs: Seq<SpecHeader>)
    requires
        forall|j: int| 0 <= j < hs.len() ==> lower_seq(#[trigger] hs[j].0) != lit_expect(),
    ensures
        !sp_wants_continue(hs),
{
    lemma_find_none(hs, lit_expect());
}

} // verus!
