//! Byte-level vocabulary shared by the parser, the resolver and the framer:
//! the character classes of the HTTP/1.1 grammar, maximal-run scanning,
//! ASCII case folding, and decimal notation for unsigned integers.

use vstd::prelude::*;
use vstd::string::StrSliceExecFns;
use vstd::string::StringSliceAdditionalSpecFns;

verus! {

/// Class code for the `token` characters of header names and methods.
pub const CLASS_TOKEN: u8 = 0;

/// Class code for the characters allowed in a request target.
pub const CLASS_TARGET: u8 = 1;

/// Class code for optional whitespace (space and horizontal tab).
pub const CLASS_OWS: u8 = 2;

/// Class code for the characters allowed in a header value or reason
/// phrase (anything but CR and LF).
pub const CLASS_VALUE: u8 = 3;

/// Class code for the ASCII decimal digits.
pub const CLASS_DIGIT: u8 = 4;

/// The `token` characters of the HTTP grammar: the characters a method
/// or header name may consist of.
pub open spec fn is_token_byte(b: u8) -> bool {
    ||| b == 33
    ||| b == 35
    ||| b == 36
    ||| b == 37
    ||| b == 38
    ||| b == 39
    ||| b == 42
    ||| b == 43
    ||| b == 45
    ||| b == 46
    ||| b == 94
    ||| b == 95
    ||| b == 96
    ||| b == 124
    ||| b == 126
    ||| (48 <= b && b <= 57)
    ||| (97 <= b && b <= 122)
    ||| (65 <= b && b <= 90)
}

/// Characters allowed in a request target: visible ASCII (no space).
pub open spec fn is_target_byte(b: u8) -> bool {
    0x21 <= b && b <= 0x7e
}

/// Optional whitespace: space or horizontal tab.
pub open spec fn is_ows_byte(b: u8) -> bool {
    b == 32 || b == 9
}

/// Characters allowed inside a header value: anything but CR and LF.
pub open spec fn is_value_byte(b: u8) -> bool {
    b != 13 && b != 10
}

/// An ASCII decimal digit.
pub open spec fn is_digit_byte(b: u8) -> bool {
    48 <= b && b <= 57
}

/// Membership of a byte in one of the five character classes.
pub open spec fn byte_in_class(c: u8, b: u8) -> bool {
    if c == CLASS_TOKEN {
        is_token_byte(b)
    } else if c == CLASS_TARGET {
        is_target_byte(b)
    } else if c == CLASS_OWS {
        is_ows_byte(b)
    } else if c == CLASS_VALUE {
        is_value_byte(b)
    } else {
        is_digit_byte(b)
    }
}

/// Executable test for [`byte_in_class`].
pub fn byte_is(c: u8, b: u8) -> (r: bool)
    ensures
        r == byte_in_class(c, b),
{
    if c == CLASS_TOKEN {
        b == 33 || b == 35 || b == 36 || b == 37 || b == 38 || b == 39 || b == 42
            || b == 43 || b == 45 || b == 46 || b == 94 || b == 95 || b == 96
            || b == 124 || b == 126 || (48 <= b && b <= 57) || (97 <= b && b <= 122)
            || (65 <= b && b <= 90)
    } else if c == CLASS_TARGET {
        0x21 <= b && b <= 0x7e
    } else if c == CLASS_OWS {
        b == 32 || b == 9
    } else if c == CLASS_VALUE {
        b != 13 && b != 10
    } else {
        48 <= b && b <= 57
    }
}

/// Length of the maximal run of bytes of class `c` in `s` starting at `i`.
pub open spec fn run_len(s: Seq<u8>, i: int, c: u8) -> int
    decreases s.len() - i,
    when 0 <= i <= s.len()
{
    if i < s.len() && byte_in_class(c, s[i]) {
        1 + run_len(s, i + 1, c)
    } else {
        0
    }
}

/// A maximal run stays within the sequence, and every byte in it is of
/// the class.
pub proof fn lemma_run_len_bounds(s: Seq<u8>, i: int, c: u8)
    requires
        0 <= i <= s.len(),
    ensures
        0 <= run_len(s, i, c) <= s.len() - i,
        forall|k: int| i <= k < i + run_len(s, i, c) ==> byte_in_class(c, s[k]),
    decreases s.len() - i,
{
    if i < s.len() && byte_in_class(c, s[i]) {
        lemma_run_len_bounds(s, i + 1, c);
    }
}

/// A run of exactly `l` class bytes, delimited by the end of the
/// sequence or a byte outside the class, is the maximal run.
pub proof fn lemma_run_len_exact(s: Seq<u8>, i: int, c: u8, l: int)
    requires
        0 <= i,
        0 <= l,
        i + l <= s.len(),
        forall|k: int| i <= k < i + l ==> byte_in_class(c, s[k]),
        i + l == s.len() || !byte_in_class(c, s[i + l]),
    ensures
        run_len(s, i, c) == l,
    decreases l,
{
    if l == 0 {
    } else {
        assert(byte_in_class(c, s[i]));
        lemma_run_len_exact(s, i + 1, c, l - 1);
    }
}

/// Executable maximal-run scan: returns [`run_len`]`(v@, i, c)`.
pub fn scan(v: &Vec<u8>, i: usize, c: u8) -> (r: usize)
    requires
        i <= v.len(),
    ensures
        i + r <= v.len(),
        r == run_len(v@, i as int, c),
{
    let mut j = i;
    while j < v.len() && byte_is(c, v[j])
        invariant
            i <= j <= v.len(),
            run_len(v@, i as int, c) == (j - i) + run_len(v@, j as int, c),
        decreases v.len() - j,
    {
        j = j + 1;
    }
    j - i
}

/// ASCII case folding of one byte.
pub open spec fn lower(b: u8) -> u8 {
    if 65 <= b && b <= 90 {
        (b + 32) as u8
    } else {
        b
    }
}

/// ASCII case folding of a byte sequence.
pub open spec fn lower_seq(s: Seq<u8>) -> Seq<u8> {
    s.map_values(|b: u8| lower(b))
}

/// Executable ASCII case folding of one byte.
pub fn to_lower(b: u8) -> (r: u8)
    ensures
        r == lower(b),
{
    if 65 <= b && b <= 90 {
        b + 32
    } else {
        b
    }
}

/// Case-insensitive comparison of `a` against an (already lowercase)
/// expected byte sequence `b`.
pub fn eq_lower(a: &Vec<u8>, b: &Vec<u8>) -> (r: bool)
    ensures
        r == (lower_seq(a@) == b@),
{
    if a.len() != b.len() {
        assert(lower_seq(a@).len() == a@.len());
        return false;
    }
    let mut i: usize = 0;
    while i < a.len()
        invariant
            i <= a.len(),
            a.len() == b.len(),
            forall|k: int| 0 <= k < i ==> lower(a@[k]) == b@[k],
        decreases a.len() - i,
    {
        if to_lower(a[i]) != b[i] {
            assert(lower_seq(a@)[i as int] != b@[i as int]);
            return false;
        }
        i = i + 1;
    }
    assert(lower_seq(a@) =~= b@);
    true
}

/// Exact comparison of two byte vectors.
pub fn eq_bytes(a: &Vec<u8>, b: &Vec<u8>) -> (r: bool)
    ensures
        r == (a@ == b@),
{
    if a.len() != b.len() {
        return false;
    }
    let mut i: usize = 0;
    while i < a.len()
        invariant
            i <= a.len(),
            a.len() == b.len(),
            forall|k: int| 0 <= k < i ==> a@[k] == b@[k],
        decreases a.len() - i,
    {
        if a[i] != b[i] {
            return false;
        }
        i = i + 1;
    }
    assert(a@ =~= b@);
    true
}

/// Copies `v[start..end]` into a fresh vector.
pub fn copy_range(v: &Vec<u8>, start: usize, end: usize) -> (r: Vec<u8>)
    requires
        start <= end <= v.len(),
    ensures
        r@ == v@.subrange(start as int, end as int),
{
    let mut r: Vec<u8> = Vec::new();
    let mut k = start;
    while k < end
        invariant
            start <= k <= end <= v.len(),
            r@ == v@.subrange(start as int, k as int),
        decreases end - k,
    {
        r.push(v[k]);
        assert(v@.subrange(start as int, k + 1 as int) =~= v@.subrange(start as int, k as int)
            .push(v@[k as int]));
        k = k + 1;
    }
    r
}

/// Appends all of `src` to `dst`.
pub fn extend_from(dst: &mut Vec<u8>, src: &Vec<u8>)
    ensures
        final(dst)@ == old(dst)@ + src@,
{
    let mut k: usize = 0;
    while k < src.len()
        invariant
            k <= src.len(),
            dst@ == old(dst)@ + src@.subrange(0, k as int),
        decreases src.len() - k,
    {
        dst.push(src[k]);
        assert(old(dst)@ + src@.subrange(0, k + 1 as int) =~= (old(dst)@ + src@.subrange(
            0,
            k as int,
        )).push(src@[k as int]));
        k = k + 1;
    }
    assert(src@.subrange(0, src@.len() as int) =~= src@);
}

/// Appends one byte to `dst`, phrased as concatenation.
pub fn push_byte(dst: &mut Vec<u8>, b: u8)
    ensures
        final(dst)@ == old(dst)@ + seq![b],
{
    dst.push(b);
    proof {
        assert(old(dst)@.push(b) =~= old(dst)@ + seq![b]);
    }
}

/// The bytes of an ASCII string literal, as a fresh vector.
pub fn lit_vec(s: &str) -> (v: Vec<u8>)
    ensures
        v@ == s.spec_bytes(),
{
    s.as_bytes_vec()
}

/// Decimal notation of `n`, most significant digit first, no sign and
/// no leading zero (except for `n == 0` itself).
pub open spec fn dec_of(n: nat) -> Seq<u8>
    decreases n,
{
    if n < 10 {
        seq![(48 + n) as u8]
    } else {
        dec_of(n / 10).push((48 + n % 10) as u8)
    }
}

/// Whether every byte of `s` is a decimal digit.
pub open spec fn all_digits(s: Seq<u8>) -> bool {
    forall|k: int| 0 <= k < s.len() ==> is_digit_byte(s[k])
}

/// The numeric value of a digit sequence (most significant first).
pub open spec fn dec_val(s: Seq<u8>) -> int
    decreases s.len(),
{
    if s.len() == 0 {
        0
    } else {
        dec_val(s.drop_last()) * 10 + (s.last() - 48)
    }
}

/// Decimal notation consists of digits and is never empty.
pub proof fn lemma_dec_of_digits(n: nat)
    ensures
        dec_of(n).len() >= 1,
        all_digits(dec_of(n)),
    decreases n,
{
    if n < 10 {
        assert(dec_of(n) =~= seq![(48 + n) as u8]);
    } else {
        lemma_dec_of_digits(n / 10);
        assert forall|k: int| 0 <= k < dec_of(n).len() implies is_digit_byte(dec_of(n)[k]) by {
            if k < dec_of(n / 10).len() {
                assert(dec_of(n)[k] == dec_of(n / 10)[k]);
            }
        }
    }
}

/// Reading decimal notation back gives the number it was made from.
pub proof fn lemma_dec_val_of(n: nat)
    ensures
        dec_val(dec_of(n)) == n,
    decreases n,
{
    if n < 10 {
        reveal_with_fuel(dec_val, 2);
        assert(dec_of(n) =~= seq![(48 + n) as u8]);
        assert(dec_of(n).drop_last() =~= Seq::<u8>::empty());
        assert(dec_val(Seq::<u8>::empty()) == 0);
        assert(dec_val(dec_of(n)) == n);
    } else {
        lemma_dec_val_of(n / 10);
        let d = (48 + n % 10) as u8;
        assert(dec_of(n) == dec_of(n / 10).push(d));
        assert(dec_of(n).drop_last() =~= dec_of(n / 10));
        assert(dec_of(n).last() == d);
        assert(dec_val(dec_of(n)) == dec_val(dec_of(n / 10)) * 10 + (d - 48));
        assert(n / 10 * 10 + n % 10 == n) by (nonlinear_arith);
    }
}

/// A number of three decimal digits has a three-byte notation.
pub proof fn lemma_dec_of_len3(n: nat)
    requires
        100 <= n <= 999,
    ensures
        dec_of(n).len() == 3,
{
    assert(10 <= n / 10 <= 99) by (nonlinear_arith)
        requires
            100 <= n <= 999,
    ;
    assert(1 <= n / 10 / 10 <= 9) by (nonlinear_arith)
        requires
            10 <= n / 10 <= 99,
    ;
    assert(dec_of(n / 10 / 10).len() == 1);
    assert(dec_of(n / 10).len() == 2);
}

/// Decimal notation of `n`, as a fresh vector.
pub fn dec_vec(n: usize) -> (r: Vec<u8>)
    ensures
        r@ == dec_of(n as nat),
    decreases n,
{
    if n < 10 {
        let mut v: Vec<u8> = Vec::new();
        v.push(48 + (n as u8));
        assert(v@ =~= dec_of(n as nat));
        v
    } else {
        let mut v = dec_vec(n / 10);
        v.push(48 + ((n % 10) as u8));
        v
    }
}

} // verus!
